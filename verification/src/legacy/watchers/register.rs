//! Why a registration was refused.

use vstd::prelude::*;
use crate::parse::model::IrcMsgView;
use crate::parse::parse::IrcMsg;
use crate::message_types::server::{IncomingMsg, IncomingKind, spec_incoming_kind, incoming_faults};
use crate::numerics::{ERR_NONICKNAMEGIVEN, ERR_ERRONEUSNICKNAME, ERR_NICKNAMEINUSE, ERR_NICKCOLLISION, ERR_UNAVAILRESOURCE, ERR_RESTRICTED};

verus! {

/// The known reasons for refusing a registration.
#[derive(Clone, Copy, Debug, PartialEq, Eq, Structural)]
pub enum RegisterErrorType {
    NoNicknameGiven,
    NicknameInUse,
    UnavailableResource,
    ErroneousNickname,
    NicknameCollision,
    Restricted,
}

/// The reason that goes with a numeric reply, if it is one of the known ones.
pub open spec fn spec_from_ord_known(result: i32) -> Option<RegisterErrorType> {
    if result == ERR_NONICKNAMEGIVEN {
        Some(RegisterErrorType::NoNicknameGiven)
    } else if result == ERR_NICKNAMEINUSE {
        Some(RegisterErrorType::NicknameInUse)
    } else if result == ERR_UNAVAILRESOURCE {
        Some(RegisterErrorType::UnavailableResource)
    } else if result == ERR_ERRONEUSNICKNAME {
        Some(RegisterErrorType::ErroneousNickname)
    } else if result == ERR_NICKCOLLISION {
        Some(RegisterErrorType::NicknameCollision)
    } else if result == ERR_RESTRICTED {
        Some(RegisterErrorType::Restricted)
    } else {
        None
    }
}

impl RegisterErrorType {
    pub fn is_known_error(result: i32) -> (r: bool)
        ensures
            r == spec_from_ord_known(result) is Some,
    {
        RegisterErrorType::from_ord_known(result).is_some()
    }

    pub fn from_ord_known(result: i32) -> (r: Option<RegisterErrorType>)
        ensures
            r == spec_from_ord_known(result),
    {
        if result == ERR_NONICKNAMEGIVEN {
            Some(RegisterErrorType::NoNicknameGiven)
        } else if result == ERR_NICKNAMEINUSE {
            Some(RegisterErrorType::NicknameInUse)
        } else if result == ERR_UNAVAILRESOURCE {
            Some(RegisterErrorType::UnavailableResource)
        } else if result == ERR_ERRONEUSNICKNAME {
            Some(RegisterErrorType::ErroneousNickname)
        } else if result == ERR_NICKCOLLISION {
            Some(RegisterErrorType::NicknameCollision)
        } else if result == ERR_RESTRICTED {
            Some(RegisterErrorType::Restricted)
        } else {
            None
        }
    }
}

/// A refused registration: the reason and the reply that gave it.
#[derive(Debug)]
pub struct RegisterError {
    pub errtype: RegisterErrorType,
    pub message: IrcMsg,
}

impl Clone for RegisterError {
    fn clone(&self) -> (r: RegisterError)
        ensures
            r.errtype == self.errtype,
            r.message@ == self.message@,
    {
        RegisterError { errtype: self.errtype, message: self.message.clone() }
    }
}

impl RegisterError {
    /// The reply says the nick is already in use.
    pub fn should_pick_new_nickname(&self) -> (r: bool)
        requires
            !incoming_faults(self.message@),
        ensures
            r == (spec_incoming_kind(self.message@) matches IncomingKind::Numeric(n) && n
                == ERR_NICKNAMEINUSE),
    {
        match IncomingMsg::from_msg(self.message.clone()) {
            IncomingMsg::Numeric(num, _) => ERR_NICKNAMEINUSE == (num as i32),
            _ => false,
        }
    }
}

} // verus!
