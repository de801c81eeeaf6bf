//! Turning a typed server message back into an incoming message.

use vstd::prelude::*;
use crate::parse::model::IrcMsgView;
use crate::parse::parse::command_bytes;
use crate::decimal::spec_parse_u16;
use crate::message_types::server::{IncomingMsg, IncomingKind, Join, Kick, Mode, Nick, Notice, Part, Ping, Privmsg, Quit, Topic, Invite, Numeric};

verus! {

/// A typed server message that can stand as an incoming message.
pub trait IntoIncomingMsg: Sized {
    /// The kind the message stands as, and its line.
    spec fn incoming_view(&self) -> (IncomingKind, IrcMsgView);

    fn into_incoming_msg(self) -> (r: IncomingMsg)
        ensures
            r@ == self.incoming_view(),
    ;
}

impl IntoIncomingMsg for Join {
    open spec fn incoming_view(&self) -> (IncomingKind, IrcMsgView) {
        (IncomingKind::Join, self@)
    }

    fn into_incoming_msg(self) -> (r: IncomingMsg) {
        IncomingMsg::Join(self)
    }
}

impl IntoIncomingMsg for Kick {
    open spec fn incoming_view(&self) -> (IncomingKind, IrcMsgView) {
        (IncomingKind::Kick, self@)
    }

    fn into_incoming_msg(self) -> (r: IncomingMsg) {
        IncomingMsg::Kick(self)
    }
}

impl IntoIncomingMsg for Mode {
    open spec fn incoming_view(&self) -> (IncomingKind, IrcMsgView) {
        (IncomingKind::Mode, self@)
    }

    fn into_incoming_msg(self) -> (r: IncomingMsg) {
        IncomingMsg::Mode(self)
    }
}

impl IntoIncomingMsg for Nick {
    open spec fn incoming_view(&self) -> (IncomingKind, IrcMsgView) {
        (IncomingKind::Nick, self@)
    }

    fn into_incoming_msg(self) -> (r: IncomingMsg) {
        IncomingMsg::Nick(self)
    }
}

impl IntoIncomingMsg for Notice {
    open spec fn incoming_view(&self) -> (IncomingKind, IrcMsgView) {
        (IncomingKind::Notice, self@)
    }

    fn into_incoming_msg(self) -> (r: IncomingMsg) {
        IncomingMsg::Notice(self)
    }
}

impl IntoIncomingMsg for Part {
    open spec fn incoming_view(&self) -> (IncomingKind, IrcMsgView) {
        (IncomingKind::Part, self@)
    }

    fn into_incoming_msg(self) -> (r: IncomingMsg) {
        IncomingMsg::Part(self)
    }
}

impl IntoIncomingMsg for Ping {
    open spec fn incoming_view(&self) -> (IncomingKind, IrcMsgView) {
        (IncomingKind::Ping, self@)
    }

    fn into_incoming_msg(self) -> (r: IncomingMsg) {
        IncomingMsg::Ping(self)
    }
}

impl IntoIncomingMsg for Privmsg {
    open spec fn incoming_view(&self) -> (IncomingKind, IrcMsgView) {
        (IncomingKind::Privmsg, self@)
    }

    fn into_incoming_msg(self) -> (r: IncomingMsg) {
        IncomingMsg::Privmsg(self)
    }
}

impl IntoIncomingMsg for Quit {
    open spec fn incoming_view(&self) -> (IncomingKind, IrcMsgView) {
        (IncomingKind::Quit, self@)
    }

    fn into_incoming_msg(self) -> (r: IncomingMsg) {
        IncomingMsg::Quit(self)
    }
}

impl IntoIncomingMsg for Topic {
    open spec fn incoming_view(&self) -> (IncomingKind, IrcMsgView) {
        (IncomingKind::Topic, self@)
    }

    fn into_incoming_msg(self) -> (r: IncomingMsg) {
        IncomingMsg::Topic(self)
    }
}

impl IntoIncomingMsg for Invite {
    open spec fn incoming_view(&self) -> (IncomingKind, IrcMsgView) {
        (IncomingKind::Invite, self@)
    }

    fn into_incoming_msg(self) -> (r: IncomingMsg) {
        IncomingMsg::Invite(self)
    }
}

impl IntoIncomingMsg for Numeric {
    open spec fn incoming_view(&self) -> (IncomingKind, IrcMsgView) {
        (IncomingKind::Numeric(spec_parse_u16(command_bytes(self@))->Some_0), self@)
    }

    fn into_incoming_msg(self) -> (r: IncomingMsg) {
        let code = self.get_code();
        IncomingMsg::Numeric(code, self)
    }
}

} // verus!
