use vstd::prelude::*;
use crate::parse::model::IrcMsgView;
use crate::parse::parse::IrcMsg;

verus! {

/// A typed message read out of a parsed line; the line comes back as it was
/// when it is not of the type.
pub trait FromIrcMsg: Sized {
    /// The lines on which reading fails by a fault of its own rather than by
    /// handing the line back.
    spec fn faults_on(v: IrcMsgView) -> bool;

    fn from_irc_msg(msg: IrcMsg) -> Result<Self, IrcMsg>
        requires
            !Self::faults_on(msg@),
    ;
}

} // verus!
