use vstd::prelude::*;
use crate::parse::parse::IrcMsg;
use crate::parse::model::IrcMsgView;

verus! {

/// Answers messages with messages of its own.
pub trait MessageResponder {
    /// The messages that the responder cannot answer without a fault.
    spec fn faults_on(&self, message: IrcMsgView) -> bool;

    /// The answers to a message.
    fn on_irc_msg(&mut self, message: &IrcMsg) -> Vec<IrcMsg>
        requires
            !old(self).faults_on(message@),
    ;

    /// The responder is done and may be dropped.
    fn finished(&self) -> (r: bool)
        returns
            false,
    {
        false
    }
}

} // verus!
