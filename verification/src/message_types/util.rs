use vstd::prelude::*;
use vstd::string::*;
use crate::text::str_bytes;
use crate::parse::model::{SPACE, LF};
use crate::parse::parse::{IrcMsg, is_full_prefix};
use crate::irccase::bytes_eq_ignore_irc_case;
use crate::text::{bytes_equal, str_from_utf8};
use crate::message_types::commands::nick_bytes;
use crate::message_types::server::incoming_faults;

verus! {

/// `s` holds a space or a line feed.
pub open spec fn spec_is_valid_target(s: Seq<u8>) -> bool {
    exists|i: int| 0 <= i < s.len() && (#[trigger] s[i] == SPACE || s[i] == LF)
}

/// Whether `target` holds a space or a line feed.
pub fn is_valid_target(target: &str) -> (r: bool)
    ensures
        r == spec_is_valid_target(target.spec_bytes()),
{
    let bytes = str_bytes(target);
    let mut i: usize = 0;
    while i < bytes.len()
        invariant
            0 <= i <= bytes.len(),
            bytes@ == target.spec_bytes(),
            forall|j: int| 0 <= j < i ==> #[trigger] bytes@[j] != SPACE && bytes@[j] != LF,
        decreases bytes.len() - i,
    {
        if bytes[i] == SPACE || bytes[i] == LF {
            return true;
        }
        i = i + 1;
    }
    false
}

/// Reading `msg` as an incoming message goes wrong inside the reader: a
/// `NICK` line with one text parameter and a full prefix.
/// `IncomingMsg::from_msg` must not be given such a line.
pub fn incoming_would_fault(msg: &IrcMsg) -> (r: bool)
    ensures
        r == incoming_faults(msg@),
{
    let name = nick_bytes();
    let command = msg.command_as_bytes();
    if !bytes_equal(command, name.as_slice()) {
        return false;
    }
    if !bytes_eq_ignore_irc_case(command, name.as_slice()) {
        return false;
    }
    if msg.len() != 1 {
        return false;
    }
    if !is_full_prefix(msg.get_prefix_str()) {
        return false;
    }
    str_from_utf8(msg.index(0)).is_ok()
}

} // verus!
