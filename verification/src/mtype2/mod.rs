//! Message types read in place.  The submodules are named by who emits the
//! message: servers emit the messages of `server`.

use vstd::prelude::*;
use crate::parse::model::{IrcMsgView, parse_faults};
use crate::parse::parse2::IrcMsg;
use crate::parse::parse::spec_new_msg;
use crate::message_types::server::{IncomingKind, IncomingMsg, spec_incoming_kind, incoming_faults};
use crate::text::bytes_to_vec;

pub mod client;
pub mod server;
pub mod validated;
mod pong;
pub mod shapes;

verus! {

pub trait FromIrcMsg<'a>: Sized {
    type Err;

    /// The lines on which reading fails by a fault of its own.
    spec fn faults_on(v: Seq<u8>) -> bool;

    /// This never allocates, but may check the underlying storage for
    /// well-formedness.
    fn from_irc_msg(msg: &IrcMsg<'a>) -> Result<Self, Self::Err>
        requires
            !Self::faults_on(msg@),
    ;
}

/// How the typed readers classify a line, when it parses as an owned message.
pub open spec fn legacy_kind(v: Seq<u8>) -> Option<IncomingKind> {
    match spec_new_msg(v) {
        Ok(m) => Some(spec_incoming_kind(m)),
        Err(_) => None,
    }
}

/// Classifying the line fails by a fault of its own.
pub open spec fn legacy_faults(v: Seq<u8>) -> bool {
    ||| v.len() >= u32::MAX
    ||| parse_faults(v)
    ||| (spec_new_msg(v) matches Ok(m) && incoming_faults(m))
}

/// Whether classifying the line with the typed readers faults.
pub fn legacy_would_fault(bytes: &[u8]) -> (r: bool)
    ensures
        r == legacy_faults(bytes@),
{
    if bytes.len() >= u32::MAX as usize {
        return true;
    }
    let owned = bytes_to_vec(bytes);
    if crate::parse::parse::IrcMsg::would_fault(&owned) {
        return true;
    }
    match crate::parse::parse::IrcMsg::new(owned) {
        Ok(legacy) => crate::message_types::util::incoming_would_fault(&legacy),
        Err(_) => false,
    }
}

/// Classifies a line with the typed readers.
pub fn legacy_kind_of(bytes: &[u8]) -> (r: Option<IncomingKind>)
    requires
        !legacy_faults(bytes@),
    ensures
        r == legacy_kind(bytes@),
{
    match crate::parse::parse::IrcMsg::new(bytes_to_vec(bytes)) {
        Ok(legacy) => {
            let kind = IncomingMsg::from_msg(legacy);
            Some(incoming_kind_of(&kind))
        },
        Err(_) => None,
    }
}

fn incoming_kind_of(m: &IncomingMsg) -> (r: IncomingKind)
    ensures
        r == m@.0,
{
    match m {
        IncomingMsg::Join(_) => IncomingKind::Join,
        IncomingMsg::Kick(_) => IncomingKind::Kick,
        IncomingMsg::Mode(_) => IncomingKind::Mode,
        IncomingMsg::Nick(_) => IncomingKind::Nick,
        IncomingMsg::Notice(_) => IncomingKind::Notice,
        IncomingMsg::Part(_) => IncomingKind::Part,
        IncomingMsg::Ping(_) => IncomingKind::Ping,
        IncomingMsg::Privmsg(_) => IncomingKind::Privmsg,
        IncomingMsg::Quit(_) => IncomingKind::Quit,
        IncomingMsg::Topic(_) => IncomingKind::Topic,
        IncomingMsg::Invite(_) => IncomingKind::Invite,
        IncomingMsg::Numeric(n, _) => IncomingKind::Numeric(*n),
        IncomingMsg::Unknown(_) => IncomingKind::Unknown,
    }
}

/// ASCII lower case of a byte.
pub open spec fn ascii_fold(b: u8) -> u8 {
    if 0x41 <= b <= 0x5a {
        (b + 0x20) as u8
    } else {
        b
    }
}

/// Equal bytes, ignoring ASCII case.
pub open spec fn eq_ignore_ascii_case(a: Seq<u8>, b: Seq<u8>) -> bool {
    a.len() == b.len() && forall|i: int| 0 <= i < a.len() ==> ascii_fold(#[trigger] a[i]) == ascii_fold(b[i])
}

pub fn bytes_eq_ignore_ascii_case(a: &[u8], b: &[u8]) -> (r: bool)
    ensures
        r == eq_ignore_ascii_case(a@, b@),
{
    if a.len() != b.len() {
        return false;
    }
    let mut i: usize = 0;
    while i < a.len()
        invariant
            0 <= i <= a.len(),
            a.len() == b.len(),
            forall|j: int| 0 <= j < i ==> ascii_fold(#[trigger] a@[j]) == ascii_fold(b@[j]),
        decreases a.len() - i,
    {
        let x = if 0x41 <= a[i] && a[i] <= 0x5a { a[i] + 0x20 } else { a[i] };
        let y = if 0x41 <= b[i] && b[i] <= 0x5a { b[i] + 0x20 } else { b[i] };
        if x != y {
            return false;
        }
        i = i + 1;
    }
    true
}

} // verus!
