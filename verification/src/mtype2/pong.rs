//! The server's answer to a `PING`.

use vstd::prelude::*;
use crate::parse::parse2::{IrcMsg, IrcMsgBuf, line_valid};
use crate::parse::model::{IrcMsgView, parse_faults};
use crate::parse::parse::spec_new_msg;
use crate::parse_helpers::spec_first_line;
use crate::message_types::server::{cmd_is, arg_is_text};
use crate::message_types::commands::{cmd_pong, pong_bytes};
use crate::irccase::bytes_eq_ignore_irc_case;
use crate::mtype2::FromIrcMsg;
use crate::text::{bytes_to_vec, str_from_utf8};

verus! {

/// The shape of a `PONG`: the command in any IRC case, one or two text
/// parameters read (any more are kept but not read).
pub open spec fn pong_shape(m: IrcMsgView) -> bool {
    &&& cmd_is(m, cmd_pong())
    &&& m.args.len() >= 1
    &&& arg_is_text(m, 0)
    &&& (m.args.len() >= 2 ==> arg_is_text(m, 1))
}

/// A line read as a `Pong`: it parses as an owned message of that shape.
pub open spec fn pong_valid(v: Seq<u8>) -> bool {
    match spec_new_msg(v) {
        Ok(m) => pong_shape(m),
        Err(_) => false,
    }
}

/// Reading the line as an owned message faults.
pub open spec fn pong_faults(v: Seq<u8>) -> bool {
    v.len() >= u32::MAX || parse_faults(v)
}

/// A `Pong` read in place.
#[derive(Clone, Copy, Debug)]
pub struct Pong<'a> {
    inner: IrcMsg<'a>,
}

impl<'a> View for Pong<'a> {
    type V = Seq<u8>;

    closed spec fn view(&self) -> Seq<u8> {
        self.inner@
    }
}

impl<'a> core::ops::Deref for Pong<'a> {
    type Target = IrcMsg<'a>;

    fn deref(&self) -> (r: &IrcMsg<'a>)
        ensures
            r@ == self@,
    {
        &self.inner
    }
}

impl<'a> Pong<'a> {
    fn validate(msg: &IrcMsg) -> (r: Result<(), ()>)
        requires
            !pong_faults(msg@),
        ensures
            r is Ok == pong_valid(msg@),
    {
        let owned = bytes_to_vec(msg.as_bytes());
        let m = match crate::parse::parse::IrcMsg::new(owned) {
            Ok(m) => m,
            Err(_) => {
                return Err(());
            },
        };
        let name = pong_bytes();
        if !bytes_eq_ignore_irc_case(m.command_as_bytes(), name.as_slice()) {
            return Err(());
        }
        if m.len() < 1 {
            return Err(());
        }
        if str_from_utf8(m.index(0)).is_err() {
            return Err(());
        }
        if m.len() >= 2 && str_from_utf8(m.index(1)).is_err() {
            return Err(());
        }
        Ok(())
    }

    /// Reads a line as a `Pong`: its first line must be a complete message of
    /// that type.  The whole buffer is kept.
    pub fn parse(buffer: &'a [u8]) -> (r: Result<Pong<'a>, ()>)
        requires
            line_valid(spec_first_line(buffer@)) ==> !pong_faults(spec_first_line(buffer@)),
        ensures
            r is Ok == (line_valid(spec_first_line(buffer@)) && pong_valid(spec_first_line(buffer@))),
            r matches Ok(m) ==> m@ == buffer@,
    {
        let message = match IrcMsg::new(buffer) {
            Ok(m) => m,
            Err(_) => {
                return Err(());
            },
        };
        match Pong::validate(&message) {
            Ok(()) => Ok(Pong { inner: IrcMsg::from_bytes(buffer) }),
            Err(()) => Err(()),
        }
    }

    pub fn to_irc_msg(&self) -> (r: &IrcMsg<'a>)
        ensures
            r@ == self@,
    {
        &self.inner
    }

    pub fn as_bytes(&self) -> (r: &'a [u8])
        ensures
            r@ == self@,
    {
        self.inner.as_bytes()
    }

    /// An owned copy.
    pub fn to_owned(&self) -> (r: PongBuf)
        ensures
            r@ == self@,
    {
        PongBuf { inner: self.inner.to_owned() }
    }
}

impl<'a> FromIrcMsg<'a> for Pong<'a> {
    type Err = ();

    open spec fn faults_on(v: Seq<u8>) -> bool {
        pong_faults(v)
    }

    fn from_irc_msg(msg: &IrcMsg<'a>) -> (r: Result<Pong<'a>, ()>)
        ensures
            r is Ok == pong_valid(msg@),
            r matches Ok(m) ==> m@ == msg@,
    {
        match Pong::validate(msg) {
            Ok(()) => Ok(Pong { inner: *msg }),
            Err(()) => Err(()),
        }
    }
}

/// An owned `Pong`.
#[derive(Clone, Debug)]
pub struct PongBuf {
    inner: IrcMsgBuf,
}

impl View for PongBuf {
    type V = Seq<u8>;

    closed spec fn view(&self) -> Seq<u8> {
        self.inner@
    }
}

impl PongBuf {
    /// The message read in place.
    pub fn as_ref(&self) -> (r: Pong<'_>)
        ensures
            r@ == self@,
    {
        Pong { inner: self.inner.as_irc_msg() }
    }

    pub fn into_inner(self) -> (r: IrcMsgBuf)
        ensures
            r@ == self@,
    {
        self.inner
    }

    pub fn as_bytes(&self) -> (r: &[u8])
        ensures
            r@ == self@,
    {
        self.inner.as_bytes()
    }
}

} // verus!
