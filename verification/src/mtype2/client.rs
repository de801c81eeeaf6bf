//! Client messages, written out and checked as message lines.

use vstd::prelude::*;
use crate::parse::parse2::{IrcMsgBuf, line_valid};
use crate::parse_helpers::spec_first_line;
use crate::text::push_bytes;
use crate::parse::compose::vec_from_array;

verus! {
/// The line of a client `INVITE nickname channel`.
pub open spec fn invite_line(nickname: Seq<u8>, channel: Seq<u8>) -> Seq<u8> {
    seq![0x49u8, 0x4e, 0x56, 0x49, 0x54, 0x45, 0x20] + nickname + seq![0x20u8] + channel
}

/// A client `INVITE` line.
pub struct InviteBuf {
    inner: IrcMsgBuf,
}

impl View for InviteBuf {
    type V = Seq<u8>;

    closed spec fn view(&self) -> Seq<u8> {
        self.inner@
    }
}

impl InviteBuf {
    /// Writes out `INVITE nickname channel`; fails when it is no valid message line.  Only the
    /// first line of what was written is kept.
    pub fn new(nickname: &[u8], channel: &[u8]) -> (r: Result<InviteBuf, ()>)
        ensures
            r is Ok == line_valid(spec_first_line(invite_line(nickname@, channel@))),
            r matches Ok(m) ==> m@ == spec_first_line(invite_line(nickname@, channel@)),
    {
        let mut out: Vec<u8> = Vec::new();
        push_bytes(&mut out, vec_from_array([0x49u8, 0x4e, 0x56, 0x49, 0x54, 0x45, 0x20]).as_slice());
        push_bytes(&mut out, nickname);
        push_bytes(&mut out, vec_from_array([0x20u8]).as_slice());
        push_bytes(&mut out, channel);
        proof {
            assert(out@ =~= invite_line(nickname@, channel@));
        }
        match IrcMsgBuf::new(out) {
            Ok(message) => Ok(InviteBuf { inner: message }),
            Err(_) => Err(()),
        }
    }

    pub fn into_inner(self) -> (r: IrcMsgBuf)
        ensures
            r@ == self@,
    {
        self.inner
    }

    pub fn as_bytes(&self) -> (r: &[u8])
        ensures
            r@ == self@,
    {
        self.inner.as_bytes()
    }
}

/// The line of a client `JOIN channel`.
pub open spec fn join_line(channel: Seq<u8>) -> Seq<u8> {
    seq![0x4au8, 0x4f, 0x49, 0x4e, 0x20] + channel
}

/// A client `JOIN` line.
pub struct JoinBuf {
    inner: IrcMsgBuf,
}

impl View for JoinBuf {
    type V = Seq<u8>;

    closed spec fn view(&self) -> Seq<u8> {
        self.inner@
    }
}

impl JoinBuf {
    /// Writes out `JOIN channel`; fails when it is no valid message line.  Only the
    /// first line of what was written is kept.
    pub fn new(channel: &[u8]) -> (r: Result<JoinBuf, ()>)
        ensures
            r is Ok == line_valid(spec_first_line(join_line(channel@))),
            r matches Ok(m) ==> m@ == spec_first_line(join_line(channel@)),
    {
        let mut out: Vec<u8> = Vec::new();
        push_bytes(&mut out, vec_from_array([0x4au8, 0x4f, 0x49, 0x4e, 0x20]).as_slice());
        push_bytes(&mut out, channel);
        proof {
            assert(out@ =~= join_line(channel@));
        }
        match IrcMsgBuf::new(out) {
            Ok(message) => Ok(JoinBuf { inner: message }),
            Err(_) => Err(()),
        }
    }

    pub fn into_inner(self) -> (r: IrcMsgBuf)
        ensures
            r@ == self@,
    {
        self.inner
    }

    pub fn as_bytes(&self) -> (r: &[u8])
        ensures
            r@ == self@,
    {
        self.inner.as_bytes()
    }
}

/// The line of a client `NICK nick`.
pub open spec fn nick_line(nick: Seq<u8>) -> Seq<u8> {
    seq![0x4eu8, 0x49, 0x43, 0x4b, 0x20] + nick
}

/// A client `NICK` line.
pub struct NickBuf {
    inner: IrcMsgBuf,
}

impl View for NickBuf {
    type V = Seq<u8>;

    closed spec fn view(&self) -> Seq<u8> {
        self.inner@
    }
}

impl NickBuf {
    /// Writes out `NICK nick`; fails when it is no valid message line.  Only the
    /// first line of what was written is kept.
    pub fn new(nick: &[u8]) -> (r: Result<NickBuf, ()>)
        ensures
            r is Ok == line_valid(spec_first_line(nick_line(nick@))),
            r matches Ok(m) ==> m@ == spec_first_line(nick_line(nick@)),
    {
        let mut out: Vec<u8> = Vec::new();
        push_bytes(&mut out, vec_from_array([0x4eu8, 0x49, 0x43, 0x4b, 0x20]).as_slice());
        push_bytes(&mut out, nick);
        proof {
            assert(out@ =~= nick_line(nick@));
        }
        match IrcMsgBuf::new(out) {
            Ok(message) => Ok(NickBuf { inner: message }),
            Err(_) => Err(()),
        }
    }

    pub fn into_inner(self) -> (r: IrcMsgBuf)
        ensures
            r@ == self@,
    {
        self.inner
    }

    pub fn as_bytes(&self) -> (r: &[u8])
        ensures
            r@ == self@,
    {
        self.inner.as_bytes()
    }
}

/// The line of a client `PING :server`.
pub open spec fn ping_line(server: Seq<u8>) -> Seq<u8> {
    seq![0x50u8, 0x49, 0x4e, 0x47, 0x20, 0x3a] + server
}

/// A client `PING` line.
pub struct PingBuf {
    inner: IrcMsgBuf,
}

impl View for PingBuf {
    type V = Seq<u8>;

    closed spec fn view(&self) -> Seq<u8> {
        self.inner@
    }
}

impl PingBuf {
    /// Writes out `PING :server`; fails when it is no valid message line.  Only the
    /// first line of what was written is kept.
    pub fn new(server: &[u8]) -> (r: Result<PingBuf, ()>)
        ensures
            r is Ok == line_valid(spec_first_line(ping_line(server@))),
            r matches Ok(m) ==> m@ == spec_first_line(ping_line(server@)),
    {
        let mut out: Vec<u8> = Vec::new();
        push_bytes(&mut out, vec_from_array([0x50u8, 0x49, 0x4e, 0x47, 0x20, 0x3a]).as_slice());
        push_bytes(&mut out, server);
        proof {
            assert(out@ =~= ping_line(server@));
        }
        match IrcMsgBuf::new(out) {
            Ok(message) => Ok(PingBuf { inner: message }),
            Err(_) => Err(()),
        }
    }

    pub fn into_inner(self) -> (r: IrcMsgBuf)
        ensures
            r@ == self@,
    {
        self.inner
    }

    pub fn as_bytes(&self) -> (r: &[u8])
        ensures
            r@ == self@,
    {
        self.inner.as_bytes()
    }
}

/// The line of a client `PONG source`.
pub open spec fn pong_line(source: Seq<u8>) -> Seq<u8> {
    seq![0x50u8, 0x4f, 0x4e, 0x47, 0x20] + source
}

/// A client `PONG` line.
pub struct PongBuf {
    inner: IrcMsgBuf,
}

impl View for PongBuf {
    type V = Seq<u8>;

    closed spec fn view(&self) -> Seq<u8> {
        self.inner@
    }
}

impl PongBuf {
    /// Writes out `PONG source`; fails when it is no valid message line.  Only the
    /// first line of what was written is kept.
    pub fn new(source: &[u8]) -> (r: Result<PongBuf, ()>)
        ensures
            r is Ok == line_valid(spec_first_line(pong_line(source@))),
            r matches Ok(m) ==> m@ == spec_first_line(pong_line(source@)),
    {
        let mut out: Vec<u8> = Vec::new();
        push_bytes(&mut out, vec_from_array([0x50u8, 0x4f, 0x4e, 0x47, 0x20]).as_slice());
        push_bytes(&mut out, source);
        proof {
            assert(out@ =~= pong_line(source@));
        }
        match IrcMsgBuf::new(out) {
            Ok(message) => Ok(PongBuf { inner: message }),
            Err(_) => Err(()),
        }
    }

    pub fn into_inner(self) -> (r: IrcMsgBuf)
        ensures
            r@ == self@,
    {
        self.inner
    }

    pub fn as_bytes(&self) -> (r: &[u8])
        ensures
            r@ == self@,
    {
        self.inner.as_bytes()
    }
}

/// The line of a client `PRIVMSG target :message`.
pub open spec fn privmsg_line(target: Seq<u8>, message: Seq<u8>) -> Seq<u8> {
    seq![0x50u8, 0x52, 0x49, 0x56, 0x4d, 0x53, 0x47, 0x20] + target + seq![0x20u8, 0x3a] + message
}

/// A client `PRIVMSG` line.
pub struct PrivmsgBuf {
    inner: IrcMsgBuf,
}

impl View for PrivmsgBuf {
    type V = Seq<u8>;

    closed spec fn view(&self) -> Seq<u8> {
        self.inner@
    }
}

impl PrivmsgBuf {
    /// Writes out `PRIVMSG target :message`; fails when it is no valid message line.  Only the
    /// first line of what was written is kept.
    pub fn new(target: &[u8], message: &[u8]) -> (r: Result<PrivmsgBuf, ()>)
        ensures
            r is Ok == line_valid(spec_first_line(privmsg_line(target@, message@))),
            r matches Ok(m) ==> m@ == spec_first_line(privmsg_line(target@, message@)),
    {
        let mut out: Vec<u8> = Vec::new();
        push_bytes(&mut out, vec_from_array([0x50u8, 0x52, 0x49, 0x56, 0x4d, 0x53, 0x47, 0x20]).as_slice());
        push_bytes(&mut out, target);
        push_bytes(&mut out, vec_from_array([0x20u8, 0x3a]).as_slice());
        push_bytes(&mut out, message);
        proof {
            assert(out@ =~= privmsg_line(target@, message@));
        }
        match IrcMsgBuf::new(out) {
            Ok(message) => Ok(PrivmsgBuf { inner: message }),
            Err(_) => Err(()),
        }
    }

    pub fn into_inner(self) -> (r: IrcMsgBuf)
        ensures
            r@ == self@,
    {
        self.inner
    }

    pub fn as_bytes(&self) -> (r: &[u8])
        ensures
            r@ == self@,
    {
        self.inner.as_bytes()
    }
}

/// The line of a client `QUIT :reason`.
pub open spec fn quit_line(reason: Seq<u8>) -> Seq<u8> {
    seq![0x51u8, 0x55, 0x49, 0x54, 0x20, 0x3a] + reason
}

/// A client `QUIT` line.
pub struct QuitBuf {
    inner: IrcMsgBuf,
}

impl View for QuitBuf {
    type V = Seq<u8>;

    closed spec fn view(&self) -> Seq<u8> {
        self.inner@
    }
}

impl QuitBuf {
    /// Writes out `QUIT :reason`; fails when it is no valid message line.  Only the
    /// first line of what was written is kept.
    pub fn new(reason: &[u8]) -> (r: Result<QuitBuf, ()>)
        ensures
            r is Ok == line_valid(spec_first_line(quit_line(reason@))),
            r matches Ok(m) ==> m@ == spec_first_line(quit_line(reason@)),
    {
        let mut out: Vec<u8> = Vec::new();
        push_bytes(&mut out, vec_from_array([0x51u8, 0x55, 0x49, 0x54, 0x20, 0x3a]).as_slice());
        push_bytes(&mut out, reason);
        proof {
            assert(out@ =~= quit_line(reason@));
        }
        match IrcMsgBuf::new(out) {
            Ok(message) => Ok(QuitBuf { inner: message }),
            Err(_) => Err(()),
        }
    }

    pub fn into_inner(self) -> (r: IrcMsgBuf)
        ensures
            r@ == self@,
    {
        self.inner
    }

    pub fn as_bytes(&self) -> (r: &[u8])
        ensures
            r@ == self@,
    {
        self.inner.as_bytes()
    }
}

} // verus!
