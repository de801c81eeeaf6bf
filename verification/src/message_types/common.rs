//! Messages that both sides may send.  The target checks pass only targets
//! that hold a space or a line feed.

use vstd::prelude::*;
use vstd::string::*;
use vstd::utf8::*;
use crate::parse::model::{IrcMsgView, parse_faults};
use crate::parse::parse::{IrcMsg, ParseError, spec_new_msg, arg_bytes, command_bytes};
use crate::parse::compose::msg_builds;
use crate::text::{push_bytes, str_bytes, as_text};
use crate::message_types::util::{is_valid_target, spec_is_valid_target};
use crate::message_types::server::irc_eq;
use crate::message_types::commands::{cmd_kick, cmd_notice, cmd_privmsg, kick_bytes, notice_bytes, privmsg_bytes};
use crate::irccase::bytes_eq_ignore_irc_case;

verus! {

/// `KICK <channel> <target> :<message>`
pub open spec fn kick_line(channel: Seq<u8>, target: Seq<u8>, message: Seq<u8>) -> Seq<u8> {
    cmd_kick() + seq![0x20u8] + channel + seq![0x20u8] + target + seq![0x20u8, 0x3au8] + message
}

/// `NOTICE <target> :<message>`
pub open spec fn notice_line(target: Seq<u8>, message: Seq<u8>) -> Seq<u8> {
    cmd_notice() + seq![0x20u8] + target + seq![0x20u8, 0x3au8] + message
}

/// `PRIVMSG <target> :<message>`
pub open spec fn privmsg_line(target: Seq<u8>, message: Seq<u8>) -> Seq<u8> {
    cmd_privmsg() + seq![0x20u8] + target + seq![0x20u8, 0x3au8] + message
}

/// A `KICK`.
pub struct Kick(IrcMsg);

impl View for Kick {
    type V = IrcMsgView;

    closed spec fn view(&self) -> IrcMsgView {
        self.0@
    }
}

impl Kick {
    /// A `KICK`, when both targets pass the target check and the line parses.
    pub fn new_opt(channel: &str, target: &str, message: &[u8]) -> (r: Option<Kick>)
        requires
            spec_is_valid_target(channel.spec_bytes()) && spec_is_valid_target(target.spec_bytes())
                ==> kick_line(channel.spec_bytes(), target.spec_bytes(), message@).len()
                < u32::MAX && !parse_faults(
                kick_line(channel.spec_bytes(), target.spec_bytes(), message@),
            ),
        ensures
            r is Some == (spec_is_valid_target(channel.spec_bytes()) && spec_is_valid_target(
                target.spec_bytes(),
            ) && spec_new_msg(kick_line(channel.spec_bytes(), target.spec_bytes(), message@)) is Ok),
            r matches Some(k) ==> spec_new_msg(
                kick_line(channel.spec_bytes(), target.spec_bytes(), message@),
            ) == Ok::<IrcMsgView, ParseError>(k@),
    {
        if !is_valid_target(channel) {
            return None;
        }
        if !is_valid_target(target) {
            return None;
        }
        let mut buf = kick_bytes();
        buf.push(0x20);
        push_bytes(&mut buf, str_bytes(channel));
        buf.push(0x20);
        push_bytes(&mut buf, str_bytes(target));
        buf.push(0x20);
        buf.push(0x3a);
        push_bytes(&mut buf, message);
        proof {
            assert(buf@ =~= kick_line(channel.spec_bytes(), target.spec_bytes(), message@));
        }
        match IrcMsg::new(buf) {
            Ok(msg) => Some(Kick(msg)),
            Err(_) => None,
        }
    }

    /// A `KICK`; the targets must pass the target check.
    pub fn new(channel: &str, target: &str, message: &[u8]) -> (r: Kick)
        requires
            spec_is_valid_target(channel.spec_bytes()),
            spec_is_valid_target(target.spec_bytes()),
            msg_builds(kick_line(channel.spec_bytes(), target.spec_bytes(), message@)),
        ensures
            spec_new_msg(kick_line(channel.spec_bytes(), target.spec_bytes(), message@)) == Ok::<
                IrcMsgView,
                ParseError,
            >(r@),
    {
        Kick::new_opt(channel, target, message).unwrap()
    }

    /// Reads a `KICK` with at least three parameters.
    pub fn from_irc_msg(msg: IrcMsg) -> (r: Option<Kick>)
        ensures
            r is Some == (irc_eq(command_bytes(msg@), cmd_kick()) && msg@.args.len() > 2),
            r matches Some(k) ==> k@ == msg@,
    {
        let name = kick_bytes();
        if !bytes_eq_ignore_irc_case(msg.command_as_bytes(), name.as_slice()) {
            return None;
        }
        if msg.len() <= 2 {
            return None;
        }
        Some(Kick(msg))
    }

    /// The channel.
    pub fn get_channel(&self) -> (r: &str)
        requires
            self@.args.len() > 0,
            valid_utf8(arg_bytes(self@, 0)),
        ensures
            r.spec_bytes() == arg_bytes(self@, 0),
    {
        as_text(self.0.index(0))
    }

    /// The user being kicked.
    pub fn get_target(&self) -> (r: &str)
        requires
            self@.args.len() > 1,
            valid_utf8(arg_bytes(self@, 1)),
        ensures
            r.spec_bytes() == arg_bytes(self@, 1),
    {
        as_text(self.0.index(1))
    }

    pub fn unwrap(self) -> (r: IrcMsg)
        ensures
            r@ == self@,
    {
        self.0
    }
}

/// A `NOTICE`.
pub struct Notice(IrcMsg);

impl View for Notice {
    type V = IrcMsgView;

    closed spec fn view(&self) -> IrcMsgView {
        self.0@
    }
}

impl Notice {
    /// A `NOTICE` to `target`, when the target passes the target check.
    pub fn new_opt(&self, target: &str, message: &[u8]) -> (r: Option<Notice>)
        requires
            spec_is_valid_target(target.spec_bytes()) ==> msg_builds(
                notice_line(target.spec_bytes(), message@),
            ),
        ensures
            r is Some == spec_is_valid_target(target.spec_bytes()),
            r matches Some(n) ==> spec_new_msg(notice_line(target.spec_bytes(), message@))
                == Ok::<IrcMsgView, ParseError>(n@),
    {
        if !is_valid_target(target) {
            return None;
        }
        let mut buf = notice_bytes();
        buf.push(0x20);
        push_bytes(&mut buf, str_bytes(target));
        buf.push(0x20);
        buf.push(0x3a);
        push_bytes(&mut buf, message);
        proof {
            assert(buf@ =~= notice_line(target.spec_bytes(), message@));
        }
        Some(Notice(IrcMsg::new(buf).unwrap()))
    }

    pub fn unwrap(self) -> (r: IrcMsg)
        ensures
            r@ == self@,
    {
        self.0
    }
}

/// A `PRIVMSG`.
pub struct Privmsg(IrcMsg);

impl View for Privmsg {
    type V = IrcMsgView;

    closed spec fn view(&self) -> IrcMsgView {
        self.0@
    }
}

impl Privmsg {
    /// A `PRIVMSG` to `target`, when the target passes the target check.
    pub fn new_opt(&self, target: &str, message: &[u8]) -> (r: Option<Privmsg>)
        requires
            spec_is_valid_target(target.spec_bytes()) ==> msg_builds(
                privmsg_line(target.spec_bytes(), message@),
            ),
        ensures
            r is Some == spec_is_valid_target(target.spec_bytes()),
            r matches Some(n) ==> spec_new_msg(privmsg_line(target.spec_bytes(), message@))
                == Ok::<IrcMsgView, ParseError>(n@),
    {
        if !is_valid_target(target) {
            return None;
        }
        let mut buf = privmsg_bytes();
        buf.push(0x20);
        push_bytes(&mut buf, str_bytes(target));
        buf.push(0x20);
        buf.push(0x3a);
        push_bytes(&mut buf, message);
        proof {
            assert(buf@ =~= privmsg_line(target.spec_bytes(), message@));
        }
        Some(Privmsg(IrcMsg::new(buf).unwrap()))
    }

    pub fn unwrap(self) -> (r: IrcMsg)
        ensures
            r@ == self@,
    {
        self.0
    }
}

} // verus!
