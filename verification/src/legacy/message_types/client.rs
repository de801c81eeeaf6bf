//! Messages a client sends, in the older form that also writes the user
//! name of `USER`, and knows `PING` and `QUIT`.  A line that does not parse
//! back is a programming error, so the inputs that would give one are left
//! out by the contracts.

use vstd::prelude::*;
use vstd::string::*;
use crate::parse::model::IrcMsgView;
use crate::parse::parse::{IrcMsg, ParseError, spec_new_msg};
use crate::parse::compose::msg_builds;
use crate::text::{push_bytes, str_bytes};
use crate::message_types::commands::{cmd_join, cmd_nick, cmd_ping, cmd_pong, cmd_privmsg, cmd_quit, cmd_user, cmd_who, join_bytes, nick_bytes, ping_bytes, pong_bytes, privmsg_bytes, quit_bytes, user_bytes, who_bytes};
use crate::message_types::client::{join_line, join_key_line, nick_line, pong_line, privmsg_line, ctcp_line, who_line, who_opers_line};

verus! {

/// `PING :<argument>`
pub open spec fn ping_line(argument: Seq<u8>) -> Seq<u8> {
    cmd_ping() + seq![0x20u8, 0x3au8] + argument
}

/// `USER <user> <mode> <unused> :<realname>`
pub open spec fn user_line(user: Seq<u8>, mode: Seq<u8>, unused: Seq<u8>, realname: Seq<u8>) -> Seq<u8> {
    cmd_user() + seq![0x20u8] + user + seq![0x20u8] + mode + seq![0x20u8] + unused + seq![0x20u8, 0x3au8] + realname
}

/// `QUIT :<message>`
pub open spec fn quit_line(message: Seq<u8>) -> Seq<u8> {
    cmd_quit() + seq![0x20u8, 0x3au8] + message
}

/// Parses a line the library has written.
fn parse_written(line: Vec<u8>) -> (r: IrcMsg)
    requires
        msg_builds(line@),
    ensures
        spec_new_msg(line@) == Ok::<IrcMsgView, ParseError>(r@),
{
    IrcMsg::new(line).unwrap()
}

/// A `JOIN` request.
#[derive(Debug)]
pub struct Join(IrcMsg);

impl Clone for Join {
    fn clone(&self) -> (r: Join)
        ensures
            r@ == self@,
    {
        Join(self.0.clone())
    }
}

impl View for Join {
    type V = IrcMsgView;

    closed spec fn view(&self) -> IrcMsgView {
        self.0@
    }
}

impl Join {
    pub fn new(channel: &str) -> (r: Join)
        requires
            msg_builds(join_line(channel.spec_bytes())),
        ensures
            spec_new_msg(join_line(channel.spec_bytes())) == Ok::<IrcMsgView, ParseError>(r@),
    {
        let mut msg = join_bytes();
        msg.push(0x20);
        push_bytes(&mut msg, str_bytes(channel));
        proof {
            assert(msg@ =~= join_line(channel.spec_bytes()));
        }
        Join(parse_written(msg))
    }

    pub fn new_with_key(channel: &str, key: &str) -> (r: Join)
        requires
            msg_builds(join_key_line(channel.spec_bytes(), key.spec_bytes())),
        ensures
            spec_new_msg(join_key_line(channel.spec_bytes(), key.spec_bytes())) == Ok::<
                IrcMsgView,
                ParseError,
            >(r@),
    {
        let mut msg = join_bytes();
        msg.push(0x20);
        push_bytes(&mut msg, str_bytes(channel));
        msg.push(0x20);
        push_bytes(&mut msg, str_bytes(key));
        proof {
            assert(msg@ =~= join_key_line(channel.spec_bytes(), key.spec_bytes()));
        }
        Join(parse_written(msg))
    }

    pub fn into_bytes(self) -> (r: Vec<u8>)
        ensures
            r@ == self@.data,
    {
        self.into_irc_msg().into_bytes()
    }

    pub fn into_irc_msg(self) -> (r: IrcMsg)
        ensures
            r@ == self@,
    {
        self.0
    }

    pub fn to_irc_msg(&self) -> (r: &IrcMsg)
        ensures
            r@ == self@,
    {
        &self.0
    }
}

/// A `NICK` request.
#[derive(Debug)]
pub struct Nick(IrcMsg);

impl Clone for Nick {
    fn clone(&self) -> (r: Nick)
        ensures
            r@ == self@,
    {
        Nick(self.0.clone())
    }
}

impl View for Nick {
    type V = IrcMsgView;

    closed spec fn view(&self) -> IrcMsgView {
        self.0@
    }
}

impl Nick {
    pub fn new(argument: &str) -> (r: Nick)
        requires
            msg_builds(nick_line(argument.spec_bytes())),
        ensures
            spec_new_msg(nick_line(argument.spec_bytes())) == Ok::<IrcMsgView, ParseError>(r@),
    {
        let mut msg = nick_bytes();
        msg.push(0x20);
        push_bytes(&mut msg, str_bytes(argument));
        proof {
            assert(msg@ =~= nick_line(argument.spec_bytes()));
        }
        Nick(parse_written(msg))
    }

    pub fn into_bytes(self) -> (r: Vec<u8>)
        ensures
            r@ == self@.data,
    {
        self.into_irc_msg().into_bytes()
    }

    pub fn into_irc_msg(self) -> (r: IrcMsg)
        ensures
            r@ == self@,
    {
        self.0
    }

    pub fn to_irc_msg(&self) -> (r: &IrcMsg)
        ensures
            r@ == self@,
    {
        &self.0
    }
}

/// A `PING`.
#[derive(Debug)]
pub struct Ping(IrcMsg);

impl Clone for Ping {
    fn clone(&self) -> (r: Ping)
        ensures
            r@ == self@,
    {
        Ping(self.0.clone())
    }
}

impl View for Ping {
    type V = IrcMsgView;

    closed spec fn view(&self) -> IrcMsgView {
        self.0@
    }
}

impl Ping {
    pub fn new(argument: &str) -> (r: Ping)
        requires
            msg_builds(ping_line(argument.spec_bytes())),
        ensures
            spec_new_msg(ping_line(argument.spec_bytes())) == Ok::<IrcMsgView, ParseError>(r@),
    {
        let mut msg = ping_bytes();
        msg.push(0x20);
        msg.push(0x3a);
        push_bytes(&mut msg, str_bytes(argument));
        proof {
            assert(msg@ =~= ping_line(argument.spec_bytes()));
        }
        Ping(parse_written(msg))
    }

    pub fn into_bytes(self) -> (r: Vec<u8>)
        ensures
            r@ == self@.data,
    {
        self.into_irc_msg().into_bytes()
    }

    pub fn into_irc_msg(self) -> (r: IrcMsg)
        ensures
            r@ == self@,
    {
        self.0
    }

    pub fn to_irc_msg(&self) -> (r: &IrcMsg)
        ensures
            r@ == self@,
    {
        &self.0
    }
}

/// A `PONG` answer.
#[derive(Debug)]
pub struct Pong(IrcMsg);

impl Clone for Pong {
    fn clone(&self) -> (r: Pong)
        ensures
            r@ == self@,
    {
        Pong(self.0.clone())
    }
}

impl View for Pong {
    type V = IrcMsgView;

    closed spec fn view(&self) -> IrcMsgView {
        self.0@
    }
}

impl Pong {
    pub fn new(argument: &str) -> (r: Pong)
        requires
            msg_builds(pong_line(argument.spec_bytes())),
        ensures
            spec_new_msg(pong_line(argument.spec_bytes())) == Ok::<IrcMsgView, ParseError>(r@),
    {
        let mut msg = pong_bytes();
        msg.push(0x20);
        push_bytes(&mut msg, str_bytes(argument));
        proof {
            assert(msg@ =~= pong_line(argument.spec_bytes()));
        }
        Pong(parse_written(msg))
    }

    pub fn into_bytes(self) -> (r: Vec<u8>)
        ensures
            r@ == self@.data,
    {
        self.into_irc_msg().into_bytes()
    }

    pub fn into_irc_msg(self) -> (r: IrcMsg)
        ensures
            r@ == self@,
    {
        self.0
    }

    pub fn to_irc_msg(&self) -> (r: &IrcMsg)
        ensures
            r@ == self@,
    {
        &self.0
    }
}

/// A `PRIVMSG`.
#[derive(Debug)]
pub struct Privmsg(IrcMsg);

impl Clone for Privmsg {
    fn clone(&self) -> (r: Privmsg)
        ensures
            r@ == self@,
    {
        Privmsg(self.0.clone())
    }
}

impl View for Privmsg {
    type V = IrcMsgView;

    closed spec fn view(&self) -> IrcMsgView {
        self.0@
    }
}

impl Privmsg {
    pub fn new(target: &str, argument: &[u8]) -> (r: Privmsg)
        requires
            msg_builds(privmsg_line(target.spec_bytes(), argument@)),
        ensures
            spec_new_msg(privmsg_line(target.spec_bytes(), argument@)) == Ok::<
                IrcMsgView,
                ParseError,
            >(r@),
    {
        let mut msg = privmsg_bytes();
        msg.push(0x20);
        push_bytes(&mut msg, str_bytes(target));
        msg.push(0x20);
        msg.push(0x3a);
        push_bytes(&mut msg, argument);
        proof {
            assert(msg@ =~= privmsg_line(target.spec_bytes(), argument@));
        }
        Privmsg(parse_written(msg))
    }

    pub fn new_ctcp(target: &str, argument: &[u8]) -> (r: Privmsg)
        requires
            msg_builds(ctcp_line(target.spec_bytes(), argument@)),
        ensures
            spec_new_msg(ctcp_line(target.spec_bytes(), argument@)) == Ok::<IrcMsgView, ParseError>(
                r@,
            ),
    {
        let mut msg = privmsg_bytes();
        msg.push(0x20);
        push_bytes(&mut msg, str_bytes(target));
        msg.push(0x20);
        msg.push(0x01);
        push_bytes(&mut msg, argument);
        msg.push(0x01);
        proof {
            assert(msg@ =~= ctcp_line(target.spec_bytes(), argument@));
        }
        Privmsg(parse_written(msg))
    }

    pub fn into_bytes(self) -> (r: Vec<u8>)
        ensures
            r@ == self@.data,
    {
        self.into_irc_msg().into_bytes()
    }

    pub fn into_irc_msg(self) -> (r: IrcMsg)
        ensures
            r@ == self@,
    {
        self.0
    }

    pub fn to_irc_msg(&self) -> (r: &IrcMsg)
        ensures
            r@ == self@,
    {
        &self.0
    }
}

/// A `USER` registration.
#[derive(Debug)]
pub struct User(IrcMsg);

impl Clone for User {
    fn clone(&self) -> (r: User)
        ensures
            r@ == self@,
    {
        User(self.0.clone())
    }
}

impl View for User {
    type V = IrcMsgView;

    closed spec fn view(&self) -> IrcMsgView {
        self.0@
    }
}

impl User {
    /// `<user> <mode> <unused> <realname>`
    pub fn new(user: &str, mode: &str, unused: &str, realname: &str) -> (r: User)
        requires
            msg_builds(user_line(user.spec_bytes(), mode.spec_bytes(), unused.spec_bytes(), realname.spec_bytes())),
        ensures
            spec_new_msg(user_line(user.spec_bytes(), mode.spec_bytes(), unused.spec_bytes(), realname.spec_bytes()))
                == Ok::<IrcMsgView, ParseError>(r@),
    {
        let mut msg = user_bytes();
        msg.push(0x20);
        push_bytes(&mut msg, str_bytes(user));
        msg.push(0x20);
        push_bytes(&mut msg, str_bytes(mode));
        msg.push(0x20);
        push_bytes(&mut msg, str_bytes(unused));
        msg.push(0x20);
        msg.push(0x3a);
        push_bytes(&mut msg, str_bytes(realname));
        proof {
            assert(msg@ =~= user_line(
                user.spec_bytes(),
                mode.spec_bytes(),
                unused.spec_bytes(),
                realname.spec_bytes(),
            ));
        }
        User(parse_written(msg))
    }

    pub fn into_bytes(self) -> (r: Vec<u8>)
        ensures
            r@ == self@.data,
    {
        self.into_irc_msg().into_bytes()
    }

    pub fn into_irc_msg(self) -> (r: IrcMsg)
        ensures
            r@ == self@,
    {
        self.0
    }

    pub fn to_irc_msg(&self) -> (r: &IrcMsg)
        ensures
            r@ == self@,
    {
        &self.0
    }
}

/// A `WHO` query.
#[derive(Debug)]
pub struct Who(IrcMsg);

impl Clone for Who {
    fn clone(&self) -> (r: Who)
        ensures
            r@ == self@,
    {
        Who(self.0.clone())
    }
}

impl View for Who {
    type V = IrcMsgView;

    closed spec fn view(&self) -> IrcMsgView {
        self.0@
    }
}

impl Who {
    pub fn new(target: &str) -> (r: Who)
        requires
            msg_builds(who_line(target.spec_bytes())),
        ensures
            spec_new_msg(who_line(target.spec_bytes())) == Ok::<IrcMsgView, ParseError>(r@),
    {
        let mut msg = who_bytes();
        msg.push(0x20);
        push_bytes(&mut msg, str_bytes(target));
        proof {
            assert(msg@ =~= who_line(target.spec_bytes()));
        }
        Who(parse_written(msg))
    }

    pub fn new_opers(target: &str) -> (r: Who)
        requires
            msg_builds(who_opers_line(target.spec_bytes())),
        ensures
            spec_new_msg(who_opers_line(target.spec_bytes())) == Ok::<IrcMsgView, ParseError>(r@),
    {
        let mut msg = who_bytes();
        msg.push(0x20);
        push_bytes(&mut msg, str_bytes(target));
        msg.push(0x20);
        msg.push(0x6f);
        proof {
            assert(msg@ =~= who_opers_line(target.spec_bytes()));
        }
        Who(parse_written(msg))
    }

    pub fn into_bytes(self) -> (r: Vec<u8>)
        ensures
            r@ == self@.data,
    {
        self.into_irc_msg().into_bytes()
    }

    pub fn into_irc_msg(self) -> (r: IrcMsg)
        ensures
            r@ == self@,
    {
        self.0
    }

    pub fn to_irc_msg(&self) -> (r: &IrcMsg)
        ensures
            r@ == self@,
    {
        &self.0
    }
}

/// A `QUIT`.
#[derive(Debug)]
pub struct Quit(IrcMsg);

impl Clone for Quit {
    fn clone(&self) -> (r: Quit)
        ensures
            r@ == self@,
    {
        Quit(self.0.clone())
    }
}

impl View for Quit {
    type V = IrcMsgView;

    closed spec fn view(&self) -> IrcMsgView {
        self.0@
    }
}

impl Quit {
    pub fn new(target: &str) -> (r: Quit)
        requires
            msg_builds(quit_line(target.spec_bytes())),
        ensures
            spec_new_msg(quit_line(target.spec_bytes())) == Ok::<IrcMsgView, ParseError>(r@),
    {
        let mut msg = quit_bytes();
        msg.push(0x20);
        msg.push(0x3a);
        push_bytes(&mut msg, str_bytes(target));
        proof {
            assert(msg@ =~= quit_line(target.spec_bytes()));
        }
        Quit(parse_written(msg))
    }

    pub fn into_bytes(self) -> (r: Vec<u8>)
        ensures
            r@ == self@.data,
    {
        self.into_irc_msg().into_bytes()
    }

    pub fn into_irc_msg(self) -> (r: IrcMsg)
        ensures
            r@ == self@,
    {
        self.0
    }

    pub fn to_irc_msg(&self) -> (r: &IrcMsg)
        ensures
            r@ == self@,
    {
        &self.0
    }
}

} // verus!
