//! Messages a client receives, each a parsed line that was checked to be of
//! its type.

use vstd::prelude::*;
use vstd::utf8::*;
use vstd::string::*;
use crate::parse::model::IrcMsgView;
use crate::parse::parse::{IrcMsg, prefix_bytes, command_bytes, arg_bytes, prefix_marks, is_full_prefix};
use crate::parse::compose::msg_builds;
use crate::parse_helpers::{spec_find, find_character, lemma_find};
use crate::irccase::{rfc1459_lower, eq_under, bytes_eq_ignore_irc_case};
use crate::text::{str_from_utf8, as_text, str_bytes, bytes_equal, lemma_ascii_boundaries, lemma_ends_are_boundaries};
use crate::util::str_range;
use crate::decimal::{spec_parse_u16, parse_u16};
use crate::message_types::traits::FromIrcMsg;
pub use crate::message_types::incoming::IntoIncomingMsg;
use crate::message_types::client;
use crate::message_types::commands::{cmd_join, cmd_kick, cmd_mode, cmd_nick, cmd_notice, cmd_part, cmd_ping, cmd_privmsg, cmd_quit, cmd_topic, cmd_invite, join_bytes, kick_bytes, mode_bytes, nick_bytes, notice_bytes, part_bytes, ping_bytes, privmsg_bytes, quit_bytes, topic_bytes, invite_bytes};

verus! {

/// Two byte strings match under IRC case folding.
pub open spec fn irc_eq(a: Seq<u8>, b: Seq<u8>) -> bool {
    eq_under(a, b, |x: u8| rfc1459_lower(x))
}

/// The command is `name`, ignoring IRC case.
pub open spec fn cmd_is(v: IrcMsgView, name: Seq<u8>) -> bool {
    irc_eq(command_bytes(v), name)
}

/// The prefix is of the form `nick!user@host`.
pub open spec fn full_prefix(v: IrcMsgView) -> bool {
    prefix_marks(prefix_bytes(v)) is Some
}

/// Parameter `i` is valid UTF-8.
pub open spec fn arg_is_text(v: IrcMsgView, i: int) -> bool {
    valid_utf8(arg_bytes(v, i))
}

/// The prefix holds a `!`.
pub open spec fn has_bang(v: IrcMsgView) -> bool {
    spec_find(prefix_bytes(v), 0x21, 0) is Some
}

/// The prefix up to its first `!`.
pub open spec fn bang_nick(v: IrcMsgView) -> Seq<u8> {
    prefix_bytes(v).subrange(0, spec_find(prefix_bytes(v), 0x21, 0)->Some_0)
}

/// Parameter `i` as text.
fn arg_text(msg: &IrcMsg, i: usize) -> (r: &str)
    requires
        i < msg@.args.len(),
        arg_is_text(msg@, i as int),
    ensures
        r.spec_bytes() == arg_bytes(msg@, i as int),
{
    as_text(msg.index(i))
}

/// The prefix up to its first `!`.
fn nick_part(msg: &IrcMsg) -> (r: &str)
    requires
        has_bang(msg@),
    ensures
        r.spec_bytes() == bang_nick(msg@),
{
    let prefix = msg.get_prefix_str();
    let bytes = str_bytes(prefix);
    let idx = find_character(bytes, 0x21, 0).unwrap();
    proof {
        lemma_ends_are_boundaries(bytes@);
        lemma_ascii_boundaries(bytes@, idx as int);
    }
    str_range(prefix, 0, idx)
}

/// The checks a line passes to be read as a `Join`.
pub open spec fn join_valid(v: IrcMsgView) -> bool {
    &&& cmd_is(v, cmd_join())
    &&& v.args.len() >= 1
    &&& full_prefix(v)
    &&& arg_is_text(v, 0)
}

/// A user joined a channel.
#[derive(Debug)]
pub struct Join(IrcMsg);

impl View for Join {
    type V = IrcMsgView;

    closed spec fn view(&self) -> IrcMsgView {
        self.0@
    }
}

impl Clone for Join {
    fn clone(&self) -> (r: Join)
        ensures
            r@ == self@,
    {
        proof {
            use_type_invariant(self);
        }
        Join(self.0.clone())
    }
}

impl Join {
    #[verifier::type_invariant]
    closed spec fn inv(self) -> bool {
        join_valid(self.0@)
    }

    pub fn into_irc_msg(self) -> (r: IrcMsg)
        ensures
            r@ == self@,
    {
        let Join(msg) = self;
        msg
    }

    pub fn to_irc_msg(&self) -> (r: &IrcMsg)
        ensures
            r@ == self@,
    {
        &self.0
    }

    /// The channel.
    pub fn get_channel(&self) -> (r: &str)
        ensures
            r.spec_bytes() == arg_bytes(self@, 0),
    {
        proof {
            use_type_invariant(self);
        }
        arg_text(&self.0, 0)
    }

    /// The nick of the user the message comes from.
    pub fn get_nick(&self) -> (r: &str)
        ensures
            r.spec_bytes() == bang_nick(self@),
    {
        proof {
            use_type_invariant(self);
            lemma_find(prefix_bytes(self@), 0x21, 0);
        }
        nick_part(&self.0)
    }
}

impl FromIrcMsg for Join {
    open spec fn faults_on(v: IrcMsgView) -> bool {
        false
    }

    fn from_irc_msg(msg: IrcMsg) -> (r: Result<Join, IrcMsg>)
        ensures
            match r {
                Ok(m) => join_valid(msg@) && m@ == msg@,
                Err(m) => !join_valid(msg@) && m@ == msg@,
            },
    {
        let name = join_bytes();
        if !bytes_eq_ignore_irc_case(msg.command_as_bytes(), name.as_slice()) {
            return Err(msg);
        }
        if msg.len() < 1 {
            return Err(msg);
        }
        if !is_full_prefix(msg.get_prefix_str()) {
            return Err(msg);
        }
        if str_from_utf8(msg.index(0)).is_err() {
            return Err(msg);
        }
        Ok(Join(msg))
    }
}

/// The checks a line passes to be read as a `Kick`.
pub open spec fn kick_valid(v: IrcMsgView) -> bool {
    &&& cmd_is(v, cmd_kick())
    &&& v.args.len() >= 3
    &&& full_prefix(v)
    &&& arg_is_text(v, 0)
    &&& arg_is_text(v, 1)
}

/// A user was kicked from a channel.
#[derive(Debug)]
pub struct Kick(IrcMsg);

impl View for Kick {
    type V = IrcMsgView;

    closed spec fn view(&self) -> IrcMsgView {
        self.0@
    }
}

impl Clone for Kick {
    fn clone(&self) -> (r: Kick)
        ensures
            r@ == self@,
    {
        proof {
            use_type_invariant(self);
        }
        Kick(self.0.clone())
    }
}

impl Kick {
    #[verifier::type_invariant]
    closed spec fn inv(self) -> bool {
        kick_valid(self.0@)
    }

    pub fn into_irc_msg(self) -> (r: IrcMsg)
        ensures
            r@ == self@,
    {
        let Kick(msg) = self;
        msg
    }

    pub fn to_irc_msg(&self) -> (r: &IrcMsg)
        ensures
            r@ == self@,
    {
        &self.0
    }

    /// The channel.
    pub fn get_channel(&self) -> (r: &str)
        ensures
            r.spec_bytes() == arg_bytes(self@, 0),
    {
        proof {
            use_type_invariant(self);
        }
        arg_text(&self.0, 0)
    }

    /// The nick of the user being kicked.
    pub fn get_kicked_nick(&self) -> (r: &str)
        ensures
            r.spec_bytes() == arg_bytes(self@, 1),
    {
        proof {
            use_type_invariant(self);
        }
        arg_text(&self.0, 1)
    }

    /// The nick of the user the message comes from.
    pub fn get_nick(&self) -> (r: &str)
        ensures
            r.spec_bytes() == bang_nick(self@),
    {
        proof {
            use_type_invariant(self);
            lemma_find(prefix_bytes(self@), 0x21, 0);
        }
        nick_part(&self.0)
    }

    /// The second parameter, as bytes.
    pub fn get_body_raw(&self) -> (r: &[u8])
        ensures
            r@ == arg_bytes(self@, 1),
    {
        proof {
            use_type_invariant(self);
        }
        self.0.index(1)
    }
}

impl FromIrcMsg for Kick {
    open spec fn faults_on(v: IrcMsgView) -> bool {
        false
    }

    fn from_irc_msg(msg: IrcMsg) -> (r: Result<Kick, IrcMsg>)
        ensures
            match r {
                Ok(m) => kick_valid(msg@) && m@ == msg@,
                Err(m) => !kick_valid(msg@) && m@ == msg@,
            },
    {
        let name = kick_bytes();
        if !bytes_eq_ignore_irc_case(msg.command_as_bytes(), name.as_slice()) {
            return Err(msg);
        }
        if msg.len() < 3 {
            return Err(msg);
        }
        if !is_full_prefix(msg.get_prefix_str()) {
            return Err(msg);
        }
        if str_from_utf8(msg.index(0)).is_err() || str_from_utf8(msg.index(1)).is_err() {
            return Err(msg);
        }
        Ok(Kick(msg))
    }
}

/// The checks a line passes to be read as a `Mode`.
pub open spec fn mode_valid(v: IrcMsgView) -> bool {
    &&& cmd_is(v, cmd_mode())
    &&& v.args.len() >= 2
    &&& full_prefix(v)
    &&& arg_is_text(v, 0)
}

/// A mode change.
#[derive(Debug)]
pub struct Mode(IrcMsg);

impl View for Mode {
    type V = IrcMsgView;

    closed spec fn view(&self) -> IrcMsgView {
        self.0@
    }
}

impl Clone for Mode {
    fn clone(&self) -> (r: Mode)
        ensures
            r@ == self@,
    {
        proof {
            use_type_invariant(self);
        }
        Mode(self.0.clone())
    }
}

impl Mode {
    #[verifier::type_invariant]
    closed spec fn inv(self) -> bool {
        mode_valid(self.0@)
    }

    pub fn into_irc_msg(self) -> (r: IrcMsg)
        ensures
            r@ == self@,
    {
        let Mode(msg) = self;
        msg
    }

    pub fn to_irc_msg(&self) -> (r: &IrcMsg)
        ensures
            r@ == self@,
    {
        &self.0
    }

    /// The target of the command.
    pub fn get_target(&self) -> (r: &str)
        ensures
            r.spec_bytes() == arg_bytes(self@, 0),
    {
        proof {
            use_type_invariant(self);
        }
        arg_text(&self.0, 0)
    }
}

impl FromIrcMsg for Mode {
    open spec fn faults_on(v: IrcMsgView) -> bool {
        false
    }

    fn from_irc_msg(msg: IrcMsg) -> (r: Result<Mode, IrcMsg>)
        ensures
            match r {
                Ok(m) => mode_valid(msg@) && m@ == msg@,
                Err(m) => !mode_valid(msg@) && m@ == msg@,
            },
    {
        let name = mode_bytes();
        if !bytes_eq_ignore_irc_case(msg.command_as_bytes(), name.as_slice()) {
            return Err(msg);
        }
        if msg.len() < 2 {
            return Err(msg);
        }
        if !is_full_prefix(msg.get_prefix_str()) {
            return Err(msg);
        }
        if str_from_utf8(msg.index(0)).is_err() {
            return Err(msg);
        }
        Ok(Mode(msg))
    }
}

/// The checks a line passes to be read as a `Nick`.
pub open spec fn nick_valid(v: IrcMsgView) -> bool {
    &&& cmd_is(v, cmd_nick())
    &&& v.args.len() >= 2
    &&& full_prefix(v)
    &&& arg_is_text(v, 0)
    &&& arg_is_text(v, 1)
}

/// A `NICK` line with a single parameter, a full prefix and a text
/// parameter makes the check read a second parameter that is not there.
pub open spec fn nick_check_faults(v: IrcMsgView) -> bool {
    &&& cmd_is(v, cmd_nick())
    &&& v.args.len() == 1
    &&& full_prefix(v)
    &&& arg_is_text(v, 0)
}

/// A user changed nick.
#[derive(Debug)]
pub struct Nick(IrcMsg);

impl View for Nick {
    type V = IrcMsgView;

    closed spec fn view(&self) -> IrcMsgView {
        self.0@
    }
}

impl Clone for Nick {
    fn clone(&self) -> (r: Nick)
        ensures
            r@ == self@,
    {
        proof {
            use_type_invariant(self);
        }
        Nick(self.0.clone())
    }
}

impl Nick {
    #[verifier::type_invariant]
    closed spec fn inv(self) -> bool {
        nick_valid(self.0@)
    }

    pub fn into_irc_msg(self) -> (r: IrcMsg)
        ensures
            r@ == self@,
    {
        let Nick(msg) = self;
        msg
    }

    pub fn to_irc_msg(&self) -> (r: &IrcMsg)
        ensures
            r@ == self@,
    {
        &self.0
    }

    /// The nick of the user the message comes from.
    pub fn get_nick(&self) -> (r: &str)
        ensures
            r.spec_bytes() == bang_nick(self@),
    {
        proof {
            use_type_invariant(self);
            lemma_find(prefix_bytes(self@), 0x21, 0);
        }
        nick_part(&self.0)
    }

    /// The new nick of the user.
    pub fn get_new_nick(&self) -> (r: &str)
        ensures
            r.spec_bytes() == arg_bytes(self@, 0),
    {
        proof {
            use_type_invariant(self);
        }
        arg_text(&self.0, 0)
    }
}

impl FromIrcMsg for Nick {
    open spec fn faults_on(v: IrcMsgView) -> bool {
        nick_check_faults(v)
    }

    fn from_irc_msg(msg: IrcMsg) -> (r: Result<Nick, IrcMsg>)
        ensures
            match r {
                Ok(m) => nick_valid(msg@) && m@ == msg@,
                Err(m) => !nick_valid(msg@) && m@ == msg@,
            },
    {
        let name = nick_bytes();
        if !bytes_eq_ignore_irc_case(msg.command_as_bytes(), name.as_slice()) {
            return Err(msg);
        }
        if msg.len() < 1 {
            return Err(msg);
        }
        if !is_full_prefix(msg.get_prefix_str()) {
            return Err(msg);
        }
        if str_from_utf8(msg.index(0)).is_err() || str_from_utf8(msg.index(1)).is_err() {
            return Err(msg);
        }
        Ok(Nick(msg))
    }
}

/// The checks a line passes to be read as a `Notice`.
pub open spec fn notice_valid(v: IrcMsgView) -> bool {
    &&& cmd_is(v, cmd_notice())
    &&& v.args.len() >= 2
    &&& full_prefix(v)
    &&& arg_is_text(v, 0)
}

/// A notice sent to a channel or a user.
#[derive(Debug)]
pub struct Notice(IrcMsg);

impl View for Notice {
    type V = IrcMsgView;

    closed spec fn view(&self) -> IrcMsgView {
        self.0@
    }
}

impl Clone for Notice {
    fn clone(&self) -> (r: Notice)
        ensures
            r@ == self@,
    {
        proof {
            use_type_invariant(self);
        }
        Notice(self.0.clone())
    }
}

impl Notice {
    #[verifier::type_invariant]
    closed spec fn inv(self) -> bool {
        notice_valid(self.0@)
    }

    pub fn into_irc_msg(self) -> (r: IrcMsg)
        ensures
            r@ == self@,
    {
        let Notice(msg) = self;
        msg
    }

    pub fn to_irc_msg(&self) -> (r: &IrcMsg)
        ensures
            r@ == self@,
    {
        &self.0
    }

    /// The target of the command.
    pub fn get_target(&self) -> (r: &str)
        ensures
            r.spec_bytes() == arg_bytes(self@, 0),
    {
        proof {
            use_type_invariant(self);
        }
        arg_text(&self.0, 0)
    }
}

impl FromIrcMsg for Notice {
    open spec fn faults_on(v: IrcMsgView) -> bool {
        false
    }

    fn from_irc_msg(msg: IrcMsg) -> (r: Result<Notice, IrcMsg>)
        ensures
            match r {
                Ok(m) => notice_valid(msg@) && m@ == msg@,
                Err(m) => !notice_valid(msg@) && m@ == msg@,
            },
    {
        let name = notice_bytes();
        if !bytes_eq_ignore_irc_case(msg.command_as_bytes(), name.as_slice()) {
            return Err(msg);
        }
        if msg.len() < 2 {
            return Err(msg);
        }
        if !is_full_prefix(msg.get_prefix_str()) {
            return Err(msg);
        }
        if str_from_utf8(msg.index(0)).is_err() {
            return Err(msg);
        }
        Ok(Notice(msg))
    }
}

/// The checks a line passes to be read as a `Part`.
pub open spec fn part_valid(v: IrcMsgView) -> bool {
    &&& cmd_is(v, cmd_part())
    &&& v.args.len() >= 1
    &&& full_prefix(v)
    &&& arg_is_text(v, 0)
}

/// A user left a channel.
#[derive(Debug)]
pub struct Part(IrcMsg);

impl View for Part {
    type V = IrcMsgView;

    closed spec fn view(&self) -> IrcMsgView {
        self.0@
    }
}

impl Clone for Part {
    fn clone(&self) -> (r: Part)
        ensures
            r@ == self@,
    {
        proof {
            use_type_invariant(self);
        }
        Part(self.0.clone())
    }
}

impl Part {
    #[verifier::type_invariant]
    closed spec fn inv(self) -> bool {
        part_valid(self.0@)
    }

    pub fn into_irc_msg(self) -> (r: IrcMsg)
        ensures
            r@ == self@,
    {
        let Part(msg) = self;
        msg
    }

    pub fn to_irc_msg(&self) -> (r: &IrcMsg)
        ensures
            r@ == self@,
    {
        &self.0
    }

    /// The nick of the user the message comes from.
    pub fn get_nick(&self) -> (r: &str)
        ensures
            r.spec_bytes() == bang_nick(self@),
    {
        proof {
            use_type_invariant(self);
            lemma_find(prefix_bytes(self@), 0x21, 0);
        }
        nick_part(&self.0)
    }

    /// The channel.
    pub fn get_channel(&self) -> (r: &str)
        ensures
            r.spec_bytes() == arg_bytes(self@, 0),
    {
        proof {
            use_type_invariant(self);
        }
        arg_text(&self.0, 0)
    }
}

impl FromIrcMsg for Part {
    open spec fn faults_on(v: IrcMsgView) -> bool {
        false
    }

    fn from_irc_msg(msg: IrcMsg) -> (r: Result<Part, IrcMsg>)
        ensures
            match r {
                Ok(m) => part_valid(msg@) && m@ == msg@,
                Err(m) => !part_valid(msg@) && m@ == msg@,
            },
    {
        let name = part_bytes();
        if !bytes_eq_ignore_irc_case(msg.command_as_bytes(), name.as_slice()) {
            return Err(msg);
        }
        if msg.len() < 1 {
            return Err(msg);
        }
        if !is_full_prefix(msg.get_prefix_str()) {
            return Err(msg);
        }
        if str_from_utf8(msg.index(0)).is_err() {
            return Err(msg);
        }
        Ok(Part(msg))
    }
}

/// The checks a line passes to be read as a `Ping`.
pub open spec fn ping_valid(v: IrcMsgView) -> bool {
    &&& cmd_is(v, cmd_ping())
    &&& v.args.len() >= 1
    &&& arg_is_text(v, 0)
    &&& (v.args.len() >= 2 ==> arg_is_text(v, 1))
}

/// A keep-alive from the server.
#[derive(Debug)]
pub struct Ping(IrcMsg);

impl View for Ping {
    type V = IrcMsgView;

    closed spec fn view(&self) -> IrcMsgView {
        self.0@
    }
}

impl Clone for Ping {
    fn clone(&self) -> (r: Ping)
        ensures
            r@ == self@,
    {
        proof {
            use_type_invariant(self);
        }
        Ping(self.0.clone())
    }
}

impl Ping {
    #[verifier::type_invariant]
    closed spec fn inv(self) -> bool {
        ping_valid(self.0@)
    }

    pub fn into_irc_msg(self) -> (r: IrcMsg)
        ensures
            r@ == self@,
    {
        let Ping(msg) = self;
        msg
    }

    pub fn to_irc_msg(&self) -> (r: &IrcMsg)
        ensures
            r@ == self@,
    {
        &self.0
    }

    /// The first server named.
    pub fn get_server1(&self) -> (r: &str)
        ensures
            r.spec_bytes() == arg_bytes(self@, 0),
    {
        proof {
            use_type_invariant(self);
        }
        arg_text(&self.0, 0)
    }

    /// The second server named, if any.
    pub fn get_server2(&self) -> (r: Option<&str>)
        ensures
            r is Some == (self@.args.len() > 1),
            r matches Some(s) ==> s.spec_bytes() == arg_bytes(self@, 1),
    {
        proof {
            use_type_invariant(self);
        }
        if self.0.len() > 1 {
            Some(arg_text(&self.0, 1))
        } else {
            None
        }
    }

    /// The `PONG` that answers a ping naming a single server.
    pub fn get_response(&self) -> (r: Result<client::Pong, ()>)
        requires
            self@.args.len() == 1 ==> msg_builds(client::pong_line(arg_bytes(self@, 0))),
        ensures
            r is Ok == (self@.args.len() == 1),
            r matches Ok(p) ==> crate::parse::parse::spec_new_msg(client::pong_line(arg_bytes(self@, 0)))
                == Ok::<IrcMsgView, crate::parse::parse::ParseError>(p@),
    {
        if self.0.len() == 1 {
            Ok(client::Pong::new(self.get_server1()))
        } else {
            Err(())
        }
    }
}

impl FromIrcMsg for Ping {
    open spec fn faults_on(v: IrcMsgView) -> bool {
        false
    }

    fn from_irc_msg(msg: IrcMsg) -> (r: Result<Ping, IrcMsg>)
        ensures
            match r {
                Ok(m) => ping_valid(msg@) && m@ == msg@,
                Err(m) => !ping_valid(msg@) && m@ == msg@,
            },
    {
        let name = ping_bytes();
        if !bytes_eq_ignore_irc_case(msg.command_as_bytes(), name.as_slice()) {
            return Err(msg);
        }
        if msg.len() < 1 {
            return Err(msg);
        }
        let mut idx: usize = 0;
        let end: usize = if msg.len() < 2 { msg.len() } else { 2 };
        while idx < end
            invariant
                0 <= idx <= end,
                end == (if msg@.args.len() < 2 { msg@.args.len() } else { 2 }),
                forall|j: int| 0 <= j < idx ==> arg_is_text(msg@, j),
            decreases end - idx,
        {
            if str_from_utf8(msg.index(idx)).is_err() {
                return Err(msg);
            }
            idx = idx + 1;
        }
        Ok(Ping(msg))
    }
}

/// The checks a line passes to be read as a `Privmsg`.
pub open spec fn privmsg_valid(v: IrcMsgView) -> bool {
    &&& cmd_is(v, cmd_privmsg())
    &&& v.args.len() >= 2
    &&& full_prefix(v)
    &&& arg_is_text(v, 0)
}

/// A message to a user or a channel.
#[derive(Debug)]
pub struct Privmsg(IrcMsg);

impl View for Privmsg {
    type V = IrcMsgView;

    closed spec fn view(&self) -> IrcMsgView {
        self.0@
    }
}

impl Clone for Privmsg {
    fn clone(&self) -> (r: Privmsg)
        ensures
            r@ == self@,
    {
        proof {
            use_type_invariant(self);
        }
        Privmsg(self.0.clone())
    }
}

impl Privmsg {
    #[verifier::type_invariant]
    closed spec fn inv(self) -> bool {
        privmsg_valid(self.0@)
    }

    pub fn into_irc_msg(self) -> (r: IrcMsg)
        ensures
            r@ == self@,
    {
        let Privmsg(msg) = self;
        msg
    }

    pub fn to_irc_msg(&self) -> (r: &IrcMsg)
        ensures
            r@ == self@,
    {
        &self.0
    }

    /// The target of the command.
    pub fn get_target(&self) -> (r: &str)
        ensures
            r.spec_bytes() == arg_bytes(self@, 0),
    {
        proof {
            use_type_invariant(self);
        }
        arg_text(&self.0, 0)
    }

    /// The nick of the user the message comes from.
    pub fn get_nick(&self) -> (r: &str)
        ensures
            r.spec_bytes() == bang_nick(self@),
    {
        proof {
            use_type_invariant(self);
            lemma_find(prefix_bytes(self@), 0x21, 0);
        }
        nick_part(&self.0)
    }

    /// The second parameter, as bytes.
    pub fn get_body_raw(&self) -> (r: &[u8])
        ensures
            r@ == arg_bytes(self@, 1),
    {
        proof {
            use_type_invariant(self);
        }
        self.0.index(1)
    }

    /// The second parameter as text, when it is valid UTF-8.
    pub fn get_body_unicode(&self) -> (r: Result<&str, std::str::Utf8Error>)
        ensures
            r is Ok == valid_utf8(arg_bytes(self@, 1)),
            r matches Ok(s) ==> s.spec_bytes() == arg_bytes(self@, 1),
    {
        str_from_utf8(self.get_body_raw())
    }
}

impl FromIrcMsg for Privmsg {
    open spec fn faults_on(v: IrcMsgView) -> bool {
        false
    }

    fn from_irc_msg(msg: IrcMsg) -> (r: Result<Privmsg, IrcMsg>)
        ensures
            match r {
                Ok(m) => privmsg_valid(msg@) && m@ == msg@,
                Err(m) => !privmsg_valid(msg@) && m@ == msg@,
            },
    {
        let name = privmsg_bytes();
        if !bytes_eq_ignore_irc_case(msg.command_as_bytes(), name.as_slice()) {
            return Err(msg);
        }
        if msg.len() < 2 {
            return Err(msg);
        }
        if !is_full_prefix(msg.get_prefix_str()) {
            return Err(msg);
        }
        if str_from_utf8(msg.index(0)).is_err() {
            return Err(msg);
        }
        Ok(Privmsg(msg))
    }
}

/// The checks a line passes to be read as a `Quit`.
pub open spec fn quit_valid(v: IrcMsgView) -> bool {
    &&& cmd_is(v, cmd_quit())
    &&& v.args.len() >= 1
    &&& arg_is_text(v, 0)
}

/// A user left the network.
#[derive(Debug)]
pub struct Quit(IrcMsg);

impl View for Quit {
    type V = IrcMsgView;

    closed spec fn view(&self) -> IrcMsgView {
        self.0@
    }
}

impl Clone for Quit {
    fn clone(&self) -> (r: Quit)
        ensures
            r@ == self@,
    {
        proof {
            use_type_invariant(self);
        }
        Quit(self.0.clone())
    }
}

impl Quit {
    #[verifier::type_invariant]
    closed spec fn inv(self) -> bool {
        quit_valid(self.0@)
    }

    pub fn into_irc_msg(self) -> (r: IrcMsg)
        ensures
            r@ == self@,
    {
        let Quit(msg) = self;
        msg
    }

    pub fn to_irc_msg(&self) -> (r: &IrcMsg)
        ensures
            r@ == self@,
    {
        &self.0
    }

    /// The nick of the user the message comes from.
    pub fn get_nick(&self) -> (r: &str)
        requires
            has_bang(self@),
        ensures
            r.spec_bytes() == bang_nick(self@),
    {
        nick_part(&self.0)
    }

    /// The channel.
    pub fn get_channel(&self) -> (r: &str)
        ensures
            r.spec_bytes() == arg_bytes(self@, 0),
    {
        proof {
            use_type_invariant(self);
        }
        arg_text(&self.0, 0)
    }

    /// The second parameter, as bytes.
    pub fn get_body_raw(&self) -> (r: &[u8])
        requires
            self@.args.len() > 1,
        ensures
            r@ == arg_bytes(self@, 1),
    {
        self.0.index(1)
    }
}

impl FromIrcMsg for Quit {
    open spec fn faults_on(v: IrcMsgView) -> bool {
        false
    }

    fn from_irc_msg(msg: IrcMsg) -> (r: Result<Quit, IrcMsg>)
        ensures
            match r {
                Ok(m) => quit_valid(msg@) && m@ == msg@,
                Err(m) => !quit_valid(msg@) && m@ == msg@,
            },
    {
        let name = quit_bytes();
        if !bytes_eq_ignore_irc_case(msg.command_as_bytes(), name.as_slice()) {
            return Err(msg);
        }
        if msg.len() < 1 {
            return Err(msg);
        }
        if str_from_utf8(msg.index(0)).is_err() {
            return Err(msg);
        }
        Ok(Quit(msg))
    }
}

/// The checks a line passes to be read as a `Topic`.
pub open spec fn topic_valid(v: IrcMsgView) -> bool {
    &&& cmd_is(v, cmd_topic())
    &&& v.args.len() >= 2
    &&& full_prefix(v)
    &&& arg_is_text(v, 0)
}

/// A channel topic change.
#[derive(Debug)]
pub struct Topic(IrcMsg);

impl View for Topic {
    type V = IrcMsgView;

    closed spec fn view(&self) -> IrcMsgView {
        self.0@
    }
}

impl Clone for Topic {
    fn clone(&self) -> (r: Topic)
        ensures
            r@ == self@,
    {
        proof {
            use_type_invariant(self);
        }
        Topic(self.0.clone())
    }
}

impl Topic {
    #[verifier::type_invariant]
    closed spec fn inv(self) -> bool {
        topic_valid(self.0@)
    }

    pub fn into_irc_msg(self) -> (r: IrcMsg)
        ensures
            r@ == self@,
    {
        let Topic(msg) = self;
        msg
    }

    pub fn to_irc_msg(&self) -> (r: &IrcMsg)
        ensures
            r@ == self@,
    {
        &self.0
    }

    /// The channel.
    pub fn get_channel(&self) -> (r: &str)
        ensures
            r.spec_bytes() == arg_bytes(self@, 0),
    {
        proof {
            use_type_invariant(self);
        }
        arg_text(&self.0, 0)
    }

    /// The nick of the user the message comes from.
    pub fn get_nick(&self) -> (r: &str)
        ensures
            r.spec_bytes() == bang_nick(self@),
    {
        proof {
            use_type_invariant(self);
            lemma_find(prefix_bytes(self@), 0x21, 0);
        }
        nick_part(&self.0)
    }

    /// The second parameter, as bytes.
    pub fn get_body_raw(&self) -> (r: &[u8])
        ensures
            r@ == arg_bytes(self@, 1),
    {
        proof {
            use_type_invariant(self);
        }
        self.0.index(1)
    }
}

impl FromIrcMsg for Topic {
    open spec fn faults_on(v: IrcMsgView) -> bool {
        false
    }

    fn from_irc_msg(msg: IrcMsg) -> (r: Result<Topic, IrcMsg>)
        ensures
            match r {
                Ok(m) => topic_valid(msg@) && m@ == msg@,
                Err(m) => !topic_valid(msg@) && m@ == msg@,
            },
    {
        let name = topic_bytes();
        if !bytes_eq_ignore_irc_case(msg.command_as_bytes(), name.as_slice()) {
            return Err(msg);
        }
        if msg.len() < 2 {
            return Err(msg);
        }
        if !is_full_prefix(msg.get_prefix_str()) {
            return Err(msg);
        }
        if str_from_utf8(msg.index(0)).is_err() {
            return Err(msg);
        }
        Ok(Topic(msg))
    }
}

/// The checks a line passes to be read as a `Invite`.
pub open spec fn invite_valid(v: IrcMsgView) -> bool {
    &&& cmd_is(v, cmd_invite())
    &&& v.args.len() >= 2
    &&& full_prefix(v)
    &&& arg_is_text(v, 0)
}

/// An invitation to a channel.
#[derive(Debug)]
pub struct Invite(IrcMsg);

impl View for Invite {
    type V = IrcMsgView;

    closed spec fn view(&self) -> IrcMsgView {
        self.0@
    }
}

impl Clone for Invite {
    fn clone(&self) -> (r: Invite)
        ensures
            r@ == self@,
    {
        proof {
            use_type_invariant(self);
        }
        Invite(self.0.clone())
    }
}

impl Invite {
    #[verifier::type_invariant]
    closed spec fn inv(self) -> bool {
        invite_valid(self.0@)
    }

    pub fn into_irc_msg(self) -> (r: IrcMsg)
        ensures
            r@ == self@,
    {
        let Invite(msg) = self;
        msg
    }

    pub fn to_irc_msg(&self) -> (r: &IrcMsg)
        ensures
            r@ == self@,
    {
        &self.0
    }

    /// The target of the command.
    pub fn get_target(&self) -> (r: &str)
        requires
            arg_is_text(self@, 1),
        ensures
            r.spec_bytes() == arg_bytes(self@, 1),
    {
        proof {
            use_type_invariant(self);
        }
        arg_text(&self.0, 1)
    }
}

impl FromIrcMsg for Invite {
    open spec fn faults_on(v: IrcMsgView) -> bool {
        false
    }

    fn from_irc_msg(msg: IrcMsg) -> (r: Result<Invite, IrcMsg>)
        ensures
            match r {
                Ok(m) => invite_valid(msg@) && m@ == msg@,
                Err(m) => !invite_valid(msg@) && m@ == msg@,
            },
    {
        let name = invite_bytes();
        if !bytes_eq_ignore_irc_case(msg.command_as_bytes(), name.as_slice()) {
            return Err(msg);
        }
        if msg.len() < 2 {
            return Err(msg);
        }
        if !is_full_prefix(msg.get_prefix_str()) {
            return Err(msg);
        }
        if str_from_utf8(msg.index(0)).is_err() {
            return Err(msg);
        }
        Ok(Invite(msg))
    }
}

/// The checks a line passes to be read as a `Numeric`: its command is a
/// decimal number that fits in a `u16`.
pub open spec fn numeric_valid(v: IrcMsgView) -> bool {
    spec_parse_u16(command_bytes(v)) is Some
}

/// A numeric reply.
#[derive(Debug)]
pub struct Numeric(IrcMsg);

impl View for Numeric {
    type V = IrcMsgView;

    closed spec fn view(&self) -> IrcMsgView {
        self.0@
    }
}

impl Clone for Numeric {
    fn clone(&self) -> (r: Numeric)
        ensures
            r@ == self@,
    {
        proof {
            use_type_invariant(self);
        }
        Numeric(self.0.clone())
    }
}

impl Numeric {
    #[verifier::type_invariant]
    closed spec fn inv(self) -> bool {
        numeric_valid(self.0@)
    }

    pub fn into_irc_msg(self) -> (r: IrcMsg)
        ensures
            r@ == self@,
    {
        let Numeric(msg) = self;
        msg
    }

    pub fn to_irc_msg(&self) -> (r: &IrcMsg)
        ensures
            r@ == self@,
    {
        &self.0
    }

    /// The number of the reply.
    pub fn get_code(&self) -> (r: u16)
        ensures
            spec_parse_u16(command_bytes(self@)) == Some(r),
    {
        proof {
            use_type_invariant(self);
        }
        parse_u16(self.0.command_as_bytes()).unwrap()
    }
}

impl FromIrcMsg for Numeric {
    open spec fn faults_on(v: IrcMsgView) -> bool {
        false
    }

    fn from_irc_msg(msg: IrcMsg) -> (r: Result<Numeric, IrcMsg>)
        ensures
            match r {
                Ok(m) => numeric_valid(msg@) && m@ == msg@,
                Err(m) => !numeric_valid(msg@) && m@ == msg@,
            },
    {
        match parse_u16(msg.command_as_bytes()) {
            Some(_) => Ok(Numeric(msg)),
            None => Err(msg),
        }
    }
}

/// Which kind of message a line was read as.
#[derive(Clone, Copy, Debug, PartialEq, Eq, Structural)]
pub enum IncomingKind {
    Join,
    Kick,
    Mode,
    Nick,
    Notice,
    Part,
    Ping,
    Privmsg,
    Quit,
    Topic,
    Invite,
    Numeric(u16),
    Unknown,
}

/// How `IncomingMsg::from_msg` classifies a line: by its exact command,
/// then by the checks of that type; a number is a numeric reply, and
/// anything else is unknown.
pub open spec fn spec_incoming_kind(v: IrcMsgView) -> IncomingKind {
    let c = command_bytes(v);
    if c == cmd_join() {
        if join_valid(v) {
            IncomingKind::Join
        } else {
            IncomingKind::Unknown
        }
    }     else if c == cmd_kick() {
        if kick_valid(v) {
            IncomingKind::Kick
        } else {
            IncomingKind::Unknown
        }
    }     else if c == cmd_mode() {
        if mode_valid(v) {
            IncomingKind::Mode
        } else {
            IncomingKind::Unknown
        }
    }     else if c == cmd_nick() {
        if nick_valid(v) {
            IncomingKind::Nick
        } else {
            IncomingKind::Unknown
        }
    }     else if c == cmd_notice() {
        if notice_valid(v) {
            IncomingKind::Notice
        } else {
            IncomingKind::Unknown
        }
    }     else if c == cmd_part() {
        if part_valid(v) {
            IncomingKind::Part
        } else {
            IncomingKind::Unknown
        }
    }     else if c == cmd_ping() {
        if ping_valid(v) {
            IncomingKind::Ping
        } else {
            IncomingKind::Unknown
        }
    }     else if c == cmd_privmsg() {
        if privmsg_valid(v) {
            IncomingKind::Privmsg
        } else {
            IncomingKind::Unknown
        }
    }     else if c == cmd_quit() {
        if quit_valid(v) {
            IncomingKind::Quit
        } else {
            IncomingKind::Unknown
        }
    }     else if c == cmd_topic() {
        if topic_valid(v) {
            IncomingKind::Topic
        } else {
            IncomingKind::Unknown
        }
    }     else if c == cmd_invite() {
        if invite_valid(v) {
            IncomingKind::Invite
        } else {
            IncomingKind::Unknown
        }
    } else {
        match spec_parse_u16(c) {
            Some(n) => IncomingKind::Numeric(n),
            None => IncomingKind::Unknown,
        }
    }
}

/// A line whose reading would fault: a `NICK` line as `nick_check_faults`
/// describes.
pub open spec fn incoming_faults(v: IrcMsgView) -> bool {
    command_bytes(v) == cmd_nick() && nick_check_faults(v)
}

/// A received message, read as its type where it passes that type's checks.
#[derive(Debug)]
pub enum IncomingMsg {
    Join(Join),
    Kick(Kick),
    Mode(Mode),
    Nick(Nick),
    Notice(Notice),
    Part(Part),
    Ping(Ping),
    Privmsg(Privmsg),
    Quit(Quit),
    Topic(Topic),
    Invite(Invite),
    Numeric(u16, Numeric),
    Unknown(IrcMsg),
}

impl View for IncomingMsg {
    /// The kind the line was read as, and the line.
    type V = (IncomingKind, IrcMsgView);

    open spec fn view(&self) -> (IncomingKind, IrcMsgView) {
        match self {
            IncomingMsg::Join(m) => (IncomingKind::Join, m@),
            IncomingMsg::Kick(m) => (IncomingKind::Kick, m@),
            IncomingMsg::Mode(m) => (IncomingKind::Mode, m@),
            IncomingMsg::Nick(m) => (IncomingKind::Nick, m@),
            IncomingMsg::Notice(m) => (IncomingKind::Notice, m@),
            IncomingMsg::Part(m) => (IncomingKind::Part, m@),
            IncomingMsg::Ping(m) => (IncomingKind::Ping, m@),
            IncomingMsg::Privmsg(m) => (IncomingKind::Privmsg, m@),
            IncomingMsg::Quit(m) => (IncomingKind::Quit, m@),
            IncomingMsg::Topic(m) => (IncomingKind::Topic, m@),
            IncomingMsg::Invite(m) => (IncomingKind::Invite, m@),
            IncomingMsg::Numeric(n, m) => (IncomingKind::Numeric(*n), m@),
            IncomingMsg::Unknown(m) => (IncomingKind::Unknown, m@),
        }
    }
}

impl Clone for IncomingMsg {
    fn clone(&self) -> (r: IncomingMsg)
        ensures
            r@ == self@,
    {
        match self {
            IncomingMsg::Join(m) => IncomingMsg::Join(m.clone()),
            IncomingMsg::Kick(m) => IncomingMsg::Kick(m.clone()),
            IncomingMsg::Mode(m) => IncomingMsg::Mode(m.clone()),
            IncomingMsg::Nick(m) => IncomingMsg::Nick(m.clone()),
            IncomingMsg::Notice(m) => IncomingMsg::Notice(m.clone()),
            IncomingMsg::Part(m) => IncomingMsg::Part(m.clone()),
            IncomingMsg::Ping(m) => IncomingMsg::Ping(m.clone()),
            IncomingMsg::Privmsg(m) => IncomingMsg::Privmsg(m.clone()),
            IncomingMsg::Quit(m) => IncomingMsg::Quit(m.clone()),
            IncomingMsg::Topic(m) => IncomingMsg::Topic(m.clone()),
            IncomingMsg::Invite(m) => IncomingMsg::Invite(m.clone()),
            IncomingMsg::Numeric(n, m) => IncomingMsg::Numeric(*n, m.clone()),
            IncomingMsg::Unknown(m) => IncomingMsg::Unknown(m.clone()),
        }
    }
}

impl IncomingMsg {
    /// Reads a parsed line as the message its command names.
    pub fn from_msg(msg: IrcMsg) -> (r: IncomingMsg)
        requires
            !incoming_faults(msg@),
        ensures
            r@ == (spec_incoming_kind(msg@), msg@),
    {
        if bytes_equal(msg.command_as_bytes(), join_bytes().as_slice()) {
            match <Join as FromIrcMsg>::from_irc_msg(msg) {
                Ok(m) => IncomingMsg::Join(m),
                Err(m) => IncomingMsg::Unknown(m),
            }
        } else if bytes_equal(msg.command_as_bytes(), kick_bytes().as_slice()) {
            match <Kick as FromIrcMsg>::from_irc_msg(msg) {
                Ok(m) => IncomingMsg::Kick(m),
                Err(m) => IncomingMsg::Unknown(m),
            }
        } else if bytes_equal(msg.command_as_bytes(), mode_bytes().as_slice()) {
            match <Mode as FromIrcMsg>::from_irc_msg(msg) {
                Ok(m) => IncomingMsg::Mode(m),
                Err(m) => IncomingMsg::Unknown(m),
            }
        } else if bytes_equal(msg.command_as_bytes(), nick_bytes().as_slice()) {
            proof {
                assert(irc_eq(command_bytes(msg@), cmd_nick()));
            }
            match <Nick as FromIrcMsg>::from_irc_msg(msg) {
                Ok(m) => IncomingMsg::Nick(m),
                Err(m) => IncomingMsg::Unknown(m),
            }
        } else if bytes_equal(msg.command_as_bytes(), notice_bytes().as_slice()) {
            match <Notice as FromIrcMsg>::from_irc_msg(msg) {
                Ok(m) => IncomingMsg::Notice(m),
                Err(m) => IncomingMsg::Unknown(m),
            }
        } else if bytes_equal(msg.command_as_bytes(), part_bytes().as_slice()) {
            match <Part as FromIrcMsg>::from_irc_msg(msg) {
                Ok(m) => IncomingMsg::Part(m),
                Err(m) => IncomingMsg::Unknown(m),
            }
        } else if bytes_equal(msg.command_as_bytes(), ping_bytes().as_slice()) {
            match <Ping as FromIrcMsg>::from_irc_msg(msg) {
                Ok(m) => IncomingMsg::Ping(m),
                Err(m) => IncomingMsg::Unknown(m),
            }
        } else if bytes_equal(msg.command_as_bytes(), privmsg_bytes().as_slice()) {
            match <Privmsg as FromIrcMsg>::from_irc_msg(msg) {
                Ok(m) => IncomingMsg::Privmsg(m),
                Err(m) => IncomingMsg::Unknown(m),
            }
        } else if bytes_equal(msg.command_as_bytes(), quit_bytes().as_slice()) {
            match <Quit as FromIrcMsg>::from_irc_msg(msg) {
                Ok(m) => IncomingMsg::Quit(m),
                Err(m) => IncomingMsg::Unknown(m),
            }
        } else if bytes_equal(msg.command_as_bytes(), topic_bytes().as_slice()) {
            match <Topic as FromIrcMsg>::from_irc_msg(msg) {
                Ok(m) => IncomingMsg::Topic(m),
                Err(m) => IncomingMsg::Unknown(m),
            }
        } else if bytes_equal(msg.command_as_bytes(), invite_bytes().as_slice()) {
            match <Invite as FromIrcMsg>::from_irc_msg(msg) {
                Ok(m) => IncomingMsg::Invite(m),
                Err(m) => IncomingMsg::Unknown(m),
            }
        } else {
            match <Numeric as FromIrcMsg>::from_irc_msg(msg) {
                Ok(m) => {
                    let code = m.get_code();
                    IncomingMsg::Numeric(code, m)
                },
                Err(m) => IncomingMsg::Unknown(m),
            }
        }
    }

    /// Whether the message was read as a `PRIVMSG`.
    pub fn is_privmsg(&self) -> (r: bool)
        ensures
            r == (self@.0 == IncomingKind::Privmsg),
    {
        match self {
            IncomingMsg::Privmsg(_) => true,
            _ => false,
        }
    }

    /// The line the message was read from.
    pub fn to_irc_msg(&self) -> (r: &IrcMsg)
        ensures
            r@ == self@.1,
    {
        match self {
            IncomingMsg::Join(m) => m.to_irc_msg(),
            IncomingMsg::Kick(m) => m.to_irc_msg(),
            IncomingMsg::Mode(m) => m.to_irc_msg(),
            IncomingMsg::Nick(m) => m.to_irc_msg(),
            IncomingMsg::Notice(m) => m.to_irc_msg(),
            IncomingMsg::Part(m) => m.to_irc_msg(),
            IncomingMsg::Ping(m) => m.to_irc_msg(),
            IncomingMsg::Privmsg(m) => m.to_irc_msg(),
            IncomingMsg::Quit(m) => m.to_irc_msg(),
            IncomingMsg::Topic(m) => m.to_irc_msg(),
            IncomingMsg::Invite(m) => m.to_irc_msg(),
            IncomingMsg::Numeric(_, m) => m.to_irc_msg(),
            IncomingMsg::Unknown(m) => m,
        }
    }

    /// The line the message was read from.
    pub fn into_irc_msg(self) -> (r: IrcMsg)
        ensures
            r@ == self@.1,
    {
        match self {
            IncomingMsg::Join(m) => m.into_irc_msg(),
            IncomingMsg::Kick(m) => m.into_irc_msg(),
            IncomingMsg::Mode(m) => m.into_irc_msg(),
            IncomingMsg::Nick(m) => m.into_irc_msg(),
            IncomingMsg::Notice(m) => m.into_irc_msg(),
            IncomingMsg::Part(m) => m.into_irc_msg(),
            IncomingMsg::Ping(m) => m.into_irc_msg(),
            IncomingMsg::Privmsg(m) => m.into_irc_msg(),
            IncomingMsg::Quit(m) => m.into_irc_msg(),
            IncomingMsg::Topic(m) => m.into_irc_msg(),
            IncomingMsg::Invite(m) => m.into_irc_msg(),
            IncomingMsg::Numeric(_, m) => m.into_irc_msg(),
            IncomingMsg::Unknown(m) => m,
        }
    }
}

} // verus!
