//! Registration: the request a client sends, and how the server's answers
//! decide its outcome.

use vstd::prelude::*;
use vstd::string::*;
use vstd::utf8::*;
use crate::parse::parse::{IrcMsg, spec_new_msg, ParseError};
use crate::parse::model::IrcMsgView;
use crate::parse::compose::{msg_builds, line_builds, lemma_ascii_utf8, vec_from_array};
use crate::message_types::commands::{user_bytes, nick_bytes};
use crate::text::push_bytes;
use crate::parse::error::{decimal_bytes, decimal_of};
use crate::message_types::client::{self, user_line, nick_line};
use crate::message_types::server::{IncomingMsg, IncomingKind, spec_incoming_kind, incoming_faults};
use crate::state::{State, after_message, message_faults};
use crate::text::{str_to_string, string_bytes, as_text};

verus! {

/// The parts of a registration request under construction.
pub struct BuilderView {
    pub nick: Option<Seq<char>>,
    pub user: Option<Seq<char>>,
    pub realname: Seq<char>,
    pub wallops: bool,
    pub invisible: bool,
}

/// Builds a registration request.
#[derive(Debug)]
pub struct RegisterReqBuilder {
    nick: Option<String>,
    user: Option<String>,
    realname: String,
    wallops: bool,
    invisible: bool,
}

pub open spec fn opt_text(s: Option<String>) -> Option<Seq<char>> {
    match s {
        Some(t) => Some(t@),
        None => None,
    }
}

impl View for RegisterReqBuilder {
    type V = BuilderView;

    closed spec fn view(&self) -> BuilderView {
        BuilderView {
            nick: opt_text(self.nick),
            user: opt_text(self.user),
            realname: self.realname@,
            wallops: self.wallops,
            invisible: self.invisible,
        }
    }
}

/// Why a request cannot be built.
pub open spec fn build_error(b: BuilderView) -> Option<Seq<char>> {
    match b.nick {
        None => Some("nick must be set"@),
        Some(n) => if n.len() == 0 {
            Some("nick must be non-empty"@)
        } else {
            match b.user {
                None => Some("user must be set"@),
                Some(u) => if u.len() == 0 {
                    Some("user must be non-empty"@)
                } else if b.realname.len() == 0 {
                    Some("realname must be non-empty"@)
                } else {
                    None
                },
            }
        },
    }
}

impl RegisterReqBuilder {
    /// A builder with no nick or user, the library's address as realname,
    /// and no modes.
    pub fn new() -> (r: RegisterReqBuilder)
        ensures
            r@.nick is None,
            r@.user is None,
            r@.realname == "http://github.com/infinityb/rust-irc"@,
            !r@.wallops,
            !r@.invisible,
    {
        RegisterReqBuilder {
            nick: None,
            user: None,
            realname: str_to_string("http://github.com/infinityb/rust-irc"),
            wallops: false,
            invisible: false,
        }
    }

    pub fn nick(&mut self, val: &str) -> (r: &mut RegisterReqBuilder)
        ensures
            r@ == (BuilderView { nick: Some(val@), ..old(self)@ }),
            *final(self) == *final(r),
    {
        self.nick = Some(str_to_string(val));
        self
    }

    pub fn user(&mut self, val: &str) -> (r: &mut RegisterReqBuilder)
        ensures
            r@ == (BuilderView { user: Some(val@), ..old(self)@ }),
            *final(self) == *final(r),
    {
        self.user = Some(str_to_string(val));
        self
    }

    pub fn realname(&mut self, val: &str) -> (r: &mut RegisterReqBuilder)
        ensures
            r@ == (BuilderView { realname: val@, ..old(self)@ }),
            *final(self) == *final(r),
    {
        self.realname = str_to_string(val);
        self
    }

    pub fn mode_invisible(&mut self, val: bool) -> (r: &mut RegisterReqBuilder)
        ensures
            r@ == (BuilderView { invisible: val, ..old(self)@ }),
            *final(self) == *final(r),
    {
        self.invisible = val;
        self
    }

    /// Sets the invisible mode, as `mode_invisible` does; the wallops mode
    /// is left as it is.
    pub fn mode_wallops(&mut self, val: bool) -> (r: &mut RegisterReqBuilder)
        ensures
            r@ == (BuilderView { invisible: val, ..old(self)@ }),
            *final(self) == *final(r),
    {
        self.invisible = val;
        self
    }

    /// The request, once nick, user and realname are all set and non-empty.
    pub fn build(&mut self) -> (r: Result<RegisterRequest, &'static str>)
        ensures
            final(self)@ == old(self)@,
            match build_error(old(self)@) {
                Some(e) => r matches Err(t) && t@ == e,
                None => r matches Ok(req) && req@ == (RequestView {
                    nick: old(self)@.nick->Some_0,
                    user: old(self)@.user->Some_0,
                    realname: old(self)@.realname,
                    wallops: old(self)@.wallops,
                    invisible: old(self)@.invisible,
                }),
            },
    {
        proof {
            encode_utf8_valid_utf8(self.realname@);
        }
        let nick = match &self.nick {
            None => {
                return Err("nick must be set");
            },
            Some(x) => {
                proof {
                    encode_utf8_valid_utf8(x@);
                }
                if string_bytes(x).len() == 0 {
                    return Err("nick must be non-empty");
                }
                x.clone()
            },
        };
        let user = match &self.user {
            None => {
                return Err("user must be set");
            },
            Some(x) => {
                proof {
                    encode_utf8_valid_utf8(x@);
                }
                if string_bytes(x).len() == 0 {
                    return Err("user must be non-empty");
                }
                x.clone()
            },
        };
        if string_bytes(&self.realname).len() == 0 {
            return Err("realname must be non-empty");
        }
        Ok(RegisterRequest {
            nick: nick,
            user: user,
            realname: self.realname.clone(),
            wallops: self.wallops,
            invisible: self.invisible,
        })
    }
}

/// A registration request, by its parts.
pub struct RequestView {
    pub nick: Seq<char>,
    pub user: Seq<char>,
    pub realname: Seq<char>,
    pub wallops: bool,
    pub invisible: bool,
}

/// A registration request.
#[derive(Debug)]
pub struct RegisterRequest {
    nick: String,
    user: String,
    realname: String,
    wallops: bool,
    invisible: bool,
}

impl View for RegisterRequest {
    type V = RequestView;

    closed spec fn view(&self) -> RequestView {
        RequestView {
            nick: self.nick@,
            user: self.user@,
            realname: self.realname@,
            wallops: self.wallops,
            invisible: self.invisible,
        }
    }
}

/// The user mode number a request asks for: 4 for wallops, plus 8 for
/// invisible.
pub open spec fn request_mode(r: RequestView) -> u8 {
    ((if r.wallops { 4int } else { 0int }) + (if r.invisible { 8int } else { 0int })) as u8
}

/// The `USER` line of a request.
pub open spec fn request_user_line(r: RequestView) -> Seq<u8> {
    user_line(encode_utf8(r.user), decimal_of(request_mode(r)), seq![0x2au8], encode_utf8(r.realname))
}

impl RegisterRequest {
    /// The nick, to change in place.
    pub fn get_mut_nick(&mut self) -> (r: &mut String)
        ensures
            r@ == old(self)@.nick,
            final(self)@ == (RequestView { nick: final(r)@, ..old(self)@ }),
    {
        &mut self.nick
    }

    /// The `USER` message of the request.
    pub fn get_user(&self) -> (r: client::User)
        requires
            msg_builds(request_user_line(self@)),
        ensures
            spec_new_msg(request_user_line(self@)) == Ok::<IrcMsgView, ParseError>(r@),
    {
        let mut mode: u8 = 0;
        if self.wallops {
            mode = mode + 4;
        }
        if self.invisible {
            mode = mode + 8;
        }
        let digits = decimal_bytes(mode);
        let star = vec_from_array([0x2au8]);
        proof {
            lemma_ascii_utf8(digits@);
            lemma_ascii_utf8(star@);
        }
        client::User::new(
            self.user.as_str(),
            as_text(digits.as_slice()),
            as_text(star.as_slice()),
            self.realname.as_str(),
        )
    }

    /// Whether the `USER` line of the request reads back as a message.
    pub fn user_line_builds(&self) -> (r: bool)
        ensures
            r == msg_builds(request_user_line(self@)),
    {
        let mut mode: u8 = 0;
        if self.wallops {
            mode = mode + 4;
        }
        if self.invisible {
            mode = mode + 8;
        }
        let mut line = user_bytes();
        line.push(0x20);
        push_bytes(&mut line, string_bytes(&self.user));
        line.push(0x20);
        push_bytes(&mut line, decimal_bytes(mode).as_slice());
        line.push(0x20);
        line.push(0x2a);
        line.push(0x20);
        line.push(0x3a);
        push_bytes(&mut line, string_bytes(&self.realname));
        proof {
            assert(line@ =~= request_user_line(self@));
        }
        line_builds(&line)
    }

    /// Whether the `NICK` line of the request reads back as a message.
    pub fn nick_line_builds(&self) -> (r: bool)
        ensures
            r == msg_builds(nick_line(encode_utf8(self@.nick))),
    {
        let mut line = nick_bytes();
        line.push(0x20);
        push_bytes(&mut line, string_bytes(&self.nick));
        proof {
            assert(line@ =~= nick_line(encode_utf8(self@.nick)));
        }
        line_builds(&line)
    }

    /// The `NICK` message of the request.
    pub fn get_nick(&self) -> (r: client::Nick)
        requires
            msg_builds(nick_line(encode_utf8(self@.nick))),
        ensures
            spec_new_msg(nick_line(encode_utf8(self@.nick))) == Ok::<IrcMsgView, ParseError>(r@),
    {
        client::Nick::new(self.nick.as_str())
    }
}

/// How registration stands after a message from the server.
#[derive(Debug, Clone, Copy, PartialEq, Eq, Structural)]
pub enum RegisterProgress {
    /// Not decided yet.
    Waiting,
    /// The nick was refused as invalid (numeric 432).
    InvalidNick,
    /// The nick is taken (numeric 433).
    NickInUse,
    /// The server welcomed the client (numeric 1).
    Registered,
}

/// The outcome a message decides.
pub open spec fn progress_of(m: IrcMsgView) -> RegisterProgress {
    match spec_incoming_kind(m) {
        IncomingKind::Numeric(n) => if n == 432 {
            RegisterProgress::InvalidNick
        } else if n == 433 {
            RegisterProgress::NickInUse
        } else if n == 1 {
            RegisterProgress::Registered
        } else {
            RegisterProgress::Waiting
        },
        _ => RegisterProgress::Waiting,
    }
}

/// Follows a message from the server during registration: the state tracks
/// it, and the message may decide the outcome.
pub fn registration_step(state: &mut State, msg: IrcMsg) -> (r: RegisterProgress)
    requires
        old(state).inv(),
        !message_faults(old(state)@, msg@),
        !incoming_faults(msg@),
    ensures
        final(state).inv(),
        final(state)@ == after_message(old(state)@, msg@),
        r == progress_of(msg@),
{
    state.on_message(&msg);
    let tymsg = IncomingMsg::from_msg(msg);
    match tymsg {
        IncomingMsg::Numeric(n, _) => {
            if n == 432 {
                RegisterProgress::InvalidNick
            } else if n == 433 {
                RegisterProgress::NickInUse
            } else if n == 1 {
                RegisterProgress::Registered
            } else {
                RegisterProgress::Waiting
            }
        },
        _ => RegisterProgress::Waiting,
    }
}

} // verus!
