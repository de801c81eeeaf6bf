//! Server messages read in place, each checked by the typed reader of its
//! kind.

use vstd::prelude::*;
use vstd::string::*;
use vstd::utf8::*;
use vstd::slice::slice_subrange;
use crate::parse::parse2::{IrcMsg, IrcMsgBuf, line_valid, line_run, LineState};
use crate::parse_helpers::{split_prefix, split_command, split_arg, parse_prefix, is_valid_prefix, spec_split_prefix, spec_split_command, spec_split_arg, spec_parse_prefix, spec_first_line, spec_all_non_white, spec_find, lemma_find};
use crate::message_types::server::IncomingKind;
use crate::mtype2::{FromIrcMsg, legacy_kind, legacy_faults, legacy_kind_of, eq_ignore_ascii_case, bytes_eq_ignore_ascii_case};
use crate::text::{push_bytes, as_text};
use crate::parse::compose::vec_from_array;

verus! {

/// The line, when it is a complete message line: its first line.
pub open spec fn checked_line(v: Seq<u8>) -> Seq<u8> {
    spec_first_line(v)
}

/// The source of a line: its `:prefix`, colon included, or nothing.
pub open spec fn source_of(v: Seq<u8>) -> Seq<u8> {
    spec_split_prefix(v).0
}

/// The first parameter of a line.
pub open spec fn target_of(v: Seq<u8>) -> Seq<u8> {
    spec_split_arg(spec_split_command(spec_split_prefix(v).1).1).0
}

/// The command of a line.
pub open spec fn command_of(v: Seq<u8>) -> Seq<u8> {
    spec_split_command(spec_split_prefix(v).1).0
}

/// A line the typed readers read as a `Invite`.
pub open spec fn invite_valid(v: Seq<u8>) -> bool {
    legacy_kind(v) == Some(IncomingKind::Invite)
}

/// A `Invite` read in place.
#[derive(Clone, Copy, Debug)]
pub struct Invite<'a> {
    inner: IrcMsg<'a>,
}

impl<'a> View for Invite<'a> {
    type V = Seq<u8>;

    closed spec fn view(&self) -> Seq<u8> {
        self.inner@
    }
}

impl<'a> core::ops::Deref for Invite<'a> {
    type Target = IrcMsg<'a>;

    fn deref(&self) -> (r: &IrcMsg<'a>)
        ensures
            r@ == self@,
    {
        &self.inner
    }
}

impl<'a> Invite<'a> {
    fn validate(msg: &IrcMsg) -> (r: Result<(), ()>)
        requires
            !legacy_faults(msg@),
        ensures
            r is Ok == invite_valid(msg@),
    {
        match legacy_kind_of(msg.as_bytes()) {
            Some(IncomingKind::Invite) => Ok(()),
            _ => Err(()),
        }
    }

    /// Reads a line as a `Invite`: its first line must be a complete message of
    /// that type.  The whole buffer is kept.
    pub fn parse(buffer: &'a [u8]) -> (r: Result<Invite<'a>, ()>)
        requires
            line_valid(spec_first_line(buffer@)) ==> !(legacy_faults(spec_first_line(buffer@))),
        ensures
            r is Ok == (line_valid(spec_first_line(buffer@)) && invite_valid(spec_first_line(buffer@))),
            r matches Ok(m) ==> m@ == buffer@,
    {
        let message = match IrcMsg::new(buffer) {
            Ok(m) => m,
            Err(_) => {
                return Err(());
            },
        };
        match Invite::validate(&message) {
            Ok(()) => Ok(Invite { inner: IrcMsg::from_bytes(buffer) }),
            Err(()) => Err(()),
        }
    }

    pub fn to_irc_msg(&self) -> (r: &IrcMsg<'a>)
        ensures
            r@ == self@,
    {
        &self.inner
    }

    pub fn as_bytes(&self) -> (r: &'a [u8])
        ensures
            r@ == self@,
    {
        self.inner.as_bytes()
    }

    /// An owned copy.
    pub fn to_owned(&self) -> (r: InviteBuf)
        ensures
            r@ == self@,
    {
        InviteBuf { inner: self.inner.to_owned() }
    }
}

impl<'a> FromIrcMsg<'a> for Invite<'a> {
    type Err = ();

    open spec fn faults_on(v: Seq<u8>) -> bool {
        legacy_faults(v)
    }

    fn from_irc_msg(msg: &IrcMsg<'a>) -> (r: Result<Invite<'a>, ()>)
        ensures
            r is Ok == invite_valid(msg@),
            r matches Ok(m) ==> m@ == msg@,
    {
        match Invite::validate(msg) {
            Ok(()) => Ok(Invite { inner: *msg }),
            Err(()) => Err(()),
        }
    }
}

/// An owned `Invite`.
#[derive(Clone, Debug)]
pub struct InviteBuf {
    inner: IrcMsgBuf,
}

impl View for InviteBuf {
    type V = Seq<u8>;

    closed spec fn view(&self) -> Seq<u8> {
        self.inner@
    }
}

impl InviteBuf {
    /// The message read in place.
    pub fn as_ref(&self) -> (r: Invite<'_>)
        ensures
            r@ == self@,
    {
        Invite { inner: self.inner.as_irc_msg() }
    }

    pub fn into_inner(self) -> (r: IrcMsgBuf)
        ensures
            r@ == self@,
    {
        self.inner
    }

    pub fn as_bytes(&self) -> (r: &[u8])
        ensures
            r@ == self@,
    {
        self.inner.as_bytes()
    }

    /// The command.
    pub fn get_command(&self) -> (r: &str)
        requires
            self@.len() > 0,
            valid_utf8(command_of(self@)),
        ensures
            r.spec_bytes() == command_of(self@),
    {
        self.inner.as_irc_msg().get_command()
    }
}

/// A line the typed readers read as a `Join`.
pub open spec fn join_valid(v: Seq<u8>) -> bool {
    legacy_kind(v) == Some(IncomingKind::Join)
}

/// A `Join` read in place.
#[derive(Clone, Copy, Debug)]
pub struct Join<'a> {
    inner: IrcMsg<'a>,
}

impl<'a> View for Join<'a> {
    type V = Seq<u8>;

    closed spec fn view(&self) -> Seq<u8> {
        self.inner@
    }
}

impl<'a> core::ops::Deref for Join<'a> {
    type Target = IrcMsg<'a>;

    fn deref(&self) -> (r: &IrcMsg<'a>)
        ensures
            r@ == self@,
    {
        &self.inner
    }
}

impl<'a> Join<'a> {
    fn validate(msg: &IrcMsg) -> (r: Result<(), ()>)
        requires
            !legacy_faults(msg@),
        ensures
            r is Ok == join_valid(msg@),
    {
        match legacy_kind_of(msg.as_bytes()) {
            Some(IncomingKind::Join) => Ok(()),
            _ => Err(()),
        }
    }

    /// Reads a line as a `Join`: its first line must be a complete message of
    /// that type.  The whole buffer is kept.
    pub fn parse(buffer: &'a [u8]) -> (r: Result<Join<'a>, ()>)
        requires
            line_valid(spec_first_line(buffer@)) ==> !(legacy_faults(spec_first_line(buffer@))),
        ensures
            r is Ok == (line_valid(spec_first_line(buffer@)) && join_valid(spec_first_line(buffer@))),
            r matches Ok(m) ==> m@ == buffer@,
    {
        let message = match IrcMsg::new(buffer) {
            Ok(m) => m,
            Err(_) => {
                return Err(());
            },
        };
        match Join::validate(&message) {
            Ok(()) => Ok(Join { inner: IrcMsg::from_bytes(buffer) }),
            Err(()) => Err(()),
        }
    }

    pub fn to_irc_msg(&self) -> (r: &IrcMsg<'a>)
        ensures
            r@ == self@,
    {
        &self.inner
    }

    pub fn as_bytes(&self) -> (r: &'a [u8])
        ensures
            r@ == self@,
    {
        self.inner.as_bytes()
    }

    /// An owned copy.
    pub fn to_owned(&self) -> (r: JoinBuf)
        ensures
            r@ == self@,
    {
        JoinBuf { inner: self.inner.to_owned() }
    }

    /// The source: the `:prefix`, colon included, or nothing.
    pub fn get_source(&self) -> (r: &'a [u8])
        requires
            self@.len() > 0,
        ensures
            r@ == source_of(self@),
    {
        let (prefix, _rest) = split_prefix(self.inner.as_bytes());
        prefix
    }

    /// The first parameter.
    pub fn get_target(&self) -> (r: &'a [u8])
        requires
            self@.len() > 0,
        ensures
            r@ == target_of(self@),
    {
        let (_prefix, rest) = split_prefix(self.inner.as_bytes());
        let (_command, rest) = split_command(rest);
        let (target, _rest) = split_arg(rest);
        target
    }

    /// The nick of the source.  The source is read as `:nick!user@host`,
    /// which is refused when the user part has no white byte.
    pub fn get_nick(&self) -> (r: &'a str)
        requires
            self@.len() > 0,
            spec_parse_prefix(source_of(self@)) is Some,
            valid_utf8(spec_parse_prefix(source_of(self@))->Some_0.0),
        ensures
            r.spec_bytes() == spec_parse_prefix(source_of(self@))->Some_0.0,
    {
        let (nick, _, _) = parse_prefix(self.get_source()).unwrap();
        as_text(nick)
    }
}

impl<'a> FromIrcMsg<'a> for Join<'a> {
    type Err = ();

    open spec fn faults_on(v: Seq<u8>) -> bool {
        legacy_faults(v)
    }

    fn from_irc_msg(msg: &IrcMsg<'a>) -> (r: Result<Join<'a>, ()>)
        ensures
            r is Ok == join_valid(msg@),
            r matches Ok(m) ==> m@ == msg@,
    {
        match Join::validate(msg) {
            Ok(()) => Ok(Join { inner: *msg }),
            Err(()) => Err(()),
        }
    }
}

/// An owned `Join`.
#[derive(Clone, Debug)]
pub struct JoinBuf {
    inner: IrcMsgBuf,
}

impl View for JoinBuf {
    type V = Seq<u8>;

    closed spec fn view(&self) -> Seq<u8> {
        self.inner@
    }
}

impl JoinBuf {
    /// The message read in place.
    pub fn as_ref(&self) -> (r: Join<'_>)
        ensures
            r@ == self@,
    {
        Join { inner: self.inner.as_irc_msg() }
    }

    pub fn into_inner(self) -> (r: IrcMsgBuf)
        ensures
            r@ == self@,
    {
        self.inner
    }

    pub fn as_bytes(&self) -> (r: &[u8])
        ensures
            r@ == self@,
    {
        self.inner.as_bytes()
    }

    /// The command.
    pub fn get_command(&self) -> (r: &str)
        requires
            self@.len() > 0,
            valid_utf8(command_of(self@)),
        ensures
            r.spec_bytes() == command_of(self@),
    {
        self.inner.as_irc_msg().get_command()
    }

    /// The first parameter.
    pub fn get_target(&self) -> (r: &[u8])
        requires
            self@.len() > 0,
        ensures
            r@ == target_of(self@),
    {
        let (_prefix, rest) = split_prefix(self.inner.as_bytes());
        let (_command, rest) = split_command(rest);
        let (target, _rest) = split_arg(rest);
        target
    }
}

/// A line the typed readers read as a `Kick`.
pub open spec fn kick_valid(v: Seq<u8>) -> bool {
    legacy_kind(v) == Some(IncomingKind::Kick)
}

/// A `Kick` read in place.
#[derive(Clone, Copy, Debug)]
pub struct Kick<'a> {
    inner: IrcMsg<'a>,
}

impl<'a> View for Kick<'a> {
    type V = Seq<u8>;

    closed spec fn view(&self) -> Seq<u8> {
        self.inner@
    }
}

impl<'a> core::ops::Deref for Kick<'a> {
    type Target = IrcMsg<'a>;

    fn deref(&self) -> (r: &IrcMsg<'a>)
        ensures
            r@ == self@,
    {
        &self.inner
    }
}

impl<'a> Kick<'a> {
    fn validate(msg: &IrcMsg) -> (r: Result<(), ()>)
        requires
            !legacy_faults(msg@),
        ensures
            r is Ok == kick_valid(msg@),
    {
        match legacy_kind_of(msg.as_bytes()) {
            Some(IncomingKind::Kick) => Ok(()),
            _ => Err(()),
        }
    }

    /// Reads a line as a `Kick`: its first line must be a complete message of
    /// that type.  The whole buffer is kept.
    pub fn parse(buffer: &'a [u8]) -> (r: Result<Kick<'a>, ()>)
        requires
            line_valid(spec_first_line(buffer@)) ==> !(legacy_faults(spec_first_line(buffer@))),
        ensures
            r is Ok == (line_valid(spec_first_line(buffer@)) && kick_valid(spec_first_line(buffer@))),
            r matches Ok(m) ==> m@ == buffer@,
    {
        let message = match IrcMsg::new(buffer) {
            Ok(m) => m,
            Err(_) => {
                return Err(());
            },
        };
        match Kick::validate(&message) {
            Ok(()) => Ok(Kick { inner: IrcMsg::from_bytes(buffer) }),
            Err(()) => Err(()),
        }
    }

    pub fn to_irc_msg(&self) -> (r: &IrcMsg<'a>)
        ensures
            r@ == self@,
    {
        &self.inner
    }

    pub fn as_bytes(&self) -> (r: &'a [u8])
        ensures
            r@ == self@,
    {
        self.inner.as_bytes()
    }

    /// An owned copy.
    pub fn to_owned(&self) -> (r: KickBuf)
        ensures
            r@ == self@,
    {
        KickBuf { inner: self.inner.to_owned() }
    }

    /// The source: the `:prefix`, colon included, or nothing.
    pub fn get_source(&self) -> (r: &'a [u8])
        requires
            self@.len() > 0,
        ensures
            r@ == source_of(self@),
    {
        let (prefix, _rest) = split_prefix(self.inner.as_bytes());
        prefix
    }

    /// The first parameter.
    pub fn get_target(&self) -> (r: &'a [u8])
        requires
            self@.len() > 0,
        ensures
            r@ == target_of(self@),
    {
        let (_prefix, rest) = split_prefix(self.inner.as_bytes());
        let (_command, rest) = split_command(rest);
        let (target, _rest) = split_arg(rest);
        target
    }
}

impl<'a> FromIrcMsg<'a> for Kick<'a> {
    type Err = ();

    open spec fn faults_on(v: Seq<u8>) -> bool {
        legacy_faults(v)
    }

    fn from_irc_msg(msg: &IrcMsg<'a>) -> (r: Result<Kick<'a>, ()>)
        ensures
            r is Ok == kick_valid(msg@),
            r matches Ok(m) ==> m@ == msg@,
    {
        match Kick::validate(msg) {
            Ok(()) => Ok(Kick { inner: *msg }),
            Err(()) => Err(()),
        }
    }
}

/// An owned `Kick`.
#[derive(Clone, Debug)]
pub struct KickBuf {
    inner: IrcMsgBuf,
}

impl View for KickBuf {
    type V = Seq<u8>;

    closed spec fn view(&self) -> Seq<u8> {
        self.inner@
    }
}

impl KickBuf {
    /// The message read in place.
    pub fn as_ref(&self) -> (r: Kick<'_>)
        ensures
            r@ == self@,
    {
        Kick { inner: self.inner.as_irc_msg() }
    }

    pub fn into_inner(self) -> (r: IrcMsgBuf)
        ensures
            r@ == self@,
    {
        self.inner
    }

    pub fn as_bytes(&self) -> (r: &[u8])
        ensures
            r@ == self@,
    {
        self.inner.as_bytes()
    }

    /// The command.
    pub fn get_command(&self) -> (r: &str)
        requires
            self@.len() > 0,
            valid_utf8(command_of(self@)),
        ensures
            r.spec_bytes() == command_of(self@),
    {
        self.inner.as_irc_msg().get_command()
    }

    /// The first parameter.
    pub fn get_target(&self) -> (r: &[u8])
        requires
            self@.len() > 0,
        ensures
            r@ == target_of(self@),
    {
        let (_prefix, rest) = split_prefix(self.inner.as_bytes());
        let (_command, rest) = split_command(rest);
        let (target, _rest) = split_arg(rest);
        target
    }
}

/// A line the typed readers read as a `Mode`.
pub open spec fn mode_valid(v: Seq<u8>) -> bool {
    legacy_kind(v) == Some(IncomingKind::Mode)
}

/// A `Mode` read in place.
#[derive(Clone, Copy, Debug)]
pub struct Mode<'a> {
    inner: IrcMsg<'a>,
}

impl<'a> View for Mode<'a> {
    type V = Seq<u8>;

    closed spec fn view(&self) -> Seq<u8> {
        self.inner@
    }
}

impl<'a> core::ops::Deref for Mode<'a> {
    type Target = IrcMsg<'a>;

    fn deref(&self) -> (r: &IrcMsg<'a>)
        ensures
            r@ == self@,
    {
        &self.inner
    }
}

impl<'a> Mode<'a> {
    fn validate(msg: &IrcMsg) -> (r: Result<(), ()>)
        requires
            !legacy_faults(msg@),
        ensures
            r is Ok == mode_valid(msg@),
    {
        match legacy_kind_of(msg.as_bytes()) {
            Some(IncomingKind::Mode) => Ok(()),
            _ => Err(()),
        }
    }

    /// Reads a line as a `Mode`: its first line must be a complete message of
    /// that type.  The whole buffer is kept.
    pub fn parse(buffer: &'a [u8]) -> (r: Result<Mode<'a>, ()>)
        requires
            line_valid(spec_first_line(buffer@)) ==> !(legacy_faults(spec_first_line(buffer@))),
        ensures
            r is Ok == (line_valid(spec_first_line(buffer@)) && mode_valid(spec_first_line(buffer@))),
            r matches Ok(m) ==> m@ == buffer@,
    {
        let message = match IrcMsg::new(buffer) {
            Ok(m) => m,
            Err(_) => {
                return Err(());
            },
        };
        match Mode::validate(&message) {
            Ok(()) => Ok(Mode { inner: IrcMsg::from_bytes(buffer) }),
            Err(()) => Err(()),
        }
    }

    pub fn to_irc_msg(&self) -> (r: &IrcMsg<'a>)
        ensures
            r@ == self@,
    {
        &self.inner
    }

    pub fn as_bytes(&self) -> (r: &'a [u8])
        ensures
            r@ == self@,
    {
        self.inner.as_bytes()
    }

    /// An owned copy.
    pub fn to_owned(&self) -> (r: ModeBuf)
        ensures
            r@ == self@,
    {
        ModeBuf { inner: self.inner.to_owned() }
    }

    /// The source: the `:prefix`, colon included, or nothing.
    pub fn get_source(&self) -> (r: &'a [u8])
        requires
            self@.len() > 0,
        ensures
            r@ == source_of(self@),
    {
        let (prefix, _rest) = split_prefix(self.inner.as_bytes());
        prefix
    }

    /// The first parameter.
    pub fn get_target(&self) -> (r: &'a [u8])
        requires
            self@.len() > 0,
        ensures
            r@ == target_of(self@),
    {
        let (_prefix, rest) = split_prefix(self.inner.as_bytes());
        let (_command, rest) = split_command(rest);
        let (target, _rest) = split_arg(rest);
        target
    }
}

impl<'a> FromIrcMsg<'a> for Mode<'a> {
    type Err = ();

    open spec fn faults_on(v: Seq<u8>) -> bool {
        legacy_faults(v)
    }

    fn from_irc_msg(msg: &IrcMsg<'a>) -> (r: Result<Mode<'a>, ()>)
        ensures
            r is Ok == mode_valid(msg@),
            r matches Ok(m) ==> m@ == msg@,
    {
        match Mode::validate(msg) {
            Ok(()) => Ok(Mode { inner: *msg }),
            Err(()) => Err(()),
        }
    }
}

/// An owned `Mode`.
#[derive(Clone, Debug)]
pub struct ModeBuf {
    inner: IrcMsgBuf,
}

impl View for ModeBuf {
    type V = Seq<u8>;

    closed spec fn view(&self) -> Seq<u8> {
        self.inner@
    }
}

impl ModeBuf {
    /// The message read in place.
    pub fn as_ref(&self) -> (r: Mode<'_>)
        ensures
            r@ == self@,
    {
        Mode { inner: self.inner.as_irc_msg() }
    }

    pub fn into_inner(self) -> (r: IrcMsgBuf)
        ensures
            r@ == self@,
    {
        self.inner
    }

    pub fn as_bytes(&self) -> (r: &[u8])
        ensures
            r@ == self@,
    {
        self.inner.as_bytes()
    }

    /// The command.
    pub fn get_command(&self) -> (r: &str)
        requires
            self@.len() > 0,
            valid_utf8(command_of(self@)),
        ensures
            r.spec_bytes() == command_of(self@),
    {
        self.inner.as_irc_msg().get_command()
    }

    /// The first parameter.
    pub fn get_target(&self) -> (r: &[u8])
        requires
            self@.len() > 0,
        ensures
            r@ == target_of(self@),
    {
        let (_prefix, rest) = split_prefix(self.inner.as_bytes());
        let (_command, rest) = split_command(rest);
        let (target, _rest) = split_arg(rest);
        target
    }
}

/// A line the typed readers read as a `Nick`.
pub open spec fn nick_valid(v: Seq<u8>) -> bool {
    legacy_kind(v) == Some(IncomingKind::Nick)
}

/// A `Nick` read in place.
#[derive(Clone, Copy, Debug)]
pub struct Nick<'a> {
    inner: IrcMsg<'a>,
}

impl<'a> View for Nick<'a> {
    type V = Seq<u8>;

    closed spec fn view(&self) -> Seq<u8> {
        self.inner@
    }
}

impl<'a> core::ops::Deref for Nick<'a> {
    type Target = IrcMsg<'a>;

    fn deref(&self) -> (r: &IrcMsg<'a>)
        ensures
            r@ == self@,
    {
        &self.inner
    }
}

impl<'a> Nick<'a> {
    fn validate(msg: &IrcMsg) -> (r: Result<(), ()>)
        requires
            !legacy_faults(msg@),
        ensures
            r is Ok == nick_valid(msg@),
    {
        match legacy_kind_of(msg.as_bytes()) {
            Some(IncomingKind::Nick) => Ok(()),
            _ => Err(()),
        }
    }

    /// Reads a line as a `Nick`: its first line must be a complete message of
    /// that type.  The whole buffer is kept.
    pub fn parse(buffer: &'a [u8]) -> (r: Result<Nick<'a>, ()>)
        requires
            line_valid(spec_first_line(buffer@)) ==> !(legacy_faults(spec_first_line(buffer@))),
        ensures
            r is Ok == (line_valid(spec_first_line(buffer@)) && nick_valid(spec_first_line(buffer@))),
            r matches Ok(m) ==> m@ == buffer@,
    {
        let message = match IrcMsg::new(buffer) {
            Ok(m) => m,
            Err(_) => {
                return Err(());
            },
        };
        match Nick::validate(&message) {
            Ok(()) => Ok(Nick { inner: IrcMsg::from_bytes(buffer) }),
            Err(()) => Err(()),
        }
    }

    pub fn to_irc_msg(&self) -> (r: &IrcMsg<'a>)
        ensures
            r@ == self@,
    {
        &self.inner
    }

    pub fn as_bytes(&self) -> (r: &'a [u8])
        ensures
            r@ == self@,
    {
        self.inner.as_bytes()
    }

    /// An owned copy.
    pub fn to_owned(&self) -> (r: NickBuf)
        ensures
            r@ == self@,
    {
        NickBuf { inner: self.inner.to_owned() }
    }
}

impl<'a> FromIrcMsg<'a> for Nick<'a> {
    type Err = ();

    open spec fn faults_on(v: Seq<u8>) -> bool {
        legacy_faults(v)
    }

    fn from_irc_msg(msg: &IrcMsg<'a>) -> (r: Result<Nick<'a>, ()>)
        ensures
            r is Ok == nick_valid(msg@),
            r matches Ok(m) ==> m@ == msg@,
    {
        match Nick::validate(msg) {
            Ok(()) => Ok(Nick { inner: *msg }),
            Err(()) => Err(()),
        }
    }
}

/// An owned `Nick`.
#[derive(Clone, Debug)]
pub struct NickBuf {
    inner: IrcMsgBuf,
}

impl View for NickBuf {
    type V = Seq<u8>;

    closed spec fn view(&self) -> Seq<u8> {
        self.inner@
    }
}

impl NickBuf {
    /// The message read in place.
    pub fn as_ref(&self) -> (r: Nick<'_>)
        ensures
            r@ == self@,
    {
        Nick { inner: self.inner.as_irc_msg() }
    }

    pub fn into_inner(self) -> (r: IrcMsgBuf)
        ensures
            r@ == self@,
    {
        self.inner
    }

    pub fn as_bytes(&self) -> (r: &[u8])
        ensures
            r@ == self@,
    {
        self.inner.as_bytes()
    }

    /// The command.
    pub fn get_command(&self) -> (r: &str)
        requires
            self@.len() > 0,
            valid_utf8(command_of(self@)),
        ensures
            r.spec_bytes() == command_of(self@),
    {
        self.inner.as_irc_msg().get_command()
    }
}

/// A line the typed readers read as a `Notice`.
pub open spec fn notice_valid(v: Seq<u8>) -> bool {
    legacy_kind(v) == Some(IncomingKind::Notice)
}

/// A `Notice` read in place.
#[derive(Clone, Copy, Debug)]
pub struct Notice<'a> {
    inner: IrcMsg<'a>,
}

impl<'a> View for Notice<'a> {
    type V = Seq<u8>;

    closed spec fn view(&self) -> Seq<u8> {
        self.inner@
    }
}

impl<'a> core::ops::Deref for Notice<'a> {
    type Target = IrcMsg<'a>;

    fn deref(&self) -> (r: &IrcMsg<'a>)
        ensures
            r@ == self@,
    {
        &self.inner
    }
}

impl<'a> Notice<'a> {
    fn validate(msg: &IrcMsg) -> (r: Result<(), ()>)
        requires
            !legacy_faults(msg@),
        ensures
            r is Ok == notice_valid(msg@),
    {
        match legacy_kind_of(msg.as_bytes()) {
            Some(IncomingKind::Notice) => Ok(()),
            _ => Err(()),
        }
    }

    /// Reads a line as a `Notice`: its first line must be a complete message of
    /// that type.  The whole buffer is kept.
    pub fn parse(buffer: &'a [u8]) -> (r: Result<Notice<'a>, ()>)
        requires
            line_valid(spec_first_line(buffer@)) ==> !(legacy_faults(spec_first_line(buffer@))),
        ensures
            r is Ok == (line_valid(spec_first_line(buffer@)) && notice_valid(spec_first_line(buffer@))),
            r matches Ok(m) ==> m@ == buffer@,
    {
        let message = match IrcMsg::new(buffer) {
            Ok(m) => m,
            Err(_) => {
                return Err(());
            },
        };
        match Notice::validate(&message) {
            Ok(()) => Ok(Notice { inner: IrcMsg::from_bytes(buffer) }),
            Err(()) => Err(()),
        }
    }

    pub fn to_irc_msg(&self) -> (r: &IrcMsg<'a>)
        ensures
            r@ == self@,
    {
        &self.inner
    }

    pub fn as_bytes(&self) -> (r: &'a [u8])
        ensures
            r@ == self@,
    {
        self.inner.as_bytes()
    }

    /// An owned copy.
    pub fn to_owned(&self) -> (r: NoticeBuf)
        ensures
            r@ == self@,
    {
        NoticeBuf { inner: self.inner.to_owned() }
    }

    /// The source: the `:prefix`, colon included, or nothing.
    pub fn get_source(&self) -> (r: &'a [u8])
        requires
            self@.len() > 0,
        ensures
            r@ == source_of(self@),
    {
        let (prefix, _rest) = split_prefix(self.inner.as_bytes());
        prefix
    }

    /// The first parameter.
    pub fn get_target(&self) -> (r: &'a [u8])
        requires
            self@.len() > 0,
        ensures
            r@ == target_of(self@),
    {
        let (_prefix, rest) = split_prefix(self.inner.as_bytes());
        let (_command, rest) = split_command(rest);
        let (target, _rest) = split_arg(rest);
        target
    }
}

impl<'a> FromIrcMsg<'a> for Notice<'a> {
    type Err = ();

    open spec fn faults_on(v: Seq<u8>) -> bool {
        legacy_faults(v)
    }

    fn from_irc_msg(msg: &IrcMsg<'a>) -> (r: Result<Notice<'a>, ()>)
        ensures
            r is Ok == notice_valid(msg@),
            r matches Ok(m) ==> m@ == msg@,
    {
        match Notice::validate(msg) {
            Ok(()) => Ok(Notice { inner: *msg }),
            Err(()) => Err(()),
        }
    }
}

/// An owned `Notice`.
#[derive(Clone, Debug)]
pub struct NoticeBuf {
    inner: IrcMsgBuf,
}

impl View for NoticeBuf {
    type V = Seq<u8>;

    closed spec fn view(&self) -> Seq<u8> {
        self.inner@
    }
}

impl NoticeBuf {
    /// The message read in place.
    pub fn as_ref(&self) -> (r: Notice<'_>)
        ensures
            r@ == self@,
    {
        Notice { inner: self.inner.as_irc_msg() }
    }

    pub fn into_inner(self) -> (r: IrcMsgBuf)
        ensures
            r@ == self@,
    {
        self.inner
    }

    pub fn as_bytes(&self) -> (r: &[u8])
        ensures
            r@ == self@,
    {
        self.inner.as_bytes()
    }

    /// The command.
    pub fn get_command(&self) -> (r: &str)
        requires
            self@.len() > 0,
            valid_utf8(command_of(self@)),
        ensures
            r.spec_bytes() == command_of(self@),
    {
        self.inner.as_irc_msg().get_command()
    }

    /// The first parameter.
    pub fn get_target(&self) -> (r: &[u8])
        requires
            self@.len() > 0,
        ensures
            r@ == target_of(self@),
    {
        let (_prefix, rest) = split_prefix(self.inner.as_bytes());
        let (_command, rest) = split_command(rest);
        let (target, _rest) = split_arg(rest);
        target
    }
}

/// A line the typed readers read as a `Part`.
pub open spec fn part_valid(v: Seq<u8>) -> bool {
    legacy_kind(v) == Some(IncomingKind::Part)
}

/// A `Part` read in place.
#[derive(Clone, Copy, Debug)]
pub struct Part<'a> {
    inner: IrcMsg<'a>,
}

impl<'a> View for Part<'a> {
    type V = Seq<u8>;

    closed spec fn view(&self) -> Seq<u8> {
        self.inner@
    }
}

impl<'a> core::ops::Deref for Part<'a> {
    type Target = IrcMsg<'a>;

    fn deref(&self) -> (r: &IrcMsg<'a>)
        ensures
            r@ == self@,
    {
        &self.inner
    }
}

impl<'a> Part<'a> {
    fn validate(msg: &IrcMsg) -> (r: Result<(), ()>)
        requires
            !legacy_faults(msg@),
        ensures
            r is Ok == part_valid(msg@),
    {
        match legacy_kind_of(msg.as_bytes()) {
            Some(IncomingKind::Part) => Ok(()),
            _ => Err(()),
        }
    }

    /// Reads a line as a `Part`: its first line must be a complete message of
    /// that type.  The whole buffer is kept.
    pub fn parse(buffer: &'a [u8]) -> (r: Result<Part<'a>, ()>)
        requires
            line_valid(spec_first_line(buffer@)) ==> !(legacy_faults(spec_first_line(buffer@))),
        ensures
            r is Ok == (line_valid(spec_first_line(buffer@)) && part_valid(spec_first_line(buffer@))),
            r matches Ok(m) ==> m@ == buffer@,
    {
        let message = match IrcMsg::new(buffer) {
            Ok(m) => m,
            Err(_) => {
                return Err(());
            },
        };
        match Part::validate(&message) {
            Ok(()) => Ok(Part { inner: IrcMsg::from_bytes(buffer) }),
            Err(()) => Err(()),
        }
    }

    pub fn to_irc_msg(&self) -> (r: &IrcMsg<'a>)
        ensures
            r@ == self@,
    {
        &self.inner
    }

    pub fn as_bytes(&self) -> (r: &'a [u8])
        ensures
            r@ == self@,
    {
        self.inner.as_bytes()
    }

    /// An owned copy.
    pub fn to_owned(&self) -> (r: PartBuf)
        ensures
            r@ == self@,
    {
        PartBuf { inner: self.inner.to_owned() }
    }

    /// The source: the `:prefix`, colon included, or nothing.
    pub fn get_source(&self) -> (r: &'a [u8])
        requires
            self@.len() > 0,
        ensures
            r@ == source_of(self@),
    {
        let (prefix, _rest) = split_prefix(self.inner.as_bytes());
        prefix
    }

    /// The first parameter.
    pub fn get_target(&self) -> (r: &'a [u8])
        requires
            self@.len() > 0,
        ensures
            r@ == target_of(self@),
    {
        let (_prefix, rest) = split_prefix(self.inner.as_bytes());
        let (_command, rest) = split_command(rest);
        let (target, _rest) = split_arg(rest);
        target
    }
}

impl<'a> FromIrcMsg<'a> for Part<'a> {
    type Err = ();

    open spec fn faults_on(v: Seq<u8>) -> bool {
        legacy_faults(v)
    }

    fn from_irc_msg(msg: &IrcMsg<'a>) -> (r: Result<Part<'a>, ()>)
        ensures
            r is Ok == part_valid(msg@),
            r matches Ok(m) ==> m@ == msg@,
    {
        match Part::validate(msg) {
            Ok(()) => Ok(Part { inner: *msg }),
            Err(()) => Err(()),
        }
    }
}

/// An owned `Part`.
#[derive(Clone, Debug)]
pub struct PartBuf {
    inner: IrcMsgBuf,
}

impl View for PartBuf {
    type V = Seq<u8>;

    closed spec fn view(&self) -> Seq<u8> {
        self.inner@
    }
}

impl PartBuf {
    /// The message read in place.
    pub fn as_ref(&self) -> (r: Part<'_>)
        ensures
            r@ == self@,
    {
        Part { inner: self.inner.as_irc_msg() }
    }

    pub fn into_inner(self) -> (r: IrcMsgBuf)
        ensures
            r@ == self@,
    {
        self.inner
    }

    pub fn as_bytes(&self) -> (r: &[u8])
        ensures
            r@ == self@,
    {
        self.inner.as_bytes()
    }

    /// The command.
    pub fn get_command(&self) -> (r: &str)
        requires
            self@.len() > 0,
            valid_utf8(command_of(self@)),
        ensures
            r.spec_bytes() == command_of(self@),
    {
        self.inner.as_irc_msg().get_command()
    }

    /// The first parameter.
    pub fn get_target(&self) -> (r: &[u8])
        requires
            self@.len() > 0,
        ensures
            r@ == target_of(self@),
    {
        let (_prefix, rest) = split_prefix(self.inner.as_bytes());
        let (_command, rest) = split_command(rest);
        let (target, _rest) = split_arg(rest);
        target
    }
}

/// A line the typed readers read as a `Ping`.
pub open spec fn ping_valid(v: Seq<u8>) -> bool {
    legacy_kind(v) == Some(IncomingKind::Ping)
}

/// A `Ping` read in place.
#[derive(Clone, Copy, Debug)]
pub struct Ping<'a> {
    inner: IrcMsg<'a>,
}

impl<'a> View for Ping<'a> {
    type V = Seq<u8>;

    closed spec fn view(&self) -> Seq<u8> {
        self.inner@
    }
}

impl<'a> core::ops::Deref for Ping<'a> {
    type Target = IrcMsg<'a>;

    fn deref(&self) -> (r: &IrcMsg<'a>)
        ensures
            r@ == self@,
    {
        &self.inner
    }
}

impl<'a> Ping<'a> {
    fn validate(msg: &IrcMsg) -> (r: Result<(), ()>)
        requires
            !legacy_faults(msg@),
        ensures
            r is Ok == ping_valid(msg@),
    {
        match legacy_kind_of(msg.as_bytes()) {
            Some(IncomingKind::Ping) => Ok(()),
            _ => Err(()),
        }
    }

    /// Reads a line as a `Ping`: its first line must be a complete message of
    /// that type.  The whole buffer is kept.
    pub fn parse(buffer: &'a [u8]) -> (r: Result<Ping<'a>, ()>)
        requires
            line_valid(spec_first_line(buffer@)) ==> !(legacy_faults(spec_first_line(buffer@))),
        ensures
            r is Ok == (line_valid(spec_first_line(buffer@)) && ping_valid(spec_first_line(buffer@))),
            r matches Ok(m) ==> m@ == buffer@,
    {
        let message = match IrcMsg::new(buffer) {
            Ok(m) => m,
            Err(_) => {
                return Err(());
            },
        };
        match Ping::validate(&message) {
            Ok(()) => Ok(Ping { inner: IrcMsg::from_bytes(buffer) }),
            Err(()) => Err(()),
        }
    }

    pub fn to_irc_msg(&self) -> (r: &IrcMsg<'a>)
        ensures
            r@ == self@,
    {
        &self.inner
    }

    pub fn as_bytes(&self) -> (r: &'a [u8])
        ensures
            r@ == self@,
    {
        self.inner.as_bytes()
    }

    /// An owned copy.
    pub fn to_owned(&self) -> (r: PingBuf)
        ensures
            r@ == self@,
    {
        PingBuf { inner: self.inner.to_owned() }
    }
}

impl<'a> FromIrcMsg<'a> for Ping<'a> {
    type Err = ();

    open spec fn faults_on(v: Seq<u8>) -> bool {
        legacy_faults(v)
    }

    fn from_irc_msg(msg: &IrcMsg<'a>) -> (r: Result<Ping<'a>, ()>)
        ensures
            r is Ok == ping_valid(msg@),
            r matches Ok(m) ==> m@ == msg@,
    {
        match Ping::validate(msg) {
            Ok(()) => Ok(Ping { inner: *msg }),
            Err(()) => Err(()),
        }
    }
}

/// An owned `Ping`.
#[derive(Clone, Debug)]
pub struct PingBuf {
    inner: IrcMsgBuf,
}

impl View for PingBuf {
    type V = Seq<u8>;

    closed spec fn view(&self) -> Seq<u8> {
        self.inner@
    }
}

impl PingBuf {
    /// The message read in place.
    pub fn as_ref(&self) -> (r: Ping<'_>)
        ensures
            r@ == self@,
    {
        Ping { inner: self.inner.as_irc_msg() }
    }

    pub fn into_inner(self) -> (r: IrcMsgBuf)
        ensures
            r@ == self@,
    {
        self.inner
    }

    pub fn as_bytes(&self) -> (r: &[u8])
        ensures
            r@ == self@,
    {
        self.inner.as_bytes()
    }

    /// The command.
    pub fn get_command(&self) -> (r: &str)
        requires
            self@.len() > 0,
            valid_utf8(command_of(self@)),
        ensures
            r.spec_bytes() == command_of(self@),
    {
        self.inner.as_irc_msg().get_command()
    }
}

/// What follows the target of a line.
pub open spec fn after_target(v: Seq<u8>) -> Seq<u8> {
    spec_split_arg(spec_split_command(spec_split_prefix(v).1).1).1
}

/// A line the typed readers read as a `Privmsg`, with a non-empty target and
/// exactly one parameter after it.
pub open spec fn privmsg_valid(v: Seq<u8>) -> bool {
    &&& legacy_kind(v) == Some(IncomingKind::Privmsg)
    &&& v.len() > 0
    &&& target_of(v).len() >= 1
    &&& spec_split_arg(after_target(v)).1.len() == 0
}

/// A `Privmsg` read in place.
#[derive(Clone, Copy, Debug)]
pub struct Privmsg<'a> {
    inner: IrcMsg<'a>,
}

impl<'a> View for Privmsg<'a> {
    type V = Seq<u8>;

    closed spec fn view(&self) -> Seq<u8> {
        self.inner@
    }
}

impl<'a> core::ops::Deref for Privmsg<'a> {
    type Target = IrcMsg<'a>;

    fn deref(&self) -> (r: &IrcMsg<'a>)
        ensures
            r@ == self@,
    {
        &self.inner
    }
}

impl<'a> Privmsg<'a> {
    fn validate(msg: &IrcMsg) -> (r: Result<(), ()>)
        requires
            !legacy_faults(msg@),
        ensures
            r is Ok == privmsg_valid(msg@),
    {
        match legacy_kind_of(msg.as_bytes()) {
            Some(IncomingKind::Privmsg) => {},
            _ => {
                return Err(());
            },
        }
        let buf = msg.as_bytes();
        if buf.len() == 0 {
            return Err(());
        }
        let (_prefix, rest) = split_prefix(buf);
        let (_command, rest) = split_command(rest);
        let (target, rest) = split_arg(rest);
        if target.len() < 1 {
            return Err(());
        }
        let (_body, must_be_empty) = split_arg(rest);
        if must_be_empty.len() != 0 {
            return Err(());
        }
        Ok(())
    }

    /// Reads a line as a `Privmsg`: its first line must be a complete message of
    /// that type.  The whole buffer is kept.
    pub fn parse(buffer: &'a [u8]) -> (r: Result<Privmsg<'a>, ()>)
        requires
            line_valid(spec_first_line(buffer@)) ==> !(legacy_faults(spec_first_line(buffer@))),
        ensures
            r is Ok == (line_valid(spec_first_line(buffer@)) && privmsg_valid(spec_first_line(buffer@))),
            r matches Ok(m) ==> m@ == buffer@,
    {
        let message = match IrcMsg::new(buffer) {
            Ok(m) => m,
            Err(_) => {
                return Err(());
            },
        };
        match Privmsg::validate(&message) {
            Ok(()) => Ok(Privmsg { inner: IrcMsg::from_bytes(buffer) }),
            Err(()) => Err(()),
        }
    }

    pub fn to_irc_msg(&self) -> (r: &IrcMsg<'a>)
        ensures
            r@ == self@,
    {
        &self.inner
    }

    pub fn as_bytes(&self) -> (r: &'a [u8])
        ensures
            r@ == self@,
    {
        self.inner.as_bytes()
    }

    /// An owned copy.
    pub fn to_owned(&self) -> (r: PrivmsgBuf)
        ensures
            r@ == self@,
    {
        PrivmsgBuf { inner: self.inner.to_owned() }
    }

    /// The source: the `:prefix`, colon included, or nothing.
    pub fn get_source(&self) -> (r: &'a [u8])
        requires
            self@.len() > 0,
        ensures
            r@ == source_of(self@),
    {
        let (prefix, _rest) = split_prefix(self.inner.as_bytes());
        prefix
    }

    /// The first parameter.
    pub fn get_target(&self) -> (r: &'a [u8])
        requires
            self@.len() > 0,
        ensures
            r@ == target_of(self@),
    {
        let (_prefix, rest) = split_prefix(self.inner.as_bytes());
        let (_command, rest) = split_command(rest);
        let (target, _rest) = split_arg(rest);
        target
    }

    /// The parameter after the target.
    pub fn get_body_raw(&self) -> (r: &'a [u8])
        requires
            self@.len() > 0,
            spec_split_arg(spec_split_arg(spec_split_command(spec_split_prefix(self@).1).1).1).1.len() == 0,
        ensures
            r@ == spec_split_arg(spec_split_arg(spec_split_command(spec_split_prefix(self@).1).1).1).0,
    {
        let (_prefix, rest) = split_prefix(self.inner.as_bytes());
        let (_command, rest) = split_command(rest);
        let (_target, rest) = split_arg(rest);
        let (body, _must_be_empty) = split_arg(rest);
        body
    }
}

impl<'a> FromIrcMsg<'a> for Privmsg<'a> {
    type Err = ();

    open spec fn faults_on(v: Seq<u8>) -> bool {
        legacy_faults(v)
    }

    fn from_irc_msg(msg: &IrcMsg<'a>) -> (r: Result<Privmsg<'a>, ()>)
        ensures
            r is Ok == privmsg_valid(msg@),
            r matches Ok(m) ==> m@ == msg@,
    {
        match Privmsg::validate(msg) {
            Ok(()) => Ok(Privmsg { inner: *msg }),
            Err(()) => Err(()),
        }
    }
}

/// An owned `Privmsg`.
#[derive(Clone, Debug)]
pub struct PrivmsgBuf {
    inner: IrcMsgBuf,
}

impl View for PrivmsgBuf {
    type V = Seq<u8>;

    closed spec fn view(&self) -> Seq<u8> {
        self.inner@
    }
}

impl PrivmsgBuf {
    /// The message read in place.
    pub fn as_ref(&self) -> (r: Privmsg<'_>)
        ensures
            r@ == self@,
    {
        Privmsg { inner: self.inner.as_irc_msg() }
    }

    pub fn into_inner(self) -> (r: IrcMsgBuf)
        ensures
            r@ == self@,
    {
        self.inner
    }

    pub fn as_bytes(&self) -> (r: &[u8])
        ensures
            r@ == self@,
    {
        self.inner.as_bytes()
    }

    /// The command.
    pub fn get_command(&self) -> (r: &str)
        requires
            self@.len() > 0,
            valid_utf8(command_of(self@)),
        ensures
            r.spec_bytes() == command_of(self@),
    {
        self.inner.as_irc_msg().get_command()
    }

    /// The first parameter.
    pub fn get_target(&self) -> (r: &[u8])
        requires
            self@.len() > 0,
        ensures
            r@ == target_of(self@),
    {
        let (_prefix, rest) = split_prefix(self.inner.as_bytes());
        let (_command, rest) = split_command(rest);
        let (target, _rest) = split_arg(rest);
        target
    }
}

/// A line the typed readers read as a `Topic`.
pub open spec fn topic_valid(v: Seq<u8>) -> bool {
    legacy_kind(v) == Some(IncomingKind::Topic)
}

/// A `Topic` read in place.
#[derive(Clone, Copy, Debug)]
pub struct Topic<'a> {
    inner: IrcMsg<'a>,
}

impl<'a> View for Topic<'a> {
    type V = Seq<u8>;

    closed spec fn view(&self) -> Seq<u8> {
        self.inner@
    }
}

impl<'a> core::ops::Deref for Topic<'a> {
    type Target = IrcMsg<'a>;

    fn deref(&self) -> (r: &IrcMsg<'a>)
        ensures
            r@ == self@,
    {
        &self.inner
    }
}

impl<'a> Topic<'a> {
    fn validate(msg: &IrcMsg) -> (r: Result<(), ()>)
        requires
            !legacy_faults(msg@),
        ensures
            r is Ok == topic_valid(msg@),
    {
        match legacy_kind_of(msg.as_bytes()) {
            Some(IncomingKind::Topic) => Ok(()),
            _ => Err(()),
        }
    }

    /// Reads a line as a `Topic`: its first line must be a complete message of
    /// that type.  The whole buffer is kept.
    pub fn parse(buffer: &'a [u8]) -> (r: Result<Topic<'a>, ()>)
        requires
            line_valid(spec_first_line(buffer@)) ==> !(legacy_faults(spec_first_line(buffer@))),
        ensures
            r is Ok == (line_valid(spec_first_line(buffer@)) && topic_valid(spec_first_line(buffer@))),
            r matches Ok(m) ==> m@ == buffer@,
    {
        let message = match IrcMsg::new(buffer) {
            Ok(m) => m,
            Err(_) => {
                return Err(());
            },
        };
        match Topic::validate(&message) {
            Ok(()) => Ok(Topic { inner: IrcMsg::from_bytes(buffer) }),
            Err(()) => Err(()),
        }
    }

    pub fn to_irc_msg(&self) -> (r: &IrcMsg<'a>)
        ensures
            r@ == self@,
    {
        &self.inner
    }

    pub fn as_bytes(&self) -> (r: &'a [u8])
        ensures
            r@ == self@,
    {
        self.inner.as_bytes()
    }

    /// An owned copy.
    pub fn to_owned(&self) -> (r: TopicBuf)
        ensures
            r@ == self@,
    {
        TopicBuf { inner: self.inner.to_owned() }
    }

    /// The source: the `:prefix`, colon included, or nothing.
    pub fn get_source(&self) -> (r: &'a [u8])
        requires
            self@.len() > 0,
        ensures
            r@ == source_of(self@),
    {
        let (prefix, _rest) = split_prefix(self.inner.as_bytes());
        prefix
    }

    /// The first parameter.
    pub fn get_target(&self) -> (r: &'a [u8])
        requires
            self@.len() > 0,
        ensures
            r@ == target_of(self@),
    {
        let (_prefix, rest) = split_prefix(self.inner.as_bytes());
        let (_command, rest) = split_command(rest);
        let (target, _rest) = split_arg(rest);
        target
    }
}

impl<'a> FromIrcMsg<'a> for Topic<'a> {
    type Err = ();

    open spec fn faults_on(v: Seq<u8>) -> bool {
        legacy_faults(v)
    }

    fn from_irc_msg(msg: &IrcMsg<'a>) -> (r: Result<Topic<'a>, ()>)
        ensures
            r is Ok == topic_valid(msg@),
            r matches Ok(m) ==> m@ == msg@,
    {
        match Topic::validate(msg) {
            Ok(()) => Ok(Topic { inner: *msg }),
            Err(()) => Err(()),
        }
    }
}

/// An owned `Topic`.
#[derive(Clone, Debug)]
pub struct TopicBuf {
    inner: IrcMsgBuf,
}

impl View for TopicBuf {
    type V = Seq<u8>;

    closed spec fn view(&self) -> Seq<u8> {
        self.inner@
    }
}

impl TopicBuf {
    /// The message read in place.
    pub fn as_ref(&self) -> (r: Topic<'_>)
        ensures
            r@ == self@,
    {
        Topic { inner: self.inner.as_irc_msg() }
    }

    pub fn into_inner(self) -> (r: IrcMsgBuf)
        ensures
            r@ == self@,
    {
        self.inner
    }

    pub fn as_bytes(&self) -> (r: &[u8])
        ensures
            r@ == self@,
    {
        self.inner.as_bytes()
    }

    /// The command.
    pub fn get_command(&self) -> (r: &str)
        requires
            self@.len() > 0,
            valid_utf8(command_of(self@)),
        ensures
            r.spec_bytes() == command_of(self@),
    {
        self.inner.as_irc_msg().get_command()
    }

    /// The first parameter.
    pub fn get_target(&self) -> (r: &[u8])
        requires
            self@.len() > 0,
        ensures
            r@ == target_of(self@),
    {
        let (_prefix, rest) = split_prefix(self.inner.as_bytes());
        let (_command, rest) = split_command(rest);
        let (target, _rest) = split_arg(rest);
        target
    }
}

/// A line the typed readers read as a `Quit`.
pub open spec fn quit_valid(v: Seq<u8>) -> bool {
    legacy_kind(v) == Some(IncomingKind::Quit)
}

/// A `Quit` read in place.
#[derive(Clone, Copy, Debug)]
pub struct Quit<'a> {
    inner: IrcMsg<'a>,
}

impl<'a> View for Quit<'a> {
    type V = Seq<u8>;

    closed spec fn view(&self) -> Seq<u8> {
        self.inner@
    }
}

impl<'a> core::ops::Deref for Quit<'a> {
    type Target = IrcMsg<'a>;

    fn deref(&self) -> (r: &IrcMsg<'a>)
        ensures
            r@ == self@,
    {
        &self.inner
    }
}

impl<'a> Quit<'a> {
    fn validate(msg: &IrcMsg) -> (r: Result<(), ()>)
        requires
            !legacy_faults(msg@),
        ensures
            r is Ok == quit_valid(msg@),
    {
        match legacy_kind_of(msg.as_bytes()) {
            Some(IncomingKind::Quit) => Ok(()),
            _ => Err(()),
        }
    }

    /// Reads a line as a `Quit`: its first line must be a complete message of
    /// that type.  The whole buffer is kept.
    pub fn parse(buffer: &'a [u8]) -> (r: Result<Quit<'a>, ()>)
        requires
            line_valid(spec_first_line(buffer@)) ==> !(legacy_faults(spec_first_line(buffer@))),
        ensures
            r is Ok == (line_valid(spec_first_line(buffer@)) && quit_valid(spec_first_line(buffer@))),
            r matches Ok(m) ==> m@ == buffer@,
    {
        let message = match IrcMsg::new(buffer) {
            Ok(m) => m,
            Err(_) => {
                return Err(());
            },
        };
        match Quit::validate(&message) {
            Ok(()) => Ok(Quit { inner: IrcMsg::from_bytes(buffer) }),
            Err(()) => Err(()),
        }
    }

    pub fn to_irc_msg(&self) -> (r: &IrcMsg<'a>)
        ensures
            r@ == self@,
    {
        &self.inner
    }

    pub fn as_bytes(&self) -> (r: &'a [u8])
        ensures
            r@ == self@,
    {
        self.inner.as_bytes()
    }

    /// An owned copy.
    pub fn to_owned(&self) -> (r: QuitBuf)
        ensures
            r@ == self@,
    {
        QuitBuf { inner: self.inner.to_owned() }
    }
}

impl<'a> FromIrcMsg<'a> for Quit<'a> {
    type Err = ();

    open spec fn faults_on(v: Seq<u8>) -> bool {
        legacy_faults(v)
    }

    fn from_irc_msg(msg: &IrcMsg<'a>) -> (r: Result<Quit<'a>, ()>)
        ensures
            r is Ok == quit_valid(msg@),
            r matches Ok(m) ==> m@ == msg@,
    {
        match Quit::validate(msg) {
            Ok(()) => Ok(Quit { inner: *msg }),
            Err(()) => Err(()),
        }
    }
}

/// An owned `Quit`.
#[derive(Clone, Debug)]
pub struct QuitBuf {
    inner: IrcMsgBuf,
}

impl View for QuitBuf {
    type V = Seq<u8>;

    closed spec fn view(&self) -> Seq<u8> {
        self.inner@
    }
}

impl QuitBuf {
    /// The message read in place.
    pub fn as_ref(&self) -> (r: Quit<'_>)
        ensures
            r@ == self@,
    {
        Quit { inner: self.inner.as_irc_msg() }
    }

    pub fn into_inner(self) -> (r: IrcMsgBuf)
        ensures
            r@ == self@,
    {
        self.inner
    }

    pub fn as_bytes(&self) -> (r: &[u8])
        ensures
            r@ == self@,
    {
        self.inner.as_bytes()
    }

    /// The command.
    pub fn get_command(&self) -> (r: &str)
        requires
            self@.len() > 0,
            valid_utf8(command_of(self@)),
        ensures
            r.spec_bytes() == command_of(self@),
    {
        self.inner.as_irc_msg().get_command()
    }
}

/// " KICK "
pub open spec fn kick_word() -> Seq<u8> {
    seq![0x20u8, 0x4b, 0x49, 0x43, 0x4b, 0x20]
}

/// The line of a `KICK` of `who` from `channel` by `source`, with its
/// reason when there is one.
pub open spec fn kick_line(source: Seq<u8>, channel: Seq<u8>, who: Seq<u8>, reason: Option<Seq<u8>>) -> Seq<u8> {
    let head = seq![0x3au8] + source + kick_word() + channel + seq![0x20u8] + who;
    match reason {
        Some(text) => head + seq![0x20u8, 0x3a] + text,
        None => head,
    }
}

/// The reason of a `KICK`, by its bytes.
pub open spec fn reason_bytes(reason: Option<&[u8]>) -> Option<Seq<u8>> {
    match reason {
        Some(text) => Some(text@),
        None => None,
    }
}

impl KickBuf {
    /// Builds `:source KICK channel who :reason`; the line must be a complete
    /// message that the typed readers read as a `KICK`.
    pub fn new(source: &[u8], channel: &[u8], who: &[u8], reason: Option<&[u8]>) -> (r: Result<KickBuf, ()>)
        requires
            line_valid(spec_first_line(kick_line(source@, channel@, who@, reason_bytes(reason))))
                ==> !legacy_faults(spec_first_line(kick_line(source@, channel@, who@, reason_bytes(reason)))),
        ensures
            r is Ok == (line_valid(spec_first_line(kick_line(source@, channel@, who@, reason_bytes(reason))))
                && kick_valid(spec_first_line(kick_line(source@, channel@, who@, reason_bytes(reason))))),
            r matches Ok(m) ==> m@ == spec_first_line(kick_line(source@, channel@, who@, reason_bytes(reason))),
    {
        let mut out: Vec<u8> = vec_from_array([0x3au8]);
        push_bytes(&mut out, source);
        push_bytes(&mut out, vec_from_array([0x20u8, 0x4b, 0x49, 0x43, 0x4b, 0x20]).as_slice());
        push_bytes(&mut out, channel);
        push_bytes(&mut out, vec_from_array([0x20u8]).as_slice());
        push_bytes(&mut out, who);
        if let Some(text) = reason {
            push_bytes(&mut out, vec_from_array([0x20u8, 0x3a]).as_slice());
            push_bytes(&mut out, text);
        }
        proof {
            assert(out@ =~= kick_line(source@, channel@, who@, reason_bytes(reason)));
        }
        let message = match IrcMsgBuf::new(out) {
            Ok(m) => m,
            Err(_) => {
                return Err(());
            },
        };
        match Kick::validate(&message.as_irc_msg()) {
            Ok(()) => Ok(KickBuf { inner: message }),
            Err(()) => Err(()),
        }
    }
}

/// "JOIN "
pub open spec fn join_command() -> Seq<u8> {
    seq![0x4au8, 0x4f, 0x49, 0x4e, 0x20]
}

/// The line of a `JOIN` of `channel`: `JOIN channel`.
pub open spec fn join_line(channel: Seq<u8>) -> Seq<u8> {
    join_command() + channel
}

impl JoinBuf {
    /// Builds `JOIN channel`; the line must be a complete message that the
    /// typed readers read as a `JOIN`.
    pub fn new(channel: &[u8]) -> (r: Result<JoinBuf, ()>)
        requires
            line_valid(spec_first_line(join_line(channel@))) ==> !legacy_faults(spec_first_line(join_line(channel@))),
        ensures
            r is Ok == (line_valid(spec_first_line(join_line(channel@))) && join_valid(
                spec_first_line(join_line(channel@)),
            )),
            r matches Ok(m) ==> m@ == spec_first_line(join_line(channel@)),
    {
        let mut out: Vec<u8> = vec_from_array([0x4au8, 0x4f, 0x49, 0x4e, 0x20]);
        push_bytes(&mut out, channel);
        proof {
            assert(out@ =~= join_line(channel@));
        }
        let message = match IrcMsgBuf::new(out) {
            Ok(m) => m,
            Err(_) => {
                return Err(());
            },
        };
        match Join::validate(&message.as_irc_msg()) {
            Ok(()) => Ok(JoinBuf { inner: message }),
            Err(()) => Err(()),
        }
    }
}

/// " PRIVMSG "
pub open spec fn privmsg_word_spaced() -> Seq<u8> {
    seq![0x20u8, 0x50, 0x52, 0x49, 0x56, 0x4d, 0x53, 0x47, 0x20]
}

/// The line of a `PRIVMSG` to `target` from `source`: `:source PRIVMSG target :body`.
pub open spec fn privmsg_line(source: Seq<u8>, target: Seq<u8>, body: Seq<u8>) -> Seq<u8> {
    seq![0x3au8] + source + privmsg_word_spaced() + target + seq![0x20u8, 0x3a] + body
}

impl PrivmsgBuf {
    /// Builds `:source PRIVMSG target :body`; the line must be a complete
    /// message that the typed readers read as a `PRIVMSG`.
    pub fn new(source: &[u8], target: &[u8], body: &[u8]) -> (r: Result<PrivmsgBuf, ()>)
        requires
            line_valid(spec_first_line(privmsg_line(source@, target@, body@))) ==> !legacy_faults(
                spec_first_line(privmsg_line(source@, target@, body@)),
            ),
        ensures
            r is Ok == (line_valid(spec_first_line(privmsg_line(source@, target@, body@))) && privmsg_valid(
                spec_first_line(privmsg_line(source@, target@, body@)),
            )),
            r matches Ok(m) ==> m@ == spec_first_line(privmsg_line(source@, target@, body@)),
    {
        let mut out: Vec<u8> = vec_from_array([0x3au8]);
        push_bytes(&mut out, source);
        push_bytes(&mut out, vec_from_array([0x20u8, 0x50, 0x52, 0x49, 0x56, 0x4d, 0x53, 0x47, 0x20]).as_slice());
        push_bytes(&mut out, target);
        push_bytes(&mut out, vec_from_array([0x20u8, 0x3a]).as_slice());
        push_bytes(&mut out, body);
        proof {
            assert(out@ =~= privmsg_line(source@, target@, body@));
        }
        let message = match IrcMsgBuf::new(out) {
            Ok(m) => m,
            Err(_) => {
                return Err(());
            },
        };
        match Privmsg::validate(&message.as_irc_msg()) {
            Ok(()) => Ok(PrivmsgBuf { inner: message }),
            Err(()) => Err(()),
        }
    }
}

} // verus!
