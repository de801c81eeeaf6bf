//! Messages read in place: a message is a checked line of bytes, and its
//! parts are found again when asked for.

use vstd::prelude::*;
use vstd::string::*;
use vstd::utf8::*;
use vstd::slice::slice_subrange;
use crate::parse::error::{ParseError, ParseErrorKind, unexpected_text};
use crate::parse_helpers::{first_line, split_prefix, split_command, split_arg, spec_first_line, spec_split_prefix, spec_split_command, spec_split_arg, spec_is_non_white, is_valid_prefix_byte};
use crate::text::{bytes_to_vec, as_text};

verus! {

/// Where the scan of a line stands.
#[derive(Clone, Copy, Debug, PartialEq, Eq, Structural)]
pub enum LineState {
    Initial,
    Prefix,
    CommandStart,
    Command,
    ArgStart,
    Arg,
    ArgEnd,
    RestArg,
}

/// One byte; `None` for a byte that may not stand in a prefix.
pub open spec fn line_step(st: LineState, b: u8) -> Option<LineState> {
    match st {
        LineState::Initial => Some(if b == 0x20 { LineState::Initial } else if b == 0x3a { LineState::Prefix } else { LineState::Command }),
        LineState::Prefix => if b == 0x20 {
            Some(LineState::CommandStart)
        } else if spec_is_non_white(b) {
            Some(LineState::Prefix)
        } else {
            None
        },
        LineState::CommandStart => Some(if b == 0x20 { LineState::CommandStart } else { LineState::Command }),
        LineState::Command => Some(if b == 0x20 { LineState::ArgStart } else { LineState::Command }),
        LineState::ArgStart => Some(if b == 0x20 { LineState::ArgStart } else { LineState::Arg }),
        LineState::Arg => Some(if b == 0x20 { LineState::ArgEnd } else { LineState::Arg }),
        LineState::ArgEnd => Some(if b == 0x20 { LineState::ArgEnd } else if b == 0x3a { LineState::RestArg } else { LineState::Arg }),
        LineState::RestArg => Some(LineState::RestArg),
    }
}

/// The scan after a line, or `None` once a byte was refused.
pub open spec fn line_run(s: Seq<u8>) -> Option<LineState>
    decreases s.len(),
{
    if s.len() == 0 {
        Some(LineState::Initial)
    } else {
        match line_run(s.drop_last()) {
            Some(st) => line_step(st, s.last()),
            None => None,
        }
    }
}

/// The first refused byte.
pub open spec fn refused_byte(s: Seq<u8>) -> u8
    decreases s.len(),
{
    if s.len() == 0 {
        0
    } else if line_run(s.drop_last()) is None {
        refused_byte(s.drop_last())
    } else {
        s.last()
    }
}

/// A complete line: at least a command and one parameter, no refused byte.
pub open spec fn line_valid(s: Seq<u8>) -> bool {
    line_run(s) matches Some(st) && (st == LineState::Arg || st == LineState::ArgEnd || st == LineState::RestArg)
}

/// "prefix"
pub open spec fn phase_prefix() -> Seq<u8> {
    seq![0x70u8, 0x72, 0x65, 0x66, 0x69, 0x78]
}

/// The error for a line that is not complete.
pub open spec fn line_error_kind(s: Seq<u8>) -> ParseErrorKind {
    if line_run(s) is None {
        ParseErrorKind::UnexpectedByte
    } else {
        ParseErrorKind::Truncated
    }
}

/// The error a refused line is answered with: its kind, the line itself,
/// and for a refused byte the text that names the byte, else no text.
pub open spec fn line_error(e: ParseError, s: Seq<u8>) -> bool {
    &&& e.kind == line_error_kind(s)
    &&& e.message@ == s
    &&& if e.kind == ParseErrorKind::UnexpectedByte {
        encode_utf8(e.error_msg@) == unexpected_text(refused_byte(s), phase_prefix())
    } else {
        e.error_msg@ == Seq::<char>::empty()
    }
}

fn step_line(st: LineState, b: u8) -> (r: Option<LineState>)
    ensures
        r == line_step(st, b),
{
    match st {
        LineState::Initial => Some(if b == 0x20 { LineState::Initial } else if b == 0x3a { LineState::Prefix } else { LineState::Command }),
        LineState::Prefix => if b == 0x20 {
            Some(LineState::CommandStart)
        } else if is_valid_prefix_byte(b) {
            Some(LineState::Prefix)
        } else {
            None
        },
        LineState::CommandStart => Some(if b == 0x20 { LineState::CommandStart } else { LineState::Command }),
        LineState::Command => Some(if b == 0x20 { LineState::ArgStart } else { LineState::Command }),
        LineState::ArgStart => Some(if b == 0x20 { LineState::ArgStart } else { LineState::Arg }),
        LineState::Arg => Some(if b == 0x20 { LineState::ArgEnd } else { LineState::Arg }),
        LineState::ArgEnd => Some(if b == 0x20 { LineState::ArgEnd } else if b == 0x3a { LineState::RestArg } else { LineState::Arg }),
        LineState::RestArg => Some(LineState::RestArg),
    }
}

/// Checks a line; a refused byte or an incomplete line is an error about
/// the line.
pub fn validate_buffer(buf: &[u8]) -> (r: Result<(), ParseError>)
    ensures
        r is Ok == line_valid(buf@),
        r matches Err(e) ==> line_error(e, buf@),
{
    let mut st = LineState::Initial;
    let mut i: usize = 0;
    while i < buf.len()
        invariant
            0 <= i <= buf.len(),
            line_run(buf@.take(i as int)) == Some(st),
        decreases buf.len() - i,
    {
        proof {
            assert(buf@.take(i + 1).drop_last() =~= buf@.take(i as int));
        }
        match step_line(st, buf[i]) {
            Some(next) => {
                st = next;
            },
            None => {
                proof {
                    lemma_refused_stays(buf@, i as int + 1);
                }
                let prefix = crate::parse::compose::vec_from_array([0x70u8, 0x72, 0x65, 0x66, 0x69, 0x78]);
                proof {
                    crate::parse::compose::lemma_ascii_utf8(phase_prefix());
                }
                let e = ParseError::unexpected_byte(buf[i], prefix.as_slice());
                return Err(e.replace_message(buf));
            },
        }
        i = i + 1;
    }
    proof {
        assert(buf@.take(buf@.len() as int) =~= buf@);
    }
    match st {
        LineState::Arg | LineState::ArgEnd | LineState::RestArg => Ok(()),
        _ => Err(ParseError::new(ParseErrorKind::Truncated, Vec::new()).replace_message(buf)),
    }
}

/// Once a byte is refused, the line stays refused, and the refused byte is
/// the first one.
proof fn lemma_refused_stays(s: Seq<u8>, n: int)
    requires
        0 < n <= s.len(),
        line_run(s.take(n - 1)) is Some,
        line_run(s.take(n)) is None,
    ensures
        line_run(s) is None,
        refused_byte(s) == s[n - 1],
    decreases s.len() - n,
{
    assert(s.take(n).drop_last() =~= s.take(n - 1));
    assert(refused_byte(s.take(n)) == s[n - 1]);
    if n < s.len() {
        lemma_refused_stays_more(s, s.len() as int, n);
    } else {
        assert(s.take(n) =~= s);
    }
}

proof fn lemma_refused_stays_more(s: Seq<u8>, m: int, n: int)
    requires
        0 < n < m <= s.len(),
        line_run(s.take(n - 1)) is Some,
        line_run(s.take(n)) is None,
        refused_byte(s.take(n)) == s[n - 1],
    ensures
        line_run(s.take(m)) is None,
        refused_byte(s.take(m)) == s[n - 1],
        m == s.len() ==> line_run(s) is None && refused_byte(s) == s[n - 1],
    decreases m - n,
{
    assert(s.take(m).drop_last() =~= s.take(m - 1));
    if m - 1 > n {
        lemma_refused_stays_more(s, m - 1, n);
    }
    assert(line_run(s.take(m - 1)) is None);
    assert(refused_byte(s.take(m - 1)) == s[n - 1]);
    if m == s.len() {
        assert(s.take(m) =~= s);
    }
}

/// A checked message that owns its line.
#[derive(Clone, Debug)]
pub struct IrcMsgBuf {
    inner: Vec<u8>,
}

/// A message read in place.
#[derive(Clone, Copy, Debug)]
pub struct IrcMsg<'a> {
    inner: &'a [u8],
}

/// The prefix of a message, without its `:`.
#[derive(Clone, Copy, Debug)]
pub struct IrcMsgPrefix<'a> {
    inner: &'a [u8],
}

impl<'a> View for IrcMsg<'a> {
    type V = Seq<u8>;

    closed spec fn view(&self) -> Seq<u8> {
        self.inner@
    }
}

impl View for IrcMsgBuf {
    type V = Seq<u8>;

    closed spec fn view(&self) -> Seq<u8> {
        self.inner@
    }
}

impl<'a> View for IrcMsgPrefix<'a> {
    type V = Seq<u8>;

    closed spec fn view(&self) -> Seq<u8> {
        self.inner@
    }
}

impl IrcMsgBuf {
    /// Checks the first line of `buf` and keeps only it.
    pub fn new(buf: Vec<u8>) -> (r: Result<IrcMsgBuf, ParseError>)
        ensures
            r is Ok == line_valid(spec_first_line(buf@)),
            r matches Ok(m) ==> m@ == spec_first_line(buf@),
            r matches Err(e) ==> line_error(e, spec_first_line(buf@)),
    {
        let msg_len = match IrcMsg::new(buf.as_slice()) {
            Ok(msg) => msg.as_bytes().len(),
            Err(e) => {
                return Err(e);
            },
        };
        let mut buf = buf;
        let ghost before = buf@;
        buf.truncate(msg_len);
        proof {
            crate::parse_helpers::lemma_first_line_prefix(before);
            assert(buf@ =~= spec_first_line(before));
        }
        Ok(IrcMsgBuf { inner: buf })
    }

    pub fn into_inner(self) -> (r: Vec<u8>)
        ensures
            r@ == self@,
    {
        self.inner
    }

    /// The message read in place.
    pub fn as_irc_msg(&self) -> (r: IrcMsg<'_>)
        ensures
            r@ == self@,
    {
        IrcMsg { inner: self.inner.as_slice() }
    }

    pub fn as_bytes(&self) -> (r: &[u8])
        ensures
            r@ == self@,
    {
        self.inner.as_slice()
    }

    /// Converts a message of the older kind; its line must pass the check.
    pub fn from_legacy(legacy: crate::parse::parse::IrcMsg) -> (r: IrcMsgBuf)
        requires
            line_valid(spec_first_line(legacy@.data)),
        ensures
            r@ == spec_first_line(legacy@.data),
    {
        IrcMsgBuf::new(legacy.into_bytes()).unwrap()
    }

    /// Converts to a message of the older kind; its line must parse there.
    pub fn into_legacy(self) -> (r: crate::parse::parse::IrcMsg)
        requires
            crate::parse::compose::msg_builds(self@),
        ensures
            crate::parse::parse::spec_new_msg(self@) == Ok::<crate::parse::model::IrcMsgView, crate::parse::parse::ParseError>(r@),
    {
        crate::parse::parse::IrcMsg::new(self.inner).unwrap()
    }
}

impl<'a> IrcMsg<'a> {
    /// Checks the first line of `buf` and reads it in place.
    pub fn new(buf: &'a [u8]) -> (r: Result<IrcMsg<'a>, ParseError>)
        ensures
            r is Ok == line_valid(spec_first_line(buf@)),
            r matches Ok(m) ==> m@ == spec_first_line(buf@),
            r matches Err(e) ==> line_error(e, spec_first_line(buf@)),
    {
        let line = first_line(buf);
        match validate_buffer(line) {
            Ok(()) => Ok(IrcMsg { inner: line }),
            Err(e) => Err(e),
        }
    }

    /// Reads a message of the older kind in place; its line must pass the
    /// check.
    pub fn from_legacy(legacy: &'a crate::parse::parse::IrcMsg) -> (r: IrcMsg<'a>)
        requires
            line_valid(spec_first_line(legacy@.data)),
        ensures
            r@ == spec_first_line(legacy@.data),
    {
        IrcMsg::new(legacy.as_bytes()).unwrap()
    }

    /// A message over bytes that were checked elsewhere.
    pub fn from_bytes(inner: &'a [u8]) -> (r: IrcMsg<'a>)
        ensures
            r@ == inner@,
    {
        IrcMsg { inner }
    }

    pub fn as_bytes(&self) -> (r: &'a [u8])
        ensures
            r@ == self@,
    {
        self.inner
    }

    /// An owned copy.
    pub fn to_owned(&self) -> (r: IrcMsgBuf)
        ensures
            r@ == self@,
    {
        IrcMsgBuf { inner: bytes_to_vec(self.inner) }
    }

    /// The prefix without its `:`, when there is one.
    pub fn get_prefix(&self) -> (r: Option<IrcMsgPrefix<'a>>)
        requires
            self@.len() > 0,
            spec_split_prefix(self@).0.len() != 1,
        ensures
            r is Some == (spec_split_prefix(self@).0.len() > 0),
            r matches Some(p) ==> p@ == spec_split_prefix(self@).0.skip(1),
    {
        let (prefix, _) = split_prefix(self.inner);
        if prefix.len() > 0 {
            Some(IrcMsgPrefix { inner: slice_subrange(prefix, 1, prefix.len()) })
        } else {
            None
        }
    }

    /// The command.
    pub fn get_command(&self) -> (r: &'a str)
        requires
            self@.len() > 0,
            valid_utf8(spec_split_command(spec_split_prefix(self@).1).0),
        ensures
            r.spec_bytes() == spec_split_command(spec_split_prefix(self@).1).0,
    {
        let (_, rest) = split_prefix(self.inner);
        let (command, _) = split_command(rest);
        as_text(command)
    }

    /// The parameters, one after another.
    pub fn args(&self) -> (r: ArgumentIter<'a>)
        requires
            self@.len() > 0,
        ensures
            r@ == spec_split_command(spec_split_prefix(self@).1).1,
    {
        let (_, rest) = split_prefix(self.inner);
        let (_, rest) = split_command(rest);
        ArgumentIter { arg_body: rest }
    }
}

impl<'a> IrcMsgPrefix<'a> {
    pub fn as_bytes(&self) -> (r: &'a [u8])
        ensures
            r@ == self@,
    {
        self.inner
    }
}

/// The parameters not read yet.
#[derive(Debug)]
pub struct ArgumentIter<'a> {
    arg_body: &'a [u8],
}

impl<'a> View for ArgumentIter<'a> {
    type V = Seq<u8>;

    closed spec fn view(&self) -> Seq<u8> {
        self.arg_body@
    }
}

impl<'a> ArgumentIter<'a> {
    /// The next parameter: a word, or all that follows a `:`.
    pub fn next(&mut self) -> (r: Option<&'a [u8]>)
        ensures
            r is None == (old(self)@.len() == 0),
            r matches Some(a) ==> a@ == spec_split_arg(old(self)@).0 && final(self)@ == spec_split_arg(
                old(self)@,
            ).1,
            r is None ==> final(self)@ == old(self)@,
    {
        if self.arg_body.len() == 0 {
            return None;
        }
        let (output, remainder) = split_arg(self.arg_body);
        self.arg_body = remainder;
        Some(output)
    }
}

} // verus!
