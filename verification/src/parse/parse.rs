//! Owned IRC messages, parsed once and then read through offsets.

use vstd::prelude::*;
use vstd::utf8::*;
use vstd::string::*;
use vstd::slice::slice_subrange;
use crate::parse::model::{IRCMSG_MAX_ARGS, SPACE, COLON, LF, CR, IrcParserState, ParserModel, parser_init, parser_finalize, parser_step, parser_run, lemma_run_inv, finished_args, parse_faults, IrcMsgView, ParseOutcome, spec_parse, view_ranges_ok, lemma_parse_ranges};
use crate::text::{str_from_utf8, as_text, str_bytes, into_text, bytes_to_vec, push_bytes, string_bytes, lemma_ascii_boundaries, lemma_ends_are_boundaries, lemma_concat_utf8, lemma_ascii_byte_utf8, lemma_boundary_slice_utf8, lemma_decode_encode};
use crate::util::{StringSlicer, OptionalStringSlicer, can_slice_bytes, byte_slice_of};
use crate::parse_helpers::{spec_find, find_character, lemma_find};
use crate::irccase::{rfc1459_lower, eq_under, bytes_eq_ignore_irc_case};

verus! {

/// Why a line could not be parsed.
#[derive(Debug, PartialEq, Eq)]
pub enum ParseError {
    /// The line is not an IRC message; the text says how.
    InvalidMessage(&'static str),
    /// The prefix or the command is not valid UTF-8.
    EncodingError,
}

struct IrcParser {
    byte_idx: u32,
    prefix_start: u32,
    prefix_end: u32,
    command_start: u32,
    command_end: u32,
    arg_start: u32,
    args: Vec<(u32, u32)>,
    state: IrcParserState,
}

pub open spec fn int_pairs(v: Seq<(u32, u32)>) -> Seq<(int, int)> {
    v.map_values(|p: (u32, u32)| (p.0 as int, p.1 as int))
}

impl IrcParser {
    spec fn model(&self) -> ParserModel {
        ParserModel {
            byte_idx: self.byte_idx as int,
            prefix_start: self.prefix_start as int,
            prefix_end: self.prefix_end as int,
            command_start: self.command_start as int,
            command_end: self.command_end as int,
            arg_start: self.arg_start as int,
            args: int_pairs(self.args@),
            state: self.state,
        }
    }

    fn new() -> (r: IrcParser)
        ensures
            r.model() == parser_init(),
    {
        let r = IrcParser {
            byte_idx: 0,
            prefix_start: 0,
            prefix_end: 0,
            command_start: 0,
            command_end: 0,
            arg_start: 0,
            args: Vec::new(),
            state: IrcParserState::Initial,
        };
        proof {
            assert(int_pairs(r.args@) =~= Seq::empty());
        }
        r
    }

    fn finalize_arg(&mut self, next: IrcParserState)
        ensures
            final(self).model() == parser_finalize(old(self).model(), next),
    {
        if self.args.len() >= IRCMSG_MAX_ARGS {
            self.state = IrcParserState::ArgOverflow;
        } else {
            let ghost before = self.args@;
            self.args.push((self.arg_start, self.byte_idx));
            self.arg_start = 0;
            self.state = next;
            proof {
                assert(int_pairs(self.args@) =~= int_pairs(before).push(
                    (old(self).arg_start as int, old(self).byte_idx as int),
                ));
            }
        }
    }

    fn push_byte(&mut self, byte: u8)
        requires
            old(self).byte_idx < u32::MAX,
        ensures
            final(self).model() == parser_step(old(self).model(), byte),
    {
        match self.state {
            IrcParserState::Initial => {
                if byte == SPACE {
                } else if byte == COLON {
                    self.prefix_start = self.byte_idx + 1;
                    self.state = IrcParserState::Prefix;
                } else {
                    self.command_start = self.byte_idx;
                    self.state = IrcParserState::Command;
                }
            },
            IrcParserState::Prefix => {
                if byte == SPACE {
                    self.prefix_end = self.byte_idx;
                    self.state = IrcParserState::CommandStart;
                }
            },
            IrcParserState::CommandStart => {
                if byte != SPACE {
                    self.command_start = self.byte_idx;
                    self.state = IrcParserState::Command;
                }
            },
            IrcParserState::Command => {
                if byte == SPACE {
                    self.command_end = self.byte_idx;
                    self.state = IrcParserState::ArgStart;
                }
            },
            IrcParserState::ArgStart => {
                if byte == SPACE {
                } else if byte == COLON {
                    self.arg_start = self.byte_idx + 1;
                    self.state = IrcParserState::RestArg;
                } else {
                    self.arg_start = self.byte_idx;
                    self.state = IrcParserState::Arg;
                }
            },
            IrcParserState::Arg => {
                if byte == SPACE {
                    self.finalize_arg(IrcParserState::ArgStart);
                } else if byte == LF {
                    self.finalize_arg(IrcParserState::EndOfLine);
                }
            },
            IrcParserState::RestArg => {
                if byte == LF {
                    self.finalize_arg(IrcParserState::EndOfLine);
                }
            },
            IrcParserState::ArgOverflow => {},
            IrcParserState::EndOfLine => {},
        }
        self.byte_idx = self.byte_idx + 1;
    }

    /// Feeds all of `message` to a fresh parser.
    fn run(message: &Vec<u8>) -> (r: IrcParser)
        requires
            message.len() < u32::MAX,
        ensures
            r.model() == parser_run(message@),
            r.args.len() <= IRCMSG_MAX_ARGS,
    {
        let mut parser = IrcParser::new();
        let mut i: usize = 0;
        proof {
            assert(message@.take(0) =~= Seq::<u8>::empty());
        }
        while i < message.len()
            invariant
                0 <= i <= message.len(),
                message.len() < u32::MAX,
                parser.model() == parser_run(message@.take(i as int)),
            decreases message.len() - i,
        {
            proof {
                lemma_run_inv(message@.take(i as int));
            }
            parser.push_byte(message[i]);
            proof {
                assert(message@.take(i + 1).drop_last() =~= message@.take(i as int));
            }
            i = i + 1;
        }
        proof {
            assert(message@.take(message@.len() as int) =~= message@);
            lemma_run_inv(message@);
        }
        parser
    }
}

/// An IRC message that owns its bytes.
#[derive(Debug)]
pub struct IrcMsg {
    data: Vec<u8>,
    prefix: (u32, u32),
    command: (u32, u32),
    args: Vec<(u32, u32)>,
}

impl View for IrcMsg {
    type V = IrcMsgView;

    closed spec fn view(&self) -> IrcMsgView {
        IrcMsgView {
            data: self.data@,
            prefix: (self.prefix.0 as int, self.prefix.1 as int),
            command: (self.command.0 as int, self.command.1 as int),
            args: int_pairs(self.args@),
        }
    }
}

/// The bytes of the prefix, without the leading `:`.
pub open spec fn prefix_bytes(v: IrcMsgView) -> Seq<u8> {
    v.data.subrange(v.prefix.0, v.prefix.1)
}

/// The bytes of the command.
pub open spec fn command_bytes(v: IrcMsgView) -> Seq<u8> {
    v.data.subrange(v.command.0, v.command.1)
}

/// The bytes of parameter `i`.
pub open spec fn arg_bytes(v: IrcMsgView, i: int) -> Seq<u8> {
    v.data.subrange(v.args[i].0, v.args[i].1)
}

/// All parameters, in order.
pub open spec fn args_of(v: IrcMsgView) -> Seq<Seq<u8>> {
    Seq::new(v.args.len(), |i: int| arg_bytes(v, i))
}

/// What `IrcMsg::new` gives for the bytes `s`.
pub open spec fn spec_new_msg(s: Seq<u8>) -> Result<IrcMsgView, ParseError> {
    match spec_parse(s) {
        ParseOutcome::TooShort => Err(ParseError::InvalidMessage("too short")),
        ParseOutcome::TooManyArguments => Err(ParseError::InvalidMessage("too many arguments")),
        ParseOutcome::Parsed(v) => if valid_utf8(prefix_bytes(v)) && valid_utf8(command_bytes(v)) {
            Ok(v)
        } else {
            Err(ParseError::EncodingError)
        },
    }
}

/// A line that reads as a message keeps a prefix of itself, cut at the end
/// of its last parameter; it holds one to twenty parameters; and its prefix,
/// command and parameters are slices of the kept bytes that come in that
/// order and do not overlap.
pub proof fn lemma_parsed_shape(s: Seq<u8>)
    requires
        !parse_faults(s),
        spec_new_msg(s) is Ok,
    ensures
        ({
            let v = spec_new_msg(s)->Ok_0;
            &&& 1 <= v.args.len() <= IRCMSG_MAX_ARGS
            &&& v.data.len() <= s.len()
            &&& v.data == s.take(v.data.len() as int)
            &&& v.data.len() == v.args.last().1
            &&& 0 <= v.prefix.0 <= v.prefix.1 <= v.command.0 <= v.command.1 < v.args[0].0
            &&& forall|i: int|
                0 <= i < v.args.len() ==> (#[trigger] v.args[i]).0 <= v.args[i].1 <= v.data.len()
            &&& forall|i: int, j: int|
                0 <= i < j < v.args.len() ==> (#[trigger] v.args[i]).1 < (#[trigger] v.args[j]).0
        }),
{
    lemma_parse_ranges(s);
}

/// A message's offsets are in range and its prefix and command are text.
pub open spec fn msg_view_wf(v: IrcMsgView) -> bool {
    &&& view_ranges_ok(v)
    &&& v.data.len() < u32::MAX
    &&& valid_utf8(prefix_bytes(v))
    &&& valid_utf8(command_bytes(v))
}

impl IrcMsg {
    #[verifier::type_invariant]
    pub open spec fn inv(self) -> bool {
        msg_view_wf(self@)
    }

    /// Reading `data` goes wrong inside the reader: a complete command has no
    /// parameter at all.  `new` must not be given such a line.
    pub fn would_fault(data: &Vec<u8>) -> (r: bool)
        requires
            data.len() < u32::MAX,
        ensures
            r == parse_faults(data@),
    {
        let parser = IrcParser::run(data);
        let open = parser.state == IrcParserState::Arg || parser.state == IrcParserState::RestArg;
        if open && parser.args.len() >= IRCMSG_MAX_ARGS {
            return false;
        }
        let truncated = parser.state == IrcParserState::Initial || parser.state
            == IrcParserState::Prefix || parser.state == IrcParserState::CommandStart
            || parser.state == IrcParserState::Command;
        if truncated || parser.state == IrcParserState::ArgOverflow {
            return false;
        }
        !open && parser.args.len() == 0
    }

    /// Parses a line.  The line is cut after its last parameter (so nothing
    /// after a line feed that ends a parameter is kept), and a carriage
    /// return at the end of that parameter is dropped.
    pub fn new(data: Vec<u8>) -> (r: Result<IrcMsg, ParseError>)
        requires
            data.len() < u32::MAX,
            !parse_faults(data@),
        ensures
            match r {
                Ok(msg) => spec_new_msg(data@) == Ok::<IrcMsgView, ParseError>(msg@),
                Err(e) => spec_new_msg(data@) == Err::<IrcMsgView, ParseError>(e),
            },
    {
        let parser = IrcParser::run(&data);
        proof {
            lemma_run_inv(data@);
        }
        match parser.state {
            IrcParserState::Initial | IrcParserState::Prefix | IrcParserState::CommandStart
            | IrcParserState::Command => {
                return Err(ParseError::InvalidMessage("too short"));
            },
            IrcParserState::ArgOverflow => {
                return Err(ParseError::InvalidMessage("too many arguments"));
            },
            _ => {},
        }
        if (parser.state == IrcParserState::Arg || parser.state == IrcParserState::RestArg)
            && parser.args.len() >= IRCMSG_MAX_ARGS {
            return Err(ParseError::InvalidMessage("too many arguments"));
        }
        let mut args = parser.args;
        let ghost m = parser.model();
        if parser.state == IrcParserState::Arg || parser.state == IrcParserState::RestArg {
            let ghost before = args@;
            args.push((parser.arg_start, parser.byte_idx));
            proof {
                assert(int_pairs(args@) =~= int_pairs(before).push(
                    (parser.arg_start as int, parser.byte_idx as int),
                ));
            }
        }
        proof {
            assert(int_pairs(args@) == finished_args(m));
            lemma_parse_ranges(data@);
        }
        let last_idx = args.len() - 1;
        let (arg_start, arg_end_orig) = args[last_idx];
        let mut arg_end = arg_end_orig;
        if data[(arg_end - 1) as usize] == CR {
            arg_end = arg_end - 1;
            let ghost before = args@;
            args.set(last_idx, (arg_start, arg_end));
            proof {
                assert(int_pairs(args@) =~= int_pairs(before).update(
                    last_idx as int,
                    (arg_start as int, arg_end as int),
                ));
            }
        } else {
            proof {
                assert(int_pairs(args@) =~= int_pairs(args@).update(
                    last_idx as int,
                    (arg_start as int, arg_end as int),
                ));
            }
        }
        let mut data = data;
        let ghost orig = data@;
        data.truncate(arg_end as usize);
        proof {
            assert(data@ =~= orig.take(arg_end as int));
        }
        let prefix = (parser.prefix_start, parser.prefix_end);
        let command = (parser.command_start, parser.command_end);
        let prefix_ok = str_from_utf8(slice_subrange(data.as_slice(), prefix.0 as usize, prefix.1 as usize)).is_ok();
        let command_ok = str_from_utf8(slice_subrange(data.as_slice(), command.0 as usize, command.1 as usize)).is_ok();
        if !prefix_ok || !command_ok {
            return Err(ParseError::EncodingError);
        }
        Ok(IrcMsg { data, prefix, command, args })
    }
}


impl IrcMsg {
    /// The message has a prefix.
    pub fn has_prefix(&self) -> (r: bool)
        ensures
            r == (self@.prefix.1 > self@.prefix.0),
    {
        self.prefix.1 > self.prefix.0
    }

    /// The prefix without its leading `:`, empty when there is none.
    pub fn get_prefix_raw(&self) -> (r: &[u8])
        ensures
            r@ == prefix_bytes(self@),
    {
        proof {
            use_type_invariant(self);
        }
        slice_subrange(self.data.as_slice(), self.prefix.0 as usize, self.prefix.1 as usize)
    }

    /// The prefix as text.
    pub fn get_prefix_str(&self) -> (r: &str)
        ensures
            r.spec_bytes() == prefix_bytes(self@),
    {
        proof {
            use_type_invariant(self);
        }
        as_text(self.get_prefix_raw())
    }

    /// The prefix, split into nick, user and host where it has them.
    pub fn get_prefix(&self) -> (r: IrcMsgPrefix)
        ensures
            r@ == prefix_bytes(self@),
    {
        IrcMsgPrefix::new(crate::text::str_to_string(self.get_prefix_str()))
    }

    fn get_command_raw(&self) -> (r: &[u8])
        ensures
            r@ == command_bytes(self@),
    {
        proof {
            use_type_invariant(self);
        }
        slice_subrange(self.data.as_slice(), self.command.0 as usize, self.command.1 as usize)
    }

    /// The command as received, without case folding.
    pub fn get_command(&self) -> (r: &str)
        ensures
            r.spec_bytes() == command_bytes(self@),
    {
        proof {
            use_type_invariant(self);
        }
        as_text(self.get_command_raw())
    }

    /// The bytes of the command.
    pub fn command_as_bytes(&self) -> (r: &[u8])
        ensures
            r@ == command_bytes(self@),
    {
        self.get_command_raw()
    }

    /// The parameters, in order.
    pub fn get_args(&self) -> (r: Vec<&[u8]>)
        ensures
            r@.len() == self@.args.len(),
            forall|i: int| 0 <= i < r@.len() ==> (#[trigger] r@[i])@ == arg_bytes(self@, i),
    {
        proof {
            use_type_invariant(self);
        }
        let mut out: Vec<&[u8]> = Vec::with_capacity(self.args.len());
        let mut i: usize = 0;
        while i < self.args.len()
            invariant
                0 <= i <= self.args.len(),
                msg_view_wf(self@),
                out@.len() == i,
                forall|j: int| 0 <= j < i ==> (#[trigger] out@[j])@ == arg_bytes(self@, j),
            decreases self.args.len() - i,
        {
            out.push(self.index(i));
            i = i + 1;
        }
        out
    }

    /// The number of parameters.
    pub fn len(&self) -> (r: usize)
        ensures
            r == self@.args.len(),
    {
        self.args.len()
    }

    /// The kept bytes of the message.
    pub fn into_bytes(self) -> (r: Vec<u8>)
        ensures
            r@ == self@.data,
    {
        self.data
    }

    /// The kept bytes of the message.
    pub fn as_bytes(&self) -> (r: &[u8])
        ensures
            r@ == self@.data,
    {
        self.data.as_slice()
    }

    /// Parameter `index`.
    pub fn index(&self, index: usize) -> (r: &[u8])
        requires
            index < self@.args.len(),
        ensures
            r@ == arg_bytes(self@, index as int),
    {
        proof {
            use_type_invariant(self);
        }
        let (start, end) = self.args[index];
        proof {
            assert(int_pairs(self.args@)[index as int] == (start as int, end as int));
        }
        slice_subrange(self.data.as_slice(), start as usize, end as usize)
    }
}

impl Clone for IrcMsg {
    fn clone(&self) -> (r: IrcMsg)
        ensures
            r@ == self@,
    {
        proof {
            use_type_invariant(self);
        }
        let data = bytes_to_vec(self.data.as_slice());
        let mut args: Vec<(u32, u32)> = Vec::with_capacity(self.args.len());
        let mut i: usize = 0;
        while i < self.args.len()
            invariant
                0 <= i <= self.args.len(),
                args@ == self.args@.take(i as int),
            decreases self.args.len() - i,
        {
            args.push(self.args[i]);
            i = i + 1;
            proof {
                assert(args@ =~= self.args@.take(i as int));
            }
        }
        proof {
            assert(args@ =~= self.args@);
        }
        IrcMsg { data, prefix: self.prefix, command: self.command, args }
    }
}

/// The positions of `!` and `@` in a `nick!user@host` prefix.
pub open spec fn prefix_marks(s: Seq<u8>) -> Option<(int, int)> {
    match spec_find(s, 0x21, 0) {
        Some(e) => match spec_find(s, 0x40, e + 1) {
            Some(a) => Some((e, a)),
            None => None,
        },
        None => None,
    }
}

/// The nick of a prefix, when it is of the form `nick!user@host`.
pub open spec fn prefix_nick(s: Seq<u8>) -> Option<Seq<u8>> {
    match prefix_marks(s) {
        Some((e, _)) => Some(s.subrange(0, e)),
        None => None,
    }
}

/// The user of a prefix, when it is of the form `nick!user@host`.
pub open spec fn prefix_user(s: Seq<u8>) -> Option<Seq<u8>> {
    match prefix_marks(s) {
        Some((e, a)) => Some(s.subrange(e + 1, a)),
        None => None,
    }
}

/// The host of a prefix: what follows the `@`, or the whole prefix when it
/// is not of the form `nick!user@host`.
pub open spec fn prefix_host(s: Seq<u8>) -> Seq<u8> {
    match prefix_marks(s) {
        Some((_, a)) => s.subrange(a + 1, s.len() as int),
        None => s,
    }
}

/// A prefix splits at its first `!` and the first `@` after it: the nick
/// comes before the `!`, the user between the two, and the host after the
/// `@`.  Without such a pair there is no nick and no user, and the host is
/// the whole prefix.
pub proof fn lemma_prefix_parts(s: Seq<u8>)
    ensures
        match prefix_marks(s) {
            Some((e, a)) => {
                &&& 0 <= e < a < s.len()
                &&& s[e] == 0x21 && s[a] == 0x40
                &&& forall|j: int| 0 <= j < e ==> s[j] != 0x21
                &&& forall|j: int| e < j < a ==> s[j] != 0x40
                &&& prefix_nick(s) == Some(s.subrange(0, e))
                &&& prefix_user(s) == Some(s.subrange(e + 1, a))
                &&& prefix_host(s) == s.subrange(a + 1, s.len() as int)
            },
            None => {
                &&& forall|e: int, a: int|
                    0 <= e < a < s.len() && #[trigger] s[e] == 0x21 ==> #[trigger] s[a] != 0x40
                &&& prefix_nick(s) is None
                &&& prefix_user(s) is None
                &&& prefix_host(s) == s
            },
        },
{
    lemma_find(s, 0x21, 0);
    if let Some(e) = spec_find(s, 0x21, 0) {
        lemma_find(s, 0x40, e + 1);
        if spec_find(s, 0x40, e + 1) is None {
            assert forall|e2: int, a: int|
                0 <= e2 < a < s.len() && #[trigger] s[e2] == 0x21 implies #[trigger] s[a] != 0x40 by {
                assert(e <= e2);
            }
        }
    }
}

/// Where the nick, user and host of a prefix lie.
#[derive(Debug)]
pub struct PrefixSlicer {
    pub nick_idx_pair: OptionalStringSlicer,
    pub username_idx_pair: OptionalStringSlicer,
    pub hostname_idx_pair: StringSlicer,
}

impl PrefixSlicer {
    /// The slicer that `PrefixSlicer::new` computes for the prefix `s`.
    pub closed spec fn matches(&self, s: Seq<u8>) -> bool {
        &&& s.len() <= usize::MAX
        &&& match prefix_marks(s) {
            Some((e, a)) => {
                &&& self.nick_idx_pair@ == (true, 0usize, e as usize)
                &&& self.username_idx_pair@ == (true, (e + 1) as usize, a as usize)
                &&& self.hostname_idx_pair@ == ((a + 1) as usize, s.len() as usize)
            },
            None => {
                &&& self.nick_idx_pair@ == (false, 0usize, 0usize)
                &&& self.username_idx_pair@ == (false, 0usize, 0usize)
                &&& self.hostname_idx_pair@ == (0usize, s.len() as usize)
            },
        }
    }

    /// Where the nick lies in a prefix that this slicer was computed for.
    pub proof fn lemma_nick_range(&self, s: Seq<u8>)
        requires
            self.matches(s),
        ensures
            s.len() <= usize::MAX,
            match prefix_marks(s) {
                Some((e, a)) => {
                    &&& self.nick_idx_pair@ == (true, 0usize, e as usize)
                    &&& 0 <= e < a < s.len()
                    &&& s[e] == 0x21
                },
                None => self.nick_idx_pair@ == (false, 0usize, 0usize),
            },
    {
        lemma_find(s, 0x21, 0);
        if let Some(e) = spec_find(s, 0x21, 0) {
            lemma_find(s, 0x40, e + 1);
        }
    }

    /// Finds the nick, user and host of `prefix`.
    pub fn new(prefix: &str) -> (r: PrefixSlicer)
        ensures
            r.matches(prefix.spec_bytes()),
    {
        let bytes = str_bytes(prefix);
        let idx_pair: Option<(usize, usize)> = match find_character(bytes, 0x21, 0) {
            Some(exc_idx) => match find_character(bytes, 0x40, exc_idx + 1) {
                Some(at_idx) => Some((exc_idx, at_idx)),
                None => None,
            },
            None => None,
        };
        match idx_pair {
            Some((exc_idx, at_idx)) => PrefixSlicer {
                nick_idx_pair: OptionalStringSlicer::new_some(0, exc_idx),
                username_idx_pair: OptionalStringSlicer::new_some(exc_idx + 1, at_idx),
                hostname_idx_pair: StringSlicer::new(at_idx + 1, bytes.len()),
            },
            None => PrefixSlicer {
                nick_idx_pair: OptionalStringSlicer::new_none(),
                username_idx_pair: OptionalStringSlicer::new_none(),
                hostname_idx_pair: StringSlicer::new(0, bytes.len()),
            },
        }
    }

    /// Pairs this slicer with the prefix it was computed for.
    pub fn apply(&self, prefix: String) -> (r: IrcMsgPrefix)
        requires
            self.matches(encode_utf8(prefix@)),
        ensures
            r@ == encode_utf8(prefix@),
    {
        let r = IrcMsgPrefix { data: prefix, slicer: self.clone() };
        proof {
            encode_utf8_valid_utf8(prefix@);
        }
        r
    }
}

impl Clone for PrefixSlicer {
    fn clone(&self) -> (r: PrefixSlicer)
        ensures
            r == *self,
    {
        PrefixSlicer {
            nick_idx_pair: self.nick_idx_pair,
            username_idx_pair: self.username_idx_pair,
            hostname_idx_pair: self.hostname_idx_pair,
        }
    }
}

/// An IRC prefix, which identifies the source of a message.
#[derive(Debug)]
pub struct IrcMsgPrefix {
    data: String,
    slicer: PrefixSlicer,
}

impl View for IrcMsgPrefix {
    /// The bytes of the prefix.
    type V = Seq<u8>;

    closed spec fn view(&self) -> Seq<u8> {
        encode_utf8(self.data@)
    }
}

impl IrcMsgPrefix {
    #[verifier::type_invariant]
    closed spec fn inv(self) -> bool {
        self.slicer.matches(encode_utf8(self.data@))
    }

    proof fn lemma_slices(&self)
        requires
            self.inv(),
        ensures
            prefix_marks(self@) matches Some((e, a)) ==> {
                &&& can_slice_bytes(self@, 0, e)
                &&& can_slice_bytes(self@, e + 1, a)
                &&& can_slice_bytes(self@, a + 1, self@.len() as int)
            },
            can_slice_bytes(self@, 0, self@.len() as int),
    {
        let s = self@;
        encode_utf8_valid_utf8(self.data@);
        lemma_ends_are_boundaries(s);
        if let Some((e, a)) = prefix_marks(s) {
            lemma_find(s, 0x21, 0);
            assert(e < s.len());
            lemma_find(s, 0x40, e + 1);
            lemma_ascii_boundaries(s, e);
            lemma_ascii_boundaries(s, a);
        }
    }

    /// Parses a prefix.
    pub fn new(s: String) -> (r: IrcMsgPrefix)
        ensures
            r@ == encode_utf8(s@),
    {
        let slicer = PrefixSlicer::new(s.as_str());
        IrcMsgPrefix { data: s, slicer: slicer }
    }

    /// The nick component of a prefix.
    pub fn nick(&self) -> (r: Option<&str>)
        ensures
            r is Some == prefix_nick(self@) is Some,
            r matches Some(t) ==> Some(t.spec_bytes()) == prefix_nick(self@),
    {
        proof {
            use_type_invariant(self);
            self.lemma_slices();
        }
        self.slicer.nick_idx_pair.slice_on(self.data.as_str())
    }

    /// The username component of a prefix.
    pub fn username(&self) -> (r: Option<&str>)
        ensures
            r is Some == prefix_user(self@) is Some,
            r matches Some(t) ==> Some(t.spec_bytes()) == prefix_user(self@),
    {
        proof {
            use_type_invariant(self);
            self.lemma_slices();
        }
        self.slicer.username_idx_pair.slice_on(self.data.as_str())
    }

    /// The hostname component of a prefix.
    pub fn hostname(&self) -> (r: &str)
        ensures
            r.spec_bytes() == prefix_host(self@),
    {
        proof {
            use_type_invariant(self);
            self.lemma_slices();
            assert(self@.subrange(0, self@.len() as int) =~= self@);
        }
        self.slicer.hostname_idx_pair.slice_on(self.data.as_str())
    }

    /// The protocol representation.
    pub fn as_slice(&self) -> (r: &str)
        ensures
            r.spec_bytes() == self@,
    {
        self.data.as_str()
    }

    /// An owned copy.
    pub fn to_owned(&self) -> (r: IrcMsgPrefix)
        ensures
            r@ == self@,
    {
        proof {
            use_type_invariant(self);
        }
        IrcMsgPrefix { data: self.data.clone(), slicer: self.slicer.clone() }
    }

    /// A copy with the nick replaced, for a prefix of the form
    /// `nick!user@host`.
    pub fn with_nick(&self, nick: &str) -> (r: Option<IrcMsgPrefix>)
        ensures
            r is Some == prefix_marks(self@) is Some,
            r matches Some(p) ==> p@ == nick.spec_bytes() + seq![0x21u8] + prefix_user(
                self@,
            ).unwrap() + seq![0x40u8] + prefix_host(self@),
    {
        match (self.nick(), self.username()) {
            (Some(_), Some(username)) => {
                let hostname = self.hostname();
                let mut out: Vec<u8> = Vec::new();
                push_bytes(&mut out, str_bytes(nick));
                out.push(0x21);
                push_bytes(&mut out, str_bytes(username));
                out.push(0x40);
                push_bytes(&mut out, str_bytes(hostname));
                proof {
                    encode_utf8_valid_utf8(nick@);
                    encode_utf8_valid_utf8(username@);
                    encode_utf8_valid_utf8(hostname@);
                    lemma_ascii_byte_utf8(0x21);
                    lemma_ascii_byte_utf8(0x40);
                    let a = nick.spec_bytes();
                    let b = username.spec_bytes();
                    let c = hostname.spec_bytes();
                    lemma_concat_utf8(a, seq![0x21u8]);
                    lemma_concat_utf8(a + seq![0x21u8], b);
                    lemma_concat_utf8(a + seq![0x21u8] + b, seq![0x40u8]);
                    lemma_concat_utf8(a + seq![0x21u8] + b + seq![0x40u8], c);
                    assert(out@ =~= a + seq![0x21u8] + b + seq![0x40u8] + c);
                    lemma_decode_encode(out@);
                }
                Some(IrcMsgPrefix::new(into_text(out)))
            },
            _ => None,
        }
    }
}

impl PartialEq for IrcMsgPrefix {
    fn eq(&self, other: &IrcMsgPrefix) -> (r: bool) {
        proof {
            encode_utf8_decode_utf8(self.data@);
            encode_utf8_decode_utf8(other.data@);
        }
        self.data == other.data
    }
}

impl vstd::std_specs::cmp::PartialEqSpecImpl for IrcMsgPrefix {
    open spec fn obeys_eq_spec() -> bool {
        true
    }

    open spec fn eq_spec(&self, other: &IrcMsgPrefix) -> bool {
        self@ == other@
    }
}

/// Commands that may name a channel as their target.
pub open spec fn channel_targeted_commands() -> Seq<Seq<u8>> {
    seq![
        seq![0x4bu8, 0x49, 0x43, 0x4b],
        seq![0x50u8, 0x41, 0x52, 0x54],
        seq![0x4du8, 0x4f, 0x44, 0x45],
        seq![0x50u8, 0x52, 0x49, 0x56, 0x4d, 0x53, 0x47],
        seq![0x4eu8, 0x4f, 0x54, 0x49, 0x43, 0x45],
        seq![0x54u8, 0x4f, 0x50, 0x49, 0x43],
    ]
}

fn channel_targeted_command(i: usize) -> (r: Vec<u8>)
    requires
        i < 6,
    ensures
        r@ == channel_targeted_commands()[i as int],
{
    let r = if i == 0 {
        vec![0x4bu8, 0x49, 0x43, 0x4b]
    } else if i == 1 {
        vec![0x50u8, 0x41, 0x52, 0x54]
    } else if i == 2 {
        vec![0x4du8, 0x4f, 0x44, 0x45]
    } else if i == 3 {
        vec![0x50u8, 0x52, 0x49, 0x56, 0x4d, 0x53, 0x47]
    } else if i == 4 {
        vec![0x4eu8, 0x4f, 0x54, 0x49, 0x43, 0x45]
    } else {
        vec![0x54u8, 0x4f, 0x50, 0x49, 0x43]
    };
    proof {
        assert(r@ =~= channel_targeted_commands()[i as int]);
    }
    r
}

/// `KICK`, `PART`, `MODE`, `PRIVMSG`, `NOTICE` or `TOPIC`, in any case.
pub open spec fn targets_channel(command: Seq<u8>) -> bool {
    exists|i: int|
        0 <= i < 6 && eq_under(
            #[trigger] channel_targeted_commands()[i],
            command,
            |b: u8| rfc1459_lower(b),
        )
}

/// Whether a command name (`KICK`, `PART`, `MODE`, `PRIVMSG`, `NOTICE` or
/// `TOPIC`, in any case) is allowed to target a channel.
pub fn can_target_channel(identifier: &str) -> (r: bool)
    ensures
        r == targets_channel(identifier.spec_bytes()),
{
    let id = str_bytes(identifier);
    let mut i: usize = 0;
    while i < 6
        invariant
            0 <= i <= 6,
            id@ == identifier.spec_bytes(),
            forall|j: int|
                0 <= j < i ==> !eq_under(
                    #[trigger] channel_targeted_commands()[j],
                    identifier.spec_bytes(),
                    |b: u8| rfc1459_lower(b),
                ),
        decreases 6 - i,
    {
        let command = channel_targeted_command(i);
        if bytes_eq_ignore_irc_case(command.as_slice(), id) {
            return true;
        }
        i = i + 1;
    }
    false
}

/// The first bytes that mark a channel name: `&`, `#`, `+` and `!`.
pub open spec fn is_channel_prefix_byte(b: u8) -> bool {
    b == 0x26 || b == 0x23 || b == 0x2b || b == 0x21
}

/// Whether an identifier is a channel, judged by its first character.
pub fn is_channel(identifier: &str) -> (r: bool)
    ensures
        r == (identifier.spec_bytes().len() > 0 && is_channel_prefix_byte(
            identifier.spec_bytes()[0],
        )),
{
    let bytes = str_bytes(identifier);
    if bytes.len() == 0 {
        return false;
    }
    let b = bytes[0];
    b == 0x26 || b == 0x23 || b == 0x2b || b == 0x21
}

/// Whether a prefix holds a nick, a user and a host: a `!` followed later
/// by an `@`.
pub fn is_full_prefix(prefix: &str) -> (r: bool)
    ensures
        r == prefix_marks(prefix.spec_bytes()) is Some,
{
    let bytes = str_bytes(prefix);
    match find_character(bytes, 0x21, 0) {
        Some(exc_idx) => find_character(bytes, 0x40, exc_idx + 1).is_some(),
        None => false,
    }
}

} // verus!
