//! Messages kept as their text together with the byte ranges of their
//! prefix, command and parameters.  Every line is accepted: parts that are
//! missing come out empty.

use vstd::prelude::*;
use vstd::string::*;
use vstd::utf8::*;
use crate::util::{StringSlicer, OptionalStringSlicer, can_slice, can_slice_bytes, byte_slice_of};
use crate::parse_helpers::{spec_find, spec_find_other, lemma_find, lemma_find_other, find_character};
use crate::text::{str_bytes, lemma_ascii_boundaries, lemma_ends_are_boundaries};

verus! {

/// The first space at or after `from`, or the end.
pub open spec fn space_or_end(s: Seq<u8>, from: int) -> int {
    match spec_find(s, 0x20, from) {
        Some(i) => i,
        None => s.len() as int,
    }
}

/// The first byte at or after `from` that is not a space, or the end.
pub open spec fn past_spaces(s: Seq<u8>, from: int) -> int {
    match spec_find_other(s, 0x20, from) {
        Some(i) => i,
        None => s.len() as int,
    }
}

/// Where the prefix ends: at the first space of a line that starts with
/// `:`; at the start of any other line.
pub open spec fn prefix_end(s: Seq<u8>) -> int {
    if s.len() > 0 && s[0] == 0x3a {
        space_or_end(s, 0)
    } else {
        0
    }
}

/// Where the command starts.
pub open spec fn command_start(s: Seq<u8>) -> int {
    past_spaces(s, prefix_end(s))
}

/// Where the command ends.
pub open spec fn command_end(s: Seq<u8>) -> int {
    space_or_end(s, command_start(s))
}

/// Where the parameters start.
pub open spec fn args_start(s: Seq<u8>) -> int {
    past_spaces(s, command_end(s))
}

/// The ranges of the parameters from `i` on: one that starts with `:` runs
/// to the end of the line, any other to the next space.
pub open spec fn arg_ranges(s: Seq<u8>, i: int) -> Seq<(int, int)>
    decreases s.len() - i,
{
    if i < 0 || i >= s.len() {
        Seq::empty()
    } else if s[i] == 0x3a {
        seq![(i + 1, s.len() as int)]
    } else {
        let e = space_or_end(s, i);
        let next = past_spaces(s, e);
        if i < next <= s.len() {
            seq![(i, e)] + arg_ranges(s, next)
        } else {
            seq![(i, e)]
        }
    }
}

/// The prefix of a line, without its `:`, when the line starts with `:`.
pub open spec fn text_prefix(s: Seq<u8>) -> Option<Seq<u8>> {
    if s.len() > 0 && s[0] == 0x3a {
        Some(s.subrange(1, prefix_end(s)))
    } else {
        None
    }
}

/// The command of a line.
pub open spec fn text_command(s: Seq<u8>) -> Seq<u8> {
    s.subrange(command_start(s), command_end(s))
}

/// The parameters of a line.
pub open spec fn text_args(s: Seq<u8>) -> Seq<Seq<u8>> {
    arg_ranges(s, args_start(s)).map_values(|r: (int, int)| s.subrange(r.0, r.1))
}

/// A position that falls on a character boundary of valid UTF-8 text: an
/// end of the text, or next to an ASCII byte.
pub open spec fn ascii_edge(s: Seq<u8>, i: int) -> bool {
    ||| i == 0
    ||| i == s.len()
    ||| (0 < i < s.len() && s[i] < 0x80)
    ||| (0 < i <= s.len() && s[i - 1] < 0x80)
}

proof fn lemma_edge_boundary(s: Seq<u8>, i: int)
    requires
        valid_utf8(s),
        0 <= i <= s.len(),
        ascii_edge(s, i),
    ensures
        is_char_boundary(s, i),
{
    lemma_ends_are_boundaries(s);
    if i != 0 && i != s.len() {
        if s[i] < 0x80 {
            lemma_ascii_boundaries(s, i);
        } else {
            lemma_ascii_boundaries(s, i - 1);
        }
    }
}

proof fn lemma_space_or_end(s: Seq<u8>, from: int)
    requires
        0 <= from <= s.len(),
    ensures
        from <= space_or_end(s, from) <= s.len(),
        ascii_edge(s, space_or_end(s, from)),
        forall|j: int| from <= j < space_or_end(s, from) ==> s[j] != 0x20,
{
    lemma_find(s, 0x20, from);
}

proof fn lemma_past_spaces(s: Seq<u8>, from: int)
    requires
        0 <= from <= s.len(),
        ascii_edge(s, from),
    ensures
        from <= past_spaces(s, from) <= s.len(),
        ascii_edge(s, past_spaces(s, from)),
        forall|j: int| from <= j < past_spaces(s, from) ==> s[j] == 0x20,
{
    lemma_find_other(s, 0x20, from);
}

/// The parameters never overlap, lie inside the line and start and end on
/// character boundaries.
proof fn lemma_arg_ranges(s: Seq<u8>, i: int)
    requires
        0 <= i <= s.len(),
        ascii_edge(s, i),
    ensures
        forall|k: int|
            0 <= k < arg_ranges(s, i).len() ==> {
                let r = #[trigger] arg_ranges(s, i)[k];
                &&& i <= r.0 <= r.1 <= s.len()
                &&& ascii_edge(s, r.0)
                &&& ascii_edge(s, r.1)
            },
    decreases s.len() - i,
{
    if i < s.len() && s[i] != 0x3a {
        lemma_space_or_end(s, i);
        let e = space_or_end(s, i);
        lemma_past_spaces(s, e);
        let next = past_spaces(s, e);
        if i < next <= s.len() {
            lemma_arg_ranges(s, next);
            let rest = arg_ranges(s, next);
            assert forall|k: int| 0 <= k < arg_ranges(s, i).len() implies {
                let r = #[trigger] arg_ranges(s, i)[k];
                &&& i <= r.0 <= r.1 <= s.len()
                &&& ascii_edge(s, r.0)
                &&& ascii_edge(s, r.1)
            } by {
                if k > 0 {
                    assert(arg_ranges(s, i)[k] == rest[k - 1]);
                }
            }
        }
    }
}

/// Each step of the parameter scan moves forward.
proof fn lemma_scan_moves(s: Seq<u8>, i: int)
    requires
        0 <= i < s.len(),
    ensures
        i < past_spaces(s, space_or_end(s, i)) <= s.len(),
{
    lemma_find(s, 0x20, i);
    let e = space_or_end(s, i);
    lemma_find_other(s, 0x20, e);
    if e == i {
        assert(s[i] == 0x20);
    }
}

/// The index of the first byte at or after `start` that is not a space.
pub fn consume_spaces(start: usize, text: &str) -> (r: usize)
    requires
        can_slice(text, start as int, text.spec_bytes().len() as int),
    ensures
        r == past_spaces(text.spec_bytes(), start as int),
{
    let bytes = str_bytes(text);
    let mut idx: usize = start;
    while idx < bytes.len()
        invariant
            start <= idx <= bytes@.len(),
            bytes@ == text.spec_bytes(),
            forall|j: int| start <= j < idx ==> bytes@[j] == 0x20,
        decreases bytes.len() - idx,
    {
        if bytes[idx] != 0x20 {
            proof {
                lemma_find_other(bytes@, 0x20, start as int);
                if let Some(k) = spec_find_other(bytes@, 0x20, start as int) {
                    assert(k == idx as int);
                }
            }
            return idx;
        }
        idx = idx + 1;
    }
    proof {
        lemma_find_other(bytes@, 0x20, start as int);
    }
    idx
}

/// The prefix that starts at `start`, when a `:` stands there, and where
/// it ends.
pub fn extract_prefix(start: usize, text: &str) -> (r: (usize, OptionalStringSlicer))
    requires
        can_slice(text, start as int, text.spec_bytes().len() as int),
    ensures
        ({
            let s = text.spec_bytes();
            if start < s.len() && s[start as int] == 0x3a {
                r.0 == space_or_end(s, start as int) && r.1@ == (true, (start + 1) as usize, r.0)
            } else {
                r.0 == start && r.1@ == (false, 0usize, 0usize)
            }
        }),
{
    let bytes = str_bytes(text);
    if start < bytes.len() && bytes[start] == 0x3a {
        let end = match find_character(bytes, 0x20, start) {
            Some(idx) => idx,
            None => bytes.len(),
        };
        (end, OptionalStringSlicer::new_some(start + 1, end))
    } else {
        (start, OptionalStringSlicer::new_none())
    }
}

/// The word that starts at `start`: everything up to the next space.
pub fn extract_word(start: usize, text: &str) -> (r: (usize, StringSlicer))
    requires
        can_slice(text, start as int, text.spec_bytes().len() as int),
    ensures
        r.0 == space_or_end(text.spec_bytes(), start as int),
        r.1@ == (start, r.0),
{
    let bytes = str_bytes(text);
    let end = match find_character(bytes, 0x20, start) {
        Some(idx) => idx,
        None => bytes.len(),
    };
    (end, StringSlicer::new(start, end))
}

/// The parameter that starts at `start`: all that follows a `:`, or else
/// everything up to the next space.
pub fn extract_arg(start: usize, text: &str) -> (r: (usize, StringSlicer))
    requires
        can_slice(text, start as int, text.spec_bytes().len() as int),
    ensures
        ({
            let s = text.spec_bytes();
            if start < s.len() && s[start as int] == 0x3a {
                r.0 == s.len() && r.1@ == ((start + 1) as usize, r.0)
            } else {
                r.0 == space_or_end(s, start as int) && r.1@ == (start, r.0)
            }
        }),
{
    let bytes = str_bytes(text);
    if start < bytes.len() && bytes[start] == 0x3a {
        (bytes.len(), StringSlicer::new(start + 1, bytes.len()))
    } else {
        let end = match find_character(bytes, 0x20, start) {
            Some(idx) => idx,
            None => bytes.len(),
        };
        (end, StringSlicer::new(start, end))
    }
}

/// Text that is borrowed or owned.
#[derive(Debug)]
pub enum MaybeOwned<'a> {
    Slice(&'a str),
    Owned(String),
}

impl<'a> MaybeOwned<'a> {
    /// The bytes of the text.
    pub open spec fn bytes(&self) -> Seq<u8> {
        match self {
            MaybeOwned::Slice(s) => s.spec_bytes(),
            MaybeOwned::Owned(s) => encode_utf8(s@),
        }
    }

    pub fn as_slice(&self) -> (r: &str)
        ensures
            r.spec_bytes() == self.bytes(),
    {
        match self {
            MaybeOwned::Slice(s) => s,
            MaybeOwned::Owned(s) => s.as_str(),
        }
    }
}

/// The ranges that the scan of `s` finds, as found by `IrcMsg::new`.
pub open spec fn scanned(s: Seq<u8>, prefix: (bool, usize, usize), command: (usize, usize), args: Seq<(usize, usize)>) -> bool {
    &&& prefix == (if s.len() > 0 && s[0] == 0x3a {
        (true, 1usize, prefix_end(s) as usize)
    } else {
        (false, 0usize, 0usize)
    })
    &&& command == (command_start(s) as usize, command_end(s) as usize)
    &&& args.len() == arg_ranges(s, args_start(s)).len()
    &&& forall|k: int|
        0 <= k < args.len() ==> (#[trigger] args[k]).0 == arg_ranges(s, args_start(s))[k].0
            && args[k].1 == arg_ranges(s, args_start(s))[k].1
}

/// Facts about the ranges of a scanned line.
pub proof fn lemma_scan_ranges(s: Seq<u8>)
    requires
        valid_utf8(s),
    ensures
        s.len() > 0 && s[0] == 0x3a ==> can_slice_bytes(s, 1, prefix_end(s)),
        can_slice_bytes(s, command_start(s), command_end(s)),
        0 <= args_start(s) <= s.len(),
        ascii_edge(s, args_start(s)),
        forall|k: int|
            0 <= k < arg_ranges(s, args_start(s)).len() ==> can_slice_bytes(
                s,
                (#[trigger] arg_ranges(s, args_start(s))[k]).0,
                arg_ranges(s, args_start(s))[k].1,
            ),
{
    lemma_space_or_end(s, 0);
    if s.len() > 0 && s[0] == 0x3a {
        lemma_find(s, 0x20, 0);
        assert(prefix_end(s) >= 1);
        lemma_edge_boundary(s, 1);
        lemma_edge_boundary(s, prefix_end(s));
    }
    lemma_past_spaces(s, prefix_end(s));
    lemma_space_or_end(s, command_start(s));
    lemma_past_spaces(s, command_end(s));
    lemma_edge_boundary(s, command_start(s));
    lemma_edge_boundary(s, command_end(s));
    lemma_arg_ranges(s, args_start(s));
    assert forall|k: int| 0 <= k < arg_ranges(s, args_start(s)).len() implies can_slice_bytes(
        s,
        (#[trigger] arg_ranges(s, args_start(s))[k]).0,
        arg_ranges(s, args_start(s))[k].1,
    ) by {
        let r = arg_ranges(s, args_start(s))[k];
        lemma_edge_boundary(s, r.0);
        lemma_edge_boundary(s, r.1);
    }
}

/// A message kept as its text and the ranges of its parts.
#[derive(Debug)]
pub struct IrcMsg<'a> {
    data: MaybeOwned<'a>,
    prefix: OptionalStringSlicer,
    command: StringSlicer,
    args: Vec<StringSlicer>,
}

impl<'a> View for IrcMsg<'a> {
    /// The bytes of the text.
    type V = Seq<u8>;

    closed spec fn view(&self) -> Seq<u8> {
        self.data.bytes()
    }
}

impl<'a> IrcMsg<'a> {
    #[verifier::type_invariant]
    closed spec fn inv(self) -> bool {
        &&& valid_utf8(self.data.bytes())
        &&& self.data.bytes().len() <= usize::MAX
        &&& scanned(self.data.bytes(), self.prefix@, self.command@, self.args@.map_values(|a: StringSlicer| a@))
    }

    /// Reads a borrowed line.
    pub fn from_str(msg_text: &'a str) -> (r: Option<IrcMsg<'a>>)
        ensures
            r matches Some(m) && m@ == msg_text.spec_bytes(),
    {
        IrcMsg::new(MaybeOwned::Slice(msg_text))
    }

    /// Reads a line.  Every line is accepted.
    pub fn new(msg_text: MaybeOwned<'a>) -> (r: Option<IrcMsg<'a>>)
        ensures
            r matches Some(m) && m@ == msg_text.bytes(),
    {
        let text = msg_text.as_slice();
        let len = str_bytes(text).len();
        let ghost s = text.spec_bytes();
        proof {
            encode_utf8_valid_utf8(text@);
            lemma_ends_are_boundaries(s);
            lemma_scan_ranges(s);
            lemma_space_or_end(s, 0);
            lemma_past_spaces(s, prefix_end(s));
            lemma_space_or_end(s, command_start(s));
            lemma_past_spaces(s, command_end(s));
            lemma_edge_boundary(s, prefix_end(s));
            lemma_edge_boundary(s, command_start(s));
            lemma_edge_boundary(s, command_end(s));
            lemma_edge_boundary(s, args_start(s));
        }
        let (tmp, prefix_ss) = extract_prefix(0, text);
        let cur_idx = consume_spaces(tmp, text);
        let (tmp, command) = extract_word(cur_idx, text);
        let mut cur_idx = consume_spaces(tmp, text);
        let mut args: Vec<StringSlicer> = Vec::new();
        let ghost start = cur_idx as int;
        while cur_idx < len
            invariant
                s == text.spec_bytes(),
                valid_utf8(s),
                s.len() == len,
                is_char_boundary(s, s.len() as int),
                start == args_start(s),
                0 <= cur_idx <= s.len(),
                ascii_edge(s, cur_idx as int),
                args@.map_values(|a: StringSlicer| a@).len() + arg_ranges(s, cur_idx as int).len() == arg_ranges(s, start).len(),
                forall|k: int|
                    0 <= k < args@.len() ==> (#[trigger] args@[k])@.0 == arg_ranges(s, start)[k].0
                        && args@[k]@.1 == arg_ranges(s, start)[k].1,
                forall|k: int|
                    0 <= k < arg_ranges(s, cur_idx as int).len() ==> #[trigger] arg_ranges(s, cur_idx as int)[k]
                        == arg_ranges(s, start)[args@.len() + k],
            decreases s.len() - cur_idx,
        {
            proof {
                lemma_edge_boundary(s, cur_idx as int);
                lemma_scan_moves(s, cur_idx as int);
                lemma_space_or_end(s, cur_idx as int);
            }
            let (tmp, arg) = extract_arg(cur_idx, text);
            proof {
                lemma_edge_boundary(s, tmp as int);
                if s[cur_idx as int] != 0x3a {
                    lemma_past_spaces(s, tmp as int);
                }
            }
            let next = consume_spaces(tmp, text);
            let ghost old_ranges = arg_ranges(s, cur_idx as int);
            let ghost k0 = args@.len() as int;
            proof {
                assert(old_ranges.len() > 0);
                assert(old_ranges[0] == arg_ranges(s, start)[k0]);
                if s[cur_idx as int] == 0x3a {
                    lemma_find_other(s, 0x20, s.len() as int);
                    assert(arg_ranges(s, next as int).len() == 0);
                } else {
                    assert(old_ranges == seq![old_ranges[0]] + arg_ranges(s, next as int));
                    assert forall|k: int| 0 <= k < arg_ranges(s, next as int).len() implies #[trigger] arg_ranges(s, next as int)[k]
                        == arg_ranges(s, start)[k0 + 1 + k] by {
                        assert(arg_ranges(s, next as int)[k] == old_ranges[k + 1]);
                    }
                }
            }
            args.push(arg);
            cur_idx = next;
        }
        proof {
            assert(arg_ranges(s, cur_idx as int).len() == 0);
            let v = args@.map_values(|a: StringSlicer| a@);
            assert forall|k: int| 0 <= k < v.len() implies (#[trigger] v[k]).0 == arg_ranges(s, start)[k].0
                && v[k].1 == arg_ranges(s, start)[k].1 by {
                assert(v[k] == args@[k]@);
            }
        }
        Some(IrcMsg { data: msg_text, prefix: prefix_ss, command: command, args: args })
    }

    /// The range of the prefix.
    pub fn prefix_slicer(&self) -> (r: OptionalStringSlicer)
        ensures
            r@ == (if self@.len() > 0 && self@[0] == 0x3a {
                (true, 1usize, prefix_end(self@) as usize)
            } else {
                (false, 0usize, 0usize)
            }),
            self@.len() <= usize::MAX,
            valid_utf8(self@),
            prefix_end(self@) <= self@.len(),
            self@.len() > 0 && self@[0] == 0x3a ==> prefix_end(self@) >= 1,
    {
        proof {
            use_type_invariant(self);
            lemma_space_or_end(self@, 0);
            lemma_find(self@, 0x20, 0);
        }
        self.prefix
    }

    /// The text of the line.
    pub fn text(&self) -> (r: &str)
        ensures
            r.spec_bytes() == self@,
    {
        self.data.as_slice()
    }

    /// The prefix, without its `:`, when the line has one.
    pub fn get_prefix(&self) -> (r: Option<&str>)
        ensures
            match text_prefix(self@) {
                Some(p) => r matches Some(t) && t.spec_bytes() == p,
                None => r is None,
            },
    {
        proof {
            use_type_invariant(self);
            lemma_scan_ranges(self@);
        }
        self.prefix.slice_on(self.data.as_slice())
    }

    /// The command.
    pub fn get_command(&self) -> (r: &str)
        ensures
            r.spec_bytes() == text_command(self@),
    {
        proof {
            use_type_invariant(self);
            lemma_scan_ranges(self@);
        }
        self.command.slice_on(self.data.as_slice())
    }

    /// The parameters.
    pub fn get_args(&self) -> (r: Vec<&str>)
        ensures
            r@.len() == text_args(self@).len(),
            forall|k: int| 0 <= k < r@.len() ==> (#[trigger] r@[k]).spec_bytes() == text_args(self@)[k],
    {
        proof {
            use_type_invariant(self);
            lemma_scan_ranges(self@);
        }
        let text = self.data.as_slice();
        let ghost s = self@;
        let ghost ranges = arg_ranges(s, args_start(s));
        proof {
            let v = self.args@.map_values(|a: StringSlicer| a@);
            assert forall|k: int| 0 <= k < self.args@.len() implies (#[trigger] self.args@[k])@.0 == ranges[k].0
                && self.args@[k]@.1 == ranges[k].1 by {
                assert(v[k] == self.args@[k]@);
            }
        }
        let mut out: Vec<&str> = Vec::new();
        let mut i: usize = 0;
        while i < self.args.len()
            invariant
                0 <= i <= self.args@.len(),
                text.spec_bytes() == s,
                s == self@,
                self.args@.len() == ranges.len(),
                ranges == arg_ranges(s, args_start(s)),
                forall|k: int| 0 <= k < self.args@.len() ==> (#[trigger] self.args@[k])@.0 == ranges[k].0
                    && self.args@[k]@.1 == ranges[k].1,
                forall|k: int| 0 <= k < ranges.len() ==> can_slice_bytes(s, (#[trigger] ranges[k]).0, ranges[k].1),
                out@.len() == i,
                forall|k: int| 0 <= k < i ==> (#[trigger] out@[k]).spec_bytes() == text_args(s)[k],
            decreases self.args.len() - i,
        {
            proof {
                assert(can_slice_bytes(s, ranges[i as int].0, ranges[i as int].1));
            }
            let piece = self.args[i].slice_on(text);
            out.push(piece);
            i = i + 1;
        }
        out
    }
}

} // verus!
