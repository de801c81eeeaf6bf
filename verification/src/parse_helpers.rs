//! Byte-level helpers for splitting a raw IRC line into its parts.

use vstd::prelude::*;
use vstd::slice::slice_subrange;

verus! {

/// Index of the first occurrence of `byte` in `s` at or after `from`.
pub open spec fn spec_find(s: Seq<u8>, byte: u8, from: int) -> Option<int>
    decreases s.len() - from,
{
    if from < 0 || from >= s.len() {
        None
    } else if s[from] == byte {
        Some(from)
    } else {
        spec_find(s, byte, from + 1)
    }
}

/// Index of the first byte of `s` at or after `from` that is not `byte`.
pub open spec fn spec_find_other(s: Seq<u8>, byte: u8, from: int) -> Option<int>
    decreases s.len() - from,
{
    if from < 0 || from >= s.len() {
        None
    } else if s[from] != byte {
        Some(from)
    } else {
        spec_find_other(s, byte, from + 1)
    }
}

/// `spec_find` gives the least matching index at or after `from`.
pub proof fn lemma_find(s: Seq<u8>, byte: u8, from: int)
    requires
        0 <= from,
    ensures
        match spec_find(s, byte, from) {
            Some(i) => from <= i < s.len() && s[i] == byte && forall|j: int|
                from <= j < i ==> s[j] != byte,
            None => forall|j: int| from <= j < s.len() ==> s[j] != byte,
        },
    decreases s.len() - from,
{
    if from < s.len() && s[from] != byte {
        lemma_find(s, byte, from + 1);
    }
}

/// `spec_find_other` gives the least index at or after `from` whose byte differs.
pub proof fn lemma_find_other(s: Seq<u8>, byte: u8, from: int)
    requires
        0 <= from,
    ensures
        match spec_find_other(s, byte, from) {
            Some(i) => from <= i < s.len() && s[i] != byte && forall|j: int|
                from <= j < i ==> s[j] == byte,
            None => forall|j: int| from <= j < s.len() ==> s[j] == byte,
        },
    decreases s.len() - from,
{
    if from < s.len() && s[from] == byte {
        lemma_find_other(s, byte, from + 1);
    }
}

proof fn lemma_find_at(s: Seq<u8>, byte: u8, from: int, i: int)
    requires
        0 <= from <= i < s.len(),
        s[i] == byte,
        forall|j: int| from <= j < i ==> s[j] != byte,
    ensures
        spec_find(s, byte, from) == Some(i),
    decreases i - from,
{
    if from < i {
        lemma_find_at(s, byte, from + 1, i);
    }
}

proof fn lemma_find_none(s: Seq<u8>, byte: u8, from: int)
    requires
        0 <= from,
        forall|j: int| from <= j < s.len() ==> s[j] != byte,
    ensures
        spec_find(s, byte, from) == None::<int>,
    decreases s.len() - from,
{
    if from < s.len() {
        lemma_find_none(s, byte, from + 1);
    }
}

proof fn lemma_find_other_at(s: Seq<u8>, byte: u8, from: int, i: int)
    requires
        0 <= from <= i < s.len(),
        s[i] != byte,
        forall|j: int| from <= j < i ==> s[j] == byte,
    ensures
        spec_find_other(s, byte, from) == Some(i),
    decreases i - from,
{
    if from < i {
        lemma_find_other_at(s, byte, from + 1, i);
    }
}

proof fn lemma_find_other_none(s: Seq<u8>, byte: u8, from: int)
    requires
        0 <= from,
        forall|j: int| from <= j < s.len() ==> s[j] == byte,
    ensures
        spec_find_other(s, byte, from) == None::<int>,
    decreases s.len() - from,
{
    if from < s.len() {
        lemma_find_other_none(s, byte, from + 1);
    }
}

/// The first line of `s`: everything before the first LF, without a CR
/// directly in front of that LF.
pub open spec fn spec_first_line(s: Seq<u8>) -> Seq<u8> {
    match spec_find(s, 0x0a, 0) {
        Some(idx) => if idx > 0 && s[idx - 1] == 0x0d {
            s.take(idx - 1)
        } else {
            s.take(idx)
        },
        None => s,
    }
}

/// The first line is the start of the input.
pub proof fn lemma_first_line_prefix(s: Seq<u8>)
    ensures
        spec_first_line(s).len() <= s.len(),
        spec_first_line(s) == s.take(spec_first_line(s).len() as int),
{
    lemma_find(s, 0x0a, 0);
    if spec_find(s, 0x0a, 0) is None {
        assert(s.take(s.len() as int) =~= s);
    }
}

/// `s` without its leading spaces; a line made of spaces only keeps its last one.
pub open spec fn spec_consume_whitespace(s: Seq<u8>) -> Seq<u8> {
    if s.len() == 0 {
        s
    } else {
        match spec_find_other(s, 0x20, 0) {
            Some(k) => s.skip(k),
            None => s.skip(s.len() - 1),
        }
    }
}

/// Splits at the first space: the part before it, and what follows it
/// with leading spaces removed.
pub open spec fn spec_split_word(s: Seq<u8>) -> (Seq<u8>, Seq<u8>) {
    match spec_find(s, 0x20, 0) {
        Some(idx) => (s.take(idx), spec_consume_whitespace(s.skip(idx + 1))),
        None => (s, Seq::empty()),
    }
}

pub open spec fn spec_split_prefix(s: Seq<u8>) -> (Seq<u8>, Seq<u8>)
    recommends
        s.len() > 0,
{
    if s[0] == 0x3a {
        spec_split_word(s)
    } else {
        (Seq::empty(), s)
    }
}

pub open spec fn spec_split_command(s: Seq<u8>) -> (Seq<u8>, Seq<u8>) {
    spec_split_word(s)
}

pub open spec fn spec_split_arg(s: Seq<u8>) -> (Seq<u8>, Seq<u8>) {
    if s.len() == 0 {
        (s, s)
    } else if s[0] == 0x3a {
        (s.skip(1), Seq::empty())
    } else {
        spec_split_word(s)
    }
}

pub open spec fn spec_is_non_white(byte: u8) -> bool {
    !(byte == 0x00 || byte == 0x0A || byte == 0x0D || byte == 0x20)
}

pub open spec fn spec_all_non_white(s: Seq<u8>) -> bool {
    forall|i: int| 0 <= i < s.len() ==> spec_is_non_white(#[trigger] s[i])
}

/// The nick, user and host of a `:nick!user@host` prefix, when the user part
/// contains a white byte; every other input is refused.
pub open spec fn spec_parse_prefix(s: Seq<u8>) -> Option<(Seq<u8>, Seq<u8>, Seq<u8>)> {
    if s.len() == 0 || s[0] != 0x3a {
        None
    } else {
        match spec_find(s, 0x21, 1) {
            None => None,
            Some(nick_end) => match spec_find(s, 0x40, nick_end + 1) {
                None => None,
                Some(user_end) => if spec_all_non_white(s.subrange(nick_end + 1, user_end)) {
                    None
                } else {
                    Some(
                        (
                            s.subrange(1, nick_end),
                            s.subrange(nick_end + 1, user_end),
                            s.skip(user_end + 1),
                        ),
                    )
                },
            },
        }
    }
}

/// Returns the first line of `input`, that is everything before the first
/// line feed, without a carriage return that directly precedes it.
pub fn first_line(input: &[u8]) -> (r: &[u8])
    ensures
        r@ == spec_first_line(input@),
{
    let mut end_idx: Option<usize> = find_character(input, 0x0a, 0);
    if let Some(i) = end_idx {
        if i > 0 && input[i - 1] == 0x0d {
            end_idx = Some(i - 1);
        }
    }
    match end_idx {
        Some(i) => slice_subrange(input, 0, i),
        None => input,
    }
}

/// Index of the first occurrence of `byte` in `input` at or after `offset`.
pub fn find_character(input: &[u8], byte: u8, offset: usize) -> (r: Option<usize>)
    ensures
        r matches Some(i) ==> spec_find(input@, byte, offset as int) == Some(i as int),
        r is None ==> spec_find(input@, byte, offset as int) is None,
        match r {
            Some(i) => offset <= i < input.len() && input@[i as int] == byte && forall|j: int|
                offset <= j < i ==> input@[j] != byte,
            None => forall|j: int| offset <= j < input.len() ==> input@[j] != byte,
        },
{
    let mut idx: usize = offset;
    while idx < input.len()
        invariant
            offset <= idx,
            forall|j: int| offset <= j < idx && j < input.len() ==> input@[j] != byte,
        decreases input.len() - idx,
    {
        if input[idx] == byte {
            proof {
                lemma_find_at(input@, byte, offset as int, idx as int);
            }
            return Some(idx);
        }
        idx = idx + 1;
    }
    proof {
        lemma_find_none(input@, byte, offset as int);
    }
    None
}

/// Skips the leading spaces of `input`.  When `input` holds nothing but
/// spaces, its last space is kept.
pub fn consume_whitespace(input: &[u8]) -> (r: &[u8])
    ensures
        r@ == spec_consume_whitespace(input@),
{
    let mut idx: usize = 0;
    while idx < input.len()
        invariant
            0 <= idx <= input.len(),
            forall|j: int| 0 <= j < idx ==> input@[j] == 0x20,
        decreases input.len() - idx,
    {
        if input[idx] != 0x20 {
            proof {
                lemma_find_other_at(input@, 0x20, 0, idx as int);
            }
            return slice_subrange(input, idx, input.len());
        }
        idx = idx + 1;
    }
    proof {
        lemma_find_other_none(input@, 0x20, 0);
    }
    if input.len() == 0 {
        input
    } else {
        slice_subrange(input, input.len() - 1, input.len())
    }
}

fn split_word(input: &[u8]) -> (r: (&[u8], &[u8]))
    ensures
        (r.0@, r.1@) == spec_split_word(input@),
{
    match find_character(input, 0x20, 0) {
        Some(idx) => (
            slice_subrange(input, 0, idx),
            consume_whitespace(slice_subrange(input, idx + 1, input.len())),
        ),
        None => (input, slice_subrange(input, input.len(), input.len())),
    }
}

/// Splits a non-empty line into its `:prefix` (empty when there is none)
/// and the rest, without the spaces in between.
pub fn split_prefix(input: &[u8]) -> (r: (&[u8], &[u8]))
    requires
        input.len() > 0,
    ensures
        (r.0@, r.1@) == spec_split_prefix(input@),
{
    if input[0] == 0x3a {
        split_word(input)
    } else {
        (slice_subrange(input, 0, 0), input)
    }
}

/// Splits `:nick!user@host` into its nick, user and host.  The user part is
/// refused when all of its bytes are non-white.
pub fn parse_prefix(input: &[u8]) -> (r: Result<(&[u8], &[u8], &[u8]), ()>)
    ensures
        match r {
            Ok((n, u, h)) => spec_parse_prefix(input@) == Some((n@, u@, h@)),
            Err(()) => spec_parse_prefix(input@) is None,
        },
{
    if input.len() == 0 {
        return Err(());
    }
    if input[0] != 0x3a {
        return Err(());
    }
    let nick_start: usize = 1;
    let nick_end = match find_character(input, 0x21, nick_start) {
        Some(i) => i,
        None => return Err(()),
    };
    let user_start = nick_end + 1;
    let user_end = match find_character(input, 0x40, user_start) {
        Some(i) => i,
        None => return Err(()),
    };
    if is_valid_user(slice_subrange(input, user_start, user_end)) {
        return Err(());
    }
    let host_start = user_end + 1;
    Ok((
        slice_subrange(input, nick_start, nick_end),
        slice_subrange(input, user_start, user_end),
        slice_subrange(input, host_start, input.len()),
    ))
}

/// Splits the command off the front of `input`.
pub fn split_command(input: &[u8]) -> (r: (&[u8], &[u8]))
    ensures
        (r.0@, r.1@) == spec_split_command(input@),
{
    split_word(input)
}

/// Splits the next argument off the front of `input`; an argument that
/// starts with `:` takes the rest of the line.
pub fn split_arg(input: &[u8]) -> (r: (&[u8], &[u8]))
    ensures
        (r.0@, r.1@) == spec_split_arg(input@),
{
    if input.len() == 0 {
        return (input, input);
    }
    if input[0] == 0x3a {
        (slice_subrange(input, 1, input.len()), slice_subrange(input, input.len(), input.len()))
    } else {
        split_word(input)
    }
}

fn all_non_white(bytes: &[u8]) -> (r: bool)
    ensures
        r == spec_all_non_white(bytes@),
{
    let mut i: usize = 0;
    while i < bytes.len()
        invariant
            0 <= i <= bytes.len(),
            forall|j: int| 0 <= j < i ==> spec_is_non_white(#[trigger] bytes@[j]),
        decreases bytes.len() - i,
    {
        if !is_non_white(bytes[i]) {
            return false;
        }
        i = i + 1;
    }
    true
}

/// True when no byte of `nick` is NUL, LF, CR or space.
pub fn is_valid_nick(nick: &[u8]) -> (r: bool)
    ensures
        r == spec_all_non_white(nick@),
{
    all_non_white(nick)
}

/// True unless `byte` is NUL, LF, CR or space.
pub fn is_non_white(byte: u8) -> (r: bool)
    ensures
        r == spec_is_non_white(byte),
{
    !(byte == 0x00 || byte == 0x0A || byte == 0x0D || byte == 0x20)
}

/// True when no byte of `user` is NUL, LF, CR or space.
pub fn is_valid_user(user: &[u8]) -> (r: bool)
    ensures
        r == spec_all_non_white(user@),
{
    all_non_white(user)
}

/// A byte may stand in a prefix when it is not NUL, LF, CR or space.
pub fn is_valid_prefix_byte(byte: u8) -> (r: bool)
    ensures
        r == spec_is_non_white(byte),
{
    is_non_white(byte)
}

/// True when every byte of `prefix` may stand in a prefix.
pub fn is_valid_prefix(prefix: &[u8]) -> (r: bool)
    ensures
        r == spec_all_non_white(prefix@),
{
    all_non_white(prefix)
}

/// True when every byte of `command` is ASCII.
pub fn is_valid_command(command: &[u8]) -> (r: bool)
    ensures
        r == forall|i: int| 0 <= i < command@.len() ==> #[trigger] command@[i] < 0x80,
{
    let mut i: usize = 0;
    while i < command.len()
        invariant
            0 <= i <= command.len(),
            forall|j: int| 0 <= j < i ==> #[trigger] command@[j] < 0x80,
        decreases command.len() - i,
    {
        if 0x80 <= command[i] {
            return false;
        }
        i = i + 1;
    }
    true
}

} // verus!
