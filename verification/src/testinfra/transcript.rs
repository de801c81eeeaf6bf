//! Lines of a recorded session: `>> ` a message from the server, `<< ` an
//! expected line, `## ` a comment.

use vstd::prelude::*;
use vstd::string::*;
use vstd::utf8::*;
use vstd::slice::slice_subrange;
use crate::parse::parse::{IrcMsg, spec_new_msg};
use crate::parse::model::{IrcMsgView, parse_faults};
use crate::text::{str_bytes, string_bytes, bytes_equal, bytes_to_vec, into_text, lemma_ascii_boundaries, lemma_ends_are_boundaries, lemma_boundary_slice_utf8, lemma_decode_encode};

verus! {

/// A line of a recorded session.
#[derive(Debug)]
pub enum SessionRecord {
    Content(IrcMsg),
    Expectation(String),
    Comment(String),
    Unknown(String),
}

/// A line without the CR and LF bytes at its end.
pub open spec fn trim_line_end(s: Seq<u8>) -> Seq<u8>
    decreases s.len(),
{
    if s.len() > 0 && (s.last() == 0x0d || s.last() == 0x0a) {
        trim_line_end(s.drop_last())
    } else {
        s
    }
}

/// `>> `
pub open spec fn content_mark() -> Seq<u8> {
    seq![0x3eu8, 0x3e, 0x20]
}

/// `<< `
pub open spec fn expect_mark() -> Seq<u8> {
    seq![0x3cu8, 0x3c, 0x20]
}

/// `## `
pub open spec fn comment_mark() -> Seq<u8> {
    seq![0x23u8, 0x23, 0x20]
}

/// Reading the line faults: it has no known mark, or a message line does
/// not parse.
pub open spec fn decode_faults(line: Seq<u8>) -> bool {
    let t = trim_line_end(line);
    ||| t.len() < 3
    ||| (t.take(3) != content_mark() && t.take(3) != expect_mark() && t.take(3) != comment_mark())
    ||| (t.take(3) == content_mark() && (t.len() - 3 >= u32::MAX || parse_faults(t.skip(3))
        || spec_new_msg(t.skip(3)) is Err))
}

proof fn lemma_trim_prefix(s: Seq<u8>)
    ensures
        trim_line_end(s).len() <= s.len(),
        trim_line_end(s) == s.take(trim_line_end(s).len() as int),
    decreases s.len(),
{
    if s.len() > 0 && (s.last() == 0x0d || s.last() == 0x0a) {
        lemma_trim_prefix(s.drop_last());
        assert(s.drop_last().take(trim_line_end(s).len() as int) =~= s.take(trim_line_end(s).len() as int));
    } else {
        assert(s.take(s.len() as int) =~= s);
    }
}

/// The line without its trailing line feeds and carriage returns.
fn trim_end(bytes: &[u8]) -> (r: &[u8])
    ensures
        r@ == trim_line_end(bytes@),
{
    let ghost s = bytes@;
    let mut end: usize = bytes.len();
    proof {
        assert(s.take(s.len() as int) =~= s);
    }
    while end > 0 && (bytes[end - 1] == 0x0d || bytes[end - 1] == 0x0a)
        invariant
            0 <= end <= s.len(),
            bytes@ == s,
            trim_line_end(s.take(end as int)) == trim_line_end(s),
        decreases end,
    {
        proof {
            assert(s.take(end as int).drop_last() =~= s.take(end - 1));
        }
        end = end - 1;
    }
    proof {
        assert(trim_line_end(s.take(end as int)) == s.take(end as int));
    }
    let r = slice_subrange(bytes, 0, end);
    proof {
        assert(r@ =~= s.take(end as int));
    }
    r
}

/// Whether reading the line faults; `decode_line2` must not be given such
/// a line.
pub fn decode_would_fault(line: &String) -> (r: bool)
    ensures
        r == decode_faults(encode_utf8(line@)),
{
    let t = trim_end(string_bytes(line));
    if t.len() < 3 {
        return true;
    }
    let mark = slice_subrange(t, 0, 3);
    let rest = slice_subrange(t, 3, t.len());
    let content = [0x3eu8, 0x3e, 0x20];
    let expect = [0x3cu8, 0x3c, 0x20];
    let comment = [0x23u8, 0x23, 0x20];
    proof {
        assert(mark@ =~= t@.take(3));
        assert(rest@ =~= t@.skip(3));
        assert(content@ =~= content_mark());
        assert(expect@ =~= expect_mark());
        assert(comment@ =~= comment_mark());
    }
    if bytes_equal(mark, &content) {
        if rest.len() >= u32::MAX as usize {
            return true;
        }
        let owned = bytes_to_vec(rest);
        if IrcMsg::would_fault(&owned) {
            return true;
        }
        return IrcMsg::new(owned).is_err();
    }
    !(bytes_equal(mark, &expect) || bytes_equal(mark, &comment))
}

/// Reads a line of a recorded session.
pub fn decode_line2(line: String) -> (r: SessionRecord)
    requires
        !decode_faults(encode_utf8(line@)),
    ensures
        ({
            let t = trim_line_end(encode_utf8(line@));
            match r {
                SessionRecord::Content(m) => t.take(3) == content_mark() && spec_new_msg(t.skip(3)) == Ok::<
                    IrcMsgView,
                    crate::parse::parse::ParseError,
                >(m@),
                SessionRecord::Expectation(e) => t.take(3) == expect_mark() && encode_utf8(e@) == t.skip(3),
                SessionRecord::Comment(c) => t.take(3) == comment_mark() && encode_utf8(c@) == t.skip(3),
                SessionRecord::Unknown(_) => false,
            }
        }),
{
    let bytes = string_bytes(&line);
    let ghost s = bytes@;
    let mut end: usize = bytes.len();
    proof {
        assert(s.take(s.len() as int) =~= s);
    }
    while end > 0 && (bytes[end - 1] == 0x0d || bytes[end - 1] == 0x0a)
        invariant
            0 <= end <= s.len(),
            bytes@ == s,
            trim_line_end(s.take(end as int)) == trim_line_end(s),
        decreases end,
    {
        proof {
            assert(s.take(end as int).drop_last() =~= s.take(end - 1));
        }
        end = end - 1;
    }
    proof {
        assert(trim_line_end(s.take(end as int)) == s.take(end as int));
        lemma_trim_prefix(s);
        encode_utf8_valid_utf8(line@);
    }
    let slice = slice_subrange(bytes, 0, end);
    let mark = slice_subrange(slice, 0, 3);
    let rest = slice_subrange(slice, 3, slice.len());
    proof {
        assert(slice@ =~= trim_line_end(s));
        assert(mark@ =~= slice@.take(3));
        assert(rest@ =~= slice@.skip(3));
    }
    let content = [0x3eu8, 0x3e, 0x20];
    let expect = [0x3cu8, 0x3c, 0x20];
    let comment = [0x23u8, 0x23, 0x20];
    proof {
        assert(content@ =~= content_mark());
        assert(expect@ =~= expect_mark());
        assert(comment@ =~= comment_mark());
    }
    if bytes_equal(mark, &content) {
        match IrcMsg::new(bytes_to_vec(rest)) {
            Ok(irc_msg) => SessionRecord::Content(irc_msg),
            Err(_) => {
                proof {
                    assert(false);
                }
                SessionRecord::Unknown(line)
            },
        }
    } else {
        proof {
            lemma_ascii_boundaries(s, 2);
            lemma_ends_are_boundaries(s);
            if end < s.len() {
                assert(s[end as int] == 0x0d || s[end as int] == 0x0a) by {
                    assert(trim_line_end(s) == s.take(end as int));
                    lemma_trim_stops(s, end as int);
                }
                lemma_ascii_boundaries(s, end as int);
            }
            lemma_boundary_slice_utf8(s, 3, end as int);
            assert(s.subrange(3, end as int) =~= rest@);
            lemma_decode_encode(rest@);
        }
        let text = into_text(bytes_to_vec(rest));
        if bytes_equal(mark, &expect) {
            SessionRecord::Expectation(text)
        } else {
            SessionRecord::Comment(text)
        }
    }
}

/// Where the trimmed line ends, the next byte is a CR or LF.
proof fn lemma_trim_stops(s: Seq<u8>, end: int)
    requires
        0 <= end < s.len(),
        trim_line_end(s) == s.take(end),
    ensures
        s[end] == 0x0d || s[end] == 0x0a,
    decreases s.len(),
{
    lemma_trim_prefix(s);
    if s.len() > 0 && (s.last() == 0x0d || s.last() == 0x0a) {
        if end < s.len() - 1 {
            lemma_trim_prefix(s.drop_last());
            assert(trim_line_end(s.drop_last()) == s.drop_last().take(end));
            lemma_trim_stops(s.drop_last(), end);
        }
    } else {
        assert(trim_line_end(s) == s);
    }
}

/// The record is a comment with the text `target`.
pub fn marker_match(rec: &SessionRecord, target: &str) -> (r: bool)
    ensures
        r == (rec matches SessionRecord::Comment(c) && encode_utf8(c@) == target.spec_bytes()),
{
    match rec {
        SessionRecord::Comment(comm) => bytes_equal(string_bytes(comm), str_bytes(target)),
        _ => false,
    }
}

} // verus!
