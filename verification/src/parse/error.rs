//! Why a line could not be read as a message.

use vstd::prelude::*;
use vstd::string::*;
use vstd::utf8::*;
use crate::text::{bytes_to_vec, into_text, push_bytes, lemma_decode_encode, str_bytes};
use crate::parse::compose::{vec_from_array, lemma_ascii_utf8, is_ascii_bytes};

verus! {

#[derive(Clone, Copy, Debug, PartialEq, Eq, Structural)]
pub enum ParseErrorKind {
    EncodingError,
    Truncated,
    TooManyArguments,
    UnexpectedByte,
}

/// A refused line: the kind of fault, the line, and a text for people.
#[derive(Clone, Debug, PartialEq, Eq)]
pub struct ParseError {
    pub kind: ParseErrorKind,
    pub message: Vec<u8>,
    pub error_msg: String,
}

/// The decimal digits of a byte value.
pub open spec fn decimal_of(b: u8) -> Seq<u8> {
    if b >= 100 {
        seq![(0x30 + b / 100) as u8, (0x30 + (b / 10) % 10) as u8, (0x30 + b % 10) as u8]
    } else if b >= 10 {
        seq![(0x30 + b / 10) as u8, (0x30 + b % 10) as u8]
    } else {
        seq![(0x30 + b) as u8]
    }
}

/// "Unexpected byte `"
pub open spec fn unexpected_head() -> Seq<u8> {
    seq![0x55u8, 0x6e, 0x65, 0x78, 0x70, 0x65, 0x63, 0x74, 0x65, 0x64, 0x20, 0x62, 0x79, 0x74, 0x65, 0x20, 0x60]
}

/// "' in "
pub open spec fn unexpected_mid() -> Seq<u8> {
    seq![0x27u8, 0x20, 0x69, 0x6e, 0x20]
}

/// The text of an unexpected byte in a phase of the line.
pub open spec fn unexpected_text(b: u8, phase: Seq<u8>) -> Seq<u8> {
    unexpected_head() + decimal_of(b) + unexpected_mid() + phase
}

pub fn decimal_bytes(b: u8) -> (r: Vec<u8>)
    ensures
        r@ == decimal_of(b),
        is_ascii_bytes(r@),
{
    let mut v: Vec<u8> = Vec::new();
    if b >= 100 {
        v.push(0x30 + b / 100);
        v.push(0x30 + (b / 10) % 10);
        v.push(0x30 + b % 10);
    } else if b >= 10 {
        v.push(0x30 + b / 10);
        v.push(0x30 + b % 10);
    } else {
        v.push(0x30 + b);
    }
    proof {
        assert(v@ =~= decimal_of(b));
    }
    v
}

/// The short text for a kind of error.
pub open spec fn kind_description(k: ParseErrorKind) -> Seq<char> {
    match k {
        ParseErrorKind::EncodingError => "encoding error"@,
        ParseErrorKind::Truncated => "truncated message"@,
        ParseErrorKind::TooManyArguments => "too many arguments"@,
        ParseErrorKind::UnexpectedByte => "unexpected byte"@,
    }
}

impl ParseError {
    pub fn new(ekind: ParseErrorKind, msg: Vec<u8>) -> (r: ParseError)
        ensures
            r.kind == ekind,
            r.message@ == msg@,
            r.error_msg@ == Seq::<char>::empty(),
    {
        ParseError { kind: ekind, message: msg, error_msg: String::new() }
    }

    /// An unexpected byte in a phase of the line, such as the prefix.
    pub fn unexpected_byte(byte: u8, phase: &[u8]) -> (r: ParseError)
        requires
            valid_utf8(phase@),
        ensures
            r.kind == ParseErrorKind::UnexpectedByte,
            r.message@ == Seq::<u8>::empty(),
            encode_utf8(r.error_msg@) == unexpected_text(byte, phase@),
    {
        let mut text = vec_from_array([0x55u8, 0x6e, 0x65, 0x78, 0x70, 0x65, 0x63, 0x74, 0x65, 0x64, 0x20, 0x62, 0x79, 0x74, 0x65, 0x20, 0x60]);
        let digits = decimal_bytes(byte);
        push_bytes(&mut text, digits.as_slice());
        let mid = vec_from_array([0x27u8, 0x20, 0x69, 0x6e, 0x20]);
        push_bytes(&mut text, mid.as_slice());
        let ghost head = text@;
        push_bytes(&mut text, phase);
        proof {
            lemma_ascii_utf8(head);
            crate::text::lemma_concat_utf8(head, phase@);
            assert(text@ =~= unexpected_text(byte, phase@));
            lemma_decode_encode(text@);
        }
        ParseError { kind: ParseErrorKind::UnexpectedByte, message: Vec::new(), error_msg: into_text(text) }
    }

    /// The same error about another line.
    pub fn replace_message(&self, buf: &[u8]) -> (r: ParseError)
        ensures
            r.kind == self.kind,
            r.message@ == buf@,
            r.error_msg@ == self.error_msg@,
    {
        ParseError { kind: self.kind, message: bytes_to_vec(buf), error_msg: self.error_msg.clone() }
    }

    /// A short text: the recorded one, or one for the kind.
    pub fn description(&self) -> (r: &str)
        ensures
            self.error_msg@.len() > 0 ==> r@ == self.error_msg@,
            self.error_msg@.len() == 0 ==> r@ == kind_description(self.kind),
    {
        if self.error_msg.as_str().is_empty() == false {
            return self.error_msg.as_str();
        }
        match self.kind {
            ParseErrorKind::EncodingError => "encoding error",
            ParseErrorKind::Truncated => "truncated message",
            ParseErrorKind::TooManyArguments => "too many arguments",
            ParseErrorKind::UnexpectedByte => "unexpected byte",
        }
    }
}

} // verus!

verus! {

/// The name of a kind of error, as it is written out.
pub open spec fn kind_name(k: ParseErrorKind) -> Seq<u8> {
    match k {
        ParseErrorKind::EncodingError => seq![0x45u8, 0x6e, 0x63, 0x6f, 0x64, 0x69, 0x6e, 0x67, 0x45, 0x72, 0x72, 0x6f, 0x72],
        ParseErrorKind::Truncated => seq![0x54u8, 0x72, 0x75, 0x6e, 0x63, 0x61, 0x74, 0x65, 0x64],
        ParseErrorKind::TooManyArguments => seq![0x54u8, 0x6f, 0x6f, 0x4d, 0x61, 0x6e, 0x79, 0x41, 0x72, 0x67, 0x75, 0x6d, 0x65, 0x6e, 0x74, 0x73],
        ParseErrorKind::UnexpectedByte => seq![0x55u8, 0x6e, 0x65, 0x78, 0x70, 0x65, 0x63, 0x74, 0x65, 0x64, 0x42, 0x79, 0x74, 0x65],
    }
}

/// The decimal values of the bytes, parted by a comma and a space.
pub open spec fn byte_items(m: Seq<u8>) -> Seq<u8>
    decreases m.len(),
{
    if m.len() == 0 {
        Seq::empty()
    } else if m.len() == 1 {
        decimal_of(m[0])
    } else {
        byte_items(m.drop_last()) + seq![0x2cu8, 0x20] + decimal_of(m.last())
    }
}

/// How an error is written out: `ParseError(Kind): text for [1, 2]`, the
/// text and its colon left out when there is none.
pub open spec fn error_shown(kind: ParseErrorKind, text: Seq<u8>, message: Seq<u8>) -> Seq<u8> {
    seq![0x50u8, 0x61, 0x72, 0x73, 0x65, 0x45, 0x72, 0x72, 0x6f, 0x72, 0x28] + kind_name(kind) + seq![0x29u8] + (if text.len() > 0 {
        seq![0x3au8, 0x20] + text
    } else {
        Seq::empty()
    }) + seq![0x20u8, 0x66, 0x6f, 0x72, 0x20, 0x5b] + byte_items(message) + seq![0x5du8]
}

proof fn lemma_byte_items_ascii(m: Seq<u8>)
    ensures
        is_ascii_bytes(byte_items(m)),
    decreases m.len(),
{
    if m.len() > 1 {
        lemma_byte_items_ascii(m.drop_last());
    }
}

fn kind_name_bytes(k: ParseErrorKind) -> (r: Vec<u8>)
    ensures
        r@ == kind_name(k),
{
    match k {
        ParseErrorKind::EncodingError => vec_from_array([0x45u8, 0x6e, 0x63, 0x6f, 0x64, 0x69, 0x6e, 0x67, 0x45, 0x72, 0x72, 0x6f, 0x72]),
        ParseErrorKind::Truncated => vec_from_array([0x54u8, 0x72, 0x75, 0x6e, 0x63, 0x61, 0x74, 0x65, 0x64]),
        ParseErrorKind::TooManyArguments => vec_from_array([0x54u8, 0x6f, 0x6f, 0x4d, 0x61, 0x6e, 0x79, 0x41, 0x72, 0x67, 0x75, 0x6d, 0x65, 0x6e, 0x74, 0x73]),
        ParseErrorKind::UnexpectedByte => vec_from_array([0x55u8, 0x6e, 0x65, 0x78, 0x70, 0x65, 0x63, 0x74, 0x65, 0x64, 0x42, 0x79, 0x74, 0x65]),
    }
}

impl ParseError {
    /// The error as text, as it is shown in logs.
    pub fn to_string(&self) -> (r: String)
        ensures
            encode_utf8(r@) == error_shown(self.kind, encode_utf8(self.error_msg@), self.message@),
    {
        let mut out: Vec<u8> = vec_from_array([0x50u8, 0x61, 0x72, 0x73, 0x65, 0x45, 0x72, 0x72, 0x6f, 0x72, 0x28]);
        push_bytes(&mut out, kind_name_bytes(self.kind).as_slice());
        push_bytes(&mut out, vec_from_array([0x29u8]).as_slice());
        let text = str_bytes(self.error_msg.as_str());
        let ghost head = out@;
        if text.len() > 0 {
            push_bytes(&mut out, vec_from_array([0x3au8, 0x20]).as_slice());
            push_bytes(&mut out, text);
        }
        let ghost mid = out@;
        push_bytes(&mut out, vec_from_array([0x20u8, 0x66, 0x6f, 0x72, 0x20, 0x5b]).as_slice());
        let ghost start = out@;
        let mut i: usize = 0;
        while i < self.message.len()
            invariant
                0 <= i <= self.message@.len(),
                out@ == start + byte_items(self.message@.take(i as int)),
            decreases self.message.len() - i,
        {
            proof {
                assert(self.message@.take(i + 1).drop_last() =~= self.message@.take(i as int));
                assert(self.message@.take(i + 1).last() == self.message@[i as int]);
            }
            if i > 0 {
                push_bytes(&mut out, vec_from_array([0x2cu8, 0x20]).as_slice());
            }
            push_bytes(&mut out, decimal_bytes(self.message[i]).as_slice());
            i = i + 1;
            proof {
                if i == 1 {
                    assert(self.message@.take(1) =~= seq![self.message@[0]]);
                    assert(self.message@.take(0) =~= Seq::<u8>::empty());
                }
                assert(out@ =~= start + byte_items(self.message@.take(i as int)));
            }
        }
        push_bytes(&mut out, vec_from_array([0x5du8]).as_slice());
        proof {
            assert(self.message@.take(i as int) =~= self.message@);
            assert(out@ =~= error_shown(self.kind, encode_utf8(self.error_msg@), self.message@));
            lemma_byte_items_ascii(self.message@);
            assert(is_ascii_bytes(head));
            lemma_ascii_utf8(head);
            let tail = seq![0x20u8, 0x66, 0x6f, 0x72, 0x20, 0x5b] + byte_items(self.message@) + seq![0x5du8];
            assert(is_ascii_bytes(tail));
            lemma_ascii_utf8(tail);
            if text.len() > 0 {
                lemma_ascii_utf8(seq![0x3au8, 0x20]);
                crate::text::lemma_concat_utf8(head, seq![0x3au8, 0x20]);
                crate::text::lemma_concat_utf8(head + seq![0x3au8, 0x20], text@);
                assert(mid =~= head + seq![0x3au8, 0x20] + text@);
            } else {
                assert(mid =~= head);
            }
            crate::text::lemma_concat_utf8(mid, tail);
            assert(out@ =~= mid + tail);
            lemma_decode_encode(out@);
        }
        into_text(out)
    }
}

} // verus!
