//! Conversions between bytes and text, and the facts about UTF-8 that the
//! rest of the library relies on.

use vstd::prelude::*;
use vstd::utf8::*;
use vstd::string::*;

verus! {

/// The error of `std::str::from_utf8`, carried through as it is.
#[verifier::external_type_specification]
#[verifier::external_body]
pub struct ExUtf8Error(std::str::Utf8Error);

/// `std::str::from_utf8`: the bytes viewed as a `str` when they are valid
/// UTF-8.  The contract states what the standard library documents: success
/// exactly on valid UTF-8, and the `str` holds the same bytes.  Nothing is
/// said of the error value.
#[verifier::external_body]
pub fn str_from_utf8(bytes: &[u8]) -> (r: Result<&str, std::str::Utf8Error>)
    ensures
        r is Ok <==> valid_utf8(bytes@),
        r matches Ok(s) ==> s.spec_bytes() == bytes@,
{
    std::str::from_utf8(bytes)
}

/// `String::from_utf8`: an owned string when the bytes are valid UTF-8, as
/// the standard library documents it.
#[verifier::external_body]
pub fn string_from_utf8(bytes: Vec<u8>) -> (r: Option<String>)
    ensures
        r is Some <==> valid_utf8(bytes@),
        r matches Some(s) ==> s@ == decode_utf8(bytes@),
{
    String::from_utf8(bytes).ok()
}

/// The characters of a valid UTF-8 byte sequence.
pub open spec fn text_of(bytes: Seq<u8>) -> Seq<char> {
    decode_utf8(bytes)
}

/// Copies a byte slice into a vector.
pub fn bytes_to_vec(b: &[u8]) -> (r: Vec<u8>)
    ensures
        r@ == b@,
{
    let mut v: Vec<u8> = Vec::with_capacity(b.len());
    let mut i: usize = 0;
    while i < b.len()
        invariant
            0 <= i <= b.len(),
            v@ == b@.take(i as int),
        decreases b.len() - i,
    {
        v.push(b[i]);
        i = i + 1;
        proof {
            assert(v@ =~= b@.take(i as int));
        }
    }
    proof {
        assert(v@ =~= b@);
    }
    v
}

/// Appends the bytes of `b` to `v`.
pub fn push_bytes(v: &mut Vec<u8>, b: &[u8])
    ensures
        final(v)@ == old(v)@ + b@,
{
    let ghost start = v@;
    let mut i: usize = 0;
    while i < b.len()
        invariant
            0 <= i <= b.len(),
            v@ == start + b@.take(i as int),
        decreases b.len() - i,
    {
        v.push(b[i]);
        i = i + 1;
        proof {
            assert(v@ =~= start + b@.take(i as int));
        }
    }
    proof {
        assert(b@.take(b@.len() as int) =~= b@);
    }
}

/// The UTF-8 bytes of a `str`.
pub fn str_bytes(s: &str) -> (r: &[u8])
    ensures
        r@ == s.spec_bytes(),
        valid_utf8(r@),
{
    proof {
        encode_utf8_valid_utf8(s@);
    }
    s.as_bytes()
}

/// The UTF-8 bytes of a `String`.
pub fn string_bytes(s: &String) -> (r: &[u8])
    ensures
        r@ == encode_utf8(s@),
        valid_utf8(r@),
{
    let t: &str = s.as_str();
    str_bytes(t)
}

/// A `str` viewed through valid UTF-8 bytes.
pub fn as_text(bytes: &[u8]) -> (r: &str)
    requires
        valid_utf8(bytes@),
    ensures
        r.spec_bytes() == bytes@,
        r@ == decode_utf8(bytes@),
{
    let r = str_from_utf8(bytes).unwrap();
    proof {
        encode_utf8_decode_utf8(r@);
    }
    r
}

/// An owned `String` made from valid UTF-8 bytes.
pub fn into_text(bytes: Vec<u8>) -> (r: String)
    requires
        valid_utf8(bytes@),
    ensures
        r@ == decode_utf8(bytes@),
{
    string_from_utf8(bytes).unwrap()
}

/// An owned `String` holding the text of `s`.
pub fn str_to_string(s: &str) -> (r: String)
    ensures
        r@ == s@,
{
    s.to_owned()
}

/// Encoding the decoded characters of valid bytes gives the bytes back.
pub proof fn lemma_decode_encode(bytes: Seq<u8>)
    requires
        valid_utf8(bytes),
    ensures
        encode_utf8(decode_utf8(bytes)) == bytes,
{
    decode_utf8_encode_utf8(bytes);
}

/// A byte map that sends ASCII bytes to ASCII bytes and leaves every other
/// byte alone.
pub open spec fn ascii_only_map(f: spec_fn(u8) -> u8) -> bool {
    forall|b: u8| #[trigger] f(b) == b || (b < 0x80 && f(b) < 0x80)
}

/// Rewriting ASCII bytes as ASCII bytes keeps a sequence valid UTF-8.
pub proof fn lemma_ascii_map_keeps_utf8(bytes: Seq<u8>, f: spec_fn(u8) -> u8)
    requires
        valid_utf8(bytes),
        ascii_only_map(f),
    ensures
        valid_utf8(bytes.map_values(f)),
    decreases bytes.len(),
{
    let m = bytes.map_values(f);
    if bytes.len() > 0 {
        let b0 = bytes[0];
        assert(m[0] == f(b0));
        if b0 < 0x80 {
            assert(f(b0) < 0x80);
            assert(valid_first_scalar(m));
            assert(length_of_first_scalar(m) == 1);
            assert(length_of_first_scalar(bytes) == 1);
            assert(pop_first_scalar(m) =~= pop_first_scalar(bytes).map_values(f));
        } else {
            assert(f(b0) == b0);
            let n = length_of_first_scalar(bytes);
            assert forall|i: int| 0 <= i < n && i < bytes.len() implies m[i] == bytes[i] by {
                assert(bytes[i] >= 0x80);
                assert(f(bytes[i]) == bytes[i] || bytes[i] < 0x80);
            }
            if n >= 2 {
                assert(m[1] == bytes[1]);
            }
            if n >= 3 {
                assert(m[2] == bytes[2]);
            }
            if n >= 4 {
                assert(m[3] == bytes[3]);
            }
            assert(valid_first_scalar(m));
            assert(length_of_first_scalar(m) == n);
            assert(pop_first_scalar(m) =~= pop_first_scalar(bytes).map_values(f));
        }
        lemma_ascii_map_keeps_utf8(pop_first_scalar(bytes), f);
    }
}

} // verus!

verus! {

/// In valid UTF-8, an ASCII byte is a character by itself: there is a
/// character boundary right before it and right after it.
pub proof fn lemma_ascii_boundaries(bytes: Seq<u8>, i: int)
    requires
        valid_utf8(bytes),
        0 <= i < bytes.len(),
        bytes[i] < 0x80,
    ensures
        is_char_boundary(bytes, i),
        is_char_boundary(bytes, i + 1),
    decreases bytes.len(),
{
    let n = length_of_first_scalar(bytes);
    let rest = pop_first_scalar(bytes);
    assert(valid_first_scalar(bytes));
    if i == 0 {
        assert(n == 1);
        assert(is_char_boundary(rest, 0));
    } else {
        if i < n {
            assert(bytes[i] >= 0x80);
        }
        assert(rest.len() == bytes.len() - n);
        assert(rest[i - n] == bytes[i]);
        lemma_ascii_boundaries(rest, i - n);
    }
}

/// Both ends of valid UTF-8 are character boundaries.
pub proof fn lemma_ends_are_boundaries(bytes: Seq<u8>)
    requires
        valid_utf8(bytes),
    ensures
        is_char_boundary(bytes, 0),
        is_char_boundary(bytes, bytes.len() as int),
{
    is_char_boundary_start_end_of_seq(bytes);
}

/// Joining valid UTF-8 pieces gives valid UTF-8.
pub proof fn lemma_concat_utf8(a: Seq<u8>, b: Seq<u8>)
    requires
        valid_utf8(a),
        valid_utf8(b),
    ensures
        valid_utf8(a + b),
{
    valid_utf8_concat(a, b);
}

/// A single ASCII byte is valid UTF-8.
pub proof fn lemma_ascii_byte_utf8(b: u8)
    requires
        b < 0x80,
    ensures
        valid_utf8(seq![b]),
{
    let s = seq![b];
    assert(valid_first_scalar(s));
    assert(pop_first_scalar(s) =~= Seq::<u8>::empty());
    reveal_with_fuel(valid_utf8, 2);
}

/// A cut at character boundaries of valid UTF-8 is valid UTF-8.
pub proof fn lemma_boundary_slice_utf8(bytes: Seq<u8>, from: int, to: int)
    requires
        valid_utf8(bytes),
        0 <= from <= to <= bytes.len(),
        is_char_boundary(bytes, from),
        is_char_boundary(bytes, to),
    ensures
        valid_utf8(bytes.subrange(from, to)),
{
    valid_utf8_split(bytes, to);
    let head = bytes.subrange(0, to);
    assert(is_char_boundary(head, from)) by {
        if from < to {
            is_char_boundary_iff_not_is_continuation_byte(bytes, from);
            is_char_boundary_iff_not_is_continuation_byte(head, from);
        } else {
            is_char_boundary_start_end_of_seq(head);
        }
    }
    valid_utf8_split(head, from);
    assert(head.subrange(from, head.len() as int) =~= bytes.subrange(from, to));
}

} // verus!

verus! {

/// Byte-for-byte equality.
pub fn bytes_equal(a: &[u8], b: &[u8]) -> (r: bool)
    ensures
        r == (a@ == b@),
{
    if a.len() != b.len() {
        return false;
    }
    let mut i: usize = 0;
    while i < a.len()
        invariant
            0 <= i <= a.len(),
            a.len() == b.len(),
            forall|j: int| 0 <= j < i ==> a@[j] == b@[j],
        decreases a.len() - i,
    {
        if a[i] != b[i] {
            return false;
        }
        i = i + 1;
    }
    proof {
        assert(a@ =~= b@);
    }
    true
}

} // verus!

verus! {

/// What `String::from_utf8_lossy` makes of some bytes: the text with every
/// invalid sequence replaced.  The replacement rules take pages to state;
/// this name stands for their result.
pub uninterp spec fn utf8_lossy(bytes: Seq<u8>) -> Seq<char>;

/// `String::from_utf8_lossy`, made owned.  Its result is named
/// `utf8_lossy`; the documentation also says that valid UTF-8 comes back
/// unchanged, which is stated.
#[verifier::external_body]
pub fn string_from_utf8_lossy(bytes: &[u8]) -> (r: String)
    ensures
        r@ == utf8_lossy(bytes@),
        valid_utf8(bytes@) ==> r@ == decode_utf8(bytes@),
{
    String::from_utf8_lossy(bytes).into_owned()
}

} // verus!
