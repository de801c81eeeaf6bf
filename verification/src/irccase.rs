//! IRC case mapping: which bytes count as the same letter in nicknames and
//! channel names.

use vstd::prelude::*;
use vstd::utf8::*;
use vstd::string::*;
use crate::text::{ascii_only_map, lemma_ascii_map_keeps_utf8, str_bytes, into_text, lemma_decode_encode};

verus! {

/// Plain ASCII lower case: only `A`..`Z` are mapped.
pub open spec fn ascii_lower(b: u8) -> u8 {
    if 0x41 <= b <= 0x5a {
        (b + 0x20) as u8
    } else {
        b
    }
}

/// RFC 1459 lower case: `A`..`Z`, and `[]\~` as the upper case of `{}|^`...
/// more precisely `[`, `\`, `]`, `^` map to `{`, `|`, `}`, `~`.
pub open spec fn rfc1459_lower(b: u8) -> u8 {
    if 0x41 <= b <= 0x5e {
        (b + 0x20) as u8
    } else {
        b
    }
}

/// Strict RFC 1459 lower case: `A`..`Z` and `[`, `\`, `]`; `^` is left alone.
pub open spec fn strict_rfc1459_lower(b: u8) -> u8 {
    if 0x41 <= b <= 0x5d {
        (b + 0x20) as u8
    } else {
        b
    }
}

/// Each byte of `s` mapped through `f`.
pub open spec fn lower_with(s: Seq<u8>, f: spec_fn(u8) -> u8) -> Seq<u8> {
    s.map_values(f)
}

/// Two byte strings are equal under the case map `f`.
pub open spec fn eq_under(a: Seq<u8>, b: Seq<u8>, f: spec_fn(u8) -> u8) -> bool {
    a.len() == b.len() && forall|i: int| 0 <= i < a.len() ==> f(#[trigger] a[i]) == f(b[i])
}

/// Two byte strings are equal under a case map exactly when their
/// lower-case copies are equal.
pub proof fn lemma_eq_under_is_lower_eq(a: Seq<u8>, b: Seq<u8>, f: spec_fn(u8) -> u8)
    ensures
        eq_under(a, b, f) == (lower_with(a, f) == lower_with(b, f)),
{
    let la = lower_with(a, f);
    let lb = lower_with(b, f);
    assert(la.len() == a.len() && lb.len() == b.len());
    if la == lb {
        assert forall|i: int| 0 <= i < a.len() implies f(#[trigger] a[i]) == f(b[i]) by {
            assert(la[i] == f(a[i]));
            assert(lb[i] == f(b[i]));
        }
    }
    if eq_under(a, b, f) {
        assert forall|i: int| 0 <= i < la.len() implies la[i] == lb[i] by {
            assert(la[i] == f(a[i]));
            assert(lb[i] == f(b[i]));
        }
        assert(la =~= lb);
    }
}

pub fn rfc1459_lower_byte(b: u8) -> (r: u8)
    ensures
        r == rfc1459_lower(b),
{
    if 0x41 <= b && b <= 0x5e {
        b + 0x20
    } else {
        b
    }
}

/// The RFC 1459 lower-case copy of a byte string.
pub fn bytes_to_irc_lower(s: &[u8]) -> (r: Vec<u8>)
    ensures
        r@ == lower_with(s@, |b: u8| rfc1459_lower(b)),
{
    let mut out: Vec<u8> = Vec::with_capacity(s.len());
    let mut i: usize = 0;
    while i < s.len()
        invariant
            0 <= i <= s.len(),
            out@ == lower_with(s@.take(i as int), |b: u8| rfc1459_lower(b)),
        decreases s.len() - i,
    {
        out.push(rfc1459_lower_byte(s[i]));
        i = i + 1;
        proof {
            assert(out@ =~= lower_with(s@.take(i as int), |b: u8| rfc1459_lower(b)));
        }
    }
    proof {
        assert(s@.take(s@.len() as int) =~= s@);
    }
    out
}

/// Compares two byte strings under RFC 1459 case mapping.
pub fn bytes_eq_ignore_irc_case(a: &[u8], b: &[u8]) -> (r: bool)
    ensures
        r == eq_under(a@, b@, |x: u8| rfc1459_lower(x)),
{
    if a.len() != b.len() {
        return false;
    }
    let mut i: usize = 0;
    while i < a.len()
        invariant
            0 <= i <= a.len(),
            a.len() == b.len(),
            forall|j: int| 0 <= j < i ==> rfc1459_lower(#[trigger] a@[j]) == rfc1459_lower(b@[j]),
        decreases a.len() - i,
    {
        if rfc1459_lower_byte(a[i]) != rfc1459_lower_byte(b[i]) {
            return false;
        }
        i = i + 1;
    }
    true
}

/// RFC 1459 lower casing only rewrites ASCII bytes as ASCII bytes.
pub proof fn lemma_rfc1459_ascii_only()
    ensures
        ascii_only_map(|b: u8| rfc1459_lower(b)),
{
}

/// Lower-casing a string keeps it valid UTF-8.
pub proof fn lemma_irc_lower_keeps_utf8(bytes: Seq<u8>)
    requires
        valid_utf8(bytes),
    ensures
        valid_utf8(lower_with(bytes, |b: u8| rfc1459_lower(b))),
{
    lemma_ascii_map_keeps_utf8(bytes, |b: u8| rfc1459_lower(b));
}

/// The RFC 1459 lower-case copy of a `str`.
pub fn str_to_irc_lower(s: &str) -> (r: String)
    ensures
        encode_utf8(r@) == lower_with(s.spec_bytes(), |b: u8| rfc1459_lower(b)),
{
    let bytes = str_bytes(s);
    let lowered = bytes_to_irc_lower(bytes);
    proof {
        lemma_irc_lower_keeps_utf8(bytes@);
    }
    let r = into_text(lowered);
    proof {
        lemma_decode_encode(lowered@);
    }
    r
}

/// Compares two `str` under RFC 1459 case mapping.
pub fn str_eq_ignore_irc_case(a: &str, b: &str) -> (r: bool)
    ensures
        r == eq_under(a.spec_bytes(), b.spec_bytes(), |x: u8| rfc1459_lower(x)),
{
    bytes_eq_ignore_irc_case(str_bytes(a), str_bytes(b))
}

/// IRC case operations on borrowed text.
pub trait IrcAsciiExt<T> {
    /// Makes a copy in IRC ASCII lower case: `A` to `Z` become `a` to `z`,
    /// and `[]\^` become `{}|~`; every other byte is unchanged.
    fn to_irc_lower(&self) -> T;

    /// Checks that two strings are an IRC case-insensitive match, without
    /// allocating.
    fn eq_ignore_irc_case(&self, other: &Self) -> bool;
}

/// IRC lower casing that consumes its input.
pub trait OwnedIrcAsciiExt: Sized {
    fn into_irc_lower(self) -> Self;
}

impl IrcAsciiExt<Vec<u8>> for [u8] {
    fn to_irc_lower(&self) -> (r: Vec<u8>)
        ensures
            r@ == lower_with(self@, |b: u8| rfc1459_lower(b)),
    {
        bytes_to_irc_lower(self)
    }

    fn eq_ignore_irc_case(&self, other: &[u8]) -> (r: bool)
        ensures
            r == eq_under(self@, other@, |x: u8| rfc1459_lower(x)),
    {
        bytes_eq_ignore_irc_case(self, other)
    }
}

impl IrcAsciiExt<String> for str {
    fn to_irc_lower(&self) -> (r: String)
        ensures
            encode_utf8(r@) == lower_with(self.spec_bytes(), |b: u8| rfc1459_lower(b)),
    {
        str_to_irc_lower(self)
    }

    fn eq_ignore_irc_case(&self, other: &str) -> (r: bool)
        ensures
            r == eq_under(self.spec_bytes(), other.spec_bytes(), |x: u8| rfc1459_lower(x)),
    {
        str_eq_ignore_irc_case(self, other)
    }
}

impl OwnedIrcAsciiExt for Vec<u8> {
    fn into_irc_lower(self) -> (r: Vec<u8>)
        ensures
            r@ == lower_with(self@, |b: u8| rfc1459_lower(b)),
    {
        let mut v = self;
        let ghost orig = v@;
        let mut i: usize = 0;
        while i < v.len()
            invariant
                0 <= i <= v.len(),
                v@.len() == orig.len(),
                forall|j: int| 0 <= j < i ==> v@[j] == rfc1459_lower(orig[j]),
                forall|j: int| i <= j < v@.len() ==> v@[j] == orig[j],
            decreases v.len() - i,
        {
            let lowered = rfc1459_lower_byte(v[i]);
            v.set(i, lowered);
            i = i + 1;
        }
        proof {
            assert(v@ =~= lower_with(orig, |b: u8| rfc1459_lower(b)));
        }
        v
    }
}

impl OwnedIrcAsciiExt for String {
    fn into_irc_lower(self) -> (r: String)
        ensures
            encode_utf8(r@) == lower_with(encode_utf8(self@), |b: u8| rfc1459_lower(b)),
    {
        str_to_irc_lower(self.as_str())
    }
}

/// A case mapping, as servers announce it with `CASEMAPPING`.
pub trait CaseMapping: Sized {
    /// The lower-case form of one byte under this mapping.
    spec fn spec_lower(b: u8) -> u8;

    fn lower_byte(&self, b: u8) -> (r: u8)
        ensures
            r == Self::spec_lower(b),
    ;

    /// The whole lower-case table: entry `i` is the lower case of byte `i`.
    fn get_lower_map(&self) -> (r: Vec<u8>)
        ensures
            r@.len() == 256,
            forall|i: int| 0 <= i < 256 ==> r@[i] == Self::spec_lower(i as u8),
    {
        let mut out: Vec<u8> = Vec::with_capacity(256);
        let mut i: usize = 0;
        while i < 256
            invariant
                0 <= i <= 256,
                out@.len() == i,
                forall|j: int| 0 <= j < i ==> out@[j] == Self::spec_lower(j as u8),
            decreases 256 - i,
        {
            let b: u8 = i as u8;
            out.push(self.lower_byte(b));
            i = i + 1;
        }
        out
    }

    /// The lower-case copy of `left` under this mapping.
    fn to_irc_lower(&self, left: &[u8]) -> (r: Vec<u8>)
        ensures
            r@ == lower_with(left@, |b: u8| Self::spec_lower(b)),
    {
        let mut out: Vec<u8> = Vec::with_capacity(left.len());
        let mut i: usize = 0;
        while i < left.len()
            invariant
                0 <= i <= left.len(),
                out@ == lower_with(left@.take(i as int), |b: u8| Self::spec_lower(b)),
            decreases left.len() - i,
        {
            out.push(self.lower_byte(left[i]));
            i = i + 1;
            proof {
                assert(out@ =~= lower_with(left@.take(i as int), |b: u8| Self::spec_lower(b)));
            }
        }
        proof {
            assert(left@.take(left@.len() as int) =~= left@);
        }
        out
    }

    /// Compares two byte strings under this mapping.
    fn eq_ignore_case(&self, left: &[u8], right: &[u8]) -> (r: bool)
        ensures
            r == eq_under(left@, right@, |b: u8| Self::spec_lower(b)),
    {
        if left.len() != right.len() {
            return false;
        }
        let mut i: usize = 0;
        while i < left.len()
            invariant
                0 <= i <= left.len(),
                left.len() == right.len(),
                forall|j: int|
                    0 <= j < i ==> Self::spec_lower(#[trigger] left@[j]) == Self::spec_lower(
                        right@[j],
                    ),
            decreases left.len() - i,
        {
            if self.lower_byte(left[i]) != self.lower_byte(right[i]) {
                return false;
            }
            i = i + 1;
        }
        true
    }
}

/// Case mapping that only folds `A`..`Z`.
#[derive(PartialEq, Eq, Debug, Structural)]
pub struct AsciiCaseMapping;

/// Case mapping of RFC 1459, where `[]\^` are the upper case of `{}|~`.
#[derive(PartialEq, Eq, Debug, Structural)]
pub struct Rfc1459CaseMapping;

/// Case mapping of strict RFC 1459, where `[]\` are the upper case of `{}|`.
#[derive(PartialEq, Eq, Debug, Structural)]
pub struct StrictRfc1459CaseMapping;

impl Default for AsciiCaseMapping {
    fn default() -> (r: AsciiCaseMapping)
        ensures
            r == AsciiCaseMapping,
    {
        AsciiCaseMapping
    }
}

impl Default for Rfc1459CaseMapping {
    fn default() -> (r: Rfc1459CaseMapping)
        ensures
            r == Rfc1459CaseMapping,
    {
        Rfc1459CaseMapping
    }
}

impl Default for StrictRfc1459CaseMapping {
    fn default() -> (r: StrictRfc1459CaseMapping)
        ensures
            r == StrictRfc1459CaseMapping,
    {
        StrictRfc1459CaseMapping
    }
}

impl CaseMapping for AsciiCaseMapping {
    open spec fn spec_lower(b: u8) -> u8 {
        ascii_lower(b)
    }

    fn lower_byte(&self, b: u8) -> (r: u8) {
        if 0x41 <= b && b <= 0x5a {
            b + 0x20
        } else {
            b
        }
    }
}

impl CaseMapping for Rfc1459CaseMapping {
    open spec fn spec_lower(b: u8) -> u8 {
        rfc1459_lower(b)
    }

    fn lower_byte(&self, b: u8) -> (r: u8) {
        rfc1459_lower_byte(b)
    }
}

impl CaseMapping for StrictRfc1459CaseMapping {
    open spec fn spec_lower(b: u8) -> u8 {
        strict_rfc1459_lower(b)
    }

    fn lower_byte(&self, b: u8) -> (r: u8) {
        if 0x41 <= b && b <= 0x5d {
            b + 0x20
        } else {
            b
        }
    }
}

/// Equality under a case mapping is an equivalence: reflexive, symmetric
/// and transitive.
pub proof fn lemma_eq_under_equivalence(
    a: Seq<u8>,
    b: Seq<u8>,
    c: Seq<u8>,
    f: spec_fn(u8) -> u8,
)
    ensures
        eq_under(a, a, f),
        eq_under(a, b, f) ==> eq_under(b, a, f),
        eq_under(a, b, f) && eq_under(b, c, f) ==> eq_under(a, c, f),
{
    if eq_under(a, b, f) && eq_under(b, c, f) {
        assert forall|i: int| 0 <= i < a.len() implies f(#[trigger] a[i]) == f(c[i]) by {
            assert(f(a[i]) == f(b[i]));
            assert(f(b[i]) == f(c[i]));
        }
    }
    if eq_under(a, b, f) {
        assert forall|i: int| 0 <= i < b.len() implies f(#[trigger] b[i]) == f(a[i]) by {
            assert(f(a[i]) == f(b[i]));
        }
    }
}

/// Two strings match case-insensitively exactly when their lower-case
/// copies are equal.
pub proof fn lemma_eq_under_iff_lower_equal(a: Seq<u8>, b: Seq<u8>, f: spec_fn(u8) -> u8)
    ensures
        eq_under(a, b, f) <==> lower_with(a, f) == lower_with(b, f),
{
    if lower_with(a, f) == lower_with(b, f) {
        assert(a.len() == lower_with(a, f).len());
        assert(b.len() == lower_with(b, f).len());
        assert forall|i: int| 0 <= i < a.len() implies f(#[trigger] a[i]) == f(b[i]) by {
            assert(lower_with(a, f)[i] == f(a[i]));
            assert(lower_with(b, f)[i] == f(b[i]));
        }
    }
    if eq_under(a, b, f) {
        assert(lower_with(a, f) =~= lower_with(b, f));
    }
}

/// Lower casing twice is lower casing once, for each of the three mappings.
pub proof fn lemma_lower_idempotent(s: Seq<u8>)
    ensures
        lower_with(lower_with(s, |b: u8| ascii_lower(b)), |b: u8| ascii_lower(b))
            == lower_with(s, |b: u8| ascii_lower(b)),
        lower_with(lower_with(s, |b: u8| rfc1459_lower(b)), |b: u8| rfc1459_lower(b))
            == lower_with(s, |b: u8| rfc1459_lower(b)),
        lower_with(lower_with(s, |b: u8| strict_rfc1459_lower(b)), |b: u8| strict_rfc1459_lower(b))
            == lower_with(s, |b: u8| strict_rfc1459_lower(b)),
{
    assert(lower_with(lower_with(s, |b: u8| ascii_lower(b)), |b: u8| ascii_lower(b))
        =~= lower_with(s, |b: u8| ascii_lower(b)));
    assert(lower_with(lower_with(s, |b: u8| rfc1459_lower(b)), |b: u8| rfc1459_lower(b))
        =~= lower_with(s, |b: u8| rfc1459_lower(b)));
    assert(lower_with(lower_with(s, |b: u8| strict_rfc1459_lower(b)), |b: u8| strict_rfc1459_lower(b))
        =~= lower_with(s, |b: u8| strict_rfc1459_lower(b)));
}

} // verus!

verus! {

/// The three case mappings: ASCII lowers `A`..`Z`; RFC 1459 also lowers
/// `[`, `\`, `]` and `^` to `{`, `|`, `}` and `~`; strict RFC 1459 lowers
/// `[`, `\` and `]` but leaves `^`.  Every other byte stays.
pub proof fn lemma_case_mappings(b: u8)
    ensures
        AsciiCaseMapping::spec_lower(b) == (if 0x41 <= b <= 0x5a { (b + 0x20) as u8 } else { b }),
        Rfc1459CaseMapping::spec_lower(b) == (if 0x41 <= b <= 0x5e { (b + 0x20) as u8 } else { b }),
        StrictRfc1459CaseMapping::spec_lower(b) == (if 0x41 <= b <= 0x5d { (b + 0x20) as u8 } else { b }),
{
}

} // verus!

