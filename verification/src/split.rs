//! Cutting a byte string at every occurrence of a separator, as `str::split`
//! does with a one-byte pattern.

use vstd::prelude::*;
use vstd::slice::slice_subrange;
use crate::parse_helpers::{spec_find, find_character, lemma_find};
use vstd::utf8::*;
use crate::text::{lemma_ascii_boundaries, lemma_ends_are_boundaries, lemma_boundary_slice_utf8};

verus! {

/// The pieces of `s` from `from` on, cut at every `sep`.  There is always at
/// least one piece; adjacent separators give empty pieces.
pub open spec fn split_from(s: Seq<u8>, sep: u8, from: int) -> Seq<Seq<u8>>
    decreases s.len() - from,
{
    if from < 0 || from > s.len() {
        Seq::empty()
    } else {
        match spec_find(s, sep, from) {
            Some(i) => if from <= i < s.len() {
                seq![s.subrange(from, i)] + split_from(s, sep, i + 1)
            } else {
                Seq::empty()
            },
            None => seq![s.subrange(from, s.len() as int)],
        }
    }
}

/// All pieces of `s` cut at `sep`.
pub open spec fn split_bytes(s: Seq<u8>, sep: u8) -> Seq<Seq<u8>> {
    split_from(s, sep, 0)
}

/// The pieces that are not empty, in order.
pub open spec fn non_empty(p: Seq<Seq<u8>>) -> Seq<Seq<u8>>
    decreases p.len(),
{
    if p.len() == 0 {
        Seq::empty()
    } else if p.last().len() > 0 {
        non_empty(p.drop_last()).push(p.last())
    } else {
        non_empty(p.drop_last())
    }
}

/// Cuts `s` at every `sep`.
pub fn split_slice(s: &[u8], sep: u8) -> (r: Vec<&[u8]>)
    ensures
        r@.len() == split_bytes(s@, sep).len(),
        forall|i: int| 0 <= i < r@.len() ==> (#[trigger] r@[i])@ == split_bytes(s@, sep)[i],
{
    let mut out: Vec<&[u8]> = Vec::new();
    let mut start: usize = 0;
    let ghost done: Seq<Seq<u8>> = Seq::empty();
    loop
        invariant
            0 <= start <= s.len(),
            out@.len() == done.len(),
            forall|i: int| 0 <= i < out@.len() ==> (#[trigger] out@[i])@ == done[i],
            done + split_from(s@, sep, start as int) == split_bytes(s@, sep),
        decreases s.len() - start,
    {
        let found = find_character(s, sep, start);
        proof {
            lemma_find(s@, sep, start as int);
        }
        match found {
            Some(i) => {
                let piece = slice_subrange(s, start, i);
                out.push(piece);
                proof {
                    let rest = split_from(s@, sep, i + 1);
                    assert(split_from(s@, sep, start as int) == seq![s@.subrange(start as int, i as int)] + rest);
                    assert(done + split_from(s@, sep, start as int) =~= done.push(piece@) + rest);
                    done = done.push(piece@);
                }
                start = i + 1;
            },
            None => {
                let piece = slice_subrange(s, start, s.len());
                out.push(piece);
                proof {
                    assert(split_from(s@, sep, start as int) == seq![s@.subrange(start as int, s@.len() as int)]);
                    assert(done + split_from(s@, sep, start as int) =~= done.push(piece@));
                    done = done.push(piece@);
                    assert(done =~= split_bytes(s@, sep));
                }
                return out;
            },
        }
    }
}

/// Keeps the pieces that are not empty.
pub fn keep_non_empty<'a>(p: Vec<&'a [u8]>) -> (r: Vec<&'a [u8]>)
    ensures
        r@.len() == non_empty(p@.map_values(|x: &[u8]| x@)).len(),
        forall|i: int| 0 <= i < r@.len() ==> (#[trigger] r@[i])@ == non_empty(p@.map_values(|x: &[u8]| x@))[i],
{
    let mut out: Vec<&[u8]> = Vec::new();
    let mut i: usize = 0;
    while i < p.len()
        invariant
            0 <= i <= p.len(),
            out@.len() == non_empty(p@.map_values(|x: &[u8]| x@).take(i as int)).len(),
            forall|j: int| 0 <= j < out@.len() ==> (#[trigger] out@[j])@ == non_empty(p@.map_values(|x: &[u8]| x@).take(i as int))[j],
        decreases p.len() - i,
    {
        let ghost m = p@.map_values(|x: &[u8]| x@);
        proof {
            assert(m.take(i + 1).drop_last() =~= m.take(i as int));
            assert(m.take(i + 1).last() == p@[i as int]@);
        }
        if p[i].len() > 0 {
            out.push(p[i]);
        }
        i = i + 1;
    }
    proof {
        assert(p@.map_values(|x: &[u8]| x@).take(p.len() as int) =~= p@.map_values(|x: &[u8]| x@));
    }
    out
}

} // verus!

verus! {

proof fn lemma_split_from_text(s: Seq<u8>, sep: u8, from: int)
    requires
        valid_utf8(s),
        sep < 0x80,
        0 <= from <= s.len(),
        is_char_boundary(s, from),
    ensures
        forall|i: int|
            0 <= i < split_from(s, sep, from).len() ==> valid_utf8(
                #[trigger] split_from(s, sep, from)[i],
            ),
    decreases s.len() - from,
{
    lemma_find(s, sep, from);
    lemma_ends_are_boundaries(s);
    match spec_find(s, sep, from) {
        Some(i) => {
            lemma_ascii_boundaries(s, i);
            lemma_boundary_slice_utf8(s, from, i);
            lemma_split_from_text(s, sep, i + 1);
            let rest = split_from(s, sep, i + 1);
            assert forall|k: int|
                0 <= k < split_from(s, sep, from).len() implies valid_utf8(
                #[trigger] split_from(s, sep, from)[k],
            ) by {
                if k > 0 {
                    assert(split_from(s, sep, from)[k] == rest[k - 1]);
                }
            }
        },
        None => {
            lemma_boundary_slice_utf8(s, from, s.len() as int);
        },
    }
}

/// Cutting valid text at an ASCII byte gives pieces of valid text.
pub proof fn lemma_split_text(s: Seq<u8>, sep: u8)
    requires
        valid_utf8(s),
        sep < 0x80,
    ensures
        forall|i: int|
            0 <= i < split_bytes(s, sep).len() ==> valid_utf8(#[trigger] split_bytes(s, sep)[i]),
{
    lemma_ends_are_boundaries(s);
    lemma_split_from_text(s, sep, 0);
}

/// Keeping some pieces keeps them valid text.
pub proof fn lemma_non_empty_text(p: Seq<Seq<u8>>)
    requires
        forall|i: int| 0 <= i < p.len() ==> valid_utf8(#[trigger] p[i]),
    ensures
        forall|i: int| 0 <= i < non_empty(p).len() ==> valid_utf8(#[trigger] non_empty(p)[i]),
    decreases p.len(),
{
    if p.len() > 0 {
        let init = p.drop_last();
        assert forall|i: int| 0 <= i < init.len() implies valid_utf8(#[trigger] init[i]) by {
            assert(init[i] == p[i]);
        }
        lemma_non_empty_text(init);
        assert(valid_utf8(p[p.len() - 1]));
        let q = non_empty(init);
        if p.last().len() > 0 {
            assert(non_empty(p) == q.push(p.last()));
            assert forall|i: int| 0 <= i < non_empty(p).len() implies valid_utf8(#[trigger] non_empty(p)[i]) by {
                if i < q.len() {
                    assert(non_empty(p)[i] == q[i]);
                }
            }
        } else {
            assert(non_empty(p) == q);
        }
    }
}

} // verus!
