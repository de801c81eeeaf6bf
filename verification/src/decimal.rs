//! Unsigned decimal numbers, as `str::parse::<u16>` reads them: an optional
//! `+`, then at least one digit, and a value that fits.

use vstd::prelude::*;

verus! {

pub open spec fn is_digit(b: u8) -> bool {
    0x30 <= b <= 0x39
}

pub open spec fn all_digits(s: Seq<u8>) -> bool {
    forall|i: int| 0 <= i < s.len() ==> is_digit(#[trigger] s[i])
}

/// The value of a string of decimal digits.
pub open spec fn decimal_value(s: Seq<u8>) -> nat
    decreases s.len(),
{
    if s.len() == 0 {
        0
    } else {
        decimal_value(s.drop_last()) * 10 + (s.last() - 0x30) as nat
    }
}

/// The digits after an optional leading `+`.
pub open spec fn unsigned_digits(s: Seq<u8>) -> Seq<u8> {
    if s.len() > 0 && s[0] == 0x2b {
        s.skip(1)
    } else {
        s
    }
}

/// The number `s` spells, when it spells a `u16`.
pub open spec fn spec_parse_u16(s: Seq<u8>) -> Option<u16> {
    let d = unsigned_digits(s);
    if d.len() > 0 && all_digits(d) && decimal_value(d) <= u16::MAX {
        Some(decimal_value(d) as u16)
    } else {
        None
    }
}

/// A longer string of digits is worth at least as much as its start.
pub proof fn lemma_decimal_prefix(d: Seq<u8>, k: int)
    requires
        all_digits(d),
        0 <= k <= d.len(),
    ensures
        decimal_value(d.take(k)) <= decimal_value(d),
    decreases d.len(),
{
    if k < d.len() {
        let init = d.drop_last();
        assert(all_digits(init)) by {
            assert forall|i: int| 0 <= i < init.len() implies is_digit(#[trigger] init[i]) by {
                assert(init[i] == d[i]);
            }
        }
        lemma_decimal_prefix(init, k);
        assert(init.take(k) =~= d.take(k));
    } else {
        assert(d.take(k) =~= d);
    }
}

/// Reads a `u16` written in decimal.
pub fn parse_u16(s: &[u8]) -> (r: Option<u16>)
    ensures
        r == spec_parse_u16(s@),
{
    let mut start: usize = 0;
    if s.len() > 0 && s[0] == 0x2b {
        start = 1;
    }
    let ghost d = unsigned_digits(s@);
    proof {
        assert(d =~= s@.subrange(start as int, s@.len() as int));
    }
    if start >= s.len() {
        return None;
    }
    let mut i: usize = start;
    let mut acc: u32 = 0;
    while i < s.len()
        invariant
            start <= i <= s.len(),
            d == unsigned_digits(s@),
            d == s@.subrange(start as int, s@.len() as int),
            all_digits(s@.subrange(start as int, i as int)),
            acc == decimal_value(s@.subrange(start as int, i as int)),
            acc <= u16::MAX,
        decreases s.len() - i,
    {
        let b = s[i];
        let ghost before = s@.subrange(start as int, i as int);
        let ghost after = s@.subrange(start as int, i + 1);
        assert(after.drop_last() =~= before);
        assert(after.last() == b);
        if b < 0x30 || b > 0x39 {
            proof {
                assert(d[i - start] == b);
                assert(!is_digit(d[i - start]));
            }
            return None;
        }
        acc = acc * 10 + (b - 0x30) as u32;
        proof {
            assert(all_digits(after)) by {
                assert forall|j: int| 0 <= j < after.len() implies is_digit(#[trigger] after[j]) by {
                    if j < before.len() {
                        assert(after[j] == before[j]);
                    }
                }
            }
        }
        if acc > 0xffff {
            proof {
                if all_digits(d) {
                    lemma_decimal_prefix(d, (i + 1 - start) as int);
                    assert(d.take((i + 1 - start) as int) =~= after);
                }
            }
            return None;
        }
        i = i + 1;
    }
    Some(acc as u16)
}

} // verus!

verus! {

/// The number `s` spells, when it spells a `u64`.
pub open spec fn spec_parse_u64(s: Seq<u8>) -> Option<u64> {
    let d = unsigned_digits(s);
    if d.len() > 0 && all_digits(d) && decimal_value(d) <= u64::MAX {
        Some(decimal_value(d) as u64)
    } else {
        None
    }
}

/// Reads a `u64` written in decimal.
pub fn parse_u64(s: &[u8]) -> (r: Option<u64>)
    ensures
        r == spec_parse_u64(s@),
{
    let mut start: usize = 0;
    if s.len() > 0 && s[0] == 0x2b {
        start = 1;
    }
    let ghost d = unsigned_digits(s@);
    proof {
        assert(d =~= s@.subrange(start as int, s@.len() as int));
    }
    if start >= s.len() {
        return None;
    }
    let mut i: usize = start;
    let mut acc: u64 = 0;
    while i < s.len()
        invariant
            start <= i <= s.len(),
            d == unsigned_digits(s@),
            d == s@.subrange(start as int, s@.len() as int),
            all_digits(s@.subrange(start as int, i as int)),
            acc == decimal_value(s@.subrange(start as int, i as int)),
        decreases s.len() - i,
    {
        let b = s[i];
        let ghost before = s@.subrange(start as int, i as int);
        let ghost after = s@.subrange(start as int, i + 1);
        assert(after.drop_last() =~= before);
        assert(after.last() == b);
        if b < 0x30 || b > 0x39 {
            proof {
                assert(d[i - start] == b);
                assert(!is_digit(d[i - start]));
            }
            return None;
        }
        proof {
            assert(all_digits(after)) by {
                assert forall|j: int| 0 <= j < after.len() implies is_digit(#[trigger] after[j]) by {
                    if j < before.len() {
                        assert(after[j] == before[j]);
                    }
                }
            }
        }
        let next = match acc.checked_mul(10) {
            Some(m) => m.checked_add((b - 0x30) as u64),
            None => None,
        };
        match next {
            Some(n) => {
                acc = n;
            },
            None => {
                proof {
                    if all_digits(d) {
                        lemma_decimal_prefix(d, (i + 1 - start) as int);
                        assert(d.take((i + 1 - start) as int) =~= after);
                    }
                }
                return None;
            },
        }
        i = i + 1;
    }
    Some(acc)
}

} // verus!

verus! {

/// A byte value written in decimal reads back as that value, as a `u16` and
/// as a `u64`.
pub proof fn lemma_decimal_round_trip(b: u8)
    ensures
        spec_parse_u16(crate::parse::error::decimal_of(b)) == Some(b as u16),
        spec_parse_u64(crate::parse::error::decimal_of(b)) == Some(b as u64),
{
    let d = crate::parse::error::decimal_of(b);
    reveal_with_fuel(decimal_value, 4);
    if b >= 100 {
        assert(d.drop_last().drop_last().drop_last() =~= Seq::<u8>::empty());
        assert(d.drop_last().drop_last() =~= seq![(0x30 + b / 100) as u8]);
        assert(d.drop_last() =~= seq![(0x30 + b / 100) as u8, (0x30 + (b / 10) % 10) as u8]);
        assert(decimal_value(d) == (b / 100) * 100 + ((b / 10) % 10) * 10 + b % 10);
    } else if b >= 10 {
        assert(d.drop_last().drop_last() =~= Seq::<u8>::empty());
        assert(d.drop_last() =~= seq![(0x30 + b / 10) as u8]);
        assert(decimal_value(d) == (b / 10) * 10 + b % 10);
    } else {
        assert(d.drop_last() =~= Seq::<u8>::empty());
    }
    assert(unsigned_digits(d) == d);
}

} // verus!

