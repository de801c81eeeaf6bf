//! Byte ranges into a string, kept apart from the string they slice.

use vstd::prelude::*;
use vstd::utf8::*;
use vstd::string::*;

verus! {

/// The bytes `from..to` of a string.
#[derive(PartialEq, Eq, Copy, Clone, Debug, Structural)]
pub struct StringSlicer {
    from_idx: usize,
    to_idx: usize,
}

impl View for StringSlicer {
    /// The range as `(from, to)`.
    type V = (usize, usize);

    closed spec fn view(&self) -> (usize, usize) {
        (self.from_idx, self.to_idx)
    }
}

/// The text of `s` between byte offsets `from` and `to`.
pub open spec fn byte_slice_of(s: &str, from: int, to: int) -> Seq<u8> {
    s.spec_bytes().subrange(from, to)
}

/// `from..to` may be cut out of `s`: it lies inside `s` and both ends fall
/// on character boundaries.
pub open spec fn can_slice(s: &str, from: int, to: int) -> bool {
    can_slice_bytes(s.spec_bytes(), from, to)
}

/// `from..to` lies inside the UTF-8 bytes `b` and both ends fall on
/// character boundaries.
pub open spec fn can_slice_bytes(b: Seq<u8>, from: int, to: int) -> bool {
    &&& 0 <= from <= to <= b.len()
    &&& is_char_boundary(b, from)
    &&& is_char_boundary(b, to)
}

/// Cuts `from..to` out of `s`.
pub fn str_range(s: &str, from: usize, to: usize) -> (r: &str)
    requires
        can_slice(s, from as int, to as int),
    ensures
        r.spec_bytes() == byte_slice_of(s, from as int, to as int),
{
    let (_, rest) = s.split_at(from);
    proof {
        encode_utf8_valid_utf8(s@);
        valid_utf8_split(s.spec_bytes(), from as int);
        encode_utf8_valid_utf8(rest@);
        assert(rest.spec_bytes() =~= s.spec_bytes().subrange(from as int, s.spec_bytes().len() as int));
        assert(is_char_boundary(rest.spec_bytes(), (to - from) as int)) by {
            if to < s.spec_bytes().len() {
                is_char_boundary_iff_not_is_continuation_byte(s.spec_bytes(), to as int);
                is_char_boundary_iff_not_is_continuation_byte(
                    rest.spec_bytes(),
                    (to - from) as int,
                );
            } else {
                is_char_boundary_start_end_of_seq(rest.spec_bytes());
            }
        }
    }
    let (mid, _) = rest.split_at(to - from);
    proof {
        assert(mid.spec_bytes() =~= byte_slice_of(s, from as int, to as int));
    }
    mid
}

impl StringSlicer {
    pub fn new(from_idx: usize, to_idx: usize) -> (r: StringSlicer)
        ensures
            r@ == (from_idx, to_idx),
    {
        StringSlicer { from_idx: from_idx, to_idx: to_idx }
    }

    /// The part of `string` that this range covers.
    pub fn slice_on<'a>(&self, string: &'a str) -> (r: &'a str)
        requires
            can_slice(string, self@.0 as int, self@.1 as int),
        ensures
            r.spec_bytes() == byte_slice_of(string, self@.0 as int, self@.1 as int),
    {
        str_range(string, self.from_idx, self.to_idx)
    }

    /// Composes ranges: the result covers what `self` covers inside the part
    /// that `ss` covers.  A range that would reach past the end of `ss` is
    /// refused.
    pub fn slice_from(&self, ss: &StringSlicer) -> (r: StringSlicer)
        requires
            ss@.0 + self@.1 <= ss@.1,
            ss@.0 + self@.0 <= usize::MAX,
        ensures
            r@ == ((ss@.0 + self@.0) as usize, (ss@.0 + self@.1) as usize),
    {
        StringSlicer::new(ss.from_idx + self.from_idx, ss.from_idx + self.to_idx)
    }

    /// Composes with an optional range; the result exists when `ss` does.
    pub fn slice_from_opt(&self, ss: &OptionalStringSlicer) -> (r: OptionalStringSlicer)
        requires
            ss@.1 + self@.0 <= usize::MAX,
            ss@.1 + self@.1 <= usize::MAX,
            ss@.0 ==> ss@.1 + self@.1 <= ss@.2,
        ensures
            r@ == if ss@.0 {
                (true, (ss@.1 + self@.0) as usize, (ss@.1 + self@.1) as usize)
            } else {
                (false, 0usize, 0usize)
            },
    {
        let mut slicer = OptionalStringSlicer {
            exists: ss.exists,
            from_idx: ss.from_idx + self.from_idx,
            to_idx: ss.from_idx + self.to_idx,
        };
        if !slicer.exists {
            slicer.from_idx = 0;
            slicer.to_idx = 0;
        }
        slicer
    }
}

/// A range that may be absent.
#[derive(PartialEq, Eq, Copy, Clone, Debug, Structural)]
pub struct OptionalStringSlicer {
    exists: bool,
    from_idx: usize,
    to_idx: usize,
}

impl View for OptionalStringSlicer {
    /// `(exists, from, to)`.
    type V = (bool, usize, usize);

    closed spec fn view(&self) -> (bool, usize, usize) {
        (self.exists, self.from_idx, self.to_idx)
    }
}

impl OptionalStringSlicer {
    pub fn new_some(from_idx: usize, to_idx: usize) -> (r: OptionalStringSlicer)
        ensures
            r@ == (true, from_idx, to_idx),
    {
        OptionalStringSlicer { exists: true, from_idx: from_idx, to_idx: to_idx }
    }

    pub fn new_none() -> (r: OptionalStringSlicer)
        ensures
            r@ == (false, 0usize, 0usize),
    {
        OptionalStringSlicer { exists: false, from_idx: 0, to_idx: 0 }
    }

    /// The part of `string` that this range covers, if the range exists.
    pub fn slice_on<'a>(&self, string: &'a str) -> (r: Option<&'a str>)
        requires
            self@.0 ==> can_slice(string, self@.1 as int, self@.2 as int),
        ensures
            r is Some == self@.0,
            r matches Some(t) ==> t.spec_bytes() == byte_slice_of(
                string,
                self@.1 as int,
                self@.2 as int,
            ),
    {
        if self.exists {
            Some(str_range(string, self.from_idx, self.to_idx))
        } else {
            None
        }
    }

    /// Composes with a range; the result exists when `self` does.
    pub fn slice_from(&self, ss: &StringSlicer) -> (r: OptionalStringSlicer)
        requires
            ss@.0 + self@.1 <= usize::MAX,
            ss@.0 + self@.2 <= usize::MAX,
            self@.0 ==> ss@.0 + self@.2 <= ss@.1,
        ensures
            r@ == if self@.0 {
                (true, (ss@.0 + self@.1) as usize, (ss@.0 + self@.2) as usize)
            } else {
                (false, 0usize, 0usize)
            },
    {
        let mut slicer = OptionalStringSlicer {
            exists: self.exists,
            from_idx: ss.from_idx + self.from_idx,
            to_idx: ss.from_idx + self.to_idx,
        };
        if !slicer.exists {
            slicer.from_idx = 0;
            slicer.to_idx = 0;
        }
        slicer
    }

    /// Composes with an optional range; the result exists when both do.
    pub fn slice_from_opt(&self, ss: &OptionalStringSlicer) -> (r: OptionalStringSlicer)
        requires
            ss@.1 + self@.1 <= usize::MAX,
            ss@.1 + self@.2 <= usize::MAX,
            self@.0 && ss@.0 ==> ss@.1 + self@.2 <= ss@.2,
        ensures
            r@ == if self@.0 && ss@.0 {
                (true, (ss@.1 + self@.1) as usize, (ss@.1 + self@.2) as usize)
            } else {
                (false, 0usize, 0usize)
            },
    {
        let mut slicer = OptionalStringSlicer {
            exists: self.exists && ss.exists,
            from_idx: ss.from_idx + self.from_idx,
            to_idx: ss.from_idx + self.to_idx,
        };
        if !slicer.exists {
            slicer.from_idx = 0;
            slicer.to_idx = 0;
        }
        slicer
    }
}

} // verus!
