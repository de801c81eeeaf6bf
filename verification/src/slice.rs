//! A borrowed run of bytes.

use vstd::prelude::*;
use crate::text::bytes_to_vec;

verus! {

/// A borrowed run of bytes.
#[derive(Clone, Copy, Debug)]
pub struct Slice<'a> {
    pub inner: &'a [u8],
}

impl<'a> Slice<'a> {
    /// An owned copy of the bytes.
    pub fn to_owned(&self) -> (r: Vec<u8>)
        ensures
            r@ == self.inner@,
    {
        bytes_to_vec(self.inner)
    }
}

impl<'a> core::ops::Deref for Slice<'a> {
    type Target = [u8];

    fn deref(&self) -> (r: &[u8])
        ensures
            r@ == self.inner@,
    {
        self.inner
    }
}

} // verus!
