//! Messages kept one after another in one buffer, each ended by a NUL byte.

use vstd::prelude::*;
use vstd::slice::slice_subrange;
use crate::parse::parse2::IrcMsg;
use crate::parse_helpers::{spec_find, lemma_find, find_character};
use crate::slice::Slice;
use crate::text::push_bytes;

verus! {

/// The messages of a group: the runs of bytes before each NUL byte; bytes
/// after the last NUL byte hold no message.
pub open spec fn group_messages(s: Seq<u8>) -> Seq<Seq<u8>>
    decreases s.len(),
{
    match spec_find(s, 0x00, 0) {
        Some(i) => if 0 <= i && i + 1 <= s.len() {
            seq![s.take(i)] + group_messages(s.skip(i + 1))
        } else {
            Seq::empty()
        },
        None => Seq::empty(),
    }
}

/// An owned group of messages.
#[derive(Debug)]
pub struct MessageGroupBuf {
    inner: Vec<u8>,
}

impl View for MessageGroupBuf {
    type V = Seq<u8>;

    closed spec fn view(&self) -> Seq<u8> {
        self.inner@
    }
}

impl MessageGroupBuf {
    pub fn new() -> (r: MessageGroupBuf)
        ensures
            r@ == Seq::<u8>::empty(),
    {
        MessageGroupBuf { inner: Vec::new() }
    }

    pub fn with_capacity(cap: usize) -> (r: MessageGroupBuf)
        ensures
            r@ == Seq::<u8>::empty(),
    {
        MessageGroupBuf { inner: Vec::with_capacity(cap) }
    }

    /// Appends a message and its NUL byte.
    pub fn push(&mut self, msg: &IrcMsg)
        ensures
            final(self)@ == old(self)@ + msg@ + seq![0x00u8],
    {
        let body = msg.as_bytes();
        push_bytes(&mut self.inner, body);
        self.inner.push(0);
    }

    pub fn into_inner(self) -> (r: Vec<u8>)
        ensures
            r@ == self@,
    {
        self.inner
    }

    /// The group, borrowed.
    pub fn as_group(&self) -> (r: MessageGroup<'_>)
        ensures
            r@ == self@,
    {
        MessageGroup { inner: Slice { inner: self.inner.as_slice() } }
    }
}

/// A borrowed group of messages.
#[derive(Clone, Copy, Debug)]
pub struct MessageGroup<'a> {
    inner: Slice<'a>,
}

impl<'a> View for MessageGroup<'a> {
    type V = Seq<u8>;

    closed spec fn view(&self) -> Seq<u8> {
        self.inner.inner@
    }
}

impl<'a> MessageGroup<'a> {
    pub fn as_bytes(&self) -> (r: &'a [u8])
        ensures
            r@ == self@,
    {
        self.inner.inner
    }

    /// The messages, one after another.
    pub fn iter(&self) -> (r: Iter<'a>)
        ensures
            r@ == self@,
    {
        Iter::new(self.as_bytes())
    }
}

/// The messages of a group not read yet.
#[derive(Debug)]
pub struct Iter<'a> {
    rest: &'a [u8],
}

impl<'a> View for Iter<'a> {
    type V = Seq<u8>;

    closed spec fn view(&self) -> Seq<u8> {
        self.rest@
    }
}

impl<'a> Iter<'a> {
    pub fn new(slice: &'a [u8]) -> (r: Iter<'a>)
        ensures
            r@ == slice@,
    {
        Iter { rest: slice }
    }

    /// The next message: the bytes before the next NUL byte.  When no NUL
    /// byte is left there is none, and nothing is read.
    pub fn next(&mut self) -> (r: Option<IrcMsg<'a>>)
        ensures
            match spec_find(old(self)@, 0x00, 0) {
                Some(i) => r matches Some(m) && m@ == old(self)@.take(i) && final(self)@ == old(self)@.skip(i + 1),
                None => r is None && final(self)@ == old(self)@,
            },
            group_messages(old(self)@) == match r {
                Some(m) => seq![m@] + group_messages(final(self)@),
                None => Seq::<Seq<u8>>::empty(),
            },
    {
        proof {
            lemma_find(self.rest@, 0x00, 0);
        }
        match find_character(self.rest, 0x00, 0) {
            Some(idx) => {
                let msg = IrcMsg::from_bytes(slice_subrange(self.rest, 0, idx));
                self.rest = slice_subrange(self.rest, idx + 1, self.rest.len());
                Some(msg)
            },
            None => None,
        }
    }
}

/// The bytes of a group holding `ms`: each message followed by a NUL byte.
pub open spec fn group_bytes(ms: Seq<Seq<u8>>) -> Seq<u8>
    decreases ms.len(),
{
    if ms.len() == 0 {
        Seq::empty()
    } else {
        ms[0] + seq![0x00u8] + group_bytes(ms.drop_first())
    }
}

/// The message holds no NUL byte.
pub open spec fn no_nul(m: Seq<u8>) -> bool {
    forall|i: int| 0 <= i < m.len() ==> m[i] != 0x00
}

/// Pushing a message appends it to the group's bytes.
pub proof fn lemma_group_bytes_push(ms: Seq<Seq<u8>>, m: Seq<u8>)
    ensures
        group_bytes(ms.push(m)) == group_bytes(ms) + m + seq![0x00u8],
    decreases ms.len(),
{
    if ms.len() == 0 {
        assert(ms.push(m).drop_first() =~= Seq::<Seq<u8>>::empty());
        assert(group_bytes(Seq::<Seq<u8>>::empty()) =~= Seq::<u8>::empty());
        assert(ms.push(m)[0] == m);
        assert(group_bytes(ms.push(m)) =~= m + seq![0x00u8]);
        assert(group_bytes(ms) =~= Seq::<u8>::empty());
        assert(group_bytes(ms) + m + seq![0x00u8] =~= m + seq![0x00u8]);
    } else {
        lemma_group_bytes_push(ms.drop_first(), m);
        assert(ms.push(m).drop_first() =~= ms.drop_first().push(m));
        assert(ms.push(m)[0] == ms[0]);
        assert(group_bytes(ms.push(m)) =~= group_bytes(ms) + m + seq![0x00u8]);
    }
}

/// A group of messages that hold no NUL byte reads back as those messages,
/// in order.
pub proof fn lemma_group_round_trip(ms: Seq<Seq<u8>>)
    requires
        forall|i: int| 0 <= i < ms.len() ==> no_nul(#[trigger] ms[i]),
    ensures
        group_messages(group_bytes(ms)) == ms,
    decreases ms.len(),
{
    if ms.len() == 0 {
        lemma_find(group_bytes(ms), 0x00, 0);
        assert(group_messages(group_bytes(ms)) =~= ms);
    } else {
        let rest = ms.drop_first();
        assert forall|i: int| 0 <= i < rest.len() implies no_nul(#[trigger] rest[i]) by {
            assert(rest[i] == ms[i + 1]);
        }
        lemma_group_round_trip(rest);
        let b = group_bytes(ms);
        let m = ms[0];
        assert(no_nul(m));
        lemma_find(b, 0x00, 0);
        assert(b[m.len() as int] == 0x00);
        assert forall|j: int| 0 <= j < m.len() implies b[j] != 0x00 by {
            assert(b[j] == m[j]);
        }
        assert(spec_find(b, 0x00, 0) == Some(m.len() as int)) by {
            match spec_find(b, 0x00, 0) {
                Some(k) => {
                    if k < m.len() {
                        assert(b[k] == m[k]);
                    }
                },
                None => {},
            }
        }
        assert(b.take(m.len() as int) =~= m);
        assert(b.skip(m.len() as int + 1) =~= group_bytes(rest));
        assert(group_messages(b) =~= seq![m] + rest);
        assert(seq![m] + rest =~= ms);
    }
}

} // verus!
