//! A bounded buffer of received bytes that hands out one message per line.

use vstd::prelude::*;
use std::collections::VecDeque;
use crate::parse::parse::{IrcMsg, ParseError, spec_new_msg};
use crate::parse::model::{IrcMsgView, parse_faults};
use crate::parse_helpers::{spec_find, lemma_find};

verus! {

/// Why bytes were not taken.
#[derive(Debug, PartialEq, Eq, Structural)]
pub enum PushError {
    /// They would not fit.
    Full,
}

/// Why no message came.
#[derive(Debug)]
pub enum RecvError {
    /// No whole line is buffered yet.
    MoreData,
    /// The line does not parse.
    Parse(ParseError),
}

impl From<ParseError> for RecvError {
    fn from(e: ParseError) -> (r: RecvError) {
        RecvError::Parse(e)
    }
}

impl vstd::std_specs::convert::FromSpecImpl<ParseError> for RecvError {
    open spec fn obeys_from_spec() -> bool {
        true
    }

    open spec fn from_spec(e: ParseError) -> RecvError {
        RecvError::Parse(e)
    }
}

/// Received bytes, up to a capacity.
#[derive(Debug)]
pub struct IrcMsgBuffer {
    capacity: usize,
    data: VecDeque<u8>,
}

/// A buffer, by its capacity and its bytes.
pub struct BufferView {
    pub capacity: usize,
    pub data: Seq<u8>,
}

/// Receiving faults: the line before the first line feed is too long for a
/// message, or its parse faults.
pub open spec fn recv_faults(data: Seq<u8>) -> bool {
    match spec_find(data, 0x0a, 0) {
        Some(i) => i >= u32::MAX || parse_faults(data.take(i)),
        None => false,
    }
}

impl View for IrcMsgBuffer {
    type V = BufferView;

    closed spec fn view(&self) -> BufferView {
        BufferView { capacity: self.capacity, data: self.data@ }
    }
}

impl IrcMsgBuffer {
    /// The buffer never holds more than its capacity.
    #[verifier::type_invariant]
    closed spec fn inv(self) -> bool {
        self.data@.len() <= self.capacity
    }

    /// An empty buffer that holds up to `capacity` bytes.
    pub fn new(capacity: usize) -> (r: IrcMsgBuffer)
        ensures
            r@.capacity == capacity,
            r@.data == Seq::<u8>::empty(),
    {
        IrcMsgBuffer { capacity: capacity, data: VecDeque::with_capacity(capacity) }
    }

    /// Appends bytes; refused, with nothing taken, when they would not fit.
    pub fn push(&mut self, buffer: &[u8]) -> (r: Result<(), PushError>)
        ensures
            final(self)@.capacity == old(self)@.capacity,
            final(self)@.data.len() <= final(self)@.capacity,
            old(self)@.data.len() + buffer@.len() > old(self)@.capacity ==> (r == Err::<(), PushError>(
                PushError::Full) && final(self)@.data == old(self)@.data),
            old(self)@.data.len() + buffer@.len() <= old(self)@.capacity ==> (r is Ok && final(self)@.data
                == old(self)@.data + buffer@),
    {
        proof {
            use_type_invariant(&*self);
        }
        if buffer.len() > self.capacity - self.data.len() {
            return Err(PushError::Full);
        }
        let ghost start = self.data@;
        let ghost cap = self.capacity;
        let mut data: VecDeque<u8> = VecDeque::new();
        std::mem::swap(&mut data, &mut self.data);
        let mut i: usize = 0;
        while i < buffer.len()
            invariant
                0 <= i <= buffer@.len(),
                data@ == start + buffer@.take(i as int),
            decreases buffer.len() - i,
        {
            data.push_back(buffer[i]);
            i = i + 1;
            proof {
                assert(data@ =~= start + buffer@.take(i as int));
            }
        }
        proof {
            assert(buffer@.take(i as int) =~= buffer@);
        }
        self.data = data;
        Ok(())
    }

    /// Takes the bytes before the first line feed and parses them; the line
    /// feed stays in the buffer.  With no line feed buffered, nothing is
    /// taken.
    pub fn recv(&mut self) -> (r: Result<IrcMsg, RecvError>)
        requires
            !recv_faults(old(self)@.data),
        ensures
            final(self)@.capacity == old(self)@.capacity,
            final(self)@.data.len() <= final(self)@.capacity,
            match spec_find(old(self)@.data, 0x0a, 0) {
                None => (r matches Err(RecvError::MoreData)) && final(self)@.data == old(self)@.data,
                Some(i) => final(self)@.data == old(self)@.data.skip(i) && match spec_new_msg(old(self)@.data.take(i)) {
                    Ok(m) => r matches Ok(msg) && msg@ == m,
                    Err(e) => r matches Err(RecvError::Parse(pe)) && pe == e,
                },
            },
    {
        let ghost d = self.data@;
        let ghost cap = self.capacity;
        proof {
            use_type_invariant(&*self);
            lemma_find(d, 0x0a, 0);
        }
        let mut bytes: usize = 0;
        while bytes < self.data.len() && self.data[bytes] != 0x0a
            invariant
                self.capacity == cap,
                0 <= bytes <= d.len(),
                self.data@ == d,
                forall|j: int| 0 <= j < bytes ==> d[j] != 0x0a,
            decreases d.len() - bytes,
        {
            bytes = bytes + 1;
        }
        let found_eol = bytes < self.data.len();
        if !found_eol {
            proof {
                if let Some(i) = spec_find(d, 0x0a, 0) {
                    assert(d[i] == 0x0a);
                }
            }
            return Err(RecvError::MoreData);
        }
        proof {
            assert(spec_find(d, 0x0a, 0) == Some(bytes as int)) by {
                if let Some(i) = spec_find(d, 0x0a, 0) {
                    if i < bytes {
                        assert(d[i] != 0x0a);
                    }
                    if i > bytes {
                        assert(d[bytes as int] != 0x0a);
                    }
                }
            }
        }
        let mut buffer: Vec<u8> = Vec::new();
        let mut data: VecDeque<u8> = VecDeque::new();
        std::mem::swap(&mut data, &mut self.data);
        let mut k: usize = 0;
        while k < bytes
            invariant
                0 <= k <= bytes,
                bytes < d.len(),
                data@ == d.skip(k as int),
                buffer@ == d.take(k as int),
            decreases bytes - k,
        {
            let byte = data.pop_front().unwrap();
            buffer.push(byte);
            k = k + 1;
            proof {
                assert(buffer@ =~= d.take(k as int));
                assert(data@ =~= d.skip(k as int));
            }
        }
        self.data = data;
        match IrcMsg::new(buffer) {
            Ok(msg) => Ok(msg),
            Err(err) => Err(RecvError::from(err)),
        }
    }
}

} // verus!
