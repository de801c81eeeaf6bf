//! Messages kept as text and ranges, whose prefix is also split into nick,
//! user and host.  A line is accepted when it holds a command; no semantic
//! checking is applied.

use vstd::prelude::*;
use vstd::string::*;
use vstd::utf8::*;
use crate::util::{StringSlicer, OptionalStringSlicer, can_slice_bytes};
use crate::parse::parse::{IrcMsgPrefix, PrefixSlicer, prefix_nick, prefix_marks};
use crate::parse::sliced::{MaybeOwned, extract_prefix, extract_word, extract_arg, consume_spaces, text_prefix, text_command, text_args, prefix_end, lemma_scan_ranges};
use crate::parse::sliced;
use crate::parse_helpers::lemma_find;
use crate::text::{str_bytes, str_to_string, lemma_ends_are_boundaries, lemma_ascii_boundaries};

verus! {

/// The nick of a line's prefix, when the prefix is `nick!user@host`.
pub open spec fn text_source_nick(s: Seq<u8>) -> Option<Seq<u8>> {
    match text_prefix(s) {
        Some(p) => prefix_nick(p),
        None => None,
    }
}

/// A syntactically valid IRC message: its text, the ranges of its parts, and
/// the parts of its prefix.
#[derive(Debug)]
pub struct IrcMsg<'a> {
    inner: sliced::IrcMsg<'a>,
    prefix_extra: Option<PrefixSlicer>,
}

impl<'a> View for IrcMsg<'a> {
    /// The bytes of the text.
    type V = Seq<u8>;

    closed spec fn view(&self) -> Seq<u8> {
        self.inner@
    }
}

impl<'a> IrcMsg<'a> {
    #[verifier::type_invariant]
    closed spec fn inv(self) -> bool {
        match text_prefix(self.inner@) {
            Some(p) => self.prefix_extra matches Some(extra) && extra.matches(p),
            None => self.prefix_extra is None,
        }
    }

    /// Reads a borrowed line; `None` when it holds no command.
    pub fn from_str(msg_text: &'a str) -> (r: Option<IrcMsg<'a>>)
        ensures
            match r {
                Some(m) => text_command(msg_text.spec_bytes()).len() > 0 && m@ == msg_text.spec_bytes(),
                None => text_command(msg_text.spec_bytes()).len() == 0,
            },
    {
        IrcMsg::new(MaybeOwned::Slice(msg_text))
    }

    /// Reads an owned line; `None` when it holds no command.
    pub fn from_string(msg_text: &str) -> (r: Option<IrcMsg<'a>>)
        ensures
            match r {
                Some(m) => text_command(msg_text.spec_bytes()).len() > 0 && m@ == msg_text.spec_bytes(),
                None => text_command(msg_text.spec_bytes()).len() == 0,
            },
    {
        let owned = str_to_string(msg_text);
        proof {
            assert(encode_utf8(owned@) == msg_text.spec_bytes());
        }
        IrcMsg::new(MaybeOwned::Owned(owned))
    }

    /// Parses a line.  A line that holds no command, such as `""` or `":"`,
    /// is not a syntactically valid message: `None` is returned for it.
    pub fn new(msg_text: MaybeOwned<'a>) -> (r: Option<IrcMsg<'a>>)
        ensures
            match r {
                Some(m) => text_command(msg_text.bytes()).len() > 0 && m@ == msg_text.bytes(),
                None => text_command(msg_text.bytes()).len() == 0,
            },
    {
        let inner = sliced::IrcMsg::new(msg_text).unwrap();
        if str_bytes(inner.get_command()).len() == 0 {
            return None;
        }
        let prefix_extra = match inner.get_prefix() {
            Some(pref) => Some(PrefixSlicer::new(pref)),
            None => None,
        };
        Some(IrcMsg { inner: inner, prefix_extra: prefix_extra })
    }

    /// The prefix which identifies the source of a message, as text.
    pub fn get_prefix_raw(&self) -> (r: Option<&str>)
        ensures
            match text_prefix(self@) {
                Some(p) => r matches Some(t) && t.spec_bytes() == p,
                None => r is None,
            },
    {
        self.inner.get_prefix()
    }

    /// The prefix which identifies the source of a message.
    pub fn get_prefix(&self) -> (r: Option<IrcMsgPrefix>)
        ensures
            match text_prefix(self@) {
                Some(p) => r matches Some(t) && t@ == p,
                None => r is None,
            },
    {
        proof {
            use_type_invariant(self);
        }
        let prefix = match self.inner.get_prefix() {
            Some(prefix) => prefix,
            None => {
                return None;
            },
        };
        match &self.prefix_extra {
            Some(extra) => {
                let owned = str_to_string(prefix);
                Some(extra.apply(owned))
            },
            None => None,
        }
    }

    /// The command name as received, without normalisation.
    pub fn get_command(&self) -> (r: &str)
        ensures
            r.spec_bytes() == text_command(self@),
    {
        self.inner.get_command()
    }

    /// The parameters.
    pub fn get_args(&self) -> (r: Vec<&str>)
        ensures
            r@.len() == text_args(self@).len(),
            forall|k: int| 0 <= k < r@.len() ==> (#[trigger] r@[k]).spec_bytes() == text_args(self@)[k],
    {
        self.inner.get_args()
    }

    /// The nick of the user the message came from, if any.
    pub fn source_nick(&self) -> (r: Option<&str>)
        ensures
            match text_source_nick(self@) {
                Some(n) => r matches Some(t) && t.spec_bytes() == n,
                None => r is None,
            },
    {
        proof {
            use_type_invariant(self);
        }
        let slicer = match &self.prefix_extra {
            Some(extra) => {
                let whole = self.inner.prefix_slicer();
                proof {
                    let p = text_prefix(self@)->Some_0;
                    extra.lemma_nick_range(p);
                    assert(p.len() == prefix_end(self@) - 1);
                }
                extra.nick_idx_pair.slice_from_opt(&whole)
            },
            None => {
                return None;
            },
        };
        let whole = self.inner.prefix_slicer();
        proof {
            let s = self@;
            let p = text_prefix(s)->Some_0;
            lemma_ends_are_boundaries(s);
            let extra = self.prefix_extra->Some_0;
            extra.lemma_nick_range(p);
            assert(p.len() == prefix_end(s) - 1);
            if let Some((e, a)) = prefix_marks(p) {
                assert(p[e] == s[1 + e]);
                assert(s[1 + e] == 0x21);
                lemma_ascii_boundaries(s, 0);
                lemma_ascii_boundaries(s, 1 + e);
                assert(s.subrange(1, 1 + e) =~= p.subrange(0, e));
            }
        }
        slicer.slice_on(self.inner.text())
    }
}

impl<'a> core::str::FromStr for IrcMsg<'a> {
    type Err = ();

    fn from_str(msg_text: &str) -> Result<IrcMsg<'a>, ()> {
        match IrcMsg::from_string(msg_text) {
            Some(m) => Ok(m),
            None => Err(()),
        }
    }
}

} // verus!
