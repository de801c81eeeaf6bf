//! Channel names and nicknames, checked when they are made and compared
//! under a case mapping.

use vstd::prelude::*;
use vstd::string::*;
use vstd::utf8::*;
use crate::irccase::{CaseMapping, eq_under, lower_with, lemma_eq_under_is_lower_eq};
use crate::text::{str_bytes, str_from_utf8, bytes_to_vec, string_from_utf8, lemma_decode_encode};

verus! {

// nickname   =  ( letter / special ) *8( letter / digit / special / "-" )
// special    =  %x5B-60 / %x7B-7D ; "[", "]", "\", "`", "_", "^", "{", "|", "}"
// letter     =  %x41-5A / %x61-7A       ; A-Z / a-z
// digit      =  %x30-39                 ; 0-9

/// A byte that may stand in a channel name: anything but NUL, BEL, LF, CR,
/// space, comma and colon.
pub open spec fn channel_byte_ok(b: u8) -> bool {
    !(b == 0x00 || b == 0x07 || b == 0x0a || b == 0x0d || b == 0x20 || b == 0x2c || b == 0x3a)
}

/// The first byte of `buf` that may not stand in a channel name.
pub open spec fn first_bad_channel_byte(buf: Seq<u8>) -> Option<int> {
    if forall|i: int| 0 <= i < buf.len() ==> channel_byte_ok(#[trigger] buf[i]) {
        None
    } else {
        Some(choose|i: int| 0 <= i < buf.len() && !channel_byte_ok(buf[i]) && forall|j: int|
            0 <= j < i ==> channel_byte_ok(#[trigger] buf[j]))
    }
}

/// A letter: `A`..`Z` or `a`..`z`.
pub open spec fn is_letter(b: u8) -> bool {
    (0x41 <= b <= 0x5a) || (0x61 <= b <= 0x7a)
}

/// A digit: `0`..`9`.
pub open spec fn is_digit(b: u8) -> bool {
    0x30 <= b <= 0x39
}

/// A special byte: `[`, `]`, `\`, `` ` ``, `_`, `^`, `{`, `|` or `}`.
pub open spec fn is_special(b: u8) -> bool {
    b == 0x5b || b == 0x5d || b == 0x5c || b == 0x60 || b == 0x5f || b == 0x5e || b == 0x7b
        || b == 0x7c || b == 0x7d
}

/// A byte that may stand in a nickname after its first.
pub open spec fn nick_byte_ok(b: u8) -> bool {
    is_letter(b) || is_digit(b) || is_special(b) || b == 0x2d
}

/// The most bytes a nickname may hold: its first and eight more.
pub const NICK_MAX_LEN: usize = 9;

/// A byte that may begin a nickname.
pub open spec fn nick_first_byte_ok(b: u8) -> bool {
    is_letter(b) || is_special(b)
}

/// The byte at `i` may stand there in a nickname: no byte may stand past
/// the ninth.
pub open spec fn nick_byte_ok_at(buf: Seq<u8>, i: int) -> bool {
    if i == 0 {
        nick_first_byte_ok(buf[i])
    } else if i < NICK_MAX_LEN {
        nick_byte_ok(buf[i])
    } else {
        false
    }
}

/// Where `buf` first fails to be a nickname: at 0 when it is empty, else at
/// its first byte that may not stand where it is.
pub open spec fn first_bad_nick_byte(buf: Seq<u8>) -> Option<int> {
    if buf.len() == 0 {
        Some(0)
    } else if forall|i: int| 0 <= i < buf.len() ==> nick_byte_ok_at(buf, i) {
        None
    } else {
        Some(choose|i: int| 0 <= i < buf.len() && !nick_byte_ok_at(buf, i) && forall|j: int|
            0 <= j < i ==> nick_byte_ok_at(buf, j))
    }
}

/// A channel name, compared under a case mapping.
#[derive(Clone, Debug)]
pub struct Channel<CM: CaseMapping>(CM, Vec<u8>);

/// Why a channel name is refused.
#[derive(Debug)]
pub enum ChannelError {
    /// The byte at this index may not stand in a channel name.
    InvalidByte(usize),
}

fn channel_is_valid_byte(target: u8) -> (r: bool)
    ensures
        r == channel_byte_ok(target),
{
    match target {
        0x00 | 0x07 | 0x0A | 0x0D | 0x20 | 0x2C | 0x3A => false,
        _ => true,
    }
}

fn channel_validate_buf(buf: &[u8]) -> (r: Result<(), ChannelError>)
    ensures
        match r {
            Ok(()) => first_bad_channel_byte(buf@) is None,
            Err(ChannelError::InvalidByte(i)) => first_bad_channel_byte(buf@) == Some(i as int),
        },
{
    let mut idx: usize = 0;
    while idx < buf.len()
        invariant
            0 <= idx <= buf.len(),
            forall|j: int| 0 <= j < idx ==> channel_byte_ok(#[trigger] buf@[j]),
        decreases buf.len() - idx,
    {
        if !channel_is_valid_byte(buf[idx]) {
            proof {
                let i = idx as int;
                assert(0 <= i < buf@.len() && !channel_byte_ok(buf@[i]) && forall|j: int|
                    0 <= j < i ==> channel_byte_ok(#[trigger] buf@[j]));
                let c = choose|i: int| 0 <= i < buf@.len() && !channel_byte_ok(buf@[i]) && forall|j: int|
                    0 <= j < i ==> channel_byte_ok(#[trigger] buf@[j]);
                if c < i {
                    assert(channel_byte_ok(buf@[c]));
                } else if c > i {
                    assert(channel_byte_ok(buf@[i]));
                }
            }
            return Err(ChannelError::InvalidByte(idx));
        }
        idx = idx + 1;
    }
    Ok(())
}

impl<CM: CaseMapping> Channel<CM> {
    /// The bytes of the name.
    pub closed spec fn name(&self) -> Seq<u8> {
        self.1@
    }
}

impl<CM: CaseMapping + Default> Channel<CM> {
    /// A channel name from text; refused at its first byte that may not
    /// stand in a channel name.
    pub fn from_str(channel: &str) -> (r: Result<Channel<CM>, ChannelError>)
        ensures
            match r {
                Ok(c) => first_bad_channel_byte(channel.spec_bytes()) is None && c.name() == channel.spec_bytes(),
                Err(ChannelError::InvalidByte(i)) => first_bad_channel_byte(channel.spec_bytes()) == Some(i as int),
            },
    {
        Channel::from_bytes(str_bytes(channel))
    }

    /// A channel name from text that holds no byte refused in channel
    /// names.
    pub fn from_str_panic(channel: &str) -> (r: Channel<CM>)
        requires
            first_bad_channel_byte(channel.spec_bytes()) is None,
        ensures
            r.name() == channel.spec_bytes(),
    {
        match Channel::from_str(channel) {
            Ok(c) => c,
            Err(_) => {
                proof {
                    assert(false);
                }
                Channel::from_bytes_unchecked(str_bytes(channel))
            },
        }
    }

    fn from_bytes_unchecked(name: &[u8]) -> (r: Channel<CM>)
        ensures
            r.name() == name@,
    {
        Channel(CM::default(), bytes_to_vec(name))
    }

    /// A channel name from bytes; refused at its first byte that may not
    /// stand in a channel name.
    pub fn from_bytes(name: &[u8]) -> (r: Result<Channel<CM>, ChannelError>)
        ensures
            match r {
                Ok(c) => first_bad_channel_byte(name@) is None && c.name() == name@,
                Err(ChannelError::InvalidByte(i)) => first_bad_channel_byte(name@) == Some(i as int),
            },
    {
        match channel_validate_buf(name) {
            Ok(()) => Ok(Channel::from_bytes_unchecked(name)),
            Err(err) => Err(err),
        }
    }

    /// The names are equal under the case mapping.
    pub fn eq(&self, other: &Channel<CM>) -> (r: bool)
        ensures
            r == eq_under(self.name(), other.name(), |b: u8| CM::spec_lower(b)),
    {
        self.0.eq_ignore_case(self.1.as_slice(), other.1.as_slice())
    }

    /// The name in lower case under the case mapping: two channels are equal
    /// exactly when their keys are, so the key is what to hash.
    pub fn case_key(&self) -> (r: Vec<u8>)
        ensures
            r@ == lower_with(self.name(), |b: u8| CM::spec_lower(b)),
    {
        self.0.to_irc_lower(self.1.as_slice())
    }

    /// The names differ under the case mapping.
    pub fn ne(&self, other: &Channel<CM>) -> (r: bool)
        ensures
            r == !eq_under(self.name(), other.name(), |b: u8| CM::spec_lower(b)),
    {
        !self.0.eq_ignore_case(self.1.as_slice(), other.1.as_slice())
    }
}

/// A nickname, compared under a case mapping.
#[derive(Debug)]
pub struct Nickname<CM: CaseMapping>(CM, Vec<u8>);

impl<CM: CaseMapping + Clone> Clone for Nickname<CM> {
    fn clone(&self) -> (r: Nickname<CM>)
        ensures
            r.nick() == self.nick(),
    {
        proof {
            use_type_invariant(self);
        }
        Nickname(self.0.clone(), bytes_to_vec(self.1.as_slice()))
    }
}

/// Why a nickname is refused.
#[derive(Debug)]
pub enum NicknameError {
    /// The byte at this index may not stand there in a nickname.
    InvalidByte(usize),
    /// The bytes are not UTF-8.
    Utf8Error(std::str::Utf8Error),
}

fn nickname_is_valid_byte(target: u8) -> (r: bool)
    ensures
        r == nick_byte_ok(target),
{
    (0x41 <= target && target <= 0x5a) || (0x61 <= target && target <= 0x7a) || (0x30 <= target
        && target <= 0x39) || target == 0x5b || target == 0x5d || target == 0x5c || target == 0x60
        || target == 0x5f || target == 0x5e || target == 0x7b || target == 0x7c || target == 0x7d
        || target == 0x2d
}

fn nickname_is_valid_first_byte(target: u8) -> (r: bool)
    ensures
        r == nick_first_byte_ok(target),
{
    (0x41 <= target && target <= 0x5a) || (0x61 <= target && target <= 0x7a) || target == 0x5b
        || target == 0x5d || target == 0x5c || target == 0x60 || target == 0x5f || target == 0x5e
        || target == 0x7b || target == 0x7c || target == 0x7d
}

fn nickname_validate_buf(buf: &[u8]) -> (r: Result<(), NicknameError>)
    ensures
        match r {
            Ok(()) => valid_utf8(buf@) && first_bad_nick_byte(buf@) is None,
            Err(NicknameError::Utf8Error(_)) => !valid_utf8(buf@),
            Err(NicknameError::InvalidByte(i)) => valid_utf8(buf@) && first_bad_nick_byte(buf@)
                == Some(i as int),
        },
{
    if let Err(err) = str_from_utf8(buf) {
        return Err(NicknameError::Utf8Error(err));
    }
    if buf.len() == 0 {
        return Err(NicknameError::InvalidByte(0));
    }
    let mut idx: usize = 0;
    while idx < buf.len()
        invariant
            0 <= idx <= buf.len(),
            buf.len() > 0,
            valid_utf8(buf@),
            forall|j: int| 0 <= j < idx ==> nick_byte_ok_at(buf@, j),
        decreases buf.len() - idx,
    {
        let ok = if idx == 0 {
            nickname_is_valid_first_byte(buf[idx])
        } else if idx < NICK_MAX_LEN {
            nickname_is_valid_byte(buf[idx])
        } else {
            false
        };
        if !ok {
            proof {
                let i = idx as int;
                assert(0 <= i < buf@.len() && !nick_byte_ok_at(buf@, i) && forall|j: int|
                    0 <= j < i ==> nick_byte_ok_at(buf@, j));
                let c = choose|i: int| 0 <= i < buf@.len() && !nick_byte_ok_at(buf@, i) && forall|j: int|
                    0 <= j < i ==> nick_byte_ok_at(buf@, j);
                if c < i {
                    assert(nick_byte_ok_at(buf@, c));
                } else if c > i {
                    assert(nick_byte_ok_at(buf@, i));
                }
            }
            return Err(NicknameError::InvalidByte(idx));
        }
        idx = idx + 1;
    }
    Ok(())
}

impl<CM: CaseMapping> Nickname<CM> {
    #[verifier::type_invariant]
    closed spec fn inv(self) -> bool {
        valid_utf8(self.1@)
    }

    /// The bytes of the nickname.
    pub closed spec fn nick(&self) -> Seq<u8> {
        self.1@
    }
}

impl<CM: CaseMapping> Nickname<CM> {
    /// The nickname in lower case under the case mapping: two nicknames are
    /// equal exactly when their keys are, so the key is what to hash.
    pub fn case_key(&self) -> (r: Vec<u8>)
        ensures
            r@ == lower_with(self.nick(), |b: u8| CM::spec_lower(b)),
    {
        self.0.to_irc_lower(self.1.as_slice())
    }
}

/// Two channel names are equal under the case mapping exactly when their
/// case keys are equal.
pub proof fn lemma_channel_eq_by_key<CM: CaseMapping>(a: &Channel<CM>, b: &Channel<CM>)
    ensures
        eq_under(a.name(), b.name(), |x: u8| CM::spec_lower(x)) == (lower_with(
            a.name(),
            |x: u8| CM::spec_lower(x),
        ) == lower_with(b.name(), |x: u8| CM::spec_lower(x))),
{
    lemma_eq_under_is_lower_eq(a.name(), b.name(), |x: u8| CM::spec_lower(x));
}

/// Two nicknames are equal under the case mapping exactly when their case
/// keys are equal.
pub proof fn lemma_nickname_eq_by_key<CM: CaseMapping>(a: &Nickname<CM>, b: &Nickname<CM>)
    ensures
        eq_under(a.nick(), b.nick(), |x: u8| CM::spec_lower(x)) == (lower_with(
            a.nick(),
            |x: u8| CM::spec_lower(x),
        ) == lower_with(b.nick(), |x: u8| CM::spec_lower(x))),
{
    lemma_eq_under_is_lower_eq(a.nick(), b.nick(), |x: u8| CM::spec_lower(x));
}

impl<CM: CaseMapping + Default> Nickname<CM> {
    /// A nickname from text: one to nine bytes, refused where it first fails
    /// to be one.
    pub fn from_str(nick: &str) -> (r: Result<Nickname<CM>, NicknameError>)
        ensures
            match r {
                Ok(n) => first_bad_nick_byte(nick.spec_bytes()) is None && n.nick() == nick.spec_bytes(),
                Err(NicknameError::Utf8Error(_)) => false,
                Err(NicknameError::InvalidByte(i)) => first_bad_nick_byte(nick.spec_bytes()) == Some(i as int),
            },
    {
        proof {
            encode_utf8_valid_utf8(nick@);
        }
        Nickname::from_bytes(str_bytes(nick))
    }

    /// A nickname from text that is a valid nickname.
    pub fn from_str_panic(nick: &str) -> (r: Nickname<CM>)
        requires
            first_bad_nick_byte(nick.spec_bytes()) is None,
        ensures
            r.nick() == nick.spec_bytes(),
    {
        proof {
            encode_utf8_valid_utf8(nick@);
        }
        match Nickname::from_bytes(str_bytes(nick)) {
            Ok(n) => n,
            Err(_) => {
                proof {
                    assert(false);
                }
                Nickname(CM::default(), bytes_to_vec(str_bytes(nick)))
            },
        }
    }

    /// A nickname from bytes: they must be UTF-8 and one to nine of them,
    /// and are refused where they first fail to be a nickname.
    pub fn from_bytes(name: &[u8]) -> (r: Result<Nickname<CM>, NicknameError>)
        ensures
            match r {
                Ok(n) => valid_utf8(name@) && first_bad_nick_byte(name@) is None && n.nick() == name@,
                Err(NicknameError::Utf8Error(_)) => !valid_utf8(name@),
                Err(NicknameError::InvalidByte(i)) => valid_utf8(name@) && first_bad_nick_byte(name@)
                    == Some(i as int),
            },
    {
        match nickname_validate_buf(name) {
            Ok(()) => Ok(Nickname(CM::default(), bytes_to_vec(name))),
            Err(err) => Err(err),
        }
    }

    /// The nickname as text.
    pub fn as_str(&self) -> (r: &str)
        ensures
            r.spec_bytes() == self.nick(),
    {
        proof {
            use_type_invariant(self);
        }
        let r = str_from_utf8(self.1.as_slice()).unwrap();
        r
    }

    /// The underlying bytes, UTF-8.
    pub fn into_bytes(self) -> (r: Vec<u8>)
        ensures
            r@ == self.nick(),
            valid_utf8(r@),
    {
        proof {
            use_type_invariant(&self);
        }
        let Nickname(_, data) = self;
        data
    }

    /// The nickname as an owned string.
    pub fn into_string(self) -> (r: String)
        ensures
            encode_utf8(r@) == self.nick(),
    {
        let ghost n = self.nick();
        let bytes = self.into_bytes();
        let r = string_from_utf8(bytes).unwrap();
        proof {
            lemma_decode_encode(n);
        }
        r
    }

    /// The nicknames are equal under the case mapping.
    pub fn eq(&self, other: &Nickname<CM>) -> (r: bool)
        ensures
            r == eq_under(self.nick(), other.nick(), |b: u8| CM::spec_lower(b)),
    {
        self.0.eq_ignore_case(self.1.as_slice(), other.1.as_slice())
    }

    /// The nicknames differ under the case mapping.
    pub fn ne(&self, other: &Nickname<CM>) -> (r: bool)
        ensures
            r == !eq_under(self.nick(), other.nick(), |b: u8| CM::spec_lower(b)),
    {
        !self.0.eq_ignore_case(self.1.as_slice(), other.1.as_slice())
    }
}

} // verus!

verus! {

/// A letter (`A`..`Z`, `a`..`z`) or a special byte (0x5b..0x60 and
/// 0x7b..0x7d: square brackets, backslash, caret, underscore, backtick and
/// curly brackets with the bar between them).
pub open spec fn letter_or_special_byte(b: u8) -> bool {
    (0x41 <= b <= 0x5a) || (0x61 <= b <= 0x7a) || (0x5b <= b <= 0x60) || (0x7b <= b <= 0x7d)
}

/// A name is a nickname exactly when it holds one to nine bytes, the first a
/// letter or a special byte, and each other one a letter, a digit, a special
/// byte or `-`.
pub proof fn lemma_nickname_grammar(buf: Seq<u8>)
    ensures
        (first_bad_nick_byte(buf) is None) == (1 <= buf.len() <= 9 && letter_or_special_byte(buf[0]) && forall|i: int|
            1 <= i < buf.len() ==> letter_or_special_byte(#[trigger] buf[i]) || (0x30 <= buf[i] <= 0x39) || buf[i] == 0x2d),
{
    if first_bad_nick_byte(buf) is None {
        assert(nick_byte_ok_at(buf, 0));
        assert forall|i: int| 1 <= i < buf.len() implies letter_or_special_byte(#[trigger] buf[i]) || (0x30 <= buf[i]
            <= 0x39) || buf[i] == 0x2d by {
            assert(nick_byte_ok_at(buf, i));
        }
        if buf.len() > 9 {
            assert(nick_byte_ok_at(buf, 9));
        }
    }
    if 1 <= buf.len() <= 9 && letter_or_special_byte(buf[0]) && forall|i: int| 1 <= i < buf.len() ==> letter_or_special_byte(
        #[trigger] buf[i],
    ) || (0x30 <= buf[i] <= 0x39) || buf[i] == 0x2d {
        assert forall|i: int| 0 <= i < buf.len() implies nick_byte_ok_at(buf, i) by {
            if i > 0 {
                assert(letter_or_special_byte(buf[i]) || (0x30 <= buf[i] <= 0x39) || buf[i] == 0x2d);
            }
        }
    }
}

/// A name is a channel name exactly when it holds none of NUL, BEL, LF, CR,
/// space, comma and colon.
pub proof fn lemma_channel_grammar(buf: Seq<u8>)
    ensures
        (first_bad_channel_byte(buf) is None) == (forall|i: int| 0 <= i < buf.len() ==> !(#[trigger] buf[i] == 0x00
            || buf[i] == 0x07 || buf[i] == 0x0a || buf[i] == 0x0d || buf[i] == 0x20 || buf[i] == 0x2c || buf[i] == 0x3a)),
{
    if first_bad_channel_byte(buf) is None {
        assert forall|i: int| 0 <= i < buf.len() implies !(#[trigger] buf[i] == 0x00 || buf[i] == 0x07 || buf[i] == 0x0a
            || buf[i] == 0x0d || buf[i] == 0x20 || buf[i] == 0x2c || buf[i] == 0x3a) by {
            assert(channel_byte_ok(buf[i]));
        }
    }
}

} // verus!

