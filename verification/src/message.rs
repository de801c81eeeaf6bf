//! A received line read both as a typed message and as a list of text
//! parameters.

use vstd::prelude::*;
use vstd::string::*;
use vstd::utf8::*;
use vstd::slice::slice_subrange;
use crate::parse::parse::{IrcMsg, IrcMsgPrefix, ParseError, spec_new_msg, can_target_channel, is_channel, is_channel_prefix_byte, targets_channel, prefix_bytes, command_bytes, arg_bytes, args_of, prefix_nick};
use crate::parse::model::{IrcMsgView, parse_faults};
use crate::message_types::server::{IncomingMsg, IncomingKind, incoming_faults};
use crate::parse_helpers::{spec_find, lemma_find, find_character};
use crate::split::{split_bytes, split_slice, lemma_split_text};
use crate::text::{str_bytes, into_text, bytes_to_vec, str_to_string, as_text, str_from_utf8, lemma_ascii_boundaries, lemma_ends_are_boundaries, lemma_boundary_slice_utf8, lemma_decode_encode, push_bytes};

verus! {

/// The first index at or after `from` where a space is followed by a colon.
pub open spec fn spec_find_rest_mark(t: Seq<u8>, from: int) -> Option<int>
    decreases t.len() - from,
{
    if from < 0 || from + 1 >= t.len() {
        None
    } else if t[from] == 0x20 && t[from + 1] == 0x3a {
        Some(from)
    } else {
        spec_find_rest_mark(t, from + 1)
    }
}

proof fn lemma_find_rest_mark(t: Seq<u8>, from: int)
    requires
        0 <= from,
    ensures
        match spec_find_rest_mark(t, from) {
            Some(i) => from <= i && i + 1 < t.len() && t[i] == 0x20 && t[i + 1] == 0x3a,
            None => true,
        },
    decreases t.len() - from,
{
    if from + 1 < t.len() && !(t[from] == 0x20 && t[from + 1] == 0x3a) {
        lemma_find_rest_mark(t, from + 1);
    }
}

/// The parameters in `t`: a leading `:` makes the rest one parameter;
/// otherwise `t` is cut at each space up to its first ` :`, and what follows
/// that ` :` is the last parameter.  Empty text holds none and is refused.
pub open spec fn message_args(t: Seq<u8>) -> Option<Seq<Seq<u8>>> {
    if t.len() == 0 {
        None
    } else if t[0] == 0x3a {
        Some(seq![t.skip(1)])
    } else {
        match spec_find_rest_mark(t, 0) {
            Some(i) => Some(split_bytes(t.take(i), 0x20).push(t.skip(i + 2))),
            None => Some(split_bytes(t, 0x20)),
        }
    }
}

/// What follows the first space of `t`.
pub open spec fn after_space(t: Seq<u8>) -> Option<Seq<u8>> {
    match spec_find(t, 0x20, 0) {
        Some(i) => Some(t.skip(i + 1)),
        None => None,
    }
}

/// The command and parameters of a non-empty line: all of it, or what
/// follows its first space when it starts with a `:` prefix.
pub open spec fn line_body(t: Seq<u8>) -> Option<Seq<u8>> {
    if t[0] == 0x3a {
        after_space(t)
    } else {
        Some(t)
    }
}

/// The parameter text of a non-empty line: what follows its command.
pub open spec fn param_text(t: Seq<u8>) -> Option<Seq<u8>> {
    match line_body(t) {
        Some(b) => after_space(b),
        None => None,
    }
}

/// Reading the line fails by a fault of its own: its command is not
/// followed by a space, or the typed reading faults.
pub open spec fn from_str_faults(t: Seq<u8>) -> bool {
    &&& t.len() > 0
    &&& line_body(t) is Some
    &&& (param_text(t) is None || (message_args(param_text(t)->Some_0) is Some && (t.len()
        >= u32::MAX || parse_faults(t) || (spec_new_msg(t) matches Ok(m) && incoming_faults(m)))))
}

/// "Invalid IRC message"
pub open spec fn invalid_text() -> Seq<char> {
    seq!['I', 'n', 'v', 'a', 'l', 'i', 'd', ' ', 'I', 'R', 'C', ' ', 'm', 'e', 's', 's', 'a', 'g', 'e']
}

/// "Invalid IRC message; empty"
pub open spec fn empty_text() -> Seq<char> {
    invalid_text() + seq![';', ' ', 'e', 'm', 'p', 't', 'y']
}

/// "Invalid IRC message: Some(Invalid IRC message)", the error for a line
/// whose parameter text is empty.
pub open spec fn no_params_text() -> Seq<char> {
    invalid_text() + seq![':', ' ', 'S', 'o', 'm', 'e', '('] + invalid_text() + seq![')']
}

/// "bad encoding"
pub open spec fn bad_encoding_text() -> Seq<char> {
    seq!['b', 'a', 'd', ' ', 'e', 'n', 'c', 'o', 'd', 'i', 'n', 'g']
}

/// The bytes of some strings.
pub open spec fn texts_bytes(v: Seq<String>) -> Seq<Seq<u8>> {
    v.map_values(|s: String| encode_utf8(s@))
}

/// The bytes of some string slices.
pub open spec fn strs_bytes(v: Seq<&str>) -> Seq<Seq<u8>> {
    v.map_values(|s: &str| s.spec_bytes())
}

/// Every parameter of the message is text.
pub open spec fn args_are_text(v: IrcMsgView) -> bool {
    forall|i: int| 0 <= i < v.args.len() ==> valid_utf8(#[trigger] arg_bytes(v, i))
}

/// A received line read both as a typed message and as text parameters.
#[derive(Debug)]
pub struct IrcMessage {
    msg2: IncomingMsg,
    pub args: Vec<String>,
}

impl View for IrcMessage {
    /// The typed message, and the bytes of the text parameters.
    type V = ((IncomingKind, IrcMsgView), Seq<Seq<u8>>);

    closed spec fn view(&self) -> ((IncomingKind, IrcMsgView), Seq<Seq<u8>>) {
        (self.typed(), texts_bytes(self.args@))
    }
}

fn find_rest_mark(t: &[u8]) -> (r: Option<usize>)
    ensures
        r matches Some(i) ==> spec_find_rest_mark(t@, 0) == Some(i as int),
        r is None ==> spec_find_rest_mark(t@, 0) is None,
{
    if t.len() < 2 {
        return None;
    }
    let mut i: usize = 0;
    while i < t.len() - 1
        invariant
            t.len() >= 2,
            0 <= i <= t.len() - 1,
            spec_find_rest_mark(t@, i as int) == spec_find_rest_mark(t@, 0),
        decreases t.len() - i,
    {
        if t[i] == 0x20 && t[i + 1] == 0x3a {
            return Some(i);
        }
        i = i + 1;
    }
    None
}

/// Strings holding the text of valid UTF-8 pieces.
fn texts_of(pieces: &Vec<&[u8]>) -> (r: Vec<String>)
    requires
        forall|i: int| 0 <= i < pieces@.len() ==> valid_utf8((#[trigger] pieces@[i])@),
    ensures
        texts_bytes(r@) == pieces@.map_values(|p: &[u8]| p@),
{
    let mut out: Vec<String> = Vec::new();
    let mut i: usize = 0;
    while i < pieces.len()
        invariant
            0 <= i <= pieces@.len(),
            forall|j: int| 0 <= j < pieces@.len() ==> valid_utf8((#[trigger] pieces@[j])@),
            texts_bytes(out@) == pieces@.map_values(|p: &[u8]| p@).take(i as int),
        decreases pieces.len() - i,
    {
        let text = into_text(bytes_to_vec(pieces[i]));
        proof {
            lemma_decode_encode(pieces@[i as int]@);
        }
        let ghost before = out@;
        out.push(text);
        i = i + 1;
        proof {
            assert(texts_bytes(out@) =~= texts_bytes(before).push(encode_utf8(text@)));
            assert(texts_bytes(out@) =~= pieces@.map_values(|p: &[u8]| p@).take(i as int));
        }
    }
    proof {
        assert(pieces@.map_values(|p: &[u8]| p@).take(i as int) =~= pieces@.map_values(|p: &[u8]| p@));
    }
    out
}

/// A cut of valid text at an ASCII byte, or at its ends, is valid text.
proof fn lemma_cut_text(t: Seq<u8>, from: int, to: int)
    requires
        valid_utf8(t),
        0 <= from <= to <= t.len(),
        from == 0 || from == t.len() || t[from] < 0x80 || t[from - 1] < 0x80,
        to == 0 || to == t.len() || t[to] < 0x80 || t[to - 1] < 0x80,
    ensures
        valid_utf8(t.subrange(from, to)),
{
    lemma_ends_are_boundaries(t);
    if from != 0 && from != t.len() {
        if t[from] < 0x80 {
            lemma_ascii_boundaries(t, from);
        } else {
            lemma_ascii_boundaries(t, from - 1);
        }
    }
    if to != 0 && to != t.len() {
        if t[to] < 0x80 {
            lemma_ascii_boundaries(t, to);
        } else {
            lemma_ascii_boundaries(t, to - 1);
        }
    }
    lemma_boundary_slice_utf8(t, from, to);
}

/// Reads the parameters of `text`.
fn parse_message_args(text: &[u8]) -> (r: Result<Vec<String>, Option<String>>)
    requires
        valid_utf8(text@),
    ensures
        match r {
            Ok(v) => message_args(text@) == Some(texts_bytes(v@)),
            Err(e) => message_args(text@) is None && (e matches Some(s) && s@ == invalid_text()),
        },
{
    let ghost t = text@;
    if text.len() == 0 {
        proof {
            reveal_strlit("Invalid IRC message");
        }
        return Err(Some(str_to_string("Invalid IRC message")));
    }
    if text[0] == 0x3a {
        let rest = slice_subrange(text, 1, text.len());
        proof {
            lemma_cut_text(t, 1, t.len() as int);
            assert(rest@ =~= t.skip(1));
        }
        let mut v: Vec<String> = Vec::new();
        v.push(into_text(bytes_to_vec(rest)));
        proof {
            lemma_decode_encode(rest@);
            assert(texts_bytes(v@) =~= seq![t.skip(1)]);
        }
        return Ok(v);
    }
    match find_rest_mark(text) {
        Some(i) => {
            proof {
                lemma_find_rest_mark(t, 0);
                lemma_cut_text(t, 0, i as int);
                lemma_cut_text(t, i + 2, t.len() as int);
            }
            let head = slice_subrange(text, 0, i);
            let tail = slice_subrange(text, i + 2, text.len());
            proof {
                assert(head@ =~= t.take(i as int));
                assert(tail@ =~= t.skip(i + 2));
                lemma_split_text(head@, 0x20);
            }
            let pieces = split_slice(head, 0x20);
            let mut out = texts_of(&pieces);
            let ghost before = out@;
            out.push(into_text(bytes_to_vec(tail)));
            proof {
                lemma_decode_encode(tail@);
                assert(pieces@.map_values(|p: &[u8]| p@) =~= split_bytes(head@, 0x20));
                assert(texts_bytes(out@) =~= texts_bytes(before).push(tail@));
            }
            Ok(out)
        },
        None => {
            proof {
                lemma_split_text(t, 0x20);
            }
            let pieces = split_slice(text, 0x20);
            let out = texts_of(&pieces);
            proof {
                assert(pieces@.map_values(|p: &[u8]| p@) =~= split_bytes(t, 0x20));
            }
            Ok(out)
        },
    }
}

/// Splits `text` at its first space into the command and the parameters
/// that follow.
fn parse_message_rest(text: &[u8]) -> (r: Result<(String, Vec<String>), Option<String>>)
    requires
        valid_utf8(text@),
        after_space(text@) is Some,
    ensures
        match r {
            Ok((command, v)) => message_args(after_space(text@)->Some_0) == Some(texts_bytes(v@))
                && encode_utf8(command@) == text@.take(spec_find(text@, 0x20, 0)->Some_0),
            Err(e) => message_args(after_space(text@)->Some_0) is None && (e matches Some(s) && s@
                == invalid_text()),
        },
{
    let ghost t = text@;
    proof {
        lemma_find(t, 0x20, 0);
    }
    let i = find_character(text, 0x20, 0).unwrap();
    proof {
        lemma_cut_text(t, 0, i as int);
        lemma_cut_text(t, i + 1, t.len() as int);
    }
    let head = slice_subrange(text, 0, i);
    let tail = slice_subrange(text, i + 1, text.len());
    proof {
        assert(tail@ =~= t.skip(i + 1));
    }
    let args = match parse_message_args(tail) {
        Ok(args) => args,
        Err(err) => {
            return Err(err);
        },
    };
    let command = into_text(bytes_to_vec(head));
    proof {
        lemma_decode_encode(head@);
    }
    Ok((command, args))
}

impl IrcMessage {
    /// The typed message.
    pub closed spec fn typed(&self) -> (IncomingKind, IrcMsgView) {
        self.msg2@
    }

    /// Reads a line.  It is refused when it is empty, when its prefix is not
    /// followed by a space, when nothing follows the space after its command,
    /// and when it does not parse.
    pub fn from_str(text: &str) -> (r: Result<IrcMessage, String>)
        requires
            !from_str_faults(text.spec_bytes()),
        ensures
            text.spec_bytes().len() == 0 ==> (r matches Err(e) && e@ == empty_text()),
            text.spec_bytes().len() > 0 && line_body(text.spec_bytes()) is None ==> (r matches Err(e)
                && e@ == invalid_text()),
            text.spec_bytes().len() > 0 && line_body(text.spec_bytes()) is Some ==> match message_args(
                param_text(text.spec_bytes())->Some_0,
            ) {
                None => (r matches Err(e) && e@ == no_params_text()),
                Some(args) => match spec_new_msg(text.spec_bytes()) {
                    Ok(m) => (r matches Ok(msg) && msg@.1 == args && msg.typed().1 == m
                        && msg.typed().0 == crate::message_types::server::spec_incoming_kind(m)),
                    Err(ParseError::InvalidMessage(desc)) => (r matches Err(e) && e@ == desc@),
                    Err(ParseError::EncodingError) => (r matches Err(e) && e@ == bad_encoding_text()),
                },
            },
    {
        let bytes = str_bytes(text);
        let ghost t = bytes@;
        proof {
            reveal_strlit("Invalid IRC message; empty");
            reveal_strlit("Invalid IRC message");
            reveal_strlit("Invalid IRC message: Some(Invalid IRC message)");
            reveal_strlit("bad encoding");
        }
        if bytes.len() == 0 {
            return Err(str_to_string("Invalid IRC message; empty"));
        }
        let args = if bytes[0] == 0x3a {
            let space = find_character(bytes, 0x20, 0);
            proof {
                lemma_find(t, 0x20, 0);
            }
            let i = match space {
                Some(i) => i,
                None => {
                    return Err(str_to_string("Invalid IRC message"));
                },
            };
            let body = slice_subrange(bytes, i + 1, bytes.len());
            proof {
                lemma_cut_text(t, i + 1, t.len() as int);
                assert(body@ =~= t.skip(i + 1));
            }
            match parse_message_rest(body) {
                Ok((_, args)) => args,
                Err(_) => {
                    return Err(str_to_string("Invalid IRC message: Some(Invalid IRC message)"));
                },
            }
        } else {
            match parse_message_rest(bytes) {
                Ok((_, args)) => args,
                Err(_) => {
                    return Err(str_to_string("Invalid IRC message: Some(Invalid IRC message)"));
                },
            }
        };
        let msg2 = match IrcMsg::new(bytes_to_vec(bytes)) {
            Ok(msg) => IncomingMsg::from_msg(msg),
            Err(ParseError::InvalidMessage(desc)) => {
                return Err(str_to_string(desc));
            },
            Err(ParseError::EncodingError) => {
                return Err(str_to_string("bad encoding"));
            },
        };
        Ok(IrcMessage { msg2: msg2, args: args })
    }

    /// The typed message.
    pub fn get_typed_message(&self) -> (r: &IncomingMsg)
        ensures
            r@ == self.typed(),
    {
        &self.msg2
    }

    /// The parsed line.
    pub fn as_irc_msg(&self) -> (r: &IrcMsg)
        ensures
            r@ == self.typed().1,
    {
        self.msg2.to_irc_msg()
    }

    /// The line was read as a `PRIVMSG`.
    pub fn is_privmsg(&self) -> (r: bool)
        ensures
            r == (self.typed().0 == IncomingKind::Privmsg),
    {
        self.get_typed_message().is_privmsg()
    }

    /// The command as received.
    pub fn command(&self) -> (r: &str)
        ensures
            r.spec_bytes() == command_bytes(self.typed().1),
    {
        self.get_typed_message().to_irc_msg().get_command()
    }

    /// The prefix, when the line has one.
    pub fn get_prefix(&self) -> (r: Option<IrcMsgPrefix>)
        ensures
            r is Some == (self.typed().1.prefix.1 > self.typed().1.prefix.0),
            r matches Some(p) ==> p@ == prefix_bytes(self.typed().1),
    {
        let msg = self.get_typed_message().to_irc_msg();
        if msg.has_prefix() {
            Some(msg.get_prefix())
        } else {
            None
        }
    }

    /// The prefix as received, when the line has one.
    pub fn get_prefix_raw(&self) -> (r: Option<&str>)
        ensures
            r is Some == (self.typed().1.prefix.1 > self.typed().1.prefix.0),
            r matches Some(p) ==> p.spec_bytes() == prefix_bytes(self.typed().1),
    {
        let msg = self.get_typed_message().to_irc_msg();
        if msg.has_prefix() {
            Some(msg.get_prefix_str())
        } else {
            None
        }
    }

    /// The nick the line comes from, when its prefix has one.
    pub fn source_nick(&self) -> (r: Option<String>)
        ensures
            r is Some == (self.typed().1.prefix.1 > self.typed().1.prefix.0 && prefix_nick(
                prefix_bytes(self.typed().1),
            ) is Some),
            r matches Some(n) ==> Some(encode_utf8(n@)) == prefix_nick(prefix_bytes(self.typed().1)),
    {
        match self.get_prefix() {
            Some(pref) => match pref.nick() {
                Some(nick) => {
                    let r = str_to_string(nick);
                    Some(r)
                },
                None => None,
            },
            None => None,
        }
    }

    /// The parameters as text; every one of them must be text.
    pub fn get_args(&self) -> (r: Vec<&str>)
        requires
            args_are_text(self.typed().1),
        ensures
            strs_bytes(r@) == args_of(self.typed().1),
    {
        let irc_msg = self.get_typed_message().to_irc_msg();
        let raw = irc_msg.get_args();
        let mut vecout: Vec<&str> = Vec::new();
        let mut i: usize = 0;
        while i < raw.len()
            invariant
                0 <= i <= raw@.len(),
                raw@.len() == irc_msg@.args.len(),
                irc_msg@ == self.typed().1,
                forall|j: int| 0 <= j < raw@.len() ==> (#[trigger] raw@[j])@ == arg_bytes(irc_msg@, j),
                args_are_text(irc_msg@),
                strs_bytes(vecout@) == args_of(irc_msg@).take(i as int),
            decreases raw.len() - i,
        {
            proof {
                assert(valid_utf8(arg_bytes(irc_msg@, i as int)));
            }
            let ghost before = vecout@;
            let text = as_text(raw[i]);
            vecout.push(text);
            i = i + 1;
            proof {
                assert(strs_bytes(vecout@) =~= strs_bytes(before).push(text.spec_bytes()));
                assert(args_of(irc_msg@).take(i as int) =~= args_of(irc_msg@).take(i - 1).push(
                    arg_bytes(irc_msg@, i - 1),
                ));
            }
        }
        proof {
            assert(args_of(irc_msg@).take(i as int) =~= args_of(irc_msg@));
        }
        vecout
    }

    /// The parameters as text, or nothing when one of them is not text.
    pub fn get_args_checked(&self) -> (r: Option<Vec<&str>>)
        ensures
            r is Some == args_are_text(self.typed().1),
            r matches Some(v) ==> strs_bytes(v@) == args_of(self.typed().1),
    {
        let irc_msg = self.get_typed_message().to_irc_msg();
        let raw = irc_msg.get_args();
        let mut vecout: Vec<&str> = Vec::new();
        let mut i: usize = 0;
        while i < raw.len()
            invariant
                0 <= i <= raw@.len(),
                raw@.len() == irc_msg@.args.len(),
                irc_msg@ == self.typed().1,
                forall|j: int| 0 <= j < raw@.len() ==> (#[trigger] raw@[j])@ == arg_bytes(irc_msg@, j),
                forall|j: int| 0 <= j < i ==> valid_utf8(#[trigger] arg_bytes(irc_msg@, j)),
                strs_bytes(vecout@) == args_of(irc_msg@).take(i as int),
            decreases raw.len() - i,
        {
            match str_from_utf8(raw[i]) {
                Ok(slice) => {
                    let ghost before = vecout@;
                    vecout.push(slice);
                    i = i + 1;
                    proof {
                        assert(strs_bytes(vecout@) =~= strs_bytes(before).push(slice.spec_bytes()));
                        assert(args_of(irc_msg@).take(i as int) =~= args_of(irc_msg@).take(i - 1).push(
                            arg_bytes(irc_msg@, i - 1),
                        ));
                    }
                },
                Err(_) => {
                    return None;
                },
            }
        }
        proof {
            assert(args_of(irc_msg@).take(i as int) =~= args_of(irc_msg@));
        }
        Some(vecout)
    }

    /// The channel the line is addressed to: its first parameter, when its
    /// command may target a channel and that parameter names one.
    pub fn channel(&self) -> (r: Option<&str>)
        requires
            targets_channel(command_bytes(self.typed().1)) ==> args_are_text(self.typed().1),
        ensures
            r is Some == (targets_channel(command_bytes(self.typed().1)) && self.typed().1.args.len()
                > 0 && arg_bytes(self.typed().1, 0).len() > 0 && is_channel_prefix_byte(
                arg_bytes(self.typed().1, 0)[0],
            )),
            r matches Some(c) ==> c.spec_bytes() == arg_bytes(self.typed().1, 0),
    {
        if can_target_channel(self.command()) {
            let args = self.get_args();
            proof {
                assert(strs_bytes(args@).len() == args@.len());
            }
            if args.len() > 0 {
                let channel_name = args[0];
                proof {
                    assert(strs_bytes(args@)[0] == channel_name.spec_bytes());
                    assert(args_of(self.typed().1)[0] == arg_bytes(self.typed().1, 0));
                }
                if is_channel(channel_name) {
                    return Some(channel_name);
                }
            }
        }
        None
    }

    /// The line is addressed to a channel.
    pub fn target_is_channel(&self) -> (r: bool)
        requires
            targets_channel(command_bytes(self.typed().1)) ==> args_are_text(self.typed().1),
        ensures
            r == (targets_channel(command_bytes(self.typed().1)) && self.typed().1.args.len() > 0
                && arg_bytes(self.typed().1, 0).len() > 0 && is_channel_prefix_byte(
                arg_bytes(self.typed().1, 0)[0],
            )),
    {
        self.channel().is_some()
    }
}

} // verus!

verus! {

/// Each parameter followed by a comma and a space.
pub open spec fn arg_listing(args: Seq<Seq<char>>) -> Seq<char>
    decreases args.len(),
{
    if args.len() == 0 {
        Seq::empty()
    } else {
        arg_listing(args.drop_last()) + args.last() + seq![',', ' ']
    }
}

/// `IrcMessage(`
pub open spec fn shown_head() -> Seq<char> {
    seq!['I', 'r', 'c', 'M', 'e', 's', 's', 'a', 'g', 'e', '(']
}

/// How a message reads as text: `IrcMessage(prefix, command, [a, b, ])`,
/// without the prefix and its comma when there is none.
pub open spec fn message_shown(prefix: Option<Seq<char>>, command: Seq<char>, args: Seq<Seq<char>>) -> Seq<char> {
    let listing = seq!['['] + arg_listing(args) + seq![']'];
    match prefix {
        Some(p) => shown_head() + p + seq![',', ' '] + command + seq![',', ' '] + listing + seq![')'],
        None => shown_head() + command + seq![',', ' '] + listing + seq![')'],
    }
}

impl IrcMessage {
    /// The text parameters, as characters.
    pub closed spec fn arg_texts(&self) -> Seq<Seq<char>> {
        self.args@.map_values(|s: String| s@)
    }

    /// The message as text, as it is shown in logs.
    pub fn to_string(&self) -> (r: String)
        ensures
            r@ == message_shown(
                if self.typed().1.prefix.1 > self.typed().1.prefix.0 {
                    Some(decode_utf8(prefix_bytes(self.typed().1)))
                } else {
                    None
                },
                decode_utf8(command_bytes(self.typed().1)),
                self.arg_texts(),
            ),
    {
        let ghost args = self.args@.map_values(|s: String| s@);
        let mut arg_string = String::new();
        proof {
            reveal_strlit("[");
            reveal_strlit("]");
            reveal_strlit(", ");
            reveal_strlit("IrcMessage(");
            reveal_strlit(")");
        }
        arg_string.append("[");
        let mut i: usize = 0;
        while i < self.args.len()
            invariant
                0 <= i <= self.args@.len(),
                args == self.args@.map_values(|s: String| s@),
                arg_string@ == seq!['['] + arg_listing(args.take(i as int)),
            decreases self.args.len() - i,
        {
            proof {
                assert(args.take(i + 1).drop_last() =~= args.take(i as int));
                assert(args.take(i + 1).last() == self.args@[i as int]@);
                reveal_strlit(", ");
            }
            let ghost before = arg_string@;
            arg_string.append(self.args[i].as_str());
            arg_string.append(", ");
            proof {
                assert(arg_string@ == before + self.args@[i as int]@ + seq![',', ' ']);
                assert(arg_string@ =~= seq!['['] + arg_listing(args.take(i + 1)));
            }
            i = i + 1;
        }
        arg_string.append("]");
        proof {
            assert(args.take(i as int) =~= args);
        }
        let command = self.command();
        proof {
            encode_utf8_decode_utf8(command@);
        }
        let mut out = String::new();
        out.append("IrcMessage(");
        match self.get_prefix_raw() {
            Some(prefix) => {
                proof {
                    encode_utf8_decode_utf8(prefix@);
                }
                out.append(prefix);
                out.append(", ");
            },
            None => {},
        }
        out.append(command);
        out.append(", ");
        out.append(arg_string.as_str());
        out.append(")");
        proof {
            assert(out@ =~= message_shown(
                if self.typed().1.prefix.1 > self.typed().1.prefix.0 {
                    Some(decode_utf8(prefix_bytes(self.typed().1)))
                } else {
                    None
                },
                decode_utf8(command_bytes(self.typed().1)),
                args,
            ));
        }
        out
    }
}

} // verus!
