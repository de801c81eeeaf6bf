//! Answers CTCP `VERSION` requests.

use vstd::prelude::*;
use vstd::string::*;
use vstd::utf8::*;
use crate::parse::parse::{IrcMsg, spec_new_msg, ParseError, arg_bytes};
use crate::parse::model::IrcMsgView;
use crate::parse::compose::msg_builds;
use crate::message_types::server::{IncomingMsg, IncomingKind, spec_incoming_kind, incoming_faults};
use crate::message_types::client::{self, ctcp_line};
use crate::core_plugins::traits::MessageResponder;
use crate::text::{bytes_equal, str_bytes, str_to_string, push_bytes, string_bytes, as_text};
use crate::parse::compose::{vec_from_array, line_builds};
use crate::message_types::util::incoming_would_fault;
use crate::message_types::commands::privmsg_bytes;

verus! {

/// "rust-irc v0.4.0 https://github.com/infinityb/rust-irc"
pub open spec fn version_text() -> Seq<char> {
    "rust-irc v0.4.0 https://github.com/infinityb/rust-irc"@
}

/// The body of a CTCP `VERSION` request: `\x01VERSION\x01`.
pub open spec fn version_request_body() -> Seq<u8> {
    seq![0x01u8, 0x56, 0x45, 0x52, 0x53, 0x49, 0x4f, 0x4e, 0x01]
}

/// `VERSION `
pub open spec fn version_word() -> Seq<u8> {
    seq![0x56u8, 0x45, 0x52, 0x53, 0x49, 0x4f, 0x4e, 0x20]
}

/// What `{:?}` writes for a text: the text quoted, with its special
/// characters escaped.
pub uninterp spec fn debug_str(text: Seq<char>) -> Seq<char>;

/// A custom version followed by the library's: `<custom> (<library>)`, each
/// as `{:?}` writes it.
pub open spec fn debug_version_pair(custom: Seq<char>, version: Seq<char>) -> Seq<char> {
    debug_str(custom) + " ("@ + debug_str(version) + ")"@
}

/// The version text a responder gives: the library's, a custom one, or the
/// custom one followed by the library's.
pub open spec fn responder_version(customized: Option<Seq<char>>, include_rust_irc: bool) -> Seq<char> {
    match customized {
        None => version_text(),
        Some(custom) => if include_rust_irc {
            debug_version_pair(custom, version_text())
        } else {
            custom
        },
    }
}

/// The message is a CTCP `VERSION` request.
pub open spec fn is_version_request(m: IrcMsgView) -> bool {
    spec_incoming_kind(m) == IncomingKind::Privmsg && arg_bytes(m, 1) == version_request_body()
}

/// The line that answers a request from `m` with `version`.
pub open spec fn version_reply_line(m: IrcMsgView, version: Seq<char>) -> Seq<u8> {
    ctcp_line(arg_bytes(m, 0), version_word() + encode_utf8(version))
}

/// Answering faults: the answer does not parse back.
pub open spec fn reply_faults(m: IrcMsgView, version: Seq<char>) -> bool {
    ||| incoming_faults(m)
    ||| (is_version_request(m) && !msg_builds(version_reply_line(m, version)))
}

/// The answers to `m`: one to a version request, none otherwise.
pub open spec fn version_replies(m: IrcMsgView, version: Seq<char>) -> Seq<IrcMsgView> {
    if is_version_request(m) {
        seq![spec_new_msg(version_reply_line(m, version))->Ok_0]
    } else {
        Seq::empty()
    }
}

/// Writes a text as `{:?}` does.
#[verifier::external_body]
fn debug_text(text: &str) -> (r: String)
    ensures
        r@ == debug_str(text@),
{
    format!("{:?}", text)
}

/// Writes a custom version and the library's as `<custom> (<library>)`, each
/// as `{:?}` writes it.
fn format_version_pair(custom: &String, version: &str) -> (r: String)
    ensures
        r@ == debug_version_pair(custom@, version@),
{
    let mut out = debug_text(custom.as_str());
    out.append(" (");
    let library = debug_text(version);
    out.append(library.as_str());
    out.append(")");
    out
}

/// Responds to CTCP Version requests
#[derive(Debug)]
pub struct CtcpVersionResponder {
    customized: Option<String>,
    include_rust_irc: bool,
}

impl CtcpVersionResponder {
    /// The version this responder answers with.
    pub closed spec fn version(&self) -> Seq<char> {
        responder_version(
            match self.customized {
                Some(s) => Some(s@),
                None => None,
            },
            self.include_rust_irc,
        )
    }

    /// A responder that answers with the library's version.
    pub fn new() -> (r: CtcpVersionResponder)
        ensures
            r.version() == version_text(),
    {
        CtcpVersionResponder { customized: None, include_rust_irc: true }
    }

    /// The version text.
    pub fn get_version(&self) -> (r: String)
        ensures
            r@ == self.version(),
    {
        match (self.include_rust_irc, &self.customized) {
            (_, None) => str_to_string("rust-irc v0.4.0 https://github.com/infinityb/rust-irc"),
            (true, Some(customized)) => format_version_pair(
                customized,
                "rust-irc v0.4.0 https://github.com/infinityb/rust-irc",
            ),
            (false, Some(customized)) => customized.clone(),
        }
    }
}

impl CtcpVersionResponder {
    /// Whether answering `msg` goes wrong: the line does not read as an
    /// incoming message, or the answer to a version request does not read
    /// back.
    pub fn reply_would_fault(&self, msg: &IrcMsg) -> (r: bool)
        ensures
            r == reply_faults(msg@, self.version()),
    {
        if incoming_would_fault(msg) {
            return true;
        }
        let ty_msg = IncomingMsg::from_msg(msg.clone());
        if let IncomingMsg::Privmsg(privmsg) = &ty_msg {
            let request = vec_from_array([0x01u8, 0x56, 0x45, 0x52, 0x53, 0x49, 0x4f, 0x4e, 0x01]);
            if bytes_equal(privmsg.get_body_raw(), request.as_slice()) {
                let version = self.get_version();
                let mut line = privmsg_bytes();
                line.push(0x20);
                push_bytes(&mut line, str_bytes(privmsg.get_target()));
                line.push(0x20);
                line.push(0x01);
                let head = vec_from_array([0x56u8, 0x45, 0x52, 0x53, 0x49, 0x4f, 0x4e, 0x20]);
                push_bytes(&mut line, head.as_slice());
                push_bytes(&mut line, string_bytes(&version));
                line.push(0x01);
                proof {
                    assert(line@ =~= version_reply_line(msg@, self.version()));
                }
                return !line_builds(&line);
            }
        }
        false
    }
}

impl MessageResponder for CtcpVersionResponder {
    open spec fn faults_on(&self, message: IrcMsgView) -> bool {
        reply_faults(message, self.version())
    }

    /// Answers a CTCP `VERSION` request with the version; nothing else is
    /// answered.
    fn on_irc_msg(&mut self, msg: &IrcMsg) -> (r: Vec<IrcMsg>)
        ensures
            final(self).version() == old(self).version(),
            r@.map_values(|x: IrcMsg| x@) == version_replies(msg@, old(self).version()),
    {
        let ty_msg = IncomingMsg::from_msg(msg.clone());
        let mut out: Vec<IrcMsg> = Vec::new();
        if let IncomingMsg::Privmsg(privmsg) = &ty_msg {
            let request = vec_from_array([0x01u8, 0x56, 0x45, 0x52, 0x53, 0x49, 0x4f, 0x4e, 0x01]);
            if bytes_equal(privmsg.get_body_raw(), request.as_slice()) {
                let mut vec: Vec<u8> = vec_from_array([0x56u8, 0x45, 0x52, 0x53, 0x49, 0x4f, 0x4e, 0x20]);
                let version = self.get_version();
                push_bytes(&mut vec, string_bytes(&version));
                let reply = client::Privmsg::new_ctcp(privmsg.get_target(), vec.as_slice());
                out.push(reply.into_irc_msg());
                proof {
                    assert(out@.map_values(|x: IrcMsg| x@) =~= version_replies(msg@, old(self).version()));
                }
                return out;
            }
        }
        proof {
            assert(out@.map_values(|x: IrcMsg| x@) =~= version_replies(msg@, old(self).version()));
        }
        out
    }
}

} // verus!
