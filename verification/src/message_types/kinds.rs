//! How a received line is classified: which lines read as each typed
//! server message.

use vstd::prelude::*;
use crate::parse::model::IrcMsgView;
use crate::parse::parse::command_bytes;
use crate::irccase::eq_under;
use crate::message_types::commands::{cmd_join, cmd_kick, cmd_mode, cmd_nick, cmd_notice, cmd_part, cmd_ping, cmd_privmsg, cmd_quit, cmd_topic, cmd_invite};
use crate::message_types::server::{IncomingKind, spec_incoming_kind, cmd_is, full_prefix, arg_is_text, join_valid, kick_valid, mode_valid, nick_valid, notice_valid, part_valid, ping_valid, privmsg_valid, quit_valid, topic_valid, invite_valid};

verus! {

/// A line whose command is `JOIN` reads as a `Join` exactly when it has
/// at least one parameter, a `nick!user@host` prefix and a text first parameter; otherwise it is unknown.  The typed reader takes the command in
/// any IRC case, with the same checks.
pub proof fn lemma_join_lines(v: IrcMsgView)
    ensures
        command_bytes(v) == cmd_join() ==> (spec_incoming_kind(v) == IncomingKind::Join) == (v.args.len() >= 1 && full_prefix(v) && arg_is_text(v, 0)),
        command_bytes(v) == cmd_join() ==> (spec_incoming_kind(v) == IncomingKind::Join || spec_incoming_kind(v) == IncomingKind::Unknown),
        join_valid(v) == (cmd_is(v, cmd_join()) && v.args.len() >= 1 && full_prefix(v) && arg_is_text(v, 0)),
{
    if command_bytes(v) == cmd_join() {
        
        assert(eq_under(command_bytes(v), cmd_join(), |x: u8| crate::irccase::rfc1459_lower(x)));
    }
}

/// A line whose command is `KICK` reads as a `Kick` exactly when it has
/// at least three parameters, a `nick!user@host` prefix and text first and second parameters; otherwise it is unknown.  The typed reader takes the command in
/// any IRC case, with the same checks.
pub proof fn lemma_kick_lines(v: IrcMsgView)
    ensures
        command_bytes(v) == cmd_kick() ==> (spec_incoming_kind(v) == IncomingKind::Kick) == (v.args.len() >= 3 && full_prefix(v) && arg_is_text(v, 0) && arg_is_text(v, 1)),
        command_bytes(v) == cmd_kick() ==> (spec_incoming_kind(v) == IncomingKind::Kick || spec_incoming_kind(v) == IncomingKind::Unknown),
        kick_valid(v) == (cmd_is(v, cmd_kick()) && v.args.len() >= 3 && full_prefix(v) && arg_is_text(v, 0) && arg_is_text(v, 1)),
{
    if command_bytes(v) == cmd_kick() {
        assert(cmd_join()[0] != cmd_kick()[0]);
        assert(eq_under(command_bytes(v), cmd_kick(), |x: u8| crate::irccase::rfc1459_lower(x)));
    }
}

/// A line whose command is `MODE` reads as a `Mode` exactly when it has
/// at least two parameters, a `nick!user@host` prefix and a text first parameter; otherwise it is unknown.  The typed reader takes the command in
/// any IRC case, with the same checks.
pub proof fn lemma_mode_lines(v: IrcMsgView)
    ensures
        command_bytes(v) == cmd_mode() ==> (spec_incoming_kind(v) == IncomingKind::Mode) == (v.args.len() >= 2 && full_prefix(v) && arg_is_text(v, 0)),
        command_bytes(v) == cmd_mode() ==> (spec_incoming_kind(v) == IncomingKind::Mode || spec_incoming_kind(v) == IncomingKind::Unknown),
        mode_valid(v) == (cmd_is(v, cmd_mode()) && v.args.len() >= 2 && full_prefix(v) && arg_is_text(v, 0)),
{
    if command_bytes(v) == cmd_mode() {
        assert(cmd_join()[0] != cmd_mode()[0]);
        assert(cmd_kick()[0] != cmd_mode()[0]);
        assert(eq_under(command_bytes(v), cmd_mode(), |x: u8| crate::irccase::rfc1459_lower(x)));
    }
}

/// A line whose command is `NICK` reads as a `Nick` exactly when it has
/// at least two parameters, a `nick!user@host` prefix and text first and second parameters; otherwise it is unknown.  The typed reader takes the command in
/// any IRC case, with the same checks.
pub proof fn lemma_nick_lines(v: IrcMsgView)
    ensures
        command_bytes(v) == cmd_nick() ==> (spec_incoming_kind(v) == IncomingKind::Nick) == (v.args.len() >= 2 && full_prefix(v) && arg_is_text(v, 0) && arg_is_text(v, 1)),
        command_bytes(v) == cmd_nick() ==> (spec_incoming_kind(v) == IncomingKind::Nick || spec_incoming_kind(v) == IncomingKind::Unknown),
        nick_valid(v) == (cmd_is(v, cmd_nick()) && v.args.len() >= 2 && full_prefix(v) && arg_is_text(v, 0) && arg_is_text(v, 1)),
{
    if command_bytes(v) == cmd_nick() {
        assert(cmd_join()[0] != cmd_nick()[0]);
        assert(cmd_kick()[0] != cmd_nick()[0]);
        assert(cmd_mode()[0] != cmd_nick()[0]);
        assert(eq_under(command_bytes(v), cmd_nick(), |x: u8| crate::irccase::rfc1459_lower(x)));
    }
}

/// A line whose command is `NOTICE` reads as a `Notice` exactly when it has
/// at least two parameters, a `nick!user@host` prefix and a text first parameter; otherwise it is unknown.  The typed reader takes the command in
/// any IRC case, with the same checks.
pub proof fn lemma_notice_lines(v: IrcMsgView)
    ensures
        command_bytes(v) == cmd_notice() ==> (spec_incoming_kind(v) == IncomingKind::Notice) == (v.args.len() >= 2 && full_prefix(v) && arg_is_text(v, 0)),
        command_bytes(v) == cmd_notice() ==> (spec_incoming_kind(v) == IncomingKind::Notice || spec_incoming_kind(v) == IncomingKind::Unknown),
        notice_valid(v) == (cmd_is(v, cmd_notice()) && v.args.len() >= 2 && full_prefix(v) && arg_is_text(v, 0)),
{
    if command_bytes(v) == cmd_notice() {
        assert(cmd_join().len() != cmd_notice().len());
        assert(cmd_kick().len() != cmd_notice().len());
        assert(cmd_mode().len() != cmd_notice().len());
        assert(cmd_nick().len() != cmd_notice().len());
        assert(eq_under(command_bytes(v), cmd_notice(), |x: u8| crate::irccase::rfc1459_lower(x)));
    }
}

/// A line whose command is `PART` reads as a `Part` exactly when it has
/// at least one parameter, a `nick!user@host` prefix and a text first parameter; otherwise it is unknown.  The typed reader takes the command in
/// any IRC case, with the same checks.
pub proof fn lemma_part_lines(v: IrcMsgView)
    ensures
        command_bytes(v) == cmd_part() ==> (spec_incoming_kind(v) == IncomingKind::Part) == (v.args.len() >= 1 && full_prefix(v) && arg_is_text(v, 0)),
        command_bytes(v) == cmd_part() ==> (spec_incoming_kind(v) == IncomingKind::Part || spec_incoming_kind(v) == IncomingKind::Unknown),
        part_valid(v) == (cmd_is(v, cmd_part()) && v.args.len() >= 1 && full_prefix(v) && arg_is_text(v, 0)),
{
    if command_bytes(v) == cmd_part() {
        assert(cmd_join()[0] != cmd_part()[0]);
        assert(cmd_kick()[0] != cmd_part()[0]);
        assert(cmd_mode()[0] != cmd_part()[0]);
        assert(cmd_nick()[0] != cmd_part()[0]);
        assert(cmd_notice().len() != cmd_part().len());
        assert(eq_under(command_bytes(v), cmd_part(), |x: u8| crate::irccase::rfc1459_lower(x)));
    }
}

/// A line whose command is `PING` reads as a `Ping` exactly when it has
/// at least one parameter, the first (and the second, when there is one) text; otherwise it is unknown.  The typed reader takes the command in
/// any IRC case, with the same checks.
pub proof fn lemma_ping_lines(v: IrcMsgView)
    ensures
        command_bytes(v) == cmd_ping() ==> (spec_incoming_kind(v) == IncomingKind::Ping) == (v.args.len() >= 1 && arg_is_text(v, 0) && (v.args.len() >= 2 ==> arg_is_text(v, 1))),
        command_bytes(v) == cmd_ping() ==> (spec_incoming_kind(v) == IncomingKind::Ping || spec_incoming_kind(v) == IncomingKind::Unknown),
        ping_valid(v) == (cmd_is(v, cmd_ping()) && v.args.len() >= 1 && arg_is_text(v, 0) && (v.args.len() >= 2 ==> arg_is_text(v, 1))),
{
    if command_bytes(v) == cmd_ping() {
        assert(cmd_join()[0] != cmd_ping()[0]);
        assert(cmd_kick()[0] != cmd_ping()[0]);
        assert(cmd_mode()[0] != cmd_ping()[0]);
        assert(cmd_nick()[0] != cmd_ping()[0]);
        assert(cmd_notice().len() != cmd_ping().len());
        assert(cmd_part()[1] != cmd_ping()[1]);
        assert(eq_under(command_bytes(v), cmd_ping(), |x: u8| crate::irccase::rfc1459_lower(x)));
    }
}

/// A line whose command is `PRIVMSG` reads as a `Privmsg` exactly when it has
/// at least two parameters, a `nick!user@host` prefix and a text first parameter; otherwise it is unknown.  The typed reader takes the command in
/// any IRC case, with the same checks.
pub proof fn lemma_privmsg_lines(v: IrcMsgView)
    ensures
        command_bytes(v) == cmd_privmsg() ==> (spec_incoming_kind(v) == IncomingKind::Privmsg) == (v.args.len() >= 2 && full_prefix(v) && arg_is_text(v, 0)),
        command_bytes(v) == cmd_privmsg() ==> (spec_incoming_kind(v) == IncomingKind::Privmsg || spec_incoming_kind(v) == IncomingKind::Unknown),
        privmsg_valid(v) == (cmd_is(v, cmd_privmsg()) && v.args.len() >= 2 && full_prefix(v) && arg_is_text(v, 0)),
{
    if command_bytes(v) == cmd_privmsg() {
        assert(cmd_join().len() != cmd_privmsg().len());
        assert(cmd_kick().len() != cmd_privmsg().len());
        assert(cmd_mode().len() != cmd_privmsg().len());
        assert(cmd_nick().len() != cmd_privmsg().len());
        assert(cmd_notice().len() != cmd_privmsg().len());
        assert(cmd_part().len() != cmd_privmsg().len());
        assert(cmd_ping().len() != cmd_privmsg().len());
        assert(eq_under(command_bytes(v), cmd_privmsg(), |x: u8| crate::irccase::rfc1459_lower(x)));
    }
}

/// A line whose command is `QUIT` reads as a `Quit` exactly when it has
/// at least one parameter, the first text; otherwise it is unknown.  The typed reader takes the command in
/// any IRC case, with the same checks.
pub proof fn lemma_quit_lines(v: IrcMsgView)
    ensures
        command_bytes(v) == cmd_quit() ==> (spec_incoming_kind(v) == IncomingKind::Quit) == (v.args.len() >= 1 && arg_is_text(v, 0)),
        command_bytes(v) == cmd_quit() ==> (spec_incoming_kind(v) == IncomingKind::Quit || spec_incoming_kind(v) == IncomingKind::Unknown),
        quit_valid(v) == (cmd_is(v, cmd_quit()) && v.args.len() >= 1 && arg_is_text(v, 0)),
{
    if command_bytes(v) == cmd_quit() {
        assert(cmd_join()[0] != cmd_quit()[0]);
        assert(cmd_kick()[0] != cmd_quit()[0]);
        assert(cmd_mode()[0] != cmd_quit()[0]);
        assert(cmd_nick()[0] != cmd_quit()[0]);
        assert(cmd_notice().len() != cmd_quit().len());
        assert(cmd_part()[0] != cmd_quit()[0]);
        assert(cmd_ping()[0] != cmd_quit()[0]);
        assert(cmd_privmsg().len() != cmd_quit().len());
        assert(eq_under(command_bytes(v), cmd_quit(), |x: u8| crate::irccase::rfc1459_lower(x)));
    }
}

/// A line whose command is `TOPIC` reads as a `Topic` exactly when it has
/// at least two parameters, a `nick!user@host` prefix and a text first parameter; otherwise it is unknown.  The typed reader takes the command in
/// any IRC case, with the same checks.
pub proof fn lemma_topic_lines(v: IrcMsgView)
    ensures
        command_bytes(v) == cmd_topic() ==> (spec_incoming_kind(v) == IncomingKind::Topic) == (v.args.len() >= 2 && full_prefix(v) && arg_is_text(v, 0)),
        command_bytes(v) == cmd_topic() ==> (spec_incoming_kind(v) == IncomingKind::Topic || spec_incoming_kind(v) == IncomingKind::Unknown),
        topic_valid(v) == (cmd_is(v, cmd_topic()) && v.args.len() >= 2 && full_prefix(v) && arg_is_text(v, 0)),
{
    if command_bytes(v) == cmd_topic() {
        assert(cmd_join().len() != cmd_topic().len());
        assert(cmd_kick().len() != cmd_topic().len());
        assert(cmd_mode().len() != cmd_topic().len());
        assert(cmd_nick().len() != cmd_topic().len());
        assert(cmd_notice().len() != cmd_topic().len());
        assert(cmd_part().len() != cmd_topic().len());
        assert(cmd_ping().len() != cmd_topic().len());
        assert(cmd_privmsg().len() != cmd_topic().len());
        assert(cmd_quit().len() != cmd_topic().len());
        assert(eq_under(command_bytes(v), cmd_topic(), |x: u8| crate::irccase::rfc1459_lower(x)));
    }
}

/// A line whose command is `INVITE` reads as a `Invite` exactly when it has
/// at least two parameters, a `nick!user@host` prefix and a text first parameter; otherwise it is unknown.  The typed reader takes the command in
/// any IRC case, with the same checks.
pub proof fn lemma_invite_lines(v: IrcMsgView)
    ensures
        command_bytes(v) == cmd_invite() ==> (spec_incoming_kind(v) == IncomingKind::Invite) == (v.args.len() >= 2 && full_prefix(v) && arg_is_text(v, 0)),
        command_bytes(v) == cmd_invite() ==> (spec_incoming_kind(v) == IncomingKind::Invite || spec_incoming_kind(v) == IncomingKind::Unknown),
        invite_valid(v) == (cmd_is(v, cmd_invite()) && v.args.len() >= 2 && full_prefix(v) && arg_is_text(v, 0)),
{
    if command_bytes(v) == cmd_invite() {
        assert(cmd_join().len() != cmd_invite().len());
        assert(cmd_kick().len() != cmd_invite().len());
        assert(cmd_mode().len() != cmd_invite().len());
        assert(cmd_nick().len() != cmd_invite().len());
        assert(cmd_notice()[0] != cmd_invite()[0]);
        assert(cmd_part().len() != cmd_invite().len());
        assert(cmd_ping().len() != cmd_invite().len());
        assert(cmd_privmsg().len() != cmd_invite().len());
        assert(cmd_quit().len() != cmd_invite().len());
        assert(cmd_topic().len() != cmd_invite().len());
        assert(eq_under(command_bytes(v), cmd_invite(), |x: u8| crate::irccase::rfc1459_lower(x)));
    }
}

} // verus!
