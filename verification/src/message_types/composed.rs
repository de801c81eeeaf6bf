//! What the client lines read back as: each parses to its command and
//! exactly the parameters it was given, with no prefix.

use vstd::prelude::*;
use crate::parse::parse::{spec_new_msg, prefix_bytes, command_bytes, args_of};
use crate::parse::model::parse_faults;
use crate::parse::compose::{is_word, is_trailing, is_command_word, build_line, words_line, lemma_build_parses};
use crate::message_types::commands::{cmd_join, cmd_nick, cmd_pong, cmd_privmsg, cmd_user, cmd_who, cmd_ping, cmd_quit, cmd_invite};
use crate::mtype2::client as buf_lines;
use crate::legacy::message_types::client as legacy_lines;
use crate::message_types::client::{join_line, join_key_line, nick_line, pong_line, privmsg_line, ctcp_line, user_line, who_line, who_opers_line};

verus! {

/// The line parses, without fault, to no prefix, the command `cmd` and
/// exactly the parameters `args`.
pub open spec fn reads_as(line: Seq<u8>, cmd: Seq<u8>, args: Seq<Seq<u8>>) -> bool {
    &&& !parse_faults(line)
    &&& spec_new_msg(line) is Ok
    &&& prefix_bytes(spec_new_msg(line)->Ok_0) == Seq::<u8>::empty()
    &&& command_bytes(spec_new_msg(line)->Ok_0) == cmd
    &&& args_of(spec_new_msg(line)->Ok_0) == args
}

proof fn lemma_words_one(a: Seq<u8>)
    ensures
        words_line(seq![a]) == seq![0x20u8] + a,
{
    assert(seq![a].drop_last() =~= Seq::<Seq<u8>>::empty());
    assert(words_line(Seq::<Seq<u8>>::empty()) =~= Seq::<u8>::empty());
    assert(words_line(seq![a]) =~= seq![0x20u8] + a);
}

proof fn lemma_words_two(a: Seq<u8>, b: Seq<u8>)
    ensures
        words_line(seq![a, b]) == seq![0x20u8] + a + seq![0x20u8] + b,
{
    lemma_words_one(a);
    assert(seq![a, b].drop_last() =~= seq![a]);
    assert(words_line(seq![a, b]) =~= seq![0x20u8] + a + seq![0x20u8] + b);
}

proof fn lemma_words_three(a: Seq<u8>, b: Seq<u8>, c: Seq<u8>)
    ensures
        words_line(seq![a, b, c]) == seq![0x20u8] + a + seq![0x20u8] + b + seq![0x20u8] + c,
{
    lemma_words_two(a, b);
    assert(seq![a, b, c].drop_last() =~= seq![a, b]);
    assert(words_line(seq![a, b, c]) =~= seq![0x20u8] + a + seq![0x20u8] + b + seq![0x20u8] + c);
}

/// `PRIVMSG` with a target word and a text without line breaks reads back
/// as two parameters: the target and the whole text.
pub proof fn lemma_privmsg_line_reads_back(target: Seq<u8>, text: Seq<u8>)
    requires
        is_word(target),
        is_trailing(text),
    ensures
        reads_as(privmsg_line(target, text), cmd_privmsg(), seq![target, text]),
{
    lemma_words_one(target);
    assert(is_command_word(cmd_privmsg()));
    assert(privmsg_line(target, text) =~= build_line(cmd_privmsg(), seq![target], Some(text)));
    lemma_build_parses(cmd_privmsg(), seq![target], Some(text));
    assert(seq![target].push(text) =~= seq![target, text]);
}

/// A CTCP request with a target word and a text without spaces or line
/// breaks reads back as two parameters: the target and the text between
/// two `\x01` bytes.
pub proof fn lemma_ctcp_line_reads_back(target: Seq<u8>, text: Seq<u8>)
    requires
        is_word(target),
        forall|i: int| 0 <= i < text.len() ==> #[trigger] text[i] != 0x20 && text[i] != 0x0a && text[i] != 0x0d,
    ensures
        reads_as(ctcp_line(target, text), cmd_privmsg(), seq![target, seq![0x01u8] + text + seq![0x01u8]]),
{
    let body = seq![0x01u8] + text + seq![0x01u8];
    assert forall|i: int| 0 <= i < body.len() implies #[trigger] body[i] != 0x20 && body[i] != 0x0a && body[i] != 0x0d by {
        if 0 < i < body.len() - 1 {
            assert(body[i] == text[i - 1]);
        }
    }
    assert(is_word(body));
    lemma_words_two(target, body);
    assert(is_command_word(cmd_privmsg()));
    assert(ctcp_line(target, text) =~= build_line(cmd_privmsg(), seq![target, body], None));
    lemma_build_parses(cmd_privmsg(), seq![target, body], None);
}

/// `JOIN` with a channel word reads back as that one parameter.
pub proof fn lemma_join_line_reads_back(channel: Seq<u8>)
    requires
        is_word(channel),
    ensures
        reads_as(join_line(channel), cmd_join(), seq![channel]),
{
    lemma_words_one(channel);
    assert(is_command_word(cmd_join()));
    assert(join_line(channel) =~= build_line(cmd_join(), seq![channel], None));
    lemma_build_parses(cmd_join(), seq![channel], None);
}

/// `JOIN` with a channel and a key reads back as those two parameters.
pub proof fn lemma_join_key_line_reads_back(channel: Seq<u8>, key: Seq<u8>)
    requires
        is_word(channel),
        is_word(key),
    ensures
        reads_as(join_key_line(channel, key), cmd_join(), seq![channel, key]),
{
    lemma_words_two(channel, key);
    assert(is_command_word(cmd_join()));
    assert(join_key_line(channel, key) =~= build_line(cmd_join(), seq![channel, key], None));
    lemma_build_parses(cmd_join(), seq![channel, key], None);
}

/// `NICK` with a nick word reads back as that one parameter.
pub proof fn lemma_nick_line_reads_back(nick: Seq<u8>)
    requires
        is_word(nick),
    ensures
        reads_as(nick_line(nick), cmd_nick(), seq![nick]),
{
    lemma_words_one(nick);
    assert(is_command_word(cmd_nick()));
    assert(nick_line(nick) =~= build_line(cmd_nick(), seq![nick], None));
    lemma_build_parses(cmd_nick(), seq![nick], None);
}

/// `PONG` with an argument word reads back as that one parameter.
pub proof fn lemma_pong_line_reads_back(argument: Seq<u8>)
    requires
        is_word(argument),
    ensures
        reads_as(pong_line(argument), cmd_pong(), seq![argument]),
{
    lemma_words_one(argument);
    assert(is_command_word(cmd_pong()));
    assert(pong_line(argument) =~= build_line(cmd_pong(), seq![argument], None));
    lemma_build_parses(cmd_pong(), seq![argument], None);
}

/// `USER` reads back as the user, the mode, the unused word and the whole
/// real name, in that order.
pub proof fn lemma_user_line_reads_back(user: Seq<u8>, mode: Seq<u8>, unused: Seq<u8>, realname: Seq<u8>)
    requires
        is_word(user),
        is_word(mode),
        is_word(unused),
        is_trailing(realname),
    ensures
        reads_as(user_line(user, mode, unused, realname), cmd_user(), seq![user, mode, unused, realname]),
{
    lemma_words_three(user, mode, unused);
    assert(is_command_word(cmd_user()));
    assert(user_line(user, mode, unused, realname) =~= build_line(cmd_user(), seq![user, mode, unused], Some(realname)));
    lemma_build_parses(cmd_user(), seq![user, mode, unused], Some(realname));
    assert(seq![user, mode, unused].push(realname) =~= seq![user, mode, unused, realname]);
}

/// `WHO` with a target word reads back as that one parameter.
pub proof fn lemma_who_line_reads_back(target: Seq<u8>)
    requires
        is_word(target),
    ensures
        reads_as(who_line(target), cmd_who(), seq![target]),
{
    lemma_words_one(target);
    assert(is_command_word(cmd_who()));
    assert(who_line(target) =~= build_line(cmd_who(), seq![target], None));
    lemma_build_parses(cmd_who(), seq![target], None);
}

/// `WHO <target> o` reads back as the target and `o`.
pub proof fn lemma_who_opers_line_reads_back(target: Seq<u8>)
    requires
        is_word(target),
    ensures
        reads_as(who_opers_line(target), cmd_who(), seq![target, seq![0x6fu8]]),
{
    lemma_words_two(target, seq![0x6fu8]);
    assert(is_word(seq![0x6fu8]));
    assert(is_command_word(cmd_who()));
    assert(who_opers_line(target) =~= build_line(cmd_who(), seq![target, seq![0x6fu8]], None));
    lemma_build_parses(cmd_who(), seq![target, seq![0x6fu8]], None);
}

/// A client `INVITE` line reads back as the nickname and the channel.
pub proof fn lemma_buf_invite_line_reads_back(nickname: Seq<u8>, channel: Seq<u8>)
    requires
        is_word(nickname),
        is_word(channel),
    ensures
        reads_as(buf_lines::invite_line(nickname, channel), cmd_invite(), seq![nickname, channel]),
{
    lemma_words_two(nickname, channel);
    assert(is_command_word(cmd_invite()));
    assert(buf_lines::invite_line(nickname, channel) =~= build_line(cmd_invite(), seq![nickname, channel], None));
    lemma_build_parses(cmd_invite(), seq![nickname, channel], None);
}

/// A client `JOIN` line reads back as the channel.
pub proof fn lemma_buf_join_line_reads_back(channel: Seq<u8>)
    requires
        is_word(channel),
    ensures
        reads_as(buf_lines::join_line(channel), cmd_join(), seq![channel]),
{
    lemma_words_one(channel);
    assert(is_command_word(cmd_join()));
    assert(buf_lines::join_line(channel) =~= build_line(cmd_join(), seq![channel], None));
    lemma_build_parses(cmd_join(), seq![channel], None);
}

/// A client `NICK` line reads back as the nick.
pub proof fn lemma_buf_nick_line_reads_back(nick: Seq<u8>)
    requires
        is_word(nick),
    ensures
        reads_as(buf_lines::nick_line(nick), cmd_nick(), seq![nick]),
{
    lemma_words_one(nick);
    assert(is_command_word(cmd_nick()));
    assert(buf_lines::nick_line(nick) =~= build_line(cmd_nick(), seq![nick], None));
    lemma_build_parses(cmd_nick(), seq![nick], None);
}

/// A client `PING` line reads back as the whole server text.
pub proof fn lemma_buf_ping_line_reads_back(server: Seq<u8>)
    requires
        is_trailing(server),
    ensures
        reads_as(buf_lines::ping_line(server), cmd_ping(), seq![server]),
{
    assert(words_line(Seq::<Seq<u8>>::empty()) =~= Seq::<u8>::empty());
    assert(is_command_word(cmd_ping()));
    assert(buf_lines::ping_line(server) =~= build_line(cmd_ping(), Seq::<Seq<u8>>::empty(), Some(server)));
    lemma_build_parses(cmd_ping(), Seq::<Seq<u8>>::empty(), Some(server));
    assert(Seq::<Seq<u8>>::empty().push(server) =~= seq![server]);
}

/// A client `PONG` line reads back as the source.
pub proof fn lemma_buf_pong_line_reads_back(source: Seq<u8>)
    requires
        is_word(source),
    ensures
        reads_as(buf_lines::pong_line(source), cmd_pong(), seq![source]),
{
    lemma_words_one(source);
    assert(is_command_word(cmd_pong()));
    assert(buf_lines::pong_line(source) =~= build_line(cmd_pong(), seq![source], None));
    lemma_build_parses(cmd_pong(), seq![source], None);
}

/// A client `PRIVMSG` line reads back as the target and the whole message.
pub proof fn lemma_buf_privmsg_line_reads_back(target: Seq<u8>, message: Seq<u8>)
    requires
        is_word(target),
        is_trailing(message),
    ensures
        reads_as(buf_lines::privmsg_line(target, message), cmd_privmsg(), seq![target, message]),
{
    lemma_words_one(target);
    assert(is_command_word(cmd_privmsg()));
    assert(buf_lines::privmsg_line(target, message) =~= build_line(cmd_privmsg(), seq![target], Some(message)));
    lemma_build_parses(cmd_privmsg(), seq![target], Some(message));
    assert(seq![target].push(message) =~= seq![target, message]);
}

/// A client `QUIT` line reads back as the whole reason.
pub proof fn lemma_buf_quit_line_reads_back(reason: Seq<u8>)
    requires
        is_trailing(reason),
    ensures
        reads_as(buf_lines::quit_line(reason), cmd_quit(), seq![reason]),
{
    assert(words_line(Seq::<Seq<u8>>::empty()) =~= Seq::<u8>::empty());
    assert(is_command_word(cmd_quit()));
    assert(buf_lines::quit_line(reason) =~= build_line(cmd_quit(), Seq::<Seq<u8>>::empty(), Some(reason)));
    lemma_build_parses(cmd_quit(), Seq::<Seq<u8>>::empty(), Some(reason));
    assert(Seq::<Seq<u8>>::empty().push(reason) =~= seq![reason]);
}

/// A `PING` line reads back as the whole argument.
pub proof fn lemma_legacy_ping_line_reads_back(argument: Seq<u8>)
    requires
        is_trailing(argument),
    ensures
        reads_as(legacy_lines::ping_line(argument), cmd_ping(), seq![argument]),
{
    assert(words_line(Seq::<Seq<u8>>::empty()) =~= Seq::<u8>::empty());
    assert(is_command_word(cmd_ping()));
    assert(legacy_lines::ping_line(argument) =~= build_line(cmd_ping(), Seq::<Seq<u8>>::empty(), Some(argument)));
    lemma_build_parses(cmd_ping(), Seq::<Seq<u8>>::empty(), Some(argument));
    assert(Seq::<Seq<u8>>::empty().push(argument) =~= seq![argument]);
}

/// A `QUIT` line reads back as the whole message.
pub proof fn lemma_legacy_quit_line_reads_back(message: Seq<u8>)
    requires
        is_trailing(message),
    ensures
        reads_as(legacy_lines::quit_line(message), cmd_quit(), seq![message]),
{
    assert(words_line(Seq::<Seq<u8>>::empty()) =~= Seq::<u8>::empty());
    assert(is_command_word(cmd_quit()));
    assert(legacy_lines::quit_line(message) =~= build_line(cmd_quit(), Seq::<Seq<u8>>::empty(), Some(message)));
    lemma_build_parses(cmd_quit(), Seq::<Seq<u8>>::empty(), Some(message));
    assert(Seq::<Seq<u8>>::empty().push(message) =~= seq![message]);
}

/// A `USER` line reads back as the user, the mode, the unused word and the whole real name.
pub proof fn lemma_legacy_user_line_reads_back(user: Seq<u8>, mode: Seq<u8>, unused: Seq<u8>, realname: Seq<u8>)
    requires
        is_word(user),
        is_word(mode),
        is_word(unused),
        is_trailing(realname),
    ensures
        reads_as(legacy_lines::user_line(user, mode, unused, realname), cmd_user(), seq![user, mode, unused, realname]),
{
    lemma_words_three(user, mode, unused);
    assert(is_command_word(cmd_user()));
    assert(legacy_lines::user_line(user, mode, unused, realname) =~= build_line(cmd_user(), seq![user, mode, unused], Some(realname)));
    lemma_build_parses(cmd_user(), seq![user, mode, unused], Some(realname));
    assert(seq![user, mode, unused].push(realname) =~= seq![user, mode, unused, realname]);
}

} // verus!
