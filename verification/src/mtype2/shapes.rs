//! Where the parts of the lines the builders write are found again when the
//! lines are split: the source, the command and each parameter.

use vstd::prelude::*;
use crate::parse_helpers::{spec_find, spec_find_other, lemma_find, lemma_find_other, spec_split_word, spec_split_arg, spec_consume_whitespace, spec_all_non_white};
use crate::mtype2::server;
use crate::mtype2::validated;
use crate::mtype2::eq_ignore_ascii_case;

verus! {

/// The bytes hold no space.
pub open spec fn no_space(s: Seq<u8>) -> bool {
    forall|i: int| 0 <= i < s.len() ==> #[trigger] s[i] != 0x20
}

/// A parameter written on its own: not empty, no space, not starting with
/// `:`.
pub open spec fn plain_param(s: Seq<u8>) -> bool {
    &&& s.len() > 0
    &&& no_space(s)
    &&& s[0] != 0x3a
}

/// Splitting `a b` at the space gives `a` and `b`, when `a` holds no space
/// and `b` does not start with one.
pub proof fn lemma_split_word_at(a: Seq<u8>, b: Seq<u8>)
    requires
        no_space(a),
        b.len() == 0 || b[0] != 0x20,
    ensures
        spec_split_word(a + seq![0x20u8] + b) == (a, b),
{
    let s = a + seq![0x20u8] + b;
    assert forall|j: int| 0 <= j < a.len() implies s[j] != 0x20 by {
        assert(s[j] == a[j]);
    }
    assert(s[a.len() as int] == 0x20);
    lemma_find(s, 0x20, 0);
    assert(spec_find(s, 0x20, 0) == Some(a.len() as int));
    assert(s.take(a.len() as int) =~= a);
    assert(s.skip(a.len() + 1int) =~= b);
    if b.len() > 0 {
        lemma_find_other(b, 0x20, 0);
        assert(spec_find_other(b, 0x20, 0) == Some(0int));
        assert(b.skip(0) =~= b);
    }
}

/// A word without spaces is split off whole.
pub proof fn lemma_split_word_whole(a: Seq<u8>)
    requires
        no_space(a),
    ensures
        spec_split_word(a) == (a, Seq::<u8>::empty()),
{
    lemma_find(a, 0x20, 0);
}

proof fn lemma_fold_refl(a: Seq<u8>)
    ensures
        eq_ignore_ascii_case(a, a),
{
}

/// `:source PRIVMSG target :body` splits back into its parts: the source
/// with its colon, the command, the target and the whole body, with nothing
/// after it.  With a non-empty source of non-white bytes, the strict reader
/// takes the line.
pub proof fn lemma_server_privmsg_shape(source: Seq<u8>, target: Seq<u8>, body: Seq<u8>)
    requires
        no_space(source),
        plain_param(target),
    ensures
        ({
            let l = server::privmsg_line(source, target, body);
            &&& server::source_of(l) == seq![0x3au8] + source
            &&& server::command_of(l) == server::privmsg_word()
            &&& server::target_of(l) == target
            &&& spec_split_arg(server::after_target(l)) == (body, Seq::<u8>::empty())
            &&& source.len() > 0 && spec_all_non_white(seq![0x3au8] + source) ==> server::privmsg_valid(l)
        }),
{
    let l = server::privmsg_line(source, target, body);
    let src = seq![0x3au8] + source;
    let rest3 = seq![0x3au8] + body;
    let rest2 = target + seq![0x20u8] + rest3;
    let rest1 = server::privmsg_word() + seq![0x20u8] + rest2;
    assert(l =~= src + seq![0x20u8] + rest1);
    assert(no_space(src)) by {
        assert forall|i: int| 0 <= i < src.len() implies #[trigger] src[i] != 0x20 by {
            if i > 0 {
                assert(src[i] == source[i - 1]);
            }
        }
    }
    lemma_split_word_at(src, rest1);
    assert(no_space(server::privmsg_word()));
    assert(rest2[0] == target[0]);
    lemma_split_word_at(server::privmsg_word(), rest2);
    assert(rest2[0] != 0x3a);
    lemma_split_word_at(target, rest3);
    assert(rest3.skip(1) =~= body);
    lemma_fold_refl(server::privmsg_word());
}

/// The same for the lines of the legacy-checked builder.
pub proof fn lemma_validated_privmsg_shape(source: Seq<u8>, target: Seq<u8>, body: Seq<u8>)
    requires
        no_space(source),
        plain_param(target),
    ensures
        ({
            let l = validated::privmsg_line(source, target, body);
            &&& validated::source_of(l) == seq![0x3au8] + source
            &&& validated::command_of(l) == server::privmsg_word()
            &&& validated::target_of(l) == target
            &&& spec_split_arg(validated::after_target(l)) == (body, Seq::<u8>::empty())
        }),
{
    assert(validated::privmsg_line(source, target, body) =~= server::privmsg_line(source, target, body));
    lemma_server_privmsg_shape(source, target, body);
}

/// `:source KICK channel who [:reason]` splits back into the source with its
/// colon, the command, the channel, the kicked user and the whole reason.
pub proof fn lemma_server_kick_shape(source: Seq<u8>, channel: Seq<u8>, who: Seq<u8>, reason: Option<Seq<u8>>)
    requires
        no_space(source),
        plain_param(channel),
        plain_param(who),
    ensures
        ({
            let l = server::kick_line(source, channel, who, reason);
            &&& server::source_of(l) == seq![0x3au8] + source
            &&& server::command_of(l) == seq![0x4bu8, 0x49, 0x43, 0x4b]
            &&& server::target_of(l) == channel
            &&& spec_split_arg(server::after_target(l)).0 == who
            &&& reason matches Some(t) ==> spec_split_arg(spec_split_arg(server::after_target(l)).1) == (t, Seq::<u8>::empty())
            &&& reason is None ==> spec_split_arg(server::after_target(l)).1 == Seq::<u8>::empty()
        }),
{
    let l = server::kick_line(source, channel, who, reason);
    let src = seq![0x3au8] + source;
    let kick = seq![0x4bu8, 0x49, 0x43, 0x4b];
    let tail = match reason {
        Some(t) => seq![0x3au8] + t,
        None => Seq::<u8>::empty(),
    };
    let rest3 = match reason {
        Some(t) => who + seq![0x20u8] + tail,
        None => who,
    };
    let rest2 = channel + seq![0x20u8] + rest3;
    let rest1 = kick + seq![0x20u8] + rest2;
    assert(l =~= src + seq![0x20u8] + rest1);
    assert(no_space(src)) by {
        assert forall|i: int| 0 <= i < src.len() implies #[trigger] src[i] != 0x20 by {
            if i > 0 {
                assert(src[i] == source[i - 1]);
            }
        }
    }
    lemma_split_word_at(src, rest1);
    assert(no_space(kick));
    assert(rest2[0] == channel[0]);
    lemma_split_word_at(kick, rest2);
    assert(rest3[0] == who[0]);
    lemma_split_word_at(channel, rest3);
    match reason {
        Some(t) => {
            lemma_split_word_at(who, tail);
            assert(tail.skip(1) =~= t);
        },
        None => {
            lemma_split_word_whole(who);
        },
    }
}

/// `:source JOIN channel` splits back into the source with its colon, the
/// command and the channel, with nothing after it.
pub proof fn lemma_server_join_shape(source: Seq<u8>, channel: Seq<u8>)
    requires
        no_space(source),
        plain_param(channel),
    ensures
        ({
            let l = server::join_line(source, channel);
            &&& server::source_of(l) == seq![0x3au8] + source
            &&& server::command_of(l) == seq![0x4au8, 0x4f, 0x49, 0x4e]
            &&& server::target_of(l) == channel
            &&& server::after_target(l) == Seq::<u8>::empty()
        }),
{
    let l = server::join_line(source, channel);
    let src = seq![0x3au8] + source;
    let join = seq![0x4au8, 0x4f, 0x49, 0x4e];
    let rest1 = join + seq![0x20u8] + channel;
    assert(l =~= src + seq![0x20u8] + rest1);
    assert(no_space(src)) by {
        assert forall|i: int| 0 <= i < src.len() implies #[trigger] src[i] != 0x20 by {
            if i > 0 {
                assert(src[i] == source[i - 1]);
            }
        }
    }
    lemma_split_word_at(src, rest1);
    assert(no_space(join));
    lemma_split_word_at(join, channel);
    lemma_split_word_whole(channel);
}

/// The same for the `KICK` lines of the legacy-checked builder.
pub proof fn lemma_validated_kick_shape(source: Seq<u8>, channel: Seq<u8>, who: Seq<u8>, reason: Option<Seq<u8>>)
    requires
        no_space(source),
        plain_param(channel),
        plain_param(who),
    ensures
        ({
            let l = validated::kick_line(source, channel, who, reason);
            &&& validated::source_of(l) == seq![0x3au8] + source
            &&& validated::command_of(l) == seq![0x4bu8, 0x49, 0x43, 0x4b]
            &&& validated::target_of(l) == channel
            &&& spec_split_arg(validated::after_target(l)).0 == who
            &&& reason matches Some(t) ==> spec_split_arg(spec_split_arg(validated::after_target(l)).1) == (t, Seq::<u8>::empty())
            &&& reason is None ==> spec_split_arg(validated::after_target(l)).1 == Seq::<u8>::empty()
        }),
{
    assert(validated::kick_line(source, channel, who, reason) =~= server::kick_line(source, channel, who, reason));
    lemma_server_kick_shape(source, channel, who, reason);
}

/// `JOIN channel` has no source, the command and the channel, with nothing
/// after it.
pub proof fn lemma_validated_join_shape(channel: Seq<u8>)
    requires
        plain_param(channel),
    ensures
        ({
            let l = validated::join_line(channel);
            &&& validated::source_of(l) == Seq::<u8>::empty()
            &&& validated::command_of(l) == seq![0x4au8, 0x4f, 0x49, 0x4e]
            &&& validated::target_of(l) == channel
            &&& validated::after_target(l) == Seq::<u8>::empty()
        }),
{
    let l = validated::join_line(channel);
    let join = seq![0x4au8, 0x4f, 0x49, 0x4e];
    assert(l =~= join + seq![0x20u8] + channel);
    assert(no_space(join));
    lemma_split_word_at(join, channel);
    lemma_split_word_whole(channel);
}

} // verus!
