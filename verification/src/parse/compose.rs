//! Lines that the library writes itself: a command, some single-word
//! parameters and an optional trailing parameter after ` :`.  Such a line
//! parses back into exactly the parts it was built from.

use vstd::prelude::*;
use vstd::utf8::*;
use crate::parse::model::{IRCMSG_MAX_ARGS, SPACE, COLON, LF, CR, IrcParserState, ParserModel, parser_init, parser_step, parser_run, parser_run_from, finished_args, parse_faults, IrcMsgView, ParseOutcome, spec_parse};
use crate::parse::parse::{IrcMsg, ParseError, spec_new_msg, prefix_bytes, command_bytes, args_of, arg_bytes};
use crate::text::{lemma_concat_utf8, lemma_ascii_byte_utf8};

verus! {

/// A parameter that stands on its own between spaces: not empty, not
/// starting with `:`, and holding no space, line feed or carriage return.
pub open spec fn is_word(w: Seq<u8>) -> bool {
    &&& w.len() > 0
    &&& w[0] != COLON
    &&& forall|i: int| 0 <= i < w.len() ==> #[trigger] w[i] != SPACE && w[i] != LF && w[i] != CR
}

/// A last parameter written after ` :`: it may hold spaces but no line
/// feed or carriage return.
pub open spec fn is_trailing(t: Seq<u8>) -> bool {
    forall|i: int| 0 <= i < t.len() ==> #[trigger] t[i] != LF && t[i] != CR
}

/// All bytes are ASCII.
pub open spec fn is_ascii_bytes(s: Seq<u8>) -> bool {
    forall|i: int| 0 <= i < s.len() ==> #[trigger] s[i] < 0x80
}

/// A command word the library writes: an ASCII word.
pub open spec fn is_command_word(c: Seq<u8>) -> bool {
    is_word(c) && is_ascii_bytes(c)
}

/// ` w1 w2 ...`: each word preceded by one space.
pub open spec fn words_line(words: Seq<Seq<u8>>) -> Seq<u8>
    decreases words.len(),
{
    if words.len() == 0 {
        Seq::empty()
    } else {
        words_line(words.drop_last()) + seq![SPACE] + words.last()
    }
}

/// The line `cmd w1 ... wn` followed by ` :t` when there is a trailing
/// parameter `t`.
pub open spec fn build_line(cmd: Seq<u8>, words: Seq<Seq<u8>>, trailing: Option<Seq<u8>>) -> Seq<
    u8,
> {
    cmd + words_line(words) + match trailing {
        Some(t) => seq![SPACE, COLON] + t,
        None => Seq::empty(),
    }
}

/// The parameters such a line carries.
pub open spec fn built_args(words: Seq<Seq<u8>>, trailing: Option<Seq<u8>>) -> Seq<Seq<u8>> {
    match trailing {
        Some(t) => words.push(t),
        None => words,
    }
}

/// The parts are fit to be written as a line that parses back.
pub open spec fn buildable(cmd: Seq<u8>, words: Seq<Seq<u8>>, trailing: Option<Seq<u8>>) -> bool {
    &&& is_command_word(cmd)
    &&& forall|i: int| 0 <= i < words.len() ==> is_word(#[trigger] words[i])
    &&& (trailing matches Some(t) ==> is_trailing(t))
    &&& 1 <= built_args(words, trailing).len() <= IRCMSG_MAX_ARGS
}

/// `IrcMsg::new` accepts the line without fault and returns a message.
pub open spec fn msg_builds(line: Seq<u8>) -> bool {
    &&& line.len() < u32::MAX
    &&& !parse_faults(line)
    &&& spec_new_msg(line) is Ok
}

/// Whether `line` reads back as a message without fault.
pub fn line_builds(line: &Vec<u8>) -> (r: bool)
    ensures
        r == msg_builds(line@),
{
    if line.len() >= u32::MAX as usize {
        return false;
    }
    if IrcMsg::would_fault(line) {
        return false;
    }
    IrcMsg::new(crate::text::bytes_to_vec(line.as_slice())).is_ok()
}

/// Running the parser over `a + b` is running it over `a`, then over `b`.
pub proof fn lemma_run_concat(m: ParserModel, a: Seq<u8>, b: Seq<u8>)
    ensures
        parser_run_from(m, a + b) == parser_run_from(parser_run_from(m, a), b),
    decreases b.len(),
{
    if b.len() == 0 {
        assert(a + b =~= a);
    } else {
        assert((a + b).drop_last() =~= a + b.drop_last());
        assert((a + b).last() == b.last());
        lemma_run_concat(m, a, b.drop_last());
    }
}

/// Bytes that do not end the current part only move the position.
pub open spec fn keeps_state(st: IrcParserState, b: u8) -> bool {
    match st {
        IrcParserState::Command => b != SPACE,
        IrcParserState::Arg => b != SPACE && b != LF,
        IrcParserState::RestArg => b != LF,
        _ => false,
    }
}

pub proof fn lemma_run_stays(m: ParserModel, t: Seq<u8>)
    requires
        forall|i: int| 0 <= i < t.len() ==> keeps_state(m.state, #[trigger] t[i]),
    ensures
        parser_run_from(m, t) == (ParserModel { byte_idx: m.byte_idx + t.len(), ..m }),
    decreases t.len(),
{
    if t.len() > 0 {
        lemma_run_stays(m, t.drop_last());
        assert(keeps_state(m.state, t[t.len() - 1]));
    }
}

/// A word read from the start of a parameter becomes the parameter in
/// progress.
pub proof fn lemma_run_word(m: ParserModel, w: Seq<u8>)
    requires
        m.state == IrcParserState::ArgStart,
        is_word(w),
    ensures
        parser_run_from(m, w) == (ParserModel {
            byte_idx: m.byte_idx + w.len(),
            arg_start: m.byte_idx,
            state: IrcParserState::Arg,
            ..m
        }),
{
    let first = seq![w[0]];
    let rest = w.skip(1);
    assert(first + rest =~= w);
    lemma_run_concat(m, first, rest);
    assert(first.drop_last() =~= Seq::<u8>::empty());
    reveal_with_fuel(parser_run_from, 2);
    let m1 = parser_run_from(m, first);
    assert(m1 == parser_step(m, w[0]));
    assert forall|i: int| 0 <= i < rest.len() implies keeps_state(m1.state, #[trigger] rest[i]) by {
        assert(rest[i] == w[i + 1]);
    }
    lemma_run_stays(m1, rest);
}

/// The parser after the command word.
pub proof fn lemma_run_command(c: Seq<u8>)
    requires
        is_word(c),
    ensures
        parser_run(c) == (ParserModel {
            byte_idx: c.len() as int,
            command_start: 0,
            state: IrcParserState::Command,
            ..parser_init()
        }),
{
    let first = seq![c[0]];
    let rest = c.skip(1);
    assert(first + rest =~= c);
    lemma_run_concat(parser_init(), first, rest);
    assert(first.drop_last() =~= Seq::<u8>::empty());
    reveal_with_fuel(parser_run_from, 2);
    let m1 = parser_run_from(parser_init(), first);
    assert(m1 == parser_step(parser_init(), c[0]));
    assert forall|i: int| 0 <= i < rest.len() implies keeps_state(m1.state, #[trigger] rest[i]) by {
        assert(rest[i] == c[i + 1]);
    }
    lemma_run_stays(m1, rest);
}

/// The parser at the end of `line`, whose command is `cmd` and whose
/// parameters are `expect`: the last parameter is in progress and the others
/// are finished, each at its place in the line.
pub open spec fn run_ends_in_arg(line: Seq<u8>, cmd: Seq<u8>, expect: Seq<Seq<u8>>, m: ParserModel) -> bool {
    &&& m.byte_idx == line.len()
    &&& m.prefix_start == 0 && m.prefix_end == 0
    &&& m.command_start == 0 && m.command_end == cmd.len()
    &&& (m.state == IrcParserState::Arg || m.state == IrcParserState::RestArg)
    &&& expect.len() >= 1
    &&& m.args.len() == expect.len() - 1
    &&& cmd.len() < m.arg_start <= m.byte_idx
    &&& line.subrange(m.arg_start, m.byte_idx) == expect.last()
    &&& forall|i: int|
        0 <= i < m.args.len() ==> cmd.len() < (#[trigger] m.args[i]).0 <= m.args[i].1
            < m.arg_start && line.subrange(m.args[i].0, m.args[i].1) == expect[i]
}

/// The parser after the command and the words.
pub open spec fn words_run_ok(cmd: Seq<u8>, words: Seq<Seq<u8>>, m: ParserModel) -> bool {
    if words.len() == 0 {
        m == (ParserModel {
            byte_idx: cmd.len() as int,
            command_start: 0,
            state: IrcParserState::Command,
            ..parser_init()
        })
    } else {
        &&& run_ends_in_arg(cmd + words_line(words), cmd, words, m)
        &&& m.state == IrcParserState::Arg
    }
}

pub proof fn lemma_run_words(cmd: Seq<u8>, words: Seq<Seq<u8>>)
    requires
        is_word(cmd),
        forall|i: int| 0 <= i < words.len() ==> is_word(#[trigger] words[i]),
        words.len() <= IRCMSG_MAX_ARGS,
    ensures
        words_run_ok(cmd, words, parser_run(cmd + words_line(words))),
    decreases words.len(),
{
    let line = cmd + words_line(words);
    if words.len() == 0 {
        assert(line =~= cmd);
        lemma_run_command(cmd);
    } else {
        let prev = words.drop_last();
        let w = words.last();
        assert forall|i: int| 0 <= i < prev.len() implies is_word(#[trigger] prev[i]) by {
            assert(prev[i] == words[i]);
        }
        assert(is_word(words[words.len() - 1]));
        lemma_run_words(cmd, prev);
        let pline = cmd + words_line(prev);
        let m0 = parser_run(pline);
        assert(line =~= pline + (seq![SPACE] + w));
        lemma_run_concat(parser_init(), pline, seq![SPACE] + w);
        lemma_run_concat(m0, seq![SPACE], w);
        assert(seq![SPACE].drop_last() =~= Seq::<u8>::empty());
        assert(parser_run_from(m0, seq![SPACE]) == parser_step(m0, SPACE)) by {
            reveal_with_fuel(parser_run_from, 2);
        }
        let m1 = parser_run_from(m0, seq![SPACE]);
        assert(m1 == parser_step(m0, SPACE));
        lemma_run_word(m1, w);
        let m = parser_run(line);
        assert(m == parser_run_from(m1, w));
        assert(line.subrange(m.arg_start, m.byte_idx) =~= w);
        if prev.len() > 0 {
            assert forall|i: int| 0 <= i < m.args.len() implies cmd.len() < (
            #[trigger] m.args[i]).0 <= m.args[i].1 < m.arg_start && line.subrange(
                m.args[i].0,
                m.args[i].1,
            ) == words[i] by {
                assert(line.subrange(m.args[i].0, m.args[i].1) =~= pline.subrange(
                    m.args[i].0,
                    m.args[i].1,
                ));
                if i < prev.len() - 1 {
                    assert(m.args[i] == m0.args[i]);
                    assert(words[i] == prev[i]);
                } else {
                    assert(m.args[i] == (m0.arg_start, m0.byte_idx));
                    assert(words[i] == prev.last());
                }
            }
        }
    }
}

/// ASCII bytes are valid UTF-8.
pub proof fn lemma_ascii_utf8(s: Seq<u8>)
    requires
        is_ascii_bytes(s),
    ensures
        valid_utf8(s),
    decreases s.len(),
{
    if s.len() == 0 {
        assert(valid_utf8(s));
    } else {
        let init = s.drop_last();
        assert(is_ascii_bytes(init)) by {
            assert forall|i: int| 0 <= i < init.len() implies #[trigger] init[i] < 0x80 by {
                assert(init[i] == s[i]);
            }
        }
        lemma_ascii_utf8(init);
        assert(s[s.len() - 1] < 0x80);
        lemma_ascii_byte_utf8(s.last());
        lemma_concat_utf8(init, seq![s.last()]);
        assert(init + seq![s.last()] =~= s);
    }
}

/// A line built from a command, single words and an optional trailing
/// parameter parses back without fault into a message with no prefix,
/// that command and exactly those parameters, keeping every byte of the line.
pub proof fn lemma_build_parses(cmd: Seq<u8>, words: Seq<Seq<u8>>, trailing: Option<Seq<u8>>)
    requires
        buildable(cmd, words, trailing),
    ensures
        !parse_faults(build_line(cmd, words, trailing)),
        spec_new_msg(build_line(cmd, words, trailing)) is Ok,
        ({
            let v = spec_new_msg(build_line(cmd, words, trailing))->Ok_0;
            &&& v.data == build_line(cmd, words, trailing)
            &&& prefix_bytes(v) == Seq::<u8>::empty()
            &&& command_bytes(v) == cmd
            &&& args_of(v) == built_args(words, trailing)
        }),
{
    let line = build_line(cmd, words, trailing);
    let wline = cmd + words_line(words);
    lemma_run_words(cmd, words);
    let m0 = parser_run(wline);
    let m = parser_run(line);
    match trailing {
        Some(t) => {
            assert(line =~= wline + (seq![SPACE, COLON] + t));
            lemma_run_concat(parser_init(), wline, seq![SPACE, COLON] + t);
            lemma_run_concat(m0, seq![SPACE, COLON], t);
            let sc = seq![SPACE, COLON];
            assert(sc.drop_last() =~= seq![SPACE]);
            assert(seq![SPACE].drop_last() =~= Seq::<u8>::empty());
            let m1 = parser_step(m0, SPACE);
            let m2 = parser_step(m1, COLON);
            assert(parser_run_from(m0, sc) == m2) by {
                reveal_with_fuel(parser_run_from, 3);
            }
            assert(m2.state == IrcParserState::RestArg);
            assert forall|i: int| 0 <= i < t.len() implies keeps_state(m2.state, #[trigger] t[i]) by {}
            lemma_run_stays(m2, t);
            assert(m == (ParserModel { byte_idx: m2.byte_idx + t.len(), ..m2 }));
            assert(line.subrange(m2.arg_start, m.byte_idx) =~= t);
            if words.len() > 0 {
                assert(line.subrange(m0.arg_start, m0.byte_idx) =~= wline.subrange(
                    m0.arg_start,
                    m0.byte_idx,
                ));
            }
        },
        None => {
            assert(line =~= wline);
        },
    }
    let args = finished_args(m);
    let last = args.last();
    assert(args.len() == built_args(words, trailing).len());
    assert(last.1 == line.len());
    if trailing is None {
        assert(line[last.1 - 1] == words.last()[words.last().len() - 1]) by {
            assert(line.subrange(m.arg_start, m.byte_idx) == words.last());
        }
        assert(is_word(words[words.len() - 1]));
    } else {
        let t = trailing->Some_0;
        if t.len() > 0 {
            assert(line[last.1 - 1] == t[t.len() - 1]) by {
                assert(line.subrange(m.arg_start, m.byte_idx) == t);
            }
        }
    }
    assert(line[last.1 - 1] != CR);
    let v = IrcMsgView {
        data: line.take(line.len() as int),
        prefix: (0, 0),
        command: (0, cmd.len() as int),
        args: args.update(args.len() - 1, (last.0, last.1)),
    };
    assert(args.update(args.len() - 1, (last.0, last.1)) =~= args);
    assert(spec_parse(line) == ParseOutcome::Parsed(v));
    assert(line.take(line.len() as int) =~= line);
    assert(prefix_bytes(v) =~= Seq::<u8>::empty());
    assert(valid_utf8(prefix_bytes(v))) by {
        lemma_ascii_utf8(prefix_bytes(v));
    }
    assert(command_bytes(v) =~= cmd);
    lemma_ascii_utf8(cmd);
    let expect = built_args(words, trailing);
    assert forall|i: int| 0 <= i < expect.len() implies #[trigger] args_of(v)[i] == expect[i] by {
        assert(args_of(v)[i] == arg_bytes(v, i));
        if i < m.args.len() {
            assert(args[i] == m.args[i]);
            if trailing is Some && i == m0.args.len() {
                assert(m.args[i] == (m0.arg_start, m0.byte_idx));
                assert(line.subrange(m0.arg_start, m0.byte_idx) =~= wline.subrange(
                    m0.arg_start,
                    m0.byte_idx,
                ));
                assert(expect[i] == words[i]);
            } else {
                assert(m.args[i] == m0.args[i]);
                assert(line.subrange(m.args[i].0, m.args[i].1) =~= wline.subrange(
                    m.args[i].0,
                    m.args[i].1,
                ));
                assert(expect[i] == words[i]);
            }
        } else {
            assert(args[i] == (m.arg_start, m.byte_idx));
        }
    }
    assert(args_of(v) =~= expect);
}

} // verus!

verus! {

/// The bytes of an array, in a vector.
pub fn vec_from_array<const N: usize>(a: [u8; N]) -> (r: Vec<u8>)
    ensures
        r@ == a@,
{
    let mut v: Vec<u8> = Vec::with_capacity(N);
    let mut i: usize = 0;
    while i < N
        invariant
            0 <= i <= N,
            a@.len() == N,
            v@ == a@.take(i as int),
        decreases N - i,
    {
        v.push(a[i]);
        i = i + 1;
        proof {
            assert(v@ =~= a@.take(i as int));
        }
    }
    proof {
        assert(a@.take(N as int) =~= a@);
    }
    v
}

} // verus!
