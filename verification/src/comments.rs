//! Comment lines are transparent: a filter script with one more comment
//! line has the same blocks, further along in the text.
use crate::assembly::{feed, fold, lemma_fold_concat, start, Assembly, Lexeme};
use crate::lexicon::{
    lemma_precedence, lemma_spelling, lemma_word_from, precedence, spelling, word_at, word_from,
    WORDS,
};
use crate::mode_parsing::{
    class_of, document, BlockView, KeywordKind, KeywordView, TokenView, ValueView,
};
use crate::modes::{lemma_step, step, tokens, tokens_from, Mode, Step};
use crate::laws::lemma_tokens_from;
use crate::scan::{
    closing_quote, found_at, is_blank, lemma_run_end, lemma_run_end_is, run_end, ByteClass, HASH,
    NEWLINE, QUOTE,
};
use vstd::prelude::*;

verus! {

/// A span after `by` bytes were put into the text at `from`: a span that
/// begins at `from` or later moves along, a span before stays.
pub open spec fn moved(span: (int, int), from: int, by: int) -> (int, int) {
    if span.0 >= from {
        (span.0 + by, span.1 + by)
    } else {
        span
    }
}

/// [`moved`], for a span that may be absent.
pub open spec fn moved_span(span: Option<(int, int)>, from: int, by: int) -> Option<(int, int)> {
    match span {
        Some(span) => Some(moved(span, from, by)),
        None => None,
    }
}

/// A token with its span moved.
pub open spec fn moved_lexeme(lexeme: Lexeme, from: int, by: int) -> Lexeme {
    let span = moved((lexeme.start, lexeme.end), from, by);
    Lexeme { token: lexeme.token, start: span.0, end: span.1 }
}

/// A token stream with every span moved.
pub open spec fn moved_lexemes(lexemes: Seq<Lexeme>, from: int, by: int) -> Seq<Lexeme> {
    Seq::new(lexemes.len(), |i: int| moved_lexeme(lexemes[i], from, by))
}

/// A value with its span moved.
pub open spec fn moved_value(entry: ValueView, from: int, by: int) -> ValueView {
    ValueView { span: moved_span(entry.span, from, by), ..entry }
}

/// A keyword line with its span and the spans of its values moved.
pub open spec fn moved_line(line: KeywordView, from: int, by: int) -> KeywordView {
    KeywordView {
        token: line.token,
        span: moved_span(line.span, from, by),
        value: Seq::new(line.value.len(), |i: int| moved_value(line.value[i], from, by)),
    }
}

/// A block with every span in it moved.
pub open spec fn moved_block(block: BlockView, from: int, by: int) -> BlockView {
    BlockView {
        block: block.block,
        keywords: Seq::new(block.keywords.len(), |i: int| moved_line(block.keywords[i], from, by)),
        bspan: moved_span(block.bspan, from, by),
    }
}

/// The blocks of a text after `by` bytes that add nothing to the blocks
/// were put into the text at `from`: the same blocks, with every span that
/// begins at `from` or later moved along by `by`.
pub open spec fn displace(blocks: Seq<BlockView>, from: int, by: int) -> Seq<BlockView> {
    Seq::new(blocks.len(), |i: int| moved_block(blocks[i], from, by))
}

/// The assembler does not look at spans: moving the spans of the tokens
/// moves the spans in the blocks, and changes nothing else.
pub proof fn lemma_fold_moved(lexemes: Seq<Lexeme>, from: int, by: int)
    ensures
        fold(start(), moved_lexemes(lexemes, from, by)).done == displace(
            fold(start(), lexemes).done,
            from,
            by,
        ),
        fold(start(), moved_lexemes(lexemes, from, by)).current == moved_block(
            fold(start(), lexemes).current,
            from,
            by,
        ),
    decreases lexemes.len(),
{
    let after = moved_lexemes(lexemes, from, by);
    if lexemes.len() == 0 {
        assert(fold(start(), after).done =~= displace(fold(start(), lexemes).done, from, by));
        assert(start().current.keywords =~= moved_block(start().current, from, by).keywords);
    } else {
        lemma_fold_moved(lexemes.drop_last(), from, by);
        assert(after.drop_last() =~= moved_lexemes(lexemes.drop_last(), from, by));
        let lexeme = lexemes.last();
        let state = fold(start(), lexemes.drop_last());
        let state_moved = fold(start(), after.drop_last());
        let next = feed(state, lexeme);
        let next_moved = feed(state_moved, after.last());
        assert(after.last() == moved_lexeme(lexeme, from, by));
        let span = (lexeme.start, lexeme.end);
        match class_of(lexeme.token) {
            Some(KeywordKind::Block) => {
                assert(next_moved.done =~= displace(next.done, from, by));
                assert(next_moved.current.keywords =~= moved_block(
                    next.current,
                    from,
                    by,
                ).keywords);
            },
            Some(KeywordKind::Conditions) | Some(KeywordKind::Actions) => {
                let line = KeywordView {
                    token: lexeme.token,
                    span: Some(span),
                    value: Seq::empty(),
                };
                assert(moved_line(line, from, by).value =~= Seq::<ValueView>::empty());
                assert(next_moved.current.keywords =~= moved_block(
                    next.current,
                    from,
                    by,
                ).keywords);
            },
            Some(KeywordKind::Values(payload)) => {
                if state.current.keywords.len() > 0 {
                    let last = state.current.keywords.len() - 1;
                    let line = state.current.keywords[last];
                    let entry = ValueView { token: lexeme.token, span: Some(span), value: payload };
                    let longer = KeywordView { value: line.value.push(entry), ..line };
                    assert(moved_line(longer, from, by).value =~= moved_line(
                        line,
                        from,
                        by,
                    ).value.push(moved_value(entry, from, by)));
                    assert(next_moved.current.keywords =~= moved_block(
                        next.current,
                        from,
                        by,
                    ).keywords);
                }
            },
            _ => {},
        }
    }
}

/// The token stream of a text that got a comment line at `from`, made from
/// the stream of the text without it: the comment marker goes before the
/// first token that begins at `from` or later, and the tokens after it
/// move along by the length `by` of the comment line.
pub open spec fn weave(lexemes: Seq<Lexeme>, from: int, by: int) -> Seq<Lexeme>
    decreases lexemes.len(),
{
    if lexemes.len() == 0 || lexemes[0].start >= from {
        seq![Lexeme { token: TokenView::Hash, start: from, end: from + 1 }] + moved_lexemes(
            lexemes,
            from,
            by,
        )
    } else {
        seq![lexemes[0]] + weave(lexemes.skip(1), from, by)
    }
}

/// Feeding a stream that begins with `first`.
proof fn lemma_fold_first(state: Assembly, first: Lexeme, rest: Seq<Lexeme>)
    ensures
        fold(state, seq![first] + rest) == fold(feed(state, first), rest),
{
    lemma_fold_concat(state, seq![first], rest);
    assert(seq![first].drop_last() =~= Seq::<Lexeme>::empty());
    assert(fold(state, seq![first]) == feed(fold(state, Seq::<Lexeme>::empty()), first));
}

/// The assembler makes of a stream with a comment marker woven in what it
/// makes of the stream with its spans moved.
pub proof fn lemma_fold_weave(state: Assembly, lexemes: Seq<Lexeme>, from: int, by: int)
    ensures
        fold(state, weave(lexemes, from, by)) == fold(state, moved_lexemes(lexemes, from, by)),
    decreases lexemes.len(),
{
    let marker = Lexeme { token: TokenView::Hash, start: from, end: from + 1 };
    let after = moved_lexemes(lexemes, from, by);
    if lexemes.len() == 0 || lexemes[0].start >= from {
        lemma_fold_first(state, marker, after);
    } else {
        let first = lexemes[0];
        let rest = lexemes.skip(1);
        lemma_fold_weave(feed(state, first), rest, from, by);
        lemma_fold_first(state, first, weave(rest, from, by));
        lemma_fold_first(state, first, moved_lexemes(rest, from, by));
        assert(after =~= seq![first] + moved_lexemes(rest, from, by));
    }
}

/// Whether `longer` is `shorter` with `by` bytes put in at `at`.
pub open spec fn inserted(shorter: Seq<u8>, longer: Seq<u8>, at: int, by: int) -> bool {
    &&& 0 <= at <= shorter.len()
    &&& 0 <= by
    &&& longer.len() == shorter.len() + by
    &&& forall|i: int| 0 <= i < at ==> longer[i] == #[trigger] shorter[i]
    &&& forall|i: int| at <= i < shorter.len() ==> longer[i + by] == #[trigger] shorter[i]
}

/// Whether the `by` bytes of `bytes` from `at` on are a comment line: `#`,
/// then text without a line break, then the line break.
pub open spec fn comment_at(bytes: Seq<u8>, at: int, by: int) -> bool {
    &&& 0 <= at
    &&& 2 <= by
    &&& at + by <= bytes.len()
    &&& bytes[at] == HASH
    &&& bytes[at + by - 1] == NEWLINE
    &&& forall|i: int| at <= i < at + by - 1 ==> #[trigger] bytes[i] != NEWLINE
}

/// A step with its positions moved along by `by`.
pub open spec fn moved_step(step: Step, by: int) -> Step {
    Step {
        lexeme: match step.lexeme {
            Some(lexeme) => Some(
                Lexeme { token: lexeme.token, start: lexeme.start + by, end: lexeme.end + by },
            ),
            None => None,
        },
        next: step.next + by,
        mode: step.mode,
    }
}

/// After the place where bytes were put in, a run ends where it ended,
/// moved along.
proof fn lemma_run_moved(x: Seq<u8>, y: Seq<u8>, at: int, by: int, pos: int, class: ByteClass)
    requires
        inserted(x, y, at, by),
        at <= pos <= x.len(),
    ensures
        run_end(y, pos + by, class) == run_end(x, pos, class) + by,
{
    let end = run_end(x, pos, class);
    lemma_run_end(x, pos, class);
    assert forall|i: int| pos + by <= i < end + by implies class.has(#[trigger] y[i]) by {
        assert(y[(i - by) + by] == x[i - by]);
    }
    if end < x.len() {
        assert(y[end + by] == x[end]);
    }
    lemma_run_end_is(y, pos + by, class, end + by);
}

/// After the place where bytes were put in, the text reads as it read,
/// moved along.
proof fn lemma_text_moved(x: Seq<u8>, y: Seq<u8>, at: int, by: int, pos: int, end: int)
    requires
        inserted(x, y, at, by),
        at <= pos <= end <= x.len(),
    ensures
        y.subrange(pos + by, end + by) == x.subrange(pos, end),
{
    assert forall|i: int| 0 <= i < end - pos implies #[trigger] y.subrange(pos + by, end + by)[i]
        == x.subrange(pos, end)[i] by {
        assert(y[(pos + i) + by] == x[pos + i]);
    }
    assert(y.subrange(pos + by, end + by) =~= x.subrange(pos, end));
}

/// After the place where bytes were put in, a word is found where it was
/// found, moved along.
proof fn lemma_found_moved(x: Seq<u8>, y: Seq<u8>, at: int, by: int, pos: int, word: Seq<u8>)
    requires
        inserted(x, y, at, by),
        at <= pos <= x.len(),
    ensures
        found_at(y, pos + by, word) == found_at(x, pos, word),
{
    if pos + word.len() <= x.len() {
        lemma_text_moved(x, y, at, by, pos, pos + word.len());
    }
}

/// After the place where bytes were put in, the same keyword is found.
proof fn lemma_word_moved(
    x: Seq<u8>,
    y: Seq<u8>,
    at: int,
    by: int,
    pos: int,
    markers_only: bool,
    rank: int,
)
    requires
        inserted(x, y, at, by),
        at <= pos <= x.len(),
        0 <= rank <= WORDS,
    ensures
        word_from(y, pos + by, markers_only, rank) == word_from(x, pos, markers_only, rank),
    decreases WORDS - rank,
{
    if rank < WORDS {
        lemma_found_moved(x, y, at, by, pos, spelling(precedence()[rank]));
        lemma_word_moved(x, y, at, by, pos, markers_only, rank + 1);
    }
}

/// After the place where bytes were put in, the machine steps as it
/// stepped, moved along.
proof fn lemma_step_moved(x: Seq<u8>, y: Seq<u8>, at: int, by: int, pos: int, mode: Mode)
    requires
        inserted(x, y, at, by),
        at <= pos < x.len(),
    ensures
        step(y, pos + by, mode) == moved_step(step(x, pos, mode), by),
{
    assert(y[pos + by] == x[pos]);
    lemma_step(x, pos, mode);
    let first = x[pos];
    lemma_run_moved(x, y, at, by, pos + 1, ByteClass::Continuation);
    if is_blank(first) || first == NEWLINE {
    } else if first == HASH {
        lemma_run_moved(x, y, at, by, pos + 1, ByteClass::InLine);
    } else if mode == Mode::Inner {
        if ByteClass::Digit.has(first) {
            lemma_run_moved(x, y, at, by, pos, ByteClass::Digit);
            lemma_text_moved(x, y, at, by, pos, run_end(x, pos, ByteClass::Digit));
        } else if ByteClass::Letter.has(first) {
            lemma_run_moved(x, y, at, by, pos, ByteClass::Letter);
            lemma_text_moved(x, y, at, by, pos, run_end(x, pos, ByteClass::Letter));
        } else if first == QUOTE {
            lemma_run_moved(x, y, at, by, pos + 1, ByteClass::Unquoted);
            lemma_run_end(x, pos + 1, ByteClass::Unquoted);
            let close = closing_quote(x, pos);
            if close < x.len() {
                lemma_text_moved(x, y, at, by, pos + 1, close);
            }
        }
    } else {
        lemma_word_moved(x, y, at, by, pos, mode == Mode::Block, 0);
    }
}

/// After the place where bytes were put in, the tokens are the tokens
/// that were there, moved along.
proof fn lemma_tokens_moved(x: Seq<u8>, y: Seq<u8>, at: int, by: int, pos: int, mode: Mode)
    requires
        inserted(x, y, at, by),
        at <= pos,
    ensures
        tokens_from(y, pos + by, mode) == moved_lexemes(tokens_from(x, pos, mode), at, by),
    decreases x.len() - pos,
{
    if pos < x.len() {
        lemma_step(x, pos, mode);
        lemma_step_moved(x, y, at, by, pos, mode);
        let here = step(x, pos, mode);
        lemma_tokens_moved(x, y, at, by, here.next, here.mode);
        assert(tokens_from(y, pos + by, mode) =~= moved_lexemes(
            tokens_from(x, pos, mode),
            at,
            by,
        ));
    } else {
        assert(tokens_from(y, pos + by, mode) =~= moved_lexemes(
            tokens_from(x, pos, mode),
            at,
            by,
        ));
    }
}

/// Whether the machine, at `pos` in `mode`, stands at an opening quote
/// that is never closed.
pub open spec fn opens_unclosed_quote(bytes: Seq<u8>, pos: int, mode: Mode) -> bool {
    mode == Mode::Inner && bytes[pos] == QUOTE && closing_quote(bytes, pos) >= bytes.len()
}

/// Whether the machine, started at `pos` in `mode`, comes to stand at
/// `at` with no quote open: one of its steps begins at `at`, or ends at
/// `at` where the text ends, and none of the steps before is an opening
/// quote that is never closed. It does not when `at` lies inside a quoted
/// literal, or after an opening quote that is never closed.
pub open spec fn stops_at(bytes: Seq<u8>, pos: int, mode: Mode, at: int) -> bool
    decreases bytes.len() - pos,
{
    if pos == at {
        true
    } else if pos < 0 || pos >= bytes.len() || pos > at {
        false
    } else {
        proof {
            lemma_step(bytes, pos, mode);
        }
        let here = step(bytes, pos, mode);
        !opens_unclosed_quote(bytes, pos, mode) && stops_at(bytes, here.next, here.mode, at)
    }
}

/// Before the place where bytes were put in, a run that ends there ends
/// in the same place.
proof fn lemma_run_same(x: Seq<u8>, y: Seq<u8>, at: int, by: int, pos: int, class: ByteClass)
    requires
        inserted(x, y, at, by),
        0 <= pos <= at,
        run_end(x, pos, class) < at,
    ensures
        run_end(y, pos, class) == run_end(x, pos, class),
{
    let end = run_end(x, pos, class);
    lemma_run_end(x, pos, class);
    assert forall|i: int| pos <= i < end implies class.has(#[trigger] y[i]) by {
        assert(y[i] == x[i]);
    }
    assert(y[end] == x[end]);
    lemma_run_end_is(y, pos, class, end);
}

/// Before the place where bytes were put in, the text reads as it read.
proof fn lemma_text_same(x: Seq<u8>, y: Seq<u8>, at: int, by: int, pos: int, end: int)
    requires
        inserted(x, y, at, by),
        0 <= pos <= end <= at,
    ensures
        y.subrange(pos, end) == x.subrange(pos, end),
{
    assert forall|i: int| 0 <= i < end - pos implies #[trigger] y.subrange(pos, end)[i]
        == x.subrange(pos, end)[i] by {
        assert(y[pos + i] == x[pos + i]);
    }
    assert(y.subrange(pos, end) =~= x.subrange(pos, end));
}

/// A run ends before a byte that is not of its class.
proof fn lemma_run_stops(x: Seq<u8>, pos: int, class: ByteClass, stop: int)
    requires
        0 <= pos <= stop < x.len(),
        !class.has(x[stop]),
    ensures
        run_end(x, pos, class) <= stop,
{
    lemma_run_end(x, pos, class);
}

/// Before the place where bytes were put in, and in a line that ends
/// there, a word of letters is found where it was found.
proof fn lemma_found_same(x: Seq<u8>, y: Seq<u8>, at: int, by: int, pos: int, word: Seq<u8>)
    requires
        inserted(x, y, at, by),
        1 <= at,
        x[at - 1] == NEWLINE,
        0 <= pos < at,
        forall|i: int| 0 <= i < word.len() ==> ByteClass::Letter.has(#[trigger] word[i]),
    ensures
        found_at(y, pos, word) == found_at(x, pos, word),
        found_at(x, pos, word) ==> pos + word.len() < at,
{
    assert(y[at - 1] == x[at - 1]);
    if pos + word.len() < at {
        lemma_text_same(x, y, at, by, pos, pos + word.len());
    } else {
        let inside = at - 1 - pos;
        assert(ByteClass::Letter.has(word[inside]));
        if found_at(x, pos, word) {
            assert(x.subrange(pos, pos + word.len())[inside] == x[at - 1]);
        }
        if found_at(y, pos, word) {
            assert(y.subrange(pos, pos + word.len())[inside] == y[at - 1]);
        }
    }
}

/// Before the place where bytes were put in, and in a line that ends
/// there, the same keyword is found.
proof fn lemma_word_same(
    x: Seq<u8>,
    y: Seq<u8>,
    at: int,
    by: int,
    pos: int,
    markers_only: bool,
    rank: int,
)
    requires
        inserted(x, y, at, by),
        1 <= at,
        x[at - 1] == NEWLINE,
        0 <= pos < at,
        0 <= rank <= WORDS,
    ensures
        word_from(y, pos, markers_only, rank) == word_from(x, pos, markers_only, rank),
    decreases WORDS - rank,
{
    if rank < WORDS {
        lemma_precedence(rank);
        lemma_spelling(precedence()[rank]);
        lemma_found_same(x, y, at, by, pos, spelling(precedence()[rank]));
        lemma_word_same(x, y, at, by, pos, markers_only, rank + 1);
    }
}

/// Before the place where bytes were put in, a step that stays before it
/// is the same step. Where the place follows a line break and the step
/// ends there, the step has read the end of a line, and the machine is
/// not left looking for values.
proof fn lemma_step_same(x: Seq<u8>, y: Seq<u8>, at: int, by: int, pos: int, mode: Mode)
    requires
        inserted(x, y, at, by),
        1 <= at,
        x[at - 1] == NEWLINE,
        0 <= pos < at,
        !opens_unclosed_quote(x, pos, mode),
        step(x, pos, mode).next <= at,
    ensures
        step(y, pos, mode) == step(x, pos, mode),
        step(x, pos, mode).next == at ==> step(x, pos, mode).mode != Mode::Inner,
{
    assert(y[pos] == x[pos]);
    lemma_step(x, pos, mode);
    let first = x[pos];
    let stop = at - 1;
    if is_blank(first) || first == NEWLINE {
    } else {
        assert(pos + 1 <= stop);
        if first == HASH {
            lemma_run_stops(x, pos + 1, ByteClass::InLine, stop);
            lemma_run_same(x, y, at, by, pos + 1, ByteClass::InLine);
        } else if mode == Mode::Inner && ByteClass::Digit.has(first) {
            lemma_run_stops(x, pos, ByteClass::Digit, stop);
            lemma_run_same(x, y, at, by, pos, ByteClass::Digit);
            lemma_text_same(x, y, at, by, pos, run_end(x, pos, ByteClass::Digit));
        } else if mode == Mode::Inner && ByteClass::Letter.has(first) {
            lemma_run_stops(x, pos, ByteClass::Letter, stop);
            lemma_run_same(x, y, at, by, pos, ByteClass::Letter);
            lemma_text_same(x, y, at, by, pos, run_end(x, pos, ByteClass::Letter));
        } else if mode == Mode::Inner && first == QUOTE {
            let close = closing_quote(x, pos);
            lemma_run_end(x, pos + 1, ByteClass::Unquoted);
            lemma_run_same(x, y, at, by, pos + 1, ByteClass::Unquoted);
            lemma_text_same(x, y, at, by, pos + 1, close);
        } else {
            lemma_run_stops(x, pos + 1, ByteClass::Continuation, stop);
            lemma_run_same(x, y, at, by, pos + 1, ByteClass::Continuation);
            lemma_run_end(x, pos + 1, ByteClass::Continuation);
            if mode != Mode::Inner {
                lemma_word_same(x, y, at, by, pos, mode == Mode::Block, 0);
                lemma_word_from(x, pos, mode == Mode::Block, 0);
                match word_at(x, pos, mode == Mode::Block) {
                    Some(word) => {
                        lemma_spelling(word);
                        lemma_found_same(x, y, at, by, pos, spelling(word));
                    },
                    None => {},
                }
            }
        }
    }
}

/// The step at a comment line emits the comment marker and reads on after
/// the line.
proof fn lemma_step_comment(y: Seq<u8>, at: int, by: int, mode: Mode)
    requires
        comment_at(y, at, by),
    ensures
        step(y, at, mode) == (Step {
            lexeme: Some(Lexeme { token: TokenView::Hash, start: at, end: at + 1 }),
            next: at + by,
            mode: mode.after_line(),
        }),
{
    lemma_run_end_is(y, at + 1, ByteClass::InLine, at + by - 1);
}

/// The tokens of a text that got a comment line, from a position before
/// the line on, are the tokens of the text without it with the comment
/// marker woven in.
proof fn lemma_tokens_woven(x: Seq<u8>, y: Seq<u8>, at: int, by: int, pos: int, mode: Mode)
    requires
        inserted(x, y, at, by),
        comment_at(y, at, by),
        at == 0 || x[at - 1] == NEWLINE,
        0 <= pos <= at,
        stops_at(x, pos, mode, at),
        pos == at ==> mode != Mode::Inner,
    ensures
        tokens_from(y, pos, mode) == weave(tokens_from(x, pos, mode), at, by),
    decreases at - pos,
{
    if pos == at {
        lemma_step_comment(y, at, by, mode);
        lemma_tokens_moved(x, y, at, by, at, mode);
        lemma_tokens_from(x, at, mode);
        let marker = Lexeme { token: TokenView::Hash, start: at, end: at + 1 };
        assert(tokens_from(y, at, mode) =~= seq![marker] + tokens_from(y, at + by, mode));
    } else {
        lemma_step(x, pos, mode);
        let here = step(x, pos, mode);
        assert(stops_at(x, here.next, here.mode, at));
        lemma_step_same(x, y, at, by, pos, mode);
        lemma_tokens_woven(x, y, at, by, here.next, here.mode);
        let rest = tokens_from(x, here.next, here.mode);
        match here.lexeme {
            Some(lexeme) => {
                assert(tokens_from(x, pos, mode) =~= seq![lexeme] + rest);
                assert(tokens_from(x, pos, mode).skip(1) =~= rest);
                assert(tokens_from(y, pos, mode) =~= seq![lexeme] + weave(rest, at, by));
            },
            None => {},
        }
    }
}

/// Whether the machine, started at `pos` in `mode`, meets before `at` an
/// opening quote that is never closed. The rest of the text, `at`
/// included, is then one error token.
pub open spec fn quote_open_before(bytes: Seq<u8>, pos: int, mode: Mode, at: int) -> bool
    decreases bytes.len() - pos,
{
    if pos < 0 || pos >= bytes.len() || pos >= at {
        false
    } else if opens_unclosed_quote(bytes, pos, mode) {
        true
    } else {
        proof {
            lemma_step(bytes, pos, mode);
        }
        let here = step(bytes, pos, mode);
        quote_open_before(bytes, here.next, here.mode, at)
    }
}

/// Where a quote is open at the place of the comment line, and the line
/// holds no quote, the quote stays open: the tokens before it are the
/// same, the error after it covers the longer text, and the assembler
/// makes the same of both streams.
proof fn lemma_fold_open_quote(
    x: Seq<u8>,
    y: Seq<u8>,
    at: int,
    by: int,
    pos: int,
    mode: Mode,
    state: Assembly,
)
    requires
        inserted(x, y, at, by),
        1 <= at,
        x[at - 1] == NEWLINE,
        forall|i: int| at <= i < at + by ==> #[trigger] y[i] != QUOTE,
        0 <= pos,
        quote_open_before(x, pos, mode, at),
    ensures
        fold(state, tokens_from(y, pos, mode)) == fold(state, tokens_from(x, pos, mode)),
        forall|i: int|
            0 <= i < tokens_from(x, pos, mode).len() ==> (#[trigger] tokens_from(
                x,
                pos,
                mode,
            )[i]).start < at,
    decreases x.len() - pos,
{
    lemma_step(x, pos, mode);
    let here = step(x, pos, mode);
    let all = tokens_from(x, pos, mode);
    assert(y[pos] == x[pos]);
    if opens_unclosed_quote(x, pos, mode) {
        lemma_run_end(x, pos + 1, ByteClass::Unquoted);
        assert forall|i: int| pos + 1 <= i < y.len() implies ByteClass::Unquoted.has(
            #[trigger] y[i],
        ) by {
            if i < at {
                assert(y[i] == x[i]);
            } else if i >= at + by {
                assert(y[(i - by) + by] == x[i - by]);
            }
        }
        lemma_run_end_is(y, pos + 1, ByteClass::Unquoted, y.len() as int);
        let error_x = Lexeme { token: TokenView::Error, start: pos, end: x.len() as int };
        let error_y = Lexeme { token: TokenView::Error, start: pos, end: y.len() as int };
        assert(all =~= seq![error_x]);
        assert(closing_quote(y, pos) == y.len());
        assert(step(y, pos, mode).lexeme == Some(error_y));
        assert(tokens_from(y, y.len() as int, Mode::Inner) =~= Seq::<Lexeme>::empty());
        assert(tokens_from(y, pos, mode) =~= seq![error_y]);
        lemma_fold_first(state, error_x, Seq::empty());
        lemma_fold_first(state, error_y, Seq::empty());
        assert(seq![error_x] + Seq::<Lexeme>::empty() =~= seq![error_x]);
        assert(seq![error_y] + Seq::<Lexeme>::empty() =~= seq![error_y]);
    } else {
        assert(quote_open_before(x, here.next, here.mode, at));
        lemma_step_same(x, y, at, by, pos, mode);
        let rest_x = tokens_from(x, here.next, here.mode);
        let rest_y = tokens_from(y, here.next, here.mode);
        match here.lexeme {
            Some(lexeme) => {
                lemma_fold_open_quote(x, y, at, by, here.next, here.mode, feed(state, lexeme));
                lemma_fold_first(state, lexeme, rest_x);
                lemma_fold_first(state, lexeme, rest_y);
                assert(all =~= seq![lexeme] + rest_x);
                assert forall|i: int| 0 <= i < all.len() implies (#[trigger] all[i]).start
                    < at by {
                    if i > 0 {
                        assert(all[i] == rest_x[i - 1]);
                    }
                }
            },
            None => {
                lemma_fold_open_quote(x, y, at, by, here.next, here.mode, state);
            },
        }
    }
}

/// Whether `note` is a comment line: `#`, then text without a line break,
/// then the line break.
pub open spec fn is_comment_line(note: Seq<u8>) -> bool {
    comment_at(note, 0, note.len() as int)
}

/// Whether a comment line `note` can go into `bytes` at `at` without
/// touching a quoted literal. Either the tokenizer stands at `at` with no
/// quote open; or an opening quote before `at` is never closed, and the
/// comment line holds no quote that would close it. What is left out is a
/// place inside a quoted literal, where a line break does not end a line
/// and the comment line would become part of the literal, and a comment
/// line whose quote would close a quote that was open to the end.
pub open spec fn clear_of_quotes(bytes: Seq<u8>, at: int, note: Seq<u8>) -> bool {
    ||| stops_at(bytes, 0, Mode::Block, at)
    ||| (quote_open_before(bytes, 0, Mode::Block, at) && forall|i: int|
        0 <= i < note.len() ==> #[trigger] note[i] != QUOTE)
}

/// A comment line put into a filter script after any of its lines, or
/// before the first, leaves the blocks as they are: they hold the same
/// markers, keywords and values, and only the spans after the comment
/// line move along by its length.
pub proof fn law_comment_transparent(head: Seq<u8>, note: Seq<u8>, tail: Seq<u8>)
    requires
        head.len() == 0 || head.last() == NEWLINE,
        is_comment_line(note),
        clear_of_quotes(head + tail, head.len() as int, note),
    ensures
        document(head + note + tail) == displace(
            document(head + tail),
            head.len() as int,
            note.len() as int,
        ),
{
    let x = head + tail;
    let y = head + note + tail;
    let at = head.len() as int;
    let by = note.len() as int;
    assert(inserted(x, y, at, by));
    if stops_at(x, 0, Mode::Block, at) {
        assert(comment_at(y, at, by)) by {
            assert forall|i: int| at <= i < at + by - 1 implies #[trigger] y[i] != NEWLINE by {
                assert(y[i] == note[i - at]);
            }
            assert(y[at] == note[0]);
            assert(y[at + by - 1] == note[by - 1]);
        }
        lemma_tokens_woven(x, y, at, by, 0, Mode::Block);
        lemma_fold_weave(start(), tokens(x), at, by);
    } else {
        assert forall|i: int| at <= i < at + by implies #[trigger] y[i] != QUOTE by {
            assert(y[i] == note[i - at]);
        }
        lemma_fold_open_quote(x, y, at, by, 0, Mode::Block, start());
        assert(moved_lexemes(tokens(x), at, by) =~= tokens(x));
    }
    lemma_fold_moved(tokens(x), at, by);
    assert(document(y) =~= displace(document(x), at, by));
}

} // verus!
