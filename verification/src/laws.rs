//! What holds of every filter script: laws of the tokenizer, and of the
//! tokenizer and the assembler together.
use crate::assembly::{
    has_owner, is_keyword, is_marker, is_recorded, is_value, law_block_count, law_order_preserved,
    law_well_formed, markers, recorded, spread, well_formed, Lexeme,
};
use crate::lexicon::lemma_word_from;
use crate::mode_parsing::{class_of, document};
use crate::modes::{
    in_order, lemma_step, lemma_step_matched, matched, step, tokens, tokens_from, Mode,
};
use vstd::prelude::*;

verus! {

/// Every token from `pos` on begins at `pos` or later and holds the text
/// of its span, and the tokens follow one another in the text.
pub proof fn lemma_tokens_from(bytes: Seq<u8>, pos: int, mode: Mode)
    requires
        0 <= pos,
    ensures
        forall|i: int|
            0 <= i < tokens_from(bytes, pos, mode).len() ==> {
                let lexeme = #[trigger] tokens_from(bytes, pos, mode)[i];
                pos <= lexeme.start && matched(bytes, lexeme)
            },
        in_order(tokens_from(bytes, pos, mode)),
    decreases bytes.len() - pos,
{
    if pos < bytes.len() {
        lemma_step(bytes, pos, mode);
        lemma_step_matched(bytes, pos, mode);
        let here = step(bytes, pos, mode);
        lemma_tokens_from(bytes, here.next, here.mode);
        let rest = tokens_from(bytes, here.next, here.mode);
        let all = tokens_from(bytes, pos, mode);
        match here.lexeme {
            Some(lexeme) => {
                assert(all =~= seq![lexeme] + rest);
                assert forall|i: int| 0 <= i < all.len() implies {
                    let found = #[trigger] all[i];
                    pos <= found.start && matched(bytes, found)
                } by {
                    if i > 0 {
                        assert(all[i] == rest[i - 1]);
                    }
                }
                assert forall|i: int, j: int| 0 <= i < j < all.len() implies (#[trigger] all[i]).end
                    <= (#[trigger] all[j]).start by {
                    assert(all[j] == rest[j - 1]);
                    if i > 0 {
                        assert(all[i] == rest[i - 1]);
                    }
                }
            },
            None => {},
        }
    }
}

/// Every token of a filter script has a span that lies in the text and
/// holds exactly the text that the token was read from, and the tokens
/// come in the order of the text, none reaching into the next.
pub proof fn law_spans(bytes: Seq<u8>)
    ensures
        forall|i: int| 0 <= i < tokens(bytes).len() ==> matched(bytes, #[trigger] tokens(bytes)[i]),
        in_order(tokens(bytes)),
{
    lemma_tokens_from(bytes, 0, Mode::Block);
}

/// The tokens that the assembler keeps are tokens of the stream, and keep
/// the order of the stream.
pub proof fn lemma_recorded(lexemes: Seq<Lexeme>, count: int)
    requires
        0 <= count <= lexemes.len(),
        in_order(lexemes),
    ensures
        forall|i: int|
            0 <= i < recorded(lexemes, count).len() ==> exists|at: int|
                0 <= at < count && lexemes[at] == #[trigger] recorded(lexemes, count)[i],
        in_order(recorded(lexemes, count)),
    decreases count,
{
    if count > 0 {
        lemma_recorded(lexemes, count - 1);
        let before = recorded(lexemes, count - 1);
        let all = recorded(lexemes, count);
        assert forall|i: int| 0 <= i < all.len() implies exists|at: int|
            0 <= at < count && lexemes[at] == #[trigger] all[i] by {
            if i < before.len() {
                let at = choose|at: int| 0 <= at < count - 1 && lexemes[at] == before[i];
                assert(0 <= at < count && lexemes[at] == all[i]);
            } else {
                assert(lexemes[count - 1] == all[i]);
            }
        }
        assert forall|i: int, j: int| 0 <= i < j < all.len() implies (#[trigger] all[i]).end <= (
        #[trigger] all[j]).start by {
            if j >= before.len() {
                let at = choose|at: int| 0 <= at < count - 1 && lexemes[at] == before[i];
                assert(lexemes[at].end <= lexemes[count - 1].start);
            }
        }
    }
}

/// The spans that the blocks of a filter script hold are spans of its
/// text: each holds the text of its token, and read block after block,
/// line after line and value after value they come in the order of the
/// text.
pub proof fn law_entries(bytes: Seq<u8>)
    ensures
        forall|i: int|
            0 <= i < spread(document(bytes)).len() ==> matched(
                bytes,
                #[trigger] spread(document(bytes))[i],
            ),
        in_order(spread(document(bytes))),
{
    let stream = tokens(bytes);
    law_spans(bytes);
    law_order_preserved(stream);
    lemma_recorded(stream, stream.len() as int);
    let kept = recorded(stream, stream.len() as int);
    assert forall|i: int| 0 <= i < kept.len() implies matched(bytes, #[trigger] kept[i]) by {
        let at = choose|at: int| 0 <= at < stream.len() && stream[at] == kept[i];
        assert(matched(bytes, stream[at]));
    }
}

/// Parsing a filter script gives well-formed blocks, one for the preamble
/// and one for each block marker among its tokens.
pub proof fn law_blocks(bytes: Seq<u8>)
    ensures
        well_formed(document(bytes)),
        document(bytes).len() == markers(tokens(bytes)) + 1,
{
    law_well_formed(tokens(bytes));
    law_block_count(tokens(bytes));
}

/// How the mode of the machine goes with the token that a step emits:
/// values are read only while the machine looks for values, markers only
/// while it does not, and the machine comes to look for values by reading
/// a keyword, or goes on doing so.
proof fn lemma_step_kinds(bytes: Seq<u8>, pos: int, mode: Mode)
    requires
        0 <= pos < bytes.len(),
    ensures
        ({
            let here = step(bytes, pos, mode);
            match here.lexeme {
                Some(lexeme) => {
                    &&& is_value(lexeme) ==> mode == Mode::Inner
                    &&& is_marker(lexeme) ==> mode != Mode::Inner
                    &&& here.mode == Mode::Inner ==> is_keyword(lexeme) || mode == Mode::Inner
                },
                None => here.mode == mode,
            }
        }),
{
    lemma_word_from(bytes, pos, mode == Mode::Block, 0);
}

/// From any position on, a value has a keyword line to go to, or the
/// machine was looking for values at the position and has read no marker
/// since.
proof fn lemma_values_owned(bytes: Seq<u8>, pos: int, mode: Mode)
    requires
        0 <= pos,
    ensures
        forall|i: int|
            0 <= i < tokens_from(bytes, pos, mode).len() && is_value(
                #[trigger] tokens_from(bytes, pos, mode)[i],
            ) ==> has_owner(tokens_from(bytes, pos, mode), i) || (mode == Mode::Inner
                && forall|m: int| 0 <= m < i ==> !is_marker(tokens_from(bytes, pos, mode)[m])),
    decreases bytes.len() - pos,
{
    if pos < bytes.len() {
        lemma_step(bytes, pos, mode);
        lemma_step_kinds(bytes, pos, mode);
        let here = step(bytes, pos, mode);
        lemma_values_owned(bytes, here.next, here.mode);
        let rest = tokens_from(bytes, here.next, here.mode);
        let all = tokens_from(bytes, pos, mode);
        match here.lexeme {
            Some(lexeme) => {
                assert(all =~= seq![lexeme] + rest);
                assert forall|i: int| 0 <= i < all.len() && is_value(#[trigger] all[i]) implies
                    has_owner(all, i) || (mode == Mode::Inner && forall|m: int|
                    0 <= m < i ==> !is_marker(all[m])) by {
                    if i > 0 {
                        assert(all[i] == rest[i - 1]);
                        assert forall|m: int| 1 <= m < all.len() implies all[m] == rest[m - 1] by {}
                        if has_owner(rest, i - 1) {
                            let line = choose|line: int|
                                0 <= line < i - 1 && is_keyword(#[trigger] rest[line])
                                    && forall|between: int|
                                    line < between < i - 1 ==> !is_marker(
                                        #[trigger] rest[between],
                                    );
                            assert(is_keyword(all[line + 1]));
                            assert forall|between: int| line + 1 < between < i implies !is_marker(
                                #[trigger] all[between],
                            ) by {
                                assert(all[between] == rest[between - 1]);
                            }
                        } else if is_keyword(lexeme) {
                            assert(is_keyword(all[0]));
                            assert forall|between: int| 0 < between < i implies !is_marker(
                                #[trigger] all[between],
                            ) by {
                                assert(all[between] == rest[between - 1]);
                            }
                        } else {
                            assert forall|m: int| 0 <= m < i implies !is_marker(all[m]) by {
                                if m > 0 {
                                    assert(all[m] == rest[m - 1]);
                                }
                            }
                        }
                    }
                }
            },
            None => {},
        }
    }
}

/// In the token stream of a filter script every value has a keyword line
/// to go to: values are read only after a keyword, on its line. So the
/// blocks of a parse hold every marker, keyword and value of the stream,
/// and pass over comment markers, line breaks and errors alone.
pub proof fn law_values_owned(bytes: Seq<u8>)
    ensures
        forall|i: int|
            0 <= i < tokens(bytes).len() && is_value(#[trigger] tokens(bytes)[i]) ==> has_owner(
                tokens(bytes),
                i,
            ),
        forall|i: int|
            0 <= i < tokens(bytes).len() ==> (is_recorded(tokens(bytes), i) <==> class_of(
                (#[trigger] tokens(bytes)[i]).token,
            ) is Some),
{
    lemma_values_owned(bytes, 0, Mode::Block);
}

} // verus!
