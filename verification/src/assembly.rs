//! The assembler as mathematics: a fold of the token stream into blocks,
//! and what holds of every such fold.
use crate::mode_parsing::{
    class_of, empty_block, BlockView, KeywordKind, KeywordView, TokenView, ValueView,
};
use vstd::prelude::*;

verus! {

/// A token together with the span of source text that it was read from.
pub struct Lexeme {
    pub token: TokenView,
    pub start: int,
    pub end: int,
}

/// The state of the assembler between two tokens: the blocks that are
/// finished, and the block that is being filled.
pub struct Assembly {
    pub done: Seq<BlockView>,
    pub current: BlockView,
}

/// The state before the first token: nothing is finished, and the block
/// being filled is the empty preamble.
pub open spec fn start() -> Assembly {
    Assembly { done: Seq::empty(), current: empty_block() }
}

/// The block that a marker opens.
pub open spec fn open_block(token: TokenView, span: (int, int)) -> BlockView {
    BlockView { block: Some(token), keywords: Seq::empty(), bspan: Some(span) }
}

/// `block` with one more keyword line, which has no values yet.
pub open spec fn open_keyword(block: BlockView, token: TokenView, span: (int, int)) -> BlockView {
    BlockView {
        keywords: block.keywords.push(KeywordView { token, span: Some(span), value: Seq::empty() }),
        ..block
    }
}

/// `block` with one more value on its last keyword line. A block without a
/// keyword line has nowhere to put the value and stays as it is.
pub open spec fn attach(
    block: BlockView,
    token: TokenView,
    span: (int, int),
    payload: Seq<u8>,
) -> BlockView {
    if block.keywords.len() == 0 {
        block
    } else {
        let line = block.keywords.last();
        let entry = ValueView { token, span: Some(span), value: payload };
        BlockView {
            keywords: block.keywords.update(
                block.keywords.len() - 1,
                KeywordView { value: line.value.push(entry), ..line },
            ),
            ..block
        }
    }
}

/// What one token does to the assembler. A marker finishes the current
/// block and opens the next; a condition or an action opens a keyword line;
/// a value goes to the last keyword line; every other token changes
/// nothing.
pub open spec fn feed(state: Assembly, lexeme: Lexeme) -> Assembly {
    let span = (lexeme.start, lexeme.end);
    match class_of(lexeme.token) {
        Some(KeywordKind::Block) => Assembly {
            done: state.done.push(state.current),
            current: open_block(lexeme.token, span),
        },
        Some(KeywordKind::Conditions) | Some(KeywordKind::Actions) => Assembly {
            current: open_keyword(state.current, lexeme.token, span),
            ..state
        },
        Some(KeywordKind::Values(payload)) => Assembly {
            current: attach(state.current, lexeme.token, span, payload),
            ..state
        },
        _ => state,
    }
}

/// The state after the tokens of `lexemes` were fed, in their order, to
/// `state`.
pub open spec fn fold(state: Assembly, lexemes: Seq<Lexeme>) -> Assembly
    decreases lexemes.len(),
{
    if lexemes.len() == 0 {
        state
    } else {
        feed(fold(state, lexemes.drop_last()), lexemes.last())
    }
}

/// The blocks of a token stream: the finished ones, and last the block
/// that was being filled when the stream ended.
pub open spec fn assemble(lexemes: Seq<Lexeme>) -> Seq<BlockView> {
    let end = fold(start(), lexemes);
    end.done.push(end.current)
}

/// Whether the token opens a block.
pub open spec fn is_marker(lexeme: Lexeme) -> bool {
    class_of(lexeme.token) == Some(KeywordKind::Block)
}

/// Whether the token opens a keyword line.
pub open spec fn is_keyword(lexeme: Lexeme) -> bool {
    class_of(lexeme.token) == Some(KeywordKind::Conditions) || class_of(lexeme.token) == Some(
        KeywordKind::Actions,
    )
}

/// Whether the token is a value literal.
pub open spec fn is_value(lexeme: Lexeme) -> bool {
    class_of(lexeme.token) matches Some(KeywordKind::Values(_))
}

/// The number of block markers in a token stream.
pub open spec fn markers(lexemes: Seq<Lexeme>) -> nat
    decreases lexemes.len(),
{
    if lexemes.len() == 0 {
        0
    } else if is_marker(lexemes.last()) {
        markers(lexemes.drop_last()) + 1
    } else {
        markers(lexemes.drop_last())
    }
}

/// Whether the token at `at` has a keyword line to go to: a keyword stands
/// before it, with no block marker between the two.
pub open spec fn has_owner(lexemes: Seq<Lexeme>, at: int) -> bool {
    exists|line: int|
        0 <= line < at && is_keyword(#[trigger] lexemes[line]) && forall|between: int|
            line < between < at ==> !is_marker(#[trigger] lexemes[between])
}

/// Whether the assembler keeps the token at `at`: markers and keywords
/// always, values where they have a keyword line to go to.
pub open spec fn is_recorded(lexemes: Seq<Lexeme>, at: int) -> bool {
    is_marker(lexemes[at]) || is_keyword(lexemes[at]) || (is_value(lexemes[at]) && has_owner(
        lexemes,
        at,
    ))
}

/// The tokens among the first `count` of `lexemes` that the assembler
/// keeps, in the order of the stream.
pub open spec fn recorded(lexemes: Seq<Lexeme>, count: int) -> Seq<Lexeme>
    decreases count,
{
    if count <= 0 {
        Seq::empty()
    } else if is_recorded(lexemes, count - 1) {
        recorded(lexemes, count - 1).push(lexemes[count - 1])
    } else {
        recorded(lexemes, count - 1)
    }
}

/// The token that an entry of a block was made from.
pub open spec fn lexeme_of(token: TokenView, span: Option<(int, int)>) -> Lexeme {
    match span {
        Some((start, end)) => Lexeme { token, start, end },
        None => Lexeme { token, start: 0, end: 0 },
    }
}

/// The tokens of the values of a keyword line, in their order.
pub open spec fn value_lexemes(values: Seq<ValueView>) -> Seq<Lexeme> {
    Seq::new(values.len(), |i: int| lexeme_of(values[i].token, values[i].span))
}

/// The tokens of a keyword line: the keyword, then its values.
pub open spec fn line_lexemes(line: KeywordView) -> Seq<Lexeme> {
    seq![lexeme_of(line.token, line.span)] + value_lexemes(line.value)
}

/// The tokens of a list of keyword lines, line after line.
pub open spec fn lines_lexemes(lines: Seq<KeywordView>) -> Seq<Lexeme>
    decreases lines.len(),
{
    if lines.len() == 0 {
        Seq::empty()
    } else {
        lines_lexemes(lines.drop_last()) + line_lexemes(lines.last())
    }
}

/// The tokens of a block: the marker, where it has one, then its keyword
/// lines.
pub open spec fn block_lexemes(block: BlockView) -> Seq<Lexeme> {
    let lines = lines_lexemes(block.keywords);
    match block.block {
        Some(marker) => seq![lexeme_of(marker, block.bspan)] + lines,
        None => lines,
    }
}

/// The tokens that a sequence of blocks holds, read block after block.
pub open spec fn spread(blocks: Seq<BlockView>) -> Seq<Lexeme>
    decreases blocks.len(),
{
    if blocks.len() == 0 {
        Seq::empty()
    } else {
        spread(blocks.drop_last()) + block_lexemes(blocks.last())
    }
}

/// Whether a keyword line is made as the assembler makes them: a condition
/// or an action with its span, and under it value literals, each with its
/// span and with the payload of its token.
pub open spec fn line_well_formed(line: KeywordView) -> bool {
    &&& is_keyword(lexeme_of(line.token, line.span))
    &&& line.span is Some
    &&& forall|i: int|
        0 <= i < line.value.len() ==> {
            let entry = #[trigger] line.value[i];
            entry.span is Some && class_of(entry.token) == Some(KeywordKind::Values(entry.value))
        }
}

/// Whether the keyword lines of a block are all well formed.
pub open spec fn lines_well_formed(block: BlockView) -> bool {
    forall|i: int| 0 <= i < block.keywords.len() ==> line_well_formed(#[trigger] block.keywords[i])
}

/// Whether a block was opened by a marker: it holds the marker and its
/// span, and well-formed keyword lines.
pub open spec fn marked_block(block: BlockView) -> bool {
    &&& block.block matches Some(marker) && class_of(marker) == Some(KeywordKind::Block)
    &&& block.bspan is Some
    &&& lines_well_formed(block)
}

/// Whether a sequence of blocks is made as the assembler makes them: first
/// the preamble, which has neither marker nor span, then blocks that
/// markers opened.
pub open spec fn well_formed(blocks: Seq<BlockView>) -> bool {
    &&& blocks.len() >= 1
    &&& blocks[0].block is None
    &&& blocks[0].bspan is None
    &&& lines_well_formed(blocks[0])
    &&& forall|i: int| 1 <= i < blocks.len() ==> marked_block(#[trigger] blocks[i])
}

/// Feeding a stream in two parts is feeding it whole.
pub proof fn lemma_fold_concat(state: Assembly, first: Seq<Lexeme>, second: Seq<Lexeme>)
    ensures
        fold(state, first + second) == fold(fold(state, first), second),
    decreases second.len(),
{
    if second.len() == 0 {
        assert(first + second =~= first);
    } else {
        lemma_fold_concat(state, first, second.drop_last());
        assert((first + second).drop_last() =~= first + second.drop_last());
        assert((first + second).last() == second.last());
    }
}

/// Feeding one more token of a stream.
pub proof fn lemma_fold_take(lexemes: Seq<Lexeme>, count: int)
    requires
        0 <= count < lexemes.len(),
    ensures
        fold(start(), lexemes.take(count + 1)) == feed(
            fold(start(), lexemes.take(count)),
            lexemes[count],
        ),
{
    assert(lexemes.take(count + 1).drop_last() =~= lexemes.take(count));
}

/// A token has a keyword line to go to when the token before it is a
/// keyword, or is no marker and has a line to go to itself.
pub proof fn lemma_owner_step(lexemes: Seq<Lexeme>, at: int)
    requires
        0 <= at < lexemes.len(),
    ensures
        has_owner(lexemes, at + 1) <==> is_keyword(lexemes[at]) || (!is_marker(lexemes[at])
            && has_owner(lexemes, at)),
        !has_owner(lexemes, 0),
{
    if is_keyword(lexemes[at]) {
        assert(0 <= at < at + 1 && is_keyword(lexemes[at]));
    } else if !is_marker(lexemes[at]) && has_owner(lexemes, at) {
        let line = choose|line: int|
            0 <= line < at && is_keyword(#[trigger] lexemes[line]) && forall|between: int|
                line < between < at ==> !is_marker(#[trigger] lexemes[between]);
        assert(0 <= line < at + 1 && is_keyword(lexemes[line]));
        assert forall|between: int| line < between < at + 1 implies !is_marker(
            #[trigger] lexemes[between],
        ) by {}
    }
    if has_owner(lexemes, at + 1) && !is_keyword(lexemes[at]) {
        let line = choose|line: int|
            0 <= line < at + 1 && is_keyword(#[trigger] lexemes[line]) && forall|between: int|
                line < between < at + 1 ==> !is_marker(#[trigger] lexemes[between]);
        assert(line < at);
        assert(!is_marker(lexemes[at]));
        assert(0 <= line < at && is_keyword(lexemes[line]));
    }
}

/// The tokens of a list of lines that got one more line.
proof fn lemma_lines_push(lines: Seq<KeywordView>, line: KeywordView)
    ensures
        lines_lexemes(lines.push(line)) == lines_lexemes(lines) + line_lexemes(line),
{
    assert(lines.push(line).drop_last() =~= lines);
}

/// The tokens of a list of lines whose last line got one more value.
proof fn lemma_lines_attach(lines: Seq<KeywordView>, entry: ValueView)
    requires
        lines.len() > 0,
    ensures
        lines_lexemes(
            lines.update(
                lines.len() - 1,
                KeywordView { value: lines.last().value.push(entry), ..lines.last() },
            ),
        ) == lines_lexemes(lines).push(lexeme_of(entry.token, entry.span)),
{
    let line = lines.last();
    let longer = KeywordView { value: line.value.push(entry), ..line };
    let after = lines.update(lines.len() - 1, longer);
    assert(after.drop_last() =~= lines.drop_last());
    assert(after.last() == longer);
    assert(value_lexemes(longer.value) =~= value_lexemes(line.value).push(
        lexeme_of(entry.token, entry.span),
    ));
    assert(line_lexemes(longer) =~= line_lexemes(line).push(lexeme_of(entry.token, entry.span)));
    assert(lines_lexemes(lines.drop_last()) + line_lexemes(line).push(
        lexeme_of(entry.token, entry.span),
    ) =~= (lines_lexemes(lines.drop_last()) + line_lexemes(line)).push(
        lexeme_of(entry.token, entry.span),
    ));
}

/// What holds of the assembler after each token: the blocks are well
/// formed, they hold the tokens kept so far in the order of the stream,
/// one block is finished for each marker, and the block being filled has
/// a keyword line exactly when the next token has one to go to.
pub proof fn lemma_fold(lexemes: Seq<Lexeme>, count: int)
    requires
        0 <= count <= lexemes.len(),
    ensures
        ({
            let state = fold(start(), lexemes.take(count));
            &&& well_formed(state.done.push(state.current))
            &&& spread(state.done.push(state.current)) == recorded(lexemes, count)
            &&& state.done.len() == markers(lexemes.take(count))
            &&& state.current.keywords.len() > 0 <==> has_owner(lexemes, count)
        }),
    decreases count,
{
    if count == 0 {
        assert(lexemes.take(0) =~= Seq::<Lexeme>::empty());
        let state = start();
        assert(state.done.push(state.current).drop_last() =~= state.done);
        assert(spread(state.done) =~= Seq::<Lexeme>::empty());
        assert(lines_lexemes(state.current.keywords) =~= Seq::<Lexeme>::empty());
        assert(spread(state.done.push(state.current)) =~= Seq::<Lexeme>::empty());
    } else {
        lemma_fold(lexemes, count - 1);
        lemma_fold_take(lexemes, count - 1);
        lemma_owner_step(lexemes, count - 1);
        let lexeme = lexemes[count - 1];
        let span = (lexeme.start, lexeme.end);
        let before = fold(start(), lexemes.take(count - 1));
        let after = fold(start(), lexemes.take(count));
        let old_blocks = before.done.push(before.current);
        let new_blocks = after.done.push(after.current);
        assert(after == feed(before, lexeme));
        assert(lexemes.take(count).drop_last() =~= lexemes.take(count - 1));
        assert(lexemes.take(count).last() == lexeme);
        assert(old_blocks.drop_last() =~= before.done);
        assert(new_blocks.drop_last() =~= after.done);
        assert(lexeme_of(lexeme.token, Some(span)) == lexeme);
        if is_marker(lexeme) {
            assert(lines_lexemes(after.current.keywords) =~= Seq::<Lexeme>::empty());
            assert(block_lexemes(after.current) =~= seq![lexeme]);
            assert(spread(new_blocks) =~= spread(old_blocks).push(lexeme));
            assert forall|i: int| 1 <= i < new_blocks.len() implies marked_block(
                #[trigger] new_blocks[i],
            ) by {
                if i < old_blocks.len() {
                    assert(new_blocks[i] == old_blocks[i]);
                }
            }
            assert(new_blocks[0] == old_blocks[0]);
        } else if is_keyword(lexeme) {
            let line = KeywordView { token: lexeme.token, span: Some(span), value: Seq::empty() };
            lemma_lines_push(before.current.keywords, line);
            assert(value_lexemes(line.value) =~= Seq::<Lexeme>::empty());
            assert(line_lexemes(line) =~= seq![lexeme]);
            assert(block_lexemes(after.current) =~= block_lexemes(before.current).push(lexeme));
            assert(spread(new_blocks) =~= spread(old_blocks).push(lexeme));
            assert(line_well_formed(line));
            assert(lines_well_formed(after.current));
            assert forall|i: int| 1 <= i < new_blocks.len() implies marked_block(
                #[trigger] new_blocks[i],
            ) by {
                if i < before.done.len() {
                    assert(new_blocks[i] == old_blocks[i]);
                } else {
                    assert(marked_block(old_blocks[i]));
                }
            }
            if before.done.len() > 0 {
                assert(new_blocks[0] == old_blocks[0]);
            } else {
                assert(old_blocks[0] == before.current);
            }
        } else if is_value(lexeme) && before.current.keywords.len() > 0 {
            let payload = class_of(lexeme.token)->0->Values_0;
            let entry = ValueView { token: lexeme.token, span: Some(span), value: payload };
            lemma_lines_attach(before.current.keywords, entry);
            assert(block_lexemes(after.current) =~= block_lexemes(before.current).push(lexeme));
            assert(spread(new_blocks) =~= spread(old_blocks).push(lexeme));
            let last = before.current.keywords.len() - 1;
            assert(line_well_formed(before.current.keywords[last]));
            assert forall|i: int| 0 <= i < after.current.keywords.len() implies line_well_formed(
                #[trigger] after.current.keywords[i],
            ) by {
                if i < last {
                    assert(line_well_formed(before.current.keywords[i]));
                }
            }
            assert forall|i: int| 1 <= i < new_blocks.len() implies marked_block(
                #[trigger] new_blocks[i],
            ) by {
                if i < before.done.len() {
                    assert(new_blocks[i] == old_blocks[i]);
                } else {
                    assert(marked_block(old_blocks[i]));
                }
            }
            if before.done.len() > 0 {
                assert(new_blocks[0] == old_blocks[0]);
            } else {
                assert(old_blocks[0] == before.current);
            }
        } else {
            assert(after == before);
        }
    }
}

/// The assembler returns one block for each block marker in the stream,
/// and one more: the preamble.
pub proof fn law_block_count(lexemes: Seq<Lexeme>)
    ensures
        assemble(lexemes).len() == markers(lexemes) + 1,
{
    lemma_fold(lexemes, lexemes.len() as int);
    assert(lexemes.take(lexemes.len() as int) =~= lexemes);
}

/// The blocks that the assembler returns are well formed, whatever the
/// stream holds.
pub proof fn law_well_formed(lexemes: Seq<Lexeme>)
    ensures
        well_formed(assemble(lexemes)),
{
    lemma_fold(lexemes, lexemes.len() as int);
    assert(lexemes.take(lexemes.len() as int) =~= lexemes);
}

/// The blocks hold the tokens that the assembler keeps, each once and in
/// the order of the stream: read block after block, line after line and
/// value after value, they are the markers, the keywords and the values
/// with a keyword line to go to, as the stream has them.
pub proof fn law_order_preserved(lexemes: Seq<Lexeme>)
    ensures
        spread(assemble(lexemes)) == recorded(lexemes, lexemes.len() as int),
{
    lemma_fold(lexemes, lexemes.len() as int);
    assert(lexemes.take(lexemes.len() as int) =~= lexemes);
}

/// A value that stands before any keyword of its block is dropped: the
/// blocks are those of the stream without it.
pub proof fn law_orphan_value_dropped(lexemes: Seq<Lexeme>, at: int)
    requires
        0 <= at < lexemes.len(),
        is_value(lexemes[at]),
        !has_owner(lexemes, at),
    ensures
        assemble(lexemes) == assemble(lexemes.remove(at)),
{
    lemma_fold(lexemes, at);
    lemma_fold_take(lexemes, at);
    let head = lexemes.take(at);
    let tail = lexemes.skip(at + 1);
    assert(fold(start(), lexemes.take(at + 1)) == fold(start(), head));
    lemma_fold_concat(start(), lexemes.take(at + 1), tail);
    lemma_fold_concat(start(), head, tail);
    assert(lexemes =~= lexemes.take(at + 1) + tail);
    assert(lexemes.remove(at) =~= head + tail);
}

} // verus!
