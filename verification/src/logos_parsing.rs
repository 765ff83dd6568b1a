//! The outline of a filter script: for each block its marker, and the line
//! that names the explicit modifiers an item must have.
//!
//! The outline is read from the same tokens as the full parse of
//! [`crate::mode_parsing`], and keeps less of them.
use crate::assembly::{fold, law_block_count, markers, start, Lexeme};
use crate::mode_parsing::{
    class_of, document, BlockView, KeywordKind, KeywordView, ModeBridge, Modes, TokenView, Tokens,
};
use crate::modes::tokens;
use std::ops::Range;
use vstd::prelude::*;
use vstd::string::*;

verus! {

/// The tokens of the outline: the keywords, and two kinds of literal
/// without payload.
#[derive(Debug, PartialEq, Eq, Clone, Copy)]
pub enum Token {
    /// Whatever is neither a keyword, a number nor a quoted literal.
    Error,
    Show,
    Hide,
    Continue,
    // Conditions
    AreaLevel,
    ItemLevel,
    DropLevel,
    Quality,
    Rarity,
    Class,
    BaseType,
    /// The keyword `Prophecy`.
    ProphecyName,
    LinkedSockets,
    SocketGroup,
    Sockets,
    Height,
    Width,
    HasExplicitMod,
    AnyEnchantment,
    HasEnchantment,
    StackSize,
    GemLevel,
    Identified,
    Corrupted,
    CorruptedMods,
    Mirrored,
    ElderItem,
    ShaperItem,
    HasInfluence,
    FracturedItem,
    SynthesisedItem,
    ShapedMap,
    MapTier,
    // Actions
    SetBorderColor,
    SetTextColor,
    SetBackgroundColor,
    SetFontSize,
    PlayAlertSound,
    PlayAlertSoundPositional,
    DisableDropSound,
    CustomAlertSound,
    MinimapIcon,
    PlayEffect,
    // Numbers
    Numbers,
    Quotes,
}

/// The token of the outline that stands for a token of the full parse.
/// Keywords, numbers and quoted literals are kept, without payload; every
/// other token counts as an error.
pub open spec fn plain(token: TokenView) -> Token {
    match token {
        TokenView::Show => Token::Show,
        TokenView::Hide => Token::Hide,
        TokenView::Continue => Token::Continue,
        TokenView::AreaLevel => Token::AreaLevel,
        TokenView::ItemLevel => Token::ItemLevel,
        TokenView::DropLevel => Token::DropLevel,
        TokenView::Quality => Token::Quality,
        TokenView::Rarity => Token::Rarity,
        TokenView::Class => Token::Class,
        TokenView::BaseType => Token::BaseType,
        TokenView::ProphecyName => Token::ProphecyName,
        TokenView::LinkedSockets => Token::LinkedSockets,
        TokenView::SocketGroup => Token::SocketGroup,
        TokenView::Sockets => Token::Sockets,
        TokenView::Height => Token::Height,
        TokenView::Width => Token::Width,
        TokenView::HasExplicitMod => Token::HasExplicitMod,
        TokenView::AnyEnchantment => Token::AnyEnchantment,
        TokenView::HasEnchantment => Token::HasEnchantment,
        TokenView::StackSize => Token::StackSize,
        TokenView::GemLevel => Token::GemLevel,
        TokenView::Identified => Token::Identified,
        TokenView::Corrupted => Token::Corrupted,
        TokenView::CorruptedMods => Token::CorruptedMods,
        TokenView::Mirrored => Token::Mirrored,
        TokenView::ElderItem => Token::ElderItem,
        TokenView::ShaperItem => Token::ShaperItem,
        TokenView::HasInfluence => Token::HasInfluence,
        TokenView::FracturedItem => Token::FracturedItem,
        TokenView::SynthesisedItem => Token::SynthesisedItem,
        TokenView::ShapedMap => Token::ShapedMap,
        TokenView::MapTier => Token::MapTier,
        TokenView::SetBorderColor => Token::SetBorderColor,
        TokenView::SetTextColor => Token::SetTextColor,
        TokenView::SetBackgroundColor => Token::SetBackgroundColor,
        TokenView::SetFontSize => Token::SetFontSize,
        TokenView::PlayAlertSound => Token::PlayAlertSound,
        TokenView::PlayAlertSoundPositional => Token::PlayAlertSoundPositional,
        TokenView::DisableDropSound => Token::DisableDropSound,
        TokenView::CustomAlertSound => Token::CustomAlertSound,
        TokenView::MinimapIcon => Token::MinimapIcon,
        TokenView::PlayEffect => Token::PlayEffect,
        TokenView::Numbers(_) => Token::Numbers,
        TokenView::Quotes(_) => Token::Quotes,
        _ => Token::Error,
    }
}

impl Token {
    /// The token of the outline that stands for `token`.
    pub fn of(token: &crate::mode_parsing::Token) -> (plain_token: Token)
        ensures
            plain_token == plain(token.deep_view()),
    {
        match token {
            crate::mode_parsing::Token::Show => Token::Show,
            crate::mode_parsing::Token::Hide => Token::Hide,
            crate::mode_parsing::Token::Continue => Token::Continue,
            crate::mode_parsing::Token::AreaLevel => Token::AreaLevel,
            crate::mode_parsing::Token::ItemLevel => Token::ItemLevel,
            crate::mode_parsing::Token::DropLevel => Token::DropLevel,
            crate::mode_parsing::Token::Quality => Token::Quality,
            crate::mode_parsing::Token::Rarity => Token::Rarity,
            crate::mode_parsing::Token::Class => Token::Class,
            crate::mode_parsing::Token::BaseType => Token::BaseType,
            crate::mode_parsing::Token::ProphecyName => Token::ProphecyName,
            crate::mode_parsing::Token::LinkedSockets => Token::LinkedSockets,
            crate::mode_parsing::Token::SocketGroup => Token::SocketGroup,
            crate::mode_parsing::Token::Sockets => Token::Sockets,
            crate::mode_parsing::Token::Height => Token::Height,
            crate::mode_parsing::Token::Width => Token::Width,
            crate::mode_parsing::Token::HasExplicitMod => Token::HasExplicitMod,
            crate::mode_parsing::Token::AnyEnchantment => Token::AnyEnchantment,
            crate::mode_parsing::Token::HasEnchantment => Token::HasEnchantment,
            crate::mode_parsing::Token::StackSize => Token::StackSize,
            crate::mode_parsing::Token::GemLevel => Token::GemLevel,
            crate::mode_parsing::Token::Identified => Token::Identified,
            crate::mode_parsing::Token::Corrupted => Token::Corrupted,
            crate::mode_parsing::Token::CorruptedMods => Token::CorruptedMods,
            crate::mode_parsing::Token::Mirrored => Token::Mirrored,
            crate::mode_parsing::Token::ElderItem => Token::ElderItem,
            crate::mode_parsing::Token::ShaperItem => Token::ShaperItem,
            crate::mode_parsing::Token::HasInfluence => Token::HasInfluence,
            crate::mode_parsing::Token::FracturedItem => Token::FracturedItem,
            crate::mode_parsing::Token::SynthesisedItem => Token::SynthesisedItem,
            crate::mode_parsing::Token::ShapedMap => Token::ShapedMap,
            crate::mode_parsing::Token::MapTier => Token::MapTier,
            crate::mode_parsing::Token::SetBorderColor => Token::SetBorderColor,
            crate::mode_parsing::Token::SetTextColor => Token::SetTextColor,
            crate::mode_parsing::Token::SetBackgroundColor => Token::SetBackgroundColor,
            crate::mode_parsing::Token::SetFontSize => Token::SetFontSize,
            crate::mode_parsing::Token::PlayAlertSound => Token::PlayAlertSound,
            crate::mode_parsing::Token::PlayAlertSoundPositional => Token::PlayAlertSoundPositional,
            crate::mode_parsing::Token::DisableDropSound => Token::DisableDropSound,
            crate::mode_parsing::Token::CustomAlertSound => Token::CustomAlertSound,
            crate::mode_parsing::Token::MinimapIcon => Token::MinimapIcon,
            crate::mode_parsing::Token::PlayEffect => Token::PlayEffect,
            crate::mode_parsing::Token::Numbers(_) => Token::Numbers,
            crate::mode_parsing::Token::Quotes(_) => Token::Quotes,
            _ => Token::Error,
        }
    }
}

/// A keyword of the outline with its span. `value` is kept for a literal
/// that belongs to the keyword; the outline does not read one.
#[derive(PartialEq, Debug)]
pub struct TokenAndSpan {
    pub token: Token,
    pub span: Range<usize>,
    pub value: Option<Token>,
}

/// The mathematical value of a [`TokenAndSpan`].
pub struct EntryView {
    pub token: Token,
    pub span: (int, int),
    pub value: Option<Token>,
}

impl DeepView for TokenAndSpan {
    type V = EntryView;

    open spec fn deep_view(&self) -> EntryView {
        EntryView {
            token: self.token,
            span: (self.span.start as int, self.span.end as int),
            value: self.value,
        }
    }
}

impl Clone for TokenAndSpan {
    fn clone(&self) -> (copy: Self)
        ensures
            copy == *self,
    {
        TokenAndSpan {
            token: self.token,
            span: self.span.start..self.span.end,
            value: self.value,
        }
    }
}

/// One block of the outline: the marker that opens it, and its last
/// `HasExplicitMod` keyword.
#[derive(PartialEq, Debug)]
pub struct FilterBlock {
    pub block: Option<TokenAndSpan>,
    pub hasexplicitmod: Option<TokenAndSpan>,
}

/// The mathematical value of a [`FilterBlock`].
pub struct OutlineView {
    pub block: Option<EntryView>,
    pub hasexplicitmod: Option<EntryView>,
}

impl DeepView for FilterBlock {
    type V = OutlineView;

    open spec fn deep_view(&self) -> OutlineView {
        OutlineView {
            block: self.block.deep_view(),
            hasexplicitmod: self.hasexplicitmod.deep_view(),
        }
    }
}

impl Clone for FilterBlock {
    fn clone(&self) -> (copy: Self)
        ensures
            copy == *self,
    {
        FilterBlock {
            block: match &self.block {
                Some(entry) => Some(entry.clone()),
                None => None,
            },
            hasexplicitmod: match &self.hasexplicitmod {
                Some(entry) => Some(entry.clone()),
                None => None,
            },
        }
    }
}

/// The state of the outline between two tokens: the blocks that are
/// finished, and the block that is being filled.
pub struct Sketch {
    pub done: Seq<OutlineView>,
    pub current: OutlineView,
}

/// The state before the first token.
pub open spec fn blank() -> Sketch {
    Sketch { done: Seq::empty(), current: OutlineView { block: None, hasexplicitmod: None } }
}

/// What one token does to the outline. A marker finishes the current block
/// and opens the next; `HasExplicitMod` is put down in the current block,
/// in place of an earlier one; every other token changes nothing.
pub open spec fn note(state: Sketch, lexeme: Lexeme) -> Sketch {
    let entry = EntryView {
        token: plain(lexeme.token),
        span: (lexeme.start, lexeme.end),
        value: None,
    };
    match plain(lexeme.token) {
        Token::Show | Token::Hide | Token::Continue => Sketch {
            done: state.done.push(state.current),
            current: OutlineView { block: Some(entry), hasexplicitmod: None },
        },
        Token::HasExplicitMod => Sketch {
            current: OutlineView { hasexplicitmod: Some(entry), ..state.current },
            ..state
        },
        _ => state,
    }
}

/// The state after the tokens of `lexemes` were put down, in their order.
pub open spec fn sketch(state: Sketch, lexemes: Seq<Lexeme>) -> Sketch
    decreases lexemes.len(),
{
    if lexemes.len() == 0 {
        state
    } else {
        note(sketch(state, lexemes.drop_last()), lexemes.last())
    }
}

/// The outline of a filter script, given as the bytes of its text: the
/// finished blocks, and last the block that was being filled at the end.
pub open spec fn outline(bytes: Seq<u8>) -> Seq<OutlineView> {
    let end = sketch(blank(), tokens(bytes));
    end.done.push(end.current)
}

/// The entry of the outline for a marker or a keyword of the full parse.
pub open spec fn entry_of(token: TokenView, span: Option<(int, int)>) -> EntryView {
    EntryView {
        token: plain(token),
        span: match span {
            Some(span) => span,
            None => (0, 0),
        },
        value: None,
    }
}

/// The last `HasExplicitMod` among the keyword lines of a block.
pub open spec fn last_mod(lines: Seq<KeywordView>) -> Option<EntryView>
    decreases lines.len(),
{
    if lines.len() == 0 {
        None
    } else if lines.last().token == TokenView::HasExplicitMod {
        Some(entry_of(lines.last().token, lines.last().span))
    } else {
        last_mod(lines.drop_last())
    }
}

/// What the outline keeps of a block of the full parse.
pub open spec fn outline_of(block: BlockView) -> OutlineView {
    OutlineView {
        block: match block.block {
            Some(marker) => Some(entry_of(marker, block.bspan)),
            None => None,
        },
        hasexplicitmod: last_mod(block.keywords),
    }
}

/// After the same tokens, the outline holds of each block what
/// [`outline_of`] keeps of the block of the full parse.
proof fn lemma_sketch(lexemes: Seq<Lexeme>)
    ensures
        sketch(blank(), lexemes).done == Seq::new(
            fold(start(), lexemes).done.len(),
            |i: int| outline_of(fold(start(), lexemes).done[i]),
        ),
        sketch(blank(), lexemes).current == outline_of(fold(start(), lexemes).current),
    decreases lexemes.len(),
{
    let full = fold(start(), lexemes);
    let brief = sketch(blank(), lexemes);
    let kept = Seq::new(full.done.len(), |i: int| outline_of(full.done[i]));
    if lexemes.len() == 0 {
        assert(brief.done =~= kept);
    } else {
        lemma_sketch(lexemes.drop_last());
        let lexeme = lexemes.last();
        let before = fold(start(), lexemes.drop_last());
        let lines = before.current.keywords;
        assert(brief.done =~= kept);
        if class_of(lexeme.token) == Some(KeywordKind::Conditions) || class_of(lexeme.token)
            == Some(KeywordKind::Actions) {
            assert(full.current.keywords.drop_last() =~= lines);
        } else if class_of(lexeme.token) matches Some(KeywordKind::Values(_)) && lines.len() > 0 {
            assert(full.current.keywords.drop_last() =~= lines.drop_last());
        }
    }
}

/// The outline agrees with the full parse: it has as many blocks, and
/// holds of each its marker with the span of the marker, and the last of
/// its `HasExplicitMod` keywords.
pub proof fn law_outline(bytes: Seq<u8>)
    ensures
        outline(bytes) == Seq::new(
            document(bytes).len(),
            |i: int| outline_of(document(bytes)[i]),
        ),
{
    lemma_sketch(tokens(bytes));
    assert(outline(bytes) =~= Seq::new(
        document(bytes).len(),
        |i: int| outline_of(document(bytes)[i]),
    ));
}

/// Reads the outline of a filter script: the preamble first, then one
/// block for each marker in the text. The outline holds of each block of
/// the full parse what [`outline_of`] keeps of it.
pub fn parse(filter_file: &str) -> (blocks: Vec<FilterBlock>)
    ensures
        blocks.deep_view() == outline(filter_file.spec_bytes()),
        blocks.deep_view() == Seq::new(
            document(filter_file.spec_bytes()).len(),
            |i: int| outline_of(document(filter_file.spec_bytes())[i]),
        ),
        blocks.len() == markers(tokens(filter_file.spec_bytes())) + 1,
{
    let mut vec: Vec<FilterBlock> = Vec::new();
    let mut block = FilterBlock { block: None, hasexplicitmod: None };
    let mut lex = ModeBridge { mode: Modes::new(filter_file) };
    let ghost mut seen: Seq<Lexeme> = Seq::empty();
    assert(vec.deep_view() =~= blank().done);
    assert(seen + lex.mode.remaining() =~= tokens(filter_file.spec_bytes()));
    loop
        invariant
            lex.mode.source@ == filter_file@,
            seen + lex.mode.remaining() == tokens(filter_file.spec_bytes()),
            vec.deep_view() == sketch(blank(), seen).done,
            block.deep_view() == sketch(blank(), seen).current,
        decreases lex.mode.text().len() - lex.mode.pos,
    {
        let ghost rest = lex.mode.remaining();
        match lex.next() {
            None => {
                assert(seen + rest =~= seen);
                let ghost done = vec.deep_view();
                vec.push(block);
                assert(vec.deep_view() =~= done.push(block.deep_view()));
                proof {
                    law_outline(filter_file.spec_bytes());
                    law_block_count(seen);
                }
                return vec;
            },
            Some(item) => {
                proof {
                    let lexeme = item.deep_view();
                    assert(seen.push(lexeme).drop_last() =~= seen);
                    assert(seen.push(lexeme) + lex.mode.remaining() =~= seen + rest);
                    seen = seen.push(lexeme);
                }
                let Tokens { token, span } = item;
                let plain_token = Token::of(&token);
                match plain_token {
                    Token::Show | Token::Hide | Token::Continue => {
                        let ghost done = vec.deep_view();
                        let mut finished = FilterBlock {
                            block: Some(TokenAndSpan { token: plain_token, span, value: None }),
                            hasexplicitmod: None,
                        };
                        core::mem::swap(&mut block, &mut finished);
                        vec.push(finished);
                        assert(vec.deep_view() =~= done.push(finished.deep_view()));
                    },
                    Token::HasExplicitMod => {
                        block.hasexplicitmod = Some(
                            TokenAndSpan { token: plain_token, span, value: None },
                        );
                    },
                    _ => {},
                }
            },
        }
    }
}

} // verus!
