//! Filter scripts parsed in three lexical modes.
//!
//! [`parse`] turns the text of a filter script into its blocks. A tokenizer
//! that switches between three vocabularies ([`ModeBridge`]) supplies the
//! tokens, and the assembler folds them into [`FilterBlock`] records, token
//! by token ([`feed_token`]) with one function for each kind of token
//! ([`new_block`], [`add_keyword`], [`add_values`]). [`assemble_tokens`] is
//! the assembler for a token stream from elsewhere.
//!
//! Each type has a mathematical value, its `deep_view`, in which a string is
//! given by its UTF-8 bytes and a span by its two positions. The contracts
//! are stated over these values.
use crate::assembly::{
    assemble, attach, feed, fold, law_block_count, law_order_preserved, law_well_formed, markers,
    open_block, open_keyword, recorded, spread, start, well_formed, Assembly, Lexeme,
};
use crate::laws::law_entries;
use crate::modes::{in_order, matched, tokens};
use std::ops::Range;
use vstd::prelude::*;
use vstd::string::*;
use vstd::utf8::*;

pub use crate::modes::{ignore_comments, Mode, ModeBridge, Modes, Tokens};

verus! {

/// One lexical unit of a filter script.
#[derive(Clone, Debug, Eq, PartialEq, Hash)]
pub enum Token {
    /// Text that no pattern of the active vocabulary matches.
    Error,
    Show,
    Hide,
    Continue,
    /// `#`, which opens a comment.
    Hash,
    /// A space or a tab. The tokenizer drops these without emitting them.
    Skip,
    /// A line break.
    EndLine,
    // Conditions
    AreaLevel,
    ItemLevel,
    DropLevel,
    Quality,
    Rarity,
    Class,
    BaseType,
    /// The keyword `Prophecy`.
    ProphecyName,
    LinkedSockets,
    SocketGroup,
    Sockets,
    Height,
    Width,
    HasExplicitMod,
    AnyEnchantment,
    HasEnchantment,
    StackSize,
    GemLevel,
    Identified,
    Corrupted,
    CorruptedMods,
    Mirrored,
    ElderItem,
    ShaperItem,
    HasInfluence,
    FracturedItem,
    SynthesisedItem,
    ShapedMap,
    MapTier,
    // Actions
    SetBorderColor,
    SetTextColor,
    SetBackgroundColor,
    SetFontSize,
    PlayAlertSound,
    PlayAlertSoundPositional,
    DisableDropSound,
    CustomAlertSound,
    MinimapIcon,
    PlayEffect,
    // Values
    /// A run of decimal digits, with the digits as written.
    Numbers(String),
    /// A quoted literal, with what stands between the quotes.
    Quotes(String),
    /// `true`, `false`, `True` or `False`, as written.
    Boolean(String),
    /// A run of letters, as written.
    Text(String),
}

/// The mathematical value of a [`Token`]: the same variants, with the payload
/// of a value literal given as the UTF-8 bytes of its string.
pub enum TokenView {
    Error,
    Show,
    Hide,
    Continue,
    Hash,
    Skip,
    EndLine,
    AreaLevel,
    ItemLevel,
    DropLevel,
    Quality,
    Rarity,
    Class,
    BaseType,
    ProphecyName,
    LinkedSockets,
    SocketGroup,
    Sockets,
    Height,
    Width,
    HasExplicitMod,
    AnyEnchantment,
    HasEnchantment,
    StackSize,
    GemLevel,
    Identified,
    Corrupted,
    CorruptedMods,
    Mirrored,
    ElderItem,
    ShaperItem,
    HasInfluence,
    FracturedItem,
    SynthesisedItem,
    ShapedMap,
    MapTier,
    SetBorderColor,
    SetTextColor,
    SetBackgroundColor,
    SetFontSize,
    PlayAlertSound,
    PlayAlertSoundPositional,
    DisableDropSound,
    CustomAlertSound,
    MinimapIcon,
    PlayEffect,
    Numbers(Seq<u8>),
    Quotes(Seq<u8>),
    Boolean(Seq<u8>),
    Text(Seq<u8>),
}

impl DeepView for Token {
    type V = TokenView;

    open spec fn deep_view(&self) -> TokenView {
        match self {
            Token::Error => TokenView::Error,
            Token::Show => TokenView::Show,
            Token::Hide => TokenView::Hide,
            Token::Continue => TokenView::Continue,
            Token::Hash => TokenView::Hash,
            Token::Skip => TokenView::Skip,
            Token::EndLine => TokenView::EndLine,
            Token::AreaLevel => TokenView::AreaLevel,
            Token::ItemLevel => TokenView::ItemLevel,
            Token::DropLevel => TokenView::DropLevel,
            Token::Quality => TokenView::Quality,
            Token::Rarity => TokenView::Rarity,
            Token::Class => TokenView::Class,
            Token::BaseType => TokenView::BaseType,
            Token::ProphecyName => TokenView::ProphecyName,
            Token::LinkedSockets => TokenView::LinkedSockets,
            Token::SocketGroup => TokenView::SocketGroup,
            Token::Sockets => TokenView::Sockets,
            Token::Height => TokenView::Height,
            Token::Width => TokenView::Width,
            Token::HasExplicitMod => TokenView::HasExplicitMod,
            Token::AnyEnchantment => TokenView::AnyEnchantment,
            Token::HasEnchantment => TokenView::HasEnchantment,
            Token::StackSize => TokenView::StackSize,
            Token::GemLevel => TokenView::GemLevel,
            Token::Identified => TokenView::Identified,
            Token::Corrupted => TokenView::Corrupted,
            Token::CorruptedMods => TokenView::CorruptedMods,
            Token::Mirrored => TokenView::Mirrored,
            Token::ElderItem => TokenView::ElderItem,
            Token::ShaperItem => TokenView::ShaperItem,
            Token::HasInfluence => TokenView::HasInfluence,
            Token::FracturedItem => TokenView::FracturedItem,
            Token::SynthesisedItem => TokenView::SynthesisedItem,
            Token::ShapedMap => TokenView::ShapedMap,
            Token::MapTier => TokenView::MapTier,
            Token::SetBorderColor => TokenView::SetBorderColor,
            Token::SetTextColor => TokenView::SetTextColor,
            Token::SetBackgroundColor => TokenView::SetBackgroundColor,
            Token::SetFontSize => TokenView::SetFontSize,
            Token::PlayAlertSound => TokenView::PlayAlertSound,
            Token::PlayAlertSoundPositional => TokenView::PlayAlertSoundPositional,
            Token::DisableDropSound => TokenView::DisableDropSound,
            Token::CustomAlertSound => TokenView::CustomAlertSound,
            Token::MinimapIcon => TokenView::MinimapIcon,
            Token::PlayEffect => TokenView::PlayEffect,
            Token::Numbers(payload) => TokenView::Numbers(encode_utf8(payload@)),
            Token::Quotes(payload) => TokenView::Quotes(encode_utf8(payload@)),
            Token::Boolean(payload) => TokenView::Boolean(encode_utf8(payload@)),
            Token::Text(payload) => TokenView::Text(encode_utf8(payload@)),
        }
    }
}

impl Default for Token {
    fn default() -> (token: Self)
        ensures
            token == Token::Error,
    {
        Token::Error
    }
}

/// The categories of token that the assembler tells apart.
#[derive(Clone, Debug, Eq, PartialEq)]
pub enum KeywordType {
    /// A keyword that narrows which items a block matches.
    Conditions,
    /// A keyword that styles the items a block matches.
    Actions,
    /// `Show`, `Hide` or `Continue`.
    Block,
    /// Comparison operators. The vocabulary has no token for them: in a
    /// value position they come out as errors.
    Operations,
    /// A literal, with its payload.
    Values(String),
}

/// The mathematical value of a [`KeywordType`].
pub enum KeywordKind {
    Conditions,
    Actions,
    Block,
    Operations,
    Values(Seq<u8>),
}

impl DeepView for KeywordType {
    type V = KeywordKind;

    open spec fn deep_view(&self) -> KeywordKind {
        match self {
            KeywordType::Conditions => KeywordKind::Conditions,
            KeywordType::Actions => KeywordKind::Actions,
            KeywordType::Block => KeywordKind::Block,
            KeywordType::Operations => KeywordKind::Operations,
            KeywordType::Values(payload) => KeywordKind::Values(encode_utf8(payload@)),
        }
    }
}

/// The category of a token, which decides what the assembler does with it.
/// Comment markers, blanks, line breaks and errors have none.
pub open spec fn class_of(token: TokenView) -> Option<KeywordKind> {
    match token {
        TokenView::Show | TokenView::Hide | TokenView::Continue => Some(KeywordKind::Block),
        TokenView::AreaLevel | TokenView::ItemLevel | TokenView::DropLevel | TokenView::Quality
        | TokenView::Rarity | TokenView::Class | TokenView::BaseType | TokenView::ProphecyName
        | TokenView::LinkedSockets | TokenView::SocketGroup | TokenView::Sockets
        | TokenView::Height | TokenView::Width | TokenView::HasExplicitMod
        | TokenView::AnyEnchantment | TokenView::HasEnchantment | TokenView::StackSize
        | TokenView::GemLevel | TokenView::Identified | TokenView::Corrupted
        | TokenView::CorruptedMods | TokenView::Mirrored | TokenView::ElderItem
        | TokenView::ShaperItem | TokenView::HasInfluence | TokenView::FracturedItem
        | TokenView::SynthesisedItem | TokenView::ShapedMap | TokenView::MapTier => Some(
            KeywordKind::Conditions,
        ),
        TokenView::SetBorderColor | TokenView::SetTextColor | TokenView::SetBackgroundColor
        | TokenView::SetFontSize | TokenView::PlayAlertSound
        | TokenView::PlayAlertSoundPositional | TokenView::DisableDropSound
        | TokenView::CustomAlertSound | TokenView::MinimapIcon | TokenView::PlayEffect => Some(
            KeywordKind::Actions,
        ),
        TokenView::Numbers(payload)
        | TokenView::Quotes(payload)
        | TokenView::Boolean(payload)
        | TokenView::Text(payload) => Some(KeywordKind::Values(payload)),
        TokenView::Error | TokenView::Hash | TokenView::Skip | TokenView::EndLine => None,
    }
}

impl Token {
    /// Classifies the token. A value literal hands out a copy of its payload.
    pub fn keyword_type(&self) -> (kind: Option<KeywordType>)
        ensures
            kind.deep_view() == class_of(self.deep_view()),
    {
        match self {
            Token::Error => None,
            Token::Hash => None,
            Token::Skip => None,
            Token::EndLine => None,
            // blocks
            Token::Show => Some(KeywordType::Block),
            Token::Hide => Some(KeywordType::Block),
            Token::Continue => Some(KeywordType::Block),
            // conditions
            Token::AreaLevel => Some(KeywordType::Conditions),
            Token::ItemLevel => Some(KeywordType::Conditions),
            Token::DropLevel => Some(KeywordType::Conditions),
            Token::Quality => Some(KeywordType::Conditions),
            Token::Rarity => Some(KeywordType::Conditions),
            Token::Class => Some(KeywordType::Conditions),
            Token::BaseType => Some(KeywordType::Conditions),
            Token::ProphecyName => Some(KeywordType::Conditions),
            Token::LinkedSockets => Some(KeywordType::Conditions),
            Token::SocketGroup => Some(KeywordType::Conditions),
            Token::Sockets => Some(KeywordType::Conditions),
            Token::Height => Some(KeywordType::Conditions),
            Token::Width => Some(KeywordType::Conditions),
            Token::HasExplicitMod => Some(KeywordType::Conditions),
            Token::AnyEnchantment => Some(KeywordType::Conditions),
            Token::HasEnchantment => Some(KeywordType::Conditions),
            Token::StackSize => Some(KeywordType::Conditions),
            Token::GemLevel => Some(KeywordType::Conditions),
            Token::Identified => Some(KeywordType::Conditions),
            Token::Corrupted => Some(KeywordType::Conditions),
            Token::CorruptedMods => Some(KeywordType::Conditions),
            Token::Mirrored => Some(KeywordType::Conditions),
            Token::ElderItem => Some(KeywordType::Conditions),
            Token::ShaperItem => Some(KeywordType::Conditions),
            Token::HasInfluence => Some(KeywordType::Conditions),
            Token::FracturedItem => Some(KeywordType::Conditions),
            Token::SynthesisedItem => Some(KeywordType::Conditions),
            Token::ShapedMap => Some(KeywordType::Conditions),
            Token::MapTier => Some(KeywordType::Conditions),
            // actions
            Token::SetBorderColor => Some(KeywordType::Actions),
            Token::SetTextColor => Some(KeywordType::Actions),
            Token::SetBackgroundColor => Some(KeywordType::Actions),
            Token::SetFontSize => Some(KeywordType::Actions),
            Token::PlayAlertSound => Some(KeywordType::Actions),
            Token::PlayAlertSoundPositional => Some(KeywordType::Actions),
            Token::DisableDropSound => Some(KeywordType::Actions),
            Token::CustomAlertSound => Some(KeywordType::Actions),
            Token::MinimapIcon => Some(KeywordType::Actions),
            Token::PlayEffect => Some(KeywordType::Actions),
            // values
            Token::Numbers(payload) => Some(KeywordType::Values(payload.clone())),
            Token::Quotes(payload) => Some(KeywordType::Values(payload.clone())),
            Token::Boolean(payload) => Some(KeywordType::Values(payload.clone())),
            Token::Text(payload) => Some(KeywordType::Values(payload.clone())),
        }
    }
}

/// The span of a token as a pair of positions: where it begins and where it
/// ends.
pub open spec fn span_view(span: Option<Range<usize>>) -> Option<(int, int)> {
    match span {
        Some(range) => Some((range.start as int, range.end as int)),
        None => None,
    }
}

/// One literal on a keyword line.
#[derive(PartialEq, Debug, Clone)]
pub struct ValueAndSpan {
    pub token: Token,
    pub span: Option<Range<usize>>,
    pub value: String,
}

/// The mathematical value of a [`ValueAndSpan`].
pub struct ValueView {
    pub token: TokenView,
    pub span: Option<(int, int)>,
    pub value: Seq<u8>,
}

impl DeepView for ValueAndSpan {
    type V = ValueView;

    open spec fn deep_view(&self) -> ValueView {
        ValueView {
            token: self.token.deep_view(),
            span: span_view(self.span),
            value: encode_utf8(self.value@),
        }
    }
}

impl Default for ValueAndSpan {
    fn default() -> (entry: Self)
        ensures
            entry.deep_view() == (ValueView {
                token: TokenView::Error,
                span: None,
                value: Seq::empty(),
            }),
    {
        ValueAndSpan { token: Token::default(), span: None, value: String::new() }
    }
}

/// One condition or action line: the keyword and the literals after it.
#[derive(PartialEq, Debug, Clone)]
pub struct TokenAndSpan {
    pub token: Token,
    pub span: Option<Range<usize>>,
    pub value: Vec<ValueAndSpan>,
}

/// The mathematical value of a [`TokenAndSpan`].
pub struct KeywordView {
    pub token: TokenView,
    pub span: Option<(int, int)>,
    pub value: Seq<ValueView>,
}

impl DeepView for TokenAndSpan {
    type V = KeywordView;

    open spec fn deep_view(&self) -> KeywordView {
        KeywordView {
            token: self.token.deep_view(),
            span: span_view(self.span),
            value: self.value.deep_view(),
        }
    }
}

impl Default for TokenAndSpan {
    fn default() -> (entry: Self)
        ensures
            entry.deep_view() == (KeywordView {
                token: TokenView::Error,
                span: None,
                value: Seq::empty(),
            }),
    {
        let entry = TokenAndSpan { token: Token::default(), span: None, value: Vec::new() };
        assert(entry.value.deep_view() =~= Seq::empty());
        entry
    }
}

/// One section of a filter script: the marker that opens it and the keyword
/// lines under it. The text before the first marker forms a block without
/// a marker.
#[derive(PartialEq, Debug, Clone)]
pub struct FilterBlock {
    pub block: Option<Token>,
    pub keywords: Vec<TokenAndSpan>,
    pub bspan: Option<Range<usize>>,
}

/// The mathematical value of a [`FilterBlock`].
pub struct BlockView {
    pub block: Option<TokenView>,
    pub keywords: Seq<KeywordView>,
    pub bspan: Option<(int, int)>,
}

impl DeepView for FilterBlock {
    type V = BlockView;

    open spec fn deep_view(&self) -> BlockView {
        BlockView {
            block: self.block.deep_view(),
            keywords: self.keywords.deep_view(),
            bspan: span_view(self.bspan),
        }
    }
}

/// The block that holds nothing: no marker, no span, no keyword.
pub open spec fn empty_block() -> BlockView {
    BlockView { block: None, keywords: Seq::empty(), bspan: None }
}

impl Default for FilterBlock {
    fn default() -> (block: Self)
        ensures
            block.deep_view() == empty_block(),
    {
        let block = FilterBlock { block: None, keywords: Vec::new(), bspan: None };
        assert(block.keywords.deep_view() =~= Seq::empty());
        block
    }
}

impl FilterBlock {
    /// Hands out a fresh, empty block. The receiver keeps what it holds.
    pub fn clear(&mut self) -> (fresh: Self)
        ensures
            fresh.deep_view() == empty_block(),
            *final(self) == *old(self),
    {
        FilterBlock::default()
    }
}

/// Finishes the block being filled and opens the one that `token` marks:
/// the old block goes to the end of `vec`, and `block` starts afresh with
/// the marker and its span.
pub fn new_block(
    vec: &mut Vec<FilterBlock>,
    token: Token,
    span: Range<usize>,
    block: &mut FilterBlock,
)
    ensures
        final(vec).deep_view() == old(vec).deep_view().push(old(block).deep_view()),
        final(block).deep_view() == open_block(
            token.deep_view(),
            (span.start as int, span.end as int),
        ),
{
    let mut finished = block.clear();
    core::mem::swap(block, &mut finished);
    block.block = Some(token);
    block.bspan = Some(span);
    let ghost before = vec.deep_view();
    vec.push(finished);
    assert(vec.deep_view() =~= before.push(finished.deep_view()));
}

/// Opens a keyword line in `block`.
pub fn add_keyword(token: Token, span: Range<usize>, block: &mut FilterBlock)
    ensures
        final(block).deep_view() == open_keyword(
            old(block).deep_view(),
            token.deep_view(),
            (span.start as int, span.end as int),
        ),
{
    let ghost before = block.keywords.deep_view();
    let entry = TokenAndSpan { token, span: Some(span), value: Vec::new() };
    assert(entry.value.deep_view() =~= Seq::empty());
    block.keywords.push(entry);
    assert(block.keywords.deep_view() =~= before.push(entry.deep_view()));
}

/// Puts a value, with its payload `string`, on the last keyword line of
/// `block`. Where the block has no keyword line the value is dropped.
pub fn add_values(token: Token, span: Range<usize>, block: &mut FilterBlock, string: String)
    ensures
        final(block).deep_view() == attach(
            old(block).deep_view(),
            token.deep_view(),
            (span.start as int, span.end as int),
            encode_utf8(string@),
        ),
{
    let count = block.keywords.len();
    if count > 0 {
        let ghost lines = block.keywords.deep_view();
        let ghost values = block.keywords[count - 1].value.deep_view();
        let entry = ValueAndSpan { token, span: Some(span), value: string };
        block.keywords[count - 1].value.push(entry);
        assert(block.keywords[count - 1].value.deep_view() =~= values.push(entry.deep_view()));
        assert(block.keywords.deep_view() =~= lines.update(
            count - 1,
            block.keywords[count - 1].deep_view(),
        ));
    }
}

/// Feeds one token to the assembler: `vec` holds the blocks that are
/// finished, `block` is the block being filled.
pub fn feed_token(vec: &mut Vec<FilterBlock>, block: &mut FilterBlock, item: Tokens)
    ensures
        (Assembly { done: final(vec).deep_view(), current: final(block).deep_view() }) == feed(
            Assembly { done: old(vec).deep_view(), current: old(block).deep_view() },
            item.deep_view(),
        ),
{
    let Tokens { token, span } = item;
    match token.keyword_type() {
        Some(KeywordType::Block) => new_block(vec, token, span, block),
        Some(KeywordType::Conditions) | Some(KeywordType::Actions) => add_keyword(
            token,
            span,
            block,
        ),
        Some(KeywordType::Values(payload)) => add_values(token, span, block, payload),
        _ => {},
    }
}

/// Assembles a token stream into blocks: first the preamble, then one
/// block for each marker in the stream. Every stream is accepted: a
/// keyword before the first marker goes to the preamble, a value before
/// the first keyword of its block is dropped, and tokens that are neither
/// marker, keyword nor value are passed over.
pub fn assemble_tokens(tokens: Vec<Tokens>) -> (blocks: Vec<FilterBlock>)
    ensures
        blocks.deep_view() == assemble(tokens.deep_view()),
        well_formed(blocks.deep_view()),
        blocks.len() == markers(tokens.deep_view()) + 1,
        spread(blocks.deep_view()) == recorded(tokens.deep_view(), tokens.len() as int),
{
    let ghost stream = tokens.deep_view();
    let mut vec: Vec<FilterBlock> = Vec::new();
    let mut block = FilterBlock::default();
    let mut tokens = tokens;
    let mut rest: Vec<Tokens> = Vec::new();
    // the stream is taken from its end: turn it round first
    while tokens.len() > 0
        invariant
            stream =~= tokens.deep_view() + rest.deep_view().reverse(),
        decreases tokens.len(),
    {
        let ghost before = tokens.deep_view();
        let ghost turned = rest.deep_view();
        match tokens.pop() {
            Some(item) => {
                assert(tokens.deep_view() =~= before.drop_last());
                rest.push(item);
                assert(rest.deep_view() =~= turned.push(item.deep_view()));
            },
            None => {},
        }
    }
    let ghost mut seen: Seq<Lexeme> = Seq::empty();
    assert(vec.deep_view() =~= start().done);
    assert(tokens.deep_view() =~= Seq::<Lexeme>::empty());
    while rest.len() > 0
        invariant
            stream =~= seen + rest.deep_view().reverse(),
            vec.deep_view() == fold(start(), seen).done,
            block.deep_view() == fold(start(), seen).current,
        decreases rest.len(),
    {
        let ghost turned = rest.deep_view();
        match rest.pop() {
            Some(item) => {
                proof {
                    let lexeme = item.deep_view();
                    assert(rest.deep_view() =~= turned.drop_last());
                    assert(turned.reverse() =~= seq![lexeme] + rest.deep_view().reverse());
                    assert(seen.push(lexeme).drop_last() =~= seen);
                    seen = seen.push(lexeme);
                }
                feed_token(&mut vec, &mut block, item);
            },
            None => {},
        }
    }
    assert(stream =~= seen);
    let ghost done = vec.deep_view();
    vec.push(block);
    assert(vec.deep_view() =~= done.push(block.deep_view()));
    proof {
        law_well_formed(stream);
        law_block_count(stream);
        law_order_preserved(stream);
    }
    vec
}

/// The blocks of a filter script, given as the bytes of its text: what the
/// assembler makes of the tokens that the tokenizer reads.
pub open spec fn document(bytes: Seq<u8>) -> Seq<BlockView> {
    assemble(tokens(bytes))
}

/// Parses a filter script into its blocks, in the order of the text. The
/// first block is the preamble, which has no marker; one block follows for
/// each marker in the text. Every text is parsed to its end: what is not
/// understood becomes an error token, which the blocks pass over.
///
/// The blocks are those of [`document`]. They are well formed; there is
/// one more of them than there are markers among the tokens; read block
/// after block they hold the tokens that the assembler keeps, in the order
/// of the text; and the span of each entry holds the text of its token.
pub fn parse(filter_file: &str) -> (blocks: Vec<FilterBlock>)
    ensures
        blocks.deep_view() == document(filter_file.spec_bytes()),
        well_formed(blocks.deep_view()),
        blocks.len() == markers(tokens(filter_file.spec_bytes())) + 1,
        spread(blocks.deep_view()) == recorded(
            tokens(filter_file.spec_bytes()),
            tokens(filter_file.spec_bytes()).len() as int,
        ),
        forall|i: int|
            0 <= i < spread(blocks.deep_view()).len() ==> matched(
                filter_file.spec_bytes(),
                #[trigger] spread(blocks.deep_view())[i],
            ),
        in_order(spread(blocks.deep_view())),
{
    let mut vec: Vec<FilterBlock> = Vec::new();
    let mut block = FilterBlock::default();
    let mut lex = ModeBridge { mode: Modes::new(filter_file) };
    let ghost mut seen: Seq<Lexeme> = Seq::empty();
    assert(vec.deep_view() =~= start().done);
    assert(seen + lex.mode.remaining() =~= tokens(filter_file.spec_bytes()));
    loop
        invariant
            lex.mode.source@ == filter_file@,
            seen + lex.mode.remaining() == tokens(filter_file.spec_bytes()),
            vec.deep_view() == fold(start(), seen).done,
            block.deep_view() == fold(start(), seen).current,
        decreases lex.mode.text().len() - lex.mode.pos,
    {
        let ghost rest = lex.mode.remaining();
        match lex.next() {
            None => {
                assert(seen + rest =~= seen);
                let ghost done = vec.deep_view();
                vec.push(block);
                assert(vec.deep_view() =~= done.push(block.deep_view()));
                proof {
                    law_well_formed(seen);
                    law_block_count(seen);
                    law_order_preserved(seen);
                    law_entries(filter_file.spec_bytes());
                }
                return vec;
            },
            Some(item) => {
                proof {
                    let lexeme = item.deep_view();
                    assert(seen.push(lexeme).drop_last() =~= seen);
                    assert(seen.push(lexeme) + lex.mode.remaining() =~= seen + rest);
                    seen = seen.push(lexeme);
                }
                feed_token(&mut vec, &mut block, item);
            },
        }
    }
}

} // verus!
