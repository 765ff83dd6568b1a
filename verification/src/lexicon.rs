//! The keyword vocabulary: how each keyword is written, and which keyword
//! wins where more than one is found at the same place.
use crate::mode_parsing::{class_of, KeywordKind, KeywordType, Token, TokenView};
use crate::scan::{found, found_at, ByteClass};
use vstd::prelude::*;
use vstd::string::*;

verus! {

/// Whether `token` is a keyword: a block marker, a condition or an action.
pub open spec fn is_word(token: TokenView) -> bool {
    class_of(token) matches Some(kind) && (kind is Block || kind is Conditions || kind is Actions)
}

/// How a keyword is written in a filter script. Tokens that are no
/// keywords have no fixed spelling, and get the empty one.
pub open spec fn spelling(token: TokenView) -> Seq<u8> {
    match token {
        TokenView::Show => "Show".spec_bytes(),
        TokenView::Hide => "Hide".spec_bytes(),
        TokenView::Continue => "Continue".spec_bytes(),
        TokenView::AreaLevel => "AreaLevel".spec_bytes(),
        TokenView::ItemLevel => "ItemLevel".spec_bytes(),
        TokenView::DropLevel => "DropLevel".spec_bytes(),
        TokenView::Quality => "Quality".spec_bytes(),
        TokenView::Rarity => "Rarity".spec_bytes(),
        TokenView::Class => "Class".spec_bytes(),
        TokenView::BaseType => "BaseType".spec_bytes(),
        TokenView::ProphecyName => "Prophecy".spec_bytes(),
        TokenView::LinkedSockets => "LinkedSockets".spec_bytes(),
        TokenView::SocketGroup => "SocketGroup".spec_bytes(),
        TokenView::Sockets => "Sockets".spec_bytes(),
        TokenView::Height => "Height".spec_bytes(),
        TokenView::Width => "Width".spec_bytes(),
        TokenView::HasExplicitMod => "HasExplicitMod".spec_bytes(),
        TokenView::AnyEnchantment => "AnyEnchantment".spec_bytes(),
        TokenView::HasEnchantment => "HasEnchantment".spec_bytes(),
        TokenView::StackSize => "StackSize".spec_bytes(),
        TokenView::GemLevel => "GemLevel".spec_bytes(),
        TokenView::Identified => "Identified".spec_bytes(),
        TokenView::Corrupted => "Corrupted".spec_bytes(),
        TokenView::CorruptedMods => "CorruptedMods".spec_bytes(),
        TokenView::Mirrored => "Mirrored".spec_bytes(),
        TokenView::ElderItem => "ElderItem".spec_bytes(),
        TokenView::ShaperItem => "ShaperItem".spec_bytes(),
        TokenView::HasInfluence => "HasInfluence".spec_bytes(),
        TokenView::FracturedItem => "FracturedItem".spec_bytes(),
        TokenView::SynthesisedItem => "SynthesisedItem".spec_bytes(),
        TokenView::ShapedMap => "ShapedMap".spec_bytes(),
        TokenView::MapTier => "MapTier".spec_bytes(),
        TokenView::SetBorderColor => "SetBorderColor".spec_bytes(),
        TokenView::SetTextColor => "SetTextColor".spec_bytes(),
        TokenView::SetBackgroundColor => "SetBackgroundColor".spec_bytes(),
        TokenView::SetFontSize => "SetFontSize".spec_bytes(),
        TokenView::PlayAlertSound => "PlayAlertSound".spec_bytes(),
        TokenView::PlayAlertSoundPositional => "PlayAlertSoundPositional".spec_bytes(),
        TokenView::DisableDropSound => "DisableDropSound".spec_bytes(),
        TokenView::CustomAlertSound => "CustomAlertSound".spec_bytes(),
        TokenView::MinimapIcon => "MinimapIcon".spec_bytes(),
        TokenView::PlayEffect => "PlayEffect".spec_bytes(),
        _ => Seq::empty(),
    }
}

/// The number of keywords.
pub const WORDS: usize = 42;

/// The keywords in the order in which the tokenizer tries them: a keyword
/// stands before every keyword that is a beginning of it, so that the
/// longer spelling is found first.
pub open spec fn precedence() -> Seq<TokenView> {
    seq![
        TokenView::Show,
        TokenView::Hide,
        TokenView::Continue,
        TokenView::AreaLevel,
        TokenView::ItemLevel,
        TokenView::DropLevel,
        TokenView::Quality,
        TokenView::Rarity,
        TokenView::Class,
        TokenView::BaseType,
        TokenView::ProphecyName,
        TokenView::LinkedSockets,
        TokenView::SocketGroup,
        TokenView::Sockets,
        TokenView::Height,
        TokenView::Width,
        TokenView::HasExplicitMod,
        TokenView::AnyEnchantment,
        TokenView::HasEnchantment,
        TokenView::StackSize,
        TokenView::GemLevel,
        TokenView::Identified,
        TokenView::CorruptedMods,
        TokenView::Corrupted,
        TokenView::Mirrored,
        TokenView::ElderItem,
        TokenView::ShaperItem,
        TokenView::HasInfluence,
        TokenView::FracturedItem,
        TokenView::SynthesisedItem,
        TokenView::ShapedMap,
        TokenView::MapTier,
        TokenView::SetBorderColor,
        TokenView::SetTextColor,
        TokenView::SetBackgroundColor,
        TokenView::SetFontSize,
        TokenView::PlayAlertSoundPositional,
        TokenView::PlayAlertSound,
        TokenView::DisableDropSound,
        TokenView::CustomAlertSound,
        TokenView::MinimapIcon,
        TokenView::PlayEffect,
    ]
}

/// The keyword with the given rank in [`precedence`], and its spelling.
pub fn entry(rank: usize) -> (word: (&'static str, Token))
    requires
        rank < WORDS,
    ensures
        word.0.spec_bytes() == spelling(precedence()[rank as int]),
        word.1.deep_view() == precedence()[rank as int],
{
    match rank {
        0 => ("Show", Token::Show),
        1 => ("Hide", Token::Hide),
        2 => ("Continue", Token::Continue),
        3 => ("AreaLevel", Token::AreaLevel),
        4 => ("ItemLevel", Token::ItemLevel),
        5 => ("DropLevel", Token::DropLevel),
        6 => ("Quality", Token::Quality),
        7 => ("Rarity", Token::Rarity),
        8 => ("Class", Token::Class),
        9 => ("BaseType", Token::BaseType),
        10 => ("Prophecy", Token::ProphecyName),
        11 => ("LinkedSockets", Token::LinkedSockets),
        12 => ("SocketGroup", Token::SocketGroup),
        13 => ("Sockets", Token::Sockets),
        14 => ("Height", Token::Height),
        15 => ("Width", Token::Width),
        16 => ("HasExplicitMod", Token::HasExplicitMod),
        17 => ("AnyEnchantment", Token::AnyEnchantment),
        18 => ("HasEnchantment", Token::HasEnchantment),
        19 => ("StackSize", Token::StackSize),
        20 => ("GemLevel", Token::GemLevel),
        21 => ("Identified", Token::Identified),
        22 => ("CorruptedMods", Token::CorruptedMods),
        23 => ("Corrupted", Token::Corrupted),
        24 => ("Mirrored", Token::Mirrored),
        25 => ("ElderItem", Token::ElderItem),
        26 => ("ShaperItem", Token::ShaperItem),
        27 => ("HasInfluence", Token::HasInfluence),
        28 => ("FracturedItem", Token::FracturedItem),
        29 => ("SynthesisedItem", Token::SynthesisedItem),
        30 => ("ShapedMap", Token::ShapedMap),
        31 => ("MapTier", Token::MapTier),
        32 => ("SetBorderColor", Token::SetBorderColor),
        33 => ("SetTextColor", Token::SetTextColor),
        34 => ("SetBackgroundColor", Token::SetBackgroundColor),
        35 => ("SetFontSize", Token::SetFontSize),
        36 => ("PlayAlertSoundPositional", Token::PlayAlertSoundPositional),
        37 => ("PlayAlertSound", Token::PlayAlertSound),
        38 => ("DisableDropSound", Token::DisableDropSound),
        39 => ("CustomAlertSound", Token::CustomAlertSound),
        40 => ("MinimapIcon", Token::MinimapIcon),
        _ => ("PlayEffect", Token::PlayEffect),
    }
}

/// The first keyword of rank `rank` or above that stands in `bytes` at
/// `pos`, block markers only where `markers_only` is set.
pub open spec fn word_from(bytes: Seq<u8>, pos: int, markers_only: bool, rank: int) -> Option<
    TokenView,
>
    decreases WORDS - rank,
{
    if rank < 0 || rank >= WORDS {
        None
    } else {
        let word = precedence()[rank];
        if (class_of(word) == Some(KeywordKind::Block) || !markers_only) && found_at(
            bytes,
            pos,
            spelling(word),
        ) {
            Some(word)
        } else {
            word_from(bytes, pos, markers_only, rank + 1)
        }
    }
}

/// The keyword that stands in `bytes` at `pos`, if there is one: the first
/// in [`precedence`] whose spelling is found there.
pub open spec fn word_at(bytes: Seq<u8>, pos: int, markers_only: bool) -> Option<TokenView> {
    word_from(bytes, pos, markers_only, 0)
}

/// Looks for a keyword at `pos`, and returns it with the position where
/// its spelling ends.
pub fn find_word(bytes: &[u8], pos: usize, markers_only: bool) -> (hit: Option<(Token, usize)>)
    ensures
        hit.is_some() == word_at(bytes@, pos as int, markers_only).is_some(),
        hit matches Some((token, end)) ==> {
            &&& Some(token.deep_view()) == word_at(bytes@, pos as int, markers_only)
            &&& end == pos + spelling(token.deep_view()).len()
            &&& found_at(bytes@, pos as int, spelling(token.deep_view()))
        },
{
    let size: usize = bytes.len();
    let mut rank: usize = 0;
    while rank < WORDS
        invariant
            rank <= WORDS,
            size == bytes@.len(),
            word_at(bytes@, pos as int, markers_only) == word_from(
                bytes@,
                pos as int,
                markers_only,
                rank as int,
            ),
        decreases WORDS - rank,
    {
        let (text, token) = entry(rank);
        let marker = match token.keyword_type() {
            Some(KeywordType::Block) => true,
            _ => false,
        };
        assert(marker == (class_of(token.deep_view()) == Some(KeywordKind::Block)));
        if (marker || !markers_only) && found(bytes, pos, text) {
            assert(pos + text.spec_bytes().len() <= size);
            let end = pos + text.len();
            return Some((token, end));
        }
        rank += 1;
    }
    None
}

/// A text of ASCII letters has one byte for each letter.
proof fn lemma_letters(text: &str)
    requires
        text@.len() > 0,
        forall|i: int|
            0 <= i < text@.len() ==> ('a' <= #[trigger] text@[i] <= 'z') || ('A' <= text@[i]
                <= 'Z'),
    ensures
        text.spec_bytes().len() == text@.len(),
        forall|i: int|
            0 <= i < text.spec_bytes().len() ==> ByteClass::Letter.has(
                #[trigger] text.spec_bytes()[i],
            ),
{
    assert(is_ascii(text));
    is_ascii_spec_bytes(text);
    assert forall|i: int| 0 <= i < text.spec_bytes().len() implies ByteClass::Letter.has(
        #[trigger] text.spec_bytes()[i],
    ) by {
        assert(text.spec_bytes()[i] == text@[i] as u8);
    }
}

/// Every keyword is written with letters alone, and with at least one.
pub proof fn lemma_spelling(token: TokenView)
    requires
        is_word(token),
    ensures
        spelling(token).len() > 0,
        forall|i: int|
            0 <= i < spelling(token).len() ==> ByteClass::Letter.has(#[trigger] spelling(token)[i]),
{
    match token {
        TokenView::Show => {
            reveal_strlit("Show");
            lemma_letters("Show");
        },
        TokenView::Hide => {
            reveal_strlit("Hide");
            lemma_letters("Hide");
        },
        TokenView::Continue => {
            reveal_strlit("Continue");
            lemma_letters("Continue");
        },
        TokenView::AreaLevel => {
            reveal_strlit("AreaLevel");
            lemma_letters("AreaLevel");
        },
        TokenView::ItemLevel => {
            reveal_strlit("ItemLevel");
            lemma_letters("ItemLevel");
        },
        TokenView::DropLevel => {
            reveal_strlit("DropLevel");
            lemma_letters("DropLevel");
        },
        TokenView::Quality => {
            reveal_strlit("Quality");
            lemma_letters("Quality");
        },
        TokenView::Rarity => {
            reveal_strlit("Rarity");
            lemma_letters("Rarity");
        },
        TokenView::Class => {
            reveal_strlit("Class");
            lemma_letters("Class");
        },
        TokenView::BaseType => {
            reveal_strlit("BaseType");
            lemma_letters("BaseType");
        },
        TokenView::ProphecyName => {
            reveal_strlit("Prophecy");
            lemma_letters("Prophecy");
        },
        TokenView::LinkedSockets => {
            reveal_strlit("LinkedSockets");
            lemma_letters("LinkedSockets");
        },
        TokenView::SocketGroup => {
            reveal_strlit("SocketGroup");
            lemma_letters("SocketGroup");
        },
        TokenView::Sockets => {
            reveal_strlit("Sockets");
            lemma_letters("Sockets");
        },
        TokenView::Height => {
            reveal_strlit("Height");
            lemma_letters("Height");
        },
        TokenView::Width => {
            reveal_strlit("Width");
            lemma_letters("Width");
        },
        TokenView::HasExplicitMod => {
            reveal_strlit("HasExplicitMod");
            lemma_letters("HasExplicitMod");
        },
        TokenView::AnyEnchantment => {
            reveal_strlit("AnyEnchantment");
            lemma_letters("AnyEnchantment");
        },
        TokenView::HasEnchantment => {
            reveal_strlit("HasEnchantment");
            lemma_letters("HasEnchantment");
        },
        TokenView::StackSize => {
            reveal_strlit("StackSize");
            lemma_letters("StackSize");
        },
        TokenView::GemLevel => {
            reveal_strlit("GemLevel");
            lemma_letters("GemLevel");
        },
        TokenView::Identified => {
            reveal_strlit("Identified");
            lemma_letters("Identified");
        },
        TokenView::Corrupted => {
            reveal_strlit("Corrupted");
            lemma_letters("Corrupted");
        },
        TokenView::CorruptedMods => {
            reveal_strlit("CorruptedMods");
            lemma_letters("CorruptedMods");
        },
        TokenView::Mirrored => {
            reveal_strlit("Mirrored");
            lemma_letters("Mirrored");
        },
        TokenView::ElderItem => {
            reveal_strlit("ElderItem");
            lemma_letters("ElderItem");
        },
        TokenView::ShaperItem => {
            reveal_strlit("ShaperItem");
            lemma_letters("ShaperItem");
        },
        TokenView::HasInfluence => {
            reveal_strlit("HasInfluence");
            lemma_letters("HasInfluence");
        },
        TokenView::FracturedItem => {
            reveal_strlit("FracturedItem");
            lemma_letters("FracturedItem");
        },
        TokenView::SynthesisedItem => {
            reveal_strlit("SynthesisedItem");
            lemma_letters("SynthesisedItem");
        },
        TokenView::ShapedMap => {
            reveal_strlit("ShapedMap");
            lemma_letters("ShapedMap");
        },
        TokenView::MapTier => {
            reveal_strlit("MapTier");
            lemma_letters("MapTier");
        },
        TokenView::SetBorderColor => {
            reveal_strlit("SetBorderColor");
            lemma_letters("SetBorderColor");
        },
        TokenView::SetTextColor => {
            reveal_strlit("SetTextColor");
            lemma_letters("SetTextColor");
        },
        TokenView::SetBackgroundColor => {
            reveal_strlit("SetBackgroundColor");
            lemma_letters("SetBackgroundColor");
        },
        TokenView::SetFontSize => {
            reveal_strlit("SetFontSize");
            lemma_letters("SetFontSize");
        },
        TokenView::PlayAlertSound => {
            reveal_strlit("PlayAlertSound");
            lemma_letters("PlayAlertSound");
        },
        TokenView::PlayAlertSoundPositional => {
            reveal_strlit("PlayAlertSoundPositional");
            lemma_letters("PlayAlertSoundPositional");
        },
        TokenView::DisableDropSound => {
            reveal_strlit("DisableDropSound");
            lemma_letters("DisableDropSound");
        },
        TokenView::CustomAlertSound => {
            reveal_strlit("CustomAlertSound");
            lemma_letters("CustomAlertSound");
        },
        TokenView::MinimapIcon => {
            reveal_strlit("MinimapIcon");
            lemma_letters("MinimapIcon");
        },
        TokenView::PlayEffect => {
            reveal_strlit("PlayEffect");
            lemma_letters("PlayEffect");
        },
        _ => {},
    }
}

/// Every entry of [`precedence`] is a keyword.
pub proof fn lemma_precedence(rank: int)
    requires
        0 <= rank < WORDS,
    ensures
        precedence().len() == WORDS,
        is_word(precedence()[rank]),
{
}

/// What [`word_from`] finds is a keyword of rank `rank` or above that stands
/// at `pos`, a block marker where only those are looked for, and no
/// keyword between `rank` and it does the same.
pub proof fn lemma_word_from(bytes: Seq<u8>, pos: int, markers_only: bool, rank: int)
    requires
        0 <= rank <= WORDS,
    ensures
        word_from(bytes, pos, markers_only, rank) matches Some(word) ==> {
            &&& is_word(word)
            &&& found_at(bytes, pos, spelling(word))
            &&& markers_only ==> class_of(word) == Some(KeywordKind::Block)
            &&& exists|at: int| rank <= at < WORDS && precedence()[at] == word
        },
        word_from(bytes, pos, markers_only, rank) is None ==> forall|at: int|
            rank <= at < WORDS ==> !(found_at(bytes, pos, spelling(#[trigger] precedence()[at]))
                && (class_of(precedence()[at]) == Some(KeywordKind::Block) || !markers_only)),
    decreases WORDS - rank,
{
    if rank < WORDS {
        lemma_precedence(rank);
        lemma_word_from(bytes, pos, markers_only, rank + 1);
        let word = precedence()[rank];
        if (class_of(word) == Some(KeywordKind::Block) || !markers_only) && found_at(
            bytes,
            pos,
            spelling(word),
        ) {
            assert(precedence()[rank] == word);
        } else if word_from(bytes, pos, markers_only, rank) is Some {
            let found = word_from(bytes, pos, markers_only, rank + 1)->0;
            let at = choose|at: int| rank + 1 <= at < WORDS && precedence()[at] == found;
            assert(rank <= at < WORDS && precedence()[at] == found);
        }
    }
}

} // verus!
