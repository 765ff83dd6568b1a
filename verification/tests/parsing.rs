use filter_lib::mode_parsing::{
    add_keyword, add_values, new_block, parse, FilterBlock, KeywordType, Token, TokenAndSpan,
    ValueAndSpan,
};

fn payloads(line: &TokenAndSpan) -> Vec<String> {
    line.value.iter().map(|v| v.value.clone()).collect()
}

fn words(block: &FilterBlock) -> Vec<Token> {
    block.keywords.iter().map(|k| k.token.clone()).collect()
}

fn empty() -> FilterBlock {
    FilterBlock { block: None, keywords: vec![], bspan: None }
}

#[test]
fn scenario_show_and_hide() {
    let text = "Show\n  ItemLevel >= 5\n  SetTextColor 255 0 0\nHide\n  Rarity Unique\n";
    let blocks = parse(text);
    assert_eq!(blocks.len(), 3);
    assert_eq!(blocks[0], empty());

    assert_eq!(blocks[1].block, Some(Token::Show));
    assert_eq!(blocks[1].bspan, Some(0..4));
    assert_eq!(words(&blocks[1]), vec![Token::ItemLevel, Token::SetTextColor]);
    assert_eq!(blocks[1].keywords[0].span, Some(7..16));
    assert_eq!(payloads(&blocks[1].keywords[0]), vec!["5"]);
    assert_eq!(blocks[1].keywords[0].value[0].token, Token::Numbers("5".to_string()));
    assert_eq!(blocks[1].keywords[0].value[0].span, Some(20..21));
    assert_eq!(blocks[1].keywords[1].span, Some(24..36));
    assert_eq!(payloads(&blocks[1].keywords[1]), vec!["255", "0", "0"]);
    assert_eq!(blocks[1].keywords[1].value[0].span, Some(37..40));
    assert_eq!(blocks[1].keywords[1].value[1].span, Some(41..42));
    assert_eq!(blocks[1].keywords[1].value[2].span, Some(43..44));

    assert_eq!(blocks[2].block, Some(Token::Hide));
    assert_eq!(blocks[2].bspan, Some(45..49));
    assert_eq!(words(&blocks[2]), vec![Token::Rarity]);
    assert_eq!(payloads(&blocks[2].keywords[0]), vec!["Unique"]);
    assert_eq!(blocks[2].keywords[0].value[0].token, Token::Text("Unique".to_string()));
}

#[test]
fn scenario_empty_text() {
    let blocks = parse("");
    assert_eq!(blocks, vec![empty()]);
}

#[test]
fn scenario_comment_line() {
    let blocks = parse("Show\n# comment line\nContinue\n");
    assert_eq!(blocks.len(), 3);
    assert_eq!(blocks[0], empty());
    assert_eq!(blocks[1], FilterBlock { block: Some(Token::Show), keywords: vec![], bspan: Some(0..4) });
    assert_eq!(
        blocks[2],
        FilterBlock { block: Some(Token::Continue), keywords: vec![], bspan: Some(20..28) }
    );
}

#[test]
fn one_block_for_each_marker_and_the_preamble() {
    assert_eq!(parse("Show\nShow\n").len(), 3);
    assert_eq!(parse("Hide").len(), 2);
    assert_eq!(parse("ShowHideContinue").len(), 4);
    assert_eq!(parse("no marker here").len(), 1);
    // in a value position a marker is a word like any other
    let blocks = parse("Show\nClass Show Hide\n");
    assert_eq!(blocks.len(), 2);
    assert_eq!(payloads(&blocks[1].keywords[0]), vec!["Show", "Hide"]);
}

#[test]
fn garbage_is_parsed_to_the_end() {
    let text = "\u{1}\u{7f}~~ \t\r\n\"\"\"#\n@@Show$%^&*()\nClass \"x\" \u{e9}\u{4e16}\u{1f600} 12ab\n\"open";
    let blocks = parse(text);
    assert_eq!(blocks.len(), 2);
    assert_eq!(blocks[1].block, Some(Token::Show));
    assert_eq!(words(&blocks[1]), vec![Token::Class]);
    assert_eq!(payloads(&blocks[1].keywords[0]), vec!["x", "12", "ab"]);
}

#[test]
fn keywords_before_the_first_marker_are_not_read() {
    let blocks = parse("Class \"Gems\"\nShow\n");
    assert_eq!(blocks.len(), 2);
    assert_eq!(blocks[0], empty());
    assert!(blocks[1].keywords.is_empty());
}

#[test]
fn entries_keep_the_order_of_the_text() {
    let text = "Show\nRarity Rare Unique\nSockets 6\nPlayEffect Red\nHide\nWidth 2\nHeight 4\n";
    let blocks = parse(text);
    assert_eq!(words(&blocks[1]), vec![Token::Rarity, Token::Sockets, Token::PlayEffect]);
    assert_eq!(payloads(&blocks[1].keywords[0]), vec!["Rare", "Unique"]);
    assert_eq!(payloads(&blocks[1].keywords[1]), vec!["6"]);
    assert_eq!(payloads(&blocks[1].keywords[2]), vec!["Red"]);
    assert_eq!(words(&blocks[2]), vec![Token::Width, Token::Height]);
    let mut last = 0;
    for block in &blocks[1..] {
        let span = block.bspan.clone().unwrap();
        assert!(last <= span.start);
        last = span.end;
        for line in &block.keywords {
            let span = line.span.clone().unwrap();
            assert!(last <= span.start);
            last = span.end;
            for value in &line.value {
                let span = value.span.clone().unwrap();
                assert!(last <= span.start);
                last = span.end;
            }
        }
    }
}

#[test]
fn spans_hold_the_text_of_the_entries() {
    let text = "Show\n  BaseType \"Exalted Orb\" \"Divine Orb\"\n  SetFontSize 45\n  Identified False\n";
    let blocks = parse(text);
    let block = &blocks[1];
    assert_eq!(&text[block.bspan.clone().unwrap()], "Show");
    let expected = ["BaseType", "SetFontSize", "Identified"];
    for (line, word) in block.keywords.iter().zip(expected) {
        assert_eq!(&text[line.span.clone().unwrap()], word);
    }
    let base = &block.keywords[0];
    assert_eq!(&text[base.value[0].span.clone().unwrap()], "\"Exalted Orb\"");
    assert_eq!(base.value[0].value, "Exalted Orb");
    assert_eq!(&text[base.value[1].span.clone().unwrap()], "\"Divine Orb\"");
    assert_eq!(base.value[1].value, "Divine Orb");
    let size = &block.keywords[1];
    assert_eq!(&text[size.value[0].span.clone().unwrap()], "45");
    let identified = &block.keywords[2];
    assert_eq!(identified.value[0].token, Token::Boolean("False".to_string()));
    assert_eq!(&text[identified.value[0].span.clone().unwrap()], "False");
}

fn without_spans(blocks: &[FilterBlock]) -> Vec<(Option<Token>, Vec<(Token, Vec<(Token, String)>)>)> {
    blocks
        .iter()
        .map(|b| {
            (
                b.block.clone(),
                b.keywords
                    .iter()
                    .map(|k| {
                        (
                            k.token.clone(),
                            k.value.iter().map(|v| (v.token.clone(), v.value.clone())).collect(),
                        )
                    })
                    .collect(),
            )
        })
        .collect()
}

fn displaced(blocks: &[FilterBlock], from: usize, by: usize) -> Vec<FilterBlock> {
    let shift = |span: &Option<std::ops::Range<usize>>| {
        span.clone().map(|s| if s.start >= from { s.start + by..s.end + by } else { s })
    };
    blocks
        .iter()
        .map(|b| FilterBlock {
            block: b.block.clone(),
            bspan: shift(&b.bspan),
            keywords: b
                .keywords
                .iter()
                .map(|k| TokenAndSpan {
                    token: k.token.clone(),
                    span: shift(&k.span),
                    value: k
                        .value
                        .iter()
                        .map(|v| ValueAndSpan {
                            token: v.token.clone(),
                            span: shift(&v.span),
                            value: v.value.clone(),
                        })
                        .collect(),
                })
                .collect(),
        })
        .collect()
}

#[test]
fn a_comment_line_changes_no_block() {
    let text = "Show\n  Class \"Maps\"\n  MapTier 16\nHide\n  Quality 20 # low\n  Rarity Normal\n";
    let note = "# anything \"at all\", even Show and Hide\n";
    let plain = parse(text);
    let mut at = 0;
    loop {
        let with_note = format!("{}{}{}", &text[..at], note, &text[at..]);
        let blocks = parse(&with_note);
        assert_eq!(without_spans(&blocks), without_spans(&plain));
        assert_eq!(blocks, displaced(&plain, at, note.len()));
        match text[at..].find('\n') {
            Some(offset) => at += offset + 1,
            None => break,
        }
    }
}

#[test]
fn a_comment_line_inside_a_quoted_literal_becomes_part_of_it() {
    let head = "Show\nClass \"Stackable\n";
    let tail = "Currency\"\n";
    let plain = parse(&format!("{}{}", head, tail));
    let noted = parse(&format!("{}# note\n{}", head, tail));
    assert_eq!(payloads(&plain[1].keywords[0]), vec!["Stackable\nCurrency"]);
    assert_eq!(payloads(&noted[1].keywords[0]), vec!["Stackable\n# note\nCurrency"]);
}

#[test]
fn a_comment_line_after_an_open_quote() {
    let head = "Show\nClass \"Stackable\n";
    // the quote is never closed: the rest of the text is one error
    let plain = parse(head);
    assert!(plain[1].keywords[0].value.is_empty());
    // a comment line without a quote leaves it open
    assert_eq!(parse(&format!("{}# note\n", head)), plain);
    // a comment line with a quote closes it
    let closed = parse(&format!("{}# \"note\"\n", head));
    assert_eq!(payloads(&closed[1].keywords[0]), vec!["Stackable\n# ", "note"]);
}

#[test]
fn a_comment_runs_to_the_end_of_its_line() {
    let blocks = parse("Show # Hide\n# Class \"x\"\nClass \"y\" # \"z\"\nRarity Rare # trailing");
    assert_eq!(blocks.len(), 2);
    assert_eq!(words(&blocks[1]), vec![Token::Class, Token::Rarity]);
    assert_eq!(payloads(&blocks[1].keywords[0]), vec!["y"]);
    assert_eq!(payloads(&blocks[1].keywords[1]), vec!["Rare"]);
}

#[test]
fn the_longer_keyword_wins() {
    let blocks = parse("Show\nCorruptedMods 1\nCorrupted True\nPlayAlertSoundPositional 2\nPlayAlertSound 3\nSocketGroup RGB\nSockets 5\n");
    assert_eq!(
        words(&blocks[1]),
        vec![
            Token::CorruptedMods,
            Token::Corrupted,
            Token::PlayAlertSoundPositional,
            Token::PlayAlertSound,
            Token::SocketGroup,
            Token::Sockets,
        ]
    );
    assert_eq!(blocks[1].keywords[0].span, Some(5..18));
    assert_eq!(blocks[1].keywords[1].span, Some(21..30));
}

#[test]
fn values_of_every_kind() {
    let blocks = parse("Show\nClass 12 \"a b\" true false True False Truer x1 \"\"\n");
    let line = &blocks[1].keywords[0];
    let tokens: Vec<Token> = line.value.iter().map(|v| v.token.clone()).collect();
    assert_eq!(
        tokens,
        vec![
            Token::Numbers("12".to_string()),
            Token::Quotes("a b".to_string()),
            Token::Boolean("true".to_string()),
            Token::Boolean("false".to_string()),
            Token::Boolean("True".to_string()),
            Token::Boolean("False".to_string()),
            Token::Text("Truer".to_string()),
            Token::Text("x".to_string()),
            Token::Numbers("1".to_string()),
            Token::Quotes("".to_string()),
        ]
    );
    assert_eq!(payloads(line), vec!["12", "a b", "true", "false", "True", "False", "Truer", "x", "1", ""]);
}

#[test]
fn quoted_literals_keep_what_stands_between_the_quotes() {
    let blocks = parse("Show\nBaseType \"Vaal \\n Orb\" \"caf\u{e9} #1\"\n");
    assert_eq!(payloads(&blocks[1].keywords[0]), vec!["Vaal \\n Orb", "caf\u{e9} #1"]);
    assert_eq!(blocks[1].keywords[0].value[1].span, Some(28..38));
}

#[test]
fn every_keyword_is_read_in_a_block() {
    let text = "Show\nAreaLevel\nItemLevel\nDropLevel\nQuality\nRarity\nClass\nBaseType\nProphecy\nLinkedSockets\nSocketGroup\nSockets\nHeight\nWidth\nHasExplicitMod\nAnyEnchantment\nHasEnchantment\nStackSize\nGemLevel\nIdentified\nCorrupted\nCorruptedMods\nMirrored\nElderItem\nShaperItem\nHasInfluence\nFracturedItem\nSynthesisedItem\nShapedMap\nMapTier\nSetBorderColor\nSetTextColor\nSetBackgroundColor\nSetFontSize\nPlayAlertSound\nPlayAlertSoundPositional\nDisableDropSound\nCustomAlertSound\nMinimapIcon\nPlayEffect\n";
    let blocks = parse(text);
    assert_eq!(
        words(&blocks[1]),
        vec![
            Token::AreaLevel,
            Token::ItemLevel,
            Token::DropLevel,
            Token::Quality,
            Token::Rarity,
            Token::Class,
            Token::BaseType,
            Token::ProphecyName,
            Token::LinkedSockets,
            Token::SocketGroup,
            Token::Sockets,
            Token::Height,
            Token::Width,
            Token::HasExplicitMod,
            Token::AnyEnchantment,
            Token::HasEnchantment,
            Token::StackSize,
            Token::GemLevel,
            Token::Identified,
            Token::Corrupted,
            Token::CorruptedMods,
            Token::Mirrored,
            Token::ElderItem,
            Token::ShaperItem,
            Token::HasInfluence,
            Token::FracturedItem,
            Token::SynthesisedItem,
            Token::ShapedMap,
            Token::MapTier,
            Token::SetBorderColor,
            Token::SetTextColor,
            Token::SetBackgroundColor,
            Token::SetFontSize,
            Token::PlayAlertSound,
            Token::PlayAlertSoundPositional,
            Token::DisableDropSound,
            Token::CustomAlertSound,
            Token::MinimapIcon,
            Token::PlayEffect,
        ]
    );
    for line in &blocks[1].keywords {
        assert!(line.value.is_empty());
        assert_eq!(line.token.keyword_type().is_some(), true);
    }
}

#[test]
fn keyword_type_of_each_category() {
    assert_eq!(Token::Show.keyword_type(), Some(KeywordType::Block));
    assert_eq!(Token::Hide.keyword_type(), Some(KeywordType::Block));
    assert_eq!(Token::Continue.keyword_type(), Some(KeywordType::Block));
    assert_eq!(Token::MapTier.keyword_type(), Some(KeywordType::Conditions));
    assert_eq!(Token::AreaLevel.keyword_type(), Some(KeywordType::Conditions));
    assert_eq!(Token::SetBorderColor.keyword_type(), Some(KeywordType::Actions));
    assert_eq!(Token::PlayEffect.keyword_type(), Some(KeywordType::Actions));
    assert_eq!(
        Token::Numbers("7".to_string()).keyword_type(),
        Some(KeywordType::Values("7".to_string()))
    );
    assert_eq!(
        Token::Quotes("a".to_string()).keyword_type(),
        Some(KeywordType::Values("a".to_string()))
    );
    assert_eq!(
        Token::Boolean("True".to_string()).keyword_type(),
        Some(KeywordType::Values("True".to_string()))
    );
    assert_eq!(
        Token::Text("Rare".to_string()).keyword_type(),
        Some(KeywordType::Values("Rare".to_string()))
    );
    assert_eq!(Token::Error.keyword_type(), None);
    assert_eq!(Token::Hash.keyword_type(), None);
    assert_eq!(Token::Skip.keyword_type(), None);
    assert_eq!(Token::EndLine.keyword_type(), None);
}

#[test]
fn defaults_are_empty() {
    assert_eq!(Token::default(), Token::Error);
    assert_eq!(FilterBlock::default(), empty());
    assert_eq!(TokenAndSpan::default(), TokenAndSpan { token: Token::Error, span: None, value: vec![] });
    assert_eq!(
        ValueAndSpan::default(),
        ValueAndSpan { token: Token::Error, span: None, value: String::new() }
    );
}

#[test]
fn clear_hands_out_an_empty_block() {
    let mut block = FilterBlock {
        block: Some(Token::Show),
        keywords: vec![TokenAndSpan { token: Token::Class, span: Some(5..10), value: vec![] }],
        bspan: Some(0..4),
    };
    let kept = block.clone();
    let fresh = block.clear();
    assert_eq!(fresh, empty());
    assert_eq!(block, kept);
}

#[test]
fn new_block_finishes_the_block_and_opens_the_next() {
    let mut vec = vec![empty()];
    let mut block = FilterBlock { block: Some(Token::Show), keywords: vec![], bspan: Some(0..4) };
    add_keyword(Token::Class, 5..10, &mut block);
    let finished = block.clone();
    new_block(&mut vec, Token::Hide, 20..24, &mut block);
    assert_eq!(vec, vec![empty(), finished]);
    assert_eq!(block, FilterBlock { block: Some(Token::Hide), keywords: vec![], bspan: Some(20..24) });
}

#[test]
fn add_keyword_opens_a_line_without_values() {
    let mut block = empty();
    add_keyword(Token::Rarity, 3..9, &mut block);
    add_keyword(Token::SetFontSize, 12..23, &mut block);
    assert_eq!(
        block.keywords,
        vec![
            TokenAndSpan { token: Token::Rarity, span: Some(3..9), value: vec![] },
            TokenAndSpan { token: Token::SetFontSize, span: Some(12..23), value: vec![] },
        ]
    );
    assert_eq!(block.block, None);
    assert_eq!(block.bspan, None);
}

#[test]
fn add_values_goes_to_the_last_line() {
    let mut block = empty();
    add_keyword(Token::Rarity, 0..6, &mut block);
    add_keyword(Token::Class, 10..15, &mut block);
    add_values(Token::Quotes("Gems".to_string()), 16..22, &mut block, "Gems".to_string());
    add_values(Token::Numbers("3".to_string()), 23..24, &mut block, "3".to_string());
    assert!(block.keywords[0].value.is_empty());
    assert_eq!(
        block.keywords[1].value,
        vec![
            ValueAndSpan {
                token: Token::Quotes("Gems".to_string()),
                span: Some(16..22),
                value: "Gems".to_string()
            },
            ValueAndSpan {
                token: Token::Numbers("3".to_string()),
                span: Some(23..24),
                value: "3".to_string()
            },
        ]
    );
}

#[test]
fn a_value_before_any_keyword_is_dropped() {
    let mut block = FilterBlock { block: Some(Token::Show), keywords: vec![], bspan: Some(0..4) };
    let before = block.clone();
    add_values(Token::Text("Rare".to_string()), 5..9, &mut block, "Rare".to_string());
    assert_eq!(block, before);
    let mut preamble = empty();
    add_values(Token::Numbers("1".to_string()), 0..1, &mut preamble, "1".to_string());
    assert_eq!(preamble, empty());
}
