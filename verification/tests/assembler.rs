use filter_lib::mode_parsing::{
    assemble_tokens, feed_token, parse, FilterBlock, ModeBridge, Modes, Token, TokenAndSpan, Tokens,
    ValueAndSpan,
};

fn item(token: Token, span: std::ops::Range<usize>) -> Tokens {
    Tokens { token, span }
}

fn preamble() -> FilterBlock {
    FilterBlock { block: None, keywords: vec![], bspan: None }
}

#[test]
fn an_empty_stream_gives_the_preamble() {
    assert_eq!(assemble_tokens(vec![]), vec![preamble()]);
}

#[test]
fn the_assembler_counts_the_markers() {
    let stream = vec![
        item(Token::Hash, 0..1),
        item(Token::Show, 2..6),
        item(Token::EndLine, 6..7),
        item(Token::Error, 7..8),
        item(Token::Hide, 8..12),
        item(Token::Continue, 12..20),
        item(Token::Show, 20..24),
    ];
    let blocks = assemble_tokens(stream);
    assert_eq!(blocks.len(), 5);
    let markers: Vec<Option<Token>> = blocks.iter().map(|b| b.block.clone()).collect();
    assert_eq!(
        markers,
        vec![None, Some(Token::Show), Some(Token::Hide), Some(Token::Continue), Some(Token::Show)]
    );
    assert_eq!(blocks[4].bspan, Some(20..24));
}

#[test]
fn a_keyword_before_the_first_marker_goes_to_the_preamble() {
    let stream = vec![
        item(Token::Class, 0..5),
        item(Token::Quotes("Gems".to_string()), 6..12),
        item(Token::Show, 13..17),
    ];
    let blocks = assemble_tokens(stream);
    assert_eq!(
        blocks,
        vec![
            FilterBlock {
                block: None,
                keywords: vec![TokenAndSpan {
                    token: Token::Class,
                    span: Some(0..5),
                    value: vec![ValueAndSpan {
                        token: Token::Quotes("Gems".to_string()),
                        span: Some(6..12),
                        value: "Gems".to_string(),
                    }],
                }],
                bspan: None,
            },
            FilterBlock { block: Some(Token::Show), keywords: vec![], bspan: Some(13..17) },
        ]
    );
}

#[test]
fn a_value_without_a_keyword_appears_nowhere() {
    let with_orphans = vec![
        item(Token::Numbers("1".to_string()), 0..1),
        item(Token::Show, 2..6),
        item(Token::Text("Rare".to_string()), 7..11),
        item(Token::Rarity, 12..18),
        item(Token::Text("Unique".to_string()), 19..25),
        item(Token::Hide, 26..30),
        item(Token::Boolean("True".to_string()), 31..35),
    ];
    let without = vec![
        item(Token::Show, 2..6),
        item(Token::Rarity, 12..18),
        item(Token::Text("Unique".to_string()), 19..25),
        item(Token::Hide, 26..30),
    ];
    let blocks = assemble_tokens(with_orphans);
    assert_eq!(blocks, assemble_tokens(without));
    assert_eq!(blocks.len(), 3);
    assert!(blocks[0].keywords.is_empty());
    assert_eq!(blocks[1].keywords.len(), 1);
    assert_eq!(blocks[1].keywords[0].value.len(), 1);
    assert_eq!(blocks[1].keywords[0].value[0].value, "Unique");
    assert!(blocks[2].keywords.is_empty());
}

#[test]
fn parsing_is_tokenizing_and_assembling() {
    let text = "# x\nShow\nClass \"a\" b 3 # c\nSetFontSize 40\nHide\nIdentified True\n\"";
    let stream = ModeBridge { mode: Modes::new(text) }.collect();
    assert_eq!(assemble_tokens(stream), parse(text));
}

#[test]
fn feed_token_handles_each_kind_of_token() {
    let mut vec: Vec<FilterBlock> = vec![];
    let mut block = preamble();
    feed_token(&mut vec, &mut block, item(Token::EndLine, 0..1));
    feed_token(&mut vec, &mut block, item(Token::Error, 1..2));
    feed_token(&mut vec, &mut block, item(Token::Hash, 2..3));
    feed_token(&mut vec, &mut block, item(Token::Skip, 3..4));
    assert!(vec.is_empty());
    assert_eq!(block, preamble());
    feed_token(&mut vec, &mut block, item(Token::Continue, 4..12));
    assert_eq!(vec, vec![preamble()]);
    assert_eq!(block, FilterBlock { block: Some(Token::Continue), keywords: vec![], bspan: Some(4..12) });
    feed_token(&mut vec, &mut block, item(Token::PlayEffect, 13..23));
    feed_token(&mut vec, &mut block, item(Token::Text("Blue".to_string()), 24..28));
    assert_eq!(vec.len(), 1);
    assert_eq!(
        block.keywords,
        vec![TokenAndSpan {
            token: Token::PlayEffect,
            span: Some(13..23),
            value: vec![ValueAndSpan {
                token: Token::Text("Blue".to_string()),
                span: Some(24..28),
                value: "Blue".to_string(),
            }],
        }]
    );
}
