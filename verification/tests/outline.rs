use filter_lib::logos_parsing::{parse, FilterBlock, Token, TokenAndSpan};
use filter_lib::mode_parsing;

fn entry(token: Token, span: std::ops::Range<usize>) -> Option<TokenAndSpan> {
    Some(TokenAndSpan { token, span, value: None })
}

#[test]
fn the_outline_of_the_empty_text() {
    assert_eq!(parse(""), vec![FilterBlock { block: None, hasexplicitmod: None }]);
}

#[test]
fn the_outline_keeps_markers_and_explicit_mods() {
    let text = "Show\n  HasExplicitMod \"Tyrannical\"\n  Class \"Bows\"\nHide\nContinue\n  HasExplicitMod \"a\"\n  HasExplicitMod \"b\"\n";
    assert_eq!(
        parse(text),
        vec![
            FilterBlock { block: None, hasexplicitmod: None },
            FilterBlock {
                block: entry(Token::Show, 0..4),
                hasexplicitmod: entry(Token::HasExplicitMod, 7..21),
            },
            FilterBlock { block: entry(Token::Hide, 50..54), hasexplicitmod: None },
            FilterBlock {
                block: entry(Token::Continue, 55..63),
                hasexplicitmod: entry(Token::HasExplicitMod, 87..101),
            },
        ]
    );
}

#[test]
fn the_outline_has_the_blocks_of_the_full_parse() {
    let text = "# Show\nShow\nHasExplicitMod # Hide\nClass \"Hide\" Show\nHide";
    let brief = parse(text);
    let full = mode_parsing::parse(text);
    assert_eq!(brief.len(), 3);
    assert_eq!(brief.len(), full.len());
    for (b, f) in brief.iter().zip(full.iter()) {
        assert_eq!(b.block.as_ref().map(|e| e.span.clone()), f.bspan);
        assert_eq!(
            b.block.as_ref().map(|e| e.token),
            f.block.as_ref().map(Token::of)
        );
    }
    assert_eq!(brief[1].hasexplicitmod, entry(Token::HasExplicitMod, 12..26));
}

#[test]
fn tokens_of_the_outline() {
    assert_eq!(Token::of(&mode_parsing::Token::Show), Token::Show);
    assert_eq!(Token::of(&mode_parsing::Token::ProphecyName), Token::ProphecyName);
    assert_eq!(Token::of(&mode_parsing::Token::PlayEffect), Token::PlayEffect);
    assert_eq!(Token::of(&mode_parsing::Token::Numbers("1".to_string())), Token::Numbers);
    assert_eq!(Token::of(&mode_parsing::Token::Quotes("q".to_string())), Token::Quotes);
    assert_eq!(Token::of(&mode_parsing::Token::Text("t".to_string())), Token::Error);
    assert_eq!(Token::of(&mode_parsing::Token::Boolean("true".to_string())), Token::Error);
    assert_eq!(Token::of(&mode_parsing::Token::Hash), Token::Error);
    assert_eq!(Token::of(&mode_parsing::Token::EndLine), Token::Error);
    assert_eq!(Token::of(&mode_parsing::Token::Skip), Token::Error);
    assert_eq!(Token::of(&mode_parsing::Token::Error), Token::Error);
}

#[test]
fn entries_of_the_outline_can_be_copied() {
    let block = FilterBlock { block: entry(Token::Show, 3..7), hasexplicitmod: None };
    assert_eq!(block.clone(), block);
    let line = TokenAndSpan { token: Token::Class, span: 1..6, value: Some(Token::Quotes) };
    assert_eq!(line.clone(), line);
}
