use filter_lib::logos_parsing;
use filter_lib::mode_parsing;
use filter_lib::mode_parsing::Token;

const SMALL: &str = "# A small filter\nShow\n    BaseType \"Mirror of Kalandra\"\n    SetFontSize 45\n\nHide\n    HasExplicitMod \"Tyrannical\"\n    Corrupted True\n";

#[test]
fn test_new_filter_block() {
    let x = logos_parsing::parse(SMALL);
    println!("{:#?}", x);
    assert_eq!(x.len(), 3);
}

#[test]
fn iterating_modes() {
    let s = SMALL;
    let moded = mode_parsing::ModeBridge {
        mode: mode_parsing::Modes::new(s),
    };

    let results: Vec<mode_parsing::Tokens> = moded.collect();
    let tokens: Vec<Token> = results.into_iter().map(|t| t.token).collect();
    assert_eq!(
        tokens,
        vec![
            Token::Hash,
            Token::Show,
            Token::EndLine,
            Token::BaseType,
            Token::Quotes("Mirror of Kalandra".to_string()),
            Token::EndLine,
            Token::SetFontSize,
            Token::Numbers("45".to_string()),
            Token::EndLine,
            Token::EndLine,
            Token::Hide,
            Token::EndLine,
            Token::HasExplicitMod,
            Token::Quotes("Tyrannical".to_string()),
            Token::EndLine,
            Token::Corrupted,
            Token::Boolean("True".to_string()),
            Token::EndLine,
        ]
    );
}
