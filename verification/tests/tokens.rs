use filter_lib::lexicon::{entry, find_word, WORDS};
use filter_lib::mode_parsing::{ignore_comments, Mode, ModeBridge, Modes, Token, Tokens};
use filter_lib::scan::{found, skip_run, substring, ByteClass};

fn lex(text: &str) -> Vec<(Token, std::ops::Range<usize>)> {
    let bridge = ModeBridge { mode: Modes::new(text) };
    bridge.collect().into_iter().map(|t| (t.token, t.span)).collect()
}

#[test]
fn tokens_come_with_their_spans() {
    assert_eq!(
        lex("Show\n  ItemLevel >= 5\n"),
        vec![
            (Token::Show, 0..4),
            (Token::EndLine, 4..5),
            (Token::ItemLevel, 7..16),
            (Token::Error, 17..18),
            (Token::Error, 18..19),
            (Token::Numbers("5".to_string()), 20..21),
            (Token::EndLine, 21..22),
        ]
    );
}

#[test]
fn the_text_of_each_span_is_the_text_of_its_token() {
    let text = "# top\nShow # first\n\tBaseType \"Chaos Orb\" 3 rare True\nHide\nCorruptedMods 2\n";
    for (token, span) in lex(text) {
        let piece = &text[span.clone()];
        match token {
            Token::Hash => assert_eq!(piece, "#"),
            Token::EndLine => assert_eq!(piece, "\n"),
            Token::Show => assert_eq!(piece, "Show"),
            Token::Hide => assert_eq!(piece, "Hide"),
            Token::BaseType => assert_eq!(piece, "BaseType"),
            Token::CorruptedMods => assert_eq!(piece, "CorruptedMods"),
            Token::Numbers(payload) | Token::Text(payload) | Token::Boolean(payload) => {
                assert_eq!(piece, payload)
            }
            Token::Quotes(payload) => assert_eq!(piece, format!("\"{}\"", payload)),
            other => panic!("{:?} at {:?}", other, span),
        }
    }
}

#[test]
fn the_machine_starts_with_markers_only() {
    assert_eq!(
        lex("Class Hide"),
        vec![
            (Token::Error, 0..1),
            (Token::Error, 1..2),
            (Token::Error, 2..3),
            (Token::Error, 3..4),
            (Token::Error, 4..5),
            (Token::Hide, 6..10),
        ]
    );
}

#[test]
fn a_keyword_leads_to_values_and_the_line_end_leads_back() {
    assert_eq!(
        lex("Show Class Class\nClass"),
        vec![
            (Token::Show, 0..4),
            (Token::Class, 5..10),
            (Token::Text("Class".to_string()), 11..16),
            (Token::EndLine, 16..17),
            (Token::Class, 17..22),
        ]
    );
}

#[test]
fn a_marker_after_a_marker_opens_the_next_block() {
    assert_eq!(
        lex("ShowHide\tContinue"),
        vec![(Token::Show, 0..4), (Token::Hide, 4..8), (Token::Continue, 9..17)]
    );
}

#[test]
fn a_comment_after_values_ends_the_line() {
    assert_eq!(
        lex("Show\nClass x # y\nRarity"),
        vec![
            (Token::Show, 0..4),
            (Token::EndLine, 4..5),
            (Token::Class, 5..10),
            (Token::Text("x".to_string()), 11..12),
            (Token::Hash, 13..14),
            (Token::Rarity, 17..23),
        ]
    );
}

#[test]
fn a_comment_at_the_end_of_the_text() {
    assert_eq!(lex("# no line break"), vec![(Token::Hash, 0..1)]);
    assert_eq!(lex("#"), vec![(Token::Hash, 0..1)]);
    assert_eq!(lex("#\n#"), vec![(Token::Hash, 0..1), (Token::Hash, 2..3)]);
}

#[test]
fn an_error_covers_one_character() {
    assert_eq!(
        lex("Show\nClass \u{e9}\u{4e16}\u{1f600}-"),
        vec![
            (Token::Show, 0..4),
            (Token::EndLine, 4..5),
            (Token::Class, 5..10),
            (Token::Error, 11..13),
            (Token::Error, 13..16),
            (Token::Error, 16..20),
            (Token::Error, 20..21),
        ]
    );
    assert_eq!(lex("\r\n"), vec![(Token::Error, 0..1), (Token::EndLine, 1..2)]);
}

#[test]
fn a_quote_that_is_never_closed_is_an_error_to_the_end() {
    assert_eq!(
        lex("Show\nClass \"open\nHide\n"),
        vec![
            (Token::Show, 0..4),
            (Token::EndLine, 4..5),
            (Token::Class, 5..10),
            (Token::Error, 11..22),
        ]
    );
}

#[test]
fn a_quoted_literal_may_span_lines() {
    assert_eq!(
        lex("Show\nClass \"a\nb\" c"),
        vec![
            (Token::Show, 0..4),
            (Token::EndLine, 4..5),
            (Token::Class, 5..10),
            (Token::Quotes("a\nb".to_string()), 11..16),
            (Token::Text("c".to_string()), 17..18),
        ]
    );
}

#[test]
fn next_hands_out_one_token_at_a_time() {
    let mut bridge = ModeBridge { mode: Modes::new("  Show \n") };
    assert_eq!(bridge.next(), Some(Tokens { token: Token::Show, span: 2..6 }));
    assert_eq!(bridge.mode.pos, 6);
    assert_eq!(bridge.mode.mode, Mode::Outer);
    assert_eq!(bridge.next(), Some(Tokens { token: Token::EndLine, span: 7..8 }));
    assert_eq!(bridge.next(), None);
    assert_eq!(bridge.next(), None);
    assert_eq!(bridge.mode.pos, 8);
}

#[test]
fn advance_makes_one_step() {
    let mut state = Modes::new(" Hide");
    assert_eq!(state.advance(), None);
    assert_eq!((state.pos, state.mode), (1, Mode::Block));
    assert_eq!(state.advance(), Some(Tokens { token: Token::Hide, span: 1..5 }));
    assert_eq!((state.pos, state.mode), (5, Mode::Outer));
    assert_eq!(state.advance(), None);
    assert_eq!((state.pos, state.mode), (5, Mode::Outer));
    let mut inner = Modes { source: "Show\n", pos: 4, mode: Mode::Inner };
    assert_eq!(inner.advance(), Some(Tokens { token: Token::EndLine, span: 4..5 }));
    assert_eq!((inner.pos, inner.mode), (5, Mode::Outer));
}

#[test]
fn ignore_comments_skips_to_the_next_line() {
    let text = "Class # note\nRarity";
    let mut state = Modes { source: text, pos: 7, mode: Mode::Inner };
    ignore_comments(&mut state);
    assert_eq!((state.pos, state.mode), (13, Mode::Outer));
    // not after a `#`: nothing happens
    let mut state = Modes { source: text, pos: 5, mode: Mode::Inner };
    ignore_comments(&mut state);
    assert_eq!((state.pos, state.mode), (5, Mode::Inner));
    let mut state = Modes { source: "#", pos: 0, mode: Mode::Block };
    ignore_comments(&mut state);
    assert_eq!((state.pos, state.mode), (0, Mode::Block));
    // to the end of the text where no line break follows
    let mut state = Modes { source: "# note", pos: 1, mode: Mode::Block };
    ignore_comments(&mut state);
    assert_eq!((state.pos, state.mode), (6, Mode::Block));
}

#[test]
fn next_line_leaves_the_values() {
    assert_eq!(Mode::Inner.next_line(), Mode::Outer);
    assert_eq!(Mode::Outer.next_line(), Mode::Outer);
    assert_eq!(Mode::Block.next_line(), Mode::Block);
}

#[test]
fn the_vocabulary_has_every_keyword_once() {
    assert_eq!(WORDS, 42);
    let mut seen: Vec<&str> = Vec::new();
    for rank in 0..WORDS {
        let (text, token) = entry(rank);
        assert!(!seen.contains(&text));
        // a keyword stands before every keyword that is a beginning of it
        for earlier in &seen {
            assert!(!text.starts_with(earlier) || text == *earlier);
        }
        seen.push(text);
        let expected = if text == "Prophecy" { "ProphecyName".to_string() } else { text.to_string() };
        assert_eq!(format!("{:?}", token), expected);
    }
    assert_eq!(entry(0), ("Show", Token::Show));
    assert_eq!(entry(41), ("PlayEffect", Token::PlayEffect));
}

#[test]
fn find_word_looks_for_the_longest_spelling() {
    let text = "xCorruptedModsShow".as_bytes();
    assert_eq!(find_word(text, 0, false), None);
    assert_eq!(find_word(text, 1, false), Some((Token::CorruptedMods, 14)));
    assert_eq!(find_word(text, 1, true), None);
    assert_eq!(find_word(text, 14, true), Some((Token::Show, 18)));
    assert_eq!(find_word(text, 14, false), Some((Token::Show, 18)));
    assert_eq!(find_word(text, 15, false), None);
    assert_eq!(find_word(text, 18, false), None);
    assert_eq!(find_word(text, 100, false), None);
    assert_eq!(find_word("Corrupted".as_bytes(), 0, false), Some((Token::Corrupted, 9)));
}

#[test]
fn found_compares_the_bytes_at_a_position() {
    let text = "Show Hide".as_bytes();
    assert!(found(text, 0, "Show"));
    assert!(found(text, 5, "Hide"));
    assert!(!found(text, 1, "Show"));
    assert!(!found(text, 5, "Hidee"));
    assert!(!found(text, 6, "Hide"));
    assert!(found(text, 9, ""));
    assert!(!found(text, 10, ""));
    assert!(!found(text, usize::MAX, "Show"));
}

#[test]
fn skip_run_stops_at_the_first_byte_outside_the_class() {
    let text = "123abc\n\"q\"".as_bytes();
    assert_eq!(skip_run(text, 0, ByteClass::Digit), 3);
    assert_eq!(skip_run(text, 3, ByteClass::Digit), 3);
    assert_eq!(skip_run(text, 3, ByteClass::Letter), 6);
    assert_eq!(skip_run(text, 0, ByteClass::InLine), 6);
    assert_eq!(skip_run(text, 0, ByteClass::Unquoted), 7);
    assert_eq!(skip_run(text, 8, ByteClass::Unquoted), 9);
    assert_eq!(skip_run(text, 7, ByteClass::InLine), 10);
    assert_eq!(skip_run(text, 10, ByteClass::InLine), 10);
    assert_eq!(skip_run(text, 11, ByteClass::InLine), 11);
    assert_eq!(skip_run("a\u{e9}b".as_bytes(), 2, ByteClass::Continuation), 3);
}

#[test]
fn byte_classes() {
    for b in 0..=255u8 {
        assert_eq!(ByteClass::Digit.admits(b), b.is_ascii_digit());
        assert_eq!(ByteClass::Letter.admits(b), b.is_ascii_alphabetic());
        assert_eq!(ByteClass::Continuation.admits(b), (0x80..=0xbf).contains(&b));
        assert_eq!(ByteClass::InLine.admits(b), b != b'\n');
        assert_eq!(ByteClass::Unquoted.admits(b), b != b'"');
    }
}

#[test]
fn substring_copies_a_piece_of_the_text() {
    let text = "caf\u{e9} au lait";
    assert_eq!(substring(text, 0, 5), "caf\u{e9}");
    assert_eq!(substring(text, 3, 5), "\u{e9}");
    assert_eq!(substring(text, 6, 8), "au");
    assert_eq!(substring(text, 4 + 1, 5), "");
    assert_eq!(substring(text, 0, text.len()), text);
}
