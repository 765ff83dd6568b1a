//! The tokenizer: a machine with three modes, each with a vocabulary of its
//! own, that reads the source text from left to right.
//!
//! The machine starts in [`Mode::Block`], where only the block markers are
//! keywords. A marker takes it to [`Mode::Outer`], where every keyword is
//! looked for. A condition or an action takes it to [`Mode::Inner`], where
//! the rest of the line is read as values, and the end of the line takes it
//! back to `Outer`. Blanks are skipped and comments run to the end of their
//! line, whatever the mode.
use crate::assembly::Lexeme;
use crate::lexicon::{find_word, lemma_spelling, lemma_word_from, spelling, word_at};
use crate::mode_parsing::{class_of, KeywordKind, KeywordType, Token, TokenView};
use crate::scan::{
    char_end, closing_quote, found, is_blank, lemma_boundary_after_ascii, lemma_run_end, line_end,
    run_end, skip_run, substring, ByteClass, HASH, NEWLINE, QUOTE, SPACE, TAB,
};
use std::ops::Range;
use vstd::prelude::*;
use vstd::string::*;
use vstd::utf8::*;

verus! {

/// The vocabulary that the tokenizer reads with.
#[derive(Clone, Copy, Debug, PartialEq, Eq)]
pub enum Mode {
    /// Before the first block marker: only markers are keywords.
    Block,
    /// At the start of a line inside a block: every keyword is looked for.
    Outer,
    /// After a condition or an action: values are looked for.
    Inner,
}

impl Mode {
    /// The mode in which the line after this one begins.
    pub open spec fn after_line(self) -> Mode {
        match self {
            Mode::Inner => Mode::Outer,
            mode => mode,
        }
    }

    /// The mode in which the line after this one begins.
    pub fn next_line(self) -> (mode: Mode)
        ensures
            mode == self.after_line(),
    {
        match self {
            Mode::Inner => Mode::Outer,
            mode => mode,
        }
    }
}

/// What the machine does at one position: the token that it emits, if it
/// emits one, where it reads on, and in which mode.
pub struct Step {
    pub lexeme: Option<Lexeme>,
    pub next: int,
    pub mode: Mode,
}

/// Whether `text` is one of the four spellings of a truth value.
pub open spec fn is_boolean(text: Seq<u8>) -> bool {
    text == "true".spec_bytes() || text == "false".spec_bytes() || text == "True".spec_bytes()
        || text == "False".spec_bytes()
}

/// The step at a character that begins no token of the active vocabulary:
/// an error token that covers the character.
pub open spec fn error_step(bytes: Seq<u8>, pos: int, mode: Mode) -> Step {
    let end = char_end(bytes, pos);
    Step { lexeme: Some(Lexeme { token: TokenView::Error, start: pos, end }), next: end, mode }
}

/// The step in [`Mode::Block`] and [`Mode::Outer`]. A keyword that stands at
/// `pos` is emitted: a marker leads to `Outer`, a condition or an action to
/// `Inner`.
pub open spec fn word_step(bytes: Seq<u8>, pos: int, mode: Mode) -> Step {
    match word_at(bytes, pos, mode == Mode::Block) {
        Some(word) => {
            let end = pos + spelling(word).len();
            Step {
                lexeme: Some(Lexeme { token: word, start: pos, end }),
                next: end,
                mode: if class_of(word) == Some(KeywordKind::Block) {
                    Mode::Outer
                } else {
                    Mode::Inner
                },
            }
        },
        None => error_step(bytes, pos, mode),
    }
}

/// The step in [`Mode::Inner`]: a run of digits, a run of letters, or a
/// quoted literal. The payload of a quoted literal is what stands between
/// the quotes. A quote that is never closed is an error that covers the
/// rest of the text.
pub open spec fn value_step(bytes: Seq<u8>, pos: int) -> Step {
    let first = bytes[pos];
    if ByteClass::Digit.has(first) {
        let end = run_end(bytes, pos, ByteClass::Digit);
        let token = TokenView::Numbers(bytes.subrange(pos, end));
        Step { lexeme: Some(Lexeme { token, start: pos, end }), next: end, mode: Mode::Inner }
    } else if ByteClass::Letter.has(first) {
        let end = run_end(bytes, pos, ByteClass::Letter);
        let text = bytes.subrange(pos, end);
        let token = if is_boolean(text) {
            TokenView::Boolean(text)
        } else {
            TokenView::Text(text)
        };
        Step { lexeme: Some(Lexeme { token, start: pos, end }), next: end, mode: Mode::Inner }
    } else if first == QUOTE {
        let close = closing_quote(bytes, pos);
        if close < bytes.len() {
            let token = TokenView::Quotes(bytes.subrange(pos + 1, close));
            Step {
                lexeme: Some(Lexeme { token, start: pos, end: close + 1 }),
                next: close + 1,
                mode: Mode::Inner,
            }
        } else {
            Step {
                lexeme: Some(Lexeme { token: TokenView::Error, start: pos, end: close }),
                next: close,
                mode: Mode::Inner,
            }
        }
    } else {
        error_step(bytes, pos, Mode::Inner)
    }
}

/// The step of the machine at `pos`, a position inside the text.
pub open spec fn step(bytes: Seq<u8>, pos: int, mode: Mode) -> Step {
    let first = bytes[pos];
    if is_blank(first) {
        Step { lexeme: None, next: pos + 1, mode }
    } else if first == NEWLINE {
        Step {
            lexeme: Some(Lexeme { token: TokenView::EndLine, start: pos, end: pos + 1 }),
            next: pos + 1,
            mode: mode.after_line(),
        }
    } else if first == HASH {
        Step {
            lexeme: Some(Lexeme { token: TokenView::Hash, start: pos, end: pos + 1 }),
            next: line_end(bytes, pos + 1),
            mode: mode.after_line(),
        }
    } else if mode == Mode::Inner {
        value_step(bytes, pos)
    } else {
        word_step(bytes, pos, mode)
    }
}

/// Every step reads on to the right and stays inside the text, and the
/// token that it emits begins at the position of the step and ends no
/// later than where the machine reads on.
pub proof fn lemma_step(bytes: Seq<u8>, pos: int, mode: Mode)
    requires
        0 <= pos < bytes.len(),
    ensures
        pos < step(bytes, pos, mode).next <= bytes.len(),
        step(bytes, pos, mode).lexeme matches Some(lexeme) ==> lexeme.start == pos && pos
            < lexeme.end <= step(bytes, pos, mode).next,
{
    lemma_run_end(bytes, pos + 1, ByteClass::Continuation);
    lemma_run_end(bytes, pos + 1, ByteClass::InLine);
    lemma_run_end(bytes, pos + 1, ByteClass::Unquoted);
    lemma_run_end(bytes, pos, ByteClass::Digit);
    lemma_run_end(bytes, pos, ByteClass::Letter);
    lemma_word_from(bytes, pos, mode == Mode::Block, 0);
    match word_at(bytes, pos, mode == Mode::Block) {
        Some(word) => lemma_spelling(word),
        None => {},
    }
}

/// Whether the span of `lexeme` lies in `bytes` and holds the text of its
/// token: the spelling of a keyword, `#` for a comment marker, the line
/// break, the digits or letters of a number, a truth value or a word, and
/// for a quoted literal the payload between two quotes. The span of an
/// error holds what was not understood. Blanks are never emitted.
pub open spec fn matched(bytes: Seq<u8>, lexeme: Lexeme) -> bool {
    let text = bytes.subrange(lexeme.start, lexeme.end);
    &&& 0 <= lexeme.start < lexeme.end <= bytes.len()
    &&& match lexeme.token {
        TokenView::Error => true,
        TokenView::Skip => false,
        TokenView::Hash => text == seq![HASH],
        TokenView::EndLine => text == seq![NEWLINE],
        TokenView::Numbers(payload) => text == payload && forall|i: int|
            0 <= i < payload.len() ==> ByteClass::Digit.has(#[trigger] payload[i]),
        TokenView::Boolean(payload) => text == payload && is_boolean(payload),
        TokenView::Text(payload) => text == payload && !is_boolean(payload) && forall|i: int|
            0 <= i < payload.len() ==> ByteClass::Letter.has(#[trigger] payload[i]),
        TokenView::Quotes(payload) => text == seq![QUOTE] + payload + seq![QUOTE] && forall|i: int|
            0 <= i < payload.len() ==> #[trigger] payload[i] != QUOTE,
        word => text == spelling(word),
    }
}

/// Whether every token of the stream ends before the next one begins.
pub open spec fn in_order(lexemes: Seq<Lexeme>) -> bool {
    forall|i: int, j: int|
        0 <= i < j < lexemes.len() ==> (#[trigger] lexemes[i]).end <= (#[trigger] lexemes[j]).start
}

/// The token that a step emits holds the text of its span.
pub proof fn lemma_step_matched(bytes: Seq<u8>, pos: int, mode: Mode)
    requires
        0 <= pos < bytes.len(),
    ensures
        step(bytes, pos, mode).lexeme matches Some(lexeme) ==> matched(bytes, lexeme),
{
    lemma_step(bytes, pos, mode);
    let first = bytes[pos];
    if is_blank(first) {
    } else if first == NEWLINE {
        assert(bytes.subrange(pos, pos + 1) =~= seq![NEWLINE]);
    } else if first == HASH {
        assert(bytes.subrange(pos, pos + 1) =~= seq![HASH]);
    } else if mode == Mode::Inner {
        if ByteClass::Digit.has(first) {
            lemma_run_end(bytes, pos, ByteClass::Digit);
        } else if ByteClass::Letter.has(first) {
            lemma_run_end(bytes, pos, ByteClass::Letter);
        } else if first == QUOTE {
            lemma_run_end(bytes, pos + 1, ByteClass::Unquoted);
            let close = closing_quote(bytes, pos);
            if close < bytes.len() {
                assert(bytes.subrange(pos, close + 1) =~= seq![QUOTE] + bytes.subrange(
                    pos + 1,
                    close,
                ) + seq![QUOTE]);
            }
        }
    } else {
        lemma_word_from(bytes, pos, mode == Mode::Block, 0);
    }
}

/// The tokens that the machine emits from `pos` on, when it is in `mode`
/// there.
pub open spec fn tokens_from(bytes: Seq<u8>, pos: int, mode: Mode) -> Seq<Lexeme>
    decreases bytes.len() - pos,
{
    if pos < 0 || pos >= bytes.len() {
        Seq::empty()
    } else {
        proof {
            lemma_step(bytes, pos, mode);
        }
        let here = step(bytes, pos, mode);
        let rest = tokens_from(bytes, here.next, here.mode);
        match here.lexeme {
            Some(lexeme) => seq![lexeme] + rest,
            None => rest,
        }
    }
}

/// The tokens of a filter script.
pub open spec fn tokens(bytes: Seq<u8>) -> Seq<Lexeme> {
    tokens_from(bytes, 0, Mode::Block)
}

/// A token with the span of source text that it was read from.
#[derive(Debug, PartialEq)]
pub struct Tokens {
    pub token: Token,
    pub span: Range<usize>,
}

impl DeepView for Tokens {
    type V = Lexeme;

    open spec fn deep_view(&self) -> Lexeme {
        Lexeme {
            token: self.token.deep_view(),
            start: self.span.start as int,
            end: self.span.end as int,
        }
    }
}

/// The state of the tokenizer: the text, the position that it has reached
/// in the text, and the mode that it is in there.
#[derive(Clone, Copy, Debug)]
pub struct Modes<'a> {
    pub source: &'a str,
    pub pos: usize,
    pub mode: Mode,
}

/// Whether `after` and `emitted` are what the step `step` makes of
/// `before`.
pub open spec fn stepped(before: Modes, after: Modes, emitted: Option<Tokens>, step: Step) -> bool {
    &&& after.source@ == before.source@
    &&& after.pos == step.next
    &&& after.mode == step.mode
    &&& emitted.deep_view() == step.lexeme
}

/// Whether the tokenizer has just read the `#` that opens a comment.
pub open spec fn in_comment(state: Modes) -> bool {
    0 < state.pos <= state.text().len() && state.text()[state.pos - 1] == HASH
}

/// Discards a comment. Where the tokenizer has just read a `#`, it moves
/// past the next line break, or to the end of the text where no line break
/// follows, and the line counts as ended. Anywhere else nothing happens.
pub fn ignore_comments(lex: &mut Modes)
    ensures
        final(lex).source@ == old(lex).source@,
        in_comment(*old(lex)) ==> final(lex).pos == line_end(
            old(lex).text(),
            old(lex).pos as int,
        ) && final(lex).mode == old(lex).mode.after_line(),
        !in_comment(*old(lex)) ==> *final(lex) == *old(lex),
{
    let bytes = lex.source.as_bytes();
    let pos = lex.pos;
    if 0 < pos && pos <= bytes.len() && bytes[pos - 1] == HASH {
        let stop = skip_run(bytes, pos, ByteClass::InLine);
        lex.pos = if stop < bytes.len() {
            stop + 1
        } else {
            stop
        };
        lex.mode = lex.mode.next_line();
    }
}

/// Tests whether the bytes from `pos` up to `end` spell `word`.
fn spelled(bytes: &[u8], pos: usize, end: usize, word: &str) -> (r: bool)
    requires
        pos <= end <= bytes@.len(),
    ensures
        r == (bytes@.subrange(pos as int, end as int) == word.spec_bytes()),
{
    end - pos == word.as_bytes().len() && found(bytes, pos, word)
}

impl<'a> Modes<'a> {
    /// The tokenizer at the start of `source`.
    pub fn new(source: &'a str) -> (state: Self)
        ensures
            state.source@ == source@,
            state.pos == 0,
            state.mode == Mode::Block,
    {
        Modes { source, pos: 0, mode: Mode::Block }
    }

    /// The bytes of the text.
    pub open spec fn text(&self) -> Seq<u8> {
        self.source.spec_bytes()
    }

    /// The tokens that are still to come.
    pub open spec fn remaining(&self) -> Seq<Lexeme> {
        tokens_from(self.text(), self.pos as int, self.mode)
    }

    /// Where the next token begins: at the current position, or past the
    /// blanks that stand there.
    pub open spec fn token_start(&self) -> int {
        run_end(self.text(), self.pos as int, ByteClass::Blank)
    }

    /// Emits an error token for the character at the current position.
    fn error(&mut self) -> (item: Tokens)
        requires
            old(self).pos < old(self).text().len(),
        ensures
            stepped(
                *old(self),
                *final(self),
                Some(item),
                error_step(old(self).text(), old(self).pos as int, old(self).mode),
            ),
    {
        let bytes = self.source.as_bytes();
        let pos = self.pos;
        assert(pos < bytes.len());
        let end = skip_run(bytes, pos + 1, ByteClass::Continuation);
        self.pos = end;
        Tokens { token: Token::Error, span: pos..end }
    }

    /// Reads a keyword, in one of the two modes that look for keywords.
    fn word(&mut self) -> (item: Tokens)
        requires
            old(self).pos < old(self).text().len(),
            old(self).mode != Mode::Inner,
        ensures
            stepped(
                *old(self),
                *final(self),
                Some(item),
                word_step(old(self).text(), old(self).pos as int, old(self).mode),
            ),
    {
        let bytes = self.source.as_bytes();
        let pos = self.pos;
        let markers_only = match self.mode {
            Mode::Block => true,
            _ => false,
        };
        match find_word(bytes, pos, markers_only) {
            Some((token, end)) => {
                let marker = match token.keyword_type() {
                    Some(KeywordType::Block) => true,
                    _ => false,
                };
                self.mode = if marker {
                    Mode::Outer
                } else {
                    Mode::Inner
                };
                self.pos = end;
                Tokens { token, span: pos..end }
            },
            None => self.error(),
        }
    }

    /// Reads a value, in the mode that looks for values.
    fn value(&mut self) -> (item: Tokens)
        requires
            old(self).pos < old(self).text().len(),
            old(self).mode == Mode::Inner,
        ensures
            stepped(
                *old(self),
                *final(self),
                Some(item),
                value_step(old(self).text(), old(self).pos as int),
            ),
    {
        let bytes = self.source.as_bytes();
        let pos = self.pos;
        let first = bytes[pos];
        proof {
            encode_utf8_valid_utf8(self.source@);
        }
        if ByteClass::Digit.admits(first) {
            let end = skip_run(bytes, pos, ByteClass::Digit);
            proof {
                lemma_run_end(bytes@, pos as int, ByteClass::Digit);
                lemma_run_end(bytes@, pos + 1, ByteClass::Digit);
                lemma_boundary_after_ascii(bytes@, pos as int);
                lemma_boundary_after_ascii(bytes@, end - 1);
            }
            let payload = substring(self.source, pos, end);
            self.pos = end;
            Tokens { token: Token::Numbers(payload), span: pos..end }
        } else if ByteClass::Letter.admits(first) {
            let end = skip_run(bytes, pos, ByteClass::Letter);
            proof {
                lemma_run_end(bytes@, pos as int, ByteClass::Letter);
                lemma_run_end(bytes@, pos + 1, ByteClass::Letter);
                lemma_boundary_after_ascii(bytes@, pos as int);
                lemma_boundary_after_ascii(bytes@, end - 1);
            }
            let payload = substring(self.source, pos, end);
            let truth = spelled(bytes, pos, end, "true") || spelled(bytes, pos, end, "false")
                || spelled(bytes, pos, end, "True") || spelled(bytes, pos, end, "False");
            self.pos = end;
            if truth {
                Tokens { token: Token::Boolean(payload), span: pos..end }
            } else {
                Tokens { token: Token::Text(payload), span: pos..end }
            }
        } else if first == QUOTE {
            let close = skip_run(bytes, pos + 1, ByteClass::Unquoted);
            proof {
                lemma_run_end(bytes@, pos + 1, ByteClass::Unquoted);
            }
            if close < bytes.len() {
                proof {
                    lemma_boundary_after_ascii(bytes@, pos as int);
                    lemma_boundary_after_ascii(bytes@, close as int);
                }
                let payload = substring(self.source, pos + 1, close);
                self.pos = close + 1;
                Tokens { token: Token::Quotes(payload), span: pos..close + 1 }
            } else {
                self.pos = close;
                Tokens { token: Token::Error, span: pos..close }
            }
        } else {
            self.error()
        }
    }

    /// Makes one step of the machine. At the end of the text there is no
    /// step to make, and the state stays as it is.
    pub fn advance(&mut self) -> (emitted: Option<Tokens>)
        ensures
            old(self).pos >= old(self).text().len() ==> *final(self) == *old(self)
                && emitted is None,
            old(self).pos < old(self).text().len() ==> stepped(
                *old(self),
                *final(self),
                emitted,
                step(old(self).text(), old(self).pos as int, old(self).mode),
            ),
    {
        let bytes = self.source.as_bytes();
        let pos = self.pos;
        if pos >= bytes.len() {
            return None;
        }
        let first = bytes[pos];
        if first == SPACE || first == TAB {
            self.pos = pos + 1;
            None
        } else if first == NEWLINE {
            self.pos = pos + 1;
            self.mode = self.mode.next_line();
            Some(Tokens { token: Token::EndLine, span: pos..pos + 1 })
        } else if first == HASH {
            self.pos = pos + 1;
            ignore_comments(self);
            Some(Tokens { token: Token::Hash, span: pos..pos + 1 })
        } else {
            match self.mode {
                Mode::Inner => Some(self.value()),
                _ => Some(self.word()),
            }
        }
    }
}

/// The token stream of a filter script, read one token at a time.
#[derive(Clone, Copy, Debug)]
pub struct ModeBridge<'a> {
    pub mode: Modes<'a>,
}

impl<'a> ModeBridge<'a> {
    /// The next token, or `None` at the end of the stream. The tokenizer
    /// passes over blanks and makes the step that emits the token; at the
    /// end of the stream it comes to rest past the last blank.
    pub fn next(&mut self) -> (item: Option<Tokens>)
        ensures
            final(self).mode.source@ == old(self).mode.source@,
            old(self).mode.token_start() >= old(self).mode.text().len() ==> {
                &&& item is None
                &&& final(self).mode.pos == old(self).mode.token_start()
                &&& final(self).mode.mode == old(self).mode.mode
            },
            old(self).mode.token_start() < old(self).mode.text().len() ==> {
                let here = step(
                    old(self).mode.text(),
                    old(self).mode.token_start(),
                    old(self).mode.mode,
                );
                &&& item is Some
                &&& item.deep_view() == here.lexeme
                &&& final(self).mode.pos == here.next
                &&& final(self).mode.mode == here.mode
            },
            old(self).mode.pos <= final(self).mode.pos,
            item matches Some(token) ==> matched(old(self).mode.text(), token.deep_view()),
            match item {
                Some(token) => {
                    &&& old(self).mode.remaining() == seq![token.deep_view()]
                        + final(self).mode.remaining()
                    &&& old(self).mode.pos < final(self).mode.pos <= old(self).mode.text().len()
                },
                None => {
                    &&& old(self).mode.remaining() == Seq::<Lexeme>::empty()
                    &&& final(self).mode.remaining() == Seq::<Lexeme>::empty()
                },
            },
    {
        loop
            invariant
                self.mode.source@ == old(self).mode.source@,
                self.mode.mode == old(self).mode.mode,
                old(self).mode.pos <= self.mode.pos,
                self.mode.token_start() == old(self).mode.token_start(),
                self.mode.remaining() == old(self).mode.remaining(),
            decreases self.mode.text().len() - self.mode.pos,
        {
            if self.mode.pos >= self.mode.source.as_bytes().len() {
                return None;
            }
            proof {
                lemma_step(self.mode.text(), self.mode.pos as int, self.mode.mode);
                lemma_step_matched(self.mode.text(), self.mode.pos as int, self.mode.mode);
                lemma_run_end(self.mode.text(), self.mode.pos as int, ByteClass::Blank);
            }
            match self.mode.advance() {
                Some(token) => {
                    return Some(token);
                },
                None => {},
            }
        }
    }

    /// The tokens from here to the end of the stream.
    pub fn collect(self) -> (items: Vec<Tokens>)
        ensures
            items.deep_view() == self.mode.remaining(),
    {
        let mut bridge = self;
        let mut items: Vec<Tokens> = Vec::new();
        loop
            invariant
                bridge.mode.source@ == self.mode.source@,
                items.deep_view() + bridge.mode.remaining() == self.mode.remaining(),
            decreases bridge.mode.text().len() - bridge.mode.pos,
        {
            let ghost seen = items.deep_view();
            match bridge.next() {
                Some(token) => {
                    items.push(token);
                    assert(items.deep_view() =~= seen.push(token.deep_view()));
                    assert(seen.push(token.deep_view()) + bridge.mode.remaining() =~= seen + (
                    seq![token.deep_view()] + bridge.mode.remaining()));
                },
                None => {
                    assert(items.deep_view() + Seq::<Lexeme>::empty() =~= items.deep_view());
                    return items;
                },
            }
        }
    }
}

} // verus!
