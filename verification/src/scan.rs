//! Byte-level recognisers that the tokenizers are built from.
//!
//! Everything here works on the UTF-8 bytes of the source text. Positions
//! are byte offsets, and a span is a half-open range of them.
use vstd::prelude::*;
use vstd::string::*;
use vstd::utf8::*;

verus! {

/// The space character.
pub const SPACE: u8 = 0x20;

/// The horizontal tab.
pub const TAB: u8 = 0x09;

/// The line break.
pub const NEWLINE: u8 = 0x0a;

/// `#`, which opens a comment.
pub const HASH: u8 = 0x23;

/// `"`, which opens and closes a quoted literal.
pub const QUOTE: u8 = 0x22;

/// Spaces and tabs separate tokens within a line.
pub open spec fn is_blank(b: u8) -> bool {
    b == SPACE || b == TAB
}

/// A set of bytes over which a scan runs.
#[derive(Clone, Copy, Debug)]
pub enum ByteClass {
    /// The space and the tab.
    Blank,
    /// `0` to `9`.
    Digit,
    /// `a` to `z` and `A` to `Z`.
    Letter,
    /// The bytes that continue a multi-byte character.
    Continuation,
    /// Every byte but the line break.
    InLine,
    /// Every byte but the double quote.
    Unquoted,
}

impl ByteClass {
    /// Whether `b` belongs to the class.
    pub open spec fn has(self, b: u8) -> bool {
        match self {
            ByteClass::Blank => is_blank(b),
            ByteClass::Digit => '0' as u8 <= b <= '9' as u8,
            ByteClass::Letter => ('a' as u8 <= b <= 'z' as u8) || ('A' as u8 <= b <= 'Z' as u8),
            ByteClass::Continuation => is_continuation_byte(b),
            ByteClass::InLine => b != NEWLINE,
            ByteClass::Unquoted => b != QUOTE,
        }
    }

    /// Tests one byte against the class.
    pub fn admits(self, b: u8) -> (r: bool)
        ensures
            r == self.has(b),
    {
        match self {
            ByteClass::Blank => b == SPACE || b == TAB,
            ByteClass::Digit => '0' as u8 <= b && b <= '9' as u8,
            ByteClass::Letter => ('a' as u8 <= b && b <= 'z' as u8) || ('A' as u8 <= b && b
                <= 'Z' as u8),
            ByteClass::Continuation => 0x80 <= b && b <= 0xbf,
            ByteClass::InLine => b != NEWLINE,
            ByteClass::Unquoted => b != QUOTE,
        }
    }
}

/// Where the longest run of `class` bytes that begins at `pos` ends. The
/// run is empty, and the result `pos`, when `pos` is outside the text or
/// the byte there is not in the class.
pub open spec fn run_end(bytes: Seq<u8>, pos: int, class: ByteClass) -> int
    decreases bytes.len() - pos,
{
    if 0 <= pos < bytes.len() && class.has(bytes[pos]) {
        run_end(bytes, pos + 1, class)
    } else {
        pos
    }
}

/// Where the character that begins at `pos` ends: one byte on, and then
/// past the continuation bytes that follow.
pub open spec fn char_end(bytes: Seq<u8>, pos: int) -> int {
    run_end(bytes, pos + 1, ByteClass::Continuation)
}

/// The position just past the first line break at or after `pos`, or the
/// end of the text when no line break follows.
pub open spec fn line_end(bytes: Seq<u8>, pos: int) -> int {
    let stop = run_end(bytes, pos, ByteClass::InLine);
    if stop < bytes.len() {
        stop + 1
    } else {
        stop
    }
}

/// The position of the first double quote after the one at `pos`, or the
/// end of the text when the literal is never closed.
pub open spec fn closing_quote(bytes: Seq<u8>, pos: int) -> int {
    run_end(bytes, pos + 1, ByteClass::Unquoted)
}

/// Whether `word` stands in `bytes` at `pos`.
pub open spec fn found_at(bytes: Seq<u8>, pos: int, word: Seq<u8>) -> bool {
    0 <= pos && pos + word.len() <= bytes.len() && bytes.subrange(pos, pos + word.len()) == word
}

/// A run lies inside the text from `pos` on, holds only bytes of its
/// class, and stops at the end of the text or before a byte outside the
/// class.
pub proof fn lemma_run_end(bytes: Seq<u8>, pos: int, class: ByteClass)
    requires
        0 <= pos <= bytes.len(),
    ensures
        pos <= run_end(bytes, pos, class) <= bytes.len(),
        forall|i: int| pos <= i < run_end(bytes, pos, class) ==> class.has(#[trigger] bytes[i]),
        run_end(bytes, pos, class) < bytes.len() ==> !class.has(
            bytes[run_end(bytes, pos, class)],
        ),
    decreases bytes.len() - pos,
{
    if pos < bytes.len() && class.has(bytes[pos]) {
        lemma_run_end(bytes, pos + 1, class);
    }
}

/// The three properties of `lemma_run_end` hold of one position only.
pub proof fn lemma_run_end_is(bytes: Seq<u8>, pos: int, class: ByteClass, end: int)
    requires
        0 <= pos <= end <= bytes.len(),
        forall|i: int| pos <= i < end ==> class.has(#[trigger] bytes[i]),
        end < bytes.len() ==> !class.has(bytes[end]),
    ensures
        run_end(bytes, pos, class) == end,
    decreases end - pos,
{
    if pos < end {
        lemma_run_end_is(bytes, pos + 1, class, end);
    }
}

/// Scans the run of `class` bytes that begins at `pos`.
pub fn skip_run(bytes: &[u8], pos: usize, class: ByteClass) -> (end: usize)
    ensures
        end == run_end(bytes@, pos as int, class),
        pos <= end,
        pos <= bytes@.len() ==> end <= bytes@.len(),
{
    let mut end: usize = pos;
    while end < bytes.len() && class.admits(bytes[end])
        invariant
            pos <= end,
            pos <= bytes@.len() ==> end <= bytes@.len(),
            run_end(bytes@, pos as int, class) == run_end(bytes@, end as int, class),
        decreases bytes@.len() - end,
    {
        end += 1;
    }
    end
}

/// Tests whether `word` stands in `bytes` at `pos`.
pub fn found(bytes: &[u8], pos: usize, word: &str) -> (r: bool)
    ensures
        r == found_at(bytes@, pos as int, word.spec_bytes()),
{
    let letters = word.as_bytes();
    let n = letters.len();
    if n > bytes.len() || pos > bytes.len() - n {
        return false;
    }
    let mut i: usize = 0;
    while i < n
        invariant
            i <= n,
            n == letters@.len(),
            letters@ == word.spec_bytes(),
            pos + n <= bytes@.len() <= usize::MAX,
            forall|j: int| 0 <= j < i ==> bytes@[pos + j] == letters@[j],
        decreases n - i,
    {
        if bytes[pos + i] != letters[i] {
            assert(bytes@.subrange(pos as int, pos + n)[i as int] != letters@[i as int]);
            return false;
        }
        i += 1;
    }
    assert(bytes@.subrange(pos as int, pos + n) =~= letters@);
    true
}

/// In well-formed UTF-8 a character begins right after every ASCII byte.
pub proof fn lemma_boundary_after_ascii(bytes: Seq<u8>, i: int)
    requires
        valid_utf8(bytes),
        0 <= i < bytes.len(),
        bytes[i] <= 0x7f,
    ensures
        is_char_boundary(bytes, i),
        is_char_boundary(bytes, i + 1),
{
    is_char_boundary_iff_not_is_continuation_byte(bytes, i);
    if i + 1 == bytes.len() {
        is_char_boundary_start_end_of_seq(bytes);
    } else {
        valid_utf8_split(bytes, i);
        let tail = bytes.subrange(i, bytes.len() as int);
        assert(tail[0] == bytes[i]);
        assert(length_of_first_scalar(tail) == 1);
        let rest = pop_first_scalar(tail);
        assert(valid_utf8(rest));
        assert(rest.len() > 0);
        assert(rest[0] == bytes[i + 1]);
        assert(valid_first_scalar(rest));
        is_char_boundary_iff_not_is_continuation_byte(bytes, i + 1);
    }
}

/// Copies the bytes of `source` from `start` up to `end` into a string of
/// their own.
pub fn substring(source: &str, start: usize, end: usize) -> (piece: String)
    requires
        start <= end <= source.spec_bytes().len(),
        is_char_boundary(source.spec_bytes(), start as int),
        is_char_boundary(source.spec_bytes(), end as int),
    ensures
        encode_utf8(piece@) == source.spec_bytes().subrange(start as int, end as int),
{
    let (head, _) = source.split_at(end);
    proof {
        encode_utf8_valid_utf8(source@);
        encode_utf8_valid_utf8(head@);
        if start < end {
            is_char_boundary_iff_not_is_continuation_byte(source.spec_bytes(), start as int);
            assert(head.spec_bytes()[start as int] == source.spec_bytes()[start as int]);
            is_char_boundary_iff_not_is_continuation_byte(head.spec_bytes(), start as int);
        } else {
            is_char_boundary_start_end_of_seq(head.spec_bytes());
        }
    }
    let (_, body) = head.split_at(start);
    assert(body.spec_bytes() =~= source.spec_bytes().subrange(start as int, end as int));
    body.to_owned()
}

} // verus!
