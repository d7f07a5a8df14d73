//! Mapping between byte offsets into a source text and editor positions,
//! which count lines from zero and columns in UTF-16 code units.

use crate::span::{Position, Range, SrcSpan};
use vstd::prelude::*;
use vstd::string::*;
use vstd::utf8::*;

verus! {

/// The byte that ends a line.
pub const NEWLINE: u8 = 10;

/// The number of UTF-16 code units that a byte of UTF-8 text accounts for.
/// The first byte of a character carries the units of the whole character:
/// two where the character takes four bytes, one otherwise. The bytes that
/// continue a character carry none.
pub open spec fn utf16_units(byte: u8) -> nat {
    if is_continuation_byte(byte) {
        0
    } else if byte >= 0xf0 {
        2
    } else {
        1
    }
}

/// The number of UTF-16 code units of a run of bytes.
pub open spec fn utf16_len(bytes: Seq<u8>) -> nat
    decreases bytes.len(),
{
    if bytes.len() == 0 {
        0
    } else {
        utf16_len(bytes.drop_last()) + utf16_units(bytes.last())
    }
}

/// The offsets at which the lines of a text begin, in increasing order:
/// zero, and the offset after each newline.
pub open spec fn line_starts(bytes: Seq<u8>) -> Seq<int>
    decreases bytes.len(),
{
    if bytes.len() == 0 {
        seq![0int]
    } else if bytes.last() == NEWLINE {
        line_starts(bytes.drop_last()).push(bytes.len() as int)
    } else {
        line_starts(bytes.drop_last())
    }
}

/// The offset at which the content of a line ends: that of its newline, or
/// the end of the text for the last line.
pub open spec fn line_end(bytes: Seq<u8>, line: int) -> int {
    let starts = line_starts(bytes);
    if line + 1 < starts.len() {
        starts[line + 1] - 1
    } else {
        bytes.len() as int
    }
}

/// An offset at which a character begins, or the end of the text.
pub open spec fn is_boundary(bytes: Seq<u8>, offset: int) -> bool {
    offset < 0 || offset >= bytes.len() || !is_continuation_byte(bytes[offset])
}

/// The column of an offset on the line that begins at `start`.
pub open spec fn column_at(bytes: Seq<u8>, start: int, offset: int) -> nat {
    utf16_len(bytes.subrange(start, offset))
}

/// The least offset in `from..end` that is a boundary with a column of at
/// least `character`, or `end` where there is none.
pub open spec fn first_reaching(
    bytes: Seq<u8>,
    start: int,
    from: int,
    end: int,
    character: int,
) -> int
    decreases end - from,
{
    if from >= end {
        end
    } else if is_boundary(bytes, from) && column_at(bytes, start, from) >= character {
        from
    } else {
        first_reaching(bytes, start, from + 1, end, character)
    }
}

/// The byte offset of an editor position. A line past the last one gives
/// the end of the text, a column past the end of its line the end of that
/// line.
pub open spec fn byte_index_of(bytes: Seq<u8>, line: int, character: int) -> int {
    let starts = line_starts(bytes);
    if 0 <= line < starts.len() {
        first_reaching(bytes, starts[line], starts[line], line_end(bytes, line), character)
    } else {
        bytes.len() as int
    }
}

/// The line of an offset: the number of newlines before it.
pub open spec fn line_of(bytes: Seq<u8>, offset: int) -> int {
    line_starts(bytes.take(offset)).len() - 1
}

/// The editor position of a byte offset, as line and column. An offset past
/// the end of the text counts as the end.
pub open spec fn position_of(bytes: Seq<u8>, offset: int) -> (int, int) {
    let at = if offset > bytes.len() { bytes.len() as int } else { offset };
    (line_of(bytes, at), column_at(bytes, line_starts(bytes.take(at)).last(), at) as int)
}

/// Line starts lie within the text and increase strictly from zero.
pub proof fn lemma_line_starts_increase(bytes: Seq<u8>)
    ensures
        line_starts(bytes).len() >= 1,
        line_starts(bytes)[0] == 0,
        forall|i: int|
            0 <= i < line_starts(bytes).len() ==> 0 <= #[trigger] line_starts(bytes)[i]
                <= bytes.len(),
        forall|i: int, j: int|
            0 <= i < j < line_starts(bytes).len() ==> line_starts(bytes)[i] < line_starts(
                bytes,
            )[j],
        forall|i: int|
            0 < i < line_starts(bytes).len() ==> bytes[#[trigger] line_starts(bytes)[i] - 1]
                == NEWLINE,
    decreases bytes.len(),
{
    if bytes.len() > 0 {
        lemma_line_starts_increase(bytes.drop_last());
    }
}

/// The line starts of the first `at` bytes of a text are those line starts
/// of the whole text that are at most `at`.
pub proof fn lemma_line_starts_prefix(bytes: Seq<u8>, at: int)
    requires
        0 <= at <= bytes.len(),
    ensures
        line_starts(bytes.take(at)).len() <= line_starts(bytes).len(),
        forall|i: int|
            0 <= i < line_starts(bytes.take(at)).len() ==> #[trigger] line_starts(bytes)[i]
                == line_starts(bytes.take(at))[i] && line_starts(bytes)[i] <= at,
        forall|i: int|
            line_starts(bytes.take(at)).len() <= i < line_starts(bytes).len()
                ==> #[trigger] line_starts(bytes)[i] > at,
    decreases bytes.len(),
{
    if at == bytes.len() {
        assert(bytes.take(at) =~= bytes);
        lemma_line_starts_increase(bytes);
    } else {
        assert(bytes.drop_last().take(at) =~= bytes.take(at));
        lemma_line_starts_prefix(bytes.drop_last(), at);
    }
}

/// One more byte adds its units to the column.
pub proof fn lemma_column_step(bytes: Seq<u8>, start: int, offset: int)
    requires
        0 <= start <= offset < bytes.len(),
    ensures
        column_at(bytes, start, offset + 1) == column_at(bytes, start, offset) + utf16_units(
            bytes[offset],
        ),
{
    assert(bytes.subrange(start, offset + 1).drop_last() =~= bytes.subrange(start, offset));
}

/// Columns do not decrease along a line.
pub proof fn lemma_column_monotone(bytes: Seq<u8>, start: int, a: int, b: int)
    requires
        0 <= start <= a <= b <= bytes.len(),
    ensures
        column_at(bytes, start, a) <= column_at(bytes, start, b),
    decreases b - a,
{
    if a < b {
        lemma_column_monotone(bytes, start, a, b - 1);
        lemma_column_step(bytes, start, b - 1);
    }
}

/// What is left of a count when it is held in 32 bits: the count, or the
/// largest number that fits.
pub open spec fn saturate(count: int) -> int {
    if count > u32::MAX {
        u32::MAX as int
    } else {
        count
    }
}

/// The editor position of a byte offset, each coordinate held in 32 bits.
pub open spec fn editor_position(bytes: Seq<u8>, offset: int) -> Position {
    Position {
        line: saturate(position_of(bytes, offset).0) as u32,
        character: saturate(position_of(bytes, offset).1) as u32,
    }
}

/// The editor range of a span: the positions of its two ends.
pub open spec fn editor_range(bytes: Seq<u8>, span: SrcSpan) -> Range {
    Range {
        start: editor_position(bytes, span.start as int),
        end: editor_position(bytes, span.end as int),
    }
}

/// The number of UTF-16 code units that a character takes: two outside the
/// basic plane, one within it.
pub open spec fn char_utf16_units(c: char) -> nat {
    if c as u32 >= 0x10000 {
        2
    } else {
        1
    }
}

/// The number of UTF-16 code units of a text.
pub open spec fn text_utf16_len(text: Seq<char>) -> nat
    decreases text.len(),
{
    if text.len() == 0 {
        0
    } else {
        char_utf16_units(text[0]) + text_utf16_len(text.drop_first())
    }
}

/// The units of two runs of bytes add up.
pub proof fn lemma_utf16_len_concat(a: Seq<u8>, b: Seq<u8>)
    ensures
        utf16_len(a + b) == utf16_len(a) + utf16_len(b),
    decreases b.len(),
{
    if b.len() == 0 {
        assert(a + b =~= a);
    } else {
        assert((a + b).drop_last() =~= a + b.drop_last());
        lemma_utf16_len_concat(a, b.drop_last());
    }
}

/// The bytes of one character count as many units as the character takes.
pub proof fn lemma_utf16_len_of_char(c: char)
    ensures
        utf16_len(encode_scalar(c as u32)) == char_utf16_units(c),
{
    let v = c as u32;
    let encoded = encode_scalar(v);
    char_is_scalar(c);
    reveal_with_fuel(utf16_len, 5);
    if has_width_1_encoding(v) {
        assert((v & 0x7F) as u8 <= 0x7f) by (bit_vector);
        assert(encoded.drop_last() =~= Seq::<u8>::empty());
    } else if has_width_2_encoding(v) {
        assert(0xc0 <= (0xC0 | ((v >> 6) & 0x1F) as u8) <= 0xdf) by (bit_vector);
        assert(0x80 <= (0x80 | (v & 0x3F) as u8) <= 0xbf) by (bit_vector);
        assert(encoded.drop_last() =~= seq![leading_byte_width_2(v)]);
        assert(encoded.drop_last().drop_last() =~= Seq::<u8>::empty());
    } else if has_width_3_encoding(v) {
        assert(0xe0 <= (0xE0 | ((v >> 12) & 0x0F) as u8) <= 0xef) by (bit_vector);
        assert(0x80 <= (0x80 | ((v >> 6) & 0x3F) as u8) <= 0xbf) by (bit_vector);
        assert(0x80 <= (0x80 | (v & 0x3F) as u8) <= 0xbf) by (bit_vector);
        assert(encoded.drop_last() =~= seq![
            leading_byte_width_3(v),
            second_last_continuation_byte(v),
        ]);
        assert(encoded.drop_last().drop_last() =~= seq![leading_byte_width_3(v)]);
        assert(encoded.drop_last().drop_last().drop_last() =~= Seq::<u8>::empty());
    } else {
        assert(0xf0 <= (0xF0 | ((v >> 18) & 0x7) as u8) <= 0xf7) by (bit_vector);
        assert(0x80 <= (0x80 | ((v >> 12) & 0x3F) as u8) <= 0xbf) by (bit_vector);
        assert(0x80 <= (0x80 | ((v >> 6) & 0x3F) as u8) <= 0xbf) by (bit_vector);
        assert(0x80 <= (0x80 | (v & 0x3F) as u8) <= 0xbf) by (bit_vector);
        assert(encoded.drop_last() =~= seq![
            leading_byte_width_4(v),
            third_last_continuation_byte(v),
            second_last_continuation_byte(v),
        ]);
        assert(encoded.drop_last().drop_last() =~= seq![
            leading_byte_width_4(v),
            third_last_continuation_byte(v),
        ]);
        assert(encoded.drop_last().drop_last().drop_last() =~= seq![leading_byte_width_4(v)]);
        assert(encoded.drop_last().drop_last().drop_last().drop_last() =~= Seq::<u8>::empty());
    }
}

/// Counting units byte by byte over the UTF-8 form of a text gives the
/// number of UTF-16 code units of the text.
pub proof fn lemma_utf16_len_of_text(text: Seq<char>)
    ensures
        utf16_len(encode_utf8(text)) == text_utf16_len(text),
    decreases text.len(),
{
    if text.len() > 0 {
        lemma_utf16_len_of_char(text[0]);
        lemma_utf16_len_concat(encode_scalar(text[0] as u32), encode_utf8(text.drop_first()));
        lemma_utf16_len_of_text(text.drop_first());
    }
}

/// Whether `offset` is a place on a line of the text with the given column:
/// it lies on the line, a character begins there or the line ends there,
/// and `character` code units come before it on the line.
pub open spec fn names_offset(bytes: Seq<u8>, line: int, character: int, offset: int) -> bool {
    &&& line_starts(bytes)[line] <= offset <= line_end(bytes, line)
    &&& is_boundary(bytes, offset)
    &&& column_at(bytes, line_starts(bytes)[line], offset) == character
}

/// A position within the bounds of a text: one of its lines, and a column
/// on that line at which a character begins or the line ends.
pub open spec fn valid_position(bytes: Seq<u8>, line: int, character: int) -> bool {
    &&& 0 <= line < line_starts(bytes).len()
    &&& exists|offset: int| names_offset(bytes, line, character, offset)
}

/// The offset that `first_reaching` gives lies in `from..=end`; before the
/// end it is a boundary with the column reached; and no boundary between
/// `from` and it has reached the column.
pub proof fn lemma_first_reaching_is_least(
    bytes: Seq<u8>,
    start: int,
    from: int,
    end: int,
    character: int,
)
    requires
        start <= from <= end,
    ensures
        from <= first_reaching(bytes, start, from, end, character) <= end,
        first_reaching(bytes, start, from, end, character) < end ==> is_boundary(
            bytes,
            first_reaching(bytes, start, from, end, character),
        ) && column_at(bytes, start, first_reaching(bytes, start, from, end, character))
            >= character,
        forall|o: int|
            from <= o < first_reaching(bytes, start, from, end, character) ==> !(is_boundary(
                bytes,
                o,
            ) && #[trigger] column_at(bytes, start, o) >= character),
    decreases end - from,
{
    if from < end && !(is_boundary(bytes, from) && column_at(bytes, start, from) >= character) {
        lemma_first_reaching_is_least(bytes, start, from + 1, end, character);
    }
}

/// No coordinates, however stale, give an offset outside the text.
pub proof fn lemma_byte_index_in_range(bytes: Seq<u8>, line: int, character: int)
    ensures
        0 <= byte_index_of(bytes, line, character) <= bytes.len(),
{
    lemma_line_starts_increase(bytes);
    if 0 <= line < line_starts(bytes).len() {
        lemma_first_reaching_is_least(
            bytes,
            line_starts(bytes)[line],
            line_starts(bytes)[line],
            line_end(bytes, line),
            character,
        );
    }
}

/// An offset on a line lies on that line: the line starts at or before it
/// are those up to the line's own.
pub proof fn lemma_line_of_offset_on_line(bytes: Seq<u8>, line: int, offset: int)
    requires
        0 <= line < line_starts(bytes).len(),
        line_starts(bytes)[line] <= offset <= line_end(bytes, line),
    ensures
        0 <= offset <= bytes.len(),
        line_starts(bytes.take(offset)).len() == line + 1,
        line_starts(bytes.take(offset)).last() == line_starts(bytes)[line],
{
    lemma_line_starts_increase(bytes);
    lemma_line_starts_prefix(bytes, offset);
    let before = line_starts(bytes.take(offset));
    let starts = line_starts(bytes);
    if before.len() <= line {
        assert(starts[line] > offset);
    }
    if before.len() > line + 1 {
        assert(starts[line + 1] <= offset);
    }
    assert(starts[line] == before[line]);
}

/// Position round trip: the offset of a position within the bounds of a
/// text has that position again.
pub proof fn lemma_position_round_trip(bytes: Seq<u8>, line: int, character: int)
    requires
        valid_position(bytes, line, character),
    ensures
        position_of(bytes, byte_index_of(bytes, line, character)) == (line, character),
{
    lemma_line_starts_increase(bytes);
    let start = line_starts(bytes)[line];
    let end = line_end(bytes, line);
    let found = byte_index_of(bytes, line, character);
    let named = choose|offset: int| names_offset(bytes, line, character, offset);
    lemma_first_reaching_is_least(bytes, start, start, end, character);
    lemma_line_of_offset_on_line(bytes, line, found);
    lemma_line_of_offset_on_line(bytes, line, named);
    if named < found {
        assert(!(is_boundary(bytes, named) && column_at(bytes, start, named) >= character));
    }
    lemma_column_monotone(bytes, start, found, named);
}

/// Position round trip, in the editor's terms: the range of the empty span
/// at the offset of a position within the bounds of a text contains that
/// position.
pub proof fn lemma_range_contains_position(bytes: Seq<u8>, position: Position, span: SrcSpan)
    requires
        valid_position(bytes, position.line as int, position.character as int),
        span.start == byte_index_of(bytes, position.line as int, position.character as int),
        span.end == span.start,
    ensures
        editor_range(bytes, span).start == position,
        editor_range(bytes, span).end == position,
        editor_range(bytes, span).spec_contains(position),
{
    lemma_position_round_trip(bytes, position.line as int, position.character as int);
}

/// Positions grow with offsets: of two offsets the later has the later
/// line, or the same line and a column that is no smaller.
pub proof fn lemma_position_monotone(bytes: Seq<u8>, a: int, b: int)
    requires
        0 <= a <= b,
    ensures
        position_of(bytes, a).0 < position_of(bytes, b).0 || (position_of(bytes, a).0
            == position_of(bytes, b).0 && position_of(bytes, a).1 <= position_of(bytes, b).1),
        0 <= position_of(bytes, a).0 < line_starts(bytes).len(),
        0 <= position_of(bytes, b).0 < line_starts(bytes).len(),
{
    let at_a = if a > bytes.len() { bytes.len() as int } else { a };
    let at_b = if b > bytes.len() { bytes.len() as int } else { b };
    let before_a = line_starts(bytes.take(at_a));
    let before_b = line_starts(bytes.take(at_b));
    assert(bytes.take(at_b).take(at_a) =~= bytes.take(at_a));
    lemma_line_starts_prefix(bytes.take(at_b), at_a);
    lemma_line_starts_prefix(bytes, at_b);
    lemma_line_starts_prefix(bytes, at_a);
    lemma_line_starts_increase(bytes.take(at_a));
    lemma_line_starts_increase(bytes.take(at_b));
    if before_a.len() == before_b.len() {
        let start = before_a.last();
        assert(before_b.last() == line_starts(bytes.take(at_b))[before_a.len() - 1]);
        assert(before_b.last() == start);
        lemma_column_monotone(bytes, start, at_a, at_b);
    }
}

/// Positions grow with offsets in the editor's terms too, in a text whose
/// line numbers all fit in 32 bits.
pub proof fn lemma_editor_position_monotone(bytes: Seq<u8>, a: int, b: int)
    requires
        0 <= a <= b,
        line_starts(bytes).len() <= 0x1_0000_0000,
    ensures
        editor_position(bytes, a).at_or_before(editor_position(bytes, b)),
{
    lemma_position_monotone(bytes, a, b);
}

/// The range of a span that contains the offset of a position within the
/// bounds of a text contains that position, in a text whose line numbers
/// all fit in 32 bits.
pub proof fn lemma_span_range_contains_position(bytes: Seq<u8>, position: Position, span: SrcSpan)
    requires
        valid_position(bytes, position.line as int, position.character as int),
        line_starts(bytes).len() <= 0x1_0000_0000,
        span.start <= byte_index_of(bytes, position.line as int, position.character as int)
            <= span.end,
    ensures
        editor_range(bytes, span).spec_contains(position),
{
    let offset = byte_index_of(bytes, position.line as int, position.character as int);
    lemma_position_round_trip(bytes, position.line as int, position.character as int);
    lemma_byte_index_in_range(bytes, position.line as int, position.character as int);
    lemma_editor_position_monotone(bytes, span.start as int, offset);
    lemma_editor_position_monotone(bytes, offset, span.end as int);
    assert(editor_position(bytes, offset) == position);
}

/// The number of lines of a text: one for each newline, and one more for
/// what follows the last newline unless nothing follows it.
pub open spec fn line_count(bytes: Seq<u8>) -> int {
    if bytes.len() > 0 && bytes.last() != NEWLINE {
        line_starts(bytes).len() as int
    } else {
        line_starts(bytes).len() - 1
    }
}

/// The number of lines of a text, or the largest number that 32 bits hold
/// where the text has more.
pub fn count_lines(text: &str) -> (count: u32)
    ensures
        count as int == saturate(line_count(encode_utf8(text@))),
{
    let bytes = text.as_bytes();
    let mut newlines: usize = 0;
    let mut open_line: bool = false;
    let mut i: usize = 0;
    assert(bytes@.take(0) =~= Seq::<u8>::empty());
    while i < bytes.len()
        invariant
            i <= bytes.len(),
            newlines as int == line_starts(bytes@.take(i as int)).len() - 1,
            open_line == (i > 0 && bytes@[i - 1] != NEWLINE),
            newlines + if open_line { 1int } else { 0int } <= i,
        decreases bytes.len() - i,
    {
        assert(bytes@.take(i + 1).drop_last() =~= bytes@.take(i as int));
        if bytes[i] == NEWLINE {
            newlines += 1;
            open_line = false;
        } else {
            open_line = true;
        }
        i += 1;
    }
    assert(bytes@.take(i as int) =~= bytes@);
    let lines: usize = if open_line { newlines + 1 } else { newlines };
    if lines > 0xffff_ffff {
        0xffff_ffff
    } else {
        lines as u32
    }
}

/// A source text with the table of its line starts. The table is built
/// from the text once and stays with it, so an offset is never measured
/// against the table of another text.
pub struct LineNumbers {
    text: String,
    line_starts: Vec<usize>,
}

impl View for LineNumbers {
    type V = Seq<char>;

    /// The text that the table was built from.
    closed spec fn view(&self) -> Seq<char> {
        self.text@
    }
}

impl LineNumbers {
    #[verifier::type_invariant]
    spec fn well_formed(self) -> bool {
        &&& self.line_starts@.len() == line_starts(encode_utf8(self.text@)).len()
        &&& forall|i: int|
            0 <= i < self.line_starts@.len() ==> #[trigger] self.line_starts@[i] as int
                == line_starts(encode_utf8(self.text@))[i]
    }

    /// The bytes of the text.
    pub open spec fn bytes(&self) -> Seq<u8> {
        encode_utf8(self@)
    }

    /// Builds the table of a text.
    pub fn new(src: &str) -> (table: LineNumbers)
        ensures
            table@ == src@,
    {
        let bytes = src.as_bytes();
        let mut starts: Vec<usize> = Vec::new();
        starts.push(0);
        let mut i: usize = 0;
        assert(bytes@.take(0) =~= Seq::<u8>::empty());
        while i < bytes.len()
            invariant
                i <= bytes.len(),
                starts@.len() == line_starts(bytes@.take(i as int)).len(),
                forall|k: int|
                    0 <= k < starts@.len() ==> #[trigger] starts@[k] as int == line_starts(
                        bytes@.take(i as int),
                    )[k],
            decreases bytes.len() - i,
        {
            assert(bytes@.take(i + 1).drop_last() =~= bytes@.take(i as int));
            if bytes[i] == NEWLINE {
                starts.push(i + 1);
            }
            i += 1;
        }
        assert(bytes@.take(i as int) =~= bytes@);
        LineNumbers { text: src.to_owned(), line_starts: starts }
    }

    /// The length of the text in bytes.
    pub fn len(&self) -> (len: usize)
        ensures
            len == self.bytes().len(),
    {
        self.text.as_str().as_bytes().len()
    }

    /// The text that the table describes.
    pub fn text(&self) -> (text: &str)
        ensures
            text@ == self@,
    {
        self.text.as_str()
    }

    /// The byte offset of an editor position. Stale coordinates are not
    /// refused: a line past the last one gives the end of the text, and a
    /// column past the end of its line gives the end of that line.
    pub fn byte_index(&self, line: u32, character: u32) -> (offset: usize)
        ensures
            offset as int == byte_index_of(self.bytes(), line as int, character as int),
            offset <= self.bytes().len(),
    {
        proof {
            use_type_invariant(self);
            lemma_line_starts_increase(self.bytes());
        }
        let bytes = self.text.as_str().as_bytes();
        let row: usize = line as usize;
        if row >= self.line_starts.len() {
            return bytes.len();
        }
        let start: usize = self.line_starts[row];
        let end: usize = if row + 1 < self.line_starts.len() {
            self.line_starts[row + 1] - 1
        } else {
            bytes.len()
        };
        let mut i: usize = start;
        let mut units: u64 = 0;
        assert(bytes@.subrange(start as int, start as int) =~= Seq::<u8>::empty());
        while i < end
            invariant
                start <= i <= end <= bytes.len(),
                bytes@ == self.bytes(),
                units <= character + 2,
                units as int == column_at(bytes@, start as int, i as int) || (units >= character
                    && column_at(bytes@, start as int, i as int) >= character),
                byte_index_of(self.bytes(), line as int, character as int) == first_reaching(
                    bytes@,
                    start as int,
                    i as int,
                    end as int,
                    character as int,
                ),
            decreases end - i,
        {
            let byte: u8 = bytes[i];
            let continues: bool = 0x80 <= byte && byte <= 0xbf;
            if !continues && units >= character as u64 {
                return i;
            }
            proof {
                lemma_column_step(bytes@, start as int, i as int);
            }
            if units < character as u64 {
                if !continues {
                    units = units + if byte >= 0xf0 { 2 } else { 1 };
                }
            }
            i += 1;
        }
        i
    }

    /// The editor position of a byte offset. An offset past the end of the
    /// text counts as the end, and a coordinate too large for 32 bits as
    /// the largest that fits.
    pub fn position(&self, byte_index: usize) -> (position: Position)
        ensures
            position == editor_position(self.bytes(), byte_index as int),
    {
        proof {
            use_type_invariant(self);
            lemma_line_starts_increase(self.bytes());
        }
        let bytes = self.text.as_str().as_bytes();
        let at: usize = if byte_index > bytes.len() { bytes.len() } else { byte_index };
        proof {
            lemma_line_starts_prefix(bytes@, at as int);
            lemma_line_starts_increase(bytes@.take(at as int));
        }
        let mut low: usize = 0;
        let mut high: usize = self.line_starts.len();
        while high - low > 1
            invariant
                low < high <= self.line_starts@.len(),
                self.line_starts@[low as int] <= at,
                forall|k: int| high <= k < self.line_starts@.len() ==> self.line_starts@[k] > at,
                forall|j: int, k: int|
                    0 <= j < k < self.line_starts@.len() ==> self.line_starts@[j]
                        < self.line_starts@[k],
            decreases high - low,
        {
            let mid: usize = low + (high - low) / 2;
            if self.line_starts[mid] <= at {
                low = mid;
            } else {
                high = mid;
            }
        }
        assert(line_starts(bytes@.take(at as int)).len() == low + 1) by {
            let before = line_starts(bytes@.take(at as int));
            assert(self.line_starts@[low as int] as int == line_starts(bytes@)[low as int]);
            if before.len() > low + 1 {
                assert(self.line_starts@[low + 1] as int == line_starts(bytes@)[low + 1]);
            }
        }
        let start: usize = self.line_starts[low];
        assert(start as int == line_starts(bytes@.take(at as int)).last());
        let mut i: usize = start;
        let mut units: u64 = 0;
        assert(bytes@.subrange(start as int, start as int) =~= Seq::<u8>::empty());
        while i < at
            invariant
                start <= i <= at <= bytes.len(),
                bytes@ == self.bytes(),
                units <= 0x1_0000_0000,
                units < 0xffff_ffff ==> units as int == column_at(bytes@, start as int, i as int),
                units >= 0xffff_ffff ==> column_at(bytes@, start as int, i as int) >= 0xffff_ffff,
            decreases at - i,
        {
            let byte: u8 = bytes[i];
            proof {
                lemma_column_step(bytes@, start as int, i as int);
            }
            if units < 0xffff_ffff {
                if !(0x80 <= byte && byte <= 0xbf) {
                    units = units + if byte >= 0xf0 { 2 } else { 1 };
                }
            }
            i += 1;
        }
        Position {
            line: if low > 0xffff_ffff { 0xffff_ffff } else { low as u32 },
            character: if units > 0xffff_ffff { 0xffff_ffff } else { units as u32 },
        }
    }
}

/// The editor range of a span of a text, by the table of that text.
pub fn src_span_to_lsp_range(location: SrcSpan, line_numbers: &LineNumbers) -> (range: Range)
    ensures
        range == editor_range(line_numbers.bytes(), location),
{
    Range {
        start: line_numbers.position(location.start),
        end: line_numbers.position(location.end),
    }
}

} // verus!
