//! Decoded text and its byte-offset to line/column indexing.

use vstd::prelude::*;

use crate::error::{FileError, MapError};

verus! {

/// A decoded source text: UTF-8 bytes with any leading byte-order mark
/// already removed. Byte offsets into the text index these bytes.
#[derive(Debug)]
pub struct Text {
    bytes: Vec<u8>,
}

impl View for Text {
    type V = Seq<u8>;

    closed spec fn view(&self) -> Seq<u8> {
        self.bytes@
    }
}

/// The UTF-8 byte-order mark.
pub open spec fn has_bom(b: Seq<u8>) -> bool {
    b.len() >= 3 && b[0] == 0xefu8 && b[1] == 0xbbu8 && b[2] == 0xbfu8
}

/// One leading byte-order mark is stripped before decoding.
pub open spec fn strip_bom(b: Seq<u8>) -> Seq<u8> {
    if has_bom(b) {
        b.skip(3)
    } else {
        b
    }
}

/// What decoding a byte buffer yields: the buffer without its byte-order
/// mark when that is valid UTF-8, and an encoding error otherwise.
pub open spec fn spec_decode(b: Seq<u8>) -> Result<Seq<u8>, FileError> {
    if vstd::utf8::valid_utf8(strip_bom(b)) {
        Ok(strip_bom(b))
    } else {
        Err(FileError::InvalidEncoding)
    }
}

/// Relies on `core::str::from_utf8`: it returns `Ok` exactly when the bytes
/// are valid UTF-8, the notion `vstd::utf8::valid_utf8` models.
#[verifier::external_body]
fn utf8_valid(bytes: &[u8]) -> (r: bool)
    ensures
        r == vstd::utf8::valid_utf8(bytes@),
{
    core::str::from_utf8(bytes).is_ok()
}

impl Text {
    /// Whether a constructed text is well formed.
    pub open spec fn wf(self) -> bool {
        vstd::utf8::valid_utf8(self@)
    }

    /// Decode a raw byte buffer: strip one leading byte-order mark if
    /// present; bytes that are not valid UTF-8 are a terminal encoding error.
    pub fn decode(raw: &Vec<u8>) -> (r: Result<Text, FileError>)
        ensures
            match r {
                Ok(t) => spec_decode(raw@) == Ok::<Seq<u8>, FileError>(t@) && t.wf(),
                Err(e) => spec_decode(raw@) == Err::<Seq<u8>, FileError>(e),
            },
    {
        let stripped: Vec<u8>;
        if raw.len() >= 3 && raw[0] == 0xefu8 && raw[1] == 0xbbu8 && raw[2] == 0xbfu8 {
            let mut out: Vec<u8> = Vec::new();
            let mut i: usize = 3;
            while i < raw.len()
                invariant
                    3 <= i <= raw.len(),
                    raw@.len() >= 3,
                    out@ == raw@.subrange(3, i as int),
                decreases raw.len() - i,
            {
                let ghost pre = out@;
                out.push(raw[i]);
                assert(out@ =~= raw@.subrange(3, i + 1 as int));
                i += 1;
            }
            assert(out@ =~= raw@.skip(3));
            stripped = out;
        } else {
            let mut out: Vec<u8> = Vec::new();
            let mut i: usize = 0;
            while i < raw.len()
                invariant
                    i <= raw.len(),
                    out@ == raw@.subrange(0, i as int),
                decreases raw.len() - i,
            {
                out.push(raw[i]);
                assert(out@ =~= raw@.subrange(0, i + 1 as int));
                i += 1;
            }
            assert(out@ =~= raw@);
            stripped = out;
        }
        if utf8_valid(stripped.as_slice()) {
            Ok(Text { bytes: stripped })
        } else {
            Err(FileError::InvalidEncoding)
        }
    }

    /// The decoded bytes.
    pub fn as_bytes(&self) -> (r: &Vec<u8>)
        ensures
            r@ == self@,
    {
        &self.bytes
    }

    /// The length of the text in bytes.
    pub fn len(&self) -> (r: usize)
        ensures
            r == self@.len(),
    {
        self.bytes.len()
    }

    /// The number of the line containing the given byte offset, 0-indexed.
    ///
    /// Every byte offset up to and including the text length has a line;
    /// offsets past the end are out of range.
    pub fn byte_to_line(&self, offset: usize) -> (r: Result<usize, MapError>)
        ensures
            offset <= self@.len() ==> r == Ok::<usize, MapError>(
                line_of(self@, offset as int) as usize,
            ),
            offset > self@.len() ==> r == Err::<usize, MapError>(MapError::OutOfRange),
    {
        if offset > self.bytes.len() {
            return Err(MapError::OutOfRange);
        }
        let mut count: usize = 0;
        let mut i: usize = 0;
        while i < offset
            invariant
                i <= offset <= self.bytes@.len(),
                count == line_of(self.bytes@, i as int),
                count <= i,
            decreases offset - i,
        {
            if self.bytes[i] == 10u8 {
                count += 1;
            }
            i += 1;
        }
        Ok(count)
    }

    /// The byte range `[start, end)` of a 0-indexed line, where `end` is the
    /// start of the next line (so the range includes the line's newline) or
    /// the end of the text for the last line.
    pub fn line_to_range(&self, line: usize) -> (r: Result<(usize, usize), MapError>)
        ensures
            line <= line_of(self@, self@.len() as int) ==> (r matches Ok(p) && p.0 == line_start(
                self@,
                line as int,
            ) && p.1 == line_end(self@, line as int)),
            line > line_of(self@, self@.len() as int) ==> r == Err::<(usize, usize), MapError>(
                MapError::OutOfRange,
            ),
    {
        let n = self.bytes.len();
        let mut i: usize = 0;
        let mut remaining: usize = line;
        while remaining > 0 && i < n
            invariant
                i <= n,
                n == self.bytes@.len(),
                remaining <= line,
                line_start(self.bytes@, line as int) == line_start_from(
                    self.bytes@,
                    i as int,
                    remaining as int,
                ),
                line - remaining == line_of(self.bytes@, i as int),
            decreases n - i,
        {
            if self.bytes[i] == 10u8 {
                remaining -= 1;
            }
            i += 1;
        }
        if remaining > 0 {
            // Fewer lines than asked for: the line number is out of range.
            proof {
                lemma_line_of_no_more_newlines(self.bytes@, i as int);
            }
            return Err(MapError::OutOfRange);
        }
        let start = i;
        assert(start == line_start(self.bytes@, line as int));
        let mut j: usize = start;
        while j < n && self.bytes[j] != 10u8
            invariant
                start <= j <= n,
                n == self.bytes@.len(),
                forall|k: int| start <= k < j ==> self.bytes@[k] != 10u8,
            decreases n - j,
        {
            j += 1;
        }
        let end = if j < n {
            j + 1
        } else {
            n
        };
        proof {
            lemma_line_end(self.bytes@, line as int, start as int, j as int);
            lemma_line_of_le(self.bytes@, start as int, self.bytes@.len() as int);
        }
        Ok((start, end))
    }

    /// The 0-indexed column of a byte offset: the number of characters
    /// between the start of its line and the offset.
    ///
    /// An offset past the end of the text is out of range; an offset in the
    /// middle of a character's encoding is an invalid boundary.
    pub fn byte_to_column(&self, offset: usize) -> (r: Result<usize, MapError>)
        ensures
            offset > self@.len() ==> r == Err::<usize, MapError>(MapError::OutOfRange),
            offset <= self@.len() && !(offset == self@.len() || is_char_start(
                self@[offset as int],
            )) ==> r == Err::<usize, MapError>(MapError::InvalidBoundary),
            offset <= self@.len() && (offset == self@.len() || is_char_start(self@[offset as int]))
                ==> r == Ok::<usize, MapError>(column_of(self@, offset as int) as usize),
    {
        if offset > self.bytes.len() {
            return Err(MapError::OutOfRange);
        }
        if offset < self.bytes.len() && !(self.bytes[offset] < 128u8 || self.bytes[offset]
            >= 192u8) {
            return Err(MapError::InvalidBoundary);
        }
        let mut col: usize = 0;
        let mut i: usize = 0;
        while i < offset
            invariant
                i <= offset <= self.bytes@.len(),
                col == column_of(self.bytes@, i as int),
                col <= i,
            decreases offset - i,
        {
            let b = self.bytes[i];
            if b == 10u8 {
                col = 0;
            } else if b < 128u8 || b >= 192u8 {
                col += 1;
            }
            i += 1;
        }
        Ok(col)
    }
}

impl PartialEq for Text {
    fn eq(&self, other: &Self) -> (r: bool) {
        crate::strings::bytes_eq(&self.bytes, &other.bytes)
    }
}

impl vstd::std_specs::cmp::PartialEqSpecImpl for Text {
    open spec fn obeys_eq_spec() -> bool {
        true
    }

    open spec fn eq_spec(&self, other: &Self) -> bool {
        self@ == other@
    }
}

impl Clone for Text {
    fn clone(&self) -> (r: Self)
        ensures
            r@ == self@,
    {
        Text { bytes: crate::store::copy_bytes(&self.bytes) }
    }
}

/// A byte begins a character's UTF-8 encoding iff it is not a continuation
/// byte.
pub open spec fn is_char_start(b: u8) -> bool {
    b < 128 || b >= 192
}

/// The 0-indexed line containing a byte offset: the number of newline bytes
/// before it.
pub open spec fn line_of(s: Seq<u8>, off: int) -> int
    decreases off,
{
    if off <= 0 {
        0
    } else {
        line_of(s, off - 1) + if s[off - 1] == 10 {
            1int
        } else {
            0int
        }
    }
}

/// The 0-indexed column of a byte offset: characters since the last newline.
pub open spec fn column_of(s: Seq<u8>, off: int) -> int
    decreases off,
{
    if off <= 0 {
        0
    } else if s[off - 1] == 10 {
        0
    } else {
        column_of(s, off - 1) + if is_char_start(s[off - 1]) {
            1int
        } else {
            0int
        }
    }
}

/// Scan from offset `i` past `line` further newlines; the text length plus
/// one marks that there are not enough newlines left.
pub open spec fn line_start_from(s: Seq<u8>, i: int, line: int) -> int
    decreases s.len() - i,
{
    if line <= 0 {
        i
    } else if i >= s.len() {
        s.len() as int + 1
    } else if s[i] == 10 {
        line_start_from(s, i + 1, line - 1)
    } else {
        line_start_from(s, i + 1, line)
    }
}

/// The byte offset at which a 0-indexed line starts.
pub open spec fn line_start(s: Seq<u8>, line: int) -> int {
    line_start_from(s, 0, line)
}

/// The byte offset at which a 0-indexed line ends: the start of the next
/// line, or the end of the text for the last line.
pub open spec fn line_end(s: Seq<u8>, line: int) -> int {
    if line_start(s, line + 1) > s.len() {
        s.len() as int
    } else {
        line_start(s, line + 1)
    }
}

/// If the scan for a line start has consumed the whole text, there are no
/// further lines: the line count of the text is the line at the end.
proof fn lemma_line_of_no_more_newlines(s: Seq<u8>, i: int)
    requires
        0 <= i <= s.len(),
        forall|k: int| i <= k < s.len() ==> s[k] != 10,
    ensures
        line_of(s, s.len() as int) == line_of(s, i),
    decreases s.len() - i,
{
    if i < s.len() {
        lemma_line_of_no_more_newlines(s, i + 1);
    }
}

/// The line of an offset is bounded by the offset itself.
pub proof fn lemma_line_of_bounds(s: Seq<u8>, off: int)
    requires
        0 <= off,
    ensures
        0 <= line_of(s, off) <= off,
    decreases off,
{
    if off > 0 {
        lemma_line_of_bounds(s, off - 1);
    }
}

/// The column of an offset is bounded by the offset itself.
pub proof fn lemma_column_of_bounds(s: Seq<u8>, off: int)
    requires
        0 <= off,
    ensures
        0 <= column_of(s, off) <= off,
    decreases off,
{
    if off > 0 {
        lemma_column_of_bounds(s, off - 1);
    }
}

/// `line_of` only grows with the offset.
proof fn lemma_line_of_le(s: Seq<u8>, i: int, j: int)
    requires
        0 <= i <= j,
    ensures
        line_of(s, i) <= line_of(s, j),
    decreases j - i,
{
    if i < j {
        lemma_line_of_le(s, i, j - 1);
    }
}

/// After the start of a line, the next newline closes the line: scanning one
/// more line from its start lands just past that newline, or past the end of
/// the text when the line is the last one.
proof fn lemma_line_end(s: Seq<u8>, line: int, start: int, j: int)
    requires
        line >= 0,
        0 <= start <= j <= s.len(),
        start == line_start(s, line),
        forall|k: int| start <= k < j ==> s[k] != 10,
        j < s.len() ==> s[j] == 10,
    ensures
        j < s.len() ==> line_start(s, line + 1) == j + 1,
        j >= s.len() ==> line_start(s, line + 1) > s.len(),
{
    lemma_line_start_step(s, 0, line, start, j);
}

/// A scan for a line start never moves backwards.
proof fn lemma_line_start_from_ge(s: Seq<u8>, i: int, line: int)
    requires
        0 <= i <= s.len(),
        line >= 0,
    ensures
        line_start_from(s, i, line) >= i,
    decreases s.len() - i,
{
    if line > 0 && i < s.len() {
        lemma_line_start_from_ge(s, i + 1, if s[i] == 10 { line - 1 } else { line });
    }
}

/// Unfolds `line_start_from` across a newline-free stretch.
proof fn lemma_line_start_step(s: Seq<u8>, i: int, line: int, start: int, j: int)
    requires
        0 <= i <= s.len(),
        line >= 0,
        start == line_start_from(s, i, line),
        start <= j <= s.len(),
        forall|k: int| start <= k < j ==> s[k] != 10,
        j < s.len() ==> s[j] == 10,
    ensures
        j < s.len() ==> line_start_from(s, i, line + 1) == j + 1,
        j >= s.len() ==> line_start_from(s, i, line + 1) > s.len(),
    decreases s.len() - i + 1,
{
    lemma_line_start_from_ge(s, i, line);
    if line == 0 {
        // start == i: walk from i to j through non-newline bytes.
        lemma_line_start_walk(s, i, j);
    } else if s[i] == 10 {
        lemma_line_start_step(s, i + 1, line - 1, start, j);
    } else {
        lemma_line_start_step(s, i + 1, line, start, j);
    }
}

/// Scanning for one newline from `i` through a newline-free stretch reaches
/// just past the closing newline, or runs off the end.
proof fn lemma_line_start_walk(s: Seq<u8>, i: int, j: int)
    requires
        0 <= i <= j <= s.len(),
        forall|k: int| i <= k < j ==> s[k] != 10,
        j < s.len() ==> s[j] == 10,
    ensures
        j < s.len() ==> line_start_from(s, i, 1) == j + 1,
        j >= s.len() ==> line_start_from(s, i, 1) > s.len(),
    decreases j - i,
{
    if i < j {
        lemma_line_start_walk(s, i + 1, j);
    } else {
        if j < s.len() {
            assert(line_start_from(s, j + 1, 0) == j + 1);
            assert(line_start_from(s, i, 1) == j + 1);
        }
    }
}

} // verus!
