//! Position mapper: translates between editor positions (0-based line plus
//! UTF-16 code-unit column) and byte offsets into the document text.
//!
//! The document text is held as a sequence of Unicode scalar values; byte
//! offsets refer to its UTF-8 encoding. A line terminator is `'\n'`, which
//! belongs to the line it ends; the following line starts immediately after.

use vstd::prelude::*;

use crate::error::TyError;

verus! {

/// An editor-space position: 0-based row and 0-based UTF-16 code-unit column.
#[derive(Clone, Copy, Debug, PartialEq, Eq, Structural)]
pub struct Position {
    pub line: u32,
    pub character: u32,
}

/// Bytes the character occupies in UTF-8.
pub open spec fn utf8_len(c: char) -> nat {
    if (c as u32) < 0x80 {
        1nat
    } else if (c as u32) < 0x800 {
        2nat
    } else if (c as u32) < 0x10000 {
        3nat
    } else {
        4nat
    }
}

/// UTF-16 code units the character occupies: 2 for supplementary-plane
/// characters (surrogate pairs), 1 otherwise.
pub open spec fn utf16_len(c: char) -> nat {
    if (c as u32) < 0x10000 {
        1nat
    } else {
        2nat
    }
}

/// Byte length of the UTF-8 encoding of the first `n` characters.
pub open spec fn bytes_up_to(s: Seq<char>, n: int) -> nat
    decreases n,
{
    if n <= 0 {
        0nat
    } else {
        bytes_up_to(s, n - 1) + utf8_len(s[n - 1])
    }
}

/// Byte length of the whole text in UTF-8.
pub open spec fn byte_len(s: Seq<char>) -> nat {
    bytes_up_to(s, s.len() as int)
}

/// `o` is a byte offset that falls on a character boundary (the end counts).
pub open spec fn is_boundary(s: Seq<char>, o: nat) -> bool {
    exists|i: int| 0 <= i <= s.len() && bytes_up_to(s, i) == o
}

/// The character index whose byte offset is `o`; meaningful when
/// `is_boundary(s, o)` holds (it is then unique).
pub open spec fn char_index_of(s: Seq<char>, o: nat) -> int {
    choose|i: int| 0 <= i <= s.len() && bytes_up_to(s, i) == o
}

/// Line number (count of `'\n'` terminators) before character index `i`.
pub open spec fn line_of(s: Seq<char>, i: int) -> nat
    decreases i,
{
    if i <= 0 {
        0nat
    } else if s[i - 1] == '\n' {
        line_of(s, i - 1) + 1
    } else {
        line_of(s, i - 1)
    }
}

/// UTF-16 column of character index `i` within its line.
pub open spec fn col16_of(s: Seq<char>, i: int) -> nat
    decreases i,
{
    if i <= 0 {
        0nat
    } else if s[i - 1] == '\n' {
        0nat
    } else {
        col16_of(s, i - 1) + utf16_len(s[i - 1])
    }
}

/// The editor position of the character at byte offset `o`.
pub open spec fn position_of(s: Seq<char>, o: nat) -> (nat, nat) {
    (line_of(s, char_index_of(s, o)), col16_of(s, char_index_of(s, o)))
}

/// Character index where line `line` starts, scanning from index `j` with
/// `line` terminators still to cross; one past the end marks a missing line.
pub open spec fn scan_line_start(s: Seq<char>, j: int, line: nat) -> int
    decreases s.len() - j,
{
    if line == 0 {
        j
    } else if j < 0 || j >= s.len() {
        s.len() as int + 1
    } else if s[j] == '\n' {
        scan_line_start(s, j + 1, (line - 1) as nat)
    } else {
        scan_line_start(s, j + 1, line)
    }
}

/// Character index reached from line start `j` after consuming `c` UTF-16
/// units: clamps at the line end, and a `c` that lands inside a surrogate
/// pair rounds down to the start of that character.
pub open spec fn advance_utf16(s: Seq<char>, j: int, c: nat) -> int
    decreases s.len() - j,
{
    if j < 0 || j >= s.len() {
        j
    } else if s[j] == '\n' {
        j
    } else if utf16_len(s[j]) <= c {
        advance_utf16(s, j + 1, (c - utf16_len(s[j])) as nat)
    } else {
        j
    }
}

/// The character index an editor position denotes, or nothing when the line
/// lies beyond the document's last line.
pub open spec fn char_index_at(s: Seq<char>, line: nat, character: nat) -> Option<int> {
    if line > line_of(s, s.len() as int) {
        None
    } else {
        Some(advance_utf16(s, scan_line_start(s, 0, line), character))
    }
}

/// The byte offset an editor position denotes, or nothing when the line lies
/// beyond the document's last line.
pub open spec fn offset_at(s: Seq<char>, line: nat, character: nat) -> Option<nat> {
    match char_index_at(s, line, character) {
        Some(i) => Some(bytes_up_to(s, i)),
        None => None,
    }
}

/// Start of the line containing character index `i`: the greatest index at
/// or below `i` that is 0 or preceded by a terminator.
pub open spec fn line_start_index(s: Seq<char>, i: int) -> int
    decreases i,
{
    if i <= 0 {
        0
    } else if s[i - 1] == '\n' {
        i
    } else {
        line_start_index(s, i - 1)
    }
}

/// Byte counts grow by each character's width: prefixes of longer prefixes
/// cost no more bytes, and strictly fewer than any extension.
pub proof fn lemma_bytes_up_to_monotone(s: Seq<char>, j: int, i: int)
    requires
        0 <= j <= i,
    ensures
        bytes_up_to(s, j) <= bytes_up_to(s, i),
        j < i ==> bytes_up_to(s, j) < bytes_up_to(s, i),
    decreases i - j,
{
    if j < i {
        lemma_bytes_up_to_monotone(s, j, i - 1);
    }
}

/// Two boundary indices with the same byte offset coincide.
pub proof fn lemma_boundary_index_unique(s: Seq<char>, i1: int, i2: int)
    requires
        bytes_up_to(s, i1) == bytes_up_to(s, i2),
        0 <= i1,
        0 <= i2,
    ensures
        i1 == i2,
{
    if i1 < i2 {
        lemma_bytes_up_to_monotone(s, i1, i2);
    }
    if i2 < i1 {
        lemma_bytes_up_to_monotone(s, i2, i1);
    }
}

/// Line numbers never decrease along the text.
pub proof fn lemma_line_of_monotone(s: Seq<char>, j: int, i: int)
    requires
        j <= i,
    ensures
        line_of(s, j) <= line_of(s, i),
    decreases i - j,
{
    if j < i {
        lemma_line_of_monotone(s, j, i - 1);
    }
}

/// A terminator strictly between two indices strictly raises the line number.
pub proof fn lemma_newline_raises_line(s: Seq<char>, j: int, k: int, i: int)
    requires
        0 <= j <= k < i,
        s[k] == '\n',
    ensures
        line_of(s, j) < line_of(s, i),
{
    lemma_line_of_monotone(s, j, k);
    lemma_line_of_monotone(s, k + 1, i);
}

/// Lines, columns and indices are all bounded by the byte count.
pub proof fn lemma_counts_bounded(s: Seq<char>, i: int)
    requires
        0 <= i,
    ensures
        line_of(s, i) <= i,
        i <= bytes_up_to(s, i),
        col16_of(s, i) <= bytes_up_to(s, i),
    decreases i,
{
    if i > 0 {
        lemma_counts_bounded(s, i - 1);
    }
}

/// Facts about the start of the line containing index `i`: it is a line
/// start, nothing between it and `i` ends a line, and it shares the line
/// number of `i` while its column is zero.
pub proof fn lemma_line_start_index(s: Seq<char>, i: int)
    requires
        0 <= i <= s.len(),
    ensures
        0 <= line_start_index(s, i) <= i,
        line_start_index(s, i) == 0 || s[line_start_index(s, i) - 1] == '\n',
        forall|k: int| line_start_index(s, i) <= k < i ==> s[k] != '\n',
        line_of(s, line_start_index(s, i)) == line_of(s, i),
        col16_of(s, line_start_index(s, i)) == 0,
    decreases i,
{
    if i > 0 && s[i - 1] != '\n' {
        lemma_line_start_index(s, i - 1);
    }
}

/// Scanning for the line of `i` from anywhere at or before that line's start
/// lands exactly on the line's start.
pub proof fn lemma_scan_reaches_line_start(s: Seq<char>, j: int, i: int)
    requires
        0 <= i <= s.len(),
        0 <= j <= line_start_index(s, i),
        line_of(s, j) <= line_of(s, i),
    ensures
        scan_line_start(s, j, (line_of(s, i) - line_of(s, j)) as nat) == line_start_index(s, i),
    decreases line_start_index(s, i) - j,
{
    lemma_line_start_index(s, i);
    let start = line_start_index(s, i);
    if j == start {
        assert(line_of(s, j) == line_of(s, i));
    } else {
        assert(s[start - 1] == '\n');
        lemma_newline_raises_line(s, j, start - 1, i);
        if s[j] == '\n' {
            lemma_line_of_monotone(s, j + 1, i);
            lemma_scan_reaches_line_start(s, j + 1, i);
        } else {
            lemma_line_of_monotone(s, j + 1, i);
            lemma_scan_reaches_line_start(s, j + 1, i);
        }
    }
}

/// Columns never decrease between a line's start and an index on that line.
pub proof fn lemma_col16_monotone(s: Seq<char>, j: int, i: int)
    requires
        0 <= i <= s.len(),
        line_start_index(s, i) <= j <= i,
    ensures
        col16_of(s, j) <= col16_of(s, i),
    decreases i - j,
{
    lemma_line_start_index(s, i);
    if j < i {
        assert(s[i - 1] != '\n');
        assert(line_start_index(s, i) == line_start_index(s, i - 1));
        lemma_col16_monotone(s, j, i - 1);
        assert(col16_of(s, i) == col16_of(s, i - 1) + utf16_len(s[i - 1]));
    }
}

/// Consuming exactly the column budget of `i` from any index between the
/// line start and `i` lands exactly on `i`.
pub proof fn lemma_advance_reaches(s: Seq<char>, j: int, i: int)
    requires
        0 <= i <= s.len(),
        line_start_index(s, i) <= j <= i,
        col16_of(s, j) <= col16_of(s, i),
    ensures
        advance_utf16(s, j, (col16_of(s, i) - col16_of(s, j)) as nat) == i,
    decreases i - j,
{
    lemma_line_start_index(s, i);
    if j == i {
        let c = (col16_of(s, i) - col16_of(s, j)) as nat;
        assert(c == 0);
        if 0 <= j < s.len() && s[j] != '\n' {
            assert(utf16_len(s[j]) >= 1);
        }
    } else {
        assert(s[j] != '\n');
        assert(col16_of(s, j + 1) == col16_of(s, j) + utf16_len(s[j]));
        assert(line_start_index(s, i) <= j + 1 <= i);
        lemma_col16_monotone(s, j + 1, i);
        lemma_advance_reaches(s, j + 1, i);
    }
}

/// Round-trip at the character level: the position computed for a character
/// index maps back to exactly that index, and so to the same byte offset.
pub proof fn lemma_round_trip_index(s: Seq<char>, i: int)
    requires
        0 <= i <= s.len(),
    ensures
        char_index_at(s, line_of(s, i), col16_of(s, i)) == Some(i),
        offset_at(s, line_of(s, i), col16_of(s, i)) == Some(bytes_up_to(s, i)),
{
    lemma_line_of_monotone(s, i, s.len() as int);
    lemma_line_start_index(s, i);
    lemma_scan_reaches_line_start(s, 0, i);
    lemma_col16_monotone(s, line_start_index(s, i), i);
    lemma_advance_reaches(s, line_start_index(s, i), i);
}

/// Round-trip at the byte level: for every boundary offset `o` of the text,
/// translating `o` to a position and back yields `o` again.
pub proof fn lemma_round_trip(s: Seq<char>, o: nat)
    requires
        is_boundary(s, o),
    ensures
        offset_at(s, position_of(s, o).0, position_of(s, o).1) == Some(o),
{
    let i = char_index_of(s, o);
    assert(0 <= i <= s.len() && bytes_up_to(s, i) == o);
    lemma_round_trip_index(s, i);
}

/// UTF-8 width of a character, executable form.
pub fn utf8_len_of(c: char) -> (r: usize)
    ensures
        r == utf8_len(c),
        1 <= r <= 4,
{
    let u = c as u32;
    if u < 0x80 {
        1
    } else if u < 0x800 {
        2
    } else if u < 0x10000 {
        3
    } else {
        4
    }
}

/// UTF-16 width of a character, executable form.
pub fn utf16_len_of(c: char) -> (r: u32)
    ensures
        r == utf16_len(c),
        1 <= r <= 2,
{
    let u = c as u32;
    if u < 0x10000 {
        1
    } else {
        2
    }
}

/// Translate an editor position to a byte offset. A column beyond the line's
/// end clamps to the line end; a column inside a surrogate pair rounds down
/// to the character's start; a line beyond the last line is rejected.
pub fn to_offset(text: &Vec<char>, pos: Position) -> (r: Result<usize, TyError>)
    requires
        byte_len(text@) <= usize::MAX,
    ensures
        match r {
            Ok(o) => {
                &&& offset_at(text@, pos.line as nat, pos.character as nat) == Some(o as nat)
                &&& is_boundary(text@, o as nat)
                &&& o <= byte_len(text@)
            },
            Err(e) => {
                &&& e == TyError::PositionOutOfRange
                &&& offset_at(text@, pos.line as nat, pos.character as nat) is None
            },
        },
{
    let ghost s = text@;
    let n = text.len();
    let mut j: usize = 0;
    let mut off: usize = 0;
    let mut line: u32 = 0;
    while line < pos.line && j < n
        invariant
            s == text@,
            j <= n,
            n == s.len(),
            byte_len(s) <= usize::MAX,
            off == bytes_up_to(s, j as int),
            line == line_of(s, j as int),
            line <= pos.line,
            line < pos.line ==> scan_line_start(s, 0, pos.line as nat) == scan_line_start(
                s,
                j as int,
                (pos.line - line) as nat,
            ),
            line == pos.line ==> scan_line_start(s, 0, pos.line as nat) == j as int,
        decreases n - j,
    {
        let ghost j0 = j as int;
        let ghost line0 = line;
        let c = text[j];
        proof {
            lemma_bytes_up_to_monotone(s, j as int + 1, n as int);
        }
        if c == '\n' {
            line = line + 1;
        }
        off = off + utf8_len_of(c);
        j = j + 1;
        proof {
            assert(scan_line_start(s, j0, (pos.line - line0) as nat) == scan_line_start(
                s,
                j as int,
                (pos.line - line) as nat,
            ));
        }
    }
    if line < pos.line {
        proof {
            assert(j == n);
            assert(line_of(s, s.len() as int) < pos.line as nat);
        }
        return Err(TyError::PositionOutOfRange);
    }
    proof {
        lemma_line_of_monotone(s, j as int, n as int);
    }
    let ghost start = j as int;
    let mut k = j;
    let mut rem: u32 = pos.character;
    loop
        invariant_except_break
            s == text@,
            k <= n,
            n == s.len(),
            byte_len(s) <= usize::MAX,
            off == bytes_up_to(s, k as int),
            advance_utf16(s, start, pos.character as nat) == advance_utf16(s, k as int, rem as nat),
        ensures
            k <= n,
            n == s.len(),
            off == bytes_up_to(s, k as int),
            advance_utf16(s, start, pos.character as nat) == k as int,
        decreases n - k,
    {
        if k == n {
            break ;
        }
        let c = text[k];
        if c == '\n' {
            break ;
        }
        let l = utf16_len_of(c);
        if l > rem {
            break ;
        }
        proof {
            lemma_bytes_up_to_monotone(s, k as int + 1, n as int);
        }
        rem = rem - l;
        off = off + utf8_len_of(c);
        k = k + 1;
    }
    proof {
        lemma_bytes_up_to_monotone(s, k as int, n as int);
        assert(offset_at(s, pos.line as nat, pos.character as nat) == Some(
            bytes_up_to(s, k as int),
        )) by {
            assert(char_index_at(s, pos.line as nat, pos.character as nat) == Some(k as int));
        }
    }
    Ok(off)
}


/// Translate a boundary byte offset back to an editor position. The result
/// round-trips: mapping it through `to_offset` yields the same offset.
pub fn to_position(text: &Vec<char>, offset: usize) -> (r: Position)
    requires
        is_boundary(text@, offset as nat),
        byte_len(text@) <= u32::MAX,
    ensures
        r.line as nat == position_of(text@, offset as nat).0,
        r.character as nat == position_of(text@, offset as nat).1,
        offset_at(text@, r.line as nat, r.character as nat) == Some(offset as nat),
{
    let ghost s = text@;
    let n = text.len();
    let mut i: usize = 0;
    let mut b: usize = 0;
    let mut line: u32 = 0;
    let mut col: u32 = 0;
    while b < offset
        invariant
            s == text@,
            i <= n,
            n == s.len(),
            byte_len(s) <= u32::MAX,
            b == bytes_up_to(s, i as int),
            line == line_of(s, i as int),
            col == col16_of(s, i as int),
            b <= offset,
            exists|m: int| i <= m <= n && bytes_up_to(s, m) == offset as nat,
        decreases n - i,
    {
        proof {
            let m = choose|m: int| i <= m <= n && bytes_up_to(s, m) == offset as nat;
            if m == i {
                assert(false);
            }
            lemma_counts_bounded(s, i as int + 1);
            lemma_bytes_up_to_monotone(s, i as int + 1, m);
            lemma_bytes_up_to_monotone(s, i as int + 1, n as int);
            assert(i as int + 1 <= m <= n && bytes_up_to(s, m) == offset as nat);
        }
        let c = text[i];
        if c == '\n' {
            line = line + 1;
            col = 0;
        } else {
            col = col + utf16_len_of(c);
        }
        b = b + utf8_len_of(c);
        i = i + 1;
    }
    proof {
        assert(b == offset);
        let ci = char_index_of(s, offset as nat);
        assert(0 <= ci <= s.len() && bytes_up_to(s, ci) == offset as nat) by {
            assert(0 <= i as int <= s.len() && bytes_up_to(s, i as int) == offset as nat);
        }
        lemma_boundary_index_unique(s, ci, i as int);
        lemma_round_trip_index(s, i as int);
    }
    Position { line, character: col }
}

} // verus!
