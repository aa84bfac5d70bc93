//! Squares of the board, as row/column coordinates together with the index
//! into the 64-entry board array, and the textual square notation.

use vstd::prelude::*;

verus! {

/// A square of the board.  `row` 0 is the rank nearest White's own back rank,
/// `col` 0 is file 'a', and `idx` is the index of the square in the board
/// array, `8 * row + col`.
///
/// Every square handed out by the constructors is in range (`wf` holds);
/// construction from an out-of-range row, column, index or offset fails
/// rather than wrapping or clamping.
#[derive(Copy, Clone, Debug, PartialEq, Eq, Structural, Hash)]
pub struct Position {
    pub row: usize,
    pub col: usize,
    pub idx: usize,
}

impl Position {
    /// The square lies on the board and its index agrees with its coordinates.
    pub open spec fn wf(self) -> bool {
        self.row < 8 && self.col < 8 && self.idx == 8 * self.row + self.col
    }

    /// Parses a square from its row and column, both indices 0-7.
    ///
    /// Returns `Ok` exactly when both indices are in range.
    pub fn new(row: usize, col: usize) -> (r: Result<Position, String>)
        ensures
            r is Ok <==> row < 8 && col < 8,
            r matches Ok(p) ==> p.wf() && p.row == row && p.col == col,
            r matches Err(e) ==> e@ == "Invalid row or col input. Input should be between 0-7."@,
    {
        if row > 7 || col > 7 {
            return Err(String::from_str(
                "Invalid row or col input. Input should be between 0-7.",
            ));
        }
        Ok(Position { row, col, idx: row * 8 + col })
    }

    /// Parses a square from its index 0-63 in the board array.
    ///
    /// Returns `Ok` exactly when the index is in range.
    pub fn new_from_idx(idx: usize) -> (r: Result<Position, String>)
        ensures
            r is Ok <==> idx < 64,
            r matches Ok(p) ==> p.wf() && p.idx == idx,
            r matches Err(e) ==> e@ == "Invalid idx input. Input should be between 0-63."@,
    {
        if idx > 63 {
            return Err(String::from_str("Invalid idx input. Input should be between 0-63."));
        }
        Ok(Position { row: idx / 8, col: idx % 8, idx })
    }

    /// Moves the square by `offset`, given as (row offset, column offset).
    ///
    /// Succeeds exactly when the new coordinates are still on the board; on
    /// failure the square is left unchanged.
    pub fn offset_self(&mut self, offset: (i32, i32)) -> (r: Result<bool, String>)
        requires
            old(self).wf(),
        ensures
            final(self).wf(),
            r is Ok <==> (0 <= old(self).row + offset.0 < 8 && 0 <= old(self).col + offset.1
                < 8),
            r is Ok ==> final(self).row == old(self).row + offset.0 && final(self).col == old(
                self,
            ).col + offset.1,
            r is Err ==> *final(self) == *old(self),
            r matches Err(e) ==> e@ == "New position not on board."@,
    {
        let row_result: i64 = self.row as i64 + offset.0 as i64;
        let col_result: i64 = self.col as i64 + offset.1 as i64;

        if row_result < 0 || row_result > 7 || col_result < 0 || col_result > 7 {
            return Err(String::from_str("New position not on board."));
        }

        self.row = row_result as usize;
        self.col = col_result as usize;
        self.idx = self.row * 8 + self.col;
        Ok(true)
    }
}


/// Every position of the list is well formed.
pub open spec fn all_wf(ps: Seq<Position>) -> bool {
    forall|k: int| 0 <= k < ps.len() ==> (#[trigger] ps[k]).wf()
}

/// The board indices of a list of positions, in order.
pub open spec fn dest_idxs(ps: Seq<Position>) -> Seq<int> {
    ps.map_values(|p: Position| p.idx as int)
}

/// The list of positions `ps` denotes exactly the list of board indices
/// `ds`: same length, in the same order, every position well formed.
pub open spec fn positions_match(ps: Seq<Position>, ds: Seq<int>) -> bool {
    all_wf(ps) && dest_idxs(ps) == ds
}


/// The ASCII whitespace that is ignored around square notation.
pub open spec fn is_space(c: char) -> bool {
    c == ' ' || c == '\t' || c == '\n' || c == '\r'
}

/// `s` with its leading whitespace removed.
pub open spec fn trim_front(s: Seq<char>) -> Seq<char>
    decreases s.len(),
{
    if s.len() > 0 && is_space(s[0]) {
        trim_front(s.drop_first())
    } else {
        s
    }
}

/// `s` with its trailing whitespace removed.
pub open spec fn trim_back(s: Seq<char>) -> Seq<char>
    decreases s.len(),
{
    if s.len() > 0 && is_space(s.last()) {
        trim_back(s.drop_last())
    } else {
        s
    }
}

/// `s` with whitespace removed on both sides.
pub open spec fn trimmed(s: Seq<char>) -> Seq<char> {
    trim_back(trim_front(s))
}

/// The column named by a file letter 'a'-'h', in either case.
pub open spec fn col_from_char(c: char) -> Option<int> {
    if c == 'a' || c == 'A' {
        Some(0int)
    } else if c == 'b' || c == 'B' {
        Some(1int)
    } else if c == 'c' || c == 'C' {
        Some(2int)
    } else if c == 'd' || c == 'D' {
        Some(3int)
    } else if c == 'e' || c == 'E' {
        Some(4int)
    } else if c == 'f' || c == 'F' {
        Some(5int)
    } else if c == 'g' || c == 'G' {
        Some(6int)
    } else if c == 'h' || c == 'H' {
        Some(7int)
    } else {
        None
    }
}

/// The row named by a rank digit '1'-'8'.
pub open spec fn row_from_char(c: char) -> Option<int> {
    if c == '1' {
        Some(0int)
    } else if c == '2' {
        Some(1int)
    } else if c == '3' {
        Some(2int)
    } else if c == '4' {
        Some(3int)
    } else if c == '5' {
        Some(4int)
    } else if c == '6' {
        Some(5int)
    } else if c == '7' {
        Some(6int)
    } else if c == '8' {
        Some(7int)
    } else {
        None
    }
}

/// What a piece of square notation denotes: after trimming, exactly one
/// file letter 'a'-'h' (either case) followed by one rank digit '1'-'8',
/// giving the (row, column) pair; anything else denotes nothing.
pub open spec fn square_of_text(s: Seq<char>) -> Option<(int, int)> {
    let t = trimmed(s);
    if t.len() == 2 {
        if col_from_char(t[0]) is Some && row_from_char(t[1]) is Some {
            Some((row_from_char(t[1])->0, col_from_char(t[0])->0))
        } else {
            None
        }
    } else {
        None
    }
}

/// The file letter of column `col`, lower case.
pub open spec fn file_char(col: int) -> char {
    if col == 0 {
        'a'
    } else if col == 1 {
        'b'
    } else if col == 2 {
        'c'
    } else if col == 3 {
        'd'
    } else if col == 4 {
        'e'
    } else if col == 5 {
        'f'
    } else if col == 6 {
        'g'
    } else {
        'h'
    }
}

/// The rank digit of row `row`.
pub open spec fn rank_char(row: int) -> char {
    if row == 0 {
        '1'
    } else if row == 1 {
        '2'
    } else if row == 2 {
        '3'
    } else if row == 3 {
        '4'
    } else if row == 4 {
        '5'
    } else if row == 5 {
        '6'
    } else if row == 6 {
        '7'
    } else {
        '8'
    }
}

/// The two-character text naming the square at `row`, `col`.
pub open spec fn square_text(row: int, col: int) -> Seq<char> {
    seq![file_char(col), rank_char(row)]
}


/// The reason a piece of square notation is rejected, for texts that denote
/// no square: the wrong length after trimming, a first character that is no
/// file letter, or a second character that is no rank digit, in that order.
pub open spec fn parse_error_text(s: Seq<char>) -> Seq<char>
    recommends
        square_of_text(s) is None,
{
    if trimmed(s).len() != 2 {
        "Input is of invalid length."@
    } else if col_from_char(trimmed(s)[0]) is None {
        "First character of string invalid, should be some character between a-h"@
    } else {
        "Second character of string invalid, should be some number between 1-8"@
    }
}

/// Removing leading whitespace is skipping up to the first non-space
/// character.
proof fn lemma_trim_front_skip(s: Seq<char>, k: int)
    requires
        0 <= k <= s.len(),
        forall|j: int| 0 <= j < k ==> is_space(s[j]),
        k < s.len() ==> !is_space(s[k]),
    ensures
        trim_front(s) == s.skip(k),
    decreases k,
{
    if k == 0 {
        assert(s.skip(0) =~= s);
    } else {
        assert(is_space(s[0]));
        lemma_trim_front_skip(s.drop_first(), k - 1);
        assert(s.drop_first().skip(k - 1) =~= s.skip(k));
    }
}

/// Removing trailing whitespace is taking up to the last non-space
/// character.
proof fn lemma_trim_back_take(s: Seq<char>, m: int)
    requires
        0 <= m <= s.len(),
        forall|j: int| m <= j < s.len() ==> is_space(s[j]),
        m > 0 ==> !is_space(s[m - 1]),
    ensures
        trim_back(s) == s.take(m),
    decreases s.len(),
{
    if m == s.len() {
        if s.len() > 0 && is_space(s.last()) {
            assert(false);
        }
        assert(s.take(m) =~= s);
    } else {
        assert(is_space(s.last()));
        lemma_trim_back_take(s.drop_last(), m);
        assert(s.drop_last().take(m) =~= s.take(m));
    }
}

/// Whether `c` is one of the whitespace characters that square notation
/// ignores.
fn is_space_char(c: char) -> (r: bool)
    ensures
        r == is_space(c),
{
    c == ' ' || c == '\t' || c == '\n' || c == '\r'
}

impl Position {
    /// Parses a square from text such as `"e2"`: one file letter 'a'-'h'
    /// (either case) and one rank digit '1'-'8', with whitespace around the
    /// pair ignored.  Returns `Ok` exactly when the text denotes a square.
    pub fn parse_str(s: &str) -> (r: Result<Position, String>)
        ensures
            r is Ok <==> square_of_text(s@) is Some,
            r matches Ok(p) ==> (square_of_text(s@) matches Some(rc) && p.wf() && p.row == rc.0
                && p.col == rc.1),
            r matches Err(e) ==> e@ == parse_error_text(s@),
    {
        let n = s.unicode_len();
        let mut chars: Vec<char> = Vec::new();
        let mut i: usize = 0;
        while i < n
            invariant
                i <= n,
                n == s@.len(),
                chars@ =~= s@.take(i as int),
            decreases n - i,
        {
            chars.push(s.get_char(i));
            proof {
                assert(chars@ =~= s@.take(i as int + 1));
            }
            i += 1;
        }
        proof {
            assert(chars@ =~= s@);
        }

        let mut start: usize = 0;
        while start < chars.len() && is_space_char(chars[start])
            invariant
                start <= chars@.len(),
                forall|j: int| 0 <= j < start ==> is_space(chars@[j]),
            decreases chars@.len() - start,
        {
            start += 1;
        }
        let mut end: usize = chars.len();
        while end > start && is_space_char(chars[end - 1])
            invariant
                start <= end <= chars@.len(),
                forall|j: int| end <= j < chars@.len() ==> is_space(chars@[j]),
            decreases end,
        {
            end -= 1;
        }
        proof {
            lemma_trim_front_skip(s@, start as int);
            lemma_trim_back_take(s@.skip(start as int), end - start);
            assert(s@.skip(start as int).take(end - start) =~= s@.subrange(
                start as int,
                end as int,
            ));
            assert(trimmed(s@) == s@.subrange(start as int, end as int));
        }

        if end - start != 2 {
            return Err(String::from_str("Input is of invalid length."));
        }

        let c0 = chars[start];
        let c1 = chars[start + 1];
        proof {
            assert(trimmed(s@)[0] == c0);
            assert(trimmed(s@)[1] == c1);
        }

        let col: usize = match c0 {
            'a' | 'A' => 0,
            'b' | 'B' => 1,
            'c' | 'C' => 2,
            'd' | 'D' => 3,
            'e' | 'E' => 4,
            'f' | 'F' => 5,
            'g' | 'G' => 6,
            'h' | 'H' => 7,
            _ => {
                return Err(String::from_str(
                    "First character of string invalid, should be some character between a-h",
                ));
            },
        };

        let row: usize = match c1 {
            '1' => 0,
            '2' => 1,
            '3' => 2,
            '4' => 3,
            '5' => 4,
            '6' => 5,
            '7' => 6,
            '8' => 7,
            _ => {
                return Err(String::from_str(
                    "Second character of string invalid, should be some number between 1-8",
                ));
            },
        };

        Position::new(row, col)
    }

    /// The two-character lower-case text naming this square, the inverse of
    /// `parse_str` on well-formed squares.
    pub fn to_text(&self) -> (r: String)
        requires
            self.wf(),
        ensures
            r@ == square_text(self.row as int, self.col as int),
    {
        let mut out = String::new();
        match self.col {
            0 => {
                proof {
                    reveal_strlit("a");
                }
                out.append("a");
            },
            1 => {
                proof {
                    reveal_strlit("b");
                }
                out.append("b");
            },
            2 => {
                proof {
                    reveal_strlit("c");
                }
                out.append("c");
            },
            3 => {
                proof {
                    reveal_strlit("d");
                }
                out.append("d");
            },
            4 => {
                proof {
                    reveal_strlit("e");
                }
                out.append("e");
            },
            5 => {
                proof {
                    reveal_strlit("f");
                }
                out.append("f");
            },
            6 => {
                proof {
                    reveal_strlit("g");
                }
                out.append("g");
            },
            _ => {
                proof {
                    reveal_strlit("h");
                }
                out.append("h");
            },
        }
        match self.row {
            0 => {
                proof {
                    reveal_strlit("1");
                }
                out.append("1");
            },
            1 => {
                proof {
                    reveal_strlit("2");
                }
                out.append("2");
            },
            2 => {
                proof {
                    reveal_strlit("3");
                }
                out.append("3");
            },
            3 => {
                proof {
                    reveal_strlit("4");
                }
                out.append("4");
            },
            4 => {
                proof {
                    reveal_strlit("5");
                }
                out.append("5");
            },
            5 => {
                proof {
                    reveal_strlit("6");
                }
                out.append("6");
            },
            6 => {
                proof {
                    reveal_strlit("7");
                }
                out.append("7");
            },
            _ => {
                proof {
                    reveal_strlit("8");
                }
                out.append("8");
            },
        }
        proof {
            assert(out@ =~= square_text(self.row as int, self.col as int));
        }
        out
    }
}


/// ASCII case folding of one character: 'A'-'Z' map to 'a'-'z', everything
/// else is unchanged.
pub open spec fn lower_char(c: char) -> char {
    if c == 'A' {
        'a'
    } else if c == 'B' {
        'b'
    } else if c == 'C' {
        'c'
    } else if c == 'D' {
        'd'
    } else if c == 'E' {
        'e'
    } else if c == 'F' {
        'f'
    } else if c == 'G' {
        'g'
    } else if c == 'H' {
        'h'
    } else if c == 'I' {
        'i'
    } else if c == 'J' {
        'j'
    } else if c == 'K' {
        'k'
    } else if c == 'L' {
        'l'
    } else if c == 'M' {
        'm'
    } else if c == 'N' {
        'n'
    } else if c == 'O' {
        'o'
    } else if c == 'P' {
        'p'
    } else if c == 'Q' {
        'q'
    } else if c == 'R' {
        'r'
    } else if c == 'S' {
        's'
    } else if c == 'T' {
        't'
    } else if c == 'U' {
        'u'
    } else if c == 'V' {
        'v'
    } else if c == 'W' {
        'w'
    } else if c == 'X' {
        'x'
    } else if c == 'Y' {
        'y'
    } else if c == 'Z' {
        'z'
    } else {
        c
    }
}

/// ASCII case folding of a piece of text.
pub open spec fn lower_seq(s: Seq<char>) -> Seq<char> {
    s.map_values(|c: char| lower_char(c))
}

/// ASCII case folding of one character, executably.
pub fn lower_char_exec(c: char) -> (r: char)
    ensures
        r == lower_char(c),
{
    match c {
        'A' => 'a',
        'B' => 'b',
        'C' => 'c',
        'D' => 'd',
        'E' => 'e',
        'F' => 'f',
        'G' => 'g',
        'H' => 'h',
        'I' => 'i',
        'J' => 'j',
        'K' => 'k',
        'L' => 'l',
        'M' => 'm',
        'N' => 'n',
        'O' => 'o',
        'P' => 'p',
        'Q' => 'q',
        'R' => 'r',
        'S' => 's',
        'T' => 't',
        'U' => 'u',
        'V' => 'v',
        'W' => 'w',
        'X' => 'x',
        'Y' => 'y',
        'Z' => 'z',
        _ => c,
    }
}

/// The characters of `s`, trimmed of surrounding whitespace and case-folded
/// to lower case.
pub fn trimmed_lower_chars(s: &str) -> (r: Vec<char>)
    ensures
        r@ == lower_seq(trimmed(s@)),
{
    let n = s.unicode_len();
    let mut chars: Vec<char> = Vec::new();
    let mut i: usize = 0;
    while i < n
        invariant
            i <= n,
            n == s@.len(),
            chars@ =~= s@.take(i as int),
        decreases n - i,
    {
        chars.push(s.get_char(i));
        proof {
            assert(chars@ =~= s@.take(i as int + 1));
        }
        i += 1;
    }
    proof {
        assert(chars@ =~= s@);
    }

    let mut start: usize = 0;
    while start < chars.len() && is_space_char(chars[start])
        invariant
            start <= chars@.len(),
            forall|j: int| 0 <= j < start ==> is_space(chars@[j]),
        decreases chars@.len() - start,
    {
        start += 1;
    }
    let mut end: usize = chars.len();
    while end > start && is_space_char(chars[end - 1])
        invariant
            start <= end <= chars@.len(),
            forall|j: int| end <= j < chars@.len() ==> is_space(chars@[j]),
        decreases end,
    {
        end -= 1;
    }
    proof {
        lemma_trim_front_skip(s@, start as int);
        lemma_trim_back_take(s@.skip(start as int), end - start);
        assert(s@.skip(start as int).take(end - start) =~= s@.subrange(
            start as int,
            end as int,
        ));
        assert(trimmed(s@) == s@.subrange(start as int, end as int));
    }

    let mut out: Vec<char> = Vec::new();
    let mut j: usize = start;
    while j < end
        invariant
            start <= j <= end <= chars@.len(),
            chars@ =~= s@,
            out@.len() == j - start,
            forall|m: int|
                0 <= m < out@.len() ==> out@[m] == lower_char(s@[start as int + m]),
        decreases end - j,
    {
        out.push(lower_char_exec(chars[j]));
        j += 1;
    }
    proof {
        assert(out@ =~= lower_seq(trimmed(s@)));
    }
    out
}

/// Whether the character list `v` spells exactly the text `w`.
pub fn word_eq(v: &Vec<char>, w: &str) -> (r: bool)
    ensures
        r == (v@ == w@),
{
    let n = w.unicode_len();
    if v.len() != n {
        return false;
    }
    let mut i: usize = 0;
    while i < n
        invariant
            i <= n,
            n == w@.len(),
            v@.len() == n,
            forall|j: int| 0 <= j < i ==> v@[j] == w@[j],
        decreases n - i,
    {
        if v[i] != w.get_char(i) {
            return false;
        }
        i += 1;
    }
    proof {
        assert(v@ =~= w@);
    }
    true
}

} // verus!
