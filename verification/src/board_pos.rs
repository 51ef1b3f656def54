use vstd::prelude::*;
use crate::board_size::BoardSize;

verus! {

/// A 0-based board coordinate: column first, then row.
#[derive(Copy, Clone, PartialEq, Eq, Structural, Debug, Hash)]
pub struct BoardPos {
    pub col: u32,
    pub row: u32,
}

/// Absolute difference of two coordinates, as a mathematical integer.
pub open spec fn abs_diff(a: int, b: int) -> int {
    if a >= b {
        a - b
    } else {
        b - a
    }
}

/// Two squares are a knight's move apart iff the coordinate deltas are
/// (1, 2) or (2, 1) in absolute value.
pub open spec fn spec_is_knight_move(a: BoardPos, b: BoardPos) -> bool {
    let dc = abs_diff(a.col as int, b.col as int);
    let dr = abs_diff(a.row as int, b.row as int);
    (dc == 1 && dr == 2) || (dc == 2 && dr == 1)
}

impl BoardPos {
    pub fn new(col: u32, row: u32) -> (r: Self)
        ensures
            r == (BoardPos { col, row }),
    {
        BoardPos { col, row }
    }

    pub fn col(&self) -> (r: u32)
        ensures
            r == self.col,
    {
        self.col
    }

    pub fn row(&self) -> (r: u32)
        ensures
            r == self.row,
    {
        self.row
    }

    pub fn is_knight_move(&self, other: BoardPos) -> (r: bool)
        ensures
            r == spec_is_knight_move(*self, other),
    {
        let col_diff = if self.col >= other.col {
            self.col - other.col
        } else {
            other.col - self.col
        };
        let row_diff = if self.row >= other.row {
            self.row - other.row
        } else {
            other.row - self.row
        };
        (col_diff == 1 && row_diff == 2) || (col_diff == 2 && row_diff == 1)
    }
    /// Translate by a signed delta, failing (rather than wrapping) when the
    /// result would leave the coordinate space.
    pub fn try_translate(&self, col: i64, row: i64) -> (r: Option<BoardPos>)
        ensures
            r == spec_translate(*self, col as int, row as int, u32::MAX as int, u32::MAX as int),
    {
        self.try_translate_on_board(col, row, BoardSize::new(u32::MAX, u32::MAX))
    }

    /// Translate by a signed delta, failing when the result would go
    /// negative, overflow, or fall outside the given board.
    pub fn try_translate_on_board(&self, col: i64, row: i64, board_size: BoardSize) -> (r: Option<
        BoardPos,
    >)
        ensures
            r == spec_translate(
                *self,
                col as int,
                row as int,
                board_size.width as int,
                board_size.height as int,
            ),
    {
        let new_col = match (self.col as i64).checked_add(col) {
            Some(v) => v,
            None => {
                return None;
            },
        };
        let new_row = match (self.row as i64).checked_add(row) {
            Some(v) => v,
            None => {
                return None;
            },
        };
        if new_col < 0 || new_row < 0 || new_col >= board_size.width as i64 || new_row
            >= board_size.height as i64 {
            None
        } else {
            Some(BoardPos { col: new_col as u32, row: new_row as u32 })
        }
    }

    /// The position mirrored across the main diagonal: column and row
    /// exchanged.
    pub fn flip(self) -> (r: BoardPos)
        ensures
            r == spec_flip_pos(self),
    {
        BoardPos { col: self.row, row: self.col }
    }

    /// The move from `self` to `pos`, if it is a legal knight move.
    pub fn if_move(&self, pos: BoardPos) -> (r: Option<BoardPos>)
        ensures
            r == if spec_is_knight_move(*self, pos) {
                Some(*self)
            } else {
                None::<BoardPos>
            },
    {
        if self.is_knight_move(pos) {
            Some(*self)
        } else {
            None
        }
    }
}

/// A column letter, upper or lower case.
pub open spec fn spec_is_letter(c: char) -> bool {
    (65 <= c as int <= 90) || (97 <= c as int <= 122)
}

/// The 1-based value of one column letter: `A` and `a` are 1, `Z` and `z`
/// are 26.
pub open spec fn spec_letter_val(c: char) -> int {
    if 65 <= c as int <= 90 {
        c as int - 64
    } else {
        c as int - 96
    }
}

pub open spec fn spec_all_letters(s: Seq<char>) -> bool {
    forall|i: int| 0 <= i < s.len() ==> spec_is_letter(#[trigger] s[i])
}

/// The 1-based column number a run of letters writes, base 26, most
/// significant first: `A` is 1, `AA` is 27.
pub open spec fn spec_letters_val(s: Seq<char>) -> int
    decreases s.len(),
{
    if s.len() == 0 {
        0
    } else {
        spec_letters_val(s.drop_last()) * 26 + spec_letter_val(s.last())
    }
}

proof fn lemma_letters_val_nonneg(s: Seq<char>)
    requires
        spec_all_letters(s),
    ensures
        spec_letters_val(s) >= 0,
        s.len() > 0 ==> spec_letters_val(s) >= 1,
    decreases s.len(),
{
    if s.len() > 0 {
        assert(spec_all_letters(s.drop_last())) by {
            assert forall|i: int| 0 <= i < s.len() - 1 implies spec_is_letter(
                #[trigger] s.drop_last()[i],
            ) by {
                assert(s.drop_last()[i] == s[i]);
            }
        }
        lemma_letters_val_nonneg(s.drop_last());
        assert(spec_is_letter(s[s.len() - 1]));
        assert(spec_letters_val(s.drop_last()) * 26 >= 0) by (nonlinear_arith)
            requires
                spec_letters_val(s.drop_last()) >= 0,
        ;
    }
}

/// A prefix of a letter run never writes a larger column than the whole.
proof fn lemma_letters_val_prefix(s: Seq<char>, i: int)
    requires
        spec_all_letters(s),
        0 <= i <= s.len(),
    ensures
        spec_letters_val(s.subrange(0, i)) <= spec_letters_val(s),
    decreases s.len() - i,
{
    if i < s.len() {
        let shorter = s.subrange(0, i);
        let longer = s.subrange(0, i + 1);
        assert(longer.drop_last() =~= shorter);
        assert(spec_all_letters(shorter));
        lemma_letters_val_nonneg(shorter);
        assert(spec_is_letter(longer.last())) by {
            assert(longer.last() == s[i]);
        }
        assert(spec_letters_val(shorter) * 26 >= spec_letters_val(shorter)) by (nonlinear_arith)
            requires
                spec_letters_val(shorter) >= 0,
        ;
        assert(spec_letters_val(longer) == spec_letters_val(shorter) * 26 + spec_letter_val(
            longer.last(),
        ));
        assert(spec_letters_val(shorter) <= spec_letters_val(longer));
        lemma_letters_val_prefix(s, i + 1);
    } else {
        assert(s.subrange(0, i) =~= s);
    }
}

/// The way a position string divides: `k` leading column letters, an
/// optional dash, and row digits to the end.
pub open spec fn spec_pos_split_at(s: Seq<char>, k: int, dash: bool) -> bool {
    &&& 0 < k <= s.len()
    &&& spec_all_letters(s.subrange(0, k))
    &&& (dash ==> k < s.len() && s[k] == '-')
    &&& crate::board_size::spec_all_digits(
        s.subrange(
            k + if dash {
                1int
            } else {
                0int
            },
            s.len() as int,
        ),
    )
}

/// The 1-based column and row a position string writes, when it divides as
/// letters, an optional dash, and digits; nothing otherwise. An absent
/// digit run reads as row 0, which the parser then rejects.
pub open spec fn spec_pos_vals(s: Seq<char>) -> Option<(int, int)> {
    if exists|k: int, dash: bool| spec_pos_split_at(s, k, dash) {
        let (k, dash) = choose|k: int, dash: bool| spec_pos_split_at(s, k, dash);
        Some(
            (
                spec_letters_val(s.subrange(0, k)),
                crate::board_size::spec_digits_val(
                    s.subrange(
                        k + if dash {
                            1int
                        } else {
                            0int
                        },
                        s.len() as int,
                    ),
                ),
            ),
        )
    } else {
        None
    }
}

/// The parser accepts a position string iff it divides as letters, an
/// optional dash and digits, both numbers fit the coordinate type, and the
/// row is at least 1.
pub open spec fn spec_pos_accepted(s: Seq<char>) -> bool {
    &&& spec_pos_vals(s) is Some
    &&& spec_pos_vals(s).unwrap().0 <= u32::MAX
    &&& spec_pos_vals(s).unwrap().1 <= u32::MAX
    &&& spec_pos_vals(s).unwrap().1 >= 1
}

/// A string has at most one division into letters, an optional dash and
/// digits: the letter run is maximal, and the dash is taken when present.
proof fn lemma_pos_split_pinned(s: Seq<char>, k: int, dash: bool, k2: int, d2: bool)
    requires
        0 < k <= s.len(),
        spec_all_letters(s.subrange(0, k)),
        k < s.len() ==> !spec_is_letter(s[k]),
        dash ==> k < s.len() && s[k] == '-',
        !dash ==> (k < s.len() ==> s[k] != '-'),
        spec_pos_split_at(s, k2, d2),
    ensures
        k2 == k && d2 == dash,
{
    let off2 = if d2 {
        1int
    } else {
        0int
    };
    if k2 > k {
        assert(spec_is_letter(s[k])) by {
            assert(s.subrange(0, k2)[k] == s[k]);
        }
    }
    if k2 < k {
        assert(spec_is_letter(s[k2])) by {
            assert(s.subrange(0, k)[k2] == s[k2]);
        }
        if d2 {
            assert(s[k2] == '-');
            assert(false);
        } else {
            assert(crate::board_size::spec_is_digit(s[k2])) by {
                assert(s.subrange(k2, s.len() as int)[0] == s[k2]);
            }
            assert(false);
        }
    }
    assert(k2 == k);
    if d2 && !dash {
        assert(s[k] == '-');
        assert(false);
    }
    if !d2 && dash {
        assert(s[k] == '-');
        assert(crate::board_size::spec_is_digit(s[k])) by {
            assert(s.subrange(k, s.len() as int)[0] == s[k]);
        }
        assert(false);
    }
}

impl BoardPos {
    /// Parse a position written as on a chess board: letters for the
    /// column, then an optional dash, then a row number. The result keeps
    /// the 1-based display coordinates; `parse_board_pos` converts them to
    /// the 0-based board position.
    pub fn try_from(value: &str) -> (r: Result<BoardPos, String>)
        ensures
            r is Ok <==> spec_pos_accepted(value@),
            r is Ok ==> r.unwrap().col as int == spec_pos_vals(value@).unwrap().0
                && r.unwrap().row as int == spec_pos_vals(value@).unwrap().1,
            r is Ok ==> r.unwrap().col >= 1 && r.unwrap().row >= 1,
    {
        let n = value.unicode_len();
        // the column letters
        let mut col: u32 = 0;
        let mut i: usize = 0;
        proof {
            assert(value@.subrange(0, 0) =~= Seq::<char>::empty());
        }
        loop
            invariant_except_break
                i <= n,
                n == value@.len(),
                spec_all_letters(value@.subrange(0, i as int)),
                col as int == spec_letters_val(value@.subrange(0, i as int)),
            ensures
                i <= n,
                n == value@.len(),
                spec_all_letters(value@.subrange(0, i as int)),
                col as int == spec_letters_val(value@.subrange(0, i as int)),
                i < n ==> !spec_is_letter(value@[i as int]),
            decreases n - i,
        {
            if i >= n {
                break ;
            }
            let c = value.get_char(i);
            let code = c as u32;
            let is_upper = 65 <= code && code <= 90;
            let is_lower = 97 <= code && code <= 122;
            if !(is_upper || is_lower) {
                break ;
            }
            let letter = if is_upper {
                code - 64
            } else {
                code - 96
            };
            let ghost pre = value@.subrange(0, i as int);
            col = match mul_add(col, 26, letter) {
                Some(v) => v,
                None => {
                    // the column number leaves the coordinate type; any
                    // longer letter run only writes a larger one
                    proof {
                        let cur = value@.subrange(0, i as int + 1);
                        assert(cur.drop_last() =~= pre);
                        assert(cur.last() == value@[i as int]);
                        assert(spec_all_letters(cur));
                        assert(spec_letters_val(cur) > u32::MAX);
                        if exists|k: int, dash: bool| spec_pos_split_at(value@, k, dash) {
                            let (k, dash) = choose|k: int, dash: bool|
                                spec_pos_split_at(value@, k, dash);
                            assert(i < k) by {
                                if k <= i {
                                    assert(spec_is_letter(value@[k])) by {
                                        if k < i {
                                            assert(pre[k] == value@[k]);
                                        } else {
                                            assert(value@[i as int] == cur.last());
                                        }
                                    }
                                    if dash {
                                        assert(value@[k] == '-');
                                    } else {
                                        assert(crate::board_size::spec_is_digit(value@[k])) by {
                                            assert(value@.subrange(k, value@.len() as int)[0]
                                                == value@[k]);
                                        }
                                    }
                                }
                            }
                            let ws = value@.subrange(0, k);
                            assert(cur =~= ws.subrange(0, i as int + 1));
                            lemma_letters_val_prefix(ws, i as int + 1);
                            assert(spec_letters_val(ws) > u32::MAX);
                        }
                    }
                    return Err(String::from_str("Position out of range"));
                },
            };
            proof {
                let cur = value@.subrange(0, i as int + 1);
                assert(cur.drop_last() =~= pre);
                assert(cur.last() == value@[i as int]);
            }
            i = i + 1;
        }
        if i == 0 {
            // a position begins with at least one column letter
            proof {
                if exists|k: int, dash: bool| spec_pos_split_at(value@, k, dash) {
                    let (k, dash) = choose|k: int, dash: bool| spec_pos_split_at(value@, k, dash);
                    assert(spec_is_letter(value@[0])) by {
                        assert(value@.subrange(0, k)[0] == value@[0]);
                    }
                }
            }
            return Err(String::from_str(POS_FORMAT_ERR));
        }
        let ghost k = i as int;
        let mut dash = false;
        if i < n && value.get_char(i) == '-' {
            dash = true;
            i = i + 1;
        }
        let ghost off = if dash {
            1int
        } else {
            0int
        };
        let ghost digits_start = i as int;
        // the row digits
        let mut row: u32 = 0;
        proof {
            assert(value@.subrange(digits_start, digits_start) =~= Seq::<char>::empty());
        }
        while i < n
            invariant
                digits_start <= i as int <= n,
                n == value@.len(),
                k + off == digits_start,
                0 < k <= n,
                spec_all_letters(value@.subrange(0, k)),
                k < n ==> !spec_is_letter(value@[k]),
                dash ==> k < n && value@[k] == '-',
                !dash ==> (k < n ==> value@[k] != '-'),
                off == if dash {
                    1int
                } else {
                    0int
                },
                col as int == spec_letters_val(value@.subrange(0, k)),
                crate::board_size::spec_all_digits(value@.subrange(digits_start, i as int)),
                row as int == crate::board_size::spec_digits_val(
                    value@.subrange(digits_start, i as int),
                ),
            decreases n - i,
        {
            let c = value.get_char(i);
            let code = c as u32;
            if !(48 <= code && code <= 57) {
                // a stray character after the digits began
                proof {
                    if exists|k2: int, d2: bool| spec_pos_split_at(value@, k2, d2) {
                        let (k2, d2) = choose|k2: int, d2: bool| spec_pos_split_at(value@, k2, d2);
                        lemma_pos_split_pinned(value@, k, dash, k2, d2);
                        assert(crate::board_size::spec_is_digit(value@[i as int])) by {
                            assert(value@.subrange(digits_start, n as int)[i - digits_start]
                                == value@[i as int]);
                        }
                    }
                }
                return Err(String::from_str(POS_FORMAT_ERR));
            }
            let ghost pre = value@.subrange(digits_start, i as int);
            row = match mul_add(row, 10, code - 48) {
                Some(v) => v,
                None => {
                    // the row number leaves the coordinate type; any longer
                    // digit run only writes a larger one
                    proof {
                        let cur = value@.subrange(digits_start, i as int + 1);
                        assert(cur.drop_last() =~= pre);
                        assert(cur.last() == value@[i as int]);
                        assert(crate::board_size::spec_all_digits(cur));
                        assert(crate::board_size::spec_digits_val(cur) > u32::MAX);
                        if exists|k2: int, d2: bool| spec_pos_split_at(value@, k2, d2) {
                            let (k2, d2) = choose|k2: int, d2: bool|
                                spec_pos_split_at(value@, k2, d2);
                            lemma_pos_split_pinned(value@, k, dash, k2, d2);
                            let ds = value@.subrange(digits_start, n as int);
                            assert(cur =~= ds.subrange(0, i as int + 1 - digits_start));
                            crate::board_size::lemma_digits_val_prefix(
                                ds,
                                i as int + 1 - digits_start,
                            );
                            assert(crate::board_size::spec_digits_val(ds) > u32::MAX);
                        }
                    }
                    return Err(String::from_str("Position out of range"));
                },
            };
            proof {
                let cur = value@.subrange(digits_start, i as int + 1);
                assert(cur.drop_last() =~= pre);
                assert(cur.last() == value@[i as int]);
            }
            i = i + 1;
        }
        proof {
            assert(spec_pos_split_at(value@, k, dash));
            let (k2, d2) = choose|k2: int, d2: bool| spec_pos_split_at(value@, k2, d2);
            lemma_pos_split_pinned(value@, k, dash, k2, d2);
            lemma_letters_val_nonneg(value@.subrange(0, k));
        }
        if row < 1 {
            return Err(String::from_str("Invalid row: 0"));
        }
        if col < 1 {
            return Err(String::from_str(POS_FORMAT_ERR));
        }
        Ok(BoardPos { col, row })
    }
}

const POS_FORMAT_ERR: &'static str = "Expected a string of the format <COLUMN>[-]<ROW>, with columns being letters and rows being numeric.";

/// `a * m + d`, unless it leaves the coordinate type.
fn mul_add(a: u32, m: u32, d: u32) -> (r: Option<u32>)
    ensures
        r is Some ==> r.unwrap() == a * m + d,
        r is None ==> a as int * m as int + d as int > u32::MAX,
{
    match a.checked_mul(m) {
        Some(v) => v.checked_add(d),
        None => {
            proof {
                assert(a as int * m as int + d as int > u32::MAX) by (nonlinear_arith)
                    requires
                        a as int * m as int > u32::MAX,
                        d >= 0,
                ;
            }
            None
        },
    }
}

/// Parse a position for the command line: displayed 1-based, stored
/// 0-based, so `A-1` names the origin square.
pub fn parse_board_pos(arg: &str) -> (r: Result<BoardPos, String>)
    ensures
        r is Ok <==> spec_pos_accepted(arg@),
        r is Ok ==> r.unwrap().col as int == spec_pos_vals(arg@).unwrap().0 - 1
            && r.unwrap().row as int == spec_pos_vals(arg@).unwrap().1 - 1,
{
    match BoardPos::try_from(arg) {
        Ok(p) => Ok(BoardPos { col: p.col - 1, row: p.row - 1 }),
        Err(e) => Err(e),
    }
}

/// The 1-based column number written in letters: 1 is A, 26 is Z, 27 is
/// AA, and so on. The letter codes, most significant first.
pub open spec fn spec_alphabetize(val: nat) -> Seq<int>
    decreases val,
{
    if val == 0 {
        Seq::empty()
    } else {
        spec_alphabetize(((val - 1) / 26) as nat).push(65 + ((val - 1) % 26))
    }
}

/// Relies on String::push: appends exactly the one character given.
#[verifier::external_body]
fn push_ascii(s: &mut String, b: u8)
    requires
        b < 128,
    ensures
        final(s)@.len() == old(s)@.len() + 1,
        final(s)@.subrange(0, old(s)@.len() as int) == old(s)@,
        final(s)@[old(s)@.len() as int] as int == b as int,
{
    s.push(b as char)
}

/// Write a 1-based column number in letters, as the displayed form does:
/// `alphabetize(1)` is `"A"`, `alphabetize(27)` is `"AA"`; 0 also reads
/// `"A"`.
#[verifier::loop_isolation(false)]
pub fn alphabetize(val: u32) -> (r: String)
    ensures
        ({
            let codes = if val == 0 {
                Seq::<int>::empty().push(65)
            } else {
                spec_alphabetize(val as nat)
            };
            r@.len() == codes.len() && forall|i: int|
                0 <= i < codes.len() ==> (#[trigger] r@[i]) as int == codes[i]
        }),
{
    let mut buf: Vec<u8> = Vec::new();
    let mut v = val;
    while v > 0
        invariant
            v <= val,
            spec_alphabetize(val as nat) =~= spec_alphabetize(v as nat) + byte_codes(
                buf@,
            ).reverse(),
            forall|i: int| 0 <= i < buf@.len() ==> 65 <= #[trigger] buf@[i] < 91,
        decreases v,
    {
        let rem = (v - 1) % 26;
        let ghost pre = buf@;
        buf.push(65 + rem as u8);
        v = (v - 1) / 26;
        proof {
            lemma_byte_codes_push(pre, (65 + rem) as u8);
            lemma_reverse_push(byte_codes(pre), 65 + rem as int);
            assert(spec_alphabetize(val as nat) =~= spec_alphabetize(v as nat) + byte_codes(buf@).reverse());
        }
    }
    if buf.len() == 0 {
        buf.push(65);
    }
    let n = buf.len();
    let mut s = String::new();
    let mut i: usize = n;
    while i > 0
        invariant
            i <= n,
            n == buf@.len(),
            forall|k: int| 0 <= k < buf@.len() ==> 65 <= #[trigger] buf@[k] < 91,
            s@.len() == n - i,
            forall|k: int| 0 <= k < s@.len() ==> (#[trigger] s@[k]) as int == buf@[n - 1 - k],
        decreases i,
    {
        let ghost spre = s@;
        push_ascii(&mut s, buf[i - 1]);
        proof {
            assert forall|k: int| 0 <= k < s@.len() implies (#[trigger] s@[k]) as int == buf@[n - 1
                - k] by {
                if k < spre.len() {
                    assert(s@.subrange(0, spre.len() as int) == spre);
                    assert(s@[k] == spre[k]);
                }
            }
        }
        i = i - 1;
    }
    proof {
        if val > 0 {
            assert(byte_codes(buf@).reverse().len() == buf@.len());
            assert(spec_alphabetize(val as nat) =~= byte_codes(buf@).reverse());
            assert forall|k: int| 0 <= k < s@.len() implies (#[trigger] s@[k]) as int
                == spec_alphabetize(val as nat)[k] by {
                assert(byte_codes(buf@).reverse()[k] == byte_codes(buf@)[n - 1 - k]);
                assert(byte_codes(buf@)[n - 1 - k] == buf@[n - 1 - k]);
            }
        } else {
            assert(buf@.len() == 1);
            assert(s@.len() == 1);
            assert(s@[0] as int == buf@[0]);
        }
    }
    s
}

/// The bytes of the buffer as integer character codes.
pub open spec fn byte_codes(s: Seq<u8>) -> Seq<int> {
    s.map_values(|b: u8| b as int)
}

proof fn lemma_byte_codes_push(s: Seq<u8>, b: u8)
    ensures
        byte_codes(s.push(b)) =~= byte_codes(s).push(b as int),
{
}

proof fn lemma_reverse_push(s: Seq<int>, x: int)
    ensures
        s.push(x).reverse() =~= Seq::<int>::empty().push(x) + s.reverse(),
{
}

/// Column and row exchanged.
pub open spec fn spec_flip_pos(p: BoardPos) -> BoardPos {
    BoardPos { col: p.row, row: p.col }
}

/// An optional position with column and row exchanged.
pub open spec fn spec_flip_opt(o: Option<BoardPos>) -> Option<BoardPos> {
    match o {
        Some(q) => Some(spec_flip_pos(q)),
        None => None,
    }
}

/// The translated position when it stays within a `bound_col` x `bound_row`
/// board, and nothing otherwise.
pub open spec fn spec_translate(p: BoardPos, dc: int, dr: int, bound_col: int, bound_row: int) -> Option<
    BoardPos,
> {
    let nc = p.col as int + dc;
    let nr = p.row as int + dr;
    if nc < 0 || nr < 0 || nc >= bound_col || nr >= bound_row {
        None
    } else {
        Some(BoardPos { col: nc as u32, row: nr as u32 })
    }
}

} // verus!

