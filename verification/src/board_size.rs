use vstd::prelude::*;
use crate::board_pos::BoardPos;

verus! {

/// A board's dimensions: width (columns) and height (rows).
#[derive(Copy, Clone, PartialEq, Eq, Structural, Debug, Hash)]
pub struct BoardSize {
    pub width: u32,
    pub height: u32,
}

impl BoardSize {
    pub fn width(&self) -> (r: u32)
        ensures
            r == self.width,
    {
        self.width
    }

    pub fn height(&self) -> (r: u32)
        ensures
            r == self.height,
    {
        self.height
    }

    pub fn new(w: u32, h: u32) -> (r: BoardSize)
        ensures
            r == (BoardSize { width: w, height: h }),
    {
        BoardSize { width: w, height: h }
    }

    pub fn with_height(self, height: u32) -> (r: BoardSize)
        ensures
            r == (BoardSize { height, ..self }),
    {
        BoardSize { height, ..self }
    }

    pub fn with_width(self, width: u32) -> (r: BoardSize)
        ensures
            r == (BoardSize { width, ..self }),
    {
        BoardSize { width, ..self }
    }

    /// Number of squares, computed in a wider signed type so that large
    /// boards do not overflow the index type.
    pub fn area(&self) -> (r: i64)
        requires
            self.width as int * self.height as int <= i64::MAX,
        ensures
            r == self.width as int * self.height as int,
    {
        self.width as i64 * self.height as i64
    }

    /// Does the position lie on a board of this size?
    pub fn fits(&self, pos: BoardPos) -> (r: bool)
        ensures
            r == self.spec_fits(pos),
    {
        pos.col < self.width && pos.row < self.height
    }

    pub open spec fn spec_fits(&self, pos: BoardPos) -> bool {
        pos.col < self.width && pos.row < self.height
    }

    /// The transposed size: width and height exchanged.
    pub fn flip(self) -> (r: BoardSize)
        ensures
            r == (BoardSize { width: self.height, height: self.width }),
    {
        BoardSize { width: self.height, height: self.width }
    }
    /// Parse a size written as `<width>x<height>`, or a single length for
    /// a square board.
    pub fn try_from(value: &str) -> (r: Result<BoardSize, String>)
        ensures
            r is Ok <==> spec_parse_size(value@) is Some,
            r is Ok ==> r.unwrap() == spec_parse_size(value@).unwrap(),
    {
        let n = value.unicode_len();
        let mut first_x: Option<usize> = None;
        let mut i: usize = 0;
        while i < n
            invariant
                i <= n,
                n == value@.len(),
                match first_x {
                    Some(j) => spec_first_x_at(value@, j as int) && j < i && forall|k: int|
                        j < k < i ==> value@[k] != 'x',
                    None => forall|k: int| 0 <= k < i ==> value@[k] != 'x',
                },
            decreases n - i,
        {
            if value.get_char(i) == 'x' {
                match first_x {
                    None => {
                        first_x = Some(i);
                    },
                    Some(j) => {
                        proof {
                            let jj = choose|jj: int| spec_first_x_at(value@, jj);
                            lemma_first_x_exists(value@, j as int);
                            lemma_first_x_unique(value@, jj, j as int);
                            assert(value@[i as int] == 'x');
                        }
                        return Err(
                            String::from_str(
                                "Expected string of the form <width>x<height> or <length>",
                            ),
                        );
                    },
                }
            }
            i = i + 1;
        }
        match first_x {
            None => {
                proof {
                    assert(value@.subrange(0, n as int) =~= value@);
                }
                match parse_u32_digits(value, 0, n) {
                    Ok(w) => Ok(BoardSize { width: w, height: w }),
                    Err(e) => Err(e),
                }
            },
            Some(j) => {
                proof {
                    let jj = choose|jj: int| spec_first_x_at(value@, jj);
                    lemma_first_x_exists(value@, j as int);
                    lemma_first_x_unique(value@, jj, j as int);
                }
                let w = match parse_u32_digits(value, 0, j) {
                    Ok(w) => w,
                    Err(e) => {
                        return Err(e);
                    },
                };
                let h = match parse_u32_digits(value, j + 1, n) {
                    Ok(h) => h,
                    Err(e) => {
                        return Err(e);
                    },
                };
                Ok(BoardSize { width: w, height: h })
            },
        }
    }
}

/// A decimal digit.
pub open spec fn spec_is_digit(c: char) -> bool {
    48 <= c as int <= 57
}

pub open spec fn spec_all_digits(s: Seq<char>) -> bool {
    forall|i: int| 0 <= i < s.len() ==> spec_is_digit(#[trigger] s[i])
}

/// The number a run of digits writes, most significant first.
pub open spec fn spec_digits_val(s: Seq<char>) -> int
    decreases s.len(),
{
    if s.len() == 0 {
        0
    } else {
        spec_digits_val(s.drop_last()) * 10 + (s.last() as int - 48)
    }
}

/// A nonempty run of digits whose value fits the coordinate type.
pub open spec fn spec_num_ok(s: Seq<char>) -> bool {
    &&& s.len() > 0
    &&& spec_all_digits(s)
    &&& spec_digits_val(s) <= u32::MAX
}

pub(crate) proof fn lemma_digits_val_nonneg(s: Seq<char>)
    requires
        spec_all_digits(s),
    ensures
        spec_digits_val(s) >= 0,
    decreases s.len(),
{
    if s.len() > 0 {
        assert(spec_all_digits(s.drop_last())) by {
            assert forall|i: int| 0 <= i < s.len() - 1 implies spec_is_digit(
                #[trigger] s.drop_last()[i],
            ) by {
                assert(s.drop_last()[i] == s[i]);
            }
        }
        lemma_digits_val_nonneg(s.drop_last());
        assert(spec_is_digit(s[s.len() - 1]));
        assert(spec_digits_val(s.drop_last()) * 10 >= 0) by (nonlinear_arith)
            requires
                spec_digits_val(s.drop_last()) >= 0,
        ;
    }
}

/// A prefix of a digit run never writes a larger number than the whole.
pub(crate) proof fn lemma_digits_val_prefix(s: Seq<char>, i: int)
    requires
        spec_all_digits(s),
        0 <= i <= s.len(),
    ensures
        spec_digits_val(s.subrange(0, i)) <= spec_digits_val(s),
    decreases s.len() - i,
{
    if i < s.len() {
        let shorter = s.subrange(0, i);
        let longer = s.subrange(0, i + 1);
        assert(longer.drop_last() =~= shorter);
        assert(spec_all_digits(shorter));
        lemma_digits_val_nonneg(shorter);
        assert(spec_is_digit(longer.last())) by {
            assert(longer.last() == s[i]);
        }
        assert(spec_digits_val(shorter) * 10 >= spec_digits_val(shorter)) by (nonlinear_arith)
            requires
                spec_digits_val(shorter) >= 0,
        ;
        assert(spec_digits_val(longer) == spec_digits_val(shorter) * 10 + (longer.last() as int
            - 48));
        assert(spec_digits_val(shorter) <= spec_digits_val(longer));
        lemma_digits_val_prefix(s, i + 1);
    } else {
        assert(s.subrange(0, i) =~= s);
    }
}

/// Parse the decimal number written between two offsets of the string:
/// the value the digits write, when they are nonempty, all digits, and
/// small enough for the coordinate type.
pub(crate) fn parse_u32_digits(s: &str, from: usize, to: usize) -> (r: Result<u32, String>)
    requires
        from <= to <= s@.len(),
    ensures
        r is Ok <==> spec_num_ok(s@.subrange(from as int, to as int)),
        r is Ok ==> r.unwrap() as int == spec_digits_val(s@.subrange(from as int, to as int)),
{
    let ghost sub = s@.subrange(from as int, to as int);
    if from == to {
        return Err(String::from_str("cannot parse integer from empty string"));
    }
    let mut value: u32 = 0;
    let mut i = from;
    proof {
        assert(s@.subrange(from as int, from as int) =~= Seq::<char>::empty());
    }
    while i < to
        invariant
            from <= i <= to,
            to <= s@.len(),
            sub == s@.subrange(from as int, to as int),
            spec_all_digits(s@.subrange(from as int, i as int)),
            value as int == spec_digits_val(s@.subrange(from as int, i as int)),
        decreases to - i,
    {
        let ghost pre = s@.subrange(from as int, i as int);
        let c = s.get_char(i);
        let code = c as u32;
        if !(48 <= code && code <= 57) {
            proof {
                assert(sub[i - from] == s@[i as int]);
                assert(!spec_is_digit(sub[i - from]));
            }
            return Err(String::from_str("invalid digit found in string"));
        }
        let next = match value.checked_mul(10) {
            Some(v) => v.checked_add(code - 48),
            None => None,
        };
        value = match next {
            Some(v) => v,
            None => {
                proof {
                    let cur = s@.subrange(from as int, i as int + 1);
                    assert(cur.drop_last() =~= pre);
                    assert(cur.last() == s@[i as int]);
                    assert(spec_all_digits(cur));
                    assert(spec_digits_val(cur) > u32::MAX) by (nonlinear_arith)
                        requires
                            spec_digits_val(cur) == spec_digits_val(pre) * 10 + (cur.last() as int
                                - 48),
                            spec_digits_val(pre) == value as int,
                            value as int * 10 + (cur.last() as int - 48) > u32::MAX,
                    ;
                    if spec_all_digits(sub) {
                        assert(sub.subrange(0, i - from + 1) =~= cur);
                        lemma_digits_val_prefix(sub, i - from + 1);
                        assert(spec_digits_val(sub) > u32::MAX);
                    }
                }
                return Err(String::from_str("number too large to fit in target type"));
            },
        };
        proof {
            let cur = s@.subrange(from as int, i as int + 1);
            assert(cur.drop_last() =~= pre);
            assert(cur.last() == s@[i as int]);
        }
        i = i + 1;
    }
    proof {
        assert(s@.subrange(from as int, to as int) =~= sub);
    }
    Ok(value)
}

/// Parse a board size for the command line: `<width>x<height>`, or one
/// length for a square board.
pub fn parse_board_size(arg: &str) -> (r: Result<BoardSize, String>)
    ensures
        r is Ok <==> spec_parse_size(arg@) is Some,
        r is Ok ==> r.unwrap() == spec_parse_size(arg@).unwrap(),
{
    BoardSize::try_from(arg)
}

/// The first index holding an `x`, with none before it.
pub open spec fn spec_first_x_at(s: Seq<char>, j: int) -> bool {
    &&& 0 <= j < s.len()
    &&& s[j] == 'x'
    &&& forall|k: int| 0 <= k < j ==> s[k] != 'x'
}

/// Somewhere an `x` stands, so a first one does.
pub(crate) proof fn lemma_first_x_exists(s: Seq<char>, k: int)
    requires
        0 <= k < s.len(),
        s[k] == 'x',
    ensures
        exists|j: int| spec_first_x_at(s, j),
    decreases k,
{
    if forall|m: int| 0 <= m < k ==> s[m] != 'x' {
        assert(spec_first_x_at(s, k));
    } else {
        let m = choose|m: int| 0 <= m < k && s[m] == 'x';
        lemma_first_x_exists(s, m);
    }
}

pub(crate) proof fn lemma_first_x_unique(s: Seq<char>, j1: int, j2: int)
    requires
        spec_first_x_at(s, j1),
        spec_first_x_at(s, j2),
    ensures
        j1 == j2,
{
}

/// What a size string denotes. With no `x`, one number names a square
/// board; with exactly one `x`, the numbers on either side give width and
/// height; anything else — a second `x`, a missing, malformed or oversized
/// number — denotes nothing.
pub open spec fn spec_parse_size(s: Seq<char>) -> Option<BoardSize> {
    if forall|k: int| 0 <= k < s.len() ==> s[k] != 'x' {
        if spec_num_ok(s) {
            Some(
                BoardSize {
                    width: spec_digits_val(s) as u32,
                    height: spec_digits_val(s) as u32,
                },
            )
        } else {
            None
        }
    } else {
        let j = choose|j: int| spec_first_x_at(s, j);
        let ws = s.subrange(0, j);
        let hs = s.subrange(j + 1, s.len() as int);
        if (forall|k: int| j < k < s.len() ==> s[k] != 'x') && spec_num_ok(ws) && spec_num_ok(hs) {
            Some(
                BoardSize {
                    width: spec_digits_val(ws) as u32,
                    height: spec_digits_val(hs) as u32,
                },
            )
        } else {
            None
        }
    }
}

/// Sizes are ordered componentwise: one is smaller only when it is smaller
/// in neither dimension's opposite sense; sizes that disagree across the
/// two axes are incomparable.
impl PartialOrd for BoardSize {
    fn partial_cmp(&self, other: &Self) -> (r: Option<core::cmp::Ordering>) {
        let cmp_w = if self.width < other.width {
            core::cmp::Ordering::Less
        } else if self.width == other.width {
            core::cmp::Ordering::Equal
        } else {
            core::cmp::Ordering::Greater
        };
        let cmp_h = if self.height < other.height {
            core::cmp::Ordering::Less
        } else if self.height == other.height {
            core::cmp::Ordering::Equal
        } else {
            core::cmp::Ordering::Greater
        };
        match (cmp_w, cmp_h) {
            (core::cmp::Ordering::Equal, h) => Some(h),
            (w, core::cmp::Ordering::Equal) => Some(w),
            (core::cmp::Ordering::Less, core::cmp::Ordering::Less) => Some(
                core::cmp::Ordering::Less,
            ),
            (core::cmp::Ordering::Greater, core::cmp::Ordering::Greater) => Some(
                core::cmp::Ordering::Greater,
            ),
            _ => None,
        }
    }
}

impl vstd::std_specs::cmp::PartialOrdSpecImpl for BoardSize {
    open spec fn obeys_partial_cmp_spec() -> bool {
        true
    }

    open spec fn partial_cmp_spec(&self, other: &Self) -> Option<core::cmp::Ordering> {
        let cmp_w = if self.width < other.width {
            core::cmp::Ordering::Less
        } else if self.width == other.width {
            core::cmp::Ordering::Equal
        } else {
            core::cmp::Ordering::Greater
        };
        let cmp_h = if self.height < other.height {
            core::cmp::Ordering::Less
        } else if self.height == other.height {
            core::cmp::Ordering::Equal
        } else {
            core::cmp::Ordering::Greater
        };
        match (cmp_w, cmp_h) {
            (core::cmp::Ordering::Equal, h) => Some(h),
            (w, core::cmp::Ordering::Equal) => Some(w),
            (core::cmp::Ordering::Less, core::cmp::Ordering::Less) => Some(
                core::cmp::Ordering::Less,
            ),
            (core::cmp::Ordering::Greater, core::cmp::Ordering::Greater) => Some(
                core::cmp::Ordering::Greater,
            ),
            _ => None,
        }
    }
}

} // verus!
