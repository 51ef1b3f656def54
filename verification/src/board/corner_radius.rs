use vstd::prelude::*;
use crate::board_pos::{BoardPos, abs_diff};
use crate::board_size::BoardSize;
use crate::board::corner::Corner;

verus! {

/// Rounding radii for the four board corners.
#[derive(Clone, Copy, PartialEq, Eq, Structural, Debug)]
pub struct CornerRadius {
    pub top_left: Corner,
    pub top_right: Corner,
    pub bottom_right: Corner,
    pub bottom_left: Corner,
}

/// Does `point` fall outside the rounding ellipse of the corner `sector`
/// (0 top-left, 1 top-right, 2 bottom-right, 3 bottom-left)?
/// The ellipse is scaled to a circle and the distance compared by
/// Pythagoras, all in integers.
pub open spec fn spec_in_corner(c: Corner, point: BoardPos, sector: int, w: int, h: int) -> bool {
    if c.h == 0 || c.v == 0 {
        false
    } else {
        let ew = c.h as int;
        let eh = c.v as int;
        let center_x = if sector == 0 || sector == 3 {
            ew - 1
        } else {
            w - ew
        };
        let center_y = if sector == 0 || sector == 1 {
            eh - 1
        } else {
            h - eh
        };
        let px = point.col as int;
        let py = point.row as int;
        let in_quadrant = if sector == 0 {
            px < center_x && py < center_y
        } else if sector == 1 {
            px > center_x && py < center_y
        } else if sector == 2 {
            px > center_x && py > center_y
        } else {
            px < center_x && py > center_y
        };
        let dx = abs_diff(px, center_x);
        let dy = abs_diff(py, center_y) * ew / eh;
        in_quadrant && dx * dx + dy * dy > ew * ew
    }
}

/// Is the square inside the board once the corners are rounded off?
pub open spec fn spec_is_in_range(cr: CornerRadius, pos: BoardPos, size: BoardSize) -> bool {
    if pos.col > size.width || pos.row > size.height {
        false
    } else {
        let w = size.width as int;
        let h = size.height as int;
        !spec_in_corner(cr.top_left, pos, 0, w, h) && !spec_in_corner(cr.top_right, pos, 1, w, h)
            && !spec_in_corner(cr.bottom_right, pos, 2, w, h) && !spec_in_corner(
            cr.bottom_left,
            pos,
            3,
            w,
            h,
        )
    }
}

/// One ellipse test, evaluated in a type wide enough never to overflow.
fn in_corner(c: Corner, point: BoardPos, sector: u8, w: u32, h: u32) -> (r: bool)
    requires
        0 <= sector <= 3,
        point.col <= w,
        point.row <= h,
        w <= 0x4000_0000,
        h <= 0x4000_0000,
        c.v <= 0x4000_0000,
        c.h <= 0x4000_0000,
    ensures
        r == spec_in_corner(c, point, sector as int, w as int, h as int),
{
    if c.h == 0 || c.v == 0 {
        return false;
    }
    let ew = c.h as i128;
    let eh = c.v as i128;
    let center_x: i128 = if sector == 0 || sector == 3 {
        ew - 1
    } else {
        w as i128 - ew
    };
    let center_y: i128 = if sector == 0 || sector == 1 {
        eh - 1
    } else {
        h as i128 - eh
    };
    let px = point.col as i128;
    let py = point.row as i128;
    let in_quadrant = if sector == 0 {
        px < center_x && py < center_y
    } else if sector == 1 {
        px > center_x && py < center_y
    } else if sector == 2 {
        px > center_x && py > center_y
    } else {
        px < center_x && py > center_y
    };
    if !in_quadrant {
        return false;
    }
    let dx: i128 = if px >= center_x {
        px - center_x
    } else {
        center_x - px
    };
    let dyd: i128 = if py >= center_y {
        py - center_y
    } else {
        center_y - py
    };
    proof {
        assert(dyd * ew <= 0x4000_0000_0000_0000_i128 && dyd * ew >= 0) by (nonlinear_arith)
            requires
                0 <= dyd <= 0x1_0000_0000_i128,
                0 <= ew <= 0x4000_0000_i128,
        ;
    }
    let prod: i128 = dyd * ew;
    let dy: i128 = prod / eh;
    proof {
        assert(0 <= dy <= prod) by (nonlinear_arith)
            requires
                prod >= 0,
                eh >= 1,
                dy == prod / eh,
        ;
        assert(dx * dx >= 0 && dx * dx <= 0x1_0000_0000_0000_0000_i128 && dy * dy >= 0 && dy * dy
            <= 0x1000_0000_0000_0000_0000_0000_0000_0000_i128 && ew * ew >= 0 && ew * ew
            <= 0x1000_0000_0000_0000_i128) by (nonlinear_arith)
            requires
                0 <= dx <= 0x1_0000_0000_i128,
                0 <= dy <= 0x4000_0000_0000_0000_i128,
                0 <= ew <= 0x4000_0000_i128,
        ;
    }
    dx * dx + dy * dy > ew * ew
}

impl CornerRadius {
    /// Every radius small enough for the ellipse arithmetic to stay exact.
    pub open spec fn bounded(&self) -> bool {
        self.top_left.v <= 0x4000_0000 && self.top_left.h <= 0x4000_0000 && self.top_right.v
            <= 0x4000_0000 && self.top_right.h <= 0x4000_0000 && self.bottom_right.v
            <= 0x4000_0000 && self.bottom_right.h <= 0x4000_0000 && self.bottom_left.v
            <= 0x4000_0000 && self.bottom_left.h <= 0x4000_0000
    }

    /// Is the square inside the board once the corners are rounded off?
    pub fn is_in_range(&self, pos: BoardPos, size: BoardSize) -> (r: bool)
        requires
            self.bounded(),
            size.width <= 0x4000_0000,
            size.height <= 0x4000_0000,
        ensures
            r == spec_is_in_range(*self, pos, size),
    {
        if pos.col > size.width || pos.row > size.height {
            return false;
        }
        let w = size.width;
        let h = size.height;
        !in_corner(self.top_left, pos, 0, w, h) && !in_corner(self.top_right, pos, 1, w, h)
            && !in_corner(self.bottom_right, pos, 2, w, h) && !in_corner(
            self.bottom_left,
            pos,
            3,
            w,
            h,
        )
    }

    pub fn top_left(&self) -> (r: Corner)
        ensures
            r == self.top_left,
    {
        self.top_left
    }

    pub fn bottom_right(&self) -> (r: Corner)
        ensures
            r == self.bottom_right,
    {
        self.bottom_right
    }

    pub fn top_right(&self) -> (r: Corner)
        ensures
            r == self.top_right,
    {
        self.top_right
    }

    pub fn bottom_left(&self) -> (r: Corner)
        ensures
            r == self.bottom_left,
    {
        self.bottom_left
    }

    /// Parse a corner-radius description.
    pub fn try_from(input: &str) -> (r: Result<CornerRadius, String>)
        ensures
            crate::board_size::spec_num_ok(input@) ==> r is Ok && ({
                let v = crate::board_size::spec_digits_val(input@) as u32;
                let c = Corner { v, h: v };
                r.unwrap() == (CornerRadius {
                    top_left: c,
                    top_right: c,
                    bottom_right: c,
                    bottom_left: c,
                })
            }),
    {
        parse_corner_radius(input)
    }

    /// Parse a corner-radius description: either one field for all four
    /// corners or four fields (top-left, top-right, bottom-right,
    /// bottom-left), separated by whitespace or commas. A field is a single
    /// radius, or a `(vertical, horizontal)` pair in round brackets. A
    /// plain number sets the same rounding on all four corners.
    pub fn parse(input: &str) -> (r: Result<CornerRadius, String>)
        ensures
            crate::board_size::spec_num_ok(input@) ==> r is Ok && ({
                let v = crate::board_size::spec_digits_val(input@) as u32;
                let c = Corner { v, h: v };
                r.unwrap() == (CornerRadius {
                    top_left: c,
                    top_right: c,
                    bottom_right: c,
                    bottom_left: c,
                })
            }),
    {
        parse_corner_radius(input)
    }
}

/// The squares a rounded-corner description excludes from a board: every
/// square of the rectangle that falls outside the rounded outline.
#[verifier::loop_isolation(false)]
pub fn dead_squares_from_corner_radius(radius: &CornerRadius, size: BoardSize) -> (r: Vec<
    BoardPos,
>)
    requires
        radius.bounded(),
        size.width <= 0x4000_0000,
        size.height <= 0x4000_0000,
    ensures
        forall|p: BoardPos|
            r@.contains(p) == (p.col < size.width && p.row < size.height && !spec_is_in_range(
                *radius,
                p,
                size,
            )),
{
    let mut dead: Vec<BoardPos> = Vec::new();
    let mut col: u32 = 0;
    while col < size.width
        invariant
            col <= size.width,
            forall|p: BoardPos|
                dead@.contains(p) == (p.col < col && p.row < size.height && !spec_is_in_range(
                    *radius,
                    p,
                    size,
                )),
        decreases size.width - col,
    {
        let mut row: u32 = 0;
        while row < size.height
            invariant
                col < size.width,
                row <= size.height,
                forall|p: BoardPos|
                    dead@.contains(p) == ((p.col < col && p.row < size.height || (p.col == col
                        && p.row < row)) && !spec_is_in_range(*radius, p, size)),
            decreases size.height - row,
        {
            let p = BoardPos { col, row };
            let ghost pre = dead@;
            if !radius.is_in_range(p, size) {
                dead.push(p);
            }
            proof {
                assert forall|q: BoardPos|
                    dead@.contains(q) == ((q.col < col && q.row < size.height || (q.col == col
                        && q.row < row + 1)) && !spec_is_in_range(*radius, q, size)) by {
                    crate::tour::lemma_contains_grow(pre, dead@, q, p);
                }
            }
            row = row + 1;
        }
        col = col + 1;
    }
    dead
}

enum ParseState {
    Start,
    After,
    Between,
    Number,
    GroupOpen,
    GroupFirst,
    GroupBetween,
    GroupSecond,
    GroupEnd,
}

/// States that can hand the same character on to another state without
/// consuming it, ranked so that every such hand-off strictly descends.
spec fn state_rank(s: ParseState) -> int {
    match s {
        ParseState::Number => 3,
        ParseState::After => 2,
        ParseState::GroupSecond => 2,
        ParseState::GroupBetween => 2,
        ParseState::Between => 1,
        ParseState::GroupEnd => 1,
        _ => 0,
    }
}

fn is_digit(c: char) -> (r: bool)
    ensures
        r == crate::board_size::spec_is_digit(c),
{
    let code = c as u32;
    48 <= code && code <= 57
}

fn is_space(c: char) -> (r: bool)
    ensures
        r == (c == ' ' || c == '\t' || c == '\r' || c == '\n'),
{
    c == ' ' || c == '\t' || c == '\r' || c == '\n'
}

/// Append one digit to an accumulating radius, failing on overflow.
fn push_digit(val: u32, c: char) -> (r: Option<u32>)
    requires
        crate::board_size::spec_is_digit(c),
    ensures
        r is Some ==> r.unwrap() as int == val as int * 10 + (c as int - 48),
        r is None ==> val as int * 10 + (c as int - 48) > u32::MAX,
{
    let d = (c as u32) - 48;
    match val.checked_mul(10) {
        Some(v) => v.checked_add(d),
        None => {
            proof {
                assert(val as int * 10 + (c as int - 48) > u32::MAX) by (nonlinear_arith)
                    requires
                        val as int * 10 > u32::MAX,
                        c as int >= 48,
                ;
            }
            None
        },
    }
}

/// Parse a corner-radius description: one field for all four corners, or
/// four fields in the order top-left, top-right, bottom-right, bottom-left,
/// each a single radius or a bracketed `(vertical horizontal)` pair. A
/// plain number names the same rounding for all four corners: that case
/// the contract pins outright.
#[verifier::loop_isolation(false)]
pub fn parse_corner_radius(input: &str) -> (r: Result<CornerRadius, String>)
    ensures
        crate::board_size::spec_num_ok(input@) ==> r is Ok && ({
            let v = crate::board_size::spec_digits_val(input@) as u32;
            let c = Corner { v, h: v };
            r.unwrap() == (CornerRadius {
                top_left: c,
                top_right: c,
                bottom_right: c,
                bottom_left: c,
            })
        }),
{
    let ghost plain = crate::board_size::spec_num_ok(input@);
    let n = input.unicode_len();
    let mut corners: Vec<Corner> = Vec::new();
    let mut state = ParseState::Start;
    let mut buf_v: u32 = 0;
    let mut buf_h: u32 = 0;
    let mut i: usize = 0;
    while i < n
        invariant
            i <= n,
            n == input@.len(),
            plain == crate::board_size::spec_num_ok(input@),
            plain ==> corners@.len() == 0,
            plain && i == 0 ==> state is Start,
            plain && i > 0 ==> state is Number && buf_v as int
                == crate::board_size::spec_digits_val(input@.subrange(0, i as int)) && buf_h
                == buf_v,
        decreases n - i, state_rank(state),
    {
        let c = input.get_char(i);
        proof {
            if plain {
                assert(crate::board_size::spec_is_digit(input@[i as int]));
                assert(48 <= c as int <= 57);
            }
        }
        match state {
            ParseState::Start | ParseState::Between => {
                if is_digit(c) {
                    buf_v = match push_digit(0, c) {
                        Some(v) => v,
                        None => {
                            return Err(String::from_str("Corner radius out of range"));
                        },
                    };
                    buf_h = buf_v;
                    state = ParseState::Number;
                    proof {
                        if plain {
                            let cur = input@.subrange(0, i as int + 1);
                            assert(cur.drop_last() =~= input@.subrange(0, i as int));
                            assert(input@.subrange(0, 0) =~= Seq::<char>::empty());
                            assert(crate::board_size::spec_digits_val(Seq::<char>::empty()) == 0);
                            assert(cur.last() == input@[i as int]);
                            assert(buf_v as int == crate::board_size::spec_digits_val(cur));
                        }
                    }
                    i = i + 1;
                } else if c == '(' {
                    state = ParseState::GroupOpen;
                    i = i + 1;
                } else if is_space(c) {
                    i = i + 1;
                } else {
                    return Err(String::from_str("Invalid character in corner radius"));
                }
            },
            ParseState::After => {
                if c == ',' {
                    state = ParseState::Between;
                    i = i + 1;
                } else if c == '(' || is_digit(c) {
                    state = ParseState::Between;
                } else if is_space(c) {
                    i = i + 1;
                } else {
                    return Err(String::from_str("Expected whitespace or ','"));
                }
            },
            ParseState::Number => {
                if is_digit(c) {
                    buf_v = match push_digit(buf_v, c) {
                        Some(v) => v,
                        None => {
                            proof {
                                if plain {
                                    let cur = input@.subrange(0, i as int + 1);
                                    assert(cur.drop_last() =~= input@.subrange(0, i as int));
                                    assert(cur.last() == input@[i as int]);
                                    crate::board_size::lemma_digits_val_prefix(
                                        input@,
                                        i as int + 1,
                                    );
                                }
                            }
                            return Err(String::from_str("Corner radius out of range"));
                        },
                    };
                    buf_h = buf_v;
                    proof {
                        if plain {
                            let cur = input@.subrange(0, i as int + 1);
                            assert(cur.drop_last() =~= input@.subrange(0, i as int));
                            assert(cur.last() == input@[i as int]);
                            assert(buf_v as int == crate::board_size::spec_digits_val(cur));
                        }
                    }
                    i = i + 1;
                } else {
                    corners.push(Corner { v: buf_v, h: buf_h });
                    buf_v = 0;
                    buf_h = 0;
                    state = ParseState::After;
                }
            },
            ParseState::GroupOpen => {
                if is_digit(c) {
                    buf_v = match push_digit(0, c) {
                        Some(v) => v,
                        None => {
                            return Err(String::from_str("Corner radius out of range"));
                        },
                    };
                    state = ParseState::GroupFirst;
                    i = i + 1;
                } else if is_space(c) {
                    i = i + 1;
                } else {
                    return Err(String::from_str("Expected digit or whitespace"));
                }
            },
            ParseState::GroupFirst => {
                if is_digit(c) {
                    buf_v = match push_digit(buf_v, c) {
                        Some(v) => v,
                        None => {
                            return Err(String::from_str("Corner radius out of range"));
                        },
                    };
                    i = i + 1;
                } else if c == ',' || is_space(c) {
                    state = ParseState::GroupBetween;
                    i = i + 1;
                } else {
                    return Err(String::from_str("Expected digit or ','"));
                }
            },
            ParseState::GroupBetween => {
                if c == ',' {
                    state = ParseState::GroupSecond;
                    i = i + 1;
                } else if is_digit(c) {
                    buf_h = match push_digit(buf_h, c) {
                        Some(v) => v,
                        None => {
                            return Err(String::from_str("Corner radius out of range"));
                        },
                    };
                    state = ParseState::GroupSecond;
                    i = i + 1;
                } else if c == ')' {
                    buf_h = buf_v;
                    state = ParseState::GroupEnd;
                } else if is_space(c) {
                    i = i + 1;
                } else {
                    return Err(String::from_str("Expected digit, whitespace or ','"));
                }
            },
            ParseState::GroupSecond => {
                if is_digit(c) {
                    buf_h = match push_digit(buf_h, c) {
                        Some(v) => v,
                        None => {
                            return Err(String::from_str("Corner radius out of range"));
                        },
                    };
                    i = i + 1;
                } else {
                    state = ParseState::GroupEnd;
                }
            },
            ParseState::GroupEnd => {
                if c == ')' {
                    corners.push(Corner { v: buf_v, h: buf_h });
                    buf_v = 0;
                    buf_h = 0;
                    state = ParseState::After;
                    i = i + 1;
                } else if is_space(c) {
                    i = i + 1;
                } else {
                    return Err(String::from_str("Expected ')' or whitespace"));
                }
            },
        }
    }
    proof {
        if plain {
            assert(input@.subrange(0, n as int) =~= input@);
        }
    }
    match state {
        ParseState::Number => {
            corners.push(Corner { v: buf_v, h: buf_h });
        },
        ParseState::Start | ParseState::After => {},
        _ => {
            return Err(String::from_str("Unexpected end of input"));
        },
    }
    if corners.len() == 1 {
        let c = corners[0];
        Ok(CornerRadius { top_left: c, top_right: c, bottom_right: c, bottom_left: c })
    } else if corners.len() == 4 {
        Ok(
            CornerRadius {
                top_left: corners[0],
                top_right: corners[1],
                bottom_right: corners[2],
                bottom_left: corners[3],
            },
        )
    } else {
        Err(String::from_str("Invalid number of corners - expected 1 or 4"))
    }
}

} // verus!
