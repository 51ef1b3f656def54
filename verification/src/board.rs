pub mod matrix2d;
pub mod corner;
pub mod corner_radius;

use vstd::prelude::*;
use crate::board_pos::BoardPos;
use matrix2d::Matrix2D;

verus! {

/// How a picture of a board shape is read: which property of a pixel says
/// that its square can be stepped on.
#[derive(Clone, Copy, PartialEq, Eq, Structural, Debug)]
pub enum ImageMode {
    /// Black pixels are accessible, white pixels are not; anything else is
    /// an error.
    BlackWhite,
    /// Pixels at least as opaque as the threshold are accessible.
    Alpha,
    /// Pixels at least as bright as the threshold are accessible, by the
    /// usual integer luma weights.
    Luminance,
}

/// The integer luma of a pixel: the red, green and blue weights are 30, 59
/// and 11 out of 100.
pub open spec fn spec_luminance(r: u8, g: u8, b: u8) -> int {
    (r * 30 + g * 59 + b * 11) / 100
}

/// Decide from one pixel whether its square is accessible. Only pure black
/// and pure white are meaningful in the black-and-white reading.
pub fn pixel_visible(mode: ImageMode, r: u8, g: u8, b: u8, a: u8, threshold: u8) -> (res: Result<
    bool,
    String,
>)
    ensures
        match mode {
            ImageMode::Alpha => res == Ok::<bool, String>(a >= threshold),
            ImageMode::Luminance => res is Ok && res.unwrap() == (spec_luminance(r, g, b)
                >= threshold),
            ImageMode::BlackWhite => {
                if r == 255 && g == 255 && b == 255 && a == 255 {
                    res == Ok::<bool, String>(false)
                } else if r == 0 && g == 0 && b == 0 && a == 255 {
                    res == Ok::<bool, String>(true)
                } else {
                    res is Err
                }
            },
        },
{
    match mode {
        ImageMode::Alpha => Ok(a >= threshold),
        ImageMode::BlackWhite => {
            if r == 255 && g == 255 && b == 255 && a == 255 {
                Ok(false)
            } else if r == 0 && g == 0 && b == 0 && a == 255 {
                Ok(true)
            } else {
                Err(
                    String::from_str(
                        "Only black and white pixels are supported. Try the mode \"luminance\" or \"alpha\" instead.",
                    ),
                )
            }
        },
        ImageMode::Luminance => {
            let sum = (r as u16) * 30 + (g as u16) * 59 + (b as u16) * 11;
            let lum = (sum / 100) as u8;
            Ok(lum >= threshold)
        },
    }
}

/// The externally visible result: every live square carries its 1-based
/// position in the tour (0 where unvisited), and excluded squares are marked
/// dead.
pub struct Board {
    pub data: Matrix2D<usize>,
    pub dead: Matrix2D<bool>,
}

impl Board {
    pub open spec fn wf(&self) -> bool {
        &&& self.data.wf()
        &&& self.dead.wf()
        &&& self.dead.w == self.data.w
        &&& self.dead.h == self.data.h
    }

    pub open spec fn spec_in_range(&self, pos: BoardPos) -> bool {
        self.data.spec_in_range(pos)
    }

    pub open spec fn spec_at(&self, pos: BoardPos) -> usize {
        self.data.spec_at(pos)
    }

    pub open spec fn spec_dead(&self, pos: BoardPos) -> bool {
        self.dead.spec_at(pos)
    }

    /// A `w` x `h` board with every square set to `value` and no square dead.
    #[verifier::loop_isolation(false)]
    pub fn new(w: u32, h: u32, value: usize) -> (r: Board)
        requires
            w as int * h as int <= usize::MAX,
        ensures
            r.wf(),
            r.data.w == w,
            r.data.h == h,
            forall|p: BoardPos| r.spec_in_range(p) ==> #[trigger] r.spec_at(p) == value,
            forall|p: BoardPos| r.spec_in_range(p) ==> !#[trigger] r.spec_dead(p),
    {
        let mk_value = || -> (v: usize)
            ensures
                v == value,
            { value };
        let mk_false = || -> (v: bool)
            ensures
                !v,
            { false };
        let data = Matrix2D::new(w, h, mk_value);
        let dead = Matrix2D::new(w, h, mk_false);
        let r = Board { data, dead };
        proof {
            assert forall|p: BoardPos| r.spec_in_range(p) implies #[trigger] r.spec_at(p)
                == value by {
                r.data.lemma_index_in_bounds(p);
            }
            assert forall|p: BoardPos| r.spec_in_range(p) implies !#[trigger] r.spec_dead(p) by {
                r.dead.lemma_index_in_bounds(p);
            }
        }
        r
    }

    pub fn at(&self, pos: BoardPos) -> (r: &usize)
        requires
            self.wf(),
            self.spec_in_range(pos),
        ensures
            *r == self.spec_at(pos),
    {
        self.data.at(pos)
    }

    pub fn at_mut(&mut self, pos: BoardPos) -> (r: &mut usize)
        requires
            old(self).wf(),
            old(self).spec_in_range(pos),
        ensures
            *r == old(self).spec_at(pos),
            final(self).wf(),
            final(self).data.w == old(self).data.w,
            final(self).data.h == old(self).data.h,
            final(self).dead == old(self).dead,
            final(self).spec_at(pos) == *final(r),
            forall|q: BoardPos|
                old(self).spec_in_range(q) && q != pos ==> final(self).spec_at(q) == old(
                    self,
                ).spec_at(q),
    {
        self.data.at_mut(pos)
    }

    /// The same board with the listed in-range squares marked dead.
    #[verifier::loop_isolation(false)]
    pub fn with_dead_squares(self, dead_squares: Vec<BoardPos>) -> (r: Board)
        requires
            self.wf(),
        ensures
            r.wf(),
            r.data == self.data,
            forall|q: BoardPos|
                self.spec_in_range(q) ==> #[trigger] r.spec_dead(q) == (self.spec_dead(q)
                    || dead_squares@.contains(q)),
    {
        let mut board = self;
        let n = dead_squares.len();
        let mut i: usize = 0;
        while i < n
            invariant
                i <= n,
                board.wf(),
                board.data == self.data,
                board.dead.w == self.dead.w,
                board.dead.h == self.dead.h,
                forall|q: BoardPos|
                    self.spec_in_range(q) ==> #[trigger] board.spec_dead(q) == (self.spec_dead(q)
                        || dead_squares@.subrange(0, i as int).contains(q)),
            decreases n - i,
        {
            let p = dead_squares[i];
            let ghost b0 = board;
            if board.dead.is_in_range(p) {
                let cell = board.dead.at_mut(p);
                *cell = true;
            }
            proof {
                let s_old = dead_squares@.subrange(0, i as int);
                let s_new = dead_squares@.subrange(0, i as int + 1);
                assert forall|q: BoardPos| self.spec_in_range(q) implies #[trigger] board.spec_dead(
                    q,
                ) == (self.spec_dead(q) || s_new.contains(q)) by {
                    assert(b0.spec_dead(q) == (self.spec_dead(q) || s_old.contains(q)));
                    if q != p {
                        assert(board.spec_dead(q) == b0.spec_dead(q));
                    }
                    if s_old.contains(q) {
                        let k = choose|k: int| 0 <= k < s_old.len() && s_old[k] == q;
                        assert(s_new[k] == q);
                        assert(s_new.contains(q));
                    }
                    if q == p {
                        assert(s_new[i as int] == q);
                        assert(s_new.contains(q));
                    }
                    if s_new.contains(q) && q != p {
                        let k = choose|k: int| 0 <= k < s_new.len() && s_new[k] == q;
                        assert(k < i);
                        assert(s_old[k] == q);
                        assert(s_old.contains(q));
                    }
                }
            }
            i = i + 1;
        }
        proof {
            assert(dead_squares@.subrange(0, n as int) =~= dead_squares@);
        }
        board
    }

    /// Is the square not marked dead?
    pub fn is_alive(&self, pos: BoardPos) -> (r: bool)
        requires
            self.wf(),
            self.spec_in_range(pos),
        ensures
            r == !self.spec_dead(pos),
    {
        !*self.dead.at(pos)
    }
}

} // verus!
