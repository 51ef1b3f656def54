use vstd::prelude::*;
use crate::board_pos::{BoardPos, spec_is_knight_move};

verus! {

/// The piece being toured: just its current square.
#[derive(Clone, Copy, PartialEq, Eq, Structural, Debug)]
pub struct Knight {
    pub position: BoardPos,
}

/// What every move handed out by the generator satisfies: it is a knight
/// move from `from` and the caller's reachability predicate accepted it.
pub open spec fn move_admitted<F: Fn(BoardPos, BoardPos) -> bool>(
    f: F,
    from: BoardPos,
    to: BoardPos,
) -> bool {
    spec_is_knight_move(from, to) && call_ensures(f, (from, to), true)
}

/// A faithful answer of the move generator: every listed move is a knight
/// move the predicate accepted, no move is listed twice, and every knight
/// move from `from` is either listed or was refused by the predicate.
pub open spec fn moves_list_ok<F: Fn(BoardPos, BoardPos) -> bool>(
    f: F,
    from: BoardPos,
    s: Seq<BoardPos>,
) -> bool {
    &&& forall|i: int| 0 <= i < s.len() ==> move_admitted(f, from, #[trigger] s[i])
    &&& s.no_duplicates()
    &&& s.len() <= 8
    &&& forall|q: BoardPos|
        spec_is_knight_move(from, q) && q.col < u32::MAX && q.row < u32::MAX ==> s.contains(q)
            || call_ensures(f, (from, q), false)
}

/// The squares of a keyed ranking list, keys dropped.
pub open spec fn seq_snd(s: Seq<(usize, BoardPos)>) -> Seq<BoardPos> {
    s.map_values(|t: (usize, BoardPos)| t.1)
}

/// Inserting anywhere adds exactly that element to the multiset.
proof fn lemma_insert_to_multiset(s: Seq<BoardPos>, j: int, x: BoardPos)
    requires
        0 <= j <= s.len(),
    ensures
        s.insert(j, x).to_multiset() =~= s.to_multiset().insert(x),
{
    broadcast use vstd::seq_lib::group_to_multiset_ensures;

    let t = s.insert(j, x);
    assert(t.remove(j) =~= s);
    assert(t[j] == x);
    assert(t.remove(j).to_multiset() =~= t.to_multiset().remove(t[j]));
    assert(t.contains(x)) by {
        assert(t[j] == x);
    }
    assert(t.to_multiset().count(x) > 0);
    assert(t.to_multiset() =~= t.to_multiset().remove(x).insert(x));
}

/// The ranking key of one candidate square: the length of a faithful
/// answer of the generator one move out, with a dead end (no onward move)
/// remapped past every live count.
pub open spec fn rank_key_ok<F: Fn(BoardPos, BoardPos) -> bool>(
    f: F,
    key: usize,
    to: BoardPos,
) -> bool {
    exists|ms: Seq<BoardPos>|
        #[trigger] moves_list_ok(f, to, ms) && key as int == if ms.len() == 0 {
            usize::MAX as int
        } else {
            ms.len() as int
        }
}

/// The generator's answer is ranked: some nondecreasing key sequence pairs
/// with the moves, each key a faithful mobility rank of its move.
pub open spec fn ranked_ok<F: Fn(BoardPos, BoardPos) -> bool>(
    f: F,
    moves: Seq<BoardPos>,
    keys: Seq<usize>,
) -> bool {
    &&& keys.len() == moves.len()
    &&& forall|i: int| 0 <= i < keys.len() - 1 ==> #[trigger] keys[i] <= keys[i + 1]
    &&& forall|i: int| 0 <= i < keys.len() ==> rank_key_ok(f, #[trigger] keys[i], moves[i])
}

/// A faithful answer stays faithful under reordering.
proof fn lemma_same_multiset_answer<F: Fn(BoardPos, BoardPos) -> bool>(
    f: F,
    from: BoardPos,
    a: Seq<BoardPos>,
    b: Seq<BoardPos>,
)
    requires
        moves_list_ok(f, from, a),
        a.to_multiset() == b.to_multiset(),
    ensures
        moves_list_ok(f, from, b),
{
    broadcast use vstd::seq_lib::group_to_multiset_ensures;

    assert(b.len() == b.to_multiset().len());
    assert(a.len() == a.to_multiset().len());
    assert forall|i: int| 0 <= i < b.len() implies move_admitted(f, from, #[trigger] b[i]) by {
        assert(b.contains(b[i]));
        assert(b.to_multiset().count(b[i]) > 0);
        assert(a.to_multiset().count(b[i]) > 0);
        assert(a.contains(b[i]));
        let k = choose|k: int| 0 <= k < a.len() && a[k] == b[i];
    }
    a.lemma_multiset_has_no_duplicates();
    assert forall|x: BoardPos| b.to_multiset().contains(x) implies b.to_multiset().count(x)
        == 1 by {
        assert(a.to_multiset().contains(x));
    }
    b.lemma_multiset_has_no_duplicates_conv();
    assert forall|q: BoardPos|
        spec_is_knight_move(from, q) && q.col < u32::MAX && q.row < u32::MAX implies b.contains(q)
        || call_ensures(f, (from, q), false) by {
        if a.contains(q) {
            assert(a.to_multiset().count(q) > 0);
            assert(b.to_multiset().count(q) > 0);
            assert(b.contains(q));
        }
    }
}

/// Is the square already on the list?
fn list_contains(v: &Vec<BoardPos>, x: BoardPos) -> (r: bool)
    ensures
        r == v@.contains(x),
{
    let n = v.len();
    let mut i: usize = 0;
    while i < n
        invariant
            i <= n,
            n == v@.len(),
            forall|k: int| 0 <= k < i ==> v@[k] != x,
        decreases n - i,
    {
        if v[i] == x {
            return true;
        }
        i = i + 1;
    }
    proof {
        if v@.contains(x) {
            let k = choose|k: int| 0 <= k < v@.len() && v@[k] == x;
        }
    }
    false
}

impl Knight {
    pub fn new(position: BoardPos) -> (r: Self)
        ensures
            r.position == position,
    {
        Knight { position }
    }

    pub fn position(&self) -> (r: BoardPos)
        ensures
            r == self.position,
    {
        self.position
    }

    pub fn update_position(&mut self, new_pos: BoardPos)
        ensures
            final(self).position == new_pos,
    {
        self.position = new_pos;
    }

    pub fn clone_to(&self, new_pos: BoardPos) -> (r: Self)
        ensures
            r.position == new_pos,
    {
        Knight { position: new_pos }
    }

    /// The knight moves from the current square that the `reachable`
    /// predicate accepts, ranked so that squares with the fewest onward
    /// options come first and squares with no onward option at all come
    /// last.
    #[verifier::loop_isolation(false)]
    #[verifier::rlimit(100)]
    pub fn get_possible_moves<F: Fn(BoardPos, BoardPos) -> bool>(&self, reachable: &F) -> (r: Vec<
        BoardPos,
    >)
        requires
            forall|a: BoardPos, b: BoardPos| #[trigger] call_requires(*reachable, (a, b)),
        ensures
            moves_list_ok(*reachable, self.position, r@),
            exists|keys: Seq<usize>| #[trigger] ranked_ok(*reachable, r@, keys),
    {
        let candidates = self.possible_moves_unranked(reachable);
        // rank by onward mobility one move ahead; a candidate with no
        // onward move sorts to the very end
        let n = candidates.len();
        let mut keyed: Vec<(usize, BoardPos)> = Vec::new();
        let mut i: usize = 0;
        while i < n
            invariant
                i <= n,
                n == candidates@.len(),
                keyed@.len() == i,
                forall|k: int|
                    0 <= k < candidates@.len() ==> move_admitted(
                        *reachable,
                        self.position,
                        #[trigger] candidates@[k],
                    ),
                forall|k: int| 0 <= k < i ==> (#[trigger] keyed@[k]).1 == candidates@[k],
                forall|k: int|
                    0 <= k < i ==> rank_key_ok(*reachable, (#[trigger] keyed@[k]).0, keyed@[k].1),
            decreases n - i,
        {
            let pos = candidates[i];
            let count = self.clone_to(pos).possible_moves_count(reachable, 1);
            let key = if count < 1 {
                usize::MAX
            } else {
                count
            };
            proof {
                let ms = choose|ms: Seq<BoardPos>|
                    #[trigger] moves_list_ok(*reachable, pos, ms) && count == ms.len();
                assert(rank_key_ok(*reachable, key, pos));
            }
            keyed.push((key, pos));
            i = i + 1;
        }
        proof {
            assert(seq_snd(keyed@) =~= candidates@);
        }
        // stable insertion sort, ascending by key
        let mut sorted: Vec<(usize, BoardPos)> = Vec::new();
        let mut i: usize = 0;
        proof {
            broadcast use vstd::seq_lib::group_to_multiset_ensures;

            assert(keyed@.subrange(0, 0) =~= Seq::<(usize, BoardPos)>::empty());
            assert(seq_snd(Seq::<(usize, BoardPos)>::empty()) =~= Seq::<BoardPos>::empty());
        }
        while i < n
            invariant
                i <= n,
                n == keyed@.len(),
                sorted@.len() == i,
                seq_snd(sorted@).to_multiset() == seq_snd(keyed@.subrange(0, i as int)).to_multiset(),
                forall|k: int|
                    0 <= k < keyed@.len() ==> rank_key_ok(
                        *reachable,
                        (#[trigger] keyed@[k]).0,
                        keyed@[k].1,
                    ),
                forall|k: int|
                    0 <= k < i ==> rank_key_ok(*reachable, (#[trigger] sorted@[k]).0, sorted@[k].1),
                forall|k: int| 0 <= k < i - 1 ==> (#[trigger] sorted@[k]).0 <= sorted@[k + 1].0,
            decreases n - i,
        {
            let item = keyed[i];
            let mut j: usize = sorted.len();
            while j > 0
                invariant
                    j <= sorted@.len(),
                    forall|k: int| j <= k < sorted@.len() ==> (#[trigger] sorted@[k]).0 > item.0,
                decreases j,
            {
                if sorted[j - 1].0 <= item.0 {
                    break ;
                }
                j = j - 1;
            }
            let ghost pre = sorted@;
            sorted.insert(j, item);
            proof {
                broadcast use vstd::seq_lib::group_to_multiset_ensures;

                assert(seq_snd(sorted@) =~= seq_snd(pre).insert(j as int, item.1));
                lemma_insert_to_multiset(seq_snd(pre), j as int, item.1);
                assert(seq_snd(keyed@.subrange(0, i as int + 1)) =~= seq_snd(
                    keyed@.subrange(0, i as int),
                ).push(item.1));
                assert forall|k: int| 0 <= k < sorted@.len() implies rank_key_ok(
                    *reachable,
                    (#[trigger] sorted@[k]).0,
                    sorted@[k].1,
                ) by {
                    if k < j {
                        assert(sorted@[k] == pre[k]);
                    } else if k > j {
                        assert(sorted@[k] == pre[k - 1]);
                    } else {
                        assert(sorted@[k] == item);
                    }
                }
                assert forall|k: int| 0 <= k < sorted@.len() - 1 implies (
                #[trigger] sorted@[k]).0 <= sorted@[k + 1].0 by {
                    if k + 1 < j {
                        assert(sorted@[k] == pre[k]);
                        assert(sorted@[k + 1] == pre[k + 1]);
                    } else if k + 1 == j {
                        assert(sorted@[k] == pre[k]);
                        assert(sorted@[k + 1] == item);
                    } else if k == j {
                        assert(sorted@[k] == item);
                        assert(sorted@[k + 1] == pre[k]);
                    } else {
                        assert(sorted@[k] == pre[k - 1]);
                        assert(sorted@[k + 1] == pre[k]);
                    }
                }
            }
            i = i + 1;
        }
        proof {
            assert(keyed@.subrange(0, n as int) =~= keyed@);
        }
        let mut result: Vec<BoardPos> = Vec::new();
        let mut i: usize = 0;
        while i < n
            invariant
                i <= n,
                n == sorted@.len(),
                result@.len() == i,
                forall|k: int| 0 <= k < i ==> #[trigger] result@[k] == sorted@[k].1,
            decreases n - i,
        {
            result.push(sorted[i].1);
            i = i + 1;
        }
        proof {
            broadcast use vstd::seq_lib::group_to_multiset_ensures;

            assert(result@ =~= seq_snd(sorted@));
            assert(result@.to_multiset() == candidates@.to_multiset());
            lemma_same_multiset_answer(*reachable, self.position, candidates@, result@);
            let keys = sorted@.map_values(|t: (usize, BoardPos)| t.0);
            assert forall|k: int| 0 <= k < keys.len() implies rank_key_ok(
                *reachable,
                #[trigger] keys[k],
                result@[k],
            ) by {
                assert(keys[k] == sorted@[k].0);
                assert(result@[k] == sorted@[k].1);
            }
            assert forall|k: int| 0 <= k < keys.len() - 1 implies #[trigger] keys[k] <= keys[k
                + 1] by {
                assert(keys[k] == sorted@[k].0);
                assert(keys[k + 1] == sorted@[k + 1].0);
            }
            assert(ranked_ok(*reachable, result@, keys));
        }
        result
    }

    /// The accepted knight moves from the current square, in generation
    /// order.
    #[verifier::rlimit(100)]
    fn possible_moves_unranked<F: Fn(BoardPos, BoardPos) -> bool>(&self, reachable: &F) -> (r: Vec<
        BoardPos,
    >)
        requires
            forall|a: BoardPos, b: BoardPos| #[trigger] call_requires(*reachable, (a, b)),
        ensures
            moves_list_ok(*reachable, self.position, r@),
    {
        let mut moves: Vec<BoardPos> = Vec::new();
        self.try_move(reachable, &mut moves, 2, 1);
        self.try_move(reachable, &mut moves, 2, -1);
        self.try_move(reachable, &mut moves, -2, 1);
        self.try_move(reachable, &mut moves, -2, -1);
        self.try_move(reachable, &mut moves, 1, 2);
        self.try_move(reachable, &mut moves, 1, -2);
        self.try_move(reachable, &mut moves, -1, 2);
        self.try_move(reachable, &mut moves, -1, -2);
        proof {
            let from = self.position;
            assert forall|q: BoardPos|
                spec_is_knight_move(from, q) && q.col < u32::MAX && q.row < u32::MAX implies
                moves@.contains(q) || call_ensures(*reachable, (from, q), false) by {
                let dc = q.col as int - from.col as int;
                let dr = q.row as int - from.row as int;
                assert(crate::board_pos::spec_translate(
                    from,
                    dc,
                    dr,
                    u32::MAX as int,
                    u32::MAX as int,
                ) == Some(q));
                assert((dc == 2 && dr == 1) || (dc == 2 && dr == -1) || (dc == -2 && dr == 1) || (
                dc == -2 && dr == -1) || (dc == 1 && dr == 2) || (dc == 1 && dr == -2) || (dc == -1
                    && dr == 2) || (dc == -1 && dr == -2));
            }
        }
        moves
    }

    /// Append the move by the given delta when it exists, is accepted, and
    /// is not already listed.
    fn try_move<F: Fn(BoardPos, BoardPos) -> bool>(
        &self,
        reachable: &F,
        moves: &mut Vec<BoardPos>,
        dc: i64,
        dr: i64,
    )
        requires
            crate::move_graph::is_knight_delta(dc as int, dr as int),
            forall|a: BoardPos, b: BoardPos| #[trigger] call_requires(*reachable, (a, b)),
            old(moves)@.no_duplicates(),
            forall|i: int|
                0 <= i < old(moves)@.len() ==> move_admitted(
                    *reachable,
                    self.position,
                    #[trigger] old(moves)@[i],
                ),
        ensures
            forall|i: int|
                0 <= i < final(moves)@.len() ==> move_admitted(
                    *reachable,
                    self.position,
                    #[trigger] final(moves)@[i],
                ),
            final(moves)@.no_duplicates(),
            final(moves)@.len() <= old(moves)@.len() + 1,
            forall|x: BoardPos| old(moves)@.contains(x) ==> final(moves)@.contains(x),
            ({
                let t = crate::board_pos::spec_translate(
                    self.position,
                    dc as int,
                    dr as int,
                    u32::MAX as int,
                    u32::MAX as int,
                );
                t is Some ==> final(moves)@.contains(t.unwrap()) || call_ensures(
                    *reachable,
                    (self.position, t.unwrap()),
                    false,
                )
            }),
    {
        let ghost pre = moves@;
        if let Some(pos) = self.position.try_translate(dc, dr) {
            if reachable(self.position, pos) {
                if !list_contains(moves, pos) {
                    moves.push(pos);
                    proof {
                        assert(moves@[moves@.len() - 1] == pos);
                        assert(moves@.contains(pos));
                        assert forall|i: int, j: int|
                            0 <= i < moves@.len() && 0 <= j < moves@.len() && i != j implies moves@[i]
                            != moves@[j] by {
                            if i < pre.len() && j < pre.len() {
                                assert(pre[i] != pre[j]);
                            } else if j == pre.len() && i < pre.len() {
                                if moves@[i] == pos {
                                    assert(pre.contains(pos)) by {
                                        assert(pre[i] == pos);
                                    }
                                }
                            } else if i == pre.len() && j < pre.len() {
                                if moves@[j] == pos {
                                    assert(pre.contains(pos)) by {
                                        assert(pre[j] == pos);
                                    }
                                }
                            }
                        }
                        assert forall|x: BoardPos| pre.contains(x) implies moves@.contains(x) by {
                            let k = choose|k: int| 0 <= k < pre.len() && pre[k] == x;
                            assert(moves@[k] == x);
                        }
                    }
                }
            }
        }
    }

    /// How many accepted moves lie `moves_ahead` levels out from the current
    /// square; the Warnsdorff ranking key. One step ahead, it is the length
    /// of a faithful answer of the move generator.
    #[verifier::loop_isolation(false)]
    pub fn possible_moves_count<F: Fn(BoardPos, BoardPos) -> bool>(
        &self,
        reachable: &F,
        moves_ahead: u8,
    ) -> (r: usize)
        requires
            forall|a: BoardPos, b: BoardPos| #[trigger] call_requires(*reachable, (a, b)),
        ensures
            moves_ahead == 1 ==> exists|ms: Seq<BoardPos>|
                #[trigger] moves_list_ok(*reachable, self.position, ms) && r == ms.len(),
        decreases moves_ahead,
    {
        if moves_ahead == 0 {
            return 0;
        }
        let moves = self.possible_moves_unranked(reachable);
        if moves_ahead == 1 {
            moves.len()
        } else {
            let mut total: usize = 0;
            let n = moves.len();
            let mut i: usize = 0;
            while i < n
                invariant
                    i <= n,
                    n == moves@.len(),
                decreases n - i,
            {
                let sub = self.clone_to(moves[i]).possible_moves_count(
                    reachable,
                    moves_ahead - 1,
                );
                total = match total.checked_add(sub) {
                    Some(t) => t,
                    None => usize::MAX,
                };
                i = i + 1;
            }
            total
        }
    }
}

} // verus!
