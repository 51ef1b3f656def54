use vstd::prelude::*;
use crate::board::matrix2d::Matrix2D;
use crate::board_pos::BoardPos;
use crate::board_size::BoardSize;
use crate::move_graph::{Direction, MoveGraph};
use crate::tour::{is_open_tour, no_dead};

verus! {

/// The designated exit square of a stretched tile, by merge direction.
pub open spec fn spec_stretched_end(dir: Direction) -> BoardPos {
    match dir {
        Direction::Horizontal => BoardPos { col: 0, row: 1 },
        Direction::Vertical => BoardPos { col: 1, row: 0 },
    }
}

/// What every cache entry promises: an owning graph of the keyed size that
/// holds an open tour from the origin to the exit square of the keyed
/// direction, with no excluded squares.
pub open spec fn entry_ok(size: BoardSize, dir: Direction, g: MoveGraph<'static>) -> bool {
    &&& g.wf()
    &&& g.is_direct()
    &&& g.width == size.width
    &&& g.height == size.height
    &&& exists|mask: Matrix2D<bool>, order: Seq<BoardPos>|
        no_dead(mask, g.width, g.height) && is_open_tour(
            g,
            mask,
            order,
            BoardPos { col: 0, row: 0 },
            spec_stretched_end(dir),
        )
}

/// The entry stored under a key, scanning from the front.
pub open spec fn spec_lookup(
    entries: Seq<(BoardSize, Direction, MoveGraph<'static>)>,
    size: BoardSize,
    dir: Direction,
) -> Option<MoveGraph<'static>>
    decreases entries.len(),
{
    if entries.len() == 0 {
        None
    } else if entries[0].0 == size && entries[0].1 == dir {
        Some(entries[0].2)
    } else {
        spec_lookup(entries.drop_first(), size, dir)
    }
}

/// The memo of solved stretched tiles, keyed by size and merge direction.
/// Entries are only read once inserted.
pub struct StretchedCache {
    pub entries: Vec<(BoardSize, Direction, MoveGraph<'static>)>,
}

impl StretchedCache {
    /// Every entry holds what its key promises.
    pub open spec fn wf(&self) -> bool {
        forall|i: int|
            0 <= i < self.entries@.len() ==> entry_ok(
                (#[trigger] self.entries@[i]).0,
                self.entries@[i].1,
                self.entries@[i].2,
            )
    }

    pub fn new() -> (r: StretchedCache)
        ensures
            r.wf(),
            r.entries@.len() == 0,
    {
        StretchedCache { entries: Vec::new() }
    }

    /// The cached solution for this size and direction, if one was stored:
    /// the earliest entry recorded under the key.
    #[verifier::loop_isolation(false)]
    #[verifier::rlimit(100)]
    pub fn get(&self, size: BoardSize, direction: Direction) -> (r: Option<&MoveGraph<'static>>)
        requires
            self.wf(),
        ensures
            r is Some <==> spec_lookup(self.entries@, size, direction) is Some,
            r is Some ==> *r.unwrap() == spec_lookup(self.entries@, size, direction).unwrap(),
            r is Some ==> entry_ok(size, direction, *r.unwrap()),
    {
        let n = self.entries.len();
        proof {
            assert(self.entries@.skip(0) =~= self.entries@);
        }
        let mut i: usize = 0;
        while i < n
            invariant
                i <= n,
                n == self.entries@.len(),
                spec_lookup(self.entries@, size, direction) == spec_lookup(
                    self.entries@.skip(i as int),
                    size,
                    direction,
                ),
            decreases n - i,
        {
            let entry = &self.entries[i];
            proof {
                assert(self.entries@.skip(i as int)[0] == self.entries@[i as int]);
                assert(self.entries@.skip(i as int).drop_first() =~= self.entries@.skip(
                    i as int + 1,
                ));
            }
            if entry.0 == size && entry.1 == direction {
                proof {
                    assert(spec_lookup(self.entries@, size, direction) == Some(
                        self.entries@[i as int].2,
                    ));
                }
                return Some(&entry.2);
            }
            i = i + 1;
        }
        proof {
            assert(self.entries@.skip(n as int) =~= Seq::<
                (BoardSize, Direction, MoveGraph<'static>),
            >::empty());
        }
        None
    }

    /// Record a solved stretched tile. Lookups return the earliest entry
    /// for a key, so re-inserting a key is harmless: the newer entry merely
    /// goes unused.
    pub fn insert(&mut self, size: BoardSize, direction: Direction, graph: MoveGraph<'static>)
        requires
            old(self).wf(),
            entry_ok(size, direction, graph),
        ensures
            final(self).wf(),
            final(self).entries@ == old(self).entries@.push((size, direction, graph)),
            spec_lookup(final(self).entries@, size, direction) is Some,
            forall|s2: BoardSize, d2: Direction|
                spec_lookup(old(self).entries@, s2, d2) is Some ==> #[trigger] spec_lookup(
                    final(self).entries@,
                    s2,
                    d2,
                ) == spec_lookup(old(self).entries@, s2, d2),
            spec_lookup(old(self).entries@, size, direction) is None ==> spec_lookup(
                final(self).entries@,
                size,
                direction,
            ) == Some(graph),
    {
        proof {
            lemma_lookup_push(self.entries@, size, direction, graph);
            assert forall|s2: BoardSize, d2: Direction|
                spec_lookup(self.entries@, s2, d2) is Some implies #[trigger] spec_lookup(
                self.entries@.push((size, direction, graph)),
                s2,
                d2,
            ) == spec_lookup(self.entries@, s2, d2) by {
                lemma_lookup_push(self.entries@, s2, d2, graph);
                if !(s2 == size && d2 == direction) {
                    lemma_lookup_push_other(self.entries@, s2, d2, (size, direction, graph));
                }
            }
        }
        let ghost pre = self.entries@;
        self.entries.push((size, direction, graph));
        proof {
            assert forall|i: int| 0 <= i < self.entries@.len() implies entry_ok(
                (#[trigger] self.entries@[i]).0,
                self.entries@[i].1,
                self.entries@[i].2,
            ) by {
                if i < pre.len() {
                    assert(self.entries@[i] == pre[i]);
                }
            }
        }
    }
}

/// Pushing an entry resolves a lookup of its own key: the earlier entry
/// when one exists, the new one otherwise.
proof fn lemma_lookup_push(
    entries: Seq<(BoardSize, Direction, MoveGraph<'static>)>,
    size: BoardSize,
    dir: Direction,
    graph: MoveGraph<'static>,
)
    ensures
        spec_lookup(entries.push((size, dir, graph)), size, dir) == (match spec_lookup(
            entries,
            size,
            dir,
        ) {
            Some(g) => Some(g),
            None => Some(graph),
        }),
    decreases entries.len(),
{
    if entries.len() == 0 {
        assert(entries.push((size, dir, graph))[0] == (size, dir, graph));
        assert(entries.push((size, dir, graph)).drop_first() =~= entries);
    } else {
        assert(entries.push((size, dir, graph))[0] == entries[0]);
        assert(entries.push((size, dir, graph)).drop_first() =~= entries.drop_first().push(
            (size, dir, graph),
        ));
        lemma_lookup_push(entries.drop_first(), size, dir, graph);
    }
}

/// Pushing an entry leaves lookups of every other key unchanged.
proof fn lemma_lookup_push_other(
    entries: Seq<(BoardSize, Direction, MoveGraph<'static>)>,
    size: BoardSize,
    dir: Direction,
    entry: (BoardSize, Direction, MoveGraph<'static>),
)
    requires
        !(entry.0 == size && entry.1 == dir),
    ensures
        spec_lookup(entries.push(entry), size, dir) == spec_lookup(entries, size, dir),
    decreases entries.len(),
{
    if entries.len() == 0 {
        assert(entries.push(entry)[0] == entry);
        assert(entries.push(entry).drop_first() =~= entries);
    } else {
        assert(entries.push(entry)[0] == entries[0]);
        assert(entries.push(entry).drop_first() =~= entries.drop_first().push(entry));
        lemma_lookup_push_other(entries.drop_first(), size, dir, entry);
    }
}

/// The cached stretched solution for this size and direction, if any:
/// `Some` exactly when an entry was stored under the key.
pub fn get_stretched_cached<'a>(
    cache: &'a StretchedCache,
    size: BoardSize,
    direction: Direction,
) -> (r: Option<&'a MoveGraph<'static>>)
    requires
        cache.wf(),
    ensures
        r is Some <==> spec_lookup(cache.entries@, size, direction) is Some,
        r is Some ==> *r.unwrap() == spec_lookup(cache.entries@, size, direction).unwrap(),
        r is Some ==> entry_ok(size, direction, *r.unwrap()),
{
    cache.get(size, direction)
}

/// Record a solved stretched tile in the memo: afterwards a lookup of the
/// key finds an entry, and every other key reads as before.
pub fn insert_stretched_cache(
    cache: &mut StretchedCache,
    size: BoardSize,
    direction: Direction,
    graph: MoveGraph<'static>,
)
    requires
        old(cache).wf(),
        entry_ok(size, direction, graph),
    ensures
        final(cache).wf(),
        final(cache).entries@ == old(cache).entries@.push((size, direction, graph)),
        spec_lookup(final(cache).entries@, size, direction) is Some,
        spec_lookup(old(cache).entries@, size, direction) is None ==> spec_lookup(
            final(cache).entries@,
            size,
            direction,
        ) == Some(graph),
{
    cache.insert(size, direction, graph)
}

} // verus!
