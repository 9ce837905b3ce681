use vstd::prelude::*;

use crate::codec::{decode_cells, parsed_cells};

verus! {

/// A cell position: `[row, column]`.
pub type CellCoord = [i32; 2];

/// The mathematical position of a cell.
pub open spec fn pos(c: CellCoord) -> (int, int) {
    (c[0] as int, c[1] as int)
}

/// The set of positions held in a sequence of cells.
pub open spec fn cells_of(s: Seq<CellCoord>) -> Set<(int, int)> {
    Set::new(|p: (int, int)| exists|i: int| 0 <= i < s.len() && pos(s[i]) == p)
}

/// No position occurs twice in the sequence.
pub open spec fn unique(s: Seq<CellCoord>) -> bool {
    forall|i: int, j: int| 0 <= i < j < s.len() ==> pos(s[i]) != pos(s[j])
}

/// Both coordinates of `p` stay `m` away from the ends of the `i32` range.
pub open spec fn fits(p: (int, int), m: int) -> bool {
    i32::MIN + m <= p.0 <= i32::MAX - m && i32::MIN + m <= p.1 <= i32::MAX - m
}

/// `p` and `q` are distinct and touch by a side or a corner.
pub open spec fn is_adjacent(p: (int, int), q: (int, int)) -> bool {
    p != q && -1 <= p.0 - q.0 <= 1 && -1 <= p.1 - q.1 <= 1
}

/// The eight neighbours of `(r, c)`, row by row.
pub open spec fn adjacent_cells(r: int, c: int) -> Seq<(int, int)> {
    seq![
        (r - 1, c - 1), (r - 1, c), (r - 1, c + 1),
        (r, c - 1), (r, c + 1),
        (r + 1, c - 1), (r + 1, c), (r + 1, c + 1),
    ]
}

/// How many positions of `ns` are in `s`.
pub open spec fn count_live(s: Set<(int, int)>, ns: Seq<(int, int)>) -> nat
    decreases ns.len(),
{
    if ns.len() == 0 {
        0
    } else {
        count_live(s, ns.drop_last()) + if s.contains(ns.last()) { 1nat } else { 0nat }
    }
}

/// The number of live neighbours of `p`.
pub open spec fn live_neighbors(s: Set<(int, int)>, p: (int, int)) -> nat {
    count_live(s, adjacent_cells(p.0, p.1))
}

/// Dead cells with exactly three live neighbours.
pub open spec fn births(s: Set<(int, int)>) -> Set<(int, int)> {
    Set::new(|p: (int, int)| !s.contains(p) && live_neighbors(s, p) == 3)
}

/// Live cells with two or three live neighbours.
pub open spec fn survivors(s: Set<(int, int)>) -> Set<(int, int)> {
    Set::new(
        |p: (int, int)| s.contains(p) && (live_neighbors(s, p) == 2 || live_neighbors(s, p) == 3),
    )
}

/// One generation of Conway's rule.
pub open spec fn next_generation(s: Set<(int, int)>) -> Set<(int, int)> {
    Set::new(
        |p: (int, int)|
            if s.contains(p) {
                live_neighbors(s, p) == 2 || live_neighbors(s, p) == 3
            } else {
                live_neighbors(s, p) == 3
            },
    )
}

/// `s` moved by `dr` rows and `dc` columns.
pub open spec fn translated(s: Set<(int, int)>, dr: int, dc: int) -> Set<(int, int)> {
    Set::new(|p: (int, int)| s.contains((p.0 - dr, p.1 - dc)))
}

/// `s` with every row negated.
pub open spec fn mirrored(s: Set<(int, int)>) -> Set<(int, int)> {
    Set::new(|p: (int, int)| s.contains((-p.0, p.1)))
}

/// `s` with `p` removed if present, added otherwise.
pub open spec fn toggled(s: Set<(int, int)>, p: (int, int)) -> Set<(int, int)> {
    if s.contains(p) {
        s.remove(p)
    } else {
        s.insert(p)
    }
}

/// The cells of `s` inside the inclusive rectangle from `lo` to `hi`.
pub open spec fn within(s: Set<(int, int)>, lo: (int, int), hi: (int, int)) -> Set<(int, int)> {
    s.filter(|p: (int, int)| lo.0 <= p.0 <= hi.0 && lo.1 <= p.1 <= hi.1)
}

proof fn lemma_adjacent_cells(r: int, c: int)
    ensures
        adjacent_cells(r, c).len() == 8,
        forall|k: int| 0 <= k < 8 ==> is_adjacent(#[trigger] adjacent_cells(r, c)[k], (r, c)),
        forall|p: (int, int)|
            is_adjacent(p, (r, c)) ==> exists|k: int|
                0 <= k < 8 && #[trigger] adjacent_cells(r, c)[k] == p,
{
    let ns = adjacent_cells(r, c);
    assert forall|p: (int, int)| is_adjacent(p, (r, c)) implies exists|k: int|
        0 <= k < 8 && #[trigger] adjacent_cells(r, c)[k] == p by {
        if p.0 == r - 1 {
            if p.1 == c - 1 { assert(ns[0] == p); } else if p.1 == c { assert(ns[1] == p); } else { assert(ns[2] == p); }
        } else if p.0 == r {
            if p.1 == c - 1 { assert(ns[3] == p); } else { assert(ns[4] == p); }
        } else {
            if p.1 == c - 1 { assert(ns[5] == p); } else if p.1 == c { assert(ns[6] == p); } else { assert(ns[7] == p); }
        }
    }
}

proof fn lemma_count_positive(s: Set<(int, int)>, ns: Seq<(int, int)>)
    requires
        count_live(s, ns) > 0,
    ensures
        exists|k: int| 0 <= k < ns.len() && s.contains(#[trigger] ns[k]),
    decreases ns.len(),
{
    if s.contains(ns.last()) {
        assert(s.contains(ns[ns.len() - 1]));
    } else {
        lemma_count_positive(s, ns.drop_last());
        let k = choose|k: int| 0 <= k < ns.drop_last().len() && s.contains(#[trigger] ns.drop_last()[k]);
        assert(s.contains(ns[k]));
    }
}

/// A cell with a live neighbour is itself a neighbour of a live cell.
proof fn lemma_near_live(s: Set<(int, int)>, p: (int, int))
    requires
        live_neighbors(s, p) > 0,
    ensures
        exists|q: (int, int)| s.contains(q) && is_adjacent(p, q),
{
    lemma_count_positive(s, adjacent_cells(p.0, p.1));
    lemma_adjacent_cells(p.0, p.1);
    let k = choose|k: int| 0 <= k < 8 && s.contains(#[trigger] adjacent_cells(p.0, p.1)[k]);
    let q = adjacent_cells(p.0, p.1)[k];
    assert(s.contains(q) && is_adjacent(p, q));
}

/// The live cells of a Game of Life board, with a scratch buffer reused by
/// the transition step.
#[derive(Clone, Debug)]
pub struct Life {
    state: Vec<CellCoord>,
    buffer: Vec<CellCoord>,
}

impl Life {
    /// The live set.
    pub closed spec fn cells(&self) -> Set<(int, int)> {
        cells_of(self.state@)
    }

    /// The cells held in the scratch buffer.
    pub closed spec fn scratch(&self) -> Set<(int, int)> {
        cells_of(self.buffer@)
    }

    /// Each live cell is stored once.
    pub closed spec fn wf(&self) -> bool {
        unique(self.state@)
    }

    /// A board with no live cell.
    pub fn empty() -> (r: Life)
        ensures
            r.wf(),
            r.cells() == Set::<(int, int)>::empty(),
            r.scratch().is_empty(),
    {
        let r = Life { state: Vec::new(), buffer: Vec::new() };
        assert(r.cells() =~= Set::empty());
        assert(r.scratch() =~= Set::empty());
        r
    }

    /// Removes every live cell.
    pub fn clear(&mut self)
        ensures
            final(self).wf(),
            final(self).cells() == Set::<(int, int)>::empty(),
            final(self).scratch().is_empty(),
    {
        self.state.clear();
        self.buffer.clear();
        assert(self.cells() =~= Set::empty());
        assert(self.scratch() =~= Set::empty());
    }

    /// Makes a cell live.
    fn insert(&mut self, cell: CellCoord)
        requires
            old(self).wf(),
        ensures
            final(self).wf(),
            final(self).cells() == old(self).cells().insert(pos(cell)),
            final(self).scratch() == old(self).scratch(),
    {
        let ghost before = self.state@;
        if !self.is_alive(&cell) {
            self.state.push(cell);
            assert(self.state@[before.len() as int] == cell);
            assert forall|j1: int, j2: int| 0 <= j1 < j2 < self.state@.len() implies pos(self.state@[j1]) != pos(self.state@[j2]) by {
                assert(self.state@[j1] == before[j1]);
                if j2 < before.len() {
                    assert(self.state@[j2] == before[j2]);
                }
            }
        }
        assert forall|p: (int, int)| #[trigger] self.cells().contains(p) == cells_of(before).insert(pos(cell)).contains(p) by {
            if cells_of(before).contains(p) {
                let j = choose|j: int| 0 <= j < before.len() && pos(before[j]) == p;
                assert(self.state@[j] == before[j]);
            }
            if self.cells().contains(p) {
                let j = choose|j: int| 0 <= j < self.state@.len() && pos(self.state@[j]) == p;
                if j < before.len() {
                    assert(self.state@[j] == before[j]);
                }
            }
        }
        assert(self.cells() =~= cells_of(before).insert(pos(cell)));
    }

    /// Makes every given cell live; cells already live stay so.
    pub fn add_cells(&mut self, spawns: &[CellCoord])
        requires
            old(self).wf(),
        ensures
            final(self).wf(),
            final(self).cells() == old(self).cells().union(cells_of(spawns@)),
            final(self).scratch() == old(self).scratch(),
    {
        let ghost s = self.cells();
        let mut i: usize = 0;
        while i < spawns.len()
            invariant
                0 <= i <= spawns@.len(),
                self.wf(),
                self.cells() == s.union(cells_of(spawns@.take(i as int))),
                self.scratch() == old(self).scratch(),
            decreases spawns@.len() - i,
        {
            let cell = spawns[i];
            let ghost t0 = spawns@.take(i as int);
            let ghost t1 = spawns@.take(i + 1);
            assert(t1 =~= t0.push(cell));
            self.insert(cell);
            assert forall|p: (int, int)| #[trigger] cells_of(t1).contains(p) == cells_of(t0).insert(pos(cell)).contains(p) by {
                if cells_of(t0).contains(p) {
                    let j = choose|j: int| 0 <= j < t0.len() && pos(t0[j]) == p;
                    assert(t1[j] == t0[j]);
                }
                if cells_of(t1).contains(p) {
                    let j = choose|j: int| 0 <= j < t1.len() && pos(t1[j]) == p;
                    if j < i {
                        assert(t1[j] == t0[j]);
                    }
                }
                if p == pos(cell) {
                    assert(t1[i as int] == cell);
                }
            }
            assert(cells_of(t1) =~= cells_of(t0).insert(pos(cell)));
            assert(self.cells() =~= s.union(cells_of(t1)));
            i = i + 1;
        }
        assert(spawns@.take(i as int) =~= spawns@);
    }

    /// The board whose live cells are those of either board.
    pub fn union(self, rhs: Life) -> (r: Life)
        requires
            self.wf(),
        ensures
            r.wf(),
            r.cells() == self.cells().union(rhs.cells()),
    {
        let mut life = self;
        life.add_cells(rhs.state.as_slice());
        life
    }

    /// A board whose live cells are the given ones.
    pub fn new(init_life: &[CellCoord]) -> (r: Life)
        ensures
            r.wf(),
            r.cells() == cells_of(init_life@),
            r.scratch().is_empty(),
    {
        let mut game = Self::empty();
        game.add_cells(init_life);
        assert(game.cells() =~= cells_of(init_life@));
        game
    }

    /// A board whose live cells are those of a JSON list of `[row, column]`
    /// pairs, or `None` where the bytes are not such a list.
    pub fn from_bytes(data: &[u8]) -> (r: Option<Life>)
        ensures
            r is Some <==> parsed_cells(data@) is Some,
            r is Some ==> r->0.wf() && r->0.cells() == cells_of(parsed_cells(data@)->0),
    {
        match decode_cells(data) {
            Some(coords) => Some(Self::new(coords.as_slice())),
            None => None,
        }
    }

    /// The horizontal blinker, an oscillator of period two.
    pub fn blinker() -> (r: Life)
        ensures
            r.wf(),
            r.cells() == set![(0int, -1int), (0, 0), (0, 1)],
    {
        let cells: [CellCoord; 3] = [[0, -1], [0, 0], [0, 1]];
        let r = Self::new(&cells);
        assert(pos(cells@[0]) == (0int, -1int) && pos(cells@[1]) == (0int, 0int) && pos(cells@[2]) == (0int, 1int));
        assert(r.cells() =~= set![(0int, -1int), (0, 0), (0, 1)]);
        r
    }

    /// The tub, a still life.
    pub fn tub() -> (r: Life)
        ensures
            r.wf(),
            r.cells() == set![(0int, -1int), (0, 1), (-1, 0), (1, 0)],
    {
        let cells: [CellCoord; 4] = [[0, -1], [0, 1], [-1, 0], [1, 0]];
        let r = Self::new(&cells);
        assert(pos(cells@[0]) == (0int, -1int) && pos(cells@[1]) == (0int, 1int));
        assert(pos(cells@[2]) == (-1int, 0int) && pos(cells@[3]) == (1int, 0int));
        assert(r.cells() =~= set![(0int, -1int), (0, 1), (-1, 0), (1, 0)]);
        r
    }

    /// The glider, a spaceship that moves one cell diagonally every four
    /// generations.
    pub fn glider() -> (r: Life)
        ensures
            r.wf(),
            r.cells() == set![(0int, 0int), (-1, 1), (-1, 2), (0, 2), (1, 2)],
    {
        let cells: [CellCoord; 5] = [[0, 0], [-1, 1], [-1, 2], [0, 2], [1, 2]];
        let r = Self::new(&cells);
        assert(pos(cells@[0]) == (0int, 0int) && pos(cells@[1]) == (-1int, 1int));
        assert(pos(cells@[2]) == (-1int, 2int) && pos(cells@[3]) == (0int, 2int));
        assert(pos(cells@[4]) == (1int, 2int));
        assert(r.cells() =~= set![(0int, 0int), (-1, 1), (-1, 2), (0, 2), (1, 2)]);
        r
    }

    /// Where the cell is stored, if it is live.
    fn index_of(&self, coord: &CellCoord) -> (r: Option<usize>)
        ensures
            match r {
                Some(i) => i < self.state@.len() && pos(self.state@[i as int]) == pos(*coord),
                None => !self.cells().contains(pos(*coord)),
            },
    {
        let mut i: usize = 0;
        while i < self.state.len()
            invariant
                0 <= i <= self.state@.len(),
                forall|k: int| 0 <= k < i ==> pos(self.state@[k]) != pos(*coord),
            decreases self.state@.len() - i,
        {
            let c = self.state[i];
            if c[0] == coord[0] && c[1] == coord[1] {
                return Some(i);
            }
            i = i + 1;
        }
        None
    }

    /// Kills the cell if it is live, makes it live otherwise.
    pub fn toggle_cell(&mut self, coord: CellCoord)
        requires
            old(self).wf(),
        ensures
            final(self).wf(),
            final(self).cells() == toggled(old(self).cells(), pos(coord)),
    {
        match self.index_of(&coord) {
            Some(i) => {
                let ghost before = self.state@;
                self.state.remove(i);
                assert(self.state@ =~= before.remove(i as int));
                assert forall|p: (int, int)| #[trigger] self.cells().contains(p) == cells_of(before).remove(pos(coord)).contains(p) by {
                    if self.cells().contains(p) {
                        let j = choose|j: int| 0 <= j < self.state@.len() && pos(self.state@[j]) == p;
                        if j < i {
                            assert(self.state@[j] == before[j]);
                        } else {
                            assert(self.state@[j] == before[j + 1]);
                        }
                    }
                    if cells_of(before).contains(p) && p != pos(coord) {
                        let j = choose|j: int| 0 <= j < before.len() && pos(before[j]) == p;
                        if j < i {
                            assert(self.state@[j] == before[j]);
                        } else {
                            assert(self.state@[j - 1] == before[j]);
                        }
                    }
                }
                assert(self.cells() =~= cells_of(before).remove(pos(coord)));
            },
            None => {
                self.insert(coord);
            },
        }
    }

    /// Moves every live cell by `delta`, given as `[rows, columns]`.
    pub fn translate(&mut self, delta: &CellCoord)
        requires
            old(self).wf(),
            forall|p: (int, int)| old(self).cells().contains(p) ==> fits((p.0 + delta[0], p.1 + delta[1]), 0),
        ensures
            final(self).wf(),
            final(self).cells() == translated(old(self).cells(), delta[0] as int, delta[1] as int),
            final(self).scratch().is_empty(),
    {
        let ghost s = self.cells();
        let ghost dr = delta[0] as int;
        let ghost dc = delta[1] as int;
        self.buffer.clear();
        let mut i: usize = 0;
        while i < self.state.len()
            invariant
                0 <= i <= self.state@.len(),
                self.buffer@.len() == i,
                self.wf(),
                self.cells() == s,
                dr == delta[0] as int,
                dc == delta[1] as int,
                forall|p: (int, int)| s.contains(p) ==> fits((p.0 + dr, p.1 + dc), 0),
                forall|j: int| 0 <= j < i ==> #[trigger] pos(self.buffer@[j]) == (pos(self.state@[j]).0 + dr, pos(self.state@[j]).1 + dc),
            decreases self.state@.len() - i,
        {
            let cell = self.state[i];
            assert(pos(self.state@[i as int]) == pos(cell));
            assert(s.contains(pos(cell)));
            self.buffer.push([cell[0] + delta[0], cell[1] + delta[1]]);
            assert(pos(self.buffer@[i as int]) == (pos(self.state@[i as int]).0 + dr, pos(self.state@[i as int]).1 + dc));
            i = i + 1;
        }
        assert forall|p: (int, int)| #[trigger] self.scratch().contains(p) == translated(s, dr, dc).contains(p) by {
            if self.scratch().contains(p) {
                let j = choose|j: int| 0 <= j < self.buffer@.len() && pos(self.buffer@[j]) == p;
                assert(pos(self.buffer@[j]) == (pos(self.state@[j]).0 + dr, pos(self.state@[j]).1 + dc));
            }
            if translated(s, dr, dc).contains(p) {
                let j = choose|j: int| 0 <= j < self.state@.len() && pos(self.state@[j]) == (p.0 - dr, p.1 - dc);
                assert(pos(self.buffer@[j]) == (pos(self.state@[j]).0 + dr, pos(self.state@[j]).1 + dc));
            }
        }
        assert(self.scratch() =~= translated(s, dr, dc));
        self.state.clear();
        assert(self.cells() =~= Set::empty());
        self.insert_saved();
        assert(self.cells() =~= translated(s, dr, dc));
    }

    /// Negates the row of every live cell.
    pub fn flip_rows(&mut self)
        requires
            old(self).wf(),
            forall|p: (int, int)| old(self).cells().contains(p) ==> p.0 != i32::MIN,
        ensures
            final(self).wf(),
            final(self).cells() == mirrored(old(self).cells()),
            final(self).scratch().is_empty(),
    {
        let ghost s = self.cells();
        self.buffer.clear();
        let mut i: usize = 0;
        while i < self.state.len()
            invariant
                0 <= i <= self.state@.len(),
                self.buffer@.len() == i,
                self.wf(),
                self.cells() == s,
                forall|p: (int, int)| s.contains(p) ==> p.0 != i32::MIN,
                forall|j: int| 0 <= j < i ==> #[trigger] pos(self.buffer@[j]) == (-pos(self.state@[j]).0, pos(self.state@[j]).1),
            decreases self.state@.len() - i,
        {
            let cell = self.state[i];
            assert(pos(self.state@[i as int]) == pos(cell));
            assert(s.contains(pos(cell)));
            self.buffer.push([-cell[0], cell[1]]);
            assert(pos(self.buffer@[i as int]) == (-pos(self.state@[i as int]).0, pos(self.state@[i as int]).1));
            i = i + 1;
        }
        assert forall|p: (int, int)| #[trigger] self.scratch().contains(p) == mirrored(s).contains(p) by {
            if self.scratch().contains(p) {
                let j = choose|j: int| 0 <= j < self.buffer@.len() && pos(self.buffer@[j]) == p;
                assert(pos(self.buffer@[j]) == (-pos(self.state@[j]).0, pos(self.state@[j]).1));
            }
            if mirrored(s).contains(p) {
                let j = choose|j: int| 0 <= j < self.state@.len() && pos(self.state@[j]) == (-p.0, p.1);
                assert(pos(self.buffer@[j]) == (-pos(self.state@[j]).0, pos(self.state@[j]).1));
            }
        }
        assert(self.scratch() =~= mirrored(s));
        self.state.clear();
        assert(self.cells() =~= Set::empty());
        self.insert_saved();
        assert(self.cells() =~= mirrored(s));
    }

    /// The live cells as a list, each once, in no particular order.
    pub fn state_as_list(&self) -> (r: Vec<CellCoord>)
        ensures
            cells_of(r@) == self.cells(),
            self.wf() ==> unique(r@),
    {
        let mut out: Vec<CellCoord> = Vec::new();
        let mut i: usize = 0;
        while i < self.state.len()
            invariant
                0 <= i <= self.state@.len(),
                out@ == self.state@.take(i as int),
            decreases self.state@.len() - i,
        {
            out.push(self.state[i]);
            assert(out@ =~= self.state@.take(i + 1));
            i = i + 1;
        }
        assert(out@ =~= self.state@);
        out
    }

    /// The live cells inside the inclusive rectangle from `min` to `max`.
    pub fn cells_within(&self, min: &CellCoord, max: &CellCoord) -> (r: Vec<CellCoord>)
        ensures
            cells_of(r@) == within(self.cells(), pos(*min), pos(*max)),
            self.wf() ==> unique(r@),
    {
        let ghost lo = pos(*min);
        let ghost hi = pos(*max);
        let mut out: Vec<CellCoord> = Vec::new();
        let mut i: usize = 0;
        while i < self.state.len()
            invariant
                0 <= i <= self.state@.len(),
                lo == pos(*min),
                hi == pos(*max),
                forall|j: int| 0 <= j < out@.len() ==> #[trigger] within(self.cells(), lo, hi).contains(pos(out@[j])),
                forall|j: int| 0 <= j < i && #[trigger] within(self.cells(), lo, hi).contains(pos(self.state@[j])) ==> cells_of(out@).contains(pos(self.state@[j])),
                forall|j: int| 0 <= j < out@.len() ==> exists|i2: int| 0 <= i2 < i && #[trigger] out@[j] == self.state@[i2],
                self.wf() ==> unique(out@),
            decreases self.state@.len() - i,
        {
            let c = self.state[i];
            assert(pos(self.state@[i as int]) == pos(c));
            assert(self.cells().contains(pos(c)));
            if min[0] <= c[0] && c[0] <= max[0] && min[1] <= c[1] && c[1] <= max[1] {
                let ghost before = out@;
                out.push(c);
                assert(out@[before.len() as int] == c);
                assert forall|p: (int, int)| cells_of(before).contains(p) implies cells_of(out@).contains(p) by {
                    let j = choose|j: int| 0 <= j < before.len() && pos(before[j]) == p;
                    assert(out@[j] == before[j]);
                }
                assert forall|j: int| 0 <= j < out@.len() implies exists|i2: int| 0 <= i2 < i + 1 && #[trigger] out@[j] == self.state@[i2] by {
                    if j < before.len() {
                        assert(out@[j] == before[j]);
                    } else {
                        assert(out@[j] == self.state@[i as int]);
                    }
                }
                proof {
                    if self.wf() {
                        assert forall|j1: int, j2: int| 0 <= j1 < j2 < out@.len() implies pos(out@[j1]) != pos(out@[j2]) by {
                            assert(out@[j1] == before[j1]);
                            if j2 == before.len() {
                                let i2 = choose|i2: int| 0 <= i2 < i && #[trigger] before[j1] == self.state@[i2];
                            } else {
                                assert(out@[j2] == before[j2]);
                            }
                        }
                    }
                }
            }
            i = i + 1;
        }
        assert forall|p: (int, int)| within(self.cells(), lo, hi).contains(p) implies cells_of(out@).contains(p) by {
            let j = choose|j: int| 0 <= j < self.state@.len() && pos(self.state@[j]) == p;
        }
        assert(cells_of(out@) =~= within(self.cells(), lo, hi));
        out
    }

    /// Whether every live cell lies far enough inside the `i32` range for
    /// [`Life::tick`] to compute the neighbourhoods it reads.
    pub fn fits_tick(&self) -> (r: bool)
        ensures
            r == self.fits_all(2),
    {
        let mut i: usize = 0;
        while i < self.state.len()
            invariant
                0 <= i <= self.state@.len(),
                forall|j: int| 0 <= j < i ==> fits(#[trigger] pos(self.state@[j]), 2),
            decreases self.state@.len() - i,
        {
            let c = self.state[i];
            if c[0] < i32::MIN + 2 || c[0] > i32::MAX - 2 || c[1] < i32::MIN + 2 || c[1] > i32::MAX - 2 {
                assert(pos(self.state@[i as int]) == pos(c));
                assert(self.cells().contains(pos(c)));
                assert(!fits(pos(c), 2));
                return false;
            }
            i = i + 1;
        }
        assert forall|p: (int, int)| self.cells().contains(p) implies fits(p, 2) by {
            let j = choose|j: int| 0 <= j < self.state@.len() && pos(self.state@[j]) == p;
        }
        true
    }

    /// Every live cell lies in the `i32` range.
    pub proof fn lemma_cells_in_range(&self)
        ensures
            forall|p: (int, int)| #[trigger] self.cells().contains(p) ==> fits(p, 0),
    {
        assert forall|p: (int, int)| #[trigger] self.cells().contains(p) implies fits(p, 0) by {
            let j = choose|j: int| 0 <= j < self.state@.len() && pos(self.state@[j]) == p;
        }
    }

    /// Every live cell stays `m` away from the ends of the `i32` range.
    pub open spec fn fits_all(&self, m: int) -> bool {
        forall|p: (int, int)| self.cells().contains(p) ==> fits(p, m)
    }

    /// The eight neighbours of a cell, row by row.
    pub fn adjecents(coord: &CellCoord) -> (r: [CellCoord; 8])
        requires
            fits(pos(*coord), 1),
        ensures
            forall|k: int| 0 <= k < 8 ==> pos(#[trigger] r[k]) == adjacent_cells(coord[0] as int, coord[1] as int)[k],
    {
        let row = coord[0];
        let col = coord[1];
        [
            [row - 1, col - 1],
            [row - 1, col],
            [row - 1, col + 1],
            [row, col - 1],
            [row, col + 1],
            [row + 1, col - 1],
            [row + 1, col],
            [row + 1, col + 1],
        ]
    }

    /// The number of live neighbours of a cell.
    fn neighbor_count(&self, coord: &CellCoord) -> (r: u8)
        requires
            fits(pos(*coord), 1),
        ensures
            r as nat == live_neighbors(self.cells(), pos(*coord)),
    {
        let adjs = Self::adjecents(coord);
        let ghost ns = adjacent_cells(coord[0] as int, coord[1] as int);
        assert(ns.len() == 8);
        let mut count: u8 = 0;
        let mut k: usize = 0;
        while k < 8
            invariant
                0 <= k <= 8,
                ns.len() == 8,
                count as nat == count_live(self.cells(), ns.take(k as int)),
                count <= k,
                forall|j: int| 0 <= j < 8 ==> pos(#[trigger] adjs[j]) == ns[j],
            decreases 8 - k,
        {
            assert(ns.take(k + 1).drop_last() =~= ns.take(k as int));
            if self.is_alive(&adjs[k]) {
                count = count + 1;
            }
            k = k + 1;
        }
        assert(ns.take(8) =~= ns);
        count
    }

    /// Whether a dead cell comes alive in the next generation: it has exactly
    /// three live neighbours.
    pub fn cell_birth(&self, coord: &CellCoord) -> (r: bool)
        requires
            fits(pos(*coord), 1),
        ensures
            r == (live_neighbors(self.cells(), pos(*coord)) == 3),
    {
        self.neighbor_count(coord) == 3
    }

    /// Whether a live cell stays alive in the next generation: it has two or
    /// three live neighbours.
    pub fn cell_survive(&self, coord: &CellCoord) -> (r: bool)
        requires
            fits(pos(*coord), 1),
        ensures
            r == (live_neighbors(self.cells(), pos(*coord)) == 2 || live_neighbors(
                self.cells(),
                pos(*coord),
            ) == 3),
    {
        let count = self.neighbor_count(coord);
        count == 2 || count == 3
    }

    /// Fills the scratch buffer with the cells born in the next generation.
    pub fn save_spawns(&mut self)
        requires
            old(self).wf(),
            old(self).fits_all(2),
        ensures
            final(self).wf(),
            final(self).cells() == old(self).cells(),
            final(self).scratch() == births(old(self).cells()),
    {
        self.buffer.clear();
        let ghost s = self.cells();
        let ghost st = self.state@;
        let mut i: usize = 0;
        while i < self.state.len()
            invariant
                0 <= i <= self.state@.len(),
                self.state@ == st,
                self.cells() == s,
                self.wf(),
                self.fits_all(2),
                forall|j: int| 0 <= j < self.buffer@.len() ==> #[trigger] births(s).contains(pos(self.buffer@[j])),
                forall|i2: int, k: int| 0 <= i2 < i && 0 <= k < 8 && #[trigger] births(s).contains(adjacent_cells(self.state@[i2][0] as int, self.state@[i2][1] as int)[k])
                    ==> cells_of(self.buffer@).contains(adjacent_cells(self.state@[i2][0] as int, self.state@[i2][1] as int)[k]),
            decreases self.state@.len() - i,
        {
            let cell = self.state[i];
            assert(pos(self.state@[i as int]) == pos(cell));
            assert(s.contains(pos(cell)));
            assert(self.cells().contains(pos(cell)));
            assert(fits(pos(cell), 2));
            let adjs = Self::adjecents(&cell);
            let ghost ns = adjacent_cells(cell[0] as int, cell[1] as int);
            let mut k: usize = 0;
            while k < 8
                invariant
                    0 <= i < self.state@.len(),
                    cell == self.state@[i as int],
                    ns == adjacent_cells(cell[0] as int, cell[1] as int),
                    ns.len() == 8,
                    self.state@ == st,
                    fits(pos(cell), 2),
                    0 <= k <= 8,
                    self.cells() == s,
                    self.wf(),
                    self.fits_all(2),
                    forall|j: int| 0 <= j < 8 ==> pos(#[trigger] adjs[j]) == ns[j],
                    forall|j: int| 0 <= j < self.buffer@.len() ==> #[trigger] births(s).contains(pos(self.buffer@[j])),
                    forall|i2: int, k2: int| 0 <= i2 < i && 0 <= k2 < 8 && #[trigger] births(s).contains(adjacent_cells(self.state@[i2][0] as int, self.state@[i2][1] as int)[k2])
                        ==> cells_of(self.buffer@).contains(adjacent_cells(self.state@[i2][0] as int, self.state@[i2][1] as int)[k2]),
                    forall|k2: int| 0 <= k2 < k && #[trigger] births(s).contains(ns[k2]) ==> cells_of(self.buffer@).contains(ns[k2]),
                decreases 8 - k,
            {
                let n = adjs[k];
                assert(pos(n) == ns[k as int]);
                if !self.is_alive(&n) && self.cell_birth(&n) {
                    let ghost old_buf = self.buffer@;
                    self.buffer.push(n);
                    assert(self.buffer@[old_buf.len() as int] == n);
                    assert forall|p: (int, int)| cells_of(old_buf).contains(p) implies cells_of(self.buffer@).contains(p) by {
                        let j = choose|j: int| 0 <= j < old_buf.len() && pos(old_buf[j]) == p;
                        assert(self.buffer@[j] == old_buf[j]);
                    }
                }
                k = k + 1;
            }
            i = i + 1;
        }
        assert forall|p: (int, int)| births(s).contains(p) implies cells_of(self.buffer@).contains(p) by {
            lemma_near_live(s, p);
            let q = choose|q: (int, int)| s.contains(q) && is_adjacent(p, q);
            let i2 = choose|i2: int| 0 <= i2 < self.state@.len() && pos(self.state@[i2]) == q;
            lemma_adjacent_cells(q.0, q.1);
            let k = choose|k: int| 0 <= k < 8 && #[trigger] adjacent_cells(q.0, q.1)[k] == p;
        }
        assert(cells_of(self.buffer@) =~= births(s));
    }

    /// Keeps only the live cells that survive into the next generation.
    pub fn kill_cells(&mut self)
        requires
            old(self).wf(),
            old(self).fits_all(1),
        ensures
            final(self).wf(),
            final(self).cells() == survivors(old(self).cells()),
            final(self).scratch() == old(self).scratch(),
    {
        let ghost s = self.cells();
        let mut kept: Vec<CellCoord> = Vec::new();
        let mut i: usize = 0;
        while i < self.state.len()
            invariant
                0 <= i <= self.state@.len(),
                self.wf(),
                self.fits_all(1),
                self.cells() == s,
                unique(kept@),
                forall|j: int| 0 <= j < kept@.len() ==> exists|i2: int| 0 <= i2 < i && #[trigger] kept@[j] == self.state@[i2],
                forall|j: int| 0 <= j < kept@.len() ==> #[trigger] survivors(s).contains(pos(kept@[j])),
                forall|i2: int| 0 <= i2 < i && #[trigger] survivors(s).contains(pos(self.state@[i2])) ==> cells_of(kept@).contains(pos(self.state@[i2])),
            decreases self.state@.len() - i,
        {
            let cell = self.state[i];
            assert(pos(self.state@[i as int]) == pos(cell));
            assert(self.cells().contains(pos(cell)));
            if self.cell_survive(&cell) {
                let ghost old_kept = kept@;
                kept.push(cell);
                assert(kept@[old_kept.len() as int] == cell);
                assert forall|j: int| 0 <= j < kept@.len() implies exists|i2: int| 0 <= i2 < i + 1 && #[trigger] kept@[j] == self.state@[i2] by {
                    if j < old_kept.len() {
                        assert(kept@[j] == old_kept[j]);
                    } else {
                        assert(kept@[j] == self.state@[i as int]);
                    }
                }
                assert forall|j1: int, j2: int| 0 <= j1 < j2 < kept@.len() implies pos(kept@[j1]) != pos(kept@[j2]) by {
                    if j2 == old_kept.len() {
                        assert(kept@[j1] == old_kept[j1]);
                        let i2 = choose|i2: int| 0 <= i2 < i && #[trigger] old_kept[j1] == self.state@[i2];
                    } else {
                        assert(kept@[j1] == old_kept[j1]);
                        assert(kept@[j2] == old_kept[j2]);
                    }
                }
                assert forall|p: (int, int)| cells_of(old_kept).contains(p) implies cells_of(kept@).contains(p) by {
                    let j = choose|j: int| 0 <= j < old_kept.len() && pos(old_kept[j]) == p;
                    assert(kept@[j] == old_kept[j]);
                }
            }
            i = i + 1;
        }
        assert(cells_of(kept@) =~= survivors(s));
        self.state = kept;
    }

    /// Adds the cells held in the scratch buffer to the live set and empties
    /// the buffer.
    pub fn insert_saved(&mut self)
        requires
            old(self).wf(),
        ensures
            final(self).wf(),
            final(self).cells() == old(self).cells().union(old(self).scratch()),
            final(self).scratch().is_empty(),
    {
        let ghost s = self.cells();
        let ghost b = self.scratch();
        let mut i: usize = 0;
        while i < self.buffer.len()
            invariant
                0 <= i <= self.buffer@.len(),
                self.wf(),
                self.scratch() == b,
                self.cells() == s.union(cells_of(self.buffer@.take(i as int))),
            decreases self.buffer@.len() - i,
        {
            let cell = self.buffer[i];
            let ghost before = self.state@;
            if !self.is_alive(&cell) {
                self.state.push(cell);
                assert(self.state@[before.len() as int] == cell);
                assert forall|j1: int, j2: int| 0 <= j1 < j2 < self.state@.len() implies pos(self.state@[j1]) != pos(self.state@[j2]) by {
                    assert(self.state@[j1] == before[j1]);
                    if j2 < before.len() {
                        assert(self.state@[j2] == before[j2]);
                    }
                }
            }
            let ghost t0 = self.buffer@.take(i as int);
            let ghost t1 = self.buffer@.take(i + 1);
            assert(t1 =~= t0.push(cell));
            assert forall|p: (int, int)| #[trigger] self.cells().contains(p) == s.union(cells_of(t1)).contains(p) by {
                if p == pos(cell) {
                    assert(t1[i as int] == cell);
                    if self.state@.len() > before.len() {
                        assert(self.state@[before.len() as int] == cell);
                    }
                }
                if cells_of(before).contains(p) {
                    let j = choose|j: int| 0 <= j < before.len() && pos(before[j]) == p;
                    assert(self.state@[j] == before[j]);
                }
                if cells_of(t0).contains(p) {
                    let j = choose|j: int| 0 <= j < t0.len() && pos(t0[j]) == p;
                    assert(t1[j] == t0[j]);
                }
                if cells_of(t1).contains(p) {
                    let j = choose|j: int| 0 <= j < t1.len() && pos(t1[j]) == p;
                    if j < i {
                        assert(t1[j] == t0[j]);
                    }
                }
                if self.cells().contains(p) {
                    let j = choose|j: int| 0 <= j < self.state@.len() && pos(self.state@[j]) == p;
                    if j < before.len() {
                        assert(self.state@[j] == before[j]);
                    }
                }
            }
            assert(self.cells() =~= s.union(cells_of(self.buffer@.take(i + 1))));
            i = i + 1;
        }
        assert(self.buffer@.take(i as int) =~= self.buffer@);
        self.buffer.clear();
        assert(self.scratch() =~= Set::empty());
    }

    /// Advances the board by one generation of Conway's rule.
    pub fn tick(&mut self)
        requires
            old(self).wf(),
            old(self).fits_all(2),
        ensures
            final(self).wf(),
            final(self).cells() == next_generation(old(self).cells()),
            final(self).scratch().is_empty(),
    {
        let ghost s = self.cells();
        self.save_spawns();
        assert forall|p: (int, int)| self.cells().contains(p) implies fits(p, 1) by {
            assert(old(self).cells().contains(p));
            assert(fits(p, 2));
        }
        self.kill_cells();
        self.insert_saved();
        assert(self.cells() =~= next_generation(s));
    }

    /// Whether the cell is live.
    pub fn is_alive(&self, coord: &CellCoord) -> (r: bool)
        ensures
            r == self.cells().contains(pos(*coord)),
    {
        let mut i: usize = 0;
        while i < self.state.len()
            invariant
                0 <= i <= self.state@.len(),
                forall|k: int| 0 <= k < i ==> pos(self.state@[k]) != pos(*coord),
            decreases self.state@.len() - i,
        {
            let c = self.state[i];
            if c[0] == coord[0] && c[1] == coord[1] {
                return true;
            }
            i = i + 1;
        }
        false
    }
}

/// Every position of `a` is in `b`.
pub open spec fn covered(a: Seq<CellCoord>, b: Seq<CellCoord>) -> bool {
    forall|i: int| 0 <= i < a.len() ==> cells_of(b).contains(#[trigger] pos(a[i]))
}

/// Whether every position of `a` is in `b`.
fn all_in(a: &Vec<CellCoord>, b: &Life) -> (r: bool)
    ensures
        r == covered(a@, b.state@),
{
    let mut i: usize = 0;
    while i < a.len()
        invariant
            0 <= i <= a@.len(),
            forall|k: int| 0 <= k < i ==> cells_of(b.state@).contains(#[trigger] pos(a@[k])),
        decreases a@.len() - i,
    {
        if !b.is_alive(&a[i]) {
            return false;
        }
        i = i + 1;
    }
    true
}

/// Two boards are equal when they have the same live cells.
impl PartialEq for Life {
    fn eq(&self, other: &Life) -> (r: bool) {
        let r = all_in(&self.state, other) && all_in(&other.state, self);
        proof {
            if r {
                assert forall|p: (int, int)| self.cells().contains(p) == other.cells().contains(p) by {
                    if self.cells().contains(p) {
                        let j = choose|j: int| 0 <= j < self.state@.len() && pos(self.state@[j]) == p;
                    }
                    if other.cells().contains(p) {
                        let j = choose|j: int| 0 <= j < other.state@.len() && pos(other.state@[j]) == p;
                    }
                }
                assert(self.cells() =~= other.cells());
            } else if self.cells() == other.cells() {
                if !covered(self.state@, other.state@) {
                    let j = choose|j: int| !(0 <= j < self.state@.len() ==> cells_of(other.state@).contains(#[trigger] pos(self.state@[j])));
                    assert(self.cells().contains(pos(self.state@[j])));
                } else {
                    let j = choose|j: int| !(0 <= j < other.state@.len() ==> cells_of(self.state@).contains(#[trigger] pos(other.state@[j])));
                    assert(other.cells().contains(pos(other.state@[j])));
                }
            }
        }
        r
    }
}

impl vstd::std_specs::cmp::PartialEqSpecImpl for Life {
    open spec fn obeys_eq_spec() -> bool {
        true
    }

    open spec fn eq_spec(&self, other: &Life) -> bool {
        self.cells() == other.cells()
    }
}

impl Eq for Life {
}

} // verus!
