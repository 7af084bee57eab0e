use vstd::prelude::*;

use crate::piece::{MAX_COORD, Mino, MinoType};

verus! {

/// Visible rows; as many hidden rows lie above them.
pub const FIELD_HEIGHT: u16 = 20;

pub const FIELD_WIDTH: u16 = 10;

/// Stored rows: the hidden buffer and the visible rows.
pub const TOTAL_ROWS: u16 = 40;

pub const TOTAL_CELLS: usize = 400;

/// One row of cells, leftmost first; `None` is empty, `Some(t)` holds a block of shape `t`.
pub type RowCells = Seq<Option<MinoType>>;

/// All stored rows, topmost first. Stored row `i` is field row `i - FIELD_HEIGHT`.
pub type Board = Seq<RowCells>;

pub open spec fn board_wf(b: Board) -> bool {
    &&& b.len() == TOTAL_ROWS
    &&& forall|i: int| 0 <= i < b.len() ==> #[trigger] b[i].len() == FIELD_WIDTH
}

pub open spec fn empty_row() -> RowCells {
    Seq::new(FIELD_WIDTH as nat, |j: int| None::<MinoType>)
}

pub open spec fn empty_board() -> Board {
    Seq::new(TOTAL_ROWS as nat, |i: int| empty_row())
}

/// A cell is empty when it lies on the board and holds no block; all else is wall.
pub open spec fn cell_empty(b: Board, r: int, c: int) -> bool {
    &&& -(FIELD_HEIGHT as int) <= r < FIELD_HEIGHT
    &&& 0 <= c < FIELD_WIDTH
    &&& b[r + FIELD_HEIGHT][c] is None
}

/// Every cell of `m`, moved by `dr` rows and `dc` columns, is empty.
pub open spec fn fits_at(b: Board, m: Mino, dr: int, dc: int) -> bool {
    forall|i: int| 0 <= i < 4 ==> cell_empty(b, #[trigger] m.cell(i).0 + dr, m.cell(i).1 + dc)
}

pub open spec fn fits(b: Board, m: Mino) -> bool {
    fits_at(b, m, 0, 0)
}

/// One row further down the piece would not fit.
pub open spec fn grounded(b: Board, m: Mino) -> bool {
    !fits_at(b, m, 1, 0)
}

/// Field cell (r, c) is one of the piece's cells.
pub open spec fn covers(m: Mino, r: int, c: int) -> bool {
    exists|i: int| 0 <= i < 4 && #[trigger] m.cell(i) == (r, c)
}

/// The board with the piece's cells written in.
pub open spec fn stamp(b: Board, m: Mino) -> Board {
    Seq::new(
        b.len(),
        |i: int|
            Seq::new(
                b[i].len(),
                |j: int|
                    if covers(m, i - FIELD_HEIGHT, j) {
                        Some(m.mino_type)
                    } else {
                        b[i][j]
                    },
            ),
    )
}

pub open spec fn row_full(row: RowCells) -> bool {
    forall|j: int| 0 <= j < row.len() ==> (#[trigger] row[j]) is Some
}

pub open spec fn keeps() -> spec_fn(RowCells) -> bool {
    |row: RowCells| !row_full(row)
}

/// The rows that are not full, in their order.
pub open spec fn kept_rows(b: Board) -> Board {
    b.filter(keeps())
}

/// Full rows removed, the rest moved down in order, empty rows filling the top.
pub open spec fn cleared(b: Board) -> Board {
    Seq::new((b.len() - kept_rows(b).len()) as nat, |i: int| empty_row()) + kept_rows(b)
}

/// Placing a piece: its cells written in, then full rows cleared.
pub open spec fn placed(b: Board, m: Mino) -> Board {
    cleared(stamp(b, m))
}

/// The piece moved straight down until it is grounded.
pub open spec fn ghost(b: Board, m: Mino) -> Mino
    decreases FIELD_HEIGHT - m.row,
{
    if grounded(b, m) || m.row >= FIELD_HEIGHT {
        m
    } else {
        ghost(b, m.shifted(1, 0))
    }
}

/// A piece that fits lies near the board.
pub proof fn lemma_fits_bounds(b: Board, m: Mino, dr: int)
    requires
        fits_at(b, m, dr, 0),
    ensures
        -(FIELD_HEIGHT as int) - 3 <= m.row + dr < FIELD_HEIGHT,
        -3 <= m.column < FIELD_WIDTH,
{
    crate::piece::lemma_offsets_bounded(m.mino_type, m.rotation);
    assert(cell_empty(b, m.cell(0).0 + dr, m.cell(0).1 + 0));
}

/// A piece that fits stays in range of the machine integers when shifted by a kick.
pub proof fn lemma_shift_fits(b: Board, m: Mino, dr: int, dc: int)
    requires
        fits(b, m),
        -2 <= dr <= 2,
        -2 <= dc <= 2,
    ensures
        m.row + dr <= crate::piece::MAX_COORD,
        m.column + dc <= crate::piece::MAX_COORD,
        -30 <= m.row + dr,
        -30 <= m.column + dc,
        fits(b, m.shifted(dr, dc)) == fits_at(b, m, dr, dc),
{
    lemma_fits_bounds(b, m, 0);
    let s = m.shifted(dr, dc);
    assert forall|i: int| 0 <= i < 4 implies #[trigger] s.cell(i) == (m.cell(i).0 + dr, m.cell(i).1
        + dc) by {}
    if fits(b, s) {
        assert forall|i: int| 0 <= i < 4 implies cell_empty(
            b,
            #[trigger] m.cell(i).0 + dr,
            m.cell(i).1 + dc,
        ) by {
            assert(cell_empty(b, s.cell(i).0 + 0, s.cell(i).1 + 0));
        }
    }
    if fits_at(b, m, dr, dc) {
        assert forall|i: int| 0 <= i < 4 implies cell_empty(
            b,
            #[trigger] s.cell(i).0 + 0,
            s.cell(i).1 + 0,
        ) by {
            assert(cell_empty(b, m.cell(i).0 + dr, m.cell(i).1 + dc));
        }
    }
}

/// A piece that fits still fits after the straight drop, lands grounded, and keeps its
/// shape, column and rotation.
pub proof fn lemma_ghost_fits(b: Board, m: Mino)
    requires
        fits(b, m),
    ensures
        fits(b, ghost(b, m)),
        grounded(b, ghost(b, m)),
        ghost(b, m).row >= m.row,
        ghost(b, m) == (Mino { row: ghost(b, m).row, ..m }),
    decreases FIELD_HEIGHT - m.row,
{
    lemma_fits_bounds(b, m, 0);
    if !grounded(b, m) {
        lemma_shift_fits(b, m, 1, 0);
        lemma_ghost_fits(b, m.shifted(1, 0));
    }
}

/// After a piece is placed, the straight drop of a new piece of the same shape from its spawn
/// position, when that position is free, lands on free cells, grounded, at or below the spawn row:
/// it never overlaps the placed blocks.
pub proof fn lemma_ghost_after_place(b: Board, m: Mino)
    requires
        fits(b, m),
        fits(placed(b, m), Mino::spawned(m.mino_type)),
    ensures
        fits(placed(b, m), ghost(placed(b, m), Mino::spawned(m.mino_type))),
        grounded(placed(b, m), ghost(placed(b, m), Mino::spawned(m.mino_type))),
        ghost(placed(b, m), Mino::spawned(m.mino_type)).row >= Mino::spawned(m.mino_type).row,
        ghost(placed(b, m), Mino::spawned(m.mino_type)) == (Mino {
            row: ghost(placed(b, m), Mino::spawned(m.mino_type)).row,
            ..Mino::spawned(m.mino_type)
        }),
{
    lemma_ghost_fits(placed(b, m), Mino::spawned(m.mino_type));
}

proof fn lemma_filter_keeps_all(s: Board)
    requires
        forall|i: int| 0 <= i < s.len() ==> #[trigger] keeps()(s[i]),
    ensures
        s.filter(keeps()) == s,
    decreases s.len(),
{
    reveal(Seq::filter);
    if s.len() > 0 {
        lemma_filter_keeps_all(s.drop_last());
        assert(s.drop_last().push(s.last()) =~= s);
    }
}

/// Clearing full rows a second time changes nothing.
pub proof fn lemma_clear_idempotent(b: Board)
    requires
        board_wf(b),
    ensures
        cleared(cleared(b)) == cleared(b),
{
    let c = cleared(b);
    let kr = kept_rows(b);
    b.lemma_filter_len(keeps());
    let e = b.len() - kr.len();
    assert forall|i: int| 0 <= i < c.len() implies #[trigger] keeps()(c[i]) by {
        if i < e {
            assert(c[i][0] is None);
        } else {
            b.lemma_filter_pred(keeps(), i - e);
        }
    }
    lemma_filter_keeps_all(c);
    assert(cleared(c) =~= c);
}

/// The settled blocks.
#[derive(Clone)]
pub struct Field {
    cells: Vec<Option<MinoType>>,
}

impl View for Field {
    type V = Board;

    closed spec fn view(&self) -> Board {
        Seq::new(
            TOTAL_ROWS as nat,
            |i: int| Seq::new(FIELD_WIDTH as nat, |j: int| self.cells@[i * FIELD_WIDTH + j]),
        )
    }
}

impl Field {
    pub closed spec fn wf(&self) -> bool {
        self.cells@.len() == TOTAL_CELLS
    }

    pub proof fn lemma_view_wf(&self)
        ensures
            board_wf(self@),
    {
    }

    /// An empty field.
    pub fn new() -> (r: Self)
        ensures
            r.wf(),
            r@ == empty_board(),
    {
        let mut cells: Vec<Option<MinoType>> = Vec::new();
        let mut k: usize = 0;
        while k < TOTAL_CELLS
            invariant
                k <= TOTAL_CELLS,
                cells@.len() == k,
                forall|q: int| 0 <= q < k ==> cells@[q] is None,
            decreases TOTAL_CELLS - k,
        {
            cells.push(None);
            k = k + 1;
        }
        let r = Field { cells };
        assert forall|i: int| 0 <= i < TOTAL_ROWS implies #[trigger] r@[i] =~= empty_board()[i] by {
            assert forall|j: int| 0 <= j < FIELD_WIDTH implies r@[i][j] == empty_board()[i][j] by {
                assert(0 <= i * 10 + j < 400) by (nonlinear_arith)
                    requires
                        0 <= i < 40,
                        0 <= j < 10,
                ;
            }
        }
        assert(r@ =~= empty_board());
        r
    }

    /// The visible rows, topmost first.
    pub fn display_blocks(&self) -> (r: Vec<Vec<Option<MinoType>>>)
        requires
            self.wf(),
        ensures
            r@.len() == FIELD_HEIGHT,
            forall|i: int| 0 <= i < FIELD_HEIGHT ==> (#[trigger] r@[i])@ == self@[i + FIELD_HEIGHT],
    {
        let mut r: Vec<Vec<Option<MinoType>>> = Vec::new();
        let mut i: usize = 0;
        while i < FIELD_HEIGHT as usize
            invariant
                self.wf(),
                i <= FIELD_HEIGHT,
                r@.len() == i,
                forall|a: int| 0 <= a < i ==> (#[trigger] r@[a])@ == self@[a + FIELD_HEIGHT],
            decreases FIELD_HEIGHT - i,
        {
            let mut row: Vec<Option<MinoType>> = Vec::new();
            let mut j: usize = 0;
            while j < FIELD_WIDTH as usize
                invariant
                    self.wf(),
                    i < FIELD_HEIGHT,
                    j <= FIELD_WIDTH,
                    row@.len() == j,
                    forall|q: int| 0 <= q < j ==> row@[q] == self@[i + FIELD_HEIGHT][q],
                decreases FIELD_WIDTH - j,
            {
                row.push(self.cells[(i + FIELD_HEIGHT as usize) * FIELD_WIDTH as usize + j]);
                j = j + 1;
            }
            assert(row@ =~= self@[i + FIELD_HEIGHT]);
            r.push(row);
            i = i + 1;
        }
        r
    }

    /// Whether field cell (row, column) is on the board and holds no block.
    pub fn is_empty(&self, row: i16, column: i16) -> (r: bool)
        requires
            self.wf(),
        ensures
            r == cell_empty(self@, row as int, column as int),
    {
        if -(FIELD_HEIGHT as i16) <= row && row < FIELD_HEIGHT as i16 && 0 <= column && column
            < FIELD_WIDTH as i16 {
            let r = (row + FIELD_HEIGHT as i16) as usize;
            let k = r * 10 + column as usize;
            self.cells[k].is_none()
        } else {
            false
        }
    }

    /// Whether every cell of the piece is empty.
    pub fn can_move(&self, mino: &Mino) -> (r: bool)
        requires
            self.wf(),
            mino.row <= MAX_COORD,
            mino.column <= MAX_COORD,
        ensures
            r == fits(self@, *mino),
    {
        let blocks = mino.blocks();
        let mut i: usize = 0;
        while i < 4
            invariant
                self.wf(),
                i <= 4,
                blocks@.len() == 4,
                forall|q: int|
                    0 <= q < 4 ==> (blocks@[q].0 as int, blocks@[q].1 as int) == mino.cell(q),
                forall|q: int|
                    0 <= q < i ==> cell_empty(self@, #[trigger] mino.cell(q).0 + 0, mino.cell(q).1 + 0),
            decreases 4 - i,
        {
            let (r, c) = blocks[i];
            if !self.is_empty(r, c) {
                assert(!cell_empty(self@, mino.cell(i as int).0 + 0, mino.cell(i as int).1 + 0));
                return false;
            }
            i = i + 1;
        }
        true
    }

    /// Whether the piece could not move one row down.
    pub fn on_ground(&self, mino: &Mino) -> (r: bool)
        requires
            self.wf(),
            mino.row <= MAX_COORD,
            mino.column <= MAX_COORD,
        ensures
            r == grounded(self@, *mino),
    {
        let blocks = mino.blocks();
        let mut i: usize = 0;
        while i < 4
            invariant
                self.wf(),
                i <= 4,
                blocks@.len() == 4,
                forall|q: int|
                    0 <= q < 4 ==> (blocks@[q].0 as int, blocks@[q].1 as int) == mino.cell(q),
                forall|q: int|
                    0 <= q < i ==> cell_empty(self@, #[trigger] mino.cell(q).0 + 1, mino.cell(q).1 + 0),
            decreases 4 - i,
        {
            let (r, c) = blocks[i];
            if r >= FIELD_HEIGHT as i16 - 1 || !self.is_empty(r + 1, c) {
                assert(!cell_empty(self@, mino.cell(i as int).0 + 1, mino.cell(i as int).1 + 0));
                return true;
            }
            i = i + 1;
        }
        false
    }

    /// Writes the piece's cells, then clears full rows.
    pub fn place_mino(&mut self, mino: &Mino)
        requires
            old(self).wf(),
            fits(old(self)@, *mino),
        ensures
            final(self).wf(),
            final(self)@ == placed(old(self)@, *mino),
    {
        proof {
            lemma_fits_bounds(old(self)@, *mino, 0);
        }
        let ghost b = self@;
        let ghost before = self.cells@;
        let blocks = mino.blocks();
        let mut i: usize = 0;
        while i < 4
            invariant
                self.wf(),
                i <= 4,
                blocks@.len() == 4,
                fits(b, *mino),
                forall|q: int|
                    0 <= q < 4 ==> (blocks@[q].0 as int, blocks@[q].1 as int) == mino.cell(q),
                forall|k: int|
                    0 <= k < TOTAL_CELLS ==> #[trigger] self.cells@[k] == if exists|q: int|
                        0 <= q < i && (mino.cell(q).0 + FIELD_HEIGHT) * FIELD_WIDTH + mino.cell(
                            q,
                        ).1 == k {
                        Some(mino.mino_type)
                    } else {
                        before[k]
                    },
            decreases 4 - i,
        {
            let (r, c) = blocks[i];
            assert(cell_empty(b, mino.cell(i as int).0 + 0, mino.cell(i as int).1 + 0));
            let k = (r + FIELD_HEIGHT as i16) as usize * FIELD_WIDTH as usize + c as usize;
            self.cells.set(k, Some(mino.mino_type));
            i = i + 1;
        }
        assert forall|a: int| 0 <= a < TOTAL_ROWS implies #[trigger] self@[a] =~= stamp(b, *mino)[a] by {
            assert forall|j: int| 0 <= j < FIELD_WIDTH implies self@[a][j] == stamp(b, *mino)[a][j] by {
                let k = a * 10 + j;
                if covers(*mino, a - FIELD_HEIGHT, j) {
                    let q = choose|q: int| 0 <= q < 4 && #[trigger] mino.cell(q) == (a - 20, j);
                    assert((mino.cell(q).0 + FIELD_HEIGHT) * FIELD_WIDTH + mino.cell(q).1 == k);
                } else {
                    if exists|q: int|
                        0 <= q < 4 && (mino.cell(q).0 + FIELD_HEIGHT) * FIELD_WIDTH + mino.cell(q).1
                            == k {
                        let q = choose|q: int|
                            0 <= q < 4 && (mino.cell(q).0 + FIELD_HEIGHT) * FIELD_WIDTH
                                + mino.cell(q).1 == k;
                        assert(cell_empty(b, mino.cell(q).0 + 0, mino.cell(q).1 + 0));
                        assert(mino.cell(q) == (a - 20, j));
                    }
                }
            }
        }
        assert(self@ =~= stamp(b, *mino));
        self.clear_lines();
    }

    /// Whether stored row `i` has a block in every cell.
    fn row_is_full(&self, i: usize) -> (r: bool)
        requires
            self.wf(),
            i < TOTAL_ROWS,
        ensures
            r == row_full(self@[i as int]),
    {
        let mut j: usize = 0;
        while j < FIELD_WIDTH as usize
            invariant
                self.wf(),
                i < TOTAL_ROWS,
                j <= FIELD_WIDTH,
                forall|q: int| 0 <= q < j ==> (#[trigger] self@[i as int][q]) is Some,
            decreases FIELD_WIDTH - j,
        {
            if self.cells[i * FIELD_WIDTH as usize + j].is_none() {
                assert(self@[i as int][j as int] is None);
                return false;
            }
            j = j + 1;
        }
        true
    }

    /// Removes every full row; the rows above move down and empty rows fill the top.
    pub fn clear_lines(&mut self)
        requires
            old(self).wf(),
        ensures
            final(self).wf(),
            final(self)@ == cleared(old(self)@),
    {
        let ghost b = self@;
        let mut kept: Vec<Option<MinoType>> = Vec::new();
        let mut i: usize = 0;
        while i < TOTAL_ROWS as usize
            invariant
                self.wf(),
                self@ == b,
                i <= TOTAL_ROWS,
                kept@.len() == FIELD_WIDTH * b.take(i as int).filter(keeps()).len(),
                forall|a: int|
                    0 <= a < b.take(i as int).filter(keeps()).len() ==> (#[trigger] b.take(
                        i as int,
                    ).filter(keeps())[a]).len() == FIELD_WIDTH,
                forall|a: int, j: int|
                    0 <= a < b.take(i as int).filter(keeps()).len() && 0 <= j < FIELD_WIDTH
                        ==> kept@[a * FIELD_WIDTH + j] == #[trigger] b.take(i as int).filter(
                        keeps(),
                    )[a][j],
            decreases TOTAL_ROWS - i,
        {
            let ghost k0 = b.take(i as int).filter(keeps());
            proof {
                assert(b.take(i + 1) =~= b.take(i as int).push(b[i as int]));
                b.take(i as int).lemma_filter_push(b[i as int], keeps());
            }
            if !self.row_is_full(i) {
                let ghost start = kept@;
                let mut j: usize = 0;
                while j < FIELD_WIDTH as usize
                    invariant
                        self.wf(),
                        self@ == b,
                        i < TOTAL_ROWS,
                        j <= FIELD_WIDTH,
                        kept@.len() == start.len() + j,
                        forall|q: int| 0 <= q < start.len() ==> kept@[q] == start[q],
                        forall|q: int| 0 <= q < j ==> kept@[start.len() + q] == b[i as int][q],
                    decreases FIELD_WIDTH - j,
                {
                    kept.push(self.cells[i * FIELD_WIDTH as usize + j]);
                    j = j + 1;
                }
                proof {
                    let k1 = b.take(i + 1);
                    assert(k1.filter(keeps()) == k0.push(b[i as int]));
                    assert forall|a: int, j: int|
                        0 <= a < k1.filter(keeps()).len() && 0 <= j < FIELD_WIDTH implies kept@[a
                        * FIELD_WIDTH + j] == #[trigger] k1.filter(keeps())[a][j] by {
                        if a < k0.len() {
                            assert(k0[a][j] == k1.filter(keeps())[a][j]);
                            assert(0 <= a * 10 + j < k0.len() * 10) by (nonlinear_arith)
                                requires
                                    0 <= a < k0.len(),
                                    0 <= j < 10,
                            ;
                        }
                    }
                }
            }
            i = i + 1;
        }
        proof {
            assert(b.take(TOTAL_ROWS as int) =~= b);
            b.lemma_filter_len(keeps());
        }
        let ghost kr = kept_rows(b);
        let blank: usize = TOTAL_CELLS - kept.len();
        let mut cells: Vec<Option<MinoType>> = Vec::new();
        let mut k: usize = 0;
        while k < blank
            invariant
                k <= blank,
                blank == TOTAL_CELLS - kept@.len(),
                cells@.len() == k,
                forall|q: int| 0 <= q < k ==> cells@[q] is None,
            decreases blank - k,
        {
            cells.push(None);
            k = k + 1;
        }
        let mut k: usize = 0;
        while k < kept.len()
            invariant
                k <= kept@.len(),
                blank == TOTAL_CELLS - kept@.len(),
                cells@.len() == blank + k,
                forall|q: int| 0 <= q < blank ==> cells@[q] is None,
                forall|q: int| 0 <= q < k ==> cells@[blank + q] == kept@[q],
            decreases kept@.len() - k,
        {
            cells.push(kept[k]);
            k = k + 1;
        }
        self.cells = cells;
        proof {
            let e = (TOTAL_ROWS - kr.len()) as int;
            assert forall|a: int| 0 <= a < TOTAL_ROWS implies #[trigger] self@[a] =~= cleared(
                b,
            )[a] by {
                if a < e {
                    assert forall|j: int| 0 <= j < FIELD_WIDTH implies self@[a][j] is None by {
                        assert(a * 10 + j < e * 10) by (nonlinear_arith)
                            requires
                                0 <= a < e,
                                0 <= j < 10,
                        ;
                    }
                } else {
                    assert(kr[a - e].len() == 10);
                    assert forall|j: int| 0 <= j < FIELD_WIDTH implies self@[a][j] == kr[a - e][j] by {
                        assert(kept@[(a - e) * 10 + j] == kr[a - e][j]);
                        assert(0 <= (a - e) * 10 + j < kr.len() * 10) by (nonlinear_arith)
                            requires
                                e <= a < 40,
                                e == 40 - kr.len(),
                                0 <= j < 10,
                        ;
                    }
                }
            }
            assert(self@ =~= cleared(b));
        }
    }

    /// The piece moved straight down until it is grounded; the field is not changed.
    pub fn ghost_mino(&self, mino: &Mino) -> (r: Mino)
        requires
            self.wf(),
            mino.row <= MAX_COORD,
            mino.column <= MAX_COORD,
        ensures
            r == ghost(self@, *mino),
    {
        let mut g = *mino;
        while !self.on_ground(&g)
            invariant
                self.wf(),
                g.row <= MAX_COORD,
                g.column <= MAX_COORD,
                ghost(self@, g) == ghost(self@, *mino),
            decreases FIELD_HEIGHT - g.row,
        {
            proof {
                lemma_fits_bounds(self@, g, 1);
            }
            g.row = g.row + 1;
        }
        g
    }

    /// Whether both fields hold the same blocks.
    pub fn same_cells(&self, other: &Field) -> (r: bool)
        requires
            self.wf(),
            other.wf(),
        ensures
            r == (self@ == other@),
    {
        let mut i: usize = 0;
        while i < TOTAL_ROWS as usize
            invariant
                self.wf(),
                other.wf(),
                i <= TOTAL_ROWS,
                forall|a: int| 0 <= a < i ==> #[trigger] self@[a] == other@[a],
            decreases TOTAL_ROWS - i,
        {
            let mut j: usize = 0;
            while j < FIELD_WIDTH as usize
                invariant
                    self.wf(),
                    other.wf(),
                    i < TOTAL_ROWS,
                    j <= FIELD_WIDTH,
                    forall|q: int| 0 <= q < j ==> #[trigger] self@[i as int][q] == other@[i as int][q],
                decreases FIELD_WIDTH - j,
            {
                let k = i * 10 + j;
                let same = match (self.cells[k], other.cells[k]) {
                    (None, None) => true,
                    (Some(a), Some(b)) => a == b,
                    _ => false,
                };
                if !same {
                    assert(self@[i as int][j as int] != other@[i as int][j as int]);
                    return false;
                }
                j = j + 1;
            }
            assert(self@[i as int] =~= other@[i as int]);
            i = i + 1;
        }
        assert(self@ =~= other@);
        true
    }
}

} // verus!
