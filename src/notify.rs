use vstd::prelude::*;

use crate::field::{FIELD_HEIGHT, FIELD_WIDTH, covers, ghost, lemma_fits_bounds};
use crate::game::GameState;
use crate::piece::{Mino, MinoType};

verus! {

/// Which display regions went stale between two snapshots, and whether the run just ended.
#[derive(Clone, Copy, PartialEq, Eq, Structural, Debug)]
pub struct Redraw {
    pub field: bool,
    pub hold: bool,
    pub next: bool,
    pub game_over: bool,
}

fn same_queue(a: &Vec<MinoType>, b: &Vec<MinoType>) -> (r: bool)
    ensures
        r == (a@ == b@),
{
    if a.len() != b.len() {
        return false;
    }
    let mut i: usize = 0;
    while i < a.len()
        invariant
            a@.len() == b@.len(),
            i <= a@.len(),
            forall|q: int| 0 <= q < i ==> a@[q] == b@[q],
        decreases a@.len() - i,
    {
        if a[i] != b[i] {
            return false;
        }
        i = i + 1;
    }
    assert(a@ =~= b@);
    true
}

fn same_piece(a: &Option<Mino>, b: &Option<Mino>) -> (r: bool)
    ensures
        r == (*a == *b),
{
    match (a, b) {
        (None, None) => true,
        (Some(x), Some(y)) => *x == *y,
        _ => false,
    }
}

fn same_held(a: &Option<MinoType>, b: &Option<MinoType>) -> (r: bool)
    ensures
        r == (*a == *b),
{
    match (a, b) {
        (None, None) => true,
        (Some(x), Some(y)) => *x == *y,
        _ => false,
    }
}

/// Compares a snapshot with the previous one: the field region is stale when the blocks or the
/// piece in flight changed, the hold region when the held piece changed, the next region when
/// the queue changed. The end of the run is signalled once, on the command that caused it.
pub fn redraw_needed(prev: &GameState, cur: &GameState) -> (r: Redraw)
    requires
        prev.field.wf(),
        cur.field.wf(),
    ensures
        r.field == (prev.field@ != cur.field@ || prev.current_mino != cur.current_mino),
        r.hold == (prev.held_mino != cur.held_mino),
        r.next == (prev.next_minos@ != cur.next_minos@),
        r.game_over == (cur.game_over && !prev.game_over),
{
    let field = !prev.field.same_cells(&cur.field) || !same_piece(
        &prev.current_mino,
        &cur.current_mino,
    );
    let hold = !same_held(&prev.held_mino, &cur.held_mino);
    let next = !same_queue(&prev.next_minos, &cur.next_minos);
    Redraw { field, hold, next, game_over: cur.game_over && !prev.game_over }
}

/// What a visible cell shows.
#[derive(Clone, Copy, PartialEq, Eq, Structural, Debug)]
pub enum Shown {
    Empty,
    Shadow,
    Block(MinoType),
}

/// Visible cell (r, c): the piece in flight over its ghost over the settled blocks.
pub open spec fn shown(g: &GameState, r: int, c: int) -> Shown {
    match g.current_mino {
        Some(m) if covers(m, r, c) => Shown::Block(m.mino_type),
        Some(m) if covers(ghost(g.field@, m), r, c) => Shown::Shadow,
        _ => match g.field@[r + FIELD_HEIGHT][c] {
            Some(t) => Shown::Block(t),
            None => Shown::Empty,
        },
    }
}

fn covers_cell(cells: &Vec<(i16, i16)>, m: Mino, r: i16, c: i16) -> (b: bool)
    requires
        cells@.len() == 4,
        forall|q: int| 0 <= q < 4 ==> (cells@[q].0 as int, cells@[q].1 as int) == m.cell(q),
    ensures
        b == covers(m, r as int, c as int),
{
    let mut q: usize = 0;
    while q < 4
        invariant
            q <= 4,
            cells@.len() == 4,
            forall|k: int| 0 <= k < 4 ==> (cells@[k].0 as int, cells@[k].1 as int) == m.cell(k),
            forall|k: int| 0 <= k < q ==> m.cell(k) != (r as int, c as int),
        decreases 4 - q,
    {
        if cells[q].0 == r && cells[q].1 == c {
            assert(m.cell(q as int) == (r as int, c as int));
            return true;
        }
        q = q + 1;
    }
    false
}

/// The visible rows as the renderer draws them, topmost first.
pub fn display_cells(g: &GameState) -> (r: Vec<Vec<Shown>>)
    requires
        g.wf(),
    ensures
        r@.len() == FIELD_HEIGHT,
        forall|i: int|
            0 <= i < FIELD_HEIGHT ==> (#[trigger] r@[i])@.len() == FIELD_WIDTH,
        forall|i: int, j: int|
            0 <= i < FIELD_HEIGHT && 0 <= j < FIELD_WIDTH ==> (#[trigger] r@[i]@[j]) == shown(g, i, j),
{
    let blocks = g.field.display_blocks();
    let mut piece: Vec<(i16, i16)> = Vec::new();
    let mut shadow: Vec<(i16, i16)> = Vec::new();
    let mut m0 = Mino { mino_type: MinoType::O, row: 0, column: 0, rotation: crate::piece::Rotation::A };
    let mut g0 = m0;
    if let Some(m) = g.current_mino {
        proof {
            lemma_fits_bounds(g.field@, m, 0);
            crate::field::lemma_ghost_fits(g.field@, m);
            lemma_fits_bounds(g.field@, ghost(g.field@, m), 0);
        }
        m0 = m;
        g0 = g.field.ghost_mino(&m);
        piece = m.blocks();
        shadow = g0.blocks();
    }
    let mut r: Vec<Vec<Shown>> = Vec::new();
    let mut i: usize = 0;
    while i < FIELD_HEIGHT as usize
        invariant
            g.wf(),
            i <= FIELD_HEIGHT,
            blocks@.len() == FIELD_HEIGHT,
            forall|a: int| 0 <= a < FIELD_HEIGHT ==> (#[trigger] blocks@[a])@ == g.field@[a + FIELD_HEIGHT],
            g.current_mino is Some ==> m0 == g.current_mino->0 && g0 == ghost(g.field@, m0)
                && piece@.len() == 4 && shadow@.len() == 4
                && (forall|q: int| 0 <= q < 4 ==> (piece@[q].0 as int, piece@[q].1 as int) == m0.cell(q))
                && (forall|q: int| 0 <= q < 4 ==> (shadow@[q].0 as int, shadow@[q].1 as int) == g0.cell(q)),
            r@.len() == i,
            forall|a: int| 0 <= a < i ==> (#[trigger] r@[a])@.len() == FIELD_WIDTH,
            forall|a: int, b: int|
                0 <= a < i && 0 <= b < FIELD_WIDTH ==> (#[trigger] r@[a]@[b]) == shown(g, a, b),
        decreases FIELD_HEIGHT - i,
    {
        let mut row: Vec<Shown> = Vec::new();
        let mut j: usize = 0;
        while j < FIELD_WIDTH as usize
            invariant
                g.wf(),
                i < FIELD_HEIGHT,
                j <= FIELD_WIDTH,
                blocks@.len() == FIELD_HEIGHT,
                forall|a: int| 0 <= a < FIELD_HEIGHT ==> (#[trigger] blocks@[a])@ == g.field@[a + FIELD_HEIGHT],
                g.current_mino is Some ==> m0 == g.current_mino->0 && g0 == ghost(g.field@, m0)
                    && piece@.len() == 4 && shadow@.len() == 4
                    && (forall|q: int| 0 <= q < 4 ==> (piece@[q].0 as int, piece@[q].1 as int) == m0.cell(q))
                    && (forall|q: int| 0 <= q < 4 ==> (shadow@[q].0 as int, shadow@[q].1 as int) == g0.cell(q)),
                row@.len() == j,
                forall|b: int| 0 <= b < j ==> row@[b] == shown(g, i as int, b),
            decreases FIELD_WIDTH - j,
        {
            let ri = i as i16;
            let cj = j as i16;
            let s = if g.current_mino.is_some() && covers_cell(&piece, m0, ri, cj) {
                Shown::Block(m0.mino_type)
            } else if g.current_mino.is_some() && covers_cell(&shadow, g0, ri, cj) {
                Shown::Shadow
            } else {
                match blocks[i][j] {
                    Some(t) => Shown::Block(t),
                    None => Shown::Empty,
                }
            };
            row.push(s);
            j = j + 1;
        }
        r.push(row);
        i = i + 1;
    }
    r
}

} // verus!
