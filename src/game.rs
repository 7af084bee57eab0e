use vstd::prelude::*;

use rand::rngs::ThreadRng;

use crate::bag::{BAG_SIZE, bags_ok, is_full_bag, lemma_catalog_full_bag, lemma_spawn_queue_ok, new_bag, refill};
use crate::field::{
    Board, Field, board_wf, empty_board, fits, ghost, lemma_fits_bounds, placed,
};
use crate::piece::{Mino, MinoType, Rotation, kicks, next_rotation, prev_rotation, shifts_view};

verus! {

#[derive(Clone, Copy, PartialEq, Eq, Structural, Debug)]
pub enum Direction {
    Left,
    Right,
}

/// A command that the engine applies to the game.
#[derive(Clone, Copy, PartialEq, Eq, Structural, Debug)]
pub enum MinoOperation {
    Move(Direction),
    Fall,
    RotateLeft,
    RotateRight,
    Hold,
    HardDrop,
    StartSoftDrop,
    EndSoftDrop,
    Change,
}

/// What the command queue carries.
#[derive(Clone, Copy, PartialEq, Eq, Structural, Debug)]
pub enum Event {
    End,
    DisplayAll,
    MinoOperation(MinoOperation),
}

/// Gravity runs this many times faster while soft-dropping.
pub const SOFT_DROP_FACTOR: u64 = 20;

/// The base gravity interval, in milliseconds.
pub const BASE_FALL_MS: u64 = 1000;

/// The game as values.
pub struct GameModel {
    pub field: Board,
    pub current: Option<Mino>,
    pub held: Option<MinoType>,
    pub next: Seq<MinoType>,
    pub falling_speed: u64,
    pub soft_drop: bool,
    pub can_hold: bool,
    pub game_over: bool,
}

pub open spec fn model_wf(m: GameModel) -> bool {
    &&& board_wf(m.field)
    &&& m.current is Some ==> fits(m.field, m.current->0)
    &&& bags_ok(m.next)
    &&& m.game_over ==> m.current is None
}

/// A fresh game: an empty field, no piece yet, one bag queued.
pub open spec fn initial_model(bag: Seq<MinoType>) -> GameModel {
    GameModel {
        field: empty_board(),
        current: None,
        held: None,
        next: bag,
        falling_speed: BASE_FALL_MS,
        soft_drop: false,
        can_hold: true,
        game_over: false,
    }
}

/// The gravity interval in effect.
pub open spec fn interval(m: GameModel) -> u64 {
    if m.soft_drop {
        (m.falling_speed / SOFT_DROP_FACTOR) as u64
    } else {
        m.falling_speed
    }
}

/// Takes the front of the (refilled) queue as the new piece; the run is over if it does not fit.
pub open spec fn spawn_model(m: GameModel, bag: Seq<MinoType>) -> GameModel {
    let q = refill(m.next, bag);
    let p = Mino::spawned(q[0]);
    GameModel {
        current: if fits(m.field, p) {
            Some(p)
        } else {
            None
        },
        game_over: !fits(m.field, p),
        next: q.drop_first(),
        can_hold: true,
        ..m
    }
}

/// Writes the piece into the field and leaves no piece in flight.
pub open spec fn lock_model(m: GameModel) -> GameModel {
    match m.current {
        Some(c) => GameModel { field: placed(m.field, c), current: None, ..m },
        None => m,
    }
}

pub open spec fn move_model(m: GameModel, dr: int, dc: int) -> GameModel {
    match m.current {
        Some(c) => if fits(m.field, c.shifted(dr, dc)) {
            GameModel { current: Some(c.shifted(dr, dc)), ..m }
        } else {
            m
        },
        None => m,
    }
}

pub open spec fn direction_delta(d: Direction) -> int {
    match d {
        Direction::Left => -1,
        Direction::Right => 1,
    }
}

pub open spec fn fall_model(m: GameModel, bag: Seq<MinoType>) -> GameModel {
    match m.current {
        Some(c) => if fits(m.field, c.shifted(1, 0)) {
            GameModel { current: Some(c.shifted(1, 0)), ..m }
        } else {
            spawn_model(lock_model(m), bag)
        },
        None => m,
    }
}

/// The first kick, in order, whose shifted piece fits.
pub open spec fn try_kicks(b: Board, t: Mino, ks: Seq<(int, int)>) -> Option<Mino>
    decreases ks.len(),
{
    if ks.len() == 0 {
        None
    } else if fits(b, t.shifted(ks[0].0, ks[0].1)) {
        Some(t.shifted(ks[0].0, ks[0].1))
    } else {
        try_kicks(b, t, ks.drop_first())
    }
}

pub open spec fn rotate_model(m: GameModel, right: bool) -> GameModel {
    match m.current {
        Some(c) => {
            let t = Mino {
                rotation: if right {
                    next_rotation(c.rotation)
                } else {
                    prev_rotation(c.rotation)
                },
                ..c
            };
            match try_kicks(m.field, t, kicks(c.mino_type, c.rotation, t.rotation)) {
                Some(n) => GameModel { current: Some(n), ..m },
                None => m,
            }
        },
        None => m,
    }
}

pub open spec fn hold_model(m: GameModel, bag: Seq<MinoType>) -> GameModel {
    match m.current {
        Some(c) => if !m.can_hold {
            m
        } else {
            match m.held {
                Some(h) => {
                    let p = Mino::spawned(h);
                    GameModel {
                        held: Some(c.mino_type),
                        current: if fits(m.field, p) {
                            Some(p)
                        } else {
                            None
                        },
                        game_over: !fits(m.field, p),
                        can_hold: false,
                        ..m
                    }
                },
                None => GameModel {
                    can_hold: false,
                    ..spawn_model(GameModel { held: Some(c.mino_type), current: None, ..m }, bag)
                },
            }
        },
        None => m,
    }
}

pub open spec fn hard_drop_model(m: GameModel, bag: Seq<MinoType>) -> GameModel {
    match m.current {
        Some(c) => spawn_model(
            GameModel { field: placed(m.field, ghost(m.field, c)), current: None, ..m },
            bag,
        ),
        None => m,
    }
}

/// One command applied to the game; `bag` is the shuffled bag a refill would append.
pub open spec fn step(m: GameModel, op: MinoOperation, bag: Seq<MinoType>) -> GameModel {
    if m.game_over {
        m
    } else {
        match op {
            MinoOperation::Move(d) => move_model(m, 0, direction_delta(d)),
            MinoOperation::Fall => fall_model(m, bag),
            MinoOperation::RotateLeft => rotate_model(m, false),
            MinoOperation::RotateRight => rotate_model(m, true),
            MinoOperation::Hold => hold_model(m, bag),
            MinoOperation::HardDrop => hard_drop_model(m, bag),
            MinoOperation::StartSoftDrop => GameModel { soft_drop: true, ..m },
            MinoOperation::EndSoftDrop => GameModel { soft_drop: false, ..m },
            MinoOperation::Change => spawn_model(m, bag),
        }
    }
}

/// The interval to restart the gravity clock with after a command, if it is restarted.
pub open spec fn clock_restart(m: GameModel, op: MinoOperation, after: GameModel) -> Option<u64> {
    let restarts = match op {
        MinoOperation::Move(_) | MinoOperation::RotateLeft | MinoOperation::RotateRight => false,
        MinoOperation::Fall | MinoOperation::HardDrop => m.current is Some,
        MinoOperation::Hold => m.current is Some && m.can_hold,
        _ => true,
    };
    if m.game_over || after.game_over || !restarts {
        None
    } else {
        Some(interval(after))
    }
}

proof fn lemma_kicks_small(t: MinoType, from: Rotation, to: Rotation)
    ensures
        kicks(t, from, to).len() <= 5,
        forall|i: int|
            0 <= i < kicks(t, from, to).len() ==> -2 <= #[trigger] kicks(t, from, to)[i].0 <= 2
                && -2 <= kicks(t, from, to)[i].1 <= 2,
{
}

/// The whole game: field, piece in flight, held piece, queue, gravity and hold state.
#[derive(Clone)]
pub struct GameState {
    pub field: Field,
    pub current_mino: Option<Mino>,
    pub held_mino: Option<MinoType>,
    pub next_minos: Vec<MinoType>,
    /// The base gravity interval, in milliseconds.
    pub falling_speed: u64,
    pub soft_drop: bool,
    pub can_hold: bool,
    /// Set when a new piece had no room: the run is over.
    pub game_over: bool,
}

impl View for GameState {
    type V = GameModel;

    open spec fn view(&self) -> GameModel {
        GameModel {
            field: self.field@,
            current: self.current_mino,
            held: self.held_mino,
            next: self.next_minos@,
            falling_speed: self.falling_speed,
            soft_drop: self.soft_drop,
            can_hold: self.can_hold,
            game_over: self.game_over,
        }
    }
}

impl GameState {
    pub open spec fn wf(&self) -> bool {
        self.field.wf() && model_wf(self@)
    }

    /// A fresh game whose queue holds `bag`.
    pub fn from_bag(bag: Vec<MinoType>) -> (r: Self)
        requires
            is_full_bag(bag@),
        ensures
            r.wf(),
            r@ == initial_model(bag@),
    {
        let field = Field::new();
        proof {
            field.lemma_view_wf();
            assert(bag@ =~= bag@.subrange(0, 7));
        }
        GameState {
            field,
            current_mino: None,
            held_mino: None,
            next_minos: bag,
            falling_speed: BASE_FALL_MS,
            soft_drop: false,
            can_hold: true,
            game_over: false,
        }
    }

    /// A fresh game with one shuffled bag queued.
    pub fn new(rng: &mut ThreadRng) -> (r: Self)
        ensures
            r.wf(),
            exists|bag: Seq<MinoType>| is_full_bag(bag) && r@ == initial_model(bag),
    {
        let bag = new_bag(rng);
        GameState::from_bag(bag)
    }

    /// The gravity interval in effect, in milliseconds.
    pub fn fall_interval(&self) -> (r: u64)
        ensures
            r == interval(self@),
    {
        if self.soft_drop {
            self.falling_speed / SOFT_DROP_FACTOR
        } else {
            self.falling_speed
        }
    }

    /// Spawns the next piece, appending `bag` first when one bag or less is queued.
    pub fn change_mino(&mut self, bag: Vec<MinoType>)
        requires
            old(self).wf(),
            is_full_bag(bag@),
        ensures
            final(self).wf(),
            final(self)@ == spawn_model(old(self)@, bag@),
    {
        proof {
            lemma_spawn_queue_ok(self.next_minos@, bag@);
        }
        let ghost q0 = self.next_minos@;
        if self.next_minos.len() <= BAG_SIZE {
            let mut i: usize = 0;
            while i < bag.len()
                invariant
                    i <= bag@.len(),
                    self.next_minos@ == q0 + bag@.take(i as int),
                    self.field == old(self).field,
                    self.current_mino == old(self).current_mino,
                    self.held_mino == old(self).held_mino,
                    self.falling_speed == old(self).falling_speed,
                    self.soft_drop == old(self).soft_drop,
                    self.can_hold == old(self).can_hold,
                    self.game_over == old(self).game_over,
                decreases bag@.len() - i,
            {
                self.next_minos.push(bag[i]);
                i = i + 1;
                assert(self.next_minos@ =~= q0 + bag@.take(i as int));
            }
            assert(bag@.take(bag@.len() as int) =~= bag@);
        }
        assert(self.next_minos@ == refill(q0, bag@));
        let t = self.next_minos.remove(0);
        assert(self.next_minos@ =~= refill(q0, bag@).drop_first());
        let p = Mino::new(t);
        let ok = self.field.can_move(&p);
        if ok {
            self.current_mino = Some(p);
        } else {
            self.current_mino = None;
        }
        self.game_over = !ok;
        self.can_hold = true;
    }

    /// Locks the piece in flight into the field.
    pub fn place_mino(&mut self)
        requires
            old(self).wf(),
        ensures
            final(self).wf(),
            final(self)@ == lock_model(old(self)@),
    {
        if let Some(c) = self.current_mino {
            self.field.place_mino(&c);
            self.current_mino = None;
            proof {
                self.field.lemma_view_wf();
            }
        }
    }

    /// Moves the piece by the given delta when it fits there; otherwise nothing changes.
    pub fn move_mino(&mut self, move_row: i16, move_column: i16)
        requires
            old(self).wf(),
            -2 <= move_row <= 2,
            -2 <= move_column <= 2,
        ensures
            final(self).wf(),
            final(self)@ == move_model(old(self)@, move_row as int, move_column as int),
    {
        if let Some(c) = self.current_mino {
            proof {
                crate::field::lemma_shift_fits(self.field@, c, move_row as int, move_column as int);
            }
            let cand = Mino {
                mino_type: c.mino_type,
                row: c.row + move_row,
                column: c.column + move_column,
                rotation: c.rotation,
            };
            if self.field.can_move(&cand) {
                self.current_mino = Some(cand);
            }
        }
    }

    /// Gravity: one row down when it fits, else lock and spawn.
    pub fn fall_step(&mut self, bag: Vec<MinoType>)
        requires
            old(self).wf(),
            !old(self).game_over,
            is_full_bag(bag@),
        ensures
            final(self).wf(),
            final(self)@ == fall_model(old(self)@, bag@),
    {
        if let Some(c) = self.current_mino {
            proof {
                crate::field::lemma_shift_fits(self.field@, c, 1, 0);
            }
            let cand = Mino { mino_type: c.mino_type, row: c.row + 1, column: c.column, rotation: c.rotation };
            if self.field.can_move(&cand) {
                self.current_mino = Some(cand);
            } else {
                self.place_mino();
                self.change_mino(bag);
            }
        }
    }

    /// Turns the piece, trying each kick in order; if none fits nothing changes.
    pub fn rotate_mino(&mut self, is_right: bool)
        requires
            old(self).wf(),
        ensures
            final(self).wf(),
            final(self)@ == rotate_model(old(self)@, is_right),
    {
        if let Some(c) = self.current_mino {
            let mut t = c;
            if is_right {
                t.rotation.rotate_right();
            } else {
                t.rotation.rotate_left();
            }
            let ks = t.super_rotation(c.rotation);
            let ghost all = kicks(c.mino_type, c.rotation, t.rotation);
            proof {
                lemma_kicks_small(c.mino_type, c.rotation, t.rotation);
                lemma_fits_bounds(self.field@, c, 0);
                assert(all.subrange(0, all.len() as int) =~= all);
            }
            let mut i: usize = 0;
            while i < ks.len()
                invariant
                    self.wf(),
                    self@ == old(self)@,
                    self.current_mino == Some(c),
                    fits(self.field@, c),
                    -23 <= c.row < 20,
                    -3 <= c.column < 10,
                    t == (Mino { rotation: t.rotation, ..c }),
                    t.rotation == if is_right {
                        next_rotation(c.rotation)
                    } else {
                        prev_rotation(c.rotation)
                    },
                    shifts_view(ks@) == all,
                    all == kicks(c.mino_type, c.rotation, t.rotation),
                    all.len() <= 5,
                    forall|q: int|
                        0 <= q < all.len() ==> -2 <= #[trigger] all[q].0 <= 2 && -2 <= all[q].1 <= 2,
                    i <= ks@.len(),
                    try_kicks(self.field@, t, all) == try_kicks(
                        self.field@,
                        t,
                        all.subrange(i as int, all.len() as int),
                    ),
                decreases ks@.len() - i,
            {
                let (dr, dc) = ks[i];
                assert(all[i as int] == (dr as int, dc as int));
                let cand = Mino { mino_type: t.mino_type, row: t.row + dr, column: t.column + dc, rotation: t.rotation };
                assert(cand == t.shifted(dr as int, dc as int));
                let ghost rest = all.subrange(i as int, all.len() as int);
                assert(rest.drop_first() =~= all.subrange(i + 1, all.len() as int));
                assert(rest[0] == all[i as int]);
                if self.field.can_move(&cand) {
                    self.current_mino = Some(cand);
                    assert(try_kicks(self.field@, t, rest) == Some(cand));
                    let ghost ts = Mino {
                        rotation: if is_right {
                            next_rotation(c.rotation)
                        } else {
                            prev_rotation(c.rotation)
                        },
                        ..c
                    };
                    assert(ts == t);
                    return;
                }
                i = i + 1;
            }
            assert(all.subrange(i as int, all.len() as int) =~= Seq::<(int, int)>::empty());
        }
    }

    /// Swaps the piece in flight with the held one, or stores it and spawns; allowed once per spawn.
    pub fn hold_step(&mut self, bag: Vec<MinoType>)
        requires
            old(self).wf(),
            !old(self).game_over,
            is_full_bag(bag@),
        ensures
            final(self).wf(),
            final(self)@ == hold_model(old(self)@, bag@),
    {
        if !self.can_hold {
            return;
        }
        if let Some(c) = self.current_mino {
            match self.held_mino {
                Some(h) => {
                    self.held_mino = Some(c.mino_type);
                    let p = Mino::new(h);
                    let ok = self.field.can_move(&p);
                    if ok {
                        self.current_mino = Some(p);
                    } else {
                        self.current_mino = None;
                    }
                    self.game_over = !ok;
                },
                None => {
                    self.held_mino = Some(c.mino_type);
                    self.current_mino = None;
                    self.change_mino(bag);
                },
            }
            self.can_hold = false;
        }
    }

    /// Drops the piece straight down, locks it and spawns the next one.
    pub fn hard_drop(&mut self, bag: Vec<MinoType>)
        requires
            old(self).wf(),
            !old(self).game_over,
            is_full_bag(bag@),
        ensures
            final(self).wf(),
            final(self)@ == hard_drop_model(old(self)@, bag@),
    {
        if let Some(c) = self.current_mino {
            proof {
                lemma_fits_bounds(self.field@, c, 0);
                crate::field::lemma_ghost_fits(self.field@, c);
            }
            let g = self.field.ghost_mino(&c);
            self.current_mino = Some(g);
            self.place_mino();
            self.change_mino(bag);
        }
    }

    /// Gravity speeds up until the soft drop ends.
    pub fn start_soft_drop(&mut self)
        requires
            old(self).wf(),
        ensures
            final(self).wf(),
            final(self)@ == (GameModel { soft_drop: true, ..old(self)@ }),
    {
        self.soft_drop = true;
    }

    /// Gravity returns to the base interval.
    pub fn end_soft_drop(&mut self)
        requires
            old(self).wf(),
        ensures
            final(self).wf(),
            final(self)@ == (GameModel { soft_drop: false, ..old(self)@ }),
    {
        self.soft_drop = false;
    }

    /// Applies one command; `bag` is what a refill appends. Returns the interval to restart the
    /// gravity clock with, when the command restarts it.
    pub fn apply(&mut self, op: MinoOperation, bag: Vec<MinoType>) -> (r: Option<u64>)
        requires
            old(self).wf(),
            is_full_bag(bag@),
        ensures
            final(self).wf(),
            final(self)@ == step(old(self)@, op, bag@),
            r == clock_restart(old(self)@, op, final(self)@),
    {
        if self.game_over {
            return None;
        }
        let had_piece = self.current_mino.is_some();
        let restarts = match op {
            MinoOperation::Move(d) => {
                let dc: i16 = match d {
                    Direction::Left => -1,
                    Direction::Right => 1,
                };
                self.move_mino(0, dc);
                false
            },
            MinoOperation::Fall => {
                self.fall_step(bag);
                had_piece
            },
            MinoOperation::RotateLeft => {
                self.rotate_mino(false);
                false
            },
            MinoOperation::RotateRight => {
                self.rotate_mino(true);
                false
            },
            MinoOperation::Hold => {
                let acts = had_piece && self.can_hold;
                self.hold_step(bag);
                acts
            },
            MinoOperation::HardDrop => {
                self.hard_drop(bag);
                had_piece
            },
            MinoOperation::StartSoftDrop => {
                self.start_soft_drop();
                true
            },
            MinoOperation::EndSoftDrop => {
                self.end_soft_drop();
                true
            },
            MinoOperation::Change => {
                self.change_mino(bag);
                true
            },
        };
        if restarts && !self.game_over {
            Some(self.fall_interval())
        } else {
            None
        }
    }
}

/// A hold right after a hold changes nothing: the first one spends the right to hold until the
/// next spawn, or was itself a no-op.
pub proof fn lemma_hold_twice(m: GameModel, b1: Seq<MinoType>, b2: Seq<MinoType>)
    ensures
        step(step(m, MinoOperation::Hold, b1), MinoOperation::Hold, b2) == step(
            m,
            MinoOperation::Hold,
            b1,
        ),
{
}

/// Applies one command, drawing a shuffled bag in case the command spawns and the queue needs
/// a refill.
pub fn mino_operation(rng: &mut ThreadRng, game_state: &mut GameState, event: MinoOperation) -> (r:
    Option<u64>)
    requires
        old(game_state).wf(),
    ensures
        final(game_state).wf(),
        exists|bag: Seq<MinoType>|
            is_full_bag(bag) && final(game_state)@ == step(old(game_state)@, event, bag),
        r == clock_restart(old(game_state)@, event, final(game_state)@),
{
    let bag = if game_state.next_minos.len() <= BAG_SIZE {
        new_bag(rng)
    } else {
        proof {
            lemma_catalog_full_bag();
        }
        MinoType::all_minos()
    };
    game_state.apply(event, bag)
}

/// Spawns the next piece, refilling the queue with a shuffled bag when needed.
pub fn change_mino(rng: &mut ThreadRng, game_state: &mut GameState) -> (r: Option<u64>)
    requires
        old(game_state).wf(),
    ensures
        final(game_state).wf(),
        exists|bag: Seq<MinoType>|
            is_full_bag(bag) && final(game_state)@ == step(
                old(game_state)@,
                MinoOperation::Change,
                bag,
            ),
        r == clock_restart(old(game_state)@, MinoOperation::Change, final(game_state)@),
{
    mino_operation(rng, game_state, MinoOperation::Change)
}

/// The hold command, refilling the queue with a shuffled bag when it spawns.
pub fn hold_mino(rng: &mut ThreadRng, game_state: &mut GameState) -> (r: Option<u64>)
    requires
        old(game_state).wf(),
    ensures
        final(game_state).wf(),
        exists|bag: Seq<MinoType>|
            is_full_bag(bag) && final(game_state)@ == step(
                old(game_state)@,
                MinoOperation::Hold,
                bag,
            ),
        r == clock_restart(old(game_state)@, MinoOperation::Hold, final(game_state)@),
{
    mino_operation(rng, game_state, MinoOperation::Hold)
}

/// One gravity tick, refilling the queue with a shuffled bag when it spawns.
pub fn fall_mino(rng: &mut ThreadRng, game_state: &mut GameState) -> (r: Option<u64>)
    requires
        old(game_state).wf(),
    ensures
        final(game_state).wf(),
        exists|bag: Seq<MinoType>|
            is_full_bag(bag) && final(game_state)@ == step(
                old(game_state)@,
                MinoOperation::Fall,
                bag,
            ),
        r == clock_restart(old(game_state)@, MinoOperation::Fall, final(game_state)@),
{
    mino_operation(rng, game_state, MinoOperation::Fall)
}



} // verus!
