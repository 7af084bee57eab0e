use vstd::prelude::*;

verus! {

/// The seven piece shapes.
#[derive(Clone, Copy, PartialEq, Eq, Structural, Debug, Hash)]
pub enum MinoType {
    I,
    O,
    S,
    Z,
    J,
    L,
    T,
}

/// The four rotation states; `A` is the state a piece spawns in.
#[derive(Clone, Copy, PartialEq, Eq, Structural, Debug, Hash)]
pub enum Rotation {
    A,
    B,
    C,
    D,
}

/// The catalog in the order that `MinoType::all_minos` lists it.
pub open spec fn catalog() -> Seq<MinoType> {
    seq![MinoType::I, MinoType::J, MinoType::L, MinoType::O, MinoType::S, MinoType::T, MinoType::Z]
}

/// One step clockwise.
pub open spec fn next_rotation(r: Rotation) -> Rotation {
    match r {
        Rotation::A => Rotation::B,
        Rotation::B => Rotation::C,
        Rotation::C => Rotation::D,
        Rotation::D => Rotation::A,
    }
}

/// One step counter-clockwise.
pub open spec fn prev_rotation(r: Rotation) -> Rotation {
    match r {
        Rotation::A => Rotation::D,
        Rotation::B => Rotation::A,
        Rotation::C => Rotation::B,
        Rotation::D => Rotation::C,
    }
}

/// The (row, column) offsets of the four cells of a shape in a rotation state.
pub open spec fn offsets(t: MinoType, r: Rotation) -> Seq<(u16, u16)> {
    match t {
        MinoType::I => match r {
            Rotation::A => seq![(1, 0), (1, 1), (1, 2), (1, 3)],
            Rotation::B => seq![(0, 2), (1, 2), (2, 2), (3, 2)],
            Rotation::C => seq![(2, 0), (2, 1), (2, 2), (2, 3)],
            Rotation::D => seq![(0, 1), (1, 1), (2, 1), (3, 1)],
        },
        MinoType::O => seq![(0, 0), (0, 1), (1, 0), (1, 1)],
        MinoType::S => match r {
            Rotation::A => seq![(0, 1), (0, 2), (1, 0), (1, 1)],
            Rotation::B => seq![(0, 1), (1, 1), (1, 2), (2, 2)],
            Rotation::C => seq![(1, 1), (1, 2), (2, 0), (2, 1)],
            Rotation::D => seq![(0, 0), (1, 0), (1, 1), (2, 1)],
        },
        MinoType::Z => match r {
            Rotation::A => seq![(0, 0), (0, 1), (1, 1), (1, 2)],
            Rotation::B => seq![(0, 2), (1, 1), (1, 2), (2, 1)],
            Rotation::C => seq![(1, 0), (1, 1), (2, 1), (2, 2)],
            Rotation::D => seq![(0, 1), (1, 0), (1, 1), (2, 0)],
        },
        MinoType::J => match r {
            Rotation::A => seq![(0, 0), (1, 0), (1, 1), (1, 2)],
            Rotation::B => seq![(0, 1), (0, 2), (1, 1), (2, 1)],
            Rotation::C => seq![(1, 0), (1, 1), (1, 2), (2, 2)],
            Rotation::D => seq![(0, 1), (1, 1), (2, 0), (2, 1)],
        },
        MinoType::L => match r {
            Rotation::A => seq![(0, 2), (1, 0), (1, 1), (1, 2)],
            Rotation::B => seq![(0, 1), (1, 1), (2, 1), (2, 2)],
            Rotation::C => seq![(1, 0), (1, 1), (1, 2), (2, 0)],
            Rotation::D => seq![(0, 0), (0, 1), (1, 1), (2, 1)],
        },
        MinoType::T => match r {
            Rotation::A => seq![(0, 1), (1, 0), (1, 1), (1, 2)],
            Rotation::B => seq![(0, 1), (1, 1), (1, 2), (2, 1)],
            Rotation::C => seq![(1, 0), (1, 1), (1, 2), (2, 1)],
            Rotation::D => seq![(0, 1), (1, 0), (1, 1), (2, 1)],
        },
    }
}

/// Every offset table has four cells, each within a 4 x 4 box.
pub proof fn lemma_offsets_bounded(t: MinoType, r: Rotation)
    ensures
        offsets(t, r).len() == 4,
        forall|i: int|
            0 <= i < 4 ==> offsets(t, r)[i].0 <= 3 && offsets(t, r)[i].1 <= 3,
{
}

/// Where a shape appears: the I-piece one row higher, the O-piece one column further right.
pub open spec fn spawn_pos(t: MinoType) -> (i16, i16) {
    match t {
        MinoType::I => (-1i16, 3i16),
        MinoType::O => (0, 4),
        _ => (0, 3),
    }
}

/// The order in which rotation kicks are tried, as (row, column) shifts; rows grow downward.
pub open spec fn kicks(t: MinoType, from: Rotation, to: Rotation) -> Seq<(int, int)> {
    match t {
        MinoType::O => seq![(0, 0)],
        MinoType::I => match (from, to) {
            (Rotation::A, Rotation::B) => seq![(0, 0), (0, -2), (0, 1), (1, -2), (-2, 1)],
            (Rotation::B, Rotation::A) => seq![(0, 0), (0, 2), (0, -1), (-1, 2), (2, -1)],
            (Rotation::B, Rotation::C) => seq![(0, 0), (0, -1), (0, 2), (-2, -1), (1, 2)],
            (Rotation::C, Rotation::B) => seq![(0, 0), (0, 1), (0, -2), (2, 1), (-1, -2)],
            (Rotation::C, Rotation::D) => seq![(0, 0), (0, 2), (0, -1), (-1, 2), (2, -1)],
            (Rotation::D, Rotation::C) => seq![(0, 0), (0, -2), (0, 1), (1, -2), (-2, 1)],
            (Rotation::D, Rotation::A) => seq![(0, 0), (0, 1), (0, -2), (2, 1), (-1, -2)],
            (Rotation::A, Rotation::D) => seq![(0, 0), (0, -1), (0, 2), (-2, -1), (1, 2)],
            _ => seq![(0, 0)],
        },
        _ => match (from, to) {
            (Rotation::A, Rotation::B) => seq![(0, 0), (0, -1), (-1, -1), (2, 0), (2, -1)],
            (Rotation::B, Rotation::A) => seq![(0, 0), (0, 1), (1, 1), (-2, 0), (-2, 1)],
            (Rotation::B, Rotation::C) => seq![(0, 0), (0, 1), (1, 1), (-2, 0), (-2, 1)],
            (Rotation::C, Rotation::B) => seq![(0, 0), (0, -1), (-1, -1), (2, 0), (2, -1)],
            (Rotation::C, Rotation::D) => seq![(0, 0), (0, 1), (-1, 1), (2, 0), (2, 1)],
            (Rotation::D, Rotation::C) => seq![(0, 0), (0, -1), (1, -1), (-2, 0), (-2, -1)],
            (Rotation::D, Rotation::A) => seq![(0, 0), (0, -1), (1, -1), (-2, 0), (-2, -1)],
            (Rotation::A, Rotation::D) => seq![(0, 0), (0, 1), (-1, 1), (2, 0), (2, 1)],
            _ => seq![(0, 0)],
        },
    }
}

/// Machine shifts read as integers.
pub open spec fn shifts_view(v: Seq<(i16, i16)>) -> Seq<(int, int)> {
    v.map_values(|p: (i16, i16)| (p.0 as int, p.1 as int))
}

impl MinoType {
    /// Every shape once.
    pub fn all_minos() -> (r: Vec<MinoType>)
        ensures
            r@ == catalog(),
    {
        let r = vec![
            MinoType::I,
            MinoType::J,
            MinoType::L,
            MinoType::O,
            MinoType::S,
            MinoType::T,
            MinoType::Z,
        ];
        assert(r@ =~= catalog());
        r
    }

    /// The offsets of the shape's cells in the given rotation state.
    pub fn blocks(&self, rotation: Rotation) -> (r: [(u16, u16); 4])
        ensures
            r@ == offsets(*self, rotation),
    {
        let r: [(u16, u16); 4] = match self {
            MinoType::I => match rotation {
                Rotation::A => [(1, 0), (1, 1), (1, 2), (1, 3)],
                Rotation::B => [(0, 2), (1, 2), (2, 2), (3, 2)],
                Rotation::C => [(2, 0), (2, 1), (2, 2), (2, 3)],
                Rotation::D => [(0, 1), (1, 1), (2, 1), (3, 1)],
            },
            MinoType::O => [(0, 0), (0, 1), (1, 0), (1, 1)],
            MinoType::S => match rotation {
                Rotation::A => [(0, 1), (0, 2), (1, 0), (1, 1)],
                Rotation::B => [(0, 1), (1, 1), (1, 2), (2, 2)],
                Rotation::C => [(1, 1), (1, 2), (2, 0), (2, 1)],
                Rotation::D => [(0, 0), (1, 0), (1, 1), (2, 1)],
            },
            MinoType::Z => match rotation {
                Rotation::A => [(0, 0), (0, 1), (1, 1), (1, 2)],
                Rotation::B => [(0, 2), (1, 1), (1, 2), (2, 1)],
                Rotation::C => [(1, 0), (1, 1), (2, 1), (2, 2)],
                Rotation::D => [(0, 1), (1, 0), (1, 1), (2, 0)],
            },
            MinoType::J => match rotation {
                Rotation::A => [(0, 0), (1, 0), (1, 1), (1, 2)],
                Rotation::B => [(0, 1), (0, 2), (1, 1), (2, 1)],
                Rotation::C => [(1, 0), (1, 1), (1, 2), (2, 2)],
                Rotation::D => [(0, 1), (1, 1), (2, 0), (2, 1)],
            },
            MinoType::L => match rotation {
                Rotation::A => [(0, 2), (1, 0), (1, 1), (1, 2)],
                Rotation::B => [(0, 1), (1, 1), (2, 1), (2, 2)],
                Rotation::C => [(1, 0), (1, 1), (1, 2), (2, 0)],
                Rotation::D => [(0, 0), (0, 1), (1, 1), (2, 1)],
            },
            MinoType::T => match rotation {
                Rotation::A => [(0, 1), (1, 0), (1, 1), (1, 2)],
                Rotation::B => [(0, 1), (1, 1), (1, 2), (2, 1)],
                Rotation::C => [(1, 0), (1, 1), (1, 2), (2, 1)],
                Rotation::D => [(0, 1), (1, 0), (1, 1), (2, 1)],
            },
        };
        assert(r@ =~= offsets(*self, rotation));
        r
    }

    /// The (row, column) at which the shape spawns.
    pub fn start_pos(&self) -> (r: (i16, i16))
        ensures
            r == spawn_pos(*self),
    {
        match self {
            MinoType::I => (-1, 3),
            MinoType::O => (0, 4),
            _ => (0, 3),
        }
    }
}

impl Rotation {
    /// Advances one step, wrapping from `D` to `A`.
    pub fn rotate_right(&mut self)
        ensures
            *final(self) == next_rotation(*old(self)),
    {
        *self = match self {
            Rotation::A => Rotation::B,
            Rotation::B => Rotation::C,
            Rotation::C => Rotation::D,
            Rotation::D => Rotation::A,
        };
    }

    /// Retreats one step, wrapping from `A` to `D`.
    pub fn rotate_left(&mut self)
        ensures
            *final(self) == prev_rotation(*old(self)),
    {
        *self = match self {
            Rotation::A => Rotation::D,
            Rotation::B => Rotation::A,
            Rotation::C => Rotation::B,
            Rotation::D => Rotation::C,
        };
    }
}

/// A piece in flight: its shape, the field position of its box's top-left corner, and its rotation.
#[derive(Clone, Copy, PartialEq, Eq, Structural, Debug)]
pub struct Mino {
    pub mino_type: MinoType,
    pub row: i16,
    pub column: i16,
    pub rotation: Rotation,
}

/// The largest row or column at which a piece's cells can be computed without overflow.
pub const MAX_COORD: i16 = 32764;

impl Mino {
    /// The absolute (row, column) of the piece's cell `i`.
    pub open spec fn cell(self, i: int) -> (int, int) {
        let o = offsets(self.mino_type, self.rotation)[i];
        (self.row + o.0, self.column + o.1)
    }

    /// The same piece moved by `dr` rows and `dc` columns.
    pub open spec fn shifted(self, dr: int, dc: int) -> Mino {
        Mino { row: (self.row + dr) as i16, column: (self.column + dc) as i16, ..self }
    }

    /// A piece of the given shape at its spawn position, in rotation `A`.
    pub open spec fn spawned(t: MinoType) -> Mino {
        Mino { mino_type: t, row: spawn_pos(t).0, column: spawn_pos(t).1, rotation: Rotation::A }
    }

    pub fn new(mino_type: MinoType) -> (r: Self)
        ensures
            r == Mino::spawned(mino_type),
    {
        let (row, column) = mino_type.start_pos();
        Mino { mino_type, row, column, rotation: Rotation::A }
    }

    /// The absolute cells that the piece covers.
    pub fn blocks(&self) -> (r: Vec<(i16, i16)>)
        requires
            self.row <= MAX_COORD,
            self.column <= MAX_COORD,
        ensures
            r@.len() == 4,
            forall|i: int| 0 <= i < 4 ==> (r@[i].0 as int, r@[i].1 as int) == self.cell(i),
    {
        let offs = self.mino_type.blocks(self.rotation);
        proof {
            lemma_offsets_bounded(self.mino_type, self.rotation);
        }
        let mut r: Vec<(i16, i16)> = Vec::new();
        let mut i: usize = 0;
        while i < 4
            invariant
                i <= 4,
                offs@ == offsets(self.mino_type, self.rotation),
                self.row <= MAX_COORD,
                self.column <= MAX_COORD,
                r@.len() == i,
                forall|k: int| 0 <= k < i ==> (r@[k].0 as int, r@[k].1 as int) == self.cell(k),
            decreases 4 - i,
        {
            let (dr, dc) = offs[i];
            r.push((self.row + dr as i16, self.column + dc as i16));
            i = i + 1;
        }
        r
    }

    /// The kick shifts to try when turning from rotation `from` to this piece's rotation.
    pub fn super_rotation(&self, from: Rotation) -> (r: Vec<(i16, i16)>)
        ensures
            shifts_view(r@) == kicks(self.mino_type, from, self.rotation),
    {
        let r: Vec<(i16, i16)> = match self.mino_type {
            MinoType::O => vec![(0, 0)],
            MinoType::I => match (from, self.rotation) {
                (Rotation::A, Rotation::B) => vec![(0, 0), (0, -2), (0, 1), (1, -2), (-2, 1)],
                (Rotation::B, Rotation::A) => vec![(0, 0), (0, 2), (0, -1), (-1, 2), (2, -1)],
                (Rotation::B, Rotation::C) => vec![(0, 0), (0, -1), (0, 2), (-2, -1), (1, 2)],
                (Rotation::C, Rotation::B) => vec![(0, 0), (0, 1), (0, -2), (2, 1), (-1, -2)],
                (Rotation::C, Rotation::D) => vec![(0, 0), (0, 2), (0, -1), (-1, 2), (2, -1)],
                (Rotation::D, Rotation::C) => vec![(0, 0), (0, -2), (0, 1), (1, -2), (-2, 1)],
                (Rotation::D, Rotation::A) => vec![(0, 0), (0, 1), (0, -2), (2, 1), (-1, -2)],
                (Rotation::A, Rotation::D) => vec![(0, 0), (0, -1), (0, 2), (-2, -1), (1, 2)],
                _ => vec![(0, 0)],
            },
            _ => match (from, self.rotation) {
                (Rotation::A, Rotation::B) => vec![(0, 0), (0, -1), (-1, -1), (2, 0), (2, -1)],
                (Rotation::B, Rotation::A) => vec![(0, 0), (0, 1), (1, 1), (-2, 0), (-2, 1)],
                (Rotation::B, Rotation::C) => vec![(0, 0), (0, 1), (1, 1), (-2, 0), (-2, 1)],
                (Rotation::C, Rotation::B) => vec![(0, 0), (0, -1), (-1, -1), (2, 0), (2, -1)],
                (Rotation::C, Rotation::D) => vec![(0, 0), (0, 1), (-1, 1), (2, 0), (2, 1)],
                (Rotation::D, Rotation::C) => vec![(0, 0), (0, -1), (1, -1), (-2, 0), (-2, -1)],
                (Rotation::D, Rotation::A) => vec![(0, 0), (0, -1), (1, -1), (-2, 0), (-2, -1)],
                (Rotation::A, Rotation::D) => vec![(0, 0), (0, 1), (-1, 1), (2, 0), (2, 1)],
                _ => vec![(0, 0)],
            },
        };
        assert(shifts_view(r@) =~= kicks(self.mino_type, from, self.rotation));
        r
    }
}

} // verus!
