//! Path tiles and the port-rotation algebra.
//!
//! A tile connects the eight ports on the rim of a cell by four disjoint
//! links, forming a perfect matching.  Its fixed matching is stated for a
//! tile facing north; [`Tile::traverse`] answers connectivity under any
//! facing by rotating the query into the north frame and the answer back
//! out of it.

use vstd::prelude::*;

use self::Port::{A, B, C, D, E, F, G, H};

verus! {

/// One of the four sides of a grid cell, and also the facing under which a
/// tile can be placed.
#[derive(Clone, Copy, Debug, PartialEq, Eq, Structural)]
pub enum Direction {
    North,
    West,
    South,
    East,
}

/// One of the eight labelled edge points of a cell.  `A`/`B` sit on the
/// north edge, `C`/`D` on the east edge, `E`/`F` on the south edge and
/// `G`/`H` on the west edge, named clockwise.
#[derive(Clone, Copy, Debug, PartialEq, Eq, Structural)]
pub enum Port {
    A,
    B,
    C,
    D,
    E,
    F,
    G,
    H,
}

/// The port one quarter turn clockwise from `p`.
pub open spec fn spec_turn_right(p: Port) -> Port {
    match p {
        Port::A => Port::C,
        Port::B => Port::D,
        Port::C => Port::E,
        Port::D => Port::F,
        Port::E => Port::G,
        Port::F => Port::H,
        Port::G => Port::A,
        Port::H => Port::B,
    }
}

/// The port one quarter turn counter-clockwise from `p`.
pub open spec fn spec_turn_left(p: Port) -> Port {
    match p {
        Port::A => Port::G,
        Port::B => Port::H,
        Port::C => Port::A,
        Port::D => Port::B,
        Port::E => Port::C,
        Port::F => Port::D,
        Port::G => Port::E,
        Port::H => Port::F,
    }
}

/// The matching port on the same physical edge as seen from the adjoining
/// cell: the fixed pairing A-F, B-E, C-H, D-G.
pub open spec fn spec_flip(p: Port) -> Port {
    match p {
        Port::A => Port::F,
        Port::B => Port::E,
        Port::C => Port::H,
        Port::D => Port::G,
        Port::E => Port::B,
        Port::F => Port::A,
        Port::G => Port::D,
        Port::H => Port::C,
    }
}

/// The side of the cell that `p` sits on; fixed and rotation-independent.
pub open spec fn spec_facing_side(p: Port) -> Direction {
    match p {
        Port::A | Port::B => Direction::North,
        Port::C | Port::D => Direction::East,
        Port::E | Port::F => Direction::South,
        Port::G | Port::H => Direction::West,
    }
}

/// The row and column offset of the neighbouring cell on side `d`.
pub open spec fn spec_grid_offsets(d: Direction) -> (i8, i8) {
    match d {
        Direction::North => (-1i8, 0i8),
        Direction::West => (0i8, -1i8),
        Direction::South => (1i8, 0i8),
        Direction::East => (0i8, 1i8),
    }
}

/// Rotate a true-grid port into the tile's north-relative frame: the
/// inverse rotation of `facing`.
pub open spec fn spec_normalize(facing: Direction, p: Port) -> Port {
    match facing {
        Direction::North => p,
        Direction::South => spec_turn_left(spec_turn_left(p)),
        Direction::East => spec_turn_left(p),
        Direction::West => spec_turn_right(p),
    }
}

/// Rotate a north-relative port back into the true grid frame: the forward
/// rotation of `facing`, the exact inverse of [`spec_normalize`].
pub open spec fn spec_unnormalize(facing: Direction, p: Port) -> Port {
    match facing {
        Direction::North => p,
        Direction::South => spec_turn_left(spec_turn_left(p)),
        Direction::East => spec_turn_right(p),
        Direction::West => spec_turn_left(p),
    }
}

impl Direction {
    /// Every direction once, in a fixed order.
    pub fn all() -> (r: Vec<Direction>)
        ensures
            r@ == seq![Direction::North, Direction::South, Direction::East, Direction::West],
    {
        let mut v: Vec<Direction> = Vec::new();
        v.push(Direction::North);
        v.push(Direction::South);
        v.push(Direction::East);
        v.push(Direction::West);
        proof {
            assert(v@ =~= seq![
                Direction::North,
                Direction::South,
                Direction::East,
                Direction::West,
            ]);
        }
        v
    }

    /// The row and column offset of the neighbouring cell on this side.
    pub fn grid_offsets(&self) -> (r: (i8, i8))
        ensures
            r == spec_grid_offsets(*self),
    {
        match self {
            Direction::North => (-1, 0),
            Direction::West => (0, -1),
            Direction::South => (1, 0),
            Direction::East => (0, 1),
        }
    }

    fn normalize_port(&self, p: Port) -> (r: Port)
        ensures
            r == spec_normalize(*self, p),
    {
        match self {
            Direction::North => p,
            Direction::South => p.turn_left().turn_left(),
            Direction::East => p.turn_left(),
            Direction::West => p.turn_right(),
        }
    }

    fn unnormalize_port(&self, p: Port) -> (r: Port)
        ensures
            r == spec_unnormalize(*self, p),
    {
        match self {
            Direction::North => p,
            Direction::South => p.turn_left().turn_left(),
            Direction::East => p.turn_right(),
            Direction::West => p.turn_left(),
        }
    }
}

impl Port {
    fn turn_right(&self) -> (r: Port)
        ensures
            r == spec_turn_right(*self),
    {
        match self {
            Port::A => Port::C,
            Port::B => Port::D,
            Port::C => Port::E,
            Port::D => Port::F,
            Port::E => Port::G,
            Port::F => Port::H,
            Port::G => Port::A,
            Port::H => Port::B,
        }
    }

    fn turn_left(&self) -> (r: Port)
        ensures
            r == spec_turn_left(*self),
    {
        match self {
            Port::A => Port::G,
            Port::B => Port::H,
            Port::C => Port::A,
            Port::D => Port::B,
            Port::E => Port::C,
            Port::F => Port::D,
            Port::G => Port::E,
            Port::H => Port::F,
        }
    }

    /// The matching port on the same physical edge, as seen from the
    /// adjoining cell.
    pub fn flip(&self) -> (r: Port)
        ensures
            r == spec_flip(*self),
    {
        match self {
            Port::A => Port::F,
            Port::B => Port::E,
            Port::C => Port::H,
            Port::D => Port::G,
            Port::E => Port::B,
            Port::F => Port::A,
            Port::G => Port::D,
            Port::H => Port::C,
        }
    }

    /// The side of the cell that this port sits on.
    pub fn facing_side(&self) -> (r: Direction)
        ensures
            r == spec_facing_side(*self),
    {
        match self {
            Port::A | Port::B => Direction::North,
            Port::C | Port::D => Direction::East,
            Port::E | Port::F => Direction::South,
            Port::G | Port::H => Direction::West,
        }
    }
}

/// One of the four links of a tile: the two ports it connects.
#[derive(Clone, Copy, Debug, PartialEq, Eq, Structural)]
pub struct PortPair {
    pub a: Port,
    pub b: Port,
}

/// A path tile: four disjoint links forming a perfect matching over the
/// eight ports, stated in the tile's own north-relative frame.
#[derive(Clone, Copy, Debug, PartialEq, Eq, Structural)]
pub struct Tile {
    pub link0: PortPair,
    pub link1: PortPair,
    pub link2: PortPair,
    pub link3: PortPair,
}

/// The tile whose links are `(p0, p1)`, `(p2, p3)`, `(p4, p5)`, `(p6, p7)`.
pub open spec fn tile_of(
    p0: Port, p1: Port, p2: Port, p3: Port, p4: Port, p5: Port, p6: Port, p7: Port,
) -> Tile {
    Tile {
        link0: PortPair { a: p0, b: p1 },
        link1: PortPair { a: p2, b: p3 },
        link2: PortPair { a: p4, b: p5 },
        link3: PortPair { a: p6, b: p7 },
    }
}

/// Some link of `t` has `p` as one of its ends.
pub open spec fn covers_port(t: Tile, p: Port) -> bool {
    ||| p == t.link0.a
    ||| p == t.link0.b
    ||| p == t.link1.a
    ||| p == t.link1.b
    ||| p == t.link2.a
    ||| p == t.link2.b
    ||| p == t.link3.a
    ||| p == t.link3.b
}

/// The eight link ends of `t` are pairwise distinct ports.
pub open spec fn links_disjoint(t: Tile) -> bool {
    let s0 = t.link0.a;
    let s1 = t.link0.b;
    let s2 = t.link1.a;
    let s3 = t.link1.b;
    let s4 = t.link2.a;
    let s5 = t.link2.b;
    let s6 = t.link3.a;
    let s7 = t.link3.b;
    s0 != s1 && s0 != s2 && s0 != s3 && s0 != s4 && s0 != s5 && s0 != s6 && s0 != s7
        && s1 != s2 && s1 != s3 && s1 != s4 && s1 != s5 && s1 != s6 && s1 != s7
        && s2 != s3 && s2 != s4 && s2 != s5 && s2 != s6 && s2 != s7
        && s3 != s4 && s3 != s5 && s3 != s6 && s3 != s7
        && s4 != s5 && s4 != s6 && s4 != s7
        && s5 != s6 && s5 != s7
        && s6 != s7
}

/// `t` is a perfect matching: every port is a link end, and each link end
/// appears exactly once.
pub open spec fn wf_tile(t: Tile) -> bool {
    &&& links_disjoint(t)
    &&& covers_port(t, Port::A)
    &&& covers_port(t, Port::B)
    &&& covers_port(t, Port::C)
    &&& covers_port(t, Port::D)
    &&& covers_port(t, Port::E)
    &&& covers_port(t, Port::F)
    &&& covers_port(t, Port::G)
    &&& covers_port(t, Port::H)
}

/// The port that `t`'s matching pairs with `p`, in the north-relative
/// frame; `p` itself when no link covers `p` (ruled out for well-formed
/// tiles).
pub open spec fn spec_lookup(t: Tile, p: Port) -> Port {
    if p == t.link0.a {
        t.link0.b
    } else if p == t.link0.b {
        t.link0.a
    } else if p == t.link1.a {
        t.link1.b
    } else if p == t.link1.b {
        t.link1.a
    } else if p == t.link2.a {
        t.link2.b
    } else if p == t.link2.b {
        t.link2.a
    } else if p == t.link3.a {
        t.link3.b
    } else if p == t.link3.b {
        t.link3.a
    } else {
        p
    }
}

/// Where a path entering `t` at true-grid port `from` leaves the tile, when
/// the tile is placed under `facing`.
pub open spec fn spec_traverse(t: Tile, from: Port, facing: Direction) -> Port {
    spec_unnormalize(facing, spec_lookup(t, spec_normalize(facing, from)))
}

impl Tile {
    fn lookup(&self, p: Port) -> (r: Port)
        ensures
            r == spec_lookup(*self, p),
    {
        if p == self.link0.a {
            self.link0.b
        } else if p == self.link0.b {
            self.link0.a
        } else if p == self.link1.a {
            self.link1.b
        } else if p == self.link1.b {
            self.link1.a
        } else if p == self.link2.a {
            self.link2.b
        } else if p == self.link2.b {
            self.link2.a
        } else if p == self.link3.a {
            self.link3.b
        } else if p == self.link3.b {
            self.link3.a
        } else {
            p
        }
    }

    /// Follow the path that enters this tile at true-grid port `from` when
    /// the tile is placed under `facing`, and return the port where it
    /// leaves the tile.
    pub fn traverse(&self, from: Port, facing: Direction) -> (r: Port)
        requires
            wf_tile(*self),
        ensures
            r == spec_traverse(*self, from, facing),
    {
        let start = facing.normalize_port(from);
        let found = self.lookup(start);
        facing.unnormalize_port(found)
    }
}

/// The `i`-th tile of the fixed catalog, for `0 <= i < 35`; the last tile
/// for any other index.
pub open spec fn catalog_tile(i: int) -> Tile {
    if i == 0 { tile_of(A, E, B, F, C, H, D, G) }
    else if i == 1 { tile_of(A, E, B, F, C, G, D, H) }
    else if i == 2 { tile_of(A, F, B, E, C, H, D, G) }
    else if i == 3 { tile_of(A, E, B, D, C, G, F, H) }
    else if i == 4 { tile_of(A, H, B, C, D, E, F, G) }
    else if i == 5 { tile_of(A, E, B, C, D, H, F, G) }
    else if i == 6 { tile_of(A, E, B, C, D, G, F, H) }
    else if i == 7 { tile_of(A, D, B, G, C, F, E, H) }
    else if i == 8 { tile_of(A, D, B, F, C, G, E, H) }
    else if i == 9 { tile_of(A, D, B, E, C, H, F, G) }
    else if i == 10 { tile_of(A, D, B, E, C, G, F, H) }
    else if i == 11 { tile_of(A, D, B, C, E, H, F, G) }
    else if i == 12 { tile_of(A, C, B, H, D, F, E, G) }
    else if i == 13 { tile_of(A, C, B, H, D, E, F, G) }
    else if i == 14 { tile_of(A, C, B, G, D, F, E, H) }
    else if i == 15 { tile_of(A, C, B, G, D, E, F, H) }
    else if i == 16 { tile_of(A, C, B, F, D, H, E, G) }
    else if i == 17 { tile_of(A, C, B, F, D, G, E, H) }
    else if i == 18 { tile_of(A, C, B, E, D, H, F, G) }
    else if i == 19 { tile_of(A, C, B, E, D, G, F, H) }
    else if i == 20 { tile_of(A, C, B, D, E, H, F, G) }
    else if i == 21 { tile_of(A, C, B, D, E, G, F, H) }
    else if i == 22 { tile_of(A, B, C, H, D, G, E, F) }
    else if i == 23 { tile_of(A, B, C, H, D, F, E, G) }
    else if i == 24 { tile_of(A, B, C, H, D, E, F, G) }
    else if i == 25 { tile_of(A, B, C, G, D, H, E, F) }
    else if i == 26 { tile_of(A, B, C, G, D, F, E, H) }
    else if i == 27 { tile_of(A, B, C, G, D, E, F, H) }
    else if i == 28 { tile_of(A, B, C, F, D, H, E, G) }
    else if i == 29 { tile_of(A, B, C, F, D, G, E, H) }
    else if i == 30 { tile_of(A, B, C, E, D, H, F, G) }
    else if i == 31 { tile_of(A, B, C, E, D, G, F, H) }
    else if i == 32 { tile_of(A, B, C, D, E, H, F, G) }
    else if i == 33 { tile_of(A, B, C, D, E, G, F, H) }
    else { tile_of(A, B, C, D, E, F, G, H) }
}

/// The full catalog as a sequence: the 35 canonical tiles in their fixed
/// order.
pub open spec fn spec_catalog() -> Seq<Tile> {
    Seq::new(35, |i: int| catalog_tile(i))
}

fn build_tile(
    p0: Port, p1: Port, p2: Port, p3: Port, p4: Port, p5: Port, p6: Port, p7: Port,
) -> (t: Tile)
    ensures
        t == tile_of(p0, p1, p2, p3, p4, p5, p6, p7),
{
    Tile {
        link0: PortPair { a: p0, b: p1 },
        link1: PortPair { a: p2, b: p3 },
        link2: PortPair { a: p4, b: p5 },
        link3: PortPair { a: p6, b: p7 },
    }
}

#[verifier::rlimit(60)]
fn catalog_entry(i: usize) -> (t: Tile)
    requires
        i < 35,
    ensures
        t == catalog_tile(i as int),
        wf_tile(t),
{
    if i == 0 { build_tile(A, E, B, F, C, H, D, G) }
    else if i == 1 { build_tile(A, E, B, F, C, G, D, H) }
    else if i == 2 { build_tile(A, F, B, E, C, H, D, G) }
    else if i == 3 { build_tile(A, E, B, D, C, G, F, H) }
    else if i == 4 { build_tile(A, H, B, C, D, E, F, G) }
    else if i == 5 { build_tile(A, E, B, C, D, H, F, G) }
    else if i == 6 { build_tile(A, E, B, C, D, G, F, H) }
    else if i == 7 { build_tile(A, D, B, G, C, F, E, H) }
    else if i == 8 { build_tile(A, D, B, F, C, G, E, H) }
    else if i == 9 { build_tile(A, D, B, E, C, H, F, G) }
    else if i == 10 { build_tile(A, D, B, E, C, G, F, H) }
    else if i == 11 { build_tile(A, D, B, C, E, H, F, G) }
    else if i == 12 { build_tile(A, C, B, H, D, F, E, G) }
    else if i == 13 { build_tile(A, C, B, H, D, E, F, G) }
    else if i == 14 { build_tile(A, C, B, G, D, F, E, H) }
    else if i == 15 { build_tile(A, C, B, G, D, E, F, H) }
    else if i == 16 { build_tile(A, C, B, F, D, H, E, G) }
    else if i == 17 { build_tile(A, C, B, F, D, G, E, H) }
    else if i == 18 { build_tile(A, C, B, E, D, H, F, G) }
    else if i == 19 { build_tile(A, C, B, E, D, G, F, H) }
    else if i == 20 { build_tile(A, C, B, D, E, H, F, G) }
    else if i == 21 { build_tile(A, C, B, D, E, G, F, H) }
    else if i == 22 { build_tile(A, B, C, H, D, G, E, F) }
    else if i == 23 { build_tile(A, B, C, H, D, F, E, G) }
    else if i == 24 { build_tile(A, B, C, H, D, E, F, G) }
    else if i == 25 { build_tile(A, B, C, G, D, H, E, F) }
    else if i == 26 { build_tile(A, B, C, G, D, F, E, H) }
    else if i == 27 { build_tile(A, B, C, G, D, E, F, H) }
    else if i == 28 { build_tile(A, B, C, F, D, H, E, G) }
    else if i == 29 { build_tile(A, B, C, F, D, G, E, H) }
    else if i == 30 { build_tile(A, B, C, E, D, H, F, G) }
    else if i == 31 { build_tile(A, B, C, E, D, G, F, H) }
    else if i == 32 { build_tile(A, B, C, D, E, H, F, G) }
    else if i == 33 { build_tile(A, B, C, D, E, G, F, H) }
    else { build_tile(A, B, C, D, E, F, G, H) }
}

/// The 35 canonical path tiles, in catalog order.  Every tile is a perfect
/// matching of the eight ports.
pub fn all_tiles() -> (r: Vec<Tile>)
    ensures
        r@ == spec_catalog(),
        r@.len() == 35,
        forall|i: int| 0 <= i < 35 ==> wf_tile(#[trigger] r@[i]),
{
    let mut v: Vec<Tile> = Vec::new();
    let mut i: usize = 0;
    while i < 35
        invariant
            i <= 35,
            v@.len() == i as int,
            forall|j: int| 0 <= j < i as int ==> #[trigger] v@[j] == catalog_tile(j) && wf_tile(v@[j]),
        decreases 35 - i,
    {
        v.push(catalog_entry(i));
        i += 1;
    }
    proof {
        assert(v@ =~= spec_catalog());
    }
    v
}

/// Un-normalizing is the exact algebraic inverse of normalizing under the
/// same facing.
pub proof fn lemma_normalize_inverse(facing: Direction, p: Port)
    ensures
        spec_unnormalize(facing, spec_normalize(facing, p)) == p,
        spec_normalize(facing, spec_unnormalize(facing, p)) == p,
{
}

proof fn lemma_flip_commutes_unnormalize(facing: Direction, p: Port)
    ensures
        spec_flip(spec_unnormalize(facing, p)) == spec_unnormalize(facing, spec_flip(p)),
{
}

/// On a well-formed tile the matching is an involution: following a link
/// from either of its ends reaches the other.
pub proof fn lemma_lookup_involution(t: Tile, p: Port)
    requires
        wf_tile(t),
    ensures
        spec_lookup(t, spec_lookup(t, p)) == p,
{
}

/// A tile's matching commutes with the edge flip.  The cross-edge
/// consistency law below holds exactly for such tiles.
pub open spec fn flip_symmetric(t: Tile) -> bool {
    forall|p: Port| spec_lookup(t, #[trigger] spec_flip(p)) == spec_flip(spec_lookup(t, p))
}

/// Entering a connection from either side is consistent: when traversing
/// `t` under `facing` sends `entry` to `exit`, traversing it from the far
/// side of the exit edge, `spec_flip(exit)`, leads back to the far side of
/// the entry edge, `spec_flip(entry)`.  This holds for every tile whose
/// matching commutes with the edge flip.
pub proof fn lemma_traverse_flip_consistent(t: Tile, facing: Direction, entry: Port)
    requires
        wf_tile(t),
        flip_symmetric(t),
    ensures
        spec_traverse(t, spec_flip(spec_traverse(t, entry, facing)), facing) == spec_flip(entry),
{
    let n = spec_normalize(facing, entry);
    let m = spec_lookup(t, n);
    let exit = spec_unnormalize(facing, m);
    lemma_flip_commutes_unnormalize(facing, m);
    assert(spec_flip(exit) == spec_unnormalize(facing, spec_flip(m)));
    lemma_normalize_inverse(facing, spec_flip(m));
    assert(spec_normalize(facing, spec_flip(exit)) == spec_flip(m));
    assert(spec_lookup(t, spec_flip(m)) == spec_flip(spec_lookup(t, m)));
    lemma_lookup_involution(t, n);
    assert(spec_lookup(t, m) == n);
    lemma_flip_commutes_unnormalize(facing, n);
    lemma_normalize_inverse(facing, entry);
    assert(spec_unnormalize(facing, n) == entry);
    assert(spec_unnormalize(facing, spec_flip(n)) == spec_flip(entry));
}

} // verus!
