//! Voxel keys: the addresses of the octree's nodes.

use crate::bounds::Bounds;
use crate::endian::{append_i32, i32_bytes, le_i32, read_i32_at};
use crate::error::Error;
use vstd::arithmetic::div_mod::{lemma_div_by_multiple, lemma_div_denominator, lemma_div_is_ordered};
use vstd::arithmetic::power2::{lemma2_to64, lemma_pow2_pos, lemma_pow2_unfold, pow2};
use vstd::prelude::*;

verus! {

/// The deepest level at which every cell index still fits its field.
pub const MAX_LEVEL: i32 = 31;

/// The number of bytes that a stored key takes.
pub const KEY_BYTES: usize = 16;

/// The address of a node: its depth and the index of its cell on each axis.
///
/// A level below zero marks a key that addresses nothing.
#[derive(Clone, Copy, Debug, PartialEq, Eq, Structural, Hash)]
pub struct VoxelKey {
    pub level: i32,
    pub x: i32,
    pub y: i32,
    pub z: i32,
}

impl Default for VoxelKey {
    /// The key that addresses nothing.
    fn default() -> (k: VoxelKey)
        ensures
            k == (VoxelKey { level: -1i32, x: 0, y: 0, z: 0 }),
    {
        VoxelKey { level: -1, x: 0, y: 0, z: 0 }
    }
}

/// The child index on one axis: the parent's index doubled, plus the bit of
/// the direction that belongs to the axis.
pub open spec fn child_index(i: i32, bit: i32) -> i32 {
    (i << 1) | (bit & 1)
}

/// The lower face of cell `i` on an axis that starts at `low` and is `side`
/// long, cut into `cells` equal parts; rounded down to the grid.
pub open spec fn cell_face(low: int, side: int, cells: int, i: int) -> int {
    low + (i * side) / cells
}

impl VoxelKey {
    /// The key addresses a cell of the octree: at level `d` there are `2^d`
    /// cells along each axis.
    pub open spec fn valid(self) -> bool {
        &&& 0 <= self.level <= MAX_LEVEL
        &&& 0 <= self.x < pow2(self.level as nat)
        &&& 0 <= self.y < pow2(self.level as nat)
        &&& 0 <= self.z < pow2(self.level as nat)
    }

    /// The child in direction `dir`: bit 0 of `dir` picks the half along x,
    /// bit 1 along y, bit 2 along z.
    pub open spec fn spec_child(self, dir: i32) -> VoxelKey {
        VoxelKey {
            level: (self.level + 1) as i32,
            x: child_index(self.x, dir),
            y: child_index(self.y, dir >> 1),
            z: child_index(self.z, dir >> 2),
        }
    }

    /// The box of the key's cell where the root's box is `root`: along each
    /// axis the root's side, halved `level` times, gives the side of the
    /// cell. The root is a cube of the world; on a grid whose step differs
    /// between the axes its sides differ, and so do those of the cells.
    pub open spec fn spec_bounds(self, root: Bounds) -> Bounds {
        let cells = pow2(self.level as nat) as int;
        let side_x = root.max_x - root.min_x;
        let side_y = root.max_y - root.min_y;
        let side_z = root.max_z - root.min_z;
        Bounds {
            min_x: cell_face(root.min_x as int, side_x, cells, self.x as int) as i64,
            min_y: cell_face(root.min_y as int, side_y, cells, self.y as int) as i64,
            min_z: cell_face(root.min_z as int, side_z, cells, self.z as int) as i64,
            max_x: cell_face(root.min_x as int, side_x, cells, self.x + 1) as i64,
            max_y: cell_face(root.min_y as int, side_y, cells, self.y + 1) as i64,
            max_z: cell_face(root.min_z as int, side_z, cells, self.z + 1) as i64,
        }
    }

    /// The child of this key in direction `dir`.
    pub fn child(&self, dir: i32) -> (c: VoxelKey)
        requires
            self.level < i32::MAX,
        ensures
            c == self.spec_child(dir),
            c.level == self.level + 1,
    {
        VoxelKey {
            level: self.level + 1,
            x: (self.x << 1) | (dir & 1),
            y: (self.y << 1) | ((dir >> 1) & 1),
            z: (self.z << 1) | ((dir >> 2) & 1),
        }
    }

    /// The eight children, in the order of their directions.
    pub fn children(&self) -> (v: Vec<VoxelKey>)
        requires
            self.level < i32::MAX,
        ensures
            v@.len() == 8,
            forall|dir: int| 0 <= dir < 8 ==> v@[dir] == #[trigger] self.spec_child(dir as i32),
    {
        let mut v: Vec<VoxelKey> = Vec::with_capacity(8);
        let mut dir: i32 = 0;
        while dir < 8
            invariant
                0 <= dir <= 8,
                self.level < i32::MAX,
                v@.len() == dir,
                forall|d: int| 0 <= d < dir ==> v@[d] == #[trigger] self.spec_child(d as i32),
            decreases 8 - dir,
        {
            v.push(self.child(dir));
            dir = dir + 1;
        }
        v
    }

    /// The box of this key's cell in an octree whose root has the box `root`.
    pub fn bounds(&self, root: &Bounds) -> (b: Bounds)
        requires
            self.valid(),
            root.valid(),
        ensures
            b == self.spec_bounds(*root),
            b.valid(),
            b.within(*root),
    {
        let side_x: i128 = root.max_x as i128 - root.min_x as i128;
        let side_y: i128 = root.max_y as i128 - root.min_y as i128;
        let side_z: i128 = root.max_z as i128 - root.min_z as i128;
        let cells: i128 = cells_along_axis(self.level);
        proof {
            lemma_cell_faces(root.min_x as int, side_x as int, self.level as nat, self.x as int);
            lemma_cell_faces(root.min_y as int, side_y as int, self.level as nat, self.y as int);
            lemma_cell_faces(root.min_z as int, side_z as int, self.level as nat, self.z as int);
        }
        Bounds {
            min_x: face(root.min_x, side_x, cells, self.x as i128),
            min_y: face(root.min_y, side_y, cells, self.y as i128),
            min_z: face(root.min_z, side_z, cells, self.z as i128),
            max_x: face(root.min_x, side_x, cells, self.x as i128 + 1),
            max_y: face(root.min_y, side_y, cells, self.y as i128 + 1),
            max_z: face(root.min_z, side_z, cells, self.z as i128 + 1),
        }
    }

    /// The sixteen bytes of the stored key: level, x, y, z.
    pub open spec fn spec_bytes(self) -> Seq<u8> {
        i32_bytes(self.level as int) + i32_bytes(self.x as int) + i32_bytes(self.y as int)
            + i32_bytes(self.z as int)
    }

    /// The key that sixteen bytes hold.
    pub open spec fn spec_parse(s: Seq<u8>) -> VoxelKey
        recommends
            s.len() == 16,
    {
        VoxelKey {
            level: le_i32(s.subrange(0, 4)) as i32,
            x: le_i32(s.subrange(4, 8)) as i32,
            y: le_i32(s.subrange(8, 12)) as i32,
            z: le_i32(s.subrange(12, 16)) as i32,
        }
    }

    /// Reads the key stored at `pos`.
    pub fn read_from(buf: &[u8], pos: usize) -> (r: Result<VoxelKey, Error>)
        ensures
            pos + 16 <= buf@.len() ==> r == Ok::<VoxelKey, Error>(
                VoxelKey::spec_parse(buf@.subrange(pos as int, pos + 16)),
            ),
            pos + 16 > buf@.len() ==> r == Err::<VoxelKey, Error>(Error::CorruptMetadata),
    {
        if buf.len() < KEY_BYTES || pos > buf.len() - KEY_BYTES {
            return Err(Error::CorruptMetadata);
        }
        let ghost s = buf@.subrange(pos as int, pos + 16);
        proof {
            assert(s.subrange(0, 4) =~= buf@.subrange(pos as int, pos + 4));
            assert(s.subrange(4, 8) =~= buf@.subrange(pos + 4, pos + 8));
            assert(s.subrange(8, 12) =~= buf@.subrange(pos + 8, pos + 12));
            assert(s.subrange(12, 16) =~= buf@.subrange(pos + 12, pos + 16));
        }
        Ok(
            VoxelKey {
                level: read_i32_at(buf, pos),
                x: read_i32_at(buf, pos + 4),
                y: read_i32_at(buf, pos + 8),
                z: read_i32_at(buf, pos + 12),
            },
        )
    }

    /// Appends the stored form of the key.
    pub fn write_to(&self, out: &mut Vec<u8>)
        ensures
            final(out)@ == old(out)@ + self.spec_bytes(),
    {
        append_i32(out, self.level);
        append_i32(out, self.x);
        append_i32(out, self.y);
        append_i32(out, self.z);
        assert(out@ =~= old(out)@ + self.spec_bytes());
    }

    /// One number for the key; different keys have different numbers.
    pub open spec fn spec_id(self) -> int {
        (((self.level + 0x8000_0000) * 0x1_0000_0000 + (self.x + 0x8000_0000)) * 0x1_0000_0000 + (
        self.y + 0x8000_0000)) * 0x1_0000_0000 + (self.z + 0x8000_0000)
    }

    /// The number of the key.
    pub fn id(&self) -> (n: u128)
        ensures
            n as int == self.spec_id(),
    {
        let l: u128 = (self.level as i128 + 0x8000_0000) as u128;
        let x: u128 = (self.x as i128 + 0x8000_0000) as u128;
        let y: u128 = (self.y as i128 + 0x8000_0000) as u128;
        let z: u128 = (self.z as i128 + 0x8000_0000) as u128;
        ((l * 0x1_0000_0000 + x) * 0x1_0000_0000 + y) * 0x1_0000_0000 + z
    }
}

/// The number of cells along an axis at a level.
fn cells_along_axis(level: i32) -> (cells: i128)
    requires
        0 <= level <= MAX_LEVEL,
    ensures
        cells == pow2(level as nat),
        0 < cells <= 0x8000_0000,
{
    let mut cells: i128 = 1;
    let mut i: i32 = 0;
    proof {
        lemma2_to64();
    }
    while i < level
        invariant
            0 <= i <= level <= MAX_LEVEL,
            cells == pow2(i as nat),
            0 < cells,
            cells <= pow2(level as nat) <= 0x8000_0000,
        decreases level - i,
    {
        proof {
            lemma_pow2_unfold((i + 1) as nat);
            lemma_pow2_increases((i + 1) as nat, level as nat);
        }
        cells = cells * 2;
        i = i + 1;
    }
    proof {
        lemma_pow2_increases(level as nat, 31);
    }
    cells
}

fn face(low: i64, side: i128, cells: i128, i: i128) -> (f: i64)
    requires
        0 <= side < 0x1_0000_0000_0000_0000,
        0 < cells <= 0x8000_0000,
        0 <= i <= cells,
        low + side <= i64::MAX,
    ensures
        f == cell_face(low as int, side as int, cells as int, i as int),
        low <= f <= low + side,
{
    proof {
        lemma_face_in_side(side as int, cells as int, i as int);
        assert(i * side <= 0x8000_0000 * 0x1_0000_0000_0000_0000) by (nonlinear_arith)
            requires
                0 <= i <= 0x8000_0000,
                0 <= side < 0x1_0000_0000_0000_0000,
        ;
        assert(0 <= i * side) by (nonlinear_arith)
            requires
                0 <= i,
                0 <= side,
        ;
    }
    let offset: i128 = (i * side) / cells;
    (low as i128 + offset) as i64
}

/// Powers of two grow with the exponent.
pub proof fn lemma_pow2_increases(a: nat, b: nat)
    requires
        a <= b,
    ensures
        pow2(a) <= pow2(b),
    decreases b - a,
{
    if a < b {
        lemma_pow2_increases(a, (b - 1) as nat);
        lemma_pow2_unfold(b);
    }
}

/// A face of a cell lies between the faces of the whole axis.
pub proof fn lemma_face_in_side(side: int, cells: int, i: int)
    requires
        0 <= side,
        0 < cells,
        0 <= i <= cells,
    ensures
        0 <= (i * side) / cells <= side,
{
    assert(0 <= i * side) by (nonlinear_arith)
        requires
            0 <= i,
            0 <= side,
    ;
    assert(i * side <= cells * side) by (nonlinear_arith)
        requires
            0 <= i <= cells,
            0 <= side,
    ;
    lemma_div_is_ordered(0, i * side, cells);
    lemma_div_is_ordered(i * side, cells * side, cells);
    lemma_div_by_multiple(side, cells);
    assert(cells * side == side * cells) by (nonlinear_arith);
}

/// The faces of the cells of one level follow each other along the axis, and
/// stay within it.
pub proof fn lemma_cell_faces(low: int, side: int, level: nat, i: int)
    requires
        0 <= side,
        0 <= i < pow2(level),
    ensures
        low <= cell_face(low, side, pow2(level) as int, i) <= cell_face(
            low,
            side,
            pow2(level) as int,
            i + 1,
        ) <= low + side,
{
    let cells = pow2(level) as int;
    lemma_face_in_side(side, cells, i);
    lemma_face_in_side(side, cells, i + 1);
    assert(i * side <= (i + 1) * side) by (nonlinear_arith)
        requires
            0 <= side,
    ;
    lemma_div_is_ordered(i * side, (i + 1) * side, cells);
}

/// Face `2i` of the next level is face `i` of this level: halving the cells
/// keeps every face where it was.
pub proof fn lemma_face_kept(low: int, side: int, level: nat, i: int)
    requires
        0 <= side,
        0 <= i <= pow2(level),
    ensures
        cell_face(low, side, pow2(level + 1) as int, 2 * i) == cell_face(
            low,
            side,
            pow2(level) as int,
            i,
        ),
{
    let cells = pow2(level) as int;
    lemma_pow2_pos(level);
    lemma_pow2_unfold(level + 1);
    assert(pow2(level + 1) == 2 * cells);
    let n = (2 * i) * side;
    assert(n == 2 * (i * side)) by (nonlinear_arith)
        requires
            n == (2 * i) * side,
    ;
    assert(0 <= i * side) by (nonlinear_arith)
        requires
            0 <= i,
            0 <= side,
    ;
    lemma_div_denominator(n, 2, cells);
    assert(n / 2 == i * side);
}

/// On a valid index the shift and the bit are a doubling and an addition.
pub proof fn lemma_child_index(i: i32, bit: i32)
    requires
        0 <= i < 0x4000_0000,
    ensures
        child_index(i, bit) == 2 * i + (bit & 1),
        0 <= (bit & 1) <= 1,
{
    assert(((i << 1) | (bit & 1)) == 2 * i + (bit & 1) && 0 <= (bit & 1) <= 1) by (bit_vector)
        requires
            0 <= i < 0x4000_0000,
    ;
}

/// A direction is made of its three bits.
pub proof fn lemma_direction_bits(dir: i32)
    requires
        0 <= dir < 8,
    ensures
        dir == (dir & 1) + 2 * ((dir >> 1) & 1) + 4 * ((dir >> 2) & 1),
        0 <= (dir & 1) <= 1,
        0 <= ((dir >> 1) & 1) <= 1,
        0 <= ((dir >> 2) & 1) <= 1,
{
    assert(dir == (dir & 1) + 2 * ((dir >> 1) & 1) + 4 * ((dir >> 2) & 1) && 0 <= (dir & 1) <= 1
        && 0 <= ((dir >> 1) & 1) <= 1 && 0 <= ((dir >> 2) & 1) <= 1) by (bit_vector)
        requires
            0 <= dir < 8,
    ;
}

/// A child lies one level below its parent, whatever the direction, and the
/// child of a cell of the octree is a cell of the octree.
pub proof fn lemma_child_level(k: VoxelKey, dir: i32)
    requires
        k.level < i32::MAX,
    ensures
        k.spec_child(dir).level == k.level + 1,
        0 <= (dir & 1) <= 1,
        0 <= ((dir >> 1) & 1) <= 1,
        0 <= ((dir >> 2) & 1) <= 1,
        k.valid() && k.level < MAX_LEVEL ==> {
            &&& k.spec_child(dir).valid()
            &&& k.spec_child(dir).x == 2 * k.x + (dir & 1)
            &&& k.spec_child(dir).y == 2 * k.y + ((dir >> 1) & 1)
            &&& k.spec_child(dir).z == 2 * k.z + ((dir >> 2) & 1)
        },
{
    assert(0 <= (dir & 1) <= 1 && 0 <= ((dir >> 1) & 1) <= 1 && 0 <= ((dir >> 2) & 1) <= 1)
        by (bit_vector);
    if k.valid() && k.level < MAX_LEVEL {
        lemma2_to64();
        lemma_pow2_increases(k.level as nat, 30);
        lemma_pow2_unfold((k.level + 1) as nat);
        lemma_child_index(k.x, dir);
        lemma_child_index(k.y, dir >> 1);
        lemma_child_index(k.z, dir >> 2);
    }
}

/// The face that the two halves of cell `i` share on one axis.
pub open spec fn middle_face(low: int, side: int, level: nat, i: int) -> int {
    cell_face(low, side, pow2(level + 1) as int, 2 * i + 1)
}

impl VoxelKey {
    /// The point in which the eight children of the key's cell meet.
    pub open spec fn spec_centre(self, root: Bounds) -> (int, int, int) {
        (
            middle_face(
                root.min_x as int,
                root.max_x - root.min_x,
                self.level as nat,
                self.x as int,
            ),
            middle_face(
                root.min_y as int,
                root.max_y - root.min_y,
                self.level as nat,
                self.y as int,
            ),
            middle_face(
                root.min_z as int,
                root.max_z - root.min_z,
                self.level as nat,
                self.z as int,
            ),
        )
    }
}

/// On one axis the two halves of a cell are the cell cut at its middle face.
pub proof fn lemma_axis_halves(low: int, side: int, level: nat, i: int)
    requires
        0 <= side,
        0 <= i < pow2(level),
    ensures
        cell_face(low, side, pow2(level + 1) as int, 2 * i) == cell_face(
            low,
            side,
            pow2(level) as int,
            i,
        ),
        cell_face(low, side, pow2(level + 1) as int, 2 * i + 2) == cell_face(
            low,
            side,
            pow2(level) as int,
            i + 1,
        ),
        cell_face(low, side, pow2(level) as int, i) <= middle_face(low, side, level, i)
            <= cell_face(low, side, pow2(level) as int, i + 1),
        low <= cell_face(low, side, pow2(level) as int, i),
        cell_face(low, side, pow2(level) as int, i + 1) <= low + side,
{
    lemma_face_kept(low, side, level, i);
    lemma_face_kept(low, side, level, i + 1);
    lemma_pow2_unfold(level + 1);
    lemma_cell_faces(low, side, level + 1, 2 * i);
    lemma_cell_faces(low, side, level + 1, 2 * i + 1);
    lemma_cell_faces(low, side, level, i);
}

/// The box of a child in terms of the parent's box and centre: on each axis
/// the lower half where the direction's bit is 0, the upper half where it is 1.
pub proof fn lemma_child_bounds(k: VoxelKey, root: Bounds, dir: i32)
    requires
        k.valid(),
        k.level < MAX_LEVEL,
        root.valid(),
        0 <= dir < 8,
    ensures
        ({
            let c = k.spec_child(dir).spec_bounds(root);
            let p = k.spec_bounds(root);
            let m = k.spec_centre(root);
            &&& p.min_x <= m.0 <= p.max_x
            &&& p.min_y <= m.1 <= p.max_y
            &&& p.min_z <= m.2 <= p.max_z
            &&& c.min_x == (if dir & 1 == 0 { p.min_x as int } else { m.0 })
            &&& c.max_x == (if dir & 1 == 0 { m.0 } else { p.max_x as int })
            &&& c.min_y == (if (dir >> 1) & 1 == 0 { p.min_y as int } else { m.1 })
            &&& c.max_y == (if (dir >> 1) & 1 == 0 { m.1 } else { p.max_y as int })
            &&& c.min_z == (if (dir >> 2) & 1 == 0 { p.min_z as int } else { m.2 })
            &&& c.max_z == (if (dir >> 2) & 1 == 0 { m.2 } else { p.max_z as int })
        }),
{
    let level = k.level as nat;
    lemma_child_level(k, dir);
    lemma_direction_bits(dir);
    lemma_axis_halves(root.min_x as int, root.max_x - root.min_x, level, k.x as int);
    lemma_axis_halves(root.min_y as int, root.max_y - root.min_y, level, k.y as int);
    lemma_axis_halves(root.min_z as int, root.max_z - root.min_z, level, k.z as int);
}

/// The eight children of a cell tile it: each child lies within the cell,
/// every point of the cell lies in some child, and a point that lies in two
/// children lies on a face that the two share.
pub proof fn lemma_children_tile(k: VoxelKey, root: Bounds, x: int, y: int, z: int)
    requires
        k.valid(),
        k.level < MAX_LEVEL,
        root.valid(),
    ensures
        forall|dir: i32|
            0 <= dir < 8 ==> (#[trigger] k.spec_child(dir)).spec_bounds(root).within(
                k.spec_bounds(root),
            ),
        k.spec_bounds(root).contains(x, y, z) ==> exists|dir: i32|
            0 <= dir < 8 && (#[trigger] k.spec_child(dir)).spec_bounds(root).contains(x, y, z),
        forall|a: i32, b: i32|
            0 <= a < 8 && 0 <= b < 8 && a != b && (#[trigger] k.spec_child(a)).spec_bounds(
                root,
            ).contains(x, y, z) && (#[trigger] k.spec_child(b)).spec_bounds(root).contains(x, y, z)
                ==> {
                &&& (a & 1) != (b & 1) || ((a >> 1) & 1) != ((b >> 1) & 1) || ((a >> 2) & 1) != ((b
                    >> 2) & 1)
                &&& (a & 1) != (b & 1) ==> x == k.spec_centre(root).0
                &&& ((a >> 1) & 1) != ((b >> 1) & 1) ==> y == k.spec_centre(root).1
                &&& ((a >> 2) & 1) != ((b >> 2) & 1) ==> z == k.spec_centre(root).2
            },
{
    let p = k.spec_bounds(root);
    let m = k.spec_centre(root);
    assert forall|dir: i32| 0 <= dir < 8 implies (#[trigger] k.spec_child(dir)).spec_bounds(
        root,
    ).within(p) by {
        lemma_child_bounds(k, root, dir);
    }
    if p.contains(x, y, z) {
        let bx: i32 = if x <= m.0 { 0 } else { 1 };
        let by: i32 = if y <= m.1 { 0 } else { 1 };
        let bz: i32 = if z <= m.2 { 0 } else { 1 };
        let dir: i32 = (bx + 2 * by + 4 * bz) as i32;
        lemma_direction_bits(dir);
        lemma_child_bounds(k, root, dir);
        assert(k.spec_child(dir).spec_bounds(root).contains(x, y, z));
    }
    assert forall|a: i32, b: i32|
        0 <= a < 8 && 0 <= b < 8 && a != b && (#[trigger] k.spec_child(a)).spec_bounds(
            root,
        ).contains(x, y, z) && (#[trigger] k.spec_child(b)).spec_bounds(root).contains(
            x,
            y,
            z,
        ) implies {
        &&& (a & 1) != (b & 1) || ((a >> 1) & 1) != ((b >> 1) & 1) || ((a >> 2) & 1) != ((b >> 2)
            & 1)
        &&& (a & 1) != (b & 1) ==> x == m.0
        &&& ((a >> 1) & 1) != ((b >> 1) & 1) ==> y == m.1
        &&& ((a >> 2) & 1) != ((b >> 2) & 1) ==> z == m.2
    } by {
        lemma_direction_bits(a);
        lemma_direction_bits(b);
        lemma_child_bounds(k, root, a);
        lemma_child_bounds(k, root, b);
    }
}

/// A number is made of its last thirty-two bits and the rest in one way only.
proof fn lemma_digits(p: int, d: int, q: int, e: int)
    requires
        p * 0x1_0000_0000 + d == q * 0x1_0000_0000 + e,
        0 <= d < 0x1_0000_0000,
        0 <= e < 0x1_0000_0000,
    ensures
        p == q,
        d == e,
{
}

/// Different keys have different numbers.
pub proof fn lemma_id_is_injective(a: VoxelKey, b: VoxelKey)
    requires
        a.spec_id() == b.spec_id(),
    ensures
        a == b,
{
    let a1 = (a.level + 0x8000_0000) * 0x1_0000_0000 + (a.x + 0x8000_0000);
    let b1 = (b.level + 0x8000_0000) * 0x1_0000_0000 + (b.x + 0x8000_0000);
    let a2 = a1 * 0x1_0000_0000 + (a.y + 0x8000_0000);
    let b2 = b1 * 0x1_0000_0000 + (b.y + 0x8000_0000);
    lemma_digits(a2, a.z + 0x8000_0000, b2, b.z + 0x8000_0000);
    lemma_digits(a1, a.y + 0x8000_0000, b1, b.y + 0x8000_0000);
    lemma_digits(a.level + 0x8000_0000, a.x + 0x8000_0000, b.level + 0x8000_0000, b.x + 0x8000_0000);
}

} // verus!
