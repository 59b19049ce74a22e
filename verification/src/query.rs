//! The query planner: which nodes of the octree a selection of levels and
//! of space asks for.

use crate::bounds::{lemma_intersects_grows, Bounds};
use crate::double::Double;
use crate::error::Error;
use crate::hierarchy::{distinct_keys, has_entry, plain, sum_counts, Entry};
use crate::index::{absorbed, keyed, HierarchyIndex};
use crate::key::{
    lemma_child_level, lemma_direction_bits, lemma_pow2_increases, VoxelKey, MAX_LEVEL,
};
use crate::node::OctreeNode;
use vstd::arithmetic::power2::{lemma2_to64, lemma_pow2_adds, lemma_pow2_pos, lemma_pow2_unfold, pow2};
use vstd::prelude::*;

verus! {

/// Which levels of detail a query asks for.
#[derive(Clone, Copy, Debug, PartialEq, Eq, Structural)]
pub enum LodSelection {
    /// Every level.
    All,
    /// As many levels as it takes for the points to lie no farther apart
    /// than the given distance.
    Resolution(Double),
    /// The one level.
    Level(i32),
    /// The levels from the first up to, and without, the second.
    LevelMinMax(i32, i32),
}

/// Which part of space a query asks for.
#[derive(Clone, Copy, Debug, PartialEq, Eq, Structural)]
pub enum BoundsSelection {
    /// All of it.
    All,
    /// What lies in the box.
    Within(Bounds),
}

/// The number is above zero and normal.
pub open spec fn positive_normal(d: Double) -> bool {
    !d.negative() && d.normal()
}

/// The significand of a normal number: the fraction with its leading one.
pub open spec fn significand(d: Double) -> int {
    0x10_0000_0000_0000 + d.fraction()
}

/// How often the spacing must be halved until it is no larger than the
/// resolution, for two normal numbers above zero; negative where it may be
/// doubled instead. The value of such a number is its significand times a
/// power of two that grows with its exponent, so the count is the
/// difference of the exponents, and one more where the significand of the
/// spacing is the larger one.
pub open spec fn spec_halvings(spacing: Double, resolution: Double) -> int {
    spacing.exponent() - resolution.exponent() + if spacing.fraction() > resolution.fraction() {
        1int
    } else {
        0int
    }
}

/// The count of `spec_halvings` is the least one: with `c` the halvings
/// beyond the difference of the exponents, the spacing's significand is at
/// most the resolution's times `2^c`, and with one halving less it would be
/// above it.
pub proof fn lemma_halvings_least(spacing: Double, resolution: Double)
    ensures
        ({
            let c = spec_halvings(spacing, resolution) - (spacing.exponent()
                - resolution.exponent());
            &&& 0 <= c <= 1
            &&& c == 1 ==> significand(resolution) < significand(spacing) <= 2 * significand(
                resolution,
            )
            &&& c == 0 ==> significand(spacing) <= significand(resolution) < 2 * significand(
                spacing,
            )
        }),
{
}

/// The value of a normal number above zero is its significand times two to
/// the power of its exponent, less 1075. With both sides of a comparison
/// scaled up by that much, this says that `a` halved `n` times is no larger
/// than `b`.
pub open spec fn halved_within(a: Double, n: nat, b: Double) -> bool {
    significand(a) * pow2(a.exponent() as nat) <= significand(b) * pow2(
        (b.exponent() + n) as nat,
    )
}

/// The deepest level that a resolution asks for.
pub open spec fn spec_deepest(resolution: Double, spacing: Double) -> int {
    match spec_level_range(LodSelection::Resolution(resolution), spacing) {
        Some((_, end)) => end - 1,
        None => -1,
    }
}

/// The resolution is reached: the spacing at the deepest level that a
/// resolution asks for is no larger than the resolution, where the spacing
/// is halved from level to level.
pub proof fn lemma_resolution_reached(spacing: Double, resolution: Double)
    requires
        positive_normal(spacing),
        positive_normal(resolution),
    ensures
        spec_level_range(LodSelection::Resolution(resolution), spacing) is Some,
        spec_deepest(resolution, spacing) >= 0,
        halved_within(spacing, spec_deepest(resolution, spacing) as nat, resolution),
{
    let h = spec_halvings(spacing, resolution);
    let es = spacing.exponent() as nat;
    let er = resolution.exponent() as nat;
    let ss = significand(spacing);
    let sr = significand(resolution);
    lemma_halvings_least(spacing, resolution);
    lemma_pow2_pos(es);
    lemma_pow2_pos(er);
    if h >= 0 {
        let c = (h - (es - er)) as nat;
        assert(er + h == es + c);
        lemma_pow2_adds(c, es);
        lemma2_to64();
        assert(ss <= sr * pow2(c)) by {
            if c == 1 {
                assert(pow2(1) == 2);
            } else {
                assert(pow2(0) == 1);
            }
        }
        assert(ss * pow2(es) <= (sr * pow2(c)) * pow2(es)) by (nonlinear_arith)
            requires
                ss <= sr * pow2(c),
                pow2(es) > 0,
        ;
        assert((sr * pow2(c)) * pow2(es) == sr * (pow2(c) * pow2(es))) by (nonlinear_arith);
        assert(c + es == (er + h) as nat);
    } else {
        assert(er >= es + 1);
        lemma_pow2_unfold(es + 1);
        lemma_pow2_increases(es + 1, er);
        assert(ss * pow2(es) <= sr * pow2(er)) by (nonlinear_arith)
            requires
                ss <= 2 * sr,
                0 <= sr,
                pow2(er) >= 2 * pow2(es),
                pow2(es) > 0,
        ;
    }
}

/// The levels that a selection asks for, from the first up to, and without,
/// the second; `None` where the resolution is not a normal number above
/// zero.
pub open spec fn spec_level_range(lod: LodSelection, spacing: Double) -> Option<(int, int)> {
    match lod {
        LodSelection::All => Some((0int, i32::MAX as int)),
        LodSelection::Level(l) => Some((l as int, l + 1)),
        LodSelection::LevelMinMax(a, b) => Some((a as int, b as int)),
        LodSelection::Resolution(r) => if !positive_normal(r) {
            None
        } else if positive_normal(spacing) {
            let h = spec_halvings(spacing, r) + 1;
            Some((0int, if h > 1 { h } else { 1 }))
        } else if !spacing.negative() && spacing.exponent() == 2047 && spacing.fraction() == 0 {
            Some((0int, i32::MAX as int))
        } else {
            Some((0int, 1int))
        },
    }
}

/// The levels that a selection asks for in a file whose points lie
/// `spacing` apart at the root. A resolution that is not a normal number
/// above zero is refused. A spacing that is infinite asks for every level;
/// one that is otherwise not a normal number above zero asks for the root
/// alone.
pub fn level_range(lod: &LodSelection, spacing: &Double) -> (r: Result<(i64, i64), Error>)
    ensures
        match spec_level_range(*lod, *spacing) {
            Some((a, b)) => r == Ok::<(i64, i64), Error>((a as i64, b as i64)) && a == a as i64
                && b == b as i64,
            None => r == Err::<(i64, i64), Error>(Error::InvalidResolution),
        },
{
    match lod {
        LodSelection::All => Ok((0, i32::MAX as i64)),
        LodSelection::Level(l) => Ok((*l as i64, *l as i64 + 1)),
        LodSelection::LevelMinMax(a, b) => Ok((*a as i64, *b as i64)),
        LodSelection::Resolution(r) => {
            let unit: u64 = 0x10_0000_0000_0000;
            let sign: u64 = 0x8000_0000_0000_0000;
            let r_bits = r.to_bits();
            let s_bits = spacing.to_bits();
            let r_exp: u64 = (r_bits % sign) / unit;
            let s_exp: u64 = (s_bits % sign) / unit;
            if r_bits >= sign || r_exp == 0 || r_exp == 2047 {
                return Err(Error::InvalidResolution);
            }
            if s_bits >= sign || s_exp == 0 {
                return Ok((0, 1));
            }
            if s_exp == 2047 {
                if (s_bits % sign) % unit == 0 {
                    return Ok((0, i32::MAX as i64));
                }
                return Ok((0, 1));
            }
            let more: i64 = if (s_bits % sign) % unit > (r_bits % sign) % unit {
                1
            } else {
                0
            };
            let h: i64 = s_exp as i64 - r_exp as i64 + more + 1;
            Ok((0, if h > 1 { h } else { 1 }))
        },
    }
}

/// What a query asks for: a range of levels and a part of space, in an
/// octree whose root has the box `root`.
#[derive(Clone, Copy, Debug, PartialEq, Eq, Structural)]
pub struct Query {
    /// The box of the root cell.
    pub root: Bounds,
    /// The first level that is asked for.
    pub level_min: i64,
    /// The first level that is no longer asked for.
    pub level_max: i64,
    /// The part of space that is asked for.
    pub within: BoundsSelection,
}

/// The key of the root cell.
pub open spec fn root_key() -> VoxelKey {
    VoxelKey { level: 0, x: 0, y: 0, z: 0 }
}

/// The key of the cell that holds the cell of `k` as one of its eight
/// parts.
pub open spec fn parent(k: VoxelKey) -> VoxelKey {
    VoxelKey {
        level: (k.level - 1) as i32,
        x: (k.x as int / 2) as i32,
        y: (k.y as int / 2) as i32,
        z: (k.z as int / 2) as i32,
    }
}

/// The walk goes on below the node: the node is above the last level, the
/// hierarchy names it, and its cell touches what is asked for.
pub open spec fn visitable(index: Map<VoxelKey, Entry>, q: Query, k: VoxelKey) -> bool {
    &&& k.level < q.level_max
    &&& index.contains_key(k)
    &&& match q.within {
        BoundsSelection::All => true,
        BoundsSelection::Within(b) => k.spec_bounds(q.root).overlaps(b),
    }
}

/// The walk reaches the node and goes on below it: the walk goes on below
/// the node and below every node above it, up to the root.
pub open spec fn admitted(index: Map<VoxelKey, Entry>, q: Query, k: VoxelKey) -> bool
    decreases k.level,
{
    &&& k.valid()
    &&& visitable(index, q, k)
    &&& (k.level == 0 || admitted(index, q, parent(k)))
}

/// The query asks for the node: the walk reaches it, it holds points, and
/// it lies in the range of levels.
pub open spec fn emitted(index: Map<VoxelKey, Entry>, q: Query, k: VoxelKey) -> bool {
    &&& admitted(index, q, k)
    &&& index[k].point_count > 0
    &&& q.level_min <= k.level
}

/// The part of space holds the point.
pub open spec fn takes(within: BoundsSelection, x: int, y: int, z: int) -> bool {
    match within {
        BoundsSelection::All => true,
        BoundsSelection::Within(b) => b.contains(x, y, z),
    }
}

/// The query hands out a point at a place in the chunk of a node: it asks
/// for the node, and the part of space that it asks for holds the point.
pub open spec fn yields(
    index: Map<VoxelKey, Entry>,
    q: Query,
    k: VoxelKey,
    x: int,
    y: int,
    z: int,
) -> bool {
    emitted(index, q, k) && takes(q.within, x, y, z)
}

/// The node that the planner hands out for a key.
pub open spec fn node_for(index: Map<VoxelKey, Entry>, q: Query, k: VoxelKey) -> OctreeNode {
    OctreeNode { entry: index[k], bounds: k.spec_bounds(q.root) }
}

/// The cell of `k` is the cell of `a` or a part of it.
pub open spec fn covers(a: VoxelKey, k: VoxelKey) -> bool
    decreases k.level,
{
    a == k || (k.level > a.level && k.level > 0 && covers(a, parent(k)))
}

/// The keys of the children that the walk goes on to below a node.
pub open spec fn kids(k: VoxelKey) -> Seq<VoxelKey> {
    if k.level < MAX_LEVEL {
        Seq::new(8, |d: int| k.spec_child(d as i32))
    } else {
        Seq::empty()
    }
}

/// One of the nodes is the node of the key.
pub open spec fn in_found(found: Seq<OctreeNode>, k: VoxelKey) -> bool {
    exists|i: int| 0 <= i < found.len() && (#[trigger] found[i]).entry.key == k
}

/// The cell of the key lies in the cell of one of the keys that wait.
pub open spec fn under(stack: Seq<VoxelKey>, k: VoxelKey) -> bool {
    exists|j: int| 0 <= j < stack.len() && covers(#[trigger] stack[j], k)
}

/// The node of a cell of the octree whose parent the walk went on below.
pub open spec fn ready(index: Map<VoxelKey, Entry>, q: Query, k: VoxelKey) -> bool {
    k.valid() && (k.level == 0 || admitted(index, q, parent(k)))
}

/// The state of the walk: what waits is ready, what was found is asked for,
/// what is asked for was found or lies below what waits, and nothing can be
/// found twice.
pub open spec fn walking(
    index: Map<VoxelKey, Entry>,
    q: Query,
    stack: Seq<VoxelKey>,
    found: Seq<OctreeNode>,
) -> bool {
    &&& forall|j: int| 0 <= j < stack.len() ==> ready(index, q, #[trigger] stack[j])
    &&& forall|i: int|
        0 <= i < found.len() ==> emitted(index, q, (#[trigger] found[i]).entry.key) && found[i]
            == node_for(index, q, found[i].entry.key)
    &&& forall|k: VoxelKey| #[trigger]
        emitted(index, q, k) ==> in_found(found, k) || under(stack, k)
    &&& forall|i: int, j: int|
        0 <= i < stack.len() && 0 <= j < stack.len() && i != j ==> !covers(
            #[trigger] stack[i],
            #[trigger] stack[j],
        )
    &&& forall|i: int, j: int|
        0 <= i < found.len() && 0 <= j < stack.len() ==> !covers(
            #[trigger] stack[j],
            (#[trigger] found[i]).entry.key,
        )
    &&& forall|i: int, j: int|
        0 <= i < j < found.len() ==> (#[trigger] found[i]).entry.key != (
        #[trigger] found[j]).entry.key
}

/// The nodes are those that the query asks for, each once.
pub open spec fn answers(index: Map<VoxelKey, Entry>, q: Query, found: Seq<OctreeNode>) -> bool {
    &&& forall|i: int|
        0 <= i < found.len() ==> emitted(index, q, (#[trigger] found[i]).entry.key) && found[i]
            == node_for(index, q, found[i].entry.key)
    &&& forall|k: VoxelKey| #[trigger] emitted(index, q, k) ==> in_found(found, k)
    &&& forall|i: int, j: int|
        0 <= i < j < found.len() ==> (#[trigger] found[i]).entry.key != (
        #[trigger] found[j]).entry.key
}

/// The parent of a cell of the octree below the root is a cell of the
/// octree.
pub proof fn lemma_parent_valid(k: VoxelKey)
    requires
        k.valid(),
        k.level > 0,
    ensures
        parent(k).valid(),
        parent(k).level == k.level - 1,
{
    vstd::arithmetic::power2::lemma_pow2_unfold(k.level as nat);
}

/// A child's parent is the key that it is a child of.
pub proof fn lemma_parent_of_child(k: VoxelKey, dir: i32)
    requires
        k.valid(),
        k.level < MAX_LEVEL,
    ensures
        parent(k.spec_child(dir)) == k,
{
    lemma_child_level(k, dir);
}

/// A cell lies at the level of a cell that covers it, or below.
pub proof fn lemma_covers_level(a: VoxelKey, k: VoxelKey)
    requires
        covers(a, k),
    ensures
        a.level <= k.level,
        a.level == k.level ==> a == k,
{
}

/// Where the walk goes on below a node, it went on below every node above.
pub proof fn lemma_admitted_up(index: Map<VoxelKey, Entry>, q: Query, a: VoxelKey, k: VoxelKey)
    requires
        admitted(index, q, k),
        covers(a, k),
    ensures
        admitted(index, q, a),
    decreases k.level,
{
    if a != k {
        lemma_admitted_up(index, q, a, parent(k));
    }
}

/// What a child covers, its parent covers.
pub proof fn lemma_covers_down(a: VoxelKey, dir: i32, k: VoxelKey)
    requires
        a.valid(),
        a.level < MAX_LEVEL,
        covers(a.spec_child(dir), k),
    ensures
        covers(a, k),
    decreases k.level,
{
    let c = a.spec_child(dir);
    lemma_child_level(a, dir);
    lemma_parent_of_child(a, dir);
    if c == k {
        assert(covers(a, parent(k)));
    } else {
        lemma_covers_down(a, dir, parent(k));
        lemma_covers_level(a, parent(k));
    }
}

/// The direction in which a cell lies in its parent.
pub open spec fn direction_of(k: VoxelKey) -> int {
    k.x as int % 2 + 2 * (k.y as int % 2) + 4 * (k.z as int % 2)
}

/// A cell below the root is the child of its parent in its direction.
pub proof fn lemma_child_of_parent(k: VoxelKey)
    requires
        k.valid(),
        k.level > 0,
    ensures
        0 <= direction_of(k) < 8,
        parent(k).spec_child(direction_of(k) as i32) == k,
{
    let p = parent(k);
    let dir = direction_of(k) as i32;
    lemma_parent_valid(k);
    lemma_child_level(p, dir);
    lemma_direction_bits(dir);
}

/// A cell that another covers, and that is not that other, lies in one of
/// the other's children.
pub proof fn lemma_covers_child(a: VoxelKey, k: VoxelKey) -> (dir: i32)
    requires
        a.valid(),
        k.valid(),
        covers(a, k),
        a != k,
    ensures
        a.level < MAX_LEVEL,
        0 <= dir < 8,
        covers(a.spec_child(dir), k),
    decreases k.level,
{
    lemma_parent_valid(k);
    lemma_child_of_parent(k);
    if parent(k) == a {
        direction_of(k) as i32
    } else {
        let dir = lemma_covers_child(a, parent(k));
        lemma_child_level(a, dir);
        lemma_covers_level(a.spec_child(dir), parent(k));
        dir
    }
}

/// The children of a cell in different directions are different cells.
pub proof fn lemma_children_differ(k: VoxelKey, a: i32, b: i32)
    requires
        k.valid(),
        k.level < MAX_LEVEL,
        0 <= a < 8,
        0 <= b < 8,
        a != b,
    ensures
        k.spec_child(a) != k.spec_child(b),
{
    lemma_child_level(k, a);
    lemma_child_level(k, b);
    lemma_direction_bits(a);
    lemma_direction_bits(b);
}

/// The root covers every cell that the walk reaches.
pub proof fn lemma_root_covers(index: Map<VoxelKey, Entry>, q: Query, k: VoxelKey)
    requires
        admitted(index, q, k),
    ensures
        covers(root_key(), k),
    decreases k.level,
{
    vstd::arithmetic::power2::lemma2_to64();
    if k.level > 0 {
        lemma_root_covers(index, q, parent(k));
    }
}

/// The walk starts with the root waiting and nothing found.
pub proof fn lemma_walk_starts(index: Map<VoxelKey, Entry>, q: Query)
    ensures
        walking(index, q, seq![root_key()], Seq::<OctreeNode>::empty()),
{
    vstd::arithmetic::power2::lemma2_to64();
    let stack = seq![root_key()];
    assert forall|k: VoxelKey| #[trigger] emitted(index, q, k) implies under(stack, k) by {
        lemma_root_covers(index, q, k);
        assert(covers(stack[0], k));
    }
}

/// The walk passes over a node below which it does not go on.
pub proof fn lemma_walk_skips(
    index: Map<VoxelKey, Entry>,
    q: Query,
    stack: Seq<VoxelKey>,
    found: Seq<OctreeNode>,
)
    requires
        walking(index, q, stack, found),
        stack.len() > 0,
        !visitable(index, q, stack.last()),
    ensures
        walking(index, q, stack.drop_last(), found),
{
    let rest = stack.drop_last();
    let s = stack.last();
    assert forall|j: int| 0 <= j < rest.len() implies ready(index, q, #[trigger] rest[j]) by {
        assert(rest[j] == stack[j]);
    }
    assert forall|k: VoxelKey| #[trigger] emitted(index, q, k) implies in_found(found, k) || under(
        rest,
        k,
    ) by {
        if !in_found(found, k) {
            let j = choose|j: int| 0 <= j < stack.len() && covers(#[trigger] stack[j], k);
            if j == stack.len() - 1 {
                lemma_admitted_up(index, q, s, k);
            } else {
                assert(covers(rest[j], k));
            }
        }
    }
    assert forall|i: int, j: int|
        0 <= i < rest.len() && 0 <= j < rest.len() && i != j implies !covers(
        #[trigger] rest[i],
        #[trigger] rest[j],
    ) by {
        assert(rest[i] == stack[i] && rest[j] == stack[j]);
    }
    assert forall|i: int, j: int| 0 <= i < found.len() && 0 <= j < rest.len() implies !covers(
        #[trigger] rest[j],
        (#[trigger] found[i]).entry.key,
    ) by {
        assert(rest[j] == stack[j]);
    }
}

/// The nodes found after the walk has looked at a node.
pub open spec fn found_after(
    index: Map<VoxelKey, Entry>,
    q: Query,
    found: Seq<OctreeNode>,
    k: VoxelKey,
) -> Seq<OctreeNode> {
    if index[k].point_count > 0 && q.level_min <= k.level {
        found.push(node_for(index, q, k))
    } else {
        found
    }
}

/// The walk goes on below a node: its children wait in its place, and the
/// node is found if the query asks for it.
pub proof fn lemma_walk_visits(
    index: Map<VoxelKey, Entry>,
    q: Query,
    stack: Seq<VoxelKey>,
    found: Seq<OctreeNode>,
)
    requires
        keyed(index),
        walking(index, q, stack, found),
        stack.len() > 0,
        visitable(index, q, stack.last()),
    ensures
        walking(
            index,
            q,
            stack.drop_last() + kids(stack.last()),
            found_after(index, q, found, stack.last()),
        ),
{
    let rest = stack.drop_last();
    let s = stack.last();
    let next = rest + kids(s);
    let after = found_after(index, q, found, s);
    let last = stack.len() - 1;
    assert(ready(index, q, stack[last]));
    assert(admitted(index, q, s));
    assert(covers(s, s));
    assert forall|j: int| 0 <= j < next.len() implies ready(index, q, #[trigger] next[j]) by {
        if j < rest.len() {
            assert(next[j] == stack[j]);
        } else {
            let d = (j - rest.len()) as i32;
            lemma_child_level(s, d);
            lemma_parent_of_child(s, d);
        }
    }
    assert forall|i: int| 0 <= i < after.len() implies emitted(
        index,
        q,
        (#[trigger] after[i]).entry.key,
    ) && after[i] == node_for(index, q, after[i].entry.key) by {
        if i < found.len() {
            assert(after[i] == found[i]);
        }
    }
    assert forall|k: VoxelKey| #[trigger] emitted(index, q, k) implies in_found(after, k) || under(
        next,
        k,
    ) by {
        if in_found(found, k) {
            let i = choose|i: int| 0 <= i < found.len() && (#[trigger] found[i]).entry.key == k;
            assert(after[i].entry.key == k);
        } else {
            let j = choose|j: int| 0 <= j < stack.len() && covers(#[trigger] stack[j], k);
            if j < last {
                assert(covers(next[j], k));
            } else if k == s {
                assert(after[found.len() as int].entry.key == k);
            } else {
                let d = lemma_covers_child(s, k);
                assert(next[rest.len() + d] == s.spec_child(d));
                assert(covers(next[rest.len() + d], k));
            }
        }
    }
    assert forall|i: int, j: int|
        0 <= i < next.len() && 0 <= j < next.len() && i != j implies !covers(
        #[trigger] next[i],
        #[trigger] next[j],
    ) by {
        if covers(next[i], next[j]) {
            if i < rest.len() && j < rest.len() {
                assert(next[i] == stack[i] && next[j] == stack[j]);
            } else if i < rest.len() {
                // a waiting key covers a child, and so, the child's parent
                let d = (j - rest.len()) as i32;
                lemma_child_level(s, d);
                lemma_parent_of_child(s, d);
                assert(next[i] == stack[i]);
                if stack[i] == s.spec_child(d) {
                    assert(covers(s, stack[i]));
                    assert(covers(stack[last], stack[i]));
                } else {
                    assert(covers(stack[i], stack[last]));
                }
            } else if j < rest.len() {
                let d = (i - rest.len()) as i32;
                lemma_covers_down(s, d, next[j]);
                assert(next[j] == stack[j]);
                assert(covers(stack[last], stack[j]));
            } else {
                let a = (i - rest.len()) as i32;
                let b = (j - rest.len()) as i32;
                lemma_child_level(s, a);
                lemma_child_level(s, b);
                lemma_covers_level(next[i], next[j]);
                lemma_children_differ(s, a, b);
            }
        }
    }
    assert forall|i: int, j: int| 0 <= i < after.len() && 0 <= j < next.len() implies !covers(
        #[trigger] next[j],
        (#[trigger] after[i]).entry.key,
    ) by {
        let k = after[i].entry.key;
        if covers(next[j], k) {
            if i < found.len() {
                assert(after[i] == found[i]);
                if j < rest.len() {
                    assert(next[j] == stack[j]);
                } else {
                    lemma_covers_down(s, (j - rest.len()) as i32, k);
                    assert(covers(stack[last], found[i].entry.key));
                }
            } else {
                assert(k == s);
                if j < rest.len() {
                    assert(next[j] == stack[j]);
                    assert(covers(stack[j], stack[last]));
                } else {
                    lemma_child_level(s, (j - rest.len()) as i32);
                    lemma_covers_level(next[j], k);
                }
            }
        }
    }
    assert forall|i: int, j: int| 0 <= i < j < after.len() implies (
    #[trigger] after[i]).entry.key != (#[trigger] after[j]).entry.key by {
        assert(after[i] == found[i]);
        if j < found.len() {
            assert(after[j] == found[j]);
        } else {
            assert(after[j].entry.key == s);
            assert(!covers(stack[last], found[i].entry.key));
        }
    }
}

/// When nothing waits any more, what was found answers the query.
pub proof fn lemma_walk_ends(index: Map<VoxelKey, Entry>, q: Query, found: Seq<OctreeNode>)
    requires
        walking(index, q, Seq::<VoxelKey>::empty(), found),
    ensures
        answers(index, q, found),
{
    let none = Seq::<VoxelKey>::empty();
    assert forall|k: VoxelKey| #[trigger] emitted(index, q, k) implies in_found(found, k) by {
        assert(!under(none, k));
    }
}

/// The nodes stand in the order of their offsets, the largest first.
pub open spec fn descending(nodes: Seq<OctreeNode>) -> bool {
    forall|i: int, j: int|
        0 <= i <= j < nodes.len() ==> (#[trigger] nodes[i]).entry.offset >= (
        #[trigger] nodes[j]).entry.offset
}

/// The number by which the nodes are sorted: the smaller, the larger the
/// offset.
pub fn descending_rank(node: &OctreeNode) -> (rank: u64)
    ensures
        rank == u64::MAX - node.entry.offset,
{
    u64::MAX - node.entry.offset
}

/// Calls `sort_by_key` of std's slices with `descending_rank` as the key:
/// the same nodes, in ascending order of that key.
#[verifier::external_body]
fn sort_by_descending_offset(nodes: &mut Vec<OctreeNode>)
    ensures
        final(nodes)@.to_multiset() == old(nodes)@.to_multiset(),
        descending(final(nodes)@),
{
    nodes.sort_by_key(|node| descending_rank(node));
}

/// How many steps the walk can still take from a node at a level.
pub open spec fn weight(level: int) -> nat
    decreases 32 - level,
{
    if level < 0 || level >= 32 {
        0
    } else {
        1 + 8 * weight(level + 1)
    }
}

/// How many steps the walk can still take from the keys that wait.
pub open spec fn total(stack: Seq<VoxelKey>) -> nat
    decreases stack.len(),
{
    if stack.len() == 0 {
        0
    } else {
        total(stack.drop_last()) + weight(stack.last().level as int)
    }
}

proof fn lemma_total_concat(a: Seq<VoxelKey>, b: Seq<VoxelKey>)
    ensures
        total(a + b) == total(a) + total(b),
    decreases b.len(),
{
    if b.len() == 0 {
        assert(a + b =~= a);
    } else {
        assert((a + b).drop_last() =~= a + b.drop_last());
        lemma_total_concat(a, b.drop_last());
    }
}

proof fn lemma_total_level(s: Seq<VoxelKey>, level: int)
    requires
        forall|i: int| 0 <= i < s.len() ==> (#[trigger] s[i]).level == level,
    ensures
        total(s) == s.len() * weight(level),
    decreases s.len(),
{
    if s.len() > 0 {
        lemma_total_level(s.drop_last(), level);
        assert(total(s) == (s.len() - 1) * weight(level) + weight(level));
        assert((s.len() - 1) * weight(level) + weight(level) == s.len() * weight(level))
            by (nonlinear_arith);
    }
}

/// The walk comes to an end: each step leaves less to do.
proof fn lemma_walk_shrinks(stack: Seq<VoxelKey>)
    requires
        stack.len() > 0,
        stack.last().valid(),
    ensures
        total(stack.drop_last()) < total(stack),
        total(stack.drop_last() + kids(stack.last())) < total(stack),
{
    let s = stack.last();
    lemma_total_concat(stack.drop_last(), kids(s));
    if s.level < MAX_LEVEL {
        assert forall|i: int| 0 <= i < kids(s).len() implies (#[trigger] kids(s)[i]).level
            == s.level + 1 by {
            lemma_child_level(s, i as i32);
        }
        lemma_total_level(kids(s), s.level + 1);
    } else {
        assert(total(kids(s)) == 0);
    }
}

/// Sorting keeps what the nodes answer.
proof fn lemma_sorted_answers(
    index: Map<VoxelKey, Entry>,
    q: Query,
    found: Seq<OctreeNode>,
    sorted: Seq<OctreeNode>,
)
    requires
        answers(index, q, found),
        sorted.to_multiset() == found.to_multiset(),
    ensures
        answers(index, q, sorted),
{
    broadcast use vstd::seq_lib::to_multiset_contains;

    assert forall|i: int| 0 <= i < sorted.len() implies emitted(
        index,
        q,
        (#[trigger] sorted[i]).entry.key,
    ) && sorted[i] == node_for(index, q, sorted[i].entry.key) by {
        assert(sorted.contains(sorted[i]));
        assert(found.to_multiset().count(sorted[i]) > 0);
        assert(found.contains(sorted[i]));
        let j = choose|j: int| 0 <= j < found.len() && found[j] == sorted[i];
        assert(found[j] == node_for(index, q, found[j].entry.key));
    }
    assert forall|k: VoxelKey| #[trigger] emitted(index, q, k) implies in_found(sorted, k) by {
        let i = choose|i: int| 0 <= i < found.len() && (#[trigger] found[i]).entry.key == k;
        assert(found.contains(found[i]));
        assert(sorted.to_multiset().count(found[i]) > 0);
        assert(sorted.contains(found[i]));
        let j = choose|j: int| 0 <= j < sorted.len() && sorted[j] == found[i];
        assert(sorted[j].entry.key == k);
    }
    assert(found.no_duplicates()) by {
        assert forall|i: int, j: int|
            0 <= i < found.len() && 0 <= j < found.len() && i != j implies found[i]
            != found[j] by {
            if i < j {
                assert(found[i].entry.key != found[j].entry.key);
            } else {
                assert(found[j].entry.key != found[i].entry.key);
            }
        }
    }
    found.lemma_multiset_has_no_duplicates();
    sorted.lemma_multiset_has_no_duplicates_conv();
    assert forall|i: int, j: int| 0 <= i < j < sorted.len() implies (
    #[trigger] sorted[i]).entry.key != (#[trigger] sorted[j]).entry.key by {
        assert(sorted[i] != sorted[j]);
        assert(sorted[i] == node_for(index, q, sorted[i].entry.key));
        assert(sorted[j] == node_for(index, q, sorted[j].entry.key));
    }
}

/// The nodes of the octree that a query asks for: each node that holds
/// points, lies in the range of levels, and is reached from the root through
/// nodes that the hierarchy names, that lie above the last level and whose
/// cells touch the part of space that is asked for. Each such node comes
/// once, and the nodes come in the order of their offsets, the largest
/// first, so that taking them from the end reads the file forwards.
pub fn load_octree_for_query(index: &HierarchyIndex, query: &Query) -> (nodes: Vec<OctreeNode>)
    requires
        query.root.valid(),
    ensures
        answers(index@, *query, nodes@),
        descending(nodes@),
{
    let mut found: Vec<OctreeNode> = Vec::new();
    let mut stack: Vec<VoxelKey> = Vec::new();
    stack.push(VoxelKey { level: 0, x: 0, y: 0, z: 0 });
    proof {
        index.lemma_keyed();
        lemma_walk_starts(index@, *query);
        assert(stack@ =~= seq![root_key()]);
        assert(found@ =~= Seq::<OctreeNode>::empty());
    }
    while stack.len() > 0
        invariant
            keyed(index@),
            query.root.valid(),
            walking(index@, *query, stack@, found@),
        decreases total(stack@),
    {
        let ghost before = stack@;
        let ghost found_before = found@;
        let key = stack[stack.len() - 1];
        stack.pop();
        proof {
            lemma_walk_shrinks(before);
            assert(ready(index@, *query, before[before.len() - 1]));
        }
        let mut visit: Option<(Entry, Bounds)> = None;
        if (key.level as i64) < query.level_max {
            if let Some(entry) = index.get(&key) {
                let bounds = key.bounds(&query.root);
                match query.within {
                    BoundsSelection::All => {
                        visit = Some((entry, bounds));
                    },
                    BoundsSelection::Within(q) => {
                        if bounds.intersects(&q) {
                            visit = Some((entry, bounds));
                        }
                    },
                }
            }
        }
        match visit {
            None => {
                proof {
                    lemma_walk_skips(index@, *query, before, found_before);
                }
            },
            Some((entry, bounds)) => {
                if key.level < MAX_LEVEL {
                    let mut children = key.children();
                    assert(children@ =~= kids(key));
                    stack.append(&mut children);
                }
                if entry.point_count > 0 && query.level_min <= key.level as i64 {
                    found.push(OctreeNode { entry, bounds });
                }
                proof {
                    lemma_walk_visits(index@, *query, before, found_before);
                    assert(stack@ =~= before.drop_last() + kids(key));
                    assert(found@ =~= found_after(index@, *query, found_before, key));
                }
            },
        }
    }
    proof {
        assert(stack@ =~= Seq::<VoxelKey>::empty());
        lemma_walk_ends(index@, *query, found@);
    }
    let ghost unsorted = found@;
    sort_by_descending_offset(&mut found);
    proof {
        lemma_sorted_answers(index@, *query, unsorted, found@);
    }
    found
}

/// What a query asks for, a query for a larger part of space asks for too.
pub proof fn lemma_wider_query_admits(
    index: Map<VoxelKey, Entry>,
    narrow: Query,
    wide: Query,
    k: VoxelKey,
)
    requires
        narrow.root == wide.root,
        narrow.level_min == wide.level_min,
        narrow.level_max == wide.level_max,
        match (narrow.within, wide.within) {
            (_, BoundsSelection::All) => true,
            (BoundsSelection::Within(a), BoundsSelection::Within(b)) => a.within(b),
            (BoundsSelection::All, BoundsSelection::Within(_)) => false,
        },
        admitted(index, narrow, k),
    ensures
        admitted(index, wide, k),
    decreases k.level,
{
    if k.level > 0 {
        lemma_wider_query_admits(index, narrow, wide, parent(k));
    }
    match (narrow.within, wide.within) {
        (BoundsSelection::Within(a), BoundsSelection::Within(b)) => {
            lemma_intersects_grows(k.spec_bounds(wide.root), a, b);
        },
        _ => {},
    }
}

/// Query monotonicity in space: every point that a query hands out, a
/// query for a larger part of space and the same levels hands out too.
pub proof fn lemma_query_monotone_in_bounds(
    index: Map<VoxelKey, Entry>,
    narrow: Query,
    wide: Query,
    k: VoxelKey,
    x: int,
    y: int,
    z: int,
)
    requires
        narrow.root == wide.root,
        narrow.level_min == wide.level_min,
        narrow.level_max == wide.level_max,
        match (narrow.within, wide.within) {
            (_, BoundsSelection::All) => true,
            (BoundsSelection::Within(a), BoundsSelection::Within(b)) => a.within(b),
            (BoundsSelection::All, BoundsSelection::Within(_)) => false,
        },
        yields(index, narrow, k, x, y, z),
    ensures
        yields(index, wide, k, x, y, z),
{
    lemma_wider_query_admits(index, narrow, wide, k);
}

/// What a query asks for, a query that goes deeper asks for too.
pub proof fn lemma_deeper_query_admits(
    index: Map<VoxelKey, Entry>,
    shallow: Query,
    deep: Query,
    k: VoxelKey,
)
    requires
        shallow.root == deep.root,
        shallow.within == deep.within,
        shallow.level_max <= deep.level_max,
        admitted(index, shallow, k),
    ensures
        admitted(index, deep, k),
    decreases k.level,
{
    if k.level > 0 {
        lemma_deeper_query_admits(index, shallow, deep, parent(k));
    }
}

/// Query monotonicity in depth: every point that a query for the levels
/// below `L` hands out, a query for the levels below a larger `L` and the
/// same part of space hands out too.
pub proof fn lemma_query_monotone_in_depth(
    index: Map<VoxelKey, Entry>,
    shallow: Query,
    deep: Query,
    k: VoxelKey,
    x: int,
    y: int,
    z: int,
)
    requires
        shallow.root == deep.root,
        shallow.within == deep.within,
        shallow.level_min == deep.level_min,
        shallow.level_max <= deep.level_max,
        yields(index, shallow, k, x, y, z),
    ensures
        yields(index, deep, k, x, y, z),
{
    lemma_deeper_query_admits(index, shallow, deep, k);
}

/// The hierarchy leads to each of its nodes: each entry is that of a cell
/// of the octree, and the node above it has an entry too.
pub open spec fn leads(entries: Seq<Entry>) -> bool {
    forall|i: int|
        0 <= i < entries.len() ==> (#[trigger] entries[i]).key.valid() && (entries[i].key.level
            > 0 ==> has_entry(entries, parent(entries[i].key)))
}

/// The index that is gathered from entries of nodes, each of another node,
/// holds each of them under its key, and beside them what it held before.
pub proof fn lemma_absorbed(index: Map<VoxelKey, Entry>, entries: Seq<Entry>)
    requires
        plain(entries),
        distinct_keys(entries),
    ensures
        forall|k: VoxelKey| #[trigger]
            absorbed(index, entries).contains_key(k) <==> index.contains_key(k) || has_entry(
                entries,
                k,
            ),
        forall|i: int|
            0 <= i < entries.len() ==> absorbed(index, entries)[(#[trigger] entries[i]).key]
                == entries[i],
        forall|k: VoxelKey|
            index.contains_key(k) && !has_entry(entries, k) ==> #[trigger] absorbed(
                index,
                entries,
            )[k] == index[k],
    decreases entries.len(),
{
    if entries.len() > 0 {
        let last = entries.last();
        let front = entries.drop_last();
        let next = index.insert(last.key, last);
        assert(entries[entries.len() - 1].point_count >= 0);
        assert(!last.is_page());
        assert forall|i: int| 0 <= i < front.len() implies (#[trigger] front[i]).point_count
            >= 0 by {
            assert(front[i] == entries[i]);
        }
        assert forall|i: int, j: int| 0 <= i < j < front.len() implies (#[trigger] front[i]).key
            != (#[trigger] front[j]).key by {
            assert(front[i] == entries[i] && front[j] == entries[j]);
        }
        lemma_absorbed(next, front);
        let all = absorbed(index, entries);
        assert(all == absorbed(next, front));
        assert(!has_entry(front, last.key)) by {
            if has_entry(front, last.key) {
                let i = choose|i: int| 0 <= i < front.len() && (#[trigger] front[i]).key == last.key;
                assert(entries[i] == front[i]);
                assert(entries[i].key != entries[entries.len() - 1].key);
            }
        }
        assert forall|k: VoxelKey| #[trigger] all.contains_key(k) <==> index.contains_key(k)
            || has_entry(entries, k) by {
            if has_entry(front, k) {
                let i = choose|i: int| 0 <= i < front.len() && (#[trigger] front[i]).key == k;
                assert(entries[i].key == k);
            }
            if has_entry(entries, k) {
                let i = choose|i: int| 0 <= i < entries.len() && (#[trigger] entries[i]).key == k;
                if i < front.len() {
                    assert(front[i].key == k);
                }
            }
        }
        assert forall|i: int| 0 <= i < entries.len() implies all[(#[trigger] entries[i]).key]
            == entries[i] by {
            if i < front.len() {
                assert(front[i] == entries[i]);
            } else {
                assert(next.contains_key(last.key));
            }
        }
        assert forall|k: VoxelKey| index.contains_key(k) && !has_entry(entries, k) implies #[trigger] all[k]
            == index[k] by {
            assert(entries[entries.len() - 1].key != k);
            if has_entry(front, k) {
                let i = choose|i: int| 0 <= i < front.len() && (#[trigger] front[i]).key == k;
                assert(entries[i].key == k);
            }
            assert(next.contains_key(k));
        }
    }
}

/// A query for everything reaches each node to which the hierarchy leads.
pub proof fn lemma_led_nodes_are_admitted(
    index: Map<VoxelKey, Entry>,
    entries: Seq<Entry>,
    root: Bounds,
    k: VoxelKey,
)
    requires
        leads(entries),
        has_entry(entries, k),
        forall|o: VoxelKey| has_entry(entries, o) ==> #[trigger] index.contains_key(o),
    ensures
        admitted(index, everything(root), k),
    decreases k.level,
{
    let i = choose|i: int| 0 <= i < entries.len() && (#[trigger] entries[i]).key == k;
    assert(entries[i].key.valid());
    if k.level > 0 {
        lemma_led_nodes_are_admitted(index, entries, root, parent(k));
    }
}

/// The query that asks for everything in an octree.
pub open spec fn everything(root: Bounds) -> Query {
    Query { root, level_min: 0, level_max: i32::MAX as i64, within: BoundsSelection::All }
}

/// Nothing is lost: where a hierarchy leads to each of its nodes, names no
/// node twice and holds no page entries, as that of a file that was
/// closed, a query for everything, on the index that is gathered from the
/// hierarchy, asks for every node that holds points, and finds the node's
/// entry.
pub proof fn lemma_every_chunk_is_found(entries: Seq<Entry>, root: Bounds, i: int)
    requires
        leads(entries),
        distinct_keys(entries),
        plain(entries),
        0 <= i < entries.len(),
        entries[i].point_count > 0,
    ensures
        emitted(absorbed(Map::empty(), entries), everything(root), entries[i].key),
        absorbed(Map::empty(), entries)[entries[i].key] == entries[i],
{
    let index = absorbed(Map::<VoxelKey, Entry>::empty(), entries);
    lemma_absorbed(Map::<VoxelKey, Entry>::empty(), entries);
    assert(has_entry(entries, entries[i].key));
    lemma_led_nodes_are_admitted(index, entries, root, entries[i].key);
}

/// The number of points in the chunks of the nodes together.
pub open spec fn points_in(nodes: Seq<OctreeNode>) -> int
    decreases nodes.len(),
{
    if nodes.len() == 0 {
        0
    } else {
        points_in(nodes.drop_last()) + nodes.last().entry.point_count
    }
}

/// Without one of the nodes, the points of that node are missing.
pub proof fn lemma_points_in_remove(nodes: Seq<OctreeNode>, at: int)
    requires
        0 <= at < nodes.len(),
    ensures
        points_in(nodes) == points_in(nodes.remove(at)) + nodes[at].entry.point_count,
    decreases nodes.len(),
{
    if at == nodes.len() - 1 {
        assert(nodes.remove(at) =~= nodes.drop_last());
    } else {
        lemma_points_in_remove(nodes.drop_last(), at);
        assert(nodes.remove(at).drop_last() =~= nodes.drop_last().remove(at));
        assert(nodes.remove(at).last() == nodes.last());
    }
}

/// The nodes are the entries that hold points: each node has the entry of
/// one of them, no two nodes that of the same, and each of them is the
/// entry of a node.
pub open spec fn matched(entries: Seq<Entry>, nodes: Seq<OctreeNode>) -> bool {
    &&& forall|i: int|
        0 <= i < nodes.len() ==> (#[trigger] nodes[i]).entry.point_count > 0 && exists|j: int|
            0 <= j < entries.len() && #[trigger] entries[j] == nodes[i].entry
    &&& forall|i: int, j: int|
        0 <= i < j < nodes.len() ==> (#[trigger] nodes[i]).entry.key != (
        #[trigger] nodes[j]).entry.key
    &&& forall|j: int|
        0 <= j < entries.len() && (#[trigger] entries[j]).point_count > 0 ==> in_found(
            nodes,
            entries[j].key,
        )
}

/// Nodes that are the entries that hold points hold as many points as the
/// entries count.
pub proof fn lemma_matched_counts(entries: Seq<Entry>, nodes: Seq<OctreeNode>)
    requires
        plain(entries),
        distinct_keys(entries),
        matched(entries, nodes),
    ensures
        points_in(nodes) == sum_counts(entries),
    decreases entries.len(),
{
    if entries.len() == 0 {
        if nodes.len() > 0 {
            assert(nodes[0].entry.point_count > 0);
        }
    } else {
        let last = entries.last();
        let front = entries.drop_last();
        let end = entries.len() - 1;
        assert(entries[end].point_count >= 0);
        assert forall|j: int| 0 <= j < front.len() implies (#[trigger] front[j]).point_count
            >= 0 by {
            assert(front[j] == entries[j]);
        }
        assert forall|a: int, b: int| 0 <= a < b < front.len() implies (#[trigger] front[a]).key
            != (#[trigger] front[b]).key by {
            assert(front[a] == entries[a] && front[b] == entries[b]);
        }
        if last.point_count == 0 {
            assert forall|i: int| 0 <= i < nodes.len() implies (
            #[trigger] nodes[i]).entry.point_count > 0 && exists|j: int|
                0 <= j < front.len() && #[trigger] front[j] == nodes[i].entry by {
                let j = choose|j: int| 0 <= j < entries.len() && #[trigger] entries[j] == nodes[i].entry;
                assert(front[j] == entries[j]);
            }
            assert forall|j: int|
                0 <= j < front.len() && (#[trigger] front[j]).point_count > 0 implies in_found(
                nodes,
                front[j].key,
            ) by {
                assert(front[j] == entries[j]);
            }
            lemma_matched_counts(front, nodes);
        } else {
            assert(in_found(nodes, entries[end].key));
            let at = choose|i: int| 0 <= i < nodes.len() && (#[trigger] nodes[i]).entry.key == last.key;
            let jat = choose|j: int| 0 <= j < entries.len() && #[trigger] entries[j] == nodes[at].entry;
            assert(jat == end) by {
                if jat < end {
                    assert(entries[jat].key != entries[end].key);
                }
            }
            let rest = nodes.remove(at);
            lemma_points_in_remove(nodes, at);
            assert forall|i: int| 0 <= i < rest.len() implies (
            #[trigger] rest[i]).entry.point_count > 0 && exists|j: int|
                0 <= j < front.len() && #[trigger] front[j] == rest[i].entry by {
                let o = if i < at {
                    i
                } else {
                    i + 1
                };
                assert(rest[i] == nodes[o]);
                let j = choose|j: int| 0 <= j < entries.len() && #[trigger] entries[j] == nodes[o].entry;
                if j == end {
                    if o < at {
                        assert(nodes[o].entry.key != nodes[at].entry.key);
                    } else {
                        assert(nodes[at].entry.key != nodes[o].entry.key);
                    }
                }
                assert(front[j] == entries[j]);
            }
            assert forall|a: int, b: int| 0 <= a < b < rest.len() implies (
            #[trigger] rest[a]).entry.key != (#[trigger] rest[b]).entry.key by {
                let oa = if a < at {
                    a
                } else {
                    a + 1
                };
                let ob = if b < at {
                    b
                } else {
                    b + 1
                };
                assert(rest[a] == nodes[oa] && rest[b] == nodes[ob]);
            }
            assert forall|j: int|
                0 <= j < front.len() && (#[trigger] front[j]).point_count > 0 implies in_found(
                rest,
                front[j].key,
            ) by {
                assert(front[j] == entries[j]);
                let i = choose|i: int|
                    0 <= i < nodes.len() && (#[trigger] nodes[i]).entry.key == entries[j].key;
                assert(entries[j].key != entries[end].key);
                if i < at {
                    assert(rest[i] == nodes[i]);
                } else {
                    assert(rest[i - 1] == nodes[i]);
                }
            }
            lemma_matched_counts(front, rest);
        }
    }
}

/// Every point is read: where a hierarchy leads to each of its nodes, names
/// no node twice and holds no page entries, as that of a file that was
/// closed, the nodes that answer a query for everything, on the index that
/// is gathered from the hierarchy, hold as many points as the entries of
/// the hierarchy count.
pub proof fn lemma_every_point_is_read(entries: Seq<Entry>, root: Bounds, nodes: Seq<OctreeNode>)
    requires
        leads(entries),
        distinct_keys(entries),
        plain(entries),
        answers(absorbed(Map::empty(), entries), everything(root), nodes),
    ensures
        points_in(nodes) == sum_counts(entries),
{
    let index = absorbed(Map::<VoxelKey, Entry>::empty(), entries);
    let q = everything(root);
    lemma_absorbed(Map::<VoxelKey, Entry>::empty(), entries);
    assert forall|i: int| 0 <= i < nodes.len() implies (#[trigger] nodes[i]).entry.point_count
        > 0 && exists|j: int| 0 <= j < entries.len() && #[trigger] entries[j] == nodes[i].entry by {
        let k = nodes[i].entry.key;
        assert(emitted(index, q, k));
        assert(nodes[i] == node_for(index, q, k));
        assert(index.contains_key(k));
        assert(has_entry(entries, k));
        let j = choose|j: int| 0 <= j < entries.len() && (#[trigger] entries[j]).key == k;
        assert(index[entries[j].key] == entries[j]);
    }
    assert forall|j: int|
        0 <= j < entries.len() && (#[trigger] entries[j]).point_count > 0 implies in_found(
        nodes,
        entries[j].key,
    ) by {
        lemma_every_chunk_is_found(entries, root, j);
    }
    lemma_matched_counts(entries, nodes);
}

} // verus!
