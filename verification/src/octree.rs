//! The octree builder: into which node a point goes.

use crate::bounds::Bounds;
use crate::key::{
    lemma_child_level, lemma_children_tile, lemma_id_is_injective, VoxelKey, MAX_LEVEL,
};
use crate::query::{lemma_parent_of_child, parent, root_key};
use std::collections::HashMap;
use vstd::prelude::*;

verus! {

broadcast use vstd::std_specs::hash::group_hash_axioms;

/// What the builder knows of a node: how many points were put into it,
/// where its open chunk stands in the list of open chunks, and whether the
/// hierarchy has an entry for it.
#[derive(Clone, Copy, Debug, PartialEq, Eq, Structural)]
pub struct NodeState {
    pub count: i32,
    pub slot: usize,
    pub written: bool,
}

/// The nodes into which points were put, found by their keys.
#[derive(Debug)]
pub struct NodeTable {
    map: HashMap<u128, NodeState>,
}

impl View for NodeTable {
    type V = Map<VoxelKey, NodeState>;

    closed spec fn view(&self) -> Map<VoxelKey, NodeState> {
        Map::new(
            |k: VoxelKey| self.map@.contains_key(k.spec_id() as u128),
            |k: VoxelKey| self.map@[k.spec_id() as u128],
        )
    }
}

impl NodeTable {
    /// A table without nodes.
    pub fn new() -> (table: NodeTable)
        ensures
            table@ == Map::<VoxelKey, NodeState>::empty(),
    {
        let table = NodeTable { map: HashMap::new() };
        assert(table@ =~= Map::<VoxelKey, NodeState>::empty());
        table
    }

    /// What the table knows of the node, if anything.
    pub fn get(&self, key: &VoxelKey) -> (r: Option<NodeState>)
        ensures
            r == (if self@.contains_key(*key) {
                Some(self@[*key])
            } else {
                None
            }),
    {
        let id = key.id();
        match self.map.get(&id) {
            Some(state) => Some(*state),
            None => None,
        }
    }

    /// Puts down what is known of the node, in place of what was known.
    pub fn insert(&mut self, key: &VoxelKey, state: NodeState)
        ensures
            final(self)@ == old(self)@.insert(*key, state),
    {
        let id = key.id();
        self.map.insert(id, state);
        proof {
            assert forall|k: VoxelKey| k != *key implies k.spec_id() as u128 != id by {
                if k.spec_id() == key.spec_id() {
                    lemma_id_is_injective(k, *key);
                }
            }
            assert(self@ =~= old(self)@.insert(*key, state));
        }
    }
}

/// The number of points that were put into a node.
pub open spec fn count_in(nodes: Map<VoxelKey, NodeState>, k: VoxelKey) -> int {
    if nodes.contains_key(k) {
        nodes[k].count as int
    } else {
        0
    }
}

/// The last direction, from `d` downwards, in which the child's cell holds
/// the point; -1 where there is none.
pub open spec fn spec_last_dir(k: VoxelKey, root: Bounds, x: int, y: int, z: int, d: int) -> int
    decreases d + 1,
{
    if d < 0 {
        -1
    } else if k.spec_child(d as i32).spec_bounds(root).contains(x, y, z) {
        d
    } else {
        spec_last_dir(k, root, x, y, z, d - 1)
    }
}

/// The child into whose cell the walk goes on for a point: of the children
/// whose cell holds the point, the one in the last direction.
pub open spec fn spec_pick(k: VoxelKey, root: Bounds, x: int, y: int, z: int) -> VoxelKey {
    k.spec_child(spec_last_dir(k, root, x, y, z, 7) as i32)
}

/// Where the point lies in no child from a direction downwards, it lies in
/// none of them.
proof fn lemma_last_dir(k: VoxelKey, root: Bounds, x: int, y: int, z: int, d: int)
    requires
        -1 <= d < 8,
    ensures
        -1 <= spec_last_dir(k, root, x, y, z, d) <= d,
        spec_last_dir(k, root, x, y, z, d) >= 0 ==> k.spec_child(
            spec_last_dir(k, root, x, y, z, d) as i32,
        ).spec_bounds(root).contains(x, y, z),
        spec_last_dir(k, root, x, y, z, d) == -1 ==> forall|e: i32|
            0 <= e <= d ==> !(#[trigger] k.spec_child(e)).spec_bounds(root).contains(x, y, z),
    decreases d + 1,
{
    if d >= 0 {
        lemma_last_dir(k, root, x, y, z, d - 1);
    }
}

/// A point in the cell of a node lies in the cell of the child that is
/// picked for it.
pub proof fn lemma_pick_holds(k: VoxelKey, root: Bounds, x: int, y: int, z: int)
    requires
        k.valid(),
        k.level < MAX_LEVEL,
        root.valid(),
        k.spec_bounds(root).contains(x, y, z),
    ensures
        0 <= spec_last_dir(k, root, x, y, z, 7) < 8,
        spec_pick(k, root, x, y, z).valid(),
        spec_pick(k, root, x, y, z).level == k.level + 1,
        spec_pick(k, root, x, y, z).spec_bounds(root).contains(x, y, z),
{
    lemma_last_dir(k, root, x, y, z, 7);
    lemma_children_tile(k, root, x, y, z);
    let d = spec_last_dir(k, root, x, y, z, 7);
    if d == -1 {
        let w = choose|dir: i32|
            0 <= dir < 8 && (#[trigger] k.spec_child(dir)).spec_bounds(root).contains(x, y, z);
        assert(false);
    }
    lemma_child_level(k, d as i32);
}

/// The child into whose cell the walk goes on for a point.
pub fn pick(key: &VoxelKey, root: &Bounds, x: i32, y: i32, z: i32) -> (child: VoxelKey)
    requires
        key.valid(),
        key.level < MAX_LEVEL,
        root.valid(),
        key.spec_bounds(*root).contains(x as int, y as int, z as int),
    ensures
        child == spec_pick(*key, *root, x as int, y as int, z as int),
        child.valid(),
        child.level == key.level + 1,
        parent(child) == *key,
        child.spec_bounds(*root).contains(x as int, y as int, z as int),
{
    proof {
        lemma_pick_holds(*key, *root, x as int, y as int, z as int);
        lemma_parent_of_child(
            *key,
            spec_last_dir(*key, *root, x as int, y as int, z as int, 7) as i32,
        );
    }
    let mut dir: i32 = 7;
    loop
        invariant
            0 <= dir <= 7,
            key.valid(),
            key.level < MAX_LEVEL,
            root.valid(),
            spec_last_dir(*key, *root, x as int, y as int, z as int, dir as int) == spec_last_dir(
                *key,
                *root,
                x as int,
                y as int,
                z as int,
                7,
            ),
            0 <= spec_last_dir(*key, *root, x as int, y as int, z as int, 7),
        decreases dir,
    {
        let child = key.child(dir);
        proof {
            lemma_child_level(*key, dir);
        }
        let cell = child.bounds(root);
        if cell.contains_point(x as i64, y as i64, z as i64) {
            return child;
        }
        proof {
            if dir == 0 {
                assert(spec_last_dir(*key, *root, x as int, y as int, z as int, -1) == -1);
            }
        }
        dir = dir - 1;
    }
}

/// The node that takes a point in the greedy way, from a node downwards:
/// the first node on the way that is not full. A full node hands the point
/// on to the child that is picked for it; below the deepest level there is
/// no child, and then no node takes the point.
pub open spec fn spec_target(
    nodes: Map<VoxelKey, NodeState>,
    root: Bounds,
    max_size: int,
    x: int,
    y: int,
    z: int,
    k: VoxelKey,
) -> Option<VoxelKey>
    decreases MAX_LEVEL - k.level,
{
    if count_in(nodes, k) < max_size {
        Some(k)
    } else if k.level >= MAX_LEVEL || k.level < 0 {
        None
    } else {
        spec_target(nodes, root, max_size, x, y, z, spec_pick(k, root, x, y, z))
    }
}

/// The node that takes a point in the greedy way. Every node above it is
/// full, and so is a node into which points were put.
pub fn find_greedy(nodes: &NodeTable, root: &Bounds, max_size: i32, x: i32, y: i32, z: i32) -> (r:
    Option<VoxelKey>)
    requires
        max_size > 0,
        root.valid(),
        root.contains(x as int, y as int, z as int),
    ensures
        r == spec_target(nodes@, *root, max_size as int, x as int, y as int, z as int, root_key()),
        r is Some ==> r->0.valid() && r->0.spec_bounds(*root).contains(
            x as int,
            y as int,
            z as int,
        ) && count_in(nodes@, r->0) < max_size && (r->0.level == 0 || nodes@.contains_key(
            parent(r->0),
        )),
{
    let mut key = VoxelKey { level: 0, x: 0, y: 0, z: 0 };
    proof {
        vstd::arithmetic::power2::lemma2_to64();
        lemma_root_cell(*root);
    }
    loop
        invariant
            root.valid(),
            key.valid(),
            key.spec_bounds(*root).contains(x as int, y as int, z as int),
            max_size > 0,
            key.level == 0 || nodes@.contains_key(parent(key)),
            spec_target(nodes@, *root, max_size as int, x as int, y as int, z as int, key)
                == spec_target(
                nodes@,
                *root,
                max_size as int,
                x as int,
                y as int,
                z as int,
                root_key(),
            ),
        decreases MAX_LEVEL - key.level,
    {
        let count: i32 = match nodes.get(&key) {
            Some(state) => state.count,
            None => 0,
        };
        if count < max_size {
            return Some(key);
        }
        if key.level >= MAX_LEVEL {
            return None;
        }
        key = pick(&key, root, x, y, z);
    }
}

/// The cell of the root key is the root's box.
pub proof fn lemma_root_cell(root: Bounds)
    requires
        root.valid(),
    ensures
        root_key().valid(),
        root_key().spec_bounds(root) == root,
{
    vstd::arithmetic::power2::lemma2_to64();
    lemma_whole_axis(root.max_x - root.min_x);
    lemma_whole_axis(root.max_y - root.min_y);
    lemma_whole_axis(root.max_z - root.min_z);
}

/// An axis that is cut into one part has its faces at its ends.
proof fn lemma_whole_axis(side: int)
    ensures
        (0 * side) / 1 == 0,
        (1 * side) / 1 == side,
{
    assert(0 * side == 0) by (nonlinear_arith);
    assert(1 * side == side) by (nonlinear_arith);
}

/// The nodes among which a point is handed out in the stochastic way, from
/// a node downwards: the nodes that are not full on the way that the point
/// takes down to the level `depth`, the highest node first.
pub open spec fn spec_candidates(
    nodes: Map<VoxelKey, NodeState>,
    root: Bounds,
    max_size: int,
    x: int,
    y: int,
    z: int,
    k: VoxelKey,
    depth: int,
) -> Seq<VoxelKey>
    decreases MAX_LEVEL - k.level,
{
    (if count_in(nodes, k) < max_size {
        seq![k]
    } else {
        Seq::<VoxelKey>::empty()
    }) + (if 0 <= k.level < depth && k.level < MAX_LEVEL {
        spec_candidates(nodes, root, max_size, x, y, z, spec_pick(k, root, x, y, z), depth)
    } else {
        Seq::<VoxelKey>::empty()
    })
}

/// The keys are keys of cells that hold the point and that are not full,
/// and each lies below the one before.
pub open spec fn candidates_fit(
    nodes: Map<VoxelKey, NodeState>,
    root: Bounds,
    max_size: int,
    x: int,
    y: int,
    z: int,
    c: Seq<VoxelKey>,
) -> bool {
    &&& forall|i: int|
        0 <= i < c.len() ==> (#[trigger] c[i]).valid() && c[i].spec_bounds(root).contains(x, y, z)
            && count_in(nodes, c[i]) < max_size
    &&& forall|i: int, j: int| 0 <= i < j < c.len() ==> (#[trigger] c[i]).level < (#[trigger] c[j]).level
}

/// The nodes among which a point is handed out in the stochastic way.
pub fn find_candidates(
    nodes: &NodeTable,
    root: &Bounds,
    max_size: i32,
    x: i32,
    y: i32,
    z: i32,
    depth: i32,
) -> (c: Vec<VoxelKey>)
    requires
        root.valid(),
        root.contains(x as int, y as int, z as int),
    ensures
        c@ == spec_candidates(
            nodes@,
            *root,
            max_size as int,
            x as int,
            y as int,
            z as int,
            root_key(),
            depth as int,
        ),
        candidates_fit(nodes@, *root, max_size as int, x as int, y as int, z as int, c@),
{
    let mut out: Vec<VoxelKey> = Vec::new();
    let mut key = VoxelKey { level: 0, x: 0, y: 0, z: 0 };
    proof {
        lemma_root_cell(*root);
        assert(out@ + spec_candidates(
            nodes@,
            *root,
            max_size as int,
            x as int,
            y as int,
            z as int,
            key,
            depth as int,
        ) =~= spec_candidates(
            nodes@,
            *root,
            max_size as int,
            x as int,
            y as int,
            z as int,
            root_key(),
            depth as int,
        ));
    }
    loop
        invariant
            root.valid(),
            key.valid(),
            key.spec_bounds(*root).contains(x as int, y as int, z as int),
            out@ + spec_candidates(
                nodes@,
                *root,
                max_size as int,
                x as int,
                y as int,
                z as int,
                key,
                depth as int,
            ) == spec_candidates(
                nodes@,
                *root,
                max_size as int,
                x as int,
                y as int,
                z as int,
                root_key(),
                depth as int,
            ),
            candidates_fit(nodes@, *root, max_size as int, x as int, y as int, z as int, out@),
            forall|i: int| 0 <= i < out@.len() ==> (#[trigger] out@[i]).level < key.level,
        decreases MAX_LEVEL - key.level,
    {
        let ghost before = out@;
        let count: i32 = match nodes.get(&key) {
            Some(state) => state.count,
            None => 0,
        };
        if count < max_size {
            out.push(key);
        }
        let ghost rest = if 0 <= key.level < depth && key.level < MAX_LEVEL {
            spec_candidates(
                nodes@,
                *root,
                max_size as int,
                x as int,
                y as int,
                z as int,
                spec_pick(key, *root, x as int, y as int, z as int),
                depth as int,
            )
        } else {
            Seq::<VoxelKey>::empty()
        };
        proof {
            assert(out@ + rest =~= before + spec_candidates(
                nodes@,
                *root,
                max_size as int,
                x as int,
                y as int,
                z as int,
                key,
                depth as int,
            ));
        }
        if key.level >= depth || key.level >= MAX_LEVEL {
            assert(out@ + rest =~= out@);
            return out;
        }
        key = pick(&key, root, x, y, z);
    }
}

/// Four to the power `n`.
pub open spec fn pow4(n: nat) -> nat
    decreases n,
{
    if n == 0 {
        1
    } else {
        4 * pow4((n - 1) as nat)
    }
}

/// Powers of four grow with the exponent.
pub proof fn lemma_pow4_increases(a: nat, b: nat)
    requires
        a <= b,
    ensures
        0 < pow4(a) <= pow4(b),
    decreases b,
{
    if a < b {
        lemma_pow4_increases(a, (b - 1) as nat);
    } else if a > 0 {
        lemma_pow4_increases((a - 1) as nat, (a - 1) as nat);
    }
}

/// Four to the power 17 and four to the power 31.
pub proof fn lemma_pow4_values()
    ensures
        pow4(17) == 0x4_0000_0000,
        pow4(31) == 0x4000_0000_0000_0000,
{
    reveal_with_fuel(pow4, 18);
    assert(pow4(17) == 0x4_0000_0000);
    assert(pow4(14) * 0x4_0000_0000 == pow4(31)) by {
        lemma_pow4_adds(14, 17);
    }
    assert(pow4(14) == 0x1000_0000);
}

/// The power of a sum is the product of the powers.
pub proof fn lemma_pow4_adds(a: nat, b: nat)
    ensures
        pow4(a + b) == pow4(a) * pow4(b),
    decreases a,
{
    if a > 0 {
        lemma_pow4_adds((a - 1) as nat, b);
        assert(4 * (pow4((a - 1) as nat) * pow4(b)) == (4 * pow4((a - 1) as nat)) * pow4(b))
            by (nonlinear_arith);
    } else {
        assert(1 * pow4(b) == pow4(b)) by (nonlinear_arith);
    }
}

/// Four to the power `n`.
pub fn power_of_four(n: u32) -> (p: u128)
    requires
        n <= 31,
    ensures
        p == pow4(n as nat),
        0 < p <= 0x4000_0000_0000_0000,
{
    let mut p: u128 = 1;
    let mut i: u32 = 0;
    proof {
        lemma_pow4_values();
    }
    while i < n
        invariant
            i <= n <= 31,
            p == pow4(i as nat),
            pow4(31) == 0x4000_0000_0000_0000,
        decreases n - i,
    {
        proof {
            lemma_pow4_increases((i + 1) as nat, 31);
        }
        p = p * 4;
        i = i + 1;
    }
    proof {
        lemma_pow4_increases(n as nat, 31);
    }
    p
}

/// How many levels below the root the stochastic way fills, for `n` points
/// in nodes of at most `max_size` points: with four children of a node in
/// use, the levels down to `L` hold `max_size * (4^(L+1) - 1) / 3` points,
/// and `L` is the least level at which that is no less than `n`.
pub open spec fn levels_hold(n: int, max_size: int, levels: int) -> bool {
    3 * n + max_size <= max_size * pow4((levels + 1) as nat)
}

/// The number of levels below the root that the stochastic way fills.
pub fn expected_levels(num_points: i32, max_size: i32) -> (levels: i32)
    requires
        max_size > 0,
    ensures
        0 <= levels <= 17,
        levels_hold(num_points as int, max_size as int, levels as int),
        levels > 0 ==> !levels_hold(num_points as int, max_size as int, levels - 1),
{
    let need: i128 = 3 * (num_points as i128) + max_size as i128;
    let mut hold: i128 = 4 * (max_size as i128);
    let mut levels: i32 = 0;
    proof {
        reveal_with_fuel(pow4, 2);
        lemma_pow4_values();
        assert(max_size * pow4(1) == 4 * max_size) by (nonlinear_arith)
            requires
                pow4(1) == 4,
        ;
    }
    while need > hold
        invariant
            0 <= levels <= 17,
            max_size > 0,
            need == 3 * num_points + max_size,
            need <= 0x2_0000_0000,
            hold == max_size * pow4((levels + 1) as nat),
            0 < hold <= 4 * 0x2_0000_0000,
            pow4(17) == 0x4_0000_0000,
            levels > 0 ==> !levels_hold(num_points as int, max_size as int, levels - 1),
        decreases 17 - levels,
    {
        proof {
            let p = pow4((levels + 1) as nat);
            assert(max_size * (4 * p) == 4 * (max_size * p)) by (nonlinear_arith);
            if levels >= 16 {
                lemma_pow4_increases(17, (levels + 1) as nat);
                assert(max_size * p >= p) by (nonlinear_arith)
                    requires
                        max_size >= 1,
                        p >= 0,
                ;
            }
        }
        hold = hold * 4;
        levels = levels + 1;
    }
    levels
}

/// The weight of candidate `i`: four to the power of its depth below the
/// first candidate, which is to say the number of cells of its level that
/// make up a face of the first candidate's cell.
pub open spec fn spec_weight(c: Seq<VoxelKey>, i: int) -> nat {
    pow4((c[i].level - c[0].level) as nat)
}

/// The weights of the first `n` candidates together.
pub open spec fn spec_weight_before(c: Seq<VoxelKey>, n: int) -> nat
    decreases n,
{
    if n <= 0 {
        0
    } else {
        spec_weight_before(c, n - 1) + spec_weight(c, n - 1)
    }
}

/// The levels are levels of the octree, and none lies above the first.
pub open spec fn levels_fit(c: Seq<VoxelKey>) -> bool {
    forall|i: int|
        0 <= i < c.len() ==> c[0].level <= (#[trigger] c[i]).level <= MAX_LEVEL && 0 <= c[0].level
}

/// The weights of more candidates together are no less.
pub proof fn lemma_weight_before_grows(c: Seq<VoxelKey>, a: int, b: int)
    requires
        a <= b,
    ensures
        spec_weight_before(c, a) <= spec_weight_before(c, b),
    decreases b - a,
{
    if a < b {
        lemma_weight_before_grows(c, a, b - 1);
    }
}

/// The weights of all candidates together.
pub fn total_weight(candidates: &Vec<VoxelKey>) -> (total: u128)
    requires
        levels_fit(candidates@),
    ensures
        total == spec_weight_before(candidates@, candidates@.len() as int),
        candidates@.len() > 0 ==> total > 0,
{
    let mut total: u128 = 0;
    let mut i: usize = 0;
    while i < candidates.len()
        invariant
            i <= candidates@.len(),
            levels_fit(candidates@),
            total == spec_weight_before(candidates@, i as int),
            total <= i * 0x4000_0000_0000_0000,
            i > 0 ==> total > 0,
        decreases candidates@.len() - i,
    {
        let depth: u32 = (candidates[i].level - candidates[0].level) as u32;
        total = total + power_of_four(depth);
        i = i + 1;
    }
    total
}

/// The candidate that a draw picks: the candidates take up, one after the
/// other, as much of the range of draws as they weigh, and the draw picks
/// the candidate into whose part it falls. A draw beyond the range picks
/// the last candidate.
pub fn choose_weighted(candidates: &Vec<VoxelKey>, draw: u128) -> (chosen: usize)
    requires
        candidates@.len() > 0,
        levels_fit(candidates@),
    ensures
        chosen < candidates@.len(),
        draw < spec_weight_before(candidates@, candidates@.len() as int) ==> spec_weight_before(
            candidates@,
            chosen as int,
        ) <= draw < spec_weight_before(candidates@, chosen + 1),
        draw >= spec_weight_before(candidates@, candidates@.len() as int) ==> chosen
            == candidates@.len() - 1,
{
    let mut before: u128 = 0;
    let mut i: usize = 0;
    while i < candidates.len() - 1
        invariant
            i < candidates@.len(),
            levels_fit(candidates@),
            before == spec_weight_before(candidates@, i as int),
            before <= i * 0x4000_0000_0000_0000,
            before <= draw,
        decreases candidates@.len() - i,
    {
        let depth: u32 = (candidates[i].level - candidates[0].level) as u32;
        let next: u128 = before + power_of_four(depth);
        if draw < next {
            proof {
                lemma_weight_before_grows(candidates@, i + 1, candidates@.len() as int);
            }
            return i;
        }
        before = next;
        i = i + 1;
    }
    i
}

/// Calls `fastrand::u128` with the range from zero up to, and without,
/// `bound`: some number of that range.
#[verifier::external_body]
fn random_below(bound: u128) -> (draw: u128)
    requires
        bound > 0,
    ensures
        draw < bound,
{
    fastrand::u128(0..bound)
}

/// Picks one of the candidates at random; a candidate is as likely to be
/// picked as it weighs.
pub fn get_random_weighted_index(candidates: &Vec<VoxelKey>) -> (chosen: usize)
    requires
        candidates@.len() > 0,
        levels_fit(candidates@),
    ensures
        chosen < candidates@.len(),
{
    let total = total_weight(candidates);
    let draw = random_below(total);
    choose_weighted(candidates, draw)
}

} // verus!
