//! EQ profiles: a root node, a lookup from node identifiers to nodes, and the
//! rules that add, switch, edit and clean up nodes.
//!
//! The nodes of a profile live in its node store and are named by handle,
//! their position in the store. A node is shared by every place that holds
//! its handle (the root, the lookup, the children of other nodes), so a
//! change made through one of them is seen through all of them. A handle
//! stays valid for the life of the profile.

use vstd::prelude::*;
use std::collections::HashMap;
use crate::band::{BandOp, BandUpdate};
use crate::node::{positions_below, EqNode};
use crate::uid::fresh_id;

verus! {

broadcast use vstd::std_specs::hash::group_hash_axioms;

/// An equalizer profile.
///
/// `preamp` holds the bit pattern of an `f32` gain in decibels.
#[derive(Debug)]
pub struct EqProfile {
    pub id: u128,
    pub store: Vec<EqNode>,
    pub nodes: HashMap<u128, usize>,
    pub name: String,
    pub preamp: Option<u32>,
    pub root: Option<usize>,
    pub channel: u8,
}

/// Every handle that the children of the stored nodes hold is a handle of
/// the store, and every stored node is well formed.
pub open spec fn store_wf(store: Seq<EqNode>) -> bool {
    forall|h: int| 0 <= h < store.len() ==> #[trigger] store[h].wf() && forall|i: int|
        0 <= i < store[h].children@.len() ==> #[trigger] store[h].children@[i] < store.len()
}

/// The store with the node at handle `h`, if any, switched on or off.
pub open spec fn switched_store(store: Seq<EqNode>, h: Option<usize>, on: bool) -> Seq<EqNode> {
    match h {
        Some(x) => store.update(x as int, EqNode { enabled: on, ..store[x as int] }),
        None => store,
    }
}

/// Whether a node is well formed and names only handles below `n` as its
/// children.
pub open spec fn node_fits(node: EqNode, n: nat) -> bool {
    node.wf() && forall|i: int| 0 <= i < node.children@.len() ==> #[trigger] node.children@[i] < n
}

/// Replacing a stored node by a well-formed node whose children are handles
/// of the store keeps the store well formed.
proof fn lemma_store_wf_update(store: Seq<EqNode>, h: int, n: EqNode)
    requires
        store_wf(store),
        0 <= h < store.len(),
        n.wf(),
        forall|i: int| 0 <= i < n.children@.len() ==> #[trigger] n.children@[i] < store.len(),
    ensures
        store_wf(store.update(h, n)),
{
    let s2 = store.update(h, n);
    assert forall|g: int| 0 <= g < s2.len() implies #[trigger] s2[g].wf() && forall|i: int|
        0 <= i < s2[g].children@.len() ==> #[trigger] s2[g].children@[i] < s2.len() by {
        if g != h {
            assert(s2[g] == store[g]);
        }
    }
}

/// A sweep path from `root`: it starts at the root, and every node on it but
/// the last is switched off and lists the next one among its children.
pub open spec fn is_sweep_path(store: Seq<EqNode>, root: usize, path: Seq<usize>) -> bool {
    &&& path.len() > 0
    &&& path[0] == root
    &&& forall|i: int| 0 <= i < path.len() ==> #[trigger] path[i] < store.len()
    &&& forall|i: int|
        0 <= i < path.len() - 1 ==> !store[#[trigger] path[i] as int].enabled && store[path[i] as int].children@.contains(
            path[i + 1],
        )
}

/// The handles that cleanup reaches from `root`: the ends of sweep paths.
pub open spec fn swept_set(store: Seq<EqNode>, root: usize) -> Set<int> {
    Set::new(
        |x: int|
            0 <= x < store.len() && exists|path: Seq<usize>| #[trigger]
                is_sweep_path(store, root, path) && path.last() == x,
    )
}

/// The identifiers that cleanup drops from the lookup once it has emptied the
/// switched-off nodes among `done`: those of their children.
pub open spec fn unfiled_ids(store: Seq<EqNode>, done: Set<int>) -> Set<u128> {
    Set::new(
        |k: u128|
            exists|x: int, c: usize|
                #![trigger done.contains(x), store[x].children@.contains(c)]
                done.contains(x) && !store[x].enabled && store[x].children@.contains(c) && store[c as int].id == k,
    )
}

/// Whether `after` is what cleanup leaves of the store `before` and the
/// lookup `nodes_before`, for the root `root`: every switched-off node that
/// the sweep reaches is emptied, the identifiers of its children leave the
/// lookup, and nothing else changes.
pub open spec fn is_swept(
    after: Seq<EqNode>,
    nodes_after: Map<u128, usize>,
    before: Seq<EqNode>,
    nodes_before: Map<u128, usize>,
    root: usize,
) -> bool {
    &&& after.len() == before.len()
    &&& forall|y: int|
        0 <= y < before.len() ==> if swept_set(before, root).contains(y) && !before[y].enabled {
            (#[trigger] after[y]).is_cleared_of(&before[y])
        } else {
            after[y] == before[y]
        }
    &&& nodes_after == nodes_before.remove_keys(unfiled_ids(before, swept_set(before, root)))
}

/// A set that holds the root, and the children of each switched-off node in
/// it, holds every node on every sweep path.
proof fn lemma_sweep_paths_in_closed_set(store: Seq<EqNode>, root: usize, d: Set<int>, path: Seq<usize>, i: int)
    requires
        is_sweep_path(store, root, path),
        0 <= i < path.len(),
        d.contains(root as int),
        forall|y: int, c: usize|
            #![trigger d.contains(y), store[y].children@.contains(c)]
            d.contains(y) && !store[y].enabled && store[y].children@.contains(c) ==> d.contains(c as int),
    ensures
        d.contains(path[i] as int),
    decreases i,
{
    if i > 0 {
        lemma_sweep_paths_in_closed_set(store, root, d, path, i - 1);
        let y = path[i - 1] as int;
        assert(!store[y].enabled && store[y].children@.contains(path[i]));
    }
}

/// The identifiers of the nodes at the first `j` handles of `cs`.
pub open spec fn child_ids(store: Seq<EqNode>, cs: Seq<usize>, j: int) -> Set<u128> {
    Set::new(|k: u128| exists|jj: int| 0 <= jj < j && store[#[trigger] cs[jj] as int].id == k)
}

proof fn lemma_child_ids_step(store: Seq<EqNode>, cs: Seq<usize>, j: int, m: Map<u128, usize>)
    requires
        0 <= j < cs.len(),
    ensures
        m.remove_keys(child_ids(store, cs, j)).remove(store[cs[j] as int].id) =~= m.remove_keys(child_ids(store, cs, j + 1)),
{
    let s1 = child_ids(store, cs, j);
    let s2 = child_ids(store, cs, j + 1);
    let cid = store[cs[j] as int].id;
    assert forall|k: u128| s2.contains(k) <==> (s1.contains(k) || k == cid) by {
        if s2.contains(k) {
            let jj = choose|jj: int| 0 <= jj < j + 1 && store[#[trigger] cs[jj] as int].id == k;
            if jj < j {
                assert(s1.contains(k));
            }
        }
        if s1.contains(k) {
            let jj = choose|jj: int| 0 <= jj < j && store[#[trigger] cs[jj] as int].id == k;
            assert(0 <= jj < j + 1 && store[cs[jj] as int].id == k);
        }
        if k == cid {
            assert(0 <= j < j + 1 && store[cs[j] as int].id == k);
        }
    }
}

/// Emptying node `x` adds the identifiers of its children to those dropped
/// from the lookup, when `x` is switched off; otherwise it adds none.
proof fn lemma_unfiled_insert(store: Seq<EqNode>, done: Set<int>, x: int, m: Map<u128, usize>)
    requires
        0 <= x < store.len(),
    ensures
        !store[x].enabled ==> m.remove_keys(unfiled_ids(store, done)).remove_keys(
            child_ids(store, store[x].children@, store[x].children@.len() as int),
        ) =~= m.remove_keys(unfiled_ids(store, done.insert(x))),
        store[x].enabled ==> m.remove_keys(unfiled_ids(store, done)) =~= m.remove_keys(unfiled_ids(store, done.insert(x))),
{
    let cs = store[x].children@;
    let s1 = child_ids(store, cs, cs.len() as int);
    let done2 = done.insert(x);
    assert forall|k: u128| #[trigger] unfiled_ids(store, done2).contains(k) == (unfiled_ids(store, done).contains(k) || (!store[x].enabled && s1.contains(k))) by {
        if unfiled_ids(store, done2).contains(k) {
            let (y, c) = choose|y: int, c: usize|
                #![trigger done2.contains(y), store[y].children@.contains(c)]
                done2.contains(y) && !store[y].enabled && store[y].children@.contains(c) && store[c as int].id == k;
            if y == x {
                let jj = choose|jj: int| 0 <= jj < cs.len() && cs[jj] == c;
                assert(store[cs[jj] as int].id == k);
                assert(s1.contains(k));
            } else {
                assert(done.contains(y) && store[y].children@.contains(c));
                assert(unfiled_ids(store, done).contains(k));
            }
        }
        if unfiled_ids(store, done).contains(k) {
            let (y, c) = choose|y: int, c: usize|
                #![trigger done.contains(y), store[y].children@.contains(c)]
                done.contains(y) && !store[y].enabled && store[y].children@.contains(c) && store[c as int].id == k;
            assert(done2.contains(y) && store[y].children@.contains(c));
        }
        if !store[x].enabled && s1.contains(k) {
            let jj = choose|jj: int| 0 <= jj < cs.len() && store[#[trigger] cs[jj] as int].id == k;
            assert(store[x].children@.contains(cs[jj]));
            assert(done2.contains(x) && store[x].children@.contains(cs[jj]));
        }
    }
    let a = unfiled_ids(store, done);
    if !store[x].enabled {
        assert(unfiled_ids(store, done2) =~= a.union(s1));
        assert(m.remove_keys(a).remove_keys(s1) =~= m.remove_keys(a.union(s1)));
    } else {
        assert(unfiled_ids(store, done2) =~= a);
    }
}

/// A child of a switched-off node that the sweep reaches is reached too.
proof fn lemma_sweep_reaches_child(store: Seq<EqNode>, r: usize, x: usize, c: usize)
    requires
        swept_set(store, r).contains(x as int),
        !store[x as int].enabled,
        store[x as int].children@.contains(c),
        c < store.len(),
    ensures
        swept_set(store, r).contains(c as int),
{
    let p = choose|path: Seq<usize>| #[trigger] is_sweep_path(store, r, path) && path.last() == x;
    let p2 = p.push(c);
    assert forall|i: int| 0 <= i < p2.len() implies #[trigger] p2[i] < store.len() by {
        if i < p.len() {
            assert(p2[i] == p[i]);
        }
    }
    assert forall|i: int| 0 <= i < p2.len() - 1 implies !store[#[trigger] p2[i] as int].enabled
        && store[p2[i] as int].children@.contains(p2[i + 1]) by {
        assert(p2[i] == p[i]);
        if i < p.len() - 1 {
            assert(p2[i + 1] == p[i + 1]);
        }
    }
    assert(is_sweep_path(store, r, p2));
}

/// Pushing a handle that is not on a duplicate-free stack keeps it free of
/// duplicates, and the stack then holds exactly what it held and the handle.
proof fn lemma_stack_push(before: Seq<usize>, c: usize)
    requires
        before.no_duplicates(),
        !before.contains(c),
    ensures
        before.push(c).no_duplicates(),
        forall|y: usize| before.push(c).contains(y) <==> (before.contains(y) || y == c),
{
    let after = before.push(c);
    assert forall|i: int, k: int| 0 <= i < after.len() && 0 <= k < after.len() && i != k implies after[i] != after[k] by {
        if i < before.len() && k < before.len() {
            assert(after[i] == before[i]);
            assert(after[k] == before[k]);
        } else if i < before.len() {
            assert(after[i] == before[i]);
        } else if k < before.len() {
            assert(after[k] == before[k]);
        }
    }
    assert forall|y: usize| after.contains(y) <==> (before.contains(y) || y == c) by {
        if before.contains(y) {
            let k = choose|k: int| 0 <= k < before.len() && before[k] == y;
            assert(after[k] == y);
        }
        if after.contains(y) && y != c {
            let k = choose|k: int| 0 <= k < after.len() && after[k] == y;
            assert(before[k] == y);
        }
        if y == c {
            assert(after[after.len() - 1] == c);
        }
    }
}

/// Popping the top of a duplicate-free stack leaves a duplicate-free stack
/// that holds everything it held but the top.
proof fn lemma_stack_pop(before: Seq<usize>, after: Seq<usize>, x: usize)
    requires
        before.no_duplicates(),
        before == after.push(x),
    ensures
        after.no_duplicates(),
        !after.contains(x),
        forall|y: usize| before.contains(y) <==> (after.contains(y) || y == x),
{
    assert forall|i: int, k: int| 0 <= i < after.len() && 0 <= k < after.len() && i != k implies after[i] != after[k] by {
        assert(before[i] == after[i]);
        assert(before[k] == after[k]);
    }
    if after.contains(x) {
        let k = choose|k: int| 0 <= k < after.len() && after[k] == x;
        assert(before[k] == x && before[before.len() - 1] == x);
    }
    assert forall|y: usize| before.contains(y) <==> (after.contains(y) || y == x) by {
        if before.contains(y) {
            let k = choose|k: int| 0 <= k < before.len() && before[k] == y;
            if k < after.len() {
                assert(after[k] == y);
            }
        }
        if after.contains(y) {
            let k = choose|k: int| 0 <= k < after.len() && after[k] == y;
            assert(before[k] == y);
        }
        if y == x {
            assert(before[before.len() - 1] == x);
        }
    }
}

/// The state of a sweep between steps: `visited` holds the handles taken up
/// so far, `done` those whose turn is over and `stack` those still waiting.
spec fn sweep_inv(
    orig: Seq<EqNode>,
    orig_nodes: Map<u128, usize>,
    r: usize,
    store: Seq<EqNode>,
    nodes: Map<u128, usize>,
    visited: Seq<bool>,
    stack: Seq<usize>,
    done: Set<int>,
) -> bool {
    let n = orig.len();
    &&& store.len() == n
    &&& store_wf(orig)
    &&& visited.len() == n
    &&& r < n
    &&& visited[r as int]
    &&& forall|k: u128| #[trigger] orig_nodes.contains_key(k) ==> orig_nodes[k] < n
    &&& forall|i: int| 0 <= i < stack.len() ==> #[trigger] stack[i] < n
    &&& stack.no_duplicates()
    &&& forall|y: int| 0 <= y < n ==> (#[trigger] visited[y] <==> (done.contains(y) || stack.contains(y as usize)))
    &&& forall|y: int| #[trigger] done.contains(y) ==> 0 <= y < n && !stack.contains(y as usize)
    &&& done.finite()
    &&& forall|y: int| 0 <= y < n && #[trigger] visited[y] ==> swept_set(orig, r).contains(y)
    &&& forall|y: int, c: usize|
        #![trigger done.contains(y), orig[y].children@.contains(c)]
        done.contains(y) && !orig[y].enabled && orig[y].children@.contains(c) ==> visited[c as int]
    &&& forall|y: int|
        0 <= y < n ==> if done.contains(y) && !orig[y].enabled {
            (#[trigger] store[y]).is_cleared_of(&orig[y])
        } else {
            store[y] == orig[y]
        }
    &&& nodes == orig_nodes.remove_keys(unfiled_ids(orig, done))
}

/// Takes the next handle off the stack: a switched-off node is emptied, the
/// identifiers of its children leave the lookup, and the children not yet
/// taken up are pushed.
#[verifier::rlimit(100)]
fn sweep_step(
    store: &mut Vec<EqNode>,
    nodes: &mut HashMap<u128, usize>,
    visited: &mut Vec<bool>,
    stack: &mut Vec<usize>,
    r: usize,
    Ghost(orig): Ghost<Seq<EqNode>>,
    Ghost(orig_nodes): Ghost<Map<u128, usize>>,
    Ghost(done): Ghost<Set<int>>,
) -> (x: Ghost<int>)
    requires
        sweep_inv(orig, orig_nodes, r, old(store)@, old(nodes)@, old(visited)@, old(stack)@, done),
        old(stack)@.len() > 0,
    ensures
        !done.contains(x@),
        0 <= x@ < orig.len(),
        sweep_inv(orig, orig_nodes, r, final(store)@, final(nodes)@, final(visited)@, final(stack)@, done.insert(x@)),
{
    let n = store.len();
    let ghost stack_before = stack@;
    let x = stack.pop().unwrap();
    proof {
        assert(stack_before =~= stack@.push(x));
        lemma_stack_pop(stack_before, stack@, x);
        assert(stack_before.contains(x));
        assert(visited@[x as int]);
        assert(swept_set(orig, r).contains(x as int));
        assert(stack_before[stack_before.len() - 1] == x);
        assert(store@[x as int] == orig[x as int]);
        assert(orig[x as int].wf());
    }
    if !store[x].enabled {
        let mut cs: Vec<usize> = Vec::new();
        std::mem::swap(&mut cs, &mut store[x].children);
        store[x].clear_bands();
        proof {
            assert(nodes@ =~= orig_nodes.remove_keys(unfiled_ids(orig, done)).remove_keys(child_ids(orig, cs@, 0)));
        }
        let mut j: usize = 0;
        while j < cs.len()
            invariant
                n == store@.len(),
                n == orig.len(),
                store_wf(orig),
                visited@.len() == n,
                r < n,
                x < n,
                !orig[x as int].enabled,
                swept_set(orig, r).contains(x as int),
                cs@ == orig[x as int].children@,
                j <= cs@.len(),
                visited@[r as int],
                visited@[x as int],
                !done.contains(x as int),
                !stack@.contains(x),
                forall|i: int| 0 <= i < stack@.len() ==> #[trigger] stack@[i] < n,
                stack@.no_duplicates(),
                forall|y: int|
                    0 <= y < n ==> (#[trigger] visited@[y] <==> (done.contains(y) || stack@.contains(y as usize) || y == x)),
                forall|y: int| #[trigger] done.contains(y) ==> 0 <= y < n && !stack@.contains(y as usize),
                forall|y: int| 0 <= y < n && #[trigger] visited@[y] ==> swept_set(orig, r).contains(y),
                forall|y: int, c: usize|
                    #![trigger done.contains(y), orig[y].children@.contains(c)]
                    done.contains(y) && !orig[y].enabled && orig[y].children@.contains(c) ==> visited@[c as int],
                forall|jj: int| 0 <= jj < j ==> visited@[#[trigger] cs@[jj] as int],
                forall|y: int|
                    0 <= y < n ==> if (done.contains(y) || y == x) && !orig[y].enabled {
                        (#[trigger] store@[y]).is_cleared_of(&orig[y])
                    } else {
                        store@[y] == orig[y]
                    },
                nodes@ == orig_nodes.remove_keys(unfiled_ids(orig, done)).remove_keys(child_ids(orig, cs@, j as int)),
            decreases cs@.len() - j,
        {
            let c = cs[j];
            let ghost vis_before = visited@;
            proof {
                assert(orig[x as int].wf());
                assert(orig[x as int].children@[j as int] == c);
                assert(c < n);
                assert(orig[x as int].children@.contains(c));
                assert(store@[c as int].id == orig[c as int].id);
                lemma_child_ids_step(orig, cs@, j as int, orig_nodes.remove_keys(unfiled_ids(orig, done)));
            }
            let cid = store[c].id;
            nodes.remove(&cid);
            if !visited[c] {
                proof {
                    lemma_sweep_reaches_child(orig, r, x, c);
                    assert(!stack@.contains(c));
                    lemma_stack_push(stack@, c);
                }
                visited[c] = true;
                stack.push(c);
                proof {
                    assert forall|i: int| 0 <= i < stack@.len() implies #[trigger] stack@[i] < n by {
                        if i < stack@.len() - 1 {
                            assert(stack@[i] == stack@.drop_last()[i]);
                        }
                    }
                }
            }
            proof {
                assert forall|y: int, c2: usize|
                    #![trigger done.contains(y), orig[y].children@.contains(c2)]
                    done.contains(y) && !orig[y].enabled && orig[y].children@.contains(c2) implies visited@[c2 as int] by {
                    assert(0 <= y < n);
                    assert(orig[y].wf());
                    let i = choose|i: int| 0 <= i < orig[y].children@.len() && orig[y].children@[i] == c2;
                    assert(c2 < n);
                    assert(vis_before[c2 as int]);
                }
                assert forall|jj: int| 0 <= jj < j + 1 implies visited@[#[trigger] cs@[jj] as int] by {
                    if jj < j {
                        assert(vis_before[cs@[jj] as int]);
                    }
                }
            }
            j = j + 1;
        }
        proof {
            lemma_unfiled_insert(orig, done, x as int, orig_nodes);
        }
    } else {
        proof {
            lemma_unfiled_insert(orig, done, x as int, orig_nodes);
        }
    }
    proof {
        let done2 = done.insert(x as int);
        assert forall|y: int, c: usize|
            #![trigger done2.contains(y), orig[y].children@.contains(c)]
            done2.contains(y) && !orig[y].enabled && orig[y].children@.contains(c) implies visited@[c as int] by {
            if y == x as int {
                let jj = choose|jj: int| 0 <= jj < orig[x as int].children@.len() && orig[x as int].children@[jj] == c;
            }
        }
    }
    Ghost(x as int)
}

/// Empties every switched-off node that a sweep from `r` reaches and drops
/// the identifiers of their children from the lookup, taking up each node at
/// most once.
fn sweep(store: &mut Vec<EqNode>, nodes: &mut HashMap<u128, usize>, r: usize)
    requires
        store_wf(old(store)@),
        r < old(store)@.len(),
        forall|k: u128| #[trigger] old(nodes)@.contains_key(k) ==> old(nodes)@[k] < old(store)@.len(),
    ensures
        store_wf(final(store)@),
        forall|k: u128| #[trigger] final(nodes)@.contains_key(k) ==> final(nodes)@[k] < final(store)@.len(),
        is_swept(final(store)@, final(nodes)@, old(store)@, old(nodes)@, r),
{
    let n = store.len();
    let ghost orig = store@;
    let ghost orig_nodes = nodes@;
    let mut visited: Vec<bool> = Vec::new();
    let mut i: usize = 0;
    while i < n
        invariant
            i <= n,
            visited@.len() == i,
            forall|j: int| 0 <= j < i ==> !visited@[j],
        decreases n - i,
    {
        visited.push(false);
        i = i + 1;
    }
    visited[r] = true;
    let mut stack: Vec<usize> = Vec::new();
    stack.push(r);
    let ghost mut done: Set<int> = Set::empty();
    proof {
        let p = seq![r];
        assert(is_sweep_path(orig, r, p));
        assert(swept_set(orig, r).contains(r as int));
        assert(nodes@ =~= orig_nodes.remove_keys(unfiled_ids(orig, done)));
        assert(stack@[0] == r);
        assert forall|y: int| 0 <= y < n implies (#[trigger] visited@[y] <==> (done.contains(y) || stack@.contains(y as usize))) by {
            if stack@.contains(y as usize) {
                let k = choose|k: int| 0 <= k < stack@.len() && stack@[k] == y as usize;
            }
        }
    }
    while stack.len() > 0
        invariant
            sweep_inv(orig, orig_nodes, r, store@, nodes@, visited@, stack@, done),
            done.len() <= n,
            n == orig.len(),
        decreases n - done.len(),
    {
        let x: Ghost<int> = sweep_step(store, nodes, &mut visited, &mut stack, r, Ghost(orig), Ghost(orig_nodes), Ghost(done));
        proof {
            let done2 = done.insert(x@);
            vstd::set_lib::lemma_int_range(0, n as int);
            assert(done2.subset_of(vstd::set_lib::set_int_range(0, n as int)));
            vstd::set_lib::lemma_len_subset(done2, vstd::set_lib::set_int_range(0, n as int));
            done = done2;
        }
    }
    proof {
        let sw = swept_set(orig, r);
        assert forall|y: int, c: usize|
            #![trigger done.contains(y), orig[y].children@.contains(c)]
            done.contains(y) && !orig[y].enabled && orig[y].children@.contains(c) implies done.contains(c as int) by {
            assert(orig[y].wf());
            let jj = choose|jj: int| 0 <= jj < orig[y].children@.len() && orig[y].children@[jj] == c;
            assert(c < n);
            assert(visited@[c as int]);
        }
        assert forall|y: int| 0 <= y < n implies (done.contains(y) <==> sw.contains(y)) by {
            if sw.contains(y) {
                let path = choose|path: Seq<usize>| #[trigger] is_sweep_path(orig, r, path) && path.last() == y;
                lemma_sweep_paths_in_closed_set(orig, r, done, path, path.len() - 1);
            }
            if done.contains(y) {
                assert(visited@[y]);
            }
        }
        assert(done =~= sw);
        lemma_cleared_store_wf(store@, orig);
    }
}

/// A store in which each node is either kept or emptied stays well formed.
proof fn lemma_cleared_store_wf(after: Seq<EqNode>, before: Seq<EqNode>)
    requires
        store_wf(before),
        after.len() == before.len(),
        forall|y: int| 0 <= y < before.len() ==> (#[trigger] after[y]).is_cleared_of(&before[y]) || after[y] == before[y],
    ensures
        store_wf(after),
{
    assert forall|y: int| 0 <= y < after.len() implies #[trigger] after[y].wf() && forall|i: int|
        0 <= i < after[y].children@.len() ==> #[trigger] after[y].children@[i] < after.len() by {
        assert(before[y].wf());
        if after[y] == before[y] {
            assert forall|i: int| 0 <= i < after[y].children@.len() implies #[trigger] after[y].children@[i] < after.len() by {
                assert(before[y].children@[i] < before.len());
            }
        }
    }
}

/// No sweep from `root` passes through a node twice: the switched-off nodes
/// that cleanup goes down through form no cycle. Cleanup is defined for such
/// stores.
pub open spec fn sweep_acyclic(store: Seq<EqNode>, root: usize) -> bool {
    forall|path: Seq<usize>| #[trigger] is_sweep_path(store, root, path) ==> path.no_duplicates()
}

/// A chain of children from `root`: it starts at the root, and every node on
/// it but the last lists the next one among its children.
pub open spec fn is_child_path(store: Seq<EqNode>, root: usize, path: Seq<usize>) -> bool {
    &&& path.len() > 0
    &&& path[0] == root
    &&& forall|i: int| 0 <= i < path.len() ==> #[trigger] path[i] < store.len()
    &&& forall|i: int| 0 <= i < path.len() - 1 ==> store[#[trigger] path[i] as int].children@.contains(path[i + 1])
}

/// No chain of children from `root` passes through a node twice: the nodes
/// below the root form no cycle. Applying a profile to audio is defined for
/// such stores.
pub open spec fn below_acyclic(store: Seq<EqNode>, root: usize) -> bool {
    forall|path: Seq<usize>| #[trigger] is_child_path(store, root, path) ==> path.no_duplicates()
}

/// Whether some chain of children from `root` with `k + 1` nodes ends at `y`.
pub open spec fn ends_chain(store: Seq<EqNode>, root: usize, k: nat, y: int) -> bool {
    exists|path: Seq<usize>| #[trigger] is_child_path(store, root, path) && path.len() == k + 1 && path.last() == y
}

/// Every sweep path is a chain of children, so a store with no cycle below
/// the root has none among the switched-off nodes that cleanup goes through.
pub proof fn lemma_below_acyclic_sweeps(store: Seq<EqNode>, root: usize)
    requires
        below_acyclic(store, root),
    ensures
        sweep_acyclic(store, root),
{
    assert forall|path: Seq<usize>| #[trigger] is_sweep_path(store, root, path) implies path.no_duplicates() by {
        assert(is_child_path(store, root, path));
    }
}

/// With no cycle below the root, no chain of children from the root holds
/// more nodes than the store.
pub proof fn lemma_acyclic_chains_short(store: Seq<EqNode>, root: usize)
    requires
        store.len() <= usize::MAX,
        below_acyclic(store, root),
    ensures
        forall|path: Seq<usize>| #[trigger] is_child_path(store, root, path) ==> path.len() <= store.len(),
{
    assert forall|path: Seq<usize>| #[trigger] is_child_path(store, root, path) implies path.len() <= store.len() by {
        if path.len() > store.len() {
            lemma_long_path_repeats(path, store.len());
        }
    }
}

/// The handles below `n`, as a set.
spec fn handles_below(n: nat) -> Set<usize> {
    Set::new(|x: usize| (x as int) < n)
}

proof fn lemma_handles_below(n: nat)
    requires
        n <= usize::MAX,
    ensures
        handles_below(n).finite(),
        handles_below(n).len() == n,
    decreases n,
{
    if n == 0 {
        assert(handles_below(n) =~= Set::<usize>::empty());
    } else {
        lemma_handles_below((n - 1) as nat);
        assert(handles_below(n) =~= handles_below((n - 1) as nat).insert((n - 1) as usize));
    }
}

/// A chain through more nodes than the store holds passes through one of
/// them twice.
pub(crate) proof fn lemma_long_path_repeats(path: Seq<usize>, n: nat)
    requires
        n <= usize::MAX,
        path.len() > n,
        forall|i: int| 0 <= i < path.len() ==> #[trigger] path[i] < n,
    ensures
        !path.no_duplicates(),
{
    if path.no_duplicates() {
        path.unique_seq_to_set();
        lemma_handles_below(n);
        assert forall|x: usize| path.to_set().contains(x) implies handles_below(n).contains(x) by {
            let i = choose|i: int| 0 <= i < path.len() && path[i] == x;
            assert(path[i] < n);
        }
        vstd::set_lib::lemma_len_subset(path.to_set(), handles_below(n));
    }
}

/// The first `m` nodes of a chain of children form one too.
pub(crate) proof fn lemma_child_path_prefix(store: Seq<EqNode>, root: usize, path: Seq<usize>, m: int)
    requires
        is_child_path(store, root, path),
        1 <= m <= path.len(),
    ensures
        is_child_path(store, root, path.take(m)),
{
    let q = path.take(m);
    assert forall|i: int| 0 <= i < q.len() implies #[trigger] q[i] < store.len() by {
        assert(q[i] == path[i]);
    }
    assert forall|i: int| 0 <= i < q.len() - 1 implies store[#[trigger] q[i] as int].children@.contains(q[i + 1]) by {
        assert(q[i] == path[i] && q[i + 1] == path[i + 1]);
        assert(store[path[i] as int].children@.contains(path[i + 1]));
    }
}

/// A chain of children extended by a child of its last node is one too.
pub(crate) proof fn lemma_child_path_push(store: Seq<EqNode>, root: usize, path: Seq<usize>, c: usize)
    requires
        is_child_path(store, root, path),
        store[path.last() as int].children@.contains(c),
        c < store.len(),
    ensures
        is_child_path(store, root, path.push(c)),
{
    let q = path.push(c);
    assert forall|i: int| 0 <= i < q.len() implies #[trigger] q[i] < store.len() by {
        if i < path.len() {
            assert(q[i] == path[i]);
        }
    }
    assert forall|i: int| 0 <= i < q.len() - 1 implies store[#[trigger] q[i] as int].children@.contains(q[i + 1]) by {
        assert(q[i] == path[i]);
        if i < path.len() - 1 {
            assert(q[i + 1] == path[i + 1]);
            assert(store[path[i] as int].children@.contains(path[i + 1]));
        }
    }
}

/// A chain that passes through a node twice, at positions `i` and `j`, can be
/// made as long as one likes by going round the cycle between them: here, to
/// `len` nodes, ending on that cycle.
proof fn lemma_pump(store: Seq<EqNode>, root: usize, p: Seq<usize>, i: int, j: int, len: nat) -> (res: (Seq<usize>, int))
    requires
        is_child_path(store, root, p),
        0 <= i < j < p.len(),
        p[i] == p[j],
        len >= j + 1,
    ensures
        is_child_path(store, root, res.0),
        res.0.len() == len,
        i < res.1 <= j,
        res.0.last() == p[res.1],
    decreases len,
{
    if len == j + 1 {
        lemma_child_path_prefix(store, root, p, j + 1);
        (p.take(j + 1), j)
    } else {
        let (q, t) = lemma_pump(store, root, p, i, j, (len - 1) as nat);
        if t < j {
            assert(store[p[t] as int].children@.contains(p[t + 1]));
            assert(p[t + 1] < store.len());
            lemma_child_path_push(store, root, q, p[t + 1]);
            (q.push(p[t + 1]), t + 1)
        } else {
            assert(store[p[i] as int].children@.contains(p[i + 1]));
            assert(p[i + 1] < store.len());
            lemma_child_path_push(store, root, q, p[i + 1]);
            (q.push(p[i + 1]), i + 1)
        }
    }
}

/// The nodes below the root form a cycle exactly when some chain of children
/// from the root has one node more than the store holds.
proof fn lemma_cycle_iff_long_chain(store: Seq<EqNode>, root: usize)
    requires
        store.len() <= usize::MAX,
    ensures
        !below_acyclic(store, root) <==> exists|y: int| 0 <= y < store.len() && ends_chain(store, root, store.len(), y),
{
    let n = store.len();
    if exists|y: int| 0 <= y < store.len() && ends_chain(store, root, store.len(), y) {
        let y = choose|y: int| 0 <= y < store.len() && ends_chain(store, root, store.len(), y);
        let path = choose|path: Seq<usize>| #[trigger] is_child_path(store, root, path) && path.len() == n + 1 && path.last() == y;
        lemma_long_path_repeats(path, n);
    }
    if !below_acyclic(store, root) {
        let p = choose|path: Seq<usize>| #[trigger] is_child_path(store, root, path) && !path.no_duplicates();
        let (i, j) = choose|i: int, j: int| 0 <= i < p.len() && 0 <= j < p.len() && i != j && p[i] == p[j];
        let (i, j) = if i < j { (i, j) } else { (j, i) };
        let q = if p.len() >= n + 1 {
            lemma_child_path_prefix(store, root, p, n as int + 1);
            p.take(n as int + 1)
        } else {
            lemma_pump(store, root, p, i, j, n + 1).0
        };
        assert(is_child_path(store, root, q) && q.len() == n + 1);
        let y = q.last() as int;
        assert(q[q.len() - 1] < store.len());
        assert(ends_chain(store, root, n, y));
    }
}

/// A chain with `k + 2` nodes ends at `c` exactly when `c` is a child of a node
/// at which a chain with `k + 1` nodes ends.
proof fn lemma_ends_chain_step(store: Seq<EqNode>, root: usize, k: nat, c: usize)
    requires
        store_wf(store),
        c < store.len(),
    ensures
        ends_chain(store, root, k + 1, c as int) <==> exists|x: int|
            0 <= x < store.len() && #[trigger] ends_chain(store, root, k, x) && store[x].children@.contains(c),
{
    if ends_chain(store, root, k + 1, c as int) {
        let path = choose|path: Seq<usize>| #[trigger] is_child_path(store, root, path) && path.len() == k + 2 && path.last() == c;
        lemma_child_path_prefix(store, root, path, k as int + 1);
        let q = path.take(k as int + 1);
        let x = path[k as int] as int;
        assert(q.last() == x);
        assert(ends_chain(store, root, k, x));
        assert(store[x].children@.contains(path[k as int + 1]));
    }
    if exists|x: int| 0 <= x < store.len() && #[trigger] ends_chain(store, root, k, x) && store[x].children@.contains(c) {
        let x = choose|x: int| 0 <= x < store.len() && #[trigger] ends_chain(store, root, k, x) && store[x].children@.contains(c);
        let q = choose|path: Seq<usize>| #[trigger] is_child_path(store, root, path) && path.len() == k + 1 && path.last() == x;
        lemma_child_path_push(store, root, q, c);
        assert(q.push(c).last() == c);
        assert(ends_chain(store, root, k + 1, c as int));
    }
}

/// Whether some chain of children from `root` has one node more than the
/// store holds, found by following the chains level by level.
fn has_overlong_chain(store: &Vec<EqNode>, root: usize) -> (r: bool)
    requires
        store_wf(store@),
        root < store@.len(),
    ensures
        r == exists|y: int| 0 <= y < store@.len() && ends_chain(store@, root, store@.len(), y),
{
    let n = store.len();
    let mut cur: Vec<bool> = Vec::new();
    let mut y: usize = 0;
    while y < n
        invariant
            y <= n,
            n == store@.len(),
            cur@.len() == y,
            forall|z: int| 0 <= z < y ==> cur@[z] == (z == root),
        decreases n - y,
    {
        cur.push(y == root);
        y = y + 1;
    }
    proof {
        assert forall|z: int| 0 <= z < n implies cur@[z] == ends_chain(store@, root, 0, z) by {
            if z == root {
                assert(is_child_path(store@, root, seq![root]));
                assert(seq![root].last() == root);
            }
            if ends_chain(store@, root, 0, z) {
                let path = choose|path: Seq<usize>| #[trigger] is_child_path(store@, root, path) && path.len() == 1 && path.last() == z;
                assert(path[0] == root);
            }
        }
    }
    let mut k: usize = 0;
    while k < n
        invariant
            k <= n,
            n == store@.len(),
            store_wf(store@),
            root < n,
            cur@.len() == n,
            forall|z: int| 0 <= z < n ==> cur@[z] == #[trigger] ends_chain(store@, root, k as nat, z),
        decreases n - k,
    {
        let mut next: Vec<bool> = Vec::new();
        let mut y: usize = 0;
        while y < n
            invariant
                y <= n,
                next@.len() == y,
                forall|z: int| 0 <= z < y ==> !next@[z],
            decreases n - y,
        {
            next.push(false);
            y = y + 1;
        }
        let mut x: usize = 0;
        while x < n
            invariant
                x <= n,
                n == store@.len(),
                store_wf(store@),
                cur@.len() == n,
                next@.len() == n,
                forall|z: int| 0 <= z < n ==> next@[z] == exists|w: int|
                    0 <= w < x && #[trigger] cur@[w] && store@[w].children@.contains(z as usize),
            decreases n - x,
        {
            if cur[x] {
                let node = &store[x];
                proof {
                    assert(store@[x as int].wf());
                }
                let mut j: usize = 0;
                while j < node.children.len()
                    invariant
                        x < n,
                        n == store@.len(),
                        *node == store@[x as int],
                        cur@.len() == n,
                        cur@[x as int],
                        next@.len() == n,
                        j <= node.children@.len(),
                        forall|i: int| 0 <= i < node.children@.len() ==> #[trigger] node.children@[i] < n,
                        forall|z: int| 0 <= z < n ==> next@[z] == ((exists|w: int|
                            0 <= w < x && #[trigger] cur@[w] && store@[w].children@.contains(z as usize))
                            || exists|i: int| 0 <= i < j && node.children@[i] == z),
                    decreases node.children@.len() - j,
                {
                    let c = node.children[j];
                    next.set(c, true);
                    proof {
                        assert(node.children@[j as int] == c);
                    }
                    j = j + 1;
                }
                proof {
                    assert forall|z: int| 0 <= z < n implies next@[z] == exists|w: int|
                        0 <= w < x + 1 && #[trigger] cur@[w] && store@[w].children@.contains(z as usize) by {
                        if exists|i: int| 0 <= i < node.children@.len() && node.children@[i] == z {
                            let i = choose|i: int| 0 <= i < node.children@.len() && node.children@[i] == z;
                            assert(store@[x as int].children@.contains(z as usize));
                        }
                        if store@[x as int].children@.contains(z as usize) {
                            let i = choose|i: int| 0 <= i < store@[x as int].children@.len() && store@[x as int].children@[i] == z as usize;
                            assert(node.children@[i] == z);
                        }
                    }
                }
            }
            x = x + 1;
        }
        proof {
            assert forall|z: int| 0 <= z < n implies next@[z] == #[trigger] ends_chain(store@, root, (k + 1) as nat, z) by {
                lemma_ends_chain_step(store@, root, k as nat, z as usize);
                if next@[z] {
                    let w = choose|w: int| 0 <= w < n && #[trigger] cur@[w] && store@[w].children@.contains(z as usize);
                    assert(ends_chain(store@, root, k as nat, w));
                }
                if ends_chain(store@, root, (k + 1) as nat, z) {
                    let w = choose|w: int|
                        0 <= w < n && #[trigger] ends_chain(store@, root, k as nat, w) && store@[w].children@.contains(z as usize);
                    assert(cur@[w]);
                }
            }
        }
        cur = next;
        k = k + 1;
    }
    let mut found = false;
    let mut y: usize = 0;
    while y < n
        invariant
            y <= n,
            n == store@.len(),
            cur@.len() == n,
            forall|z: int| 0 <= z < n ==> cur@[z] == #[trigger] ends_chain(store@, root, n as nat, z),
            found == exists|z: int| 0 <= z < y && #[trigger] ends_chain(store@, root, n as nat, z),
        decreases n - y,
    {
        proof {
            assert(cur@[y as int] == ends_chain(store@, root, n as nat, y as int));
        }
        if cur[y] {
            found = true;
        }
        y = y + 1;
    }
    found
}

impl EqProfile {
    /// Every handle that the profile holds is a handle of its store, and every
    /// stored node is well formed.
    pub open spec fn wf(&self) -> bool {
        &&& store_wf(self.store@)
        &&& forall|k: u128| #[trigger] self.nodes@.contains_key(k) ==> self.nodes@[k] < self.store@.len()
        &&& self.root matches Some(r) ==> r < self.store@.len()
    }

    /// Whether the profile is well formed: every handle that it holds is a
    /// handle of its store, and every stored node is well formed. A profile
    /// that was not built by the operations of this library (one read from a
    /// file, say) is checked with this before use.
    pub fn is_well_formed(&self) -> (r: bool)
        ensures
            r == self.wf(),
    {
        let n = self.store.len();
        let mut h: usize = 0;
        while h < n
            invariant
                n == self.store@.len(),
                h <= n,
                forall|g: int| 0 <= g < h ==> #[trigger] node_fits(self.store@[g], n as nat),
            decreases n - h,
        {
            let node = &self.store[h];
            if !positions_below(&node.band_map, node.bands.len()) {
                assert(!self.store@[h as int].wf());
                return false;
            }
            let mut i: usize = 0;
            while i < node.children.len()
                invariant
                    n == self.store@.len(),
                    h < n,
                    *node == self.store@[h as int],
                    i <= node.children@.len(),
                    forall|j: int| 0 <= j < i ==> #[trigger] node.children@[j] < n,
                decreases node.children@.len() - i,
            {
                if node.children[i] >= n {
                    assert(!node_fits(self.store@[h as int], n as nat));
                    assert(!(self.store@[h as int].children@[i as int] < n));
                    return false;
                }
                i = i + 1;
            }
            assert(node_fits(self.store@[h as int], n as nat));
            h = h + 1;
        }
        assert forall|g: int| 0 <= g < self.store@.len() implies #[trigger] self.store@[g].wf() && forall|j: int|
            0 <= j < self.store@[g].children@.len() ==> #[trigger] self.store@[g].children@[j] < self.store@.len() by {
            assert(node_fits(self.store@[g], n as nat));
        }
        assert(store_wf(self.store@));
        if !positions_below(&self.nodes, n) {
            return false;
        }
        match self.root {
            Some(r) => r < n,
            None => true,
        }
    }

    /// Whether the nodes below the root form no cycle (see `below_acyclic`);
    /// a profile without a root has none.
    pub fn is_acyclic_below_root(&self) -> (r: bool)
        requires
            self.wf(),
        ensures
            r == (self.root matches Some(rt) ==> below_acyclic(self.store@, rt)),
    {
        match self.root {
            Some(rt) => {
                let n = self.store.len();
                proof {
                    lemma_cycle_iff_long_chain(self.store@, rt);
                }
                !has_overlong_chain(&self.store, rt)
            },
            None => true,
        }
    }

    /// The handle under which the lookup holds the node with identifier `id`.
    pub open spec fn handle_of(&self, id: u128) -> Option<usize> {
        if self.nodes@.contains_key(id) {
            Some(self.nodes@[id])
        } else {
            None
        }
    }

    /// The handle of the node under which `add_node` files a child, for the
    /// parent identifier it is given.
    pub open spec fn parent_handle(&self, parent: Option<u128>) -> Option<usize> {
        match parent {
            Some(p) => self.handle_of(p),
            None => None,
        }
    }

    /// Whether `self` is `other` with only its node store changed, to `store`.
    pub open spec fn same_but_store(&self, other: &EqProfile, store: Seq<EqNode>) -> bool {
        &&& self.store@ == store
        &&& self.nodes@ == other.nodes@
        &&& self.root == other.root
        &&& self.id == other.id
        &&& self.name@ == other.name@
        &&& self.preamp == other.preamp
        &&& self.channel == other.channel
    }

    /// Whether `self` is `other` after `add_node(parent, node)`: the node is
    /// stored under the next handle and filed under its identifier; it is
    /// appended to the children of the parent that the lookup finds, or
    /// becomes the root when there is no parent; nothing else changes.
    pub open spec fn is_add_node_of(&self, other: &EqProfile, parent: Option<u128>, node: EqNode) -> bool {
        let h = other.store@.len();
        &&& self.store@.len() == h + 1
        &&& self.store@.last() == node
        &&& forall|g: int| 0 <= g < h ==> #[trigger] self.store@[g] == (
            if other.parent_handle(parent) == Some(g as usize) {
                EqNode { children: self.store@[g].children, ..other.store@[g] }
            } else {
                other.store@[g]
            })
        &&& other.parent_handle(parent) matches Some(ph) ==> self.store@[ph as int].children@
            == other.store@[ph as int].children@.push(h as usize)
        &&& self.root == (if parent is None {
            Some(h as usize)
        } else {
            other.root
        })
        &&& self.nodes@ == other.nodes@.insert(node.id, h as usize)
        &&& self.id == other.id
        &&& self.name@ == other.name@
        &&& self.preamp == other.preamp
        &&& self.channel == other.channel
    }

    /// A new profile with a fresh identifier and no nodes.
    pub fn new(name: &str, preamp: Option<u32>, channel: u8) -> (r: Self)
        ensures
            r.wf(),
            r.name@ == name@,
            r.preamp == preamp,
            r.channel == channel,
            r.store@ == Seq::<EqNode>::empty(),
            r.nodes@ == Map::<u128, usize>::empty(),
            r.root is None,
    {
        EqProfile {
            id: fresh_id(),
            name: name.to_owned(),
            preamp,
            root: None,
            nodes: HashMap::new(),
            channel,
            store: Vec::new(),
        }
    }

    /// Stores a node and files it under its identifier. With a parent
    /// identifier that the lookup knows, the node becomes the last child of
    /// that parent; with an unknown one it is only filed; with none it
    /// becomes the root.
    pub fn add_node(&mut self, parent: Option<u128>, node: EqNode)
        requires
            old(self).wf(),
            node.wf(),
            forall|i: int| 0 <= i < node.children@.len() ==> #[trigger] node.children@[i] < old(self).store@.len(),
        ensures
            final(self).wf(),
            final(self).is_add_node_of(old(self), parent, node),
    {
        let id = node.id;
        let h = self.store.len();
        if let Some(paren) = parent {
            if let Some(nd) = self.nodes.get(&paren) {
                let ph = *nd;
                proof {
                    assert(old(self).store@[ph as int].wf());
                }
                self.store[ph].add_child(h);
            }
        } else {
            self.root = Some(h);
        }
        self.store.push(node);
        self.nodes.insert(id, h);
        proof {
            let s2 = self.store@;
            assert forall|g: int| 0 <= g < s2.len() implies #[trigger] s2[g].wf() && forall|i: int|
                0 <= i < s2[g].children@.len() ==> #[trigger] s2[g].children@[i] < s2.len() by {
                if g < old(self).store@.len() {
                    assert(old(self).store@[g].wf());
                    if old(self).parent_handle(parent) != Some(g as usize) {
                        assert(s2[g] == old(self).store@[g]);
                    } else {
                        assert forall|i: int| 0 <= i < s2[g].children@.len() implies #[trigger] s2[g].children@[i] < s2.len() by {
                            if i < s2[g].children@.len() - 1 {
                                assert(s2[g].children@[i] == old(self).store@[g].children@[i]);
                            }
                        }
                    }
                }
            }
        }
    }

    /// Switches off the node that the identifier looks up, if any.
    pub fn deactive_node(&mut self, id: u128)
        requires
            old(self).wf(),
        ensures
            final(self).wf(),
            final(self).same_but_store(old(self), switched_store(old(self).store@, old(self).handle_of(id), false)),
    {
        if let Some(x) = self.nodes.get(&id) {
            let h = *x;
            proof { assert(old(self).store@[h as int].wf()); }
            self.store[h].enabled = false;
            proof { lemma_store_wf_update(old(self).store@, h as int, self.store@[h as int]); }
        }
    }

    /// Switches on the node that the identifier looks up, if any.
    pub fn activate_node(&mut self, id: u128)
        requires
            old(self).wf(),
        ensures
            final(self).wf(),
            final(self).same_but_store(old(self), switched_store(old(self).store@, old(self).handle_of(id), true)),
    {
        if let Some(x) = self.nodes.get(&id) {
            let h = *x;
            proof { assert(old(self).store@[h as int].wf()); }
            self.store[h].enabled = true;
            proof { lemma_store_wf_update(old(self).store@, h as int, self.store@[h as int]); }
        }
    }

    /// Whether the request asks `update_node` to change one setting of a band
    /// that the node holds. Such requests are outside what `update_node`
    /// serves; a setting of a band is changed on its node, with
    /// `EqNode::apply_band_op`.
    pub open spec fn edits_a_held_band(&self, nd_id: u128, bnd_op: BandOp, o_op: Option<BandUpdate>) -> bool {
        &&& bnd_op matches BandOp::UpdateBand(bid)
        &&& self.handle_of(nd_id) matches Some(h)
        &&& self.store@[h as int].band_index().contains_key(bid)
        &&& o_op matches Some(u)
        &&& !(u is Create)
    }

    /// Carries out a band operation on the node that the identifier looks up,
    /// if any (see `EqNode::apply_band_op`): appends a band made from
    /// `Create` settings, or switches a band off. A request to change a
    /// setting of a band the node holds is not served (see
    /// `edits_a_held_band`); any other request changes nothing.
    pub fn update_node(&mut self, nd_id: u128, bnd_op: BandOp, o_op: Option<BandUpdate>)
        requires
            old(self).wf(),
            !old(self).edits_a_held_band(nd_id, bnd_op, o_op),
        ensures
            final(self).wf(),
            match old(self).handle_of(nd_id) {
                Some(h) => {
                    &&& final(self).same_but_store(old(self), old(self).store@.update(h as int, final(self).store@[h as int]))
                    &&& final(self).store@[h as int].is_band_op_of(&old(self).store@[h as int], bnd_op, o_op)
                },
                None => final(self).same_but_store(old(self), old(self).store@),
            },
    {
        if let Some(nd) = self.nodes.get(&nd_id) {
            let h = *nd;
            proof { assert(old(self).store@[h as int].wf()); }
            self.store[h].apply_band_op(bnd_op, o_op);
            proof { lemma_store_wf_update(old(self).store@, h as int, self.store@[h as int]); }
        }
    }

    /// Cleans up the tree below a switched-off root, for a store in which the
    /// switched-off nodes that cleanup goes through form no cycle (see
    /// `sweep_acyclic`; `is_acyclic_below_root` is enough): starting at the root,
    /// every switched-off node that is reached loses its bands and children,
    /// its children leave the lookup, and its switched-off children are
    /// cleaned up in turn. A switched-on root, or no root, leaves the profile
    /// as it is.
    pub fn cleanup(&mut self)
        requires
            old(self).wf(),
            old(self).root matches Some(r) ==> sweep_acyclic(old(self).store@, r),
        ensures
            final(self).wf(),
            final(self).root == old(self).root,
            final(self).id == old(self).id,
            final(self).name@ == old(self).name@,
            final(self).preamp == old(self).preamp,
            final(self).channel == old(self).channel,
            match old(self).root {
                Some(r) => is_swept(final(self).store@, final(self).nodes@, old(self).store@, old(self).nodes@, r),
                None => final(self).store@ == old(self).store@ && final(self).nodes@ == old(self).nodes@,
            },
    {
        if let Some(r) = self.root {
            sweep(&mut self.store, &mut self.nodes, r);
        }
    }

    /// The same as `cleanup`.
    pub fn finalize(&mut self)
        requires
            old(self).wf(),
            old(self).root matches Some(r) ==> sweep_acyclic(old(self).store@, r),
        ensures
            final(self).wf(),
            final(self).root == old(self).root,
            final(self).id == old(self).id,
            final(self).name@ == old(self).name@,
            final(self).preamp == old(self).preamp,
            final(self).channel == old(self).channel,
            match old(self).root {
                Some(r) => is_swept(final(self).store@, final(self).nodes@, old(self).store@, old(self).nodes@, r),
                None => final(self).store@ == old(self).store@ && final(self).nodes@ == old(self).nodes@,
            },
    {
        self.cleanup();
    }

    /// The handle of the node that the identifier looks up, if any.
    pub fn get_node(&self, id: u128) -> (r: Option<usize>)
        ensures
            r == self.handle_of(id),
    {
        match self.nodes.get(&id) {
            Some(h) => Some(*h),
            None => None,
        }
    }

    /// The handle of the root node, if any.
    pub fn get_root(&self) -> (r: Option<usize>)
        ensures
            r == self.root,
    {
        self.root
    }

    /// The name of the profile.
    pub fn get_name(&self) -> (r: &str)
        ensures
            r@ == self.name@,
    {
        self.name.as_str()
    }

    /// Replaces the name of the profile.
    pub fn set_name(&mut self, name: &str)
        ensures
            final(self).name@ == name@,
            final(self).store@ == old(self).store@,
            final(self).nodes@ == old(self).nodes@,
            final(self).root == old(self).root,
            final(self).id == old(self).id,
            final(self).preamp == old(self).preamp,
            final(self).channel == old(self).channel,
    {
        self.name = name.to_owned();
    }

    /// The preamplifier gain, if any.
    pub fn get_preamp(&self) -> (r: Option<u32>)
        ensures
            r == self.preamp,
    {
        self.preamp
    }

    /// Replaces the preamplifier gain.
    pub fn set_preamp(&mut self, preamp: Option<u32>)
        ensures
            *final(self) == (EqProfile { preamp, ..*old(self) }),
    {
        self.preamp = preamp;
    }

    /// The identifier of the profile.
    pub fn get_id(&self) -> (r: u128)
        ensures
            r == self.id,
    {
        self.id
    }

    /// How many identifiers the lookup holds.
    pub fn node_count(&self) -> (r: usize)
        ensures
            r == self.nodes@.len(),
    {
        self.nodes.len()
    }

    /// Whether the lookup is empty.
    pub fn is_empty(&self) -> (r: bool)
        ensures
            r == (self.nodes@.len() == 0),
    {
        self.nodes.is_empty()
    }

    /// Empties the lookup and forgets the root.
    pub fn clear(&mut self)
        requires
            old(self).wf(),
        ensures
            final(self).wf(),
            final(self).nodes@ == Map::<u128, usize>::empty(),
            final(self).root is None,
            final(self).store@ == old(self).store@,
            final(self).id == old(self).id,
            final(self).name@ == old(self).name@,
            final(self).preamp == old(self).preamp,
            final(self).channel == old(self).channel,
    {
        self.nodes.clear();
        self.root = None;
    }
}


/// Switching a node off and then on again, through the lookup, gives back
/// the store one started from, when the node was switched on.
pub proof fn lemma_switch_off_then_on(store: Seq<EqNode>, h: Option<usize>)
    requires
        h matches Some(x) ==> x < store.len() && store[x as int].enabled,
    ensures
        switched_store(switched_store(store, h, false), h, true) == store,
{
    if let Some(x) = h {
        assert(switched_store(switched_store(store, h, false), h, true) =~= store);
    }
}

/// A sweep from a root that is switched on, or that has no children, reaches
/// the root alone.
proof fn lemma_swept_set_single(store: Seq<EqNode>, r: usize)
    requires
        r < store.len(),
        store[r as int].enabled || store[r as int].children@.len() == 0,
    ensures
        swept_set(store, r) == set![r as int],
{
    assert(is_sweep_path(store, r, seq![r]));
    assert forall|x: int| swept_set(store, r).contains(x) <==> x == r as int by {
        if swept_set(store, r).contains(x) {
            let path = choose|path: Seq<usize>| #[trigger] is_sweep_path(store, r, path) && path.last() == x;
            if path.len() > 1 {
                assert(!store[path[0] as int].enabled && store[path[0] as int].children@.contains(path[1]));
            }
        }
        if x == r as int {
            assert(seq![r].last() == r);
        }
    }
    assert(swept_set(store, r) =~= set![r as int]);
}

/// Cleaning up a profile whose root is switched on changes nothing.
pub proof fn lemma_cleanup_enabled_root(
    after: Seq<EqNode>,
    nodes_after: Map<u128, usize>,
    before: Seq<EqNode>,
    nodes_before: Map<u128, usize>,
    r: usize,
)
    requires
        is_swept(after, nodes_after, before, nodes_before, r),
        r < before.len(),
        before[r as int].enabled,
    ensures
        after == before,
        nodes_after == nodes_before,
{
    lemma_swept_set_single(before, r);
    assert forall|y: int| 0 <= y < before.len() implies after[y] == before[y] by {
        assert(!(swept_set(before, r).contains(y) && !before[y].enabled));
    }
    assert(after =~= before);
    assert(unfiled_ids(before, set![r as int]) =~= Set::<u128>::empty());
    assert(nodes_after =~= nodes_before);
}

/// Cleaning up a profile a second time leaves every node as the first
/// cleanup left it (the same identifier, name, switch, bands, lookup and
/// children), and the same lookup of nodes.
pub proof fn lemma_cleanup_idempotent(
    s0: Seq<EqNode>,
    n0: Map<u128, usize>,
    s1: Seq<EqNode>,
    n1: Map<u128, usize>,
    s2: Seq<EqNode>,
    n2: Map<u128, usize>,
    r: usize,
)
    requires
        r < s0.len(),
        is_swept(s1, n1, s0, n0, r),
        is_swept(s2, n2, s1, n1, r),
    ensures
        s2.len() == s1.len(),
        forall|y: int| 0 <= y < s1.len() ==> (#[trigger] s2[y]).same_view(&s1[y]),
        n2 == n1,
{
    if s0[r as int].enabled {
        lemma_cleanup_enabled_root(s1, n1, s0, n0, r);
        lemma_cleanup_enabled_root(s2, n2, s1, n1, r);
    } else {
        assert(is_sweep_path(s0, r, seq![r]));
        assert(seq![r].last() == r);
        assert(swept_set(s0, r).contains(r as int));
        assert(s1[r as int].is_cleared_of(&s0[r as int]));
        lemma_swept_set_single(s1, r);
        assert forall|y: int| 0 <= y < s1.len() implies (#[trigger] s2[y]).same_view(&s1[y]) by {
            if y != r as int {
                assert(!swept_set(s1, r).contains(y));
            }
        }
        assert(unfiled_ids(s1, set![r as int]) =~= Set::<u128>::empty());
        assert(n2 =~= n1);
    }
}

/// Adding a node files it under its identifier at a new handle, and makes
/// it the root when it has no parent.
pub proof fn lemma_add_node_then_get(after: EqProfile, before: EqProfile, parent: Option<u128>, node: EqNode)
    requires
        after.is_add_node_of(&before, parent, node),
    ensures
        after.handle_of(node.id) == Some(before.store@.len() as usize),
        after.store@[before.store@.len() as int] == node,
        parent is None ==> after.root == Some(before.store@.len() as usize),
{
}

} // verus!
