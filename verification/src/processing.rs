//! The order in which the bands of a profile are applied to audio.
//!
//! Audio passes through the root node first: through each of its enabled
//! bands in order, then through each of its children in order, each child
//! treated the same way. Nodes are switched on and off independently: a
//! switched-off node applies none of its own bands, while its children are
//! still applied, each by its own switch. The sample arithmetic itself is
//! floating point and is done by the caller, which keeps one filter per node
//! and band.

use vstd::prelude::*;
use crate::band::EqBand;
use crate::node::{enabled_bands, lemma_cleanup_idempotent, lemma_cleanup_keeps_enabled, lemma_enabled_bands_all, EqNode};
use crate::app_state::App;
use crate::profile::{
    below_acyclic, is_child_path, is_sweep_path, is_swept, lemma_acyclic_chains_short, lemma_child_path_push, store_wf,
    swept_set, EqProfile,
};

verus! {

/// One filtering step: a band, and the identifier of the node it belongs to.
#[derive(Debug, Clone, Copy, PartialEq, Eq, Structural)]
pub struct ChainLink {
    pub node_id: u128,
    pub band: EqBand,
}

/// The steps that a node contributes by itself: when the node is switched
/// on, its enabled bands, in order; when it is switched off, none.
pub open spec fn node_links(node: EqNode) -> Seq<ChainLink> {
    if node.enabled {
        enabled_bands(node.bands@).map_values(|b: EqBand| ChainLink { node_id: node.id, band: b })
    } else {
        Seq::empty()
    }
}

/// The steps of the node at handle `h` and of everything below it, going at
/// most `depth` levels deep.
pub open spec fn chain_from(store: Seq<EqNode>, h: int, depth: nat) -> Seq<ChainLink>
    decreases depth, 0nat, 0nat,
{
    if depth == 0 || !(0 <= h < store.len()) {
        Seq::empty()
    } else {
        node_links(store[h]) + chain_children(store, store[h].children@, (depth - 1) as nat)
    }
}

/// The steps of the children at handles `cs`, in order, each going at most
/// `depth` levels deep.
pub open spec fn chain_children(store: Seq<EqNode>, cs: Seq<usize>, depth: nat) -> Seq<ChainLink>
    decreases depth, 1nat, cs.len(),
{
    if cs.len() == 0 {
        Seq::empty()
    } else {
        chain_children(store, cs.drop_last(), depth) + chain_from(store, cs.last() as int, depth)
    }
}

/// The steps of a profile: those of its root and everything below it. A
/// path down a tree never visits more nodes than the store holds, so the
/// depth bound is the size of the store.
pub open spec fn profile_chain(p: EqProfile) -> Seq<ChainLink> {
    match p.root {
        Some(r) => chain_from(p.store@, r as int, p.store@.len()),
        None => Seq::empty(),
    }
}

/// Appends the steps of the node at handle `h` and of everything below it.
fn chain_node(store: &Vec<EqNode>, h: usize, depth: usize, out: &mut Vec<ChainLink>)
    requires
        store_wf(store@),
        h < store@.len(),
    ensures
        final(out)@ == old(out)@ + chain_from(store@, h as int, depth as nat),
    decreases depth,
{
    if depth == 0 {
        assert(final(out)@ =~= old(out)@ + chain_from(store@, h as int, depth as nat));
        return;
    }
    let node = &store[h];
    proof {
        assert(store@[h as int].wf());
    }
    let ghost start = out@;
    if node.enabled {
        let mut i: usize = 0;
        while i < node.bands.len()
            invariant
                i <= node.bands@.len(),
                out@ == start + enabled_bands(node.bands@.take(i as int)).map_values(
                    |b: EqBand| ChainLink { node_id: node.id, band: b },
                ),
            decreases node.bands@.len() - i,
        {
            reveal(Seq::filter);
            assert(node.bands@.take(i as int + 1).drop_last() =~= node.bands@.take(i as int));
            if node.bands[i].enabled {
                out.push(ChainLink { node_id: node.id, band: node.bands[i] });
            }
            i = i + 1;
            assert(out@ =~= start + enabled_bands(node.bands@.take(i as int)).map_values(
                |b: EqBand| ChainLink { node_id: node.id, band: b },
            ));
        }
        assert(node.bands@.take(i as int) =~= node.bands@);
    }
    let ghost mid = out@;
    assert(mid =~= start + node_links(*node));
    let mut k: usize = 0;
    while k < node.children.len()
        invariant
            k <= node.children@.len(),
            store_wf(store@),
            *node == store@[h as int],
            depth > 0,
            forall|q: int| 0 <= q < node.children@.len() ==> #[trigger] node.children@[q] < store@.len(),
            out@ == mid + chain_children(store@, node.children@.take(k as int), (depth - 1) as nat),
        decreases node.children@.len() - k,
    {
        assert(node.children@.take(k as int + 1).drop_last() =~= node.children@.take(k as int));
        chain_node(store, node.children[k], depth - 1, out);
        k = k + 1;
        assert(out@ =~= mid + chain_children(store@, node.children@.take(k as int), (depth - 1) as nat));
    }
    assert(node.children@.take(k as int) =~= node.children@);
    assert(out@ =~= old(out)@ + chain_from(store@, h as int, depth as nat));
}

/// The steps in which the bands of a profile are applied to audio. The nodes
/// below the root form no cycle (a node shared by two parents is applied
/// under each); `EqProfile::is_acyclic_below_root` tells whether they do.
pub fn eq_chain(profile: &EqProfile) -> (r: Vec<ChainLink>)
    requires
        profile.wf(),
        profile.root matches Some(rt) ==> below_acyclic(profile.store@, rt),
    ensures
        r@ == profile_chain(*profile),
{
    let mut out: Vec<ChainLink> = Vec::new();
    if let Some(root) = profile.root {
        chain_node(&profile.store, root, profile.store.len(), &mut out);
    }
    assert(out@ =~= profile_chain(*profile));
    out
}

/// What the audio loop applies to a batch of samples: the filtering steps,
/// then the preamplifier gain, if any (an `f32` bit pattern, in decibels).
pub struct ProcessingPlan {
    pub links: Vec<ChainLink>,
    pub preamp: Option<u32>,
}

/// The plan for the profile that the application has selected; none when
/// the selection is past the loaded profiles, in which case the audio loop
/// passes nothing on.
pub fn processing_plan(app: &App) -> (r: Option<ProcessingPlan>)
    requires
        app.selected_profile_idx < app.profiles@.len() ==> {
            let p = app.profiles@[app.selected_profile_idx as int];
            &&& p.wf()
            &&& p.root matches Some(rt) ==> below_acyclic(p.store@, rt)
        },
    ensures
        match r {
            Some(plan) => {
                &&& app.selected_profile_idx < app.profiles@.len()
                &&& plan.links@ == profile_chain(app.profiles@[app.selected_profile_idx as int])
                &&& plan.preamp == app.profiles@[app.selected_profile_idx as int].preamp
            },
            None => app.selected_profile_idx >= app.profiles@.len(),
        },
{
    if app.selected_profile_idx < app.profiles.len() {
        let profile = &app.profiles[app.selected_profile_idx];
        Some(ProcessingPlan { links: eq_chain(profile), preamp: profile.get_preamp() })
    } else {
        None
    }
}


/// Every step that a node contributes by itself applies a switched-on band
/// of that node.
proof fn lemma_node_links_enabled(node: EqNode)
    ensures
        forall|i: int| 0 <= i < node_links(node).len() ==> (#[trigger] node_links(node)[i]).band.enabled
            && node_links(node)[i].node_id == node.id,
{
    if node.enabled {
        lemma_cleanup_keeps_enabled(node.bands@);
        assert forall|i: int| 0 <= i < node_links(node).len() implies (#[trigger] node_links(node)[i]).band.enabled
            && node_links(node)[i].node_id == node.id by {
            assert(node_links(node)[i].band == enabled_bands(node.bands@)[i]);
        }
    }
}

/// A switched-off band is never applied: every step below a node applies a
/// switched-on band.
pub proof fn lemma_chain_from_enabled(store: Seq<EqNode>, h: int, depth: nat)
    ensures
        forall|i: int| 0 <= i < chain_from(store, h, depth).len() ==> (#[trigger] chain_from(store, h, depth)[i]).band.enabled,
    decreases depth, 0nat, 0nat,
{
    if depth > 0 && 0 <= h < store.len() {
        let own = node_links(store[h]);
        let rest = chain_children(store, store[h].children@, (depth - 1) as nat);
        lemma_node_links_enabled(store[h]);
        lemma_chain_children_enabled(store, store[h].children@, (depth - 1) as nat);
        assert forall|i: int| 0 <= i < chain_from(store, h, depth).len() implies (#[trigger] chain_from(store, h, depth)[i]).band.enabled by {
            if i < own.len() {
                assert(chain_from(store, h, depth)[i] == own[i]);
            } else {
                assert(chain_from(store, h, depth)[i] == rest[i - own.len()]);
            }
        }
    }
}

/// Every step below a list of children applies a switched-on band.
pub proof fn lemma_chain_children_enabled(store: Seq<EqNode>, cs: Seq<usize>, depth: nat)
    ensures
        forall|i: int| 0 <= i < chain_children(store, cs, depth).len() ==> (#[trigger] chain_children(store, cs, depth)[i]).band.enabled,
    decreases depth, 1nat, cs.len(),
{
    if cs.len() > 0 {
        let front = chain_children(store, cs.drop_last(), depth);
        let back = chain_from(store, cs.last() as int, depth);
        lemma_chain_children_enabled(store, cs.drop_last(), depth);
        lemma_chain_from_enabled(store, cs.last() as int, depth);
        assert forall|i: int| 0 <= i < chain_children(store, cs, depth).len() implies (#[trigger] chain_children(store, cs, depth)[i]).band.enabled by {
            if i < front.len() {
                assert(chain_children(store, cs, depth)[i] == front[i]);
            } else {
                assert(chain_children(store, cs, depth)[i] == back[i - front.len()]);
            }
        }
    }
}

/// A node is applied before its children: the steps below a node begin with
/// the node's own switched-on bands, in order, followed by those of its
/// children, first child first.
pub proof fn lemma_parent_before_children(store: Seq<EqNode>, h: int, depth: nat)
    requires
        0 <= h < store.len(),
        depth > 0,
    ensures
        chain_from(store, h, depth).take(node_links(store[h]).len() as int) == node_links(store[h]),
        chain_from(store, h, depth).skip(node_links(store[h]).len() as int)
            == chain_children(store, store[h].children@, (depth - 1) as nat),
{
    let own = node_links(store[h]);
    let rest = chain_children(store, store[h].children@, (depth - 1) as nat);
    assert((own + rest).take(own.len() as int) =~= own);
    assert((own + rest).skip(own.len() as int) =~= rest);
}

/// Cleaning up a node does not change the steps it contributes: the bands it
/// drops are switched off, and those are never applied.
pub proof fn lemma_node_cleanup_keeps_links(before: EqNode, after: EqNode)
    requires
        after.id == before.id,
        after.enabled == before.enabled,
        after.bands_view() == enabled_bands(before.bands_view()),
    ensures
        node_links(after) == node_links(before),
{
    lemma_cleanup_idempotent(before.bands@);
}

/// Once a profile whose root is switched off has been cleaned up, nothing is
/// applied below its root.
pub proof fn lemma_cleanup_silences_disabled_root(
    after: Seq<EqNode>,
    nodes_after: Map<u128, usize>,
    before: Seq<EqNode>,
    nodes_before: Map<u128, usize>,
    r: usize,
    depth: nat,
)
    requires
        is_swept(after, nodes_after, before, nodes_before, r),
        r < before.len(),
        !before[r as int].enabled,
    ensures
        chain_from(after, r as int, depth) == Seq::<ChainLink>::empty(),
{
    assert(is_sweep_path(before, r, seq![r]));
    assert(seq![r].last() == r);
    assert(swept_set(before, r).contains(r as int));
    let root = after[r as int];
    assert(root.is_cleared_of(&before[r as int]));
    reveal(Seq::filter);
    assert(enabled_bands(root.bands@) =~= Seq::<EqBand>::empty());
    assert(node_links(root) =~= Seq::<ChainLink>::empty());
    if depth > 0 {
        assert(chain_children(after, root.children@, (depth - 1) as nat) == Seq::<ChainLink>::empty());
        assert(chain_from(after, r as int, depth) =~= Seq::<ChainLink>::empty());
    }
}

/// A switched-off node applies none of its own bands: everything applied
/// from it on comes from its children, which are applied each by its own
/// switch.
pub proof fn lemma_switched_off_node_applies_only_children(store: Seq<EqNode>, h: int, depth: nat)
    requires
        0 <= h < store.len(),
        depth > 0,
        !store[h].enabled,
    ensures
        node_links(store[h]) == Seq::<ChainLink>::empty(),
        chain_from(store, h, depth) == chain_children(store, store[h].children@, (depth - 1) as nat),
        forall|i: int| 0 <= i < chain_from(store, h, depth).len() ==> (#[trigger] chain_from(store, h, depth)[i]).node_id != store[h].id
            || exists|j: int| 0 <= j < store.len() && j != h && store[j].id == store[h].id,
{
    let rest = chain_children(store, store[h].children@, (depth - 1) as nat);
    assert(chain_from(store, h, depth) =~= rest);
    lemma_chain_children_ids(store, store[h].children@, (depth - 1) as nat, h);
}

/// Every step below a list of children applies a band of a switched-on node
/// other than `h`, unless another node carries the identifier of `h`, or `h`
/// is switched on.
proof fn lemma_chain_children_ids(store: Seq<EqNode>, cs: Seq<usize>, depth: nat, h: int)
    requires
        0 <= h < store.len(),
    ensures
        forall|i: int| 0 <= i < chain_children(store, cs, depth).len() ==> (#[trigger] chain_children(store, cs, depth)[i]).node_id != store[h].id
            || store[h].enabled
            || exists|j: int| 0 <= j < store.len() && j != h && store[j].id == store[h].id,
    decreases depth, 1nat, cs.len(),
{
    if cs.len() > 0 {
        let front = chain_children(store, cs.drop_last(), depth);
        let back = chain_from(store, cs.last() as int, depth);
        lemma_chain_children_ids(store, cs.drop_last(), depth, h);
        lemma_chain_from_ids(store, cs.last() as int, depth, h);
        assert forall|i: int| 0 <= i < chain_children(store, cs, depth).len() implies (#[trigger] chain_children(store, cs, depth)[i]).node_id != store[h].id
            || store[h].enabled
            || exists|j: int| 0 <= j < store.len() && j != h && store[j].id == store[h].id by {
            if i < front.len() {
                assert(chain_children(store, cs, depth)[i] == front[i]);
            } else {
                assert(chain_children(store, cs, depth)[i] == back[i - front.len()]);
            }
        }
    }
}

proof fn lemma_chain_from_ids(store: Seq<EqNode>, g: int, depth: nat, h: int)
    requires
        0 <= h < store.len(),
    ensures
        forall|i: int| 0 <= i < chain_from(store, g, depth).len() ==> (#[trigger] chain_from(store, g, depth)[i]).node_id != store[h].id
            || store[h].enabled
            || exists|j: int| 0 <= j < store.len() && j != h && store[j].id == store[h].id,
    decreases depth, 0nat, 0nat,
{
    if depth > 0 && 0 <= g < store.len() {
        let own = node_links(store[g]);
        let rest = chain_children(store, store[g].children@, (depth - 1) as nat);
        lemma_node_links_enabled(store[g]);
        lemma_chain_children_ids(store, store[g].children@, (depth - 1) as nat, h);
        assert forall|i: int| 0 <= i < chain_from(store, g, depth).len() implies (#[trigger] chain_from(store, g, depth)[i]).node_id != store[h].id
            || store[h].enabled
            || exists|j: int| 0 <= j < store.len() && j != h && store[j].id == store[h].id by {
            if i < own.len() {
                assert(chain_from(store, g, depth)[i] == own[i]);
                assert(store[g].enabled);
                if g != h && own[i].node_id == store[h].id {
                    assert(store[g].id == store[h].id);
                }
            } else {
                assert(chain_from(store, g, depth)[i] == rest[i - own.len()]);
            }
        }
    }
}

/// Below a node at the end of a chain `pre` from the root, going `d` or more
/// levels deep gives the same steps, once `pre` and `d` together reach past
/// the longest chain from the root.
proof fn lemma_from_saturates(store: Seq<EqNode>, root: usize, pre: Seq<usize>, d: nat, e: nat)
    requires
        store_wf(store),
        is_child_path(store, root, pre),
        forall|path: Seq<usize>| #[trigger] is_child_path(store, root, path) ==> path.len() <= store.len(),
        pre.len() + d >= store.len() + 1,
        d <= e,
    ensures
        chain_from(store, pre.last() as int, d) == chain_from(store, pre.last() as int, e),
    decreases d, 0nat, 0nat,
{
    let h = pre.last() as int;
    assert(pre.len() <= store.len());
    if d > 0 {
        assert(pre[pre.len() - 1] < store.len());
        lemma_children_saturate(store, root, pre, store[h].children@, (d - 1) as nat, (e - 1) as nat);
    }
}

proof fn lemma_children_saturate(store: Seq<EqNode>, root: usize, pre: Seq<usize>, cs: Seq<usize>, d: nat, e: nat)
    requires
        store_wf(store),
        is_child_path(store, root, pre),
        forall|path: Seq<usize>| #[trigger] is_child_path(store, root, path) ==> path.len() <= store.len(),
        pre.len() + 1 + d >= store.len() + 1,
        d <= e,
        forall|i: int| 0 <= i < cs.len() ==> store[pre.last() as int].children@.contains(#[trigger] cs[i]),
    ensures
        chain_children(store, cs, d) == chain_children(store, cs, e),
    decreases d, 1nat, cs.len(),
{
    if cs.len() > 0 {
        lemma_children_saturate(store, root, pre, cs.drop_last(), d, e);
        let c = cs.last();
        let x = pre.last() as int;
        assert(pre[pre.len() - 1] < store.len());
        assert(store[x].children@.contains(cs[cs.len() - 1]));
        let k = choose|k: int| 0 <= k < store[x].children@.len() && store[x].children@[k] == c;
        assert(0 <= x < store.len());
        assert(store[x].wf());
        assert(store[x].children@[k] < store.len());
        lemma_child_path_push(store, root, pre, c);
        assert(pre.push(c).last() == c);
        lemma_from_saturates(store, root, pre.push(c), d, e);
    }
}

/// With no cycle below the root, the steps of a profile take in the whole
/// tree below its root: going deeper than the store holds nodes adds nothing.
pub proof fn lemma_chain_complete(store: Seq<EqNode>, r: usize, m: nat)
    requires
        store_wf(store),
        r < store.len(),
        store.len() <= usize::MAX,
        below_acyclic(store, r),
        m >= store.len(),
    ensures
        chain_from(store, r as int, m) == chain_from(store, r as int, store.len()),
{
    lemma_acyclic_chains_short(store, r);
    let pre = seq![r];
    assert(is_child_path(store, r, pre));
    assert(pre.last() == r);
    lemma_from_saturates(store, r, pre, store.len(), m);
}

/// A step found below one child of a list is found among the steps of the
/// whole list.
proof fn lemma_children_contains(store: Seq<EqNode>, cs: Seq<usize>, depth: nat, c: usize, link: ChainLink)
    requires
        cs.contains(c),
        chain_from(store, c as int, depth).contains(link),
    ensures
        chain_children(store, cs, depth).contains(link),
    decreases cs.len(),
{
    let front = chain_children(store, cs.drop_last(), depth);
    let back = chain_from(store, cs.last() as int, depth);
    let k = choose|k: int| 0 <= k < cs.len() && cs[k] == c;
    if k == cs.len() - 1 {
        let j = choose|j: int| 0 <= j < back.len() && back[j] == link;
        assert((front + back)[front.len() + j] == link);
    } else {
        assert(cs.drop_last()[k] == c);
        lemma_children_contains(store, cs.drop_last(), depth, c, link);
        let j = choose|j: int| 0 <= j < front.len() && front[j] == link;
        assert((front + back)[j] == link);
    }
}

/// Along a chain of children with no more nodes than `depth`, every
/// switched-on band of the last node, when that node is switched on, is among
/// the steps below the first node.
proof fn lemma_path_band_in_chain(store: Seq<EqNode>, path: Seq<usize>, depth: nat, b: EqBand)
    requires
        0 < path.len() <= depth,
        forall|i: int| 0 <= i < path.len() ==> #[trigger] path[i] < store.len(),
        forall|i: int| 0 <= i < path.len() - 1 ==> store[#[trigger] path[i] as int].children@.contains(path[i + 1]),
        store[path.last() as int].enabled,
        store[path.last() as int].bands@.contains(b),
        b.enabled,
    ensures
        chain_from(store, path[0] as int, depth).contains(ChainLink { node_id: store[path.last() as int].id, band: b }),
    decreases path.len(),
{
    let h = path[0] as int;
    let link = ChainLink { node_id: store[path.last() as int].id, band: b };
    let own = node_links(store[h]);
    let rest = chain_children(store, store[h].children@, (depth - 1) as nat);
    assert(path[0] < store.len());
    if path.len() == 1 {
        let y = store[h];
        let i = choose|i: int| 0 <= i < y.bands@.len() && y.bands@[i] == b;
        lemma_cleanup_keeps_enabled(y.bands@);
        assert(enabled_bands(y.bands@).contains(y.bands@[i]));
        let k = choose|k: int| 0 <= k < enabled_bands(y.bands@).len() && enabled_bands(y.bands@)[k] == b;
        assert(own[k] == link);
        assert((own + rest)[k] == link);
    } else {
        let tail = path.drop_first();
        assert forall|i: int| 0 <= i < tail.len() implies #[trigger] tail[i] < store.len() by {
            assert(tail[i] == path[i + 1]);
        }
        assert forall|i: int| 0 <= i < tail.len() - 1 implies store[#[trigger] tail[i] as int].children@.contains(tail[i + 1]) by {
            assert(tail[i] == path[i + 1] && tail[i + 1] == path[i + 2]);
            assert(store[path[i + 1] as int].children@.contains(path[i + 2]));
        }
        assert(tail.last() == path.last());
        lemma_path_band_in_chain(store, tail, (depth - 1) as nat, b);
        assert(store[path[0] as int].children@.contains(path[1]));
        lemma_children_contains(store, store[h].children@, (depth - 1) as nat, path[1], link);
        let j = choose|j: int| 0 <= j < rest.len() && rest[j] == link;
        assert((own + rest)[own.len() + j] == link);
    }
}

/// Nothing below the root is left out: with no cycle below the root, every
/// switched-on band of every switched-on node that a chain of children
/// reaches from the root, at any depth, is applied.
pub proof fn lemma_reachable_bands_applied(p: EqProfile, path: Seq<usize>, b: EqBand)
    requires
        p.wf(),
        p.store@.len() <= usize::MAX,
        p.root matches Some(r) && below_acyclic(p.store@, r) && is_child_path(p.store@, r, path),
        p.store@[path.last() as int].enabled,
        p.store@[path.last() as int].bands@.contains(b),
        b.enabled,
    ensures
        profile_chain(p).contains(ChainLink { node_id: p.store@[path.last() as int].id, band: b }),
{
    let r = p.root.unwrap();
    lemma_acyclic_chains_short(p.store@, r);
    assert(path.len() <= p.store@.len());
    lemma_path_band_in_chain(p.store@, path, p.store@.len(), b);
}

/// The steps of a profile take in the whole tree below its root: with no
/// cycle below the root, they are the steps at any depth at least the size of
/// the store.
pub proof fn lemma_profile_chain_complete(p: EqProfile, m: nat)
    requires
        p.wf(),
        p.store@.len() <= usize::MAX,
        p.root matches Some(r) && below_acyclic(p.store@, r),
        m >= p.store@.len(),
    ensures
        profile_chain(p) == chain_from(p.store@, p.root.unwrap() as int, m),
{
    lemma_chain_complete(p.store@, p.root.unwrap(), m);
}

/// Children are applied first child first: the steps below a list of
/// children are those below its first child followed by those below the rest.
pub proof fn lemma_children_in_order(store: Seq<EqNode>, cs: Seq<usize>, depth: nat)
    requires
        cs.len() > 0,
    ensures
        chain_children(store, cs, depth) == chain_from(store, cs[0] as int, depth) + chain_children(
            store,
            cs.drop_first(),
            depth,
        ),
    decreases cs.len(),
{
    if cs.len() == 1 {
        assert(cs.drop_last() =~= Seq::<usize>::empty());
        assert(cs.drop_first() =~= Seq::<usize>::empty());
        assert(chain_children(store, cs.drop_last(), depth) == Seq::<ChainLink>::empty());
        assert(chain_children(store, cs.drop_first(), depth) == Seq::<ChainLink>::empty());
        assert(cs.last() == cs[0]);
        assert(chain_children(store, cs, depth) =~= chain_from(store, cs[0] as int, depth) + Seq::<ChainLink>::empty());
    } else {
        lemma_children_in_order(store, cs.drop_last(), depth);
        assert(cs.drop_last().drop_first() =~= cs.drop_first().drop_last());
        assert(cs.drop_first().last() == cs.last());
        assert(cs.drop_last()[0] == cs[0]);
        let a = chain_from(store, cs[0] as int, depth);
        let m = chain_children(store, cs.drop_first().drop_last(), depth);
        let z = chain_from(store, cs.last() as int, depth);
        assert((a + m) + z =~= a + (m + z));
    }
}

/// A switched-on node whose bands are all switched on applies all of them, in
/// the order in which it holds them.
pub proof fn lemma_node_links_in_order(node: EqNode)
    requires
        node.enabled,
        forall|i: int| 0 <= i < node.bands@.len() ==> (#[trigger] node.bands@[i]).enabled,
    ensures
        node_links(node).len() == node.bands@.len(),
        forall|i: int| 0 <= i < node.bands@.len() ==> #[trigger] node_links(node)[i] == (ChainLink {
            node_id: node.id,
            band: node.bands@[i],
        }),
{
    lemma_cleanup_idempotent(node.bands@);
    lemma_enabled_bands_all(node.bands@);
}

/// A profile without a root applies no band.
pub proof fn lemma_no_root_no_chain(p: EqProfile)
    requires
        p.root is None,
    ensures
        profile_chain(p) == Seq::<ChainLink>::empty(),
{
}

} // verus!
