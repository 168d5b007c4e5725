//! EQ nodes: a list of bands, a lookup from band identifiers to positions in
//! that list, and the child nodes that are applied after this one.
//!
//! A node names its children by handle: the position of the child in the
//! node store of the profile that holds them (see `profile`).

use vstd::prelude::*;
use std::collections::HashMap;
use crate::band::{BandOp, BandUpdate, EqBand, EqFilter, Freq};
use crate::uid::fresh_id;
use vstd::std_specs::hash::spec_hash_map_iter;
use vstd::std_specs::iter::IteratorSpec;

verus! {

broadcast use vstd::std_specs::hash::group_hash_axioms;

/// The lookup that indexing a list of bands by identifier gives: each
/// identifier maps to the last position at which a band carries it.
pub open spec fn ids_index(bands: Seq<EqBand>) -> Map<u128, usize>
    decreases bands.len(),
{
    if bands.len() == 0 {
        Map::empty()
    } else {
        ids_index(bands.drop_last()).insert(bands.last().id, (bands.len() - 1) as usize)
    }
}

/// The bands of a list that are switched on, in their order.
pub open spec fn enabled_bands(bands: Seq<EqBand>) -> Seq<EqBand> {
    bands.filter(|b: EqBand| b.enabled)
}

/// Whether `b` is a band that `EqBand::new` could have made from these
/// settings: everything but its identifier is fixed by them.
pub open spec fn made_from(b: EqBand, freq: Freq, filter: Option<EqFilter>, gain: Option<u32>, sample_rate: usize, q: u64) -> bool {
    &&& b.enabled
    &&& b.filter == filter
    &&& b.freq == freq
    &&& b.gain == (match gain {
        Some(g) => g,
        None => 0u32,
    })
    &&& b.sample_rate == sample_rate
    &&& b.q == q
}

/// A node of a cascaded equalizer.
#[derive(Debug, Clone)]
pub struct EqNode {
    pub id: u128,
    pub name: Option<String>,
    pub enabled: bool,
    pub bands: Vec<EqBand>,
    pub children: Vec<usize>,
    pub band_map: HashMap<u128, usize>,
}

impl EqNode {
    /// The bands of the node, in order.
    pub open spec fn bands_view(&self) -> Seq<EqBand> {
        self.bands@
    }

    /// The handles of the children, in the order in which they are applied.
    pub open spec fn children_view(&self) -> Seq<usize> {
        self.children@
    }

    /// The lookup from band identifiers to positions in the band list.
    pub open spec fn band_index(&self) -> Map<u128, usize> {
        self.band_map@
    }

    /// Every position that the lookup gives is a position of the band list.
    pub open spec fn wf(&self) -> bool {
        forall|k: u128| #[trigger] self.band_map@.contains_key(k) ==> self.band_map@[k] < self.bands@.len()
    }

    /// Whether `self` is `other` with its bands, lookup and children emptied.
    pub open spec fn is_cleared_of(&self, other: &EqNode) -> bool {
        &&& self.id == other.id
        &&& self.name == other.name
        &&& self.enabled == other.enabled
        &&& self.bands_view() == Seq::<EqBand>::empty()
        &&& self.children_view() == Seq::<usize>::empty()
        &&& self.band_index() == Map::<u128, usize>::empty()
        &&& self.wf()
    }

    /// Whether the two nodes have the same identifier, name, switch, bands,
    /// children and lookup.
    pub open spec fn same_view(&self, other: &EqNode) -> bool {
        &&& self.id == other.id
        &&& self.name == other.name
        &&& self.enabled == other.enabled
        &&& self.bands_view() == other.bands_view()
        &&& self.children_view() == other.children_view()
        &&& self.band_index() == other.band_index()
    }

    /// Whether `self` is `other` with only its band list changed, to `bands`.
    pub open spec fn same_but_bands(&self, other: &EqNode, bands: Seq<EqBand>) -> bool {
        &&& self.id == other.id
        &&& self.name == other.name
        &&& self.enabled == other.enabled
        &&& self.bands_view() == bands
        &&& self.children_view() == other.children_view()
        &&& self.band_index() == other.band_index()
    }

    /// The band that an identifier looks up, if any.
    pub open spec fn band_of(&self, id: u128) -> Option<EqBand> {
        if self.band_index().contains_key(id) {
            Some(self.bands_view()[self.band_index()[id] as int])
        } else {
            None
        }
    }

    /// Whether `self` is `other` after `add_band` with these settings: one
    /// band made from them is appended and indexed, and nothing else changes.
    pub open spec fn is_add_band_of(&self, other: &EqNode, freq: Freq, filter: Option<EqFilter>, gain: Option<u32>, sample_rate: usize, q: u64) -> bool {
        &&& self.id == other.id
        &&& self.name == other.name
        &&& self.enabled == other.enabled
        &&& self.children_view() == other.children_view()
        &&& self.bands_view().len() == other.bands_view().len() + 1
        &&& self.bands_view().drop_last() == other.bands_view()
        &&& made_from(self.bands_view().last(), freq, filter, gain, sample_rate, q)
        &&& self.band_index() == other.band_index().insert(
            self.bands_view().last().id,
            other.bands_view().len() as usize,
        )
    }

    /// Whether `self` is `other` with the band that `id` looks up, if any,
    /// switched on or off, and nothing else changed.
    pub open spec fn is_band_switched_of(&self, other: &EqNode, id: u128, on: bool) -> bool {
        self.same_but_bands(
            other,
            if other.band_index().contains_key(id) {
                other.bands_view().update(
                    other.band_index()[id] as int,
                    EqBand { enabled: on, ..other.bands_view()[other.band_index()[id] as int] },
                )
            } else {
                other.bands_view()
            },
        )
    }

    /// Whether `self` is `other` after `update_node` asked it for `op` with
    /// the settings `upd`.
    pub open spec fn is_band_op_of(&self, other: &EqNode, op: BandOp, upd: Option<BandUpdate>) -> bool {
        match op {
            BandOp::UpdateBand(bid) => self.same_but_bands(
                other,
                if other.band_index().contains_key(bid) && upd is Some {
                    other.bands_view().update(
                        other.band_index()[bid] as int,
                        updated_band(other.bands_view()[other.band_index()[bid] as int], upd.unwrap()),
                    )
                } else {
                    other.bands_view()
                },
            ),
            BandOp::AddBand => match upd {
                Some(BandUpdate::Create(fi, ga, fr, sr, q)) => self.is_add_band_of(other, fr, fi, Some(ga), sr, q),
                _ => *self == *other,
            },
            BandOp::DeleteBand(bid) => self.is_band_switched_of(other, bid, false),
        }
    }

    /// A new enabled node with a fresh identifier, no bands and no children.
    pub fn new(name: Option<String>) -> (r: Self)
        ensures
            r.wf(),
            r.name == name,
            r.enabled,
            r.bands_view() == Seq::<EqBand>::empty(),
            r.children_view() == Seq::<usize>::empty(),
            r.band_index() == Map::<u128, usize>::empty(),
    {
        EqNode {
            id: fresh_id(),
            name,
            enabled: true,
            bands: Vec::new(),
            children: Vec::new(),
            band_map: HashMap::new(),
        }
    }

    /// Builds a node from its parts; the lookup is rebuilt from the band list.
    pub fn from_parts(id: u128, name: Option<String>, enabled: bool, bands: Vec<EqBand>, children: Vec<usize>) -> (r: Self)
        ensures
            r.wf(),
            r.id == id,
            r.name == name,
            r.enabled == enabled,
            r.bands_view() == bands@,
            r.children_view() == children@,
            r.band_index() == ids_index(bands@),
    {
        let band_map = index_bands(&bands);
        EqNode { id, name, enabled, bands, children, band_map }
    }

    /// Appends a new enabled band, with a fresh identifier, and indexes it.
    pub fn add_band(&mut self, freq: Freq, filter: Option<EqFilter>, gain: Option<u32>, sample_rate: usize, q: u64)
        ensures
            old(self).wf() ==> final(self).wf(),
            final(self).is_add_band_of(old(self), freq, filter, gain, sample_rate, q),
    {
        let band = EqBand::new(freq, filter, gain, sample_rate, q);
        let id = band.id;
        self.bands.push(band);
        self.band_map.insert(id, self.bands.len() - 1);
        assert(self.bands@.drop_last() =~= old(self).bands@);
    }

    /// Switches off the band that the identifier looks up, if any.
    pub fn disable_band(&mut self, id: u128)
        requires
            old(self).wf(),
        ensures
            final(self).wf(),
            final(self).is_band_switched_of(old(self), id, false),
    {
        if let Some(idx) = self.band_map.get(&id) {
            let i = *idx;
            self.bands[i].enabled = false;
        }
    }

    /// Switches on the band that the identifier looks up, if any.
    pub fn enable_band(&mut self, id: u128)
        requires
            old(self).wf(),
        ensures
            final(self).wf(),
            final(self).is_band_switched_of(old(self), id, true),
    {
        if let Some(idx) = self.band_map.get(&id) {
            let i = *idx;
            self.bands[i].enabled = true;
        }
    }

    /// The band that the identifier looks up, if any.
    pub fn get_band(&self, id: u128) -> (r: Option<&EqBand>)
        requires
            self.wf(),
        ensures
            match r {
                Some(b) => self.band_of(id) == Some(*b),
                None => self.band_of(id) is None,
            },
    {
        if let Some(idx) = self.band_map.get(&id) {
            Some(&self.bands[*idx])
        } else {
            None
        }
    }

    /// Gives write access to the band that the identifier looks up, if any.
    pub fn get_band_mut(&mut self, id: u128) -> (r: Option<&mut EqBand>)
        requires
            old(self).wf(),
        ensures
            r is Some <==> old(self).band_index().contains_key(id),
            r is Some ==> *r.unwrap() == old(self).bands_view()[old(self).band_index()[id] as int],
            r is Some ==> final(self).same_but_bands(
                old(self),
                old(self).bands_view().update(old(self).band_index()[id] as int, *final(r.unwrap())),
            ),
            r is None ==> *final(self) == *old(self),
            final(self).wf(),
    {
        match self.band_map.get(&id) {
            Some(idx) => {
                let i = *idx;
                Some(&mut self.bands[i])
            },
            None => None,
        }
    }

    /// Drops the bands that are switched off and indexes the rest afresh.
    pub fn cleanup(&mut self)
        ensures
            final(self).wf(),
            final(self).id == old(self).id,
            final(self).name == old(self).name,
            final(self).enabled == old(self).enabled,
            final(self).children_view() == old(self).children_view(),
            final(self).bands_view() == enabled_bands(old(self).bands_view()),
            final(self).band_index() == ids_index(enabled_bands(old(self).bands_view())),
    {
        let mut n_bands: Vec<EqBand> = Vec::new();
        let mut i: usize = 0;
        while i < self.bands.len()
            invariant
                i <= self.bands@.len(),
                n_bands@ == enabled_bands(self.bands@.take(i as int)),
            decreases self.bands@.len() - i,
        {
            reveal(Seq::filter);
            assert(self.bands@.take(i as int + 1).drop_last() =~= self.bands@.take(i as int));
            if self.bands[i].enabled {
                n_bands.push(self.bands[i]);
            }
            i = i + 1;
        }
        assert(self.bands@.take(i as int) =~= self.bands@);
        self.band_map = index_bands(&n_bands);
        self.bands = n_bands;
    }

    /// The same as `cleanup`.
    pub fn finalize(&mut self)
        ensures
            final(self).wf(),
            final(self).id == old(self).id,
            final(self).name == old(self).name,
            final(self).enabled == old(self).enabled,
            final(self).children_view() == old(self).children_view(),
            final(self).bands_view() == enabled_bands(old(self).bands_view()),
            final(self).band_index() == ids_index(enabled_bands(old(self).bands_view())),
    {
        self.cleanup();
    }

    /// The identifier of the node.
    pub fn get_id(&self) -> (r: u128)
        ensures
            r == self.id,
    {
        self.id
    }

    /// The name of the node, if it has one.
    pub fn get_name(&self) -> (r: Option<&String>)
        ensures
            match r {
                Some(s) => self.name == Some(*s),
                None => self.name is None,
            },
    {
        self.name.as_ref()
    }

    /// Replaces the name of the node.
    pub fn set_name(&mut self, name: Option<String>)
        ensures
            final(self).name == name,
            final(self).id == old(self).id,
            final(self).enabled == old(self).enabled,
            final(self).bands_view() == old(self).bands_view(),
            final(self).children_view() == old(self).children_view(),
            final(self).band_index() == old(self).band_index(),
            final(self).wf() == old(self).wf(),
    {
        self.name = name;
    }

    /// Whether the node is switched on.
    pub fn is_enabled(&self) -> (r: bool)
        ensures
            r == self.enabled,
    {
        self.enabled
    }

    /// Switches the node on.
    pub fn enable(&mut self)
        ensures
            *final(self) == (EqNode { enabled: true, ..*old(self) }),
    {
        self.enabled = true;
    }

    /// Switches the node off.
    pub fn disable(&mut self)
        ensures
            *final(self) == (EqNode { enabled: false, ..*old(self) }),
    {
        self.enabled = false;
    }

    /// How many bands the node holds, enabled or not.
    pub fn band_count(&self) -> (r: usize)
        ensures
            r == self.bands_view().len(),
    {
        self.bands.len()
    }

    /// How many children the node has.
    pub fn child_count(&self) -> (r: usize)
        ensures
            r == self.children_view().len(),
    {
        self.children.len()
    }

    /// The bands of the node, in order.
    pub fn bands(&self) -> (r: &Vec<EqBand>)
        ensures
            r@ == self.bands_view(),
    {
        &self.bands
    }

    /// The handles of the children, in order.
    pub fn children(&self) -> (r: &Vec<usize>)
        ensures
            r@ == self.children_view(),
    {
        &self.children
    }

    /// The first child, among the nodes of `store`, that carries the
    /// identifier `id`.
    pub fn get_child(&self, store: &Vec<EqNode>, id: u128) -> (r: Option<usize>)
        requires
            forall|i: int| 0 <= i < self.children_view().len() ==> #[trigger] self.children_view()[i] < store@.len(),
        ensures
            r == first_child_with_id(self.children_view(), store@, id),
    {
        let mut i: usize = 0;
        assert(self.children@.skip(0) =~= self.children@);
        while i < self.children.len()
            invariant
                i <= self.children@.len(),
                forall|j: int| 0 <= j < self.children@.len() ==> #[trigger] self.children@[j] < store@.len(),
                first_child_with_id(self.children@, store@, id)
                    == first_child_with_id(self.children@.skip(i as int), store@, id),
            decreases self.children@.len() - i,
        {
            let c = self.children[i];
            assert(self.children@.skip(i as int).first() == c);
            assert(self.children@.skip(i as int).drop_first() =~= self.children@.skip(i as int + 1));
            if store[c].id == id {
                return Some(c);
            }
            i = i + 1;
        }
        None
    }

    /// Appends a child handle.
    pub fn add_child(&mut self, child: usize)
        ensures
            final(self).children_view() == old(self).children_view().push(child),
            *final(self) == (EqNode { children: final(self).children, ..*old(self) }),
            final(self).id == old(self).id,
            final(self).name == old(self).name,
            final(self).enabled == old(self).enabled,
            final(self).bands_view() == old(self).bands_view(),
            final(self).band_index() == old(self).band_index(),
            final(self).wf() == old(self).wf(),
    {
        self.children.push(child);
    }

    /// Removes the first child, among the nodes of `store`, that carries the
    /// identifier `id`; tells whether there was one.
    pub fn remove_child(&mut self, store: &Vec<EqNode>, id: u128) -> (r: bool)
        requires
            forall|i: int| 0 <= i < old(self).children_view().len() ==> #[trigger] old(self).children_view()[i] < store@.len(),
        ensures
            r == (exists|i: int| 0 <= i < old(self).children_view().len() && store@[#[trigger] old(self).children_view()[i] as int].id == id),
            final(self).children_view() == (if r {
                old(self).children_view().remove(first_position_with_id(old(self).children_view(), store@, id))
            } else {
                old(self).children_view()
            }),
            final(self).id == old(self).id,
            final(self).name == old(self).name,
            final(self).enabled == old(self).enabled,
            final(self).bands_view() == old(self).bands_view(),
            final(self).band_index() == old(self).band_index(),
            final(self).wf() == old(self).wf(),
    {
        let mut i: usize = 0;
        while i < self.children.len()
            invariant
                i <= self.children@.len(),
                self.children@ == old(self).children@,
                self.bands == old(self).bands,
                self.band_map == old(self).band_map,
                self.id == old(self).id,
                self.name == old(self).name,
                self.enabled == old(self).enabled,
                forall|j: int| 0 <= j < self.children@.len() ==> #[trigger] self.children@[j] < store@.len(),
                forall|j: int| 0 <= j < i ==> store@[#[trigger] self.children@[j] as int].id != id,
            decreases self.children@.len() - i,
        {
            let c = self.children[i];
            if store[c].id == id {
                proof {
                    lemma_first_position_is(self.children@, store@, id, i as int);
                }
                self.children.remove(i);
                return true;
            }
            i = i + 1;
        }
        false
    }

    /// Carries out a band operation on this node: changes a setting of the
    /// band that an identifier looks up, appends a band made from `Create`
    /// settings, or switches a band off.
    pub fn apply_band_op(&mut self, op: BandOp, upd: Option<BandUpdate>)
        requires
            old(self).wf(),
        ensures
            final(self).wf(),
            final(self).is_band_op_of(old(self), op, upd),
            final(self).children_view() == old(self).children_view(),
    {
        match op {
            BandOp::UpdateBand(bid) => {
                if let Some(idx) = self.band_map.get(&bid) {
                    let i = *idx;
                    if let Some(u) = upd {
                        match u {
                            BandUpdate::UpdateFilter(fi) => self.bands[i].update_filter(fi),
                            BandUpdate::UpdateGain(ga) => self.bands[i].update_gain(ga),
                            BandUpdate::UpdateFreq(fr) => self.bands[i].update_freq(fr),
                            BandUpdate::UpdateQ(q) => self.bands[i].update_q(q),
                            BandUpdate::Create(..) => {},
                        }
                        assert(self.bands@ =~= old(self).bands@.update(i as int, updated_band(old(self).bands@[i as int], u)));
                    }
                }
            },
            BandOp::AddBand => {
                if let Some(u) = upd {
                    match u {
                        BandUpdate::Create(fi, ga, fr, sr, q) => self.add_band(fr, fi, Some(ga), sr, q),
                        _ => {},
                    }
                }
            },
            BandOp::DeleteBand(bid) => self.disable_band(bid),
        }
    }

    /// Drops every band and empties the lookup.
    pub fn clear_bands(&mut self)
        ensures
            final(self).wf(),
            final(self).bands_view() == Seq::<EqBand>::empty(),
            final(self).band_index() == Map::<u128, usize>::empty(),
            final(self).id == old(self).id,
            final(self).name == old(self).name,
            final(self).enabled == old(self).enabled,
            final(self).children_view() == old(self).children_view(),
    {
        self.bands.clear();
        self.band_map.clear();
    }

    /// Drops every child handle.
    pub fn clear_children(&mut self)
        ensures
            final(self).children_view() == Seq::<usize>::empty(),
            final(self).id == old(self).id,
            final(self).name == old(self).name,
            final(self).enabled == old(self).enabled,
            final(self).bands_view() == old(self).bands_view(),
            final(self).band_index() == old(self).band_index(),
            final(self).wf() == old(self).wf(),
    {
        self.children.clear();
    }
}

/// A band after one of its settings is changed; a `Create` changes nothing.
pub open spec fn updated_band(b: EqBand, op: BandUpdate) -> EqBand {
    match op {
        BandUpdate::UpdateFilter(f) => EqBand { filter: f, ..b },
        BandUpdate::UpdateGain(g) => EqBand { gain: g, ..b },
        BandUpdate::UpdateFreq(f) => EqBand { freq: f, ..b },
        BandUpdate::UpdateQ(q) => EqBand { q: q, ..b },
        BandUpdate::Create(..) => b,
    }
}

/// The first handle among `children` whose node in `store` carries `id`.
pub open spec fn first_child_with_id(children: Seq<usize>, store: Seq<EqNode>, id: u128) -> Option<usize>
    decreases children.len(),
{
    if children.len() == 0 {
        None
    } else if store[children.first() as int].id == id {
        Some(children.first())
    } else {
        first_child_with_id(children.drop_first(), store, id)
    }
}

/// The first position among `children` whose node in `store` carries `id`.
pub open spec fn first_position_with_id(children: Seq<usize>, store: Seq<EqNode>, id: u128) -> int {
    choose|i: int|
        0 <= i < children.len() && store[children[i] as int].id == id && forall|j: int|
            0 <= j < i ==> store[#[trigger] children[j] as int].id != id
}

proof fn lemma_first_position_is(children: Seq<usize>, store: Seq<EqNode>, id: u128, i: int)
    requires
        0 <= i < children.len(),
        store[children[i] as int].id == id,
        forall|j: int| 0 <= j < i ==> store[#[trigger] children[j] as int].id != id,
    ensures
        first_position_with_id(children, store, id) == i,
{
    let k = first_position_with_id(children, store, id);
    assert(0 <= k < children.len() && store[children[k] as int].id == id && forall|j: int|
        0 <= j < k ==> store[#[trigger] children[j] as int].id != id);
    if k < i {
        assert(store[children[k] as int].id != id);
    }
    if i < k {
        assert(store[children[i] as int].id != id);
    }
}

/// Every position that indexing a band list gives is a position of the list,
/// and holds a band with the identifier that led to it.
pub proof fn lemma_ids_index_sound(bands: Seq<EqBand>)
    requires
        bands.len() <= usize::MAX,
    ensures
        forall|k: u128| #[trigger] ids_index(bands).contains_key(k) ==> ids_index(bands)[k] < bands.len()
            && bands[ids_index(bands)[k] as int].id == k,
    decreases bands.len(),
{
    if bands.len() > 0 {
        let rest = bands.drop_last();
        lemma_ids_index_sound(rest);
        assert forall|k: u128| #[trigger] ids_index(bands).contains_key(k) implies ids_index(bands)[k] < bands.len()
            && bands[ids_index(bands)[k] as int].id == k by {
            assert(ids_index(bands) == ids_index(rest).insert(bands.last().id, (bands.len() - 1) as usize));
            if k != bands.last().id {
                assert(ids_index(rest).contains_key(k));
                assert(rest[ids_index(rest)[k] as int] == bands[ids_index(rest)[k] as int]);
            }
        }
    }
}

/// Every band of a list is found by its identifier in the lookup built from it.
pub proof fn lemma_ids_index_complete(bands: Seq<EqBand>)
    requires
        bands.len() <= usize::MAX,
    ensures
        forall|i: int| 0 <= i < bands.len() ==> ids_index(bands).contains_key(#[trigger] bands[i].id),
    decreases bands.len(),
{
    if bands.len() > 0 {
        lemma_ids_index_complete(bands.drop_last());
        assert forall|i: int| 0 <= i < bands.len() implies ids_index(bands).contains_key(#[trigger] bands[i].id) by {
            if i < bands.len() - 1 {
                assert(bands.drop_last()[i] == bands[i]);
            }
        }
    }
}

/// Whether every position that the lookup `m` gives is below `n`.
pub(crate) fn positions_below(m: &HashMap<u128, usize>, n: usize) -> (r: bool)
    ensures
        r == (forall|k: u128| #[trigger] m@.contains_key(k) ==> m@[k] < n),
{
    let ghost pairs = spec_hash_map_iter(m).remaining();
    for (k, v) in it: m.iter()
        invariant
            it.seq() == pairs,
            forall|i: int| 0 <= i < it.index() ==> *(#[trigger] pairs[i]).1 < n,
    {
        if *v >= n {
            proof {
                assert(m@.contains_key(*pairs[it.index()].0));
            }
            return false;
        }
    }
    proof {
        assert forall|k: u128| #[trigger] m@.contains_key(k) implies m@[k] < n by {
            let kv = (&k, &m@[k]);
            assert(pairs.contains(kv));
            let i = choose|i: int| 0 <= i < pairs.len() && pairs[i] == kv;
            assert(*pairs[i].1 < n);
        }
    }
    true
}

/// Builds the lookup from band identifiers to positions.
fn index_bands(bands: &Vec<EqBand>) -> (m: HashMap<u128, usize>)
    ensures
        m@ == ids_index(bands@),
        forall|k: u128| #[trigger] m@.contains_key(k) ==> m@[k] < bands@.len(),
{
    let mut m: HashMap<u128, usize> = HashMap::new();
    let mut i: usize = 0;
    while i < bands.len()
        invariant
            i <= bands@.len(),
            m@ == ids_index(bands@.take(i as int)),
        decreases bands@.len() - i,
    {
        assert(bands@.take(i as int + 1).drop_last() =~= bands@.take(i as int));
        m.insert(bands[i].id, i);
        i = i + 1;
    }
    assert(bands@.take(i as int) =~= bands@);
    proof {
        lemma_ids_index_sound(bands@);
    }
    m
}


/// After cleanup every band is switched on, and every band that was switched
/// on is still there.
pub proof fn lemma_cleanup_keeps_enabled(bands: Seq<EqBand>)
    ensures
        forall|i: int| 0 <= i < enabled_bands(bands).len() ==> (#[trigger] enabled_bands(bands)[i]).enabled,
        forall|i: int| 0 <= i < bands.len() && (#[trigger] bands[i]).enabled ==> enabled_bands(bands).contains(bands[i]),
{
    let pred = |b: EqBand| b.enabled;
    assert forall|i: int| 0 <= i < enabled_bands(bands).len() implies (#[trigger] enabled_bands(bands)[i]).enabled by {
        bands.lemma_filter_pred(pred, i);
    }
    assert forall|i: int| 0 <= i < bands.len() && (#[trigger] bands[i]).enabled implies enabled_bands(bands).contains(bands[i]) by {
        bands.lemma_filter_contains(pred, i);
    }
}

/// Filtering a list whose bands are all switched on keeps it as it is.
pub proof fn lemma_enabled_bands_all(bands: Seq<EqBand>)
    requires
        forall|i: int| 0 <= i < bands.len() ==> (#[trigger] bands[i]).enabled,
    ensures
        enabled_bands(bands) == bands,
    decreases bands.len(),
{
    reveal(Seq::filter);
    if bands.len() > 0 {
        lemma_enabled_bands_all(bands.drop_last());
        assert(bands.drop_last().push(bands.last()) =~= bands);
    }
}

/// Cleaning up a node twice leaves the same bands, and the same lookup, as
/// cleaning it up once.
pub proof fn lemma_cleanup_idempotent(bands: Seq<EqBand>)
    ensures
        enabled_bands(enabled_bands(bands)) == enabled_bands(bands),
        ids_index(enabled_bands(enabled_bands(bands))) == ids_index(enabled_bands(bands)),
{
    lemma_cleanup_keeps_enabled(bands);
    lemma_enabled_bands_all(enabled_bands(bands));
}

/// Switching off the band at position `i` and then cleaning up leaves the
/// same bands as taking that band out: a deleted band does not survive
/// cleanup, and the other bands keep their order.
pub proof fn lemma_disabled_band_dropped(bands: Seq<EqBand>, i: int)
    requires
        0 <= i < bands.len(),
    ensures
        enabled_bands(bands.update(i, EqBand { enabled: false, ..bands[i] })) == enabled_bands(bands.remove(i)),
{
    let pred = |b: EqBand| b.enabled;
    let off = EqBand { enabled: false, ..bands[i] };
    let pre = bands.subrange(0, i);
    let post = bands.subrange(i + 1, bands.len() as int);
    assert(bands.update(i, off) =~= pre + seq![off] + post);
    assert(bands.remove(i) =~= pre + post);
    Seq::filter_distributes_over_add(pre + seq![off], post, pred);
    Seq::filter_distributes_over_add(pre, seq![off], pred);
    Seq::filter_distributes_over_add(pre, post, pred);
    reveal(Seq::filter);
    assert(seq![off].drop_last() =~= Seq::<EqBand>::empty());
    assert(Seq::<EqBand>::empty().filter(pred) =~= Seq::<EqBand>::empty());
    assert(seq![off].last() == off);
    assert(seq![off].filter(pred) =~= Seq::<EqBand>::empty());
    assert(pre.filter(pred) + Seq::<EqBand>::empty() =~= pre.filter(pred));
}

/// Switching a band off and then on again, by its identifier, gives back the
/// node one started from, when that band was switched on (or when the
/// identifier looks up no band).
pub proof fn lemma_band_switch_off_then_on(before: EqNode, off: EqNode, on: EqNode, id: u128)
    requires
        before.wf(),
        off.is_band_switched_of(&before, id, false),
        on.is_band_switched_of(&off, id, true),
        before.band_of(id) matches Some(b) ==> b.enabled,
    ensures
        on.same_view(&before),
{
    if before.band_index().contains_key(id) {
        let i = before.band_index()[id] as int;
        assert(0 <= i < before.bands_view().len());
        assert(off.bands_view()[i] == EqBand { enabled: false, ..before.bands_view()[i] });
        assert(on.bands_view() =~= before.bands_view());
    }
}

/// Changing one setting of a band, by its identifier, changes that setting of
/// that band and nothing else: the other settings of the band, the other
/// bands and the lookup stay as they were. A `Create` in place of a setting
/// changes nothing.
pub proof fn lemma_band_update_changes_one_setting(after: EqNode, before: EqNode, bid: u128, u: BandUpdate, b: EqBand)
    requires
        before.wf(),
        before.band_of(bid) == Some(b),
        after.is_band_op_of(&before, BandOp::UpdateBand(bid), Some(u)),
    ensures
        after.band_index() == before.band_index(),
        after.bands_view().len() == before.bands_view().len(),
        match u {
            BandUpdate::UpdateFilter(f) => after.band_of(bid) == Some(EqBand { filter: f, ..b }),
            BandUpdate::UpdateGain(g) => after.band_of(bid) == Some(EqBand { gain: g, ..b }),
            BandUpdate::UpdateFreq(f) => after.band_of(bid) == Some(EqBand { freq: f, ..b }),
            BandUpdate::UpdateQ(q) => after.band_of(bid) == Some(EqBand { q: q, ..b }),
            BandUpdate::Create(..) => after.band_of(bid) == Some(b),
        },
        forall|i: int| 0 <= i < before.bands_view().len() && i != before.band_index()[bid] ==>
            #[trigger] after.bands_view()[i] == before.bands_view()[i],
{
}

/// Deleting a band, by its identifier, switches that band off and changes
/// nothing else.
pub proof fn lemma_band_delete_switches_off(after: EqNode, before: EqNode, bid: u128, upd: Option<BandUpdate>, b: EqBand)
    requires
        before.wf(),
        before.band_of(bid) == Some(b),
        after.is_band_op_of(&before, BandOp::DeleteBand(bid), upd),
    ensures
        after.band_index() == before.band_index(),
        after.bands_view().len() == before.bands_view().len(),
        after.band_of(bid) == Some(EqBand { enabled: false, ..b }),
        forall|i: int| 0 <= i < before.bands_view().len() && i != before.band_index()[bid] ==>
            #[trigger] after.bands_view()[i] == before.bands_view()[i],
{
}

/// A band appended by `add_band` is found again by its identifier.
pub proof fn lemma_add_band_then_get(after: EqNode, before: EqNode, freq: Freq, filter: Option<EqFilter>, gain: Option<u32>, sample_rate: usize, q: u64)
    requires
        after.is_add_band_of(&before, freq, filter, gain, sample_rate, q),
    ensures
        after.band_of(after.bands@.last().id) == Some(after.bands@.last()),
        made_from(after.bands@.last(), freq, filter, gain, sample_rate, q),
{
    assert(after.bands.len() == after.bands@.len());
}

} // verus!
