use treq::band::{BandOp, BandUpdate, EqFilter, Freq};
use treq::node::EqNode;
use treq::processing::{eq_chain, ChainLink};
use treq::profile::EqProfile;

fn band_node(name: &str, freq: usize) -> EqNode {
    let mut node = EqNode::new(Some(name.to_string()));
    node.add_band(Freq::Point(freq), Some(EqFilter::Peaking), Some(2.0f32.to_bits()), 48000, 1.0f64.to_bits());
    node
}

#[test]
fn new_profile_is_empty() {
    let p = EqProfile::new("My EQ Profile", Some(0.0f32.to_bits()), 2);
    assert_eq!(p.get_name(), "My EQ Profile");
    assert_eq!(p.get_preamp(), Some(0));
    assert_eq!(p.channel, 2);
    assert!(p.is_empty());
    assert_eq!(p.node_count(), 0);
    assert_eq!(p.get_root(), None);
}

#[test]
fn root_and_child_are_filed() {
    let mut p = EqProfile::new("p", None, 2);
    let root = band_node("Root EQ", 1000);
    let root_id = root.id;
    p.add_node(None, root);
    let child = band_node("Child EQ", 5000);
    let child_id = child.id;
    p.add_node(Some(root_id), child);
    assert_eq!(p.node_count(), 2);
    let r = p.get_root().unwrap();
    assert_eq!(p.get_node(root_id), Some(r));
    let c = p.get_node(child_id).unwrap();
    assert_eq!(p.store[r].children(), &vec![c]);
    assert_eq!(p.store[r].get_child(&p.store, child_id), Some(c));
}

#[test]
fn unknown_parent_files_node_only() {
    let mut p = EqProfile::new("p", None, 2);
    let orphan = band_node("o", 100);
    let oid = orphan.id;
    p.add_node(Some(42), orphan);
    assert_eq!(p.get_root(), None);
    assert!(p.get_node(oid).is_some());
    assert_eq!(p.node_count(), 1);
}

#[test]
fn child_is_applied_after_parent() {
    let mut p = EqProfile::new("p", None, 2);
    let root = band_node("parent", 1000);
    let root_id = root.id;
    p.add_node(None, root);
    let child = band_node("child", 5000);
    let child_id = child.id;
    p.add_node(Some(root_id), child);
    let chain: Vec<ChainLink> = eq_chain(&p);
    assert_eq!(chain.len(), 2);
    assert_eq!(chain[0].node_id, root_id);
    assert_eq!(chain[0].band.freq, Freq::Point(1000));
    assert_eq!(chain[1].node_id, child_id);
    assert_eq!(chain[1].band.freq, Freq::Point(5000));
}

#[test]
fn chain_skips_disabled_bands_and_goes_depth_first() {
    let mut p = EqProfile::new("p", None, 2);
    let mut root = band_node("r", 1);
    root.add_band(Freq::Point(2), None, None, 48000, 0);
    let off = root.bands()[0].id;
    root.disable_band(off);
    let rid = root.id;
    p.add_node(None, root);
    let a = band_node("a", 10);
    let aid = a.id;
    p.add_node(Some(rid), a);
    let b = band_node("b", 20);
    p.add_node(Some(rid), b);
    let a1 = band_node("a1", 11);
    p.add_node(Some(aid), a1);
    let freqs: Vec<Freq> = eq_chain(&p).iter().map(|l| l.band.freq).collect();
    assert_eq!(freqs, vec![Freq::Point(2), Freq::Point(10), Freq::Point(11), Freq::Point(20)]);
}

#[test]
fn profile_without_root_has_empty_chain() {
    let mut p = EqProfile::new("p", None, 2);
    p.add_node(Some(7), band_node("x", 1));
    assert!(eq_chain(&p).is_empty());
}

#[test]
fn deactivate_then_activate_restores_node() {
    let mut p = EqProfile::new("p", None, 2);
    let root = band_node("r", 1);
    let rid = root.id;
    p.add_node(None, root);
    p.deactive_node(rid);
    assert!(!p.store[p.get_node(rid).unwrap()].is_enabled());
    p.activate_node(rid);
    assert!(p.store[p.get_node(rid).unwrap()].is_enabled());
    p.deactive_node(99);
    assert!(p.store[0].is_enabled());
}

#[test]
fn cleanup_with_enabled_root_changes_nothing() {
    let mut p = EqProfile::new("p", None, 2);
    let root = band_node("r", 1);
    let rid = root.id;
    p.add_node(None, root);
    let child = band_node("c", 2);
    let cid = child.id;
    p.add_node(Some(rid), child);
    p.deactive_node(cid);
    p.cleanup();
    assert_eq!(p.node_count(), 2);
    assert_eq!(p.store[0].child_count(), 1);
    assert_eq!(p.store[1].band_count(), 1);
}

#[test]
fn cleanup_with_disabled_root_sweeps_below_it() {
    let mut p = EqProfile::new("p", None, 2);
    let root = band_node("r", 1);
    let rid = root.id;
    p.add_node(None, root);
    let a = band_node("a", 2);
    let aid = a.id;
    p.add_node(Some(rid), a);
    let b = band_node("b", 3);
    let bid = b.id;
    p.add_node(Some(rid), b);
    let a1 = band_node("a1", 4);
    let a1id = a1.id;
    p.add_node(Some(aid), a1);
    let b1 = band_node("b1", 5);
    let b1id = b1.id;
    p.add_node(Some(bid), b1);
    p.deactive_node(rid);
    p.deactive_node(aid);
    p.finalize();
    // the root stays filed, emptied; its children leave the lookup
    assert_eq!(p.get_node(rid), Some(0));
    assert_eq!(p.store[0].band_count(), 0);
    assert_eq!(p.store[0].child_count(), 0);
    assert_eq!(p.get_node(aid), None);
    assert_eq!(p.get_node(bid), None);
    // a was switched off: emptied, and its child left the lookup
    assert_eq!(p.store[1].band_count(), 0);
    assert_eq!(p.get_node(a1id), None);
    // b was switched on: kept as it was, and its child stays filed
    assert_eq!(p.store[2].band_count(), 1);
    assert_eq!(p.store[2].child_count(), 1);
    assert_eq!(p.get_node(b1id), Some(4));
    assert_eq!(p.node_count(), 2);
    assert!(eq_chain(&p).is_empty());
    // cleaning up again changes nothing
    p.cleanup();
    assert_eq!(p.node_count(), 2);
    assert_eq!(p.store[2].band_count(), 1);
}

#[test]
fn update_node_edits_bands() {
    let mut p = EqProfile::new("p", None, 2);
    let root = band_node("r", 1000);
    let rid = root.id;
    let bid = root.bands()[0].id;
    p.add_node(None, root);
    // update_node leaves the settings of held bands to the node itself
    p.store[0].apply_band_op(BandOp::UpdateBand(bid), Some(BandUpdate::UpdateGain(6.0f32.to_bits())));
    assert_eq!(f32::from_bits(p.store[0].get_band(bid).unwrap().gain), 6.0);
    // requests that name no held band, or carry no setting, change nothing
    p.update_node(rid, BandOp::UpdateBand(777), Some(BandUpdate::UpdateGain(1.0f32.to_bits())));
    p.update_node(rid, BandOp::UpdateBand(bid), None);
    p.update_node(rid, BandOp::UpdateBand(bid), Some(BandUpdate::Create(None, 0, Freq::Point(5), 48000, 0)));
    assert_eq!(f32::from_bits(p.store[0].get_band(bid).unwrap().gain), 6.0);
    assert_eq!(p.store[0].band_count(), 1);
    p.update_node(rid, BandOp::AddBand, Some(BandUpdate::Create(Some(EqFilter::LowPass), 0, Freq::Range(10, 30), 48000, 0)));
    assert_eq!(p.store[0].band_count(), 2);
    assert_eq!(p.store[0].bands()[1].filter, Some(EqFilter::LowPass));
    p.update_node(rid, BandOp::DeleteBand(bid), None);
    assert!(!p.store[0].get_band(bid).unwrap().enabled);
    p.update_node(12345, BandOp::DeleteBand(bid), None);
    p.store[0].cleanup();
    assert_eq!(p.store[0].band_count(), 1);
}

#[test]
fn clear_empties_lookup_and_root() {
    let mut p = EqProfile::new("p", None, 2);
    p.add_node(None, band_node("r", 1));
    p.clear();
    assert!(p.is_empty());
    assert_eq!(p.get_root(), None);
}

#[test]
fn profile_settings() {
    let mut p = EqProfile::new("a", None, 1);
    let other = EqProfile::new("a", None, 1);
    assert_ne!(p.get_id(), other.get_id());
    p.set_name("b");
    assert_eq!(p.get_name(), "b");
    p.set_preamp(Some((-3.0f32).to_bits()));
    assert_eq!(p.get_preamp().map(f32::from_bits), Some(-3.0));
}

#[test]
fn well_formedness_is_checked() {
    let mut p = EqProfile::new("p", None, 2);
    assert!(p.is_well_formed());
    let root = band_node("Root EQ", 1000);
    let root_id = root.id;
    p.add_node(None, root);
    p.add_node(Some(root_id), band_node("Child EQ", 5000));
    assert!(p.is_well_formed());

    let mut dangling_child = EqProfile::new("p", None, 2);
    dangling_child.add_node(None, band_node("Root EQ", 1000));
    dangling_child.store[0].children.push(7);
    assert!(!dangling_child.is_well_formed());

    let mut dangling_band = EqProfile::new("p", None, 2);
    dangling_band.add_node(None, band_node("Root EQ", 1000));
    dangling_band.store[0].band_map.insert(42, 3);
    assert!(!dangling_band.is_well_formed());

    let mut dangling_lookup = EqProfile::new("p", None, 2);
    dangling_lookup.nodes.insert(5, 0);
    assert!(!dangling_lookup.is_well_formed());

    let mut dangling_root = EqProfile::new("p", None, 2);
    dangling_root.root = Some(0);
    assert!(!dangling_root.is_well_formed());
}

#[test]
fn node_cleanup_leaves_the_chain_alone() {
    let mut p = EqProfile::new("p", None, 2);
    let mut root = band_node("r", 1);
    root.add_band(Freq::Point(2), None, None, 48000, 0);
    root.add_band(Freq::Point(3), None, None, 48000, 0);
    let off = root.bands()[1].id;
    root.disable_band(off);
    p.add_node(None, root);
    let before = eq_chain(&p);
    p.store[0].cleanup();
    assert_eq!(p.store[0].band_count(), 2);
    assert_eq!(eq_chain(&p), before);
    let freqs: Vec<Freq> = before.iter().map(|l| l.band.freq).collect();
    assert_eq!(freqs, vec![Freq::Point(1), Freq::Point(3)]);
}

#[test]
fn switched_off_node_applies_only_its_children() {
    let mut p = EqProfile::new("p", None, 2);
    let root = band_node("r", 1);
    let rid = root.id;
    p.add_node(None, root);
    let a = band_node("a", 2);
    let aid = a.id;
    p.add_node(Some(rid), a);
    let b = band_node("b", 3);
    p.add_node(Some(aid), b);
    p.deactive_node(aid);
    let freqs: Vec<Freq> = eq_chain(&p).iter().map(|l| l.band.freq).collect();
    assert_eq!(freqs, vec![Freq::Point(1), Freq::Point(3)]);
    p.deactive_node(rid);
    let freqs: Vec<Freq> = eq_chain(&p).iter().map(|l| l.band.freq).collect();
    assert_eq!(freqs, vec![Freq::Point(3)]);
    p.activate_node(aid);
    p.activate_node(rid);
    assert_eq!(eq_chain(&p).len(), 3);
}

#[test]
fn lone_switched_off_root_applies_nothing() {
    let mut p = EqProfile::new("p", None, 2);
    let root = band_node("r", 1);
    let rid = root.id;
    p.add_node(None, root);
    assert_eq!(eq_chain(&p).len(), 1);
    p.deactive_node(rid);
    assert!(eq_chain(&p).is_empty());
}

#[test]
fn cycles_below_the_root_are_found() {
    let mut p = EqProfile::new("p", None, 2);
    assert!(p.is_acyclic_below_root());
    let root = band_node("r", 1);
    let rid = root.id;
    p.add_node(None, root);
    let a = band_node("a", 2);
    let aid = a.id;
    p.add_node(Some(rid), a);
    p.add_node(Some(aid), band_node("b", 3));
    assert!(p.is_acyclic_below_root());
    // a node shared by two parents is no cycle, and is applied under each
    p.store[0].add_child(2);
    assert!(p.is_acyclic_below_root());
    let freqs: Vec<Freq> = eq_chain(&p).iter().map(|l| l.band.freq).collect();
    assert_eq!(freqs, vec![Freq::Point(1), Freq::Point(2), Freq::Point(3), Freq::Point(3)]);
    // a child pointing back up is
    p.store[2].add_child(1);
    assert!(!p.is_acyclic_below_root());
    let mut q = EqProfile::new("q", None, 2);
    q.add_node(None, band_node("r", 1));
    q.store[0].add_child(0);
    assert!(!q.is_acyclic_below_root());
}
