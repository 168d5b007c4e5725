use treq::band::{BandOp, BandUpdate, EqFilter, Freq};
use treq::node::EqNode;

fn node_with_bands(n: usize) -> EqNode {
    let mut node = EqNode::new(Some("n".to_string()));
    for i in 0..n {
        node.add_band(Freq::Point(100 * (i + 1)), Some(EqFilter::Peaking), Some(1.0f32.to_bits()), 48000, 1.0f64.to_bits());
    }
    node
}

#[test]
fn new_node_is_empty_and_enabled() {
    let node = EqNode::new(Some("Root EQ".to_string()));
    assert!(node.is_enabled());
    assert_eq!(node.band_count(), 0);
    assert_eq!(node.child_count(), 0);
    assert_eq!(node.get_name(), Some(&"Root EQ".to_string()));
    let other = EqNode::new(None);
    assert_ne!(node.get_id(), other.get_id());
    assert_eq!(other.get_name(), None);
}

#[test]
fn added_band_is_found_by_id() {
    let mut node = EqNode::new(None);
    node.add_band(Freq::Point(1000), Some(EqFilter::Peaking), Some(3.0f32.to_bits()), 48000, 1.0f64.to_bits());
    node.add_band(Freq::Point(100), Some(EqFilter::LowShelf), Some(2.0f32.to_bits()), 48000, 0.7f64.to_bits());
    assert_eq!(node.band_count(), 2);
    let second = node.bands()[1];
    let found = node.get_band(second.id).unwrap();
    assert_eq!(*found, second);
    assert_eq!(found.freq, Freq::Point(100));
    assert_eq!(found.filter, Some(EqFilter::LowShelf));
    assert_eq!(node.get_band(12345), None);
}

#[test]
fn disabled_band_is_dropped_by_cleanup() {
    let mut node = node_with_bands(3);
    let ids: Vec<u128> = node.bands().iter().map(|b| b.id).collect();
    node.disable_band(ids[1]);
    assert!(!node.get_band(ids[1]).unwrap().enabled);
    assert_eq!(node.band_count(), 3);
    node.cleanup();
    assert_eq!(node.band_count(), 2);
    assert_eq!(node.bands()[0].id, ids[0]);
    assert_eq!(node.bands()[1].id, ids[2]);
    assert!(node.get_band(ids[1]).is_none());
    assert_eq!(node.get_band(ids[2]).unwrap().id, ids[2]);
}

#[test]
fn cleanup_twice_is_cleanup_once() {
    let mut node = node_with_bands(4);
    let ids: Vec<u128> = node.bands().iter().map(|b| b.id).collect();
    node.disable_band(ids[0]);
    node.disable_band(ids[3]);
    node.finalize();
    let once: Vec<u128> = node.bands().iter().map(|b| b.id).collect();
    node.cleanup();
    let twice: Vec<u128> = node.bands().iter().map(|b| b.id).collect();
    assert_eq!(once, twice);
    assert_eq!(once, vec![ids[1], ids[2]]);
    assert!(node.bands().iter().all(|b| b.enabled));
}

#[test]
fn enable_band_restores_it() {
    let mut node = node_with_bands(2);
    let id = node.bands()[0].id;
    node.disable_band(id);
    node.enable_band(id);
    node.cleanup();
    assert_eq!(node.band_count(), 2);
}

#[test]
fn unknown_band_ids_change_nothing() {
    let mut node = node_with_bands(2);
    node.disable_band(1);
    node.enable_band(2);
    node.cleanup();
    assert_eq!(node.band_count(), 2);
    assert!(node.get_band_mut(3).is_none());
}

#[test]
fn band_written_through_get_band_mut() {
    let mut node = node_with_bands(2);
    let id = node.bands()[1].id;
    {
        let b = node.get_band_mut(id).unwrap();
        b.update_freq(Freq::Range(200, 400));
    }
    assert_eq!(node.get_band(id).unwrap().freq, Freq::Range(200, 400));
}

#[test]
fn band_ops_on_a_node() {
    let mut node = node_with_bands(1);
    let id = node.bands()[0].id;
    node.apply_band_op(BandOp::UpdateBand(id), Some(BandUpdate::UpdateGain((-6.0f32).to_bits())));
    assert_eq!(f32::from_bits(node.get_band(id).unwrap().gain), -6.0);
    node.apply_band_op(BandOp::UpdateBand(id), Some(BandUpdate::UpdateFilter(Some(EqFilter::Notch))));
    assert_eq!(node.get_band(id).unwrap().filter, Some(EqFilter::Notch));
    node.apply_band_op(BandOp::UpdateBand(id), Some(BandUpdate::UpdateQ(2.0f64.to_bits())));
    assert_eq!(f64::from_bits(node.get_band(id).unwrap().q), 2.0);
    node.apply_band_op(BandOp::UpdateBand(id), Some(BandUpdate::UpdateFreq(Freq::Point(50))));
    assert_eq!(node.get_band(id).unwrap().freq, Freq::Point(50));
    node.apply_band_op(BandOp::UpdateBand(id), None);
    node.apply_band_op(BandOp::AddBand, Some(BandUpdate::UpdateQ(1)));
    assert_eq!(node.band_count(), 1);
    node.apply_band_op(
        BandOp::AddBand,
        Some(BandUpdate::Create(Some(EqFilter::HighShelf), (-1.5f32).to_bits(), Freq::Point(5000), 48000, 0.5f64.to_bits())),
    );
    assert_eq!(node.band_count(), 2);
    let added = node.bands()[1];
    assert_eq!(added.filter, Some(EqFilter::HighShelf));
    assert_eq!(added.freq, Freq::Point(5000));
    assert_eq!(f32::from_bits(added.gain), -1.5);
    node.apply_band_op(BandOp::DeleteBand(id), None);
    assert!(!node.get_band(id).unwrap().enabled);
}

#[test]
fn clearing_bands_and_children() {
    let mut node = node_with_bands(3);
    node.add_child(0);
    node.add_child(1);
    assert_eq!(node.child_count(), 2);
    node.clear_children();
    assert_eq!(node.child_count(), 0);
    assert_eq!(node.band_count(), 3);
    let id = node.bands()[0].id;
    node.clear_bands();
    assert_eq!(node.band_count(), 0);
    assert!(node.get_band(id).is_none());
}

#[test]
fn children_found_and_removed_by_id() {
    let store = vec![EqNode::new(None), EqNode::new(None), EqNode::new(None)];
    let mut parent = EqNode::new(None);
    parent.add_child(2);
    parent.add_child(0);
    parent.add_child(2);
    assert_eq!(parent.get_child(&store, store[0].id), Some(0));
    assert_eq!(parent.get_child(&store, store[2].id), Some(2));
    assert_eq!(parent.get_child(&store, store[1].id), None);
    assert!(parent.remove_child(&store, store[2].id));
    assert_eq!(parent.children(), &vec![0, 2]);
    assert!(!parent.remove_child(&store, store[1].id));
    assert_eq!(parent.children(), &vec![0, 2]);
}

#[test]
fn node_from_parts_indexes_its_bands() {
    let source = node_with_bands(2);
    let bands = source.bands().clone();
    let node = EqNode::from_parts(5, Some("x".to_string()), false, bands.clone(), vec![1]);
    assert_eq!(node.get_id(), 5);
    assert!(!node.is_enabled());
    assert_eq!(node.get_band(bands[1].id).unwrap().id, bands[1].id);
    assert_eq!(node.children(), &vec![1]);
}

#[test]
fn switching_and_renaming_a_node() {
    let mut node = EqNode::new(None);
    node.disable();
    assert!(!node.is_enabled());
    node.enable();
    assert!(node.is_enabled());
    node.set_name(Some("Child EQ".to_string()));
    assert_eq!(node.get_name(), Some(&"Child EQ".to_string()));
}
