use peppermint::command::Command;
use peppermint::engine::PeppermintCore;
use peppermint::manager::{
    Instantiation, ManagerError, PeppermintManager, TrackPropertyUpdate, GAIN_PROPERTY,
};
use peppermint::track::UNITY_GAIN;
use ringbuf::{Consumer, RingBuffer};

type Queue = Command<(), u32>;

fn setup(size: usize) -> (PeppermintManager<(), u32>, Consumer<Queue>) {
    let (tx, rx) = RingBuffer::<Queue>::new(size).split();
    (PeppermintManager::new(64, tx), rx)
}

fn gain(update: f32) -> TrackPropertyUpdate {
    TrackPropertyUpdate { property: GAIN_PROPERTY, value: update.to_bits() }
}

fn ready(instance: u32, params: Vec<f32>) -> Instantiation<u32> {
    Instantiation::Ready { instance, params: params.iter().map(|p| p.to_bits()).collect() }
}

#[test]
fn create_track_with_empty_name_gets_default_name() {
    let (mut m, _rx) = setup(16);
    let t = m.create_track(0, String::new(), ()).unwrap();
    assert_eq!(t.id, 1);
    assert_eq!(t.name, "Track1");
    assert_eq!(f32::from_bits(t.gain), 1.0);
    assert!(t.plugin_instances.is_empty());
}

#[test]
fn create_track_keeps_given_name() {
    let (mut m, _rx) = setup(16);
    let t = m.create_track(0, "Drums".to_string(), ()).unwrap();
    assert_eq!(t.name, "Drums");
    let t = m.create_track(0, String::new(), ()).unwrap();
    assert_eq!(t.id, 2);
    assert_eq!(t.name, "Track2");
}

#[test]
fn default_name_has_all_digits() {
    let (mut m, _rx) = setup(16);
    let t = m.create_track(1234567, String::new(), ()).unwrap();
    assert_eq!(t.name, "Track1234567");
}

#[test]
fn explicit_id_twice_is_already_exists() {
    let (mut m, _rx) = setup(16);
    let t = m.create_track(5, String::new(), ()).unwrap();
    assert_eq!(t.id, 5);
    assert_eq!(m.create_track(5, String::new(), ()).unwrap_err(), ManagerError::AlreadyExists);
    let tracks = m.get_tracks();
    assert_eq!(tracks.len(), 1);
    assert_eq!(tracks[0].id, 5);
}

#[test]
fn explicit_id_used_by_plugin_instance_is_already_exists() {
    let (mut m, _rx) = setup(16);
    m.create_track(0, String::new(), ()).unwrap();
    let pid = m.instantiate_plugin(1, "lv2urn:x".to_string(), ready(9, vec![])).unwrap();
    assert_eq!(pid, 2);
    assert_eq!(m.create_track(pid, String::new(), ()).unwrap_err(), ManagerError::AlreadyExists);
    assert_eq!(m.get_tracks().len(), 1);
}

#[test]
fn automatic_ids_skip_explicit_ones() {
    let (mut m, _rx) = setup(16);
    m.create_track(2, String::new(), ()).unwrap();
    assert_eq!(m.create_track(0, String::new(), ()).unwrap().id, 1);
    assert_eq!(m.create_track(0, String::new(), ()).unwrap().id, 3);
}

#[test]
fn update_gain_is_listed() {
    let (mut m, _rx) = setup(16);
    m.create_track(0, String::new(), ()).unwrap();
    m.update_track(1, String::new(), &vec![gain(0.5)]).unwrap();
    let tracks = m.get_tracks();
    assert_eq!(tracks.len(), 1);
    assert_eq!(tracks[0].id, 1);
    assert_eq!(f32::from_bits(tracks[0].gain), 0.5);
    assert_eq!(tracks[0].name, "Track1");
}

#[test]
fn update_ignores_unknown_property_and_renames() {
    let (mut m, _rx) = setup(16);
    m.create_track(0, String::new(), ()).unwrap();
    let updates = vec![
        gain(0.25),
        TrackPropertyUpdate { property: 0, value: 3.0f32.to_bits() },
        TrackPropertyUpdate { property: 7, value: 4.0f32.to_bits() },
    ];
    m.update_track(1, "Bass".to_string(), &updates).unwrap();
    let tracks = m.get_tracks();
    assert_eq!(f32::from_bits(tracks[0].gain), 0.25);
    assert_eq!(tracks[0].name, "Bass");
}

#[test]
fn update_missing_track_is_not_found() {
    let (mut m, _rx) = setup(16);
    assert_eq!(m.update_track(3, String::new(), &vec![gain(0.5)]).unwrap_err(), ManagerError::NotFound);
}

#[test]
fn delete_twice_is_not_found() {
    let (mut m, _rx) = setup(16);
    m.create_track(0, String::new(), ()).unwrap();
    assert_eq!(m.delete_track(1), Ok(()));
    assert_eq!(m.delete_track(1), Err(ManagerError::NotFound));
    assert!(m.get_tracks().is_empty());
}

#[test]
fn full_queue_is_internal() {
    let (mut m, _rx) = setup(4);
    for _ in 0..4 {
        m.create_track(0, String::new(), ()).unwrap();
    }
    assert_eq!(m.create_track(0, String::new(), ()).unwrap_err(), ManagerError::Internal);
    assert_eq!(m.get_tracks().len(), 4);
    assert_eq!(m.update_track(1, String::new(), &vec![gain(0.5)]), Err(ManagerError::Internal));
    assert_eq!(m.delete_track(1), Err(ManagerError::Internal));
    assert_eq!(m.get_tracks().len(), 4);
}

#[test]
fn failed_create_frees_the_requested_id() {
    let (mut m, mut rx) = setup(1);
    m.create_track(0, String::new(), ()).unwrap();
    assert_eq!(m.create_track(9, String::new(), ()).unwrap_err(), ManagerError::Internal);
    assert!(rx.pop().is_some());
    assert_eq!(m.create_track(9, String::new(), ()).unwrap().id, 9);
}

#[test]
fn delete_track_releases_plugin_instance_ids() {
    let (mut m, _rx) = setup(16);
    m.create_track(0, String::new(), ()).unwrap();
    let pid = m.instantiate_plugin(1, "lv2urn:synth".to_string(), ready(1, vec![0.5])).unwrap();
    assert_eq!(pid, 2);
    assert_eq!(m.delete_track(1), Ok(()));
    assert!(m.get_tracks().is_empty());
    assert_eq!(m.delete_plugin_instance(pid), Err(ManagerError::NotFound));
    // Both identifiers are free again.
    assert_eq!(m.create_track(1, String::new(), ()).unwrap().id, 1);
    assert_eq!(m.create_track(2, String::new(), ()).unwrap().id, 2);
}

#[test]
fn instantiate_records_params_and_order() {
    let (mut m, _rx) = setup(16);
    m.create_track(0, String::new(), ()).unwrap();
    let a = m.instantiate_plugin(1, "lv2urn:a".to_string(), ready(1, vec![0.5, 2.0])).unwrap();
    let b = m.instantiate_plugin(1, "lv2urn:b".to_string(), ready(2, vec![])).unwrap();
    assert_eq!((a, b), (2, 3));
    let tracks = m.get_tracks();
    let chain = &tracks[0].plugin_instances;
    assert_eq!(chain.len(), 2);
    assert_eq!(chain[0].id, 2);
    assert_eq!(chain[0].plugin_id, "lv2urn:a");
    let params: Vec<f32> = chain[0].params.iter().map(|p| f32::from_bits(*p)).collect();
    assert_eq!(params, vec![0.5, 2.0]);
    assert_eq!(chain[1].id, 3);
    assert_eq!(chain[1].plugin_id, "lv2urn:b");
}

#[test]
fn instantiate_errors() {
    let (mut m, _rx) = setup(16);
    m.create_track(0, String::new(), ()).unwrap();
    assert_eq!(
        m.instantiate_plugin(1, "lv2urn:none".to_string(), Instantiation::PluginNotFound),
        Err(ManagerError::NotFound)
    );
    assert_eq!(
        m.instantiate_plugin(1, "lv2urn:bad".to_string(), Instantiation::Failed),
        Err(ManagerError::Internal)
    );
    assert_eq!(
        m.instantiate_plugin(7, "lv2urn:x".to_string(), ready(1, vec![])),
        Err(ManagerError::NotFound)
    );
    assert!(m.get_tracks()[0].plugin_instances.is_empty());
    // No identifier was used up by the failures.
    assert_eq!(m.instantiate_plugin(1, "lv2urn:x".to_string(), ready(1, vec![])), Ok(2));
}

#[test]
fn delete_plugin_instance_keeps_rest_of_chain() {
    let (mut m, _rx) = setup(16);
    m.create_track(0, String::new(), ()).unwrap();
    let a = m.instantiate_plugin(1, "lv2urn:a".to_string(), ready(1, vec![])).unwrap();
    let b = m.instantiate_plugin(1, "lv2urn:b".to_string(), ready(2, vec![])).unwrap();
    let c = m.instantiate_plugin(1, "lv2urn:c".to_string(), ready(3, vec![])).unwrap();
    assert_eq!(m.delete_plugin_instance(b), Ok(()));
    assert_eq!(m.delete_plugin_instance(b), Err(ManagerError::NotFound));
    let ids: Vec<u64> = m.get_tracks()[0].plugin_instances.iter().map(|p| p.id).collect();
    assert_eq!(ids, vec![a, c]);
}

#[test]
fn tracks_are_listed_by_ascending_id() {
    let (mut m, _rx) = setup(16);
    m.create_track(30, String::new(), ()).unwrap();
    m.create_track(10, String::new(), ()).unwrap();
    m.create_track(20, String::new(), ()).unwrap();
    m.create_track(0, String::new(), ()).unwrap();
    let ids: Vec<u64> = m.get_tracks().iter().map(|t| t.id).collect();
    assert_eq!(ids, vec![1, 10, 20, 30]);
}

#[test]
fn ids_are_distinct_across_creates_and_instances() {
    let (mut m, _rx) = setup(64);
    let mut seen = Vec::new();
    for _ in 0..3 {
        let t = m.create_track(0, String::new(), ()).unwrap().id;
        seen.push(t);
        seen.push(m.instantiate_plugin(t, "lv2urn:x".to_string(), ready(0, vec![])).unwrap());
    }
    m.delete_track(seen[0]).unwrap();
    seen.push(m.create_track(0, String::new(), ()).unwrap().id);
    let mut sorted = seen.clone();
    sorted.sort();
    sorted.dedup();
    assert_eq!(sorted.len(), seen.len());
    assert_eq!(seen, vec![1, 2, 3, 4, 5, 6, 7]);
}

#[test]
fn created_track_has_unity_gain_in_listing() {
    let (mut m, _rx) = setup(16);
    let t = m.create_track(0, String::new(), ()).unwrap();
    let listed = m.get_tracks();
    assert_eq!(listed[0].id, t.id);
    assert_eq!(listed[0].gain, UNITY_GAIN);
    assert_eq!(UNITY_GAIN, 1.0f32.to_bits());
}

#[test]
fn buffer_size_is_kept() {
    let (m, _rx) = setup(4);
    assert_eq!(m.buffer_size(), 64);
}

#[test]
fn engine_follows_manager_in_order() {
    let (tx, rx) = RingBuffer::<Queue>::new(16).split();
    let mut m: PeppermintManager<(), u32> = PeppermintManager::new(64, tx);
    let mut core = PeppermintCore::new(rx);
    m.create_track(0, String::new(), ()).unwrap();
    m.update_track(1, String::new(), &vec![gain(0.5)]).unwrap();
    let pid = m.instantiate_plugin(1, "lv2urn:x".to_string(), ready(42, vec![1.5])).unwrap();
    m.create_track(0, String::new(), ()).unwrap();
    core.handle_command_queue();
    let tracks = core.tracks();
    assert_eq!(tracks.len(), 2);
    assert_eq!(tracks[0].id(), 1);
    assert_eq!(f32::from_bits(tracks[0].property(peppermint::track::TrackProperty::Gain)), 0.5);
    assert_eq!(tracks[1].id(), 3);
    assert_eq!(tracks[1].property(peppermint::track::TrackProperty::Gain), UNITY_GAIN);
    let _ = pid;
}

#[test]
fn plugin_ids_have_lv2_prefix() {
    assert_eq!(peppermint::names::lv2_plugin_id("urn:x:synth"), "lv2urn:x:synth");
    assert!(peppermint::names::is_plugin("urn:x:synth", "lv2urn:x:synth"));
    assert!(!peppermint::names::is_plugin("urn:x:synth", "urn:x:synth"));
    assert!(!peppermint::names::is_plugin("urn:x:synth", "lv2urn:x:synth2"));
}

#[test]
fn drained_engine_agrees_with_listing() {
    let (tx, rx) = RingBuffer::<Queue>::new(64).split();
    let mut m: PeppermintManager<(), u32> = PeppermintManager::new(64, tx);
    let mut core = PeppermintCore::new(rx);
    m.create_track(4, String::new(), ()).unwrap();
    m.create_track(0, String::new(), ()).unwrap();
    let a = m.instantiate_plugin(4, "lv2urn:a".to_string(), ready(1, vec![0.5])).unwrap();
    let b = m.instantiate_plugin(4, "lv2urn:b".to_string(), ready(2, vec![])).unwrap();
    let c = m.instantiate_plugin(1, "lv2urn:c".to_string(), ready(3, vec![1.0])).unwrap();
    m.update_track(1, String::new(), &vec![gain(0.75)]).unwrap();
    m.delete_plugin_instance(a).unwrap();
    core.handle_command_queue();
    let listing = m.get_tracks();
    let mut engine_ids: Vec<u64> = core.tracks().iter().map(|t| t.id()).collect();
    engine_ids.sort();
    let listed_ids: Vec<u64> = listing.iter().map(|t| t.id).collect();
    assert_eq!(engine_ids, listed_ids);
    for record in listing.iter() {
        let track = core.tracks().iter().find(|t| t.id() == record.id).unwrap();
        assert_eq!(track.property(peppermint::track::TrackProperty::Gain), record.gain);
        let chain: Vec<(u64, Vec<u32>)> =
            track.instances().iter().map(|i| (i.id(), i.params().clone())).collect();
        let recorded: Vec<(u64, Vec<u32>)> =
            record.plugin_instances.iter().map(|p| (p.id, p.params.clone())).collect();
        assert_eq!(chain, recorded);
    }
    assert_eq!(listing[1].plugin_instances[0].id, b);
    assert_eq!(listing[0].plugin_instances[0].id, c);
}

#[test]
fn default_names_for_edge_ids() {
    assert_eq!(peppermint::names::default_name(0), "Track0");
    assert_eq!(peppermint::names::default_name(10), "Track10");
    assert_eq!(peppermint::names::default_name(u64::MAX), "Track18446744073709551615");
    assert_eq!(peppermint::names::lv2_plugin_id(""), "lv2");
}
