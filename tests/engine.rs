use peppermint::command::Command;
use peppermint::engine::PeppermintCore;
use peppermint::track::{Track, TrackProperty, UNITY_GAIN};
use ringbuf::{Producer, RingBuffer};

type Core = PeppermintCore<(), u32>;

fn setup() -> (Producer<Command<(), u32>>, Core) {
    let (tx, rx) = RingBuffer::<Command<(), u32>>::new(32).split();
    (tx, PeppermintCore::new(rx))
}

fn ids(core: &Core) -> Vec<u64> {
    core.tracks().iter().map(|t| t.id()).collect()
}

fn push(tx: &mut Producer<Command<(), u32>>, c: Command<(), u32>) {
    assert!(tx.push(c).is_ok());
}

#[test]
fn new_engine_has_no_tracks() {
    let (_tx, core) = setup();
    assert!(core.tracks().is_empty());
}

#[test]
fn create_then_update_applies_in_order() {
    let (mut tx, mut core) = setup();
    push(&mut tx, Command::CreateTrack(Track::new(1, ())));
    push(&mut tx, Command::UpdateTrack(1, TrackProperty::Gain, 0.5f32.to_bits()));
    core.handle_command_queue();
    assert_eq!(ids(&core), vec![1]);
    assert_eq!(core.tracks()[0].property(TrackProperty::Gain), 0.5f32.to_bits());
}

#[test]
fn update_before_create_is_ignored() {
    let (mut tx, mut core) = setup();
    push(&mut tx, Command::UpdateTrack(1, TrackProperty::Gain, 0.5f32.to_bits()));
    push(&mut tx, Command::CreateTrack(Track::new(1, ())));
    core.handle_command_queue();
    assert_eq!(core.tracks()[0].property(TrackProperty::Gain), UNITY_GAIN);
}

#[test]
fn commands_for_removed_ids_are_ignored() {
    let (mut tx, mut core) = setup();
    push(&mut tx, Command::CreateTrack(Track::new(1, ())));
    push(&mut tx, Command::CreateTrack(Track::new(2, ())));
    push(&mut tx, Command::DeleteTrack(1));
    push(&mut tx, Command::DeleteTrack(1));
    push(&mut tx, Command::UpdateTrack(1, TrackProperty::Gain, 0.0f32.to_bits()));
    push(&mut tx, Command::PushPluginInstance { id: 5, track: 1, instance: 9, params: vec![] });
    push(&mut tx, Command::DeletePluginInstance { id: 77 });
    core.handle_command_queue();
    assert_eq!(ids(&core), vec![2]);
    assert_eq!(core.tracks()[0].property(TrackProperty::Gain), UNITY_GAIN);
    assert!(core.tracks()[0].instances().is_empty());
}

#[test]
fn delete_removes_every_track_with_the_id() {
    let (mut tx, mut core) = setup();
    for id in [3u64, 4, 3, 5] {
        push(&mut tx, Command::CreateTrack(Track::new(id, ())));
    }
    push(&mut tx, Command::DeleteTrack(3));
    core.handle_command_queue();
    assert_eq!(ids(&core), vec![4, 5]);
}

#[test]
fn plugin_chain_keeps_push_order_and_deletes() {
    let (mut tx, mut core) = setup();
    push(&mut tx, Command::CreateTrack(Track::new(1, ())));
    push(&mut tx, Command::CreateTrack(Track::new(2, ())));
    for (id, inst) in [(10u64, 100u32), (11, 110), (12, 120)] {
        push(&mut tx, Command::PushPluginInstance { id, track: 1, instance: inst, params: vec![id as u32] });
    }
    push(&mut tx, Command::PushPluginInstance { id: 13, track: 2, instance: 130, params: vec![] });
    push(&mut tx, Command::DeletePluginInstance { id: 11 });
    core.handle_command_queue();
    let chain: Vec<(u64, Vec<u32>)> = core.tracks()[0]
        .instances()
        .iter()
        .map(|c| (c.id(), c.params().clone()))
        .collect();
    assert_eq!(chain, vec![(10, vec![10]), (12, vec![12])]);
    assert_eq!(core.tracks()[1].instances().len(), 1);
}

#[test]
fn drain_takes_commands_queued_before_it() {
    let (mut tx, mut core) = setup();
    core.handle_command_queue();
    assert!(core.tracks().is_empty());
    push(&mut tx, Command::CreateTrack(Track::new(8, ())));
    core.handle_command_queue();
    assert_eq!(ids(&core), vec![8]);
    core.handle_command_queue();
    assert_eq!(ids(&core), vec![8]);
}

#[test]
fn track_delete_instance_returns_handle() {
    let mut t: Track<(), u32> = Track::new(1, ());
    t.push_instance(4, 40, vec![]);
    t.push_instance(5, 50, vec![]);
    assert_eq!(t.delete_instance(5), Some(50));
    assert_eq!(t.delete_instance(5), None);
    assert_eq!(t.instances().len(), 1);
}

#[test]
fn track_set_property() {
    let mut t: Track<u8, u32> = Track::new(1, 7);
    assert_eq!(t.property(TrackProperty::Gain), UNITY_GAIN);
    t.set_property(TrackProperty::Gain, 0.25f32.to_bits());
    assert_eq!(f32::from_bits(t.property(TrackProperty::Gain)), 0.25);
    assert_eq!(*t.buffers_mut(), 7);
}
