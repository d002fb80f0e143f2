use vstd::prelude::*;

use crate::command::{
    apply, apply_all, first_track, has_track, is_first_track, lemma_first_track_exists,
    lemma_first_track_unique, without_track, Command, CommandView,
};
use crate::queue::{pending, receive};
use crate::track::{remove_instance, Track, TrackView};
use crate::Id;
use ringbuf::Consumer;

verus! {

/// The abstract states of a sequence of realtime tracks.
pub open spec fn track_views<B, P>(s: Seq<Track<B, P>>) -> Seq<TrackView> {
    s.map_values(|t: Track<B, P>| t@)
}

/// The realtime side: the track list, changed only by commands taken from
/// the queue at the start of each audio callback.
#[verifier::reject_recursive_types(B)]
#[verifier::reject_recursive_types(P)]
pub struct PeppermintCore<B, P> {
    command_queue: Consumer<Command<B, P>>,
    tracks: Vec<Track<B, P>>,
}

impl<B, P> View for PeppermintCore<B, P> {
    type V = Seq<TrackView>;

    closed spec fn view(&self) -> Seq<TrackView> {
        track_views(self.tracks@)
    }
}

impl<B, P> PeppermintCore<B, P> {
    /// An engine with no tracks, reading commands from `command_queue`.
    pub fn new(command_queue: Consumer<Command<B, P>>) -> (r: PeppermintCore<B, P>)
        ensures
            r@ == Seq::<TrackView>::empty(),
    {
        let r = PeppermintCore { command_queue, tracks: Vec::with_capacity(128) };
        proof {
            assert(r@ =~= Seq::<TrackView>::empty());
        }
        r
    }

    /// The tracks in the order they were created.
    pub fn tracks(&self) -> (r: &Vec<Track<B, P>>)
        ensures
            track_views(r@) == self@,
    {
        &self.tracks
    }

    /// Borrows the tracks for rendering.
    pub fn tracks_mut(&mut self) -> (r: &mut Vec<Track<B, P>>)
        ensures
            track_views(r@) == old(self)@,
            final(self)@ == track_views(final(r)@),
    {
        &mut self.tracks
    }

    /// Position of the first track with identifier `id`.
    fn find_track(&self, id: Id) -> (r: Option<usize>)
        ensures
            match r {
                Some(i) => is_first_track(self@, id, i as int) && first_track(self@, id) == i,
                None => !has_track(self@, id),
            },
    {
        let mut i: usize = 0;
        while i < self.tracks.len()
            invariant
                i <= self.tracks.len(),
                forall|k: int| 0 <= k < i ==> self@[k].id != id,
            decreases self.tracks.len() - i,
        {
            if self.tracks[i].id() == id {
                proof {
                    assert(is_first_track(self@, id, i as int));
                    lemma_first_track_exists(self@, id);
                    lemma_first_track_unique(self@, id, i as int, first_track(self@, id));
                }
                return Some(i);
            }
            i += 1;
        }
        None
    }

    /// Removes every track with identifier `id`, keeping the order of the rest.
    fn remove_tracks(&mut self, id: Id)
        ensures
            final(self)@ == without_track(old(self)@, id),
            final(self).command_queue == old(self).command_queue,
    {
        let mut i: usize = 0;
        proof {
            assert(self@.take(0) + self@.skip(0) =~= self@);
        }
        while i < self.tracks.len()
            invariant
                self.command_queue == old(self).command_queue,
                i <= self.tracks.len(),
                without_track(old(self)@, id) == self@.take(i as int) + without_track(
                    self@.skip(i as int),
                    id,
                ),
                forall|k: int| 0 <= k < i ==> self@[k].id != id,
            decreases self.tracks.len() - i,
        {
            let ghost before = self@;
            proof {
                let rest = before.skip(i as int);
                assert(rest.subrange(1, rest.len() as int) =~= before.skip(i + 1));
                assert(rest[0] == before[i as int]);
            }
            if self.tracks[i].id() == id {
                self.tracks.remove(i);
                proof {
                    assert(self@ =~= before.remove(i as int));
                    assert(self@.take(i as int) =~= before.take(i as int));
                    assert(self@.skip(i as int) =~= before.skip(i + 1));
                }
            } else {
                proof {
                    assert(before.take(i + 1) =~= before.take(i as int) + seq![before[i as int]]);
                }
                i += 1;
            }
        }
        proof {
            assert(self@.skip(i as int) =~= Seq::<TrackView>::empty());
            assert(self@.take(i as int) =~= self@);
        }
    }

    /// Applies one command. A command aimed at a track or plugin instance
    /// that is not there changes nothing.
    pub fn apply_command(&mut self, command: Command<B, P>)
        ensures
            final(self)@ == apply(old(self)@, command@),
    {
        let ghost c = command@;
        match command {
            Command::CreateTrack(t) => {
                self.tracks.push(t);
                proof {
                    assert(self@ =~= old(self)@.push(c->CreateTrack_0));
                }
            },
            Command::DeleteTrack(track_id) => {
                self.remove_tracks(track_id);
            },
            Command::UpdateTrack(track_id, property, value) => {
                match self.find_track(track_id) {
                    Some(i) => {
                        self.tracks[i].set_property(property, value);
                        proof {
                            assert(self@ =~= old(self)@.update(
                                i as int,
                                TrackView { gain: value, ..old(self)@[i as int] },
                            ));
                        }
                    },
                    None => {},
                }
            },
            Command::PushPluginInstance { id, track, instance, params } => {
                let ghost pv = params@;
                match self.find_track(track) {
                    Some(i) => {
                        self.tracks[i].push_instance(id, instance, params);
                        proof {
                            assert(self@ =~= old(self)@.update(
                                i as int,
                                TrackView {
                                    instances: old(self)@[i as int].instances.push(
                                        crate::track::InstanceView { id, params: pv },
                                    ),
                                    ..old(self)@[i as int]
                                },
                            ));
                        }
                    },
                    None => {},
                }
            },
            Command::DeletePluginInstance { id } => {
                let mut i: usize = 0;
                while i < self.tracks.len()
                    invariant
                        self.command_queue == old(self).command_queue,
                        i <= self.tracks.len(),
                        self@.len() == old(self)@.len(),
                        forall|k: int|
                            0 <= k < i ==> #[trigger] self@[k] == (TrackView {
                                instances: remove_instance(old(self)@[k].instances, id),
                                ..old(self)@[k]
                            }),
                        forall|k: int| i <= k < self@.len() ==> #[trigger] self@[k] == old(self)@[k],
                    decreases self.tracks.len() - i,
                {
                    let ghost before = self@;
                    let _ = self.tracks[i].delete_instance(id);
                    proof {
                        assert(self@ =~= before.update(
                            i as int,
                            TrackView {
                                instances: remove_instance(before[i as int].instances, id),
                                ..before[i as int]
                            },
                        ));
                    }
                    i += 1;
                }
                proof {
                    assert(self@ =~= old(self)@.map_values(
                        |t: TrackView| TrackView { instances: remove_instance(t.instances, id), ..t },
                    ));
                }
            },
        }
    }

    /// Applies, oldest first, the commands that were queued when the call
    /// began. Commands queued while it runs wait for the next call.
    pub fn handle_command_queue(&mut self)
        ensures
            exists|cs: Seq<CommandView>| final(self)@ == apply_all(old(self)@, cs),
    {
        let n = pending(&self.command_queue);
        let ghost applied: Seq<CommandView> = Seq::empty();
        let mut i: usize = 0;
        while i < n
            invariant
                self@ == apply_all(old(self)@, applied),
            decreases n - i,
        {
            match receive(&mut self.command_queue) {
                Some(command) => {
                    proof {
                        assert(applied.push(command@).drop_last() =~= applied);
                    }
                    let ghost cv = command@;
                    self.apply_command(command);
                    proof {
                        applied = applied.push(cv);
                    }
                },
                None => {
                    break;
                },
            }
            i += 1;
        }
        proof {
            assert(self@ == apply_all(old(self)@, applied));
        }
    }
}

} // verus!
