use vstd::prelude::*;

use crate::command::{apply_all, Command, CommandView};
use crate::consistency::{
    lemma_matches_create, lemma_matches_delete, lemma_matches_gain, lemma_matches_push,
    lemma_matches_remove_instance, lemma_matches_rename, realtime_matches,
};
use crate::control::{
    created_track, deleted_instance, deleted_track, gain_after, gain_commands, ids_of_track,
    instantiated,
    is_instance_id, lemma_insert_fresh_track, lemma_push_instance, lemma_remove_instance,
    lemma_remove_track, lemma_update_track_wf, manager_wf, updated_track, ManagerView,
};
use crate::ids::IdManager;
use crate::names::default_name;
use crate::queue::send;
use crate::records::{
    ascending, copy_values, lemma_track_map_at, lemma_track_map_insert, lemma_track_map_remove,
    lemma_track_map_update, lists_track, track_info_views, track_map, PluginInstanceInfo,
    PluginInstanceInfoView, TrackInfo, TrackInfoView,
};
use crate::track::{Track, TrackProperty};
use crate::Id;
use ringbuf::Producer;

verus! {

/// Errors that the control operations report.
#[derive(Clone, Copy, Debug, PartialEq, Eq, Structural)]
pub enum ManagerError {
    /// The track, plugin instance or plugin does not exist.
    NotFound,
    /// The requested track identifier is already in use.
    AlreadyExists,
    /// The command queue is full, a plugin could not be instantiated, or no
    /// identifier is left.
    Internal,
}

/// Wire value of the gain property in a [`TrackPropertyUpdate`].
pub const GAIN_PROPERTY: i32 = 1;

/// One requested change of a track property. `property` is the wire value
/// of the property; values other than [`GAIN_PROPERTY`] name no property and
/// are ignored. `value` is the bit pattern of the new `f32` value.
#[derive(Clone, Copy, Debug, PartialEq, Eq, Structural)]
pub struct TrackPropertyUpdate {
    pub property: i32,
    pub value: u32,
}

/// What the plugin host made of a request to instantiate a plugin.
pub enum Instantiation<P> {
    /// No plugin has the requested identifier.
    PluginNotFound,
    /// The plugin exists but could not be instantiated.
    Failed,
    /// A new instance, with the default values of its control inputs in port
    /// order (bit patterns of `f32`s).
    Ready { instance: P, params: Vec<u32> },
}

/// The control side: the authoritative view of tracks and plugin instances,
/// the identifier allocator, and the sending half of the command queue.
#[verifier::reject_recursive_types(B)]
#[verifier::reject_recursive_types(P)]
pub struct PeppermintManager<B, P> {
    commands: Producer<Command<B, P>>,
    ids: IdManager,
    /// Ascending by identifier.
    tracks: Vec<TrackInfo>,
    buffer_size: usize,
    sent: Ghost<Seq<CommandView>>,
}

impl<B, P> View for PeppermintManager<B, P> {
    type V = ManagerView;

    closed spec fn view(&self) -> ManagerView {
        ManagerView {
            ids: self.ids@,
            sent: self.sent@,
            tracks: track_map(track_info_views(self.tracks@)),
        }
    }
}

impl<B, P> PeppermintManager<B, P> {
    pub closed spec fn wf(&self) -> bool {
        &&& ascending(track_info_views(self.tracks@))
        &&& manager_wf(self@)
        &&& realtime_matches(apply_all(Seq::empty(), self@.sent), self@.tracks)
    }

    /// The frame count that new tracks are created with.
    pub closed spec fn spec_buffer_size(&self) -> usize {
        self.buffer_size
    }

    pub fn new(buffer_size: usize, commands: Producer<Command<B, P>>) -> (r: PeppermintManager<B, P>)
        ensures
            r.wf(),
            r@.ids.cursor == 1,
            r@.ids.live == Set::<u64>::empty(),
            r@.tracks == Map::<u64, TrackInfoView>::empty(),
            r@.sent == Seq::<CommandView>::empty(),
            r.spec_buffer_size() == buffer_size,
    {
        let r = PeppermintManager {
            commands,
            ids: IdManager::new(),
            tracks: Vec::new(),
            buffer_size,
            sent: Ghost(Seq::empty()),
        };
        proof {
            assert(track_map(track_info_views(r.tracks@)) =~= Map::<u64, TrackInfoView>::empty());
        }
        r
    }

    /// The invariant of the control side holds of every well-formed manager.
    pub proof fn lemma_wf_invariant(&self)
        requires
            self.wf(),
        ensures
            manager_wf(self@),
    {
    }

    /// Once the engine has applied every command sent so far, starting from
    /// no tracks, its tracks agree with the records: one per record, with the
    /// record's gain and plugin chain in the same order.
    pub proof fn lemma_engine_agrees(&self)
        requires
            self.wf(),
        ensures
            realtime_matches(apply_all(Seq::empty(), self@.sent), self@.tracks),
    {
    }

    pub fn buffer_size(&self) -> (r: usize)
        ensures
            r == self.spec_buffer_size(),
    {
        self.buffer_size
    }

    /// All track records, ascending by identifier.
    pub fn get_tracks(&self) -> (r: Vec<TrackInfo>)
        requires
            self.wf(),
        ensures
            ascending(track_info_views(r@)),
            track_map(track_info_views(r@)) == self@.tracks,
    {
        let mut r: Vec<TrackInfo> = Vec::with_capacity(self.tracks.len());
        let mut i: usize = 0;
        while i < self.tracks.len()
            invariant
                i <= self.tracks.len(),
                r@.len() == i,
                track_info_views(r@) == track_info_views(self.tracks@).take(i as int),
            decreases self.tracks.len() - i,
        {
            let ghost prev = r@;
            let t = self.tracks[i].copy();
            r.push(t);
            proof {
                let full = track_info_views(self.tracks@);
                assert(r@ == prev.push(t));
                assert forall|k: int| 0 <= k <= i implies track_info_views(r@)[k] == full[k] by {
                    if k < i {
                        assert(r@[k] == prev[k]);
                        assert(track_info_views(prev)[k] == full.take(i as int)[k]);
                    }
                }
                assert(track_info_views(r@) =~= full.take(i + 1));
            }
            i += 1;
        }
        proof {
            assert(track_info_views(self.tracks@).take(i as int) =~= track_info_views(self.tracks@));
        }
        r
    }

    /// Position of the record with identifier `id`.
    fn find_track(&self, id: Id) -> (r: Option<usize>)
        requires
            self.wf(),
        ensures
            match r {
                Some(i) => i < self.tracks@.len() && self.tracks@[i as int].id == id
                    && self@.tracks.contains_key(id),
                None => !self@.tracks.contains_key(id),
            },
    {
        let mut i: usize = 0;
        while i < self.tracks.len()
            invariant
                self.wf(),
                i <= self.tracks.len(),
                forall|k: int| 0 <= k < i ==> self.tracks@[k].id != id,
            decreases self.tracks.len() - i,
        {
            if self.tracks[i].id == id {
                proof {
                    lemma_track_map_at(track_info_views(self.tracks@), i as int);
                }
                return Some(i);
            }
            i += 1;
        }
        proof {
            let s = track_info_views(self.tracks@);
            if lists_track(s, id) {
                let k = choose|k: int| 0 <= k < s.len() && s[k].id == id;
                assert(self.tracks@[k].id == id);
            }
        }
        None
    }

    /// Creates a track, with the identifier `track_id` or, when it is zero,
    /// with the next free one. An empty `name` gives the default name. The
    /// realtime track, holding `buffers`, is sent to the engine.
    ///
    /// Fails with `AlreadyExists`, changing nothing, when `track_id` is in
    /// use; with `Internal` when no automatic identifier is left or the queue
    /// is full, leaving the records and the identifiers in use as they were.
    pub fn create_track(&mut self, track_id: Id, name: String, buffers: B) -> (r: Result<
        TrackInfo,
        ManagerError,
    >)
        requires
            old(self).wf(),
        ensures
            final(self).wf(),
            final(self).spec_buffer_size() == old(self).spec_buffer_size(),
            final(self)@.ids.cursor >= old(self)@.ids.cursor,
            track_id != 0 && old(self)@.ids.live.contains(track_id) <==> r == Err::<
                TrackInfo,
                ManagerError,
            >(ManagerError::AlreadyExists),
            r == Err::<TrackInfo, ManagerError>(ManagerError::AlreadyExists) ==> final(self)@ == old(
                self,
            )@,
            track_id == 0 && (forall|x: u64|
                old(self)@.ids.cursor <= x < u64::MAX ==> old(self)@.ids.live.contains(x)) ==> r
                == Err::<TrackInfo, ManagerError>(ManagerError::Internal) && final(self)@ == old(
                self,
            )@,
            r is Err ==> r == Err::<TrackInfo, ManagerError>(ManagerError::AlreadyExists) || r
                == Err::<TrackInfo, ManagerError>(ManagerError::Internal),
            r is Err ==> final(self)@.tracks == old(self)@.tracks && final(self)@.ids.live == old(
                self,
            )@.ids.live && final(self)@.sent == old(self)@.sent,
            r matches Ok(info) ==> created_track(old(self)@, final(self)@, track_id, name@, info@),
    {
        let id = if track_id == 0 {
            match self.ids.next_id() {
                Some(id) => id,
                None => return Err(ManagerError::Internal),
            }
        } else {
            match self.ids.register_id(track_id) {
                Some(id) => id,
                None => return Err(ManagerError::AlreadyExists),
            }
        };
        let name = if name.as_str().is_empty() {
            default_name(id)
        } else {
            name
        };
        let core_track: Track<B, P> = Track::new(id, buffers);
        let gain = core_track.property(TrackProperty::Gain);
        let command = Command::CreateTrack(core_track);
        let ghost cv = command@;
        if !send(&mut self.commands, command) {
            self.ids.release_id(id);
            proof {
                assert(self@.ids.live =~= old(self)@.ids.live);
            }
            return Err(ManagerError::Internal);
        }
        self.sent = Ghost(self.sent@.push(cv));
        let info = TrackInfo { id, name, gain, plugin_instances: Vec::new() };
        let ghost iv = info@;
        proof {
            assert(info@.plugin_instances =~= Seq::<PluginInstanceInfoView>::empty());
        }
        let reply = info.copy();
        let mut k: usize = 0;
        while k < self.tracks.len() && self.tracks[k].id < id
            invariant
                k <= self.tracks.len(),
                forall|j: int| 0 <= j < k ==> self.tracks@[j].id < id,
            decreases self.tracks.len() - k,
        {
            k += 1;
        }
        let ghost before = track_info_views(self.tracks@);
        proof {
            // The new identifier was free, so no record has it.
            assert(!old(self)@.tracks.contains_key(id));
            assert forall|j: int| k <= j < before.len() implies before[j].id > id by {
                lemma_track_map_at(before, j);
                assert(before[k as int].id >= id);
                if j > k {
                    assert(before[k as int].id < before[j].id);
                }
                assert(before[k as int].id != id) by {
                    lemma_track_map_at(before, k as int);
                }
            }
        }
        self.tracks.insert(k, info);
        proof {
            let after = track_info_views(self.tracks@);
            assert(after =~= before.insert(k as int, iv));
            assert(ascending(after)) by {
                assert forall|a: int, b: int| 0 <= a < b < after.len() implies after[a].id
                    < after[b].id by {
                    if b < k {
                    } else if a < k && b == k {
                    } else if a < k {
                        assert(after[b] == before[b - 1]);
                    } else if a == k {
                        assert(after[b] == before[b - 1]);
                    } else {
                        assert(after[a] == before[a - 1]);
                        assert(after[b] == before[b - 1]);
                    }
                }
            }
            lemma_track_map_insert(before, k as int, iv);
            lemma_insert_fresh_track(old(self)@.tracks, self@.ids.live, old(self)@.ids.live, iv);
            assert(self@.sent.drop_last() =~= old(self)@.sent);
            lemma_matches_create(apply_all(Seq::empty(), old(self)@.sent), old(self)@.tracks, iv);
        }
        Ok(reply)
    }

    /// Deletes the track `track_id` and frees its identifier and those of its
    /// plugin instances, after sending the deletion to the engine.
    ///
    /// Fails with `NotFound` when there is no such track, and with `Internal`
    /// when the queue is full; either way nothing changes.
    pub fn delete_track(&mut self, track_id: Id) -> (r: Result<(), ManagerError>)
        requires
            old(self).wf(),
        ensures
            final(self).wf(),
            final(self).spec_buffer_size() == old(self).spec_buffer_size(),
            final(self)@.ids.cursor >= old(self)@.ids.cursor,
            !old(self)@.tracks.contains_key(track_id) <==> r == Err::<(), ManagerError>(
                ManagerError::NotFound,
            ),
            r is Err ==> final(self)@ == old(self)@,
            r is Err ==> r == Err::<(), ManagerError>(ManagerError::NotFound) || r == Err::<
                (),
                ManagerError,
            >(ManagerError::Internal),
            r is Ok ==> deleted_track(old(self)@, final(self)@, track_id),
    {
        let idx = match self.find_track(track_id) {
            Some(i) => i,
            None => return Err(ManagerError::NotFound),
        };
        if !send(&mut self.commands, Command::DeleteTrack(track_id)) {
            return Err(ManagerError::Internal);
        }
        self.sent = Ghost(self.sent@.push(CommandView::DeleteTrack(track_id)));
        let ghost before = track_info_views(self.tracks@);
        let removed = self.tracks.remove(idx);
        let ghost t = removed@;
        proof {
            assert(track_info_views(self.tracks@) =~= before.remove(idx as int));
            lemma_track_map_remove(before, idx as int);
            lemma_track_map_at(before, idx as int);
            assert(t == old(self)@.tracks[track_id]);
        }
        self.ids.release_id(track_id);
        let ghost kept = self.tracks@;
        let mut j: usize = 0;
        while j < removed.plugin_instances.len()
            invariant
                self.ids.wf(),
                self.sent@ == old(self)@.sent.push(CommandView::DeleteTrack(track_id)),
                self.tracks@ == kept,
                self.buffer_size == old(self).buffer_size,
                ascending(track_info_views(kept)),
                track_map(track_info_views(kept)) == old(self)@.tracks.remove(track_id),
                j <= removed.plugin_instances.len(),
                t == removed@,
                self@.ids.cursor == old(self)@.ids.cursor,
                forall|x: u64|
                    #[trigger] self@.ids.live.contains(x) <==> old(self)@.ids.live.contains(x)
                        && x != track_id && !(exists|i: int|
                        0 <= i < j && #[trigger] t.plugin_instances[i].id == x),
            decreases removed.plugin_instances.len() - j,
        {
            let ghost live = self@.ids.live;
            let pid = removed.plugin_instances[j].id;
            self.ids.release_id(pid);
            proof {
                assert(t.plugin_instances[j as int].id == pid);
                assert forall|x: u64|
                    #[trigger] self@.ids.live.contains(x) <==> old(self)@.ids.live.contains(x)
                        && x != track_id && !(exists|i: int|
                        0 <= i < j + 1 && #[trigger] t.plugin_instances[i].id == x) by {
                    if exists|i: int| 0 <= i < j + 1 && #[trigger] t.plugin_instances[i].id == x {
                        let i = choose|i: int| 0 <= i < j + 1 && #[trigger] t.plugin_instances[i].id == x;
                        if i < j {
                            assert(!live.contains(x));
                        }
                    } else {
                        assert(!(exists|i: int| 0 <= i < j && #[trigger] t.plugin_instances[i].id == x)) by {
                            if exists|i: int| 0 <= i < j && #[trigger] t.plugin_instances[i].id == x {
                                let i = choose|i: int| 0 <= i < j && #[trigger] t.plugin_instances[i].id == x;
                                assert(0 <= i < j + 1);
                            }
                        }
                    }
                }
            }
            j += 1;
        }
        proof {
            assert(self@.ids.live =~= old(self)@.ids.live.difference(ids_of_track(t)));
            lemma_remove_track(old(self)@, track_id);
            assert(self@.sent.drop_last() =~= old(self)@.sent);
            lemma_matches_delete(apply_all(Seq::empty(), old(self)@.sent), old(self)@.tracks, track_id);
        }
        Ok(())
    }

    /// Renames the track `track_id` (unless `name` is empty) and applies the
    /// property updates in order, sending each gain change to the engine
    /// before recording it. Updates with an unknown property are skipped.
    ///
    /// Fails with `NotFound`, changing nothing, when there is no such track;
    /// with `Internal` when the queue is full, after the updates before the
    /// failing one have taken effect.
    pub fn update_track(
        &mut self,
        track_id: Id,
        name: String,
        updates: &Vec<TrackPropertyUpdate>,
    ) -> (r: Result<(), ManagerError>)
        requires
            old(self).wf(),
        ensures
            final(self).wf(),
            final(self).spec_buffer_size() == old(self).spec_buffer_size(),
            final(self)@.ids.cursor >= old(self)@.ids.cursor,
            final(self)@.ids == old(self)@.ids,
            !old(self)@.tracks.contains_key(track_id) <==> r == Err::<(), ManagerError>(
                ManagerError::NotFound,
            ),
            r == Err::<(), ManagerError>(ManagerError::NotFound) ==> final(self)@ == old(self)@,
            r is Ok ==> final(self)@.sent == old(self)@.sent + gain_commands(track_id, updates@),
            r is Err ==> r == Err::<(), ManagerError>(ManagerError::NotFound) || r == Err::<
                (),
                ManagerError,
            >(ManagerError::Internal),
            r is Ok ==> final(self)@.tracks == old(self)@.tracks.insert(
                track_id,
                updated_track(old(self)@.tracks[track_id], name@, updates@),
            ),
            r == Err::<(), ManagerError>(ManagerError::Internal) ==> exists|n: int|
                0 <= n < updates@.len() && updates@[n].property == GAIN_PROPERTY && final(self)@.tracks
                    == old(self)@.tracks.insert(
                    track_id,
                    updated_track(old(self)@.tracks[track_id], name@, updates@.take(n)),
                ) && final(self)@.sent == old(self)@.sent + gain_commands(
                    track_id,
                    updates@.take(n),
                ),
    {
        let idx = match self.find_track(track_id) {
            Some(i) => i,
            None => return Err(ManagerError::NotFound),
        };
        let ghost base = track_info_views(self.tracks@);
        let ghost t0 = base[idx as int];
        proof {
            lemma_track_map_at(base, idx as int);
        }
        if !name.as_str().is_empty() {
            self.tracks[idx].name = name;
        }
        let ghost named = track_info_views(self.tracks@);
        proof {
            assert(named =~= base.update(idx as int, updated_track(t0, name@, updates@.take(0))));
            assert(old(self)@.sent + gain_commands(track_id, updates@.take(0)) =~= old(self)@.sent);
            lemma_matches_rename(
                apply_all(Seq::empty(), old(self)@.sent),
                old(self)@.tracks,
                updated_track(t0, name@, updates@.take(0)),
            );
        }
        let mut i: usize = 0;
        while i < updates.len()
            invariant
                i <= updates.len(),
                idx < self.tracks@.len(),
                idx < base.len(),
                t0 == base[idx as int],
                t0.id == track_id,
                manager_wf(old(self)@),
                ascending(base),
                track_map(base) == old(self)@.tracks,
                old(self)@.tracks.contains_key(track_id),
                old(self)@.tracks[track_id] == t0,
                self.ids == old(self).ids,
                self.buffer_size == old(self).buffer_size,
                self.sent@ == old(self)@.sent + gain_commands(track_id, updates@.take(i as int)),
                realtime_matches(
                    apply_all(Seq::empty(), self.sent@),
                    old(self)@.tracks.insert(track_id, updated_track(t0, name@, updates@.take(i as int))),
                ),
                track_info_views(self.tracks@) == base.update(
                    idx as int,
                    updated_track(t0, name@, updates@.take(i as int)),
                ),
            decreases updates.len() - i,
        {
            let u = updates[i];
            proof {
                assert(updates@.take(i + 1).drop_last() =~= updates@.take(i as int));
                assert(updates@.take(i + 1).last() == u);
            }
            if u.property == GAIN_PROPERTY {
                if !send(&mut self.commands, Command::UpdateTrack(track_id, TrackProperty::Gain, u.value)) {
                    proof {
                        lemma_update_track_wf(old(self)@, base, idx as int, updated_track(t0, name@, updates@.take(i as int)));
                    }
                    return Err(ManagerError::Internal);
                }
                let ghost sent_before = self.sent@;
                self.sent = Ghost(self.sent@.push(CommandView::UpdateTrack(track_id, TrackProperty::Gain, u.value)));
                proof {
                    assert(self.sent@.drop_last() =~= sent_before);
                    let cur = old(self)@.tracks.insert(track_id, updated_track(t0, name@, updates@.take(i as int)));
                    lemma_matches_gain(
                        apply_all(Seq::empty(), sent_before),
                        cur,
                        updated_track(t0, name@, updates@.take(i + 1)),
                        u.value,
                    );
                    assert(cur.insert(track_id, updated_track(t0, name@, updates@.take(i + 1))) =~= old(self)@.tracks.insert(track_id, updated_track(t0, name@, updates@.take(i + 1))));
                    assert(self.sent@ =~= old(self)@.sent + gain_commands(track_id, updates@.take(i + 1)));
                }
                let ghost prev = self.tracks@;
                self.tracks[idx].gain = u.value;
                proof {
                    assert(gain_after(t0.gain, updates@.take(i + 1)) == u.value);
                    assert(self.tracks@[idx as int]@ == TrackInfoView { gain: u.value, ..prev[idx as int]@ });
                    assert(track_info_views(self.tracks@) =~= track_info_views(prev).update(
                        idx as int,
                        TrackInfoView { gain: u.value, ..prev[idx as int]@ },
                    ));
                    assert(track_info_views(prev)[idx as int] == prev[idx as int]@);
                    assert(prev[idx as int]@ == updated_track(t0, name@, updates@.take(i as int)));
                    assert(TrackInfoView { gain: u.value, ..prev[idx as int]@ } == updated_track(
                        t0,
                        name@,
                        updates@.take(i + 1),
                    ));
                }
            } else {
                proof {
                    assert(gain_after(t0.gain, updates@.take(i + 1)) == gain_after(
                        t0.gain,
                        updates@.take(i as int),
                    ));
                }
            }
            proof {
                assert(track_info_views(self.tracks@) =~= base.update(
                    idx as int,
                    updated_track(t0, name@, updates@.take(i + 1)),
                ));
            }
            i += 1;
        }
        proof {
            assert(updates@.take(i as int) =~= updates@);
            lemma_update_track_wf(old(self)@, base, idx as int, updated_track(t0, name@, updates@));
        }
        Ok(())
    }

    /// Adds a plugin instance, with the next free identifier, at the end of
    /// the chain of track `track_id`, after sending the instance to the
    /// engine. `plugin` is what the plugin host made of the request for
    /// `plugin_id`. Returns the new instance's identifier.
    ///
    /// Fails with `NotFound` when the plugin or the track does not exist, and
    /// with `Internal` when instantiation failed, no identifier is left or the
    /// queue is full; the records and the identifiers in use stay as they were.
    pub fn instantiate_plugin(
        &mut self,
        track_id: Id,
        plugin_id: String,
        plugin: Instantiation<P>,
    ) -> (r: Result<Id, ManagerError>)
        requires
            old(self).wf(),
        ensures
            final(self).wf(),
            final(self).spec_buffer_size() == old(self).spec_buffer_size(),
            final(self)@.ids.cursor >= old(self)@.ids.cursor,
            plugin is PluginNotFound ==> r == Err::<Id, ManagerError>(ManagerError::NotFound),
            r == Err::<Id, ManagerError>(ManagerError::NotFound) <==> (plugin is PluginNotFound || (
            plugin is Ready && !old(self)@.tracks.contains_key(track_id))),
            plugin is Failed ==> r == Err::<Id, ManagerError>(ManagerError::Internal),
            plugin is Ready && !old(self)@.tracks.contains_key(track_id) ==> r == Err::<
                Id,
                ManagerError,
            >(ManagerError::NotFound),
            plugin is Ready && (forall|x: u64|
                old(self)@.ids.cursor <= x < u64::MAX ==> old(self)@.ids.live.contains(x)) ==> r
                is Err,
            !(plugin is Ready && old(self)@.tracks.contains_key(track_id)) ==> final(self)@ == old(
                self,
            )@,
            r is Err ==> r == Err::<Id, ManagerError>(ManagerError::NotFound) || r == Err::<
                Id,
                ManagerError,
            >(ManagerError::Internal),
            r is Err ==> final(self)@.tracks == old(self)@.tracks && final(self)@.ids.live == old(
                self,
            )@.ids.live && final(self)@.sent == old(self)@.sent,
            r matches Ok(id) ==> plugin is Ready && instantiated(
                old(self)@,
                final(self)@,
                track_id,
                plugin_id@,
                plugin->Ready_params@,
                id,
            ),
    {
        let (instance, params) = match plugin {
            Instantiation::PluginNotFound => return Err(ManagerError::NotFound),
            Instantiation::Failed => return Err(ManagerError::Internal),
            Instantiation::Ready { instance, params } => (instance, params),
        };
        let idx = match self.find_track(track_id) {
            Some(i) => i,
            None => return Err(ManagerError::NotFound),
        };
        let id = match self.ids.next_id() {
            Some(id) => id,
            None => return Err(ManagerError::Internal),
        };
        let recorded = copy_values(&params);
        let command = Command::PushPluginInstance { id, track: track_id, instance, params };
        let ghost cv = command@;
        if !send(&mut self.commands, command) {
            self.ids.release_id(id);
            proof {
                assert(self@.ids.live =~= old(self)@.ids.live);
            }
            return Err(ManagerError::Internal);
        }
        self.sent = Ghost(self.sent@.push(cv));
        let info = PluginInstanceInfo { id, plugin_id, params: recorded };
        let ghost iv = info@;
        let ghost before = track_info_views(self.tracks@);
        let ghost prev = self.tracks@;
        self.tracks[idx].plugin_instances.push(info);
        proof {
            let t = before[idx as int];
            let t2 = TrackInfoView { plugin_instances: t.plugin_instances.push(iv), ..t };
            assert(self.tracks@[idx as int].plugin_instances@ == prev[idx as int].plugin_instances@.push(info));
            assert(self.tracks@[idx as int]@.plugin_instances =~= t.plugin_instances.push(iv));
            assert(track_info_views(self.tracks@) =~= before.update(idx as int, t2));
            lemma_track_map_at(before, idx as int);
            lemma_track_map_update(before, idx as int, t2);
            lemma_push_instance(old(self)@, track_id, iv, self@.ids);
            assert(self@.sent.drop_last() =~= old(self)@.sent);
            lemma_matches_push(apply_all(Seq::empty(), old(self)@.sent), old(self)@.tracks, track_id, iv);
        }
        Ok(id)
    }

    /// Position of the plugin instance `id`: its track, and its place in the
    /// track's chain.
    fn find_instance(&self, id: Id) -> (r: Option<(usize, usize)>)
        requires
            self.wf(),
        ensures
            match r {
                Some((i, j)) => i < self.tracks@.len() && j
                    < self.tracks@[i as int].plugin_instances@.len()
                    && self.tracks@[i as int].plugin_instances@[j as int].id == id,
                None => !is_instance_id(self@.tracks, id),
            },
    {
        let mut i: usize = 0;
        while i < self.tracks.len()
            invariant
                self.wf(),
                i <= self.tracks.len(),
                forall|a: int, b: int|
                    0 <= a < i && 0 <= b < self.tracks@[a].plugin_instances@.len()
                        ==> #[trigger] self.tracks@[a].plugin_instances@[b].id != id,
            decreases self.tracks.len() - i,
        {
            let mut j: usize = 0;
            while j < self.tracks[i].plugin_instances.len()
                invariant
                    i < self.tracks.len(),
                    j <= self.tracks@[i as int].plugin_instances@.len(),
                    forall|b: int| 0 <= b < j ==> #[trigger] self.tracks@[i as int].plugin_instances@[b].id != id,
                decreases self.tracks[i as int].plugin_instances@.len() - j,
            {
                if self.tracks[i].plugin_instances[j].id == id {
                    return Some((i, j));
                }
                j += 1;
            }
            i += 1;
        }
        proof {
            let s = track_info_views(self.tracks@);
            if is_instance_id(self@.tracks, id) {
                let (k, b) = choose|k: u64, b: int|
                    self@.tracks.contains_key(k) && 0 <= b < self@.tracks[k].plugin_instances.len()
                        && #[trigger] self@.tracks[k].plugin_instances[b].id == id;
                let a = choose|a: int| 0 <= a < s.len() && s[a].id == k;
                lemma_track_map_at(s, a);
                assert(s[a] == self.tracks@[a]@);
                assert(s[a].plugin_instances[b] == self.tracks@[a].plugin_instances@[b]@);
            }
        }
        None
    }

    /// Removes the plugin instance `id` from its track and frees its
    /// identifier, after sending the removal to the engine.
    ///
    /// Fails with `NotFound` when no track holds such an instance, and with
    /// `Internal` when the queue is full; either way nothing changes.
    pub fn delete_plugin_instance(&mut self, id: Id) -> (r: Result<(), ManagerError>)
        requires
            old(self).wf(),
        ensures
            final(self).wf(),
            final(self).spec_buffer_size() == old(self).spec_buffer_size(),
            final(self)@.ids.cursor >= old(self)@.ids.cursor,
            !is_instance_id(old(self)@.tracks, id) <==> r == Err::<(), ManagerError>(
                ManagerError::NotFound,
            ),
            r is Err ==> final(self)@ == old(self)@,
            r is Err ==> r == Err::<(), ManagerError>(ManagerError::NotFound) || r == Err::<
                (),
                ManagerError,
            >(ManagerError::Internal),
            r is Ok ==> deleted_instance(old(self)@, final(self)@, id),
    {
        let (i, j) = match self.find_instance(id) {
            Some(pos) => pos,
            None => return Err(ManagerError::NotFound),
        };
        let ghost before = track_info_views(self.tracks@);
        let ghost prev = self.tracks@;
        proof {
            let t = before[i as int];
            assert(t == prev[i as int]@);
            assert(t.plugin_instances[j as int] == prev[i as int].plugin_instances@[j as int]@);
            lemma_track_map_at(before, i as int);
            assert(old(self)@.tracks[t.id].plugin_instances[j as int].id == id);
            assert(is_instance_id(old(self)@.tracks, id));
        }
        if !send(&mut self.commands, Command::DeletePluginInstance { id }) {
            return Err(ManagerError::Internal);
        }
        self.sent = Ghost(self.sent@.push(CommandView::DeletePluginInstance { id }));
        self.tracks[i].plugin_instances.remove(j);
        self.ids.release_id(id);
        proof {
            let t = before[i as int];
            let t2 = TrackInfoView { plugin_instances: t.plugin_instances.remove(j as int), ..t };
            assert(self.tracks@[i as int].plugin_instances@ == prev[i as int].plugin_instances@.remove(j as int));
            assert(self.tracks@[i as int]@.plugin_instances =~= t.plugin_instances.remove(j as int));
            assert(track_info_views(self.tracks@) =~= before.update(i as int, t2));
            lemma_track_map_update(before, i as int, t2);
            lemma_remove_instance(old(self)@, t.id, j as int);
            assert(self@.sent.drop_last() =~= old(self)@.sent);
            lemma_matches_remove_instance(apply_all(Seq::empty(), old(self)@.sent), old(self)@, t.id, j as int);
        }
        Ok(())
    }
}

} // verus!
