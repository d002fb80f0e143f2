//! The abstract state of the control side, its invariant, and what each
//! operation of [`PeppermintManager`](crate::manager::PeppermintManager) does
//! to it.
use vstd::prelude::*;

use crate::command::CommandView;
use crate::ids::IdsView;
use crate::manager::{TrackPropertyUpdate, GAIN_PROPERTY};
use crate::names::default_track_name;
use crate::records::{
    ascending, lemma_track_map_at, lemma_track_map_update, track_map, PluginInstanceInfoView,
    TrackInfoView,
};
use crate::track::{TrackProperty, TrackView, UNITY_GAIN};

verus! {

/// Abstract state of the control side.
pub ghost struct ManagerView {
    pub ids: IdsView,
    /// The commands handed to the queue so far, oldest first.
    pub sent: Seq<CommandView>,
    /// Track records by identifier.
    pub tracks: Map<u64, TrackInfoView>,
}

/// Whether some track in `tracks` holds a plugin instance with identifier `x`.
pub open spec fn is_instance_id(tracks: Map<u64, TrackInfoView>, x: u64) -> bool {
    exists|k: u64, j: int|
        tracks.contains_key(k) && 0 <= j < tracks[k].plugin_instances.len()
            && #[trigger] tracks[k].plugin_instances[j].id == x
}

/// Whether `x` names a track or a plugin instance of `tracks`.
pub open spec fn id_in_use(tracks: Map<u64, TrackInfoView>, x: u64) -> bool {
    tracks.contains_key(x) || is_instance_id(tracks, x)
}

/// The identifiers that a track record uses: its own and those of its
/// plugin instances.
pub open spec fn ids_of_track(t: TrackInfoView) -> Set<u64> {
    Set::new(
        |x: u64|
            x == t.id || exists|j: int|
                0 <= j < t.plugin_instances.len() && #[trigger] t.plugin_instances[j].id == x,
    )
}

/// The invariant of the control side: records are keyed by their own
/// identifiers, every identifier names at most one track or plugin instance,
/// and the identifiers in use are exactly those of the records.
pub open spec fn manager_wf(v: ManagerView) -> bool {
    &&& v.ids.cursor >= 1
    &&& !v.ids.live.contains(0)
    &&& forall|k: u64| #[trigger] v.tracks.contains_key(k) ==> v.tracks[k].id == k
    &&& forall|x: u64| #[trigger] v.ids.live.contains(x) <==> id_in_use(v.tracks, x)
    &&& forall|k1: u64, j1: int, k2: u64, j2: int|
        v.tracks.contains_key(k1) && v.tracks.contains_key(k2) && 0 <= j1
            < v.tracks[k1].plugin_instances.len() && 0 <= j2 < v.tracks[k2].plugin_instances.len()
            && #[trigger] v.tracks[k1].plugin_instances[j1].id
            == #[trigger] v.tracks[k2].plugin_instances[j2].id ==> k1 == k2 && j1 == j2
    &&& forall|k: u64, j: int|
        v.tracks.contains_key(k) && 0 <= j < v.tracks[k].plugin_instances.len()
            ==> !v.tracks.contains_key(#[trigger] v.tracks[k].plugin_instances[j].id)
}

/// The record of a newly created track.
pub open spec fn new_track_info(id: u64, name: Seq<char>) -> TrackInfoView {
    TrackInfoView {
        id,
        name: if name.len() == 0 { default_track_name(id) } else { name },
        gain: UNITY_GAIN,
        plugin_instances: Seq::empty(),
    }
}

/// What a successful `create_track` did: a record for a previously unused
/// identifier (the requested one, or the next free one at or above the
/// cursor) was added with unity gain and no plugin instances.
pub open spec fn created_track(
    before: ManagerView,
    after: ManagerView,
    track_id: u64,
    name: Seq<char>,
    info: TrackInfoView,
) -> bool {
    &&& !before.ids.live.contains(info.id)
    &&& info.id != 0
    &&& track_id != 0 ==> info.id == track_id && after.ids.cursor == before.ids.cursor
    &&& track_id == 0 ==> {
        &&& before.ids.cursor < u64::MAX && !before.ids.live.contains(before.ids.cursor) ==> info.id
            == before.ids.cursor
        &&& before.ids.cursor <= info.id
        &&& forall|x: u64| before.ids.cursor <= x < info.id ==> before.ids.live.contains(x)
        &&& after.ids.cursor == info.id + 1
    }
    &&& info == new_track_info(info.id, name)
    &&& after.tracks == before.tracks.insert(info.id, info)
    &&& after.ids.live == before.ids.live.insert(info.id)
    &&& after.sent == before.sent.push(
        CommandView::CreateTrack(
            TrackView { id: info.id, gain: UNITY_GAIN, instances: Seq::empty() },
        ),
    )
}

/// The gain after applying `updates`, first to last, to a track of gain `gain`.
pub open spec fn gain_after(gain: u32, updates: Seq<TrackPropertyUpdate>) -> u32
    decreases updates.len(),
{
    if updates.len() == 0 {
        gain
    } else if updates.last().property == GAIN_PROPERTY {
        updates.last().value
    } else {
        gain_after(gain, updates.drop_last())
    }
}

/// The commands that `updates`, first to last, send for track `id`: one gain
/// change for each update of the gain.
pub open spec fn gain_commands(id: u64, updates: Seq<TrackPropertyUpdate>) -> Seq<CommandView>
    decreases updates.len(),
{
    if updates.len() == 0 {
        Seq::empty()
    } else {
        let rest = gain_commands(id, updates.drop_last());
        if updates.last().property == GAIN_PROPERTY {
            rest.push(CommandView::UpdateTrack(id, TrackProperty::Gain, updates.last().value))
        } else {
            rest
        }
    }
}

/// A track record after `update_track` with `name` and `updates`.
pub open spec fn updated_track(
    t: TrackInfoView,
    name: Seq<char>,
    updates: Seq<TrackPropertyUpdate>,
) -> TrackInfoView {
    TrackInfoView {
        name: if name.len() == 0 { t.name } else { name },
        gain: gain_after(t.gain, updates),
        ..t
    }
}

/// Changing the name or gain of a record keeps the invariant.
pub proof fn lemma_update_track_wf(v: ManagerView, s: Seq<TrackInfoView>, k: int, t: TrackInfoView)
    requires
        manager_wf(v),
        ascending(s),
        track_map(s) == v.tracks,
        0 <= k < s.len(),
        t.id == s[k].id,
        t.plugin_instances == s[k].plugin_instances,
    ensures
        ascending(s.update(k, t)),
        track_map(s.update(k, t)) == v.tracks.insert(t.id, t),
        manager_wf(ManagerView { tracks: v.tracks.insert(t.id, t), ..v }),
{
    lemma_track_map_update(s, k, t);
    lemma_track_map_at(s, k);
    let tracks2 = v.tracks.insert(t.id, t);
    assert forall|x: u64| id_in_use(tracks2, x) <==> id_in_use(v.tracks, x) by {
        if is_instance_id(tracks2, x) {
            let (a, j) = choose|a: u64, j: int|
                tracks2.contains_key(a) && 0 <= j < tracks2[a].plugin_instances.len()
                    && #[trigger] tracks2[a].plugin_instances[j].id == x;
            assert(v.tracks[a].plugin_instances[j].id == x);
        }
        if is_instance_id(v.tracks, x) {
            let (a, j) = choose|a: u64, j: int|
                v.tracks.contains_key(a) && 0 <= j < v.tracks[a].plugin_instances.len()
                    && #[trigger] v.tracks[a].plugin_instances[j].id == x;
            assert(tracks2[a].plugin_instances[j].id == x);
        }
    }
    assert forall|a: u64| #[trigger] tracks2.contains_key(a) implies tracks2[a].plugin_instances
        == v.tracks[a].plugin_instances by {}
}

/// What a successful `instantiate_plugin` did: a record for the plugin
/// instance `id`, the next free identifier at or above the cursor, was
/// appended to the chain of track `track_id`.
pub open spec fn instantiated(
    before: ManagerView,
    after: ManagerView,
    track_id: u64,
    plugin_id: Seq<char>,
    params: Seq<u32>,
    id: u64,
) -> bool {
    &&& before.tracks.contains_key(track_id)
    &&& !before.ids.live.contains(id)
    &&& id != 0
    &&& before.ids.cursor < u64::MAX && !before.ids.live.contains(before.ids.cursor) ==> id
        == before.ids.cursor
    &&& before.ids.cursor <= id
    &&& forall|x: u64| before.ids.cursor <= x < id ==> before.ids.live.contains(x)
    &&& after.ids.cursor == id + 1
    &&& after.ids.live == before.ids.live.insert(id)
    &&& after.sent == before.sent.push(
        CommandView::PushPluginInstance { id, track: track_id, params },
    )
    &&& after.tracks == before.tracks.insert(
        track_id,
        TrackInfoView {
            plugin_instances: before.tracks[track_id].plugin_instances.push(
                PluginInstanceInfoView { id, plugin_id, params },
            ),
            ..before.tracks[track_id]
        },
    )
}

/// What a successful `delete_plugin_instance` did: the record of the
/// instance left its track's chain, the rest of the chain kept its order,
/// and its identifier is free again.
pub open spec fn deleted_instance(before: ManagerView, after: ManagerView, id: u64) -> bool {
    &&& exists|k: u64, j: int|
        before.tracks.contains_key(k) && 0 <= j < before.tracks[k].plugin_instances.len()
            && #[trigger] before.tracks[k].plugin_instances[j].id == id && after.tracks
            == before.tracks.insert(
            k,
            TrackInfoView {
                plugin_instances: before.tracks[k].plugin_instances.remove(j),
                ..before.tracks[k]
            },
        )
    &&& after.ids.live == before.ids.live.remove(id)
    &&& after.ids.cursor == before.ids.cursor
    &&& after.sent == before.sent.push(CommandView::DeletePluginInstance { id })
}

/// Appending a plugin instance with a fresh identifier keeps the invariant.
pub proof fn lemma_push_instance(
    v: ManagerView,
    track_id: u64,
    p: PluginInstanceInfoView,
    ids: IdsView,
)
    requires
        manager_wf(v),
        v.tracks.contains_key(track_id),
        !v.ids.live.contains(p.id),
        p.id != 0,
        ids.cursor >= 1,
        ids.live == v.ids.live.insert(p.id),
    ensures
        manager_wf(
            ManagerView {
                ids,
                sent: v.sent,
                tracks: v.tracks.insert(
                    track_id,
                    TrackInfoView {
                        plugin_instances: v.tracks[track_id].plugin_instances.push(p),
                        ..v.tracks[track_id]
                    },
                ),
            },
        ),
{
    let t = v.tracks[track_id];
    let t2 = TrackInfoView { plugin_instances: t.plugin_instances.push(p), ..t };
    let tracks2 = v.tracks.insert(track_id, t2);
    let n = t.plugin_instances.len();
    assert(!id_in_use(v.tracks, p.id));
    assert forall|x: u64| #[trigger] ids.live.contains(x) <==> id_in_use(tracks2, x) by {
        if is_instance_id(tracks2, x) {
            let (k, j) = choose|k: u64, j: int|
                tracks2.contains_key(k) && 0 <= j < tracks2[k].plugin_instances.len()
                    && #[trigger] tracks2[k].plugin_instances[j].id == x;
            if !(k == track_id && j == n) {
                assert(v.tracks[k].plugin_instances[j].id == x);
            }
        }
        if is_instance_id(v.tracks, x) {
            let (k, j) = choose|k: u64, j: int|
                v.tracks.contains_key(k) && 0 <= j < v.tracks[k].plugin_instances.len()
                    && #[trigger] v.tracks[k].plugin_instances[j].id == x;
            assert(tracks2[k].plugin_instances[j].id == x);
        }
        if x == p.id {
            assert(tracks2[track_id].plugin_instances[n as int].id == x);
        }
    }
    assert forall|k1: u64, j1: int, k2: u64, j2: int|
        tracks2.contains_key(k1) && tracks2.contains_key(k2) && 0 <= j1
            < tracks2[k1].plugin_instances.len() && 0 <= j2 < tracks2[k2].plugin_instances.len()
            && #[trigger] tracks2[k1].plugin_instances[j1].id
            == #[trigger] tracks2[k2].plugin_instances[j2].id implies k1 == k2 && j1 == j2 by {
        let x = tracks2[k1].plugin_instances[j1].id;
        if k1 == track_id && j1 == n {
            if !(k2 == track_id && j2 == n) {
                assert(v.tracks[k2].plugin_instances[j2].id == x);
            }
        } else if k2 == track_id && j2 == n {
            assert(v.tracks[k1].plugin_instances[j1].id == x);
        } else {
            assert(v.tracks[k1].plugin_instances[j1].id == x);
            assert(v.tracks[k2].plugin_instances[j2].id == x);
        }
    }
    assert forall|k: u64, j: int|
        tracks2.contains_key(k) && 0 <= j < tracks2[k].plugin_instances.len()
            implies !tracks2.contains_key(#[trigger] tracks2[k].plugin_instances[j].id) by {
        if !(k == track_id && j == n) {
            assert(v.tracks[k].plugin_instances[j].id == tracks2[k].plugin_instances[j].id);
        }
    }
}

/// Removing the plugin instance at position `j` of track `track_id` and
/// freeing its identifier keeps the invariant.
pub proof fn lemma_remove_instance(v: ManagerView, track_id: u64, j: int)
    requires
        manager_wf(v),
        v.tracks.contains_key(track_id),
        0 <= j < v.tracks[track_id].plugin_instances.len(),
    ensures
        manager_wf(
            ManagerView {
                sent: v.sent,
                ids: IdsView {
                    cursor: v.ids.cursor,
                    live: v.ids.live.remove(v.tracks[track_id].plugin_instances[j].id),
                },
                tracks: v.tracks.insert(
                    track_id,
                    TrackInfoView {
                        plugin_instances: v.tracks[track_id].plugin_instances.remove(j),
                        ..v.tracks[track_id]
                    },
                ),
            },
        ),
{
    let t = v.tracks[track_id];
    let pid = t.plugin_instances[j].id;
    let t2 = TrackInfoView { plugin_instances: t.plugin_instances.remove(j), ..t };
    let tracks2 = v.tracks.insert(track_id, t2);
    let live2 = v.ids.live.remove(pid);
    // Position in the old chain of each position in the new one.
    assert forall|k: u64, b: int|
        tracks2.contains_key(k) && 0 <= b < tracks2[k].plugin_instances.len()
            implies #[trigger] tracks2[k].plugin_instances[b] == v.tracks[k].plugin_instances[if k
            == track_id && b >= j { b + 1 } else { b }] by {}
    assert forall|x: u64| #[trigger] live2.contains(x) <==> id_in_use(tracks2, x) by {
        if is_instance_id(tracks2, x) {
            let (k, b) = choose|k: u64, b: int|
                tracks2.contains_key(k) && 0 <= b < tracks2[k].plugin_instances.len()
                    && #[trigger] tracks2[k].plugin_instances[b].id == x;
            let b0 = if k == track_id && b >= j { b + 1 } else { b };
            assert(v.tracks[k].plugin_instances[b0].id == x);
            if x == pid {
                assert(v.tracks[k].plugin_instances[b0].id == v.tracks[track_id].plugin_instances[j].id);
            }
        }
        if tracks2.contains_key(x) {
            assert(x != pid);
        }
        if live2.contains(x) && is_instance_id(v.tracks, x) {
            let (k, b) = choose|k: u64, b: int|
                v.tracks.contains_key(k) && 0 <= b < v.tracks[k].plugin_instances.len()
                    && #[trigger] v.tracks[k].plugin_instances[b].id == x;
            if k == track_id {
                assert(b != j);
                let b2 = if b > j { b - 1 } else { b };
                assert(tracks2[k].plugin_instances[b2].id == x);
            } else {
                assert(tracks2[k].plugin_instances[b].id == x);
            }
        }
    }
    assert forall|k1: u64, j1: int, k2: u64, j2: int|
        tracks2.contains_key(k1) && tracks2.contains_key(k2) && 0 <= j1
            < tracks2[k1].plugin_instances.len() && 0 <= j2 < tracks2[k2].plugin_instances.len()
            && #[trigger] tracks2[k1].plugin_instances[j1].id
            == #[trigger] tracks2[k2].plugin_instances[j2].id implies k1 == k2 && j1 == j2 by {
        let a1 = if k1 == track_id && j1 >= j { j1 + 1 } else { j1 };
        let a2 = if k2 == track_id && j2 >= j { j2 + 1 } else { j2 };
        assert(v.tracks[k1].plugin_instances[a1].id == v.tracks[k2].plugin_instances[a2].id);
    }
    assert forall|k: u64, b: int|
        tracks2.contains_key(k) && 0 <= b < tracks2[k].plugin_instances.len()
            implies !tracks2.contains_key(#[trigger] tracks2[k].plugin_instances[b].id) by {
        let a = if k == track_id && b >= j { b + 1 } else { b };
        assert(v.tracks[k].plugin_instances[a].id == tracks2[k].plugin_instances[b].id);
    }
}

/// What a successful `delete_track` did: the record is gone, and its
/// identifier and those of its plugin instances are free again.
pub open spec fn deleted_track(before: ManagerView, after: ManagerView, track_id: u64) -> bool {
    &&& after.tracks == before.tracks.remove(track_id)
    &&& after.ids.live == before.ids.live.difference(ids_of_track(before.tracks[track_id]))
    &&& after.ids.cursor == before.ids.cursor
    &&& after.sent == before.sent.push(CommandView::DeleteTrack(track_id))
}

/// Removing a record and freeing its identifiers keeps the invariant.
pub proof fn lemma_remove_track(v: ManagerView, track_id: u64)
    requires
        manager_wf(v),
        v.tracks.contains_key(track_id),
    ensures
        manager_wf(
            ManagerView {
                sent: v.sent,
                ids: IdsView {
                    cursor: v.ids.cursor,
                    live: v.ids.live.difference(ids_of_track(v.tracks[track_id])),
                },
                tracks: v.tracks.remove(track_id),
            },
        ),
{
    let t = v.tracks[track_id];
    let tracks2 = v.tracks.remove(track_id);
    let live2 = v.ids.live.difference(ids_of_track(t));
    assert forall|x: u64| #[trigger] live2.contains(x) <==> id_in_use(tracks2, x) by {
        if is_instance_id(tracks2, x) {
            let (k, j) = choose|k: u64, j: int|
                tracks2.contains_key(k) && 0 <= j < tracks2[k].plugin_instances.len()
                    && #[trigger] tracks2[k].plugin_instances[j].id == x;
            assert(is_instance_id(v.tracks, x));
            assert(x != track_id);
            if exists|i: int| 0 <= i < t.plugin_instances.len() && #[trigger] t.plugin_instances[i].id == x {
                let i = choose|i: int| 0 <= i < t.plugin_instances.len() && #[trigger] t.plugin_instances[i].id == x;
                assert(v.tracks[k].plugin_instances[j].id == v.tracks[track_id].plugin_instances[i].id);
            }
        }
        if tracks2.contains_key(x) {
            assert(x != track_id);
            if exists|i: int| 0 <= i < t.plugin_instances.len() && #[trigger] t.plugin_instances[i].id == x {
                let i = choose|i: int| 0 <= i < t.plugin_instances.len() && #[trigger] t.plugin_instances[i].id == x;
                assert(!v.tracks.contains_key(v.tracks[track_id].plugin_instances[i].id));
            }
        }
        if live2.contains(x) {
            assert(v.ids.live.contains(x));
            if is_instance_id(v.tracks, x) {
                let (k, j) = choose|k: u64, j: int|
                    v.tracks.contains_key(k) && 0 <= j < v.tracks[k].plugin_instances.len()
                        && #[trigger] v.tracks[k].plugin_instances[j].id == x;
                if k == track_id {
                    assert(ids_of_track(t).contains(x));
                }
                assert(tracks2[k] == v.tracks[k]);
                assert(is_instance_id(tracks2, x));
            }
        }
    }
}

/// Adding a record with a fresh identifier and no plugin instances keeps the
/// invariant.
pub proof fn lemma_insert_fresh_track(
    tracks: Map<u64, TrackInfoView>,
    live: Set<u64>,
    old_live: Set<u64>,
    t: TrackInfoView,
)
    requires
        forall|k: u64| #[trigger] tracks.contains_key(k) ==> tracks[k].id == k,
        forall|x: u64| #[trigger] old_live.contains(x) <==> id_in_use(tracks, x),
        !old_live.contains(t.id),
        t.plugin_instances.len() == 0,
        live == old_live.insert(t.id),
    ensures
        forall|x: u64| #[trigger] live.contains(x) <==> id_in_use(tracks.insert(t.id, t), x),
{
    let t2 = tracks.insert(t.id, t);
    assert forall|x: u64| #[trigger] live.contains(x) <==> id_in_use(t2, x) by {
        if is_instance_id(t2, x) {
            let (k, j) = choose|k: u64, j: int|
                t2.contains_key(k) && 0 <= j < t2[k].plugin_instances.len()
                    && #[trigger] t2[k].plugin_instances[j].id == x;
            assert(k != t.id);
            assert(is_instance_id(tracks, x));
        }
        if is_instance_id(tracks, x) {
            let (k, j) = choose|k: u64, j: int|
                tracks.contains_key(k) && 0 <= j < tracks[k].plugin_instances.len()
                    && #[trigger] tracks[k].plugin_instances[j].id == x;
            assert(k != t.id);
            assert(t2[k] == tracks[k]);
            assert(is_instance_id(t2, x));
        }
    }
}

/// After a successful `create_track`, the listing that `get_tracks` gives
/// holds the new record, under the identifier that was returned, with unity
/// gain and no plugin instances.
pub proof fn lemma_created_track_is_listed(
    before: ManagerView,
    after: ManagerView,
    track_id: u64,
    name: Seq<char>,
    info: TrackInfoView,
    listing: Seq<TrackInfoView>,
)
    requires
        created_track(before, after, track_id, name, info),
        ascending(listing),
        track_map(listing) == after.tracks,
    ensures
        exists|i: int| 0 <= i < listing.len() && #[trigger] listing[i] == info,
        info.gain == UNITY_GAIN,
        info.plugin_instances.len() == 0,
{
    assert(track_map(listing).contains_key(info.id));
    let i = choose|i: int| 0 <= i < listing.len() && listing[i].id == info.id;
    lemma_track_map_at(listing, i);
    assert(listing[i] == info);
}

/// After a successful `delete_track`, the listing that `get_tracks` gives
/// holds no record with the deleted identifier, and no plugin instance in it
/// has an identifier that the deleted track or its plugin instances used.
pub proof fn lemma_deleted_track_is_gone(
    before: ManagerView,
    after: ManagerView,
    track_id: u64,
    listing: Seq<TrackInfoView>,
)
    requires
        manager_wf(before),
        before.tracks.contains_key(track_id),
        deleted_track(before, after, track_id),
        ascending(listing),
        track_map(listing) == after.tracks,
    ensures
        forall|i: int| 0 <= i < listing.len() ==> #[trigger] listing[i].id != track_id,
        forall|i: int, j: int|
            0 <= i < listing.len() && 0 <= j < listing[i].plugin_instances.len()
                ==> !ids_of_track(before.tracks[track_id]).contains(
                #[trigger] listing[i].plugin_instances[j].id,
            ),
{
    let gone = ids_of_track(before.tracks[track_id]);
    assert forall|i: int| 0 <= i < listing.len() implies #[trigger] listing[i].id != track_id by {
        lemma_track_map_at(listing, i);
    }
    assert forall|i: int, j: int|
        0 <= i < listing.len() && 0 <= j < listing[i].plugin_instances.len() implies !gone.contains(
        #[trigger] listing[i].plugin_instances[j].id,
    ) by {
        lemma_track_map_at(listing, i);
        let k = listing[i].id;
        let x = listing[i].plugin_instances[j].id;
        assert(after.tracks[k] == before.tracks[k]);
        if gone.contains(x) {
            assert(before.tracks[k].plugin_instances[j].id == x);
            assert(id_in_use(before.tracks, x));
            assert(!after.ids.live.contains(x));
            assert(is_instance_id(after.tracks, x));
            assert(id_in_use(after.tracks, x));
            lemma_remove_track(before, track_id);
        }
    }
}

/// The identifier of a track created by `create_track` named nothing in use
/// before: no other track and no plugin instance had it.
pub proof fn lemma_created_id_is_fresh(
    before: ManagerView,
    after: ManagerView,
    track_id: u64,
    name: Seq<char>,
    info: TrackInfoView,
)
    requires
        manager_wf(before),
        created_track(before, after, track_id, name, info),
    ensures
        !id_in_use(before.tracks, info.id),
{
}

/// The identifier of a plugin instance added by `instantiate_plugin` named
/// nothing in use before: no track and no other plugin instance had it.
pub proof fn lemma_instance_id_is_fresh(
    before: ManagerView,
    after: ManagerView,
    track_id: u64,
    plugin_id: Seq<char>,
    params: Seq<u32>,
    id: u64,
)
    requires
        manager_wf(before),
        instantiated(before, after, track_id, plugin_id, params, id),
    ensures
        !id_in_use(before.tracks, id),
{
}

/// Automatic identifiers never repeat: `id1`, handed out leaving the cursor
/// at `first_after`, is smaller than `id2`, handed out later from state
/// `later`, because the cursor never moves backwards and each automatic
/// identifier lies at or above it.
pub proof fn lemma_automatic_ids_increase(
    first_after: ManagerView,
    later: ManagerView,
    id1: u64,
    id2: u64,
)
    requires
        first_after.ids.cursor == id1 + 1,
        first_after.ids.cursor <= later.ids.cursor,
        later.ids.cursor <= id2,
    ensures
        id1 < id2,
{
}

} // verus!
