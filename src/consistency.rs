//! How the realtime track list that the sent commands build relates to the
//! control side's records.
use vstd::prelude::*;

use crate::command::{
    apply, first_track, has_track, is_first_track, lemma_first_track_exists,
    lemma_without_track_members, without_track, CommandView,
};
use crate::control::{manager_wf, ManagerView};
use crate::records::{PluginInstanceInfoView, TrackInfoView};
use crate::track::{
    is_first_instance, lemma_first_instance_unique, remove_instance, InstanceView, TrackProperty,
    TrackView, UNITY_GAIN,
};

verus! {

/// No two tracks of `rt` share an identifier.
pub open spec fn unique_track_ids(rt: Seq<TrackView>) -> bool {
    forall|a: int, b: int| 0 <= a < rt.len() && 0 <= b < rt.len() && a != b ==> rt[a].id != rt[b].id
}

/// A realtime track agrees with its record: same gain, and the same plugin
/// instances, with the same control values, in the same order.
pub open spec fn chain_matches(t: TrackView, r: TrackInfoView) -> bool {
    &&& t.gain == r.gain
    &&& t.instances.len() == r.plugin_instances.len()
    &&& forall|j: int|
        0 <= j < t.instances.len() ==> (#[trigger] t.instances[j]).id == r.plugin_instances[j].id
            && t.instances[j].params == r.plugin_instances[j].params
}

/// The realtime tracks `rt` and the records `tracks` describe the same
/// tracks: one realtime track per record, each agreeing with its record.
pub open spec fn realtime_matches(rt: Seq<TrackView>, tracks: Map<u64, TrackInfoView>) -> bool {
    &&& unique_track_ids(rt)
    &&& forall|i: int|
        0 <= i < rt.len() ==> tracks.contains_key(#[trigger] rt[i].id) && chain_matches(
            rt[i],
            tracks[rt[i].id],
        )
    &&& forall|k: u64| #[trigger] tracks.contains_key(k) ==> has_track(rt, k)
}

/// Adding a record with a fresh identifier goes with appending its track.
pub proof fn lemma_matches_create(rt: Seq<TrackView>, tracks: Map<u64, TrackInfoView>, r: TrackInfoView)
    requires
        realtime_matches(rt, tracks),
        !tracks.contains_key(r.id),
        r.gain == UNITY_GAIN,
        r.plugin_instances.len() == 0,
    ensures
        realtime_matches(
            apply(rt, CommandView::CreateTrack(TrackView { id: r.id, gain: UNITY_GAIN, instances: Seq::empty() })),
            tracks.insert(r.id, r),
        ),
{
    let t = TrackView { id: r.id, gain: UNITY_GAIN, instances: Seq::empty() };
    let rt2 = rt.push(t);
    let tracks2 = tracks.insert(r.id, r);
    assert forall|i: int| 0 <= i < rt.len() implies rt[i].id != r.id by {
        assert(tracks.contains_key(rt[i].id));
    }
    assert forall|i: int| 0 <= i < rt2.len() implies tracks2.contains_key(#[trigger] rt2[i].id)
        && chain_matches(rt2[i], tracks2[rt2[i].id]) by {
        if i < rt.len() {
            assert(rt2[i] == rt[i]);
            assert(tracks.contains_key(rt[i].id));
        }
    }
    assert forall|k: u64| #[trigger] tracks2.contains_key(k) implies has_track(rt2, k) by {
        if k == r.id {
            assert(rt2[rt.len() as int].id == k);
        } else {
            let i = choose|i: int| 0 <= i < rt.len() && rt[i].id == k;
            assert(rt2[i].id == k);
        }
    }
}

/// Removing a record goes with removing its track.
pub proof fn lemma_matches_delete(rt: Seq<TrackView>, tracks: Map<u64, TrackInfoView>, id: u64)
    requires
        realtime_matches(rt, tracks),
    ensures
        realtime_matches(apply(rt, CommandView::DeleteTrack(id)), tracks.remove(id)),
{
    let w = without_track(rt, id);
    let tracks2 = tracks.remove(id);
    lemma_without_track_members(rt, id);
    assert forall|i: int| 0 <= i < w.len() implies tracks2.contains_key(#[trigger] w[i].id)
        && chain_matches(w[i], tracks2[w[i].id]) by {
        let k = choose|k: int| 0 <= k < rt.len() && rt[k] == w[i];
        assert(tracks.contains_key(rt[k].id));
    }
    assert forall|k: u64| #[trigger] tracks2.contains_key(k) implies has_track(w, k) by {
        assert(has_track(rt, k));
        let i = choose|i: int| 0 <= i < rt.len() && rt[i].id == k;
        assert(w.contains(rt[i]));
        let j = choose|j: int| 0 <= j < w.len() && w[j] == rt[i];
        assert(w[j].id == k);
    }
}

/// In agreeing states, the first realtime track with a record's identifier
/// is the only one.
proof fn lemma_matches_first(rt: Seq<TrackView>, tracks: Map<u64, TrackInfoView>, id: u64)
    requires
        realtime_matches(rt, tracks),
        tracks.contains_key(id),
    ensures
        is_first_track(rt, id, first_track(rt, id)),
        forall|i: int| 0 <= i < rt.len() && rt[i].id == id ==> i == first_track(rt, id),
{
    lemma_first_track_exists(rt, id);
}

/// Replacing a record by one with the same plugin chain, when the realtime
/// track gets `t`'s gain, keeps the agreement.
proof fn lemma_matches_replace(
    rt: Seq<TrackView>,
    tracks: Map<u64, TrackInfoView>,
    f: int,
    t: TrackView,
    r: TrackInfoView,
)
    requires
        realtime_matches(rt, tracks),
        0 <= f < rt.len(),
        t.id == rt[f].id,
        r.id == t.id,
        chain_matches(t, r),
    ensures
        realtime_matches(rt.update(f, t), tracks.insert(t.id, r)),
{
    let rt2 = rt.update(f, t);
    let tracks2 = tracks.insert(t.id, r);
    assert forall|i: int| 0 <= i < rt2.len() implies tracks2.contains_key(#[trigger] rt2[i].id)
        && chain_matches(rt2[i], tracks2[rt2[i].id]) by {
        if i != f {
            assert(rt2[i] == rt[i]);
            assert(tracks.contains_key(rt[i].id));
            assert(rt[i].id != rt[f].id);
        }
    }
    assert forall|k: u64| #[trigger] tracks2.contains_key(k) implies has_track(rt2, k) by {
        if k == t.id {
            assert(rt2[f].id == k);
        } else {
            let i = choose|i: int| 0 <= i < rt.len() && rt[i].id == k;
            assert(rt2[i].id == k);
        }
    }
}

/// A record change that leaves gain and plugin chain alone keeps the agreement.
pub proof fn lemma_matches_rename(rt: Seq<TrackView>, tracks: Map<u64, TrackInfoView>, r: TrackInfoView)
    requires
        realtime_matches(rt, tracks),
        tracks.contains_key(r.id),
        r.gain == tracks[r.id].gain,
        r.plugin_instances == tracks[r.id].plugin_instances,
    ensures
        realtime_matches(rt, tracks.insert(r.id, r)),
{
    lemma_matches_first(rt, tracks, r.id);
    let f = first_track(rt, r.id);
    assert(tracks.contains_key(rt[f].id));
    lemma_matches_replace(rt, tracks, f, rt[f], r);
    assert(rt.update(f, rt[f]) =~= rt);
}

/// A gain change of a record goes with the same change of its track.
pub proof fn lemma_matches_gain(
    rt: Seq<TrackView>,
    tracks: Map<u64, TrackInfoView>,
    r: TrackInfoView,
    gain: u32,
)
    requires
        realtime_matches(rt, tracks),
        tracks.contains_key(r.id),
        r.gain == gain,
        r.plugin_instances == tracks[r.id].plugin_instances,
    ensures
        realtime_matches(
            apply(rt, CommandView::UpdateTrack(r.id, TrackProperty::Gain, gain)),
            tracks.insert(r.id, r),
        ),
{
    lemma_matches_first(rt, tracks, r.id);
    let f = first_track(rt, r.id);
    assert(tracks.contains_key(rt[f].id));
    lemma_matches_replace(rt, tracks, f, TrackView { gain, ..rt[f] }, r);
}

/// Appending a plugin instance record goes with appending the instance to
/// the track's chain.
pub proof fn lemma_matches_push(
    rt: Seq<TrackView>,
    tracks: Map<u64, TrackInfoView>,
    track: u64,
    p: PluginInstanceInfoView,
)
    requires
        realtime_matches(rt, tracks),
        tracks.contains_key(track),
        tracks[track].id == track,
    ensures
        realtime_matches(
            apply(rt, CommandView::PushPluginInstance { id: p.id, track, params: p.params }),
            tracks.insert(
                track,
                TrackInfoView {
                    plugin_instances: tracks[track].plugin_instances.push(p),
                    ..tracks[track]
                },
            ),
        ),
{
    lemma_matches_first(rt, tracks, track);
    let f = first_track(rt, track);
    assert(tracks.contains_key(rt[f].id));
    let t = TrackView {
        instances: rt[f].instances.push(InstanceView { id: p.id, params: p.params }),
        ..rt[f]
    };
    let r = TrackInfoView {
        plugin_instances: tracks[track].plugin_instances.push(p),
        ..tracks[track]
    };
    assert(chain_matches(t, r)) by {
        assert forall|j: int| 0 <= j < t.instances.len() implies (#[trigger] t.instances[j]).id
            == r.plugin_instances[j].id && t.instances[j].params == r.plugin_instances[j].params by {
            if j < rt[f].instances.len() {
                assert(t.instances[j] == rt[f].instances[j]);
            }
        }
    }
    lemma_matches_replace(rt, tracks, f, t, r);
}

/// Removing the plugin instance record at position `j` of track `k` goes with
/// removing that instance from every realtime chain, which only the track
/// `k` holds.
pub proof fn lemma_matches_remove_instance(rt: Seq<TrackView>, v: ManagerView, k: u64, j: int)
    requires
        manager_wf(v),
        realtime_matches(rt, v.tracks),
        v.tracks.contains_key(k),
        0 <= j < v.tracks[k].plugin_instances.len(),
    ensures
        realtime_matches(
            apply(rt, CommandView::DeletePluginInstance { id: v.tracks[k].plugin_instances[j].id }),
            v.tracks.insert(
                k,
                TrackInfoView {
                    plugin_instances: v.tracks[k].plugin_instances.remove(j),
                    ..v.tracks[k]
                },
            ),
        ),
{
    let id = v.tracks[k].plugin_instances[j].id;
    let g = |t: TrackView| TrackView { instances: remove_instance(t.instances, id), ..t };
    let rt2 = rt.map_values(g);
    let r2 = TrackInfoView {
        plugin_instances: v.tracks[k].plugin_instances.remove(j),
        ..v.tracks[k]
    };
    let tracks2 = v.tracks.insert(k, r2);
    assert forall|i: int| 0 <= i < rt.len() implies #[trigger] rt2[i] == g(rt[i]) && tracks2.contains_key(
        rt2[i].id,
    ) && chain_matches(rt2[i], tracks2[rt2[i].id]) by {
        let t = rt[i];
        assert(v.tracks.contains_key(t.id));
        let rec = v.tracks[t.id];
        if t.id == k {
            assert(is_first_instance(t.instances, id, j)) by {
                assert(t.instances[j].id == id);
                assert forall|b: int| 0 <= b < j implies t.instances[b].id != id by {
                    assert(t.instances[b].id == rec.plugin_instances[b].id);
                }
            }
            let c = choose|c: int| is_first_instance(t.instances, id, c);
            lemma_first_instance_unique(t.instances, id, j, c);
            assert(g(t).instances == t.instances.remove(j));
            assert forall|b: int| 0 <= b < g(t).instances.len() implies (#[trigger] g(
                t,
            ).instances[b]).id == r2.plugin_instances[b].id && g(t).instances[b].params
                == r2.plugin_instances[b].params by {
                if b < j {
                    assert(g(t).instances[b] == t.instances[b]);
                } else {
                    assert(g(t).instances[b] == t.instances[b + 1]);
                }
            }
        } else {
            assert(!exists|c: int| is_first_instance(t.instances, id, c)) by {
                if exists|c: int| is_first_instance(t.instances, id, c) {
                    let c = choose|c: int| is_first_instance(t.instances, id, c);
                    assert(t.instances[c].id == rec.plugin_instances[c].id);
                    assert(v.tracks[t.id].plugin_instances[c].id == v.tracks[k].plugin_instances[j].id);
                }
            }
            assert(g(t) == t);
        }
    }
    assert forall|q: u64| #[trigger] tracks2.contains_key(q) implies has_track(rt2, q) by {
        assert(has_track(rt, q));
        let i = choose|i: int| 0 <= i < rt.len() && rt[i].id == q;
        assert(rt2[i] == g(rt[i]));
        assert(rt2[i].id == q);
    }
}

} // verus!
