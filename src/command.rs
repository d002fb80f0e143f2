use vstd::prelude::*;

use crate::track::{
    is_first_instance, remove_instance, InstanceView, Track, TrackProperty, TrackView,
};
use crate::Id;

verus! {

/// A change sent from the control side to the realtime side.
pub enum Command<B, P> {
    /// Append this track to the track list.
    CreateTrack(Track<B, P>),
    /// Remove every track with this identifier, with its plugin instances.
    DeleteTrack(Id),
    /// Set a property of the first track with this identifier.
    UpdateTrack(Id, TrackProperty, u32),
    /// Append a plugin instance to the first track with identifier `track`.
    PushPluginInstance { id: Id, track: Id, instance: P, params: Vec<u32> },
    /// Remove the plugin instance with this identifier from every track.
    DeletePluginInstance { id: Id },
}

/// Abstract form of a [`Command`]: what it does to the realtime state.
pub ghost enum CommandView {
    CreateTrack(TrackView),
    DeleteTrack(u64),
    UpdateTrack(u64, TrackProperty, u32),
    PushPluginInstance { id: u64, track: u64, params: Seq<u32> },
    DeletePluginInstance { id: u64 },
}

impl<B, P> View for Command<B, P> {
    type V = CommandView;

    open spec fn view(&self) -> CommandView {
        match self {
            Command::CreateTrack(t) => CommandView::CreateTrack(t@),
            Command::DeleteTrack(id) => CommandView::DeleteTrack(*id),
            Command::UpdateTrack(id, p, v) => CommandView::UpdateTrack(*id, *p, *v),
            Command::PushPluginInstance { id, track, params, .. } => {
                CommandView::PushPluginInstance { id: *id, track: *track, params: params@ }
            },
            Command::DeletePluginInstance { id } => CommandView::DeletePluginInstance { id: *id },
        }
    }
}

/// Whether `i` is the position of the first track with identifier `id`.
pub open spec fn is_first_track(s: Seq<TrackView>, id: u64, i: int) -> bool {
    &&& 0 <= i < s.len()
    &&& s[i].id == id
    &&& forall|k: int| 0 <= k < i ==> s[k].id != id
}

/// Whether some track in `s` has identifier `id`.
pub open spec fn has_track(s: Seq<TrackView>, id: u64) -> bool {
    exists|i: int| 0 <= i < s.len() && s[i].id == id
}

/// Position of the first track with identifier `id` (meaningful when there is one).
pub open spec fn first_track(s: Seq<TrackView>, id: u64) -> int {
    choose|i: int| is_first_track(s, id, i)
}

/// The tracks of `s` whose identifier is not `id`, in order.
pub open spec fn without_track(s: Seq<TrackView>, id: u64) -> Seq<TrackView>
    decreases s.len(),
{
    if s.len() == 0 {
        s
    } else {
        let rest = without_track(s.subrange(1, s.len() as int), id);
        if s[0].id == id {
            rest
        } else {
            seq![s[0]] + rest
        }
    }
}

/// `s` with `f` applied to its first track with identifier `id`; `s` itself
/// when there is no such track.
pub open spec fn update_first_track(
    s: Seq<TrackView>,
    id: u64,
    f: spec_fn(TrackView) -> TrackView,
) -> Seq<TrackView> {
    if has_track(s, id) {
        s.update(first_track(s, id), f(s[first_track(s, id)]))
    } else {
        s
    }
}

/// The effect of one command on the realtime track list.
pub open spec fn apply(s: Seq<TrackView>, c: CommandView) -> Seq<TrackView> {
    match c {
        CommandView::CreateTrack(t) => s.push(t),
        CommandView::DeleteTrack(id) => without_track(s, id),
        CommandView::UpdateTrack(id, TrackProperty::Gain, v) => update_first_track(
            s,
            id,
            |t: TrackView| TrackView { gain: v, ..t },
        ),
        CommandView::PushPluginInstance { id, track, params } => update_first_track(
            s,
            track,
            |t: TrackView| TrackView {
                instances: t.instances.push(InstanceView { id, params }),
                ..t
            },
        ),
        CommandView::DeletePluginInstance { id } => s.map_values(
            |t: TrackView| TrackView { instances: remove_instance(t.instances, id), ..t },
        ),
    }
}

/// The effect of a sequence of commands, applied first to last.
pub open spec fn apply_all(s: Seq<TrackView>, cs: Seq<CommandView>) -> Seq<TrackView>
    decreases cs.len(),
{
    if cs.len() == 0 {
        s
    } else {
        apply(apply_all(s, cs.drop_last()), cs.last())
    }
}

/// Whether some track of `s` holds a plugin instance with identifier `id`.
pub open spec fn has_instance(s: Seq<TrackView>, id: u64) -> bool {
    exists|i: int, j: int|
        0 <= i < s.len() && 0 <= j < s[i].instances.len() && #[trigger] s[i].instances[j].id == id
}

/// Whether the track or plugin instance that a command is aimed at is absent.
pub open spec fn target_absent(s: Seq<TrackView>, c: CommandView) -> bool {
    match c {
        CommandView::CreateTrack(_) => false,
        CommandView::DeleteTrack(id) => !has_track(s, id),
        CommandView::UpdateTrack(id, _, _) => !has_track(s, id),
        CommandView::PushPluginInstance { track, .. } => !has_track(s, track),
        CommandView::DeletePluginInstance { id } => !has_instance(s, id),
    }
}

/// There is at most one first occurrence.
pub proof fn lemma_first_track_unique(s: Seq<TrackView>, id: u64, a: int, b: int)
    requires
        is_first_track(s, id, a),
        is_first_track(s, id, b),
    ensures
        a == b,
{
}

/// When some track has identifier `id`, a first one exists.
pub proof fn lemma_first_track_exists(s: Seq<TrackView>, id: u64)
    requires
        has_track(s, id),
    ensures
        is_first_track(s, id, first_track(s, id)),
    decreases s.len(),
{
    let i = choose|i: int| 0 <= i < s.len() && s[i].id == id;
    if s[0].id == id {
        assert(is_first_track(s, id, 0));
    } else {
        let t = s.subrange(1, s.len() as int);
        assert(t[i - 1].id == id);
        lemma_first_track_exists(t, id);
        let f = first_track(t, id);
        assert(is_first_track(s, id, f + 1)) by {
            assert forall|k: int| 0 <= k < f + 1 implies s[k].id != id by {
                if k > 0 {
                    assert(s[k] == t[k - 1]);
                }
            }
        }
    }
}

/// Without a track with identifier `id`, removing such tracks changes nothing.
pub proof fn lemma_without_absent(s: Seq<TrackView>, id: u64)
    requires
        !has_track(s, id),
    ensures
        without_track(s, id) == s,
    decreases s.len(),
{
    if s.len() > 0 {
        let t = s.subrange(1, s.len() as int);
        assert(!has_track(t, id)) by {
            if has_track(t, id) {
                let i = choose|i: int| 0 <= i < t.len() && t[i].id == id;
                assert(s[i + 1].id == id);
            }
        }
        lemma_without_absent(t, id);
        assert(s =~= seq![s[0]] + t);
    }
}

/// Commands take effect in the order they are applied: applying `first` and
/// then `second` is applying `first` in full, then `second` to the result.
pub proof fn lemma_apply_all_in_order(
    s: Seq<TrackView>,
    first: Seq<CommandView>,
    second: Seq<CommandView>,
)
    ensures
        apply_all(s, first + second) == apply_all(apply_all(s, first), second),
    decreases second.len(),
{
    if second.len() == 0 {
        assert(first + second =~= first);
    } else {
        assert((first + second).drop_last() =~= first + second.drop_last());
        assert((first + second).last() == second.last());
        lemma_apply_all_in_order(s, first, second.drop_last());
    }
}

/// A command aimed at a track or plugin instance that is no longer there
/// changes nothing.
pub proof fn lemma_absent_target_ignored(s: Seq<TrackView>, c: CommandView)
    requires
        target_absent(s, c),
    ensures
        apply(s, c) == s,
{
    match c {
        CommandView::DeleteTrack(id) => {
            lemma_without_absent(s, id);
        },
        CommandView::DeletePluginInstance { id } => {
            let f = |t: TrackView| TrackView { instances: remove_instance(t.instances, id), ..t };
            assert forall|i: int| 0 <= i < s.len() implies f(s[i]) == s[i] by {
                if exists|j: int| is_first_instance(s[i].instances, id, j) {
                    let j = choose|j: int| is_first_instance(s[i].instances, id, j);
                    assert(s[i].instances[j].id == id);
                    assert(has_instance(s, id));
                }
                assert(remove_instance(s[i].instances, id) == s[i].instances);
            }
            assert(s.map_values(f) =~= s);
        },
        _ => {},
    }
}

/// The tracks that `without_track` keeps are exactly those of `s` with
/// another identifier, and distinct identifiers stay distinct.
pub proof fn lemma_without_track_members(s: Seq<TrackView>, id: u64)
    ensures
        forall|i: int|
            0 <= i < without_track(s, id).len() ==> (#[trigger] without_track(s, id)[i]).id != id
                && s.contains(without_track(s, id)[i]),
        forall|j: int| 0 <= j < s.len() && (#[trigger] s[j]).id != id ==> without_track(s, id).contains(s[j]),
        (forall|a: int, b: int| 0 <= a < s.len() && 0 <= b < s.len() && a != b ==> s[a].id != s[b].id)
            ==> (forall|a: int, b: int|
            0 <= a < without_track(s, id).len() && 0 <= b < without_track(s, id).len() && a != b
                ==> without_track(s, id)[a].id != without_track(s, id)[b].id),
    decreases s.len(),
{
    if s.len() > 0 {
        let t = s.subrange(1, s.len() as int);
        let rest = without_track(t, id);
        let w = without_track(s, id);
        lemma_without_track_members(t, id);
        assert forall|i: int| 0 <= i < w.len() implies (#[trigger] w[i]).id != id && s.contains(w[i]) by {
            if s[0].id == id {
                assert(w[i] == rest[i]);
                let k = choose|k: int| 0 <= k < t.len() && t[k] == rest[i];
                assert(s[k + 1] == rest[i]);
            } else if i == 0 {
                assert(w[0] == s[0]);
            } else {
                assert(w[i] == rest[i - 1]);
                let k = choose|k: int| 0 <= k < t.len() && t[k] == rest[i - 1];
                assert(s[k + 1] == rest[i - 1]);
            }
        }
        assert forall|j: int| 0 <= j < s.len() && (#[trigger] s[j]).id != id implies w.contains(s[j]) by {
            if j == 0 {
                assert(w[0] == s[0]);
            } else {
                assert(t[j - 1] == s[j]);
                let k = choose|k: int| 0 <= k < rest.len() && rest[k] == t[j - 1];
                if s[0].id == id {
                    assert(w[k] == s[j]);
                } else {
                    assert(w[k + 1] == s[j]);
                }
            }
        }
        if forall|a: int, b: int| 0 <= a < s.len() && 0 <= b < s.len() && a != b ==> s[a].id != s[b].id {
            assert forall|a: int, b: int| 0 <= a < t.len() && 0 <= b < t.len() && a != b implies t[a].id
                != t[b].id by {
                assert(t[a] == s[a + 1]);
                assert(t[b] == s[b + 1]);
            }
            assert forall|a: int, b: int| 0 <= a < w.len() && 0 <= b < w.len() && a != b implies w[a].id
                != w[b].id by {
                if s[0].id != id {
                    // The kept head differs from every later track.
                    if a == 0 || b == 0 {
                        let o = if a == 0 { b } else { a };
                        assert(w[o] == rest[o - 1]);
                        let k = choose|k: int| 0 <= k < t.len() && t[k] == rest[o - 1];
                        assert(s[k + 1] == rest[o - 1]);
                        assert(w[0] == s[0]);
                    } else {
                        assert(w[a] == rest[a - 1]);
                        assert(w[b] == rest[b - 1]);
                    }
                } else {
                    assert(w[a] == rest[a]);
                    assert(w[b] == rest[b]);
                }
            }
        }
    }
}

} // verus!
