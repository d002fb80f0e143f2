use vstd::prelude::*;

use crate::Id;

verus! {

/// A plugin instance as the control side lists it.
#[derive(Clone, Debug)]
pub struct PluginInstanceInfo {
    pub id: Id,
    /// `"lv2"` followed by the plugin's URI.
    pub plugin_id: String,
    /// Control values in port order, as bit patterns of `f32`s.
    pub params: Vec<u32>,
}

/// A track as the control side lists it.
#[derive(Clone, Debug)]
pub struct TrackInfo {
    pub id: Id,
    pub name: String,
    /// Bit pattern of the `f32` gain.
    pub gain: u32,
    /// Plugin instances in the order they were added.
    pub plugin_instances: Vec<PluginInstanceInfo>,
}

pub ghost struct PluginInstanceInfoView {
    pub id: u64,
    pub plugin_id: Seq<char>,
    pub params: Seq<u32>,
}

pub ghost struct TrackInfoView {
    pub id: u64,
    pub name: Seq<char>,
    pub gain: u32,
    pub plugin_instances: Seq<PluginInstanceInfoView>,
}

impl View for PluginInstanceInfo {
    type V = PluginInstanceInfoView;

    open spec fn view(&self) -> PluginInstanceInfoView {
        PluginInstanceInfoView { id: self.id, plugin_id: self.plugin_id@, params: self.params@ }
    }
}

/// The abstract states of a sequence of plugin instance records.
pub open spec fn instance_info_views(s: Seq<PluginInstanceInfo>) -> Seq<PluginInstanceInfoView> {
    s.map_values(|p: PluginInstanceInfo| p@)
}

impl View for TrackInfo {
    type V = TrackInfoView;

    open spec fn view(&self) -> TrackInfoView {
        TrackInfoView {
            id: self.id,
            name: self.name@,
            gain: self.gain,
            plugin_instances: instance_info_views(self.plugin_instances@),
        }
    }
}

/// The abstract states of a sequence of track records.
pub open spec fn track_info_views(s: Seq<TrackInfo>) -> Seq<TrackInfoView> {
    s.map_values(|t: TrackInfo| t@)
}

/// A copy of a sequence of control values.
pub fn copy_values(v: &Vec<u32>) -> (r: Vec<u32>)
    ensures
        r@ == v@,
{
    let mut r: Vec<u32> = Vec::with_capacity(v.len());
    let mut i: usize = 0;
    while i < v.len()
        invariant
            i <= v.len(),
            r@ == v@.take(i as int),
        decreases v.len() - i,
    {
        r.push(v[i]);
        i += 1;
        proof {
            assert(r@ =~= v@.take(i as int));
        }
    }
    proof {
        assert(v@.take(i as int) =~= v@);
    }
    r
}

impl PluginInstanceInfo {
    /// A record equal to this one.
    pub fn copy(&self) -> (r: PluginInstanceInfo)
        ensures
            r@ == self@,
    {
        PluginInstanceInfo {
            id: self.id,
            plugin_id: self.plugin_id.clone(),
            params: copy_values(&self.params),
        }
    }
}

impl TrackInfo {
    /// A record equal to this one.
    pub fn copy(&self) -> (r: TrackInfo)
        ensures
            r@ == self@,
    {
        let mut instances: Vec<PluginInstanceInfo> = Vec::with_capacity(
            self.plugin_instances.len(),
        );
        let mut i: usize = 0;
        while i < self.plugin_instances.len()
            invariant
                i <= self.plugin_instances.len(),
                instances@.len() == i,
                instance_info_views(instances@) == instance_info_views(
                    self.plugin_instances@,
                ).take(i as int),
            decreases self.plugin_instances.len() - i,
        {
            let ghost prev = instances@;
            let c = self.plugin_instances[i].copy();
            instances.push(c);
            proof {
                let full = instance_info_views(self.plugin_instances@);
                assert(instances@ == prev.push(c));
                assert forall|k: int| 0 <= k <= i implies instance_info_views(instances@)[k]
                    == full[k] by {
                    if k < i {
                        assert(instances@[k] == prev[k]);
                        assert(instance_info_views(prev)[k] == full.take(i as int)[k]);
                    }
                }
                assert(instance_info_views(instances@) =~= full.take(i + 1));
            }
            i += 1;
        }
        proof {
            assert(instance_info_views(self.plugin_instances@).take(i as int) =~= instance_info_views(
                self.plugin_instances@,
            ));
        }
        TrackInfo {
            id: self.id,
            name: self.name.clone(),
            gain: self.gain,
            plugin_instances: instances,
        }
    }
}

/// Track identifiers strictly increase along `s`.
pub open spec fn ascending(s: Seq<TrackInfoView>) -> bool {
    forall|i: int, j: int| 0 <= i < j < s.len() ==> s[i].id < s[j].id
}

/// Whether some record in `s` has identifier `id`.
pub open spec fn lists_track(s: Seq<TrackInfoView>, id: u64) -> bool {
    exists|i: int| 0 <= i < s.len() && s[i].id == id
}

/// The records of `s` keyed by their identifiers.
pub open spec fn track_map(s: Seq<TrackInfoView>) -> Map<u64, TrackInfoView> {
    Map::new(
        |id: u64| lists_track(s, id),
        |id: u64| s[choose|i: int| 0 <= i < s.len() && s[i].id == id],
    )
}

/// In an ascending sequence each record is found under its own identifier.
pub proof fn lemma_track_map_at(s: Seq<TrackInfoView>, k: int)
    requires
        ascending(s),
        0 <= k < s.len(),
    ensures
        track_map(s).contains_key(s[k].id),
        track_map(s)[s[k].id] == s[k],
{
    assert(lists_track(s, s[k].id));
    let c = choose|i: int| 0 <= i < s.len() && s[i].id == s[k].id;
    assert(c == k);
}

/// Inserting a record with a new identifier.
pub proof fn lemma_track_map_insert(s: Seq<TrackInfoView>, k: int, t: TrackInfoView)
    requires
        ascending(s),
        ascending(s.insert(k, t)),
        0 <= k <= s.len(),
        !track_map(s).contains_key(t.id),
    ensures
        track_map(s.insert(k, t)) == track_map(s).insert(t.id, t),
{
    let s2 = s.insert(k, t);
    let m = track_map(s);
    let m2 = track_map(s2);
    assert forall|id: u64| m2.contains_key(id) <==> m.insert(t.id, t).contains_key(id) by {
        if m2.contains_key(id) && id != t.id {
            let i = choose|i: int| 0 <= i < s2.len() && s2[i].id == id;
            if i < k {
                assert(s[i] == s2[i]);
            } else {
                assert(s[i - 1] == s2[i]);
            }
            assert(lists_track(s, id));
        }
        if m.contains_key(id) {
            let i = choose|i: int| 0 <= i < s.len() && s[i].id == id;
            if i < k {
                assert(s2[i] == s[i]);
            } else {
                assert(s2[i + 1] == s[i]);
            }
            assert(lists_track(s2, id));
        }
        if id == t.id {
            assert(s2[k] == t);
        }
    }
    assert forall|id: u64| #[trigger] m2.contains_key(id) implies m2[id] == m.insert(t.id, t)[id] by {
        let i = choose|i: int| 0 <= i < s2.len() && s2[i].id == id;
        lemma_track_map_at(s2, i);
        if i < k {
            assert(s[i] == s2[i]);
            lemma_track_map_at(s, i);
        } else if i > k {
            assert(s[i - 1] == s2[i]);
            lemma_track_map_at(s, i - 1);
        }
    }
    assert(m2 =~= m.insert(t.id, t));
}

/// Removing the record at position `k`.
pub proof fn lemma_track_map_remove(s: Seq<TrackInfoView>, k: int)
    requires
        ascending(s),
        0 <= k < s.len(),
    ensures
        ascending(s.remove(k)),
        track_map(s.remove(k)) == track_map(s).remove(s[k].id),
{
    let s2 = s.remove(k);
    let m = track_map(s);
    let m2 = track_map(s2);
    assert forall|i: int, j: int| 0 <= i < j < s2.len() implies s2[i].id < s2[j].id by {
        let a = if i < k { i } else { i + 1 };
        let b = if j < k { j } else { j + 1 };
        assert(s2[i] == s[a]);
        assert(s2[j] == s[b]);
    }
    assert forall|id: u64| m2.contains_key(id) <==> m.remove(s[k].id).contains_key(id) by {
        if m2.contains_key(id) {
            let i = choose|i: int| 0 <= i < s2.len() && s2[i].id == id;
            let a = if i < k { i } else { i + 1 };
            assert(s2[i] == s[a]);
            assert(lists_track(s, id));
        }
        if m.contains_key(id) && id != s[k].id {
            let i = choose|i: int| 0 <= i < s.len() && s[i].id == id;
            if i < k {
                assert(s2[i] == s[i]);
            } else {
                assert(s2[i - 1] == s[i]);
            }
            assert(lists_track(s2, id));
        }
    }
    assert forall|id: u64| #[trigger] m2.contains_key(id) implies m2[id] == m.remove(s[k].id)[id] by {
        let i = choose|i: int| 0 <= i < s2.len() && s2[i].id == id;
        lemma_track_map_at(s2, i);
        let a = if i < k { i } else { i + 1 };
        assert(s2[i] == s[a]);
        lemma_track_map_at(s, a);
    }
    assert(m2 =~= m.remove(s[k].id));
}

/// Replacing the record at position `k` by one with the same identifier.
pub proof fn lemma_track_map_update(s: Seq<TrackInfoView>, k: int, t: TrackInfoView)
    requires
        ascending(s),
        0 <= k < s.len(),
        t.id == s[k].id,
    ensures
        ascending(s.update(k, t)),
        track_map(s.update(k, t)) == track_map(s).insert(t.id, t),
{
    let s2 = s.update(k, t);
    let m = track_map(s);
    let m2 = track_map(s2);
    assert forall|id: u64| m2.contains_key(id) <==> m.insert(t.id, t).contains_key(id) by {
        if m2.contains_key(id) {
            let i = choose|i: int| 0 <= i < s2.len() && s2[i].id == id;
            assert(s[i].id == id);
        }
        if m.contains_key(id) {
            let i = choose|i: int| 0 <= i < s.len() && s[i].id == id;
            assert(s2[i].id == id);
        }
        if id == t.id {
            assert(s2[k] == t);
        }
    }
    assert forall|id: u64| #[trigger] m2.contains_key(id) implies m2[id] == m.insert(t.id, t)[id] by {
        let i = choose|i: int| 0 <= i < s2.len() && s2[i].id == id;
        lemma_track_map_at(s2, i);
        if i != k {
            lemma_track_map_at(s, i);
        }
    }
    assert(m2 =~= m.insert(t.id, t));
}

} // verus!
