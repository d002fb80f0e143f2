use vstd::prelude::*;

use crate::Id;

verus! {

/// Bit pattern of the single-precision value `1.0`, the gain of a new track.
pub const UNITY_GAIN: u32 = 0x3f80_0000;

/// A property of a track that the control side can change.
#[derive(Clone, Copy, Debug, PartialEq, Eq, Structural)]
pub enum TrackProperty {
    /// The track's output gain, held as the bit pattern of an `f32`.
    Gain,
}

/// Abstract state of a plugin instance on the realtime side.
pub ghost struct InstanceView {
    pub id: u64,
    pub params: Seq<u32>,
}

/// Abstract state of a track on the realtime side: everything the command
/// protocol can observe or change.
pub ghost struct TrackView {
    pub id: u64,
    pub gain: u32,
    pub instances: Seq<InstanceView>,
}

/// A plugin instance owned by a realtime track, with its control values
/// (bit patterns of `f32`s) in port order.
pub struct InstanceContainer<P> {
    id: Id,
    instance: P,
    params: Vec<u32>,
}

impl<P> View for InstanceContainer<P> {
    type V = InstanceView;

    closed spec fn view(&self) -> InstanceView {
        InstanceView { id: self.id, params: self.params@ }
    }
}

impl<P> InstanceContainer<P> {
    pub fn id(&self) -> (r: Id)
        ensures
            r == self@.id,
    {
        self.id
    }

    pub fn params(&self) -> (r: &Vec<u32>)
        ensures
            r@ == self@.params,
    {
        &self.params
    }

    /// Borrows the plugin instance to run it, together with its control values.
    pub fn run_parts(&mut self) -> (r: (&mut P, &Vec<u32>))
        ensures
            r.1@ == old(self)@.params,
            final(self)@ == old(self)@,
    {
        (&mut self.instance, &self.params)
    }
}

/// The realtime side of a track: its gain, its chain of plugin instances in
/// the order they were pushed, and the buffers `B` that rendering uses.
pub struct Track<B, P> {
    id: Id,
    gain: u32,
    instances: Vec<InstanceContainer<P>>,
    buffers: B,
}

/// The abstract states of a sequence of plugin instances.
pub open spec fn instance_views<P>(s: Seq<InstanceContainer<P>>) -> Seq<InstanceView> {
    s.map_values(|c: InstanceContainer<P>| c@)
}

/// Whether `j` is the position of the first instance with identifier `id`.
pub open spec fn is_first_instance(s: Seq<InstanceView>, id: u64, j: int) -> bool {
    &&& 0 <= j < s.len()
    &&& s[j].id == id
    &&& forall|k: int| 0 <= k < j ==> s[k].id != id
}

/// The chain `s` without its first instance with identifier `id`, if any.
pub open spec fn remove_instance(s: Seq<InstanceView>, id: u64) -> Seq<InstanceView> {
    if exists|j: int| is_first_instance(s, id, j) {
        s.remove(choose|j: int| is_first_instance(s, id, j))
    } else {
        s
    }
}

/// Position of the first instance with identifier `id` (meaningful when
/// there is one).
pub open spec fn first_instance(s: Seq<InstanceView>, id: u64) -> int {
    choose|j: int| is_first_instance(s, id, j)
}

/// There is at most one first occurrence.
pub proof fn lemma_first_instance_unique(s: Seq<InstanceView>, id: u64, a: int, b: int)
    requires
        is_first_instance(s, id, a),
        is_first_instance(s, id, b),
    ensures
        a == b,
{
}

impl<B, P> View for Track<B, P> {
    type V = TrackView;

    closed spec fn view(&self) -> TrackView {
        TrackView { id: self.id, gain: self.gain, instances: instance_views(self.instances@) }
    }
}

impl<B, P> Track<B, P> {
    /// A track with unity gain and no plugin instances.
    pub fn new(id: Id, buffers: B) -> (r: Track<B, P>)
        ensures
            r@ == (TrackView { id, gain: UNITY_GAIN, instances: Seq::empty() }),
            r.handles() == Seq::<P>::empty(),
            r.buffers() == buffers,
    {
        let r = Track { id, gain: UNITY_GAIN, instances: Vec::new(), buffers };
        proof {
            assert(instance_views(r.instances@) =~= Seq::<InstanceView>::empty());
            assert(r.handles() =~= Seq::<P>::empty());
        }
        r
    }

    /// The plugin instance handles of the chain, in order.
    pub closed spec fn handles(&self) -> Seq<P> {
        self.instances@.map_values(|c: InstanceContainer<P>| c.instance)
    }

    /// The rendering buffers of the track.
    pub closed spec fn buffers(&self) -> B {
        self.buffers
    }

    pub fn id(&self) -> (r: Id)
        ensures
            r == self@.id,
    {
        self.id
    }

    /// The plugin chain, in the order the instances were pushed.
    pub fn instances(&self) -> (r: &Vec<InstanceContainer<P>>)
        ensures
            instance_views(r@) == self@.instances,
    {
        &self.instances
    }

    /// Appends a plugin instance at the end of the chain.
    pub fn push_instance(&mut self, id: Id, instance: P, params: Vec<u32>)
        ensures
            final(self)@ == (TrackView {
                instances: old(self)@.instances.push(InstanceView { id, params: params@ }),
                ..old(self)@
            }),
            final(self).handles() == old(self).handles().push(instance),
            final(self).buffers() == old(self).buffers(),
    {
        self.instances.push(InstanceContainer { id, instance, params });
        proof {
            assert(self.handles() =~= old(self).handles().push(instance));
            assert(instance_views(self.instances@) =~= instance_views(old(self).instances@).push(
                InstanceView { id, params: params@ },
            ));
        }
    }

    /// Removes the first plugin instance with identifier `id` from the chain
    /// and hands it back; `None` when the chain has no such instance.
    pub fn delete_instance(&mut self, id: Id) -> (r: Option<P>)
        ensures
            final(self)@ == (TrackView {
                instances: remove_instance(old(self)@.instances, id),
                ..old(self)@
            }),
            final(self).buffers() == old(self).buffers(),
            r is Some <==> exists|j: int| is_first_instance(old(self)@.instances, id, j),
            r is Some ==> r == Some(old(self).handles()[first_instance(old(self)@.instances, id)])
                && final(self).handles() == old(self).handles().remove(
                first_instance(old(self)@.instances, id),
            ),
            r is None ==> final(self).handles() == old(self).handles(),
    {
        let ghost views = old(self)@.instances;
        let mut j: usize = 0;
        while j < self.instances.len()
            invariant
                self == old(self),
                views == instance_views(self.instances@),
                j <= self.instances.len(),
                forall|k: int| 0 <= k < j ==> views[k].id != id,
            decreases self.instances.len() - j,
        {
            if self.instances[j].id == id {
                proof {
                    assert(is_first_instance(views, id, j as int));
                    let c = choose|k: int| is_first_instance(views, id, k);
                    lemma_first_instance_unique(views, id, j as int, c);
                }
                let removed = self.instances.remove(j);
                proof {
                    assert(instance_views(self.instances@) =~= views.remove(j as int));
                    assert(self.handles() =~= old(self).handles().remove(j as int));
                }
                return Some(removed.instance);
            }
            j += 1;
        }
        proof {
            assert(!exists|k: int| is_first_instance(views, id, k));
        }
        None
    }

    pub fn set_property(&mut self, property: TrackProperty, value: u32)
        ensures
            final(self)@ == (TrackView { gain: value, ..old(self)@ }),
            final(self).handles() == old(self).handles(),
            final(self).buffers() == old(self).buffers(),
    {
        match property {
            TrackProperty::Gain => self.gain = value,
        }
    }

    pub fn property(&self, property: TrackProperty) -> (r: u32)
        ensures
            r == self@.gain,
    {
        match property {
            TrackProperty::Gain => self.gain,
        }
    }

    /// Borrows what rendering needs: the buffers and the plugin chain.
    pub fn render_parts(&mut self) -> (r: (&mut B, &mut [InstanceContainer<P>]))
        ensures
            final(self)@.id == old(self)@.id,
            final(self)@.gain == old(self)@.gain,
    {
        (&mut self.buffers, self.instances.as_mut_slice())
    }

    /// Borrows the rendering buffers.
    pub fn buffers_mut(&mut self) -> (r: &mut B)
        ensures
            *r == old(self).buffers(),
            final(self)@ == old(self)@,
            final(self).handles() == old(self).handles(),
            final(self).buffers() == *final(r),
    {
        &mut self.buffers
    }
}

} // verus!
