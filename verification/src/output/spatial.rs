//! Spatial audio output: a second output path dedicated to 3D-positioned
//! sources, with on-demand and buffered (look-ahead) spatialization, and a
//! listener-rotation control shared by the whole spatial graph.

use vstd::prelude::*;

use crate::math::Quat;
use crate::math::Vec3;
use crate::output::advance_playback;
use crate::output::initial_playback;
use crate::output::pause_playback;
use crate::output::resume_playback;
use crate::output::stop_playback;
use crate::output::Playback;
use crate::registry;
use crate::Assets;
use crate::Audio;
use crate::AudioToPlay;
use crate::BufferedSettings;
use crate::SpatialOptions;
use crate::SpatialSettings;
use crate::ToSignal;

verus! {

/// Position and velocity of one spatial emitter, in milli-units and
/// milli-units per second.
#[derive(Clone, Copy, Debug, PartialEq, Eq, Structural)]
pub struct Motion {
    /// Position of the emitter.
    pub position: Vec3,
    /// Velocity of the emitter.
    pub velocity: Vec3,
}

/// A live control handle over one on-demand spatialized signal.
pub struct SpatialAudioSink<Source: ToSignal> {
    /// The signal installed into the spatial graph.
    pub signal: Source::Signal,
    /// Pause/stop/position state.
    pub playback: Playback,
    /// Current motion of the emitter.
    pub motion: Motion,
    /// Radius of the emitter, in milli-units.
    pub radius: i64,
}

/// A live control handle over one buffered (look-ahead) spatialized signal.
pub struct SpatialBufferedAudioSink<Source: ToSignal> {
    /// The signal installed into the spatial graph.
    pub signal: Source::Signal,
    /// Pause/stop/position state.
    pub playback: Playback,
    /// Current motion of the emitter.
    pub motion: Motion,
    /// Radius of the emitter, in milli-units.
    pub radius: i64,
    /// The look-ahead parameters the sound was started with.
    pub buffered: BufferedSettings,
}

impl<Source: ToSignal> SpatialAudioSink<Source> {
    /// This sink with its playback state replaced.
    pub open spec fn with_playback(self, p: Playback) -> Self {
        SpatialAudioSink { playback: p, ..self }
    }

    /// This sink with its motion replaced.
    pub open spec fn with_motion(self, motion: Motion) -> Self {
        SpatialAudioSink { motion, ..self }
    }
}

impl<Source: ToSignal> SpatialBufferedAudioSink<Source> {
    /// This sink with its playback state replaced.
    pub open spec fn with_playback(self, p: Playback) -> Self {
        SpatialBufferedAudioSink { playback: p, ..self }
    }

    /// This sink with its motion replaced.
    pub open spec fn with_motion(self, motion: Motion) -> Self {
        SpatialBufferedAudioSink { motion, ..self }
    }
}

/// Pausing an on-demand spatial registry.
pub open spec fn pause_transition<Source: ToSignal>(
    m: Map<u64, SpatialAudioSink<Source>>,
    id: u64,
) -> Map<u64, SpatialAudioSink<Source>> {
    if m.contains_key(id) {
        m.insert(id, m[id].with_playback(pause_playback(m[id].playback)))
    } else {
        m
    }
}

/// Resuming an on-demand spatial registry.
pub open spec fn resume_transition<Source: ToSignal>(
    m: Map<u64, SpatialAudioSink<Source>>,
    id: u64,
) -> Map<u64, SpatialAudioSink<Source>> {
    if m.contains_key(id) {
        m.insert(id, m[id].with_playback(resume_playback(m[id].playback)))
    } else {
        m
    }
}

/// Stopping a sink of an on-demand spatial registry, permanently.
pub open spec fn stop_transition<Source: ToSignal>(
    m: Map<u64, SpatialAudioSink<Source>>,
    id: u64,
) -> Map<u64, SpatialAudioSink<Source>> {
    if m.contains_key(id) {
        m.insert(id, m[id].with_playback(stop_playback(m[id].playback)))
    } else {
        m
    }
}

/// Setting the motion of a sink of an on-demand spatial registry.
pub open spec fn set_motion_transition<Source: ToSignal>(
    m: Map<u64, SpatialAudioSink<Source>>,
    id: u64,
    motion: Motion,
) -> Map<u64, SpatialAudioSink<Source>> {
    if m.contains_key(id) && !m[id].playback.stopped {
        m.insert(id, m[id].with_motion(motion))
    } else {
        m
    }
}

/// Pausing a buffered spatial registry.
pub open spec fn pause_buffered_transition<Source: ToSignal>(
    m: Map<u64, SpatialBufferedAudioSink<Source>>,
    id: u64,
) -> Map<u64, SpatialBufferedAudioSink<Source>> {
    if m.contains_key(id) {
        m.insert(id, m[id].with_playback(pause_playback(m[id].playback)))
    } else {
        m
    }
}

/// Resuming a buffered spatial registry.
pub open spec fn resume_buffered_transition<Source: ToSignal>(
    m: Map<u64, SpatialBufferedAudioSink<Source>>,
    id: u64,
) -> Map<u64, SpatialBufferedAudioSink<Source>> {
    if m.contains_key(id) {
        m.insert(id, m[id].with_playback(resume_playback(m[id].playback)))
    } else {
        m
    }
}

/// Stopping a sink of a buffered spatial registry, permanently.
pub open spec fn stop_buffered_transition<Source: ToSignal>(
    m: Map<u64, SpatialBufferedAudioSink<Source>>,
    id: u64,
) -> Map<u64, SpatialBufferedAudioSink<Source>> {
    if m.contains_key(id) {
        m.insert(id, m[id].with_playback(stop_playback(m[id].playback)))
    } else {
        m
    }
}

/// Setting the motion of a sink of a buffered spatial registry.
pub open spec fn set_motion_buffered_transition<Source: ToSignal>(
    m: Map<u64, SpatialBufferedAudioSink<Source>>,
    id: u64,
    motion: Motion,
) -> Map<u64, SpatialBufferedAudioSink<Source>> {
    if m.contains_key(id) && !m[id].playback.stopped {
        m.insert(id, m[id].with_motion(motion))
    } else {
        m
    }
}

/// Storage of all live on-demand spatial sinks, in installation order.
pub struct SpatialAudioSinks<Source: ToSignal> {
    entries: Vec<(u64, SpatialAudioSink<Source>)>,
}

impl<Source: ToSignal> SpatialAudioSinks<Source> {
    /// The live sinks, by identifier.
    pub closed spec fn sinks(&self) -> Map<u64, SpatialAudioSink<Source>> {
        registry::entries_map(self.entries@)
    }

    /// The sink identifiers, in installation order.
    pub closed spec fn sink_ids(&self) -> Seq<u64> {
        registry::entry_keys(self.entries@)
    }

    /// Sink identifiers are pairwise distinct.
    pub closed spec fn wf(&self) -> bool {
        registry::distinct_keys(self.entries@)
    }

    /// An empty registry.
    pub fn new() -> (sinks: Self)
        ensures
            sinks.wf(),
            sinks.sinks() == Map::<u64, SpatialAudioSink<Source>>::empty(),
            sinks.sink_ids() == Seq::<u64>::empty(),
    {
        let sinks = SpatialAudioSinks { entries: Vec::new() };
        proof {
            assert(sinks.sink_ids() =~= Seq::<u64>::empty());
        }
        sinks
    }

    /// How many sinks are live.
    pub fn len(&self) -> (n: usize)
        ensures
            n == self.sink_ids().len(),
    {
        self.entries.len()
    }

    /// The live sink identifiers, in installation order.
    pub fn ids(&self) -> (ids: Vec<u64>)
        ensures
            ids@ == self.sink_ids(),
    {
        let mut ids: Vec<u64> = Vec::new();
        let mut i: usize = 0;
        while i < self.entries.len()
            invariant
                i <= self.entries@.len(),
                ids@ == registry::entry_keys(self.entries@).take(i as int),
            decreases self.entries@.len() - i,
        {
            ids.push(self.entries[i].0);
            proof {
                assert(ids@ =~= registry::entry_keys(self.entries@).take(i + 1));
            }
            i += 1;
        }
        proof {
            assert(ids@ =~= registry::entry_keys(self.entries@));
        }
        ids
    }


    /// Account one rendered batch of `frames` frames: every sink that is
    /// neither paused nor stopped advances its position by that much.
    pub fn advance(&mut self, frames: u64)
        requires
            old(self).wf(),
        ensures
            final(self).wf(),
            final(self).sink_ids() == old(self).sink_ids(),
            final(self).sinks().dom() == old(self).sinks().dom(),
            forall|k: u64| #[trigger]
                old(self).sinks().contains_key(k) ==> final(self).sinks()[k] == old(
                    self,
                ).sinks()[k].with_playback(advance_playback(old(self).sinks()[k].playback, frames)),
    {
        let ghost entries0 = self.entries@;
        let end: usize = self.entries.len();
        let mut i: usize = 0;
        while i < end
            invariant
                i <= end,
                end == self.entries@.len(),
                entries0.len() == end,
                registry::distinct_keys(entries0),
                forall|j: int|
                    0 <= j < i ==> #[trigger] self.entries@[j] == (
                    entries0[j].0,
                    entries0[j].1.with_playback(
                        advance_playback(entries0[j].1.playback, frames),
                    ),
                ),
                forall|j: int| i <= j < end ==> #[trigger] self.entries@[j] == entries0[j],
            decreases end - i,
        {
            let entry = &mut self.entries[i];
            if !entry.1.playback.stopped && !entry.1.playback.paused {
                if entry.1.playback.position <= u64::MAX - frames {
                    entry.1.playback.position = entry.1.playback.position + frames;
                } else {
                    entry.1.playback.position = u64::MAX;
                }
            }
            i += 1;
        }
        proof {
            assert(registry::entry_keys(self.entries@) =~= registry::entry_keys(entries0));
            assert(registry::distinct_keys(self.entries@)) by {
                assert forall|a: int, b: int|
                    0 <= a < b < self.entries@.len() implies (#[trigger] self.entries@[a]).0 != (
                #[trigger] self.entries@[b]).0 by {
                    assert(self.entries@[a].0 == entries0[a].0);
                    assert(self.entries@[b].0 == entries0[b].0);
                }
            }
            registry::lemma_entries_map_domain(entries0);
            registry::lemma_entries_map_domain(self.entries@);
            assert forall|k: u64|
                registry::entries_map(self.entries@).contains_key(k) == registry::entries_map(
                entries0,
            ).contains_key(k) by {
                if registry::entries_map(self.entries@).contains_key(k) {
                    let j = choose|j: int|
                        0 <= j < self.entries@.len() && (#[trigger] self.entries@[j]).0 == k;
                    assert(self.entries@[j].0 == entries0[j].0);
                    assert(registry::entries_map(entries0).contains_key(k));
                }
                if registry::entries_map(entries0).contains_key(k) {
                    let j = choose|j: int|
                        0 <= j < entries0.len() && (#[trigger] entries0[j]).0 == k;
                    assert(self.entries@[j].0 == entries0[j].0);
                    assert(registry::entries_map(self.entries@).contains_key(k));
                }
            }
            assert(final(self).sinks().dom() =~= registry::entries_map(entries0).dom());
            assert forall|k: u64| #[trigger]
                registry::entries_map(entries0).contains_key(k) implies registry::entries_map(
                self.entries@,
            )[k] == registry::entries_map(entries0)[k].with_playback(
                advance_playback(registry::entries_map(entries0)[k].playback, frames),
            ) by {
                let j = choose|j: int| 0 <= j < entries0.len() && (#[trigger] entries0[j]).0 == k;
                registry::lemma_entries_map_index(entries0, j);
                registry::lemma_entries_map_index(self.entries@, j);
            }
        }
    }

    /// Look a sink up; `None` once it was never installed (or the registry
    /// never learned of the identifier).
    pub fn get(&self, id: u64) -> (found: Option<&SpatialAudioSink<Source>>)
        requires
            self.wf(),
        ensures
            match found {
                Some(sink) => self.sinks().contains_key(id) && *sink == self.sinks()[id],
                None => !self.sinks().contains_key(id),
            },
    {
        proof {
            registry::lemma_entries_map_domain(self.entries@);
        }
        match registry::find_entry(&self.entries, id) {
            Some(i) => {
                proof {
                    registry::lemma_entries_map_index(self.entries@, i as int);
                }
                Some(&self.entries[i].1)
            },
            None => None,
        }
    }

    /// Install a freshly started sink under its pre-allocated identifier.
    pub(crate) fn install(&mut self, id: u64, sink: SpatialAudioSink<Source>)
        requires
            old(self).wf(),
            !old(self).sinks().contains_key(id),
        ensures
            final(self).wf(),
            final(self).sinks() == old(self).sinks().insert(id, sink),
            final(self).sink_ids() == old(self).sink_ids().push(id),
    {
        proof {
            registry::lemma_entries_map_domain(self.entries@);
            registry::lemma_entries_map_push(self.entries@, id, sink);
            assert forall|i: int, j: int|
                0 <= i < j < self.entries@.push((id, sink)).len() implies (#[trigger] self.entries@.push(
                (id, sink),
            )[i]).0 != (#[trigger] self.entries@.push((id, sink))[j]).0 by {
                if j < self.entries@.len() {
                } else {
                    assert(self.entries@.push((id, sink))[i] == self.entries@[i]);
                }
            }
        }
        self.entries.push((id, sink));
    }

    /// Pause the identified sink. A no-op once the sink is stopped, gone,
    /// or was never started.
    pub fn pause(&mut self, id: u64)
        requires
            old(self).wf(),
        ensures
            final(self).wf(),
            final(self).sink_ids() == old(self).sink_ids(),
            final(self).sinks() == pause_transition(old(self).sinks(), id),
    {
        proof {
            registry::lemma_entries_map_domain(self.entries@);
        }
        match registry::find_entry(&self.entries, id) {
            Some(i) => {
                proof {
                    registry::lemma_entries_map_index(self.entries@, i as int);
                }
                let ghost entries0 = self.entries@;
                let entry = &mut self.entries[i];
                let ghost sink0 = entry.1;
                if !entry.1.playback.stopped {
                    entry.1.playback.paused = true;
                }
                proof {
                    let updated = sink0.with_playback(pause_playback(sink0.playback));
                    assert(self.entries@ =~= entries0.update(i as int, (id, updated)));
                    registry::lemma_entries_map_update(entries0, i as int, updated);
                    assert(final(self).sinks() =~= pause_transition(
                        registry::entries_map(entries0),
                        id,
                    ));
                }
            },
            None => {
                proof {
                    assert(final(self).sinks() =~= pause_transition(old(self).sinks(), id));
                }
            },
        }
    }

    /// Resume the identified sink. A no-op once the sink is stopped, gone,
    /// or was never started.
    pub fn resume(&mut self, id: u64)
        requires
            old(self).wf(),
        ensures
            final(self).wf(),
            final(self).sink_ids() == old(self).sink_ids(),
            final(self).sinks() == resume_transition(old(self).sinks(), id),
    {
        proof {
            registry::lemma_entries_map_domain(self.entries@);
        }
        match registry::find_entry(&self.entries, id) {
            Some(i) => {
                proof {
                    registry::lemma_entries_map_index(self.entries@, i as int);
                }
                let ghost entries0 = self.entries@;
                let entry = &mut self.entries[i];
                let ghost sink0 = entry.1;
                if !entry.1.playback.stopped {
                    entry.1.playback.paused = false;
                }
                proof {
                    let updated = sink0.with_playback(resume_playback(sink0.playback));
                    assert(self.entries@ =~= entries0.update(i as int, (id, updated)));
                    registry::lemma_entries_map_update(entries0, i as int, updated);
                    assert(final(self).sinks() =~= resume_transition(
                        registry::entries_map(entries0),
                        id,
                    ));
                }
            },
            None => {
                proof {
                    assert(final(self).sinks() =~= resume_transition(old(self).sinks(), id));
                }
            },
        }
    }

    /// Permanently stop the identified sink. A no-op once the sink is gone
    /// or was never started; stopping twice changes nothing further.
    pub fn stop(&mut self, id: u64)
        requires
            old(self).wf(),
        ensures
            final(self).wf(),
            final(self).sink_ids() == old(self).sink_ids(),
            final(self).sinks() == stop_transition(old(self).sinks(), id),
    {
        proof {
            registry::lemma_entries_map_domain(self.entries@);
        }
        match registry::find_entry(&self.entries, id) {
            Some(i) => {
                proof {
                    registry::lemma_entries_map_index(self.entries@, i as int);
                }
                let ghost entries0 = self.entries@;
                let entry = &mut self.entries[i];
                let ghost sink0 = entry.1;
                entry.1.playback.stopped = true;
                proof {
                    let updated = sink0.with_playback(stop_playback(sink0.playback));
                    assert(self.entries@ =~= entries0.update(i as int, (id, updated)));
                    registry::lemma_entries_map_update(entries0, i as int, updated);
                    assert(final(self).sinks() =~= stop_transition(
                        registry::entries_map(entries0),
                        id,
                    ));
                }
            },
            None => {
                proof {
                    assert(final(self).sinks() =~= stop_transition(old(self).sinks(), id));
                }
            },
        }
    }

    /// Set the motion of the identified sink. A no-op once the sink is
    /// stopped, gone, or was never started; no other sink is affected.
    pub fn set_motion(&mut self, id: u64, position: Vec3, velocity: Vec3)
        requires
            old(self).wf(),
        ensures
            final(self).wf(),
            final(self).sink_ids() == old(self).sink_ids(),
            final(self).sinks() == set_motion_transition(
                old(self).sinks(),
                id,
                Motion { position, velocity },
            ),
    {
        proof {
            registry::lemma_entries_map_domain(self.entries@);
        }
        match registry::find_entry(&self.entries, id) {
            Some(i) => {
                proof {
                    registry::lemma_entries_map_index(self.entries@, i as int);
                }
                let ghost entries0 = self.entries@;
                let entry = &mut self.entries[i];
                let ghost sink0 = entry.1;
                if !entry.1.playback.stopped {
                    entry.1.motion = Motion { position, velocity };
                    proof {
                        let updated = sink0.with_motion(Motion { position, velocity });
                        assert(self.entries@ =~= entries0.update(i as int, (id, updated)));
                        registry::lemma_entries_map_update(entries0, i as int, updated);
                        assert(final(self).sinks() =~= set_motion_transition(
                            registry::entries_map(entries0),
                            id,
                            Motion { position, velocity },
                        ));
                    }
                } else {
                    proof {
                        assert(self.entries@ =~= entries0.update(i as int, (id, sink0)));
                        assert(self.entries@ =~= entries0);
                        assert(final(self).sinks() =~= set_motion_transition(
                            registry::entries_map(entries0),
                            id,
                            Motion { position, velocity },
                        ));
                    }
                }
            },
            None => {
                proof {
                    assert(final(self).sinks() =~= set_motion_transition(
                        old(self).sinks(),
                        id,
                        Motion { position, velocity },
                    ));
                }
            },
        }
    }
}

impl<Source: ToSignal> Default for SpatialAudioSinks<Source> {
    /// An empty registry.
    fn default() -> (sinks: Self)
        ensures
            sinks.wf(),
            sinks.sinks() == Map::<u64, SpatialAudioSink<Source>>::empty(),
            sinks.sink_ids() == Seq::<u64>::empty(),
    {
        Self::new()
    }
}

/// Storage of all live buffered spatial sinks, in installation order.
pub struct SpatialBufferedAudioSinks<Source: ToSignal> {
    entries: Vec<(u64, SpatialBufferedAudioSink<Source>)>,
}

impl<Source: ToSignal> SpatialBufferedAudioSinks<Source> {
    /// The live sinks, by identifier.
    pub closed spec fn sinks(&self) -> Map<u64, SpatialBufferedAudioSink<Source>> {
        registry::entries_map(self.entries@)
    }

    /// The sink identifiers, in installation order.
    pub closed spec fn sink_ids(&self) -> Seq<u64> {
        registry::entry_keys(self.entries@)
    }

    /// Sink identifiers are pairwise distinct.
    pub closed spec fn wf(&self) -> bool {
        registry::distinct_keys(self.entries@)
    }

    /// An empty registry.
    pub fn new() -> (sinks: Self)
        ensures
            sinks.wf(),
            sinks.sinks() == Map::<u64, SpatialBufferedAudioSink<Source>>::empty(),
            sinks.sink_ids() == Seq::<u64>::empty(),
    {
        let sinks = SpatialBufferedAudioSinks { entries: Vec::new() };
        proof {
            assert(sinks.sink_ids() =~= Seq::<u64>::empty());
        }
        sinks
    }

    /// How many sinks are live.
    pub fn len(&self) -> (n: usize)
        ensures
            n == self.sink_ids().len(),
    {
        self.entries.len()
    }

    /// The live sink identifiers, in installation order.
    pub fn ids(&self) -> (ids: Vec<u64>)
        ensures
            ids@ == self.sink_ids(),
    {
        let mut ids: Vec<u64> = Vec::new();
        let mut i: usize = 0;
        while i < self.entries.len()
            invariant
                i <= self.entries@.len(),
                ids@ == registry::entry_keys(self.entries@).take(i as int),
            decreases self.entries@.len() - i,
        {
            ids.push(self.entries[i].0);
            proof {
                assert(ids@ =~= registry::entry_keys(self.entries@).take(i + 1));
            }
            i += 1;
        }
        proof {
            assert(ids@ =~= registry::entry_keys(self.entries@));
        }
        ids
    }


    /// Account one rendered batch of `frames` frames: every sink that is
    /// neither paused nor stopped advances its position by that much.
    pub fn advance(&mut self, frames: u64)
        requires
            old(self).wf(),
        ensures
            final(self).wf(),
            final(self).sink_ids() == old(self).sink_ids(),
            final(self).sinks().dom() == old(self).sinks().dom(),
            forall|k: u64| #[trigger]
                old(self).sinks().contains_key(k) ==> final(self).sinks()[k] == old(
                    self,
                ).sinks()[k].with_playback(advance_playback(old(self).sinks()[k].playback, frames)),
    {
        let ghost entries0 = self.entries@;
        let end: usize = self.entries.len();
        let mut i: usize = 0;
        while i < end
            invariant
                i <= end,
                end == self.entries@.len(),
                entries0.len() == end,
                registry::distinct_keys(entries0),
                forall|j: int|
                    0 <= j < i ==> #[trigger] self.entries@[j] == (
                    entries0[j].0,
                    entries0[j].1.with_playback(
                        advance_playback(entries0[j].1.playback, frames),
                    ),
                ),
                forall|j: int| i <= j < end ==> #[trigger] self.entries@[j] == entries0[j],
            decreases end - i,
        {
            let entry = &mut self.entries[i];
            if !entry.1.playback.stopped && !entry.1.playback.paused {
                if entry.1.playback.position <= u64::MAX - frames {
                    entry.1.playback.position = entry.1.playback.position + frames;
                } else {
                    entry.1.playback.position = u64::MAX;
                }
            }
            i += 1;
        }
        proof {
            assert(registry::entry_keys(self.entries@) =~= registry::entry_keys(entries0));
            assert(registry::distinct_keys(self.entries@)) by {
                assert forall|a: int, b: int|
                    0 <= a < b < self.entries@.len() implies (#[trigger] self.entries@[a]).0 != (
                #[trigger] self.entries@[b]).0 by {
                    assert(self.entries@[a].0 == entries0[a].0);
                    assert(self.entries@[b].0 == entries0[b].0);
                }
            }
            registry::lemma_entries_map_domain(entries0);
            registry::lemma_entries_map_domain(self.entries@);
            assert forall|k: u64|
                registry::entries_map(self.entries@).contains_key(k) == registry::entries_map(
                entries0,
            ).contains_key(k) by {
                if registry::entries_map(self.entries@).contains_key(k) {
                    let j = choose|j: int|
                        0 <= j < self.entries@.len() && (#[trigger] self.entries@[j]).0 == k;
                    assert(self.entries@[j].0 == entries0[j].0);
                    assert(registry::entries_map(entries0).contains_key(k));
                }
                if registry::entries_map(entries0).contains_key(k) {
                    let j = choose|j: int|
                        0 <= j < entries0.len() && (#[trigger] entries0[j]).0 == k;
                    assert(self.entries@[j].0 == entries0[j].0);
                    assert(registry::entries_map(self.entries@).contains_key(k));
                }
            }
            assert(final(self).sinks().dom() =~= registry::entries_map(entries0).dom());
            assert forall|k: u64| #[trigger]
                registry::entries_map(entries0).contains_key(k) implies registry::entries_map(
                self.entries@,
            )[k] == registry::entries_map(entries0)[k].with_playback(
                advance_playback(registry::entries_map(entries0)[k].playback, frames),
            ) by {
                let j = choose|j: int| 0 <= j < entries0.len() && (#[trigger] entries0[j]).0 == k;
                registry::lemma_entries_map_index(entries0, j);
                registry::lemma_entries_map_index(self.entries@, j);
            }
        }
    }

    /// Look a sink up; `None` once it was never installed (or the registry
    /// never learned of the identifier).
    pub fn get(&self, id: u64) -> (found: Option<&SpatialBufferedAudioSink<Source>>)
        requires
            self.wf(),
        ensures
            match found {
                Some(sink) => self.sinks().contains_key(id) && *sink == self.sinks()[id],
                None => !self.sinks().contains_key(id),
            },
    {
        proof {
            registry::lemma_entries_map_domain(self.entries@);
        }
        match registry::find_entry(&self.entries, id) {
            Some(i) => {
                proof {
                    registry::lemma_entries_map_index(self.entries@, i as int);
                }
                Some(&self.entries[i].1)
            },
            None => None,
        }
    }

    /// Install a freshly started sink under its pre-allocated identifier.
    pub(crate) fn install(&mut self, id: u64, sink: SpatialBufferedAudioSink<Source>)
        requires
            old(self).wf(),
            !old(self).sinks().contains_key(id),
        ensures
            final(self).wf(),
            final(self).sinks() == old(self).sinks().insert(id, sink),
            final(self).sink_ids() == old(self).sink_ids().push(id),
    {
        proof {
            registry::lemma_entries_map_domain(self.entries@);
            registry::lemma_entries_map_push(self.entries@, id, sink);
            assert forall|i: int, j: int|
                0 <= i < j < self.entries@.push((id, sink)).len() implies (#[trigger] self.entries@.push(
                (id, sink),
            )[i]).0 != (#[trigger] self.entries@.push((id, sink))[j]).0 by {
                if j < self.entries@.len() {
                } else {
                    assert(self.entries@.push((id, sink))[i] == self.entries@[i]);
                }
            }
        }
        self.entries.push((id, sink));
    }

    /// Pause the identified sink. A no-op once the sink is stopped, gone,
    /// or was never started.
    pub fn pause(&mut self, id: u64)
        requires
            old(self).wf(),
        ensures
            final(self).wf(),
            final(self).sink_ids() == old(self).sink_ids(),
            final(self).sinks() == pause_buffered_transition(old(self).sinks(), id),
    {
        proof {
            registry::lemma_entries_map_domain(self.entries@);
        }
        match registry::find_entry(&self.entries, id) {
            Some(i) => {
                proof {
                    registry::lemma_entries_map_index(self.entries@, i as int);
                }
                let ghost entries0 = self.entries@;
                let entry = &mut self.entries[i];
                let ghost sink0 = entry.1;
                if !entry.1.playback.stopped {
                    entry.1.playback.paused = true;
                }
                proof {
                    let updated = sink0.with_playback(pause_playback(sink0.playback));
                    assert(self.entries@ =~= entries0.update(i as int, (id, updated)));
                    registry::lemma_entries_map_update(entries0, i as int, updated);
                    assert(final(self).sinks() =~= pause_buffered_transition(
                        registry::entries_map(entries0),
                        id,
                    ));
                }
            },
            None => {
                proof {
                    assert(final(self).sinks() =~= pause_buffered_transition(
                        old(self).sinks(),
                        id,
                    ));
                }
            },
        }
    }

    /// Resume the identified sink. A no-op once the sink is stopped, gone,
    /// or was never started.
    pub fn resume(&mut self, id: u64)
        requires
            old(self).wf(),
        ensures
            final(self).wf(),
            final(self).sink_ids() == old(self).sink_ids(),
            final(self).sinks() == resume_buffered_transition(old(self).sinks(), id),
    {
        proof {
            registry::lemma_entries_map_domain(self.entries@);
        }
        match registry::find_entry(&self.entries, id) {
            Some(i) => {
                proof {
                    registry::lemma_entries_map_index(self.entries@, i as int);
                }
                let ghost entries0 = self.entries@;
                let entry = &mut self.entries[i];
                let ghost sink0 = entry.1;
                if !entry.1.playback.stopped {
                    entry.1.playback.paused = false;
                }
                proof {
                    let updated = sink0.with_playback(resume_playback(sink0.playback));
                    assert(self.entries@ =~= entries0.update(i as int, (id, updated)));
                    registry::lemma_entries_map_update(entries0, i as int, updated);
                    assert(final(self).sinks() =~= resume_buffered_transition(
                        registry::entries_map(entries0),
                        id,
                    ));
                }
            },
            None => {
                proof {
                    assert(final(self).sinks() =~= resume_buffered_transition(
                        old(self).sinks(),
                        id,
                    ));
                }
            },
        }
    }

    /// Permanently stop the identified sink. A no-op once the sink is gone
    /// or was never started; stopping twice changes nothing further.
    pub fn stop(&mut self, id: u64)
        requires
            old(self).wf(),
        ensures
            final(self).wf(),
            final(self).sink_ids() == old(self).sink_ids(),
            final(self).sinks() == stop_buffered_transition(old(self).sinks(), id),
    {
        proof {
            registry::lemma_entries_map_domain(self.entries@);
        }
        match registry::find_entry(&self.entries, id) {
            Some(i) => {
                proof {
                    registry::lemma_entries_map_index(self.entries@, i as int);
                }
                let ghost entries0 = self.entries@;
                let entry = &mut self.entries[i];
                let ghost sink0 = entry.1;
                entry.1.playback.stopped = true;
                proof {
                    let updated = sink0.with_playback(stop_playback(sink0.playback));
                    assert(self.entries@ =~= entries0.update(i as int, (id, updated)));
                    registry::lemma_entries_map_update(entries0, i as int, updated);
                    assert(final(self).sinks() =~= stop_buffered_transition(
                        registry::entries_map(entries0),
                        id,
                    ));
                }
            },
            None => {
                proof {
                    assert(final(self).sinks() =~= stop_buffered_transition(
                        old(self).sinks(),
                        id,
                    ));
                }
            },
        }
    }

    /// Set the motion of the identified sink. A no-op once the sink is
    /// stopped, gone, or was never started; no other sink is affected.
    pub fn set_motion(&mut self, id: u64, position: Vec3, velocity: Vec3)
        requires
            old(self).wf(),
        ensures
            final(self).wf(),
            final(self).sink_ids() == old(self).sink_ids(),
            final(self).sinks() == set_motion_buffered_transition(
                old(self).sinks(),
                id,
                Motion { position, velocity },
            ),
    {
        proof {
            registry::lemma_entries_map_domain(self.entries@);
        }
        match registry::find_entry(&self.entries, id) {
            Some(i) => {
                proof {
                    registry::lemma_entries_map_index(self.entries@, i as int);
                }
                let ghost entries0 = self.entries@;
                let entry = &mut self.entries[i];
                let ghost sink0 = entry.1;
                if !entry.1.playback.stopped {
                    entry.1.motion = Motion { position, velocity };
                    proof {
                        let updated = sink0.with_motion(Motion { position, velocity });
                        assert(self.entries@ =~= entries0.update(i as int, (id, updated)));
                        registry::lemma_entries_map_update(entries0, i as int, updated);
                        assert(final(self).sinks() =~= set_motion_buffered_transition(
                            registry::entries_map(entries0),
                            id,
                            Motion { position, velocity },
                        ));
                    }
                } else {
                    proof {
                        assert(self.entries@ =~= entries0.update(i as int, (id, sink0)));
                        assert(self.entries@ =~= entries0);
                        assert(final(self).sinks() =~= set_motion_buffered_transition(
                            registry::entries_map(entries0),
                            id,
                            Motion { position, velocity },
                        ));
                    }
                }
            },
            None => {
                proof {
                    assert(final(self).sinks() =~= set_motion_buffered_transition(
                        old(self).sinks(),
                        id,
                        Motion { position, velocity },
                    ));
                }
            },
        }
    }
}

impl<Source: ToSignal> Default for SpatialBufferedAudioSinks<Source> {
    /// An empty registry.
    fn default() -> (sinks: Self)
        ensures
            sinks.wf(),
            sinks.sinks() == Map::<u64, SpatialBufferedAudioSink<Source>>::empty(),
            sinks.sink_ids() == Seq::<u64>::empty(),
    {
        Self::new()
    }
}

/// A sink freshly installed for spatial request `r`: playback just
/// started, motion and radius taken from the request's spatial options,
/// and the signal converted from the request's source and settings.
pub open spec fn is_fresh_spatial_install<Source: ToSignal>(
    sink: SpatialAudioSink<Source>,
    source: Source,
    r: AudioToPlay<Source>,
) -> bool {
    &&& sink.playback == initial_playback()
    &&& r.spatial_settings matches Some(ss) && sink.motion == (Motion {
        position: ss.options.position,
        velocity: ss.options.velocity,
    }) && sink.radius == ss.options.radius
    &&& source.produces(r.settings, sink.signal)
}

/// A sink freshly installed for buffered spatial request `r`: playback
/// just started, motion, radius and look-ahead parameters taken from the
/// request, and the signal converted from the request's source and
/// settings.
pub open spec fn is_fresh_buffered_install<Source: ToSignal>(
    sink: SpatialBufferedAudioSink<Source>,
    source: Source,
    r: AudioToPlay<Source>,
) -> bool {
    &&& sink.playback == initial_playback()
    &&& r.spatial_settings matches Some(ss) && sink.motion == (Motion {
        position: ss.options.position,
        velocity: ss.options.velocity,
    }) && sink.radius == ss.options.radius && (ss.buffered_settings matches Some(b)
        && sink.buffered == b)
    &&& source.produces(r.settings, sink.signal)
}

/// How one spatial drain pass changes its registry: every started request
/// is live under its pre-allocated identifier, freshly installed from its
/// source; sinks that were already live are untouched; nothing else
/// appears.
pub open spec fn spatial_drain_installs<Source: ToSignal>(
    started_requests: Seq<AudioToPlay<Source>>,
    sources: Map<u64, Source>,
    before: Map<u64, SpatialAudioSink<Source>>,
    after: Map<u64, SpatialAudioSink<Source>>,
) -> bool {
    &&& forall|j: int|
        0 <= j < started_requests.len() ==> {
            &&& after.contains_key((#[trigger] started_requests[j]).stop_handle)
            &&& is_fresh_spatial_install(
                after[started_requests[j].stop_handle],
                sources[started_requests[j].source_handle],
                started_requests[j],
            )
        }
    &&& forall|k: u64| #[trigger]
        before.contains_key(k) ==> after.contains_key(k) && after[k] == before[k]
    &&& forall|k: u64| #[trigger]
        after.contains_key(k) ==> before.contains_key(k) || crate::request_ids(
            started_requests,
        ).contains(k)
}

/// How one buffered spatial drain pass changes its registry.
pub open spec fn buffered_drain_installs<Source: ToSignal>(
    started_requests: Seq<AudioToPlay<Source>>,
    sources: Map<u64, Source>,
    before: Map<u64, SpatialBufferedAudioSink<Source>>,
    after: Map<u64, SpatialBufferedAudioSink<Source>>,
) -> bool {
    &&& forall|j: int|
        0 <= j < started_requests.len() ==> {
            &&& after.contains_key((#[trigger] started_requests[j]).stop_handle)
            &&& is_fresh_buffered_install(
                after[started_requests[j].stop_handle],
                sources[started_requests[j].source_handle],
                started_requests[j],
            )
        }
    &&& forall|k: u64| #[trigger]
        before.contains_key(k) ==> after.contains_key(k) && after[k] == before[k]
    &&& forall|k: u64| #[trigger]
        after.contains_key(k) ==> before.contains_key(k) || crate::request_ids(
            started_requests,
        ).contains(k)
}

/// The queue and the on-demand spatial registry are consistent: a pending
/// request is never already live, and every identifier either side knows
/// is below the allocator's next one.
pub open spec fn spatial_engine_inv<Source: ToSignal>(
    audio: Audio<Source>,
    sinks: SpatialAudioSinks<Source>,
) -> bool {
    &&& audio.wf()
    &&& sinks.wf()
    &&& forall|i: int|
        0 <= i < audio.requests().len() ==> !sinks.sinks().contains_key(
            (#[trigger] audio.requests()[i]).stop_handle,
        )
    &&& forall|k: u64| #[trigger] sinks.sinks().contains_key(k) ==> k < audio.next_id()
}

/// The queue and the buffered spatial registry are consistent.
pub open spec fn buffered_engine_inv<Source: ToSignal>(
    audio: Audio<Source>,
    sinks: SpatialBufferedAudioSinks<Source>,
) -> bool {
    &&& audio.wf()
    &&& sinks.wf()
    &&& forall|i: int|
        0 <= i < audio.requests().len() ==> !sinks.sinks().contains_key(
            (#[trigger] audio.requests()[i]).stop_handle,
        )
    &&& forall|k: u64| #[trigger] sinks.sinks().contains_key(k) ==> k < audio.next_id()
}

/// One drain pass of the on-demand spatial output path.
///
/// Visits every request queued at the start of the pass exactly once, in
/// submission order. A ready on-demand spatial request is started and
/// registered under its pre-allocated sink identifier; a request whose
/// source is still loading is re-enqueued at the tail, and so is a ready
/// request destined for another output path: it stays pending until that
/// path's own drain starts it, so no request is ever lost.
pub fn play_queued_spatial_audio<Source: ToSignal>(
    audio: &mut Audio<Source>,
    sources: &Assets<Source>,
    sinks: &mut SpatialAudioSinks<Source>,
)
    requires
        spatial_engine_inv(*old(audio), *old(sinks)),
        sources.wf(),
    ensures
        spatial_engine_inv(*final(audio), *final(sinks)),
        final(audio).next_id() == old(audio).next_id(),
        final(audio).requests() == crate::pending_after(
            old(audio).requests(),
            sources.table(),
            crate::RequestKind::Spatial,
        ),
        final(sinks).sink_ids() == old(sinks).sink_ids() + crate::request_ids(
            crate::started(old(audio).requests(), sources.table(), crate::RequestKind::Spatial),
        ),
        spatial_drain_installs(
            crate::started(old(audio).requests(), sources.table(), crate::RequestKind::Spatial),
            sources.table(),
            old(sinks).sinks(),
            final(sinks).sinks(),
        ),
{
    let ghost q0 = audio.queue@;
    let ghost m = sources.table();
    let ghost kind = crate::RequestKind::Spatial;
    let ghost ids0 = sinks.sink_ids();
    let ghost map0 = sinks.sinks();
    let ghost n0 = audio.next_sink_id;
    let end: usize = audio.queue.len();
    proof {
        assert(q0.take(0) =~= Seq::<AudioToPlay<Source>>::empty());
        assert(crate::request_ids(crate::started(q0.take(0), m, kind)) =~= Seq::<u64>::empty());
        assert(sinks.sink_ids() =~= ids0 + crate::request_ids(crate::started(q0.take(0), m, kind)));
        assert(audio.queue@ =~= q0.skip(0) + crate::pending_after(q0.take(0), m, kind));
    }
    let mut i: usize = 0;
    while i < end
        invariant
            i <= end,
            end == q0.len(),
            sources.wf(),
            sources.table() == m,
            kind == crate::RequestKind::Spatial,
            audio.next_sink_id == n0,
            audio.queue@ == q0.skip(i as int) + crate::pending_after(q0.take(i as int), m, kind),
            sinks.wf(),
            sinks.sink_ids() == ids0 + crate::request_ids(
                crate::started(q0.take(i as int), m, kind),
            ),
            crate::distinct_request_ids(q0),
            forall|j: int| 0 <= j < q0.len() ==> (#[trigger] q0[j]).stop_handle < n0,
            forall|k: u64| #[trigger] map0.contains_key(k) ==> k < n0,
            forall|j: int| i <= j < q0.len() ==> !sinks.sinks().contains_key(
                (#[trigger] q0[j]).stop_handle,
            ),
            forall|k: u64| #[trigger]
                map0.contains_key(k) ==> sinks.sinks().contains_key(k) && sinks.sinks()[k] == map0[
                k],
            forall|j: int|
                0 <= j < i && crate::ready(#[trigger] q0[j], m) && crate::kind_of(q0[j]) == kind
                    ==> {
                    &&& sinks.sinks().contains_key(q0[j].stop_handle)
                    &&& is_fresh_spatial_install(
                        sinks.sinks()[q0[j].stop_handle],
                        m[q0[j].source_handle],
                        q0[j],
                    )
                },
            forall|k: u64| #[trigger]
                sinks.sinks().contains_key(k) ==> map0.contains_key(k) || (exists|j: int|
                    0 <= j < i && crate::ready(#[trigger] q0[j], m) && crate::kind_of(q0[j]) == kind
                        && q0[j].stop_handle == k),
        decreases end - i,
    {
        proof {
            assert(audio.queue@.len() > 0);
            assert(audio.queue@[0] == q0[i as int]);
        }
        let config = audio.queue.remove(0);
        proof {
            assert(config == q0[i as int]);
            assert(audio.queue@ =~= q0.skip(i + 1) + crate::pending_after(
                q0.take(i as int),
                m,
                kind,
            ));
            assert(q0.take(i + 1) =~= q0.take(i as int).push(q0[i as int]));
            crate::lemma_pending_after_push(q0.take(i as int), m, kind, q0[i as int]);
            crate::lemma_started_push(q0.take(i as int), m, kind, q0[i as int]);
        }
        match sources.get(config.source_handle) {
            Some(audio_source) => {
                proof {
                    assert(crate::ready(q0[i as int], m));
                }
                match config.spatial_settings {
                    Some(spatial_settings) => {
                        if spatial_settings.buffered_settings.is_none() {
                            proof {
                                assert(crate::kind_of(q0[i as int]) == kind);
                            }
                            let AudioToPlay { stop_handle, settings, .. } = config;
                            let signal = audio_source.to_signal(settings);
                            let sink = SpatialAudioSink {
                                signal,
                                playback: Playback { paused: false, stopped: false, position: 0 },
                                motion: Motion {
                                    position: spatial_settings.options.position,
                                    velocity: spatial_settings.options.velocity,
                                },
                                radius: spatial_settings.options.radius,
                            };
                            sinks.install(stop_handle, sink);
                            proof {
                                assert(crate::due(q0[i as int], m, kind));
                                let prev = crate::started(q0.take(i as int), m, kind);
                                let prev_ids = crate::request_ids(prev);
                                assert(crate::started(q0.take(i + 1), m, kind) == prev.push(
                                    q0[i as int],
                                ));
                                assert(crate::request_ids(prev.push(q0[i as int])) =~= prev_ids.push(
                                    stop_handle,
                                ));
                                assert((ids0 + prev_ids).push(stop_handle) =~= ids0 + prev_ids.push(
                                    stop_handle,
                                ));
                            }
                        }
                        else {
                            // Ready, but asking for buffered look-ahead:
                            // it stays pending for the buffered drain.
                            audio.queue.push(config);
                            proof {
                                assert(!crate::due(q0[i as int], m, kind));
                                assert(audio.queue@ =~= q0.skip(i + 1) + crate::pending_after(
                                    q0.take(i + 1),
                                    m,
                                    kind,
                                ));
                            }
                        }
                    },
                    None => {
                        // Ready, but not spatial: it stays pending for the
                        // mixed path's drain.
                        audio.queue.push(config);
                        proof {
                            assert(!crate::due(q0[i as int], m, kind));
                            assert(audio.queue@ =~= q0.skip(i + 1) + crate::pending_after(
                                q0.take(i + 1),
                                m,
                                kind,
                            ));
                        }
                    },
                }
            },
            None => {
                audio.queue.push(config);
                proof {
                    assert(audio.queue@ =~= q0.skip(i + 1) + crate::pending_after(
                        q0.take(i + 1),
                        m,
                        kind,
                    ));
                }
            },
        }
        i += 1;
    }
    proof {
        assert(q0.take(end as int) =~= q0);
        assert(q0.skip(end as int) =~= Seq::<AudioToPlay<Source>>::empty());
        assert(audio.queue@ =~= crate::pending_after(q0, m, kind));
        crate::lemma_pending_after_props(q0, m, kind);
        crate::lemma_started_props(q0, m, kind);
        let pend = crate::pending_after(q0, m, kind);
        assert forall|a: int|
            0 <= a < pend.len() implies (#[trigger] pend[a]).stop_handle < n0 && !sinks.sinks().contains_key(
            pend[a].stop_handle,
        ) by {
            let i0 = choose|i0: int| 0 <= i0 < q0.len() && #[trigger] pend[a] == q0[i0];
            assert(q0[i0].stop_handle < n0);
            if sinks.sinks().contains_key(pend[a].stop_handle) {
                if map0.contains_key(pend[a].stop_handle) {
                    assert(!map0.contains_key(q0[i0].stop_handle));
                } else {
                    let j = choose|j: int|
                        0 <= j < q0.len() && crate::ready(#[trigger] q0[j], m) && crate::kind_of(
                            q0[j],
                        ) == kind && q0[j].stop_handle == pend[a].stop_handle;
                    assert(!crate::due(pend[a], m, kind));
                    assert(j != i0);
                    assert(q0[j].stop_handle != q0[i0].stop_handle);
                }
            }
        }
        let strt = crate::started(q0, m, kind);
        assert forall|k: u64| #[trigger]
            sinks.sinks().contains_key(k) implies map0.contains_key(k) || crate::request_ids(
            strt,
        ).contains(k) by {
            if !map0.contains_key(k) {
                let j = choose|j: int|
                    0 <= j < q0.len() && crate::ready(#[trigger] q0[j], m) && crate::kind_of(q0[j])
                        == kind && q0[j].stop_handle == k;
                assert(crate::request_ids(strt).contains(q0[j].stop_handle));
            }
        }
        assert forall|j: int| 0 <= j < strt.len() implies {
            &&& sinks.sinks().contains_key((#[trigger] strt[j]).stop_handle)
            &&& is_fresh_spatial_install(
                sinks.sinks()[strt[j].stop_handle],
                m[strt[j].source_handle],
                strt[j],
            )
        } by {
            let i0 = choose|i0: int| 0 <= i0 < q0.len() && #[trigger] strt[j] == q0[i0];
            assert(crate::ready(q0[i0], m) && crate::kind_of(q0[i0]) == kind);
        }
        assert forall|k: u64| #[trigger] sinks.sinks().contains_key(k) implies k < n0 by {
            if !map0.contains_key(k) {
                let j = choose|j: int|
                    0 <= j < q0.len() && crate::ready(#[trigger] q0[j], m) && crate::kind_of(q0[j])
                        == kind && q0[j].stop_handle == k;
            }
        }
    }
}

/// One drain pass of the buffered spatial output path.
///
/// Visits every request queued at the start of the pass exactly once, in
/// submission order. A ready buffered spatial request is started and
/// registered under its pre-allocated sink identifier; a request whose
/// source is still loading is re-enqueued at the tail, and so is a ready
/// request destined for another output path: it stays pending until that
/// path's own drain starts it, so no request is ever lost.
pub fn play_queued_spatial_buffered_audio<Source: ToSignal>(
    audio: &mut Audio<Source>,
    sources: &Assets<Source>,
    sinks: &mut SpatialBufferedAudioSinks<Source>,
)
    requires
        buffered_engine_inv(*old(audio), *old(sinks)),
        sources.wf(),
    ensures
        buffered_engine_inv(*final(audio), *final(sinks)),
        final(audio).next_id() == old(audio).next_id(),
        final(audio).requests() == crate::pending_after(
            old(audio).requests(),
            sources.table(),
            crate::RequestKind::SpatialBuffered,
        ),
        final(sinks).sink_ids() == old(sinks).sink_ids() + crate::request_ids(
            crate::started(
                old(audio).requests(),
                sources.table(),
                crate::RequestKind::SpatialBuffered,
            ),
        ),
        buffered_drain_installs(
            crate::started(
                old(audio).requests(),
                sources.table(),
                crate::RequestKind::SpatialBuffered,
            ),
            sources.table(),
            old(sinks).sinks(),
            final(sinks).sinks(),
        ),
{
    let ghost q0 = audio.queue@;
    let ghost m = sources.table();
    let ghost kind = crate::RequestKind::SpatialBuffered;
    let ghost ids0 = sinks.sink_ids();
    let ghost map0 = sinks.sinks();
    let ghost n0 = audio.next_sink_id;
    let end: usize = audio.queue.len();
    proof {
        assert(q0.take(0) =~= Seq::<AudioToPlay<Source>>::empty());
        assert(crate::request_ids(crate::started(q0.take(0), m, kind)) =~= Seq::<u64>::empty());
        assert(sinks.sink_ids() =~= ids0 + crate::request_ids(crate::started(q0.take(0), m, kind)));
        assert(audio.queue@ =~= q0.skip(0) + crate::pending_after(q0.take(0), m, kind));
    }
    let mut i: usize = 0;
    while i < end
        invariant
            i <= end,
            end == q0.len(),
            sources.wf(),
            sources.table() == m,
            kind == crate::RequestKind::SpatialBuffered,
            audio.next_sink_id == n0,
            audio.queue@ == q0.skip(i as int) + crate::pending_after(q0.take(i as int), m, kind),
            sinks.wf(),
            sinks.sink_ids() == ids0 + crate::request_ids(
                crate::started(q0.take(i as int), m, kind),
            ),
            crate::distinct_request_ids(q0),
            forall|j: int| 0 <= j < q0.len() ==> (#[trigger] q0[j]).stop_handle < n0,
            forall|k: u64| #[trigger] map0.contains_key(k) ==> k < n0,
            forall|j: int| i <= j < q0.len() ==> !sinks.sinks().contains_key(
                (#[trigger] q0[j]).stop_handle,
            ),
            forall|k: u64| #[trigger]
                map0.contains_key(k) ==> sinks.sinks().contains_key(k) && sinks.sinks()[k] == map0[
                k],
            forall|j: int|
                0 <= j < i && crate::ready(#[trigger] q0[j], m) && crate::kind_of(q0[j]) == kind
                    ==> {
                    &&& sinks.sinks().contains_key(q0[j].stop_handle)
                    &&& is_fresh_buffered_install(
                        sinks.sinks()[q0[j].stop_handle],
                        m[q0[j].source_handle],
                        q0[j],
                    )
                },
            forall|k: u64| #[trigger]
                sinks.sinks().contains_key(k) ==> map0.contains_key(k) || (exists|j: int|
                    0 <= j < i && crate::ready(#[trigger] q0[j], m) && crate::kind_of(q0[j]) == kind
                        && q0[j].stop_handle == k),
        decreases end - i,
    {
        proof {
            assert(audio.queue@.len() > 0);
            assert(audio.queue@[0] == q0[i as int]);
        }
        let config = audio.queue.remove(0);
        proof {
            assert(config == q0[i as int]);
            assert(audio.queue@ =~= q0.skip(i + 1) + crate::pending_after(
                q0.take(i as int),
                m,
                kind,
            ));
            assert(q0.take(i + 1) =~= q0.take(i as int).push(q0[i as int]));
            crate::lemma_pending_after_push(q0.take(i as int), m, kind, q0[i as int]);
            crate::lemma_started_push(q0.take(i as int), m, kind, q0[i as int]);
        }
        match sources.get(config.source_handle) {
            Some(audio_source) => {
                proof {
                    assert(crate::ready(q0[i as int], m));
                }
                match config.spatial_settings {
                    Some(spatial_settings) => {
                        match spatial_settings.buffered_settings {
                            Some(buffered_settings) => {
                                proof {
                                    assert(crate::kind_of(q0[i as int]) == kind);
                                }
                                let AudioToPlay { stop_handle, settings, .. } = config;
                                let signal = audio_source.to_signal(settings);
                                let sink = SpatialBufferedAudioSink {
                                    signal,
                                    playback: Playback {
                                        paused: false,
                                        stopped: false,
                                        position: 0,
                                    },
                                    motion: Motion {
                                        position: spatial_settings.options.position,
                                        velocity: spatial_settings.options.velocity,
                                    },
                                    radius: spatial_settings.options.radius,
                                    buffered: buffered_settings,
                                };
                                sinks.install(stop_handle, sink);
                                proof {
                                    assert(crate::due(q0[i as int], m, kind));
                                    let prev = crate::started(q0.take(i as int), m, kind);
                                    let prev_ids = crate::request_ids(prev);
                                    assert(crate::started(q0.take(i + 1), m, kind) == prev.push(
                                        q0[i as int],
                                    ));
                                    assert(crate::request_ids(prev.push(q0[i as int]))
                                        =~= prev_ids.push(stop_handle));
                                    assert((ids0 + prev_ids).push(stop_handle) =~= ids0
                                        + prev_ids.push(stop_handle));
                                }
                            },
                            None => {
                                // Ready, but asking for on-demand
                                // spatialization: it stays pending for the
                                // on-demand drain.
                                audio.queue.push(config);
                                proof {
                                    assert(!crate::due(q0[i as int], m, kind));
                                    assert(audio.queue@ =~= q0.skip(i + 1)
                                        + crate::pending_after(q0.take(i + 1), m, kind));
                                }
                            },
                        }
                    },
                    None => {
                        // Ready, but not spatial: it stays pending for the
                        // mixed path's drain.
                        audio.queue.push(config);
                        proof {
                            assert(!crate::due(q0[i as int], m, kind));
                            assert(audio.queue@ =~= q0.skip(i + 1) + crate::pending_after(
                                q0.take(i + 1),
                                m,
                                kind,
                            ));
                        }
                    },
                }
            },
            None => {
                audio.queue.push(config);
                proof {
                    assert(audio.queue@ =~= q0.skip(i + 1) + crate::pending_after(
                        q0.take(i + 1),
                        m,
                        kind,
                    ));
                }
            },
        }
        i += 1;
    }
    proof {
        assert(q0.take(end as int) =~= q0);
        assert(q0.skip(end as int) =~= Seq::<AudioToPlay<Source>>::empty());
        assert(audio.queue@ =~= crate::pending_after(q0, m, kind));
        crate::lemma_pending_after_props(q0, m, kind);
        crate::lemma_started_props(q0, m, kind);
        let pend = crate::pending_after(q0, m, kind);
        assert forall|a: int|
            0 <= a < pend.len() implies (#[trigger] pend[a]).stop_handle < n0 && !sinks.sinks().contains_key(
            pend[a].stop_handle,
        ) by {
            let i0 = choose|i0: int| 0 <= i0 < q0.len() && #[trigger] pend[a] == q0[i0];
            assert(q0[i0].stop_handle < n0);
            if sinks.sinks().contains_key(pend[a].stop_handle) {
                if map0.contains_key(pend[a].stop_handle) {
                    assert(!map0.contains_key(q0[i0].stop_handle));
                } else {
                    let j = choose|j: int|
                        0 <= j < q0.len() && crate::ready(#[trigger] q0[j], m) && crate::kind_of(
                            q0[j],
                        ) == kind && q0[j].stop_handle == pend[a].stop_handle;
                    assert(!crate::due(pend[a], m, kind));
                    assert(j != i0);
                    assert(q0[j].stop_handle != q0[i0].stop_handle);
                }
            }
        }
        let strt = crate::started(q0, m, kind);
        assert forall|k: u64| #[trigger]
            sinks.sinks().contains_key(k) implies map0.contains_key(k) || crate::request_ids(
            strt,
        ).contains(k) by {
            if !map0.contains_key(k) {
                let j = choose|j: int|
                    0 <= j < q0.len() && crate::ready(#[trigger] q0[j], m) && crate::kind_of(q0[j])
                        == kind && q0[j].stop_handle == k;
                assert(crate::request_ids(strt).contains(q0[j].stop_handle));
            }
        }
        assert forall|j: int| 0 <= j < strt.len() implies {
            &&& sinks.sinks().contains_key((#[trigger] strt[j]).stop_handle)
            &&& is_fresh_buffered_install(
                sinks.sinks()[strt[j].stop_handle],
                m[strt[j].source_handle],
                strt[j],
            )
        } by {
            let i0 = choose|i0: int| 0 <= i0 < q0.len() && #[trigger] strt[j] == q0[i0];
            assert(crate::ready(q0[i0], m) && crate::kind_of(q0[i0]) == kind);
        }
        assert forall|k: u64| #[trigger] sinks.sinks().contains_key(k) implies k < n0 by {
            if !map0.contains_key(k) {
                let j = choose|j: int|
                    0 <= j < q0.len() && crate::ready(#[trigger] q0[j], m) && crate::kind_of(q0[j])
                        == kind && q0[j].stop_handle == k;
            }
        }
    }
}

/// Stopping a spatial sink is final: any later pause, resume or motion
/// change on the same identifier leaves the registry exactly as the stop
/// left it, and no such call ever fails.
pub proof fn lemma_spatial_control_after_stop_noop<Source: ToSignal>(
    m: Map<u64, SpatialAudioSink<Source>>,
    id: u64,
    motion: Motion,
)
    ensures
        pause_transition(stop_transition(m, id), id) == stop_transition(m, id),
        resume_transition(stop_transition(m, id), id) == stop_transition(m, id),
        stop_transition(stop_transition(m, id), id) == stop_transition(m, id),
        set_motion_transition(stop_transition(m, id), id, motion) == stop_transition(m, id),
{
    let stopped = stop_transition(m, id);
    if m.contains_key(id) {
        assert(stopped[id].playback.stopped);
        assert(pause_transition(stopped, id) =~= stopped);
        assert(resume_transition(stopped, id) =~= stopped);
        assert(stop_transition(stopped, id) =~= stopped);
        assert(set_motion_transition(stopped, id, motion) =~= stopped);
    }
}

/// Stopping a buffered spatial sink is final in the same way.
pub proof fn lemma_buffered_control_after_stop_noop<Source: ToSignal>(
    m: Map<u64, SpatialBufferedAudioSink<Source>>,
    id: u64,
    motion: Motion,
)
    ensures
        pause_buffered_transition(stop_buffered_transition(m, id), id) == stop_buffered_transition(
            m,
            id,
        ),
        resume_buffered_transition(stop_buffered_transition(m, id), id)
            == stop_buffered_transition(m, id),
        stop_buffered_transition(stop_buffered_transition(m, id), id) == stop_buffered_transition(
            m,
            id,
        ),
        set_motion_buffered_transition(stop_buffered_transition(m, id), id, motion)
            == stop_buffered_transition(m, id),
{
    let stopped = stop_buffered_transition(m, id);
    if m.contains_key(id) {
        assert(stopped[id].playback.stopped);
        assert(pause_buffered_transition(stopped, id) =~= stopped);
        assert(resume_buffered_transition(stopped, id) =~= stopped);
        assert(stop_buffered_transition(stopped, id) =~= stopped);
        assert(set_motion_buffered_transition(stopped, id, motion) =~= stopped);
    }
}

/// Pausing and then resuming a spatial sink restores it exactly; the
/// playback position is kept.
pub proof fn lemma_spatial_pause_resume_restores<Source: ToSignal>(
    m: Map<u64, SpatialAudioSink<Source>>,
    id: u64,
)
    requires
        m.contains_key(id),
        !m[id].playback.paused,
    ensures
        resume_transition(pause_transition(m, id), id) == m,
        pause_transition(m, id)[id].playback.position == m[id].playback.position,
{
    assert(resume_transition(pause_transition(m, id), id) =~= m);
}

/// The control half of the spatial output path: the listener rotation
/// shared by the whole spatial graph, independent of any individual sink.
pub struct SpatialAudioOutput {
    /// Current rotation of the listener.
    pub listener_rotation: Quat,
}

impl SpatialAudioOutput {
    /// Rotate the listener of the whole spatial graph.
    pub fn set_listener_rotation(&mut self, rotation: Quat)
        ensures
            final(self).listener_rotation == rotation,
    {
        self.listener_rotation = rotation;
    }
}

impl Default for SpatialAudioOutput {
    /// A spatial output with the listener unrotated.
    fn default() -> (output: Self)
        ensures
            output.listener_rotation == (Quat { x: 0, y: 0, z: 0, w: 1000 }),
    {
        SpatialAudioOutput { listener_rotation: Quat::identity() }
    }
}

impl<Source: ToSignal> Audio<Source> {
    /// Ask to play `source_handle` spatialized on demand, with the given
    /// settings and spatial options.
    ///
    /// Appends a request to the tail of the queue and immediately returns a
    /// fresh sink identifier, not yet valid: it becomes a live control
    /// handle once the request is serviced by a spatial drain pass.
    pub fn play_spatial(
        &mut self,
        source_handle: u64,
        settings: Source::Settings,
        spatial_options: SpatialOptions,
    ) -> (sink_id: u64)
        requires
            old(self).wf(),
            old(self).next_id() < u64::MAX,
        ensures
            final(self).wf(),
            sink_id == old(self).next_id(),
            final(self).next_id() == old(self).next_id() + 1,
            final(self).requests() == old(self).requests().push(
                AudioToPlay {
                    source_handle,
                    stop_handle: sink_id,
                    settings,
                    spatial_settings: Some(
                        SpatialSettings { options: spatial_options, buffered_settings: None },
                    ),
                },
            ),
    {
        let stop_handle = self.next_sink_id;
        self.next_sink_id = self.next_sink_id + 1;
        let audio_to_play = AudioToPlay {
            source_handle,
            stop_handle,
            settings,
            spatial_settings: Some(
                SpatialSettings { options: spatial_options, buffered_settings: None },
            ),
        };
        self.queue.push(audio_to_play);
        stop_handle
    }

    /// Ask to play `source_handle` with buffered (look-ahead)
    /// spatialization: the signal is rendered ahead of time up to
    /// `max_distance` at `rate` for `buffer_duration`, so it need not
    /// support seeking.
    ///
    /// Appends a request to the tail of the queue and immediately returns a
    /// fresh sink identifier, not yet valid: it becomes a live control
    /// handle once the request is serviced by a buffered spatial drain
    /// pass.
    pub fn play_spatial_buffered(
        &mut self,
        source_handle: u64,
        settings: Source::Settings,
        spatial_options: SpatialOptions,
        max_distance: i64,
        rate: u32,
        buffer_duration: i64,
    ) -> (sink_id: u64)
        requires
            old(self).wf(),
            old(self).next_id() < u64::MAX,
        ensures
            final(self).wf(),
            sink_id == old(self).next_id(),
            final(self).next_id() == old(self).next_id() + 1,
            final(self).requests() == old(self).requests().push(
                AudioToPlay {
                    source_handle,
                    stop_handle: sink_id,
                    settings,
                    spatial_settings: Some(
                        SpatialSettings {
                            options: spatial_options,
                            buffered_settings: Some(
                                BufferedSettings { max_distance, rate, buffer_duration },
                            ),
                        },
                    ),
                },
            ),
    {
        let stop_handle = self.next_sink_id;
        self.next_sink_id = self.next_sink_id + 1;
        let audio_to_play = AudioToPlay {
            source_handle,
            stop_handle,
            settings,
            spatial_settings: Some(
                SpatialSettings {
                    options: spatial_options,
                    buffered_settings: Some(
                        BufferedSettings { max_distance, rate, buffer_duration },
                    ),
                },
            ),
        };
        self.queue.push(audio_to_play);
        stop_handle
    }
}

} // verus!
