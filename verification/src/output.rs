//! Audio output: the sink registry of the mixed (non-spatial) output path,
//! the drain pass that starts queued requests, and the negotiation of the
//! device stream configuration.
//!
//! The registry is the owner of record of every live control handle: a
//! started sound stays controllable (and audible) even if the application
//! never stores the identifier it got back. Control operations against an
//! identifier that is unknown or already stopped are silent no-ops, since
//! callers routinely race against natural sound completion.

use vstd::prelude::*;

use crate::registry;
use crate::Assets;
use crate::Audio;
use crate::AudioToPlay;
use crate::ToSignal;

/// Spatial audio output.
pub mod spatial;

verus! {

/// The playback state every sink carries: whether it is paused, whether it
/// has been permanently stopped, and how many frames it has rendered.
#[derive(Clone, Copy, Debug, PartialEq, Eq, Structural)]
pub struct Playback {
    /// Playback is suspended, but keeps its position.
    pub paused: bool,
    /// Playback has been permanently stopped.
    pub stopped: bool,
    /// Frames rendered so far.
    pub position: u64,
}

/// The playback state of a freshly started sound.
pub open spec fn initial_playback() -> Playback {
    Playback { paused: false, stopped: false, position: 0 }
}

/// Pausing suspends a sink that is not stopped; a stopped sink is beyond
/// control.
pub open spec fn pause_playback(p: Playback) -> Playback {
    if p.stopped {
        p
    } else {
        Playback { paused: true, ..p }
    }
}

/// Resuming lifts the suspension of a sink that is not stopped.
pub open spec fn resume_playback(p: Playback) -> Playback {
    if p.stopped {
        p
    } else {
        Playback { paused: false, ..p }
    }
}

/// Stopping is permanent.
pub open spec fn stop_playback(p: Playback) -> Playback {
    Playback { stopped: true, ..p }
}

/// A rendered batch advances the position of a sink that is neither paused
/// nor stopped, saturating at the top of the counter.
pub open spec fn advance_playback(p: Playback, frames: u64) -> Playback {
    if p.stopped || p.paused {
        p
    } else if p.position + frames <= u64::MAX {
        Playback { position: (p.position + frames) as u64, ..p }
    } else {
        Playback { position: u64::MAX, ..p }
    }
}

/// Unity gain, in thousandths of an amplitude ratio.
pub const UNITY_GAIN: i64 = 1000;

/// A live control handle over one playing signal of the mixed output path.
pub struct AudioSink<Source: ToSignal> {
    /// The signal installed into the mixing graph.
    pub signal: Source::Signal,
    /// Pause/stop/position state.
    pub playback: Playback,
    /// Amplitude ratio applied to the signal, in thousandths.
    pub gain: i64,
}

impl<Source: ToSignal> AudioSink<Source> {
    /// This sink with its playback state replaced.
    pub open spec fn with_playback(self, p: Playback) -> Self {
        AudioSink { playback: p, ..self }
    }

    /// This sink with its gain replaced.
    pub open spec fn with_gain(self, gain: i64) -> Self {
        AudioSink { gain, ..self }
    }
}

/// Pausing a sink registry: the identified sink, if present and not
/// stopped, is suspended; every other sink is untouched.
pub open spec fn pause_transition<Source: ToSignal>(
    m: Map<u64, AudioSink<Source>>,
    id: u64,
) -> Map<u64, AudioSink<Source>> {
    if m.contains_key(id) {
        m.insert(id, m[id].with_playback(pause_playback(m[id].playback)))
    } else {
        m
    }
}

/// Resuming a sink registry: the identified sink, if present and not
/// stopped, is unsuspended; every other sink is untouched.
pub open spec fn resume_transition<Source: ToSignal>(
    m: Map<u64, AudioSink<Source>>,
    id: u64,
) -> Map<u64, AudioSink<Source>> {
    if m.contains_key(id) {
        m.insert(id, m[id].with_playback(resume_playback(m[id].playback)))
    } else {
        m
    }
}

/// Stopping a sink registry: the identified sink, if present, is
/// permanently stopped; every other sink is untouched.
pub open spec fn stop_transition<Source: ToSignal>(
    m: Map<u64, AudioSink<Source>>,
    id: u64,
) -> Map<u64, AudioSink<Source>> {
    if m.contains_key(id) {
        m.insert(id, m[id].with_playback(stop_playback(m[id].playback)))
    } else {
        m
    }
}

/// Setting the gain of a sink registry: the identified sink, if present and
/// not stopped, gets the new gain; every other sink is untouched.
pub open spec fn set_gain_transition<Source: ToSignal>(
    m: Map<u64, AudioSink<Source>>,
    id: u64,
    gain: i64,
) -> Map<u64, AudioSink<Source>> {
    if m.contains_key(id) && !m[id].playback.stopped {
        m.insert(id, m[id].with_gain(gain))
    } else {
        m
    }
}

/// Storage of all live sinks of the mixed output path, in installation
/// order.
pub struct AudioSinks<Source: ToSignal> {
    entries: Vec<(u64, AudioSink<Source>)>,
}

impl<Source: ToSignal> AudioSinks<Source> {
    /// The live sinks, by identifier.
    pub closed spec fn sinks(&self) -> Map<u64, AudioSink<Source>> {
        registry::entries_map(self.entries@)
    }

    /// The sink identifiers, in installation order.
    pub closed spec fn sink_ids(&self) -> Seq<u64> {
        registry::entry_keys(self.entries@)
    }

    /// Sink identifiers are pairwise distinct.
    pub closed spec fn wf(&self) -> bool {
        registry::distinct_keys(self.entries@)
    }

    /// An empty registry.
    pub fn new() -> (sinks: Self)
        ensures
            sinks.wf(),
            sinks.sinks() == Map::<u64, AudioSink<Source>>::empty(),
            sinks.sink_ids() == Seq::<u64>::empty(),
    {
        let sinks = AudioSinks { entries: Vec::new() };
        proof {
            assert(sinks.sink_ids() =~= Seq::<u64>::empty());
        }
        sinks
    }

    /// How many sinks are live.
    pub fn len(&self) -> (n: usize)
        ensures
            n == self.sink_ids().len(),
    {
        self.entries.len()
    }

    /// The live sink identifiers, in installation order.
    pub fn ids(&self) -> (ids: Vec<u64>)
        ensures
            ids@ == self.sink_ids(),
    {
        let mut ids: Vec<u64> = Vec::new();
        let mut i: usize = 0;
        while i < self.entries.len()
            invariant
                i <= self.entries@.len(),
                ids@ == registry::entry_keys(self.entries@).take(i as int),
            decreases self.entries@.len() - i,
        {
            ids.push(self.entries[i].0);
            proof {
                assert(ids@ =~= registry::entry_keys(self.entries@).take(i + 1));
            }
            i += 1;
        }
        proof {
            assert(ids@ =~= registry::entry_keys(self.entries@));
        }
        ids
    }

    /// Look a sink up; `None` once it was never installed (or the registry
    /// never learned of the identifier).
    pub fn get(&self, id: u64) -> (found: Option<&AudioSink<Source>>)
        requires
            self.wf(),
        ensures
            match found {
                Some(sink) => self.sinks().contains_key(id) && *sink == self.sinks()[id],
                None => !self.sinks().contains_key(id),
            },
    {
        proof {
            registry::lemma_entries_map_domain(self.entries@);
        }
        match registry::find_entry(&self.entries, id) {
            Some(i) => {
                proof {
                    registry::lemma_entries_map_index(self.entries@, i as int);
                }
                Some(&self.entries[i].1)
            },
            None => None,
        }
    }

    /// Install a freshly started sink under its pre-allocated identifier.
    pub(crate) fn install(&mut self, id: u64, sink: AudioSink<Source>)
        requires
            old(self).wf(),
            !old(self).sinks().contains_key(id),
        ensures
            final(self).wf(),
            final(self).sinks() == old(self).sinks().insert(id, sink),
            final(self).sink_ids() == old(self).sink_ids().push(id),
    {
        proof {
            registry::lemma_entries_map_domain(self.entries@);
            registry::lemma_entries_map_push(self.entries@, id, sink);
            assert forall|i: int, j: int|
                0 <= i < j < self.entries@.push((id, sink)).len() implies (#[trigger] self.entries@.push(
                (id, sink),
            )[i]).0 != (#[trigger] self.entries@.push((id, sink))[j]).0 by {
                if j < self.entries@.len() {
                } else {
                    assert(self.entries@.push((id, sink))[i] == self.entries@[i]);
                }
            }
        }
        self.entries.push((id, sink));
    }

    /// Pause the identified sink. A no-op once the sink is stopped, gone,
    /// or was never started.
    pub fn pause(&mut self, id: u64)
        requires
            old(self).wf(),
        ensures
            final(self).wf(),
            final(self).sink_ids() == old(self).sink_ids(),
            final(self).sinks() == pause_transition(old(self).sinks(), id),
    {
        proof {
            registry::lemma_entries_map_domain(self.entries@);
        }
        match registry::find_entry(&self.entries, id) {
            Some(i) => {
                proof {
                    registry::lemma_entries_map_index(self.entries@, i as int);
                }
                let ghost entries0 = self.entries@;
                let entry = &mut self.entries[i];
                let ghost sink0 = entry.1;
                if !entry.1.playback.stopped {
                    entry.1.playback.paused = true;
                }
                proof {
                    let updated = sink0.with_playback(pause_playback(sink0.playback));
                    assert(self.entries@ =~= entries0.update(i as int, (id, updated)));
                    registry::lemma_entries_map_update(entries0, i as int, updated);
                    assert(final(self).sinks() =~= pause_transition(
                        registry::entries_map(entries0),
                        id,
                    ));
                }
            },
            None => {
                proof {
                    assert(final(self).sinks() =~= pause_transition(old(self).sinks(), id));
                }
            },
        }
    }

    /// Resume the identified sink. A no-op once the sink is stopped, gone,
    /// or was never started.
    pub fn resume(&mut self, id: u64)
        requires
            old(self).wf(),
        ensures
            final(self).wf(),
            final(self).sink_ids() == old(self).sink_ids(),
            final(self).sinks() == resume_transition(old(self).sinks(), id),
    {
        proof {
            registry::lemma_entries_map_domain(self.entries@);
        }
        match registry::find_entry(&self.entries, id) {
            Some(i) => {
                proof {
                    registry::lemma_entries_map_index(self.entries@, i as int);
                }
                let ghost entries0 = self.entries@;
                let entry = &mut self.entries[i];
                let ghost sink0 = entry.1;
                if !entry.1.playback.stopped {
                    entry.1.playback.paused = false;
                }
                proof {
                    let updated = sink0.with_playback(resume_playback(sink0.playback));
                    assert(self.entries@ =~= entries0.update(i as int, (id, updated)));
                    registry::lemma_entries_map_update(entries0, i as int, updated);
                    assert(final(self).sinks() =~= resume_transition(
                        registry::entries_map(entries0),
                        id,
                    ));
                }
            },
            None => {
                proof {
                    assert(final(self).sinks() =~= resume_transition(old(self).sinks(), id));
                }
            },
        }
    }

    /// Permanently stop the identified sink. A no-op once the sink is gone
    /// or was never started; stopping twice changes nothing further.
    pub fn stop(&mut self, id: u64)
        requires
            old(self).wf(),
        ensures
            final(self).wf(),
            final(self).sink_ids() == old(self).sink_ids(),
            final(self).sinks() == stop_transition(old(self).sinks(), id),
    {
        proof {
            registry::lemma_entries_map_domain(self.entries@);
        }
        match registry::find_entry(&self.entries, id) {
            Some(i) => {
                proof {
                    registry::lemma_entries_map_index(self.entries@, i as int);
                }
                let ghost entries0 = self.entries@;
                let entry = &mut self.entries[i];
                let ghost sink0 = entry.1;
                entry.1.playback.stopped = true;
                proof {
                    let updated = sink0.with_playback(stop_playback(sink0.playback));
                    assert(self.entries@ =~= entries0.update(i as int, (id, updated)));
                    registry::lemma_entries_map_update(entries0, i as int, updated);
                    assert(final(self).sinks() =~= stop_transition(
                        registry::entries_map(entries0),
                        id,
                    ));
                }
            },
            None => {
                proof {
                    assert(final(self).sinks() =~= stop_transition(old(self).sinks(), id));
                }
            },
        }
    }

    /// Set the gain of the identified sink, in thousandths of an amplitude
    /// ratio. A no-op once the sink is stopped, gone, or was never started;
    /// no other sink is affected.
    pub fn set_gain(&mut self, id: u64, gain: i64)
        requires
            old(self).wf(),
        ensures
            final(self).wf(),
            final(self).sink_ids() == old(self).sink_ids(),
            final(self).sinks() == set_gain_transition(old(self).sinks(), id, gain),
    {
        proof {
            registry::lemma_entries_map_domain(self.entries@);
        }
        match registry::find_entry(&self.entries, id) {
            Some(i) => {
                proof {
                    registry::lemma_entries_map_index(self.entries@, i as int);
                }
                let ghost entries0 = self.entries@;
                let entry = &mut self.entries[i];
                let ghost sink0 = entry.1;
                if !entry.1.playback.stopped {
                    entry.1.gain = gain;
                    proof {
                        let updated = sink0.with_gain(gain);
                        assert(self.entries@ =~= entries0.update(i as int, (id, updated)));
                        registry::lemma_entries_map_update(entries0, i as int, updated);
                        assert(final(self).sinks() =~= set_gain_transition(
                            registry::entries_map(entries0),
                            id,
                            gain,
                        ));
                    }
                } else {
                    proof {
                        assert(self.entries@ =~= entries0.update(i as int, (id, sink0)));
                        assert(self.entries@ =~= entries0);
                        assert(final(self).sinks() =~= set_gain_transition(
                            registry::entries_map(entries0),
                            id,
                            gain,
                        ));
                    }
                }
            },
            None => {
                proof {
                    assert(final(self).sinks() =~= set_gain_transition(
                        old(self).sinks(),
                        id,
                        gain,
                    ));
                }
            },
        }
    }

    /// Account one rendered batch of `frames` frames: every sink that is
    /// neither paused nor stopped advances its position by that much.
    pub fn advance(&mut self, frames: u64)
        requires
            old(self).wf(),
        ensures
            final(self).wf(),
            final(self).sink_ids() == old(self).sink_ids(),
            final(self).sinks().dom() == old(self).sinks().dom(),
            forall|k: u64| #[trigger]
                old(self).sinks().contains_key(k) ==> final(self).sinks()[k] == old(
                    self,
                ).sinks()[k].with_playback(advance_playback(old(self).sinks()[k].playback, frames)),
    {
        let ghost entries0 = self.entries@;
        let end: usize = self.entries.len();
        let mut i: usize = 0;
        while i < end
            invariant
                i <= end,
                end == self.entries@.len(),
                entries0.len() == end,
                registry::distinct_keys(entries0),
                forall|j: int|
                    0 <= j < i ==> #[trigger] self.entries@[j] == (
                    entries0[j].0,
                    entries0[j].1.with_playback(
                        advance_playback(entries0[j].1.playback, frames),
                    ),
                ),
                forall|j: int| i <= j < end ==> #[trigger] self.entries@[j] == entries0[j],
            decreases end - i,
        {
            let entry = &mut self.entries[i];
            if !entry.1.playback.stopped && !entry.1.playback.paused {
                if entry.1.playback.position <= u64::MAX - frames {
                    entry.1.playback.position = entry.1.playback.position + frames;
                } else {
                    entry.1.playback.position = u64::MAX;
                }
            }
            i += 1;
        }
        proof {
            assert(registry::entry_keys(self.entries@) =~= registry::entry_keys(entries0));
            assert(registry::distinct_keys(self.entries@)) by {
                assert forall|a: int, b: int|
                    0 <= a < b < self.entries@.len() implies (#[trigger] self.entries@[a]).0 != (
                #[trigger] self.entries@[b]).0 by {
                    assert(self.entries@[a].0 == entries0[a].0);
                    assert(self.entries@[b].0 == entries0[b].0);
                }
            }
            registry::lemma_entries_map_domain(entries0);
            registry::lemma_entries_map_domain(self.entries@);
            assert forall|k: u64|
                registry::entries_map(self.entries@).contains_key(k) == registry::entries_map(
                entries0,
            ).contains_key(k) by {
                if registry::entries_map(self.entries@).contains_key(k) {
                    let j = choose|j: int|
                        0 <= j < self.entries@.len() && (#[trigger] self.entries@[j]).0 == k;
                    assert(self.entries@[j].0 == entries0[j].0);
                    assert(registry::entries_map(entries0).contains_key(k));
                }
                if registry::entries_map(entries0).contains_key(k) {
                    let j = choose|j: int|
                        0 <= j < entries0.len() && (#[trigger] entries0[j]).0 == k;
                    assert(self.entries@[j].0 == entries0[j].0);
                    assert(registry::entries_map(self.entries@).contains_key(k));
                }
            }
            assert(final(self).sinks().dom() =~= registry::entries_map(entries0).dom());
            assert forall|k: u64| #[trigger]
                registry::entries_map(entries0).contains_key(k) implies registry::entries_map(
                self.entries@,
            )[k] == registry::entries_map(entries0)[k].with_playback(
                advance_playback(registry::entries_map(entries0)[k].playback, frames),
            ) by {
                let j = choose|j: int| 0 <= j < entries0.len() && (#[trigger] entries0[j]).0 == k;
                registry::lemma_entries_map_index(entries0, j);
                registry::lemma_entries_map_index(self.entries@, j);
            }
        }
    }
}

impl<Source: ToSignal> Default for AudioSinks<Source> {
    /// An empty registry.
    fn default() -> (sinks: Self)
        ensures
            sinks.wf(),
            sinks.sinks() == Map::<u64, AudioSink<Source>>::empty(),
            sinks.sink_ids() == Seq::<u64>::empty(),
    {
        Self::new()
    }
}

/// A sink freshly installed for request `r`: playback just started at
/// unity gain, and the signal converted from the request's source and
/// settings.
pub open spec fn is_fresh_install<Source: ToSignal>(
    sink: AudioSink<Source>,
    source: Source,
    r: AudioToPlay<Source>,
) -> bool {
    &&& sink.playback == initial_playback()
    &&& sink.gain == UNITY_GAIN
    &&& source.produces(r.settings, sink.signal)
}

/// How one drain pass changes the sink registry: every started request is
/// live under its pre-allocated identifier, freshly installed from its
/// source; sinks that were already live are untouched; nothing else
/// appears.
pub open spec fn drain_installs<Source: ToSignal>(
    started_requests: Seq<AudioToPlay<Source>>,
    sources: Map<u64, Source>,
    before: Map<u64, AudioSink<Source>>,
    after: Map<u64, AudioSink<Source>>,
) -> bool {
    &&& forall|j: int|
        0 <= j < started_requests.len() ==> {
            &&& after.contains_key((#[trigger] started_requests[j]).stop_handle)
            &&& is_fresh_install(
                after[started_requests[j].stop_handle],
                sources[started_requests[j].source_handle],
                started_requests[j],
            )
        }
    &&& forall|k: u64| #[trigger]
        before.contains_key(k) ==> after.contains_key(k) && after[k] == before[k]
    &&& forall|k: u64| #[trigger]
        after.contains_key(k) ==> before.contains_key(k) || crate::request_ids(
            started_requests,
        ).contains(k)
}

/// The queue and the registry of one output path are consistent: a pending
/// request is never already live (each request is visible in at most one
/// of the two), and every identifier either side knows is below the
/// allocator's next one.
pub open spec fn engine_inv<Source: ToSignal>(
    audio: Audio<Source>,
    sinks: AudioSinks<Source>,
) -> bool {
    &&& audio.wf()
    &&& sinks.wf()
    &&& forall|i: int|
        0 <= i < audio.requests().len() ==> !sinks.sinks().contains_key(
            (#[trigger] audio.requests()[i]).stop_handle,
        )
    &&& forall|k: u64| #[trigger] sinks.sinks().contains_key(k) ==> k < audio.next_id()
}

/// One drain pass of the mixed output path.
///
/// Visits every request queued at the start of the pass exactly once, in
/// submission order. A request whose source has arrived is started: its
/// signal is built, installed into the graph, and registered under the
/// request's pre-allocated sink identifier. A request whose source is
/// still loading is re-enqueued at the tail, keeping its order for the
/// next pass, and so is a ready request destined for another output path:
/// it stays pending until that path's own drain starts it, so no request
/// is ever lost.
pub fn play_queued_audio<Source: ToSignal>(
    audio: &mut Audio<Source>,
    sources: &Assets<Source>,
    sinks: &mut AudioSinks<Source>,
)
    requires
        engine_inv(*old(audio), *old(sinks)),
        sources.wf(),
    ensures
        engine_inv(*final(audio), *final(sinks)),
        final(audio).next_id() == old(audio).next_id(),
        final(audio).requests() == crate::pending_after(
            old(audio).requests(),
            sources.table(),
            crate::RequestKind::Plain,
        ),
        final(sinks).sink_ids() == old(sinks).sink_ids() + crate::request_ids(
            crate::started(old(audio).requests(), sources.table(), crate::RequestKind::Plain),
        ),
        drain_installs(
            crate::started(old(audio).requests(), sources.table(), crate::RequestKind::Plain),
            sources.table(),
            old(sinks).sinks(),
            final(sinks).sinks(),
        ),
{
    let ghost q0 = audio.queue@;
    let ghost m = sources.table();
    let ghost kind = crate::RequestKind::Plain;
    let ghost ids0 = sinks.sink_ids();
    let ghost map0 = sinks.sinks();
    let ghost n0 = audio.next_sink_id;
    let end: usize = audio.queue.len();
    proof {
        assert(q0.take(0) =~= Seq::<AudioToPlay<Source>>::empty());
        assert(crate::request_ids(crate::started(q0.take(0), m, kind)) =~= Seq::<u64>::empty());
        assert(sinks.sink_ids() =~= ids0 + crate::request_ids(crate::started(q0.take(0), m, kind)));
        assert(audio.queue@ =~= q0.skip(0) + crate::pending_after(q0.take(0), m, kind));
    }
    let mut i: usize = 0;
    while i < end
        invariant
            i <= end,
            end == q0.len(),
            sources.wf(),
            sources.table() == m,
            kind == crate::RequestKind::Plain,
            audio.next_sink_id == n0,
            audio.queue@ == q0.skip(i as int) + crate::pending_after(q0.take(i as int), m, kind),
            sinks.wf(),
            sinks.sink_ids() == ids0 + crate::request_ids(
                crate::started(q0.take(i as int), m, kind),
            ),
            crate::distinct_request_ids(q0),
            forall|j: int| 0 <= j < q0.len() ==> (#[trigger] q0[j]).stop_handle < n0,
            forall|k: u64| #[trigger] map0.contains_key(k) ==> k < n0,
            forall|j: int| i <= j < q0.len() ==> !sinks.sinks().contains_key(
                (#[trigger] q0[j]).stop_handle,
            ),
            forall|k: u64| #[trigger]
                map0.contains_key(k) ==> sinks.sinks().contains_key(k) && sinks.sinks()[k] == map0[
                k],
            forall|j: int|
                0 <= j < i && crate::ready(#[trigger] q0[j], m) && crate::kind_of(q0[j]) == kind
                    ==> {
                    &&& sinks.sinks().contains_key(q0[j].stop_handle)
                    &&& is_fresh_install(
                        sinks.sinks()[q0[j].stop_handle],
                        m[q0[j].source_handle],
                        q0[j],
                    )
                },
            forall|k: u64| #[trigger]
                sinks.sinks().contains_key(k) ==> map0.contains_key(k) || (exists|j: int|
                    0 <= j < i && crate::ready(#[trigger] q0[j], m) && crate::kind_of(q0[j]) == kind
                        && q0[j].stop_handle == k),
        decreases end - i,
    {
        proof {
            assert(audio.queue@.len() > 0);
            assert(audio.queue@[0] == q0[i as int]);
        }
        let config = audio.queue.remove(0);
        proof {
            assert(config == q0[i as int]);
            assert(audio.queue@ =~= q0.skip(i + 1) + crate::pending_after(
                q0.take(i as int),
                m,
                kind,
            ));
            assert(q0.take(i + 1) =~= q0.take(i as int).push(q0[i as int]));
            crate::lemma_pending_after_push(q0.take(i as int), m, kind, q0[i as int]);
            crate::lemma_started_push(q0.take(i as int), m, kind, q0[i as int]);
        }
        match sources.get(config.source_handle) {
            Some(audio_source) => {
                proof {
                    assert(crate::ready(q0[i as int], m));
                }
                if config.spatial_settings.is_none() {
                    proof {
                        assert(crate::kind_of(q0[i as int]) == kind);
                    }
                    let AudioToPlay { stop_handle, settings, .. } = config;
                    let signal = audio_source.to_signal(settings);
                    let sink = AudioSink {
                        signal,
                        playback: Playback { paused: false, stopped: false, position: 0 },
                        gain: UNITY_GAIN,
                    };
                    sinks.install(stop_handle, sink);
                    proof {
                        assert(crate::due(q0[i as int], m, kind));
                        let prev = crate::started(q0.take(i as int), m, kind);
                        let prev_ids = crate::request_ids(prev);
                        assert(crate::started(q0.take(i + 1), m, kind) == prev.push(q0[i as int]));
                        assert(crate::request_ids(prev.push(q0[i as int])) =~= prev_ids.push(
                            stop_handle,
                        ));
                        assert((ids0 + prev_ids).push(stop_handle) =~= ids0 + prev_ids.push(
                            stop_handle,
                        ));
                    }
                } else {
                    // Ready, but destined for a spatial path: it stays
                    // pending for that path's own drain.
                    audio.queue.push(config);
                    proof {
                        assert(!crate::due(q0[i as int], m, kind));
                        assert(audio.queue@ =~= q0.skip(i + 1) + crate::pending_after(
                            q0.take(i + 1),
                            m,
                            kind,
                        ));
                    }
                }
            },
            None => {
                audio.queue.push(config);
                proof {
                    assert(audio.queue@ =~= q0.skip(i + 1) + crate::pending_after(
                        q0.take(i + 1),
                        m,
                        kind,
                    ));
                }
            },
        }
        i += 1;
    }
    proof {
        assert(q0.take(end as int) =~= q0);
        assert(q0.skip(end as int) =~= Seq::<AudioToPlay<Source>>::empty());
        assert(audio.queue@ =~= crate::pending_after(q0, m, kind));
        crate::lemma_pending_after_props(q0, m, kind);
        crate::lemma_started_props(q0, m, kind);
        let pend = crate::pending_after(q0, m, kind);
        assert forall|a: int|
            0 <= a < pend.len() implies (#[trigger] pend[a]).stop_handle < n0
            && !sinks.sinks().contains_key(pend[a].stop_handle) by {
            let i0 = choose|i0: int| 0 <= i0 < q0.len() && #[trigger] pend[a] == q0[i0];
            assert(q0[i0].stop_handle < n0);
            if sinks.sinks().contains_key(pend[a].stop_handle) {
                if map0.contains_key(pend[a].stop_handle) {
                    assert(!map0.contains_key(q0[i0].stop_handle));
                } else {
                    let j = choose|j: int|
                        0 <= j < q0.len() && crate::ready(#[trigger] q0[j], m) && crate::kind_of(
                            q0[j],
                        ) == kind && q0[j].stop_handle == pend[a].stop_handle;
                    assert(!crate::due(pend[a], m, kind));
                    assert(j != i0);
                    assert(q0[j].stop_handle != q0[i0].stop_handle);
                }
            }
        }
        let strt = crate::started(q0, m, kind);
        assert forall|k: u64| #[trigger]
            sinks.sinks().contains_key(k) implies map0.contains_key(k) || crate::request_ids(
            strt,
        ).contains(k) by {
            if !map0.contains_key(k) {
                let j = choose|j: int|
                    0 <= j < q0.len() && crate::ready(#[trigger] q0[j], m) && crate::kind_of(q0[j])
                        == kind && q0[j].stop_handle == k;
                assert(crate::request_ids(strt).contains(q0[j].stop_handle));
            }
        }
        assert forall|j: int| 0 <= j < strt.len() implies {
            &&& sinks.sinks().contains_key((#[trigger] strt[j]).stop_handle)
            &&& is_fresh_install(
                sinks.sinks()[strt[j].stop_handle],
                m[strt[j].source_handle],
                strt[j],
            )
        } by {
            let i0 = choose|i0: int| 0 <= i0 < q0.len() && #[trigger] strt[j] == q0[i0];
            assert(crate::ready(q0[i0], m) && crate::kind_of(q0[i0]) == kind);
        }
        assert forall|k: u64| #[trigger]
            sinks.sinks().contains_key(k) implies k < n0 by {
            if !map0.contains_key(k) {
                let j = choose|j: int|
                    0 <= j < q0.len() && crate::ready(#[trigger] q0[j], m) && crate::kind_of(q0[j])
                        == kind && q0[j].stop_handle == k;
            }
        }
    }
}

/// The buffer sizes a device reports for an output stream: either a
/// supported range or nothing.
#[derive(Clone, Copy, Debug, PartialEq, Eq, Structural)]
pub enum SupportedBufferSize {
    /// The device supports any buffer size in this range, in frames.
    Range {
        /// Smallest supported buffer size.
        min: u32,
        /// Largest supported buffer size.
        max: u32,
    },
    /// The device does not report its supported buffer sizes.
    Unknown,
}

/// One output configuration range a device reports: a channel count, a
/// sample-rate range, and the supported buffer sizes.
#[derive(Clone, Copy, Debug, PartialEq, Eq, Structural)]
pub struct SupportedStreamConfigRange {
    /// Number of interleaved channels per frame.
    pub channels: u16,
    /// Smallest supported sample rate, in frames per second.
    pub min_sample_rate: u32,
    /// Largest supported sample rate, in frames per second.
    pub max_sample_rate: u32,
    /// The buffer sizes the device supports.
    pub buffer_size: SupportedBufferSize,
}

/// The buffer size requested of the device.
#[derive(Clone, Copy, Debug, PartialEq, Eq, Structural)]
pub enum BufferSize {
    /// Ask for exactly this many frames per callback.
    Fixed(u32),
    /// Let the device pick.
    DeviceDefault,
}

/// The stream configuration requested of the device.
#[derive(Clone, Copy, Debug, PartialEq, Eq, Structural)]
pub struct StreamConfig {
    /// Number of interleaved channels per frame.
    pub channels: u16,
    /// Sample rate, in frames per second.
    pub sample_rate: u32,
    /// Requested buffer size.
    pub buffer_size: BufferSize,
}

/// Negotiate the stream configuration from what the device offers: keep
/// the channel count, take the highest sample rate, and prefer the
/// smallest supported buffer size for low latency — the device default
/// when no range is reported.
pub fn negotiate_stream_config(range: &SupportedStreamConfigRange) -> (config: StreamConfig)
    ensures
        config.channels == range.channels,
        config.sample_rate == range.max_sample_rate,
        match range.buffer_size {
            SupportedBufferSize::Range { min, .. } => config.buffer_size == BufferSize::Fixed(min),
            SupportedBufferSize::Unknown => config.buffer_size == BufferSize::DeviceDefault,
        },
{
    let buffer_size = match range.buffer_size {
        SupportedBufferSize::Range { min, .. } => BufferSize::Fixed(min),
        SupportedBufferSize::Unknown => BufferSize::DeviceDefault,
    };
    StreamConfig { channels: range.channels, sample_rate: range.max_sample_rate, buffer_size }
}

/// The largest positive value of an integer sample of `bits_per_sample`
/// bits: the divisor that normalizes such a sample to an amplitude ratio.
pub fn int_sample_scale(bits_per_sample: u16) -> (scale: u32)
    requires
        1 <= bits_per_sample <= 32,
    ensures
        scale == vstd::arithmetic::power2::pow2((bits_per_sample - 1) as nat) - 1,
{
    proof {
        vstd::arithmetic::power2::lemma2_to64();
    }
    let shift: u16 = bits_per_sample - 1;
    let mut value: u64 = 1;
    let mut k: u16 = 0;
    while k < shift
        invariant
            k <= shift,
            shift <= 31,
            value == vstd::arithmetic::power2::pow2(k as nat),
            value <= 0x8000_0000,
        decreases shift - k,
    {
        proof {
            if (k + 1) as nat <= 31 {
                vstd::arithmetic::power2::lemma_pow2_strictly_increases((k + 1) as nat, 32nat);
            }
            vstd::arithmetic::power2::lemma2_to64();
        }
        value = value * 2;
        k = k + 1;
    }
    proof {
        vstd::arithmetic::power2::lemma2_to64();
        if (shift as nat) < 31 {
            vstd::arithmetic::power2::lemma_pow2_strictly_increases(shift as nat, 31nat);
        }
    }
    (value - 1) as u32
}

/// Stopping is final: any later pause, resume or gain change on the same
/// identifier leaves the registry exactly as the stop left it, and no such
/// call ever fails.
pub proof fn lemma_control_after_stop_noop<Source: ToSignal>(
    m: Map<u64, AudioSink<Source>>,
    id: u64,
    gain: i64,
)
    ensures
        pause_transition(stop_transition(m, id), id) == stop_transition(m, id),
        resume_transition(stop_transition(m, id), id) == stop_transition(m, id),
        stop_transition(stop_transition(m, id), id) == stop_transition(m, id),
        set_gain_transition(stop_transition(m, id), id, gain) == stop_transition(m, id),
{
    let stopped = stop_transition(m, id);
    if m.contains_key(id) {
        assert(stopped[id].playback.stopped);
        assert(pause_transition(stopped, id) =~= stopped);
        assert(resume_transition(stopped, id) =~= stopped);
        assert(stop_transition(stopped, id) =~= stopped);
        assert(set_gain_transition(stopped, id, gain) =~= stopped);
    }
}

/// Asking to play keeps the queue and the registry consistent: the fresh
/// request enters the queue and nothing else changes, so each request is
/// still visible in exactly one place.
pub proof fn lemma_play_preserves_engine_inv<Source: ToSignal>(
    pre: Audio<Source>,
    post: Audio<Source>,
    sinks: AudioSinks<Source>,
    r: AudioToPlay<Source>,
)
    requires
        engine_inv(pre, sinks),
        pre.next_id() < u64::MAX,
        r.stop_handle == pre.next_id(),
        post.requests() == pre.requests().push(r),
        post.next_id() == pre.next_id() + 1,
    ensures
        engine_inv(post, sinks),
{
    assert(forall|i: int|
        0 <= i < pre.requests().len() ==> #[trigger] post.requests()[i] == pre.requests()[i]);
    assert(post.requests()[post.requests().len() - 1] == r);
}

/// A control call on one identifier never affects another sink.
pub proof fn lemma_control_is_local<Source: ToSignal>(
    m: Map<u64, AudioSink<Source>>,
    id: u64,
    gain: i64,
    other: u64,
)
    requires
        other != id,
        m.contains_key(other),
    ensures
        pause_transition(m, id)[other] == m[other],
        resume_transition(m, id)[other] == m[other],
        stop_transition(m, id)[other] == m[other],
        set_gain_transition(m, id, gain)[other] == m[other],
{
}

/// Pausing and then resuming restores the sink exactly: in particular the
/// playback position is kept, so audible output carries on where it left
/// off.
pub proof fn lemma_pause_resume_restores<Source: ToSignal>(m: Map<u64, AudioSink<Source>>, id: u64)
    requires
        m.contains_key(id),
        !m[id].playback.paused,
    ensures
        resume_transition(pause_transition(m, id), id) == m,
        pause_transition(m, id)[id].playback.position == m[id].playback.position,
{
    assert(resume_transition(pause_transition(m, id), id) =~= m);
}

} // verus!
