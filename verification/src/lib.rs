//! Core of a deferred-playback audio engine.
//!
//! Application code schedules playback of audio sources whose decoded data
//! may still be loading. Each play call enqueues a request and immediately
//! hands back a sink identifier; a per-tick drain pass starts every request
//! whose source has become available, installing a live control handle under
//! that identifier. Control operations on a sink (pause, resume, stop, gain,
//! motion) are silent no-ops once the sink is gone or stopped.

use vstd::prelude::*;

pub mod builtins;
pub mod frames;
pub mod math;
pub mod output;
pub mod registry;

verus! {

/// A playable source type: a settings value plus a conversion into a live
/// signal. Conversion is pure and has no side effect beyond constructing
/// the signal value: `produces` relates the signal to the source and the
/// settings alone, and pins it up to the signal's abstract contents.
pub trait ToSignal: Sized {
    /// The settings needed to initialize the signal.
    type Settings;
    /// The signal produced by the implementing type.
    type Signal;

    /// The signal that `to_signal` constructs, as a relation on the source
    /// and the settings.
    spec fn produces(&self, settings: Self::Settings, signal: Self::Signal) -> bool;

    /// Create a new signal based on the implementing type.
    fn to_signal(&self, settings: Self::Settings) -> (signal: Self::Signal)
        ensures
            self.produces(settings, signal),
    ;
}

/// Source of audio data: decoded frames at a fixed sample rate.
pub struct AudioSource<F> {
    /// Raw decoded frames.
    pub frames: Vec<F>,
    /// Frames per second of the decoded data.
    pub sample_rate: u32,
}

/// A live signal that plays a buffer of decoded frames from a start offset.
pub struct FramesSignal<F> {
    /// The frames the signal plays.
    pub frames: Vec<F>,
    /// Frames per second of the data.
    pub rate: u32,
    /// The frame index at which playback begins.
    pub start: u64,
}

impl<F: Copy> ToSignal for AudioSource<F> {
    /// The start offset of playback, in frames.
    type Settings = u64;

    type Signal = FramesSignal<F>;

    open spec fn produces(&self, settings: u64, signal: FramesSignal<F>) -> bool {
        &&& signal.frames@ == self.frames@
        &&& signal.rate == self.sample_rate
        &&& signal.start == settings
    }

    fn to_signal(&self, settings: u64) -> (signal: FramesSignal<F>) {
        FramesSignal {
            frames: frames::copy_frames(&self.frames),
            rate: self.sample_rate,
            start: settings,
        }
    }
}

/// Spatial playback parameters for one play request.
#[derive(Clone, Copy, Debug, PartialEq, Eq, Structural)]
pub struct SpatialOptions {
    /// Initial position of the emitter, in milli-units.
    pub position: math::Vec3,
    /// Initial velocity of the emitter, in milli-units per second.
    pub velocity: math::Vec3,
    /// Radius of the emitter, in milli-units.
    pub radius: i64,
}

/// Parameters of buffered (look-ahead) spatialization.
#[derive(Clone, Copy, Debug, PartialEq, Eq, Structural)]
pub struct BufferedSettings {
    /// Greatest distance at which the emitter is audible, in milli-units.
    pub max_distance: i64,
    /// Sample rate of the look-ahead buffer, in frames per second.
    pub rate: u32,
    /// Length of the look-ahead buffer, in milliseconds.
    pub buffer_duration: i64,
}

/// How a play request is to be spatialized, if at all buffered.
#[derive(Clone, Copy, Debug, PartialEq, Eq, Structural)]
pub struct SpatialSettings {
    /// Position, velocity and radius of the emitter.
    pub options: SpatialOptions,
    /// Present when the request asks for buffered look-ahead playback.
    pub buffered_settings: Option<BufferedSettings>,
}

/// One pending play request: which source to play, under which freshly
/// allocated sink identifier, with which settings. Created the instant the
/// application asks to play; consumed exactly once, either by starting the
/// sound or by being re-enqueued while its source is still loading.
pub struct AudioToPlay<Source: ToSignal> {
    /// Identifier of the source to play.
    pub source_handle: u64,
    /// The sink identifier under which the started sound will be
    /// controllable.
    pub stop_handle: u64,
    /// Settings captured when the request was made.
    pub settings: Source::Settings,
    /// Present when the request asks for spatialized playback.
    pub spatial_settings: Option<SpatialSettings>,
}

/// The output path a request is destined for, decided by its spatial
/// settings: each path has its own graph and its own drain system, and a
/// drain pass starts only the requests destined for its path, leaving the
/// rest pending.
#[derive(Clone, Copy, Debug, PartialEq, Eq, Structural)]
pub enum RequestKind {
    /// Mixed (non-spatial) playback.
    Plain,
    /// On-demand spatialization.
    Spatial,
    /// Buffered (look-ahead) spatialization.
    SpatialBuffered,
}

/// The output path `r` asks for.
pub open spec fn kind_of<Source: ToSignal>(r: AudioToPlay<Source>) -> RequestKind {
    match r.spatial_settings {
        Option::None => RequestKind::Plain,
        Option::Some(s) => match s.buffered_settings {
            Option::None => RequestKind::Spatial,
            Option::Some(_) => RequestKind::SpatialBuffered,
        },
    }
}

/// The source of `r` has been decoded and is available.
pub open spec fn ready<Source: ToSignal>(r: AudioToPlay<Source>, sources: Map<u64, Source>) -> bool {
    sources.contains_key(r.source_handle)
}

/// The sink identifiers of a request sequence, in order.
pub open spec fn request_ids<Source: ToSignal>(q: Seq<AudioToPlay<Source>>) -> Seq<u64> {
    q.map_values(|r: AudioToPlay<Source>| r.stop_handle)
}

/// Requests carry pairwise-distinct sink identifiers.
pub open spec fn distinct_request_ids<Source: ToSignal>(q: Seq<AudioToPlay<Source>>) -> bool {
    forall|i: int, j: int|
        0 <= i < j < q.len() ==> (#[trigger] q[i]).stop_handle != (#[trigger] q[j]).stop_handle
}

/// Request `r` is due to start on a drain pass of path `kind`: its source
/// has arrived and it is destined for that path.
pub open spec fn due<Source: ToSignal>(
    r: AudioToPlay<Source>,
    sources: Map<u64, Source>,
    kind: RequestKind,
) -> bool {
    ready(r, sources) && kind_of(r) == kind
}

/// The requests a drain pass of path `kind` leaves pending: those whose
/// source has not arrived, and those destined for another path, in their
/// original order. A request is never lost: until some pass starts it, it
/// stays in the queue.
pub open spec fn pending_after<Source: ToSignal>(
    q: Seq<AudioToPlay<Source>>,
    sources: Map<u64, Source>,
    kind: RequestKind,
) -> Seq<AudioToPlay<Source>>
    decreases q.len(),
{
    if q.len() == 0 {
        Seq::empty()
    } else {
        let rest = pending_after(q.drop_last(), sources, kind);
        if due(q.last(), sources, kind) {
            rest
        } else {
            rest.push(q.last())
        }
    }
}

/// The requests a drain pass of path `kind` starts: those that are ready
/// and destined for that path, in submission order.
pub open spec fn started<Source: ToSignal>(
    q: Seq<AudioToPlay<Source>>,
    sources: Map<u64, Source>,
    kind: RequestKind,
) -> Seq<AudioToPlay<Source>>
    decreases q.len(),
{
    if q.len() == 0 {
        Seq::empty()
    } else {
        let rest = started(q.drop_last(), sources, kind);
        if ready(q.last(), sources) && kind_of(q.last()) == kind {
            rest.push(q.last())
        } else {
            rest
        }
    }
}

/// Appending a request extends the pending remainder exactly when the
/// request is not due on the drained path.
pub proof fn lemma_pending_after_push<Source: ToSignal>(
    q: Seq<AudioToPlay<Source>>,
    sources: Map<u64, Source>,
    kind: RequestKind,
    r: AudioToPlay<Source>,
)
    ensures
        !due(r, sources, kind) ==> pending_after(q.push(r), sources, kind) == pending_after(
            q,
            sources,
            kind,
        ).push(r),
        due(r, sources, kind) ==> pending_after(q.push(r), sources, kind) == pending_after(
            q,
            sources,
            kind,
        ),
{
    assert(q.push(r).drop_last() =~= q);
    assert(q.push(r).last() == r);
}

/// Appending a request extends the started sequence exactly when the
/// request is ready and destined for the path being drained.
pub proof fn lemma_started_push<Source: ToSignal>(
    q: Seq<AudioToPlay<Source>>,
    sources: Map<u64, Source>,
    kind: RequestKind,
    r: AudioToPlay<Source>,
)
    ensures
        ready(r, sources) && kind_of(r) == kind ==> started(q.push(r), sources, kind) == started(
            q,
            sources,
            kind,
        ).push(r),
        !(ready(r, sources) && kind_of(r) == kind) ==> started(q.push(r), sources, kind) == started(
            q,
            sources,
            kind,
        ),
{
    assert(q.push(r).drop_last() =~= q);
    assert(q.push(r).last() == r);
}

/// What pending requests are: each is an original request that was not due
/// on the drained path, none is invented, and distinct identifiers stay
/// distinct.
pub proof fn lemma_pending_after_props<Source: ToSignal>(
    q: Seq<AudioToPlay<Source>>,
    sources: Map<u64, Source>,
    kind: RequestKind,
)
    ensures
        forall|j: int|
            0 <= j < pending_after(q, sources, kind).len() ==> !due(
                #[trigger] pending_after(q, sources, kind)[j],
                sources,
                kind,
            ),
        forall|j: int|
            0 <= j < pending_after(q, sources, kind).len() ==> exists|i: int|
                0 <= i < q.len() && #[trigger] pending_after(q, sources, kind)[j] == q[i],
        distinct_request_ids(q) ==> distinct_request_ids(pending_after(q, sources, kind)),
    decreases q.len(),
{
    if q.len() > 0 {
        let head = q.drop_last();
        lemma_pending_after_props(head, sources, kind);
        let rest = pending_after(head, sources, kind);
        let out = pending_after(q, sources, kind);
        assert(forall|i: int| 0 <= i < head.len() ==> #[trigger] head[i] == q[i]);
        assert forall|j: int| 0 <= j < out.len() implies exists|i: int|
            0 <= i < q.len() && #[trigger] out[j] == q[i] by {
            if j < rest.len() {
                assert(out[j] == rest[j]);
                let i = choose|i: int| 0 <= i < head.len() && #[trigger] rest[j] == head[i];
                assert(out[j] == q[i]);
            } else {
                assert(out[j] == q[q.len() - 1]);
            }
        }
        if distinct_request_ids(q) {
            assert(distinct_request_ids(head));
            assert forall|a: int, b: int| 0 <= a < b < out.len() implies (#[trigger] out[a]).stop_handle
                != (#[trigger] out[b]).stop_handle by {
                if b < rest.len() {
                    assert(out[a] == rest[a] && out[b] == rest[b]);
                } else {
                    assert(out[b] == q[q.len() - 1]);
                    assert(out[a] == rest[a]);
                    let i = choose|i: int| 0 <= i < head.len() && #[trigger] rest[a] == head[i];
                    assert(q[i].stop_handle != q[q.len() - 1].stop_handle);
                }
            }
        }
    }
}

/// What started requests are: each is an original request that was ready
/// and destined for the drained path, every such original request is
/// started, none is invented, and distinct identifiers stay distinct.
pub proof fn lemma_started_props<Source: ToSignal>(
    q: Seq<AudioToPlay<Source>>,
    sources: Map<u64, Source>,
    kind: RequestKind,
)
    ensures
        forall|j: int|
            0 <= j < started(q, sources, kind).len() ==> ready(
                #[trigger] started(q, sources, kind)[j],
                sources,
            ) && kind_of(started(q, sources, kind)[j]) == kind,
        forall|j: int|
            0 <= j < started(q, sources, kind).len() ==> exists|i: int|
                0 <= i < q.len() && #[trigger] started(q, sources, kind)[j] == q[i],
        forall|i: int|
            0 <= i < q.len() && ready(#[trigger] q[i], sources) && kind_of(q[i]) == kind
                ==> request_ids(started(q, sources, kind)).contains(q[i].stop_handle),
        distinct_request_ids(q) ==> distinct_request_ids(started(q, sources, kind)),
    decreases q.len(),
{
    if q.len() > 0 {
        let head = q.drop_last();
        lemma_started_props(head, sources, kind);
        let rest = started(head, sources, kind);
        let out = started(q, sources, kind);
        assert(forall|i: int| 0 <= i < head.len() ==> #[trigger] head[i] == q[i]);
        assert forall|j: int| 0 <= j < out.len() implies exists|i: int|
            0 <= i < q.len() && #[trigger] out[j] == q[i] by {
            if j < rest.len() {
                assert(out[j] == rest[j]);
                let i = choose|i: int| 0 <= i < head.len() && #[trigger] rest[j] == head[i];
                assert(out[j] == q[i]);
            } else {
                assert(out[j] == q[q.len() - 1]);
            }
        }
        assert forall|i: int|
            0 <= i < q.len() && ready(#[trigger] q[i], sources) && kind_of(q[i])
                == kind implies request_ids(out).contains(q[i].stop_handle) by {
            if i < q.len() - 1 {
                assert(request_ids(rest).contains(head[i].stop_handle));
                let j = choose|j: int|
                    0 <= j < request_ids(rest).len() && #[trigger] request_ids(rest)[j] == head[
                    i].stop_handle;
                assert(request_ids(out)[j] == request_ids(rest)[j]);
            } else {
                assert(out[out.len() - 1] == q[i]);
                assert(request_ids(out)[out.len() - 1] == q[i].stop_handle);
            }
        }
        if distinct_request_ids(q) {
            assert(distinct_request_ids(head));
            assert forall|a: int, b: int| 0 <= a < b < out.len() implies (#[trigger] out[a]).stop_handle
                != (#[trigger] out[b]).stop_handle by {
                if b < rest.len() {
                    assert(out[a] == rest[a] && out[b] == rest[b]);
                } else if out.len() > rest.len() {
                    assert(out[b] == q[q.len() - 1]);
                    assert(out[a] == rest[a]);
                    let i = choose|i: int| 0 <= i < head.len() && #[trigger] rest[a] == head[i];
                    assert(q[i].stop_handle != q[q.len() - 1].stop_handle);
                }
            }
        }
    }
}

/// Request identifiers strictly increase along the sequence. Identifiers
/// are allocated in submission order, so this says the sequence is in
/// submission order.
pub open spec fn increasing_request_ids<Source: ToSignal>(q: Seq<AudioToPlay<Source>>) -> bool {
    forall|i: int, j: int|
        0 <= i < j < q.len() ==> (#[trigger] q[i]).stop_handle < (#[trigger] q[j]).stop_handle
}

/// A drain pass starts requests in submission order: if the queue is in
/// submission order, so is the sequence of requests one pass starts — in
/// particular, requests whose source becomes available in the same tick
/// are started in the order they were submitted.
pub proof fn lemma_started_preserves_submission_order<Source: ToSignal>(
    q: Seq<AudioToPlay<Source>>,
    sources: Map<u64, Source>,
    kind: RequestKind,
)
    requires
        increasing_request_ids(q),
    ensures
        increasing_request_ids(started(q, sources, kind)),
    decreases q.len(),
{
    if q.len() > 0 {
        let head = q.drop_last();
        assert(forall|i: int| 0 <= i < head.len() ==> #[trigger] head[i] == q[i]);
        assert(increasing_request_ids(head));
        lemma_started_preserves_submission_order(head, sources, kind);
        lemma_started_props(head, sources, kind);
        let rest = started(head, sources, kind);
        let out = started(q, sources, kind);
        assert forall|a: int, b: int| 0 <= a < b < out.len() implies (#[trigger] out[a]).stop_handle
            < (#[trigger] out[b]).stop_handle by {
            if b < rest.len() {
                assert(out[a] == rest[a] && out[b] == rest[b]);
            } else if out.len() > rest.len() {
                assert(out[b] == q[q.len() - 1]);
                assert(out[a] == rest[a]);
                let i = choose|i: int| 0 <= i < head.len() && #[trigger] rest[a] == head[i];
                assert(q[i].stop_handle < q[q.len() - 1].stop_handle);
            }
        }
    }
}

/// A drain pass re-enqueues the requests it does not start — still
/// loading, or destined for another path — in submission order: a stalled
/// request neither blocks the requests behind it nor overtakes the
/// requests before it.
pub proof fn lemma_pending_preserves_submission_order<Source: ToSignal>(
    q: Seq<AudioToPlay<Source>>,
    sources: Map<u64, Source>,
    kind: RequestKind,
)
    requires
        increasing_request_ids(q),
    ensures
        increasing_request_ids(pending_after(q, sources, kind)),
    decreases q.len(),
{
    if q.len() > 0 {
        let head = q.drop_last();
        assert(forall|i: int| 0 <= i < head.len() ==> #[trigger] head[i] == q[i]);
        assert(increasing_request_ids(head));
        lemma_pending_preserves_submission_order(head, sources, kind);
        lemma_pending_after_props(head, sources, kind);
        let rest = pending_after(head, sources, kind);
        let out = pending_after(q, sources, kind);
        assert forall|a: int, b: int| 0 <= a < b < out.len() implies (#[trigger] out[a]).stop_handle
            < (#[trigger] out[b]).stop_handle by {
            if b < rest.len() {
                assert(out[a] == rest[a] && out[b] == rest[b]);
            } else if out.len() > rest.len() {
                assert(out[b] == q[q.len() - 1]);
                assert(out[a] == rest[a]);
                let i = choose|i: int| 0 <= i < head.len() && #[trigger] rest[a] == head[i];
                assert(q[i].stop_handle < q[q.len() - 1].stop_handle);
            }
        }
    }
}

/// The deferred play queue of one source type: a FIFO of pending requests,
/// and the allocator of sink identifiers.
pub struct Audio<Source: ToSignal> {
    pub(crate) queue: Vec<AudioToPlay<Source>>,
    pub(crate) next_sink_id: u64,
}

impl<Source: ToSignal> Audio<Source> {
    /// The pending requests, in submission order.
    pub closed spec fn requests(&self) -> Seq<AudioToPlay<Source>> {
        self.queue@
    }

    /// The next sink identifier to be handed out.
    pub closed spec fn next_id(&self) -> u64 {
        self.next_sink_id
    }

    /// Queued requests carry pairwise-distinct sink identifiers, all below
    /// the allocator's next one.
    pub open spec fn wf(&self) -> bool {
        &&& distinct_request_ids(self.requests())
        &&& forall|i: int|
            0 <= i < self.requests().len() ==> (#[trigger] self.requests()[i]).stop_handle
                < self.next_id()
    }

    /// An empty queue.
    pub fn new() -> (audio: Audio<Source>)
        ensures
            audio.wf(),
            audio.requests() == Seq::<AudioToPlay<Source>>::empty(),
            audio.next_id() == 0,
    {
        Audio { queue: Vec::new(), next_sink_id: 0 }
    }

    /// How many requests are pending.
    pub fn queue_len(&self) -> (n: usize)
        ensures
            n == self.requests().len(),
    {
        self.queue.len()
    }

    /// Ask to play `source_handle` with the given settings.
    ///
    /// Appends a request to the tail of the queue and immediately returns a
    /// fresh sink identifier, not yet valid: it becomes a live control
    /// handle once the request is serviced by a drain pass.
    pub fn play(&mut self, source_handle: u64, settings: Source::Settings) -> (sink_id: u64)
        requires
            old(self).wf(),
            old(self).next_id() < u64::MAX,
        ensures
            final(self).wf(),
            sink_id == old(self).next_id(),
            final(self).next_id() == old(self).next_id() + 1,
            final(self).requests() == old(self).requests().push(
                AudioToPlay {
                    source_handle,
                    stop_handle: sink_id,
                    settings,
                    spatial_settings: None,
                },
            ),
    {
        let stop_handle = self.next_sink_id;
        self.next_sink_id = self.next_sink_id + 1;
        let audio_to_play = AudioToPlay { source_handle, stop_handle, settings, spatial_settings: None };
        self.queue.push(audio_to_play);
        stop_handle
    }
}

impl<Source: ToSignal> Default for Audio<Source> {
    /// An empty queue.
    fn default() -> (audio: Self)
        ensures
            audio.wf(),
            audio.requests() == Seq::<AudioToPlay<Source>>::empty(),
            audio.next_id() == 0,
    {
        Self::new()
    }
}

/// The asset store of one source type, at its interface boundary: sources
/// become visible here once their data has been decoded; the engine only
/// looks sources up and never triggers a load itself.
pub struct Assets<Source> {
    entries: Vec<(u64, Source)>,
    next_handle: u64,
}

impl<Source> Assets<Source> {
    /// The loaded sources, by handle.
    pub closed spec fn table(&self) -> Map<u64, Source> {
        registry::entries_map(self.entries@)
    }

    /// The next handle to be allocated.
    pub closed spec fn next(&self) -> u64 {
        self.next_handle
    }

    /// Handles are pairwise distinct and below the allocator's next one.
    pub closed spec fn wf(&self) -> bool {
        &&& registry::distinct_keys(self.entries@)
        &&& forall|i: int|
            0 <= i < self.entries@.len() ==> (#[trigger] self.entries@[i]).0 < self.next_handle
    }

    /// An empty store.
    pub fn new() -> (assets: Assets<Source>)
        ensures
            assets.wf(),
            assets.table() == Map::<u64, Source>::empty(),
            assets.next() == 0,
    {
        Assets { entries: Vec::new(), next_handle: 0 }
    }

    /// Allocate a handle whose data is still loading: the handle can be
    /// played at once, but resolves to no source until `insert` completes
    /// the load.
    pub fn reserve(&mut self) -> (handle: u64)
        requires
            old(self).wf(),
            old(self).next() < u64::MAX,
        ensures
            final(self).wf(),
            handle == old(self).next(),
            final(self).next() == old(self).next() + 1,
            final(self).table() == old(self).table(),
            !final(self).table().contains_key(handle),
    {
        let handle = self.next_handle;
        self.next_handle = self.next_handle + 1;
        proof {
            registry::lemma_entries_map_domain(self.entries@);
        }
        handle
    }

    /// Complete the load of a reserved handle.
    pub fn insert(&mut self, handle: u64, source: Source)
        requires
            old(self).wf(),
            handle < old(self).next(),
            !old(self).table().contains_key(handle),
        ensures
            final(self).wf(),
            final(self).next() == old(self).next(),
            final(self).table() == old(self).table().insert(handle, source),
    {
        proof {
            registry::lemma_entries_map_domain(self.entries@);
            registry::lemma_entries_map_push(self.entries@, handle, source);
        }
        self.entries.push((handle, source));
    }

    /// Allocate a handle and load its source at once.
    pub fn add(&mut self, source: Source) -> (handle: u64)
        requires
            old(self).wf(),
            old(self).next() < u64::MAX,
        ensures
            final(self).wf(),
            handle == old(self).next(),
            final(self).next() == old(self).next() + 1,
            !old(self).table().contains_key(handle),
            final(self).table() == old(self).table().insert(handle, source),
    {
        let handle = self.reserve();
        self.insert(handle, source);
        handle
    }

    /// Look a source up; `None` while its data has not arrived.
    pub fn get(&self, handle: u64) -> (found: Option<&Source>)
        requires
            self.wf(),
        ensures
            match found {
                Some(source) => self.table().contains_key(handle) && *source
                    == self.table()[handle],
                None => !self.table().contains_key(handle),
            },
    {
        proof {
            registry::lemma_entries_map_domain(self.entries@);
        }
        match registry::find_entry(&self.entries, handle) {
            Some(i) => {
                proof {
                    registry::lemma_entries_map_index(self.entries@, i as int);
                }
                Some(&self.entries[i].1)
            },
            None => None,
        }
    }
}

} // verus!
