//! The renderer: clips placed on the sample axis and summed into one mix
//! buffer.
use crate::config::AudioConfig;
use crate::store::{samples_or_silence, ClipStore};
use crate::timeline::{view_clips, view_tracks, Clip, ClipView, Track, TrackView};
use vstd::math::min;
use vstd::prelude::*;

verus! {

/// A stored PCM sample.
pub type Sample = i32;

/// A sample of the mix: the sum of the stored samples that meet at one index.
pub type MixSample = i64;

/// The largest number of clips that one mix can sum: with no more than this
/// many stored samples meeting at an index, their sum fits a [`MixSample`].
pub const MAX_CLIPS: usize = 0xFFFF_FFFF;

/// A clip placed on the sample axis of the mix buffer.
#[derive(Clone, Debug, PartialEq, Eq)]
pub struct RenderedClip {
    /// Index in the mix buffer of the clip's first sample.
    pub start_sample_idx: u64,
    /// Index in the mix buffer one past the clip's region.
    pub end_sample_idx: u64,
    /// The samples that the clip plays, from `start_sample_idx` on.
    pub samples: Vec<Sample>,
}

/// The mathematical model of a [`RenderedClip`].
pub struct RenderedClipView {
    pub start: int,
    pub end: int,
    pub samples: Seq<Sample>,
}

impl View for RenderedClip {
    type V = RenderedClipView;

    open spec fn view(&self) -> RenderedClipView {
        RenderedClipView {
            start: self.start_sample_idx as int,
            end: self.end_sample_idx as int,
            samples: self.samples@,
        }
    }
}

/// The models of a sequence of rendered clips, in order.
pub open spec fn clip_views(clips: Seq<RenderedClip>) -> Seq<RenderedClipView> {
    Seq::new(clips.len(), |i: int| clips[i]@)
}

/// What `clip` contributes to the mix at index `j`: its sample there, or
/// silence outside the samples it holds.
pub open spec fn clip_sample_at(clip: RenderedClipView, j: int) -> int {
    if clip.start <= j < clip.start + clip.samples.len() {
        clip.samples[j - clip.start] as int
    } else {
        0
    }
}

/// The mix at index `j`: the sum of what each clip contributes there.
pub open spec fn mix_sample(clips: Seq<RenderedClipView>, j: int) -> int
    decreases clips.len(),
{
    if clips.len() == 0 {
        0
    } else {
        mix_sample(clips.drop_last(), j) + clip_sample_at(clips.last(), j)
    }
}

/// The length of the mix: the highest end index of any clip, 0 without clips.
pub open spec fn mix_length(clips: Seq<RenderedClipView>) -> int
    decreases clips.len(),
{
    if clips.len() == 0 {
        0
    } else {
        let rest = mix_length(clips.drop_last());
        if clips.last().end > rest {
            clips.last().end
        } else {
            rest
        }
    }
}

/// Whether `buffer` is the mix of `clips`: as long as the highest end index,
/// and at each index the sum of the clips' contributions.
pub open spec fn is_mix_of(buffer: Seq<MixSample>, clips: Seq<RenderedClipView>) -> bool {
    &&& buffer.len() == mix_length(clips)
    &&& forall|j: int| 0 <= j < buffer.len() ==> buffer[j] as int == mix_sample(clips, j)
}

/// Whether a mix of `clips` can be built: no more than [`MAX_CLIPS`] of them,
/// and a length that can be allocated.
pub open spec fn mixable(clips: Seq<RenderedClipView>) -> bool {
    &&& clips.len() <= MAX_CLIPS
    &&& mix_length(clips) <= usize::MAX
}

/// Each contribution is a stored sample or silence.
proof fn lemma_clip_sample_bound(clip: RenderedClipView, j: int)
    ensures
        -0x8000_0000 <= clip_sample_at(clip, j) <= 0x7FFF_FFFF,
{
}

/// The sum of `n` contributions is within `n` times the range of a sample.
proof fn lemma_mix_sample_bound(clips: Seq<RenderedClipView>, j: int)
    ensures
        -0x8000_0000 * clips.len() <= mix_sample(clips, j) <= 0x7FFF_FFFF * clips.len(),
    decreases clips.len(),
{
    if clips.len() > 0 {
        lemma_mix_sample_bound(clips.drop_last(), j);
        lemma_clip_sample_bound(clips.last(), j);
    }
}

/// Taking one more clip adds its contribution and may raise the length.
proof fn lemma_take_next(clips: Seq<RenderedClipView>, n: int, j: int)
    requires
        0 <= n < clips.len(),
    ensures
        mix_sample(clips.take(n + 1), j) == mix_sample(clips.take(n), j) + clip_sample_at(
            clips[n],
            j,
        ),
        mix_length(clips.take(n + 1)) == if clips[n].end > mix_length(clips.take(n)) {
            clips[n].end
        } else {
            mix_length(clips.take(n))
        },
{
    assert(clips.take(n + 1).drop_last() =~= clips.take(n));
    assert(clips.take(n + 1).last() == clips[n]);
}

/// The mix length bounds every clip's end, and is 0 or some clip's end.
pub proof fn lemma_mix_length_is_max(clips: Seq<RenderedClipView>)
    requires
        forall|i: int| 0 <= i < clips.len() ==> (#[trigger] clips[i]).end >= 0,
    ensures
        mix_length(clips) >= 0,
        forall|i: int| 0 <= i < clips.len() ==> (#[trigger] clips[i]).end <= mix_length(clips),
        clips.len() == 0 ==> mix_length(clips) == 0,
        clips.len() > 0 ==> exists|i: int|
            0 <= i < clips.len() && (#[trigger] clips[i]).end == mix_length(clips),
    decreases clips.len(),
{
    if clips.len() > 0 {
        let rest = clips.drop_last();
        lemma_mix_length_is_max(rest);
        assert forall|i: int| 0 <= i < clips.len() implies (#[trigger] clips[i]).end
            <= mix_length(clips) by {
            if i < clips.len() - 1 {
                assert(rest[i] == clips[i]);
            }
        }
        if clips.last().end > mix_length(rest) || rest.len() == 0 {
            assert(clips[clips.len() - 1].end == mix_length(clips));
        } else {
            let i = choose|i: int| 0 <= i < rest.len() && (#[trigger] rest[i]).end == mix_length(rest);
            assert(clips[i] == rest[i]);
        }
    }
}

/// The length of the mix of `clips`: the highest end index among them.
pub fn mix_len(clips: &Vec<RenderedClip>) -> (total: u64)
    ensures
        total == mix_length(clip_views(clips@)),
{
    let ghost views = clip_views(clips@);
    let mut total: u64 = 0;
    let mut n: usize = 0;
    assert(views.take(0) =~= Seq::empty());
    while n < clips.len()
        invariant
            n <= clips.len(),
            views == clip_views(clips@),
            total == mix_length(views.take(n as int)),
        decreases clips.len() - n,
    {
        proof {
            lemma_take_next(views, n as int, 0);
        }
        if clips[n].end_sample_idx > total {
            total = clips[n].end_sample_idx;
        }
        n = n + 1;
    }
    assert(views.take(n as int) =~= views);
    total
}

/// Says whether `clips` can be mixed.
pub fn can_mix(clips: &Vec<RenderedClip>) -> (ok: bool)
    ensures
        ok == mixable(clip_views(clips@)),
{
    assert(clip_views(clips@).len() == clips@.len());
    clips.len() <= MAX_CLIPS && mix_len(clips) <= usize::MAX as u64
}

/// Sums `clips` into one mix buffer: a zero-filled buffer as long as the
/// highest end index, to which each clip's samples are added from its start
/// index on. Samples that would fall past the end of the buffer are dropped.
/// The sum is not clipped or limited.
pub fn mix(clips: &Vec<RenderedClip>) -> (buffer: Vec<MixSample>)
    requires
        mixable(clip_views(clips@)),
    ensures
        is_mix_of(buffer@, clip_views(clips@)),
{
    let ghost views = clip_views(clips@);
    let total: u64 = mix_len(clips);
    let len: usize = total as usize;
    let mut buffer: Vec<MixSample> = vec![0i64; len];
    let mut n: usize = 0;
    assert(views.take(0) =~= Seq::empty());
    while n < clips.len()
        invariant
            n <= clips.len(),
            clips.len() <= MAX_CLIPS,
            views == clip_views(clips@),
            buffer.len() == len,
            forall|j: int| 0 <= j < len ==> buffer[j] as int == mix_sample(views.take(n as int), j),
        decreases clips.len() - n,
    {
        let clip = &clips[n];
        let ghost before = buffer@;
        if clip.start_sample_idx < len as u64 {
            let start: usize = clip.start_sample_idx as usize;
            let room: usize = len - start;
            let count: usize = if clip.samples.len() < room {
                clip.samples.len()
            } else {
                room
            };
            let mut i: usize = 0;
            while i < count
                invariant
                    i <= count,
                    count <= clip.samples.len(),
                    start + count <= len,
                    n < clips.len(),
                    clips.len() <= MAX_CLIPS,
                    clip == clips[n as int],
                    views == clip_views(clips@),
                    buffer.len() == len,
                    before.len() == len,
                    forall|j: int|
                        0 <= j < len ==> before[j] as int == mix_sample(views.take(n as int), j),
                    forall|j: int|
                        0 <= j < len ==> buffer[j] as int == before[j] + if start <= j < start + i {
                            clip.samples[j - start] as int
                        } else {
                            0
                        },
                decreases count - i,
            {
                proof {
                    lemma_mix_sample_bound(views.take(n as int), start + i);
                }
                let sum: MixSample = buffer[start + i] + clip.samples[i] as MixSample;
                buffer.set(start + i, sum);
                i = i + 1;
            }
        }
        proof {
            assert forall|j: int| 0 <= j < len implies buffer[j] as int == mix_sample(
                views.take(n as int + 1),
                j,
            ) by {
                lemma_take_next(views, n as int, j);
            }
        }
        n = n + 1;
    }
    assert(views.take(n as int) =~= views);
    buffer
}

/// The placement of `clip` on the sample axis, given the samples `stored`
/// under its identifier: its start, offset and duration converted to sample
/// indices; the offset and the end of the region read both clamped to the
/// length of what is stored; the region in the mix as long as the duration,
/// whatever is stored.
pub open spec fn rendered_clip(clip: ClipView, stored: Seq<Sample>, config: AudioConfig)
    -> RenderedClipView {
    let start = config.spec_sample_idx(clip.start_beat);
    let offset = config.spec_sample_idx(clip.offset);
    let duration = config.spec_sample_idx(clip.duration);
    let low = min(offset, stored.len() as int);
    let high = min(offset + duration, stored.len() as int);
    RenderedClipView {
        start,
        end: min(start + duration, u64::MAX as int),
        samples: stored.subrange(low, high),
    }
}

/// The placements of the clips of one track, in their order.
pub open spec fn rendered_track(
    clips: Seq<ClipView>,
    store: Map<Seq<char>, Seq<Sample>>,
    config: AudioConfig,
) -> Seq<RenderedClipView> {
    Seq::new(
        clips.len(),
        |i: int| rendered_clip(clips[i], samples_or_silence(store, clips[i].id), config),
    )
}

/// The placements of all clips of the timeline, track after track.
pub open spec fn rendered_timeline(
    tracks: Seq<TrackView>,
    store: Map<Seq<char>, Seq<Sample>>,
    config: AudioConfig,
) -> Seq<RenderedClipView>
    decreases tracks.len(),
{
    if tracks.len() == 0 {
        Seq::empty()
    } else {
        rendered_timeline(tracks.drop_last(), store, config) + rendered_track(
            tracks.last().clips,
            store,
            config,
        )
    }
}

/// Whether `clip` holds a sample for index `j` of the mix.
pub open spec fn plays_at(clip: RenderedClipView, j: int) -> bool {
    clip.start <= j < clip.start + clip.samples.len()
}

/// The mix of one clip alone is that clip.
proof fn lemma_mix_single(clip: RenderedClipView, j: int)
    ensures
        mix_sample(seq![clip], j) == clip_sample_at(clip, j),
        mix_length(seq![clip]) == if clip.end > 0 {
            clip.end
        } else {
            0
        },
{
    let one = seq![clip];
    assert(one.drop_last() =~= Seq::<RenderedClipView>::empty());
    assert(one.last() == clip);
    assert(mix_sample(one.drop_last(), j) == 0);
    assert(mix_length(one.drop_last()) == 0);
}

/// Mixing is additive: the mix of two sequences of clips, one after the
/// other, is at each index the sum of their two mixes.
pub proof fn lemma_mix_is_additive(
    first: Seq<RenderedClipView>,
    second: Seq<RenderedClipView>,
    j: int,
)
    ensures
        mix_sample(first + second, j) == mix_sample(first, j) + mix_sample(second, j),
    decreases second.len(),
{
    if second.len() == 0 {
        assert(first + second =~= first);
    } else {
        lemma_mix_is_additive(first, second.drop_last(), j);
        assert((first + second).drop_last() =~= first + second.drop_last());
        assert((first + second).last() == second.last());
    }
}

/// Additive mixing of two clips: where two clips of the constant sample
/// values `a` and `b` overlap, the mix is `a + b`; where only one of them
/// plays, the mix is that clip's value unchanged; elsewhere it is silence.
pub proof fn lemma_additive_mixing(
    first: RenderedClipView,
    second: RenderedClipView,
    a: Sample,
    b: Sample,
    j: int,
)
    requires
        forall|i: int| 0 <= i < first.samples.len() ==> first.samples[i] == a,
        forall|i: int| 0 <= i < second.samples.len() ==> second.samples[i] == b,
    ensures
        plays_at(first, j) && plays_at(second, j) ==> mix_sample(seq![first, second], j) == a + b,
        plays_at(first, j) && !plays_at(second, j) ==> mix_sample(seq![first, second], j) == a,
        !plays_at(first, j) && plays_at(second, j) ==> mix_sample(seq![first, second], j) == b,
        !plays_at(first, j) && !plays_at(second, j) ==> mix_sample(seq![first, second], j) == 0,
{
    let both = seq![first, second];
    assert(both.drop_last() =~= seq![first]);
    assert(both.last() == second);
    lemma_mix_single(first, j);
}

/// Silence for a missing clip: a clip whose identifier the store does not
/// hold is placed with no samples. Its region in the mix still has the
/// length computed from its duration, and it contributes zero at every
/// index.
pub proof fn lemma_missing_clip_is_silent(
    clip: ClipView,
    store: Map<Seq<char>, Seq<Sample>>,
    config: AudioConfig,
    j: int,
)
    requires
        !store.dom().contains(clip.id),
    ensures
        ({
            let rendered = rendered_clip(clip, samples_or_silence(store, clip.id), config);
            &&& rendered.samples.len() == 0
            &&& rendered.start == config.spec_sample_idx(clip.start_beat)
            &&& rendered.end == min(
                rendered.start + config.spec_sample_idx(clip.duration),
                u64::MAX as int,
            )
            &&& clip_sample_at(rendered, j) == 0
        }),
{
}

/// Silence for a missing clip, in the mix: the mix of a timeline whose one
/// clip the store does not hold is as long as the clip's computed region
/// reaches, and zero throughout.
pub proof fn lemma_missing_clip_mix_is_zero(
    buffer: Seq<MixSample>,
    track_id: i32,
    clip: ClipView,
    store: Map<Seq<char>, Seq<Sample>>,
    config: AudioConfig,
)
    requires
        !store.dom().contains(clip.id),
        is_mix_of(
            buffer,
            rendered_timeline(seq![TrackView { id: track_id, clips: seq![clip] }], store, config),
        ),
    ensures
        buffer.len() == min(
            config.spec_sample_idx(clip.start_beat) + config.spec_sample_idx(clip.duration),
            u64::MAX as int,
        ),
        forall|j: int| 0 <= j < buffer.len() ==> buffer[j] == 0,
{
    let track = TrackView { id: track_id, clips: seq![clip] };
    let tracks = seq![track];
    let rendered = rendered_clip(clip, samples_or_silence(store, clip.id), config);
    assert(tracks.drop_last() =~= Seq::<TrackView>::empty());
    assert(tracks.last() == track);
    assert(rendered_timeline(tracks.drop_last(), store, config) =~= Seq::<
        RenderedClipView,
    >::empty());
    assert(rendered_track(track.clips, store, config) =~= seq![rendered]);
    assert(rendered_timeline(tracks, store, config) =~= seq![rendered]);
    lemma_mix_single(rendered, 0);
    assert forall|j: int| 0 <= j < buffer.len() implies buffer[j] == 0 by {
        lemma_missing_clip_is_silent(clip, store, config, j);
        lemma_mix_single(rendered, j);
    }
}

/// Clamped offset and duration: whatever the clip asks for, the samples
/// placed are a region of what is stored, no longer than what is stored past
/// the offset and no longer than the duration.
pub proof fn lemma_rendered_clip_is_clamped(
    clip: ClipView,
    stored: Seq<Sample>,
    config: AudioConfig,
)
    ensures
        ({
            let rendered = rendered_clip(clip, stored, config);
            let offset = config.spec_sample_idx(clip.offset);
            let duration = config.spec_sample_idx(clip.duration);
            let low = min(offset, stored.len() as int);
            let high = min(offset + duration, stored.len() as int);
            &&& 0 <= low <= high <= stored.len()
            &&& rendered.samples == stored.subrange(low, high)
            &&& rendered.samples.len() == high - low
            &&& rendered.samples.len() <= duration
            &&& rendered.samples.len() <= stored.len() - low
            &&& offset + duration <= stored.len() ==> rendered.samples == stored.subrange(
                offset,
                offset + duration,
            )
        }),
{
}

/// Places `clip` on the sample axis and cuts its region out of `stored`, the
/// samples held under its identifier. An offset or a duration that reaches
/// past what is stored is clamped; nothing is read out of bounds.
pub fn render_clip(clip: &Clip, stored: &Vec<Sample>, config: &AudioConfig) -> (rendered:
    RenderedClip)
    ensures
        rendered@ == rendered_clip(clip@, stored@, *config),
{
    let start: u64 = config.sample_idx(clip.start_beat);
    let offset: u64 = config.sample_idx(clip.offset);
    let duration: u64 = config.sample_idx(clip.duration);
    let len: usize = stored.len();
    let low: usize = if offset < len as u64 {
        offset as usize
    } else {
        len
    };
    let high: usize = if duration < (len - low) as u64 {
        low + duration as usize
    } else {
        len
    };
    let end: u64 = if duration <= u64::MAX - start {
        start + duration
    } else {
        u64::MAX
    };
    let mut samples: Vec<Sample> = Vec::new();
    let mut i: usize = low;
    while i < high
        invariant
            low <= i <= high <= stored.len(),
            samples@ == stored@.subrange(low as int, i as int),
        decreases high - i,
    {
        samples.push(stored[i]);
        assert(stored@.subrange(low as int, i as int).push(stored@[i as int])
            =~= stored@.subrange(low as int, i + 1));
        i = i + 1;
    }
    RenderedClip { start_sample_idx: start, end_sample_idx: end, samples }
}

/// Places every clip of the timeline on the sample axis, track after track,
/// each with the samples that the store holds for it: silence where it holds
/// none.
pub fn render_timeline(tracks: &Vec<Track>, store: &ClipStore, config: &AudioConfig) -> (rendered:
    Vec<RenderedClip>)
    ensures
        clip_views(rendered@) == rendered_timeline(view_tracks(tracks@), store@, *config),
{
    let ghost track_views = view_tracks(tracks@);
    let mut rendered: Vec<RenderedClip> = Vec::new();
    let mut t: usize = 0;
    assert(track_views.take(0) =~= Seq::empty());
    while t < tracks.len()
        invariant
            t <= tracks.len(),
            track_views == view_tracks(tracks@),
            clip_views(rendered@) =~= rendered_timeline(track_views.take(t as int), store@, *config),
        decreases tracks.len() - t,
    {
        let clips = &tracks[t].clips;
        let ghost done = clip_views(rendered@);
        let ghost views = view_clips(clips@);
        let ghost target = rendered_track(views, store@, *config);
        let mut c: usize = 0;
        while c < clips.len()
            invariant
                c <= clips.len(),
                views == view_clips(clips@),
                target == rendered_track(views, store@, *config),
                clip_views(rendered@) =~= done + target.take(c as int),
            decreases clips.len() - c,
        {
            let clip = &clips[c];
            let piece = render_clip(clip, store.get(clip.id.as_str()), config);
            assert(piece@ == target[c as int]);
            let ghost prior = clip_views(rendered@);
            rendered.push(piece);
            assert(clip_views(rendered@) =~= prior.push(piece@));
            assert(target.take(c as int).push(target[c as int]) =~= target.take(c + 1));
            c = c + 1;
        }
        proof {
            assert(target.take(c as int) =~= target);
            assert(track_views.take(t + 1).drop_last() =~= track_views.take(t as int));
            assert(track_views.take(t + 1).last() == track_views[t as int]);
            assert(track_views[t as int].clips == views);
        }
        t = t + 1;
    }
    assert(track_views.take(t as int) =~= track_views);
    rendered
}

/// The number of clips on the timeline.
pub open spec fn clip_count(tracks: Seq<TrackView>) -> int
    decreases tracks.len(),
{
    if tracks.len() == 0 {
        0
    } else {
        clip_count(tracks.drop_last()) + tracks.last().clips.len()
    }
}

/// The index one past the region of `clip` in the mix: its start and its
/// duration as sample indices, added and saturated.
pub open spec fn clip_end(clip: ClipView, config: AudioConfig) -> int {
    min(
        config.spec_sample_idx(clip.start_beat) + config.spec_sample_idx(clip.duration),
        u64::MAX as int,
    )
}

/// The highest end of any of `clips`, 0 without clips.
pub open spec fn track_length(clips: Seq<ClipView>, config: AudioConfig) -> int
    decreases clips.len(),
{
    if clips.len() == 0 {
        0
    } else {
        let rest = track_length(clips.drop_last(), config);
        if clip_end(clips.last(), config) > rest {
            clip_end(clips.last(), config)
        } else {
            rest
        }
    }
}

/// The length of the mix of the timeline: the highest end of any clip on
/// it, whatever the store holds.
pub open spec fn timeline_length(tracks: Seq<TrackView>, config: AudioConfig) -> int
    decreases tracks.len(),
{
    if tracks.len() == 0 {
        0
    } else {
        let rest = timeline_length(tracks.drop_last(), config);
        if track_length(tracks.last().clips, config) > rest {
            track_length(tracks.last().clips, config)
        } else {
            rest
        }
    }
}

/// Whether the timeline can be rendered: no more than [`MAX_CLIPS`] clips,
/// and a mix of a length that can be allocated.
pub open spec fn renderable(tracks: Seq<TrackView>, config: AudioConfig) -> bool {
    &&& clip_count(tracks) <= MAX_CLIPS
    &&& timeline_length(tracks, config) <= usize::MAX
}

/// A mix has no negative length.
proof fn lemma_mix_length_nonnegative(clips: Seq<RenderedClipView>)
    ensures
        mix_length(clips) >= 0,
    decreases clips.len(),
{
    if clips.len() > 0 {
        lemma_mix_length_nonnegative(clips.drop_last());
    }
}

/// The length of the mix of two sequences of clips is the greater of their
/// two lengths.
proof fn lemma_mix_length_concat(first: Seq<RenderedClipView>, second: Seq<RenderedClipView>)
    ensures
        mix_length(first + second) == if mix_length(second) > mix_length(first) {
            mix_length(second)
        } else {
            mix_length(first)
        },
    decreases second.len(),
{
    if second.len() == 0 {
        assert(first + second =~= first);
        lemma_mix_length_nonnegative(first);
    } else {
        lemma_mix_length_concat(first, second.drop_last());
        assert((first + second).drop_last() =~= first + second.drop_last());
        assert((first + second).last() == second.last());
    }
}

/// The placements of a track reach as far as the track does.
proof fn lemma_track_length(
    clips: Seq<ClipView>,
    store: Map<Seq<char>, Seq<Sample>>,
    config: AudioConfig,
)
    ensures
        mix_length(rendered_track(clips, store, config)) == track_length(clips, config),
    decreases clips.len(),
{
    if clips.len() > 0 {
        lemma_track_length(clips.drop_last(), store, config);
        assert(rendered_track(clips, store, config).drop_last() =~= rendered_track(
            clips.drop_last(),
            store,
            config,
        ));
    }
}

/// The placements of a timeline are one for each clip, and their mix is as
/// long as the timeline: neither depends on what the store holds.
pub proof fn lemma_rendered_timeline_extent(
    tracks: Seq<TrackView>,
    store: Map<Seq<char>, Seq<Sample>>,
    config: AudioConfig,
)
    ensures
        rendered_timeline(tracks, store, config).len() == clip_count(tracks),
        mix_length(rendered_timeline(tracks, store, config)) == timeline_length(tracks, config),
        renderable(tracks, config) == mixable(rendered_timeline(tracks, store, config)),
    decreases tracks.len(),
{
    if tracks.len() > 0 {
        lemma_rendered_timeline_extent(tracks.drop_last(), store, config);
        lemma_track_length(tracks.last().clips, store, config);
        lemma_mix_length_concat(
            rendered_timeline(tracks.drop_last(), store, config),
            rendered_track(tracks.last().clips, store, config),
        );
    }
}

/// Taking one more clip of a track may raise its length.
proof fn lemma_track_take_next(clips: Seq<ClipView>, config: AudioConfig, n: int)
    requires
        0 <= n < clips.len(),
    ensures
        track_length(clips.take(n + 1), config) == if clip_end(clips[n], config) > track_length(
            clips.take(n),
            config,
        ) {
            clip_end(clips[n], config)
        } else {
            track_length(clips.take(n), config)
        },
{
    assert(clips.take(n + 1).drop_last() =~= clips.take(n));
    assert(clips.take(n + 1).last() == clips[n]);
}

/// Taking one more track adds its clips.
proof fn lemma_clip_count_take_next(tracks: Seq<TrackView>, n: int)
    requires
        0 <= n < tracks.len(),
    ensures
        clip_count(tracks.take(n + 1)) == clip_count(tracks.take(n)) + tracks[n].clips.len(),
{
    assert(tracks.take(n + 1).drop_last() =~= tracks.take(n));
    assert(tracks.take(n + 1).last() == tracks[n]);
}

/// Taking one more track may raise the length.
proof fn lemma_timeline_take_next(tracks: Seq<TrackView>, config: AudioConfig, n: int)
    requires
        0 <= n < tracks.len(),
    ensures
        timeline_length(tracks.take(n + 1), config) == if track_length(tracks[n].clips, config)
            > timeline_length(tracks.take(n), config) {
            track_length(tracks[n].clips, config)
        } else {
            timeline_length(tracks.take(n), config)
        },
{
    assert(tracks.take(n + 1).drop_last() =~= tracks.take(n));
    assert(tracks.take(n + 1).last() == tracks[n]);
}

/// The number of clips on `tracks`.
fn count_clips(tracks: &Vec<Track>) -> (count: u128)
    ensures
        count == clip_count(view_tracks(tracks@)),
{
    let ghost views = view_tracks(tracks@);
    let mut count: u128 = 0;
    let mut t: usize = 0;
    assert(views.take(0) =~= Seq::empty());
    while t < tracks.len()
        invariant
            t <= tracks.len(),
            views == view_tracks(tracks@),
            count == clip_count(views.take(t as int)),
            count <= t * 0xFFFF_FFFF_FFFF_FFFF,
        decreases tracks.len() - t,
    {
        proof {
            lemma_clip_count_take_next(views, t as int);
        }
        count = count + tracks[t].clips.len() as u128;
        t = t + 1;
    }
    assert(views.take(t as int) =~= views);
    count
}

/// The length of the mix of `tracks`: the highest end of any clip.
pub fn timeline_len(tracks: &Vec<Track>, config: &AudioConfig) -> (length: u64)
    ensures
        length == timeline_length(view_tracks(tracks@), *config),
{
    let ghost views = view_tracks(tracks@);
    let mut length: u64 = 0;
    let mut t: usize = 0;
    assert(views.take(0) =~= Seq::empty());
    while t < tracks.len()
        invariant
            t <= tracks.len(),
            views == view_tracks(tracks@),
            length == timeline_length(views.take(t as int), *config),
        decreases tracks.len() - t,
    {
        let clips = &tracks[t].clips;
        let ghost clip_views = view_clips(clips@);
        let mut reach: u64 = 0;
        let mut c: usize = 0;
        assert(clip_views.take(0) =~= Seq::empty());
        while c < clips.len()
            invariant
                c <= clips.len(),
                clip_views == view_clips(clips@),
                reach == track_length(clip_views.take(c as int), *config),
            decreases clips.len() - c,
        {
            let start: u64 = config.sample_idx(clips[c].start_beat);
            let duration: u64 = config.sample_idx(clips[c].duration);
            let end: u64 = if duration <= u64::MAX - start {
                start + duration
            } else {
                u64::MAX
            };
            proof {
                lemma_track_take_next(clip_views, *config, c as int);
            }
            if end > reach {
                reach = end;
            }
            c = c + 1;
        }
        proof {
            assert(clip_views.take(c as int) =~= clip_views);
            assert(views[t as int].clips == clip_views);
            lemma_timeline_take_next(views, *config, t as int);
        }
        if reach > length {
            length = reach;
        }
        t = t + 1;
    }
    assert(views.take(t as int) =~= views);
    length
}

/// Says whether the timeline can be rendered, without rendering it.
pub fn can_render(tracks: &Vec<Track>, config: &AudioConfig) -> (ok: bool)
    ensures
        ok == renderable(view_tracks(tracks@), *config),
{
    count_clips(tracks) <= MAX_CLIPS as u128 && timeline_len(tracks, config) <= usize::MAX as u64
}

/// Renders the timeline into one mix buffer: every clip placed by
/// [`render_clip`], all of them summed by [`mix`]. The buffer is as long as
/// the timeline, whatever the store holds.
pub fn render(tracks: &Vec<Track>, store: &ClipStore, config: &AudioConfig) -> (buffer: Vec<
    MixSample,
>)
    requires
        renderable(view_tracks(tracks@), *config),
    ensures
        is_mix_of(buffer@, rendered_timeline(view_tracks(tracks@), store@, *config)),
        buffer@.len() == timeline_length(view_tracks(tracks@), *config),
{
    proof {
        lemma_rendered_timeline_extent(view_tracks(tracks@), store@, *config);
    }
    let rendered = render_timeline(tracks, store, config);
    mix(&rendered)
}

} // verus!
