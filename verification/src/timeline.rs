//! The timeline: tracks of clips, and the edits that a controller makes.
use vstd::prelude::*;

verus! {

/// A region of a stored clip placed on the timeline. Positions are in ticks.
#[derive(Clone, Debug, PartialEq, Eq)]
pub struct Clip {
    /// Identifier of the clip's samples in the clip store.
    pub id: String,
    /// Position on the timeline at which the clip starts.
    pub start_beat: u64,
    /// Position in the clip's own audio at which reading starts.
    pub offset: u64,
    /// Length of the clip's own audio that is used.
    pub duration: u64,
}

/// The mathematical model of a [`Clip`].
pub struct ClipView {
    pub id: Seq<char>,
    pub start_beat: u64,
    pub offset: u64,
    pub duration: u64,
}

impl View for Clip {
    type V = ClipView;

    open spec fn view(&self) -> ClipView {
        ClipView {
            id: self.id@,
            start_beat: self.start_beat,
            offset: self.offset,
            duration: self.duration,
        }
    }
}

impl Clip {
    /// The clip that plays the stored audio `id` from its beginning, between
    /// the positions `start_beat` and `end_beat` of the timeline. An end
    /// before the start gives a clip without duration.
    pub fn spanning(id: String, start_beat: u64, end_beat: u64) -> (clip: Clip)
        ensures
            clip@ == (ClipView {
                id: id@,
                start_beat,
                offset: 0,
                duration: if end_beat >= start_beat {
                    (end_beat - start_beat) as u64
                } else {
                    0
                },
            }),
    {
        let duration: u64 = if end_beat >= start_beat {
            end_beat - start_beat
        } else {
            0
        };
        Clip { id, start_beat, offset: 0, duration }
    }
}

/// A track: an identifier and its clips in timeline order, which need not be
/// the order of their start positions.
#[derive(Clone, Debug, PartialEq, Eq)]
pub struct Track {
    pub id: i32,
    pub clips: Vec<Clip>,
}

/// The mathematical model of a [`Track`].
pub struct TrackView {
    pub id: i32,
    pub clips: Seq<ClipView>,
}

/// The models of a sequence of clips, in order.
pub open spec fn view_clips(clips: Seq<Clip>) -> Seq<ClipView> {
    Seq::new(clips.len(), |i: int| clips[i]@)
}

impl View for Track {
    type V = TrackView;

    open spec fn view(&self) -> TrackView {
        TrackView { id: self.id, clips: view_clips(self.clips@) }
    }
}

/// The models of a sequence of tracks, in order.
pub open spec fn view_tracks(tracks: Seq<Track>) -> Seq<TrackView> {
    Seq::new(tracks.len(), |i: int| tracks[i]@)
}

/// A track as the front end announces it.
#[derive(Clone, Copy, Debug, PartialEq, Eq)]
pub struct TrackProto {
    pub track_id: i32,
}

impl Track {
    /// The empty track that `proto` announces.
    pub fn new(proto: &TrackProto) -> (track: Track)
        ensures
            track@ == (TrackView { id: proto.track_id, clips: Seq::empty() }),
    {
        let track = Track { id: proto.track_id, clips: Vec::new() };
        assert(track@.clips =~= Seq::empty());
        track
    }
}

/// Why an edit of the timeline failed. A failed edit changes nothing.
#[derive(Clone, Copy, Debug, PartialEq, Eq, Structural)]
pub enum EditError {
    /// No track has the identifier given.
    TrackNotFound,
    /// The track has no clip with the identifier given.
    ClipNotFoundInTrack,
}

/// A change to one field of a clip.
#[derive(Clone, Copy, Debug, PartialEq, Eq, Structural)]
pub enum ClipEdit {
    /// A new start position on the timeline.
    Move(u64),
    /// A new duration.
    Resize(u64),
    /// A new offset into the clip's own audio.
    Reoffset(u64),
}

impl ClipEdit {
    /// The clip that the edit makes of `clip`.
    pub open spec fn applied(self, clip: ClipView) -> ClipView {
        match self {
            ClipEdit::Move(start_beat) => ClipView { start_beat, ..clip },
            ClipEdit::Resize(duration) => ClipView { duration, ..clip },
            ClipEdit::Reoffset(offset) => ClipView { offset, ..clip },
        }
    }
}

/// Whether `i` is the index of the first track of `tracks` with identifier
/// `id`.
pub open spec fn is_first_track(tracks: Seq<TrackView>, id: i32, i: int) -> bool {
    &&& 0 <= i < tracks.len()
    &&& tracks[i].id == id
    &&& forall|k: int| 0 <= k < i ==> (#[trigger] tracks[k]).id != id
}

/// Whether some track of `tracks` has identifier `id`.
pub open spec fn has_track(tracks: Seq<TrackView>, id: i32) -> bool {
    exists|i: int| 0 <= i < tracks.len() && (#[trigger] tracks[i]).id == id
}

/// The index of the first track of `tracks` with identifier `id`.
pub open spec fn first_track(tracks: Seq<TrackView>, id: i32) -> int {
    choose|i: int| is_first_track(tracks, id, i)
}

/// Whether `i` is the index of the first clip of `clips` with identifier
/// `id`.
pub open spec fn is_first_clip(clips: Seq<ClipView>, id: Seq<char>, i: int) -> bool {
    &&& 0 <= i < clips.len()
    &&& clips[i].id == id
    &&& forall|k: int| 0 <= k < i ==> (#[trigger] clips[k]).id != id
}

/// Whether some clip of `clips` has identifier `id`.
pub open spec fn has_clip(clips: Seq<ClipView>, id: Seq<char>) -> bool {
    exists|i: int| 0 <= i < clips.len() && (#[trigger] clips[i]).id == id
}

/// The index of the first clip of `clips` with identifier `id`.
pub open spec fn first_clip(clips: Seq<ClipView>, id: Seq<char>) -> int {
    choose|i: int| is_first_clip(clips, id, i)
}

/// What adding `clip` at the end of track `track_id` makes of `tracks`.
pub open spec fn with_clip_added(tracks: Seq<TrackView>, track_id: i32, clip: ClipView) -> Result<
    Seq<TrackView>,
    EditError,
> {
    if !has_track(tracks, track_id) {
        Err(EditError::TrackNotFound)
    } else {
        let t = first_track(tracks, track_id);
        Ok(tracks.update(t, TrackView { id: tracks[t].id, clips: tracks[t].clips.push(clip) }))
    }
}

/// What `edit`, applied to clip `clip_id` of track `track_id`, makes of
/// `tracks`. Where several tracks or clips share an identifier, the first is
/// meant.
pub open spec fn with_clip_edited(
    tracks: Seq<TrackView>,
    track_id: i32,
    clip_id: Seq<char>,
    edit: ClipEdit,
) -> Result<Seq<TrackView>, EditError> {
    if !has_track(tracks, track_id) {
        Err(EditError::TrackNotFound)
    } else {
        let t = first_track(tracks, track_id);
        if !has_clip(tracks[t].clips, clip_id) {
            Err(EditError::ClipNotFoundInTrack)
        } else {
            let c = first_clip(tracks[t].clips, clip_id);
            Ok(
                tracks.update(
                    t,
                    TrackView {
                        id: tracks[t].id,
                        clips: tracks[t].clips.update(c, edit.applied(tracks[t].clips[c])),
                    },
                ),
            )
        }
    }
}

/// The first index is the only first index.
proof fn lemma_first_track(tracks: Seq<TrackView>, id: i32, i: int)
    requires
        is_first_track(tracks, id, i),
    ensures
        has_track(tracks, id),
        first_track(tracks, id) == i,
{
    let j = first_track(tracks, id);
    assert(is_first_track(tracks, id, j));
    if j < i {
        assert(tracks[j].id != id);
    }
    if i < j {
        assert(tracks[i].id != id);
    }
}

/// The first index is the only first index.
proof fn lemma_first_clip(clips: Seq<ClipView>, id: Seq<char>, i: int)
    requires
        is_first_clip(clips, id, i),
    ensures
        has_clip(clips, id),
        first_clip(clips, id) == i,
{
    let j = first_clip(clips, id);
    assert(is_first_clip(clips, id, j));
    if j < i {
        assert(clips[j].id != id);
    }
    if i < j {
        assert(clips[i].id != id);
    }
}

/// Finds the first track with identifier `id`.
fn find_track(tracks: &Vec<Track>, id: i32) -> (found: Option<usize>)
    ensures
        match found {
            Some(i) => is_first_track(view_tracks(tracks@), id, i as int) && has_track(
                view_tracks(tracks@),
                id,
            ) && first_track(view_tracks(tracks@), id) == i,
            None => !has_track(view_tracks(tracks@), id),
        },
{
    let ghost views = view_tracks(tracks@);
    let mut i: usize = 0;
    while i < tracks.len()
        invariant
            i <= tracks.len(),
            views == view_tracks(tracks@),
            forall|k: int| 0 <= k < i ==> (#[trigger] views[k]).id != id,
        decreases tracks.len() - i,
    {
        if tracks[i].id == id {
            proof {
                assert(views[i as int].id == id);
                lemma_first_track(views, id, i as int);
            }
            return Some(i);
        }
        assert(views[i as int].id != id);
        i = i + 1;
    }
    None
}

/// Finds the first clip with identifier `id`.
fn find_clip(clips: &Vec<Clip>, id: &String) -> (found: Option<usize>)
    ensures
        match found {
            Some(i) => is_first_clip(view_clips(clips@), id@, i as int) && has_clip(
                view_clips(clips@),
                id@,
            ) && first_clip(view_clips(clips@), id@) == i,
            None => !has_clip(view_clips(clips@), id@),
        },
{
    let ghost views = view_clips(clips@);
    let mut i: usize = 0;
    while i < clips.len()
        invariant
            i <= clips.len(),
            views == view_clips(clips@),
            forall|k: int| 0 <= k < i ==> (#[trigger] views[k]).id != id@,
        decreases clips.len() - i,
    {
        if clips[i].id == *id {
            proof {
                assert(views[i as int].id == id@);
                lemma_first_clip(views, id@, i as int);
            }
            return Some(i);
        }
        assert(views[i as int].id != id@);
        i = i + 1;
    }
    None
}

/// The timeline: the tracks in their order.
#[derive(Clone, Debug, PartialEq, Eq)]
pub struct Timeline {
    pub tracks: Vec<Track>,
}

impl View for Timeline {
    type V = Seq<TrackView>;

    open spec fn view(&self) -> Seq<TrackView> {
        view_tracks(self.tracks@)
    }
}

impl Timeline {
    /// The timeline without tracks.
    pub fn new() -> (timeline: Timeline)
        ensures
            timeline@ == Seq::<TrackView>::empty(),
    {
        let timeline = Timeline { tracks: Vec::new() };
        assert(timeline@ =~= Seq::<TrackView>::empty());
        timeline
    }

    /// Replaces the whole timeline by `tracks`.
    pub fn set_timeline(&mut self, tracks: Vec<Track>)
        ensures
            final(self)@ == view_tracks(tracks@),
    {
        self.tracks = tracks;
    }

    /// Adds `clip` at the end of the first track with identifier `track_id`.
    /// Fails with `TrackNotFound`, and changes nothing, where no track has
    /// that identifier.
    pub fn add_clip(&mut self, track_id: i32, clip: Clip) -> (result: Result<(), EditError>)
        ensures
            match with_clip_added(old(self)@, track_id, clip@) {
                Ok(tracks) => result is Ok && final(self)@ == tracks,
                Err(error) => result == Err::<(), EditError>(error) && final(self)@ == old(self)@,
            },
    {
        match find_track(&self.tracks, track_id) {
            None => Err(EditError::TrackNotFound),
            Some(t) => {
                let ghost before = self@;
                self.tracks[t].clips.push(clip);
                proof {
                    let after = before.update(
                        t as int,
                        TrackView {
                            id: before[t as int].id,
                            clips: before[t as int].clips.push(clip@),
                        },
                    );
                    assert(self@[t as int].clips =~= before[t as int].clips.push(clip@));
                    assert(self@ =~= after);
                }
                Ok(())
            },
        }
    }

    /// Applies `edit` to the first clip with identifier `clip_id` of the
    /// first track with identifier `track_id`. Fails with `TrackNotFound`
    /// where no track has that identifier, and with `ClipNotFoundInTrack`
    /// where that track has no such clip; a failed edit changes nothing.
    pub fn edit_clip(&mut self, track_id: i32, clip_id: &str, edit: ClipEdit) -> (result: Result<
        (),
        EditError,
    >)
        ensures
            match with_clip_edited(old(self)@, track_id, clip_id@, edit) {
                Ok(tracks) => result is Ok && final(self)@ == tracks,
                Err(error) => result == Err::<(), EditError>(error) && final(self)@ == old(self)@,
            },
    {
        let key: String = clip_id.to_owned();
        match find_track(&self.tracks, track_id) {
            None => Err(EditError::TrackNotFound),
            Some(t) => {
                match find_clip(&self.tracks[t].clips, &key) {
                    None => Err(EditError::ClipNotFoundInTrack),
                    Some(c) => {
                        let ghost before = self@;
                        match edit {
                            ClipEdit::Move(start_beat) => {
                                self.tracks[t].clips[c].start_beat = start_beat;
                            },
                            ClipEdit::Resize(duration) => {
                                self.tracks[t].clips[c].duration = duration;
                            },
                            ClipEdit::Reoffset(offset) => {
                                self.tracks[t].clips[c].offset = offset;
                            },
                        }
                        proof {
                            let clips = before[t as int].clips;
                            let after = before.update(
                                t as int,
                                TrackView {
                                    id: before[t as int].id,
                                    clips: clips.update(c as int, edit.applied(clips[c as int])),
                                },
                            );
                            assert(self@[t as int].clips =~= clips.update(
                                c as int,
                                edit.applied(clips[c as int]),
                            ));
                            assert(self@ =~= after);
                        }
                        Ok(())
                    },
                }
            },
        }
    }

    /// Moves a clip to the start position `start_beat`; see [`Timeline::edit_clip`].
    pub fn move_clip(&mut self, track_id: i32, clip_id: &str, start_beat: u64) -> (result: Result<
        (),
        EditError,
    >)
        ensures
            match with_clip_edited(old(self)@, track_id, clip_id@, ClipEdit::Move(start_beat)) {
                Ok(tracks) => result is Ok && final(self)@ == tracks,
                Err(error) => result == Err::<(), EditError>(error) && final(self)@ == old(self)@,
            },
    {
        self.edit_clip(track_id, clip_id, ClipEdit::Move(start_beat))
    }

    /// Gives a clip the duration `duration`; see [`Timeline::edit_clip`].
    pub fn resize_clip(&mut self, track_id: i32, clip_id: &str, duration: u64) -> (result: Result<
        (),
        EditError,
    >)
        ensures
            match with_clip_edited(old(self)@, track_id, clip_id@, ClipEdit::Resize(duration)) {
                Ok(tracks) => result is Ok && final(self)@ == tracks,
                Err(error) => result == Err::<(), EditError>(error) && final(self)@ == old(self)@,
            },
    {
        self.edit_clip(track_id, clip_id, ClipEdit::Resize(duration))
    }

    /// Gives a clip the offset `offset`; see [`Timeline::edit_clip`].
    pub fn reoffset_clip(&mut self, track_id: i32, clip_id: &str, offset: u64) -> (result: Result<
        (),
        EditError,
    >)
        ensures
            match with_clip_edited(old(self)@, track_id, clip_id@, ClipEdit::Reoffset(offset)) {
                Ok(tracks) => result is Ok && final(self)@ == tracks,
                Err(error) => result == Err::<(), EditError>(error) && final(self)@ == old(self)@,
            },
    {
        self.edit_clip(track_id, clip_id, ClipEdit::Reoffset(offset))
    }
}

} // verus!
