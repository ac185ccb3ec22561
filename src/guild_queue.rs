//! The per-guild track queue: which track plays, which wait, and how the queue
//! moves on when the audio engine reports that a track ended.

use vstd::prelude::*;
use std::collections::VecDeque;

use crate::text::{trim, trimmed};
use crate::youtube_dl::MetaData;

verus! {

/// The control surface of a track handle granted by the audio engine.
///
/// Each request reports whether the engine accepted it; nothing is assumed of
/// that answer.
pub trait TrackControl {
    /// Asks the engine to start or resume the track.
    fn play(&self) -> bool;

    /// Asks the engine to pause the track.
    fn pause(&self) -> bool;

    /// Asks the engine to stop the track for good.
    fn stop(&self) -> bool;

    /// Asks the engine to get the track ready to play, without starting it.
    fn make_playable(&self);
}

/// A track handle in the queue, with the identity the engine gave it.
pub struct Queued<H> {
    pub handle: H,
    pub uuid: u128,
    /// Whether the queue has told the engine to play this track (and not since
    /// to pause it).
    pub playing: bool,
}

impl<H> Queued<H> {
    pub fn handle(&self) -> (r: &H)
        ensures
            *r == self.handle,
    {
        &self.handle
    }
}

/// What became of a "track ended" notification.
#[derive(Debug, PartialEq, Eq)]
pub enum TrackEndOutcome {
    /// The notification was not about the front track: nothing changed.
    Ignored,
    /// The queue moved on and this track now plays.
    NowPlaying(MetaData),
    /// The queue moved on and is now empty.
    Drained,
}

pub type Tracks<H> = Seq<(Queued<H>, MetaData)>;

/// The front track of `tracks` carries identity `uuid`.
pub open spec fn front_is<H>(tracks: Tracks<H>, uuid: u128) -> bool {
    tracks.len() > 0 && tracks[0].0.uuid == uuid
}

/// No track but the front one has been told to play.
pub open spec fn only_front_playing<H>(tracks: Tracks<H>) -> bool {
    forall|i: int| 1 <= i < tracks.len() ==> !(#[trigger] tracks[i]).0.playing
}

/// `tracks` with one more track at the back, playing exactly when it is alone.
pub open spec fn appended<H>(tracks: Tracks<H>, handle: H, uuid: u128, meta: MetaData) -> Tracks<H> {
    tracks.push((Queued { handle, uuid, playing: tracks.len() == 0 }, meta))
}

/// `tracks` (not empty) with the front track's play instruction set to `playing`.
pub open spec fn with_front_playing<H>(tracks: Tracks<H>, playing: bool) -> Tracks<H> {
    tracks.update(
        0,
        (Queued { handle: tracks[0].0.handle, uuid: tracks[0].0.uuid, playing }, tracks[0].1),
    )
}

/// `tracks` after the engine gave `answers`, in order, to requests to play
/// the front track: a refused front track leaves and the next one is asked,
/// the first accepted one is started and ends the requests.
pub open spec fn settled<H>(tracks: Tracks<H>, answers: Seq<bool>) -> Tracks<H>
    decreases tracks.len(),
{
    if tracks.len() == 0 || answers.len() == 0 {
        tracks
    } else if answers[0] {
        with_front_playing(tracks, true)
    } else {
        settled(
            tracks.subrange(1, tracks.len() as int),
            answers.subrange(1, answers.len() as int),
        )
    }
}

/// Refusals of the first `k` requests drop the first `k` tracks.
proof fn lemma_settled_after_refusals<H>(tracks: Tracks<H>, answers: Seq<bool>, k: int)
    requires
        0 <= k <= tracks.len(),
        k <= answers.len(),
        forall|i: int| 0 <= i < k ==> !answers[i],
    ensures
        settled(tracks, answers) == settled(
            tracks.subrange(k, tracks.len() as int),
            answers.subrange(k, answers.len() as int),
        ),
    decreases k,
{
    if k == 0 {
        assert(tracks.subrange(0, tracks.len() as int) =~= tracks);
        assert(answers.subrange(0, answers.len() as int) =~= answers);
    } else {
        let t1 = tracks.subrange(1, tracks.len() as int);
        let a1 = answers.subrange(1, answers.len() as int);
        assert(!answers[0]);
        lemma_settled_after_refusals(t1, a1, k - 1);
        assert(t1.subrange(k - 1, t1.len() as int) =~= tracks.subrange(k, tracks.len() as int));
        assert(a1.subrange(k - 1, a1.len() as int) =~= answers.subrange(k, answers.len() as int));
    }
}

/// When the engine refuses every request, no track is left.
proof fn lemma_all_refused<H>(tracks: Tracks<H>, answers: Seq<bool>)
    requires
        answers.len() >= tracks.len(),
        forall|i: int| 0 <= i < answers.len() ==> !answers[i],
    ensures
        settled(tracks, answers).len() == 0,
    decreases tracks.len(),
{
    if tracks.len() > 0 {
        let a1 = answers.subrange(1, answers.len() as int);
        assert(!answers[0]);
        assert forall|i: int| 0 <= i < a1.len() implies !a1[i] by {
            assert(a1[i] == answers[i + 1]);
        }
        lemma_all_refused(tracks.subrange(1, tracks.len() as int), a1);
    }
}

/// The queue's state, behind the lock that the caller holds.
pub struct GuildQueueCore<H> {
    tracks: VecDeque<(Queued<H>, MetaData)>,
    /// The only text channel whose messages are read.
    channel: Option<u64>,
}

impl<H> GuildQueueCore<H> {
    pub closed spec fn tracks(&self) -> Tracks<H> {
        self.tracks@
    }

    pub closed spec fn bound_channel(&self) -> Option<u64> {
        self.channel
    }

    pub open spec fn wf(&self) -> bool {
        only_front_playing(self.tracks())
    }
}

impl<H: TrackControl> GuildQueueCore<H> {
    /// An empty queue bound to no channel.
    pub fn new() -> (r: Self)
        ensures
            r.wf(),
            r.tracks() == Seq::<(Queued<H>, MetaData)>::empty(),
            r.bound_channel() is None,
    {
        GuildQueueCore { tracks: VecDeque::new(), channel: None }
    }

    /// Binds the queue to the text channel whose messages it reads.
    pub fn register_channel(&mut self, channel: u64)
        requires
            old(self).wf(),
        ensures
            final(self).wf(),
            final(self).tracks() == old(self).tracks(),
            final(self).bound_channel() == Some(channel),
    {
        self.channel = Some(channel);
    }

    pub fn channel(&self) -> (r: Option<u64>)
        ensures
            r == self.bound_channel(),
    {
        self.channel
    }

    pub fn len(&self) -> (r: usize)
        ensures
            r == self.tracks().len(),
    {
        self.tracks.len()
    }

    /// Whether the track at `index` has been told to play.
    pub fn is_playing(&self, index: usize) -> (r: bool)
        ensures
            r == (index < self.tracks().len() && self.tracks()[index as int].0.playing),
    {
        index < self.tracks.len() && self.tracks[index].0.playing
    }

    /// The handle of the track at `index`, if there is one.
    pub fn track_handle(&self, index: usize) -> (r: Option<&H>)
        ensures
            match r {
                Some(h) => index < self.tracks().len() && *h == self.tracks()[index as int].0.handle,
                None => index >= self.tracks().len(),
            },
    {
        if index < self.tracks.len() {
            Some(&self.tracks[index].0.handle)
        } else {
            None
        }
    }

    pub fn is_empty(&self) -> (r: bool)
        ensures
            r == (self.tracks().len() == 0),
    {
        self.tracks.len() == 0
    }

    /// Puts a paused track at the back of the queue; when the queue was empty
    /// the engine is told to play it at once. Returns whether it was started.
    pub fn add(&mut self, handle: H, uuid: u128, meta: MetaData) -> (started: bool)
        requires
            old(self).wf(),
        ensures
            final(self).wf(),
            started == (old(self).tracks().len() == 0),
            final(self).tracks() == appended(old(self).tracks(), handle, uuid, meta),
            final(self).bound_channel() == old(self).bound_channel(),
    {
        let started = self.tracks.len() == 0;
        if started {
            let _ = handle.play();
        }
        self.tracks.push_back((Queued { handle, uuid, playing: started }, meta));
        started
    }

    /// Takes the track at `index` out of the queue, without stopping it.
    pub fn dequeue(&mut self, index: usize) -> (r: Option<Queued<H>>)
        requires
            old(self).wf(),
        ensures
            final(self).wf(),
            final(self).bound_channel() == old(self).bound_channel(),
            match r {
                Some(q) => {
                    &&& index < old(self).tracks().len()
                    &&& q == old(self).tracks()[index as int].0
                    &&& final(self).tracks() == old(self).tracks().remove(index as int)
                },
                None => {
                    &&& index >= old(self).tracks().len()
                    &&& final(self).tracks() == old(self).tracks()
                },
            },
    {
        match self.tracks.remove(index) {
            Some(entry) => Some(entry.0),
            None => None,
        }
    }

    /// Records the engine's answer to a request to play the front track: an
    /// accepted track is marked playing and stays, a refused one is dropped.
    /// Returns whether the queue has settled on a playing track.
    pub fn record_play_attempt(&mut self, accepted: bool) -> (settled: bool)
        requires
            old(self).wf(),
            old(self).tracks().len() > 0,
        ensures
            final(self).wf(),
            final(self).bound_channel() == old(self).bound_channel(),
            settled == accepted,
            accepted ==> final(self).tracks() == with_front_playing(old(self).tracks(), true),
            !accepted ==> final(self).tracks() == old(self).tracks().subrange(
                1,
                old(self).tracks().len() as int,
            ),
    {
        let front = self.tracks.pop_front();
        match front {
            Some(entry) => {
                if accepted {
                    let (q, meta) = entry;
                    let q = Queued { handle: q.handle, uuid: q.uuid, playing: true };
                    self.tracks.push_front((q, meta));
                    assert(self.tracks@ =~= with_front_playing(old(self).tracks(), true));
                }
            },
            None => {},
        }
        accepted
    }

    /// Starts the front track; a track the engine refuses to play is dropped
    /// and the next one is tried, until one plays or none is left.
    fn start_front(&mut self) -> (r: TrackEndOutcome)
        requires
            old(self).wf(),
        ensures
            final(self).wf(),
            final(self).bound_channel() == old(self).bound_channel(),
            exists|answers: Seq<bool>| final(self).tracks() == #[trigger] settled(old(self).tracks(), answers),
            final(self).tracks().len() > 0 ==> final(self).tracks()[0].0.playing,
            final(self).tracks().len() == 0 ==> r is Drained,
            final(self).tracks().len() > 0 ==> r == TrackEndOutcome::NowPlaying(
                final(self).tracks()[0].1,
            ),
    {
        let ghost all = old(self).tracks();
        let ghost mut k: int = 0;
        assert(all.subrange(0, all.len() as int) =~= all);
        while self.tracks.len() > 0
            invariant
                self.wf(),
                self.bound_channel() == old(self).bound_channel(),
                all == old(self).tracks(),
                0 <= k <= all.len(),
                self.tracks() == all.subrange(k, all.len() as int),
            decreases self.tracks().len(),
        {
            let accepted = match self.track_handle(0) {
                Some(front) => front.play(),
                None => false,
            };
            if self.record_play_attempt(accepted) {
                let meta = self.tracks[0].1.clone();
                proof {
                    let answers = Seq::new((k + 1) as nat, |i: int| i == k);
                    assert forall|i: int| 0 <= i < k implies !answers[i] by {}
                    lemma_settled_after_refusals(all, answers, k);
                    let rest = answers.subrange(k, answers.len() as int);
                    assert(rest[0]);
                    assert(settled(all, answers) == with_front_playing(
                        all.subrange(k, all.len() as int),
                        true,
                    ));
                }
                return TrackEndOutcome::NowPlaying(meta);
            }
            proof {
                assert(all.subrange(k, all.len() as int).subrange(1, all.len() - k) =~= all.subrange(
                    k + 1,
                    all.len() as int,
                ));
                k = k + 1;
            }
        }
        proof {
            let answers = Seq::new(all.len(), |i: int| false);
            lemma_all_refused(all, answers);
            assert(self.tracks().len() == 0);
            assert(self.tracks() =~= settled(all, answers));
        }
        TrackEndOutcome::Drained
    }

    /// Reacts to the engine's report that the track with identity `ended`
    /// finished. A report about anything but the front track (a stale or
    /// repeated one) changes nothing. Otherwise the front track leaves the
    /// queue and the next playable one starts.
    pub fn on_track_end(&mut self, ended: u128) -> (r: TrackEndOutcome)
        requires
            old(self).wf(),
        ensures
            final(self).wf(),
            final(self).bound_channel() == old(self).bound_channel(),
            track_end_post(old(self).tracks(), ended, r, final(self).tracks()),
    {
        if self.tracks.len() == 0 || self.tracks[0].0.uuid != ended {
            return TrackEndOutcome::Ignored;
        }
        let _ = self.tracks.pop_front();
        self.start_front()
    }

    /// Asks the engine to prepare the second track, the one `track_handle(1)`
    /// gives, so that it starts without a gap. Returns whether there was one
    /// to prepare.
    pub fn preload_next(&self) -> (requested: bool)
        ensures
            requested == (self.tracks().len() > 1),
    {
        match self.track_handle(1) {
            Some(next) => {
                next.make_playable();
                true
            },
            None => false,
        }
    }

    /// Pauses the front track. Returns the engine's answer, `true` when the
    /// queue is empty.
    pub fn pause(&mut self) -> (r: bool)
        requires
            old(self).wf(),
        ensures
            final(self).wf(),
            final(self).bound_channel() == old(self).bound_channel(),
            old(self).tracks().len() == 0 ==> r && final(self).tracks() == old(self).tracks(),
            old(self).tracks().len() > 0 ==> final(self).tracks() == with_front_playing(
                old(self).tracks(),
                false,
            ),
    {
        self.set_front_playing(false)
    }

    /// Resumes the front track. Returns the engine's answer, `true` when the
    /// queue is empty.
    pub fn resume(&mut self) -> (r: bool)
        requires
            old(self).wf(),
        ensures
            final(self).wf(),
            final(self).bound_channel() == old(self).bound_channel(),
            old(self).tracks().len() == 0 ==> r && final(self).tracks() == old(self).tracks(),
            old(self).tracks().len() > 0 ==> final(self).tracks() == with_front_playing(
                old(self).tracks(),
                true,
            ),
    {
        self.set_front_playing(true)
    }

    fn set_front_playing(&mut self, playing: bool) -> (r: bool)
        requires
            old(self).wf(),
        ensures
            final(self).wf(),
            final(self).bound_channel() == old(self).bound_channel(),
            old(self).tracks().len() == 0 ==> r && final(self).tracks() == old(self).tracks(),
            old(self).tracks().len() > 0 ==> final(self).tracks() == with_front_playing(
                old(self).tracks(),
                playing,
            ),
    {
        match self.tracks.pop_front() {
            Some(entry) => {
                let (q, meta) = entry;
                let accepted = if playing {
                    q.handle.play()
                } else {
                    q.handle.pause()
                };
                let q = Queued { handle: q.handle, uuid: q.uuid, playing };
                self.tracks.push_front((q, meta));
                assert(self.tracks@ =~= with_front_playing(old(self).tracks(), playing));
                accepted
            },
            None => true,
        }
    }

    /// Takes every entry out of the queue, front first, without telling the
    /// engine anything.
    pub fn drain(&mut self) -> (r: Vec<(Queued<H>, MetaData)>)
        requires
            old(self).wf(),
        ensures
            final(self).wf(),
            r@ == old(self).tracks(),
            final(self).tracks().len() == 0,
            final(self).bound_channel() == old(self).bound_channel(),
    {
        let mut r: Vec<(Queued<H>, MetaData)> = Vec::new();
        let ghost all = old(self).tracks();
        while self.tracks.len() > 0
            invariant
                self.bound_channel() == old(self).bound_channel(),
                all == old(self).tracks(),
                r@ + self.tracks() == all,
            decreases self.tracks().len(),
        {
            match self.tracks.pop_front() {
                Some(entry) => {
                    r.push(entry);
                    assert(r@ + self.tracks() =~= all);
                },
                None => {},
            }
        }
        assert(r@ =~= r@ + self.tracks());
        r
    }

    /// Asks the engine to stop every track of the queue, each one once, and
    /// empties the queue. A track that already ended is no error.
    pub fn stop(&mut self)
        requires
            old(self).wf(),
        ensures
            final(self).wf(),
            final(self).tracks().len() == 0,
            final(self).bound_channel() == old(self).bound_channel(),
    {
        let entries = self.drain();
        let mut i: usize = 0;
        while i < entries.len()
            invariant
                i <= entries@.len(),
            decreases entries@.len() - i,
        {
            let _ = entries[i].0.handle.stop();
            i = i + 1;
        }
    }

    /// Asks the engine to stop the front track, the one `track_handle(0)`
    /// gives, and returns its answer; `true` when the queue is empty. The
    /// queue itself moves on only when the engine reports the end.
    pub fn skip(&self) -> (r: bool)
        ensures
            self.tracks().len() == 0 ==> r,
    {
        match self.track_handle(0) {
            Some(front) => front.stop(),
            None => true,
        }
    }

    /// Whether a message with text `content` in `channel` names the front
    /// track's skip keyword.
    pub fn keyword_matches(&self, channel: u64, content: &str) -> (r: bool)
        ensures
            r == keyword_hit(self.tracks(), self.bound_channel(), channel, content@),
    {
        if self.channel != Some(channel) || self.tracks.len() == 0 {
            return false;
        }
        match &self.tracks[0].1.keyword {
            Some(keyword) => {
                let wanted = String::from_str(trim(content));
                *keyword == wanted
            },
            None => false,
        }
    }

    /// Skips the front track when the message names its keyword. Returns
    /// whether it did.
    pub fn skip_on_keyword(&self, channel: u64, content: &str) -> (r: bool)
        ensures
            r == keyword_hit(self.tracks(), self.bound_channel(), channel, content@),
    {
        let hit = self.keyword_matches(channel, content);
        if hit {
            let _ = self.skip();
        }
        hit
    }
}

impl<H: TrackControl + Clone> GuildQueueCore<H> {
    /// A copy of the front track's handle and description.
    pub fn current(&self) -> (r: Option<(H, MetaData)>)
        ensures
            match r {
                None => self.tracks().len() == 0,
                Some(c) => {
                    &&& self.tracks().len() > 0
                    &&& cloned(self.tracks()[0].0.handle, c.0)
                    &&& c.1 == self.tracks()[0].1
                },
            },
    {
        if self.tracks.len() == 0 {
            None
        } else {
            let entry = &self.tracks[0];
            Some((entry.0.handle.clone(), entry.1.clone()))
        }
    }

    /// A copy of the whole queue, front first, that later changes leave alone.
    pub fn current_queue(&self) -> (r: Vec<(H, MetaData)>)
        ensures
            r@.len() == self.tracks().len(),
            forall|i: int|
                0 <= i < r@.len() ==> cloned(self.tracks()[i].0.handle, (#[trigger] r@[i]).0)
                    && r@[i].1 == self.tracks()[i].1,
    {
        let mut r: Vec<(H, MetaData)> = Vec::new();
        let mut i: usize = 0;
        while i < self.tracks.len()
            invariant
                i <= self.tracks().len(),
                r@.len() == i,
                forall|j: int|
                    0 <= j < i ==> cloned(self.tracks()[j].0.handle, (#[trigger] r@[j]).0)
                        && r@[j].1 == self.tracks()[j].1,
            decreases self.tracks().len() - i,
        {
            let entry = &self.tracks[i];
            r.push((entry.0.handle.clone(), entry.1.clone()));
            i = i + 1;
        }
        r
    }
}

/// At any time at most one track of the queue has been told to play, and it
/// is the front one.
pub proof fn lemma_at_most_one_playing<H>(q: GuildQueueCore<H>)
    requires
        q.wf(),
    ensures
        forall|i: int, j: int|
            0 <= i < q.tracks().len() && 0 <= j < q.tracks().len() && (#[trigger] q.tracks()[i]).0.playing
                && (#[trigger] q.tracks()[j]).0.playing ==> i == j && i == 0,
{
}

/// Once the queue was stopped and a different track added, a delayed end
/// report for the track it replaced no longer names the front track, so
/// `on_track_end` leaves the new track in place.
pub proof fn lemma_stale_end_after_replace<H>(
    stopped: Tracks<H>,
    handle: H,
    uuid: u128,
    meta: MetaData,
    stale: u128,
)
    requires
        stopped.len() == 0,
        uuid != stale,
    ensures
        !front_is(appended(stopped, handle, uuid, meta), stale),
        appended(stopped, handle, uuid, meta)[0].0.uuid == uuid,
        appended(stopped, handle, uuid, meta)[0].0.playing,
{
}

/// What an end report for `ended` does to the queue `before`, leaving
/// `after` with outcome `r`: a report about anything but the front track
/// changes nothing; otherwise the front track leaves, the next ones are
/// asked to play as `settled` says, and the outcome tells whether a track
/// now plays (and which) or the queue drained.
pub open spec fn track_end_post<H>(
    before: Tracks<H>,
    ended: u128,
    r: TrackEndOutcome,
    after: Tracks<H>,
) -> bool {
    &&& !front_is(before, ended) ==> r is Ignored && after == before
    &&& front_is(before, ended) ==> exists|answers: Seq<bool>|
        after == #[trigger] settled(before.subrange(1, before.len() as int), answers)
    &&& r is Drained <==> (front_is(before, ended) && after.len() == 0)
    &&& r is NowPlaying <==> (front_is(before, ended) && after.len() > 0)
    &&& r is NowPlaying ==> r->NowPlaying_0 == after[0].1 && after[0].0.playing
}

/// `rs` are the outcomes of end reports `ended` delivered one after the
/// other, with nothing else touching the queue, which went through the
/// states `qs`.
pub open spec fn end_reports<H>(
    qs: Seq<Tracks<H>>,
    ended: Seq<u128>,
    rs: Seq<TrackEndOutcome>,
) -> bool {
    &&& qs.len() == rs.len() + 1
    &&& ended.len() == rs.len()
    &&& forall|i: int|
        0 <= i < rs.len() ==> #[trigger] track_end_post(qs[i], ended[i], rs[i], qs[i + 1])
}

/// Once the queue is empty it stays empty, and every later report is ignored.
proof fn lemma_empty_stays_empty<H>(
    qs: Seq<Tracks<H>>,
    ended: Seq<u128>,
    rs: Seq<TrackEndOutcome>,
    i: int,
    j: int,
)
    requires
        end_reports(qs, ended, rs),
        0 <= i <= j < qs.len(),
        qs[i].len() == 0,
    ensures
        qs[j].len() == 0,
        j < rs.len() ==> rs[j] is Ignored,
    decreases j - i,
{
    if j > i {
        lemma_empty_stays_empty(qs, ended, rs, i, j - 1);
        let k = j - 1;
        assert(track_end_post(qs[k], ended[k], rs[k], qs[k + 1]));
    }
    if j < rs.len() {
        assert(track_end_post(qs[j], ended[j], rs[j], qs[j + 1]));
    }
}

/// Without a drain the queue keeps a track.
proof fn lemma_nonempty_until_drained<H>(
    qs: Seq<Tracks<H>>,
    ended: Seq<u128>,
    rs: Seq<TrackEndOutcome>,
    j: int,
)
    requires
        end_reports(qs, ended, rs),
        0 <= j < qs.len(),
        qs[0].len() > 0,
        forall|i: int| 0 <= i < j ==> !(#[trigger] rs[i] is Drained),
    ensures
        qs[j].len() > 0,
    decreases j,
{
    if j > 0 {
        lemma_nonempty_until_drained(qs, ended, rs, j - 1);
        let k = j - 1;
        assert(track_end_post(qs[k], ended[k], rs[k], qs[k + 1]));
        assert(!(rs[k] is Drained));
    }
}

/// "Nothing plays" is shown exactly once per drain: over any run of end
/// reports, at most one outcome is `Drained`, and when the run takes a queue
/// that had tracks to an empty one, exactly one is.
pub proof fn lemma_drained_once_per_drain<H>(
    qs: Seq<Tracks<H>>,
    ended: Seq<u128>,
    rs: Seq<TrackEndOutcome>,
)
    requires
        end_reports(qs, ended, rs),
    ensures
        forall|i: int, j: int|
            0 <= i < rs.len() && 0 <= j < rs.len() && #[trigger] rs[i] is Drained
                && #[trigger] rs[j] is Drained ==> i == j,
        qs[0].len() > 0 && qs[qs.len() - 1].len() == 0 ==> exists|i: int|
            0 <= i < rs.len() && #[trigger] rs[i] is Drained,
{
    assert forall|i: int, j: int|
        0 <= i < rs.len() && 0 <= j < rs.len() && #[trigger] rs[i] is Drained
            && #[trigger] rs[j] is Drained implies i == j by {
        if i < j {
            assert(track_end_post(qs[i], ended[i], rs[i], qs[i + 1]));
            lemma_empty_stays_empty(qs, ended, rs, i + 1, j);
        } else if j < i {
            assert(track_end_post(qs[j], ended[j], rs[j], qs[j + 1]));
            lemma_empty_stays_empty(qs, ended, rs, j + 1, i);
        }
    }
    if qs[0].len() > 0 && qs[qs.len() - 1].len() == 0 {
        if forall|i: int| 0 <= i < rs.len() ==> !(#[trigger] rs[i] is Drained) {
            lemma_nonempty_until_drained(qs, ended, rs, qs.len() - 1);
        }
    }
}

/// A queue of two tracks, where the first one ends and then the second: if
/// the second one started, the first report shows it and the second report
/// drains the queue; if the engine refused it, the first report drains the
/// queue and the second is ignored. Either way "nothing plays" is shown once.
pub proof fn lemma_two_tracks_drain<H>(
    q0: Tracks<H>,
    q1: Tracks<H>,
    q2: Tracks<H>,
    r1: TrackEndOutcome,
    r2: TrackEndOutcome,
)
    requires
        q0.len() == 2,
        only_front_playing(q0),
        track_end_post(q0, q0[0].0.uuid, r1, q1),
        track_end_post(q1, q0[1].0.uuid, r2, q2),
    ensures
        r1 is NowPlaying ==> r1 == TrackEndOutcome::NowPlaying(q0[1].1) && r2 is Drained
            && q2.len() == 0,
        r1 is Drained ==> r2 is Ignored && q2.len() == 0,
        r1 is NowPlaying || r1 is Drained,
{
    let rest = q0.subrange(1, 2);
    assert(front_is(q0, q0[0].0.uuid));
    let answers = choose|answers: Seq<bool>| q1 == #[trigger] settled(rest, answers);
    assert(q1 == settled(rest, answers));
    assert(rest[0] == q0[1]);
    if answers.len() > 0 && !answers[0] {
        assert(settled(rest, answers) == settled(
            rest.subrange(1, 1),
            answers.subrange(1, answers.len() as int),
        ));
        assert(rest.subrange(1, 1).len() == 0);
    }
    if q1.len() > 0 {
        assert(q1.len() == 1 && q1[0].0.uuid == q0[1].0.uuid && q1[0].1 == q0[1].1);
        assert(front_is(q1, q0[1].0.uuid));
        let a2 = choose|a2: Seq<bool>| q2 == #[trigger] settled(q1.subrange(1, 1), a2);
        assert(q1.subrange(1, 1).len() == 0);
    }
}

/// Drain to empty: when the front track ends and the engine refuses every
/// track after it (or there is none), `on_track_end` leaves the queue empty,
/// so its outcome is `Drained` and "nothing plays" is shown; every later end
/// report then names no front track and is `Ignored`, until a track is added.
/// So "nothing plays" is shown once per drain.
pub proof fn lemma_drain_signalled_once<H>(
    tracks: Tracks<H>,
    ended: u128,
    answers: Seq<bool>,
    later: u128,
)
    requires
        front_is(tracks, ended),
        answers.len() >= tracks.len() - 1,
        forall|i: int| 0 <= i < answers.len() ==> !answers[i],
    ensures
        settled(tracks.subrange(1, tracks.len() as int), answers).len() == 0,
        !front_is(settled(tracks.subrange(1, tracks.len() as int), answers), later),
{
    lemma_all_refused(tracks.subrange(1, tracks.len() as int), answers);
}

/// A message with text `content` in `channel` triggers a skip: it is read in
/// the bound channel and, trimmed, equals the front track's keyword exactly.
pub open spec fn keyword_hit<H>(
    tracks: Tracks<H>,
    bound: Option<u64>,
    channel: u64,
    content: Seq<char>,
) -> bool {
    &&& bound == Some(channel)
    &&& tracks.len() > 0
    &&& tracks[0].1.keyword is Some
    &&& tracks[0].1.keyword->Some_0@ == trimmed(content)
}

} // verus!
