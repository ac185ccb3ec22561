use std::cell::RefCell;
use std::rc::Rc;

use guild_player::guild_queue::{GuildQueueCore, TrackControl, TrackEndOutcome};
use guild_player::youtube_dl::MetaData;

#[derive(Clone)]
struct FakeTrack {
    name: &'static str,
    playable: bool,
    log: Rc<RefCell<Vec<String>>>,
}

impl TrackControl for FakeTrack {
    fn play(&self) -> bool {
        self.log.borrow_mut().push(format!("play {}", self.name));
        self.playable
    }

    fn pause(&self) -> bool {
        self.log.borrow_mut().push(format!("pause {}", self.name));
        true
    }

    fn stop(&self) -> bool {
        self.log.borrow_mut().push(format!("stop {}", self.name));
        true
    }

    fn make_playable(&self) {
        self.log.borrow_mut().push(format!("prepare {}", self.name));
    }
}

fn track(name: &'static str, playable: bool, log: &Rc<RefCell<Vec<String>>>) -> FakeTrack {
    FakeTrack { name, playable, log: log.clone() }
}

fn meta(title: &str, keyword: Option<&str>) -> MetaData {
    MetaData {
        duration: Some(60),
        title: Some(title.to_string()),
        keyword: keyword.map(|k| k.to_string()),
    }
}

fn playing_count(q: &GuildQueueCore<FakeTrack>) -> usize {
    (0..q.len()).filter(|&i| q.is_playing(i)).count()
}

fn new_log() -> Rc<RefCell<Vec<String>>> {
    Rc::new(RefCell::new(Vec::new()))
}

#[test]
fn add_to_empty_queue_starts_at_once() {
    let log = new_log();
    let mut q = GuildQueueCore::new();
    let started = q.add(track("a", true, &log), 1, meta("A", None));
    assert!(started);
    assert!(q.is_playing(0));
    assert_eq!(*log.borrow(), vec!["play a".to_string()]);
}

#[test]
fn add_to_busy_queue_stays_paused() {
    let log = new_log();
    let mut q = GuildQueueCore::new();
    q.add(track("a", true, &log), 1, meta("A", None));
    let started = q.add(track("b", true, &log), 2, meta("B", None));
    assert!(!started);
    assert!(q.is_playing(0));
    assert!(!q.is_playing(1));
    assert_eq!(*log.borrow(), vec!["play a".to_string()]);
}

#[test]
fn stale_end_report_is_ignored() {
    let log = new_log();
    let mut q = GuildQueueCore::new();
    q.add(track("a", true, &log), 1, meta("A", None));
    q.stop();
    q.add(track("b", true, &log), 2, meta("B", None));
    assert_eq!(q.on_track_end(1), TrackEndOutcome::Ignored);
    assert_eq!(q.len(), 1);
    assert_eq!(q.current().unwrap().1, meta("B", None));
    assert!(q.is_playing(0));
}

#[test]
fn unplayable_track_is_skipped_over() {
    let log = new_log();
    let mut q = GuildQueueCore::new();
    q.add(track("first", true, &log), 1, meta("First", None));
    q.add(track("bad", false, &log), 2, meta("Bad", None));
    q.add(track("good", true, &log), 3, meta("Good", None));
    let outcome = q.on_track_end(1);
    assert_eq!(outcome, TrackEndOutcome::NowPlaying(meta("Good", None)));
    assert_eq!(q.len(), 1);
    assert!(q.is_playing(0));
    assert_eq!(
        *log.borrow(),
        vec!["play first".to_string(), "play bad".to_string(), "play good".to_string()]
    );
}

#[test]
fn only_unplayable_tracks_drain_the_queue() {
    let log = new_log();
    let mut q = GuildQueueCore::new();
    q.add(track("first", true, &log), 1, meta("First", None));
    q.add(track("bad", false, &log), 2, meta("Bad", None));
    assert_eq!(q.on_track_end(1), TrackEndOutcome::Drained);
    assert!(q.is_empty());
}

#[test]
fn at_most_one_track_plays_through_events() {
    let log = new_log();
    let mut q = GuildQueueCore::new();
    for (i, name) in ["a", "b", "c", "d"].iter().enumerate() {
        q.add(track(name, true, &log), i as u128 + 1, meta(name, None));
        assert!(playing_count(&q) <= 1);
    }
    assert!(q.skip());
    assert!(playing_count(&q) <= 1);
    q.on_track_end(1);
    assert_eq!(playing_count(&q), 1);
    assert!(q.is_playing(0));
    q.on_track_end(7);
    assert_eq!(playing_count(&q), 1);
    q.on_track_end(2);
    q.pause();
    assert_eq!(playing_count(&q), 0);
    q.resume();
    assert_eq!(playing_count(&q), 1);
    assert!(q.is_playing(0));
}

#[test]
fn preload_does_nothing_on_short_queue() {
    let log = new_log();
    let mut q = GuildQueueCore::new();
    assert!(!q.preload_next());
    q.add(track("a", true, &log), 1, meta("A", None));
    let before = log.borrow().clone();
    assert!(!q.preload_next());
    assert_eq!(*log.borrow(), before);
}

#[test]
fn preload_prepares_second_track() {
    let log = new_log();
    let mut q = GuildQueueCore::new();
    q.add(track("a", true, &log), 1, meta("A", None));
    q.add(track("b", true, &log), 2, meta("B", None));
    q.add(track("c", true, &log), 3, meta("C", None));
    assert!(q.preload_next());
    assert_eq!(log.borrow().last().unwrap(), "prepare b");
}

#[test]
fn keyword_with_surrounding_space_skips() {
    let log = new_log();
    let mut q = GuildQueueCore::new();
    q.register_channel(42);
    q.add(track("a", true, &log), 1, meta("A", Some("스킵")));
    assert!(q.skip_on_keyword(42, " 스킵 "));
    assert_eq!(log.borrow().last().unwrap(), "stop a");
    assert_eq!(q.len(), 1);
}

#[test]
fn keyword_with_extra_text_does_not_skip() {
    let log = new_log();
    let mut q = GuildQueueCore::new();
    q.register_channel(42);
    q.add(track("a", true, &log), 1, meta("A", Some("스킵")));
    assert!(!q.skip_on_keyword(42, "스킵!"));
    assert_eq!(*log.borrow(), vec!["play a".to_string()]);
}

#[test]
fn keyword_in_other_channel_does_not_skip() {
    let log = new_log();
    let mut q = GuildQueueCore::new();
    q.register_channel(42);
    q.add(track("a", true, &log), 1, meta("A", Some("skip")));
    assert!(!q.keyword_matches(7, "skip"));
    assert!(q.keyword_matches(42, "skip\n"));
    assert!(!q.keyword_matches(42, "Skip"));
}

#[test]
fn keyword_needs_a_bound_channel_and_a_keyword() {
    let log = new_log();
    let mut q = GuildQueueCore::new();
    q.add(track("a", true, &log), 1, meta("A", Some("skip")));
    assert!(!q.keyword_matches(42, "skip"));
    q.register_channel(42);
    q.add(track("b", true, &log), 2, meta("B", None));
    q.on_track_end(1);
    assert!(!q.keyword_matches(42, "skip"));
}

#[test]
fn drain_reports_nothing_playing_once() {
    let log = new_log();
    let mut q = GuildQueueCore::new();
    q.add(track("a", true, &log), 1, meta("A", None));
    q.add(track("b", true, &log), 2, meta("B", None));
    assert_eq!(q.on_track_end(1), TrackEndOutcome::NowPlaying(meta("B", None)));
    assert_eq!(q.on_track_end(2), TrackEndOutcome::Drained);
    assert_eq!(q.on_track_end(2), TrackEndOutcome::Ignored);
    assert_eq!(q.on_track_end(1), TrackEndOutcome::Ignored);
}

#[test]
fn stop_clears_and_stops_every_track() {
    let log = new_log();
    let mut q = GuildQueueCore::new();
    q.register_channel(5);
    q.add(track("a", true, &log), 1, meta("A", None));
    q.add(track("b", true, &log), 2, meta("B", None));
    q.stop();
    assert!(q.is_empty());
    assert_eq!(q.channel(), Some(5));
    assert_eq!(
        *log.borrow(),
        vec!["play a".to_string(), "stop a".to_string(), "stop b".to_string()]
    );
    q.stop();
    assert!(q.is_empty());
}

#[test]
fn skip_on_empty_queue_is_fine() {
    let q: GuildQueueCore<FakeTrack> = GuildQueueCore::new();
    assert!(q.skip());
    assert!(q.current().is_none());
    assert_eq!(q.channel(), None);
}

#[test]
fn dequeue_removes_one_track() {
    let log = new_log();
    let mut q = GuildQueueCore::new();
    q.add(track("a", true, &log), 1, meta("A", None));
    q.add(track("b", true, &log), 2, meta("B", None));
    q.add(track("c", true, &log), 3, meta("C", None));
    let removed = q.dequeue(1).unwrap();
    assert_eq!(removed.uuid, 2);
    assert_eq!(removed.handle().name, "b");
    assert!(q.dequeue(5).is_none());
    let titles: Vec<String> = q.current_queue().into_iter().map(|(_, m)| m.title.unwrap()).collect();
    assert_eq!(titles, vec!["A".to_string(), "C".to_string()]);
}

#[test]
fn current_queue_is_a_snapshot() {
    let log = new_log();
    let mut q = GuildQueueCore::new();
    q.add(track("a", true, &log), 1, meta("A", None));
    q.add(track("b", true, &log), 2, meta("B", None));
    let snapshot = q.current_queue();
    q.stop();
    assert_eq!(snapshot.len(), 2);
    assert_eq!(snapshot[0].0.name, "a");
    assert_eq!(snapshot[1].1, meta("B", None));
}

#[test]
fn pause_and_resume_the_front_track() {
    let log = new_log();
    let mut q = GuildQueueCore::new();
    assert!(q.pause());
    assert!(q.resume());
    q.add(track("a", true, &log), 1, meta("A", None));
    assert!(q.pause());
    assert!(!q.is_playing(0));
    assert!(q.resume());
    assert!(q.is_playing(0));
    assert_eq!(
        *log.borrow(),
        vec!["play a".to_string(), "pause a".to_string(), "play a".to_string()]
    );
}

#[test]
fn record_play_attempt_keeps_or_drops_the_front() {
    let log = new_log();
    let mut q = GuildQueueCore::new();
    q.add(track("a", true, &log), 1, meta("A", None));
    q.add(track("b", true, &log), 2, meta("B", None));
    q.pause();
    assert!(q.record_play_attempt(true));
    assert!(q.is_playing(0));
    assert!(!q.record_play_attempt(false));
    assert_eq!(q.len(), 1);
    assert_eq!(q.current().unwrap().0.name, "b");
}

#[test]
fn track_handle_gives_the_track_at_an_index() {
    let log = new_log();
    let mut q = GuildQueueCore::new();
    assert!(q.track_handle(0).is_none());
    q.add(track("a", true, &log), 1, meta("A", None));
    q.add(track("b", true, &log), 2, meta("B", None));
    assert_eq!(q.track_handle(0).unwrap().name, "a");
    assert_eq!(q.track_handle(1).unwrap().name, "b");
    assert!(q.track_handle(2).is_none());
}

#[test]
fn drain_hands_out_every_entry_without_stopping() {
    let log = new_log();
    let mut q = GuildQueueCore::new();
    q.add(track("a", true, &log), 1, meta("A", None));
    q.add(track("b", true, &log), 2, meta("B", None));
    let entries = q.drain();
    assert!(q.is_empty());
    assert_eq!(entries.len(), 2);
    assert_eq!(entries[0].0.uuid, 1);
    assert!(entries[0].0.playing);
    assert_eq!(entries[1].1, meta("B", None));
    assert_eq!(*log.borrow(), vec!["play a".to_string()]);
}

#[test]
fn skip_stops_only_the_front_track() {
    let log = new_log();
    let mut q = GuildQueueCore::new();
    q.add(track("a", true, &log), 1, meta("A", None));
    q.add(track("b", true, &log), 2, meta("B", None));
    assert!(q.skip());
    assert_eq!(*log.borrow(), vec!["play a".to_string(), "stop a".to_string()]);
    assert_eq!(q.len(), 2);
}

#[test]
fn one_track_queue_drains_on_its_end() {
    let log = new_log();
    let mut q = GuildQueueCore::new();
    q.add(track("a", true, &log), 1, meta("A", None));
    assert_eq!(q.on_track_end(1), TrackEndOutcome::Drained);
    assert!(q.is_empty());
    assert_eq!(q.on_track_end(1), TrackEndOutcome::Ignored);
}
