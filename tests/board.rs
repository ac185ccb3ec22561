use guild_player::board::{status_text, Board};
use guild_player::youtube_dl::MetaData;

fn s(x: &str) -> String {
    x.to_string()
}

#[test]
fn repeated_events_count_and_rank_first() {
    let mut b = Board::new();
    for _ in 0..5 {
        b.add_score(s("p"));
    }
    assert_eq!(b.score_of(&s("p")), 5);
    assert_eq!(b.ranking(), vec![(s("p"), 5)]);
    assert_eq!(b.score_text(), "p: 5");
}

#[test]
fn event_of_known_participant_increments() {
    let mut b = Board::new();
    b.add_users(vec![s("a"), s("b"), s("a")]);
    b.add_score(s("b"));
    b.add_score(s("b"));
    b.add_score(s("a"));
    assert_eq!(b.score_of(&s("a")), 1);
    assert_eq!(b.score_of(&s("b")), 2);
    assert_eq!(b.score_of(&s("c")), 0);
    assert_eq!(b.ranking(), vec![(s("b"), 2), (s("a"), 1)]);
}

#[test]
fn add_user_only_once() {
    let mut b = Board::new();
    assert!(b.add_user(s("a")));
    assert!(!b.add_user(s("a")));
    assert_eq!(b.ranking(), vec![(s("a"), 0)]);
}

#[test]
fn equal_scores_keep_joining_order() {
    let mut b = Board::new();
    b.add_users(vec![s("x"), s("y"), s("z")]);
    b.add_score(s("z"));
    assert_eq!(b.ranking(), vec![(s("z"), 1), (s("x"), 0), (s("y"), 0)]);
}

#[test]
fn score_text_lists_by_rank() {
    let mut b = Board::new();
    b.add_user(s("a"));
    for _ in 0..12 {
        b.add_score(s("b"));
    }
    b.add_score(s("a"));
    assert_eq!(b.score_text(), "b: 12\na: 1");
}

#[test]
fn score_text_of_empty_board() {
    assert_eq!(Board::new().score_text(), "");
}

#[test]
fn reset_forgets_everyone() {
    let mut b = Board::new();
    b.add_score(s("a"));
    b.reset_score();
    assert_eq!(b.ranking(), vec![]);
    assert_eq!(b.score_of(&s("a")), 0);
}

#[test]
fn status_text_shows_title_and_end() {
    let m = MetaData { duration: Some(100), title: Some(s("Song")), keyword: None };
    assert_eq!(status_text(&Some(m), 1000), Some(s("Song\n<t:1100:R> 종료")));
}

#[test]
fn status_text_without_title_or_length() {
    let m = MetaData { duration: None, title: None, keyword: None };
    assert_eq!(status_text(&Some(m), -5), Some(s("제목 없음\n<t:-5:R> 종료")));
}

#[test]
fn status_text_when_nothing_plays() {
    assert_eq!(status_text(&None, 1000), Some(s("없음")));
    assert_eq!(status_text(&None, i64::MIN), Some(s("없음")));
}

#[test]
fn status_text_refuses_an_end_past_the_last_time_stamp() {
    let m = MetaData { duration: Some(10), title: Some(s("T")), keyword: None };
    assert_eq!(status_text(&Some(m.clone()), i64::MAX - 10), Some(s("T\n<t:9223372036854775807:R> 종료")));
    assert_eq!(status_text(&Some(m), i64::MAX - 9), None);
}


#[test]
fn status_text_before_1970_and_without_length() {
    let m = MetaData { duration: None, title: Some(s("T")), keyword: None };
    assert_eq!(status_text(&Some(m), i64::MIN), Some(s("T\n<t:-9223372036854775808:R> 종료")));
    let m = MetaData { duration: Some(-3), title: Some(s("T")), keyword: None };
    assert_eq!(status_text(&Some(m), i64::MIN + 2), None);
}
