//! The score board of a guild: who scored how often, in ranking order, and
//! the texts of the score and now-playing displays.

use vstd::prelude::*;
use vstd::multiset::Multiset;
use vstd::seq_lib::{to_multiset_build, to_multiset_insert};

use crate::text::{decimal, decimal_text};
use crate::youtube_dl::MetaData;

verus! {

pub type Scores = Seq<(String, i32)>;

/// No participant appears twice.
pub open spec fn names_unique(s: Scores) -> bool {
    forall|i: int, j: int| 0 <= i < j < s.len() ==> (#[trigger] s[i]).0@ != (#[trigger] s[j]).0@
}

/// `name` has an entry in `s`.
pub open spec fn has_name(s: Scores, name: Seq<char>) -> bool {
    exists|i: int| 0 <= i < s.len() && (#[trigger] s[i]).0@ == name
}

/// `s` after `name` was added with score 0, unless it is there already.
pub open spec fn with_user(s: Scores, name: String) -> Scores {
    if has_name(s, name@) {
        s
    } else {
        s.push((name, 0i32))
    }
}

/// `s` after each of `names` was added in turn.
pub open spec fn with_users(s: Scores, names: Seq<String>) -> Scores
    decreases names.len(),
{
    if names.len() == 0 {
        s
    } else {
        with_user(with_users(s, names.subrange(0, names.len() - 1)), names[names.len() - 1])
    }
}

/// `s` after one event of `name`: its score goes up by one, from 0 when it
/// had no entry.
pub open spec fn recorded(s: Scores, name: String) -> Scores {
    if has_name(s, name@) {
        let i = choose|i: int| 0 <= i < s.len() && (#[trigger] s[i]).0@ == name@;
        s.update(i, (s[i].0, (s[i].1 + 1) as i32))
    } else {
        s.push((name, 1i32))
    }
}

/// `s` after `n` events of `name`.
pub open spec fn recorded_times(s: Scores, name: String, n: nat) -> Scores
    decreases n,
{
    if n == 0 {
        s
    } else {
        recorded(recorded_times(s, name, (n - 1) as nat), name)
    }
}

/// `r` (ranked) with `e` placed after every entry whose score is at least
/// `e`'s.
pub open spec fn insert_ranked(r: Scores, e: (String, i32)) -> Scores
    decreases r.len(),
{
    if r.len() == 0 {
        seq![e]
    } else if r[0].1 < e.1 {
        seq![e] + r
    } else {
        seq![r[0]] + insert_ranked(r.subrange(1, r.len() as int), e)
    }
}

/// The entries of `s` by descending score; equal scores keep their order.
pub open spec fn ranked(s: Scores) -> Scores
    decreases s.len(),
{
    if s.len() == 0 {
        s
    } else {
        insert_ranked(ranked(s.subrange(0, s.len() - 1)), s[s.len() - 1])
    }
}

/// Scores never go up from one entry of `r` to a later one.
pub open spec fn descending(r: Scores) -> bool {
    forall|i: int, j: int| 0 <= i < j < r.len() ==> (#[trigger] r[i]).1 >= (#[trigger] r[j]).1
}

proof fn lemma_insert_ranked(r: Scores, e: (String, i32))
    requires
        descending(r),
    ensures
        descending(insert_ranked(r, e)),
        insert_ranked(r, e).to_multiset() == r.to_multiset().insert(e),
        forall|k: int|
            0 <= k < insert_ranked(r, e).len() ==> #[trigger] insert_ranked(r, e)[k] == e
                || r.contains(insert_ranked(r, e)[k]),
    decreases r.len(),
{
    let ins = insert_ranked(r, e);
    if r.len() == 0 {
        assert(ins =~= r.insert(0, e));
        to_multiset_insert(r, 0, e);
    } else if r[0].1 < e.1 {
        assert(ins == r.insert(0, e));
        to_multiset_insert(r, 0, e);
        assert forall|k: int| 0 <= k < ins.len() implies #[trigger] ins[k] == e || r.contains(
            ins[k],
        ) by {
            if k > 0 {
                assert(ins[k] == r[k - 1]);
            }
        }
    } else {
        let tail = r.subrange(1, r.len() as int);
        lemma_insert_ranked(tail, e);
        let rest = insert_ranked(tail, e);
        assert(r == tail.insert(0, r[0]));
        assert(ins == rest.insert(0, r[0]));
        to_multiset_insert(tail, 0, r[0]);
        to_multiset_insert(rest, 0, r[0]);
        assert(ins.to_multiset() =~= r.to_multiset().insert(e));
        assert forall|k: int| 0 <= k < ins.len() implies #[trigger] ins[k] == e || r.contains(
            ins[k],
        ) by {
            if k > 0 {
                assert(ins[k] == rest[k - 1]);
                if rest[k - 1] != e {
                    let m = choose|m: int| 0 <= m < tail.len() && tail[m] == rest[k - 1];
                    assert(r[m + 1] == ins[k]);
                }
            } else {
                assert(r[0] == ins[k]);
            }
        }
        assert forall|i: int, j: int| 0 <= i < j < ins.len() implies (#[trigger] ins[i]).1 >= (
        #[trigger] ins[j]).1 by {
            if i == 0 {
                assert(ins[j] == rest[j - 1]);
                if rest[j - 1] != e {
                    let m = choose|m: int| 0 <= m < tail.len() && tail[m] == rest[j - 1];
                    assert(r[m + 1] == ins[j]);
                }
            } else {
                assert(ins[i] == rest[i - 1] && ins[j] == rest[j - 1]);
            }
        }
    }
}

/// The ranking lists every entry of the board once, by descending score.
pub proof fn lemma_ranking_sorted(s: Scores)
    ensures
        descending(ranked(s)),
        ranked(s).to_multiset() == s.to_multiset(),
    decreases s.len(),
{
    if s.len() > 0 {
        let prefix = s.subrange(0, s.len() - 1);
        lemma_ranking_sorted(prefix);
        lemma_insert_ranked(ranked(prefix), s[s.len() - 1]);
        assert(s == prefix.push(s[s.len() - 1]));
        to_multiset_build(prefix, s[s.len() - 1]);
    } else {
        broadcast use vstd::seq_lib::group_to_multiset_ensures;

        assert(s.to_multiset() =~= Multiset::<(String, i32)>::empty());
    }
}

/// One line of the score display: `name: score`.
pub open spec fn score_line(e: (String, i32)) -> Seq<char> {
    e.0@ + ": "@ + decimal_text(e.1 as int)
}

/// The lines of `r`, joined by line breaks.
pub open spec fn score_lines(r: Scores) -> Seq<char>
    decreases r.len(),
{
    if r.len() == 0 {
        Seq::empty()
    } else if r.len() == 1 {
        score_line(r[0])
    } else {
        score_lines(r.subrange(0, r.len() - 1)) + "\n"@ + score_line(r[r.len() - 1])
    }
}

/// The title shown for `m`.
pub open spec fn title_of(m: MetaData) -> Seq<char> {
    match m.title {
        Some(t) => t@,
        None => "제목 없음"@,
    }
}

/// The length in seconds counted for `m`: 0 when unknown.
pub open spec fn duration_of(m: MetaData) -> int {
    match m.duration {
        Some(d) => d as int,
        None => 0,
    }
}

/// The now-playing display at Unix time `now`: the title and a relative
/// time stamp of the track's end, or that nothing plays.
pub open spec fn status_text_at(meta: Option<MetaData>, now: int) -> Seq<char> {
    match meta {
        None => "없음"@,
        Some(m) => title_of(m) + "\n<t:"@ + decimal_text(now + duration_of(m)) + ":R> 종료"@,
    }
}

/// The end time of `meta`'s track, counted from `now`, fits an `i64`.
pub open spec fn end_time_fits(meta: Option<MetaData>, now: int) -> bool {
    meta is Some ==> i64::MIN <= now + duration_of(meta->Some_0) <= i64::MAX
}

/// The now-playing display for `meta`, with the end time counted from
/// `now`; `None` exactly when that end time does not fit an `i64`.
pub fn status_text(meta: &Option<MetaData>, now: i64) -> (r: Option<String>)
    ensures
        r is None <==> !end_time_fits(*meta, now as int),
        r is Some ==> r->Some_0@ == status_text_at(*meta, now as int),
{
    match meta {
        None => Some(String::from_str("없음")),
        Some(m) => {
            let duration: i64 = match m.duration {
                Some(d) => d,
                None => 0,
            };
            let end = match now.checked_add(duration) {
                Some(end) => end,
                None => {
                    return None;
                },
            };
            let mut text = match &m.title {
                Some(t) => t.clone(),
                None => String::from_str("제목 없음"),
            };
            text.append("\n<t:");
            let stamp = decimal(end);
            text.append(stamp.as_str());
            text.append(":R> 종료");
            Some(text)
        },
    }
}

/// `insert_ranked` puts `e` at `p` when every entry before `p` scores at
/// least as much as `e` and the one at `p` less.
proof fn lemma_insert_at(r: Scores, e: (String, i32), p: int)
    requires
        0 <= p <= r.len(),
        forall|q: int| 0 <= q < p ==> (#[trigger] r[q]).1 >= e.1,
        p < r.len() ==> r[p].1 < e.1,
    ensures
        insert_ranked(r, e) == r.insert(p, e),
    decreases r.len(),
{
    if r.len() == 0 {
        assert(r.insert(p, e) =~= seq![e]);
    } else if r[0].1 < e.1 {
        assert(r.insert(p, e) =~= seq![e] + r);
    } else {
        let tail = r.subrange(1, r.len() as int);
        lemma_insert_at(tail, e, p - 1);
        assert(r.insert(p, e) =~= seq![r[0]] + tail.insert(p - 1, e));
    }
}

/// Recording `n` events of one participant on an empty board leaves that
/// participant alone on it, with score `n`, first in the ranking, and the
/// score display is the one line `name: n`.
pub proof fn lemma_repeated_record(name: String, n: nat)
    requires
        0 < n <= i32::MAX,
    ensures
        recorded_times(Seq::empty(), name, n) == seq![(name, n as i32)],
        ranked(recorded_times(Seq::empty(), name, n)) == seq![(name, n as i32)],
        score_lines(ranked(recorded_times(Seq::empty(), name, n))) == name@ + ": "@
            + decimal_text(n as int),
    decreases n,
{
    let empty = Seq::<(String, i32)>::empty();
    if n == 1 {
        assert(!has_name(empty, name@));
        assert(recorded_times(empty, name, 0) == empty);
        assert(recorded(empty, name) =~= seq![(name, 1i32)]);
    } else {
        lemma_repeated_record(name, (n - 1) as nat);
        let s = seq![(name, (n - 1) as i32)];
        assert(s[0].0@ == name@);
        assert(has_name(s, name@));
        assert(recorded(s, name) =~= seq![(name, n as i32)]);
    }
    let one = seq![(name, n as i32)];
    assert(one.subrange(0, 0) =~= empty);
    assert(ranked(one) == insert_ranked(ranked(empty), one[0]));
}

/// The participants of a guild and their scores.
pub struct Board {
    score: Vec<(String, i32)>,
}

impl Board {
    pub closed spec fn scores(&self) -> Scores {
        self.score@
    }

    pub open spec fn wf(&self) -> bool {
        names_unique(self.scores())
    }

    /// A board with no participant.
    pub fn new() -> (r: Board)
        ensures
            r.wf(),
            r.scores() == Seq::<(String, i32)>::empty(),
    {
        Board { score: Vec::new() }
    }

    /// Where `name` stands in the board, if anywhere.
    fn position(&self, name: &String) -> (r: Option<usize>)
        ensures
            match r {
                Some(i) => i < self.scores().len() && self.scores()[i as int].0@ == name@,
                None => !has_name(self.scores(), name@),
            },
    {
        let mut i: usize = 0;
        while i < self.score.len()
            invariant
                i <= self.scores().len(),
                forall|j: int| 0 <= j < i ==> (#[trigger] self.scores()[j]).0@ != name@,
            decreases self.scores().len() - i,
        {
            if self.score[i].0 == *name {
                return Some(i);
            }
            i = i + 1;
        }
        None
    }

    /// The score of `name`, 0 when it has no entry.
    pub fn score_of(&self, name: &String) -> (r: i32)
        ensures
            has_name(self.scores(), name@) ==> exists|i: int|
                0 <= i < self.scores().len() && (#[trigger] self.scores()[i]).0@ == name@ && r
                    == self.scores()[i].1,
            !has_name(self.scores(), name@) ==> r == 0,
    {
        match self.position(name) {
            Some(i) => self.score[i].1,
            None => 0,
        }
    }

    /// Adds `name` with score 0 unless it is there. Returns whether it was
    /// added, that is whether the display needs drawing again.
    pub fn add_user(&mut self, name: String) -> (added: bool)
        requires
            old(self).wf(),
        ensures
            final(self).wf(),
            added == !has_name(old(self).scores(), name@),
            final(self).scores() == with_user(old(self).scores(), name),
    {
        match self.position(&name) {
            Some(_) => false,
            None => {
                self.score.push((name, 0));
                true
            },
        }
    }

    /// Adds each of `names` that is not there yet, with score 0.
    pub fn add_users(&mut self, names: Vec<String>)
        requires
            old(self).wf(),
        ensures
            final(self).wf(),
            final(self).scores() == with_users(old(self).scores(), names@),
    {
        let mut i: usize = 0;
        while i < names.len()
            invariant
                i <= names@.len(),
                self.wf(),
                self.scores() == with_users(old(self).scores(), names@.subrange(0, i as int)),
            decreases names@.len() - i,
        {
            let name = names[i].clone();
            self.add_user(name);
            proof {
                assert(names@.subrange(0, i + 1).subrange(0, i as int) =~= names@.subrange(
                    0,
                    i as int,
                ));
            }
            i = i + 1;
        }
        assert(names@.subrange(0, names@.len() as int) =~= names@);
    }

    /// Counts one event of `name`: its score goes up by one, starting from 0
    /// when it had no entry.
    pub fn add_score(&mut self, name: String)
        requires
            old(self).wf(),
            forall|i: int|
                0 <= i < old(self).scores().len() && (#[trigger] old(self).scores()[i]).0@
                    == name@ ==> old(self).scores()[i].1 < i32::MAX,
        ensures
            final(self).wf(),
            final(self).scores() == recorded(old(self).scores(), name),
    {
        match self.position(&name) {
            Some(i) => {
                let (who, points) = self.score.remove(i);
                self.score.insert(i, (who, points + 1));
                proof {
                    let s = old(self).scores();
                    let c = choose|c: int| 0 <= c < s.len() && (#[trigger] s[c]).0@ == name@;
                    assert(c == i);
                    assert(self.scores() =~= recorded(s, name));
                }
            },
            None => {
                self.score.push((name, 1));
            },
        }
    }

    /// The entries by descending score; equal scores keep the order in
    /// which their participants joined.
    pub fn ranking(&self) -> (r: Vec<(String, i32)>)
        ensures
            r@ == ranked(self.scores()),
    {
        let mut r: Vec<(String, i32)> = Vec::new();
        let mut k: usize = 0;
        assert(self.scores().subrange(0, 0) =~= Seq::<(String, i32)>::empty());
        while k < self.score.len()
            invariant
                k <= self.scores().len(),
                r@ == ranked(self.scores().subrange(0, k as int)),
            decreases self.scores().len() - k,
        {
            let e = (self.score[k].0.clone(), self.score[k].1);
            let mut p: usize = 0;
            while p < r.len() && r[p].1 >= e.1
                invariant
                    p <= r@.len(),
                    forall|q: int| 0 <= q < p ==> (#[trigger] r@[q]).1 >= e.1,
                decreases r@.len() - p,
            {
                p = p + 1;
            }
            proof {
                lemma_insert_at(r@, e, p as int);
                assert(self.scores().subrange(0, k + 1).subrange(0, k as int) =~= self.scores().subrange(
                    0,
                    k as int,
                ));
            }
            r.insert(p, e);
            k = k + 1;
        }
        assert(self.scores().subrange(0, self.scores().len() as int) =~= self.scores());
        r
    }

    /// The score display: one `name: score` line per participant, in
    /// ranking order.
    pub fn score_text(&self) -> (r: String)
        ensures
            r@ == score_lines(ranked(self.scores())),
    {
        let ranking = self.ranking();
        let mut text = String::new();
        let mut i: usize = 0;
        assert(ranking@.subrange(0, 0) =~= Seq::<(String, i32)>::empty());
        while i < ranking.len()
            invariant
                i <= ranking@.len(),
                text@ == score_lines(ranking@.subrange(0, i as int)),
            decreases ranking@.len() - i,
        {
            let ghost before = text@;
            if i > 0 {
                text.append("\n");
            }
            text.append(ranking[i].0.as_str());
            text.append(": ");
            let points = decimal(ranking[i].1 as i64);
            text.append(points.as_str());
            proof {
                let upto = ranking@.subrange(0, i + 1);
                assert(upto.subrange(0, i as int) =~= ranking@.subrange(0, i as int));
                assert(upto[i as int] == ranking@[i as int]);
                if i == 0 {
                    assert(text@ =~= score_line(ranking@[0]));
                } else {
                    assert(text@ =~= before + "\n"@ + score_line(ranking@[i as int]));
                }
            }
            i = i + 1;
        }
        assert(ranking@.subrange(0, ranking@.len() as int) =~= ranking@);
        text
    }

    /// Forgets every participant.
    pub fn reset_score(&mut self)
        ensures
            final(self).wf(),
            final(self).scores().len() == 0,
    {
        self.score.clear();
    }
}

} // verus!
