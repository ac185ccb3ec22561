//! What the chat commands compute: the options of a play request, the
//! summary of a play list, and the progress line of a playing track.

use vstd::prelude::*;

use crate::text::{digits, unsigned_decimal};

verus! {

/// The value of a command option, as far as the commands read it.
pub enum OptionValue {
    Integer(i64),
    Text(String),
    Other,
}

/// The optional part of a play request.
#[derive(Debug, PartialEq, Eq)]
pub struct PlayOptions {
    /// Where to start, in seconds; 0 for the beginning.
    pub start: i64,
    /// How long to play, in seconds; 0 for up to the end.
    pub duration: i64,
    /// The keyword that skips the track.
    pub skip: Option<String>,
}

/// A positive number of seconds, or 0.
pub open spec fn seconds_of(v: OptionValue) -> i64 {
    match v {
        OptionValue::Integer(n) => if n > 0 {
            n
        } else {
            0
        },
        _ => 0,
    }
}

/// `acc` after reading one option; an option of another name changes nothing.
pub open spec fn with_option(acc: PlayOptions, opt: (String, OptionValue)) -> PlayOptions {
    if opt.0@ == "start"@ {
        PlayOptions { start: seconds_of(opt.1), ..acc }
    } else if opt.0@ == "duration"@ {
        PlayOptions { duration: seconds_of(opt.1), ..acc }
    } else if opt.0@ == "skip"@ {
        PlayOptions {
            skip: match opt.1 {
                OptionValue::Text(t) => Some(t),
                _ => None,
            },
            ..acc
        }
    } else {
        acc
    }
}

/// The options read in order, from none given; a later one wins.
pub open spec fn play_options_of(opts: Seq<(String, OptionValue)>) -> PlayOptions
    decreases opts.len(),
{
    if opts.len() == 0 {
        PlayOptions { start: 0, duration: 0, skip: None }
    } else {
        with_option(play_options_of(opts.subrange(0, opts.len() - 1)), opts[opts.len() - 1])
    }
}

/// Reads the options that follow the URL of a play request.
pub fn play_options(opts: &[(String, OptionValue)]) -> (r: PlayOptions)
    ensures
        r == play_options_of(opts@),
{
    let start_name = String::from_str("start");
    let duration_name = String::from_str("duration");
    let skip_name = String::from_str("skip");
    let mut r = PlayOptions { start: 0, duration: 0, skip: None };
    let mut i: usize = 0;
    assert(opts@.subrange(0, 0) =~= Seq::<(String, OptionValue)>::empty());
    while i < opts.len()
        invariant
            i <= opts@.len(),
            start_name@ == "start"@,
            duration_name@ == "duration"@,
            skip_name@ == "skip"@,
            r == play_options_of(opts@.subrange(0, i as int)),
        decreases opts@.len() - i,
    {
        let (name, value) = &opts[i];
        let seconds: i64 = match value {
            OptionValue::Integer(n) => if *n > 0 {
                *n
            } else {
                0
            },
            _ => 0,
        };
        if *name == start_name {
            r.start = seconds;
        } else if *name == duration_name {
            r.duration = seconds;
        } else if *name == skip_name {
            r.skip = match value {
                OptionValue::Text(t) => Some(t.clone()),
                _ => None,
            };
        }
        proof {
            assert(opts@.subrange(0, i + 1).subrange(0, i as int) =~= opts@.subrange(0, i as int));
        }
        i = i + 1;
    }
    assert(opts@.subrange(0, opts@.len() as int) =~= opts@);
    r
}

/// The line numbers of `failed`, in decimal, joined by `, `.
pub open spec fn joined_numbers(failed: Seq<usize>) -> Seq<char>
    decreases failed.len(),
{
    if failed.len() == 0 {
        Seq::empty()
    } else if failed.len() == 1 {
        digits(failed[0] as nat)
    } else {
        joined_numbers(failed.subrange(0, failed.len() - 1)) + ", "@ + digits(
            failed[failed.len() - 1] as nat,
        )
    }
}

/// The answer to a play list: which lines were ignored, if any, and how
/// many tracks were added.
pub open spec fn playlist_summary_text(failed: Seq<usize>, added: usize) -> Seq<char> {
    let ignored = if failed.len() > 0 {
        "총 "@ + digits(failed.len() as nat) + "개의 행이 무시되었습니다.\n무시된 행: "@ + joined_numbers(
            failed,
        ) + "\n"@
    } else {
        Seq::empty()
    };
    ignored + "총 "@ + digits(added as nat) + "개의 곡이 추가되었습니다."@
}

pub fn playlist_summary(failed: &[usize], added: usize) -> (r: String)
    ensures
        r@ == playlist_summary_text(failed@, added),
{
    let mut r = String::new();
    if failed.len() > 0 {
        r.append("총 ");
        let n = unsigned_decimal(failed.len() as u64);
        r.append(n.as_str());
        r.append("개의 행이 무시되었습니다.\n무시된 행: ");
        let ghost head = r@;
        let mut i: usize = 0;
        assert(failed@.subrange(0, 0) =~= Seq::<usize>::empty());
        assert(r@ =~= head + joined_numbers(failed@.subrange(0, 0)));
        while i < failed.len()
            invariant
                i <= failed@.len(),
                r@ == head + joined_numbers(failed@.subrange(0, i as int)),
            decreases failed@.len() - i,
        {
            let ghost before = r@;
            if i > 0 {
                r.append(", ");
            }
            let d = unsigned_decimal(failed[i] as u64);
            r.append(d.as_str());
            proof {
                let upto = failed@.subrange(0, i + 1);
                assert(upto.subrange(0, i as int) =~= failed@.subrange(0, i as int));
                if i == 0 {
                    assert(r@ =~= head + joined_numbers(upto));
                } else {
                    assert(r@ =~= before + ", "@ + digits(failed@[i as int] as nat));
                    assert(r@ =~= head + joined_numbers(upto));
                }
            }
            i = i + 1;
        }
        assert(failed@.subrange(0, failed@.len() as int) =~= failed@);
        r.append("\n");
    }
    r.append("총 ");
    let a = unsigned_decimal(added as u64);
    r.append(a.as_str());
    r.append("개의 곡이 추가되었습니다.");
    assert(r@ =~= playlist_summary_text(failed@, added));
    r
}

/// `minutes:seconds` of `secs`, without padding.
pub open spec fn clock_text(secs: nat) -> Seq<char> {
    digits(secs / 60) + ":"@ + digits(secs % 60)
}

/// The progress line of a playing track: time played, then its length.
pub open spec fn progress_line(played: nat, length: nat) -> Seq<char> {
    clock_text(played) + " / "@ + clock_text(length)
}

fn clock(secs: u64) -> (r: String)
    ensures
        r@ == clock_text(secs as nat),
{
    let mut r = unsigned_decimal(secs / 60);
    r.append(":");
    let s = unsigned_decimal(secs % 60);
    r.append(s.as_str());
    r
}

pub fn progress_text(played_secs: u64, length_secs: u64) -> (r: String)
    ensures
        r@ == progress_line(played_secs as nat, length_secs as nat),
{
    let mut r = clock(played_secs);
    r.append(" / ");
    let l = clock(length_secs);
    r.append(l.as_str());
    r
}

/// `s` cut at every `sep`, the way `str::split` cuts: always at least one
/// piece, empty ones included.
pub open spec fn split_on(s: Seq<char>, sep: char) -> Seq<Seq<char>>
    decreases s.len(),
{
    if s.len() == 0 {
        seq![Seq::empty()]
    } else {
        let p = split_on(s.subrange(0, s.len() - 1), sep);
        if s[s.len() - 1] == sep {
            p.push(Seq::empty())
        } else {
            p.update(p.len() - 1, p[p.len() - 1].push(s[s.len() - 1]))
        }
    }
}

proof fn lemma_split_nonempty(s: Seq<char>, sep: char)
    ensures
        split_on(s, sep).len() >= 1,
    decreases s.len(),
{
    if s.len() > 0 {
        lemma_split_nonempty(s.subrange(0, s.len() - 1), sep);
    }
}

/// The pieces of `s` between commas.
pub fn split_commas(s: &str) -> (r: Vec<String>)
    ensures
        r@.map_values(|p: String| p@) == split_on(s@, ','),
{
    let n = s.unicode_len();
    let mut done: Vec<String> = Vec::new();
    let mut from: usize = 0;
    let mut i: usize = 0;
    assert(s@.subrange(0, 0) =~= Seq::<char>::empty());
    assert(done@.map_values(|p: String| p@).push(s@.subrange(0, 0)) =~= split_on(
        s@.subrange(0, 0),
        ',',
    ));
    while i < n
        invariant
            n == s@.len(),
            from <= i <= n,
            done@.map_values(|p: String| p@).push(s@.subrange(from as int, i as int)) == split_on(
                s@.subrange(0, i as int),
                ',',
            ),
        decreases n - i,
    {
        let c = s.get_char(i);
        let ghost before = done@.map_values(|p: String| p@);
        proof {
            lemma_split_nonempty(s@.subrange(0, i as int), ',');
            assert(s@.subrange(0, i + 1).subrange(0, i as int) =~= s@.subrange(0, i as int));
        }
        if c == ',' {
            let ghost f0 = from;
            let piece = String::from_str(s.substring_char(from, i));
            done.push(piece);
            from = i + 1;
            assert(s@.subrange(from as int, i + 1) =~= Seq::<char>::empty());
            assert(done@.map_values(|p: String| p@).push(s@.subrange(from as int, i + 1))
                =~= before.push(s@.subrange(f0 as int, i as int)).push(Seq::empty()));
        } else {
            assert(s@.subrange(from as int, i + 1) =~= s@.subrange(from as int, i as int).push(c));
            assert(done@.map_values(|p: String| p@).push(s@.subrange(from as int, i + 1))
                =~= before.push(s@.subrange(from as int, i as int)).update(
                before.len() as int,
                s@.subrange(from as int, i as int).push(c),
            ));
        }
        i = i + 1;
    }
    let last = String::from_str(s.substring_char(from, n));
    let ghost before = done@.map_values(|p: String| p@);
    done.push(last);
    assert(done@.map_values(|p: String| p@) =~= before.push(s@.subrange(from as int, n as int)));
    assert(s@.subrange(0, n as int) =~= s@);
    done
}

/// The value of the decimal digits `s`.
pub open spec fn digits_value(s: Seq<char>) -> int
    decreases s.len(),
{
    if s.len() == 0 {
        0
    } else {
        digits_value(s.subrange(0, s.len() - 1)) * 10 + (s[s.len() - 1] as u32 - 48)
    }
}

pub open spec fn is_digit(c: char) -> bool {
    48 <= c as u32 <= 57
}

/// `s` is one or more ASCII digits.
pub open spec fn all_digits(s: Seq<char>) -> bool {
    s.len() > 0 && forall|i: int| 0 <= i < s.len() ==> is_digit(#[trigger] s[i])
}

/// What `str::parse::<i64>` makes of `s`: an optional sign and one or more
/// digits whose value fits.
pub open spec fn parsed_i64(s: Seq<char>) -> Option<i64> {
    let signed = s.len() > 0 && (s[0] == '-' || s[0] == '+');
    let body = if signed {
        s.subrange(1, s.len() as int)
    } else {
        s
    };
    let v = if s.len() > 0 && s[0] == '-' {
        -digits_value(body)
    } else {
        digits_value(body)
    };
    if all_digits(body) && i64::MIN <= v <= i64::MAX {
        Some(v as i64)
    } else {
        None
    }
}

proof fn lemma_digits_value_nonneg(s: Seq<char>)
    requires
        forall|i: int| 0 <= i < s.len() ==> is_digit(#[trigger] s[i]),
    ensures
        digits_value(s) >= 0,
    decreases s.len(),
{
    if s.len() > 0 {
        lemma_digits_value_nonneg(s.subrange(0, s.len() - 1));
    }
}

/// Reads a whole decimal number, with an optional sign.
pub fn parse_i64(s: &str) -> (r: Option<i64>)
    ensures
        r == parsed_i64(s@),
{
    let n = s.unicode_len();
    if n == 0 {
        return None;
    }
    let first = s.get_char(0);
    let negative = first == '-';
    let from: usize = if first == '-' || first == '+' {
        1
    } else {
        0
    };
    if from == n {
        return None;
    }
    let ghost body = s@.subrange(from as int, n as int);
    assert(s@.subrange(0, n as int) =~= s@);
    let limit: i128 = 0x8000_0000_0000_0000;
    let mut acc: i128 = 0;
    let mut too_big = false;
    let mut i: usize = from;
    assert(body.subrange(0, 0) =~= Seq::<char>::empty());
    while i < n
        invariant
            n == s@.len(),
            n > 0,
            first == s@[0],
            negative == (first == '-'),
            from == (if first == '-' || first == '+' {
                1usize
            } else {
                0usize
            }),
            from == 0 ==> body == s@,
            limit == 0x8000_0000_0000_0000,
            from <= i <= n,
            body == s@.subrange(from as int, n as int),
            forall|j: int| 0 <= j < i - from ==> is_digit(#[trigger] body[j]),
            0 <= acc,
            !too_big ==> acc == digits_value(body.subrange(0, i - from)) && acc <= limit,
            too_big ==> digits_value(body.subrange(0, i - from)) > limit,
        decreases n - i,
    {
        let c = s.get_char(i);
        let code = c as u32;
        if code < 48 || code > 57 {
            assert(!is_digit(body[i - from]));
            return None;
        }
        proof {
            let pre = body.subrange(0, i - from);
            let next = body.subrange(0, i - from + 1);
            assert(next.subrange(0, i - from) =~= pre);
            assert(next[i - from] == c);
            assert(forall|j: int| 0 <= j < pre.len() ==> pre[j] == body[j]);
            lemma_digits_value_nonneg(pre);
        }
        if !too_big {
            acc = acc * 10 + (code - 48) as i128;
            if acc > limit {
                too_big = true;
            }
        }
        i = i + 1;
    }
    assert(body.subrange(0, n - from) =~= body);
    assert(all_digits(body));
    if too_big {
        return None;
    }
    if negative {
        Some((0 - acc) as i64)
    } else if acc < limit {
        Some(acc as i64)
    } else {
        None
    }
}

/// One line of a play list: `url,start,duration,keyword`, all but the URL
/// optional.
#[derive(Debug, PartialEq, Eq)]
pub struct ListOption {
    pub url: String,
    pub start: i64,
    pub duration: i64,
    pub skip: Option<String>,
}

/// The number in piece `i` of `pieces`, 0 when it is missing or no number.
pub open spec fn number_piece(pieces: Seq<Seq<char>>, i: int) -> i64 {
    if i < pieces.len() && parsed_i64(pieces[i]) is Some {
        parsed_i64(pieces[i])->Some_0
    } else {
        0
    }
}

fn number_at(pieces: &Vec<String>, i: usize) -> (r: i64)
    ensures
        r == number_piece(pieces@.map_values(|p: String| p@), i as int),
{
    if i < pieces.len() {
        match parse_i64(pieces[i].as_str()) {
            Some(v) => v,
            None => 0,
        }
    } else {
        0
    }
}

impl ListOption {
    /// Reads one line of a play list.
    pub fn parse(line: &str) -> (r: ListOption)
        ensures
            ({
                let pieces = split_on(line@, ',');
                &&& r.url@ == pieces[0]
                &&& r.start == number_piece(pieces, 1)
                &&& r.duration == number_piece(pieces, 2)
                &&& r.skip is Some <==> pieces.len() > 3
                &&& pieces.len() > 3 ==> r.skip->Some_0@ == pieces[3]
            }),
    {
        let pieces = split_commas(line);
        proof {
            lemma_split_nonempty(line@, ',');
        }
        let url = pieces[0].clone();
        let start = number_at(&pieces, 1);
        let duration = number_at(&pieces, 2);
        let skip = if pieces.len() > 3 {
            Some(pieces[3].clone())
        } else {
            None
        };
        ListOption { url, start, duration, skip }
    }
}

} // verus!
