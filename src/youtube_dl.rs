//! Descriptive records of resolved media, and the steps of resolving a URL
//! with yt-dlp and ffmpeg that involve no process.

use vstd::prelude::*;

use crate::text::{decimal, decimal_text};

verus! {

/// What the queue and the status display know of a track.
#[derive(Debug, PartialEq, Eq)]
pub struct MetaData {
    /// Length in seconds, when known.
    pub duration: Option<i64>,
    pub title: Option<String>,
    /// A chat message equal to this text (after trimming) skips the track.
    pub keyword: Option<String>,
}

fn clone_text(s: &Option<String>) -> (r: Option<String>)
    ensures
        r == *s,
{
    match s {
        Some(t) => Some(t.clone()),
        None => None,
    }
}

impl Clone for MetaData {
    fn clone(&self) -> (r: Self)
        ensures
            r == *self,
    {
        MetaData {
            duration: self.duration,
            title: clone_text(&self.title),
            keyword: clone_text(&self.keyword),
        }
    }
}

/// One record of the resolver's JSON report.
#[derive(Debug, Clone, PartialEq, Eq)]
pub struct Output {
    pub artist: Option<String>,
    pub album: Option<String>,
    pub duration: Option<i64>,
    pub filesize: Option<u64>,
    pub title: Option<String>,
    pub track: Option<String>,
    pub url: String,
    pub webpage_url: Option<String>,
    pub audio_ext: Option<String>,
}

impl From<Output> for MetaData {
    fn from(output: Output) -> (r: MetaData) {
        MetaData { duration: output.duration, title: output.title, keyword: None }
    }
}

impl vstd::std_specs::convert::FromSpecImpl<Output> for MetaData {
    open spec fn obeys_from_spec() -> bool {
        true
    }

    open spec fn from_spec(output: Output) -> MetaData {
        MetaData { duration: output.duration, title: output.title, keyword: None }
    }
}

impl<'a> From<&'a Output> for MetaData {
    fn from(output: &'a Output) -> (r: MetaData) {
        MetaData { duration: output.duration, title: clone_text(&output.title), keyword: None }
    }
}

impl<'a> vstd::std_specs::convert::FromSpecImpl<&'a Output> for MetaData {
    open spec fn obeys_from_spec() -> bool {
        true
    }

    open spec fn from_spec(output: &'a Output) -> MetaData {
        MetaData { duration: output.duration, title: output.title, keyword: None }
    }
}

/// Why a resolved track cannot be transcoded.
#[derive(PartialEq, Eq, Structural, Debug, Clone, Copy)]
pub enum ResolveError {
    /// The report names no audio file extension.
    MissingExtension,
    /// A cut from a start offset to the end needs the length, which is unknown.
    UnknownDuration,
}

/// The file name template handed to yt-dlp: `<dir><url>.%(ext)s`.
pub open spec fn download_template_text(dir: Seq<char>, url: Seq<char>) -> Seq<char> {
    dir + url + ".%(ext)s"@
}

pub fn download_template(dir: &str, url: &str) -> (r: String)
    ensures
        r@ == download_template_text(dir@, url@),
{
    let mut r = String::from_str(dir);
    r.append(url);
    r.append(".%(ext)s");
    r
}

/// The arguments of the yt-dlp run: print the JSON report, download the
/// best audio stream of at most 128 kbit/s of one video into `template`.
pub open spec fn ytdl_arg_texts(url: Seq<char>, template: Seq<char>) -> Seq<Seq<char>> {
    seq![
        "-j"@,
        "--no-simulate"@,
        url,
        "-f"@,
        "ba[abr<=128][vcodec=none]/best"@,
        "--no-playlist"@,
        "-o"@,
        template,
    ]
}

/// The views of `v`'s strings.
pub open spec fn texts(v: Seq<String>) -> Seq<Seq<char>> {
    v.map_values(|a: String| a@)
}

pub fn ytdl_args(url: &str, template: &str) -> (r: Vec<String>)
    ensures
        texts(r@) == ytdl_arg_texts(url@, template@),
{
    let mut r: Vec<String> = Vec::new();
    r.push(String::from_str("-j"));
    r.push(String::from_str("--no-simulate"));
    r.push(String::from_str(url));
    r.push(String::from_str("-f"));
    r.push(String::from_str("ba[abr<=128][vcodec=none]/best"));
    r.push(String::from_str("--no-playlist"));
    r.push(String::from_str("-o"));
    r.push(String::from_str(template));
    assert(texts(r@) =~= ytdl_arg_texts(url@, template@));
    r
}

/// Splitting `s` at line feeds: the lines completed so far that are not
/// empty, and the line still open.
pub open spec fn scan_lines(s: Seq<u8>) -> (Seq<Seq<u8>>, Seq<u8>)
    decreases s.len(),
{
    if s.len() == 0 {
        (Seq::empty(), Seq::empty())
    } else {
        let (done, open) = scan_lines(s.subrange(0, s.len() - 1));
        let b = s[s.len() - 1];
        if b == 10u8 {
            (if open.len() > 0 {
                done.push(open)
            } else {
                done
            }, Seq::empty())
        } else {
            (done, open.push(b))
        }
    }
}

/// The lines of `s` that are not empty, in order, without their line feeds.
pub open spec fn nonempty_lines(s: Seq<u8>) -> Seq<Seq<u8>> {
    let (done, open) = scan_lines(s);
    if open.len() > 0 {
        done.push(open)
    } else {
        done
    }
}

/// Cuts yt-dlp's output, one JSON report per line, into its reports.
pub fn json_lines(out: &[u8]) -> (r: Vec<Vec<u8>>)
    ensures
        r@.map_values(|l: Vec<u8>| l@) == nonempty_lines(out@),
{
    let mut done: Vec<Vec<u8>> = Vec::new();
    let mut open: Vec<u8> = Vec::new();
    let mut i: usize = 0;
    assert(out@.subrange(0, 0) =~= Seq::<u8>::empty());
    while i < out.len()
        invariant
            i <= out@.len(),
            done@.map_values(|l: Vec<u8>| l@) == scan_lines(out@.subrange(0, i as int)).0,
            open@ == scan_lines(out@.subrange(0, i as int)).1,
        decreases out@.len() - i,
    {
        let b = out[i];
        proof {
            assert(out@.subrange(0, i + 1).subrange(0, i as int) =~= out@.subrange(0, i as int));
        }
        let ghost before = done@;
        if b == 10u8 {
            if open.len() > 0 {
                let line = open;
                done.push(line);
                open = Vec::new();
                assert(done@.map_values(|l: Vec<u8>| l@) =~= before.map_values(|l: Vec<u8>| l@).push(
                    line@,
                ));
            }
        } else {
            open.push(b);
        }
        i = i + 1;
    }
    assert(out@.subrange(0, out@.len() as int) =~= out@);
    if open.len() > 0 {
        let ghost before = done@;
        let line = open;
        done.push(line);
        assert(done@.map_values(|l: Vec<u8>| l@) =~= before.map_values(|l: Vec<u8>| l@).push(
            line@,
        ));
    }
    done
}

/// How the downloaded file is transcoded to Opus, and cut when asked.
pub struct FfmpegPlan {
    pub args: Vec<String>,
    /// The file that is played afterwards.
    pub output: String,
    /// The track's length once cut (or as reported, when not cut).
    pub duration: Option<i64>,
}

/// `<dir><url><tag>.<ext>`.
pub open spec fn media_path(dir: Seq<char>, url: Seq<char>, tag: Seq<char>, ext: Seq<char>) -> Seq<
    char,
> {
    dir + url + tag + "."@ + ext
}

fn make_path(dir: &str, url: &str, tag: &str, ext: &str) -> (r: String)
    ensures
        r@ == media_path(dir@, url@, tag@, ext@),
{
    let mut r = String::from_str(dir);
    r.append(url);
    r.append(tag);
    r.append(".");
    r.append(ext);
    r
}

/// A cut is asked for when a start offset or a length is given.
pub open spec fn wants_cut(start: i64, duration: i64) -> bool {
    start != 0 || duration != 0
}

/// The ffmpeg arguments: transcode the download into the full file; for a
/// cut, also write the piece from `start` of length `length` to the cut file.
pub open spec fn ffmpeg_arg_texts(
    dir: Seq<char>,
    url: Seq<char>,
    ext: Seq<char>,
    cut: bool,
    start: i64,
    length: i64,
) -> Seq<Seq<char>> {
    let full = seq![
        "-y"@,
        "-i"@,
        media_path(dir, url, ""@, ext),
        "-c:a"@,
        "libopus"@,
        media_path(dir, url, "_full"@, ext),
    ];
    if cut {
        full + seq![
            "-ss"@,
            decimal_text(start as int),
            "-t"@,
            decimal_text(length as int),
            "-c:a"@,
            "libopus"@,
            media_path(dir, url, "_cut"@, ext),
        ]
    } else {
        full
    }
}

/// Plans the transcoding of the download of `url` (extension `audio_ext`,
/// reported length `reported`) kept in `dir`. `start` and `duration` in
/// seconds ask for a cut; a `duration` of 0 means up to the end.
pub fn ffmpeg_plan(
    dir: &str,
    url: &str,
    audio_ext: &Option<String>,
    reported: Option<i64>,
    start: i64,
    duration: i64,
) -> (r: Result<FfmpegPlan, ResolveError>)
    ensures
        audio_ext is None ==> r == Err::<FfmpegPlan, ResolveError>(ResolveError::MissingExtension),
        audio_ext is Some && wants_cut(start, duration) && duration == 0 && reported is None
            ==> r == Err::<FfmpegPlan, ResolveError>(ResolveError::UnknownDuration),
        audio_ext is Some && !(wants_cut(start, duration) && duration == 0 && reported is None)
            ==> r is Ok,
        r is Ok ==> ({
            let p = r->Ok_0;
            let ext = audio_ext->Some_0@;
            let cut = wants_cut(start, duration);
            let length = if duration != 0 {
                duration
            } else {
                reported->Some_0
            };
            &&& audio_ext is Some
            &&& !(cut && duration == 0 && reported is None)
            &&& texts(p.args@) == ffmpeg_arg_texts(dir@, url@, ext, cut, start, length)
            &&& p.output@ == media_path(dir@, url@, if cut {
                "_cut"@
            } else {
                "_full"@
            }, ext)
            &&& p.duration == if cut && duration != 0 {
                Some(duration)
            } else {
                reported
            }
        }),
{
    let ext = match audio_ext {
        Some(e) => e.as_str(),
        None => {
            return Err(ResolveError::MissingExtension);
        },
    };
    let cut = start != 0 || duration != 0;
    let length: i64 = if duration != 0 {
        duration
    } else {
        match reported {
            Some(d) => d,
            None => {
                if cut {
                    return Err(ResolveError::UnknownDuration);
                }
                0
            },
        }
    };
    let full = make_path(dir, url, "_full", ext);
    let mut args: Vec<String> = Vec::new();
    args.push(String::from_str("-y"));
    args.push(String::from_str("-i"));
    args.push(make_path(dir, url, "", ext));
    args.push(String::from_str("-c:a"));
    args.push(String::from_str("libopus"));
    args.push(full.clone());
    let ghost base = args@;
    if cut {
        args.push(String::from_str("-ss"));
        args.push(decimal(start));
        args.push(String::from_str("-t"));
        args.push(decimal(length));
        args.push(String::from_str("-c:a"));
        args.push(String::from_str("libopus"));
        let out = make_path(dir, url, "_cut", ext);
        args.push(out.clone());
        assert(texts(args@) =~= ffmpeg_arg_texts(dir@, url@, ext@, cut, start, length));
        Ok(FfmpegPlan { args, output: out, duration: if duration != 0 {
            Some(duration)
        } else {
            reported
        } })
    } else {
        assert(texts(args@) =~= ffmpeg_arg_texts(dir@, url@, ext@, cut, start, length));
        Ok(FfmpegPlan { args, output: full, duration: reported })
    }
}

} // verus!
