//! A download that the yt-dlp program carries out: with which arguments it is started
//! again after a failure, and which file it left.

use vstd::prelude::*;

use crate::backend::DownloadReq;
use crate::paths;
use crate::text;
use crate::text::{cat2, cat3, chars_of, split_lines, string_of, trimmed};
use crate::ytdlp;
use crate::ytdlp::{
    DOWNLOAD_RETRIES, download_args, drops_cookies, final_stem, output_candidates, retry_wait,
    without_cookies,
};

verus! {

/// A download that is being tried.
#[derive(Debug)]
pub struct YtdlpRun {
    /// What the file is called, without its extension.
    pub stem: String,
    /// The arguments of the next try.
    pub args: Vec<String>,
    /// Whether the arguments name a cookie file.
    pub has_jar: bool,
    /// How often the download failed.
    pub failures: u32,
}

/// The model of [`YtdlpRun`].
#[verifier::ext_equal]
pub struct RunView {
    pub stem: Seq<char>,
    pub args: Seq<Seq<char>>,
    pub has_jar: bool,
    pub failures: u32,
}

impl View for YtdlpRun {
    type V = RunView;

    open spec fn view(&self) -> RunView {
        RunView {
            stem: self.stem@,
            args: text::texts(self.args@),
            has_jar: self.has_jar,
            failures: self.failures,
        }
    }
}

/// The first try of a request; the captured cookies are in a file where there are any.
pub open spec fn first_try(req: DownloadReq, jar: Option<Seq<char>>) -> RunView {
    let stem = ytdlp::stem_for(text::opt(req.filename_hint));
    RunView {
        stem,
        args: ytdlp::download_head(
            ytdlp::selector_of(text::opt(req.quality)),
            paths::join(req.dest_dir@, stem + ".%(ext)s"@),
        ) + ytdlp::resilience_args() + ytdlp::cookie_args(
            text::opt(req.config.cookies_from_browser),
            jar,
        ) + ytdlp::referer_args(ytdlp::referer_from(req.ctx.headers.list(), 0)) + seq![
            "--print"@,
            "after_move:filepath"@,
            req.url@,
        ],
        has_jar: jar is Some,
        failures: 0,
    }
}

/// The run after a failure, and how long it waits, in seconds; no wait where it is not
/// tried again. The last try goes without the captured cookies.
pub open spec fn after_failure(r: RunView, err: Seq<char>) -> (RunView, Option<u64>) {
    match ytdlp::wait_before_retry(r.failures, DOWNLOAD_RETRIES, err) {
        Some(secs) => (
            RunView {
                failures: (r.failures + 1) as u32,
                args: if r.failures + 1 == DOWNLOAD_RETRIES && r.has_jar {
                    ytdlp::cookieless(r.args)
                } else {
                    r.args
                },
                ..r
            },
            Some(secs),
        ),
        None => (r, None),
    }
}

impl YtdlpRun {
    /// Begins a download.
    pub fn new(req: &DownloadReq, jar: Option<&str>) -> (r: Self)
        ensures
            r@ == first_try(*req, text::opt_str(jar)),
    {
        let stem = final_stem(&req.filename_hint);
        let args = download_args(
            req.url.as_str(),
            req.dest_dir.as_str(),
            stem.as_str(),
            &req.quality,
            &req.config.cookies_from_browser,
            jar,
            &req.ctx.headers,
        );
        YtdlpRun { stem, args, has_jar: jar.is_some(), failures: 0 }
    }

    /// Goes on after a failure: how long to wait before the next try, in seconds; nothing
    /// where the failure stands.
    pub fn failed(&mut self, err: &str) -> (r: Option<u64>)
        ensures
            (final(self)@, r) == after_failure(old(self)@, err@),
    {
        let wait = retry_wait(self.failures, DOWNLOAD_RETRIES, err);
        if wait.is_some() {
            self.failures = self.failures + 1;
            if drops_cookies(self.failures) && self.has_jar {
                without_cookies(&mut self.args);
            }
        }
        wait
    }
}

/// What is told of a run that ended badly: its status, and the last line that it wrote.
pub open spec fn exit_text(status: Seq<char>, written: Seq<char>) -> Seq<char> {
    let lines = text::lines(written);
    "yt-dlp exited with "@ + status + ": "@ + (if lines.len() > 0 {
        text::trim(lines.last())
    } else {
        Seq::empty()
    })
}

/// Writes what is told of a run that ended badly.
pub fn exit_message(status: &str, written: &str) -> (r: String)
    ensures
        r@ == exit_text(status@, written@),
{
    let cs = chars_of(written);
    let lines = split_lines(cs.as_slice());
    let front = cat3("yt-dlp exited with ", status, ": ");
    if lines.len() > 0 {
        let last = chars_of(lines[lines.len() - 1].as_str());
        cat2(front.as_str(), string_of(trimmed(last.as_slice())).as_str())
    } else {
        assert(front@ + Seq::<char>::empty() =~= front@);
        front
    }
}

/// Where a file is looked for once a run ended well, in order.
pub fn places(printed: Option<String>, dest_dir: &str, stem: &str) -> (r: Vec<String>)
    ensures
        text::texts(r@) == (match printed {
            Some(p) => seq![p@],
            None => Seq::empty(),
        }) + ytdlp::left_files(dest_dir@, stem@),
{
    let mut rest = output_candidates(dest_dir, stem);
    let ghost most = text::texts(rest@);
    match printed {
        Some(p) => {
            let mut all: Vec<String> = Vec::new();
            let ghost first = p@;
            all.push(p);
            all.append(&mut rest);
            assert(text::texts(all@) =~= seq![first] + most);
            all
        },
        None => {
            assert(Seq::<Seq<char>>::empty() + most =~= most);
            rest
        },
    }
}

/// What is told where no file was left.
pub fn nothing_left(stem: &str) -> (r: String)
    ensures
        r@ == "yt-dlp finished but no output file was found for "@ + stem@ + ".*"@,
{
    cat3("yt-dlp finished but no output file was found for ", stem, ".*")
}

/// A download is tried at most four times, and only the last try goes without the
/// captured cookies.
pub proof fn tries_are_few(r: RunView, err: Seq<char>)
    requires
        r.failures <= DOWNLOAD_RETRIES,
    ensures
        ({
            let (next, wait) = after_failure(r, err);
            &&& next.failures <= DOWNLOAD_RETRIES
            &&& wait is Some ==> next.failures == r.failures + 1
            &&& wait is None ==> next == r
            &&& r.failures == DOWNLOAD_RETRIES ==> wait is None
            &&& next.failures < DOWNLOAD_RETRIES ==> next.args == r.args
        }),
{
}

proof fn lemma_flag_is_found(front: Seq<Seq<char>>, rest: Seq<Seq<char>>, i: int)
    requires
        0 <= i <= front.len(),
        forall|j: int| 0 <= j < front.len() ==> #[trigger] front[j] != "--cookies"@,
        rest.len() > 0,
        rest[0] == "--cookies"@,
    ensures
        ytdlp::cookie_flag_from(front + rest, i) == front.len(),
    decreases front.len() - i,
{
    let all = front + rest;
    if i < front.len() {
        assert(all[i] == front[i]);
        lemma_flag_is_found(front, rest, i + 1);
    } else {
        assert(all[i] == rest[0]);
    }
}

proof fn lemma_output_is_no_flag(dest_dir: Seq<char>, stem: Seq<char>)
    ensures
        paths::join(dest_dir, stem + ".%(ext)s"@) != "--cookies"@,
{
    reveal_strlit(".%(ext)s");
    reveal_strlit("--cookies");
    let name = stem + ".%(ext)s"@;
    let path = paths::join(dest_dir, name);
    assert(name[name.len() - 2] == ')');
    assert(path.len() >= name.len());
    assert(path[path.len() - 2] == name[name.len() - 2]);
}

proof fn lemma_head_has_no_flag(selector: Seq<char>, output: Seq<char>)
    requires
        selector != "--cookies"@,
        output != "--cookies"@,
    ensures
        forall|j: int|
            0 <= j < ytdlp::download_head(selector, output).len() ==> #[trigger] ytdlp::download_head(
                selector,
                output,
            )[j] != "--cookies"@,
{
    reveal_strlit("--cookies");
    reveal_strlit("--no-warnings");
    reveal_strlit("--newline");
    reveal_strlit("--progress");
    reveal_strlit("-i");
    reveal_strlit("--no-playlist");
    reveal_strlit("--no-part");
    reveal_strlit("--force-overwrites");
    reveal_strlit("-f");
    reveal_strlit("--merge-output-format");
    reveal_strlit("mp4");
    reveal_strlit("-o");
    assert("--newline"@[2] != "--cookies"@[2]);
    assert("--no-part"@[2] != "--cookies"@[2]);
    assert("--cookies"@.len() == 9);
    assert("--no-warnings"@.len() == 13);
    assert("--progress"@.len() == 10);
    assert("-i"@.len() == 2);
    assert("--no-playlist"@.len() == 13);
    assert("--force-overwrites"@.len() == 18);
    assert("-f"@.len() == 2);
    assert("--merge-output-format"@.len() == 21);
    assert("mp4"@.len() == 3);
    assert("-o"@.len() == 2);
}

proof fn lemma_resilience_has_no_flag()
    ensures
        forall|j: int|
            0 <= j < ytdlp::resilience_args().len() ==> #[trigger] ytdlp::resilience_args()[j]
                != "--cookies"@,
{
    reveal_strlit("--cookies");
    reveal_strlit("--force-ipv4");
    reveal_strlit("--extractor-retries");
    reveal_strlit("8");
    reveal_strlit("--retries");
    reveal_strlit("10");
    reveal_strlit("--fragment-retries");
    reveal_strlit("--retry-sleep");
    reveal_strlit("4");
    reveal_strlit("--socket-timeout");
    reveal_strlit("30");
    reveal_strlit("--sleep-requests");
    reveal_strlit("1");
    reveal_strlit("--throttled-rate");
    reveal_strlit("100K");
    assert("--retries"@[2] != "--cookies"@[2]);
    assert("--cookies"@.len() == 9);
    assert("--force-ipv4"@.len() == 12);
    assert("--extractor-retries"@.len() == 19);
    assert("8"@.len() == 1);
    assert("10"@.len() == 2);
    assert("--fragment-retries"@.len() == 18);
    assert("--retry-sleep"@.len() == 13);
    assert("4"@.len() == 1);
    assert("--socket-timeout"@.len() == 16);
    assert("30"@.len() == 2);
    assert("--sleep-requests"@.len() == 16);
    assert("1"@.len() == 1);
    assert("--throttled-rate"@.len() == 16);
    assert("100K"@.len() == 4);
}

/// The last try of a download has the arguments that it would have had without captured
/// cookies, unless the wished formats or the browser are called like the flag that names
/// the cookie file.
pub proof fn last_tries_bring_no_cookies(req: DownloadReq, jar: Seq<char>)
    requires
        text::opt(req.quality) != Some("--cookies"@),
        text::opt(req.config.cookies_from_browser) != Some("--cookies"@),
    ensures
        ytdlp::cookieless(first_try(req, Some(jar)).args) == first_try(req, None).args,
{
    let stem = ytdlp::stem_for(text::opt(req.filename_hint));
    let selector = ytdlp::selector_of(text::opt(req.quality));
    let output = paths::join(req.dest_dir@, stem + ".%(ext)s"@);
    lemma_output_is_no_flag(req.dest_dir@, stem);
    assert(selector != "--cookies"@) by {
        reveal_strlit("--cookies");
        reveal_strlit("bv*+ba/b");
        assert("bv*+ba/b"@.len() != "--cookies"@.len());
    }
    lemma_head_has_no_flag(selector, output);
    lemma_resilience_has_no_flag();
    let browser = ytdlp::cookie_args(text::opt(req.config.cookies_from_browser), None);
    let head = ytdlp::download_head(selector, output);
    let tries = ytdlp::resilience_args();
    let front = head + tries + browser;
    assert forall|j: int| 0 <= j < front.len() implies #[trigger] front[j] != "--cookies"@ by {
        if j < head.len() {
            assert(front[j] == head[j]);
        } else if j < head.len() + tries.len() {
            assert(front[j] == tries[j - head.len()]);
        } else {
            assert(front[j] == browser[j - head.len() - tries.len()]);
            reveal_strlit("--cookies");
            reveal_strlit("--cookies-from-browser");
        }
    }
    let tail = ytdlp::referer_args(ytdlp::referer_from(req.ctx.headers.list(), 0)) + seq![
        "--print"@,
        "after_move:filepath"@,
        req.url@,
    ];
    let with_jar = first_try(req, Some(jar)).args;
    let rest = seq!["--cookies"@, jar] + tail;
    assert(with_jar =~= front + rest);
    lemma_flag_is_found(front, rest, 0);
    assert(ytdlp::cookieless(with_jar) =~= front + tail);
    assert(first_try(req, None).args =~= front + tail);
}

} // verus!
