//! The instaloader program as an engine for Instagram downloads.

use vstd::prelude::*;

use crate::backend::BackendConfig;
use crate::instagram::{Target, TargetView};
use crate::net::JobEvent;
use crate::number;
use crate::number::{dec_string, parse_u32, parse_u64};
use crate::paths;
use crate::paths::{get_extension, join_path};
use crate::sorting;
use crate::sorting::sort_strings;
use crate::text;
use crate::text::{
    cat2, cat3, chars_of, contains, copy_opt, copy_strings, cut_before_first, digit, join_strings,
    listed, one_of, push_text, split_all, split_at_first, split_words, starts_with, str_eq,
    string_of, strip_prefix, to_lower, trimmed,
};

verus! {

/// The oldest version that can be used: the first one that takes a cookie file.
pub const MIN_MAJOR: u32 = 4;

pub const MIN_MINOR: u32 = 11;

/// How many lines of the program's log are kept.
pub const KEPT_LINES: usize = 12;

// ---------------------------------------------------------------------------
// Engines
// ---------------------------------------------------------------------------

/// What carries out a download from Instagram.
#[derive(Clone, Copy, Debug, PartialEq, Eq, Structural)]
pub enum Engine {
    Custom,
    Instaloader,
}

/// The engine that a setting names.
pub open spec fn engine_named(s: Option<Seq<char>>) -> Option<Engine> {
    if s == Some("instaloader"@) {
        Some(Engine::Instaloader)
    } else if s == Some("custom"@) {
        Some(Engine::Custom)
    } else {
        None
    }
}

/// Reads the engine that a setting names.
pub fn parse_engine(s: &Option<String>) -> (r: Option<Engine>)
    ensures
        r == engine_named(text::opt(*s)),
{
    match s {
        Some(name) => if str_eq(name.as_str(), "instaloader") {
            Some(Engine::Instaloader)
        } else if str_eq(name.as_str(), "custom") {
            Some(Engine::Custom)
        } else {
            None
        },
        None => None,
    }
}

/// The engines to try, in order: the main one, and the fallback where it is another
/// one. A single highlight can be fetched by the custom engine only.
pub open spec fn plan_of(
    main: Option<Seq<char>>,
    fallback: Option<Seq<char>>,
    target: TargetView,
) -> Seq<Engine> {
    if target is Highlight {
        seq![Engine::Custom]
    } else {
        let first = match engine_named(main) {
            Some(e) => e,
            None => Engine::Custom,
        };
        match engine_named(fallback) {
            Some(e) => if e != first {
                seq![first, e]
            } else {
                seq![first]
            },
            None => seq![first],
        }
    }
}

/// Plans which engines to try.
pub fn engine_plan(cfg: &BackendConfig, target: &Target) -> (r: Vec<Engine>)
    ensures
        r@ == plan_of(
            text::opt(cfg.instagram_engine_main),
            text::opt(cfg.instagram_engine_fallback),
            target@,
        ),
{
    match target {
        Target::Highlight(_) => {
            return vec![Engine::Custom];
        },
        _ => {},
    }
    let main = match parse_engine(&cfg.instagram_engine_main) {
        Some(e) => e,
        None => Engine::Custom,
    };
    let mut plan = vec![main];
    match parse_engine(&cfg.instagram_engine_fallback) {
        Some(fallback) => {
            if fallback != main {
                plan.push(fallback);
                assert(plan@ =~= seq![main, fallback]);
            }
        },
        None => {},
    }
    plan
}

/// A download that is tried with one engine after the other.
#[derive(Debug)]
pub struct EngineRun {
    /// The engine that is tried, and those behind it.
    pub left: Vec<Engine>,
}

impl EngineRun {
    /// Begins with the main engine.
    pub fn begin(cfg: &BackendConfig, target: &Target) -> (r: Self)
        ensures
            r.left@ == plan_of(
                text::opt(cfg.instagram_engine_main),
                text::opt(cfg.instagram_engine_fallback),
                target@,
            ),
    {
        EngineRun { left: engine_plan(cfg, target) }
    }

    /// The engine to try; nothing where all of them failed.
    pub fn engine(&self) -> (r: Option<Engine>)
        ensures
            r == (if self.left@.len() > 0 {
                Some(self.left@[0])
            } else {
                None
            }),
    {
        if self.left.len() > 0 {
            Some(self.left[0])
        } else {
            None
        }
    }

    /// Gives up the engine that was tried; tells whether there is another one.
    pub fn failed(&mut self) -> (r: bool)
        ensures
            final(self).left@ == (if old(self).left@.len() > 0 {
                old(self).left@.skip(1)
            } else {
                old(self).left@
            }),
            r == (old(self).left@.len() > 1),
    {
        if self.left.len() > 0 {
            self.left.remove(0);
            assert(self.left@ =~= old(self).left@.skip(1));
        }
        self.left.len() > 0
    }
}

/// A plan is never empty and never names an engine twice.
pub proof fn plans_try_each_engine_once(
    main: Option<Seq<char>>,
    fallback: Option<Seq<char>>,
    target: TargetView,
)
    ensures
        1 <= plan_of(main, fallback, target).len() <= 2,
        plan_of(main, fallback, target).no_duplicates(),
{
}

// ---------------------------------------------------------------------------
// The program
// ---------------------------------------------------------------------------

/// Where a bundled program is looked for, beside a directory, in order.
pub open spec fn bundled_places(dir: Seq<char>, windows_name: Seq<char>, name: Seq<char>) -> Seq<
    Seq<char>,
> {
    seq![
        paths::join(paths::join(dir, "bin"@), windows_name),
        paths::join(dir, windows_name),
        paths::join(paths::join(dir, "bin"@), name),
        paths::join(dir, name),
    ]
}

/// Lists where a bundled program is looked for.
pub fn bundled_candidates(dir: &str, windows_name: &str, name: &str) -> (r: Vec<String>)
    ensures
        text::texts(r@) == bundled_places(dir@, windows_name@, name@),
{
    let bin = join_path(dir, "bin");
    let r = vec![
        join_path(bin.as_str(), windows_name),
        join_path(dir, windows_name),
        join_path(bin.as_str(), name),
        join_path(dir, name),
    ];
    assert(text::texts(r@) =~= bundled_places(dir@, windows_name@, name@));
    r
}

/// The program to run and the arguments that come first: the configured program,
/// else the bundled one, else the module of the configured Python, else whatever
/// the path has.
pub open spec fn program_of(
    configured: Option<Seq<char>>,
    bundled: Option<Seq<char>>,
    python: Option<Seq<char>>,
) -> (Seq<char>, Seq<Seq<char>>) {
    match configured {
        Some(p) => (p, Seq::empty()),
        None => match bundled {
            Some(p) => (p, Seq::empty()),
            None => match python {
                Some(p) => (p, seq!["-m"@, "instaloader"@]),
                None => ("instaloader"@, Seq::empty()),
            },
        },
    }
}

/// Picks the program to run; `bundled` is the first place of
/// [`bundled_candidates`] where there is one.
pub fn program(cfg: &BackendConfig, bundled: &Option<String>) -> (r: (String, Vec<String>))
    ensures
        (r.0@, text::texts(r.1@)) == program_of(
            text::opt(cfg.instaloader_path),
            text::opt(*bundled),
            text::opt(cfg.python_path),
        ),
{
    let none: Vec<String> = Vec::new();
    assert(text::texts(none@) =~= Seq::empty());
    match &cfg.instaloader_path {
        Some(p) => {
            return (p.clone(), none);
        },
        None => {},
    }
    match bundled {
        Some(p) => {
            return (p.clone(), none);
        },
        None => {},
    }
    match &cfg.python_path {
        Some(p) => {
            let lead = vec!["-m".to_string(), "instaloader".to_string()];
            assert(text::texts(lead@) =~= seq!["-m"@, "instaloader"@]);
            (p.clone(), lead)
        },
        None => ("instaloader".to_string(), none),
    }
}

/// The program and its first arguments in one line.
pub open spec fn program_text(p: (Seq<char>, Seq<Seq<char>>)) -> Seq<char> {
    if p.1.len() == 0 {
        p.0
    } else {
        p.0 + " "@ + text::join(p.1, " "@)
    }
}

/// How instaloader is started, for people.
pub fn resolved_program(cfg: &BackendConfig, bundled: &Option<String>) -> (r: String)
    ensures
        r@ == program_text(
            program_of(
                text::opt(cfg.instaloader_path),
                text::opt(*bundled),
                text::opt(cfg.python_path),
            ),
        ),
{
    let (prog, lead) = program(cfg, bundled);
    if lead.len() == 0 {
        prog
    } else {
        cat3(prog.as_str(), " ", join_strings(&lead, " ").as_str())
    }
}

/// The arguments that every run has, behind the first ones.
pub open spec fn common_args(dest_dir: Seq<char>) -> Seq<Seq<char>> {
    seq![
        "--no-metadata-json"@,
        "--no-compress-json"@,
        "--no-captions"@,
        "--no-profile-pic"@,
        "--no-video-thumbnails"@,
        "--dirname-pattern"@,
        dest_dir,
        "--filename-pattern"@,
        "{date_utc}_UTC"@,
    ]
}

/// The arguments that name the cookie file.
pub open spec fn cookie_args(cookie_file: Option<Seq<char>>) -> Seq<Seq<char>> {
    match cookie_file {
        Some(f) => seq!["--load-cookies"@, f],
        None => Seq::empty(),
    }
}

/// The arguments that name the target.
pub open spec fn target_args(target: TargetView) -> Seq<Seq<char>> {
    match target {
        TargetView::Shortcode(code, _) => seq!["--"@, "-"@ + code],
        TargetView::Profile(user) => seq!["--"@, user],
        TargetView::Stories(user) => seq!["--stories"@, "--no-posts"@, "--"@, user],
        TargetView::Highlight(_) => seq!["--"@],
    }
}

/// Builds the arguments of a run.
pub fn build_args(target: &Target, dest_dir: &str, cookie_file: Option<&str>, lead: &Vec<String>) -> (r:
    Vec<String>)
    ensures
        text::texts(r@) == text::texts(lead@) + common_args(dest_dir@) + cookie_args(
            text::opt_str(cookie_file),
        ) + target_args(target@),
{
    let mut args = copy_strings(lead);
    push_text(&mut args, "--no-metadata-json");
    push_text(&mut args, "--no-compress-json");
    push_text(&mut args, "--no-captions");
    push_text(&mut args, "--no-profile-pic");
    push_text(&mut args, "--no-video-thumbnails");
    push_text(&mut args, "--dirname-pattern");
    push_text(&mut args, dest_dir);
    push_text(&mut args, "--filename-pattern");
    push_text(&mut args, "{date_utc}_UTC");
    assert(text::texts(args@) =~= text::texts(lead@) + common_args(dest_dir@));
    match cookie_file {
        Some(f) => {
            push_text(&mut args, "--load-cookies");
            push_text(&mut args, f);
        },
        None => {},
    }
    let ghost head = text::texts(lead@) + common_args(dest_dir@) + cookie_args(
        text::opt_str(cookie_file),
    );
    assert(text::texts(args@) =~= head);
    match target {
        Target::Shortcode(code, _) => {
            push_text(&mut args, "--");
            push_text(&mut args, cat2("-", code.as_str()).as_str());
        },
        Target::Profile(user) => {
            push_text(&mut args, "--");
            push_text(&mut args, user.as_str());
        },
        Target::Stories(user) => {
            push_text(&mut args, "--stories");
            push_text(&mut args, "--no-posts");
            push_text(&mut args, "--");
            push_text(&mut args, user.as_str());
        },
        Target::Highlight(_) => {
            push_text(&mut args, "--");
        },
    }
    assert(text::texts(args@) =~= head + target_args(target@));
    args
}

/// The cookie that a run logs in with: the one that came with the URL where it
/// holds a session, else the configured one.
pub open spec fn login_cookie(given: Option<Seq<char>>, configured: Option<Seq<char>>) -> Option<
    Seq<char>,
> {
    match given {
        Some(c) => if text::holds(c, "sessionid="@) {
            Some(c)
        } else {
            configured
        },
        None => configured,
    }
}

/// Picks the cookie that a run logs in with.
pub fn pick_cookie(given: &Option<String>, configured: &Option<String>) -> (r: Option<String>)
    ensures
        text::opt(r) == login_cookie(text::opt(*given), text::opt(*configured)),
{
    match given {
        Some(c) => {
            if contains(chars_of(c.as_str()).as_slice(), "sessionid=") {
                return Some(c.clone());
            }
        },
        None => {},
    }
    copy_opt(configured)
}

// ---------------------------------------------------------------------------
// What the program prints
// ---------------------------------------------------------------------------

/// The first word, from position `i` on, that starts with a digit.
pub open spec fn numbered_word_from(words: Seq<Seq<char>>, i: int) -> Option<Seq<char>>
    decreases words.len() - i,
{
    if i < 0 || i >= words.len() {
        None
    } else if words[i].len() > 0 && text::is_digit(words[i][0]) {
        Some(words[i])
    } else {
        numbered_word_from(words, i + 1)
    }
}

/// A text without what stands in front of its first digit.
pub open spec fn from_digit(s: Seq<char>) -> Seq<char>
    decreases s.len(),
{
    if s.len() == 0 || text::is_digit(s[0]) {
        s
    } else {
        from_digit(s.skip(1))
    }
}

/// A text without what stands behind its last digit.
pub open spec fn upto_digit(s: Seq<char>) -> Seq<char>
    decreases s.len(),
{
    if s.len() == 0 || text::is_digit(s.last()) {
        s
    } else {
        upto_digit(s.drop_last())
    }
}

/// The minor version in a piece of text: 0 where there is no number.
pub open spec fn minor_in(s: Seq<char>) -> u32 {
    match number::parsed_nat(upto_digit(from_digit(s)), u32::MAX as nat) {
        Some(n) => n as u32,
        None => 0,
    }
}

/// The version that a word writes.
pub open spec fn version_of_word(w: Seq<char>) -> Option<(u32, u32)> {
    let pieces = text::split(w, "."@);
    match number::parsed_nat(pieces[0], u32::MAX as nat) {
        Some(major) => Some(
            (
                major as u32,
                if pieces.len() > 1 {
                    minor_in(pieces[1])
                } else {
                    0
                },
            ),
        ),
        None => None,
    }
}

/// The version that the program prints.
pub open spec fn version_in(s: Seq<char>) -> Option<(u32, u32)> {
    match numbered_word_from(text::words(s), 0) {
        Some(w) => version_of_word(w),
        None => None,
    }
}

fn digits_within<'a>(s: &'a [char]) -> (r: &'a [char])
    ensures
        r@ == upto_digit(from_digit(s@)),
{
    let mut i: usize = 0;
    assert(s@.skip(0) =~= s@);
    while i < s.len() && !digit(s[i])
        invariant
            i <= s.len(),
            from_digit(s@.skip(i as int)) == from_digit(s@),
        decreases s.len() - i,
    {
        assert(s@.skip(i as int).skip(1) =~= s@.skip(i + 1));
        i += 1;
    }
    let rest = vstd::slice::slice_subrange(s, i, s.len());
    assert(rest@ =~= s@.skip(i as int));
    let mut j: usize = rest.len();
    assert(rest@.take(rest@.len() as int) =~= rest@);
    while j > 0 && !digit(rest[j - 1])
        invariant
            j <= rest.len(),
            upto_digit(rest@.take(j as int)) == upto_digit(rest@),
        decreases j,
    {
        assert(rest@.take(j as int).drop_last() =~= rest@.take(j - 1));
        j -= 1;
    }
    let out = vstd::slice::slice_subrange(rest, 0, j);
    assert(out@ =~= rest@.take(j as int));
    out
}

/// Reads the version that the program prints.
pub fn parse_version(s: &str) -> (r: Option<(u32, u32)>)
    ensures
        r == version_in(s@),
{
    let words = split_words(chars_of(s).as_slice());
    let ghost all = text::views(words@);
    let mut i: usize = 0;
    while i < words.len()
        invariant
            i <= words.len(),
            all == text::views(words@),
            version_in(s@) == (match numbered_word_from(all, i as int) {
                Some(w) => version_of_word(w),
                None => None,
            }),
        decreases words.len() - i,
    {
        assert(all[i as int] == words@[i as int]@);
        if words[i].len() > 0 && digit(words[i][0]) {
            let pieces = split_all(words[i].as_slice(), ".");
            let ghost parts = text::views(pieces@);
            proof {
                lemma_split_not_empty(words@[i as int]@);
            }
            assert(parts.len() == pieces@.len());
            assert(parts[0] == pieces@[0]@);
            return match parse_u32(pieces[0].as_slice()) {
                Some(major) => {
                    let minor: u32 = if pieces.len() > 1 {
                        assert(parts[1] == pieces@[1]@);
                        match parse_u32(digits_within(pieces[1].as_slice())) {
                            Some(n) => n,
                            None => 0,
                        }
                    } else {
                        0
                    };
                    Some((major, minor))
                },
                None => None,
            };
        }
        i += 1;
    }
    None
}

proof fn lemma_split_not_empty(s: Seq<char>)
    ensures
        text::split(s, "."@).len() > 0,
{
    text::lemma_first_of(s, "."@, 0);
}

/// Whether a version can be used.
pub open spec fn is_usable(v: (u32, u32)) -> bool {
    v.0 > MIN_MAJOR || (v.0 == MIN_MAJOR && v.1 >= MIN_MINOR)
}

/// Tells whether a version can be used.
pub fn usable_version(v: (u32, u32)) -> (r: bool)
    ensures
        r == is_usable(v),
{
    v.0 > MIN_MAJOR || (v.0 == MIN_MAJOR && v.1 >= MIN_MINOR)
}

/// What is shown of the installed program: whether it can be used, and its version.
pub fn version_status(printed: Option<&str>) -> (r: (bool, Option<String>))
    ensures
        ({
            let v = match printed {
                Some(s) => version_in(s@),
                None => None,
            };
            match v {
                Some(v) => r.0 == is_usable(v) && text::opt(r.1) == Some(
                    number::dec(v.0 as nat) + "."@ + number::dec(v.1 as nat),
                ),
                None => !r.0 && r.1 is None,
            }
        }),
{
    match printed {
        Some(s) => match parse_version(s) {
            Some(v) => (
                usable_version(v),
                Some(
                    cat3(dec_string(v.0 as u64).as_str(), ".", dec_string(v.1 as u64).as_str()),
                ),
            ),
            None => (false, None),
        },
        None => (false, None),
    }
}

/// How long it counts what was found when the program was looked for, in seconds.
pub const LOOKED_TTL_SECS: u64 = 60;

/// What was found when the program was last looked for.
#[derive(Clone, Copy, Debug)]
pub struct Availability {
    /// When that was, in seconds, and whether it could be used.
    pub looked: Option<(u64, bool)>,
}

/// Whether the program can be used, where that is known from not too long ago.
pub open spec fn known_usable(looked: Option<(u64, bool)>, now: u64) -> Option<bool> {
    match looked {
        Some((at, usable)) => if now - at < LOOKED_TTL_SECS {
            Some(usable)
        } else {
            None
        },
        None => None,
    }
}

impl Availability {
    /// Nothing is known yet.
    pub fn new() -> (r: Self)
        ensures
            r.looked is None,
    {
        Availability { looked: None }
    }

    /// Tells whether the program can be used, where that is known from not too long ago.
    pub fn known(&self, now: u64) -> (r: Option<bool>)
        ensures
            r == known_usable(self.looked, now),
    {
        match self.looked {
            Some((at, usable)) => if now < at || now - at < LOOKED_TTL_SECS {
                Some(usable)
            } else {
                None
            },
            None => None,
        }
    }

    /// Keeps what was found.
    pub fn keep(&mut self, usable: bool, now: u64)
        ensures
            final(self).looked == Some((now, usable)),
    {
        self.looked = Some((now, usable));
    }
}

/// How many of how many items a line of the log tells, as in `[ 3/45] ..`.
pub open spec fn counter_in(s: Seq<char>) -> Option<(nat, nat)> {
    let line = text::trim(s);
    if text::has_prefix(line, "["@) {
        match text::split_once(text::before_first(line.skip(1), "]"@), "/"@) {
            Some((d, t)) => {
                let done = number::parsed_nat(text::trim(d), u64::MAX as nat);
                let total = number::parsed_nat(text::trim(t), u64::MAX as nat);
                if done is Some && total is Some {
                    Some((done->0, total->0))
                } else {
                    None
                }
            },
            None => None,
        }
    } else {
        None
    }
}

/// Reads how many of how many items a line of the log tells.
pub fn parse_counter_line(s: &str) -> (r: Option<(u64, u64)>)
    ensures
        match r {
            Some((d, t)) => counter_in(s@) == Some((d as nat, t as nat)),
            None => counter_in(s@) is None,
        },
{
    let cs = chars_of(s);
    proof {
        reveal_strlit("[");
    }
    match strip_prefix(trimmed(cs.as_slice()), "[") {
        Some(rest) => match split_at_first(cut_before_first(rest, "]"), "/") {
            Some((d, t)) => match (parse_u64(trimmed(d)), parse_u64(trimmed(t))) {
                (Some(done), Some(total)) => Some((done, total)),
                _ => None,
            },
            None => None,
        },
        None => None,
    }
}

/// The log of a run: its last lines.
#[derive(Debug)]
pub struct RunLog {
    pub lines: Vec<String>,
}

/// The kept lines once another one came.
pub open spec fn kept_lines(lines: Seq<Seq<char>>, line: Seq<char>) -> Seq<Seq<char>> {
    let all = lines.push(line);
    if all.len() > KEPT_LINES {
        all.skip(1)
    } else {
        all
    }
}

/// The progress that a line of the log tells.
pub open spec fn event_of_line(line: Seq<char>) -> Option<JobEvent> {
    match counter_in(line) {
        Some((done, total)) => Some(
            JobEvent::Progress {
                downloaded_bytes: 0,
                total_bytes: None,
                done_units: done as u64,
                total_units: if total < done {
                    done as u64
                } else {
                    total as u64
                },
                speed_bps: 0,
            },
        ),
        None => None,
    }
}

/// The last line, before position `n`, that is no counter.
pub open spec fn last_message(lines: Seq<Seq<char>>, n: int) -> Seq<char>
    decreases n,
{
    if n <= 0 || n > lines.len() {
        Seq::empty()
    } else if !text::has_prefix(lines[n - 1], "["@) {
        lines[n - 1]
    } else {
        last_message(lines, n - 1)
    }
}

impl RunLog {
    pub fn new() -> (r: Self)
        ensures
            text::texts(r.lines@) == Seq::<Seq<char>>::empty(),
    {
        let r = RunLog { lines: Vec::new() };
        assert(text::texts(r.lines@) =~= Seq::empty());
        r
    }

    /// Takes a line of the log, blank ones left out, and tells the progress in it.
    pub fn line(&mut self, raw: &str) -> (r: Option<JobEvent>)
        requires
            old(self).lines@.len() <= KEPT_LINES,
        ensures
            text::trim(raw@).len() == 0 ==> r is None && final(self).lines@ == old(self).lines@,
            text::trim(raw@).len() > 0 ==> r == event_of_line(text::trim(raw@)) && text::texts(
                final(self).lines@,
            ) == kept_lines(text::texts(old(self).lines@), text::trim(raw@)),
            final(self).lines@.len() <= KEPT_LINES,
    {
        let cs = chars_of(raw);
        let line = trimmed(cs.as_slice());
        if line.len() == 0 {
            return None;
        }
        let kept = string_of(line);
        let event = match parse_counter_line(kept.as_str()) {
            Some((done, total)) => Some(
                JobEvent::Progress {
                    downloaded_bytes: 0,
                    total_bytes: None,
                    done_units: done,
                    total_units: if total < done {
                        done
                    } else {
                        total
                    },
                    speed_bps: 0,
                },
            ),
            None => None,
        };
        let ghost before = text::texts(self.lines@);
        self.lines.push(kept);
        let ghost all = self.lines@;
        assert(text::texts(all) =~= before.push(line@));
        if self.lines.len() > KEPT_LINES {
            self.lines.remove(0);
            assert(text::texts(self.lines@) =~= text::texts(all).skip(1));
        }
        event
    }

    /// What the log says of a failed run.
    pub fn failure(&self) -> (r: String)
        ensures
            r@ == last_message(text::texts(self.lines@), self.lines@.len() as int),
    {
        let ghost all = text::texts(self.lines@);
        let mut n: usize = self.lines.len();
        while n > 0
            invariant
                n <= self.lines.len(),
                all == text::texts(self.lines@),
                last_message(all, n as int) == last_message(all, self.lines@.len() as int),
            decreases n,
        {
            assert(all[n - 1] == self.lines@[n - 1]@);
            if !starts_with(chars_of(self.lines[n - 1].as_str()).as_slice(), "[") {
                return self.lines[n - 1].clone();
            }
            n -= 1;
        }
        let r = String::new();
        assert(r@ =~= Seq::empty());
        r
    }
}

// ---------------------------------------------------------------------------
// What the program leaves
// ---------------------------------------------------------------------------

/// The extensions of the files that are kept.
pub open spec fn media_exts() -> Seq<Seq<char>> {
    seq!["jpg"@, "jpeg"@, "png"@, "webp"@, "mp4"@]
}

/// Whether a file is a picture or a video.
pub open spec fn is_media_file(p: Seq<char>) -> bool {
    match paths::extension(p) {
        Some(e) => media_exts().contains(text::lower(e)),
        None => false,
    }
}

/// Tells whether a file is a picture or a video.
pub fn is_media(p: &str) -> (r: bool)
    ensures
        r == is_media_file(p@),
{
    match get_extension(p) {
        Some(e) => {
            let list: Vec<&str> = vec!["jpg", "jpeg", "png", "webp", "mp4"];
            assert(text::str_texts(list@) =~= media_exts());
            let low = to_lower(chars_of(e.as_str()).as_slice());
            one_of(low.as_slice(), &list)
        },
        None => false,
    }
}

/// The pictures and videos of a list that were not in the list before.
pub open spec fn fresh_media(before: Seq<Seq<char>>, now: Seq<Seq<char>>) -> Seq<Seq<char>>
    decreases now.len(),
{
    if now.len() == 0 {
        now
    } else {
        let rest = fresh_media(before, now.drop_last());
        if is_media_file(now.last()) && !before.contains(now.last()) {
            rest.push(now.last())
        } else {
            rest
        }
    }
}

/// The files that a run produced, in order: the pictures and videos in the
/// directory that were not there before. All are files of one directory.
pub fn produced_files(before: &Vec<String>, now: &Vec<String>) -> (r: Vec<String>)
    ensures
        text::texts(r@) == sorting::sorted(fresh_media(text::texts(before@), text::texts(now@))),
{
    let ghost old_files = text::texts(before@);
    let ghost all = text::texts(now@);
    let mut out: Vec<String> = Vec::new();
    let mut i: usize = 0;
    assert(all.take(0) =~= Seq::empty());
    assert(text::texts(out@) =~= Seq::empty());
    while i < now.len()
        invariant
            i <= now.len(),
            all == text::texts(now@),
            old_files == text::texts(before@),
            text::texts(out@) == fresh_media(old_files, all.take(i as int)),
        decreases now.len() - i,
    {
        proof {
            let next = all.take(i + 1);
            assert(next.drop_last() =~= all.take(i as int));
            assert(next.last() == now@[i as int]@);
        }
        if is_media(now[i].as_str()) && !listed(before, now[i].as_str()) {
            push_text(&mut out, now[i].as_str());
        }
        i += 1;
    }
    assert(all.take(now@.len() as int) =~= all);
    sort_strings(&out)
}

} // verus!
