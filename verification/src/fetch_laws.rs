//! Laws of the programs that fetch: what they are told, and what is read out of
//! their reports.
use vstd::prelude::*;

use crate::backend::Confidence;
use crate::decimal;
use crate::instagram::TargetView;
use crate::instaloader;
use crate::json::JsonView;
use crate::net::JobEvent;
use crate::number;
use crate::reading_laws;
use crate::text;
use crate::urls;
use crate::ytdlp;
use crate::ytdlp_info;

verus! {

// ---------------------------------------------------------------------------
// Sizes
// ---------------------------------------------------------------------------

/// A number with a fraction behind a point.
pub open spec fn point_text(n: nat, f: Seq<char>) -> Seq<char> {
    number::dec(n) + "."@ + f
}

/// The same number in units of its last digit.
pub open spec fn point_value(n: nat, f: Seq<char>) -> nat {
    n * decimal::pow10(f.len()) + number::dec_value(f)
}

proof fn lemma_point(n: nat, f: Seq<char>)
    requires
        number::all_digits(f),
        f.len() > 0,
    ensures
        decimal::parsed_decimal(point_text(n, f)) == Some(
            decimal::DecimalView::Number {
                negative: false,
                digits: number::dec(n) + f,
                scale: f.len() as int,
            },
        ),
        number::dec_value(number::dec(n) + f) == point_value(n, f),
        point_text(n, f).len() > 0,
        forall|i: int|
            0 <= i < point_text(n, f).len() ==> text::is_digit(#[trigger] point_text(n, f)[i])
                || point_text(n, f)[i] == '.',
        text::is_digit(point_text(n, f)[0]),
        text::is_digit(point_text(n, f).last()),
{
    reveal_strlit(".");
    reading_laws::lemma_number_texts(n, f);
    decimal::lemma_dec_value_concat(number::dec(n), f);
    number::lemma_dec_digits(n);
    let d = number::dec(n);
    let t = point_text(n, f);
    assert forall|i: int| 0 <= i < t.len() implies text::is_digit(#[trigger] t[i]) || t[i] == '.' by {
        if i < d.len() {
            assert(t[i] == d[i]);
        } else if i > d.len() {
            assert(t[i] == f[i - d.len() - 1]);
        }
    }
    assert(t[0] == d[0]);
    assert(t.last() == f[f.len() - 1]);
}

/// A unit in which sizes are reported, and how many bytes it has.
pub open spec fn is_unit(unit: Seq<char>, bytes: nat) -> bool {
    (unit == "B"@ && bytes == 1) || (unit == "KiB"@ && bytes == 1024) || (unit == "MiB"@ && bytes
        == 1024 * 1024) || (unit == "GiB"@ && bytes == 1024 * 1024 * 1024)
}

proof fn lemma_unit(unit: Seq<char>, bytes: nat)
    requires
        is_unit(unit, bytes),
    ensures
        ytdlp::unit_size(unit) == Some(bytes),
        unit.len() > 0,
        forall|i: int| 0 <= i < unit.len() ==> ytdlp::is_letter(#[trigger] unit[i]),
        !unit.contains('o'),
        !unit.contains('a'),
        !unit.contains('/'),
        !unit.contains('('),
        !unit.contains(' '),
{
    reveal_strlit("B");
    reveal_strlit("KiB");
    reveal_strlit("MiB");
    reveal_strlit("GiB");
    reveal_strlit("b");
    reveal_strlit("kib");
    reveal_strlit("mib");
    reveal_strlit("gib");
    reveal_strlit("kb");
    reveal_strlit("mb");
    reveal_strlit("gb");
    assert(text::lower("B"@) =~= "b"@);
    assert(text::lower("KiB"@) =~= "kib"@);
    assert(text::lower("MiB"@) =~= "mib"@);
    assert(text::lower("GiB"@) =~= "gib"@);
    assert("b"@.len() == 1 && "kb"@.len() == 2 && "mb"@.len() == 2 && "gb"@.len() == 2);
    assert("kib"@[0] == 'k' && "mib"@[0] == 'm' && "gib"@[0] == 'g');
}

proof fn lemma_letter_reach(s: Seq<char>, from: int, to: int)
    requires
        0 <= from <= to < s.len(),
        forall|j: int| from <= j < to ==> !ytdlp::is_letter(#[trigger] s[j]),
        ytdlp::is_letter(s[to]),
    ensures
        ytdlp::letter_from(s, from) == to,
    decreases to - from,
{
    if from < to {
        assert(!ytdlp::is_letter(s[from]));
        lemma_letter_reach(s, from + 1, to);
    }
}

/// A size that is reported with a unit is that many bytes, rounded down.
pub proof fn sizes_are_bytes(n: nat, f: Seq<char>, unit: Seq<char>, bytes: nat)
    requires
        number::all_digits(f),
        f.len() > 0,
        is_unit(unit, bytes),
        point_value(n, f) * bytes <= u64::MAX,
    ensures
        ytdlp::size_in(point_text(n, f) + unit) matches Some(size) && size * decimal::pow10(f.len())
            <= point_value(n, f) * bytes < (size + 1) * decimal::pow10(f.len()),
        ytdlp::size_in(point_text(n, f) + unit) == Some(
            (point_value(n, f) * bytes) / decimal::pow10(f.len()),
        ),
        (point_value(n, f) * bytes) / decimal::pow10(f.len()) <= u64::MAX,
{
    reveal_strlit("~");
    assert("~"@.len() == 1 && "~"@[0] == '~');
    lemma_point(n, f);
    lemma_unit(unit, bytes);
    let p = point_text(n, f);
    let s = p + unit;
    assert(s[0] == p[0]);
    assert(!"~"@.contains(s[0]));
    assert(text::trim_start_set(s, "~"@) == s);
    assert(s.last() == unit[unit.len() - 1]);
    assert(ytdlp::is_letter(unit[unit.len() - 1]));
    assert(text::trim(s) == s);
    let k = p.len() as int;
    assert forall|j: int| 0 <= j < k implies !ytdlp::is_letter(#[trigger] s[j]) by {
        assert(s[j] == p[j]);
    }
    assert(s[k] == unit[0]);
    lemma_letter_reach(s, 0, k);
    assert(s.take(k) =~= p);
    assert(s.skip(k) =~= unit);
    assert(text::trim(p) == p);
    assert(ytdlp::is_letter(unit[0]));
    assert(text::trim(unit) == unit);
    let x = point_value(n, f) * bytes;
    let w = decimal::pow10(f.len());
    decimal::lemma_pow10_positive(f.len());
    let q = x / w;
    assert(q * w <= x < (q + 1) * w && q <= x) by (nonlinear_arith)
        requires
            q == x / w,
            w >= 1,
            x >= 0,
    ;
    assert(decimal::magnitude(number::dec(n) + f, f.len() as int, bytes) == q);
}

// ---------------------------------------------------------------------------
// Progress
// ---------------------------------------------------------------------------

proof fn lemma_found_behind(front: Seq<char>, needle: Seq<char>, rest: Seq<char>, c: char, at: int)
    requires
        0 <= at < needle.len(),
        needle[at] == c,
        !front.contains(c),
        forall|j: int| 0 <= j < at ==> needle[j] != c,
    ensures
        text::find(front + needle + rest, needle, 0) == front.len(),
        text::holds(front + needle + rest, needle),
{
    let s = front + needle + rest;
    let n = front.len() as int;
    assert(s.subrange(n, n + needle.len()) =~= needle);
    assert(text::has_at(s, n, needle));
    text::lemma_find(s, needle, 0);
    let i = text::find(s, needle, 0);
    if i < 0 {
        assert(!text::has_at(s, n, needle));
    } else if i < n {
        assert(s.subrange(i, i + needle.len())[at] == s[i + at]);
        if i + at < n {
            assert(s[i + at] == front[i + at]);
            assert(front.contains(front[i + at]));
        } else {
            assert(s[i + at] == needle[i + at - n]);
        }
    }
}

proof fn lemma_not_held(s: Seq<char>, needle: Seq<char>, c: char, at: int)
    requires
        0 <= at < needle.len(),
        needle[at] == c,
        !s.contains(c),
    ensures
        !text::holds(s, needle),
{
    if text::holds(s, needle) {
        let i = choose|i: int| text::has_at(s, i, needle);
        assert(s.subrange(i, i + needle.len())[at] == s[i + at]);
        assert(s.contains(s[i + at]));
    }
}

/// Characters of which reports of times consist.
pub open spec fn is_clock(e: Seq<char>) -> bool {
    forall|i: int| 0 <= i < e.len() ==> text::is_digit(#[trigger] e[i]) || e[i] == ':'
}

/// A line of progress: a percentage of a size, at a speed, and the time left.
pub open spec fn progress_text(
    percent: Seq<char>,
    size: Seq<char>,
    speed: Seq<char>,
    left: Seq<char>,
) -> Seq<char> {
    percent + "% of "@ + size + " at "@ + speed + "/s ETA "@ + left
}

/// Whether `s` consists of digits, points and letters of a unit only.
pub open spec fn is_quantity(s: Seq<char>) -> bool {
    &&& s.len() > 0
    &&& forall|i: int|
        0 <= i < s.len() ==> text::is_digit(#[trigger] s[i]) || s[i] == '.' || s[i] == 'K' || s[i]
            == 'M' || s[i] == 'G' || s[i] == 'i' || s[i] == 'B'
}

proof fn lemma_quantity(s: Seq<char>)
    requires
        is_quantity(s),
    ensures
        !s.contains(' '),
        !s.contains('o'),
        !s.contains('a'),
        !s.contains('('),
        !s.contains('%'),
        !s.contains('/'),
        !s.contains('E'),
        text::trim(s) == s,
{
    assert forall|i: int| 0 <= i < s.len() implies s[i] != ' ' && s[i] != 'o' && s[i] != 'a' && s[i]
        != '(' && s[i] != '%' && s[i] != '/' && s[i] != 'E' && !text::is_space(s[i]) by {}
    assert(!text::is_space(s[0]));
    assert(!text::is_space(s[s.len() - 1]));
}

proof fn lemma_clock(s: Seq<char>)
    requires
        is_clock(s),
    ensures
        !s.contains('o'),
        !s.contains('a'),
        !s.contains('('),
{
    assert forall|i: int| 0 <= i < s.len() implies s[i] != 'o' && s[i] != 'a' && s[i] != '(' by {}
}

proof fn lemma_none_in(a: Seq<char>, b: Seq<char>, c: char)
    ensures
        (a + b).contains(c) == (a.contains(c) || b.contains(c)),
{
    if (a + b).contains(c) {
        let i = choose|i: int| 0 <= i < (a + b).len() && (a + b)[i] == c;
        if i < a.len() {
            assert(a[i] == c);
        } else {
            assert(b[i - a.len()] == c);
        }
    }
    if a.contains(c) {
        let i = choose|i: int| 0 <= i < a.len() && a[i] == c;
        assert((a + b)[i] == c);
    }
    if b.contains(c) {
        let i = choose|i: int| 0 <= i < b.len() && b[i] == c;
        assert((a + b)[a.len() + i] == c);
    }
}

proof fn lemma_total(percent: Seq<char>, size: Seq<char>, speed: Seq<char>, left: Seq<char>)
    requires
        is_quantity(percent),
        is_quantity(size),
        is_quantity(speed),
        is_clock(left),
    ensures
        ytdlp::total_in(progress_text(percent, size, speed, left)) == ytdlp::size_in(size),
{
    reveal_strlit("% of ");
    reveal_strlit("%");
    reveal_strlit(" of ");
    reveal_strlit(" at ");
    reveal_strlit("/s ETA ");
    lemma_quantity(percent);
    lemma_quantity(size);
    lemma_quantity(speed);
    lemma_clock(left);
    let s = progress_text(percent, size, speed, left);
    let front = percent + "%"@;
    let behind = speed + "/s ETA "@ + left;
    let rest = size + " at "@ + behind;
    assert(s =~= front + " of "@ + rest);
    lemma_none_in(percent, "%"@, ' ');
    assert(!"%"@.contains(' '));
    lemma_found_behind(front, " of "@, rest, ' ', 0);
    assert(s.skip((front.len() + 4) as int) =~= rest);
    lemma_none_in(speed, "/s ETA "@, 'o');
    lemma_none_in(speed + "/s ETA "@, left, 'o');
    lemma_none_in(size, " at "@, 'o');
    lemma_none_in(size + " at "@, behind, 'o');
    assert(!"/s ETA "@.contains('o'));
    assert(!" at "@.contains('o'));
    lemma_not_held(rest, " of "@, 'o', 1);
    assert(ytdlp::second_piece(s, " of "@) == Some(rest));
    lemma_found_behind(size, " at "@, behind, ' ', 0);
    assert(rest.take(size.len() as int) =~= size);
}

proof fn lemma_rate(speed: Seq<char>)
    requires
        is_quantity(speed),
    ensures
        text::trim(speed + "/s"@) == speed + "/s"@,
        ytdlp::rate_in(speed + "/s"@) == ytdlp::size_in(speed),
{
    reveal_strlit("/s");
    lemma_quantity(speed);
    let rate = speed + "/s"@;
    assert(rate[0] == speed[0]);
    assert(rate.last() == 's');
    assert(!text::is_space(speed[0]));
    assert(rate.skip(rate.len() - 2) =~= "/s"@);
    assert(rate.take(rate.len() - 2) =~= speed);
    assert(!text::has_suffix(speed, "/s"@)) by {
        if text::has_suffix(speed, "/s"@) {
            assert(speed.skip(speed.len() - 2)[0] == speed[speed.len() - 2]);
            assert(speed.contains(speed[speed.len() - 2]));
        }
    }
    assert(ytdlp::without_suffixes(speed, "/s"@) == speed);
    assert(ytdlp::without_suffixes(rate, "/s"@) == speed);
}

proof fn lemma_speed_piece(front: Seq<char>, behind: Seq<char>)
    requires
        !front.contains('a'),
        !behind.contains('a'),
    ensures
        ytdlp::second_piece(front + " at "@ + behind, " at "@) == Some(behind),
{
    reveal_strlit(" at ");
    let s = front + " at "@ + behind;
    lemma_found_behind(front, " at "@, behind, 'a', 1);
    assert(s.skip((front.len() + 4) as int) =~= behind);
    lemma_not_held(behind, " at "@, 'a', 1);
}

proof fn lemma_until_left(speed: Seq<char>, left: Seq<char>)
    requires
        is_quantity(speed),
    ensures
        ytdlp::upto_text(speed + "/s ETA "@ + left, " ETA"@) == speed + "/s"@,
{
    reveal_strlit("/s ETA ");
    reveal_strlit("/s");
    reveal_strlit(" ETA");
    reveal_strlit(" ");
    lemma_quantity(speed);
    let behind = speed + "/s ETA "@ + left;
    let rate = speed + "/s"@;
    assert(behind =~= rate + " ETA"@ + (" "@ + left));
    lemma_none_in(speed, "/s"@, ' ');
    assert(!"/s"@.contains(' '));
    lemma_found_behind(rate, " ETA"@, " "@ + left, ' ', 0);
    assert(behind.take(rate.len() as int) =~= rate);
}

proof fn lemma_speed(percent: Seq<char>, size: Seq<char>, speed: Seq<char>, left: Seq<char>)
    requires
        is_quantity(percent),
        is_quantity(size),
        is_quantity(speed),
        is_clock(left),
    ensures
        ytdlp::speed_in(progress_text(percent, size, speed, left)) == ytdlp::size_in(speed),
{
    lemma_quantity(percent);
    lemma_quantity(size);
    lemma_quantity(speed);
    lemma_clock(left);
    let s = progress_text(percent, size, speed, left);
    let front = percent + "% of "@ + size;
    let behind = speed + "/s ETA "@ + left;
    assert(s =~= front + " at "@ + behind);
    lemma_none_in(percent, "% of "@, 'a');
    lemma_none_in(percent + "% of "@, size, 'a');
    lemma_none_in(speed, "/s ETA "@, 'a');
    lemma_none_in(speed + "/s ETA "@, left, 'a');
    assert(!"% of "@.contains('a')) by {
        reveal_strlit("% of ");
    }
    assert(!"/s ETA "@.contains('a')) by {
        reveal_strlit("/s ETA ");
    }
    lemma_speed_piece(front, behind);
    lemma_until_left(speed, left);
    lemma_rate(speed);
}

proof fn lemma_no_last(s: Seq<char>, needle: Seq<char>, end: int)
    requires
        forall|i: int| !text::has_at(s, i, needle),
    ensures
        ytdlp::last_find(s, needle, end) == -1,
    decreases end,
{
    if end > 0 {
        lemma_no_last(s, needle, end - 1);
    }
}

proof fn lemma_no_fragments(percent: Seq<char>, size: Seq<char>, speed: Seq<char>, left: Seq<char>)
    requires
        is_quantity(percent),
        is_quantity(size),
        is_quantity(speed),
        is_clock(left),
    ensures
        ytdlp::fragments_in(progress_text(percent, size, speed, left)) == (0nat, 0nat),
        text::before_first(progress_text(percent, size, speed, left), "%"@) == percent,
{
    reveal_strlit("% of ");
    reveal_strlit("%");
    reveal_strlit(" at ");
    reveal_strlit("/s ETA ");
    reveal_strlit("(frag ");
    lemma_quantity(percent);
    lemma_quantity(size);
    lemma_quantity(speed);
    lemma_clock(left);
    let s = progress_text(percent, size, speed, left);
    let a = percent + "% of "@;
    let b = a + size;
    let c = b + " at "@;
    let d = c + speed;
    let e = d + "/s ETA "@;
    lemma_none_in(percent, "% of "@, '(');
    lemma_none_in(a, size, '(');
    lemma_none_in(b, " at "@, '(');
    lemma_none_in(c, speed, '(');
    lemma_none_in(d, "/s ETA "@, '(');
    lemma_none_in(e, left, '(');
    assert(!"% of "@.contains('('));
    assert(!" at "@.contains('('));
    assert(!"/s ETA "@.contains('('));
    lemma_not_held(s, "(frag "@, '(', 0);
    lemma_no_last(s, "(frag "@, s.len() as int);
    let tail = "% of "@ + size + " at "@ + speed + "/s ETA "@ + left;
    assert(s =~= percent + tail);
    assert(tail[0] == '%');
    assert("%"@[0] == '%');
    assert(text::free_of(percent, "%"@)) by {
        assert forall|i: int| 0 <= i < percent.len() implies !"%"@.contains(#[trigger] percent[i]) by {
            assert(percent.contains(percent[i]));
        }
    }
    text::lemma_first_behind(percent, tail, "%"@);
    assert(s.take(percent.len() as int) =~= percent);
}

proof fn lemma_is_quantity(n: nat, f: Seq<char>, unit: Seq<char>, bytes: nat)
    requires
        number::all_digits(f),
        f.len() > 0,
        is_unit(unit, bytes),
    ensures
        is_quantity(point_text(n, f) + unit),
        is_quantity(point_text(n, f)),
{
    reveal_strlit("B");
    reveal_strlit("KiB");
    reveal_strlit("MiB");
    reveal_strlit("GiB");
    lemma_point(n, f);
    let p = point_text(n, f);
    let s = p + unit;
    assert forall|i: int| 0 <= i < s.len() implies text::is_digit(#[trigger] s[i]) || s[i] == '.'
        || s[i] == 'K' || s[i] == 'M' || s[i] == 'G' || s[i] == 'i' || s[i] == 'B' by {
        if i < p.len() {
            assert(s[i] == p[i]);
        } else {
            assert(s[i] == unit[i - p.len()]);
        }
    }
}

/// A line of progress is read as it is meant: the size is the total, the speed
/// is the speed, and the percentage of the total is what is there, each rounded
/// down to whole bytes.
pub proof fn progress_is_read(
    p: nat,
    pf: Seq<char>,
    n: nat,
    nf: Seq<char>,
    unit: Seq<char>,
    bytes: nat,
    r: nat,
    rf: Seq<char>,
    per: Seq<char>,
    per_bytes: nat,
    left: Seq<char>,
)
    requires
        number::all_digits(pf) && number::all_digits(nf) && number::all_digits(rf),
        pf.len() > 0 && nf.len() > 0 && rf.len() > 0,
        is_unit(unit, bytes),
        is_unit(per, per_bytes),
        is_clock(left),
        point_value(n, nf) * bytes <= u64::MAX,
        point_value(r, rf) * per_bytes <= u64::MAX,
        point_value(p, pf) <= 100 * decimal::pow10(pf.len()),
    ensures
        ({
            let line = progress_text(
                point_text(p, pf),
                point_text(n, nf) + unit,
                point_text(r, rf) + per,
                left,
            );
            let total = (point_value(n, nf) * bytes) / decimal::pow10(nf.len());
            let speed = (point_value(r, rf) * per_bytes) / decimal::pow10(rf.len());
            ytdlp::progress_in(line) matches Some(
                JobEvent::Progress {
                    downloaded_bytes,
                    total_bytes,
                    done_units,
                    total_units,
                    speed_bps,
                },
            ) && total_bytes == Some(total as u64) && speed_bps == speed && done_units == 0
                && total_units == 0 && downloaded_bytes <= total && downloaded_bytes * (100
                * decimal::pow10(pf.len())) <= point_value(p, pf) * total < (downloaded_bytes + 1)
                * (100 * decimal::pow10(pf.len()))
        }),
{
    let percent = point_text(p, pf);
    let size = point_text(n, nf) + unit;
    let rate = point_text(r, rf) + per;
    let line = progress_text(percent, size, rate, left);
    lemma_is_quantity(p, pf, unit, bytes);
    lemma_is_quantity(n, nf, unit, bytes);
    lemma_is_quantity(r, rf, per, per_bytes);
    lemma_total(percent, size, rate, left);
    lemma_speed(percent, size, rate, left);
    lemma_no_fragments(percent, size, rate, left);
    sizes_are_bytes(n, nf, unit, bytes);
    sizes_are_bytes(r, rf, per, per_bytes);
    lemma_quantity(percent);
    lemma_point(p, pf);
    let total = (point_value(n, nf) * bytes) / decimal::pow10(nf.len());
    lemma_share(number::dec(p) + pf, point_value(p, pf), pf.len(), total);
}

proof fn lemma_share(digits: Seq<char>, v: nat, k: nat, total: nat)
    requires
        number::dec_value(digits) == v,
        v <= 100 * decimal::pow10(k),
        total <= u64::MAX,
        k > 0,
    ensures
        ({
            let got = decimal::scaled_nat(
                decimal::DecimalView::Number { negative: false, digits, scale: k as int },
                total,
                2,
            );
            &&& got <= total
            &&& got * (100 * decimal::pow10(k)) <= v * total < (got + 1) * (100 * decimal::pow10(k))
        }),
{
    let w = decimal::pow10(k);
    decimal::lemma_pow10_positive(k);
    assert(decimal::pow10((k + 2) as nat) == 100 * w) by {
        assert(decimal::pow10((k + 2) as nat) == 10 * decimal::pow10((k + 1) as nat));
        assert(decimal::pow10((k + 1) as nat) == 10 * decimal::pow10(k));
    }
    let x = v * total;
    let h = 100 * w;
    let q = x / h;
    assert(q * h <= x < (q + 1) * h) by (nonlinear_arith)
        requires
            q == x / h,
            h >= 1,
    ;
    assert(q <= total) by (nonlinear_arith)
        requires
            q * h <= x,
            x == v * total,
            v <= h,
            h >= 1,
            total >= 0,
    ;
    if total == 0 {
        assert(q == 0) by (nonlinear_arith)
            requires
                q * h <= x,
                x == v * total,
                total == 0,
                h >= 1,
                q >= 0,
        ;
    }
}

// ---------------------------------------------------------------------------
// Tries
// ---------------------------------------------------------------------------

proof fn lemma_holds_any(s: Seq<char>, list: Seq<Seq<char>>, i: int, from: int)
    requires
        0 <= from <= i < list.len(),
        text::holds(s, list[i]),
    ensures
        ytdlp::holds_any_from(s, list, from),
    decreases i - from,
{
    if from < i {
        lemma_holds_any(s, list, i, from + 1);
    }
}

/// After an error that passes, a download is tried again as often as it may be,
/// each time after five seconds more; after another error it is not.
pub proof fn waits_grow_between_tries(failed: u32, limit: u32, err: Seq<char>)
    requires
        failed < 1_000_000,
    ensures
        failed >= limit ==> ytdlp::wait_before_retry(failed, limit, err) is None,
        ytdlp::is_passing(err) && limit > 0 ==> ytdlp::wait_before_retry(0, limit, err) == Some(5u64),
        ytdlp::is_passing(err) && failed + 1 < limit ==> (ytdlp::wait_before_retry(
            failed,
            limit,
            err,
        ) is Some && ytdlp::wait_before_retry((failed + 1) as u32, limit, err) == Some(
            (ytdlp::wait_before_retry(failed, limit, err)->0 + 5) as u64,
        )),
        !ytdlp::is_passing(err) ==> ytdlp::wait_before_retry(failed, limit, err) is None,
{
}

/// A connection that breaks off and a server that fails are errors that pass,
/// however they are written.
pub proof fn broken_connections_pass(err: Seq<char>)
    ensures
        text::holds(text::lower(err), "timed out"@) ==> ytdlp::is_passing(err),
        text::holds(text::lower(err), "connection reset"@) ==> ytdlp::is_passing(err),
        text::holds(text::lower(err), "connection aborted"@) ==> ytdlp::is_passing(err),
        text::holds(text::lower(err), "remotedisconnected"@) ==> ytdlp::is_passing(err),
        text::holds(text::lower(err), "temporary failure"@) ==> ytdlp::is_passing(err),
        text::holds(text::lower(err), "http error 5"@) ==> ytdlp::is_passing(err),
        err.len() == 0 ==> !ytdlp::is_passing(err),
{
    let s = text::lower(err);
    let list = ytdlp::passing_errors();
    assert(list.len() == 7);
    assert(list[0] == "remotedisconnected"@ && list[1] == "connection aborted"@ && list[2]
        == "connection reset"@ && list[3] == "timed out"@ && list[4] == "temporary failure"@
        && list[6] == "http error 5"@);
    if text::holds(s, list[0]) {
        lemma_holds_any(s, list, 0, 0);
    }
    if text::holds(s, list[1]) {
        lemma_holds_any(s, list, 1, 0);
    }
    if text::holds(s, list[2]) {
        lemma_holds_any(s, list, 2, 0);
    }
    if text::holds(s, list[3]) {
        lemma_holds_any(s, list, 3, 0);
    }
    if text::holds(s, list[4]) {
        lemma_holds_any(s, list, 4, 0);
    }
    if text::holds(s, list[6]) {
        lemma_holds_any(s, list, 6, 0);
    }
    if err.len() == 0 {
        reveal_strlit("remotedisconnected");
        reveal_strlit("connection aborted");
        reveal_strlit("connection reset");
        reveal_strlit("timed out");
        reveal_strlit("temporary failure");
        reveal_strlit("unable to download api page");
        reveal_strlit("http error 5");
        assert forall|i: int| 0 <= i < 7 implies list[i].len() > 0 by {
            assert(list[5] == "unable to download api page"@);
        }
        reveal_with_fuel(ytdlp::holds_any_from, 8);
    }
}

proof fn lemma_flag(args: Seq<Seq<char>>, k: int, from: int)
    requires
        0 <= from <= k <= args.len(),
        forall|i: int| from <= i < k ==> #[trigger] args[i] != "--cookies"@,
        k < args.len() ==> args[k] == "--cookies"@,
    ensures
        ytdlp::cookie_flag_from(args, from) == k,
    decreases k - from,
{
    if from < k {
        lemma_flag(args, k, from + 1);
    }
}

/// The last try goes without the cookie file: the flag and the file are taken
/// out, and every other argument stays where it was.
pub proof fn cookies_are_taken_out(front: Seq<Seq<char>>, file: Seq<char>, rest: Seq<Seq<char>>)
    requires
        !front.contains("--cookies"@),
    ensures
        ytdlp::cookieless(front + seq!["--cookies"@, file] + rest) == front + rest,
        ytdlp::cookieless(front) == front,
{
    let args = front + seq!["--cookies"@, file] + rest;
    let k = front.len() as int;
    assert forall|i: int| 0 <= i < k implies #[trigger] args[i] != "--cookies"@ by {
        assert(args[i] == front[i]);
        assert(front.contains(front[i]));
    }
    assert(args[k] == "--cookies"@);
    lemma_flag(args, k, 0);
    assert(args.take(k) =~= front);
    assert(args.skip(k + 2) =~= rest);
    assert forall|i: int| 0 <= i < k implies #[trigger] front[i] != "--cookies"@ by {
        assert(front.contains(front[i]));
    }
    lemma_flag(front, k, 0);
}

// ---------------------------------------------------------------------------
// Reports
// ---------------------------------------------------------------------------

/// A line that joins or converts says so, a line without a mark names the file
/// that was made, and other lines say nothing.
pub proof fn lines_are_told_apart(rest: Seq<char>, path: Seq<char>)
    requires
        rest.len() > 0 && !text::is_space(rest.last()),
        path.len() > 0 && path[0] != '[' && !text::is_space(path[0]) && !text::is_space(path.last()),
    ensures
        ytdlp::line_meaning("[Merger]"@ + rest) == ytdlp::OutputLineView::Event(
            JobEvent::Converting,
        ),
        ytdlp::line_meaning("[ExtractAudio]"@ + rest) == ytdlp::OutputLineView::Event(
            JobEvent::Converting,
        ),
        ytdlp::line_meaning(path) == ytdlp::OutputLineView::Path(path),
        ytdlp::line_meaning("[info]"@ + rest) == ytdlp::OutputLineView::Other,
{
    reveal_strlit("[Merger]");
    reveal_strlit("[ExtractAudio]");
    reveal_strlit("[VideoConvertor]");
    reveal_strlit("[download]");
    reveal_strlit("[info]");
    reveal_strlit("[");
    let a = "[Merger]"@ + rest;
    let b = "[ExtractAudio]"@ + rest;
    let c = "[info]"@ + rest;
    assert(a[0] == '[' && b[0] == '[' && c[0] == '[');
    assert(a.last() == rest.last() && b.last() == rest.last() && c.last() == rest.last());
    assert(text::trim(a) == a && text::trim(b) == b && text::trim(c) == c && text::trim(path)
        == path);
    assert(a.take(8) =~= "[Merger]"@);
    assert(b.take(14) =~= "[ExtractAudio]"@);
    assert(c.take(1) =~= "["@);
    assert(a[1] == 'M' && b[1] == 'E' && c[1] == 'i');
    assert(a.len() >= 10 ==> a.take(10)[1] == 'M');
    assert(b.take(10)[1] == 'E');
    assert(c.len() >= 10 ==> c.take(10)[1] == 'i');
    assert(c.len() >= 8 ==> c.take(8)[1] == 'i');
    assert(c.len() >= 14 ==> c.take(14)[1] == 'i');
    assert(c.len() >= 16 ==> c.take(16)[1] == 'i');
    assert("[download]"@[1] == 'd' && "[Merger]"@[1] == 'M' && "[ExtractAudio]"@[1] == 'E'
        && "[VideoConvertor]"@[1] == 'V');
    assert(path.len() >= 10 ==> path.take(10)[0] == path[0]);
    assert(path.len() >= 8 ==> path.take(8)[0] == path[0]);
    assert(path.len() >= 14 ==> path.take(14)[0] == path[0]);
    assert(path.len() >= 16 ==> path.take(16)[0] == path[0]);
    assert(path.take(1)[0] == path[0]);
    assert("[download]"@[0] == '[' && "[Merger]"@[0] == '[' && "[ExtractAudio]"@[0] == '['
        && "[VideoConvertor]"@[0] == '[' && "["@[0] == '[');
}

/// What a run may have left is a file of the download's name with each of the
/// extensions that it makes, in the folder of the download.
pub proof fn left_files_have_the_name(dir: Seq<char>, stem: Seq<char>, i: int)
    requires
        0 <= i < ytdlp::left_files(dir, stem).len(),
    ensures
        exists|ext: Seq<char>|
            ytdlp::left_files(dir, stem)[i] == crate::paths::join(
                dir,
                #[trigger] (stem + "."@ + ext),
            ),
        ytdlp::left_files(dir, stem)[0] == crate::paths::join(dir, stem + "."@ + "mp4"@),
{
    let all = ytdlp::left_files(dir, stem);
    if i == 0 {
        assert(all[i] == crate::paths::join(dir, stem + "."@ + "mp4"@));
    } else if i == 1 {
        assert(all[i] == crate::paths::join(dir, stem + "."@ + "mkv"@));
    } else if i == 2 {
        assert(all[i] == crate::paths::join(dir, stem + "."@ + "webm"@));
    } else if i == 3 {
        assert(all[i] == crate::paths::join(dir, stem + "."@ + "m4a"@));
    } else if i == 4 {
        assert(all[i] == crate::paths::join(dir, stem + "."@ + "mp3"@));
    } else if i == 5 {
        assert(all[i] == crate::paths::join(dir, stem + "."@ + "opus"@));
    } else {
        assert(all[i] == crate::paths::join(dir, stem + "."@ + "ogg"@));
    }
}

/// A video is by its channel, or else by its uploader; its picture is the one
/// that it names, before those of a list.
pub proof fn descriptions_name_the_author(info: JsonView, name: Seq<char>, picture: Seq<char>)
    requires
        name.len() > 0,
    ensures
        info.text_at("channel"@) == Some(name) ==> ytdlp_info::author_in(info) == Some(name),
        info.text_at("channel"@) is None && info.text_at("uploader"@) == Some(name)
            ==> ytdlp_info::author_in(info) == Some(name),
        info.text_at("channel"@) is None && info.text_at("uploader"@) is None && info.text_at(
            "uploader_id"@,
        ) == Some(name) ==> ytdlp_info::author_in(info) == Some(name),
        info.text_at("thumbnail"@) == Some(picture) ==> ytdlp_info::thumbnail_in(info) == Some(
            picture,
        ),
{
}

// ---------------------------------------------------------------------------
// The loader
// ---------------------------------------------------------------------------

/// A program that is configured goes before one that came along, that before a
/// module of Python, and that before the name alone.
pub proof fn configured_programs_win(
    configured: Seq<char>,
    bundled: Option<Seq<char>>,
    python: Option<Seq<char>>,
    other: Seq<char>,
)
    ensures
        instaloader::program_of(Some(configured), bundled, python).0 == configured,
        instaloader::program_of(Some(configured), bundled, python).1.len() == 0,
        instaloader::program_of(None, Some(other), python).0 == other,
        instaloader::program_of(None, Some(other), python).1.len() == 0,
        instaloader::program_of(None, None, Some(other)) == (
            other,
            seq!["-m"@, "instaloader"@],
        ),
        instaloader::program_of(None, None, None).0 == "instaloader"@,
{
}

/// A run is told what to fetch behind a double dash: a post by its code with a
/// dash before it, and an account by its name; stories leave the posts out.
pub proof fn loaders_are_told_what_to_fetch(code: Seq<char>, reel: bool, user: Seq<char>)
    ensures
        instaloader::target_args(TargetView::Shortcode(code, reel)) == seq!["--"@, "-"@ + code],
        instaloader::target_args(TargetView::Profile(user)) == seq!["--"@, user],
        instaloader::target_args(TargetView::Stories(user)).last() == user,
        instaloader::target_args(TargetView::Stories(user)).contains("--stories"@),
        instaloader::target_args(TargetView::Stories(user)).contains("--no-posts"@),
{
    let a = instaloader::target_args(TargetView::Stories(user));
    assert(a[0] == "--stories"@ && a[1] == "--no-posts"@);
}

/// A run writes into the folder of the download, and takes the cookie file
/// where there is one.
pub proof fn loaders_write_into_the_folder(dir: Seq<char>, file: Seq<char>)
    ensures
        exists|i: int|
            0 <= i && i + 1 < instaloader::common_args(dir).len() && #[trigger]
            instaloader::common_args(dir)[i] == "--dirname-pattern"@ && instaloader::common_args(
                dir,
            )[i + 1] == dir,
        instaloader::cookie_args(Some(file)) == seq!["--load-cookies"@, file],
        instaloader::cookie_args(None).len() == 0,
{
    let a = instaloader::common_args(dir);
    assert(a[5] == "--dirname-pattern"@ && a[6] == dir);
}

/// A cookie that a download brings is used where it holds a session, and the
/// configured one else.
pub proof fn sessions_are_needed(given: Seq<char>, configured: Option<Seq<char>>)
    ensures
        text::holds(given, "sessionid="@) ==> instaloader::login_cookie(Some(given), configured)
            == Some(given),
        !text::holds(given, "sessionid="@) ==> instaloader::login_cookie(Some(given), configured)
            == configured,
        instaloader::login_cookie(None, configured) == configured,
{
}

/// The number of items that a report counts to is never below the number that
/// are there.
pub proof fn counters_do_not_overrun(line: Seq<char>)
    ensures
        instaloader::counter_in(line) matches Some((done, total)) ==> (instaloader::event_of_line(
            line,
        ) matches Some(JobEvent::Progress { done_units, total_units, .. }) && done_units
            == done as u64 && (total >= done ==> total_units == total as u64) && (total < done
            ==> total_units == done as u64)),
        instaloader::counter_in(line) is None ==> instaloader::event_of_line(line) is None,
{
}

/// A format is named by its note, with its height before it where the note has
/// no number; without a note by its height alone.
pub proof fn formats_are_named_by_height(f: JsonView, w: u32, h: u32, note: Seq<char>)
    requires
        ytdlp_info::resolution(f) == Some((w, h)),
        note.len() > 0,
    ensures
        f.text_at("format_note"@) is None ==> ytdlp_info::label_of(f) == number::dec(h as nat)
            + "p"@,
        f.text_at("format_note"@) == Some(note) && (exists|i: int|
            0 <= i < note.len() && text::is_digit(#[trigger] note[i])) ==> ytdlp_info::label_of(f)
            == note,
        f.text_at("format_note"@) == Some(note) && (forall|i: int|
            0 <= i < note.len() ==> !text::is_digit(#[trigger] note[i])) ==> ytdlp_info::label_of(f)
            == number::dec(h as nat) + "p ("@ + note + ")"@,
{
}

/// The size of a format is its width and its height, where both are known and
/// neither is zero.
pub proof fn formats_have_a_size(f: JsonView, w: nat, h: nat)
    requires
        f.get("width"@) matches Some(v) && v.as_nat() == Some(w),
        f.get("height"@) matches Some(v) && v.as_nat() == Some(h),
        w < 0x1_0000_0000,
        h < 0x1_0000_0000,
    ensures
        w > 0 && h > 0 ==> ytdlp_info::resolution(f) == Some((w as u32, h as u32)),
        w == 0 || h == 0 ==> ytdlp_info::resolution(f) is None,
{
    assert(w % 0x1_0000_0000 == w && h % 0x1_0000_0000 == h);
}

// ---------------------------------------------------------------------------
// Sites
// ---------------------------------------------------------------------------

proof fn lemma_served(host: Seq<char>, list: Seq<Seq<char>>, i: int, from: int)
    requires
        0 <= from <= i < list.len(),
        host == list[i] || text::has_suffix(host, "."@ + list[i]),
    ensures
        ytdlp::served_from(host, list, from),
    decreases i - from,
{
    if from < i {
        lemma_served(host, list, i, from + 1);
    }
}

proof fn lemma_not_served(host: Seq<char>, list: Seq<Seq<char>>, from: int)
    requires
        0 <= from,
        forall|i: int|
            0 <= i < list.len() ==> host != #[trigger] list[i] && !text::has_suffix(
                host,
                "."@ + list[i],
            ),
    ensures
        !ytdlp::served_from(host, list, from),
    decreases list.len() - from,
{
    if from < list.len() {
        assert(host != list[from]);
        lemma_not_served(host, list, from + 1);
    }
}

/// A page of YouTube is claimed, on the site itself and on everything below it,
/// and an address of no site that is served is not.
pub proof fn sites_are_claimed(url: Seq<char>, host: Seq<char>, sub: Seq<char>)
    requires
        urls::host_in(url) == Some(host),
    ensures
        host == "youtube.com"@ ==> ytdlp::claim(url) == Confidence::Strong,
        host == sub + "."@ + "youtube.com"@ ==> ytdlp::claim(url) == Confidence::Strong,
        host == "youtu.be"@ ==> ytdlp::claim(url) == Confidence::Strong,
        (forall|i: int|
            0 <= i < ytdlp::hosts().len() ==> host != #[trigger] ytdlp::hosts()[i]
                && !text::has_suffix(host, "."@ + ytdlp::hosts()[i])) ==> ytdlp::claim(url)
            == Confidence::No,
{
    let list = ytdlp::hosts();
    assert(list[0] == "youtube.com"@ && list[1] == "youtu.be"@);
    if host == "youtube.com"@ {
        lemma_served(host, list, 0, 0);
    }
    if host == sub + "."@ + "youtube.com"@ {
        let tail = "."@ + "youtube.com"@;
        assert(host.skip(host.len() - tail.len()) =~= tail);
        lemma_served(host, list, 0, 0);
    }
    if host == "youtu.be"@ {
        lemma_served(host, list, 1, 0);
    }
    if forall|i: int|
        0 <= i < list.len() ==> host != #[trigger] list[i] && !text::has_suffix(
            host,
            "."@ + list[i],
        ) {
        lemma_not_served(host, list, 0);
    }
}

} // verus!
