//! Segment templates: `$Number$`, `$Time$`, `$Bandwidth$` and
//! `$RepresentationID$` in URL templates.

use vstd::prelude::*;
use vstd::slice::slice_subrange;

use crate::number;
use crate::number::{dec_i64, pad_zeros, parse_upto, write_radix};
use crate::text;
use crate::text::{chars_of, first_of_from, is, push_chars, replaced, string_of, strip_prefix};

verus! {

/// A number written in at least `width` characters, zeros after the sign.
pub open spec fn padded_dec(value: int, width: nat) -> Seq<char> {
    if value < 0 {
        let w = if width > 0 {
            (width - 1) as nat
        } else {
            0
        };
        seq!['-'] + number::zero_padded(number::dec((-value) as nat), w)
    } else {
        number::zero_padded(number::dec(value as nat), width)
    }
}

/// A number written in hexadecimal in at least `width` characters; a negative one
/// as its 64-bit two's complement.
pub open spec fn padded_hex(value: int, width: nat) -> Seq<char> {
    let n = if value < 0 {
        value + 0x1_0000_0000_0000_0000
    } else {
        value
    };
    number::zero_padded(number::written(n as nat, 16), width)
}

/// A format's width text and whether it asks for hexadecimal: a final `d` or `x`,
/// in either case, names the base.
pub open spec fn format_parts(fmt: Seq<char>) -> (Seq<char>, bool) {
    if fmt.len() > 0 && (fmt.last() == 'd' || fmt.last() == 'D') {
        (fmt.drop_last(), false)
    } else if fmt.len() > 0 && (fmt.last() == 'x' || fmt.last() == 'X') {
        (fmt.drop_last(), true)
    } else {
        (fmt, false)
    }
}

/// A number in the format of a template token, such as `5d` for five decimal
/// digits. A width that is not a number counts as none.
pub open spec fn formatted(value: int, fmt: Seq<char>) -> Seq<char> {
    let (digits, hex) = format_parts(fmt);
    let width = match number::parsed_nat(digits, usize::MAX as nat) {
        Some(w) => w,
        None => 0,
    };
    if hex {
        padded_hex(value, width)
    } else {
        padded_dec(value, width)
    }
}

/// What a token between dollar signs stands for, where it is a known one.
pub open spec fn token_value(
    token: Seq<char>,
    number: int,
    time: int,
    bandwidth: Seq<char>,
    representation_id: Seq<char>,
) -> Option<Seq<char>> {
    if token == "Number"@ {
        Some(number::dec_int(number))
    } else if text::has_prefix(token, "Number%0"@) {
        Some(formatted(number, token.skip("Number%0"@.len() as int)))
    } else if token == "Time"@ {
        Some(number::dec_int(time))
    } else if text::has_prefix(token, "Time%0"@) {
        Some(formatted(time, token.skip("Time%0"@.len() as int)))
    } else if token == "RepresentationID"@ {
        Some(representation_id)
    } else if token == "Bandwidth"@ {
        Some(bandwidth)
    } else {
        None
    }
}

/// `s` from position `i` on with every known token between dollar signs replaced
/// by its value; a dollar sign that begins no known token stands for itself.
pub open spec fn expanded_from(
    s: Seq<char>,
    i: int,
    number: int,
    time: int,
    bandwidth: Seq<char>,
    representation_id: Seq<char>,
) -> Seq<char>
    decreases s.len() - i,
{
    if i < 0 || i >= s.len() {
        Seq::empty()
    } else {
        let end = text::first_of(s, "$"@, i + 1);
        let value = if s[i] == '$' && i < end < s.len() {
            token_value(s.subrange(i + 1, end), number, time, bandwidth, representation_id)
        } else {
            None
        };
        match value {
            Some(v) => v + expanded_from(
                s,
                end + 1,
                number,
                time,
                bandwidth,
                representation_id,
            ),
            None => seq![s[i]] + expanded_from(
                s,
                i + 1,
                number,
                time,
                bandwidth,
                representation_id,
            ),
        }
    }
}

/// A template with its tokens replaced; `$$` stands for one dollar sign. While
/// tokens are replaced, a NUL character holds the place of `$$`.
pub open spec fn expanded(
    template: Seq<char>,
    number: int,
    time: int,
    bandwidth: Seq<char>,
    representation_id: Seq<char>,
) -> Seq<char> {
    let guarded = text::replace(template, "$$"@, "\0"@);
    text::replace(
        expanded_from(guarded, 0, number, time, bandwidth, representation_id),
        "\0"@,
        "$"@,
    )
}

fn padded_number(value: i64, width: usize) -> (r: Vec<char>)
    ensures
        r@ == padded_dec(value as int, width as nat),
{
    if value < 0 {
        let m: u64 = if value == i64::MIN {
            0x8000_0000_0000_0000
        } else {
            (-value) as u64
        };
        let digits = write_radix(m, 10);
        let w: usize = if width > 0 {
            width - 1
        } else {
            0
        };
        let body = pad_zeros(digits.as_slice(), w);
        let mut out: Vec<char> = Vec::new();
        out.push('-');
        push_chars(&mut out, body.as_slice());
        assert(out@ =~= padded_dec(value as int, width as nat));
        out
    } else {
        let digits = write_radix(value as u64, 10);
        pad_zeros(digits.as_slice(), width)
    }
}

fn hex_number(value: i64, width: usize) -> (r: Vec<char>)
    ensures
        r@ == padded_hex(value as int, width as nat),
{
    let n: u64 = if value < 0 {
        (value as i128 + 0x1_0000_0000_0000_0000) as u64
    } else {
        value as u64
    };
    let digits = write_radix(n, 16);
    pad_zeros(digits.as_slice(), width)
}

/// Writes a number in the format of a template token.
pub fn format_digit(value: i64, fmt: &[char]) -> (r: Vec<char>)
    ensures
        r@ == formatted(value as int, fmt@),
{
    let n: usize = fmt.len();
    let mut hex: bool = false;
    let mut cut: bool = false;
    if n > 0 {
        let last: char = fmt[n - 1];
        if last == 'd' || last == 'D' {
            cut = true;
        } else if last == 'x' || last == 'X' {
            cut = true;
            hex = true;
        }
    }
    let digits = if cut {
        let d = slice_subrange(fmt, 0, n - 1);
        assert(d@ =~= fmt@.drop_last());
        d
    } else {
        fmt
    };
    let width: usize = match parse_upto(digits, usize::MAX as u64) {
        Some(w) => w as usize,
        None => 0,
    };
    if hex {
        hex_number(value, width)
    } else {
        padded_number(value, width)
    }
}

/// The value of a token, where it is a known one.
pub fn expand_token(
    token: &[char],
    number: i64,
    time: i64,
    bandwidth: &str,
    representation_id: &str,
) -> (r: Option<Vec<char>>)
    ensures
        match r {
            Some(v) => token_value(
                token@,
                number as int,
                time as int,
                bandwidth@,
                representation_id@,
            ) == Some(v@),
            None => token_value(
                token@,
                number as int,
                time as int,
                bandwidth@,
                representation_id@,
            ) is None,
        },
{
    if is(token, "Number") {
        return Some(dec_i64(number));
    }
    if let Some(fmt) = strip_prefix(token, "Number%0") {
        return Some(format_digit(number, fmt));
    }
    if is(token, "Time") {
        return Some(dec_i64(time));
    }
    if let Some(fmt) = strip_prefix(token, "Time%0") {
        return Some(format_digit(time, fmt));
    }
    if is(token, "RepresentationID") {
        return Some(chars_of(representation_id));
    }
    if is(token, "Bandwidth") {
        return Some(chars_of(bandwidth));
    }
    None
}

/// Replaces the tokens of a template.
pub fn expand_template(
    template: &str,
    number: i64,
    time: i64,
    bandwidth: &str,
    representation_id: &str,
) -> (r: String)
    ensures
        r@ == expanded(template@, number as int, time as int, bandwidth@, representation_id@),
{
    proof {
        reveal_strlit("$$");
        reveal_strlit("\0");
    }
    let t = chars_of(template);
    let guarded = replaced(t.as_slice(), "$$", "\0");
    let s = guarded.as_slice();
    let mut out: Vec<char> = Vec::new();
    let mut i: usize = 0;
    let ghost whole = expanded_from(
        s@,
        0,
        number as int,
        time as int,
        bandwidth@,
        representation_id@,
    );
    assert(out@ + whole =~= whole);
    while i < s.len()
        invariant
            i <= s.len(),
            out@ + expanded_from(
                s@,
                i as int,
                number as int,
                time as int,
                bandwidth@,
                representation_id@,
            ) == whole,
        decreases s.len() - i,
    {
        let ghost before = out@;
        let ghost here = i as int;
        let mut step: Option<(Vec<char>, usize)> = None;
        let end: usize = first_of_from(s, "$", i + 1);
        if s[i] == '$' && end < s.len() {
            let token = slice_subrange(s, i + 1, end);
            if let Some(v) = expand_token(token, number, time, bandwidth, representation_id) {
                step = Some((v, end + 1));
            }
        }
        match step {
            Some((v, next)) => {
                push_chars(&mut out, v.as_slice());
                i = next;
            },
            None => {
                out.push(s[i]);
                i += 1;
            },
        }
        assert(out@ + expanded_from(
            s@,
            i as int,
            number as int,
            time as int,
            bandwidth@,
            representation_id@,
        ) =~= before + expanded_from(
            s@,
            here,
            number as int,
            time as int,
            bandwidth@,
            representation_id@,
        ));
    }
    assert(out@ =~= whole);
    let plain = replaced(out.as_slice(), "\0", "$");
    string_of(plain.as_slice())
}

proof fn lemma_no_occurrence(s: Seq<char>, what: Seq<char>, by: Seq<char>)
    requires
        what.len() > 0,
        !s.contains(what[0]),
    ensures
        text::replace(s, what, by) == s,
{
    text::lemma_find(s, what, 0);
    let i = text::find(s, what, 0);
    if i >= 0 {
        assert(s.subrange(i, i + what.len())[0] == s[i]);
        assert(s.contains(s[i]));
    }
    assert(s.skip(0) =~= s);
}

proof fn lemma_no_tokens(
    s: Seq<char>,
    i: int,
    number: int,
    time: int,
    bandwidth: Seq<char>,
    representation_id: Seq<char>,
)
    requires
        0 <= i <= s.len(),
        !s.contains('$'),
    ensures
        expanded_from(s, i, number, time, bandwidth, representation_id) == s.skip(i),
    decreases s.len() - i,
{
    if i < s.len() {
        assert(s.contains(s[i]));
        lemma_no_tokens(s, i + 1, number, time, bandwidth, representation_id);
        assert(seq![s[i]] + s.skip(i + 1) =~= s.skip(i));
    } else {
        assert(s.skip(i) =~= Seq::empty());
    }
}

/// A template without dollar signs (and without NUL characters) stands for
/// itself, whatever the number, time, bandwidth and representation.
pub proof fn plain_templates_stand_for_themselves(
    template: Seq<char>,
    number: int,
    time: int,
    bandwidth: Seq<char>,
    representation_id: Seq<char>,
)
    requires
        !template.contains('$'),
        !template.contains('\0'),
    ensures
        expanded(template, number, time, bandwidth, representation_id) == template,
{
    reveal_strlit("$$");
    reveal_strlit("\0");
    lemma_no_occurrence(template, "$$"@, "\0"@);
    lemma_no_tokens(template, 0, number, time, bandwidth, representation_id);
    assert(template.skip(0) =~= template);
    lemma_no_occurrence(template, "\0"@, "$"@);
}

} // verus!
