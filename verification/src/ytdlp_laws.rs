//! Laws of what yt-dlp is asked for and of what it offers.

use vstd::prelude::*;

use crate::json::JsonView;
use crate::quality::QualityView;
use crate::ytdlp;
use crate::ytdlp_info;
use crate::ytdlp_info::Tall;

verus! {

// ---------------------------------------------------------------------------
// What is asked for
// ---------------------------------------------------------------------------

/// Whether an argument follows another one.
pub open spec fn follows(args: Seq<Seq<char>>, flag: Seq<char>, value: Seq<char>) -> bool {
    exists|i: int| 0 <= i && i + 1 < args.len() && #[trigger] args[i] == flag && args[i + 1] == value
}

proof fn lemma_flags()
    ensures
        "-f"@ != "--no-warnings"@ && "-f"@ != "--newline"@ && "-f"@ != "--progress"@ && "-f"@
            != "-i"@ && "-f"@ != "--no-playlist"@ && "-f"@ != "--no-part"@ && "-f"@
            != "--force-overwrites"@ && "-f"@ != "--merge-output-format"@ && "-f"@ != "mp4"@ && "-f"@
            != "-o"@,
{
    reveal_strlit("-f");
    reveal_strlit("--no-warnings");
    reveal_strlit("--newline");
    reveal_strlit("--progress");
    reveal_strlit("-i");
    reveal_strlit("--no-playlist");
    reveal_strlit("--no-part");
    reveal_strlit("--force-overwrites");
    reveal_strlit("--merge-output-format");
    reveal_strlit("mp4");
    reveal_strlit("-o");
    assert("-f"@.len() == 2 && "-f"@[1] == 'f');
    assert("-i"@[1] == 'i');
    assert("-o"@[1] == 'o');
    assert("mp4"@.len() == 3);
}

/// A chosen quality is asked for as it was chosen: the argument behind the flag for the
/// format is the choice itself, and the best quality is asked for only without a choice.
pub proof fn chosen_qualities_are_asked_for(quality: Option<Seq<char>>, output: Seq<char>)
    ensures
        ({
            let args = ytdlp::download_head(ytdlp::selector_of(quality), output);
            let wanted = match quality {
                Some(q) => q,
                None => "bv*+ba/b"@,
            };
            &&& follows(args, "-f"@, wanted)
            &&& follows(args, "-o"@, output)
            &&& output != "-f"@ && wanted != "-f"@ ==> forall|value: Seq<char>|
                follows(args, "-f"@, value) ==> value == wanted
        }),
{
    let args = ytdlp::download_head(ytdlp::selector_of(quality), output);
    let wanted = match quality {
        Some(q) => q,
        None => "bv*+ba/b"@,
    };
    lemma_flags();
    assert(args[7] == "-f"@ && args[8] == wanted);
    assert(args[11] == "-o"@ && args[12] == output);
    if output != "-f"@ && wanted != "-f"@ {
        assert forall|value: Seq<char>| follows(args, "-f"@, value) implies value == wanted by {
            let i = choose|i: int|
                0 <= i && i + 1 < args.len() && #[trigger] args[i] == "-f"@ && args[i + 1] == value;
            assert(i == 7);
        }
    }
}

/// Two different choices are asked for with different arguments.
pub proof fn choices_are_told_apart(a: Seq<char>, b: Seq<char>, output: Seq<char>)
    requires
        ytdlp::download_head(ytdlp::selector_of(Some(a)), output) == ytdlp::download_head(
            ytdlp::selector_of(Some(b)),
            output,
        ),
    ensures
        a == b,
{
    assert(ytdlp::download_head(ytdlp::selector_of(Some(a)), output)[8] == a);
    assert(ytdlp::download_head(ytdlp::selector_of(Some(b)), output)[8] == b);
}

/// A cookie file and a browser to take cookies from are named, and neither where there is
/// none.
pub proof fn cookies_are_handed_over(browser: Option<Seq<char>>, file: Option<Seq<char>>)
    ensures
        browser matches Some(b) ==> follows(
            ytdlp::cookie_args(browser, file),
            "--cookies-from-browser"@,
            b,
        ),
        file matches Some(f) ==> follows(ytdlp::cookie_args(browser, file), "--cookies"@, f),
        browser is None && file is None ==> ytdlp::cookie_args(browser, file).len() == 0,
{
    let args = ytdlp::cookie_args(browser, file);
    if browser is Some {
        assert(args[0] == "--cookies-from-browser"@);
        if file is Some {
            assert(args[2] == "--cookies"@);
        }
    } else if file is Some {
        assert(args[0] == "--cookies"@);
    }
}

// ---------------------------------------------------------------------------
// What is offered
// ---------------------------------------------------------------------------

/// Whether a format names a codec for a kind of track.
pub open spec fn carries(f: JsonView, key: Seq<char>) -> bool {
    f.text_at(key) is Some && f.text_at(key) != Some("none"@)
}

/// The audio that goes with videos is an audio format without video, and none of those has
/// a greater bandwidth. There is one wherever a format is audio only.
pub proof fn the_best_audio_is_taken(s: Seq<JsonView>, i: int)
    requires
        0 <= i < s.len(),
        carries(s[i], "acodec"@),
        !carries(s[i], "vcodec"@),
    ensures
        ({
            let k = ytdlp_info::best_audio(s);
            &&& 0 <= k < s.len()
            &&& carries(s[k], "acodec"@) && !carries(s[k], "vcodec"@)
            &&& ytdlp_info::bandwidth(s[i]) <= ytdlp_info::bandwidth(s[k])
        }),
    decreases s.len(),
{
    lemma_audio(s);
}

proof fn lemma_audio(s: Seq<JsonView>)
    ensures
        ({
            let k = ytdlp_info::best_audio(s);
            &&& -1 <= k < s.len()
            &&& k >= 0 ==> carries(s[k], "acodec"@) && !carries(s[k], "vcodec"@)
            &&& forall|i: int|
                0 <= i < s.len() && carries(#[trigger] s[i], "acodec"@) && !carries(
                    s[i],
                    "vcodec"@,
                ) ==> k >= 0 && ytdlp_info::bandwidth(s[i]) <= ytdlp_info::bandwidth(s[k])
        }),
    decreases s.len(),
{
    if s.len() > 0 {
        let d = s.drop_last();
        lemma_audio(d);
        let k = ytdlp_info::best_audio(s);
        assert forall|i: int|
            0 <= i < s.len() && carries(#[trigger] s[i], "acodec"@) && !carries(
                s[i],
                "vcodec"@,
            ) implies k >= 0 && ytdlp_info::bandwidth(s[i]) <= ytdlp_info::bandwidth(s[k]) by {
            if i < d.len() {
                assert(d[i] == s[i]);
            }
        }
    }
}

/// Whether a format is a video without audio that can be fetched.
pub open spec fn is_silent_video(f: JsonView) -> bool {
    carries(f, "vcodec"@) && !carries(f, "acodec"@) && f.text_at("url"@) is Some
}

/// Whether heights only rise.
pub open spec fn rising(t: Seq<Tall>) -> bool {
    forall|a: int, b: int|
        0 <= a < b < t.len() ==> (#[trigger] t[a]).height < (#[trigger] t[b]).height
}

/// Whether a list has a format of a height with at least a bandwidth.
pub open spec fn reaches(t: Seq<Tall>, height: u64, bandwidth: nat) -> bool {
    exists|a: int|
        0 <= a < t.len() && (#[trigger] t[a]).height == height && bandwidth
            <= ytdlp_info::bandwidth(t[a].format)
}

proof fn lemma_with_tall(t: Seq<Tall>, new: Tall, height: u64, bandwidth: nat)
    requires
        rising(t),
    ensures
        ({
            let r = ytdlp_info::with_tall(t, new);
            &&& rising(r)
            &&& reaches(r, new.height, ytdlp_info::bandwidth(new.format))
            &&& reaches(t, height, bandwidth) ==> reaches(r, height, bandwidth)
            &&& forall|a: int| 0 <= a < r.len() ==> #[trigger] r[a] == new || t.contains(r[a])
        }),
{
    let r = ytdlp_info::with_tall(t, new);
    let k = ytdlp_info::place_from(t, new.height, 0);
    lemma_place(t, new.height, 0);
    if k < t.len() && t[k].height == new.height {
        assert(r[k].height == new.height);
        assert forall|a: int| 0 <= a < r.len() implies #[trigger] r[a] == new || t.contains(r[a]) by {
            if r[a] != new {
                assert(t[a] == r[a]);
            }
        }
        if reaches(t, height, bandwidth) {
            let a = choose|a: int|
                0 <= a < t.len() && (#[trigger] t[a]).height == height && bandwidth
                    <= ytdlp_info::bandwidth(t[a].format);
            assert(r[a].height == t[a].height);
        }
    } else {
        assert(r == t.insert(k, new));
        assert(r[k] == new);
        assert forall|a: int| 0 <= a < r.len() implies #[trigger] r[a] == new || t.contains(r[a]) by {
            if a < k {
                assert(r[a] == t[a]);
            } else if a > k {
                assert(r[a] == t[a - 1]);
            }
        }
        assert forall|a: int, b: int| 0 <= a < b < r.len() implies (#[trigger] r[a]).height < (
        #[trigger] r[b]).height by {
            if a < k {
                assert(r[a] == t[a]);
                if b < k {
                    assert(r[b] == t[b]);
                } else if b > k {
                    assert(r[b] == t[b - 1]);
                }
            } else {
                assert(r[b] == t[b - 1]);
                if a > k {
                    assert(r[a] == t[a - 1]);
                } else if b - 1 > k {
                    assert(t[k].height < t[b - 1].height);
                }
            }
        }
        if reaches(t, height, bandwidth) {
            let a = choose|a: int|
                0 <= a < t.len() && (#[trigger] t[a]).height == height && bandwidth
                    <= ytdlp_info::bandwidth(t[a].format);
            if a < k {
                assert(r[a] == t[a]);
            } else {
                assert(r[a + 1] == t[a]);
            }
        }
    }
}

proof fn lemma_tall(s: Seq<JsonView>, i: int)
    requires
        0 <= i < s.len() && is_silent_video(s[i]) || i == -1,
    ensures
        ({
            let t = ytdlp_info::tallest(s);
            &&& rising(t)
            &&& forall|a: int|
                0 <= a < t.len() ==> is_silent_video((#[trigger] t[a]).format) && s.contains(
                    t[a].format,
                ) && t[a].height == ytdlp_info::height_of(t[a].format)
            &&& i >= 0 ==> reaches(t, ytdlp_info::height_of(s[i]), ytdlp_info::bandwidth(s[i]))
        }),
    decreases s.len(),
{
    if s.len() > 0 {
        let d = s.drop_last();
        let old_t = ytdlp_info::tallest(d);
        let t = ytdlp_info::tallest(s);
        let f = s.last();
        if i < d.len() {
            lemma_tall(d, i);
        } else {
            lemma_tall(d, -1);
        }
        assert(s[s.len() - 1] == f);
        assert forall|a: int| 0 <= a < old_t.len() implies s.contains(
            (#[trigger] old_t[a]).format,
        ) by {
            let k = choose|k: int| 0 <= k < d.len() && d[k] == old_t[a].format;
            assert(s[k] == old_t[a].format);
        }
        if is_silent_video(f) {
            let new = Tall { height: ytdlp_info::height_of(f), format: f };
            let (h, b) = if i >= 0 {
                (ytdlp_info::height_of(s[i]), ytdlp_info::bandwidth(s[i]))
            } else {
                (0, 0)
            };
            lemma_with_tall(old_t, new, h, b);
            assert forall|a: int| 0 <= a < t.len() implies is_silent_video(
                (#[trigger] t[a]).format,
            ) && s.contains(t[a].format) && t[a].height == ytdlp_info::height_of(t[a].format) by {
                if t[a] != new {
                    let k = choose|k: int| 0 <= k < old_t.len() && old_t[k] == t[a];
                    assert(is_silent_video(old_t[k].format));
                }
            }
        }
    }
}

proof fn lemma_place(s: Seq<Tall>, h: u64, i: int)
    requires
        0 <= i <= s.len(),
    ensures
        ({
            let k = ytdlp_info::place_from(s, h, i);
            &&& i <= k <= s.len()
            &&& k < s.len() ==> s[k].height >= h
            &&& forall|a: int| i <= a < k ==> (#[trigger] s[a]).height < h
        }),
    decreases s.len() - i,
{
    if i < s.len() && s[i].height < h {
        lemma_place(s, h, i + 1);
    }
}

/// Of the videos without audio one is offered for each height, the one with the greatest
/// bandwidth of that height.
pub proof fn one_video_for_each_height(s: Seq<JsonView>, i: int)
    requires
        0 <= i < s.len(),
        is_silent_video(s[i]),
    ensures
        ({
            let t = ytdlp_info::tallest(s);
            &&& exists|a: int|
                0 <= a < t.len() && (#[trigger] t[a]).height == ytdlp_info::height_of(s[i])
                    && s.contains(t[a].format) && is_silent_video(t[a].format)
                    && ytdlp_info::bandwidth(s[i]) <= ytdlp_info::bandwidth(t[a].format)
            &&& forall|a: int, b: int|
                0 <= a < b < t.len() ==> (#[trigger] t[a]).height != (#[trigger] t[b]).height
        }),
{
    lemma_tall(s, i);
    let t = ytdlp_info::tallest(s);
    let a = choose|a: int|
        0 <= a < t.len() && (#[trigger] t[a]).height == ytdlp_info::height_of(s[i])
            && ytdlp_info::bandwidth(s[i]) <= ytdlp_info::bandwidth(t[a].format);
    assert(s.contains(t[a].format) && is_silent_video(t[a].format));
}

/// Videos without audio are offered from the highest down, and each is asked for together
/// with the audio, where there is one.
pub proof fn higher_videos_come_first(t: Seq<Tall>, audio: Seq<char>, i: int)
    requires
        0 <= i < t.len(),
    ensures
        ({
            let o = ytdlp_info::tall_options(t, audio);
            let f = t[t.len() - 1 - i].format;
            &&& o.len() == t.len()
            &&& o[i].resolution == ytdlp_info::resolution(f)
            &&& o[i].bandwidth == ytdlp_info::bandwidth(f) as u64
            &&& f.text_at("format_id"@) matches Some(id) ==> o[i].variant_key == (if audio.len()
                == 0 {
                id
            } else {
                id + seq!['+'] + audio
            })
        }),
    decreases t.len(),
{
    let o = ytdlp_info::tall_options(t, audio);
    reveal_strlit("+");
    assert("+"@ =~= seq!['+']);
    lemma_options_len(t.drop_last(), audio);
    if i > 0 {
        higher_videos_come_first(t.drop_last(), audio, i - 1);
        assert(o[i] == ytdlp_info::tall_options(t.drop_last(), audio)[i - 1]);
        assert(t.drop_last()[t.len() - 1 - i] == t[t.len() - 1 - i]);
    }
}

proof fn lemma_options_len(t: Seq<Tall>, audio: Seq<char>)
    ensures
        ytdlp_info::tall_options(t, audio).len() == t.len(),
    decreases t.len(),
{
    if t.len() > 0 {
        lemma_options_len(t.drop_last(), audio);
    }
}

/// Whether an option with a key is offered.
pub open spec fn offered(o: Seq<QualityView>, key: Seq<char>) -> bool {
    exists|i: int| 0 <= i < o.len() && (#[trigger] o[i]).variant_key == key
}

proof fn lemma_unrepeated(o: Seq<QualityView>, key: Seq<char>)
    ensures
        offered(ytdlp_info::unrepeated(o), key) == offered(o, key),
        o.len() > 0 ==> ytdlp_info::unrepeated(o).len() > 0
            && ytdlp_info::unrepeated(o).last().variant_key == o.last().variant_key,
    decreases o.len(),
{
    if o.len() > 0 {
        let d = o.drop_last();
        lemma_unrepeated(d, key);
        let rest = ytdlp_info::unrepeated(d);
        let all = ytdlp_info::unrepeated(o);
        if offered(d, key) {
            let i = choose|i: int| 0 <= i < d.len() && (#[trigger] d[i]).variant_key == key;
            assert(o[i].variant_key == key);
        }
        if offered(rest, key) {
            let i = choose|i: int| 0 <= i < rest.len() && (#[trigger] rest[i]).variant_key == key;
            assert(all[i].variant_key == key);
        }
        if offered(o, key) && !offered(d, key) {
            let i = choose|i: int| 0 <= i < o.len() && (#[trigger] o[i]).variant_key == key;
            if i < d.len() {
                assert(d[i].variant_key == key);
            }
            assert(all.last().variant_key == key);
            assert(all[all.len() - 1].variant_key == key);
        }
        if offered(all, key) && !offered(rest, key) {
            let i = choose|i: int| 0 <= i < all.len() && (#[trigger] all[i]).variant_key == key;
            if i < rest.len() {
                assert(rest[i].variant_key == key);
            }
            assert(o[o.len() - 1].variant_key == key);
        }
        if !offered(o, key) {
            if offered(all, key) {
                let i = choose|i: int| 0 <= i < all.len() && (#[trigger] all[i]).variant_key == key;
                if i < rest.len() {
                    assert(rest[i].variant_key == key);
                } else {
                    assert(o[o.len() - 1].variant_key == key);
                }
            }
        }
    } else {
        if offered(ytdlp_info::unrepeated(o), key) {
            assert(false);
        }
    }
}

proof fn lemma_whole(s: Seq<JsonView>, i: int)
    requires
        0 <= i < s.len(),
        carries(s[i], "vcodec"@),
        carries(s[i], "acodec"@),
        s[i].text_at("url"@) is Some,
    ensures
        offered(ytdlp_info::whole_options(s), ytdlp_info::id_of(s[i])),
    decreases s.len(),
{
    let o = ytdlp_info::whole_options(s);
    if i < s.len() - 1 {
        lemma_whole(s.drop_last(), i);
        let rest = ytdlp_info::whole_options(s.drop_last());
        let k = choose|k: int|
            0 <= k < rest.len() && (#[trigger] rest[k]).variant_key == ytdlp_info::id_of(s[i]);
        assert(o[k].variant_key == ytdlp_info::id_of(s[i]));
    } else {
        assert(o[o.len() - 1].variant_key == ytdlp_info::id_of(s[i]));
    }
}

proof fn lemma_sum(a: Seq<QualityView>, b: Seq<QualityView>, key: Seq<char>)
    ensures
        offered(a + b, key) == (offered(a, key) || offered(b, key)),
{
    if offered(a, key) {
        let i = choose|i: int| 0 <= i < a.len() && (#[trigger] a[i]).variant_key == key;
        assert((a + b)[i].variant_key == key);
    }
    if offered(b, key) {
        let i = choose|i: int| 0 <= i < b.len() && (#[trigger] b[i]).variant_key == key;
        assert((a + b)[a.len() + i].variant_key == key);
    }
    if offered(a + b, key) {
        let i = choose|i: int| 0 <= i < (a + b).len() && (#[trigger] (a + b)[i]).variant_key == key;
        if i < a.len() {
            assert(a[i].variant_key == key);
        } else {
            assert(b[i - a.len()].variant_key == key);
        }
    }
}

/// Every format with picture and sound that can be fetched is offered under its own key, and
/// so is the best audio alone.
pub proof fn whole_formats_are_offered(s: Seq<JsonView>, i: int, id: Seq<char>)
    requires
        0 <= i < s.len(),
        s[i].text_at("format_id"@) == Some(id),
        (carries(s[i], "vcodec"@) && carries(s[i], "acodec"@) && s[i].text_at("url"@) is Some)
            || ytdlp_info::best_audio(s) == i,
    ensures
        offered(ytdlp_info::options_of(s), id),
{
    let k = ytdlp_info::best_audio(s);
    let audio = if k >= 0 {
        ytdlp_info::id_of(s[k])
    } else {
        Seq::empty()
    };
    let last = if k >= 0 {
        seq![ytdlp_info::audio_option(s[k])]
    } else {
        Seq::empty()
    };
    let a = ytdlp_info::whole_options(s);
    let b = ytdlp_info::tall_options(ytdlp_info::tallest(s), audio);
    lemma_sum(a, b, id);
    lemma_sum(a + b, last, id);
    lemma_unrepeated(a + b + last, id);
    if k == i {
        assert(last[0].variant_key == id);
    } else {
        lemma_whole(s, i);
    }
}

/// Every video without audio is offered in its height together with the best audio, or in
/// a better format of that height.
pub proof fn silent_videos_are_offered_with_audio(s: Seq<JsonView>, i: int)
    requires
        0 <= i < s.len(),
        is_silent_video(s[i]),
    ensures
        exists|f: JsonView|
            #![trigger ytdlp_info::height_of(f)]
            s.contains(f) && is_silent_video(f) && ytdlp_info::height_of(f)
                == ytdlp_info::height_of(s[i]) && ytdlp_info::bandwidth(s[i])
                <= ytdlp_info::bandwidth(f) && offered(
                ytdlp_info::options_of(s),
                if ytdlp_info::best_audio(s) >= 0 && ytdlp_info::id_of(
                    s[ytdlp_info::best_audio(s)],
                ).len() > 0 {
                    ytdlp_info::id_of(f) + seq!['+'] + ytdlp_info::id_of(
                        s[ytdlp_info::best_audio(s)],
                    )
                } else {
                    ytdlp_info::id_of(f)
                },
            ),
{
    one_video_for_each_height(s, i);
    let t = ytdlp_info::tallest(s);
    let a = choose|a: int|
        0 <= a < t.len() && (#[trigger] t[a]).height == ytdlp_info::height_of(s[i]) && s.contains(
            t[a].format,
        ) && is_silent_video(t[a].format) && ytdlp_info::bandwidth(s[i])
            <= ytdlp_info::bandwidth(t[a].format);
    lemma_tall(s, i);
    let f = t[a].format;
    let k = ytdlp_info::best_audio(s);
    let audio = if k >= 0 {
        ytdlp_info::id_of(s[k])
    } else {
        Seq::empty()
    };
    let last = if k >= 0 {
        seq![ytdlp_info::audio_option(s[k])]
    } else {
        Seq::empty()
    };
    let key = ytdlp_info::joined_key(ytdlp_info::id_of(f), audio);
    reveal_strlit("+");
    assert("+"@ =~= seq!['+']);
    let x = ytdlp_info::whole_options(s);
    let y = ytdlp_info::tall_options(t, audio);
    lemma_tall_key(t, audio, a);
    lemma_sum(x, y, key);
    lemma_sum(x + y, last, key);
    lemma_unrepeated(x + y + last, key);
    assert(ytdlp_info::height_of(f) == ytdlp_info::height_of(s[i]));
}

proof fn lemma_tall_key(t: Seq<Tall>, audio: Seq<char>, a: int)
    requires
        0 <= a < t.len(),
    ensures
        offered(
            ytdlp_info::tall_options(t, audio),
            ytdlp_info::joined_key(ytdlp_info::id_of(t[a].format), audio),
        ),
    decreases t.len(),
{
    let o = ytdlp_info::tall_options(t, audio);
    let key = ytdlp_info::joined_key(ytdlp_info::id_of(t[a].format), audio);
    if a == t.len() - 1 {
        assert(o[0].variant_key == key);
    } else {
        lemma_tall_key(t.drop_last(), audio, a);
        let rest = ytdlp_info::tall_options(t.drop_last(), audio);
        let i = choose|i: int| 0 <= i < rest.len() && (#[trigger] rest[i]).variant_key == key;
        assert(o[i + 1].variant_key == key);
    }
}

/// The thumbnail of a list is an entry with an address, and none of those has a larger
/// area.
pub proof fn the_largest_thumbnail_is_taken(s: Seq<JsonView>, i: int)
    requires
        0 <= i < s.len(),
        s[i].text_at("url"@) is Some,
    ensures
        ytdlp_info::largest(s) matches Some(best) && ytdlp_info::area_of(s[i]) <= best.0 && exists|
            k: int,
        |
            0 <= k < s.len() && (#[trigger] s[k]).text_at("url"@) == Some(best.1)
                && ytdlp_info::area_of(s[k]) == best.0,
    decreases s.len(),
{
    lemma_largest(s);
    let best = ytdlp_info::largest(s)->0;
}

proof fn lemma_largest(s: Seq<JsonView>)
    ensures
        ({
            let r = ytdlp_info::largest(s);
            &&& r matches Some(best) ==> exists|k: int|
                0 <= k < s.len() && (#[trigger] s[k]).text_at("url"@) == Some(best.1)
                    && ytdlp_info::area_of(s[k]) == best.0
            &&& forall|i: int|
                0 <= i < s.len() && (#[trigger] s[i]).text_at("url"@) is Some ==> r is Some
                    && ytdlp_info::area_of(s[i]) <= (r->0).0
        }),
    decreases s.len(),
{
    if s.len() > 0 {
        let d = s.drop_last();
        lemma_largest(d);
        let r = ytdlp_info::largest(s);
        if let Some(best) = ytdlp_info::largest(d) {
            let k = choose|k: int|
                0 <= k < d.len() && (#[trigger] d[k]).text_at("url"@) == Some(best.1)
                    && ytdlp_info::area_of(d[k]) == best.0;
            assert(s[k] == d[k]);
        }
        assert(s[s.len() - 1] == s.last());
        assert forall|i: int| 0 <= i < s.len() && (#[trigger] s[i]).text_at(
            "url"@,
        ) is Some implies r is Some && ytdlp_info::area_of(s[i]) <= (r->0).0 by {
            if i < d.len() {
                assert(d[i] == s[i]);
            }
        }
    }
}

} // verus!
