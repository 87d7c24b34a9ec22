//! Laws of torrents: which files are wished for, what they are called, and what
//! is shown of a transfer.
use vstd::prelude::*;

use crate::cookies;
use crate::number;
use crate::paths;
use crate::text;
use crate::torrent;
use crate::torrent_run;

verus! {

// ---------------------------------------------------------------------------
// Wishes
// ---------------------------------------------------------------------------

/// Numbers in decimal with commas between them.
pub open spec fn number_list(ns: Seq<nat>) -> Seq<char>
    decreases ns.len(),
{
    if ns.len() == 0 {
        Seq::empty()
    } else if ns.len() == 1 {
        number::dec(ns[0])
    } else {
        number_list(ns.drop_last()).push(',') + number::dec(ns.last())
    }
}

proof fn lemma_list_pieces(ns: Seq<nat>)
    requires
        ns.len() > 0,
    ensures
        text::split(number_list(ns), ","@) == ns.map_values(|n: nat| number::dec(n)),
        number_list(ns).len() > 0,
        text::is_digit(number_list(ns)[0]),
        text::is_digit(number_list(ns).last()),
    decreases ns.len(),
{
    reveal_strlit(",");
    assert(","@[0] == ',' && ","@.len() == 1);
    let d = number::dec(ns.last());
    number::lemma_dec_digits(ns.last());
    assert(text::free_of(d, ","@)) by {
        assert forall|i: int| 0 <= i < d.len() implies !","@.contains(#[trigger] d[i]) by {
            assert(text::is_digit(d[i]));
        }
    }
    assert(text::is_digit(d[0]));
    assert(text::is_digit(d[d.len() - 1]));
    if ns.len() == 1 {
        assert(ns.last() == ns[0]);
        text::lemma_split_one(d, ","@);
        assert(ns.map_values(|n: nat| number::dec(n)) =~= seq![d]);
    } else {
        let front = ns.drop_last();
        lemma_list_pieces(front);
        text::lemma_split_push(number_list(front), ',', d, ","@);
        assert(ns.map_values(|n: nat| number::dec(n)) =~= front.map_values(
            |n: nat| number::dec(n),
        ).push(d));
        let s = number_list(ns);
        assert(s[0] == number_list(front)[0]);
        assert(s.last() == d.last());
    }
}

proof fn lemma_numbers_read(ns: Seq<nat>)
    requires
        forall|i: int| 0 <= i < ns.len() ==> #[trigger] ns[i] <= usize::MAX,
    ensures
        torrent::numbers_in(ns.map_values(|n: nat| number::dec(n))) == ns,
    decreases ns.len(),
{
    let pieces = ns.map_values(|n: nat| number::dec(n));
    if ns.len() > 0 {
        let front = ns.drop_last();
        assert forall|i: int| 0 <= i < front.len() implies #[trigger] front[i] <= usize::MAX by {
            assert(front[i] == ns[i]);
        }
        lemma_numbers_read(front);
        assert(pieces.drop_last() =~= front.map_values(|n: nat| number::dec(n)));
        let d = number::dec(ns.last());
        number::lemma_dec_digits(ns.last());
        assert(text::is_digit(d[0]) && text::is_digit(d[d.len() - 1]));
        assert(text::trim(d) == d);
        assert(ns[ns.len() - 1] <= usize::MAX);
        number::written_number_reads_back(ns.last(), usize::MAX as nat);
        assert(front.push(ns.last()) =~= ns);
    }
}

/// A wish for files is their numbers with commas between them: exactly these
/// files are fetched, in that order. Without a wish all of them are.
pub proof fn wished_files_are_fetched(ns: Seq<nat>)
    requires
        ns.len() > 0,
        forall|i: int| 0 <= i < ns.len() ==> #[trigger] ns[i] <= usize::MAX,
    ensures
        torrent::selection(Some(number_list(ns))) == Some(ns),
        torrent::selection(None) is None,
        torrent::selection(Some(Seq::empty())) is None,
{
    lemma_list_pieces(ns);
    lemma_numbers_read(ns);
    assert(text::trim(number_list(ns)) == number_list(ns));
    let none = Seq::<char>::empty();
    assert(text::trim(none) == none);
    text::lemma_split_one(none, ","@);
    assert(seq![none].drop_last() =~= Seq::<Seq<char>>::empty());
    assert(number::parsed_nat(none, usize::MAX as nat) is None);
    reveal_with_fuel(torrent::numbers_in, 2);
    assert(torrent::numbers_in(seq![none]).len() == 0);
}

proof fn lemma_file_kept(folder: Seq<char>, names: Seq<Seq<char>>, only: Option<Seq<usize>>, i: int)
    requires
        0 <= i < names.len(),
        torrent::is_chosen(only, i),
    ensures
        torrent::files_of(folder, names, only).contains(paths::join(folder, names[i])),
    decreases names.len(),
{
    let all = torrent::files_of(folder, names, only);
    let front = torrent::files_of(folder, names.drop_last(), only);
    if i == names.len() - 1 {
        assert(all[front.len() as int] == paths::join(folder, names[i]));
    } else {
        lemma_file_kept(folder, names.drop_last(), only, i);
        let k = choose|k: int| 0 <= k < front.len() && front[k] == paths::join(folder, names[i]);
        assert(all[k] == front[k]);
    }
}

/// Every file that was wished for is among the files of a torrent, below its
/// folder.
pub proof fn chosen_files_are_named(
    folder: Seq<char>,
    names: Seq<Seq<char>>,
    wish: Seq<usize>,
    i: usize,
)
    requires
        i < names.len(),
    ensures
        wish.contains(i) ==> torrent::files_of(folder, names, Some(wish)).contains(
            paths::join(folder, names[i as int]),
        ),
        torrent::files_of(folder, names, None).contains(paths::join(folder, names[i as int])),
{
    if wish.contains(i) {
        lemma_file_kept(folder, names, Some(wish), i as int);
    }
    lemma_file_kept(folder, names, None, i as int);
}

/// No file is among them that was not wished for.
pub proof fn only_chosen_files_are_named(
    folder: Seq<char>,
    names: Seq<Seq<char>>,
    wish: Seq<usize>,
    k: int,
)
    requires
        0 <= k < torrent::files_of(folder, names, Some(wish)).len(),
    ensures
        exists|i: int|
            0 <= i < names.len() && i <= usize::MAX && wish.contains(i as usize)
                && torrent::files_of(folder, names, Some(wish))[k] == paths::join(
                folder,
                #[trigger] names[i],
            ),
    decreases names.len(),
{
    let front = torrent::files_of(folder, names.drop_last(), Some(wish));
    if k < front.len() {
        only_chosen_files_are_named(folder, names.drop_last(), wish, k);
        let i = choose|i: int|
            0 <= i < names.len() - 1 && i <= usize::MAX && wish.contains(i as usize) && front[k]
                == paths::join(folder, #[trigger] names.drop_last()[i]);
        assert(names[i] == names.drop_last()[i]);
    } else {
        assert(names[names.len() - 1] == names.last());
    }
}

// ---------------------------------------------------------------------------
// What is shown
// ---------------------------------------------------------------------------

/// The time that is left is what is missing divided by the speed, rounded down;
/// nothing is said where nothing moves or nothing is missing.
pub proof fn remaining_times_are_estimates(speed: u64, total: u64, done: u64)
    ensures
        speed > 0 && total > done ==> (torrent::eta(speed, total, done) matches Some(t) && t * speed
            <= total - done < (t + 1) * speed),
        speed == 0 || total <= done ==> torrent::eta(speed, total, done) is None,
{
    if speed > 0 && total > done {
        let left = total - done;
        let s = speed as int;
        let q = left / s;
        assert(q * s <= left < (q + 1) * s && 0 <= q <= left) by (nonlinear_arith)
            requires
                q == left / s,
                s > 0,
                left >= 0,
        ;
    }
}

/// A limit in kilobytes is as many bytes times 1024, as far as the number goes;
/// none and zero are no limit.
pub proof fn limits_are_kilobytes(kbps: u32)
    ensures
        torrent::limit_of(None) is None,
        torrent::limit_of(Some(0)) is None,
        0 < kbps <= 4_194_303 ==> torrent::limit_of(Some(kbps)) == Some((1024 * kbps) as u32),
        kbps > 4_194_303 ==> torrent::limit_of(Some(kbps)) == Some(u32::MAX),
{
}

/// The size of a torrent is the sum of the sizes of its files.
pub proof fn sizes_add_up(a: Seq<(String, u64)>, b: Seq<(String, u64)>)
    ensures
        torrent::total_size(a + b) == torrent::total_size(a) + torrent::total_size(b),
        b.len() == 1 ==> torrent::total_size(b) == b[0].1,
    decreases b.len(),
{
    if b.len() == 0 {
        assert(a + b =~= a);
    } else {
        sizes_add_up(a, b.drop_last());
        assert((a + b).drop_last() =~= a + b.drop_last());
        assert((a + b).last() == b.last());
        if b.len() == 1 {
            assert(torrent::total_size(b.drop_last()) == 0);
        }
    }
}

/// A running torrent seeds once it is finished and downloads before; one that
/// is being prepared waits for what it consists of, or checks it; a paused one
/// is paused, and anything else is an error.
pub proof fn states_are_shown(raw: Seq<char>, total: u64, finished: bool)
    ensures
        torrent::shown_state("live"@, total, true) == "seeding"@,
        torrent::shown_state("live"@, total, false) == "downloading"@,
        torrent::shown_state("paused"@, total, finished) == "paused"@,
        torrent::shown_state("initializing"@, 0, finished) == "metadata"@,
        total > 0 ==> torrent::shown_state("initializing"@, total, finished) == "verifying"@,
        raw != "live"@ && raw != "paused"@ && raw != "initializing"@ ==> torrent::shown_state(
            raw,
            total,
            finished,
        ) == "error"@,
{
    reveal_strlit("live");
    reveal_strlit("paused");
    reveal_strlit("initializing");
    assert("live"@.len() == 4 && "paused"@.len() == 6 && "initializing"@.len() == 12);
}

/// A magnet is called what it says, unless that is blank.
pub proof fn magnets_are_called_what_they_say(rest: Seq<char>, name: Seq<char>)
    ensures
        text::trim(name).len() > 0 ==> torrent::title_of("magnet:"@ + rest, Some(name)) == name,
        text::trim(name).len() == 0 ==> torrent::title_of("magnet:"@ + rest, Some(name))
            == torrent::title_of("magnet:"@ + rest, None),
{
    reveal_strlit("magnet:");
    let s = "magnet:"@ + rest;
    assert(s.take("magnet:"@.len() as int) =~= "magnet:"@);
}

/// A folder is called like its torrent where the name is safe already, and not
/// too long.
pub proof fn safe_names_stay(name: Seq<char>)
    requires
        torrent::all_safe(name),
        0 < name.len() <= 120,
        !text::is_space(name[0]) && !text::is_space(name.last()),
        name[0] != '.' && name.last() != '.',
    ensures
        torrent::folder_name(name) == name,
{
    reveal_strlit(".");
    assert("."@.len() == 1 && "."@[0] == '.');
    assert forall|i: int| 0 <= i < name.len() implies torrent::cleaned(name)[i] == name[i] by {
        assert(!torrent::is_unsafe(name[i]));
    }
    assert(torrent::cleaned(name) =~= name);
    assert(text::trim(name) == name);
    assert(!"."@.contains(name[0]));
    assert(!"."@.contains(name.last()));
    assert(text::trim_set(name, "."@) == name);
}

// ---------------------------------------------------------------------------
// Magnets
// ---------------------------------------------------------------------------

proof fn lemma_ascii_len(s: Seq<char>)
    requires
        forall|i: int| 0 <= i < s.len() ==> (#[trigger] s[i] as u32) < 0x80,
    ensures
        cookies::byte_len(s) == s.len(),
    decreases s.len(),
{
    if s.len() > 0 {
        let f = s.drop_last();
        assert forall|i: int| 0 <= i < f.len() implies (#[trigger] f[i] as u32) < 0x80 by {
            assert(f[i] == s[i]);
        }
        lemma_ascii_len(f);
        assert((s[s.len() - 1] as u32) < 0x80);
    }
}

/// A magnet names its torrent by forty hexadecimal digits or by thirty-two
/// symbols of base32; any other number of hexadecimal digits is refused.
pub proof fn hashes_are_told_by_their_length(hash: Seq<char>)
    ensures
        number::all_hex(hash) && hash.len() == 40 ==> torrent::topic_fate("urn:btih:"@ + hash)
            == torrent::HashFate::Taken,
        number::all_hex(hash) && hash.len() != 40 && hash.len() != 32 ==> torrent::topic_fate(
            "urn:btih:"@ + hash,
        ) == torrent::HashFate::Refused,
        number::all_hex(hash) && hash.len() == 64 ==> torrent::topic_fate("urn:btmh:1220"@ + hash)
            == torrent::HashFate::Taken,
        (forall|i: int| 0 <= i < hash.len() ==> torrent::symbol(#[trigger] hash[i]) is Some)
            && hash.len() == 32 ==> torrent::topic_fate("urn:btih:"@ + hash)
            == torrent::HashFate::Taken,
{
    reveal_strlit("urn:btih:");
    reveal_strlit("urn:btmh:1220");
    let a = "urn:btih:"@ + hash;
    let b = "urn:btmh:1220"@ + hash;
    assert(a.take(9) =~= "urn:btih:"@);
    assert(a.skip(9) =~= hash);
    assert(b.take(13) =~= "urn:btmh:1220"@);
    assert(b.skip(13) =~= hash);
    assert(b.take(9)[6] == 'm' && "urn:btih:"@[6] == 'i');
    if number::all_hex(hash) {
        assert forall|i: int| 0 <= i < hash.len() implies (#[trigger] hash[i] as u32) < 0x80 by {
            assert(number::hex_digit(hash[i]) is Some);
        }
        lemma_ascii_len(hash);
    }
    if (forall|i: int| 0 <= i < hash.len() ==> torrent::symbol(#[trigger] hash[i]) is Some)
        && hash.len() == 32 {
        assert forall|i: int| 0 <= i < hash.len() implies (#[trigger] hash[i] as u32) < 0x80 by {
            assert(torrent::symbol(hash[i]) is Some);
        }
        lemma_ascii_len(hash);
        lemma_blocks(hash, 4);
    }
}

proof fn lemma_blocks(hash: Seq<char>, blocks: nat)
    requires
        8 * blocks <= hash.len(),
        forall|i: int| 0 <= i < hash.len() ==> torrent::symbol(#[trigger] hash[i]) is Some,
    ensures
        torrent::decoded_len(hash, blocks) == Some(5 * blocks),
    decreases blocks,
{
    if blocks > 0 {
        lemma_blocks(hash, (blocks - 1) as nat);
        assert(torrent::block_of(hash, 8 * (blocks - 1), 8, 1));
    }
}

/// A range of files names every file from the first to the last.
pub proof fn ranges_name_their_files(a: nat, b: nat)
    requires
        a <= u64::MAX,
        b <= u64::MAX,
    ensures
        a <= b ==> torrent::range_len(number::dec(a) + "-"@ + number::dec(b)) == b - a + 1,
        a > b ==> torrent::range_len(number::dec(a) + "-"@ + number::dec(b)) == 0,
{
    reveal_strlit("-");
    assert("-"@.len() == 1 && "-"@[0] == '-');
    let x = number::dec(a);
    let y = number::dec(b);
    number::lemma_dec_digits(a);
    number::lemma_dec_digits(b);
    number::written_number_reads_back(a, u64::MAX as nat);
    number::written_number_reads_back(b, u64::MAX as nat);
    let s = x + "-"@ + y;
    assert(s =~= x + ("-"@ + y));
    assert(text::free_of(x, "-"@)) by {
        assert forall|i: int| 0 <= i < x.len() implies !"-"@.contains(#[trigger] x[i]) by {
            assert(text::is_digit(x[i]));
        }
    }
    assert(("-"@ + y)[0] == '-');
    text::lemma_first_behind(x, "-"@ + y, "-"@);
    assert(s.take(x.len() as int) =~= x);
    assert(s.skip(x.len() as int + 1) =~= y);
}

/// Magnets and files of torrents are claimed, and nothing else.
pub proof fn torrents_are_claimed(rest: Seq<char>, path: Seq<char>)
    requires
        text::free_of(path, "?#"@),
        !text::has_prefix(path + ".torrent"@, "magnet:"@),
    ensures
        torrent::claim("magnet:"@ + rest) == crate::backend::Confidence::Certain,
        torrent::claim(path + ".torrent"@) == crate::backend::Confidence::Strong,
        torrent::is_remote("magnet:"@ + rest),
        torrent::is_remote("https://"@ + rest),
        torrent::is_remote("http://"@ + rest),
{
    reveal_strlit("magnet:");
    reveal_strlit("https://");
    reveal_strlit("http://");
    reveal_strlit(".torrent");
    reveal_strlit("?#");
    let m = "magnet:"@ + rest;
    let h = "https://"@ + rest;
    let g = "http://"@ + rest;
    assert(m.take(7) =~= "magnet:"@);
    assert(h.take(8) =~= "https://"@);
    assert(g.take(7) =~= "http://"@);
    let f = path + ".torrent"@;
    assert(text::free_of(f, "?#"@)) by {
        assert forall|i: int| 0 <= i < f.len() implies !"?#"@.contains(#[trigger] f[i]) by {
            if i < path.len() {
                assert(f[i] == path[i]);
            } else {
                assert(f[i] == ".torrent"@[i - path.len()]);
            }
        }
    }
    text::lemma_first_behind(f, Seq::empty(), "?#"@);
    assert(f + Seq::<char>::empty() =~= f);
    assert(f.take(f.len() as int) =~= f);
    let l = text::lower(f);
    assert(l.skip(l.len() - 8) =~= ".torrent"@);
}

/// A torrent goes to the folder of its name, in the directory for torrents where
/// there is one.
pub proof fn torrents_have_a_folder(dir: Seq<char>, dest: Seq<char>, name: Seq<char>)
    requires
        torrent::all_safe(name),
        0 < name.len() <= 120,
        !text::is_space(name[0]) && !text::is_space(name.last()),
        name[0] != '.' && name.last() != '.',
    ensures
        torrent::folder_of(Some(dir), dest, name) == paths::join(dir, name),
        torrent::folder_of(None, dest, name) == paths::join(dest, name),
{
    safe_names_stay(name);
}

// ---------------------------------------------------------------------------
// Runs
// ---------------------------------------------------------------------------

/// A torrent that was added waits for what it consists of until that is known,
/// then for its files, and then is finished; an error ends it at any point.
pub proof fn torrents_take_their_steps(e: String, error: Seq<char>, total: u64)
    ensures
        torrent_run::after_add(torrent_run::Added::Running) == torrent_run::StepView::AwaitMetadata,
        torrent_run::after_add(torrent_run::Added::Refused(e)) == torrent_run::StepView::Failed(e@),
        torrent_run::after_add(torrent_run::Added::NoHandle) is Failed,
        torrent_run::after_add(torrent_run::Added::TimedOut(e)) is Failed,
        torrent_run::after_look(None, 0) == torrent_run::StepView::AwaitMetadata,
        total > 0 ==> torrent_run::after_look(None, total) == torrent_run::StepView::AwaitFiles,
        torrent_run::after_look(Some(error), total) == torrent_run::StepView::Failed(error),
        torrent_run::after_files(None) == torrent_run::StepView::Finished,
        torrent_run::after_files(Some(error)) is Failed,
{
}

} // verus!
