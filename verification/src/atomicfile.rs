//! Files that are replaced as a whole: written beside the old one, then put in its
//! place.

use vstd::prelude::*;

use crate::number;
use crate::number::dec_string;
use crate::paths;
use crate::paths::{change_extension, get_extension};
use crate::text::{cat2, cat3};

verus! {

/// The extension of the file that is written: the old one, and what sets apart the
/// process and the write.
pub open spec fn temporary_extension(ext: Option<Seq<char>>, process: nat, write: nat) -> Seq<char> {
    (match ext {
        Some(e) => e + "."@,
        None => Seq::empty(),
    }) + "tmp-"@ + number::dec(process) + "-"@ + number::dec(write)
}

/// Where a file is written before it takes the place of the one at a path.
pub fn temporary_path(path: &str, process: u32, write: u64) -> (r: String)
    ensures
        r@ == paths::with_extension(
            path@,
            temporary_extension(paths::extension(path@), process as nat, write as nat),
        ),
{
    let front = match get_extension(path) {
        Some(e) => cat2(e.as_str(), "."),
        None => {
            let none = String::new();
            assert(none@ =~= Seq::empty());
            none
        },
    };
    let p = dec_string(process as u64);
    let w = dec_string(write);
    let start = cat3(front.as_str(), "tmp-", p.as_str());
    let ext = cat3(start.as_str(), "-", w.as_str());
    change_extension(path, ext.as_str())
}

/// Two writes of a process go to different files, where the path has a file name.
pub proof fn writes_are_kept_apart(path: Seq<char>, process: nat, a: nat, b: nat)
    requires
        paths::file_name(path) is Some,
        a != b,
    ensures
        paths::with_extension(path, temporary_extension(paths::extension(path), process, a))
            != paths::with_extension(path, temporary_extension(paths::extension(path), process, b)),
{
    let ext = paths::extension(path);
    let front = (match ext {
        Some(e) => e + "."@,
        None => Seq::empty(),
    }) + "tmp-"@ + number::dec(process) + "-"@;
    let x = temporary_extension(ext, process, a);
    let y = temporary_extension(ext, process, b);
    assert(x =~= front + number::dec(a));
    assert(y =~= front + number::dec(b));
    reveal_strlit("-");
    assert(front.len() > 0);
    let name = paths::file_name(path)->0;
    let start = paths::trimmed_path(path).len() - name.len();
    let kept = path.take(start + paths::stem_of(name).len()) + "."@;
    let p = paths::with_extension(path, x);
    let q = paths::with_extension(path, y);
    if p == q {
        assert(p.skip((kept + front).len() as int) =~= number::dec(a));
        assert(q.skip((kept + front).len() as int) =~= number::dec(b));
        number::decimal_is_injective(a, b);
    }
}

} // verus!
