//! Where an exported file is written.
use vstd::prelude::*;

use crate::links::{is_under, path_view};

verus! {

/// The path that the file at `file` is written to, where the export starts at
/// `start_at` and writes to `dest`: below `dest` as it lies below `start_at`.
/// Where `start_at` is the file itself, it is written inside `dest` under its
/// own name if `dest` is a directory, and as `dest` otherwise.
pub open spec fn destination_of(
    file: Seq<Seq<char>>,
    start_at: Seq<Seq<char>>,
    dest: Seq<Seq<char>>,
    dest_is_dir: bool,
) -> Seq<Seq<char>> {
    if file.len() == start_at.len() {
        if dest_is_dir && file.len() > 0 {
            dest.push(file.last())
        } else {
            dest
        }
    } else {
        dest + file.skip(start_at.len() as int)
    }
}

/// The path that the file at `file`, which lies under `start_at`, is written
/// to when the export of `start_at` writes to `dest`.
pub fn destination_for(file: &Vec<String>, start_at: &Vec<String>, dest: &Vec<String>, dest_is_dir: bool) -> (r: Vec<String>)
    requires
        is_under(path_view(*file), path_view(*start_at)),
    ensures
        path_view(r) == destination_of(path_view(*file), path_view(*start_at), path_view(*dest), dest_is_dir),
{
    let mut out: Vec<String> = Vec::new();
    let mut i: usize = 0;
    while i < dest.len()
        invariant
            0 <= i <= dest@.len(),
            out@.len() == i,
            forall|j: int| 0 <= j < i ==> (#[trigger] out@[j])@ == dest@[j]@,
        decreases dest@.len() - i,
    {
        out.push(dest[i].clone());
        i = i + 1;
    }
    assert(path_view(out) =~= path_view(*dest));
    if file.len() == start_at.len() {
        if dest_is_dir && file.len() > 0 {
            out.push(file[file.len() - 1].clone());
            assert(path_view(out) =~= path_view(*dest).push(path_view(*file).last()));
        }
        return out;
    }
    let ghost base = path_view(out);
    let mut k: usize = start_at.len();
    while k < file.len()
        invariant
            start_at@.len() <= k <= file@.len(),
            out@.len() == base.len() + (k - start_at@.len()),
            forall|j: int| 0 <= j < base.len() ==> (#[trigger] out@[j])@ == base[j],
            forall|j: int| base.len() <= j < out@.len() ==> (#[trigger] out@[j])@ == file@[j - base.len() + start_at@.len()]@,
        decreases file@.len() - k,
    {
        out.push(file[k].clone());
        k = k + 1;
    }
    assert(path_view(out) =~= base + path_view(*file).skip(start_at@.len() as int));
    out
}

} // verus!
