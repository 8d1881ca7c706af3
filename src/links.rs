//! Link targets: how a raw target is taken apart, how files are keyed in the
//! vault index, and which of several matching files a link resolves to.
use vstd::prelude::*;

use crate::encoding::{percent_encode, percent_encoded};
use crate::order::{
    lemma_path_before_irreflexive, lemma_path_before_total, lemma_path_before_transitive, path_before, path_less,
};

verus! {

/// The position of the first `c` in `s`, or the length of `s` where there is
/// none.
pub open spec fn first_index_of(s: Seq<char>, c: char) -> int {
    if exists|i: int| 0 <= i < s.len() && s[i] == c {
        choose|i: int| 0 <= i < s.len() && s[i] == c && forall|j: int| 0 <= j < i ==> s[j] != c
    } else {
        s.len() as int
    }
}

/// A raw link target taken apart: `Name#Section|Label`.
#[derive(Debug)]
pub struct LinkTarget {
    /// The note or file linked to.
    pub name: String,
    /// The heading or block within it, after `#`.
    pub section: Option<String>,
    /// The text to show, after `|`.
    pub label: Option<String>,
}

pub open spec fn opt_view(o: Option<String>) -> Option<Seq<char>> {
    match o {
        Some(s) => Some(s@),
        None => None,
    }
}

/// The parts of the target `s`: the label follows the first `|`; the section
/// follows the first `#` before it; the name is what comes before both.
pub open spec fn target_parts(s: Seq<char>) -> (Seq<char>, Option<Seq<char>>, Option<Seq<char>>) {
    let bar = first_index_of(s, '|');
    let head = s.subrange(0, bar);
    let hash = first_index_of(head, '#');
    (
        s.subrange(0, hash),
        if hash < bar { Some(s.subrange(hash + 1, bar)) } else { None },
        if bar < s.len() { Some(s.subrange(bar + 1, s.len() as int)) } else { None },
    )
}

/// The first `c` in `s` is at `r`.
proof fn lemma_first_index_of(s: Seq<char>, c: char, r: int)
    requires
        0 <= r <= s.len(),
        forall|j: int| 0 <= j < r ==> s[j] != c,
        r < s.len() ==> s[r] == c,
    ensures
        first_index_of(s, c) == r,
{
    if r < s.len() {
        assert(s[r] == c);
        let k = choose|k: int| 0 <= k < s.len() && s[k] == c && forall|j: int| 0 <= j < k ==> s[j] != c;
        assert(!(k < r));
        assert(!(k > r));
    } else {
        assert(!(exists|j: int| 0 <= j < s.len() && s[j] == c));
    }
}

/// The position of the first `c` among the first `end` characters of `s`, or
/// `end` where there is none.
fn find_char(s: &str, end: usize, c: char) -> (r: usize)
    requires
        end <= s@.len(),
    ensures
        r <= end,
        r as int == first_index_of(s@.subrange(0, end as int), c),
{
    let ghost h = s@.subrange(0, end as int);
    let mut i: usize = 0;
    while i < end
        invariant
            end <= s@.len(),
            h == s@.subrange(0, end as int),
            0 <= i <= end,
            forall|j: int| 0 <= j < i ==> h[j] != c,
        decreases end - i,
    {
        if s.get_char(i) == c {
            proof {
                lemma_first_index_of(h, c, i as int);
            }
            return i;
        }
        i = i + 1;
    }
    proof {
        lemma_first_index_of(h, c, end as int);
    }
    end
}

/// Takes the raw target of a link or embed apart into its name, its section
/// and its label.
pub fn parse_link_target(target: &str) -> (r: LinkTarget)
    ensures
        (r.name@, opt_view(r.section), opt_view(r.label)) == target_parts(target@),
{
    let n = target.unicode_len();
    let bar = find_char(target, n, '|');
    let hash = find_char(target, bar, '#');
    let name = String::from_str(target.substring_char(0, hash));
    let section = if hash < bar {
        Some(String::from_str(target.substring_char(hash + 1, bar)))
    } else {
        None
    };
    let label = if bar < n {
        Some(String::from_str(target.substring_char(bar + 1, n)))
    } else {
        None
    };
    proof {
        assert(target@.subrange(0, n as int) =~= target@);
    }
    LinkTarget { name, section, label }
}

/// The file extension of notes.
pub open spec fn note_extension() -> Seq<char> {
    seq!['.', 'm', 'd']
}

/// The key under which a file named `file_name` is found: a note's name
/// without its extension, any other file's name as it is.
pub open spec fn lookup_key(file_name: Seq<char>) -> Seq<char> {
    if file_name.len() >= 3 && file_name.subrange(file_name.len() - 3, file_name.len() as int) == note_extension() {
        file_name.subrange(0, file_name.len() - 3)
    } else {
        file_name
    }
}

/// The key under which the file named `file_name` is found by links.
pub fn file_key(file_name: &str) -> (r: String)
    ensures
        r@ == lookup_key(file_name@),
{
    let n = file_name.unicode_len();
    if n >= 3 && file_name.get_char(n - 3) == '.' && file_name.get_char(n - 2) == 'm' && file_name.get_char(n - 1) == 'd' {
        assert(file_name@.subrange(n - 3, n as int) =~= note_extension());
        String::from_str(file_name.substring_char(0, n - 3))
    } else {
        proof {
            if n >= 3 {
                let t = file_name@.subrange(n - 3, n as int);
                if t == note_extension() {
                    assert(t[0] == '.' && t[1] == 'm' && t[2] == 'd');
                }
            }
        }
        String::from_str(file_name)
    }
}

/// The number of leading components that `a` and `b` share.
pub open spec fn common_prefix_len(a: Seq<Seq<char>>, b: Seq<Seq<char>>) -> nat
    decreases a.len(),
{
    if a.len() == 0 || b.len() == 0 || a[0] != b[0] {
        0
    } else {
        1 + common_prefix_len(a.drop_first(), b.drop_first())
    }
}

/// The directories that lead to the file at `p`, given as its components.
pub open spec fn dirs_of(p: Seq<Seq<char>>) -> Seq<Seq<char>> {
    if p.len() > 0 {
        p.subrange(0, p.len() - 1)
    } else {
        p
    }
}

/// How near the file at `candidate` is to the note at `referrer`: the number
/// of directories their paths share from the vault root down.
pub open spec fn nearness(referrer: Seq<Seq<char>>, candidate: Seq<Seq<char>>) -> nat {
    common_prefix_len(dirs_of(referrer), dirs_of(candidate))
}

pub open spec fn path_view(p: Vec<String>) -> Seq<Seq<char>> {
    p@.map_values(|c: String| c@)
}

proof fn lemma_common_prefix_step(a: Seq<Seq<char>>, b: Seq<Seq<char>>, i: int)
    requires
        0 <= i < a.len(),
        i < b.len(),
        a[i] == b[i],
    ensures
        common_prefix_len(a.skip(i), b.skip(i)) == 1 + common_prefix_len(a.skip(i + 1), b.skip(i + 1)),
{
    assert(a.skip(i).drop_first() =~= a.skip(i + 1));
    assert(b.skip(i).drop_first() =~= b.skip(i + 1));
}

/// The number of directories that the paths `a` and `b` share.
fn shared_dirs(a: &Vec<String>, b: &Vec<String>) -> (r: usize)
    ensures
        r == common_prefix_len(dirs_of(path_view(*a)), dirs_of(path_view(*b))),
{
    let ghost da = dirs_of(path_view(*a));
    let ghost db = dirs_of(path_view(*b));
    let na: usize = if a.len() > 0 { a.len() - 1 } else { 0 };
    let nb: usize = if b.len() > 0 { b.len() - 1 } else { 0 };
    let mut i: usize = 0;
    assert(da.skip(0) =~= da);
    assert(db.skip(0) =~= db);
    while i < na && i < nb && a[i] == b[i]
        invariant
            na == da.len(),
            nb == db.len(),
            na <= a@.len(),
            nb <= b@.len(),
            forall|k: int| 0 <= k < na ==> #[trigger] da[k] == a@[k]@,
            forall|k: int| 0 <= k < nb ==> #[trigger] db[k] == b@[k]@,
            0 <= i <= na,
            i <= nb,
            common_prefix_len(da, db) == i + common_prefix_len(da.skip(i as int), db.skip(i as int)),
        decreases na - i,
    {
        proof {
            assert(da[i as int] == db[i as int]);
            lemma_common_prefix_step(da, db, i as int);
        }
        i = i + 1;
    }
    proof {
        if i < na && i < nb {
            assert(da.skip(i as int)[0] != db.skip(i as int)[0]);
        }
    }
    i
}

/// Whether `candidates[i]` is the one that a link from the note at `referrer`
/// resolves to: none shares more directories with the note; among those that
/// share as many, none comes before it in path order, and each earlier one
/// comes after it.
pub open spec fn best_candidate(referrer: Seq<Seq<char>>, candidates: Seq<Seq<Seq<char>>>, i: int) -> bool {
    &&& 0 <= i < candidates.len()
    &&& forall|j: int| 0 <= j < candidates.len() ==>
        nearness(referrer, #[trigger] candidates[j]) <= nearness(referrer, candidates[i])
    &&& forall|j: int| 0 <= j < candidates.len() && nearness(referrer, #[trigger] candidates[j]) == nearness(referrer, candidates[i])
        ==> !path_before(candidates[j], candidates[i])
    &&& forall|j: int| 0 <= j < i && nearness(referrer, #[trigger] candidates[j]) == nearness(referrer, candidates[i])
        ==> path_before(candidates[i], candidates[j])
}

pub open spec fn paths_view(ps: Seq<Vec<String>>) -> Seq<Seq<Seq<char>>> {
    ps.map_values(|p: Vec<String>| path_view(p))
}

/// The candidate that a link from the note at `referrer` resolves to: the one
/// that shares the most directories with it and, among those that share as
/// many, the first in path order. `None` where there are no candidates.
pub fn choose_candidate(referrer: &Vec<String>, candidates: &Vec<Vec<String>>) -> (r: Option<usize>)
    ensures
        candidates@.len() == 0 <==> r is None,
        match r {
            Some(i) => best_candidate(path_view(*referrer), paths_view(candidates@), i as int),
            None => true,
        },
{
    if candidates.len() == 0 {
        return None;
    }
    let ghost rv = path_view(*referrer);
    let ghost cv = paths_view(candidates@);
    let mut best: usize = 0;
    let mut best_score = shared_dirs(referrer, &candidates[0]);
    assert(cv[0] == path_view(candidates@[0]));
    proof {
        lemma_path_before_irreflexive(cv[0]);
    }
    let mut j: usize = 1;
    while j < candidates.len()
        invariant
            rv == path_view(*referrer),
            cv == paths_view(candidates@),
            cv.len() == candidates@.len(),
            1 <= j <= candidates@.len(),
            best < j,
            best_score == nearness(rv, cv[best as int]),
            forall|k: int| 0 <= k < j ==> nearness(rv, #[trigger] cv[k]) <= best_score,
            forall|k: int| 0 <= k < j && nearness(rv, #[trigger] cv[k]) == best_score ==> !path_before(cv[k], cv[best as int]),
            forall|k: int| 0 <= k < best && nearness(rv, #[trigger] cv[k]) == best_score ==> path_before(cv[best as int], cv[k]),
        decreases candidates@.len() - j,
    {
        proof {
            lemma_path_before_irreflexive(cv[best as int]);
        }
        let score = shared_dirs(referrer, &candidates[j]);
        assert(cv[j as int] == path_view(candidates@[j as int]));
        if score > best_score || (score == best_score && path_less(&candidates[j], &candidates[best])) {
            proof {
                let nb = j as int;
                let ob = best as int;
                if score == best_score {
                    assert forall|k: int| 0 <= k < nb && nearness(rv, #[trigger] cv[k]) == score implies path_before(cv[nb], cv[k]) by {
                        if k == ob {
                        } else if k < ob {
                            lemma_path_before_transitive(cv[nb], cv[ob], cv[k]);
                        } else {
                            lemma_path_before_total(cv[k], cv[ob]);
                            if cv[k] != cv[ob] {
                                lemma_path_before_transitive(cv[nb], cv[ob], cv[k]);
                            }
                        }
                    }
                    assert forall|k: int| 0 <= k < nb + 1 && nearness(rv, #[trigger] cv[k]) == score implies !path_before(cv[k], cv[nb]) by {
                        lemma_path_before_irreflexive(cv[nb]);
                        if k < nb && path_before(cv[k], cv[nb]) {
                            assert(path_before(cv[nb], cv[k]));
                            lemma_path_before_transitive(cv[k], cv[nb], cv[k]);
                            lemma_path_before_irreflexive(cv[k]);
                        }
                    }
                } else {
                    lemma_path_before_irreflexive(cv[nb]);
                }
            }
            best = j;
            best_score = score;
        } else {
            proof {
                if score == best_score {
                    assert(!path_before(cv[j as int], cv[best as int]));
                }
            }
        }
        j = j + 1;
    }
    Some(best)
}

/// Whether the file at `p` is found under `key`: its name, or its path from
/// some directory down, with a note's extension left off.
pub open spec fn has_lookup_key(p: Seq<Seq<char>>, key: Seq<char>) -> bool {
    exists|j: int| 0 <= j < p.len() && #[trigger] lookup_key(joined(p.skip(j))) == key
}

/// The components of `p` from position `j` on.
fn components_from(p: &Vec<String>, j: usize) -> (r: Vec<String>)
    requires
        j <= p@.len(),
    ensures
        path_view(r) == path_view(*p).skip(j as int),
{
    let mut out: Vec<String> = Vec::new();
    let mut k: usize = j;
    while k < p.len()
        invariant
            j <= k <= p@.len(),
            out@.len() == k - j,
            forall|m: int| 0 <= m < out@.len() ==> (#[trigger] out@[m])@ == p@[m + j]@,
        decreases p@.len() - k,
    {
        out.push(p[k].clone());
        k = k + 1;
    }
    assert(path_view(out) =~= path_view(*p).skip(j as int));
    out
}

/// Whether a link to `key` from the note at `referrer` resolves to the file at
/// position `r` of `files`, or to no file where `r` is `None`.
pub open spec fn resolves_to(files: Seq<Vec<String>>, key: Seq<char>, referrer: Seq<Seq<char>>, r: Option<usize>) -> bool {
    match r {
        None => forall|i: int| 0 <= i < files.len() ==> !has_lookup_key(path_view(#[trigger] files[i]), key),
        Some(i) => {
            &&& i < files.len()
            &&& has_lookup_key(path_view(files[i as int]), key)
            &&& forall|j: int| 0 <= j < files.len() && has_lookup_key(path_view(#[trigger] files[j]), key) ==>
                nearness(referrer, path_view(files[j])) <= nearness(referrer, path_view(files[i as int]))
            &&& forall|j: int| 0 <= j < files.len() && has_lookup_key(path_view(#[trigger] files[j]), key)
                && nearness(referrer, path_view(files[j])) == nearness(referrer, path_view(files[i as int]))
                ==> !path_before(path_view(files[j]), path_view(files[i as int]))
            &&& forall|j: int| 0 <= j < i && has_lookup_key(path_view(#[trigger] files[j]), key)
                && nearness(referrer, path_view(files[j])) == nearness(referrer, path_view(files[i as int]))
                ==> path_before(path_view(files[i as int]), path_view(files[j]))
        },
    }
}

/// The file that a link to `key` from the note at `referrer` resolves to.
pub open spec fn resolution(files: Seq<Vec<String>>, key: Seq<char>, referrer: Seq<Seq<char>>) -> Option<usize> {
    choose|r: Option<usize>| resolves_to(files, key, referrer, r)
}

/// A link resolves to one file at most: the resolution is a function of the
/// files, the key and the referring note.
pub proof fn lemma_resolution_unique(files: Seq<Vec<String>>, key: Seq<char>, referrer: Seq<Seq<char>>, r: Option<usize>)
    requires
        resolves_to(files, key, referrer, r),
    ensures
        resolution(files, key, referrer) == r,
{
    let c = resolution(files, key, referrer);
    assert(resolves_to(files, key, referrer, c));
    match (r, c) {
        (Some(i), Some(j)) => {
            assert(has_lookup_key(path_view(files[i as int]), key));
            assert(has_lookup_key(path_view(files[j as int]), key));
            if i < j {
                assert(path_before(path_view(files[j as int]), path_view(files[i as int])));
            } else if j < i {
                assert(path_before(path_view(files[i as int]), path_view(files[j as int])));
            }
        },
        (Some(i), None) => {
            assert(has_lookup_key(path_view(files[i as int]), key));
        },
        (None, Some(j)) => {
            assert(has_lookup_key(path_view(files[j as int]), key));
        },
        (None, None) => {},
    }
}

/// Whether `i` is one of the positions in `r`.
pub open spec fn lists(r: Seq<usize>, i: int) -> bool {
    exists|k: int| 0 <= k < r.len() && r[k] as int == i
}

/// The files of a vault, each given as the components of its path below the
/// vault root, in the order the vault was walked.
#[derive(Debug)]
pub struct VaultIndex {
    pub files: Vec<Vec<String>>,
}

/// Whether the path `p` lies under `dir` (or is `dir`).
pub open spec fn is_under(p: Seq<Seq<char>>, dir: Seq<Seq<char>>) -> bool {
    dir.len() <= p.len() && p.subrange(0, dir.len() as int) == dir
}

/// Whether the path `p` lies under one of `ignored`.
pub open spec fn is_ignored(p: Seq<Seq<char>>, ignored: Seq<Seq<Seq<char>>>) -> bool {
    exists|k: int| 0 <= k < ignored.len() && is_under(p, #[trigger] ignored[k])
}

/// The files of `walked` that no entry of `ignored` covers, in order.
pub open spec fn retained(walked: Seq<Vec<String>>, ignored: Seq<Seq<Seq<char>>>) -> Seq<Vec<String>>
    decreases walked.len(),
{
    if walked.len() == 0 {
        Seq::empty()
    } else {
        let rest = retained(walked.drop_last(), ignored);
        if is_ignored(path_view(walked.last()), ignored) {
            rest
        } else {
            rest.push(walked.last())
        }
    }
}

/// Whether the path `p` lies under `dir`, checked one component at a time.
fn under(p: &Vec<String>, dir: &Vec<String>) -> (r: bool)
    ensures
        r == is_under(path_view(*p), path_view(*dir)),
{
    if dir.len() > p.len() {
        return false;
    }
    let mut i: usize = 0;
    while i < dir.len()
        invariant
            dir@.len() <= p@.len(),
            0 <= i <= dir@.len(),
            forall|j: int| 0 <= j < i ==> p@[j]@ == dir@[j]@,
        decreases dir@.len() - i,
    {
        if p[i] != dir[i] {
            proof {
                assert(path_view(*p).subrange(0, dir@.len() as int)[i as int] != path_view(*dir)[i as int]);
            }
            return false;
        }
        i = i + 1;
    }
    assert(path_view(*p).subrange(0, dir@.len() as int) =~= path_view(*dir));
    true
}

impl VaultIndex {
    pub fn new(files: Vec<Vec<String>>) -> (r: VaultIndex)
        ensures
            r.files == files,
    {
        VaultIndex { files }
    }

    /// The index of the files of a walk of the vault, in walk order, without
    /// those that lie under a path of `ignored`: lookups never see those.
    pub fn from_walk(walked: Vec<Vec<String>>, ignored: &Vec<Vec<String>>) -> (r: VaultIndex)
        ensures
            r.files@ == retained(walked@, ignored@.map_values(|d: Vec<String>| path_view(d))),
    {
        let ghost ign = ignored@.map_values(|d: Vec<String>| path_view(d));
        let ghost all = walked@;
        let mut rest = walked;
        let mut files: Vec<Vec<String>> = Vec::new();
        let ghost mut i: int = 0;
        while rest.len() > 0
            invariant
                ign == ignored@.map_values(|d: Vec<String>| path_view(d)),
                all.len() == i + rest@.len(),
                0 <= i <= all.len(),
                rest@ == all.subrange(i, all.len() as int),
                files@ == retained(all.subrange(0, i), ign),
            decreases rest@.len(),
        {
            let p = rest.remove(0);
            let mut skip = false;
            let mut k: usize = 0;
            while k < ignored.len()
                invariant
                    ign == ignored@.map_values(|d: Vec<String>| path_view(d)),
                    0 <= k <= ignored@.len(),
                    skip == exists|m: int| 0 <= m < k && is_under(path_view(p), #[trigger] ign[m]),
                decreases ignored@.len() - k,
            {
                proof {
                    assert(ign[k as int] == path_view(ignored@[k as int]));
                }
                if under(&p, &ignored[k]) {
                    skip = true;
                }
                proof {
                    if skip {
                        assert(exists|m: int| 0 <= m < k + 1 && is_under(path_view(p), #[trigger] ign[m]));
                    }
                }
                k = k + 1;
            }
            proof {
                assert(p == all[i]);
                assert(all.subrange(0, i + 1).drop_last() =~= all.subrange(0, i));
                assert(all.subrange(0, i + 1).last() == p);
                assert(skip == is_ignored(path_view(p), ign));
            }
            if !skip {
                files.push(p);
            }
            proof {
                i = i + 1;
                assert(rest@ =~= all.subrange(i, all.len() as int));
            }
        }
        proof {
            assert(all.subrange(0, i) =~= all);
        }
        VaultIndex { files }
    }

    /// Whether the file at position `i` is found under `key`: its name, or
    /// its path from some directory down, written as a link target is.
    fn matches_key(&self, i: usize, key: &String) -> (r: bool)
        requires
            i < self.files@.len(),
        ensures
            r == has_lookup_key(path_view(self.files@[i as int]), key@),
    {
        let p = &self.files[i];
        let ghost pv = path_view(*p);
        let mut j: usize = 0;
        while j < p.len()
            invariant
                i < self.files@.len(),
                pv == path_view(*p),
                pv == path_view(self.files@[i as int]),
                pv.len() == p@.len(),
                0 <= j <= p@.len(),
                forall|m: int| 0 <= m < j ==> #[trigger] lookup_key(joined(pv.skip(m))) != key@,
            decreases p@.len() - j,
        {
            let tail = components_from(p, j);
            let text = join_path(&tail);
            let k = file_key(text.as_str());
            if k == *key {
                assert(pv == path_view(self.files@[i as int]));
                assert(lookup_key(joined(pv.skip(j as int))) == key@);
                assert(has_lookup_key(pv, key@));
                return true;
            }
            j = j + 1;
        }
        assert(pv == path_view(self.files@[i as int]));
        false
    }

    /// The positions of the files found under `key`, in order.
    pub fn candidates(&self, key: &String) -> (r: Vec<usize>)
        ensures
            forall|k: int| 0 <= k < r@.len() ==> #[trigger] r@[k] < self.files@.len(),
            forall|k: int, l: int| 0 <= k < l < r@.len() ==> r@[k] < r@[l],
            forall|i: int| 0 <= i < self.files@.len() ==>
                (has_lookup_key(path_view(#[trigger] self.files@[i]), key@) <==> lists(r@, i)),
    {
        let mut r: Vec<usize> = Vec::new();
        let mut i: usize = 0;
        while i < self.files.len()
            invariant
                0 <= i <= self.files@.len(),
                forall|k: int| 0 <= k < r@.len() ==> #[trigger] r@[k] < i,
                forall|k: int, l: int| 0 <= k < l < r@.len() ==> r@[k] < r@[l],
                forall|m: int| 0 <= m < i ==>
                    (has_lookup_key(path_view(#[trigger] self.files@[m]), key@) <==> lists(r@, m)),
            decreases self.files@.len() - i,
        {
            if self.matches_key(i, key) {
                let ghost before = r@;
                r.push(i);
                proof {
                    assert(r@[before.len() as int] == i);
                    assert forall|m: int| 0 <= m < i implies
                        (has_lookup_key(path_view(#[trigger] self.files@[m]), key@) <==> lists(r@, m)) by {
                        if lists(before, m) {
                            let k = choose|k: int| 0 <= k < before.len() && before[k] as int == m;
                            assert(r@[k] as int == m);
                        }
                        if lists(r@, m) {
                            let k = choose|k: int| 0 <= k < r@.len() && r@[k] as int == m;
                            assert(k < before.len());
                            assert(before[k] as int == m);
                        }
                    }
                    assert(lists(r@, i as int));
                }
            } else {
                proof {
                    assert(!lists(r@, i as int));
                }
            }
            i = i + 1;
        }
        r
    }

    /// The file that a link to `key` from the note at `referrer` resolves to:
    /// among the files found under `key`, the one that shares the most
    /// directories with the note, the first in path order where several share
    /// as many. `None` where no file is found under `key`.
    pub fn resolve(&self, key: &String, referrer: &Vec<String>) -> (r: Option<usize>)
        ensures
            resolves_to(self.files@, key@, path_view(*referrer), r),
            r == resolution(self.files@, key@, path_view(*referrer)),
    {
        let found = self.candidates(key);
        let mut paths: Vec<Vec<String>> = Vec::new();
        let mut k: usize = 0;
        while k < found.len()
            invariant
                0 <= k <= found@.len(),
                paths@.len() == k,
                forall|m: int| 0 <= m < found@.len() ==> #[trigger] found@[m] < self.files@.len(),
                forall|m: int| 0 <= m < k ==> path_view(#[trigger] paths@[m]) == path_view(self.files@[found@[m] as int]),
            decreases found@.len() - k,
        {
            paths.push(self.files[found[k]].clone());
            proof {
                assert(path_view(paths@[k as int]) =~= path_view(self.files@[found@[k as int] as int]));
            }
            k = k + 1;
        }
        match choose_candidate(referrer, &paths) {
            None => {
                proof {
                    assert forall|i: int| 0 <= i < self.files@.len() implies
                        !has_lookup_key(path_view(#[trigger] self.files@[i]), key@) by {
                        if has_lookup_key(path_view(self.files@[i]), key@) {
                            assert(lists(found@, i));
                        }
                    }
                }
                proof {
                    lemma_resolution_unique(self.files@, key@, path_view(*referrer), None);
                }
                None
            },
            Some(c) => {
                let i = found[c];
                proof {
                    let rv = path_view(*referrer);
                    let cv = paths_view(paths@);
                    assert(i < self.files@.len());
                    assert(cv[c as int] == path_view(self.files@[i as int]));
                    assert forall|j: int| 0 <= j < self.files@.len()
                        && has_lookup_key(path_view(#[trigger] self.files@[j]), key@) implies
                        nearness(rv, path_view(self.files@[j])) <= nearness(rv, path_view(self.files@[i as int]))
                        && (nearness(rv, path_view(self.files@[j])) == nearness(rv, path_view(self.files@[i as int]))
                            ==> !path_before(path_view(self.files@[j]), path_view(self.files@[i as int])))
                        && (j < i && nearness(rv, path_view(self.files@[j])) == nearness(rv, path_view(self.files@[i as int]))
                            ==> path_before(path_view(self.files@[i as int]), path_view(self.files@[j]))) by {
                        assert(lists(found@, j));
                        let m = choose|m: int| 0 <= m < found@.len() && found@[m] as int == j;
                        assert(cv[m] == path_view(self.files@[j]));
                        if j < i {
                            if m >= c {
                                if m > c {
                                    assert(found@[c as int] < found@[m]);
                                }
                            }
                            assert(m < c);
                        }
                    }
                }
                proof {
                    assert(resolves_to(self.files@, key@, path_view(*referrer), Some(i)));
                    lemma_resolution_unique(self.files@, key@, path_view(*referrer), Some(i));
                }
                Some(i)
            },
        }
    }
}

/// The path made of `parts` joined by `/`.
pub open spec fn joined(parts: Seq<Seq<char>>) -> Seq<char>
    decreases parts.len(),
{
    if parts.len() == 0 {
        Seq::empty()
    } else if parts.len() == 1 {
        parts[0]
    } else {
        joined(parts.drop_last()) + seq!['/'] + parts.last()
    }
}

/// The path made of the components `parts`, joined by `/`.
pub fn join_path(parts: &Vec<String>) -> (r: String)
    ensures
        r@ == joined(path_view(*parts)),
{
    let ghost pv = path_view(*parts);
    let mut out = String::new();
    let mut i: usize = 0;
    while i < parts.len()
        invariant
            pv == path_view(*parts),
            0 <= i <= parts@.len(),
            out@ == joined(pv.subrange(0, i as int)),
        decreases parts@.len() - i,
    {
        proof {
            reveal_strlit("/");
            assert(pv.subrange(0, i + 1).drop_last() =~= pv.subrange(0, i as int));
        }
        if i > 0 {
            out.append("/");
        }
        out.append(parts[i].as_str());
        proof {
            if i == 0 {
                assert(out@ =~= joined(pv.subrange(0, 1)));
            } else {
                assert(out@ =~= joined(pv.subrange(0, i + 1)));
            }
        }
        i = i + 1;
    }
    assert(pv.subrange(0, parts@.len() as int) =~= pv);
    out
}

/// How links between notes are written in the exported files.
#[derive(Debug, Clone, Copy, PartialEq, Eq, Structural)]
pub enum LinkFormat {
    /// A path relative to the linking note, percent-encoded.
    Default,
    /// A static-site reference from the site root: `@/` and the file's path
    /// below the vault root.
    Zola,
}

/// The components of the relative path from the note at `from` to the file
/// at `to`: one `..` for each directory of `from` that `to` does not share,
/// then the rest of `to`.
pub open spec fn relative_parts(from: Seq<Seq<char>>, to: Seq<Seq<char>>) -> Seq<Seq<char>> {
    let c = common_prefix_len(dirs_of(from), dirs_of(to));
    Seq::new((dirs_of(from).len() - c) as nat, |i: int| seq!['.', '.']) + to.skip(c as int)
}

/// The reference written for a link from the note at `from` to the file at
/// `to`, to the section `section` where there is one.
pub open spec fn link_reference(
    from: Seq<Seq<char>>,
    to: Seq<Seq<char>>,
    section: Option<Seq<char>>,
    format: LinkFormat,
) -> Seq<char> {
    let base = match format {
        LinkFormat::Default => percent_encoded(joined(relative_parts(from, to))),
        LinkFormat::Zola => seq!['@', '/'] + joined(to),
    };
    match section {
        Some(s) => base + seq!['#'] + s,
        None => base,
    }
}

/// The shared leading components are no more than either sequence holds.
proof fn lemma_common_prefix_bound(a: Seq<Seq<char>>, b: Seq<Seq<char>>)
    ensures
        common_prefix_len(a, b) <= a.len(),
        common_prefix_len(a, b) <= b.len(),
    decreases a.len(),
{
    if a.len() == 0 || b.len() == 0 || a[0] != b[0] {
    } else {
        lemma_common_prefix_bound(a.drop_first(), b.drop_first());
    }
}

/// The reference written for a link from the note at `from` to the file at
/// `to`, to the section `section` where there is one.
pub fn render_link(from: &Vec<String>, to: &Vec<String>, section: Option<&str>, format: LinkFormat) -> (r: String)
    ensures
        r@ == link_reference(
            path_view(*from),
            path_view(*to),
            match section {
                Some(s) => Some(s@),
                None => None,
            },
            format,
        ),
{
    let mut out = match format {
        LinkFormat::Default => {
            let c = shared_dirs(from, to);
            let ghost fv = path_view(*from);
            let ghost tv = path_view(*to);
            proof {
                lemma_common_prefix_bound(dirs_of(fv), dirs_of(tv));
            }
            let up: usize = if from.len() > 0 { from.len() - 1 - c } else { 0 };
            let mut parts: Vec<String> = Vec::new();
            let mut k: usize = 0;
            while k < up
                invariant
                    0 <= k <= up,
                    parts@.len() == k,
                    forall|m: int| 0 <= m < k ==> (#[trigger] parts@[m])@ == seq!['.', '.'],
                decreases up - k,
            {
                let dots = String::from_str("..");
                proof {
                    reveal_strlit("..");
                }
                parts.push(dots);
                k = k + 1;
            }
            let mut m: usize = c;
            while m < to.len()
                invariant
                    c <= m <= to@.len(),
                    parts@.len() == up + (m - c),
                    forall|j: int| 0 <= j < up ==> (#[trigger] parts@[j])@ == seq!['.', '.'],
                    forall|j: int| up <= j < parts@.len() ==> (#[trigger] parts@[j])@ == to@[j - up + c]@,
                decreases to@.len() - m,
            {
                parts.push(to[m].clone());
                m = m + 1;
            }
            proof {
                assert(path_view(parts) =~= relative_parts(fv, tv));
            }
            let rel = join_path(&parts);
            percent_encode(rel.as_str())
        },
        LinkFormat::Zola => {
            let mut out = String::from_str("@/");
            let p = join_path(to);
            out.append(p.as_str());
            proof {
                reveal_strlit("@/");
            }
            out
        },
    };
    match section {
        Some(s) => {
            out.append("#");
            out.append(s);
            proof {
                reveal_strlit("#");
            }
        },
        None => {},
    }
    out
}

/// The text shown for a link with the parts `name`, `section` and `label`:
/// the label where there is one; else the name and the section, joined by
/// ` > `; else whichever of the two there is.
pub open spec fn display_text(name: Seq<char>, section: Option<Seq<char>>, label: Option<Seq<char>>) -> Seq<char> {
    match (section, label) {
        (_, Some(l)) => l,
        (Some(sec), None) => if name.len() > 0 {
            name + seq![' ', '>', ' '] + sec
        } else {
            sec
        },
        (None, None) => name,
    }
}

/// The text shown for the link with the parts `parts`.
pub fn link_display(parts: &LinkTarget) -> (r: String)
    ensures
        r@ == display_text(parts.name@, opt_view(parts.section), opt_view(parts.label)),
{
    match (&parts.section, &parts.label) {
        (_, Some(l)) => l.clone(),
        (Some(sec), None) => {
            if parts.name.as_str().unicode_len() > 0 {
                let mut d = parts.name.clone();
                d.append(" > ");
                d.append(sec.as_str());
                proof {
                    reveal_strlit(" > ");
                }
                d
            } else {
                sec.clone()
            }
        },
        (None, None) => parts.name.clone(),
    }
}

/// A resolved link: the text to show and the reference to write.
#[derive(Debug)]
pub struct ResolvedLink {
    /// The position of the linked file in the index.
    pub file: usize,
    pub display: String,
    pub reference: String,
}

/// Resolves the raw target `target` of a link in the note at `referrer`:
/// `None` where no file is found under its name (the link then stays as
/// text), else the file it resolves to, the text to show and the reference
/// to write in `format`.
pub fn resolve_link(index: &VaultIndex, target: &str, referrer: &Vec<String>, format: LinkFormat) -> (r: Option<ResolvedLink>)
    ensures
        match resolution(index.files@, target_parts(target@).0, path_view(*referrer)) {
            None => r is None,
            Some(i) => r matches Some(l) && l.file == i
                && l.display@ == display_text(target_parts(target@).0, target_parts(target@).1, target_parts(target@).2)
                && l.reference@ == link_reference(path_view(*referrer), path_view(index.files@[i as int]), target_parts(target@).1, format),
        },
{
    let parts = parse_link_target(target);
    let res = index.resolve(&parts.name, referrer);
    match res {
        None => None,
        Some(i) => {
            let section = match &parts.section {
                Some(sec) => Some(sec.as_str()),
                None => None,
            };
            let reference = render_link(referrer, &index.files[i], section, format);
            let display = link_display(&parts);
            Some(ResolvedLink { file: i, display, reference })
        },
    }
}

} // verus!
