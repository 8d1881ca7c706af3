//! Frontmatter: the metadata block at the head of a note, its values, and how
//! it is split off a note's text and put back in front of the body.
use vstd::prelude::*;

use crate::errors::ExportError;

verus! {

/// A value held in a note's frontmatter.
///
/// Numbers keep the text they were written with, so that nothing is lost to
/// rounding.
#[derive(Debug)]
pub enum FrontmatterValue {
    Null,
    Bool(bool),
    Number(String),
    String(String),
    Sequence(Vec<FrontmatterValue>),
    Mapping(Vec<(String, FrontmatterValue)>),
    /// A value with an explicit tag, such as `!x true`: it equals no untagged
    /// value.
    Tagged { tag: String, value: Box<FrontmatterValue> },
}

/// Whether `v` is the string `s`.
pub open spec fn is_string_value(v: FrontmatterValue, s: Seq<char>) -> bool {
    match v {
        FrontmatterValue::String(x) => x@ == s,
        _ => false,
    }
}

/// Whether `v` is the boolean `true`.
pub open spec fn is_true_value(v: FrontmatterValue) -> bool {
    match v {
        FrontmatterValue::Bool(b) => b,
        _ => false,
    }
}

/// An ordered mapping from keys to values, in the order the keys were first
/// inserted.
#[derive(Debug)]
pub struct Frontmatter {
    entries: Vec<(String, FrontmatterValue)>,
}

/// Whether `i` is the position of the first entry whose key is `k`.
pub open spec fn first_key_index(s: Seq<(Seq<char>, FrontmatterValue)>, k: Seq<char>, i: int) -> bool {
    0 <= i < s.len() && s[i].0 == k && forall|j: int| 0 <= j < i ==> s[j].0 != k
}

pub open spec fn has_key(s: Seq<(Seq<char>, FrontmatterValue)>, k: Seq<char>) -> bool {
    exists|i: int| 0 <= i < s.len() && s[i].0 == k
}

/// The value that a lookup of `k` finds in `s`: that of the first entry with
/// this key.
pub open spec fn lookup(s: Seq<(Seq<char>, FrontmatterValue)>, k: Seq<char>) -> Option<FrontmatterValue> {
    if has_key(s, k) {
        let i = choose|i: int| first_key_index(s, k, i);
        Some(s[i].1)
    } else {
        None
    }
}

proof fn lemma_first_key_index_unique(s: Seq<(Seq<char>, FrontmatterValue)>, k: Seq<char>, i: int, j: int)
    requires
        first_key_index(s, k, i),
        first_key_index(s, k, j),
    ensures
        i == j,
{
}

impl Frontmatter {
    pub closed spec fn view(&self) -> Seq<(Seq<char>, FrontmatterValue)> {
        self.entries@.map_values(|e: (String, FrontmatterValue)| (e.0@, e.1))
    }

    /// An empty mapping.
    pub fn new() -> (r: Frontmatter)
        ensures
            r@ == Seq::<(Seq<char>, FrontmatterValue)>::empty(),
    {
        Frontmatter { entries: Vec::new() }
    }

    pub fn len(&self) -> (r: usize)
        ensures
            r == self@.len(),
    {
        self.entries.len()
    }

    pub fn is_empty(&self) -> (r: bool)
        ensures
            r == (self@.len() == 0),
    {
        self.entries.len() == 0
    }

    /// The entries, in order.
    pub fn entries(&self) -> (r: &Vec<(String, FrontmatterValue)>)
        ensures
            r@.len() == self@.len(),
            forall|i: int| 0 <= i < r@.len() ==> (#[trigger] r@[i]).0@ == self@[i].0 && r@[i].1 == self@[i].1,
    {
        &self.entries
    }

    /// The position of the entry with key `key`, if there is one.
    fn position(&self, key: &str) -> (r: Option<usize>)
        ensures
            match r {
                Some(i) => first_key_index(self@, key@, i as int),
                None => !has_key(self@, key@),
            },
    {
        let k = String::from_str(key);
        let mut i: usize = 0;
        while i < self.entries.len()
            invariant
                0 <= i <= self.entries@.len(),
                k@ == key@,
                self@.len() == self.entries@.len(),
                forall|j: int| 0 <= j < i ==> self@[j].0 != key@,
            decreases self.entries@.len() - i,
        {
            assert(self@[i as int].0 == self.entries@[i as int].0@);
            if self.entries[i].0 == k {
                return Some(i);
            }
            i = i + 1;
        }
        None
    }

    /// The value stored under `key`.
    pub fn get(&self, key: &str) -> (r: Option<&FrontmatterValue>)
        ensures
            match r {
                Some(v) => lookup(self@, key@) == Some(*v),
                None => lookup(self@, key@) == None::<FrontmatterValue>,
            },
    {
        match self.position(key) {
            Some(i) => {
                proof {
                    let m = choose|m: int| first_key_index(self@, key@, m);
                    lemma_first_key_index_unique(self@, key@, m, i as int);
                }
                Some(&self.entries[i].1)
            },
            None => None,
        }
    }

    /// Stores `value` under `key`: in place of the value the key had, or as a
    /// new last entry. Returns the value that was replaced.
    pub fn insert(&mut self, key: String, value: FrontmatterValue) -> (r: Option<FrontmatterValue>)
        ensures
            r == lookup(old(self)@, key@),
            has_key(old(self)@, key@) ==> exists|i: int|
                first_key_index(old(self)@, key@, i) && final(self)@ == old(self)@.update(i, (key@, value)),
            !has_key(old(self)@, key@) ==> final(self)@ == old(self)@.push((key@, value)),
            lookup(final(self)@, key@) == Some(value),
    {
        let ghost k = key@;
        match self.position(key.as_str()) {
            Some(i) => {
                proof {
                    let m = choose|m: int| first_key_index(old(self)@, k, m);
                    lemma_first_key_index_unique(old(self)@, k, m, i as int);
                }
                let entry = (key, value);
                let prev = self.entries.remove(i);
                self.entries.insert(i, entry);
                let ghost v = value;
                assert(self@ =~= old(self)@.update(i as int, (k, v)));
                assert(first_key_index(self@, k, i as int));
                proof {
                    let m = choose|m: int| first_key_index(self@, k, m);
                    lemma_first_key_index_unique(self@, k, m, i as int);
                }
                Some(prev.1)
            },
            None => {
                let ghost v = value;
                self.entries.push((key, value));
                assert(self@ =~= old(self)@.push((k, v)));
                let ghost n = old(self)@.len() as int;
                assert(first_key_index(self@, k, n));
                proof {
                    let m = choose|m: int| first_key_index(self@, k, m);
                    lemma_first_key_index_unique(self@, k, m, n);
                }
                None
            },
        }
    }
}

/// How a note's frontmatter block appears in its exported text.
#[derive(Debug, Clone, Copy, PartialEq, Eq, Structural)]
pub enum FrontmatterStrategy {
    /// Keep the block where the note has one; add none where it has not.
    Auto,
    /// Always write a block, an empty one where the note has none.
    Always,
    /// Never write a block.
    Never,
}

/// The line that opens and closes a frontmatter block, with its newline.
pub open spec fn delimiter() -> Seq<char> {
    seq!['-', '-', '-', '\n']
}

/// Whether `s` opens with a frontmatter block.
pub open spec fn opens_block(s: Seq<char>) -> bool {
    s.len() >= 4 && s.subrange(0, 4) == delimiter()
}

/// Whether a closing delimiter line of the block opened at the head of `s`
/// starts at `p`: a line `---` that ends with a newline or the text.
pub open spec fn closes_at(s: Seq<char>, p: int) -> bool {
    &&& 4 <= p
    &&& p + 3 <= s.len()
    &&& s[p - 1] == '\n'
    &&& s[p] == '-' && s[p + 1] == '-' && s[p + 2] == '-'
    &&& (p + 3 == s.len() || s[p + 3] == '\n')
}

/// Whether `p` is where the block opened at the head of `s` ends.
pub open spec fn first_close(s: Seq<char>, p: int) -> bool {
    closes_at(s, p) && forall|q: int| 4 <= q < p ==> !closes_at(s, q)
}

/// `s` without one leading blank line.
pub open spec fn strip_blank_line(s: Seq<char>) -> Seq<char> {
    if s.len() > 0 && s[0] == '\n' {
        s.subrange(1, s.len() as int)
    } else {
        s
    }
}

/// The body that follows a block whose closing line starts at `p`.
pub open spec fn body_after(s: Seq<char>, p: int) -> Seq<char> {
    if p + 4 <= s.len() {
        strip_blank_line(s.subrange(p + 4, s.len() as int))
    } else {
        Seq::empty()
    }
}

/// A note's text taken apart into the contents of its frontmatter block, if
/// it opens with one, and its body; `None` where a block is opened and never
/// closed.
pub open spec fn split_spec(s: Seq<char>) -> Option<(Option<Seq<char>>, Seq<char>)> {
    if !opens_block(s) {
        Some((None, s))
    } else if exists|p: int| first_close(s, p) {
        let p = choose|p: int| first_close(s, p);
        Some((Some(s.subrange(4, p)), body_after(s, p)))
    } else {
        None
    }
}

/// The text of a frontmatter block with contents `y`, and the blank line
/// after it.
pub open spec fn block(y: Seq<char>) -> Seq<char> {
    delimiter() + y + delimiter() + seq!['\n']
}

/// A note's exported text: its body, after a block as `strategy` asks.
pub open spec fn compose_spec(fm: Option<Seq<char>>, body: Seq<char>, strategy: FrontmatterStrategy) -> Seq<char> {
    match strategy {
        FrontmatterStrategy::Never => body,
        FrontmatterStrategy::Always => match fm {
            Some(y) => block(y) + body,
            None => block(Seq::empty()) + body,
        },
        FrontmatterStrategy::Auto => match fm {
            Some(y) => block(y) + body,
            None => body,
        },
    }
}

/// The text that exporting `s` gives, its block written as `strategy` asks;
/// `None` where its block is never closed.
pub open spec fn export_spec(s: Seq<char>, strategy: FrontmatterStrategy) -> Option<Seq<char>> {
    match split_spec(s) {
        Some((fm, body)) => Some(compose_spec(fm, body, strategy)),
        None => None,
    }
}

proof fn lemma_first_close_unique(s: Seq<char>, p: int, q: int)
    requires
        first_close(s, p),
        first_close(s, q),
    ensures
        p == q,
{
}

/// Whether a closing line starts at `p` in `s`, read one character at a time.
fn closes_here(s: &str, n: usize, p: usize) -> (r: bool)
    requires
        n == s@.len(),
        4 <= p,
        p + 3 <= n,
    ensures
        r == closes_at(s@, p as int),
{
    s.get_char(p - 1) == '\n' && s.get_char(p) == '-' && s.get_char(p + 1) == '-' && s.get_char(p + 2) == '-'
        && (p + 3 == n || s.get_char(p + 3) == '\n')
}

/// Takes a note's text apart into the contents of its frontmatter block (`None`
/// where it opens with no block) and its body, without the blank line that
/// follows the block. Fails with `FrontmatterDecodeError` where a block is
/// opened and never closed.
pub fn split_frontmatter(raw: &str) -> (r: Result<(Option<String>, String), ExportError>)
    ensures
        split_spec(raw@) is None <==> r is Err,
        match r {
            Ok((Some(y), body)) => split_spec(raw@) == Some((Some(y@), body@)),
            Ok((None, body)) => split_spec(raw@) == Some((None::<Seq<char>>, body@)),
            Err(e) => e is FrontmatterDecodeError,
        },
{
    let n = raw.unicode_len();
    let opens = n >= 4 && raw.get_char(0) == '-' && raw.get_char(1) == '-' && raw.get_char(2) == '-'
        && raw.get_char(3) == '\n';
    proof {
        if n >= 4 {
            assert(opens <==> raw@.subrange(0, 4) =~= delimiter());
        }
    }
    if !opens {
        return Ok((None, String::from_str(raw)));
    }
    let mut p: usize = 4;
    while p < n && n - p >= 3
        invariant
            n == raw@.len(),
            p <= n,
            opens_block(raw@),
            4 <= p,
            forall|q: int| 4 <= q < p ==> !closes_at(raw@, q),
        decreases n - p,
    {
        if closes_here(raw, n, p) {
            let y = String::from_str(raw.substring_char(4, p));
            let body = if n - p >= 4 {
                if n - p > 4 && raw.get_char(p + 4) == '\n' {
                    String::from_str(raw.substring_char(p + 5, n))
                } else {
                    String::from_str(raw.substring_char(p + 4, n))
                }
            } else {
                String::new()
            };
            proof {
                assert(first_close(raw@, p as int));
                let c = choose|c: int| first_close(raw@, c);
                lemma_first_close_unique(raw@, c, p as int);
                assert(body@ =~= body_after(raw@, p as int));
            }
            return Ok((Some(y), body));
        }
        p = p + 1;
    }
    proof {
        assert forall|c: int| !first_close(raw@, c) by {
            if first_close(raw@, c) {
                assert(c < p);
            }
        }
        assert(!(exists|c: int| first_close(raw@, c))) by {
            assert(forall|c: int| !first_close(raw@, c));
        }
    }
    Err(ExportError::FrontmatterDecodeError)
}

/// A note's exported text: `body`, after a block with contents `frontmatter`
/// as `strategy` asks.
pub fn compose_note(frontmatter: Option<&str>, body: &str, strategy: FrontmatterStrategy) -> (r: String)
    ensures
        r@ == compose_spec(
            match frontmatter {
                Some(y) => Some(y@),
                None => None,
            },
            body@,
            strategy,
        ),
{
    let write_block = match strategy {
        FrontmatterStrategy::Never => false,
        FrontmatterStrategy::Always => true,
        FrontmatterStrategy::Auto => frontmatter.is_some(),
    };
    if !write_block {
        return String::from_str(body);
    }
    let mut out = String::from_str("---\n");
    match frontmatter {
        Some(y) => out.append(y),
        None => {},
    }
    out.append("---\n\n");
    out.append(body);
    proof {
        reveal_strlit("---\n");
        reveal_strlit("---\n\n");
        match frontmatter {
            Some(y) => assert(out@ =~= block(y@) + body@),
            None => assert(out@ =~= block(Seq::empty()) + body@),
        }
    }
    out
}

/// A note without a frontmatter block, exported with `Always`, comes out as an
/// empty block, a blank line, and its text unchanged.
pub proof fn lemma_always_adds_empty_block(s: Seq<char>)
    requires
        !opens_block(s),
    ensures
        export_spec(s, FrontmatterStrategy::Always) == Some(seq!['-', '-', '-', '\n', '-', '-', '-', '\n', '\n'] + s),
{
    assert(block(Seq::empty()) =~= seq!['-', '-', '-', '\n', '-', '-', '-', '\n', '\n']);
}

/// A note with a frontmatter block, exported with `Never`, comes out as its
/// text after the block and the blank line that follows it, unchanged.
pub proof fn lemma_never_strips_block(s: Seq<char>, p: int)
    requires
        opens_block(s),
        first_close(s, p),
    ensures
        export_spec(s, FrontmatterStrategy::Never) == Some(body_after(s, p)),
{
    let c = choose|c: int| first_close(s, c);
    lemma_first_close_unique(s, c, p);
}

/// Exporting a text that was exported already, with the same strategy, gives
/// it back unchanged. With `Never` this holds where the exported text does
/// not itself open with a block, which a body may do.
pub proof fn lemma_export_idempotent(s: Seq<char>, strategy: FrontmatterStrategy)
    requires
        export_spec(s, strategy) is Some,
        strategy == FrontmatterStrategy::Never ==> !opens_block(export_spec(s, strategy).unwrap()),
    ensures
        export_spec(export_spec(s, strategy).unwrap(), strategy) == export_spec(s, strategy),
{
    let out = export_spec(s, strategy).unwrap();
    let d = delimiter();
    if strategy == FrontmatterStrategy::Never {
        assert(split_spec(out) == Some((None::<Seq<char>>, out)));
    } else if !opens_block(s) {
        if strategy == FrontmatterStrategy::Auto {
            assert(out == s);
        } else {
            assert(out =~= block(Seq::empty()) + s);
            assert(out.subrange(0, 4) =~= d);
            assert(closes_at(out, 4));
            assert(first_close(out, 4));
            lemma_split_after_block(out, Seq::empty(), s);
        }
    } else {
        let p = choose|p: int| first_close(s, p);
        let y = s.subrange(4, p);
        let b = body_after(s, p);
        assert(out =~= block(y) + b);
        // `out` and `s` agree up to the closing dashes.
        assert forall|i: int| 0 <= i < p + 3 implies out[i] == s[i] by {
            if i < 4 {
                assert(s.subrange(0, 4)[i] == s[i]);
            } else if i < p {
                assert(y[i - 4] == s[i]);
            }
        }
        assert(out.subrange(0, 4) =~= s.subrange(0, 4));
        assert(closes_at(out, p));
        assert forall|q: int| 4 <= q < p implies !closes_at(out, q) by {
            if closes_at(out, q) {
                assert(closes_at(s, q));
            }
        }
        assert(first_close(out, p));
        lemma_split_after_block(out, y, b);
    }
}

/// A text made of a block with contents `y`, a blank line and `b`, whose block
/// ends at the closing line after `y`, splits back into `y` and `b`.
proof fn lemma_split_after_block(out: Seq<char>, y: Seq<char>, b: Seq<char>)
    requires
        out == block(y) + b,
        opens_block(out),
        first_close(out, 4 + y.len() as int),
    ensures
        split_spec(out) == Some((Some(y), b)),
{
    let p: int = 4 + y.len() as int;
    let c = choose|c: int| first_close(out, c);
    lemma_first_close_unique(out, c, p);
    assert(out.subrange(4, p) =~= y);
    assert(out.subrange(p + 4, out.len() as int) =~= seq!['\n'] + b);
    assert(body_after(out, p) =~= b);
}

} // verus!
