//! Recognition of the vault's own link syntax in a run of text: `[[target]]`
//! links and `![[target]]` embeds.
use vstd::prelude::*;

use crate::links::{
    display_text, link_display, link_reference, parse_link_target, path_view, resolution, resolve_link, target_parts,
    LinkFormat, VaultIndex,
};
use crate::postprocessors::{MarkdownEvent, MarkdownEvents};

verus! {

/// What a piece of a text run is.
#[derive(Debug, Clone, Copy, PartialEq, Eq, Structural)]
pub enum SegmentKind {
    /// Text as it stands.
    Plain,
    /// A `[[target]]` link; the segment holds the target.
    Link,
    /// A `![[target]]` embed; the segment holds the target.
    Embed,
}

/// A piece of a text run.
#[derive(Debug)]
pub struct TextSegment {
    pub kind: SegmentKind,
    pub text: String,
}

impl TextSegment {
    pub open spec fn view(&self) -> (SegmentKind, Seq<char>) {
        (self.kind, self.text@)
    }
}

/// Whether `c` cannot stand in a link target.
pub open spec fn ends_target(c: char) -> bool {
    c == '[' || c == ']' || c == '\n'
}

/// The first position from `k` on that holds a character that ends a target,
/// or the length of `s`.
pub open spec fn stop_from(s: Seq<char>, k: int) -> int
    decreases s.len() - k,
{
    if k >= s.len() {
        s.len() as int
    } else if ends_target(s[k]) {
        k
    } else {
        stop_from(s, k + 1)
    }
}

/// Whether a link starts at `i`: `[[`, a target that is not empty, `]]`.
pub open spec fn link_at(s: Seq<char>, i: int) -> bool {
    let j = stop_from(s, i + 2);
    &&& 0 <= i
    &&& i + 1 < s.len()
    &&& s[i] == '[' && s[i + 1] == '['
    &&& j > i + 2
    &&& j + 1 < s.len()
    &&& s[j] == ']' && s[j + 1] == ']'
}

/// The plain text from `p` to `q`, as a segment where it is not empty.
pub open spec fn plain_between(s: Seq<char>, p: int, q: int) -> Seq<(SegmentKind, Seq<char>)> {
    if p < q {
        seq![(SegmentKind::Plain, s.subrange(p, q))]
    } else {
        Seq::empty()
    }
}

/// The segments of `s` from position `i` on, where plain text has run since
/// `p`. A `!` right before a link, within that plain text, makes it an embed.
pub open spec fn segments_from(s: Seq<char>, i: int, p: int) -> Seq<(SegmentKind, Seq<char>)>
    decreases s.len() - i,
{
    if i < 0 || i >= s.len() {
        plain_between(s, p, s.len() as int)
    } else if link_at(s, i) {
        let j = stop_from(s, i + 2);
        let bang = i > p && s[i - 1] == '!';
        let start = if bang { i - 1 } else { i };
        let kind = if bang { SegmentKind::Embed } else { SegmentKind::Link };
        plain_between(s, p, start) + seq![(kind, s.subrange(i + 2, j))] + segments_from(s, j + 2, j + 2)
    } else {
        segments_from(s, i + 1, p)
    }
}

/// The segments of the text `s`.
pub open spec fn segments(s: Seq<char>) -> Seq<(SegmentKind, Seq<char>)> {
    segments_from(s, 0, 0)
}

/// The first position from `k` on that holds a character that ends a target,
/// or `n`.
fn find_stop(s: &str, n: usize, k: usize) -> (r: usize)
    requires
        n == s@.len(),
        k <= n,
    ensures
        r as int == stop_from(s@, k as int),
        k <= r <= n,
{
    let mut m: usize = k;
    while m < n
        invariant
            n == s@.len(),
            k <= m <= n,
            stop_from(s@, k as int) == stop_from(s@, m as int),
        decreases n - m,
    {
        let c = s.get_char(m);
        if c == '[' || c == ']' || c == '\n' {
            return m;
        }
        m = m + 1;
    }
    m
}

/// Appends the plain text of `s` from `p` to `q` to `out`, where it is not
/// empty.
fn push_plain(out: &mut Vec<TextSegment>, s: &str, p: usize, q: usize)
    requires
        p <= s@.len(),
        q <= s@.len(),
    ensures
        final(out)@.map_values(|t: TextSegment| t@) == old(out)@.map_values(|t: TextSegment| t@)
            + plain_between(s@, p as int, q as int),
{
    if p < q {
        let t = TextSegment { kind: SegmentKind::Plain, text: String::from_str(s.substring_char(p, q)) };
        out.push(t);
    }
    assert(final(out)@.map_values(|t: TextSegment| t@) =~= old(out)@.map_values(|t: TextSegment| t@)
        + plain_between(s@, p as int, q as int));
}

/// Splits a run of text into plain text, `[[target]]` links and
/// `![[target]]` embeds. A target is not empty and holds no `[`, `]` or line
/// break; anything else stays plain text.
pub fn parse_wikilinks(s: &str) -> (r: Vec<TextSegment>)
    ensures
        r@.map_values(|t: TextSegment| t@) == segments(s@),
{
    let n = s.unicode_len();
    let mut out: Vec<TextSegment> = Vec::new();
    let mut i: usize = 0;
    let mut p: usize = 0;
    while i < n
        invariant
            n == s@.len(),
            p <= i <= n,
            out@.map_values(|t: TextSegment| t@) + segments_from(s@, i as int, p as int) == segments(s@),
        decreases n - i,
    {
        let ghost before = out@.map_values(|t: TextSegment| t@);
        let opens = n - i >= 2 && s.get_char(i) == '[' && s.get_char(i + 1) == '[';
        let mut link = false;
        let mut j: usize = 0;
        if opens {
            j = find_stop(s, n, i + 2);
            link = j > i + 2 && n - j >= 2 && s.get_char(j) == ']' && s.get_char(j + 1) == ']';
        }
        proof {
            assert(link == link_at(s@, i as int));
        }
        if link {
            let bang = i > p && s.get_char(i - 1) == '!';
            let start = if bang { i - 1 } else { i };
            push_plain(&mut out, s, p, start);
            let kind = if bang { SegmentKind::Embed } else { SegmentKind::Link };
            let t = TextSegment { kind, text: String::from_str(s.substring_char(i + 2, j)) };
            let ghost mid = out@.map_values(|t: TextSegment| t@);
            out.push(t);
            proof {
                assert(out@.map_values(|t: TextSegment| t@) =~= mid.push((kind, s@.subrange(i + 2, j as int))));
                assert(segments_from(s@, i as int, p as int) == plain_between(s@, p as int, start as int)
                    + seq![(kind, s@.subrange(i + 2, j as int))] + segments_from(s@, j + 2, j + 2));
                assert(out@.map_values(|t: TextSegment| t@) + segments_from(s@, j + 2, j + 2)
                    =~= before + segments_from(s@, i as int, p as int));
            }
            i = j + 2;
            p = j + 2;
        } else {
            i = i + 1;
        }
    }
    push_plain(&mut out, s, p, n);
    proof {
        assert(segments_from(s@, i as int, p as int) == plain_between(s@, p as int, n as int));
        assert(out@.map_values(|t: TextSegment| t@) =~= segments(s@));
    }
    out
}

/// Whether `e` is the text `s`.
pub open spec fn is_text_event(e: MarkdownEvent, s: Seq<char>) -> bool {
    match e {
        MarkdownEvent::Text(t) => t@ == s,
        _ => false,
    }
}

/// Whether `e` is what the segment `seg` of a text run in the note at
/// `referrer` becomes: plain text stays text; an embed stays an embed of its
/// target; a link becomes a link to the file it resolves to, shown with its
/// display text, or that display text alone where it resolves to no file.
pub open spec fn segment_event(
    e: MarkdownEvent,
    seg: (SegmentKind, Seq<char>),
    files: Seq<Vec<String>>,
    referrer: Seq<Seq<char>>,
    format: LinkFormat,
) -> bool {
    let parts = target_parts(seg.1);
    let shown = display_text(parts.0, parts.1, parts.2);
    match seg.0 {
        SegmentKind::Plain => is_text_event(e, seg.1),
        SegmentKind::Embed => match e {
            MarkdownEvent::Embed(t) => t@ == seg.1,
            _ => false,
        },
        SegmentKind::Link => match resolution(files, parts.0, referrer) {
            None => is_text_event(e, shown),
            Some(i) => match e {
                MarkdownEvent::Link { reference, display } => reference@ == link_reference(
                    referrer,
                    path_view(files[i as int]),
                    parts.1,
                    format,
                ) && display@ == shown,
                _ => false,
            },
        },
    }
}

/// The events that the text run `text` of the note at `referrer` becomes:
/// one for each of its segments, with its links resolved against `index` and
/// written in `format`.
pub fn rewrite_text(text: &str, index: &VaultIndex, referrer: &Vec<String>, format: LinkFormat) -> (r: Vec<MarkdownEvent>)
    ensures
        r@.len() == segments(text@).len(),
        forall|k: int| 0 <= k < r@.len() ==>
            segment_event(#[trigger] r@[k], segments(text@)[k], index.files@, path_view(*referrer), format),
{
    let segs = parse_wikilinks(text);
    let ghost sv = segs@.map_values(|t: TextSegment| t@);
    let mut out: Vec<MarkdownEvent> = Vec::new();
    let mut k: usize = 0;
    while k < segs.len()
        invariant
            sv == segs@.map_values(|t: TextSegment| t@),
            sv == segments(text@),
            0 <= k <= segs@.len(),
            out@.len() == k,
            forall|m: int| 0 <= m < k ==>
                segment_event(#[trigger] out@[m], sv[m], index.files@, path_view(*referrer), format),
        decreases segs@.len() - k,
    {
        let seg = &segs[k];
        assert(sv[k as int] == (seg.kind, seg.text@));
        let e = match seg.kind {
            SegmentKind::Plain => MarkdownEvent::Text(seg.text.clone()),
            SegmentKind::Embed => MarkdownEvent::Embed(seg.text.clone()),
            SegmentKind::Link => {
                match resolve_link(index, seg.text.as_str(), referrer, format) {
                    Some(l) => MarkdownEvent::Link { reference: l.reference, display: l.display },
                    None => {
                        let parts = parse_link_target(seg.text.as_str());
                        MarkdownEvent::Text(link_display(&parts))
                    },
                }
            },
        };
        out.push(e);
        k = k + 1;
    }
    out
}

/// A text without link syntax is one plain segment (none where it is
/// empty): exporting it leaves it as it is.
pub proof fn lemma_plain_text_unchanged(s: Seq<char>)
    requires
        forall|i: int| 0 <= i < s.len() ==> !link_at(s, i),
    ensures
        segments(s) == plain_between(s, 0, s.len() as int),
{
    lemma_plain_from(s, 0);
}

proof fn lemma_plain_from(s: Seq<char>, i: int)
    requires
        0 <= i <= s.len(),
        forall|k: int| 0 <= k < s.len() ==> !link_at(s, k),
    ensures
        segments_from(s, i, 0) == plain_between(s, 0, s.len() as int),
    decreases s.len() - i,
{
    if i < s.len() {
        lemma_plain_from(s, i + 1);
    }
}

/// Whether `out` is what the event `e` of the note at `referrer` becomes: a
/// text run becomes one event for each of its segments; every other event
/// stays as it is.
pub open spec fn rewrites_to(
    e: MarkdownEvent,
    out: Seq<MarkdownEvent>,
    files: Seq<Vec<String>>,
    referrer: Seq<Seq<char>>,
    format: LinkFormat,
) -> bool {
    match e {
        MarkdownEvent::Text(t) => out.len() == segments(t@).len() && forall|k: int|
            0 <= k < out.len() ==> segment_event(#[trigger] out[k], segments(t@)[k], files, referrer, format),
        _ => out == seq![e],
    }
}

/// The event `e` as it becomes in the note at `referrer`.
fn rewrite_event(e: MarkdownEvent, index: &VaultIndex, referrer: &Vec<String>, format: LinkFormat) -> (r: Vec<MarkdownEvent>)
    ensures
        rewrites_to(e, r@, index.files@, path_view(*referrer), format),
{
    let ghost ge = e;
    match e {
        MarkdownEvent::Text(t) => rewrite_text(t.as_str(), index, referrer, format),
        other => {
            let mut v: Vec<MarkdownEvent> = Vec::new();
            v.push(other);
            assert(v@ =~= seq![ge]);
            v
        },
    }
}

/// Rewrites the links and embeds of every text run of the events of the note
/// at `referrer`, in order, as `rewrite_text` does; every other event stays.
pub fn rewrite_links(events: MarkdownEvents, index: &VaultIndex, referrer: &Vec<String>, format: LinkFormat) -> (r: MarkdownEvents)
    ensures
        exists|pieces: Seq<Seq<MarkdownEvent>>|
            pieces.len() == events@.len() && r@ == pieces.flatten() && forall|i: int| 0 <= i < pieces.len() ==>
                rewrites_to(events@[i], #[trigger] pieces[i], index.files@, path_view(*referrer), format),
{
    let ghost all = events@;
    let ghost n = events@.len() as int;
    let mut rest = events;
    let mut chunks: Vec<Vec<MarkdownEvent>> = Vec::new();
    while rest.len() > 0
        invariant
            rest@.len() <= n,
            n == all.len(),
            rest@ == all.subrange(0, rest@.len() as int),
            chunks@.len() == n - rest@.len(),
            forall|k: int| 0 <= k < chunks@.len() ==>
                rewrites_to(all[n - 1 - k], #[trigger] chunks@[k]@, index.files@, path_view(*referrer), format),
        decreases rest@.len(),
    {
        let ghost m = rest@.len() as int;
        let e = rest.pop().unwrap();
        assert(e == all[m - 1]);
        assert(rest@ =~= all.subrange(0, m - 1));
        let piece = rewrite_event(e, index, referrer, format);
        chunks.push(piece);
    }
    let ghost c0 = chunks@;
    let ghost pieces = Seq::new(n as nat, |i: int| c0[n - 1 - i]@);
    let mut out: Vec<MarkdownEvent> = Vec::new();
    assert(pieces.subrange(0, 0) =~= Seq::<Seq<MarkdownEvent>>::empty());
    while chunks.len() > 0
        invariant
            n == all.len(),
            c0.len() == n,
            pieces == Seq::new(n as nat, |i: int| c0[n - 1 - i]@),
            chunks@.len() <= n,
            chunks@ == c0.subrange(0, chunks@.len() as int),
            out@ == pieces.subrange(0, n - chunks@.len()).flatten(),
        decreases chunks@.len(),
    {
        let ghost m = n - chunks@.len();
        let mut piece = chunks.pop().unwrap();
        proof {
            assert(piece == c0[n - 1 - m]);
            assert(piece@ == pieces[m]);
            assert(pieces.subrange(0, m + 1) =~= pieces.subrange(0, m).push(pieces[m]));
            pieces.subrange(0, m).lemma_flatten_push(pieces[m]);
        }
        out.append(&mut piece);
        proof {
            assert(chunks@ =~= c0.subrange(0, chunks@.len() as int));
        }
    }
    proof {
        assert(pieces.subrange(0, n) =~= pieces);
        assert forall|i: int| 0 <= i < pieces.len() implies
            rewrites_to(all[i], #[trigger] pieces[i], index.files@, path_view(*referrer), format) by {
            assert(pieces[i] == c0[n - 1 - i]@);
            assert(n - 1 - (n - 1 - i) == i);
        }
    }
    out
}

} // verus!
