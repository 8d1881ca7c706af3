//! What becomes of an embed: it is left as text, refers to a file, or is
//! expanded in a context of its own.
use vstd::prelude::*;

use crate::context::{may_enter, Context};
use crate::errors::ExportError;
use crate::frontmatter::FrontmatterValue;
use crate::postprocessors::{ChainRun, MarkdownEvent, MarkdownEvents};
use crate::links::{
    join_path, joined, note_extension, parse_link_target, path_view, resolution, target_parts, VaultIndex,
};

verus! {

/// Whether the file at `p` is a note.
pub open spec fn is_note_path(p: Seq<Seq<char>>) -> bool {
    let n = p.last();
    p.len() > 0 && n.len() >= 3 && n.subrange(n.len() - 3, n.len() as int) == note_extension()
}

/// What an embed becomes.
#[derive(Debug)]
pub enum EmbedPlan {
    /// No file is found under the target's name: the embed stays as text.
    Unresolved,
    /// The target is a file other than a note, at this position of the
    /// index: it is shown or linked, and copied along.
    Asset(usize),
    /// The target is the note at this position of the index, and embeds are
    /// not expanded: it is referred to, not inlined.
    LinkOnly(usize),
    /// The target is the note at this position of the index, to be expanded
    /// in the given context.
    Expand(usize, Context),
}

/// Decides what the embed of `target` in the note at `referrer` (with context
/// `parent`) becomes. A note is expanded only where `recursive` is set, and
/// only where `parent.embedded` allows it under the ceiling `limit`; where it
/// does not, the embed fails with `RecursionLimitExceeded`.
pub fn plan_embed(
    index: &VaultIndex,
    target: &str,
    referrer: &Vec<String>,
    parent: &Context,
    recursive: bool,
    limit: usize,
) -> (r: Result<EmbedPlan, ExportError>)
    ensures
        match resolution(index.files@, target_parts(target@).0, path_view(*referrer)) {
            None => r matches Ok(EmbedPlan::Unresolved),
            Some(i) => {
                let p = path_view(index.files@[i as int]);
                if !is_note_path(p) {
                    r matches Ok(EmbedPlan::Asset(j)) && j == i
                } else if !recursive {
                    r matches Ok(EmbedPlan::LinkOnly(j)) && j == i
                } else if may_enter(parent.tree(), joined(p), limit as nat) {
                    r matches Ok(EmbedPlan::Expand(j, c)) && j == i && c.tree() == parent.tree().push(joined(p))
                        && c.destination@ == parent.destination@
                        && c.frontmatter@ == Seq::<(Seq<char>, FrontmatterValue)>::empty()
                        && c.vault_root@ == parent.vault_root@
                        && c.frontmatter_strategy == parent.frontmatter_strategy
                } else {
                    r matches Err(ExportError::RecursionLimitExceeded { .. })
                }
            },
        },
{
    let parts = parse_link_target(target);
    let res = index.resolve(&parts.name, referrer);
    match res {
        None => {
            Ok(EmbedPlan::Unresolved)
        },
        Some(i) => {
            let file = &index.files[i];
            let ghost p = path_view(*file);
            let n = file.len();
            let note = if n > 0 {
                let last = file[n - 1].as_str();
                let m = last.unicode_len();
                let ends = m >= 3 && last.get_char(m - 3) == '.' && last.get_char(m - 2) == 'm'
                    && last.get_char(m - 1) == 'd';
                proof {
                    assert(p.last() == last@);
                    if m >= 3 {
                        let t = last@.subrange(m - 3, m as int);
                        assert(ends <==> t =~= note_extension());
                    }
                }
                ends
            } else {
                false
            };
            if !note {
                Ok(EmbedPlan::Asset(i))
            } else if !recursive {
                Ok(EmbedPlan::LinkOnly(i))
            } else {
                let child = join_path(file);
                match parent.embedded(child, limit) {
                    Ok(c) => Ok(EmbedPlan::Expand(i, c)),
                    Err(e) => Err(e),
                }
            }
        },
    }
}

/// `parent` with the embed at `at` replaced by what the embedded note
/// contributes: its events `embedded` where its chain let it be exported,
/// nothing where the chain vetoed it.
pub open spec fn spliced(parent: Seq<MarkdownEvent>, at: int, export: bool, embedded: Seq<MarkdownEvent>) -> Seq<MarkdownEvent> {
    parent.subrange(0, at) + (if export { embedded } else { Seq::<MarkdownEvent>::empty() })
        + parent.subrange(at + 1, parent.len() as int)
}

/// Puts what an embedded note contributes in place of the embed at position
/// `at` of its parent's events.
pub fn splice_embed(parent: MarkdownEvents, at: usize, run: &ChainRun, embedded: MarkdownEvents) -> (r: MarkdownEvents)
    requires
        at < parent@.len(),
    ensures
        r@ == spliced(parent@, at as int, run.export, embedded@),
{
    let mut parent = parent;
    let mut tail = parent.split_off(at);
    let _ = tail.remove(0);
    if run.export {
        let mut embedded = embedded;
        parent.append(&mut embedded);
    }
    parent.append(&mut tail);
    parent
}

/// An embedded note whose chain vetoed it leaves its parent's events as they
/// were, but for the embed itself; one that was exported keeps every event
/// of the parent around it.
pub proof fn lemma_vetoed_embed_leaves_parent(parent: Seq<MarkdownEvent>, at: int, export: bool, embedded: Seq<MarkdownEvent>)
    requires
        0 <= at < parent.len(),
    ensures
        !export ==> spliced(parent, at, export, embedded) == parent.remove(at),
        export ==> spliced(parent, at, export, embedded) == parent.subrange(0, at) + embedded + parent.subrange(at + 1, parent.len() as int),
{
    assert(parent.subrange(0, at) + Seq::<MarkdownEvent>::empty() + parent.subrange(at + 1, parent.len() as int)
        =~= parent.remove(at));
}

} // verus!
