//! The per-note context handed to postprocessors, and the chain of notes that
//! embeds are expanding.
use vstd::prelude::*;

use crate::errors::ExportError;
use crate::frontmatter::{Frontmatter, FrontmatterStrategy, FrontmatterValue};

verus! {

/// The deepest that embeds may nest below a root note.
pub const DEFAULT_EMBED_DEPTH_LIMIT: usize = 10;

/// The state of one note (a root note, or a note reached through an embed)
/// while it is postprocessed.
#[derive(Debug)]
pub struct Context {
    /// The notes being expanded, the root note first and this note last.
    pub file_tree: Vec<String>,
    /// Where the note will be written. Postprocessors may change it.
    pub destination: String,
    /// The note's own frontmatter. Postprocessors may change it.
    pub frontmatter: Frontmatter,
    /// The root of the vault the note belongs to.
    pub vault_root: String,
    /// How the note's frontmatter block is to be written.
    pub frontmatter_strategy: FrontmatterStrategy,
}

/// Whether `p` is one of the paths in `tree`.
pub open spec fn on_tree(tree: Seq<Seq<char>>, p: Seq<char>) -> bool {
    exists|i: int| 0 <= i < tree.len() && tree[i] == p
}

/// Whether an embed of `child` may be expanded under the chain `tree`: the
/// child is not already being expanded, and the chain is below the ceiling.
pub open spec fn may_enter(tree: Seq<Seq<char>>, child: Seq<char>, limit: nat) -> bool {
    !on_tree(tree, child) && tree.len() < limit
}

/// Whether no path occurs twice in `tree`.
pub open spec fn no_repeats(tree: Seq<Seq<char>>) -> bool {
    forall|i: int, j: int| 0 <= i < j < tree.len() ==> tree[i] != tree[j]
}

impl Context {
    /// The chain of notes being expanded, the root note first and this note
    /// last.
    pub open spec fn tree(&self) -> Seq<Seq<char>> {
        self.file_tree@.map_values(|p: String| p@)
    }

    /// The context of a root note read from `source` in the vault at
    /// `vault_root`, to be written at `destination`, with empty frontmatter.
    pub fn new(source: String, destination: String, vault_root: String, frontmatter_strategy: FrontmatterStrategy) -> (r: Context)
        ensures
            r.tree() == seq![source@],
            r.destination == destination,
            r.frontmatter@ == Seq::<(Seq<char>, FrontmatterValue)>::empty(),
            r.vault_root == vault_root,
            r.frontmatter_strategy == frontmatter_strategy,
    {
        let mut file_tree: Vec<String> = Vec::new();
        let ghost s = source@;
        file_tree.push(source);
        let r = Context { file_tree, destination, frontmatter: Frontmatter::new(), vault_root, frontmatter_strategy };
        assert(r.tree() =~= seq![s]);
        r
    }

    /// The paths of the notes being expanded, the root note first.
    pub fn file_tree(&self) -> (r: &Vec<String>)
        ensures
            r@.len() == self.tree().len(),
            forall|i: int| 0 <= i < r@.len() ==> (#[trigger] r@[i])@ == self.tree()[i],
    {
        &self.file_tree
    }

    /// The note this context belongs to.
    pub fn current_file(&self) -> (r: &String)
        requires
            self.tree().len() > 0,
        ensures
            r@ == self.tree().last(),
    {
        &self.file_tree[self.file_tree.len() - 1]
    }

    /// The root note whose export led to this note.
    pub fn root_file(&self) -> (r: &String)
        requires
            self.tree().len() > 0,
        ensures
            r@ == self.tree()[0],
    {
        &self.file_tree[0]
    }

    /// Whether `path` is one of the notes being expanded.
    fn is_on_tree(&self, path: &String) -> (r: bool)
        ensures
            r == on_tree(self.tree(), path@),
    {
        let mut i: usize = 0;
        while i < self.file_tree.len()
            invariant
                0 <= i <= self.file_tree@.len(),
                self.tree().len() == self.file_tree@.len(),
                forall|j: int| 0 <= j < i ==> self.tree()[j] != path@,
            decreases self.file_tree@.len() - i,
        {
            assert(self.tree()[i as int] == self.file_tree@[i as int]@);
            if self.file_tree[i] == *path {
                return true;
            }
            i = i + 1;
        }
        false
    }

    /// The context in which the note at `child`, embedded in this note, is
    /// expanded: the chain grows by `child`, the destination, the vault root
    /// and the strategy stay, and the frontmatter starts empty instead of
    /// holding this note's. Fails with `RecursionLimitExceeded`, holding the
    /// chain as it stands, where `child` is already being expanded or the
    /// chain already holds `limit` notes.
    pub fn embedded(&self, child: String, limit: usize) -> (r: Result<Context, ExportError>)
        ensures
            may_enter(self.tree(), child@, limit as nat) <==> r is Ok,
            match r {
                Ok(c) => c.tree() == self.tree().push(child@) && c.destination@ == self.destination@
                    && c.frontmatter@ == Seq::<(Seq<char>, FrontmatterValue)>::empty()
                    && c.vault_root@ == self.vault_root@ && c.frontmatter_strategy == self.frontmatter_strategy,
                Err(e) => e matches ExportError::RecursionLimitExceeded { file_tree: t }
                    && t@.map_values(|p: String| p@) == self.tree(),
            },
    {
        if self.is_on_tree(&child) || self.file_tree.len() >= limit {
            let t = self.file_tree.clone();
            assert(t@.map_values(|p: String| p@) =~= self.tree());
            return Err(ExportError::RecursionLimitExceeded { file_tree: t });
        }
        let mut file_tree = self.file_tree.clone();
        let ghost c = child@;
        proof {
            assert(file_tree@.map_values(|p: String| p@) =~= self.tree());
        }
        file_tree.push(child);
        let r = Context {
            file_tree,
            destination: self.destination.clone(),
            frontmatter: Frontmatter::new(),
            vault_root: self.vault_root.clone(),
            frontmatter_strategy: self.frontmatter_strategy,
        };
        assert(r.tree() =~= self.tree().push(c));
        Ok(r)
    }
}

/// Entering embeds only ever through `embedded` keeps every path of the
/// chain distinct and the chain no longer than the ceiling.
pub proof fn lemma_embedding_keeps_tree_bounded(tree: Seq<Seq<char>>, child: Seq<char>, limit: nat)
    requires
        no_repeats(tree),
        tree.len() <= limit,
        may_enter(tree, child, limit),
    ensures
        no_repeats(tree.push(child)),
        tree.push(child).len() <= limit,
{
    assert forall|i: int, j: int| 0 <= i < j < tree.push(child).len() implies tree.push(child)[i] != tree.push(child)[j] by {
        if j == tree.len() {
            assert(tree[i] == tree.push(child)[i]);
        }
    }
}

/// Two notes that embed each other never expand in a loop: once `a` and then
/// `b` have been entered, entering `a` again is refused.
pub proof fn lemma_mutual_embeds_refused(tree: Seq<Seq<char>>, a: Seq<char>, b: Seq<char>, limit: nat)
    ensures
        !may_enter(tree.push(a).push(b), a, limit),
{
    assert(tree.push(a).push(b)[tree.len() as int] == a);
}

} // verus!
