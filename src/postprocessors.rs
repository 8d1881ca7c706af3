//! Postprocessors: transforms run over a note's context and event stream, and
//! the chain that runs them in order.
use vstd::prelude::*;

use crate::context::Context;
use crate::frontmatter::{compose_note, compose_spec, is_string_value, is_true_value, lookup, FrontmatterStrategy, FrontmatterValue};

verus! {

/// One structural event of a note's body.
///
/// The transforms of this library read and write text runs, line breaks,
/// links and embeds; every other event is carried through as an index into
/// the stream that the tokenizer produced.
#[derive(Debug)]
pub enum MarkdownEvent {
    Text(String),
    SoftBreak,
    HardBreak,
    /// A link to `reference`, shown as `display`.
    Link { reference: String, display: String },
    /// An embed of the raw target it holds, still to be expanded.
    Embed(String),
    Other(usize),
}

/// The structural event stream of a note's body.
pub type MarkdownEvents = Vec<MarkdownEvent>;

/// What a postprocessor asks of the chain it runs in.
#[derive(Debug, Clone, Copy, PartialEq, Eq, Structural)]
pub enum PostprocessorResult {
    /// Go on with the next postprocessor.
    Continue,
    /// Run no further postprocessors for this note, but export it.
    StopHere,
    /// Run no further postprocessors and do not export this note.
    StopAndSkipNote,
}

/// A transform over a note's context and event stream.
pub trait Postprocessor {
    fn process(&self, context: &mut Context, events: &mut MarkdownEvents) -> PostprocessorResult;
}

/// The event that a soft break becomes under strict line breaks.
pub open spec fn hardened(e: MarkdownEvent) -> MarkdownEvent {
    match e {
        MarkdownEvent::SoftBreak => MarkdownEvent::HardBreak,
        _ => e,
    }
}

/// Converts every soft line break into a hard line break, as the editor's
/// "strict line breaks" setting shows them. Everything else is left as it is.
pub fn softbreaks_to_hardbreaks(context: &mut Context, events: &mut MarkdownEvents) -> (r: PostprocessorResult)
    ensures
        r == PostprocessorResult::Continue,
        *final(context) == *old(context),
        final(events)@.len() == old(events)@.len(),
        forall|i: int| 0 <= i < old(events)@.len() ==> #[trigger] final(events)@[i] == hardened(old(events)@[i]),
{
    let mut i: usize = 0;
    while i < events.len()
        invariant
            0 <= i <= events@.len(),
            events@.len() == old(events)@.len(),
            forall|j: int| 0 <= j < i ==> #[trigger] events@[j] == hardened(old(events)@[j]),
            forall|j: int| i <= j < events@.len() ==> #[trigger] events@[j] == old(events)@[j],
        decreases events@.len() - i,
    {
        let soft = match &events[i] {
            MarkdownEvent::SoftBreak => true,
            _ => false,
        };
        if soft {
            events.set(i, MarkdownEvent::HardBreak);
        }
        i = i + 1;
    }
    PostprocessorResult::Continue
}

/// Whether a note's frontmatter says `publish: true`.
pub open spec fn is_published(fm: Seq<(Seq<char>, FrontmatterValue)>) -> bool {
    match lookup(fm, "publish"@) {
        Some(v) => is_true_value(v),
        None => false,
    }
}

/// Lets through only the notes whose frontmatter holds `publish: true`; every
/// other note is skipped.
pub fn only_published_filter(context: &mut Context, events: &mut MarkdownEvents) -> (r: PostprocessorResult)
    ensures
        *final(context) == *old(context),
        *final(events) == *old(events),
        r == (if is_published(old(context).frontmatter@) {
            PostprocessorResult::Continue
        } else {
            PostprocessorResult::StopAndSkipNote
        }),
{
    let publish = context.frontmatter.get("publish");
    proof {
        reveal_strlit("publish");
    }
    match publish {
        Some(FrontmatterValue::Bool(b)) => {
            if *b {
                PostprocessorResult::Continue
            } else {
                PostprocessorResult::StopAndSkipNote
            }
        },
        _ => PostprocessorResult::StopAndSkipNote,
    }
}

/// Whether one of `names` is among the string values of `tags`.
pub open spec fn any_tag_matches(tags: Seq<FrontmatterValue>, names: Seq<String>) -> bool {
    exists|i: int, j: int|
        0 <= i < names.len() && 0 <= j < tags.len() && #[trigger] is_string_value(tags[j], names[i]@)
}

/// The verdict of the tag filter on a note with tags `tags`: a note with a tag
/// to skip is skipped; so is one with none of the tags to keep, where any are
/// given; every other note goes on.
pub open spec fn tag_verdict(tags: Seq<FrontmatterValue>, skip_tags: Seq<String>, only_tags: Seq<String>) -> PostprocessorResult {
    if any_tag_matches(tags, skip_tags) || (only_tags.len() > 0 && !any_tag_matches(tags, only_tags)) {
        PostprocessorResult::StopAndSkipNote
    } else {
        PostprocessorResult::Continue
    }
}

/// Whether `tags` holds the string `name`.
fn has_tag(tags: &[FrontmatterValue], name: &String) -> (r: bool)
    ensures
        r == exists|j: int| 0 <= j < tags@.len() && #[trigger] is_string_value(tags@[j], name@),
{
    let mut j: usize = 0;
    while j < tags.len()
        invariant
            0 <= j <= tags@.len(),
            forall|k: int| 0 <= k < j ==> !#[trigger] is_string_value(tags@[k], name@),
        decreases tags@.len() - j,
    {
        match &tags[j] {
            FrontmatterValue::String(s) => {
                if *s == *name {
                    assert(is_string_value(tags@[j as int], name@));
                    return true;
                }
            },
            _ => {},
        }
        j = j + 1;
    }
    false
}

/// Whether one of `names` is among the string values of `tags`.
fn has_any_tag(tags: &[FrontmatterValue], names: &[String]) -> (r: bool)
    ensures
        r == any_tag_matches(tags@, names@),
{
    let mut i: usize = 0;
    while i < names.len()
        invariant
            0 <= i <= names@.len(),
            forall|k: int, j: int|
                0 <= k < i && 0 <= j < tags@.len() ==> !#[trigger] is_string_value(tags@[j], names@[k]@),
        decreases names@.len() - i,
    {
        if has_tag(tags, &names[i]) {
            return true;
        }
        i = i + 1;
    }
    false
}

/// The tag filter's decision for a note with tags `tags`. Skipping wins where
/// a tag is both to skip and to keep.
pub fn filter_by_tags_(tags: &[FrontmatterValue], skip_tags: &[String], only_tags: &[String]) -> (r: PostprocessorResult)
    ensures
        r == tag_verdict(tags@, skip_tags@, only_tags@),
{
    let skip = has_any_tag(tags, skip_tags);
    let keep = only_tags.len() == 0 || has_any_tag(tags, only_tags);
    if skip || !keep {
        PostprocessorResult::StopAndSkipNote
    } else {
        PostprocessorResult::Continue
    }
}

/// A postprocessor that skips notes by the tags in their frontmatter.
pub struct TagFilter {
    pub skip_tags: Vec<String>,
    pub only_tags: Vec<String>,
}

/// The verdict of a tag filter on a note with frontmatter `fm`: a `tags`
/// entry that is not a sequence lets the note through, and a note without one
/// counts as having no tags.
pub open spec fn tag_filter_verdict(
    fm: Seq<(Seq<char>, FrontmatterValue)>,
    skip_tags: Seq<String>,
    only_tags: Seq<String>,
) -> PostprocessorResult {
    match lookup(fm, "tags"@) {
        None => tag_verdict(Seq::empty(), skip_tags, only_tags),
        Some(FrontmatterValue::Sequence(tags)) => tag_verdict(tags@, skip_tags, only_tags),
        Some(_) => PostprocessorResult::Continue,
    }
}

/// A tag filter that skips notes tagged with any of `skip_tags` and, where
/// `only_tags` is not empty, notes tagged with none of `only_tags`.
pub fn filter_by_tags(skip_tags: Vec<String>, only_tags: Vec<String>) -> (r: TagFilter)
    ensures
        r.skip_tags == skip_tags,
        r.only_tags == only_tags,
{
    TagFilter { skip_tags, only_tags }
}

impl TagFilter {
    /// Applies the filter to one note.
    pub fn apply(&self, context: &mut Context, events: &mut MarkdownEvents) -> (r: PostprocessorResult)
        ensures
            *final(context) == *old(context),
            *final(events) == *old(events),
            r == tag_filter_verdict(old(context).frontmatter@, self.skip_tags@, self.only_tags@),
    {
        let tags = context.frontmatter.get("tags");
        proof {
            reveal_strlit("tags");
        }
        match tags {
            None => {
                let empty: Vec<FrontmatterValue> = Vec::new();
                let r = filter_by_tags_(empty.as_slice(), self.skip_tags.as_slice(), self.only_tags.as_slice());
                assert(empty@ =~= Seq::<FrontmatterValue>::empty());
                r
            },
            Some(FrontmatterValue::Sequence(tags)) => {
                filter_by_tags_(tags.as_slice(), self.skip_tags.as_slice(), self.only_tags.as_slice())
            },
            Some(_) => PostprocessorResult::Continue,
        }
    }
}

impl Postprocessor for TagFilter {
    fn process(&self, context: &mut Context, events: &mut MarkdownEvents) -> PostprocessorResult {
        self.apply(context, events)
    }
}


/// What running a chain of postprocessors over one note came to.
#[derive(Debug)]
pub struct ChainRun {
    /// What each postprocessor that ran returned, in order.
    pub results: Vec<PostprocessorResult>,
    /// Whether the note is to be exported.
    pub export: bool,
}

/// Whether `results` is what a chain of `n` postprocessors can return when run
/// in order: every one continues but the last that ran, and the chain stops
/// early only on a result that asks it to.
pub open spec fn is_chain_trace(results: Seq<PostprocessorResult>, n: nat) -> bool {
    &&& results.len() <= n
    &&& forall|i: int| 0 <= i < results.len() - 1 ==> #[trigger] results[i] == PostprocessorResult::Continue
    &&& results.len() < n ==> results.len() > 0 && results.last() != PostprocessorResult::Continue
}

/// Whether a chain that returned `results` lets its note be exported: only
/// `StopAndSkipNote` as the last result vetoes it.
pub open spec fn trace_exports(results: Seq<PostprocessorResult>) -> bool {
    !(results.len() > 0 && results.last() == PostprocessorResult::StopAndSkipNote)
}

/// What the chain does after a postprocessor returned.
#[derive(Debug, Clone, Copy, PartialEq, Eq, Structural)]
pub enum ChainStep {
    /// Run the next postprocessor.
    GoOn,
    /// Run no further postprocessors; export the note or not.
    Stop { export: bool },
}

/// The step that a chain takes on the result `res`.
pub open spec fn step_of(res: PostprocessorResult) -> ChainStep {
    match res {
        PostprocessorResult::Continue => ChainStep::GoOn,
        PostprocessorResult::StopHere => ChainStep::Stop { export: true },
        PostprocessorResult::StopAndSkipNote => ChainStep::Stop { export: false },
    }
}

/// The step that a chain takes after a postprocessor returned `res`: go on
/// after `Continue`, stop and export after `StopHere`, stop and veto the note
/// after `StopAndSkipNote`.
pub fn next_step(res: PostprocessorResult) -> (r: ChainStep)
    ensures
        r == step_of(res),
{
    match res {
        PostprocessorResult::Continue => ChainStep::GoOn,
        PostprocessorResult::StopHere => ChainStep::Stop { export: true },
        PostprocessorResult::StopAndSkipNote => ChainStep::Stop { export: false },
    }
}

/// Runs `chain` over one note in order, until a postprocessor asks to stop or
/// all have run. Each postprocessor is given the context and events that the
/// one before it left; what each returned is recorded in order, and the chain
/// goes on or stops as `next_step` decides on it.
pub fn run_postprocessors<P: Postprocessor>(chain: &Vec<P>, context: &mut Context, events: &mut MarkdownEvents) -> (r: ChainRun)
    ensures
        is_chain_trace(r.results@, chain@.len()),
        r.export == trace_exports(r.results@),
{
    let mut results: Vec<PostprocessorResult> = Vec::new();
    let mut i: usize = 0;
    while i < chain.len()
        invariant
            0 <= i <= chain@.len(),
            results@.len() == i,
            forall|k: int| 0 <= k < i ==> #[trigger] results@[k] == PostprocessorResult::Continue,
        decreases chain@.len() - i,
    {
        let res = chain[i].process(context, events);
        results.push(res);
        match next_step(res) {
            ChainStep::GoOn => {},
            ChainStep::Stop { export } => {
                return ChainRun { results, export };
            },
        }
        i = i + 1;
    }
    ChainRun { results, export: true }
}

/// A chain vetoes its note exactly when one of its postprocessors returned
/// `StopAndSkipNote`.
pub proof fn lemma_skip_vetoes_export(results: Seq<PostprocessorResult>, n: nat)
    requires
        is_chain_trace(results, n),
    ensures
        trace_exports(results) <==> forall|i: int| 0 <= i < results.len() ==> #[trigger] results[i] != PostprocessorResult::StopAndSkipNote,
{
    if results.len() > 0 {
        assert(results.last() == results[results.len() - 1]);
    }
}

/// What an embedded note contributes to its parent: its events if its chain
/// let it be exported, and nothing if the chain vetoed it.
pub fn embed_contribution(run: &ChainRun, events: MarkdownEvents) -> (r: MarkdownEvents)
    ensures
        r@ == (if run.export { events@ } else { Seq::<MarkdownEvent>::empty() }),
{
    if run.export {
        events
    } else {
        Vec::new()
    }
}

/// The text written for a root note after its chain ran: nothing where the
/// chain vetoed the note, so that no file is written for it; else its body
/// after a frontmatter block as `strategy` asks.
pub fn note_output(run: &ChainRun, frontmatter: Option<&str>, body: &str, strategy: FrontmatterStrategy) -> (r: Option<String>)
    ensures
        r is None <==> !run.export,
        match r {
            Some(t) => t@ == compose_spec(
                match frontmatter {
                    Some(y) => Some(y@),
                    None => None,
                },
                body@,
                strategy,
            ),
            None => true,
        },
{
    if run.export {
        Some(compose_note(frontmatter, body, strategy))
    } else {
        None
    }
}

} // verus!
