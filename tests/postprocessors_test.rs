use obsidian_export::context::Context;
use obsidian_export::errors::ExportError;
use obsidian_export::frontmatter::{Frontmatter, FrontmatterStrategy, FrontmatterValue};
use obsidian_export::postprocessors::{
    embed_contribution, filter_by_tags, next_step, ChainStep, filter_by_tags_, note_output, only_published_filter, run_postprocessors,
    softbreaks_to_hardbreaks, MarkdownEvent, MarkdownEvents, Postprocessor, PostprocessorResult,
};

fn context() -> Context {
    Context::new("Note.md".to_string(), "out/Note.md".to_string(), "vault".to_string(), FrontmatterStrategy::Auto)
}

#[test]
fn test_filter_tags() {
    let tags = vec![
        FrontmatterValue::String("skip".into()),
        FrontmatterValue::String("publish".into()),
    ];
    let empty_tags = vec![];
    assert_eq!(
        filter_by_tags_(&empty_tags, &[], &[]),
        PostprocessorResult::Continue,
        "When no exclusion & inclusion are specified, files without tags are included"
    );
    assert_eq!(
        filter_by_tags_(&tags, &[], &[]),
        PostprocessorResult::Continue,
        "When no exclusion & inclusion are specified, files with tags are included"
    );
    assert_eq!(
        filter_by_tags_(&tags, &["exclude".into()], &[]),
        PostprocessorResult::Continue,
        "When exclusion tags don't match files with tags are included"
    );
    assert_eq!(
        filter_by_tags_(&empty_tags, &["exclude".into()], &[]),
        PostprocessorResult::Continue,
        "When exclusion tags don't match files without tags are included"
    );
    assert_eq!(
        filter_by_tags_(&tags, &[], &["publish".into()]),
        PostprocessorResult::Continue,
        "When exclusion tags don't match files with tags are included"
    );
    assert_eq!(
        filter_by_tags_(&empty_tags, &[], &["include".into()]),
        PostprocessorResult::StopAndSkipNote,
        "When inclusion tags are specified files without tags are excluded"
    );
    assert_eq!(
        filter_by_tags_(&tags, &[], &["include".into()]),
        PostprocessorResult::StopAndSkipNote,
        "When exclusion tags don't match files with tags are exluded"
    );
    assert_eq!(
        filter_by_tags_(&tags, &["skip".into()], &["skip".into()]),
        PostprocessorResult::StopAndSkipNote,
        "When both inclusion and exclusion tags are the same exclusion wins"
    );
    assert_eq!(
        filter_by_tags_(&tags, &["skip".into()], &["publish".into()]),
        PostprocessorResult::StopAndSkipNote,
        "When both inclusion and exclusion tags match exclusion wins"
    );
}

#[test]
fn tag_filter_skip_wins_over_keep_on_note() {
    let mut ctx = context();
    ctx.frontmatter.insert(
        "tags".to_string(),
        FrontmatterValue::Sequence(vec![FrontmatterValue::String("skip".into())]),
    );
    let filter = filter_by_tags(vec!["skip".to_string()], vec!["skip".to_string()]);
    let mut events: MarkdownEvents = vec![];
    assert_eq!(filter.apply(&mut ctx, &mut events), PostprocessorResult::StopAndSkipNote);
}

#[test]
fn tag_filter_without_tags_entry() {
    let mut ctx = context();
    let mut events: MarkdownEvents = vec![];
    let keep_only = filter_by_tags(vec![], vec!["publish".to_string()]);
    assert_eq!(keep_only.apply(&mut ctx, &mut events), PostprocessorResult::StopAndSkipNote);
    let skip_only = filter_by_tags(vec!["draft".to_string()], vec![]);
    assert_eq!(skip_only.apply(&mut ctx, &mut events), PostprocessorResult::Continue);
}

#[test]
fn tag_filter_ignores_tags_that_are_not_a_sequence() {
    let mut ctx = context();
    ctx.frontmatter.insert("tags".to_string(), FrontmatterValue::String("skip".into()));
    let filter = filter_by_tags(vec!["skip".to_string()], vec![]);
    let mut events: MarkdownEvents = vec![];
    assert_eq!(filter.apply(&mut ctx, &mut events), PostprocessorResult::Continue);
}

#[test]
fn softbreaks_become_hardbreaks() {
    let mut ctx = context();
    let mut events: MarkdownEvents = vec![
        MarkdownEvent::Text("a".to_string()),
        MarkdownEvent::SoftBreak,
        MarkdownEvent::Text("b".to_string()),
        MarkdownEvent::HardBreak,
        MarkdownEvent::SoftBreak,
        MarkdownEvent::Other(7),
    ];
    assert_eq!(softbreaks_to_hardbreaks(&mut ctx, &mut events), PostprocessorResult::Continue);
    assert_eq!(events.len(), 6);
    assert!(matches!(&events[0], MarkdownEvent::Text(t) if t == "a"));
    assert!(matches!(events[1], MarkdownEvent::HardBreak));
    assert!(matches!(&events[2], MarkdownEvent::Text(t) if t == "b"));
    assert!(matches!(events[3], MarkdownEvent::HardBreak));
    assert!(matches!(events[4], MarkdownEvent::HardBreak));
    assert!(matches!(events[5], MarkdownEvent::Other(7)));
}

#[test]
fn only_published_notes_pass() {
    let mut events: MarkdownEvents = vec![];

    let mut published = context();
    published.frontmatter.insert("publish".to_string(), FrontmatterValue::Bool(true));
    assert_eq!(only_published_filter(&mut published, &mut events), PostprocessorResult::Continue);

    let mut unpublished = context();
    unpublished.frontmatter.insert("publish".to_string(), FrontmatterValue::Bool(false));
    assert_eq!(only_published_filter(&mut unpublished, &mut events), PostprocessorResult::StopAndSkipNote);

    let mut text_flag = context();
    text_flag.frontmatter.insert("publish".to_string(), FrontmatterValue::String("true".into()));
    assert_eq!(only_published_filter(&mut text_flag, &mut events), PostprocessorResult::StopAndSkipNote);

    let mut no_flag = context();
    assert_eq!(only_published_filter(&mut no_flag, &mut events), PostprocessorResult::StopAndSkipNote);
}

struct Fixed(PostprocessorResult);

impl Postprocessor for Fixed {
    fn process(&self, _context: &mut Context, _events: &mut MarkdownEvents) -> PostprocessorResult {
        self.0
    }
}

#[test]
fn chain_stops_at_stop_here_and_exports() {
    let chain = vec![
        Fixed(PostprocessorResult::Continue),
        Fixed(PostprocessorResult::StopHere),
        Fixed(PostprocessorResult::StopAndSkipNote),
    ];
    let mut ctx = context();
    let mut events: MarkdownEvents = vec![];
    let run = run_postprocessors(&chain, &mut ctx, &mut events);
    assert_eq!(run.results, vec![PostprocessorResult::Continue, PostprocessorResult::StopHere]);
    assert!(run.export);
}

#[test]
fn chain_stop_and_skip_vetoes_note() {
    let chain = vec![
        Fixed(PostprocessorResult::StopAndSkipNote),
        Fixed(PostprocessorResult::Continue),
    ];
    let mut ctx = context();
    let mut events: MarkdownEvents = vec![MarkdownEvent::Text("x".to_string())];
    let run = run_postprocessors(&chain, &mut ctx, &mut events);
    assert_eq!(run.results, vec![PostprocessorResult::StopAndSkipNote]);
    assert!(!run.export);
    assert!(embed_contribution(&run, events).is_empty());
}

#[test]
fn chain_runs_all_when_each_continues() {
    let chain = vec![Fixed(PostprocessorResult::Continue), Fixed(PostprocessorResult::Continue)];
    let mut ctx = context();
    let mut events: MarkdownEvents = vec![MarkdownEvent::Text("x".to_string())];
    let run = run_postprocessors(&chain, &mut ctx, &mut events);
    assert_eq!(run.results.len(), 2);
    assert!(run.export);
    assert_eq!(embed_contribution(&run, events).len(), 1);
}

#[test]
fn empty_chain_exports() {
    let chain: Vec<Fixed> = vec![];
    let mut ctx = context();
    let mut events: MarkdownEvents = vec![];
    let run = run_postprocessors(&chain, &mut ctx, &mut events);
    assert!(run.results.is_empty());
    assert!(run.export);
}

#[test]
fn frontmatter_insert_and_get() {
    let mut fm = Frontmatter::new();
    assert!(fm.is_empty());
    assert!(fm.insert("bar".to_string(), FrontmatterValue::String("baz".into())).is_none());
    assert!(fm.insert("n".to_string(), FrontmatterValue::Number("3".into())).is_none());
    let old = fm.insert("bar".to_string(), FrontmatterValue::Null);
    assert!(matches!(old, Some(FrontmatterValue::String(s)) if s == "baz"));
    assert_eq!(fm.len(), 2);
    assert!(matches!(fm.get("bar"), Some(FrontmatterValue::Null)));
    assert!(fm.get("missing").is_none());
    assert_eq!(fm.entries()[0].0, "bar");
    assert_eq!(fm.entries()[1].0, "n");
}

#[test]
fn vetoed_root_note_writes_nothing() {
    let chain = vec![Fixed(PostprocessorResult::StopAndSkipNote)];
    let mut ctx = context();
    let mut events: MarkdownEvents = vec![];
    let run = run_postprocessors(&chain, &mut ctx, &mut events);
    assert!(note_output(&run, Some("a: 1\n"), "Body\n", FrontmatterStrategy::Auto).is_none());
}

#[test]
fn exported_root_note_is_composed() {
    let chain = vec![Fixed(PostprocessorResult::StopHere)];
    let mut ctx = context();
    let mut events: MarkdownEvents = vec![];
    let run = run_postprocessors(&chain, &mut ctx, &mut events);
    assert_eq!(
        note_output(&run, Some("a: 1\n"), "Body\n", FrontmatterStrategy::Auto).as_deref(),
        Some("---\na: 1\n---\n\nBody\n")
    );
    assert_eq!(
        note_output(&run, None, "Body\n", FrontmatterStrategy::Always).as_deref(),
        Some("---\n---\n\nBody\n")
    );
}

#[test]
fn file_errors_name_the_file() {
    match ExportError::for_file("A.md".to_string(), ExportError::FrontmatterDecodeError) {
        ExportError::FileExportError { path, source } => {
            assert_eq!(path, "A.md");
            assert!(matches!(*source, ExportError::FrontmatterDecodeError));
        }
        _ => panic!("expected a file error"),
    }
}

#[test]
fn tagged_publish_flag_is_not_true() {
    let mut events: MarkdownEvents = vec![];
    let mut tagged = context();
    tagged.frontmatter.insert(
        "publish".to_string(),
        FrontmatterValue::Tagged { tag: "!x".to_string(), value: Box::new(FrontmatterValue::Bool(true)) },
    );
    assert_eq!(only_published_filter(&mut tagged, &mut events), PostprocessorResult::StopAndSkipNote);
}

#[test]
fn chain_steps_follow_results() {
    assert_eq!(next_step(PostprocessorResult::Continue), ChainStep::GoOn);
    assert_eq!(next_step(PostprocessorResult::StopHere), ChainStep::Stop { export: true });
    assert_eq!(next_step(PostprocessorResult::StopAndSkipNote), ChainStep::Stop { export: false });
}
