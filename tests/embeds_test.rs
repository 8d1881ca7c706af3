use obsidian_export::context::Context;
use obsidian_export::encoding::percent_encode;
use obsidian_export::destination::destination_for;
use obsidian_export::embeds::{plan_embed, splice_embed, EmbedPlan};
use obsidian_export::errors::ExportError;
use obsidian_export::frontmatter::FrontmatterStrategy;
use obsidian_export::links::{join_path, render_link, resolve_link, LinkFormat, VaultIndex};
use obsidian_export::postprocessors::{ChainRun, MarkdownEvent, PostprocessorResult};

fn path(p: &str) -> Vec<String> {
    p.split('/').map(|s| s.to_string()).collect()
}

fn index() -> VaultIndex {
    VaultIndex::new(vec![path("A/Note.md"), path("B/Other.md"), path("img/pic.png")])
}

#[test]
fn embed_of_missing_file_is_unresolved() {
    let root = Context::new("A/Note.md".to_string(), "out/A/Note.md".to_string(), "vault".to_string(), FrontmatterStrategy::Auto);
    let plan = plan_embed(&index(), "Nothing", &path("A/Note.md"), &root, true, 10).unwrap();
    assert!(matches!(plan, EmbedPlan::Unresolved));
}

#[test]
fn embed_of_asset_is_an_asset() {
    let root = Context::new("A/Note.md".to_string(), "out/A/Note.md".to_string(), "vault".to_string(), FrontmatterStrategy::Auto);
    let plan = plan_embed(&index(), "pic.png|200", &path("A/Note.md"), &root, true, 10).unwrap();
    assert!(matches!(plan, EmbedPlan::Asset(2)));
}

#[test]
fn embed_without_recursion_links_only() {
    let root = Context::new("A/Note.md".to_string(), "out/A/Note.md".to_string(), "vault".to_string(), FrontmatterStrategy::Auto);
    let plan = plan_embed(&index(), "Other#Part", &path("A/Note.md"), &root, false, 10).unwrap();
    assert!(matches!(plan, EmbedPlan::LinkOnly(1)));
}

#[test]
fn embed_of_note_expands_in_child_context() {
    let root = Context::new("A/Note.md".to_string(), "out/A/Note.md".to_string(), "vault".to_string(), FrontmatterStrategy::Auto);
    match plan_embed(&index(), "Other", &path("A/Note.md"), &root, true, 10).unwrap() {
        EmbedPlan::Expand(1, child) => {
            assert_eq!(child.file_tree, vec!["A/Note.md".to_string(), "B/Other.md".to_string()]);
            assert!(child.frontmatter.is_empty());
            assert_eq!(child.vault_root, "vault");
            assert_eq!(child.frontmatter_strategy, FrontmatterStrategy::Auto);
        }
        _ => panic!("expected an expansion"),
    }
}

#[test]
fn notes_embedding_each_other_fail_both_ways() {
    let idx = index();
    for (first, second) in [("A/Note.md", "Other"), ("B/Other.md", "Note")] {
        let root = Context::new(first.to_string(), "out".to_string(), "vault".to_string(), FrontmatterStrategy::Auto);
        let child = match plan_embed(&idx, second, &path(first), &root, true, 10).unwrap() {
            EmbedPlan::Expand(_, c) => c,
            _ => panic!("expected an expansion"),
        };
        let back = if first == "A/Note.md" { "Note" } else { "Other" };
        let referrer = path(child.current_file());
        assert!(matches!(
            plan_embed(&idx, back, &referrer, &child, true, 10),
            Err(ExportError::RecursionLimitExceeded { .. })
        ));
    }
}

#[test]
fn join_path_uses_slashes() {
    assert_eq!(join_path(&path("a/b/c.md")), "a/b/c.md");
    assert_eq!(join_path(&vec![]), "");
    assert_eq!(join_path(&vec!["x".to_string()]), "x");
}

#[test]
fn default_links_are_relative() {
    assert_eq!(render_link(&path("A/Note.md"), &path("A/Sub/T.md"), None, LinkFormat::Default), "Sub/T.md");
    assert_eq!(render_link(&path("A/Note.md"), &path("B/T.md"), Some("Head"), LinkFormat::Default), "../B/T.md#Head");
    assert_eq!(render_link(&path("A/X/Note.md"), &path("T.md"), None, LinkFormat::Default), "../../T.md");
    assert_eq!(render_link(&path("Note.md"), &path("T.md"), None, LinkFormat::Default), "T.md");
}

#[test]
fn zola_links_start_at_site_root() {
    assert_eq!(render_link(&path("A/Note.md"), &path("B/T.md"), None, LinkFormat::Zola), "@/B/T.md");
    assert_eq!(render_link(&path("A/Note.md"), &path("T.md"), Some("s"), LinkFormat::Zola), "@/T.md#s");
}

fn events() -> Vec<MarkdownEvent> {
    vec![
        MarkdownEvent::Text("before".to_string()),
        MarkdownEvent::Other(0),
        MarkdownEvent::Text("after".to_string()),
    ]
}

#[test]
fn vetoed_embed_leaves_parent_minus_embed() {
    let run = ChainRun { results: vec![PostprocessorResult::StopAndSkipNote], export: false };
    let out = splice_embed(events(), 1, &run, vec![MarkdownEvent::Text("inner".to_string())]);
    assert_eq!(out.len(), 2);
    assert!(matches!(&out[0], MarkdownEvent::Text(t) if t == "before"));
    assert!(matches!(&out[1], MarkdownEvent::Text(t) if t == "after"));
}

#[test]
fn exported_embed_is_spliced_in() {
    let run = ChainRun { results: vec![PostprocessorResult::Continue], export: true };
    let inner = vec![MarkdownEvent::Text("i1".to_string()), MarkdownEvent::SoftBreak];
    let out = splice_embed(events(), 1, &run, inner);
    assert_eq!(out.len(), 4);
    assert!(matches!(&out[1], MarkdownEvent::Text(t) if t == "i1"));
    assert!(matches!(out[2], MarkdownEvent::SoftBreak));
    assert!(matches!(&out[3], MarkdownEvent::Text(t) if t == "after"));
}

#[test]
fn default_links_are_percent_encoded() {
    assert_eq!(
        render_link(&path("Note.md"), &path("Sub dir/Ünï (x).md"), Some("Part"), LinkFormat::Default),
        "Sub%20dir/%C3%9Cn%C3%AF%20%28x%29.md#Part"
    );
}

#[test]
fn percent_encoding_of_each_class() {
    assert_eq!(percent_encode("a-b_c.d~!"), "a-b_c.d~!");
    assert_eq!(percent_encode(" ()%?"), "%20%28%29%25%3F");
    assert_eq!(percent_encode("\t\u{7f}"), "%09%7F");
    assert_eq!(percent_encode("é€𝄞"), "%C3%A9%E2%82%AC%F0%9D%84%9E");
    assert_eq!(percent_encode(""), "");
}

#[test]
fn ignored_directories_are_left_out_of_the_index() {
    let walked = vec![path("A/Note.md"), path("private/Secret.md"), path("private"), path("B/x.md"), path("privateer/y.md")];
    let idx = VaultIndex::from_walk(walked, &vec![path("private")]);
    assert_eq!(idx.files, vec![path("A/Note.md"), path("B/x.md"), path("privateer/y.md")]);
    assert_eq!(idx.resolve(&"Secret".to_string(), &path("A/Note.md")), None);
    let all = VaultIndex::from_walk(vec![path("a.md")], &vec![]);
    assert_eq!(all.files, vec![path("a.md")]);
}

#[test]
fn destinations_follow_the_source_layout() {
    assert_eq!(destination_for(&path("v/A/n.md"), &path("v"), &path("out"), true), path("out/A/n.md"));
    assert_eq!(destination_for(&path("v/A/n.md"), &path("v/A"), &path("out"), true), path("out/n.md"));
    assert_eq!(destination_for(&path("v/A/n.md"), &path("v/A/n.md"), &path("out"), true), path("out/n.md"));
    assert_eq!(destination_for(&path("v/A/n.md"), &path("v/A/n.md"), &path("out/renamed.md"), false), path("out/renamed.md"));
}

#[test]
fn links_resolve_with_display_text() {
    let idx = VaultIndex::new(vec![path("A/Note.md"), path("B/Other.md"), path("A/Sub/Other.md")]);
    let l = resolve_link(&idx, "Other#Part", &path("A/Note.md"), LinkFormat::Default).unwrap();
    assert_eq!(l.file, 2);
    assert_eq!(l.display, "Other > Part");
    assert_eq!(l.reference, "Sub/Other.md#Part");
    let l = resolve_link(&idx, "Other|Shown", &path("B/x.md"), LinkFormat::Zola).unwrap();
    assert_eq!(l.file, 1);
    assert_eq!(l.display, "Shown");
    assert_eq!(l.reference, "@/B/Other.md");
    let l = resolve_link(&idx, "Note", &path("B/x.md"), LinkFormat::Default).unwrap();
    assert_eq!(l.display, "Note");
    assert_eq!(l.reference, "../A/Note.md");
    assert!(resolve_link(&idx, "Missing|x", &path("A/Note.md"), LinkFormat::Default).is_none());
}
