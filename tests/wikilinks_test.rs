use obsidian_export::links::{LinkFormat, VaultIndex};
use obsidian_export::postprocessors::MarkdownEvent;
use obsidian_export::wikilinks::{parse_wikilinks, rewrite_links, rewrite_text, SegmentKind, TextSegment};

fn view(segs: &[TextSegment]) -> Vec<(SegmentKind, &str)> {
    segs.iter().map(|s| (s.kind, s.text.as_str())).collect()
}

#[test]
fn links_and_embeds_are_recognized() {
    let segs = parse_wikilinks("See [[Note#Head|Alias]] and ![[pic.png]].");
    assert_eq!(
        view(&segs),
        vec![
            (SegmentKind::Plain, "See "),
            (SegmentKind::Link, "Note#Head|Alias"),
            (SegmentKind::Plain, " and "),
            (SegmentKind::Embed, "pic.png"),
            (SegmentKind::Plain, "."),
        ]
    );
}

#[test]
fn text_without_links_stays_plain() {
    assert_eq!(view(&parse_wikilinks("plain [text] here")), vec![(SegmentKind::Plain, "plain [text] here")]);
    assert!(parse_wikilinks("").is_empty());
}

#[test]
fn malformed_links_stay_plain() {
    assert_eq!(view(&parse_wikilinks("[[]]")), vec![(SegmentKind::Plain, "[[]]")]);
    assert_eq!(view(&parse_wikilinks("[[open")), vec![(SegmentKind::Plain, "[[open")]);
    assert_eq!(view(&parse_wikilinks("[[a\nb]]")), vec![(SegmentKind::Plain, "[[a\nb]]")]);
    assert_eq!(view(&parse_wikilinks("[[a]")), vec![(SegmentKind::Plain, "[[a]")]);
}

#[test]
fn adjacent_links_and_leading_embed() {
    assert_eq!(
        view(&parse_wikilinks("![[A]][[B]]")),
        vec![(SegmentKind::Embed, "A"), (SegmentKind::Link, "B")]
    );
    assert_eq!(
        view(&parse_wikilinks("[[[x]]")),
        vec![(SegmentKind::Plain, "["), (SegmentKind::Link, "x")]
    );
    assert_eq!(
        view(&parse_wikilinks("!![[Ünï]]")),
        vec![(SegmentKind::Plain, "!"), (SegmentKind::Embed, "Ünï")]
    );
}

fn path(p: &str) -> Vec<String> {
    p.split('/').map(|s| s.to_string()).collect()
}

#[test]
fn text_runs_become_events() {
    let idx = VaultIndex::new(vec![path("A/Note.md"), path("B/Other.md")]);
    let events = rewrite_text(
        "x [[Other#Sec]] y [[Gone|Label]] ![[Note]]",
        &idx,
        &path("A/Note.md"),
        LinkFormat::Default,
    );
    assert_eq!(events.len(), 6);
    assert!(matches!(&events[0], MarkdownEvent::Text(t) if t == "x "));
    assert!(matches!(&events[1], MarkdownEvent::Link { reference, display }
        if reference == "../B/Other.md#Sec" && display == "Other > Sec"));
    assert!(matches!(&events[2], MarkdownEvent::Text(t) if t == " y "));
    assert!(matches!(&events[3], MarkdownEvent::Text(t) if t == "Label"));
    assert!(matches!(&events[4], MarkdownEvent::Text(t) if t == " "));
    assert!(matches!(&events[5], MarkdownEvent::Embed(t) if t == "Note"));
}

#[test]
fn text_without_links_is_one_event() {
    let idx = VaultIndex::new(vec![]);
    let events = rewrite_text("just text", &idx, &path("n.md"), LinkFormat::Zola);
    assert_eq!(events.len(), 1);
    assert!(matches!(&events[0], MarkdownEvent::Text(t) if t == "just text"));
}

#[test]
fn event_streams_have_their_text_runs_rewritten() {
    let idx = VaultIndex::new(vec![path("Other.md")]);
    let events = vec![
        MarkdownEvent::Other(0),
        MarkdownEvent::Text("a [[Other]] b".to_string()),
        MarkdownEvent::SoftBreak,
        MarkdownEvent::Text("![[Other]]".to_string()),
        MarkdownEvent::Other(1),
    ];
    let out = rewrite_links(events, &idx, &path("Note.md"), LinkFormat::Default);
    assert_eq!(out.len(), 7);
    assert!(matches!(out[0], MarkdownEvent::Other(0)));
    assert!(matches!(&out[1], MarkdownEvent::Text(t) if t == "a "));
    assert!(matches!(&out[2], MarkdownEvent::Link { reference, display } if reference == "Other.md" && display == "Other"));
    assert!(matches!(&out[3], MarkdownEvent::Text(t) if t == " b"));
    assert!(matches!(out[4], MarkdownEvent::SoftBreak));
    assert!(matches!(&out[5], MarkdownEvent::Embed(t) if t == "Other"));
    assert!(matches!(out[6], MarkdownEvent::Other(1)));
    assert!(rewrite_links(vec![], &idx, &path("Note.md"), LinkFormat::Default).is_empty());
}
