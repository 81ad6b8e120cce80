use para_desktop::frontmatter::split_frontmatter;

#[test]
fn split_frontmatter_reads_scalar_fields() {
    let raw = "---\nid: ship-para-desktop\nstatus: active\noutcome: A GPUI app\n---\n\n# Ship para desktop\n";
    let (fields, body) = split_frontmatter(raw);
    assert_eq!(
        fields
            .iter()
            .map(|field| (field.key.as_str(), field.value.as_str()))
            .collect::<Vec<_>>(),
        vec![
            ("id", "ship-para-desktop"),
            ("status", "active"),
            ("outcome", "A GPUI app"),
        ]
    );
    assert_eq!(body, "# Ship para desktop");
}

#[test]
fn split_frontmatter_keeps_body_when_fence_is_missing() {
    let raw = "# Inbox\n\nDump first.\n";
    let (fields, body) = split_frontmatter(raw);
    assert!(fields.is_empty());
    assert_eq!(body, raw);
}

#[test]
fn split_frontmatter_ignores_unclosed_fence() {
    let raw = "---\nid: broken\n# still markdown\n";
    let (fields, body) = split_frontmatter(raw);
    assert!(fields.is_empty());
    assert_eq!(body, raw);
}

#[test]
fn split_frontmatter_reads_lists_and_blocks() {
    let raw =
        "---\ntags:\n  - para\n  - desktop\nnotes: |\n  line one\n  line two\n---\nbody\n";
    let (fields, body) = split_frontmatter(raw);
    assert_eq!(fields[0].key, "tags");
    assert_eq!(fields[0].value, "para, desktop");
    assert_eq!(fields[1].key, "notes");
    assert_eq!(fields[1].value, "line one\nline two");
    assert_eq!(body, "body");
}
