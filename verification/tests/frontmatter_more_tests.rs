use para_desktop::frontmatter::split_frontmatter;

fn pairs(raw: &str) -> (Vec<(String, String)>, String) {
    let (fields, body) = split_frontmatter(raw);
    (
        fields.into_iter().map(|f| (f.key, f.value)).collect(),
        body,
    )
}

fn kv(k: &str, v: &str) -> (String, String) {
    (k.to_string(), v.to_string())
}

#[test]
fn folded_blocks_join_nonblank_lines() {
    let (fields, body) = pairs("---\nsummary: >\n  one\n\n  two  \n---\nrest");
    assert_eq!(fields, vec![kv("summary", "one two")]);
    assert_eq!(body, "rest");
}

#[test]
fn literal_blocks_keep_blank_lines_and_extra_indent() {
    let (fields, _) = pairs("---\nnotes: |-\n  a\n\n    b\nnext: x\n---\n");
    assert_eq!(fields, vec![kv("notes", "a\n\n  b"), kv("next", "x")]);
}

#[test]
fn nested_keys_quotes_and_comments() {
    let raw = "---\n# comment\nmeta:\n  owner: 'ada'\n  since: \"2024\"\ntitle: \"A: B\"\nempty:\n---\n\n\r\nBody\n";
    let (fields, body) = pairs(raw);
    assert_eq!(
        fields,
        vec![
            kv("meta.owner", "ada"),
            kv("meta.since", "2024"),
            kv("meta", ""),
            kv("title", "A: B"),
            kv("empty", ""),
        ]
    );
    assert_eq!(body, "Body");
}

#[test]
fn list_items_and_bare_dashes() {
    let (fields, _) = pairs("---\ntags:\n  - \"a\"\n  -\n  - c\n---\n");
    assert_eq!(fields, vec![kv("tags", "a, , c")]);
}

#[test]
fn byte_order_mark_and_dot_fence() {
    let raw = "\u{feff}---\nid: x\n...\nbody";
    let (fields, body) = pairs(raw);
    assert_eq!(fields, vec![kv("id", "x")]);
    assert_eq!(body, "body");
}

#[test]
fn empty_note_has_no_body() {
    assert_eq!(pairs(""), (vec![], String::new()));
    assert_eq!(pairs("\u{feff}"), (vec![], String::new()));
}

#[test]
fn dash_keys_are_not_keys() {
    let (fields, _) = pairs("---\n-x: 1\nk: |\n  kept\nother\n---\n");
    assert_eq!(fields, vec![kv("k", "kept")]);
}

#[test]
fn note_without_fences_keeps_its_byte_order_mark() {
    let raw = "\u{feff}# Title\n---\nnot yaml\n";
    assert_eq!(pairs(raw), (vec![], raw.to_string()));
}

#[test]
fn plain_fields_and_body_read_back_unchanged() {
    let raw = "---\nid: x-1\nstatus: in progress\n---\n# Body\n\n  indented\ntext";
    let (fields, body) = pairs(raw);
    assert_eq!(fields, vec![kv("id", "x-1"), kv("status", "in progress")]);
    assert_eq!(body, "# Body\n\n  indented\ntext");
}

#[test]
fn blank_frontmatter_gives_no_fields() {
    assert_eq!(pairs("---\n\n---\nbody text"), (vec![], "body text".to_string()));
    assert_eq!(pairs("---\n\n---\n"), (vec![], String::new()));
}
