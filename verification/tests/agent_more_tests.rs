use para_desktop::agent::{chat_turn, reply, slug, welcome, AgentContext, ChatRole};

fn ctx_with(open: Option<(&str, &str, &str)>, files: usize) -> AgentContext {
    AgentContext {
        vault_root: "/notes".to_string(),
        files: (0..files).map(|i| format!("n{i}.md")).collect(),
        open_path: open.map(|(p, _, _)| p.to_string()),
        open_title: open.map(|(_, t, _)| t.to_string()),
        open_excerpt: open.map(|(_, _, e)| e.to_string()),
        windows: false,
    }
}

#[test]
fn help_in_english_and_chinese() {
    let ctx = ctx_with(None, 0);
    assert!(reply("help", &ctx).starts_with("PARA is a filing system, not a writing system."));
    assert!(reply("什么是 PARA", &ctx).starts_with("PARA 是归档系统，不是写作系统。"));
}

#[test]
fn review_wins_over_help_words() {
    let ctx = ctx_with(None, 0);
    assert!(reply("how do I run a review", &ctx).starts_with("**Weekly review**"));
}

#[test]
fn current_note_without_tab() {
    let ctx = ctx_with(None, 0);
    assert_eq!(
        reply("what about this note", &ctx),
        "No markdown tab is open. Pick a file in the tree first."
    );
    assert_eq!(reply("这篇", &ctx), "还没有打开笔记。先在左边点一篇 markdown。");
}

#[test]
fn current_note_describes_tab() {
    let ctx = ctx_with(Some(("/notes/Projects/ship.md", "ship.md", "  due soon  ")), 1);
    assert_eq!(
        reply("current", &ctx),
        "**ship.md** is filed as a **Project**.\n\nPath: `Projects/ship.md`\n\nNeeds a due date and a one-sentence outcome. When status is `done`, archive it.\n\ndue soon"
    );
}

#[test]
fn long_excerpt_is_cut() {
    let long = "x".repeat(400);
    let ctx = ctx_with(Some(("/notes/a.md", "a.md", &long)), 0);
    let r = reply("this note", &ctx);
    assert!(r.ends_with(&format!("{}…", "x".repeat(360))));
}

#[test]
fn default_reply_lists_files_with_more_count() {
    let ctx = ctx_with(Some(("/notes/Areas/health.md", "health.md", "")), 10);
    assert_eq!(
        reply("hello there", &ctx),
        "Ask me to classify the open note, paste a capture to file, or say `review`. Open tab: `health.md` (Area)\n\nVault files: n0.md, n1.md, n2.md, n3.md, n4.md, n5.md, n6.md, n7.md, +2 more."
    );
    let empty = ctx_with(None, 0);
    assert_eq!(
        reply("你好", &empty),
        "可以让我归类当前笔记、贴一段草稿，或者说 `review`。\n\n库里的文件：(empty vault)。"
    );
}

#[test]
fn captures_are_classified_from_their_own_text() {
    let ctx = ctx_with(Some(("/notes/INBOX.md", "INBOX.md", "ship it")), 0);
    let capture = "a\nreading list of research papers\nsome more";
    let r = reply(capture, &ctx);
    assert!(r.starts_with("I would file this as a **Resource**.\n\n> a\n\n"), "{r}");
    assert!(r.ends_with("```\npara resource create --id a --topic \"…\" --kind note\n```"), "{r}");
}

#[test]
fn classify_falls_back_to_open_kind_and_untitled_slug() {
    let ctx = ctx_with(Some(("/notes/Archives/x.md", "x.md", "---\n!!!")), 0);
    let r = reply("which bucket?", &ctx);
    assert!(r.starts_with("I would file this as a **Archive**.\n\n> !!!\n\n"), "{r}");
    assert!(r.contains("para archive create --id untitled --origin project"), "{r}");
}

#[test]
fn buckets_by_words() {
    let ctx = ctx_with(None, 0);
    assert!(reply("classify: keep the weekly standard", &ctx).contains("**Area**"));
    assert!(reply("classify: an article", &ctx).contains("**Resource**"));
    assert!(reply("classify: it is inactive", &ctx).contains("**Archive**"));
    assert!(reply("classify: misc", &ctx).contains("**Inbox**"));
    assert!(reply("归类：交付", &ctx).starts_with("这条更像 **Project**。"));
}

#[test]
fn slug_is_capped_and_trimmed() {
    let ctx = ctx_with(None, 0);
    let r = reply("classify: --Ship  The_Big Release Candidate Version Two Now", &ctx);
    assert!(
        r.contains("para project create --id classify-ship-the-big-release-ca --status"),
        "{r}"
    );
}

#[test]
fn welcome_language_follows_vault_path() {
    let mut ctx = ctx_with(None, 2);
    assert_eq!(
        welcome(&ctx),
        "I am the local PARA filing assistant for `/notes`.\n\nOpen a markdown file in the tree, then ask me to classify it, plan a weekly review, or file a raw capture.\n\nVault files: n0.md, n1.md."
    );
    ctx.vault_root = "/笔记".to_string();
    assert!(welcome(&ctx).starts_with("我是这个库 `/笔记` 的本地 PARA 归档助手。"));
}

#[test]
fn chat_turn_trims_and_skips_blank() {
    let ctx = ctx_with(None, 0);
    assert!(chat_turn("  \n ", &ctx).is_none());
    let (user, answer) = chat_turn("  review \n", &ctx).unwrap();
    assert_eq!(user.role, ChatRole::User);
    assert_eq!(user.text, "review");
    assert_eq!(answer.role, ChatRole::Assistant);
    assert!(answer.text.starts_with("**Weekly review**"));
}

#[test]
fn slug_keeps_only_kebab_case_characters() {
    let ctx = ctx_with(None, 0);
    let r = reply("classify: Über-größe_ launch 2026!!", &ctx);
    assert!(r.contains("para project create --id classify-ber-gre-launch-2026 --status"), "{r}");
    let r = reply("classify: ship -- __ --", &ctx);
    assert!(r.contains("--id classify-ship --status"), "{r}");
}

#[test]
fn slug_of_a_slug_is_itself() {
    let ctx = ctx_with(None, 0);
    let first = reply("classify: ship it", &ctx);
    assert!(first.contains("--id classify-ship-it --status"), "{first}");
    let again = reply("classify-ship-it", &ctx);
    assert!(again.contains("--id classify-ship-it --status"), "{again}");
}

#[test]
fn slug_without_letters_or_digits_is_untitled() {
    let ctx = ctx_with(Some(("/notes/Projects/x.md", "x.md", "-- 截止 __ !!")), 0);
    let r = reply("which bucket?", &ctx);
    assert!(r.contains("para project create --id untitled --status"), "{r}");
}

#[test]
fn slug_is_kebab_case_and_stable() {
    assert_eq!(slug("Ship  The_PARA CLI!!"), "ship-the-para-cli");
    assert_eq!(slug(&slug("Ship  The_PARA CLI!!")), "ship-the-para-cli");
    assert_eq!(slug("--"), "untitled");
    assert_eq!(slug("截止 !!"), "untitled");
    assert_eq!(slug(&"a".repeat(40)), "a".repeat(32));
}
