use para_desktop::agent::{reply, welcome, AgentContext, ChatMessage, ChatRole};

fn ctx() -> AgentContext {
    AgentContext {
        vault_root: "/notes".to_string(),
        files: vec!["INBOX.md".to_string(), "Projects/ship.md".to_string()],
        open_path: Some("/notes/INBOX.md".to_string()),
        open_title: Some("INBOX.md".to_string()),
        open_excerpt: Some("- Ship the desktop preview by Friday".to_string()),
        windows: false,
    }
}

#[test]
fn classifies_deadline_as_project() {
    let reply = reply("classify: ship the installer by Friday", &ctx());
    assert!(reply.contains("Project"), "{reply}");
    assert!(reply.contains("para project create"), "{reply}");
}

#[test]
fn chinese_review_uses_chinese() {
    let reply = reply("怎么做 weekly review", &ctx());
    assert!(reply.contains("每周") || reply.contains("Inbox"), "{reply}");
}

#[test]
fn open_note_mentions_inbox() {
    let reply = reply("what about this note", &ctx());
    assert!(reply.contains("Inbox"), "{reply}");
}
