//! The local filing assistant: it answers in the language of the question and
//! decides between help, the review checklist, a note summary, a filing
//! suggestion and a default hint.
use vstd::prelude::*;

use crate::paths::{display_path, shown_on};
use crate::text::{
    ascii_lower, ascii_lowercase, chars_of, contains, contains_str, decimal, extend, extend_str,
    is_ascii_alnum, join, join_chars, lines, lines_of, push_decimal, push_str, starts_with,
    starts_with_str, string_of, to_lower_char, trim, trim_end, trim_start, trimmed, views, Trim,
};
use crate::frontmatter::field_views;
use crate::vault::{classify_path, excerpt_text, kind_label, kind_of_path, OpenTab, ParaKind};

verus! {

broadcast use vstd::string::group_string_axioms;

/// Who wrote a chat message.
#[derive(Debug, Clone, Copy, PartialEq, Eq, Structural)]
pub enum ChatRole {
    User,
    Assistant,
}

/// One message of the chat transcript.
#[derive(Debug, Clone)]
pub struct ChatMessage {
    pub role: ChatRole,
    pub text: String,
}

impl ChatMessage {
    /// A message typed by the user.
    pub fn user(text: String) -> (r: ChatMessage)
        ensures
            r.role == ChatRole::User,
            r.text@ == text@,
    {
        ChatMessage { role: ChatRole::User, text }
    }

    /// A message written by the assistant.
    pub fn assistant(text: String) -> (r: ChatMessage)
        ensures
            r.role == ChatRole::Assistant,
            r.text@ == text@,
    {
        ChatMessage { role: ChatRole::Assistant, text }
    }
}

/// What the assistant knows about the vault and the open note.
#[derive(Debug, Clone)]
pub struct AgentContext {
    pub vault_root: String,
    pub files: Vec<String>,
    pub open_path: Option<String>,
    pub open_title: Option<String>,
    pub open_excerpt: Option<String>,
    /// Whether paths follow the rules of Windows rather than those of Unix.
    pub windows: bool,
}

/// The view of an `AgentContext`.
pub struct ContextView {
    pub root: Seq<char>,
    pub files: Seq<Seq<char>>,
    pub open_path: Option<Seq<char>>,
    pub open_title: Option<Seq<char>>,
    pub open_excerpt: Option<Seq<char>>,
    pub windows: bool,
}

pub open spec fn opt_view(o: Option<String>) -> Option<Seq<char>> {
    match o {
        Some(s) => Some(s@),
        None => None,
    }
}

impl View for AgentContext {
    type V = ContextView;

    open spec fn view(&self) -> ContextView {
        ContextView {
            root: self.vault_root@,
            files: self.files@.map_values(|s: String| s@),
            open_path: opt_view(self.open_path),
            open_title: opt_view(self.open_title),
            open_excerpt: opt_view(self.open_excerpt),
            windows: self.windows,
        }
    }
}

/// The language of a reply.
#[derive(Debug, Clone, Copy, PartialEq, Eq, Structural)]
pub enum Lang {
    En,
    Zh,
}

// ---------------------------------------------------------------------------
// Fixed texts
// ---------------------------------------------------------------------------

pub const HELP_EN: &'static str = "\
PARA is a filing system, not a writing system.

| Bucket | Question | Lives until |
| --- | --- | --- |
| **Project** | Finish line + concrete outcome? | Outcome ships, then archive |
| **Area** | Standing responsibility with a standard? | The role ends |
| **Resource** | Topic you want to keep? | It stops being useful |
| **Archive** | Inactive but worth keeping? | Forever, for search |

Capture into `INBOX.md` first. On review, give each item one home with the `para` CLI — do not invent a fifth top-level folder.

Try: `classify this`, `review`, or paste a raw note.";

pub const HELP_ZH: &'static str = "\
PARA 是归档系统，不是写作系统。

| 桶 | 判断 | 放到什么时候 |
| --- | --- | --- |
| **Project** | 有截止日期和具体成果？ | 做完再 archive |
| **Area** | 长期职责、有标准要维持？ | 职责结束 |
| **Resource** | 想长期留着的主题？ | 不再有用再 archive |
| **Archive** | 已停但值得检索？ | 一直留着 |

先写进 `INBOX.md`。回顾时用 `para` CLI 给每条一个归宿，不要自造第五个顶层目录。

可以试：`归类这篇`、`review`，或直接贴一段草稿。";

pub const REVIEW_EN: &'static str = "\
**Weekly review**

1. Inbox to zero — each line gets one home.
2. Check project `status` / `due` / `outcome`. Done projects become archives.
3. A project without a due date or outcome is an area in disguise.
4. Log the sweep: `para review append --kind weekly --focus inbox`.

**Monthly:** are area standards still true? Are resources still used?

Use the CLI to move notes. This preview is read-only.";

pub const REVIEW_ZH: &'static str = "\
**每周回顾**

1. Inbox 清零，每条只进一个桶。
2. 看项目的 `status` / `due` / `outcome`。做完的项目进 Archives。
3. 没有截止日期或成果的项目，其实是 Area。
4. 记一笔：`para review append --kind weekly --focus inbox`。

**每月：** Area 的标准还成立吗？Resource 还在用吗？

移动笔记请用 `para` CLI。这个预览是只读的。";

/// The PARA overview in the given language.
pub open spec fn help_text(lang: Lang) -> Seq<char> {
    match lang {
        Lang::En => HELP_EN@,
        Lang::Zh => HELP_ZH@,
    }
}

/// The review checklist in the given language.
pub open spec fn review_text(lang: Lang) -> Seq<char> {
    match lang {
        Lang::En => REVIEW_EN@,
        Lang::Zh => REVIEW_ZH@,
    }
}

fn help(lang: Lang) -> (r: String)
    ensures
        r@ == help_text(lang),
{
    let mut r = String::new();
    match lang {
        Lang::En => push_str(&mut r, HELP_EN),
        Lang::Zh => push_str(&mut r, HELP_ZH),
    }
    r
}

fn review(lang: Lang) -> (r: String)
    ensures
        r@ == review_text(lang),
{
    let mut r = String::new();
    match lang {
        Lang::En => push_str(&mut r, REVIEW_EN),
        Lang::Zh => push_str(&mut r, REVIEW_ZH),
    }
    r
}

/// The filing advice for a kind of note.
pub open spec fn advice_text(lang: Lang, kind: ParaKind) -> Seq<char> {
    match (lang, kind) {
        (Lang::En, ParaKind::Inbox) =>
            "Inbox is a holding area. On the next review, give each bullet one home and clear the body."@,
        (Lang::Zh, ParaKind::Inbox) => "Inbox 只是中转。下次回顾时每条只进一个桶，然后清空正文。"@,
        (Lang::En, ParaKind::Index) =>
            "Index is the vault overview. Keep the horizon current; do not dump captures here."@,
        (Lang::Zh, ParaKind::Index) => "Index 是库总览。保持 horizon 最新，不要把草稿堆在这里。"@,
        (Lang::En, ParaKind::Project) =>
            "Needs a due date and a one-sentence outcome. When status is `done`, archive it."@,
        (Lang::Zh, ParaKind::Project) => "项目要有截止日期和一句成果。`done` 之后进 Archives。"@,
        (Lang::En, ParaKind::Area) =>
            "No finish line. Review the standard; archive only when the responsibility ends."@,
        (Lang::Zh, ParaKind::Area) => "Area 没有终点。只复盘标准；职责结束再归档。"@,
        (Lang::En, ParaKind::Resource) =>
            "References have a topic, not an owner or deadline. Archive when you stop using them."@,
        (Lang::Zh, ParaKind::Resource) => "Resource 是主题资料，没有负责人和截止日期。不用了再归档。"@,
        (Lang::En, ParaKind::Archive) => "Keep for search. Do not reopen it as a daily working note."@,
        (Lang::Zh, ParaKind::Archive) => "Archive 留给检索，不要再当日常工作笔记打开。"@,
        (Lang::En, ParaKind::Note) =>
            "Not under a PARA folder yet. Decide: project, area, resource, or still inbox."@,
        (Lang::Zh, ParaKind::Note) => "还不在 PARA 目录里。先决定：项目、职责、资料，还是继续留在 inbox。"@,
    }
}

fn advice(lang: Lang, kind: ParaKind) -> (r: &'static str)
    ensures
        r@ == advice_text(lang, kind),
{
    match (lang, kind) {
        (Lang::En, ParaKind::Inbox) => {
            "Inbox is a holding area. On the next review, give each bullet one home and clear the body."
        },
        (Lang::Zh, ParaKind::Inbox) => "Inbox 只是中转。下次回顾时每条只进一个桶，然后清空正文。",
        (Lang::En, ParaKind::Index) => {
            "Index is the vault overview. Keep the horizon current; do not dump captures here."
        },
        (Lang::Zh, ParaKind::Index) => "Index 是库总览。保持 horizon 最新，不要把草稿堆在这里。",
        (Lang::En, ParaKind::Project) => {
            "Needs a due date and a one-sentence outcome. When status is `done`, archive it."
        },
        (Lang::Zh, ParaKind::Project) => "项目要有截止日期和一句成果。`done` 之后进 Archives。",
        (Lang::En, ParaKind::Area) => {
            "No finish line. Review the standard; archive only when the responsibility ends."
        },
        (Lang::Zh, ParaKind::Area) => "Area 没有终点。只复盘标准；职责结束再归档。",
        (Lang::En, ParaKind::Resource) => {
            "References have a topic, not an owner or deadline. Archive when you stop using them."
        },
        (Lang::Zh, ParaKind::Resource) => "Resource 是主题资料，没有负责人和截止日期。不用了再归档。",
        (Lang::En, ParaKind::Archive) => {
            "Keep for search. Do not reopen it as a daily working note."
        },
        (Lang::Zh, ParaKind::Archive) => "Archive 留给检索，不要再当日常工作笔记打开。",
        (Lang::En, ParaKind::Note) => {
            "Not under a PARA folder yet. Decide: project, area, resource, or still inbox."
        },
        (Lang::Zh, ParaKind::Note) => "还不在 PARA 目录里。先决定：项目、职责、资料，还是继续留在 inbox。",
    }
}

// ---------------------------------------------------------------------------
// Reading the question
// ---------------------------------------------------------------------------

/// CJK unified ideographs, their extension A and the compatibility block.
pub open spec fn cjk_char(c: char) -> bool {
    ('\u{4E00}' <= c && c <= '\u{9FFF}') || ('\u{3400}' <= c && c <= '\u{4DBF}') || ('\u{F900}'
        <= c && c <= '\u{FAFF}')
}

pub open spec fn has_cjk(s: Seq<char>) -> bool {
    exists|i: int| 0 <= i < s.len() && #[trigger] cjk_char(s[i])
}

/// Chinese when the text holds a CJK ideograph, else English.
pub open spec fn lang_of(s: Seq<char>) -> Lang {
    if has_cjk(s) {
        Lang::Zh
    } else {
        Lang::En
    }
}

fn is_cjk(c: char) -> (r: bool)
    ensures
        r == cjk_char(c),
{
    ('\u{4E00}' <= c && c <= '\u{9FFF}') || ('\u{3400}' <= c && c <= '\u{4DBF}') || ('\u{F900}'
        <= c && c <= '\u{FAFF}')
}

fn any_cjk(s: &Vec<char>) -> (r: bool)
    ensures
        r == has_cjk(s@),
{
    let mut i: usize = 0;
    while i < s.len()
        invariant
            i <= s@.len(),
            forall|k: int| 0 <= k < i ==> !cjk_char(s@[k]),
        decreases s@.len() - i,
    {
        if is_cjk(s[i]) {
            assert(cjk_char(s@[i as int]));
            return true;
        }
        i = i + 1;
    }
    false
}

/// Whether a path holds a CJK ideograph.
fn path_looks_cjk(path: &str) -> (r: bool)
    ensures
        r == has_cjk(path@),
{
    let pc = chars_of(path);
    any_cjk(&pc)
}

fn detect_lang(text: &Vec<char>) -> (r: Lang)
    ensures
        r == lang_of(text@),
{
    if any_cjk(text) {
        Lang::Zh
    } else {
        Lang::En
    }
}

/// The user asks how PARA works.
pub open spec fn asks_help(lowered: Seq<char>, raw: Seq<char>) -> bool {
    ||| contains(lowered, "help"@)
    ||| contains(lowered, "how"@)
    ||| contains(lowered, "what is para"@)
    ||| contains(raw, "怎么"@)
    ||| contains(raw, "如何"@)
    ||| contains(raw, "帮助"@)
    ||| contains(raw, "什么是"@)
}

fn looks_like_help(lowered: &Vec<char>, raw: &Vec<char>) -> (r: bool)
    ensures
        r == asks_help(lowered@, raw@),
{
    contains_str(lowered, "help") || contains_str(lowered, "how") || contains_str(
        lowered,
        "what is para",
    ) || contains_str(raw, "怎么") || contains_str(raw, "如何") || contains_str(raw, "帮助")
        || contains_str(raw, "什么是")
}

/// The user asks for the review checklist.
pub open spec fn asks_review(lowered: Seq<char>, raw: Seq<char>) -> bool {
    contains(lowered, "review"@) || contains(raw, "回顾"@) || contains(raw, "复盘"@) || contains(
        raw,
        "清理 inbox"@,
    )
}

fn looks_like_review(lowered: &Vec<char>, raw: &Vec<char>) -> (r: bool)
    ensures
        r == asks_review(lowered@, raw@),
{
    contains_str(lowered, "review") || contains_str(raw, "回顾") || contains_str(raw, "复盘")
        || contains_str(raw, "清理 inbox")
}

/// The user asks about the open note.
pub open spec fn asks_open_file(lowered: Seq<char>, raw: Seq<char>) -> bool {
    ||| contains(lowered, "this note"@)
    ||| contains(lowered, "current"@)
    ||| contains(lowered, "open file"@)
    ||| contains(raw, "这篇"@)
    ||| contains(raw, "当前"@)
    ||| contains(raw, "打开的"@)
}

fn looks_like_open_file(lowered: &Vec<char>, raw: &Vec<char>) -> (r: bool)
    ensures
        r == asks_open_file(lowered@, raw@),
{
    contains_str(lowered, "this note") || contains_str(lowered, "current") || contains_str(
        lowered,
        "open file",
    ) || contains_str(raw, "这篇") || contains_str(raw, "当前") || contains_str(raw, "打开的")
}

/// The user asks where something should be filed.
pub open spec fn asks_classify(lowered: Seq<char>, raw: Seq<char>) -> bool {
    ||| contains(lowered, "classif"@)
    ||| contains(lowered, "where should"@)
    ||| contains(lowered, "file this"@)
    ||| contains(lowered, "which bucket"@)
    ||| contains(raw, "归类"@)
    ||| contains(raw, "归档"@)
    ||| contains(raw, "放哪"@)
    ||| contains(raw, "属于"@)
}

fn looks_like_classify(lowered: &Vec<char>, raw: &Vec<char>) -> (r: bool)
    ensures
        r == asks_classify(lowered@, raw@),
{
    contains_str(lowered, "classif") || contains_str(lowered, "where should") || contains_str(
        lowered,
        "file this",
    ) || contains_str(lowered, "which bucket") || contains_str(raw, "归类") || contains_str(
        raw,
        "归档",
    ) || contains_str(raw, "放哪") || contains_str(raw, "属于")
}

/// A pasted capture rather than a question: more than two lines or more
/// than 80 characters.
pub open spec fn is_capture(user: Seq<char>) -> bool {
    lines(user).len() > 2 || user.len() > 80
}

fn looks_like_capture(user: &Vec<char>) -> (r: bool)
    ensures
        r == is_capture(user@),
{
    let ls = lines_of(user);
    assert(views(ls@).len() == ls@.len());
    ls.len() > 2 || user.len() > 80
}

// ---------------------------------------------------------------------------
// Guessing a bucket
// ---------------------------------------------------------------------------

/// The bucket that the words of `text` point to; `fallback`, else the inbox,
/// when none does. Project words win over area words, area words over
/// resource words, resource words over archive words.
pub open spec fn bucket_for(text: Seq<char>, fallback: Option<ParaKind>) -> ParaKind {
    let l = ascii_lower(text);
    if contains(l, "due"@) || contains(l, "deadline"@) || contains(l, "ship"@) || contains(
        l,
        "launch"@,
    ) || contains(l, "outcome"@) || contains(text, "截止"@) || contains(text, "交付"@) || contains(
        text,
        "上线"@,
    ) {
        ParaKind::Project
    } else if contains(l, "weekly"@) || contains(l, "responsibility"@) || contains(l, "standard"@)
        || contains(l, "ongoing"@) || contains(text, "每周"@) || contains(text, "职责"@) || contains(
        text,
        "保持"@,
    ) {
        ParaKind::Area
    } else if contains(l, "article"@) || contains(l, "book"@) || contains(l, "reference"@)
        || contains(l, "research"@) || contains(text, "资料"@) || contains(text, "笔记"@)
        || contains(text, "文章"@) {
        ParaKind::Resource
    } else if contains(l, "done"@) || contains(l, "inactive"@) || contains(text, "已完成"@)
        || contains(text, "归档"@) {
        ParaKind::Archive
    } else {
        match fallback {
            Some(k) => k,
            None => ParaKind::Inbox,
        }
    }
}

/// A note that mentions a finish line is a project, whatever else it says
/// and whatever the open note is: its ASCII-lower-cased text holds `due`,
/// `deadline`, `ship`, `launch` or `outcome`, or its text holds 截止, 交付 or
/// 上线.
pub proof fn law_finish_line_words_mean_project(text: Seq<char>, fallback: Option<ParaKind>)
    requires
        contains(ascii_lower(text), "due"@) || contains(ascii_lower(text), "deadline"@)
            || contains(ascii_lower(text), "ship"@) || contains(ascii_lower(text), "launch"@)
            || contains(ascii_lower(text), "outcome"@) || contains(text, "截止"@) || contains(
            text,
            "交付"@,
        ) || contains(text, "上线"@),
    ensures
        bucket_for(text, fallback) == ParaKind::Project,
{
}

/// Without a finish line, a note that names a standing responsibility is an
/// area: `weekly`, `responsibility`, `standard` or `ongoing` (in any ASCII
/// case), or 每周, 职责 or 保持.
pub proof fn law_standing_words_mean_area(text: Seq<char>, fallback: Option<ParaKind>)
    requires
        !contains(ascii_lower(text), "due"@),
        !contains(ascii_lower(text), "deadline"@),
        !contains(ascii_lower(text), "ship"@),
        !contains(ascii_lower(text), "launch"@),
        !contains(ascii_lower(text), "outcome"@),
        !contains(text, "截止"@),
        !contains(text, "交付"@),
        !contains(text, "上线"@),
        contains(ascii_lower(text), "weekly"@) || contains(ascii_lower(text), "responsibility"@)
            || contains(ascii_lower(text), "standard"@) || contains(ascii_lower(text), "ongoing"@)
            || contains(text, "每周"@) || contains(text, "职责"@) || contains(text, "保持"@),
    ensures
        bucket_for(text, fallback) == ParaKind::Area,
{
}

/// Without project or area words, a note about something to read is a
/// resource: `article`, `book`, `reference` or `research` (in any ASCII
/// case), or 资料, 笔记 or 文章.
pub proof fn law_reading_words_mean_resource(text: Seq<char>, fallback: Option<ParaKind>)
    requires
        !contains(ascii_lower(text), "due"@),
        !contains(ascii_lower(text), "deadline"@),
        !contains(ascii_lower(text), "ship"@),
        !contains(ascii_lower(text), "launch"@),
        !contains(ascii_lower(text), "outcome"@),
        !contains(text, "截止"@),
        !contains(text, "交付"@),
        !contains(text, "上线"@),
        !contains(ascii_lower(text), "weekly"@),
        !contains(ascii_lower(text), "responsibility"@),
        !contains(ascii_lower(text), "standard"@),
        !contains(ascii_lower(text), "ongoing"@),
        !contains(text, "每周"@),
        !contains(text, "职责"@),
        !contains(text, "保持"@),
        contains(ascii_lower(text), "article"@) || contains(ascii_lower(text), "book"@)
            || contains(ascii_lower(text), "reference"@) || contains(ascii_lower(text), "research"@)
            || contains(text, "资料"@) || contains(text, "笔记"@) || contains(text, "文章"@),
    ensures
        bucket_for(text, fallback) == ParaKind::Resource,
{
}

/// A note with none of the bucket words keeps the kind of the open note, and
/// is an inbox item when no note is open; one with only `done`, `inactive`,
/// 已完成 or 归档 is an archive.
pub proof fn law_other_notes_fall_back(text: Seq<char>, fallback: Option<ParaKind>)
    requires
        !contains(ascii_lower(text), "due"@),
        !contains(ascii_lower(text), "deadline"@),
        !contains(ascii_lower(text), "ship"@),
        !contains(ascii_lower(text), "launch"@),
        !contains(ascii_lower(text), "outcome"@),
        !contains(text, "截止"@),
        !contains(text, "交付"@),
        !contains(text, "上线"@),
        !contains(ascii_lower(text), "weekly"@),
        !contains(ascii_lower(text), "responsibility"@),
        !contains(ascii_lower(text), "standard"@),
        !contains(ascii_lower(text), "ongoing"@),
        !contains(text, "每周"@),
        !contains(text, "职责"@),
        !contains(text, "保持"@),
        !contains(ascii_lower(text), "article"@),
        !contains(ascii_lower(text), "book"@),
        !contains(ascii_lower(text), "reference"@),
        !contains(ascii_lower(text), "research"@),
        !contains(text, "资料"@),
        !contains(text, "笔记"@),
        !contains(text, "文章"@),
    ensures
        (contains(ascii_lower(text), "done"@) || contains(ascii_lower(text), "inactive"@)
            || contains(text, "已完成"@) || contains(text, "归档"@)) ==> bucket_for(text, fallback)
            == ParaKind::Archive,
        !(contains(ascii_lower(text), "done"@) || contains(ascii_lower(text), "inactive"@)
            || contains(text, "已完成"@) || contains(text, "归档"@)) ==> bucket_for(text, fallback)
            == match fallback {
            Some(k) => k,
            None => ParaKind::Inbox,
        },
{
}

fn guess_bucket(text: &Vec<char>, fallback: Option<ParaKind>) -> (r: ParaKind)
    ensures
        r == bucket_for(text@, fallback),
{
    let l = ascii_lowercase(text);
    let zh_project = contains_str(text, "截止") || contains_str(text, "交付") || contains_str(
        text,
        "上线",
    );
    let zh_area = contains_str(text, "每周") || contains_str(text, "职责") || contains_str(
        text,
        "保持",
    );
    let zh_resource = contains_str(text, "资料") || contains_str(text, "笔记") || contains_str(
        text,
        "文章",
    );
    let zh_archive = contains_str(text, "已完成") || contains_str(text, "归档");
    if contains_str(&l, "due") || contains_str(&l, "deadline") || contains_str(&l, "ship")
        || contains_str(&l, "launch") || contains_str(&l, "outcome") || zh_project {
        return ParaKind::Project;
    }
    if contains_str(&l, "weekly") || contains_str(&l, "responsibility") || contains_str(
        &l,
        "standard",
    ) || contains_str(&l, "ongoing") || zh_area {
        return ParaKind::Area;
    }
    if contains_str(&l, "article") || contains_str(&l, "book") || contains_str(&l, "reference")
        || contains_str(&l, "research") || zh_resource {
        return ParaKind::Resource;
    }
    if contains_str(&l, "done") || contains_str(&l, "inactive") || zh_archive {
        return ParaKind::Archive;
    }
    match fallback {
        Some(k) => k,
        None => ParaKind::Inbox,
    }
}

// ---------------------------------------------------------------------------
// Snippets, ids and summaries
// ---------------------------------------------------------------------------

/// One character of the slug rule: ASCII letters and digits in lower case,
/// a space, `-` or `_` as one `-` unless the slug already ends with `-`.
pub open spec fn slug_step(out: Seq<char>, c: char) -> Seq<char> {
    if is_ascii_alnum(c) {
        out.push(lower_char_of(c))
    } else if (c == ' ' || c == '-' || c == '_') && !(out.len() > 0 && out.last() == '-') {
        out.push('-')
    } else {
        out
    }
}

pub open spec fn lower_char_of(c: char) -> char {
    crate::text::lower_char(c)
}

/// The slug characters of `rest` appended to `out`, stopping once the slug
/// has 32 characters.
pub open spec fn slug_from(rest: Seq<char>, out: Seq<char>) -> Seq<char>
    decreases rest.len(),
{
    if rest.len() == 0 || out.len() >= 32 {
        out
    } else {
        slug_from(rest.drop_first(), slug_step(out, rest[0]))
    }
}

/// A CLI id made from `text`: the slug without leading or trailing `-`, or
/// `untitled` when nothing is left.
pub open spec fn slug_text(text: Seq<char>) -> Seq<char> {
    let s = trim(Trim::Dash, slug_from(text, Seq::empty()));
    if s.len() == 0 {
        "untitled"@
    } else {
        s
    }
}

fn slug_chars(text: &Vec<char>) -> (r: Vec<char>)
    ensures
        r@ == slug_text(text@),
{
    let n = text.len();
    let mut out: Vec<char> = Vec::new();
    let mut i: usize = 0;
    assert(text@.subrange(0, n as int) =~= text@);
    while i < n && out.len() < 32
        invariant
            n == text@.len(),
            i <= n,
            slug_from(text@, Seq::empty()) == slug_from(text@.subrange(i as int, n as int), out@),
        decreases n - i,
    {
        let ghost rest = text@.subrange(i as int, n as int);
        assert(rest.drop_first() =~= text@.subrange((i + 1) as int, n as int));
        assert(rest[0] == text@[i as int]);
        let c = text[i];
        if ('0' <= c && c <= '9') || ('a' <= c && c <= 'z') || ('A' <= c && c <= 'Z') {
            let l = to_lower_char(c);
            out.push(l);
        } else if (c == ' ' || c == '-' || c == '_') && !(out.len() > 0 && out[out.len() - 1]
            == '-') {
            out.push('-');
        }
        i = i + 1;
    }
    let t = trimmed(Trim::Dash, &out);
    if t.len() == 0 {
        chars_of("untitled")
    } else {
        t
    }
}

/// The CLI id made from `text` (see `slug_text`).
pub fn slug(text: &str) -> (r: String)
    ensures
        r@ == slug_text(text@),
{
    let t = chars_of(text);
    string_of(&slug_chars(&t))
}

/// A character a CLI id may hold: a lower-case ASCII letter, a digit or `-`.
pub open spec fn is_id_char(c: char) -> bool {
    ('a' <= c && c <= 'z') || ('0' <= c && c <= '9') || c == '-'
}

/// No two `-` stand next to each other.
pub open spec fn no_double_dash(s: Seq<char>) -> bool {
    forall|i: int, j: int|
        0 <= i && j == i + 1 && j < s.len() ==> !(#[trigger] s[i] == '-' && #[trigger] s[j] == '-')
}

/// A kebab-case id of at most 32 characters.
pub open spec fn is_kebab_id(s: Seq<char>) -> bool {
    &&& 0 < s.len() <= 32
    &&& forall|i: int| 0 <= i < s.len() ==> is_id_char(#[trigger] s[i])
    &&& s[0] != '-'
    &&& s.last() != '-'
    &&& no_double_dash(s)
}

spec fn slug_shape(s: Seq<char>) -> bool {
    &&& s.len() <= 32
    &&& forall|i: int| 0 <= i < s.len() ==> is_id_char(#[trigger] s[i])
    &&& no_double_dash(s)
}

proof fn lemma_slug_step_shape(out: Seq<char>, c: char)
    requires
        slug_shape(out),
        out.len() < 32,
    ensures
        slug_shape(slug_step(out, c)),
{
    let r = slug_step(out, c);
    if is_ascii_alnum(c) {
        let l = lower_char_of(c);
        if 'A' <= c && c <= 'Z' {
            assert(((c as u32) + 32) as char == l);
            assert('a' <= l && l <= 'z');
        }
        assert(is_id_char(l));
        assert forall|i: int| 0 <= i < r.len() implies is_id_char(#[trigger] r[i]) by {
            if i < out.len() {
                assert(r[i] == out[i]);
            }
        }
        assert forall|i: int, j: int|
            0 <= i && j == i + 1 && j < r.len() implies !(#[trigger] r[i] == '-' && #[trigger] r[j]
            == '-') by {
            if j < out.len() {
                assert(r[i] == out[i] && r[j] == out[j]);
            }
        }
    } else if (c == ' ' || c == '-' || c == '_') && !(out.len() > 0 && out.last() == '-') {
        assert forall|i: int| 0 <= i < r.len() implies is_id_char(#[trigger] r[i]) by {
            if i < out.len() {
                assert(r[i] == out[i]);
            }
        }
        assert forall|i: int, j: int|
            0 <= i && j == i + 1 && j < r.len() implies !(#[trigger] r[i] == '-' && #[trigger] r[j]
            == '-') by {
            if j < out.len() {
                assert(r[i] == out[i] && r[j] == out[j]);
            } else {
                assert(r[i] == out.last());
            }
        }
    }
}

proof fn lemma_slug_from_shape(rest: Seq<char>, out: Seq<char>)
    requires
        slug_shape(out),
    ensures
        slug_shape(slug_from(rest, out)),
    decreases rest.len(),
{
    if rest.len() > 0 && out.len() < 32 {
        lemma_slug_step_shape(out, rest[0]);
        lemma_slug_from_shape(rest.drop_first(), slug_step(out, rest[0]));
    }
}

proof fn lemma_shape_sub(s: Seq<char>, lo: int, hi: int)
    requires
        slug_shape(s),
        0 <= lo <= hi <= s.len(),
    ensures
        slug_shape(s.subrange(lo, hi)),
{
    let t = s.subrange(lo, hi);
    assert forall|i: int| 0 <= i < t.len() implies is_id_char(#[trigger] t[i]) by {
        assert(t[i] == s[lo + i]);
    }
    assert forall|i: int, j: int|
        0 <= i && j == i + 1 && j < t.len() implies !(#[trigger] t[i] == '-' && #[trigger] t[j]
        == '-') by {
        assert(t[i] == s[lo + i] && t[j] == s[lo + j]);
    }
}

proof fn lemma_trim_start_dash(s: Seq<char>)
    requires
        slug_shape(s),
    ensures
        slug_shape(trim_start(Trim::Dash, s)),
        trim_start(Trim::Dash, s).len() > 0 ==> trim_start(Trim::Dash, s)[0] != '-',
    decreases s.len(),
{
    if s.len() > 0 && s[0] == '-' {
        assert(s.drop_first() =~= s.subrange(1, s.len() as int));
        lemma_shape_sub(s, 1, s.len() as int);
        lemma_trim_start_dash(s.drop_first());
    }
}

proof fn lemma_trim_end_dash(s: Seq<char>)
    requires
        slug_shape(s),
        s.len() > 0 ==> s[0] != '-',
    ensures
        slug_shape(trim_end(Trim::Dash, s)),
        trim_end(Trim::Dash, s).len() > 0 ==> trim_end(Trim::Dash, s)[0] != '-',
        trim_end(Trim::Dash, s).len() > 0 ==> trim_end(Trim::Dash, s).last() != '-',
    decreases s.len(),
{
    if s.len() > 0 && s.last() == '-' {
        assert(s.drop_last() =~= s.subrange(0, s.len() - 1));
        lemma_shape_sub(s, 0, s.len() - 1);
        if s.len() > 1 {
            assert(s.drop_last()[0] == s[0]);
        }
        lemma_trim_end_dash(s.drop_last());
    }
}

/// Every id that `slug` makes for a `para` command is kebab-case: one to 32
/// lower-case letters, digits and single dashes, with no dash at either end.
pub proof fn law_slug_is_kebab_case(text: Seq<char>)
    ensures
        is_kebab_id(slug_text(text)),
{
    let empty = Seq::<char>::empty();
    assert(slug_shape(empty));
    lemma_slug_from_shape(text, empty);
    let raw = slug_from(text, empty);
    lemma_trim_start_dash(raw);
    lemma_trim_end_dash(trim_start(Trim::Dash, raw));
    let s = trim(Trim::Dash, raw);
    if s.len() == 0 {
        reveal_strlit("untitled");
        let u = "untitled"@;
        assert(slug_text(text) == u);
        assert forall|i: int| 0 <= i < u.len() implies is_id_char(#[trigger] u[i]) by {}
        assert(no_double_dash(u));
    }
}

proof fn lemma_slug_from_id(s: Seq<char>, out: Seq<char>)
    requires
        forall|i: int| 0 <= i < s.len() ==> is_id_char(#[trigger] s[i]),
        no_double_dash(out + s),
        out.len() + s.len() <= 32,
    ensures
        slug_from(s, out) == out + s,
    decreases s.len(),
{
    if s.len() == 0 {
        assert(out + s =~= out);
    } else {
        let c = s[0];
        let t = out + s;
        assert(t[out.len() as int] == c);
        assert(is_id_char(c));
        if c == '-' {
            if out.len() > 0 {
                assert(t[out.len() - 1] == out.last());
                assert(!(t[out.len() - 1] == '-' && t[out.len() as int] == '-'));
            }
            assert(slug_step(out, c) == out.push(c));
        } else {
            assert(is_ascii_alnum(c));
            assert(lower_char_of(c) == c);
            assert(slug_step(out, c) == out.push(c));
        }
        assert(out.push(c) + s.drop_first() =~= t);
        assert forall|i: int| 0 <= i < s.drop_first().len() implies is_id_char(
            #[trigger] s.drop_first()[i],
        ) by {
            assert(s.drop_first()[i] == s[i + 1]);
        }
        lemma_slug_from_id(s.drop_first(), out.push(c));
    }
}

/// A slug is its own slug: making an id from an id gives it back.
pub proof fn law_slug_of_slug_is_itself(text: Seq<char>)
    ensures
        slug_text(slug_text(text)) == slug_text(text),
{
    law_slug_is_kebab_case(text);
    let s = slug_text(text);
    let empty = Seq::<char>::empty();
    assert(empty + s =~= s);
    lemma_slug_from_id(s, empty);
    assert(slug_from(s, empty) == s);
    assert(trim_start(Trim::Dash, s) == s);
    assert(trim_end(Trim::Dash, s) == s);
}

proof fn lemma_slug_from_dashes(rest: Seq<char>, out: Seq<char>)
    requires
        forall|i: int| 0 <= i < rest.len() ==> !is_ascii_alnum(#[trigger] rest[i]),
        forall|i: int| 0 <= i < out.len() ==> #[trigger] out[i] == '-',
    ensures
        forall|i: int|
            0 <= i < slug_from(rest, out).len() ==> #[trigger] slug_from(rest, out)[i] == '-',
    decreases rest.len(),
{
    if rest.len() > 0 && out.len() < 32 {
        let o = slug_step(out, rest[0]);
        assert(!is_ascii_alnum(rest[0]));
        assert forall|i: int| 0 <= i < o.len() implies #[trigger] o[i] == '-' by {
            if i < out.len() {
                assert(o[i] == out[i]);
            }
        }
        assert forall|i: int| 0 <= i < rest.drop_first().len() implies !is_ascii_alnum(
            #[trigger] rest.drop_first()[i],
        ) by {
            assert(rest.drop_first()[i] == rest[i + 1]);
        }
        lemma_slug_from_dashes(rest.drop_first(), o);
        assert(slug_from(rest, out) == slug_from(rest.drop_first(), o));
    } else {
        assert(slug_from(rest, out) == out);
    }
}

proof fn lemma_trim_dashes(s: Seq<char>)
    requires
        forall|i: int| 0 <= i < s.len() ==> #[trigger] s[i] == '-',
    ensures
        trim_start(Trim::Dash, s).len() == 0,
    decreases s.len(),
{
    if s.len() > 0 {
        assert forall|i: int| 0 <= i < s.drop_first().len() implies #[trigger] s.drop_first()[i]
            == '-' by {
            assert(s.drop_first()[i] == s[i + 1]);
        }
        lemma_trim_dashes(s.drop_first());
    }
}

/// Text without an ASCII letter or digit has no slug of its own: its id is
/// `untitled`.
pub proof fn law_slug_without_letters_is_untitled(text: Seq<char>)
    requires
        forall|i: int| 0 <= i < text.len() ==> !is_ascii_alnum(#[trigger] text[i]),
    ensures
        slug_text(text) == "untitled"@,
{
    let empty = Seq::<char>::empty();
    lemma_slug_from_dashes(text, empty);
    let raw = slug_from(text, empty);
    lemma_trim_dashes(raw);
    assert(trim_end(Trim::Dash, trim_start(Trim::Dash, raw)).len() == 0);
}

/// At most the first `n` characters of `s`.
pub open spec fn prefix_of(s: Seq<char>, n: nat) -> Seq<char> {
    if s.len() > n {
        s.take(n as int)
    } else {
        s
    }
}

/// The first trimmed line that is neither empty nor a `---` rule.
pub open spec fn first_text_line(ls: Seq<Seq<char>>) -> Option<Seq<char>>
    decreases ls.len(),
{
    if ls.len() == 0 {
        None
    } else {
        let t = trim(Trim::Whitespace, ls[0]);
        if t.len() > 0 && !starts_with(t, "---"@) {
            Some(t)
        } else {
            first_text_line(ls.drop_first())
        }
    }
}

/// The first meaningful line of `text`, at most 120 characters, or
/// `untitled`.
pub open spec fn snippet_of(text: Seq<char>) -> Seq<char> {
    prefix_of(
        match first_text_line(lines(text)) {
            Some(l) => l,
            None => "untitled"@,
        },
        120,
    )
}

fn take_chars(s: &Vec<char>, n: usize) -> (r: Vec<char>)
    ensures
        r@ == prefix_of(s@, n as nat),
{
    if s.len() > n {
        crate::text::subrange(s, 0, n)
    } else {
        crate::text::copy_chars(s)
    }
}

fn first_line(text: &Vec<char>) -> (r: Vec<char>)
    ensures
        r@ == snippet_of(text@),
{
    let ls = lines_of(text);
    let ghost lv = views(ls@);
    let mut i: usize = 0;
    assert(lv.skip(0) =~= lv);
    while i < ls.len()
        invariant
            lv == views(ls@),
            lv == lines(text@),
            i <= lv.len(),
            first_text_line(lv) == first_text_line(lv.skip(i as int)),
        decreases lv.len() - i,
    {
        assert(lv.skip(i as int)[0] == ls@[i as int]@);
        assert(lv.skip(i as int).drop_first() =~= lv.skip((i + 1) as int));
        assert(lv.skip(i as int).len() > 0);
        let t = trimmed(Trim::Whitespace, &ls[i]);
        if t.len() > 0 && !starts_with_str(&t, "---") {
            assert(first_text_line(lv.skip(i as int)) == Some(t@));
            return take_chars(&t, 120);
        }
        i = i + 1;
    }
    let u = chars_of("untitled");
    take_chars(&u, 120)
}

/// The trimmed text, cut after 360 characters with an ellipsis.
pub open spec fn short_excerpt(text: Seq<char>) -> Seq<char> {
    let body = trim(Trim::Whitespace, text);
    if body.len() == 0 {
        Seq::empty()
    } else if body.len() > 360 {
        body.take(360) + "…"@
    } else {
        body
    }
}

fn excerpt_of(text: &Vec<char>) -> (r: Vec<char>)
    ensures
        r@ == short_excerpt(text@),
{
    let body = trimmed(Trim::Whitespace, text);
    if body.len() == 0 {
        return Vec::new();
    }
    let mut short = take_chars(&body, 360);
    if body.len() > 360 {
        extend_str(&mut short, "…");
    }
    short
}

/// The first eight vault files, comma separated, with a count of the rest.
pub open spec fn files_summary(files: Seq<Seq<char>>) -> Seq<char> {
    if files.len() == 0 {
        "(empty vault)"@
    } else if files.len() > 8 {
        join(files.take(8), ", "@) + ", +"@ + decimal((files.len() - 8) as nat) + " more"@
    } else {
        join(files, ", "@)
    }
}

fn summarize_files(files: &Vec<String>) -> (r: Vec<char>)
    ensures
        r@ == files_summary(files@.map_values(|s: String| s@)),
{
    let ghost fv = files@.map_values(|s: String| s@);
    if files.len() == 0 {
        return chars_of("(empty vault)");
    }
    let shown_count: usize = if files.len() > 8 {
        8
    } else {
        files.len()
    };
    let mut shown: Vec<Vec<char>> = Vec::new();
    let mut i: usize = 0;
    while i < shown_count
        invariant
            fv == files@.map_values(|s: String| s@),
            shown_count <= files@.len(),
            i <= shown_count,
            views(shown@) == fv.take(i as int),
        decreases shown_count - i,
    {
        let ghost before = views(shown@);
        let c = chars_of(files[i].as_str());
        shown.push(c);
        assert(views(shown@) =~= before.push(fv[i as int]));
        assert(fv.take((i + 1) as int) =~= fv.take(i as int).push(fv[i as int]));
        i = i + 1;
    }
    let mut r = join_chars(&shown, ", ");
    if files.len() > 8 {
        extend_str(&mut r, ", +");
        push_decimal(&mut r, files.len() - 8);
        extend_str(&mut r, " more");
    } else {
        assert(fv.take(fv.len() as int) =~= fv);
    }
    r
}

/// The `para` command that files a note of the given kind.
pub open spec fn cli_text(kind: ParaKind, snippet: Seq<char>) -> Seq<char> {
    let id = slug_text(snippet);
    match kind {
        ParaKind::Project => "para project create --id "@ + id
            + " --status active --due YYYY-MM-DD --outcome \"…\""@,
        ParaKind::Area => "para area create --id "@ + id + " --status active --standard \"…\""@,
        ParaKind::Resource => "para resource create --id "@ + id + " --topic \"…\" --kind note"@,
        ParaKind::Archive => "para archive create --id "@ + id
            + " --origin project --archived YYYY-MM-DD"@,
        _ => "para inbox write --updated YYYY-MM-DD --body \"…\""@,
    }
}

fn cli_for(kind: ParaKind, snippet: &Vec<char>) -> (r: Vec<char>)
    ensures
        r@ == cli_text(kind, snippet@),
{
    let id = slug_chars(snippet);
    match kind {
        ParaKind::Project => {
            let mut r = chars_of("para project create --id ");
            extend(&mut r, &id);
            extend_str(&mut r, " --status active --due YYYY-MM-DD --outcome \"…\"");
            r
        },
        ParaKind::Area => {
            let mut r = chars_of("para area create --id ");
            extend(&mut r, &id);
            extend_str(&mut r, " --status active --standard \"…\"");
            r
        },
        ParaKind::Resource => {
            let mut r = chars_of("para resource create --id ");
            extend(&mut r, &id);
            extend_str(&mut r, " --topic \"…\" --kind note");
            r
        },
        ParaKind::Archive => {
            let mut r = chars_of("para archive create --id ");
            extend(&mut r, &id);
            extend_str(&mut r, " --origin project --archived YYYY-MM-DD");
            r
        },
        _ => chars_of("para inbox write --updated YYYY-MM-DD --body \"…\""),
    }
}

// ---------------------------------------------------------------------------
// Replies
// ---------------------------------------------------------------------------

/// The kind of the open note, when one is open.
pub open spec fn open_kind(ctx: ContextView) -> Option<ParaKind> {
    match ctx.open_path {
        Some(p) => Some(kind_of_path(ctx.root, p, ctx.windows)),
        None => None,
    }
}

pub open spec fn or_text(o: Option<Seq<char>>, d: Seq<char>) -> Seq<char> {
    match o {
        Some(t) => t,
        None => d,
    }
}

/// The greeting in the given language.
pub open spec fn welcome_text(lang: Lang, ctx: ContextView) -> Seq<char> {
    match lang {
        Lang::En => "I am the local PARA filing assistant for `"@ + ctx.root
            + "`.\n\nOpen a markdown file in the tree, then ask me to classify it, plan a weekly review, or file a raw capture.\n\nVault files: "@
            + files_summary(ctx.files) + "."@,
        Lang::Zh => "我是这个库 `"@ + ctx.root
            + "` 的本地 PARA 归档助手。\n\n左边打开一篇笔记，就可以让我归类、做 weekly review，或处理一段 inbox 草稿。\n\n当前库里有："@
            + files_summary(ctx.files) + "。"@,
    }
}

/// The first message of a session: Chinese when the vault path holds CJK
/// ideographs, else English.
pub open spec fn welcome_message(ctx: ContextView) -> Seq<char> {
    welcome_text(lang_of(ctx.root), ctx)
}

/// What the assistant says about the open note.
pub open spec fn current_note_text(lang: Lang, ctx: ContextView, kind: Option<ParaKind>) -> Seq<
    char,
> {
    match ctx.open_path {
        None => match lang {
            Lang::En => "No markdown tab is open. Pick a file in the tree first."@,
            Lang::Zh => "还没有打开笔记。先在左边点一篇 markdown。"@,
        },
        Some(path) => {
            let k = match kind {
                Some(k) => k,
                None => ParaKind::Note,
            };
            let ex = short_excerpt(or_text(ctx.open_excerpt, Seq::empty()));
            match lang {
                Lang::En => "**"@ + or_text(ctx.open_title, "Untitled"@) + "** is filed as a **"@
                    + kind_label(k) + "**.\n\nPath: `"@ + shown_on(ctx.root, path, ctx.windows) + "`\n\n"@
                    + advice_text(lang, k) + "\n\n"@ + ex,
                Lang::Zh => "**"@ + or_text(ctx.open_title, "未命名"@) + "** 现在在 **"@ + kind_label(
                    k,
                ) + "**。\n\n路径：`"@ + shown_on(ctx.root, path, ctx.windows) + "`\n\n"@ + advice_text(
                    lang,
                    k,
                ) + "\n\n"@ + ex,
            }
        },
    }
}

/// The text a filing suggestion is about: the question itself when it is a
/// capture, else the open note, else the question.
pub open spec fn filing_source(user: Seq<char>, ctx: ContextView) -> Seq<char> {
    if is_capture(user) {
        user
    } else {
        or_text(ctx.open_excerpt, user)
    }
}

/// A filing suggestion with the command that files the note.
pub open spec fn classify_text(
    lang: Lang,
    user: Seq<char>,
    ctx: ContextView,
    kind: Option<ParaKind>,
) -> Seq<char> {
    let source = filing_source(user, ctx);
    let guessed = bucket_for(source, kind);
    let snippet = snippet_of(source);
    match lang {
        Lang::En => "I would file this as a **"@ + kind_label(guessed) + "**.\n\n> "@ + snippet
            + "\n\n"@ + advice_text(lang, guessed) + "\n\nCLI sketch:\n```\n"@ + cli_text(
            guessed,
            snippet,
        ) + "\n```"@,
        Lang::Zh => "这条更像 **"@ + kind_label(guessed) + "**。\n\n> "@ + snippet + "\n\n"@
            + advice_text(lang, guessed) + "\n\n可以用：\n```\n"@ + cli_text(guessed, snippet)
            + "\n```"@,
    }
}

/// The mention of the open tab in the default reply.
pub open spec fn open_tab_note(lang: Lang, ctx: ContextView, kind: Option<ParaKind>) -> Seq<char> {
    match (ctx.open_title, kind) {
        (Some(t), Some(k)) => match lang {
            Lang::En => " Open tab: `"@ + t + "` ("@ + kind_label(k) + ")"@,
            Lang::Zh => " 当前打开：`"@ + t + "`（"@ + kind_label(k) + "）"@,
        },
        _ => Seq::empty(),
    }
}

/// The reply when the question matches nothing else.
pub open spec fn default_text(lang: Lang, ctx: ContextView, kind: Option<ParaKind>) -> Seq<char> {
    match lang {
        Lang::En => "Ask me to classify the open note, paste a capture to file, or say `review`."@
            + open_tab_note(lang, ctx, kind) + "\n\nVault files: "@ + files_summary(ctx.files)
            + "."@,
        Lang::Zh => "可以让我归类当前笔记、贴一段草稿，或者说 `review`。"@ + open_tab_note(
            lang,
            ctx,
            kind,
        ) + "\n\n库里的文件："@ + files_summary(ctx.files) + "。"@,
    }
}

/// The reply to `user`: the review checklist first, then help, then the open
/// note, then a filing suggestion for classify questions and captures, else
/// the default hint; in Chinese when the question holds CJK ideographs.
pub open spec fn reply_text(user: Seq<char>, ctx: ContextView) -> Seq<char> {
    let lang = lang_of(user);
    let lowered = ascii_lower(user);
    let kind = open_kind(ctx);
    if asks_review(lowered, user) {
        review_text(lang)
    } else if asks_help(lowered, user) {
        help_text(lang)
    } else if asks_open_file(lowered, user) {
        current_note_text(lang, ctx, kind)
    } else if asks_classify(lowered, user) || is_capture(user) {
        classify_text(lang, user, ctx, kind)
    } else {
        default_text(lang, ctx, kind)
    }
}

fn opt_chars(o: &Option<String>, d: &str) -> (r: Vec<char>)
    ensures
        r@ == or_text(opt_view(*o), d@),
{
    match o {
        Some(t) => chars_of(t.as_str()),
        None => chars_of(d),
    }
}

fn welcome_for(lang: Lang, ctx: &AgentContext) -> (r: String)
    ensures
        r@ == welcome_text(lang, ctx@),
{
    let root = chars_of(ctx.vault_root.as_str());
    let summary = summarize_files(&ctx.files);
    let mut out: Vec<char> = Vec::new();
    match lang {
        Lang::En => {
            extend_str(&mut out, "I am the local PARA filing assistant for `");
            extend(&mut out, &root);
            extend_str(
                &mut out,
                "`.\n\nOpen a markdown file in the tree, then ask me to classify it, plan a weekly review, or file a raw capture.\n\nVault files: ",
            );
            extend(&mut out, &summary);
            extend_str(&mut out, ".");
        },
        Lang::Zh => {
            extend_str(&mut out, "我是这个库 `");
            extend(&mut out, &root);
            extend_str(
                &mut out,
                "` 的本地 PARA 归档助手。\n\n左边打开一篇笔记，就可以让我归类、做 weekly review，或处理一段 inbox 草稿。\n\n当前库里有：",
            );
            extend(&mut out, &summary);
            extend_str(&mut out, "。");
        },
    }
    assert(out@ =~= welcome_text(lang, ctx@));
    string_of(&out)
}

/// The assistant's greeting for the vault.
pub fn welcome(ctx: &AgentContext) -> (r: String)
    ensures
        r@ == welcome_message(ctx@),
{
    let lang = if path_looks_cjk(ctx.vault_root.as_str()) {
        Lang::Zh
    } else {
        Lang::En
    };
    welcome_for(lang, ctx)
}

fn current_note(lang: Lang, ctx: &AgentContext, kind: Option<ParaKind>) -> (r: String)
    ensures
        r@ == current_note_text(lang, ctx@, kind),
{
    let path = match &ctx.open_path {
        Some(p) => p,
        None => {
            let mut r = String::new();
            match lang {
                Lang::En => push_str(&mut r, "No markdown tab is open. Pick a file in the tree first."),
                Lang::Zh => push_str(&mut r, "还没有打开笔记。先在左边点一篇 markdown。"),
            }
            return r;
        },
    };
    let k = match kind {
        Some(k) => k,
        None => ParaKind::Note,
    };
    let ex_src = opt_chars(&ctx.open_excerpt, "");
    let ex = excerpt_of(&ex_src);
    let shown_s = display_path(ctx.vault_root.as_str(), path.as_str(), ctx.windows);
    let shown = chars_of(shown_s.as_str());
    let label = chars_of(k.label());
    let adv = chars_of(advice(lang, k));
    let mut out: Vec<char> = Vec::new();
    match lang {
        Lang::En => {
            let title = opt_chars(&ctx.open_title, "Untitled");
            extend_str(&mut out, "**");
            extend(&mut out, &title);
            extend_str(&mut out, "** is filed as a **");
            extend(&mut out, &label);
            extend_str(&mut out, "**.\n\nPath: `");
        },
        Lang::Zh => {
            let title = opt_chars(&ctx.open_title, "未命名");
            extend_str(&mut out, "**");
            extend(&mut out, &title);
            extend_str(&mut out, "** 现在在 **");
            extend(&mut out, &label);
            extend_str(&mut out, "**。\n\n路径：`");
        },
    }
    extend(&mut out, &shown);
    extend_str(&mut out, "`\n\n");
    extend(&mut out, &adv);
    extend_str(&mut out, "\n\n");
    extend(&mut out, &ex);
    proof {
        reveal_strlit("");
    }
    assert(out@ =~= current_note_text(lang, ctx@, kind));
    string_of(&out)
}

fn classify(lang: Lang, user: &Vec<char>, ctx: &AgentContext, open_kind: Option<ParaKind>) -> (r:
    String)
    ensures
        r@ == classify_text(lang, user@, ctx@, open_kind),
{
    let source = if looks_like_capture(user) {
        crate::text::copy_chars(user)
    } else {
        match &ctx.open_excerpt {
            Some(e) => chars_of(e.as_str()),
            None => crate::text::copy_chars(user),
        }
    };
    let guessed = guess_bucket(&source, open_kind);
    let snippet = first_line(&source);
    let label = chars_of(guessed.label());
    let adv = chars_of(advice(lang, guessed));
    let cli = cli_for(guessed, &snippet);
    let mut out: Vec<char> = Vec::new();
    match lang {
        Lang::En => {
            extend_str(&mut out, "I would file this as a **");
            extend(&mut out, &label);
            extend_str(&mut out, "**.\n\n> ");
            extend(&mut out, &snippet);
            extend_str(&mut out, "\n\n");
            extend(&mut out, &adv);
            extend_str(&mut out, "\n\nCLI sketch:\n```\n");
        },
        Lang::Zh => {
            extend_str(&mut out, "这条更像 **");
            extend(&mut out, &label);
            extend_str(&mut out, "**。\n\n> ");
            extend(&mut out, &snippet);
            extend_str(&mut out, "\n\n");
            extend(&mut out, &adv);
            extend_str(&mut out, "\n\n可以用：\n```\n");
        },
    }
    extend(&mut out, &cli);
    extend_str(&mut out, "\n```");
    assert(out@ =~= classify_text(lang, user@, ctx@, open_kind));
    string_of(&out)
}

fn default_reply(lang: Lang, ctx: &AgentContext, kind: Option<ParaKind>) -> (r: String)
    ensures
        r@ == default_text(lang, ctx@, kind),
{
    let mut open: Vec<char> = Vec::new();
    match (&ctx.open_title, kind) {
        (Some(t), Some(k)) => {
            let tc = chars_of(t.as_str());
            let label = chars_of(k.label());
            match lang {
                Lang::En => {
                    extend_str(&mut open, " Open tab: `");
                    extend(&mut open, &tc);
                    extend_str(&mut open, "` (");
                    extend(&mut open, &label);
                    extend_str(&mut open, ")");
                },
                Lang::Zh => {
                    extend_str(&mut open, " 当前打开：`");
                    extend(&mut open, &tc);
                    extend_str(&mut open, "`（");
                    extend(&mut open, &label);
                    extend_str(&mut open, "）");
                },
            }
        },
        _ => {},
    }
    assert(open@ =~= open_tab_note(lang, ctx@, kind));
    let summary = summarize_files(&ctx.files);
    let mut out: Vec<char> = Vec::new();
    match lang {
        Lang::En => {
            extend_str(
                &mut out,
                "Ask me to classify the open note, paste a capture to file, or say `review`.",
            );
            extend(&mut out, &open);
            extend_str(&mut out, "\n\nVault files: ");
            extend(&mut out, &summary);
            extend_str(&mut out, ".");
        },
        Lang::Zh => {
            extend_str(&mut out, "可以让我归类当前笔记、贴一段草稿，或者说 `review`。");
            extend(&mut out, &open);
            extend_str(&mut out, "\n\n库里的文件：");
            extend(&mut out, &summary);
            extend_str(&mut out, "。");
        },
    }
    assert(out@ =~= default_text(lang, ctx@, kind));
    string_of(&out)
}

/// The assistant's reply to the message `user`.
pub fn reply(user: &str, ctx: &AgentContext) -> (r: String)
    ensures
        r@ == reply_text(user@, ctx@),
{
    let raw = chars_of(user);
    let lang = detect_lang(&raw);
    let lowered = ascii_lowercase(&raw);
    let kind = match &ctx.open_path {
        Some(p) => Some(classify_path(ctx.vault_root.as_str(), p.as_str(), ctx.windows)),
        None => None,
    };
    if looks_like_review(&lowered, &raw) {
        return review(lang);
    }
    if looks_like_help(&lowered, &raw) {
        return help(lang);
    }
    if looks_like_open_file(&lowered, &raw) {
        return current_note(lang, ctx, kind);
    }
    if looks_like_classify(&lowered, &raw) || looks_like_capture(&raw) {
        return classify(lang, &raw, ctx, kind);
    }
    default_reply(lang, ctx, kind)
}

// ---------------------------------------------------------------------------
// The chat
// ---------------------------------------------------------------------------

/// What the assistant is told: the vault, its note list, and the shown tab.
pub fn agent_context(
    vault_root: &str,
    files: Vec<String>,
    open: Option<&OpenTab>,
    windows: bool,
) -> (r: AgentContext)
    ensures
        r@.root == vault_root@,
        r@.windows == windows,
        r@.files == files@.map_values(|s: String| s@),
        r@.open_path == (match open {
            Some(t) => Some(t.path@),
            None => None,
        }),
        r@.open_title == (match open {
            Some(t) => Some(t.title@),
            None => None,
        }),
        r@.open_excerpt == (match open {
            Some(t) => Some(excerpt_text(t.content@, field_views(t.frontmatter@))),
            None => None,
        }),
{
    let root = string_of(&chars_of(vault_root));
    match open {
        Some(t) => AgentContext {
            vault_root: root,
            files,
            open_path: Some(t.path.clone()),
            open_title: Some(t.title.clone()),
            open_excerpt: Some(t.excerpt()),
            windows,
        },
        None => AgentContext {
            vault_root: root,
            files,
            open_path: None,
            open_title: None,
            open_excerpt: None,
            windows,
        },
    }
}

/// One exchange of the chat: nothing for a blank message, else the trimmed
/// message and the assistant's reply to it.
pub fn chat_turn(input: &str, ctx: &AgentContext) -> (r: Option<(ChatMessage, ChatMessage)>)
    ensures
        trim(Trim::Whitespace, input@).len() == 0 ==> r is None,
        trim(Trim::Whitespace, input@).len() > 0 ==> (r matches Some((u, a)) && u.role
            == ChatRole::User && u.text@ == trim(Trim::Whitespace, input@) && a.role
            == ChatRole::Assistant && a.text@ == reply_text(trim(Trim::Whitespace, input@), ctx@)),
{
    let t = trimmed(Trim::Whitespace, &chars_of(input));
    if t.len() == 0 {
        return None;
    }
    let text = string_of(&t);
    let answer = reply(text.as_str(), ctx);
    Some((ChatMessage::user(text), ChatMessage::assistant(answer)))
}

} // verus!
