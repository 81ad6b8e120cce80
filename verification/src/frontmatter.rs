//! The leading YAML document of a note (`---` … `---`) and the small YAML
//! subset the preview shows: scalars, quoted scalars, lists, block scalars and
//! one level of nested keys.
use vstd::prelude::*;

use crate::text::{
    chars_of, copy_chars, eq_str, extend, extend_str, is_ws, join, join_chars, lines, lines_of,
    split_char_from, split_nl, starts_with, starts_with_str, string_of, strip_cr, subrange, trim,
    trim_end, trim_start, trimmed, trimmed_end, trimmed_start, views, Trim,
};

verus! {

broadcast use vstd::string::group_string_axioms;

/// One `key: value` pair of a note's frontmatter.
#[derive(Debug, Clone, PartialEq, Eq)]
pub struct FrontmatterField {
    pub key: String,
    pub value: String,
}

impl View for FrontmatterField {
    type V = (Seq<char>, Seq<char>);

    open spec fn view(&self) -> (Seq<char>, Seq<char>) {
        (self.key@, self.value@)
    }
}

/// The views of a list of fields.
pub open spec fn field_views(v: Seq<FrontmatterField>) -> Seq<(Seq<char>, Seq<char>)> {
    v.map_values(|f: FrontmatterField| f@)
}

/// The two YAML block-scalar styles.
#[derive(Clone, Copy, PartialEq, Eq, Debug)]
pub enum BlockStyle {
    /// `|`: lines are kept, joined with newlines.
    Literal,
    /// `>`: non-blank lines are folded into one line.
    Folded,
}

// ---------------------------------------------------------------------------
// Small pieces
// ---------------------------------------------------------------------------

/// The number of leading spaces and tabs of a line.
pub open spec fn indent_of(l: Seq<char>) -> nat
    decreases l.len(),
{
    if l.len() > 0 && (l[0] == ' ' || l[0] == '\t') {
        1 + indent_of(l.drop_first())
    } else {
        0
    }
}

proof fn lemma_indent_bound(l: Seq<char>)
    ensures
        indent_of(l) <= l.len(),
        forall|i: int| 0 <= i < indent_of(l) ==> l[i] == ' ' || l[i] == '\t',
    decreases l.len(),
{
    if l.len() > 0 && (l[0] == ' ' || l[0] == '\t') {
        lemma_indent_bound(l.drop_first());
        assert forall|i: int| 0 <= i < indent_of(l) implies l[i] == ' ' || l[i] == '\t' by {
            if i > 0 {
                assert(l[i] == l.drop_first()[i - 1]);
            }
        }
    }
}

/// The indentation width of a line: leading spaces and tabs.
pub fn indent_width(line: &Vec<char>) -> (r: usize)
    ensures
        r == indent_of(line@),
        r <= line@.len(),
{
    let n = line.len();
    let mut i: usize = 0;
    assert(line@.subrange(0, n as int) =~= line@);
    while i < n && (line[i] == ' ' || line[i] == '\t')
        invariant
            n == line@.len(),
            i <= n,
            indent_of(line@) == i + indent_of(line@.subrange(i as int, n as int)),
        decreases n - i,
    {
        assert(line@.subrange(i as int, n as int).drop_first() =~= line@.subrange(
            (i + 1) as int,
            n as int,
        ));
        i = i + 1;
    }
    assert(line@.subrange(0, n as int) =~= line@) by {}
    i
}

/// A value without surrounding whitespace and without one pair of matching
/// single or double quotes.
pub open spec fn unquote(v: Seq<char>) -> Seq<char> {
    let t = trim(Trim::Whitespace, v);
    if t.len() >= 2 && ((t[0] == '"' && t.last() == '"') || (t[0] == '\'' && t.last() == '\'')) {
        t.subrange(1, t.len() - 1)
    } else {
        t
    }
}

pub fn unquote_yaml(value: &Vec<char>) -> (r: Vec<char>)
    ensures
        r@ == unquote(value@),
{
    let t = trimmed(Trim::Whitespace, value);
    let n = t.len();
    if n >= 2 && ((t[0] == '"' && t[n - 1] == '"') || (t[0] == '\'' && t[n - 1] == '\'')) {
        subrange(&t, 1, n - 1)
    } else {
        t
    }
}

/// The index of the first `c` in `s` at or after `i`, or -1.
pub open spec fn find_from(s: Seq<char>, c: char, i: int) -> int
    decreases s.len() - i,
{
    if i < 0 || i >= s.len() {
        -1
    } else if s[i] == c {
        i
    } else {
        find_from(s, c, i + 1)
    }
}

proof fn lemma_find_from_range(s: Seq<char>, c: char, i: int)
    requires
        0 <= i,
    ensures
        find_from(s, c, i) == -1 || (i <= find_from(s, c, i) < s.len() && s[find_from(
            s,
            c,
            i,
        )] == c),
    decreases s.len() - i,
{
    if i < s.len() && s[i] != c {
        lemma_find_from_range(s, c, i + 1);
    }
}

fn find_char(s: &Vec<char>, c: char) -> (r: Option<usize>)
    ensures
        match r {
            Some(i) => i < s@.len() && find_from(s@, c, 0) == i,
            None => find_from(s@, c, 0) == -1,
        },
{
    let n = s.len();
    let mut i: usize = 0;
    while i < n
        invariant
            n == s@.len(),
            i <= n,
            find_from(s@, c, 0) == find_from(s@, c, i as int),
        decreases n - i,
    {
        if s[i] == c {
            return Some(i);
        }
        i = i + 1;
    }
    None
}

/// `key: value` on one line: the key unquoted and not empty and not a list
/// item, the value trimmed.
pub open spec fn split_kv(line: Seq<char>) -> Option<(Seq<char>, Seq<char>)> {
    let i = find_from(line, ':', 0);
    if i < 0 {
        None
    } else {
        let key = unquote(trim(Trim::Whitespace, line.subrange(0, i)));
        if key.len() == 0 || key[0] == '-' {
            None
        } else {
            Some((key, trim(Trim::Whitespace, line.subrange(i + 1, line.len() as int))))
        }
    }
}

pub fn split_yaml_key_value(line: &Vec<char>) -> (r: Option<(Vec<char>, Vec<char>)>)
    ensures
        match r {
            Some((k, v)) => split_kv(line@) == Some((k@, v@)),
            None => split_kv(line@) is None,
        },
{
    proof {
        lemma_find_from_range(line@, ':', 0);
    }
    let n = line.len();
    match find_char(line, ':') {
        None => None,
        Some(i) => {
            let before = subrange(line, 0, i);
            let key_trimmed = trimmed(Trim::Whitespace, &before);
            let key = unquote_yaml(&key_trimmed);
            if key.len() == 0 || key[0] == '-' {
                None
            } else {
                let after = subrange(line, i + 1, n);
                let value = trimmed(Trim::Whitespace, &after);
                Some((key, value))
            }
        },
    }
}

/// The block style that a value such as `|` or `>-` announces.
pub open spec fn block_style(v: Seq<char>) -> Option<BlockStyle> {
    let t = trim(Trim::Whitespace, v);
    if t == "|"@ || t == "|-"@ || t == "|+"@ {
        Some(BlockStyle::Literal)
    } else if t == ">"@ || t == ">-"@ || t == ">+"@ {
        Some(BlockStyle::Folded)
    } else {
        None
    }
}

pub fn parse_block_style(value: &Vec<char>) -> (r: Option<BlockStyle>)
    ensures
        r == block_style(value@),
{
    let t = trimmed(Trim::Whitespace, value);
    if eq_str(&t, "|") || eq_str(&t, "|-") || eq_str(&t, "|+") {
        Some(BlockStyle::Literal)
    } else if eq_str(&t, ">") || eq_str(&t, ">-") || eq_str(&t, ">+") {
        Some(BlockStyle::Folded)
    } else {
        None
    }
}

/// A line that opens or closes a YAML document.
pub open spec fn is_fence(line: Seq<char>) -> bool {
    trim(Trim::Whitespace, line) == "---"@ || trim(Trim::Whitespace, line) == "..."@
}

pub fn is_frontmatter_fence(line: &Vec<char>) -> (r: bool)
    ensures
        r == is_fence(line@),
{
    let t = trimmed(Trim::Whitespace, line);
    eq_str(&t, "---") || eq_str(&t, "...")
}

// ---------------------------------------------------------------------------
// The line-by-line reader
// ---------------------------------------------------------------------------

/// What the reader knows after some lines: the finished fields, and the key
/// whose value is still being collected.
pub struct Reader {
    pub fields: Seq<(Seq<char>, Seq<char>)>,
    pub key: Option<Seq<char>>,
    pub block: Option<BlockStyle>,
    pub values: Seq<Seq<char>>,
    pub indent: Option<nat>,
}

pub open spec fn reader_start() -> Reader {
    Reader { fields: Seq::empty(), key: None, block: None, values: Seq::empty(), indent: None }
}

/// The trimmed, non-blank lines of a folded block, in order.
pub open spec fn folded_lines(values: Seq<Seq<char>>) -> Seq<Seq<char>>
    decreases values.len(),
{
    if values.len() == 0 {
        Seq::empty()
    } else {
        let rest = folded_lines(values.drop_last());
        let t = trim(Trim::Whitespace, values.last());
        if t.len() > 0 {
            rest.push(t)
        } else {
            rest
        }
    }
}

/// The value that the collected lines of a pending key make.
pub open spec fn pending_value(block: Option<BlockStyle>, values: Seq<Seq<char>>) -> Seq<char> {
    match block {
        Some(BlockStyle::Folded) => join(folded_lines(values), " "@),
        Some(BlockStyle::Literal) => join(values, "\n"@),
        None => join(values, ", "@),
    }
}

/// Ends the pending key, if any, by adding its field.
pub open spec fn flush(r: Reader) -> Reader {
    match r.key {
        None => Reader { values: Seq::empty(), block: None, indent: None, ..r },
        Some(k) => Reader {
            fields: r.fields.push((k, pending_value(r.block, r.values))),
            key: None,
            block: None,
            values: Seq::empty(),
            indent: None,
        },
    }
}

/// A line at indentation zero.
pub open spec fn top_level_line(r: Reader, trimmed: Seq<char>) -> Reader {
    match split_kv(trimmed) {
        Some((k, raw)) => {
            let f = flush(r);
            match block_style(raw) {
                Some(style) => Reader { key: Some(k), block: Some(style), ..f },
                None => if raw.len() == 0 {
                    Reader { key: Some(k), ..f }
                } else {
                    Reader { fields: f.fields.push((k, unquote(raw))), ..f }
                },
            }
        },
        None => flush(r),
    }
}

/// An indented line inside a block scalar.
pub open spec fn block_line(r: Reader, line: Seq<char>) -> Reader {
    let ind = indent_of(line);
    let trimmed = trim(Trim::Whitespace, line);
    let content = match r.indent {
        Some(min) => if ind >= min {
            trim_end(Trim::Whitespace, line.skip(min as int))
        } else {
            trimmed
        },
        None => trimmed,
    };
    let indent = match r.indent {
        Some(min) => Some(min),
        None => Some(ind),
    };
    if r.block == Some(BlockStyle::Literal) || content.len() > 0 {
        Reader { indent: indent, values: r.values.push(content), ..r }
    } else {
        Reader { indent: indent, ..r }
    }
}

/// An indented line under a plain key: a list item, a nested key or a
/// continuation.
pub open spec fn nested_line(r: Reader, trimmed: Seq<char>) -> Reader {
    if starts_with(trimmed, "- "@) {
        Reader { values: r.values.push(unquote(trim(Trim::Whitespace, trimmed.skip(2)))), ..r }
    } else if trimmed == "-"@ {
        Reader { values: r.values.push(Seq::empty()), ..r }
    } else {
        match split_kv(trimmed) {
            Some((k, raw)) => Reader {
                fields: r.fields.push((r.key.unwrap() + "."@ + k, unquote(raw))),
                ..r
            },
            None => Reader { values: r.values.push(unquote(trimmed)), ..r },
        }
    }
}

/// What one more line does to the reader.
pub open spec fn step(r: Reader, line: Seq<char>) -> Reader {
    let trimmed = trim(Trim::Whitespace, line);
    if trimmed.len() == 0 {
        if r.block is Some {
            Reader { values: r.values.push(Seq::empty()), ..r }
        } else {
            r
        }
    } else if starts_with(trim_start(Trim::Whitespace, line), "#"@) && indent_of(line) == 0 {
        r
    } else if indent_of(line) == 0 {
        top_level_line(r, trimmed)
    } else if r.key is None {
        r
    } else if r.block is Some {
        block_line(r, line)
    } else {
        nested_line(r, trimmed)
    }
}

/// The reader after all of `lines`.
pub open spec fn read_lines(lines: Seq<Seq<char>>) -> Reader
    decreases lines.len(),
{
    if lines.len() == 0 {
        reader_start()
    } else {
        step(read_lines(lines.drop_last()), lines.last())
    }
}

/// The fields that the YAML lines of a frontmatter block define, in order.
pub open spec fn parse_fields(lines: Seq<Seq<char>>) -> Seq<(Seq<char>, Seq<char>)> {
    flush(read_lines(lines)).fields
}

/// The executable reader state.
struct ReaderState {
    fields: Vec<FrontmatterField>,
    key: Option<Vec<char>>,
    block: Option<BlockStyle>,
    values: Vec<Vec<char>>,
    indent: Option<usize>,
}

impl ReaderState {
    spec fn model(&self) -> Reader {
        Reader {
            fields: field_views(self.fields@),
            key: match self.key {
                Some(k) => Some(k@),
                None => None,
            },
            block: self.block,
            values: views(self.values@),
            indent: match self.indent {
                Some(i) => Some(i as nat),
                None => None,
            },
        }
    }

    fn push_field(&mut self, key: &Vec<char>, value: &Vec<char>)
        ensures
            final(self).model() == (Reader {
                fields: old(self).model().fields.push((key@, value@)),
                ..old(self).model()
            }),
    {
        let ghost before = field_views(self.fields@);
        let f = FrontmatterField { key: string_of(key), value: string_of(value) };
        self.fields.push(f);
        assert(field_views(self.fields@) =~= before.push((key@, value@)));
    }

    fn push_value(&mut self, value: Vec<char>)
        ensures
            final(self).model() == (Reader {
                values: old(self).model().values.push(value@),
                ..old(self).model()
            }),
    {
        let ghost before = views(self.values@);
        self.values.push(value);
        assert(views(self.values@) =~= before.push(value@));
    }

    fn folded(&self) -> (r: Vec<Vec<char>>)
        ensures
            views(r@) == folded_lines(self.model().values),
    {
        let mut r: Vec<Vec<char>> = Vec::new();
        let mut i: usize = 0;
        let ghost vals = self.model().values;
        while i < self.values.len()
            invariant
                vals == views(self.values@),
                i <= vals.len(),
                views(r@) == folded_lines(vals.take(i as int)),
            decreases vals.len() - i,
        {
            assert(vals.take((i + 1) as int).drop_last() =~= vals.take(i as int));
            assert(vals[i as int] == self.values@[i as int]@);
            let t = trimmed(Trim::Whitespace, &self.values[i]);
            if t.len() > 0 {
                let ghost before = views(r@);
                r.push(t);
                assert(views(r@) =~= before.push(t@));
            }
            i = i + 1;
        }
        assert(vals.take(vals.len() as int) =~= vals);
        r
    }

    fn flush(&mut self)
        ensures
            final(self).model() == flush(old(self).model()),
    {
        match self.key.take() {
            None => {
                self.values = Vec::new();
                self.block = None;
                self.indent = None;
                assert(views(self.values@) =~= Seq::<Seq<char>>::empty());
            },
            Some(key) => {
                let value = match self.block {
                    Some(BlockStyle::Folded) => {
                        let f = self.folded();
                        join_chars(&f, " ")
                    },
                    Some(BlockStyle::Literal) => join_chars(&self.values, "\n"),
                    None => join_chars(&self.values, ", "),
                };
                self.push_field(&key, &value);
                self.block = None;
                self.values = Vec::new();
                self.indent = None;
                assert(views(self.values@) =~= Seq::<Seq<char>>::empty());
            },
        }
    }

    fn top_level_line(&mut self, trimmed: &Vec<char>)
        ensures
            final(self).model() == top_level_line(old(self).model(), trimmed@),
    {
        match split_yaml_key_value(trimmed) {
            Some((key, raw)) => {
                self.flush();
                match parse_block_style(&raw) {
                    Some(style) => {
                        self.key = Some(key);
                        self.block = Some(style);
                    },
                    None => {
                        if raw.len() == 0 {
                            self.key = Some(key);
                        } else {
                            let v = unquote_yaml(&raw);
                            self.push_field(&key, &v);
                        }
                    },
                }
            },
            None => {
                self.flush();
            },
        }
    }

    fn block_line(&mut self, line: &Vec<char>)
        requires
            (old(self).key is Some),
            (old(self).block is Some),
        ensures
            final(self).model() == block_line(old(self).model(), line@),
    {
        let ind = indent_width(line);
        let trimmed_line = trimmed(Trim::Whitespace, line);
        let content = match self.indent {
            Some(min) => {
                if ind >= min {
                    let rest = subrange(line, min, line.len());
                    assert(rest@ == line@.skip(min as int));
                    trimmed_end(Trim::Whitespace, &rest)
                } else {
                    trimmed_line
                }
            },
            None => {
                self.indent = Some(ind);
                trimmed_line
            },
        };
        let literal = match self.block {
            Some(BlockStyle::Literal) => true,
            _ => false,
        };
        if literal || content.len() > 0 {
            self.push_value(content);
        }
    }

    fn nested_line(&mut self, line_t: &Vec<char>)
        requires
            (old(self).key is Some),
        ensures
            final(self).model() == nested_line(old(self).model(), line_t@),
    {
        proof {
            reveal_strlit("- ");
        }
        if starts_with_str(line_t, "- ") {
            let item = subrange(line_t, 2, line_t.len());
            assert(item@ == line_t@.skip(2));
            let t = trimmed(Trim::Whitespace, &item);
            let v = unquote_yaml(&t);
            self.push_value(v);
        } else if eq_str(line_t, "-") {
            let empty: Vec<char> = Vec::new();
            assert(empty@ =~= Seq::<char>::empty());
            self.push_value(empty);
        } else {
            match split_yaml_key_value(line_t) {
                Some((key, raw)) => {
                    let parent = match &self.key {
                        Some(p) => p,
                        None => {
                            return;
                        },
                    };
                    let mut full = copy_chars(parent);
                    extend_str(&mut full, ".");
                    extend(&mut full, &key);
                    let v = unquote_yaml(&raw);
                    self.push_field(&full, &v);
                },
                None => {
                    let v = unquote_yaml(line_t);
                    self.push_value(v);
                },
            }
        }
    }

    fn step(&mut self, line: &Vec<char>)
        ensures
            final(self).model() == step(old(self).model(), line@),
    {
        let trimmed_line = trimmed(Trim::Whitespace, line);
        if trimmed_line.len() == 0 {
            if self.block.is_some() {
                let empty: Vec<char> = Vec::new();
                assert(empty@ =~= Seq::<char>::empty());
                self.push_value(empty);
            }
            return;
        }
        let start = trimmed_start(Trim::Whitespace, line);
        let ind = indent_width(line);
        if starts_with_str(&start, "#") && ind == 0 {
            return;
        }
        if ind == 0 {
            self.top_level_line(&trimmed_line);
            return;
        }
        if self.key.is_none() {
            return;
        }
        if self.block.is_some() {
            self.block_line(line);
            return;
        }
        self.nested_line(&trimmed_line);
    }
}

/// Reads the fields of the YAML lines between the fences.
pub fn parse_frontmatter_fields(lines: &Vec<Vec<char>>) -> (r: Vec<FrontmatterField>)
    ensures
        field_views(r@) == parse_fields(views(lines@)),
{
    let mut st = ReaderState {
        fields: Vec::new(),
        key: None,
        block: None,
        values: Vec::new(),
        indent: None,
    };
    let ghost ls = views(lines@);
    assert(st.model() =~= reader_start()) by {
        assert(field_views(st.fields@) =~= Seq::<(Seq<char>, Seq<char>)>::empty());
        assert(views(st.values@) =~= Seq::<Seq<char>>::empty());
    }
    let mut i: usize = 0;
    while i < lines.len()
        invariant
            ls == views(lines@),
            i <= ls.len(),
            st.model() == read_lines(ls.take(i as int)),
        decreases ls.len() - i,
    {
        assert(ls.take((i + 1) as int).drop_last() =~= ls.take(i as int));
        assert(ls[i as int] == lines@[i as int]@);
        st.step(&lines[i]);
        i = i + 1;
    }
    assert(ls.take(ls.len() as int) =~= ls);
    st.flush();
    st.fields
}

// ---------------------------------------------------------------------------
// Splitting a note
// ---------------------------------------------------------------------------

/// `s` without one leading byte-order mark.
pub open spec fn strip_bom(s: Seq<char>) -> Seq<char> {
    if s.len() > 0 && s[0] == '\u{feff}' {
        s.drop_first()
    } else {
        s
    }
}

/// The index of the first fence line at or after `j`, or -1.
pub open spec fn fence_from(ls: Seq<Seq<char>>, j: int) -> int
    decreases ls.len() - j,
{
    if j < 0 || j >= ls.len() {
        -1
    } else if is_fence(ls[j]) {
        j
    } else {
        fence_from(ls, j + 1)
    }
}

proof fn lemma_fence_from_range(ls: Seq<Seq<char>>, j: int)
    requires
        0 <= j,
    ensures
        fence_from(ls, j) == -1 || (j <= fence_from(ls, j) < ls.len()),
    decreases ls.len() - j,
{
    if j < ls.len() && !is_fence(ls[j]) {
        lemma_fence_from_range(ls, j + 1);
    }
}

/// A note split into its frontmatter fields and its markdown body.
///
/// The frontmatter is the run of lines between a first line that is a fence
/// (`---` or `...`, after an optional byte-order mark) and the next fence.
/// Without both fences the note is all body, returned unchanged; an empty
/// note gives no fields and an empty body. The body is the lines after the
/// closing fence, joined with `\n`, without leading line breaks.
pub open spec fn split_note(raw: Seq<char>) -> (Seq<(Seq<char>, Seq<char>)>, Seq<char>) {
    let ls = lines(strip_bom(raw));
    if ls.len() == 0 {
        (Seq::empty(), Seq::empty())
    } else if !is_fence(ls[0]) {
        (Seq::empty(), raw)
    } else {
        let j = fence_from(ls, 1);
        if j < 0 {
            (Seq::empty(), raw)
        } else {
            (
                parse_fields(ls.subrange(1, j)),
                trim_start(Trim::LineBreak, join(ls.subrange(j + 1, ls.len() as int), "\n"@)),
            )
        }
    }
}

/// A copy of the lines `ls[i..j]`.
fn copy_lines(ls: &Vec<Vec<char>>, i: usize, j: usize) -> (r: Vec<Vec<char>>)
    requires
        i <= j <= ls@.len(),
    ensures
        views(r@) == views(ls@).subrange(i as int, j as int),
{
    let mut r: Vec<Vec<char>> = Vec::new();
    let mut k: usize = i;
    while k < j
        invariant
            i <= k <= j <= ls@.len(),
            views(r@) == views(ls@).subrange(i as int, k as int),
        decreases j - k,
    {
        let ghost before = views(r@);
        let c = copy_chars(&ls[k]);
        r.push(c);
        assert(views(r@) =~= before.push(ls@[k as int]@));
        k = k + 1;
        assert(views(r@) =~= views(ls@).subrange(i as int, k as int));
    }
    r
}

/// Split a leading YAML document (`---` … `---`) from the markdown body.
pub fn split_frontmatter(raw: &str) -> (r: (Vec<FrontmatterField>, String))
    ensures
        (field_views(r.0@), r.1@) == split_note(raw@),
{
    let all = chars_of(raw);
    let text = if all.len() > 0 && all[0] == '\u{feff}' {
        let t = subrange(&all, 1, all.len());
        assert(t@ =~= all@.drop_first());
        t
    } else {
        copy_chars(&all)
    };
    let ls = lines_of(&text);
    let ghost lv = views(ls@);
    let none: Vec<FrontmatterField> = Vec::new();
    assert(field_views(none@) =~= Seq::<(Seq<char>, Seq<char>)>::empty());
    if ls.len() == 0 {
        let body = String::new();
        return (none, body);
    }
    assert(lv[0] == ls@[0]@);
    if !is_frontmatter_fence(&ls[0]) {
        return (none, string_of(&all));
    }
    let mut j: usize = 1;
    proof {
        lemma_fence_from_range(lv, 1);
    }
    while j < ls.len() && !is_frontmatter_fence(&ls[j])
        invariant
            lv == views(ls@),
            1 <= j <= lv.len(),
            fence_from(lv, 1) == fence_from(lv, j as int),
        decreases lv.len() - j,
    {
        assert(lv[j as int] == ls@[j as int]@);
        j = j + 1;
    }
    if j == ls.len() {
        return (none, string_of(&all));
    }
    assert(lv[j as int] == ls@[j as int]@);
    let yaml = copy_lines(&ls, 1, j);
    let fields = parse_frontmatter_fields(&yaml);
    let rest = copy_lines(&ls, j + 1, ls.len());
    let joined = join_chars(&rest, "\n");
    let body = trimmed_start(Trim::LineBreak, &joined);
    (fields, string_of(&body))
}

// ---------------------------------------------------------------------------
// Reading back what was written
// ---------------------------------------------------------------------------

/// A value written in one of YAML's quote pairs.
pub open spec fn quoted(t: Seq<char>) -> bool {
    t.len() >= 2 && ((t[0] == '"' && t.last() == '"') || (t[0] == '\'' && t.last() == '\''))
}

/// A key that a `key: value` line carries as it is: not empty, no
/// surrounding whitespace, no `:` or line break, not a list item, comment or
/// quoted text.
pub open spec fn plain_key(k: Seq<char>) -> bool {
    &&& k.len() > 0
    &&& !is_ws(k[0])
    &&& !is_ws(k.last())
    &&& k[0] != '-'
    &&& k[0] != '#'
    &&& forall|i: int| 0 <= i < k.len() ==> #[trigger] k[i] != ':' && k[i] != '\n'
    &&& !quoted(k)
}

/// A value that a `key: value` line carries as it is: not empty, no
/// surrounding whitespace or line break, not quoted, not a block indicator.
pub open spec fn plain_value(v: Seq<char>) -> bool {
    &&& v.len() > 0
    &&& !is_ws(v[0])
    &&& !is_ws(v.last())
    &&& forall|i: int| 0 <= i < v.len() ==> #[trigger] v[i] != '\n'
    &&& !quoted(v)
    &&& block_style(v) is None
}

/// A field written as a YAML line.
pub open spec fn kv_line(f: (Seq<char>, Seq<char>)) -> Seq<char> {
    f.0 + seq![':', ' '] + f.1
}

/// The fields written one per line, each line ending with a line break.
pub open spec fn field_block(fs: Seq<(Seq<char>, Seq<char>)>) -> Seq<char>
    decreases fs.len(),
{
    if fs.len() == 0 {
        Seq::empty()
    } else {
        kv_line(fs[0]) + seq!['\n'] + field_block(fs.drop_first())
    }
}

/// A note whose frontmatter holds the fields `fs`, followed by `body`.
pub open spec fn note_with_fields(fs: Seq<(Seq<char>, Seq<char>)>, body: Seq<char>) -> Seq<char> {
    "---"@ + seq!['\n'] + field_block(fs) + "---"@ + seq!['\n'] + body
}

proof fn lemma_split_no_sep(x: Seq<char>, y: Seq<char>, sep: char, cur: Seq<char>)
    requires
        forall|i: int| 0 <= i < x.len() ==> x[i] != sep,
    ensures
        split_char_from(x + seq![sep] + y, sep, cur) == seq![cur + x] + split_char_from(
            y,
            sep,
            Seq::empty(),
        ),
    decreases x.len(),
{
    let s = x + seq![sep] + y;
    if x.len() == 0 {
        assert(s.drop_first() =~= y);
        assert(cur + x =~= cur);
    } else {
        assert(s[0] == x[0]);
        assert(s.drop_first() =~= x.drop_first() + seq![sep] + y);
        lemma_split_no_sep(x.drop_first(), y, sep, cur.push(x[0]));
        assert(cur.push(x[0]) + x.drop_first() =~= cur + x);
    }
}

proof fn lemma_split_nonempty(s: Seq<char>, sep: char, cur: Seq<char>)
    ensures
        split_char_from(s, sep, cur).len() >= 1,
    decreases s.len(),
{
    if s.len() > 0 {
        if s[0] == sep {
            lemma_split_nonempty(s.drop_first(), sep, Seq::empty());
        } else {
            lemma_split_nonempty(s.drop_first(), sep, cur.push(s[0]));
        }
    }
}

/// A first line without a line break or a final `\r` splits off whole.
proof fn lemma_lines_cons(x: Seq<char>, y: Seq<char>)
    requires
        forall|i: int| 0 <= i < x.len() ==> x[i] != '\n',
        !(x.len() > 0 && x.last() == '\r'),
    ensures
        lines(x + seq!['\n'] + y) == seq![x] + lines(y),
{
    lemma_split_no_sep(x, y, '\n', Seq::empty());
    lemma_split_nonempty(y, '\n', Seq::empty());
    let big = split_nl(x + seq!['\n'] + y);
    let sm = split_nl(y);
    assert(Seq::<char>::empty() + x =~= x);
    assert(big == seq![x] + sm);
    assert(big.drop_last() =~= seq![x] + sm.drop_last());
    assert(big.last() == sm.last());
    assert(strip_cr(x) == x);
    let f = |l: Seq<char>| strip_cr(l);
    assert(big.drop_last().map_values(f) =~= seq![x] + sm.drop_last().map_values(f));
    if sm.last().len() > 0 {
        assert(lines(x + seq!['\n'] + y) =~= seq![x] + lines(y));
    } else {
        assert(lines(x + seq!['\n'] + y) =~= seq![x] + lines(y));
    }
}

/// A value that a `key: value` line can carry and read back through `unquote`:
/// not empty, no surrounding whitespace or line break, not a block indicator.
pub open spec fn written_value(v: Seq<char>) -> bool {
    &&& v.len() > 0
    &&& !is_ws(v[0])
    &&& !is_ws(v.last())
    &&& forall|i: int| 0 <= i < v.len() ==> #[trigger] v[i] != '\n'
    &&& block_style(v) is None
}

pub open spec fn written_fields(fs: Seq<(Seq<char>, Seq<char>)>) -> bool {
    forall|i: int| 0 <= i < fs.len() ==> plain_key(#[trigger] fs[i].0) && written_value(fs[i].1)
}

/// The fields as they read back: each value without one pair of quotes.
pub open spec fn read_values(fs: Seq<(Seq<char>, Seq<char>)>) -> Seq<(Seq<char>, Seq<char>)> {
    fs.map_values(|f: (Seq<char>, Seq<char>)| (f.0, unquote(f.1)))
}

pub open spec fn plain_fields(fs: Seq<(Seq<char>, Seq<char>)>) -> bool {
    forall|i: int| 0 <= i < fs.len() ==> plain_key(#[trigger] fs[i].0) && plain_value(fs[i].1)
}

/// One field of a written list is written.
proof fn lemma_written_field_at(fs: Seq<(Seq<char>, Seq<char>)>, i: int)
    requires
        written_fields(fs),
        0 <= i < fs.len(),
    ensures
        plain_key(fs[i].0),
        written_value(fs[i].1),
{
    assert(plain_key(fs[i].0) && written_value(fs[i].1));
}

/// One field of a plain list is plain.
proof fn lemma_plain_field_at(fs: Seq<(Seq<char>, Seq<char>)>, i: int)
    requires
        plain_fields(fs),
        0 <= i < fs.len(),
    ensures
        plain_key(fs[i].0),
        plain_value(fs[i].1),
{
    assert(plain_key(fs[i].0) && plain_value(fs[i].1));
}

/// Plain fields are written fields that read back unchanged.
proof fn lemma_plain_written(fs: Seq<(Seq<char>, Seq<char>)>)
    requires
        plain_fields(fs),
    ensures
        written_fields(fs),
        read_values(fs) == fs,
{
    assert forall|i: int| 0 <= i < fs.len() implies plain_key(#[trigger] fs[i].0) && written_value(
        fs[i].1,
    ) by {
        lemma_plain_field_at(fs, i);
    }
    assert forall|i: int| 0 <= i < fs.len() implies #[trigger] read_values(fs)[i] == fs[i] by {
        lemma_plain_field_at(fs, i);
        lemma_trim_plain(fs[i].1);
    }
    assert(read_values(fs) =~= fs);
}

proof fn lemma_kv_line_shape(f: (Seq<char>, Seq<char>))
    requires
        plain_key(f.0),
        written_value(f.1),
    ensures
        forall|i: int| 0 <= i < kv_line(f).len() ==> kv_line(f)[i] != '\n',
        kv_line(f).len() > 3,
        !is_ws(kv_line(f)[0]),
        !is_ws(kv_line(f).last()),
        kv_line(f)[0] == f.0[0],
        kv_line(f).last() == f.1.last(),
{
    let l = kv_line(f);
    assert forall|i: int| 0 <= i < l.len() implies l[i] != '\n' by {
        if i < f.0.len() {
            assert(l[i] == f.0[i]);
        } else if i >= f.0.len() + 2 {
            assert(l[i] == f.1[i - f.0.len() - 2]);
        }
    }
}

proof fn lemma_lines_of_block(fs: Seq<(Seq<char>, Seq<char>)>, rest: Seq<char>)
    requires
        written_fields(fs),
    ensures
        lines(field_block(fs) + rest) == fs.map_values(|f: (Seq<char>, Seq<char>)| kv_line(f))
            + lines(rest),
    decreases fs.len(),
{
    let g = |f: (Seq<char>, Seq<char>)| kv_line(f);
    if fs.len() == 0 {
        assert(field_block(fs) + rest =~= rest);
        assert(fs.map_values(g) + lines(rest) =~= lines(rest));
    } else {
        let d = fs.drop_first();
        assert(written_fields(d)) by {
            assert forall|i: int| 0 <= i < d.len() implies plain_key(#[trigger] d[i].0)
                && written_value(d[i].1) by {
                assert(d[i] == fs[i + 1]);
            }
        }
        lemma_written_field_at(fs, 0);
        lemma_kv_line_shape(fs[0]);
        lemma_lines_of_block(d, rest);
        let x = kv_line(fs[0]);
        assert(field_block(fs) + rest =~= x + seq!['\n'] + (field_block(d) + rest));
        lemma_lines_cons(x, field_block(d) + rest);
        assert(fs.map_values(g) =~= seq![x] + d.map_values(g));
    }
}

proof fn lemma_trim_plain(s: Seq<char>)
    requires
        s.len() > 0,
        !is_ws(s[0]),
        !is_ws(s.last()),
    ensures
        trim(Trim::Whitespace, s) == s,
        trim_start(Trim::Whitespace, s) == s,
{
}

proof fn lemma_find_before(s: Seq<char>, c: char, i: int, k: int)
    requires
        0 <= i <= k < s.len(),
        s[k] == c,
        forall|m: int| i <= m < k ==> s[m] != c,
    ensures
        find_from(s, c, i) == k,
    decreases k - i,
{
    if i < k {
        lemma_find_before(s, c, i + 1, k);
    }
}

proof fn lemma_step_kv(r: Reader, f: (Seq<char>, Seq<char>))
    requires
        plain_key(f.0),
        written_value(f.1),
        r.key is None,
        r.block is None,
        r.values == Seq::<Seq<char>>::empty(),
        r.indent is None,
    ensures
        step(r, kv_line(f)) == (Reader { fields: r.fields.push((f.0, unquote(f.1))), ..r }),
{
    let (k, v) = f;
    let l = kv_line(f);
    lemma_kv_line_shape(f);
    lemma_trim_plain(l);
    lemma_trim_plain(k);
    lemma_trim_plain(v);
    reveal_strlit("#");
    assert(indent_of(l) == 0);
    assert(!starts_with(l, "#"@)) by {
        if starts_with(l, "#"@) {
            assert(l.take(1)[0] == "#"@[0]);
        }
    }
    assert(l[k.len() as int] == ':');
    assert forall|m: int| 0 <= m < k.len() implies l[m] != ':' by {
        assert(l[m] == k[m]);
    }
    lemma_find_before(l, ':', 0, k.len() as int);
    assert(l.subrange(0, k.len() as int) =~= k);
    let after = l.subrange(k.len() as int + 1, l.len() as int);
    assert(after =~= seq![' '] + v);
    assert(trim_start(Trim::Whitespace, after) == trim_start(Trim::Whitespace, after.drop_first()));
    assert(after.drop_first() =~= v);
    assert(trim(Trim::Whitespace, after) == v);
    assert(unquote(k) == k);
    assert(split_kv(l) == Some((k, v)));
    assert(flush(r) == r);
}

proof fn lemma_read_plain(fs: Seq<(Seq<char>, Seq<char>)>)
    requires
        written_fields(fs),
    ensures
        read_lines(fs.map_values(|f: (Seq<char>, Seq<char>)| kv_line(f))) == (Reader {
            fields: read_values(fs),
            key: None,
            block: None,
            values: Seq::empty(),
            indent: None,
        }),
    decreases fs.len(),
{
    let g = |f: (Seq<char>, Seq<char>)| kv_line(f);
    let ls = fs.map_values(g);
    if fs.len() == 0 {
        assert(ls =~= Seq::<Seq<char>>::empty());
        assert(read_values(fs) =~= Seq::<(Seq<char>, Seq<char>)>::empty());
    } else {
        let d = fs.drop_last();
        assert(written_fields(d)) by {
            assert forall|i: int| 0 <= i < d.len() implies plain_key(#[trigger] d[i].0)
                && written_value(d[i].1) by {
                assert(d[i] == fs[i]);
            }
        }
        lemma_read_plain(d);
        assert(ls.drop_last() =~= d.map_values(g));
        assert(ls.last() == kv_line(fs.last()));
        lemma_written_field_at(fs, fs.len() - 1);
        lemma_step_kv(read_lines(d.map_values(g)), fs.last());
        assert(read_values(d).push((fs.last().0, unquote(fs.last().1))) =~= read_values(fs));
        assert(read_lines(ls) == step(read_lines(ls.drop_last()), ls.last()));
    }
}

proof fn lemma_fence_scan(ls: Seq<Seq<char>>, n: int, i: int)
    requires
        1 <= i <= n + 1 < ls.len(),
        forall|m: int| 1 <= m <= n ==> !is_fence(#[trigger] ls[m]),
        is_fence(ls[n + 1]),
    ensures
        fence_from(ls, i) == n + 1,
    decreases n + 1 - i,
{
    if i <= n {
        lemma_fence_scan(ls, n, i + 1);
    }
}

proof fn lemma_no_fence_from(ls: Seq<Seq<char>>, j: int)
    requires
        0 <= j,
        forall|k: int| j <= k < ls.len() ==> !is_fence(#[trigger] ls[k]),
    ensures
        fence_from(ls, j) == -1,
    decreases ls.len() - j,
{
    if j < ls.len() {
        lemma_no_fence_from(ls, j + 1);
    }
}

/// A note that does not open with a fence, or whose opening fence is never
/// closed, has no frontmatter: it is returned whole as its body.
pub proof fn law_note_without_frontmatter_is_kept(raw: Seq<char>)
    requires
        lines(strip_bom(raw)).len() > 0,
        !is_fence(lines(strip_bom(raw))[0]) || forall|k: int|
            1 <= k < lines(strip_bom(raw)).len() ==> !is_fence(#[trigger] lines(strip_bom(raw))[k]),
    ensures
        split_note(raw) == (Seq::<(Seq<char>, Seq<char>)>::empty(), raw),
{
    let ls = lines(strip_bom(raw));
    if is_fence(ls[0]) {
        lemma_no_fence_from(ls, 1);
    }
}

/// A note written as `key: value` lines between `---` fences reads back each
/// key with its value unquoted; its body is the lines after the closing
/// fence, joined with `\n`, without leading line breaks.
proof fn lemma_note_reads_back(fs: Seq<(Seq<char>, Seq<char>)>, body: Seq<char>)
    requires
        written_fields(fs),
    ensures
        split_note(note_with_fields(fs, body)) == (
            read_values(fs),
            trim_start(Trim::LineBreak, join(lines(body), "\n"@)),
        ),
{
    let g = |f: (Seq<char>, Seq<char>)| kv_line(f);
    let kv = fs.map_values(g);
    let fence = "---"@;
    reveal_strlit("---");
    reveal_strlit("...");
    let raw = note_with_fields(fs, body);
    assert(raw[0] == '-');
    assert(strip_bom(raw) == raw);
    let tail = fence + seq!['\n'] + body;
    assert(fence.len() == 3 && fence[0] == '-' && fence[1] == '-' && fence[2] == '-');
    lemma_lines_cons(fence, field_block(fs) + tail);
    lemma_lines_cons(fence, body);
    assert(raw =~= fence + seq!['\n'] + (field_block(fs) + tail));
    lemma_lines_of_block(fs, tail);
    assert(lines(raw) == seq![fence] + (kv + lines(tail)));
    assert(lines(tail) == seq![fence] + lines(body));
    let ls = lines(raw);
    assert(ls =~= seq![fence] + kv + seq![fence] + lines(body));
    let n = fs.len() as int;
    assert(trim(Trim::Whitespace, fence) == fence);
    assert(is_fence(fence));
    assert(ls[0] == fence);
    assert(ls[n + 1] == fence);
    assert forall|m: int| 1 <= m <= n implies !is_fence(#[trigger] ls[m]) by {
        assert(ls[m] == kv[m - 1]);
        lemma_written_field_at(fs, m - 1);
        lemma_kv_line_shape(fs[m - 1]);
        lemma_trim_plain(kv[m - 1]);
    }
    lemma_fence_scan(ls, n, 1);
    assert(ls.subrange(1, n + 1) =~= kv);
    assert(ls.subrange(n + 2, ls.len() as int) =~= lines(body));
    lemma_read_plain(fs);
}

/// What the frontmatter says is read back: a note that starts with a
/// `---` fence, one `key: value` line per field, and a closing `---` fence
/// gives exactly those fields, in order, when every key and value is plain;
/// its body is the lines after the closing fence, joined with `\n`, without
/// leading line breaks.
pub proof fn law_written_fields_read_back(fs: Seq<(Seq<char>, Seq<char>)>, body: Seq<char>)
    requires
        plain_fields(fs),
    ensures
        split_note(note_with_fields(fs, body)) == (
            fs,
            trim_start(Trim::LineBreak, join(lines(body), "\n"@)),
        ),
{
    lemma_plain_written(fs);
    lemma_note_reads_back(fs, body);
}

/// Each value written in one of YAML's quote pairs.
pub open spec fn quote_values(fs: Seq<(Seq<char>, Seq<char>)>, q: char) -> Seq<
    (Seq<char>, Seq<char>),
> {
    fs.map_values(|f: (Seq<char>, Seq<char>)| (f.0, seq![q] + f.1 + seq![q]))
}

/// A quoted value reads back without its quotes: a note whose frontmatter
/// lines are `key: 'value'` (or `key: "value"`), with plain keys and values
/// on one line, gives each key with the value between the quotes, whatever
/// that value holds.
pub proof fn law_quoted_fields_read_back(
    fs: Seq<(Seq<char>, Seq<char>)>,
    body: Seq<char>,
    q: char,
)
    requires
        q == '\'' || q == '"',
        forall|i: int| 0 <= i < fs.len() ==> plain_key(#[trigger] fs[i].0),
        forall|i: int, j: int| 0 <= i < fs.len() && 0 <= j < fs[i].1.len() ==> #[trigger] fs[i].1[j]
            != '\n',
    ensures
        split_note(note_with_fields(quote_values(fs, q), body)) == (
            fs,
            trim_start(Trim::LineBreak, join(lines(body), "\n"@)),
        ),
{
    let qs = quote_values(fs, q);
    reveal_strlit("|");
    reveal_strlit("|-");
    reveal_strlit("|+");
    reveal_strlit(">");
    reveal_strlit(">-");
    reveal_strlit(">+");
    assert forall|i: int| 0 <= i < qs.len() implies plain_key(#[trigger] qs[i].0) && written_value(
        qs[i].1,
    ) by {
        let v = fs[i].1;
        let w = qs[i].1;
        assert(w == seq![q] + v + seq![q]);
        assert(plain_key(fs[i].0));
        assert forall|j: int| 0 <= j < w.len() implies #[trigger] w[j] != '\n' by {
            if 0 < j < w.len() - 1 {
                assert(w[j] == v[j - 1]);
                assert(fs[i].1[j - 1] != '\n');
            }
        }
        lemma_trim_plain(w);
        assert(w[0] == q);
    }
    assert forall|i: int| 0 <= i < fs.len() implies #[trigger] read_values(qs)[i] == fs[i] by {
        let v = fs[i].1;
        let w = qs[i].1;
        assert(w == seq![q] + v + seq![q]);
        lemma_trim_plain(w);
        assert(w.subrange(1, w.len() - 1) =~= v);
    }
    assert(read_values(qs) =~= fs);
    lemma_note_reads_back(qs, body);
}


proof fn lemma_join_cons(x: Seq<char>, rest: Seq<Seq<char>>, sep: Seq<char>)
    requires
        rest.len() > 0,
    ensures
        join(seq![x] + rest, sep) == x + sep + join(rest, sep),
    decreases rest.len(),
{
    let t = seq![x] + rest;
    assert(join(t, sep) == join(t.drop_last(), sep) + sep + t.last());
    if rest.len() == 1 {
        assert(t.drop_last() =~= seq![x]);
        assert(join(seq![x], sep) == x);
        assert(t.last() == rest[0]);
        assert(join(rest, sep) == rest[0]);
    } else {
        assert(t.drop_last() =~= seq![x] + rest.drop_last());
        assert(t.last() == rest.last());
        lemma_join_cons(x, rest.drop_last(), sep);
        assert(join(rest, sep) == join(rest.drop_last(), sep) + sep + rest.last());
        assert(join(t, sep) =~= x + sep + join(rest, sep));
    }
}

proof fn lemma_join_split(s: Seq<char>, sep: char, cur: Seq<char>)
    ensures
        join(split_char_from(s, sep, cur), seq![sep]) == cur + s,
    decreases s.len(),
{
    if s.len() == 0 {
        assert(cur + s =~= cur);
    } else if s[0] == sep {
        let r = split_char_from(s.drop_first(), sep, Seq::empty());
        lemma_split_nonempty(s.drop_first(), sep, Seq::empty());
        lemma_join_split(s.drop_first(), sep, Seq::empty());
        lemma_join_cons(cur, r, seq![sep]);
        assert(Seq::<char>::empty() + s.drop_first() =~= s.drop_first());
        assert(cur + seq![sep] + s.drop_first() =~= cur + s);
    } else {
        lemma_join_split(s.drop_first(), sep, cur.push(s[0]));
        assert(cur.push(s[0]) + s.drop_first() =~= cur + s);
    }
}

/// No piece of a split holds a character that neither the text nor the
/// started piece holds.
proof fn lemma_split_no_cr(s: Seq<char>, sep: char, cur: Seq<char>)
    requires
        forall|i: int| 0 <= i < s.len() ==> s[i] != '\r',
        forall|i: int| 0 <= i < cur.len() ==> cur[i] != '\r',
    ensures
        forall|k: int|
            0 <= k < split_char_from(s, sep, cur).len() ==> strip_cr(
                #[trigger] split_char_from(s, sep, cur)[k],
            ) == split_char_from(s, sep, cur)[k],
    decreases s.len(),
{
    let p = split_char_from(s, sep, cur);
    if s.len() > 0 {
        assert forall|i: int| 0 <= i < s.drop_first().len() implies s.drop_first()[i] != '\r' by {
            assert(s.drop_first()[i] == s[i + 1]);
        }
    }
    if s.len() == 0 {
        assert(p == seq![cur]);
        if cur.len() > 0 {
            assert(cur.last() == cur[cur.len() - 1]);
        }
        assert(strip_cr(cur) == cur);
        assert forall|k: int| 0 <= k < p.len() implies strip_cr(#[trigger] p[k]) == p[k] by {
            assert(p[k] == cur);
        }
    } else if s[0] == sep {
        let r = split_char_from(s.drop_first(), sep, Seq::empty());
        assert(p == seq![cur] + r);
        lemma_split_no_cr(s.drop_first(), sep, Seq::empty());
        assert forall|k: int| 0 <= k < p.len() implies strip_cr(#[trigger] p[k]) == p[k] by {
            if k == 0 {
                assert(p[0] == cur);
                if cur.len() > 0 {
                    assert(cur.last() == cur[cur.len() - 1]);
                }
            } else {
                assert(p[k] == r[k - 1]);
            }
        }
    } else {
        assert forall|i: int| 0 <= i < cur.push(s[0]).len() implies cur.push(s[0])[i] != '\r' by {
            if i < cur.len() {
                assert(cur.push(s[0])[i] == cur[i]);
            }
        }
        lemma_split_no_cr(s.drop_first(), sep, cur.push(s[0]));
        assert(p == split_char_from(s.drop_first(), sep, cur.push(s[0])));
    }
}

proof fn lemma_split_last_nonempty(s: Seq<char>, sep: char, cur: Seq<char>)
    requires
        s.len() > 0,
        s.last() != sep,
    ensures
        split_char_from(s, sep, cur).last().len() > 0,
    decreases s.len(),
{
    let p = split_char_from(s, sep, cur);
    if s.len() == 1 {
        assert(s[0] == s.last());
        assert(s.drop_first().len() == 0);
        assert(p == split_char_from(s.drop_first(), sep, cur.push(s[0])));
        assert(p == seq![cur.push(s[0])]);
    } else {
        assert(s.drop_first().last() == s.last());
        if s[0] == sep {
            lemma_split_last_nonempty(s.drop_first(), sep, Seq::empty());
            let r = split_char_from(s.drop_first(), sep, Seq::empty());
            lemma_split_nonempty(s.drop_first(), sep, Seq::empty());
            assert(p == seq![cur] + r);
            assert((seq![cur] + r).last() == r.last());
        } else {
            lemma_split_last_nonempty(s.drop_first(), sep, cur.push(s[0]));
            assert(p == split_char_from(s.drop_first(), sep, cur.push(s[0])));
        }
    }
}

/// A body without `\r`, and without a line break at either end, is its
/// lines joined with `\n`, with no leading line break to strip.
proof fn lemma_plain_body(b: Seq<char>)
    requires
        forall|i: int| 0 <= i < b.len() ==> b[i] != '\r',
        !(b.len() > 0 && b[0] == '\n'),
        !(b.len() > 0 && b.last() == '\n'),
    ensures
        trim_start(Trim::LineBreak, join(lines(b), "\n"@)) == b,
{
    reveal_strlit("\n");
    assert("\n"@ =~= seq!['\n']);
    let segs = split_nl(b);
    lemma_split_no_cr(b, '\n', Seq::empty());
    lemma_split_nonempty(b, '\n', Seq::empty());
    lemma_join_split(b, '\n', Seq::empty());
    assert(Seq::<char>::empty() + b =~= b);
    let f = |l: Seq<char>| strip_cr(l);
    let done = segs.drop_last().map_values(f);
    assert(done =~= segs.drop_last());
    if b.len() > 0 {
        lemma_split_last_nonempty(b, '\n', Seq::empty());
        assert(lines(b) =~= segs);
        assert(join(lines(b), "\n"@) == b);
    } else {
        assert(segs =~= seq![Seq::<char>::empty()]);
        assert(lines(b) =~= Seq::<Seq<char>>::empty());
        assert(join(lines(b), "\n"@) =~= b);
    }
}

/// A plain body after the closing fence comes back unchanged: a note written
/// as plain `key: value` lines between `---` fences, followed by a body
/// without `\r` and without a line break at either end, gives exactly those
/// fields and that body.
pub proof fn law_written_note_reads_back(fs: Seq<(Seq<char>, Seq<char>)>, body: Seq<char>)
    requires
        plain_fields(fs),
        forall|i: int| 0 <= i < body.len() ==> body[i] != '\r',
        !(body.len() > 0 && body[0] == '\n'),
        !(body.len() > 0 && body.last() == '\n'),
    ensures
        split_note(note_with_fields(fs, body)) == (fs, body),
{
    law_written_fields_read_back(fs, body);
    lemma_plain_body(body);
}

/// An empty frontmatter written as one blank line between the fences gives no
/// fields, and a plain body after it comes back unchanged.
pub proof fn law_blank_frontmatter_reads_back(body: Seq<char>)
    requires
        forall|i: int| 0 <= i < body.len() ==> body[i] != '\r',
        !(body.len() > 0 && body[0] == '\n'),
        !(body.len() > 0 && body.last() == '\n'),
    ensures
        split_note("---\n\n---\n"@ + body) == (Seq::<(Seq<char>, Seq<char>)>::empty(), body),
{
    reveal_strlit("---\n\n---\n");
    reveal_strlit("---");
    reveal_strlit("...");
    let fence = "---"@;
    let blank = Seq::<char>::empty();
    let raw = "---\n\n---\n"@ + body;
    assert(raw[0] == '-');
    assert(strip_bom(raw) == raw);
    let tail = fence + seq!['\n'] + body;
    assert(raw =~= fence + seq!['\n'] + (blank + seq!['\n'] + tail));
    lemma_lines_cons(fence, blank + seq!['\n'] + tail);
    lemma_lines_cons(blank, tail);
    lemma_lines_cons(fence, body);
    let ls = lines(raw);
    assert(ls =~= seq![fence, blank, fence] + lines(body));
    assert(trim(Trim::Whitespace, fence) == fence);
    assert(is_fence(fence));
    assert(trim(Trim::Whitespace, blank) == blank);
    assert(!is_fence(blank));
    assert(ls[0] == fence && ls[1] == blank && ls[2] == fence);
    lemma_fence_scan(ls, 1, 1);
    assert(ls.subrange(1, 2) =~= seq![blank]);
    assert(ls.subrange(3, ls.len() as int) =~= lines(body));
    let one = seq![blank];
    assert(one.drop_last() =~= Seq::<Seq<char>>::empty());
    assert(one.last() == blank);
    assert(read_lines(Seq::<Seq<char>>::empty()) == reader_start());
    assert(read_lines(one) == step(read_lines(one.drop_last()), one.last()));
    assert(read_lines(one) == step(reader_start(), blank));
    assert(parse_fields(one) =~= Seq::<(Seq<char>, Seq<char>)>::empty());
    lemma_plain_body(body);
}

} // verus!
