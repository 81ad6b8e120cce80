//! Windows paths held as text, with the rules that `std::path` follows on
//! Windows.
//!
//! Both `\` and `/` separate components, except in verbatim paths (`\\?\…`),
//! where only `\` does and a `.` piece is a component of its own. A path may
//! start with a prefix: a drive (`C:`), a UNC share (`\\server\share`), a
//! device (`\\.\name`) or a verbatim form (`\\?\name`, `\\?\C:`,
//! `\\?\UNC\server\share`). A prefix component is written as `\`, a letter
//! naming its kind and what identifies it (the drive letter in upper case), so
//! that two prefixes are equal exactly when `std::path` finds them equal; the
//! root component is written `\`.
use vstd::prelude::*;

use crate::paths::{forward_slashes, forward_slashes_of, kept, kept_pieces, piece_range};
use crate::text::{
    chars_of, copy_chars, eq_str, extend, extend_str, join, join_chars, split_at_char, split_char,
    subrange, views,
};

verus! {

broadcast use vstd::string::group_string_axioms;

/// A separator outside verbatim paths.
pub open spec fn is_wsep(c: char) -> bool {
    c == '/' || c == '\\'
}

/// A separator in a path that is verbatim or not.
pub open spec fn is_sep_in(c: char, verbatim: bool) -> bool {
    if verbatim {
        c == '\\'
    } else {
        is_wsep(c)
    }
}

/// The index of the first separator of `s` at or after `i`, or its length.
pub open spec fn piece_end(s: Seq<char>, i: int, verbatim: bool) -> int
    decreases s.len() - i,
{
    if i < 0 || i >= s.len() {
        s.len() as int
    } else if is_sep_in(s[i], verbatim) {
        i
    } else {
        piece_end(s, i + 1, verbatim)
    }
}

pub open spec fn ascii_alpha(c: char) -> bool {
    ('a' <= c && c <= 'z') || ('A' <= c && c <= 'Z')
}

/// `char::to_ascii_uppercase`.
pub open spec fn upper_char(c: char) -> char {
    if 'a' <= c && c <= 'z' {
        ((c as u32) - 32) as char
    } else {
        c
    }
}

/// A path prefix: its length in the text, the component that stands for it,
/// whether the path is verbatim, and whether the prefix carries a root of its
/// own (every kind but a drive).
pub struct WinPrefix {
    pub len: nat,
    pub key: Seq<char>,
    pub verbatim: bool,
    pub implicit_root: bool,
}

pub open spec fn prefix_of_kind(len: int, kind: char, id: Seq<char>, verbatim: bool) -> WinPrefix {
    WinPrefix {
        len: len as nat,
        key: seq!['\\', kind] + id,
        verbatim: verbatim,
        implicit_root: kind != 'D',
    }
}

/// The prefix of a Windows path (`std::path::Prefix`), if it has one.
pub open spec fn win_prefix(p: Seq<char>) -> Option<WinPrefix> {
    if p.len() >= 2 && is_wsep(p[0]) && is_wsep(p[1]) {
        if p.len() >= 4 && p[0] == '\\' && p[1] == '\\' && p[2] == '?' && p[3] == '\\' {
            if p.len() >= 8 && p[4] == 'U' && p[5] == 'N' && p[6] == 'C' && is_wsep(p[7]) {
                let se = piece_end(p, 8, true);
                let server = p.subrange(8, se);
                let she = if se < p.len() {
                    piece_end(p, se + 1, true)
                } else {
                    se
                };
                let share = if se < p.len() {
                    p.subrange(se + 1, she)
                } else {
                    Seq::empty()
                };
                let len = if share.len() > 0 {
                    she
                } else {
                    se
                };
                Some(prefix_of_kind(len, 'X', server + seq!['\\'] + share, true))
            } else if p.len() >= 6 && ascii_alpha(p[4]) && p[5] == ':' && (p.len() == 6 || p[6]
                == '\\') {
                Some(prefix_of_kind(6, 'W', seq![upper_char(p[4])], true))
            } else {
                let e = piece_end(p, 4, true);
                Some(prefix_of_kind(e, 'V', p.subrange(4, e), true))
            }
        } else if p.len() >= 4 && p[2] == '.' && is_wsep(p[3]) {
            let e = piece_end(p, 4, false);
            Some(prefix_of_kind(e, 'N', p.subrange(4, e), false))
        } else {
            let se = piece_end(p, 2, false);
            if se < p.len() {
                let she = piece_end(p, se + 1, false);
                if se > 2 && she > se + 1 {
                    Some(
                        prefix_of_kind(
                            she,
                            'U',
                            p.subrange(2, se) + seq!['\\'] + p.subrange(se + 1, she),
                            false,
                        ),
                    )
                } else {
                    None
                }
            } else {
                None
            }
        }
    } else if p.len() >= 2 && ascii_alpha(p[0]) && p[1] == ':' {
        Some(prefix_of_kind(2, 'D', seq![upper_char(p[0])], false))
    } else {
        None
    }
}

pub open spec fn prefix_len(p: Seq<char>) -> int {
    match win_prefix(p) {
        Some(x) => x.len as int,
        None => 0,
    }
}

pub open spec fn is_verbatim(p: Seq<char>) -> bool {
    match win_prefix(p) {
        Some(x) => x.verbatim,
        None => false,
    }
}

/// The text after the prefix.
pub open spec fn after_prefix(p: Seq<char>) -> Seq<char> {
    p.skip(prefix_len(p))
}

/// The text after the prefix starts with a separator.
pub open spec fn physical_root(p: Seq<char>) -> bool {
    after_prefix(p).len() > 0 && is_wsep(after_prefix(p)[0])
}

/// The path has a root: a separator after the prefix, or a prefix with a
/// root of its own.
pub open spec fn win_has_root(p: Seq<char>) -> bool {
    physical_root(p) || (match win_prefix(p) {
        Some(x) => x.implicit_root,
        None => false,
    })
}

/// The text after the prefix is a leading `.` piece of a path with no root.
pub open spec fn leading_dot(p: Seq<char>) -> bool {
    let r = after_prefix(p);
    !win_has_root(p) && r.len() > 0 && r[0] == '.' && (r.len() == 1 || is_sep_in(
        r[1],
        is_verbatim(p),
    ))
}

/// The components before the pieces: the prefix, then the root or a leading
/// `.` when there is one.
pub open spec fn head_components(p: Seq<char>) -> Seq<Seq<char>> {
    let h1 = match win_prefix(p) {
        Some(x) => seq![x.key],
        None => Seq::empty(),
    };
    if physical_root(p) || (win_prefix(p) is Some && win_has_root(p) && !is_verbatim(p)) {
        h1.push(seq!['\\'])
    } else if win_prefix(p) is None && leading_dot(p) {
        h1.push(seq!['.'])
    } else {
        h1
    }
}

/// The text after the head components.
pub open spec fn body_text(p: Seq<char>) -> Seq<char> {
    let r = after_prefix(p);
    if physical_root(p) || (win_prefix(p) is None && leading_dot(p)) {
        r.skip(1)
    } else {
        r
    }
}

/// `s` with every `/` turned into `\`.
pub open spec fn back_slashes(s: Seq<char>) -> Seq<char> {
    Seq::new(s.len(), |i: int| if s[i] == '/' { '\\' } else { s[i] })
}

/// The pieces of a text between separators.
pub open spec fn win_pieces(s: Seq<char>, verbatim: bool) -> Seq<Seq<char>> {
    if verbatim {
        split_char(s, '\\')
    } else {
        split_char(back_slashes(s), '\\')
    }
}

/// The non-empty pieces.
pub open spec fn nonempty_pieces(pieces: Seq<Seq<char>>) -> Seq<Seq<char>>
    decreases pieces.len(),
{
    if pieces.len() == 0 {
        Seq::empty()
    } else {
        let rest = nonempty_pieces(pieces.drop_last());
        if pieces.last().len() == 0 {
            rest
        } else {
            rest.push(pieces.last())
        }
    }
}

/// The pieces that are components: empty pieces never are, `.` pieces only
/// in verbatim paths.
pub open spec fn win_kept(pieces: Seq<Seq<char>>, verbatim: bool) -> Seq<Seq<char>> {
    if verbatim {
        nonempty_pieces(pieces)
    } else {
        kept_pieces(pieces)
    }
}

/// The components of a Windows path (`Path::components`).
pub open spec fn win_components(p: Seq<char>) -> Seq<Seq<char>> {
    head_components(p) + win_kept(win_pieces(body_text(p), is_verbatim(p)), is_verbatim(p))
}

/// A component that names a file or directory: not a prefix, the root, `.`
/// or `..`.
pub open spec fn win_normal(c: Seq<char>) -> bool {
    c != "."@ && c != ".."@ && !(c.len() > 0 && c[0] == '\\')
}

/// `base` with the plain name `name` appended (`Path::join`). A verbatim
/// base is written again from its components; otherwise a `\` goes between
/// them unless `base` is empty, ends with a separator or is a bare drive.
pub open spec fn win_joined(base: Seq<char>, name: Seq<char>) -> Seq<char> {
    match win_prefix(base) {
        Some(x) => if x.verbatim {
            base.take(x.len as int) + seq!['\\'] + crate::text::join(
                nonempty_pieces(win_pieces(body_text(base), true)).push(name),
                seq!['\\'],
            )
        } else if x.len == base.len() && !x.implicit_root {
            base + name
        } else if base.len() > 0 && !is_wsep(base.last()) {
            base + seq!['\\'] + name
        } else {
            base + name
        },
        None => if base.len() > 0 && !is_wsep(base.last()) {
            base + seq!['\\'] + name
        } else {
            base + name
        },
    }
}

/// A piece that is no component: empty, or `.` outside verbatim paths.
pub open spec fn blank_in(x: Seq<char>, verbatim: bool) -> bool {
    x.len() == 0 || (!verbatim && x == "."@)
}

/// `ps` after `k` component pieces and the blank pieces among them.
pub open spec fn skip_in(ps: Seq<Seq<char>>, k: nat, verbatim: bool) -> Seq<Seq<char>>
    decreases ps.len(),
{
    if k == 0 || ps.len() == 0 {
        ps
    } else if blank_in(ps[0], verbatim) {
        skip_in(ps.drop_first(), k, verbatim)
    } else {
        skip_in(ps.drop_first(), (k - 1) as nat, verbatim)
    }
}

pub open spec fn trim_front_in(ps: Seq<Seq<char>>, verbatim: bool) -> Seq<Seq<char>>
    decreases ps.len(),
{
    if ps.len() > 0 && blank_in(ps[0], verbatim) {
        trim_front_in(ps.drop_first(), verbatim)
    } else {
        ps
    }
}

pub open spec fn trim_back_in(ps: Seq<Seq<char>>, verbatim: bool) -> Seq<Seq<char>>
    decreases ps.len(),
{
    if ps.len() > 0 && blank_in(ps.last(), verbatim) {
        trim_back_in(ps.drop_last(), verbatim)
    } else {
        ps
    }
}

/// How `Path::strip_prefix` leaves `p` after its first `k` components, with
/// every `\` shown as `/`. After the whole head (prefix, root or leading
/// `.`) and more, the rest loses its blank pieces at both ends; when only the
/// prefix was taken, or nothing, the text keeps its start, the root and a
/// leading `.`, and loses only its blank pieces at the end.
pub open spec fn win_shown_rest(p: Seq<char>, k: nat) -> Seq<char> {
    let verbatim = is_verbatim(p);
    let hp: nat = if win_prefix(p) is Some {
        1
    } else {
        0
    };
    if k == 0 || (hp == 1 && k == 1) {
        let base = if k == 0 {
            p
        } else {
            after_prefix(p)
        };
        let lbb = (if k == 0 {
            prefix_len(p)
        } else {
            0
        }) + (if physical_root(p) {
            1int
        } else {
            0int
        }) + (if leading_dot(p) {
            1int
        } else {
            0int
        });
        crate::paths::forward_slashes(base.take(lbb)) + crate::text::join(
            trim_back_in(win_pieces(base.skip(lbb), verbatim), verbatim),
            "/"@,
        )
    } else {
        let rest = skip_in(
            win_pieces(body_text(p), verbatim),
            (k - head_components(p).len()) as nat,
            verbatim,
        );
        crate::text::join(trim_back_in(trim_front_in(rest, verbatim), verbatim), "/"@)
    }
}

proof fn lemma_back_slashes_concat(x: Seq<char>, y: Seq<char>)
    ensures
        back_slashes(x + y) == back_slashes(x) + back_slashes(y),
{
    assert(back_slashes(x + y) =~= back_slashes(x) + back_slashes(y));
}

proof fn lemma_back_slashes_plain(n: Seq<char>)
    requires
        forall|i: int| 0 <= i < n.len() ==> n[i] != '/',
    ensures
        back_slashes(n) == n,
{
    assert(back_slashes(n) =~= n);
}

/// Under a drive, joining a plain name adds exactly that name as one more
/// component: the components of `win_joined(base, name)` are those of
/// `base` followed by `name`.
pub proof fn law_drive_join_adds_one_component(base: Seq<char>, name: Seq<char>)
    requires
        crate::paths::plain_name(name),
        base.len() >= 2,
        ascii_alpha(base[0]),
        base[1] == ':',
    ensures
        win_components(win_joined(base, name)) == win_components(base).push(name),
{
    reveal_strlit(".");
    let j = win_joined(base, name);
    let pre = win_prefix(base);
    assert(!is_wsep(base[0]));
    assert(pre == Some(prefix_of_kind(2, 'D', seq![upper_char(base[0])], false)));
    let mid: Seq<char> = if base.len() == 2 || is_wsep(base.last()) {
        Seq::empty()
    } else {
        seq!['\\']
    };
    assert(j =~= base + mid + name);
    assert(j[0] == base[0] && j[1] == base[1]);
    assert(!is_wsep(j[0]));
    assert(win_prefix(j) == pre);
    let rb = after_prefix(base);
    let rj = after_prefix(j);
    assert(rj =~= rb + mid + name);
    assert(name[0] != '/' && name[0] != '\\');
    if rb.len() > 0 {
        assert(rj[0] == rb[0]);
    } else {
        assert(base.len() == 2);
        assert(rj =~= name);
    }
    assert(physical_root(j) == physical_root(base));
    assert(head_components(j) == head_components(base));
    let bb = body_text(base);
    let bj = body_text(j);
    if physical_root(base) {
        assert(bj =~= bb + mid + name);
    } else {
        assert(bj =~= bb + mid + name);
    }
    lemma_back_slashes_plain(name);
    lemma_back_slashes_concat(bb + mid, name);
    lemma_back_slashes_concat(bb, mid);
    assert(back_slashes(bj) == back_slashes(bb) + back_slashes(mid) + name);
    if mid.len() == 1 {
        assert(back_slashes(mid) =~= seq!['\\']);
        crate::paths::lemma_split_append(back_slashes(bb), name, '\\', Seq::empty());
        crate::paths::lemma_kept_push(win_pieces(bb, false), name);
    } else if bb.len() == 0 {
        assert(back_slashes(mid) =~= Seq::<char>::empty());
        assert(back_slashes(bj) =~= name);
        crate::paths::lemma_split_whole(name, '\\', Seq::empty());
        assert(Seq::<char>::empty() + name =~= name);
        crate::paths::lemma_split_whole(back_slashes(bb), '\\', Seq::empty());
        assert(back_slashes(bb) =~= Seq::<char>::empty());
        assert(win_pieces(bb, false) == seq![Seq::<char>::empty()]);
        assert(win_pieces(bj, false) == seq![name]);
        crate::paths::lemma_kept_push(Seq::<Seq<char>>::empty(), Seq::<char>::empty());
        crate::paths::lemma_kept_push(Seq::<Seq<char>>::empty(), name);
        assert(seq![Seq::<char>::empty()] =~= Seq::<Seq<char>>::empty().push(Seq::<char>::empty()));
        assert(seq![name] =~= Seq::<Seq<char>>::empty().push(name));
    } else {
        assert(bb.last() == base.last());
        let stem = bb.drop_last();
        assert(bb =~= stem + seq![bb.last()]);
        lemma_back_slashes_concat(stem, seq![bb.last()]);
        assert(back_slashes(seq![bb.last()]) =~= seq!['\\']);
        assert(back_slashes(mid) =~= Seq::<char>::empty());
        assert(back_slashes(bj) =~= back_slashes(stem) + seq!['\\'] + name);
        assert(back_slashes(bb) =~= back_slashes(stem) + seq!['\\'] + Seq::<char>::empty());
        crate::paths::lemma_split_append(back_slashes(stem), name, '\\', Seq::empty());
        crate::paths::lemma_split_append(
            back_slashes(stem),
            Seq::<char>::empty(),
            '\\',
            Seq::empty(),
        );
        let ps = split_char(back_slashes(stem), '\\');
        crate::paths::lemma_kept_push(ps, name);
        crate::paths::lemma_kept_push(ps, Seq::<char>::empty());
    }
}

// ---------------------------------------------------------------------------
// Executable counterparts
// ---------------------------------------------------------------------------

fn is_sep_exec(c: char, verbatim: bool) -> (r: bool)
    ensures
        r == is_sep_in(c, verbatim),
{
    if verbatim {
        c == '\\'
    } else {
        c == '/' || c == '\\'
    }
}

fn piece_end_exec(p: &Vec<char>, i: usize, verbatim: bool) -> (e: usize)
    requires
        i <= p@.len(),
    ensures
        e == piece_end(p@, i as int, verbatim),
        i <= e <= p@.len(),
{
    let mut j: usize = i;
    while j < p.len() && !is_sep_exec(p[j], verbatim)
        invariant
            i <= j <= p@.len(),
            piece_end(p@, i as int, verbatim) == piece_end(p@, j as int, verbatim),
        decreases p@.len() - j,
    {
        j = j + 1;
    }
    j
}

fn upper_exec(c: char) -> (r: char)
    ensures
        r == upper_char(c),
{
    if 'a' <= c && c <= 'z' {
        let b: u8 = (c as u8) - 32;
        b as char
    } else {
        c
    }
}

fn is_alpha_exec(c: char) -> (r: bool)
    ensures
        r == ascii_alpha(c),
{
    ('a' <= c && c <= 'z') || ('A' <= c && c <= 'Z')
}

/// The key of a prefix of the given kind.
fn prefix_key(kind: char, id: &Vec<char>) -> (r: Vec<char>)
    ensures
        r@ == seq!['\\', kind] + id@,
{
    let mut r: Vec<char> = Vec::new();
    r.push('\\');
    r.push(kind);
    extend(&mut r, id);
    assert(r@ =~= seq!['\\', kind] + id@);
    r
}

/// The prefix of a path: its length, key, whether it is verbatim and whether
/// it carries a root.
pub fn parse_prefix(p: &Vec<char>) -> (r: Option<(usize, Vec<char>, bool, bool)>)
    ensures
        match r {
            Some((len, key, verbatim, implicit)) => win_prefix(p@) == Some(
                WinPrefix { len: len as nat, key: key@, verbatim, implicit_root: implicit },
            ),
            None => win_prefix(p@) is None,
        },
        match r {
            Some((len, _, _, _)) => len <= p@.len(),
            None => true,
        },
{
    let n = p.len();
    if n >= 2 && (p[0] == '/' || p[0] == '\\') && (p[1] == '/' || p[1] == '\\') {
        if n >= 4 && p[0] == '\\' && p[1] == '\\' && p[2] == '?' && p[3] == '\\' {
            if n >= 8 && p[4] == 'U' && p[5] == 'N' && p[6] == 'C' && (p[7] == '/' || p[7]
                == '\\') {
                let se = piece_end_exec(p, 8, true);
                let server = subrange(p, 8, se);
                let she = if se < n {
                    piece_end_exec(p, se + 1, true)
                } else {
                    se
                };
                let share = if se < n {
                    subrange(p, se + 1, she)
                } else {
                    Vec::new()
                };
                assert(se >= n ==> share@ =~= Seq::<char>::empty());
                let len = if share.len() > 0 {
                    she
                } else {
                    se
                };
                let mut id = copy_chars(&server);
                id.push('\\');
                extend(&mut id, &share);
                assert(id@ =~= server@ + seq!['\\'] + share@);
                Some((len, prefix_key('X', &id), true, true))
            } else if n >= 6 && is_alpha_exec(p[4]) && p[5] == ':' && (n == 6 || p[6] == '\\') {
                let mut id: Vec<char> = Vec::new();
                id.push(upper_exec(p[4]));
                assert(id@ =~= seq![upper_char(p@[4])]);
                Some((6, prefix_key('W', &id), true, true))
            } else {
                let e = piece_end_exec(p, 4, true);
                let id = subrange(p, 4, e);
                Some((e, prefix_key('V', &id), true, true))
            }
        } else if n >= 4 && p[2] == '.' && (p[3] == '/' || p[3] == '\\') {
            let e = piece_end_exec(p, 4, false);
            let id = subrange(p, 4, e);
            Some((e, prefix_key('N', &id), false, true))
        } else {
            let se = piece_end_exec(p, 2, false);
            if se < n {
                let she = piece_end_exec(p, se + 1, false);
                if se > 2 && she > se + 1 {
                    let mut id = subrange(p, 2, se);
                    id.push('\\');
                    let share = subrange(p, se + 1, she);
                    extend(&mut id, &share);
                    assert(id@ =~= p@.subrange(2, se as int) + seq!['\\'] + p@.subrange(
                        (se + 1) as int,
                        she as int,
                    ));
                    Some((she, prefix_key('U', &id), false, true))
                } else {
                    None
                }
            } else {
                None
            }
        }
    } else if n >= 2 && is_alpha_exec(p[0]) && p[1] == ':' {
        let mut id: Vec<char> = Vec::new();
        id.push(upper_exec(p[0]));
        assert(id@ =~= seq![upper_char(p@[0])]);
        Some((2, prefix_key('D', &id), false, false))
    } else {
        None
    }
}

fn back_slashes_exec(s: &Vec<char>) -> (r: Vec<char>)
    ensures
        r@ == back_slashes(s@),
{
    let mut r: Vec<char> = Vec::new();
    let mut i: usize = 0;
    while i < s.len()
        invariant
            i <= s@.len(),
            r@ == back_slashes(s@).take(i as int),
        decreases s@.len() - i,
    {
        let c = if s[i] == '/' {
            '\\'
        } else {
            s[i]
        };
        r.push(c);
        i = i + 1;
        assert(r@ =~= back_slashes(s@).take(i as int));
    }
    assert(back_slashes(s@).take(s@.len() as int) =~= back_slashes(s@));
    r
}

/// The pieces of `s` between separators.
pub fn pieces_of(s: &Vec<char>, verbatim: bool) -> (r: Vec<Vec<char>>)
    ensures
        views(r@) == win_pieces(s@, verbatim),
        r@.len() >= 1,
{
    if verbatim {
        split_at_char(s, '\\')
    } else {
        let b = back_slashes_exec(s);
        split_at_char(&b, '\\')
    }
}

fn nonempty(pieces: &Vec<Vec<char>>) -> (r: Vec<Vec<char>>)
    ensures
        views(r@) == nonempty_pieces(views(pieces@)),
{
    let ghost all = views(pieces@);
    let mut r: Vec<Vec<char>> = Vec::new();
    let mut k: usize = 0;
    assert(all.take(0) =~= Seq::<Seq<char>>::empty());
    while k < pieces.len()
        invariant
            k <= pieces@.len(),
            all == views(pieces@),
            views(r@) == nonempty_pieces(all.take(k as int)),
        decreases pieces@.len() - k,
    {
        let ghost t = all.take((k + 1) as int);
        assert(t.drop_last() =~= all.take(k as int));
        assert(t.last() == pieces@[k as int]@);
        if pieces[k].len() > 0 {
            let ghost before = views(r@);
            let c = copy_chars(&pieces[k]);
            r.push(c);
            assert(views(r@) =~= before.push(pieces@[k as int]@));
        }
        k = k + 1;
    }
    assert(all.take(pieces@.len() as int) =~= all);
    r
}

/// The pieces that are components.
pub fn kept_of(pieces: &Vec<Vec<char>>, verbatim: bool) -> (r: Vec<Vec<char>>)
    ensures
        views(r@) == win_kept(views(pieces@), verbatim),
{
    if verbatim {
        nonempty(pieces)
    } else {
        assert(views(pieces@).skip(0) =~= views(pieces@));
        kept(pieces, 0)
    }
}

/// What the prefix, root and leading `.` of a path are, in executable form.
pub struct PathHead {
    pub plen: usize,
    pub key: Option<Vec<char>>,
    pub verbatim: bool,
    pub phys: bool,
    pub has_root: bool,
    pub dot: bool,
}

pub open spec fn head_ok(p: Seq<char>, h: PathHead) -> bool {
    &&& h.plen == prefix_len(p)
    &&& h.plen <= p.len()
    &&& (match h.key {
        Some(k) => win_prefix(p) matches Some(x) && x.key == k@,
        None => win_prefix(p) is None,
    })
    &&& h.verbatim == is_verbatim(p)
    &&& h.phys == physical_root(p)
    &&& h.has_root == win_has_root(p)
    &&& h.dot == leading_dot(p)
}

pub fn path_head(p: &Vec<char>) -> (h: PathHead)
    ensures
        head_ok(p@, h),
{
    let n = p.len();
    let (plen, key, verbatim, implicit) = match parse_prefix(p) {
        Some((l, k, v, i)) => (l, Some(k), v, i),
        None => (0, None, false, false),
    };
    let ghost r = after_prefix(p@);
    assert(r =~= p@.subrange(plen as int, n as int));
    let phys = plen < n && (p[plen] == '/' || p[plen] == '\\');
    let has_root = phys || (key.is_some() && implicit);
    let dot = !has_root && plen < n && p[plen] == '.' && (plen + 1 == n || is_sep_exec(
        p[plen + 1],
        verbatim,
    ));
    PathHead { plen, key, verbatim, phys, has_root, dot }
}

/// The components of a Windows path.
pub fn win_path_components(p: &Vec<char>) -> (r: Vec<Vec<char>>)
    ensures
        views(r@) == win_components(p@),
{
    let n = p.len();
    let h = path_head(p);
    let mut head: Vec<Vec<char>> = Vec::new();
    let has_prefix = h.key.is_some();
    match &h.key {
        Some(k) => {
            head.push(copy_chars(k));
        },
        None => {},
    }
    let ghost h1 = views(head@);
    if h.phys || (has_prefix && h.has_root && !h.verbatim) {
        let mut root: Vec<char> = Vec::new();
        root.push('\\');
        head.push(root);
        assert(views(head@) =~= h1.push(seq!['\\']));
    } else if !has_prefix && h.dot {
        let mut dot: Vec<char> = Vec::new();
        dot.push('.');
        head.push(dot);
        assert(views(head@) =~= h1.push(seq!['.']));
    }
    assert(views(head@) == head_components(p@));
    let r = subrange(p, h.plen, n);
    assert(r@ =~= after_prefix(p@));
    let body = if h.phys || (!has_prefix && h.dot) {
        subrange(&r, 1, r.len())
    } else {
        r
    };
    assert(body@ =~= body_text(p@));
    let pieces = pieces_of(&body, h.verbatim);
    let ks = kept_of(&pieces, h.verbatim);
    let ghost hv = views(head@);
    let mut out = head;
    let mut k: usize = 0;
    while k < ks.len()
        invariant
            k <= ks@.len(),
            views(out@) == hv + views(ks@).take(k as int),
        decreases ks@.len() - k,
    {
        let ghost before = views(out@);
        out.push(copy_chars(&ks[k]));
        assert(views(out@) =~= before.push(ks@[k as int]@));
        k = k + 1;
        assert(views(ks@).take(k as int) =~= views(ks@).take((k - 1) as int).push(
            ks@[(k - 1) as int]@,
        ));
        assert(views(out@) =~= hv + views(ks@).take(k as int));
    }
    assert(views(ks@).take(ks@.len() as int) =~= views(ks@));
    out
}

fn is_blank_exec(x: &Vec<char>, verbatim: bool) -> (r: bool)
    ensures
        r == blank_in(x@, verbatim),
{
    x.len() == 0 || (!verbatim && eq_str(x, "."))
}

/// The end of `ps[i..j]` once its trailing blank pieces are gone.
fn back_end_in(ps: &Vec<Vec<char>>, i: usize, j: usize, verbatim: bool) -> (e: usize)
    requires
        i <= j <= ps@.len(),
    ensures
        i <= e <= j,
        trim_back_in(views(ps@).subrange(i as int, j as int), verbatim) == views(ps@).subrange(
            i as int,
            e as int,
        ),
{
    let ghost pv = views(ps@);
    let mut e: usize = j;
    while e > i && is_blank_exec(&ps[e - 1], verbatim)
        invariant
            i <= e <= j <= ps@.len(),
            pv == views(ps@),
            trim_back_in(pv.subrange(i as int, j as int), verbatim) == trim_back_in(
                pv.subrange(i as int, e as int),
                verbatim,
            ),
        decreases e,
    {
        assert(pv.subrange(i as int, e as int).last() == pv[e - 1]);
        assert(pv.subrange(i as int, e as int).drop_last() =~= pv.subrange(
            i as int,
            (e - 1) as int,
        ));
        e = e - 1;
    }
    if e > i {
        assert(pv.subrange(i as int, e as int).last() == pv[e - 1]);
    }
    e
}

/// The text after the head components, in executable form.
fn body_of(p: &Vec<char>, h: &PathHead) -> (r: Vec<char>)
    requires
        head_ok(p@, *h),
    ensures
        r@ == body_text(p@),
{
    let n = p.len();
    let r = subrange(p, h.plen, n);
    assert(r@ =~= after_prefix(p@));
    if h.phys || (h.key.is_none() && h.dot) {
        let b = subrange(&r, 1, r.len());
        assert(b@ =~= r@.skip(1));
        b
    } else {
        r
    }
}

/// The text `Path::strip_prefix` leaves of `p` after `k` components, with
/// `/` for every `\`.
pub fn win_shown_chars(p: &Vec<char>, k: usize) -> (r: Vec<char>)
    requires
        k <= win_components(p@).len(),
    ensures
        r@ == win_shown_rest(p@, k as nat),
{
    let n = p.len();
    let h = path_head(p);
    let hp = h.key.is_some();
    let verbatim = h.verbatim;
    if k == 0 || (hp && k == 1) {
        let base = if k == 0 {
            copy_chars(p)
        } else {
            let b = subrange(p, h.plen, n);
            assert(b@ =~= after_prefix(p@));
            b
        };
        let lbb: usize = (if k == 0 {
            h.plen
        } else {
            0
        }) + (if h.phys {
            1usize
        } else {
            0usize
        }) + (if h.dot {
            1usize
        } else {
            0usize
        });
        let lead = subrange(&base, 0, lbb);
        assert(lead@ =~= base@.take(lbb as int));
        let leadf = forward_slashes_of(&lead);
        let tail = subrange(&base, lbb, base.len());
        assert(tail@ =~= base@.skip(lbb as int));
        let pieces = pieces_of(&tail, verbatim);
        let e = back_end_in(&pieces, 0, pieces.len(), verbatim);
        assert(views(pieces@).subrange(0, pieces@.len() as int) =~= views(pieces@));
        let kept = piece_range(&pieces, 0, e);
        let j = join_chars(&kept, "/");
        let mut out = leadf;
        extend(&mut out, &j);
        out
    } else {
        let body = body_of(p, &h);
        let hlen: usize = (if hp {
            1usize
        } else {
            0usize
        }) + (if h.phys || (hp && h.has_root && !verbatim) {
            1usize
        } else if !hp && h.dot {
            1usize
        } else {
            0usize
        });
        assert(hlen == head_components(p@).len());
        let pieces = pieces_of(&body, verbatim);
        let ghost pv = views(pieces@);
        let pn = pieces.len();
        let mut left: usize = k - hlen;
        let mut i: usize = 0;
        let ghost want = skip_in(pv, left as nat, verbatim);
        assert(pv.subrange(0, pn as int) =~= pv);
        while left > 0 && i < pn
            invariant
                i <= pn == pv.len(),
                pv == views(pieces@),
                want == skip_in(pv.subrange(i as int, pn as int), left as nat, verbatim),
            decreases pn - i,
        {
            assert(pv.subrange(i as int, pn as int)[0] == pv[i as int]);
            assert(pv.subrange(i as int, pn as int).drop_first() =~= pv.subrange(
                (i + 1) as int,
                pn as int,
            ));
            if !is_blank_exec(&pieces[i], verbatim) {
                left = left - 1;
            }
            i = i + 1;
        }
        while i < pn && is_blank_exec(&pieces[i], verbatim)
            invariant
                i <= pn == pv.len(),
                pv == views(pieces@),
                trim_front_in(want, verbatim) == trim_front_in(
                    pv.subrange(i as int, pn as int),
                    verbatim,
                ),
            decreases pn - i,
        {
            assert(pv.subrange(i as int, pn as int)[0] == pv[i as int]);
            assert(pv.subrange(i as int, pn as int).drop_first() =~= pv.subrange(
                (i + 1) as int,
                pn as int,
            ));
            i = i + 1;
        }
        if i < pn {
            assert(pv.subrange(i as int, pn as int)[0] == pv[i as int]);
        }
        assert(trim_front_in(want, verbatim) == pv.subrange(i as int, pn as int));
        let e = back_end_in(&pieces, i, pn, verbatim);
        let kept = piece_range(&pieces, i, e);
        join_chars(&kept, "/")
    }
}

/// `base` with the plain name `name` appended.
pub fn win_join(base: &Vec<char>, name: &str) -> (r: Vec<char>)
    ensures
        r@ == win_joined(base@, name@),
{
    let h = path_head(base);
    let n = base.len();
    if h.key.is_some() && h.verbatim {
        let body = body_of(base, &h);
        let pieces = pieces_of(&body, true);
        let mut ks = nonempty(&pieces);
        let ghost kv = views(ks@);
        ks.push(chars_of(name));
        assert(views(ks@) =~= kv.push(name@));
        let mut out = subrange(base, 0, h.plen);
        assert(out@ =~= base@.take(h.plen as int));
        out.push('\\');
        let mid = join_chars(&ks, "\\");
        proof {
            reveal_strlit("\\");
        }
        assert("\\"@ =~= seq!['\\']);
        extend(&mut out, &mid);
        out
    } else if h.key.is_some() && h.plen == n && !h.has_root {
        let mut out = copy_chars(base);
        extend_str(&mut out, name);
        out
    } else if n > 0 && !(base[n - 1] == '/' || base[n - 1] == '\\') {
        let mut out = copy_chars(base);
        out.push('\\');
        extend_str(&mut out, name);
        out
    } else {
        let mut out = copy_chars(base);
        extend_str(&mut out, name);
        out
    }
}

} // verus!
