//! Paths held as text, with the component rules of `std::path`.
//!
//! The functions that take `windows` read a path by the rules of Windows
//! (see `winpath`) when it is set, else by those of Unix, given here: a
//! path's components are the pieces between `/` characters. A leading `/`
//! is the root component, written `/`; empty pieces and `.` pieces are
//! dropped, except that a relative path that starts with a `.` piece keeps it
//! as its first component. `..` stays a component of its own.
use vstd::prelude::*;

use crate::winpath::{
    ascii_alpha, win_components, win_join, win_joined, win_normal, win_path_components,
    win_shown_chars, win_shown_rest,
};
use crate::text::{
    split_char_from,
    ascii_lower, ascii_lowercase, chars_eq, chars_of, copy_chars, eq_str, extend, extend_str, join,
    join_chars, split_at_char, split_char, views,
};

verus! {

broadcast use vstd::string::group_string_axioms;

/// The pieces that are components: neither empty nor `.`.
pub open spec fn kept_pieces(pieces: Seq<Seq<char>>) -> Seq<Seq<char>>
    decreases pieces.len(),
{
    if pieces.len() == 0 {
        Seq::empty()
    } else {
        let rest = kept_pieces(pieces.drop_last());
        let x = pieces.last();
        if x.len() == 0 || x == "."@ {
            rest
        } else {
            rest.push(x)
        }
    }
}

/// The components of a path (`Path::components`), the root written `/` and a
/// leading current directory written `.`.
pub open spec fn components(p: Seq<char>) -> Seq<Seq<char>> {
    let pieces = split_char(p, '/');
    if p.len() > 0 && p[0] == '/' {
        seq!["/"@] + kept_pieces(pieces.drop_first())
    } else if pieces[0] == "."@ {
        seq!["."@] + kept_pieces(pieces.drop_first())
    } else {
        kept_pieces(pieces)
    }
}

/// A component that names a file or directory.
pub open spec fn is_normal(c: Seq<char>) -> bool {
    c != "/"@ && c != "."@ && c != ".."@
}

/// The components of `path` after those of `base`, when `base`'s components
/// begin `path`'s (`Path::strip_prefix`).
pub open spec fn strip_prefix(path: Seq<char>, base: Seq<char>) -> Option<Seq<Seq<char>>> {
    let pc = components(path);
    let bc = components(base);
    if bc.len() <= pc.len() && pc.take(bc.len() as int) == bc {
        Some(pc.skip(bc.len() as int))
    } else {
        None
    }
}

/// A piece that names no component: empty or `.`.
pub open spec fn is_blank_piece(x: Seq<char>) -> bool {
    x.len() == 0 || x == "."@
}

/// `ps` after its first `k` component pieces, the blank pieces among them
/// included.
pub open spec fn skip_pieces(ps: Seq<Seq<char>>, k: nat) -> Seq<Seq<char>>
    decreases ps.len(),
{
    if k == 0 || ps.len() == 0 {
        ps
    } else if is_blank_piece(ps[0]) {
        skip_pieces(ps.drop_first(), k)
    } else {
        skip_pieces(ps.drop_first(), (k - 1) as nat)
    }
}

/// `ps` without its leading blank pieces.
pub open spec fn trim_front_pieces(ps: Seq<Seq<char>>) -> Seq<Seq<char>>
    decreases ps.len(),
{
    if ps.len() > 0 && is_blank_piece(ps[0]) {
        trim_front_pieces(ps.drop_first())
    } else {
        ps
    }
}

/// `ps` without its trailing blank pieces.
pub open spec fn trim_back_pieces(ps: Seq<Seq<char>>) -> Seq<Seq<char>>
    decreases ps.len(),
{
    if ps.len() > 0 && is_blank_piece(ps.last()) {
        trim_back_pieces(ps.drop_last())
    } else {
        ps
    }
}

/// Whether the first component of `p` is the root or a leading `.`.
pub open spec fn has_head(p: Seq<char>) -> bool {
    (p.len() > 0 && p[0] == '/') || split_char(p, '/')[0] == "."@
}

/// The text of `p` after its first `k` components, as `Path::strip_prefix`
/// returns it: the rest of the text as written, without the separators and
/// `.` pieces at either end. With `k == 0` the text keeps its start and only
/// loses those at its end, the root and a leading `.` staying.
pub open spec fn text_after(p: Seq<char>, k: nat) -> Seq<char> {
    let pieces = split_char(p, '/');
    let tail = if has_head(p) {
        pieces.drop_first()
    } else {
        pieces
    };
    if k == 0 {
        let body = trim_back_pieces(tail);
        if p.len() > 0 && p[0] == '/' {
            "/"@ + join(body, "/"@)
        } else if pieces[0] == "."@ {
            if body.len() == 0 {
                "."@
            } else {
                "./"@ + join(body, "/"@)
            }
        } else {
            join(body, "/"@)
        }
    } else {
        let rest = if has_head(p) {
            skip_pieces(tail, (k - 1) as nat)
        } else {
            skip_pieces(tail, k)
        };
        join(trim_back_pieces(trim_front_pieces(rest)), "/"@)
    }
}

/// `s` with every `\` replaced by `/`.
pub open spec fn forward_slashes(s: Seq<char>) -> Seq<char> {
    Seq::new(s.len(), |i: int| if s[i] == '\\' { '/' } else { s[i] })
}

/// How the assistant and the file list show `path`: when `root`'s components
/// begin it, the text after them (see `text_after`), else the whole path;
/// either way with `/` for every `\`.
pub open spec fn shown_path(root: Seq<char>, path: Seq<char>) -> Seq<char> {
    forward_slashes(
        match strip_prefix(path, root) {
            Some(_) => text_after(path, components(root).len()),
            None => path,
        },
    )
}

/// The last component, when it names a file or directory (`Path::file_name`).
pub open spec fn file_name_of(p: Seq<char>) -> Option<Seq<char>> {
    let cs = components(p);
    if cs.len() > 0 && is_normal(cs.last()) {
        Some(cs.last())
    } else {
        None
    }
}

/// The index of the last `c` in `s`, or -1.
pub open spec fn last_index_of(s: Seq<char>, c: char) -> int
    decreases s.len(),
{
    if s.len() == 0 {
        -1
    } else if s.last() == c {
        s.len() - 1
    } else {
        last_index_of(s.drop_last(), c)
    }
}

/// The text after the last `.` of a file name, unless that dot opens the name
/// (`Path::extension`).
pub open spec fn extension_of(name: Seq<char>) -> Option<Seq<char>> {
    let i = last_index_of(name, '.');
    if i <= 0 {
        None
    } else {
        Some(name.skip(i + 1))
    }
}

/// `base` with the relative `name` appended (`Path::join`): a `/` goes between
/// them unless `base` is empty or already ends with one.
pub open spec fn joined(base: Seq<char>, name: Seq<char>) -> Seq<char> {
    if base.len() > 0 && base.last() != '/' {
        base + "/"@ + name
    } else {
        base + name
    }
}

// ---------------------------------------------------------------------------
// The rules of either platform
// ---------------------------------------------------------------------------

/// The components of `p` by the rules of Windows (`windows`) or of Unix.
pub open spec fn components_on(p: Seq<char>, windows: bool) -> Seq<Seq<char>> {
    if windows {
        win_components(p)
    } else {
        components(p)
    }
}

/// The components of `path` after those of `base`, when `base`'s components
/// begin `path`'s (`Path::strip_prefix`).
pub open spec fn strip_prefix_on(path: Seq<char>, base: Seq<char>, windows: bool) -> Option<
    Seq<Seq<char>>,
> {
    let pc = components_on(path, windows);
    let bc = components_on(base, windows);
    if bc.len() <= pc.len() && pc.take(bc.len() as int) == bc {
        Some(pc.skip(bc.len() as int))
    } else {
        None
    }
}

/// The last component, when it names a file or directory (`Path::file_name`).
pub open spec fn file_name_on(p: Seq<char>, windows: bool) -> Option<Seq<char>> {
    if windows {
        let cs = win_components(p);
        if cs.len() > 0 && win_normal(cs.last()) {
            Some(cs.last())
        } else {
            None
        }
    } else {
        file_name_of(p)
    }
}

/// A file name whose extension is `md`, `markdown` or `mdown`, in any ASCII
/// case.
pub open spec fn markdown_name(name: Seq<char>) -> bool {
    match extension_of(name) {
        Some(ext) => {
            let l = ascii_lower(ext);
            l == "md"@ || l == "markdown"@ || l == "mdown"@
        },
        None => false,
    }
}

/// A path that names a markdown file.
pub open spec fn markdown_on(p: Seq<char>, windows: bool) -> bool {
    match file_name_on(p, windows) {
        Some(name) => markdown_name(name),
        None => false,
    }
}

/// A name that `Path::join` appends as one more component on either platform:
/// not empty, no separator, not `.` or `..`, and no drive.
pub open spec fn plain_name(n: Seq<char>) -> bool {
    &&& n.len() > 0
    &&& forall|i: int| 0 <= i < n.len() ==> #[trigger] n[i] != '/' && n[i] != '\\'
    &&& n != "."@
    &&& n != ".."@
    &&& !(n.len() >= 2 && ascii_alpha(n[0]) && n[1] == ':')
}

/// `base` joined with the plain `name`.
pub open spec fn joined_on(base: Seq<char>, name: Seq<char>, windows: bool) -> Seq<char> {
    if windows {
        win_joined(base, name)
    } else {
        joined(base, name)
    }
}

/// How the assistant and the file list show `path` below `root`: on Unix see
/// `shown_path`; on Windows the text `Path::strip_prefix` leaves (see
/// `win_shown_rest`) when `root`'s components begin `path`'s, else the whole
/// path, with `/` for every `\`.
pub open spec fn shown_on(root: Seq<char>, path: Seq<char>, windows: bool) -> Seq<char> {
    if windows {
        match strip_prefix_on(path, root, true) {
            Some(_) => win_shown_rest(path, win_components(root).len()),
            None => forward_slashes(path),
        }
    } else {
        shown_path(root, path)
    }
}

pub(crate) proof fn lemma_split_whole(y: Seq<char>, sep: char, cur: Seq<char>)
    requires
        forall|i: int| 0 <= i < y.len() ==> y[i] != sep,
    ensures
        split_char_from(y, sep, cur) == seq![cur + y],
    decreases y.len(),
{
    if y.len() == 0 {
        assert(cur + y =~= cur);
    } else {
        assert forall|i: int| 0 <= i < y.drop_first().len() implies y.drop_first()[i] != sep by {
            assert(y.drop_first()[i] == y[i + 1]);
        }
        lemma_split_whole(y.drop_first(), sep, cur.push(y[0]));
        assert(cur.push(y[0]) + y.drop_first() =~= cur + y);
    }
}

pub(crate) proof fn lemma_split_append(x: Seq<char>, y: Seq<char>, sep: char, cur: Seq<char>)
    requires
        forall|i: int| 0 <= i < y.len() ==> y[i] != sep,
    ensures
        split_char_from(x + seq![sep] + y, sep, cur) == split_char_from(x, sep, cur).push(y),
    decreases x.len(),
{
    let s = x + seq![sep] + y;
    if x.len() == 0 {
        assert(s[0] == sep);
        assert(s.drop_first() =~= y);
        lemma_split_whole(y, sep, Seq::empty());
        assert(Seq::<char>::empty() + y =~= y);
        assert(split_char_from(x, sep, cur) == seq![cur]);
        assert(seq![cur] + seq![y] =~= seq![cur].push(y));
    } else {
        assert(s[0] == x[0]);
        assert(s.drop_first() =~= x.drop_first() + seq![sep] + y);
        if x[0] == sep {
            lemma_split_append(x.drop_first(), y, sep, Seq::empty());
            let r = split_char_from(x.drop_first(), sep, Seq::empty());
            assert(seq![cur] + r.push(y) =~= (seq![cur] + r).push(y));
        } else {
            lemma_split_append(x.drop_first(), y, sep, cur.push(x[0]));
        }
    }
}

pub(crate) proof fn lemma_kept_push(ps: Seq<Seq<char>>, x: Seq<char>)
    ensures
        kept_pieces(ps.push(x)) == if x.len() == 0 || x == "."@ {
            kept_pieces(ps)
        } else {
            kept_pieces(ps).push(x)
        },
{
    assert(ps.push(x).drop_last() =~= ps);
}

/// On Unix, joining a plain name adds exactly that name as one more
/// component: the components of `joined(base, name)` are those of `base`
/// followed by `name`.
pub proof fn law_join_adds_one_component(base: Seq<char>, name: Seq<char>)
    requires
        plain_name(name),
    ensures
        components(joined(base, name)) == components(base).push(name),
{
    let j = joined(base, name);
    let nb = forall|i: int| 0 <= i < name.len() ==> name[i] != '/';
    assert(nb);
    reveal_strlit(".");
    reveal_strlit("/");
    let pb = split_char(base, '/');
    let pj = split_char(j, '/');
    lemma_split_nonempty_pieces(base);
    if base.len() == 0 {
        assert(j =~= name);
        lemma_split_whole(name, '/', Seq::empty());
        assert(Seq::<char>::empty() + name =~= name);
        assert(pj == seq![name]);
        assert(pb == seq![Seq::<char>::empty()]);
        assert(pb[0] != "."@);
        assert(name[0] != '/');
        assert(seq![name].drop_last() =~= Seq::<Seq<char>>::empty());
        assert(kept_pieces(pj) == kept_pieces(Seq::<Seq<char>>::empty()).push(name));
        assert(pb.drop_last() =~= Seq::<Seq<char>>::empty());
        assert(components(base) =~= Seq::<Seq<char>>::empty());
        assert(components(j) =~= seq![name]);
    } else {
        let stem = if base.last() == '/' {
            base.drop_last()
        } else {
            base
        };
        assert(j =~= stem + seq!['/'] + name);
        lemma_split_append(stem, name, '/', Seq::empty());
        let ps = split_char(stem, '/');
        assert(pj == ps.push(name));
        lemma_kept_push(ps, name);
        if base.last() == '/' {
            assert(base =~= stem + seq!['/'] + Seq::<char>::empty());
            lemma_split_append(stem, Seq::<char>::empty(), '/', Seq::empty());
            assert(pb == ps.push(Seq::<char>::empty()));
            lemma_kept_push(ps, Seq::<char>::empty());
        } else {
            assert(pb == ps);
        }
        lemma_split_nonempty_pieces(stem);
        assert(pj[0] == pb[0]);
        assert(j[0] == base[0]);
        assert(pj.drop_first() == ps.drop_first().push(name));
        lemma_kept_push(ps.drop_first(), name);
        if base.last() == '/' {
            assert(pb.drop_first() == ps.drop_first().push(Seq::<char>::empty()));
            lemma_kept_push(ps.drop_first(), Seq::<char>::empty());
        }
    }
}

proof fn lemma_split_nonempty_pieces(s: Seq<char>)
    ensures
        split_char(s, '/').len() >= 1,
{
    lemma_split_count(s, '/', Seq::empty());
}

proof fn lemma_split_count(s: Seq<char>, sep: char, cur: Seq<char>)
    ensures
        split_char_from(s, sep, cur).len() >= 1,
    decreases s.len(),
{
    if s.len() > 0 {
        if s[0] == sep {
            lemma_split_count(s.drop_first(), sep, Seq::empty());
        } else {
            lemma_split_count(s.drop_first(), sep, cur.push(s[0]));
        }
    }
}

// ---------------------------------------------------------------------------
// Executable counterparts
// ---------------------------------------------------------------------------

pub(crate) fn kept(pieces: &Vec<Vec<char>>, from: usize) -> (r: Vec<Vec<char>>)
    requires
        from <= pieces@.len(),
    ensures
        views(r@) == kept_pieces(views(pieces@).skip(from as int)),
{
    let ghost all = views(pieces@).skip(from as int);
    let mut r: Vec<Vec<char>> = Vec::new();
    let mut k: usize = from;
    while k < pieces.len()
        invariant
            from <= k <= pieces@.len(),
            all == views(pieces@).skip(from as int),
            views(r@) == kept_pieces(all.take(k - from)),
        decreases pieces@.len() - k,
    {
        let ghost t = all.take((k + 1 - from) as int);
        assert(t.drop_last() =~= all.take(k - from));
        assert(t.last() == pieces@[k as int]@);
        let x = &pieces[k];
        if x.len() == 0 || eq_str(x, ".") {
        } else {
            let ghost before = views(r@);
            let c = copy_chars(x);
            r.push(c);
            assert(views(r@) =~= before.push(x@));
        }
        k = k + 1;
    }
    assert(all.take(pieces@.len() - from) =~= all);
    r
}

/// The components of `path`.
fn unix_path_components(path: &Vec<char>) -> (r: Vec<Vec<char>>)
    ensures
        views(r@) == components(path@),
{
    let pieces = split_at_char(path, '/');
    let ghost pv = views(pieces@);
    assert(pv.skip(0) =~= pv);
    assert(pv.skip(1) =~= pv.drop_first());
    assert(pv[0] == pieces@[0]@);
    let head: Option<&str> = if path.len() > 0 && path[0] == '/' {
        Some("/")
    } else if eq_str(&pieces[0], ".") {
        Some(".")
    } else {
        None
    };
    match head {
        Some(h) => {
            let rest = kept(&pieces, 1);
            let mut r: Vec<Vec<char>> = Vec::new();
            r.push(chars_of(h));
            let mut k: usize = 0;
            while k < rest.len()
                invariant
                    r@.len() == k + 1,
                    k <= rest@.len(),
                    views(r@) == seq![h@] + views(rest@).take(k as int),
                decreases rest@.len() - k,
            {
                let ghost before = views(r@);
                let c = copy_chars(&rest[k]);
                r.push(c);
                assert(views(r@) =~= before.push(rest@[k as int]@));
                assert(views(rest@).take((k + 1) as int) =~= views(rest@).take(k as int).push(
                    rest@[k as int]@,
                ));
                k = k + 1;
            }
            assert(views(rest@).take(rest@.len() as int) =~= views(rest@));
            r
        },
        None => {
            let r = kept(&pieces, 0);
            r
        },
    }
}

/// Whether the component sequence `pre` begins `all`.
fn components_prefix(all: &Vec<Vec<char>>, pre: &Vec<Vec<char>>) -> (r: bool)
    ensures
        r == (views(pre@).len() <= views(all@).len() && views(all@).take(
            views(pre@).len() as int,
        ) == views(pre@)),
{
    if pre.len() > all.len() {
        return false;
    }
    let mut k: usize = 0;
    while k < pre.len()
        invariant
            pre@.len() <= all@.len(),
            k <= pre@.len(),
            forall|m: int| 0 <= m < k ==> all@[m]@ == pre@[m]@,
        decreases pre@.len() - k,
    {
        if !chars_eq(&all[k], &pre[k]) {
            assert(views(all@).take(pre@.len() as int)[k as int] != views(pre@)[k as int]);
            return false;
        }
        k = k + 1;
    }
    assert(views(all@).take(pre@.len() as int) =~= views(pre@));
    true
}

/// The components of `path` below `base`, if `base` is a prefix of it.
pub fn strip_path_prefix(path: &Vec<char>, base: &Vec<char>, windows: bool) -> (r: Option<
    Vec<Vec<char>>,
>)
    ensures
        match r {
            Some(rest) => strip_prefix_on(path@, base@, windows) == Some(views(rest@)),
            None => strip_prefix_on(path@, base@, windows) is None,
        },
{
    let pc = path_components(path, windows);
    let bc = path_components(base, windows);
    if components_prefix(&pc, &bc) {
        let mut rest: Vec<Vec<char>> = Vec::new();
        let mut k: usize = bc.len();
        let from = bc.len();
        while k < pc.len()
            invariant
                from == bc@.len(),
                from <= k <= pc@.len(),
                views(rest@) == views(pc@).subrange(from as int, k as int),
            decreases pc@.len() - k,
        {
            let ghost before = views(rest@);
            let c = copy_chars(&pc[k]);
            rest.push(c);
            assert(views(rest@) =~= before.push(pc@[k as int]@));
            k = k + 1;
            assert(views(rest@) =~= views(pc@).subrange(from as int, k as int));
        }
        assert(views(pc@).skip(from as int) =~= views(pc@).subrange(from as int, pc@.len() as int));
        Some(rest)
    } else {
        None
    }
}

fn is_blank(x: &Vec<char>) -> (r: bool)
    ensures
        r == is_blank_piece(x@),
{
    x.len() == 0 || eq_str(x, ".")
}

/// A copy of the pieces `ps[i..j]`.
pub(crate) fn piece_range(ps: &Vec<Vec<char>>, i: usize, j: usize) -> (r: Vec<Vec<char>>)
    requires
        i <= j <= ps@.len(),
    ensures
        views(r@) == views(ps@).subrange(i as int, j as int),
{
    let mut r: Vec<Vec<char>> = Vec::new();
    let mut k: usize = i;
    while k < j
        invariant
            i <= k <= j <= ps@.len(),
            views(r@) == views(ps@).subrange(i as int, k as int),
        decreases j - k,
    {
        let ghost before = views(r@);
        let c = copy_chars(&ps[k]);
        r.push(c);
        assert(views(r@) =~= before.push(ps@[k as int]@));
        k = k + 1;
        assert(views(r@) =~= views(ps@).subrange(i as int, k as int));
    }
    r
}

/// The end of `ps[i..j]` once its trailing blank pieces are gone.
fn back_end(ps: &Vec<Vec<char>>, i: usize, j: usize) -> (e: usize)
    requires
        i <= j <= ps@.len(),
    ensures
        i <= e <= j,
        trim_back_pieces(views(ps@).subrange(i as int, j as int)) == views(ps@).subrange(
            i as int,
            e as int,
        ),
{
    let ghost pv = views(ps@);
    let mut e: usize = j;
    while e > i && is_blank(&ps[e - 1])
        invariant
            i <= e <= j <= ps@.len(),
            pv == views(ps@),
            trim_back_pieces(pv.subrange(i as int, j as int)) == trim_back_pieces(
                pv.subrange(i as int, e as int),
            ),
        decreases e,
    {
        assert(pv.subrange(i as int, e as int).last() == pv[e - 1]);
        assert(pv.subrange(i as int, e as int).drop_last() =~= pv.subrange(
            i as int,
            (e - 1) as int,
        ));
        e = e - 1;
    }
    if e > i {
        assert(pv.subrange(i as int, e as int).last() == pv[e - 1]);
    }
    e
}

/// The text of `p` after its first `k` components.
fn text_after_chars(p: &Vec<char>, k: usize) -> (r: Vec<char>)
    ensures
        r@ == text_after(p@, k as nat),
{
    let pieces = split_at_char(p, '/');
    let ghost pv = views(pieces@);
    let n = pieces.len();
    assert(pv[0] == pieces@[0]@);
    let root = p.len() > 0 && p[0] == '/';
    let dot = eq_str(&pieces[0], ".");
    let head = root || dot;
    let start: usize = if head {
        1
    } else {
        0
    };
    let ghost tail = if head {
        pv.drop_first()
    } else {
        pv
    };
    assert(tail =~= pv.subrange(start as int, n as int));
    if k == 0 {
        let e = back_end(&pieces, start, n);
        let body = piece_range(&pieces, start, e);
        let joined = join_chars(&body, "/");
        if root {
            let mut r = chars_of("/");
            crate::text::extend(&mut r, &joined);
            r
        } else if dot {
            if e == start {
                assert(views(body@) =~= Seq::<Seq<char>>::empty());
                chars_of(".")
            } else {
                let mut r = chars_of("./");
                crate::text::extend(&mut r, &joined);
                r
            }
        } else {
            joined
        }
    } else {
        let mut i: usize = start;
        let mut left: usize = if head {
            k - 1
        } else {
            k
        };
        let ghost want = skip_pieces(tail, left as nat);
        while left > 0 && i < n
            invariant
                start <= i <= n == pv.len(),
                pv == views(pieces@),
                want == skip_pieces(pv.subrange(i as int, n as int), left as nat),
            decreases n - i,
        {
            assert(pv.subrange(i as int, n as int)[0] == pv[i as int]);
            assert(pv.subrange(i as int, n as int).drop_first() =~= pv.subrange(
                (i + 1) as int,
                n as int,
            ));
            if !is_blank(&pieces[i]) {
                left = left - 1;
            }
            i = i + 1;
        }
        while i < n && is_blank(&pieces[i])
            invariant
                start <= i <= n == pv.len(),
                pv == views(pieces@),
                trim_front_pieces(want) == trim_front_pieces(pv.subrange(i as int, n as int)),
            decreases n - i,
        {
            assert(pv.subrange(i as int, n as int)[0] == pv[i as int]);
            assert(pv.subrange(i as int, n as int).drop_first() =~= pv.subrange(
                (i + 1) as int,
                n as int,
            ));
            i = i + 1;
        }
        if i < n {
            assert(pv.subrange(i as int, n as int)[0] == pv[i as int]);
        }
        assert(trim_front_pieces(want) == pv.subrange(i as int, n as int));
        let e = back_end(&pieces, i, n);
        let body = piece_range(&pieces, i, e);
        join_chars(&body, "/")
    }
}

pub(crate) fn forward_slashes_of(s: &Vec<char>) -> (r: Vec<char>)
    ensures
        r@ == forward_slashes(s@),
{
    let mut r: Vec<char> = Vec::new();
    let mut i: usize = 0;
    while i < s.len()
        invariant
            i <= s@.len(),
            r@ == forward_slashes(s@).take(i as int),
        decreases s@.len() - i,
    {
        let c = if s[i] == '\\' {
            '/'
        } else {
            s[i]
        };
        r.push(c);
        i = i + 1;
        assert(r@ =~= forward_slashes(s@).take(i as int));
    }
    assert(forward_slashes(s@).take(s@.len() as int) =~= forward_slashes(s@));
    r
}

/// The components of `path`.
pub fn path_components(path: &Vec<char>, windows: bool) -> (r: Vec<Vec<char>>)
    ensures
        views(r@) == components_on(path@, windows),
{
    if windows {
        win_path_components(path)
    } else {
        unix_path_components(path)
    }
}

/// `path` as the assistant shows it: relative to `root` when it lies under it.
pub fn display_path(root: &str, path: &str, windows: bool) -> (r: String)
    ensures
        r@ == shown_on(root@, path@, windows),
{
    let rc = chars_of(root);
    let pc = chars_of(path);
    let pcs = path_components(&pc, windows);
    let rcs = path_components(&rc, windows);
    let shown = if components_prefix(&pcs, &rcs) {
        if windows {
            win_shown_chars(&pc, rcs.len())
        } else {
            let text = text_after_chars(&pc, rcs.len());
            forward_slashes_of(&text)
        }
    } else {
        forward_slashes_of(&pc)
    };
    crate::text::string_of(&shown)
}

/// The file name of a path, if its last component names one.
pub fn file_name_chars(path: &Vec<char>, windows: bool) -> (r: Option<Vec<char>>)
    ensures
        match r {
            Some(n) => file_name_on(path@, windows) == Some(n@),
            None => file_name_on(path@, windows) is None,
        },
{
    let cs = path_components(path, windows);
    let n = cs.len();
    if n == 0 {
        return None;
    }
    assert(views(cs@).last() == cs@[n - 1]@);
    let last = &cs[n - 1];
    let special = if windows {
        (last.len() > 0 && last[0] == '\\') || eq_str(last, ".") || eq_str(last, "..")
    } else {
        eq_str(last, "/") || eq_str(last, ".") || eq_str(last, "..")
    };
    if special {
        None
    } else {
        Some(copy_chars(last))
    }
}

fn last_dot(s: &Vec<char>) -> (r: Option<usize>)
    ensures
        match r {
            Some(i) => i < s@.len() && last_index_of(s@, '.') == i,
            None => last_index_of(s@, '.') == -1,
        },
{
    let mut j: usize = s.len();
    assert(s@.take(j as int) =~= s@);
    while j > 0
        invariant
            j <= s@.len(),
            last_index_of(s@, '.') == last_index_of(s@.take(j as int), '.'),
        decreases j,
    {
        if s[j - 1] == '.' {
            return Some(j - 1);
        }
        assert(s@.take(j as int).drop_last() =~= s@.take((j - 1) as int));
        j = j - 1;
    }
    None
}

/// The extension of a file name.
pub fn extension_chars(name: &Vec<char>) -> (r: Option<Vec<char>>)
    ensures
        match r {
            Some(e) => extension_of(name@) == Some(e@),
            None => extension_of(name@) is None,
        },
{
    let n = name.len();
    match last_dot(name) {
        Some(i) => {
            if i == 0 {
                None
            } else {
                let e = crate::text::subrange(name, i + 1, n);
                assert(e@ =~= name@.skip(i + 1));
                Some(e)
            }
        },
        None => None,
    }
}

/// Whether the path names a markdown file, by its extension.
pub fn is_markdown_chars(path: &Vec<char>, windows: bool) -> (r: bool)
    ensures
        r == markdown_on(path@, windows),
{
    match file_name_chars(path, windows) {
        Some(name) => match extension_chars(&name) {
            Some(ext) => {
                let l = ascii_lowercase(&ext);
                eq_str(&l, "md") || eq_str(&l, "markdown") || eq_str(&l, "mdown")
            },
            None => false,
        },
        None => false,
    }
}

/// `base` joined with the plain name `name`.
pub fn join_path(base: &Vec<char>, name: &str, windows: bool) -> (r: Vec<char>)
    requires
        plain_name(name@),
    ensures
        r@ == joined_on(base@, name@, windows),
{
    if windows {
        return win_join(base, name);
    }
    let mut r = copy_chars(base);
    if base.len() > 0 && base[base.len() - 1] != '/' {
        extend_str(&mut r, "/");
    }
    extend_str(&mut r, name);
    r
}

/// Whether two paths have the same components (`Path`'s `==`).
pub fn same_path(a: &Vec<char>, b: &Vec<char>, windows: bool) -> (r: bool)
    ensures
        r == (components_on(a@, windows) == components_on(b@, windows)),
{
    let ac = path_components(a, windows);
    let bc = path_components(b, windows);
    if ac.len() != bc.len() {
        return false;
    }
    let eq = components_prefix(&ac, &bc);
    assert(views(ac@).take(views(bc@).len() as int) =~= views(ac@));
    eq
}

} // verus!
