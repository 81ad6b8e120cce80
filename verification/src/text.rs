//! Character-sequence helpers shared by the note parser and the filing assistant.
//!
//! Text is modelled as `Seq<char>`, the view that vstd gives `str` and `String`.
use vstd::prelude::*;
use vstd::string::StringExecFns;

verus! {

broadcast use vstd::string::group_string_axioms;

// ---------------------------------------------------------------------------
// Conversions between std strings and char vectors
// ---------------------------------------------------------------------------

/// The characters of `s`, in order.
pub fn chars_of(s: &str) -> (v: Vec<char>)
    ensures
        v@ == s@,
{
    let mut v: Vec<char> = Vec::new();
    for c in it: s.chars()
        invariant
            v@ == it.seq().take(it.index() as int),
    {
        v.push(c);
    }
    v
}

/// Appends one character to a `String` (std's `String::push`).
///
/// Trusted: the view of the string gains exactly `c` at its end.
#[verifier::external_body]
pub(crate) fn push_char(s: &mut String, c: char)
    ensures
        final(s)@ == old(s)@.push(c),
{
    s.push(c);
}

/// Appends every character of `v` to `s`.
pub fn push_chars(s: &mut String, v: &Vec<char>)
    ensures
        final(s)@ == old(s)@ + v@,
{
    let ghost start = s@;
    let mut i: usize = 0;
    while i < v.len()
        invariant
            i <= v@.len(),
            s@ == start + v@.take(i as int),
        decreases v@.len() - i,
    {
        assert(v@.take((i + 1) as int) =~= v@.take(i as int).push(v@[i as int]));
        push_char(s, v[i]);
        i = i + 1;
    }
    assert(v@.take(v@.len() as int) =~= v@);
}

/// Appends a string slice to `s`.
pub fn push_str(s: &mut String, t: &str)
    ensures
        final(s)@ == old(s)@ + t@,
{
    s.append(t);
}

/// A `String` holding exactly the characters of `v`.
pub fn string_of(v: &Vec<char>) -> (s: String)
    ensures
        s@ == v@,
{
    let mut s = String::new();
    push_chars(&mut s, v);
    assert(Seq::<char>::empty() + v@ =~= v@);
    s
}

/// A fresh copy of `s[i..j]`.
pub fn subrange(s: &Vec<char>, i: usize, j: usize) -> (r: Vec<char>)
    requires
        i <= j <= s@.len(),
    ensures
        r@ == s@.subrange(i as int, j as int),
{
    let mut r: Vec<char> = Vec::new();
    let mut k: usize = i;
    while k < j
        invariant
            i <= k <= j <= s@.len(),
            r@ == s@.subrange(i as int, k as int),
        decreases j - k,
    {
        r.push(s[k]);
        k = k + 1;
        assert(r@ =~= s@.subrange(i as int, k as int));
    }
    r
}

/// A fresh copy of `s`.
pub fn copy_chars(s: &Vec<char>) -> (r: Vec<char>)
    ensures
        r@ == s@,
{
    let r = subrange(s, 0, s.len());
    assert(s@.subrange(0, s@.len() as int) =~= s@);
    r
}

/// Appends all of `t` to the vector `v`.
pub fn extend(v: &mut Vec<char>, t: &Vec<char>)
    ensures
        final(v)@ == old(v)@ + t@,
{
    let ghost start = v@;
    let mut i: usize = 0;
    while i < t.len()
        invariant
            i <= t@.len(),
            v@ == start + t@.take(i as int),
        decreases t@.len() - i,
    {
        v.push(t[i]);
        i = i + 1;
        assert(v@ =~= start + t@.take(i as int));
    }
    assert(t@.take(t@.len() as int) =~= t@);
}

/// Appends the characters of a literal to `v`.
pub fn extend_str(v: &mut Vec<char>, t: &str)
    ensures
        final(v)@ == old(v)@ + t@,
{
    let c = chars_of(t);
    extend(v, &c);
}

/// Whether two char sequences are equal.
pub fn chars_eq(a: &Vec<char>, b: &Vec<char>) -> (r: bool)
    ensures
        r == (a@ == b@),
{
    if a.len() != b.len() {
        return false;
    }
    let mut i: usize = 0;
    while i < a.len()
        invariant
            a@.len() == b@.len(),
            i <= a@.len(),
            forall|k: int| 0 <= k < i ==> a@[k] == b@[k],
        decreases a@.len() - i,
    {
        if a[i] != b[i] {
            return false;
        }
        i = i + 1;
    }
    assert(a@ =~= b@);
    true
}

/// Whether `a` holds exactly the characters of the literal `b`.
pub fn eq_str(a: &Vec<char>, b: &str) -> (r: bool)
    ensures
        r == (a@ == b@),
{
    let bc = chars_of(b);
    chars_eq(a, &bc)
}

// ---------------------------------------------------------------------------
// Character classes
// ---------------------------------------------------------------------------

/// Unicode `White_Space`, the set that `char::is_whitespace` tests.
pub open spec fn is_ws(c: char) -> bool {
    ||| c == '\t'
    ||| c == '\n'
    ||| c == '\x0B'
    ||| c == '\x0C'
    ||| c == '\r'
    ||| c == ' '
    ||| c == '\u{85}'
    ||| c == '\u{A0}'
    ||| c == '\u{1680}'
    ||| ('\u{2000}' <= c && c <= '\u{200A}')
    ||| c == '\u{2028}'
    ||| c == '\u{2029}'
    ||| c == '\u{202F}'
    ||| c == '\u{205F}'
    ||| c == '\u{3000}'
}

pub fn is_whitespace(c: char) -> (r: bool)
    ensures
        r == is_ws(c),
{
    c == '\t' || c == '\n' || c == '\x0B' || c == '\x0C' || c == '\r' || c == ' ' || c == '\u{85}'
        || c == '\u{A0}' || c == '\u{1680}' || ('\u{2000}' <= c && c <= '\u{200A}') || c
        == '\u{2028}' || c == '\u{2029}' || c == '\u{202F}' || c == '\u{205F}' || c == '\u{3000}'
}

/// `char::is_ascii_alphanumeric`.
pub open spec fn is_ascii_alnum(c: char) -> bool {
    ('0' <= c && c <= '9') || ('a' <= c && c <= 'z') || ('A' <= c && c <= 'Z')
}

/// `char::to_ascii_lowercase`.
pub open spec fn lower_char(c: char) -> char {
    if 'A' <= c && c <= 'Z' {
        ((c as u32) + 32) as char
    } else {
        c
    }
}

pub fn to_lower_char(c: char) -> (r: char)
    ensures
        r == lower_char(c),
{
    if 'A' <= c && c <= 'Z' {
        let b: u8 = (c as u8) + 32;
        b as char
    } else {
        c
    }
}

/// `str::to_ascii_lowercase`: every ASCII capital becomes its small letter.
pub open spec fn ascii_lower(s: Seq<char>) -> Seq<char> {
    Seq::new(s.len(), |i: int| lower_char(s[i]))
}

pub fn ascii_lowercase(s: &Vec<char>) -> (r: Vec<char>)
    ensures
        r@ == ascii_lower(s@),
{
    let mut r: Vec<char> = Vec::new();
    let mut i: usize = 0;
    while i < s.len()
        invariant
            i <= s@.len(),
            r@ =~= ascii_lower(s@.take(i as int)),
        decreases s@.len() - i,
    {
        let c = to_lower_char(s[i]);
        r.push(c);
        i = i + 1;
        assert(r@ =~= ascii_lower(s@.take(i as int)));
    }
    assert(s@.take(s@.len() as int) =~= s@);
    r
}

/// The classes of characters that the parser trims.
#[derive(Clone, Copy, PartialEq, Eq, Debug)]
pub enum Trim {
    /// `char::is_whitespace`, as `str::trim` uses it.
    Whitespace,
    /// The character `-`.
    Dash,
    /// `\r` and `\n`.
    LineBreak,
}

pub open spec fn in_class(k: Trim, c: char) -> bool {
    match k {
        Trim::Whitespace => is_ws(c),
        Trim::Dash => c == '-',
        Trim::LineBreak => c == '\r' || c == '\n',
    }
}

pub fn is_in_class(k: Trim, c: char) -> (r: bool)
    ensures
        r == in_class(k, c),
{
    match k {
        Trim::Whitespace => is_whitespace(c),
        Trim::Dash => c == '-',
        Trim::LineBreak => c == '\r' || c == '\n',
    }
}

/// `s` without its leading characters of class `k`.
pub open spec fn trim_start(k: Trim, s: Seq<char>) -> Seq<char>
    decreases s.len(),
{
    if s.len() > 0 && in_class(k, s[0]) {
        trim_start(k, s.drop_first())
    } else {
        s
    }
}

/// `s` without its trailing characters of class `k`.
pub open spec fn trim_end(k: Trim, s: Seq<char>) -> Seq<char>
    decreases s.len(),
{
    if s.len() > 0 && in_class(k, s.last()) {
        trim_end(k, s.drop_last())
    } else {
        s
    }
}

/// `s` without leading and trailing characters of class `k`.
pub open spec fn trim(k: Trim, s: Seq<char>) -> Seq<char> {
    trim_end(k, trim_start(k, s))
}

/// The index of the first character of `s[lo..]` outside class `k`.
fn lead_end(k: Trim, s: &Vec<char>, lo: usize) -> (i: usize)
    requires
        lo <= s@.len(),
    ensures
        lo <= i <= s@.len(),
        trim_start(k, s@.subrange(lo as int, s@.len() as int)) == s@.subrange(
            i as int,
            s@.len() as int,
        ),
{
    let n = s.len();
    let mut i: usize = lo;
    while i < n && is_in_class(k, s[i])
        invariant
            lo <= i <= n == s@.len(),
            trim_start(k, s@.subrange(lo as int, n as int)) == trim_start(
                k,
                s@.subrange(i as int, n as int),
            ),
        decreases n - i,
    {
        assert(s@.subrange(i as int, n as int).drop_first() =~= s@.subrange(
            (i + 1) as int,
            n as int,
        ));
        i = i + 1;
    }
    i
}

/// The end of `s[lo..hi]` once trailing characters of class `k` are dropped.
fn trail_start(k: Trim, s: &Vec<char>, lo: usize, hi: usize) -> (j: usize)
    requires
        lo <= hi <= s@.len(),
    ensures
        lo <= j <= hi,
        trim_end(k, s@.subrange(lo as int, hi as int)) == s@.subrange(lo as int, j as int),
{
    let mut j: usize = hi;
    while j > lo && is_in_class(k, s[j - 1])
        invariant
            lo <= j <= hi <= s@.len(),
            trim_end(k, s@.subrange(lo as int, hi as int)) == trim_end(
                k,
                s@.subrange(lo as int, j as int),
            ),
        decreases j - lo,
    {
        assert(s@.subrange(lo as int, j as int).drop_last() =~= s@.subrange(
            lo as int,
            (j - 1) as int,
        ));
        j = j - 1;
    }
    j
}

pub fn trimmed_start(k: Trim, s: &Vec<char>) -> (r: Vec<char>)
    ensures
        r@ == trim_start(k, s@),
{
    assert(s@.subrange(0, s@.len() as int) =~= s@);
    let i = lead_end(k, s, 0);
    subrange(s, i, s.len())
}

pub fn trimmed_end(k: Trim, s: &Vec<char>) -> (r: Vec<char>)
    ensures
        r@ == trim_end(k, s@),
{
    assert(s@.subrange(0, s@.len() as int) =~= s@);
    let j = trail_start(k, s, 0, s.len());
    subrange(s, 0, j)
}

pub fn trimmed(k: Trim, s: &Vec<char>) -> (r: Vec<char>)
    ensures
        r@ == trim(k, s@),
{
    assert(s@.subrange(0, s@.len() as int) =~= s@);
    let i = lead_end(k, s, 0);
    let j = trail_start(k, s, i, s.len());
    subrange(s, i, j)
}

// ---------------------------------------------------------------------------
// Prefixes and substrings
// ---------------------------------------------------------------------------

pub open spec fn starts_with(s: Seq<char>, p: Seq<char>) -> bool {
    p.len() <= s.len() && s.take(p.len() as int) == p
}

/// `needle` occurs in `hay` starting at index `i`.
pub open spec fn occurs_at(hay: Seq<char>, needle: Seq<char>, i: int) -> bool {
    0 <= i && i + needle.len() <= hay.len() && hay.subrange(i, i + needle.len()) == needle
}

/// `str::contains` with a string pattern.
pub open spec fn contains(hay: Seq<char>, needle: Seq<char>) -> bool {
    exists|i: int| #[trigger] occurs_at(hay, needle, i)
}

fn matches_at(hay: &Vec<char>, needle: &Vec<char>, i: usize) -> (r: bool)
    requires
        i + needle@.len() <= hay@.len(),
    ensures
        r == occurs_at(hay@, needle@, i as int),
{
    let hl = hay.len();
    let mut k: usize = 0;
    while k < needle.len()
        invariant
            hl == hay@.len(),
            i + needle@.len() <= hay@.len(),
            k <= needle@.len(),
            forall|m: int| 0 <= m < k ==> hay@[i + m] == needle@[m],
        decreases needle@.len() - k,
    {
        if hay[i + k] != needle[k] {
            assert(hay@.subrange(i as int, i + needle@.len())[k as int] != needle@[k as int]);
            return false;
        }
        k = k + 1;
    }
    assert(hay@.subrange(i as int, i + needle@.len()) =~= needle@);
    true
}

pub fn contains_chars(hay: &Vec<char>, needle: &Vec<char>) -> (r: bool)
    ensures
        r == contains(hay@, needle@),
{
    if needle.len() > hay.len() {
        assert forall|i: int| !occurs_at(hay@, needle@, i) by {}
        return false;
    }
    let last = hay.len() - needle.len();
    let mut i: usize = 0;
    loop
        invariant
            last + needle@.len() == hay@.len(),
            i <= last,
            forall|m: int| 0 <= m < i ==> !occurs_at(hay@, needle@, m),
        decreases last - i,
    {
        if matches_at(hay, needle, i) {
            return true;
        }
        if i == last {
            assert forall|m: int| !occurs_at(hay@, needle@, m) by {}
            return false;
        }
        i = i + 1;
    }
}

/// Whether the literal `needle` occurs in `hay`.
pub fn contains_str(hay: &Vec<char>, needle: &str) -> (r: bool)
    ensures
        r == contains(hay@, needle@),
{
    let n = chars_of(needle);
    contains_chars(hay, &n)
}

pub fn starts_with_str(s: &Vec<char>, p: &str) -> (r: bool)
    ensures
        r == starts_with(s@, p@),
{
    let pc = chars_of(p);
    if pc.len() > s.len() {
        return false;
    }
    assert(occurs_at(s@, pc@, 0) == (s@.take(pc@.len() as int) == pc@)) by {
        assert(s@.subrange(0, pc@.len() as int) =~= s@.take(pc@.len() as int));
    }
    matches_at(s, &pc, 0)
}

// ---------------------------------------------------------------------------
// Lines
// ---------------------------------------------------------------------------

/// Splitting at `sep`, where `cur` is the piece read so far.
pub open spec fn split_char_from(s: Seq<char>, sep: char, cur: Seq<char>) -> Seq<Seq<char>>
    decreases s.len(),
{
    if s.len() == 0 {
        seq![cur]
    } else if s[0] == sep {
        seq![cur] + split_char_from(s.drop_first(), sep, Seq::empty())
    } else {
        split_char_from(s.drop_first(), sep, cur.push(s[0]))
    }
}

/// The pieces of `s` between `sep` characters (`str::split`); there is always
/// at least one.
pub open spec fn split_char(s: Seq<char>, sep: char) -> Seq<Seq<char>> {
    split_char_from(s, sep, Seq::empty())
}

/// The pieces of `s` between `\n` characters.
pub open spec fn split_nl(s: Seq<char>) -> Seq<Seq<char>> {
    split_char(s, '\n')
}

/// The pieces of `s` between the characters `sep`.
pub fn split_at_char(s: &Vec<char>, sep: char) -> (r: Vec<Vec<char>>)
    ensures
        views(r@) == split_char(s@, sep),
        r@.len() >= 1,
{
    let n = s.len();
    let mut segs: Vec<Vec<char>> = Vec::new();
    let mut cur: Vec<char> = Vec::new();
    let mut i: usize = 0;
    assert(s@.subrange(0, n as int) =~= s@);
    while i < n
        invariant
            n == s@.len(),
            i <= n,
            views(segs@) + split_char_from(s@.subrange(i as int, n as int), sep, cur@)
                == split_char(s@, sep),
        decreases n - i,
    {
        let ghost rest = s@.subrange(i as int, n as int);
        assert(rest.drop_first() =~= s@.subrange((i + 1) as int, n as int));
        assert(rest[0] == s@[i as int]);
        if s[i] == sep {
            let ghost old_segs = views(segs@);
            let done = cur;
            cur = Vec::new();
            segs.push(done);
            assert(views(segs@) =~= old_segs.push(done@));
            assert(old_segs + (seq![done@] + split_char_from(rest.drop_first(), sep, Seq::empty()))
                =~= views(segs@) + split_char_from(rest.drop_first(), sep, Seq::empty()));
        } else {
            cur.push(s[i]);
        }
        i = i + 1;
    }
    assert(s@.subrange(n as int, n as int) =~= Seq::<char>::empty());
    let ghost before = views(segs@);
    segs.push(cur);
    assert(views(segs@) =~= before.push(cur@));
    segs
}

/// A line that ended with `\n` loses one `\r` before it.
pub open spec fn strip_cr(l: Seq<char>) -> Seq<char> {
    if l.len() > 0 && l.last() == '\r' {
        l.drop_last()
    } else {
        l
    }
}

/// `str::lines`: the pieces between `\n`, each piece that ended at a `\n` without a
/// trailing `\r`, and no empty last piece after a final `\n`.
pub open spec fn lines(s: Seq<char>) -> Seq<Seq<char>> {
    let segs = split_nl(s);
    let done = segs.drop_last().map_values(|l: Seq<char>| strip_cr(l));
    if segs.last().len() > 0 {
        done.push(segs.last())
    } else {
        done
    }
}

fn strip_cr_vec(l: Vec<char>) -> (r: Vec<char>)
    ensures
        r@ == strip_cr(l@),
{
    let mut l = l;
    if l.len() > 0 && l[l.len() - 1] == '\r' {
        l.pop();
    }
    l
}

/// The views of a vector of char vectors.
pub open spec fn views(v: Seq<Vec<char>>) -> Seq<Seq<char>> {
    v.map_values(|x: Vec<char>| x@)
}

/// The lines of `s`, as `str::lines` yields them.
pub fn lines_of(s: &Vec<char>) -> (r: Vec<Vec<char>>)
    ensures
        views(r@) == lines(s@),
{
    let pieces = split_at_char(s, '\n');
    let ghost all = split_nl(s@);
    let mut segs = pieces;
    let cur = segs.pop().unwrap();
    assert(all.drop_last() =~= views(segs@));
    assert(all.last() == cur@);
    // `segs` now holds every piece but the last one, which is `cur`.
    let ghost segs_view = views(segs@);
    let m = segs.len();
    let mut r: Vec<Vec<char>> = Vec::new();
    let mut k: usize = 0;
    while k < m
        invariant
            m == segs@.len(),
            segs_view == views(segs@),
            k <= m,
            views(r@) =~= segs_view.take(k as int).map_values(|l: Seq<char>| strip_cr(l)),
        decreases m - k,
    {
        let ghost before = views(r@);
        assert(segs_view[k as int] == segs@[k as int]@);
        let piece = copy_chars(&segs[k]);
        let stripped = strip_cr_vec(piece);
        r.push(stripped);
        assert(views(r@) =~= before.push(strip_cr(segs_view[k as int])));
        assert(segs_view.take((k + 1) as int) =~= segs_view.take(k as int).push(segs_view[k as int]));
        k = k + 1;
        assert(views(r@) =~= segs_view.take(k as int).map_values(|l: Seq<char>| strip_cr(l)));
    }
    assert(segs_view.take(m as int) =~= segs_view);
    if cur.len() > 0 {
        let ghost before = views(r@);
        r.push(cur);
        assert(views(r@) =~= before.push(all.last()));
    }
    r
}

// ---------------------------------------------------------------------------
// Joining
// ---------------------------------------------------------------------------

/// `parts` joined with `sep` between neighbours (`[T]::join`).
pub open spec fn join(parts: Seq<Seq<char>>, sep: Seq<char>) -> Seq<char>
    decreases parts.len(),
{
    if parts.len() == 0 {
        Seq::empty()
    } else if parts.len() == 1 {
        parts[0]
    } else {
        join(parts.drop_last(), sep) + sep + parts.last()
    }
}

pub proof fn lemma_join_push(parts: Seq<Seq<char>>, sep: Seq<char>, p: Seq<char>)
    ensures
        join(parts.push(p), sep) == if parts.len() == 0 {
            p
        } else {
            join(parts, sep) + sep + p
        },
{
    assert(parts.push(p).drop_last() =~= parts);
}

/// Joins `parts` with the separator `sep`.
pub fn join_chars(parts: &Vec<Vec<char>>, sep: &str) -> (r: Vec<char>)
    ensures
        r@ == join(views(parts@), sep@),
{
    let sepc = chars_of(sep);
    let mut r: Vec<char> = Vec::new();
    let mut i: usize = 0;
    while i < parts.len()
        invariant
            i <= parts@.len(),
            sepc@ == sep@,
            r@ == join(views(parts@).take(i as int), sep@),
        decreases parts@.len() - i,
    {
        proof {
            lemma_join_push(views(parts@).take(i as int), sep@, views(parts@)[i as int]);
            assert(views(parts@).take((i + 1) as int) =~= views(parts@).take(
                i as int,
            ).push(views(parts@)[i as int]));
        }
        if i > 0 {
            extend(&mut r, &sepc);
        }
        extend(&mut r, &parts[i]);
        i = i + 1;
    }
    assert(views(parts@).take(parts@.len() as int) =~= views(parts@));
    r
}

// ---------------------------------------------------------------------------
// Numbers
// ---------------------------------------------------------------------------

pub open spec fn digit_char(d: nat) -> char {
    (48 + d) as char
}

/// The decimal digits of `n`, as `usize`'s `Display` writes them.
pub open spec fn decimal(n: nat) -> Seq<char>
    decreases n,
{
    if n < 10 {
        seq![digit_char(n)]
    } else {
        decimal(n / 10).push(digit_char(n % 10))
    }
}

/// Appends the decimal digits of `n` to `v`.
pub fn push_decimal(v: &mut Vec<char>, n: usize)
    ensures
        final(v)@ == old(v)@ + decimal(n as nat),
    decreases n,
{
    if n >= 10 {
        push_decimal(v, n / 10);
    }
    let d: u8 = (n % 10) as u8;
    let c: char = (48u8 + d) as char;
    v.push(c);
}

} // verus!
