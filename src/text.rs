//! Character-level text operations used to build context passages.

use itertools::Itertools;
use vstd::prelude::*;

verus! {

/// The characters that carry the Unicode `White_Space` property, which is
/// what `char::is_whitespace` and `str::trim` go by.
pub open spec fn is_white_space(c: char) -> bool {
    let u = c as u32;
    (0x9 <= u <= 0xd) || u == 0x20 || u == 0x85 || u == 0xa0 || u == 0x1680 || (0x2000 <= u
        <= 0x200a) || u == 0x2028 || u == 0x2029 || u == 0x202f || u == 0x205f || u == 0x3000
}

/// Relies on `String::push`: appends one character at the end.
#[verifier::external_body]
fn push_char(s: &mut String, c: char)
    ensures
        final(s)@ == old(s)@.push(c),
{
    s.push(c)
}

/// The characters of `s`, in order.
pub fn chars_of(s: &str) -> (r: Vec<char>)
    ensures
        r@ == s@,
{
    let mut out: Vec<char> = Vec::new();
    for c in it: s.chars()
        invariant
            out@ == it.seq().subrange(0, it.index() as int),
    {
        out.push(c);
    }
    assert(out@ =~= s@);
    out
}

/// A `String` holding exactly the characters of `v`.
pub fn string_of(v: &Vec<char>) -> (r: String)
    ensures
        r@ == v@,
{
    let mut out = String::new();
    let mut i: usize = 0;
    while i < v.len()
        invariant
            i <= v@.len(),
            out@ == v@.subrange(0, i as int),
        decreases v@.len() - i,
    {
        push_char(&mut out, v[i]);
        i = i + 1;
        assert(out@ =~= v@.subrange(0, i as int));
    }
    assert(out@ =~= v@);
    out
}

/// `s` without its leading white space.
pub open spec fn trim_start(s: Seq<char>) -> Seq<char>
    decreases s.len(),
{
    if s.len() > 0 && is_white_space(s[0]) {
        trim_start(s.drop_first())
    } else {
        s
    }
}

/// `s` without its trailing white space.
pub open spec fn trim_end(s: Seq<char>) -> Seq<char>
    decreases s.len(),
{
    if s.len() > 0 && is_white_space(s.last()) {
        trim_end(s.drop_last())
    } else {
        s
    }
}

/// `s` without leading and trailing white space, as `str::trim` gives it.
pub open spec fn trimmed(s: Seq<char>) -> Seq<char> {
    trim_end(trim_start(s))
}

/// `s` with each run of two or more line breaks replaced by a single line
/// break, so that no blank line is left.
pub open spec fn collapse_blank_lines(s: Seq<char>) -> Seq<char>
    decreases s.len(),
{
    if s.len() >= 2 && s[0] == '\n' && s[1] == '\n' {
        collapse_blank_lines(s.drop_first())
    } else if s.len() >= 1 {
        seq![s[0]] + collapse_blank_lines(s.drop_first())
    } else {
        Seq::empty()
    }
}

/// `s` holds no two line breaks in a row.
pub open spec fn has_no_blank_line(s: Seq<char>) -> bool {
    forall|i: int| 0 <= i < s.len() - 1 ==> !(#[trigger] s[i] == '\n' && s[i + 1] == '\n')
}

/// Collapsing leaves no blank line, and keeps a first character that is not
/// a line break.
pub proof fn lemma_collapse_no_blank_line(s: Seq<char>)
    ensures
        has_no_blank_line(collapse_blank_lines(s)),
        s.len() > 0 && s[0] != '\n' ==> collapse_blank_lines(s).len() > 0 && collapse_blank_lines(
            s,
        )[0] == s[0],
    decreases s.len(),
{
    if s.len() >= 2 && s[0] == '\n' && s[1] == '\n' {
        lemma_collapse_no_blank_line(s.drop_first());
    } else if s.len() >= 1 {
        let rest = s.drop_first();
        lemma_collapse_no_blank_line(rest);
        let r = collapse_blank_lines(s);
        let tail = collapse_blank_lines(rest);
        assert(r == seq![s[0]] + tail);
        assert forall|i: int| 0 <= i < r.len() - 1 implies !(#[trigger] r[i] == '\n' && r[i + 1]
            == '\n') by {
            if i > 0 {
                assert(r[i] == tail[i - 1] && r[i + 1] == tail[i]);
            } else {
                assert(r[1] == tail[0]);
                if s[0] == '\n' {
                    assert(rest[0] == s[1]);
                }
            }
        }
    }
}

/// The parts laid end to end with `sep` between each two of them.
pub open spec fn joined(parts: Seq<Seq<char>>, sep: Seq<char>) -> Seq<char>
    decreases parts.len(),
{
    if parts.len() == 0 {
        Seq::empty()
    } else if parts.len() == 1 {
        parts[0]
    } else {
        joined(parts.drop_last(), sep) + sep + parts.last()
    }
}

/// The views of a sequence of strings.
pub open spec fn views(v: Seq<String>) -> Seq<Seq<char>> {
    v.map_values(|s: String| s@)
}

/// The white-space-free core of `s`: `trimmed(s@)`.
pub fn trim_chars(s: &Vec<char>) -> (r: Vec<char>)
    ensures
        r@ == trimmed(s@),
{
    let n = s.len();
    let mut i: usize = 0;
    assert(s@.subrange(0, n as int) =~= s@);
    while i < n && is_white_space_char(s[i])
        invariant
            n == s@.len(),
            i <= n,
            trim_start(s@) == trim_start(s@.subrange(i as int, n as int)),
        decreases n - i,
    {
        assert(s@.subrange(i as int, n as int).drop_first() =~= s@.subrange(i + 1, n as int));
        i = i + 1;
    }
    let ghost front = s@.subrange(i as int, n as int);
    assert(trim_start(front) == front);
    let mut j: usize = n;
    while j > i && is_white_space_char(s[j - 1])
        invariant
            n == s@.len(),
            i <= j <= n,
            trim_end(front) == trim_end(s@.subrange(i as int, j as int)),
        decreases j,
    {
        assert(s@.subrange(i as int, j as int).drop_last() =~= s@.subrange(i as int, j - 1));
        j = j - 1;
    }
    let mut out: Vec<char> = Vec::new();
    let mut k: usize = i;
    while k < j
        invariant
            i <= k <= j <= n,
            n == s@.len(),
            out@ == s@.subrange(i as int, k as int),
        decreases j - k,
    {
        out.push(s[k]);
        k = k + 1;
        assert(out@ =~= s@.subrange(i as int, k as int));
    }
    out
}

/// Whether `c` is white space, as `char::is_whitespace` decides.
pub fn is_white_space_char(c: char) -> (r: bool)
    ensures
        r == is_white_space(c),
{
    let u = c as u32;
    (0x9 <= u && u <= 0xd) || u == 0x20 || u == 0x85 || u == 0xa0 || u == 0x1680 || (0x2000 <= u
        && u <= 0x200a) || u == 0x2028 || u == 0x2029 || u == 0x202f || u == 0x205f || u == 0x3000
}

/// `collapse_blank_lines(s@)`, computed in one pass: of each run of line
/// breaks only the last is kept.
pub fn collapse_blank_lines_chars(s: &Vec<char>) -> (r: Vec<char>)
    ensures
        r@ == collapse_blank_lines(s@),
{
    let n = s.len();
    let mut out: Vec<char> = Vec::new();
    let mut i: usize = 0;
    assert(s@.subrange(0, n as int) =~= s@);
    assert(out@ + s@ =~= s@);
    while i < n
        invariant
            n == s@.len(),
            i <= n,
            collapse_blank_lines(s@) == out@ + collapse_blank_lines(s@.subrange(i as int, n as int)),
        decreases n - i,
    {
        let ghost rest = s@.subrange(i as int, n as int);
        if i + 1 < n && s[i] == '\n' && s[i + 1] == '\n' {
            assert(rest.drop_first() =~= s@.subrange(i + 1, n as int));
            i = i + 1;
        } else {
            assert(rest.drop_first() =~= s@.subrange(i + 1, n as int));
            out.push(s[i]);
            i = i + 1;
        }
        assert(collapse_blank_lines(s@) == out@ + collapse_blank_lines(
            s@.subrange(i as int, n as int),
        ));
    }
    assert(s@.subrange(n as int, n as int) =~= Seq::<char>::empty());
    assert(out@ =~= out@ + Seq::<char>::empty());
    out
}

/// The parts laid end to end with `sep` between each two, as `[String]::join`
/// gives them.
pub fn join_with(parts: &Vec<String>, sep: &str) -> (r: String)
    ensures
        r@ == joined(views(parts@), sep@),
{
    let mut out = String::new();
    let mut i: usize = 0;
    while i < parts.len()
        invariant
            i <= parts@.len(),
            out@ == joined(views(parts@.subrange(0, i as int)), sep@),
        decreases parts@.len() - i,
    {
        let ghost done = views(parts@.subrange(0, i as int));
        let ghost next = views(parts@.subrange(0, i + 1));
        assert(next.drop_last() =~= done);
        assert(next.last() == parts@[i as int]@);
        if i > 0 {
            out.append(sep);
        } else {
            assert(out@ =~= Seq::<char>::empty());
        }
        out.append(parts[i].as_str());
        i = i + 1;
        assert(out@ =~= joined(next, sep@));
    }
    assert(parts@.subrange(0, parts@.len() as int) =~= parts@);
    out
}

/// The pieces of `s` between its double line breaks, taken from the left
/// without overlap: `str::split(s, "\n\n")`. There is always at least one
/// piece.
pub open spec fn split_blank_lines(s: Seq<char>) -> Seq<Seq<char>>
    decreases s.len(),
{
    if s.len() >= 2 && s[0] == '\n' && s[1] == '\n' {
        seq![Seq::empty()] + split_blank_lines(s.subrange(2, s.len() as int))
    } else if s.len() >= 1 {
        let rest = split_blank_lines(s.drop_first());
        rest.update(0, seq![s[0]] + rest[0])
    } else {
        seq![Seq::empty()]
    }
}

proof fn lemma_split_nonempty(s: Seq<char>)
    ensures
        split_blank_lines(s).len() >= 1,
    decreases s.len(),
{
    if s.len() >= 2 && s[0] == '\n' && s[1] == '\n' {
        lemma_split_nonempty(s.subrange(2, s.len() as int));
    } else if s.len() >= 1 {
        lemma_split_nonempty(s.drop_first());
    }
}

proof fn lemma_joined_prepend(x: Seq<char>, rest: Seq<Seq<char>>, sep: Seq<char>)
    requires
        rest.len() >= 1,
    ensures
        joined(seq![x] + rest, sep) == x + sep + joined(rest, sep),
    decreases rest.len(),
{
    let all = seq![x] + rest;
    assert(all.len() >= 2);
    assert(all.last() == rest.last());
    assert(joined(all, sep) == joined(all.drop_last(), sep) + sep + all.last());
    if rest.len() == 1 {
        assert(all.drop_last() =~= seq![x]);
        assert(joined(seq![x], sep) == x);
        assert(joined(rest, sep) == rest[0]);
    } else {
        assert(all.drop_last() =~= seq![x] + rest.drop_last());
        assert(joined(rest, sep) == joined(rest.drop_last(), sep) + sep + rest.last());
        lemma_joined_prepend(x, rest.drop_last(), sep);
        assert(x + sep + joined(rest.drop_last(), sep) + sep + rest.last() =~= x + sep + (joined(
            rest.drop_last(),
            sep,
        ) + sep + rest.last()));
    }
}

proof fn lemma_joined_extend_first(r: Seq<Seq<char>>, c: Seq<char>, sep: Seq<char>)
    requires
        r.len() >= 1,
    ensures
        joined(r.update(0, c + r[0]), sep) == c + joined(r, sep),
    decreases r.len(),
{
    let u = r.update(0, c + r[0]);
    if r.len() == 1 {
    } else {
        assert(u.drop_last() =~= r.drop_last().update(0, c + r.drop_last()[0]));
        lemma_joined_extend_first(r.drop_last(), c, sep);
        assert(c + joined(r.drop_last(), sep) + sep + r.last() =~= c + (joined(r.drop_last(), sep)
            + sep + r.last()));
    }
}

/// Joining the sentences of a text with blank lines gives the text back.
pub proof fn lemma_split_join(s: Seq<char>)
    ensures
        joined(split_blank_lines(s), seq!['\n', '\n']) == s,
    decreases s.len(),
{
    let sep = seq!['\n', '\n'];
    if s.len() >= 2 && s[0] == '\n' && s[1] == '\n' {
        let rest = s.subrange(2, s.len() as int);
        lemma_split_join(rest);
        lemma_split_nonempty(rest);
        lemma_joined_prepend(Seq::empty(), split_blank_lines(rest), sep);
        assert(Seq::<char>::empty() + sep + rest =~= s);
    } else if s.len() >= 1 {
        let rest = s.drop_first();
        lemma_split_join(rest);
        lemma_split_nonempty(rest);
        lemma_joined_extend_first(split_blank_lines(rest), seq![s[0]], sep);
        assert(seq![s[0]] + rest =~= s);
    } else {
        assert(joined(seq![Seq::<char>::empty()], sep) == Seq::<char>::empty());
        assert(s =~= Seq::<char>::empty());
    }
}

/// Splits a text into its sentences: the pieces between double line
/// breaks, in order.
pub fn split_sentences(s: &str) -> (r: Vec<String>)
    ensures
        views(r@) == split_blank_lines(s@),
{
    let cs = chars_of(s);
    let n = cs.len();
    let mut pieces: Vec<String> = Vec::new();
    let mut cur: Vec<char> = Vec::new();
    let mut i: usize = 0;
    proof {
        lemma_split_nonempty(s@);
        let r = split_blank_lines(s@);
        assert(cs@.subrange(0, n as int) =~= cs@);
        assert(views(pieces@) + seq![cur@ + r[0]] + r.drop_first() =~= r);
    }
    while i < n
        invariant
            n == cs@.len(),
            cs@ == s@,
            i <= n,
            split_blank_lines(cs@) == views(pieces@) + seq![
                cur@ + split_blank_lines(cs@.subrange(i as int, n as int))[0],
            ] + split_blank_lines(cs@.subrange(i as int, n as int)).drop_first(),
        decreases n - i,
    {
        let ghost rest = cs@.subrange(i as int, n as int);
        let ghost before = views(pieces@);
        if i + 1 < n && cs[i] == '\n' && cs[i + 1] == '\n' {
            let ghost after = cs@.subrange(i + 2, n as int);
            assert(rest.subrange(2, rest.len() as int) =~= after);
            proof {
                lemma_split_nonempty(after);
            }
            let piece = string_of(&cur);
            pieces.push(piece);
            cur = Vec::new();
            i = i + 2;
            assert(views(pieces@) =~= before.push(piece@));
            let ghost r2 = split_blank_lines(after);
            assert(split_blank_lines(rest) =~= seq![Seq::<char>::empty()] + r2);
            assert(split_blank_lines(cs@) =~= views(pieces@) + seq![cur@ + r2[0]]
                + r2.drop_first());
        } else {
            let ghost after = cs@.subrange(i + 1, n as int);
            assert(rest.drop_first() =~= after);
            proof {
                lemma_split_nonempty(after);
            }
            let ghost old_cur = cur@;
            let c = cs[i];
            cur.push(c);
            i = i + 1;
            let ghost r2 = split_blank_lines(after);
            assert(split_blank_lines(rest) =~= r2.update(0, seq![c] + r2[0]));
            assert(old_cur + (seq![c] + r2[0]) =~= cur@ + r2[0]);
            assert(split_blank_lines(rest).drop_first() =~= r2.drop_first());
        }
    }
    let ghost before = views(pieces@);
    let piece = string_of(&cur);
    pieces.push(piece);
    proof {
        let empty = cs@.subrange(n as int, n as int);
        assert(empty =~= Seq::<char>::empty());
        assert(cur@ + Seq::<char>::empty() =~= cur@);
        assert(views(pieces@) =~= before.push(piece@));
        assert(seq![Seq::<char>::empty()].drop_first() =~= Seq::<Seq<char>>::empty());
        assert(views(pieces@) =~= before + seq![cur@ + split_blank_lines(empty)[0]]
            + split_blank_lines(empty).drop_first());
    }
    pieces
}

/// Relies on `Itertools::join`: each item written through its `Display`
/// impl, which for a `String` is the string itself, with `sep` between two
/// items.
#[verifier::external_body]
pub(crate) fn join_all(parts: &Vec<String>, sep: &str) -> (r: String)
    ensures
        r@ == joined(views(parts@), sep@),
{
    parts.iter().join(sep)
}

} // verus!
