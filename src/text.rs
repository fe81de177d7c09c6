//! Character-level building blocks: the Unicode character classes the
//! library relies on, conversions between strings and character vectors,
//! trimming and line splitting.
use vstd::prelude::*;

verus! {

/// Unicode `Alphabetic` or `Numeric` outside the ASCII range.
pub uninterp spec fn non_ascii_alphanumeric(c: char) -> bool;

/// The full Unicode lower-case mapping of a string.
pub uninterp spec fn lowercase_of(s: Seq<char>) -> Seq<char>;

/// Whether `c` has Unicode's `White_Space` property: the space, `'\t'` to
/// `'\r'`, U+0085, U+00A0, U+1680, U+2000 to U+200A, U+2028, U+2029, U+202F,
/// U+205F and U+3000.
pub open spec fn is_space(c: char) -> bool {
    ||| c == ' '
    ||| ('\t' <= c && c <= '\r')
    ||| c == '\u{85}'
    ||| c == '\u{A0}'
    ||| c == '\u{1680}'
    ||| ('\u{2000}' <= c && c <= '\u{200A}')
    ||| c == '\u{2028}'
    ||| c == '\u{2029}'
    ||| c == '\u{202F}'
    ||| c == '\u{205F}'
    ||| c == '\u{3000}'
}

/// Whether `c` is a letter or a digit; within ASCII these are `a-z`, `A-Z`, `0-9`.
pub open spec fn is_alnum(c: char) -> bool {
    if (c as u32) < 128 {
        ('a' <= c && c <= 'z') || ('A' <= c && c <= 'Z') || ('0' <= c && c <= '9')
    } else {
        non_ascii_alphanumeric(c)
    }
}

/// Relies on `char::is_whitespace`: true exactly for characters with the
/// Unicode `White_Space` property, listed at `is_space`.
#[verifier::external_body]
pub fn char_is_space(c: char) -> (r: bool)
    ensures
        r == is_space(c),
{
    c.is_whitespace()
}

/// Relies on `char::is_alphanumeric`: true exactly for characters that are
/// Unicode `Alphabetic` or `Numeric`, which in ASCII are the letters and digits.
#[verifier::external_body]
pub fn char_is_alnum(c: char) -> (r: bool)
    ensures
        r == is_alnum(c),
        (c as u32) >= 128 ==> r == non_ascii_alphanumeric(c),
{
    c.is_alphanumeric()
}

/// Relies on `str::to_lowercase`: the result depends on the characters alone,
/// and an empty string stays empty.
#[verifier::external_body]
pub fn to_lowercase(s: &str) -> (r: String)
    ensures
        r@ == lowercase_of(s@),
        s@.len() == 0 ==> r@.len() == 0,
{
    s.to_lowercase()
}

/// Relies on `String`'s `FromIterator<&char>`: the characters in order.
#[verifier::external_body]
pub fn string_of(v: &[char]) -> (r: String)
    ensures
        r@ == v@,
{
    v.iter().collect()
}

/// The characters of `s`, in order.
pub fn chars_of(s: &str) -> (r: Vec<char>)
    ensures
        r@ == s@,
{
    let mut r: Vec<char> = Vec::new();
    for c in it: s.chars()
        invariant
            r@ == it.seq().take(it.index() as int),
            it.seq() == s@,
    {
        r.push(c);
    }
    r
}

/// Whether `c` may stand in a tag name: a letter, a digit, `-` or `_`.
pub open spec fn is_tag_char(c: char) -> bool {
    is_alnum(c) || c == '-' || c == '_'
}

/// The characters that trimming removes: white space, or (for tags) every
/// character that may not stand in a tag name.
pub open spec fn trimmable(c: char, tag: bool) -> bool {
    if tag {
        !is_tag_char(c)
    } else {
        is_space(c)
    }
}

/// `s` without its leading trimmable characters.
pub open spec fn trim_start(s: Seq<char>, tag: bool) -> Seq<char>
    decreases s.len(),
{
    if s.len() > 0 && trimmable(s[0], tag) {
        trim_start(s.drop_first(), tag)
    } else {
        s
    }
}

/// `s` without its trailing trimmable characters.
pub open spec fn trim_end(s: Seq<char>, tag: bool) -> Seq<char>
    decreases s.len(),
{
    if s.len() > 0 && trimmable(s.last(), tag) {
        trim_end(s.drop_last(), tag)
    } else {
        s
    }
}

/// `s` without trimmable characters at either end.
pub open spec fn trim(s: Seq<char>, tag: bool) -> Seq<char> {
    trim_end(trim_start(s, tag), tag)
}

/// `s` with surrounding white space removed, as `str::trim` does.
pub open spec fn trim_ws(s: Seq<char>) -> Seq<char> {
    trim(s, false)
}

/// `s` split at every `'\n'`, as `str::split('\n')` does: there is always at
/// least one piece, and no piece holds a `'\n'`.
pub open spec fn split_lines(s: Seq<char>) -> Seq<Seq<char>>
    decreases s.len(),
{
    if s.len() == 0 {
        seq![Seq::empty()]
    } else {
        let init = split_lines(s.drop_last());
        if s.last() == '\n' {
            init.push(Seq::empty())
        } else {
            init.update(init.len() - 1, init.last().push(s.last()))
        }
    }
}

/// The pieces of `ls` joined with `'\n'` between them.
pub open spec fn join_lines(ls: Seq<Seq<char>>) -> Seq<char>
    decreases ls.len(),
{
    if ls.len() <= 1 {
        if ls.len() == 0 {
            Seq::empty()
        } else {
            ls[0]
        }
    } else {
        join_lines(ls.drop_last()) + seq!['\n'] + ls.last()
    }
}

/// Whether no piece of `ls` holds a line break.
pub open spec fn no_breaks(ls: Seq<Seq<char>>) -> bool {
    forall|i: int, j: int| 0 <= i < ls.len() && 0 <= j < ls[i].len() ==> ls[i][j] != '\n'
}

pub proof fn lemma_split_lines_shape(s: Seq<char>)
    ensures
        split_lines(s).len() >= 1,
        no_breaks(split_lines(s)),
    decreases s.len(),
{
    if s.len() > 0 {
        lemma_split_lines_shape(s.drop_last());
        let init = split_lines(s.drop_last());
        let r = split_lines(s);
        if s.last() != '\n' {
            assert forall|i: int, j: int| 0 <= i < r.len() && 0 <= j < r[i].len() implies r[i][j]
                != '\n' by {
                if i == init.len() - 1 && j == init.last().len() {
                } else {
                    assert(r[i][j] == init[i][j]);
                }
            }
        } else {
            assert forall|i: int, j: int| 0 <= i < r.len() && 0 <= j < r[i].len() implies r[i][j]
                != '\n' by {
                assert(r[i][j] == init[i][j]);
            }
        }
    }
}

/// Joining the pieces of a split gives back the text.
pub proof fn lemma_join_split(s: Seq<char>)
    ensures
        join_lines(split_lines(s)) == s,
    decreases s.len(),
{
    if s.len() > 0 {
        let t = s.drop_last();
        lemma_join_split(t);
        lemma_split_lines_shape(t);
        let init = split_lines(t);
        if s.last() == '\n' {
            assert(split_lines(s).drop_last() == init);
            assert(s == t + seq!['\n'] + Seq::<char>::empty());
        } else {
            let r = split_lines(s);
            if init.len() == 1 {
                assert(r[0] == t.push(s.last()));
                assert(s == t.push(s.last()));
            } else {
                assert(r.drop_last() == init.drop_last());
                assert(join_lines(init) == join_lines(init.drop_last()) + seq!['\n'] + init.last());
                assert(t == join_lines(init.drop_last()) + seq!['\n'] + init.last());
                assert(s =~= t.push(s.last()));
                assert(s =~= join_lines(init.drop_last()) + seq!['\n'] + init.last().push(s.last()));
            }
        }
    }
}

/// Appending text without line breaks extends the last piece of a split.
proof fn lemma_split_append_plain(s: Seq<char>, y: Seq<char>)
    requires
        forall|j: int| 0 <= j < y.len() ==> y[j] != '\n',
    ensures
        split_lines(s + y) == split_lines(s).update(
            split_lines(s).len() - 1,
            split_lines(s).last() + y,
        ),
    decreases y.len(),
{
    lemma_split_lines_shape(s);
    if y.len() == 0 {
        assert(s + y == s);
        assert(split_lines(s).last() + y == split_lines(s).last());
        assert(split_lines(s).update(split_lines(s).len() - 1, split_lines(s).last())
            == split_lines(s));
    } else {
        let y0 = y.drop_last();
        lemma_split_append_plain(s, y0);
        assert((s + y).drop_last() == s + y0);
        assert((s + y).last() == y.last());
        let ls = split_lines(s);
        let k = ls.len() - 1;
        let mid = split_lines(s + y0);
        assert(mid == ls.update(k, ls.last() + y0));
        assert(y.last() != '\n');
        assert(split_lines(s + y) == mid.update(mid.len() - 1, mid.last().push(y.last())));
        assert((ls.last() + y0).push(y.last()) =~= ls.last() + y);
        assert(split_lines(s + y) =~= ls.update(k, ls.last() + y));
    }
}

/// Splitting joined pieces that hold no line break gives back the pieces.
pub proof fn lemma_split_join(ls: Seq<Seq<char>>)
    requires
        ls.len() >= 1,
        no_breaks(ls),
    ensures
        split_lines(join_lines(ls)) == ls,
    decreases ls.len(),
{
    if ls.len() == 1 {
        let e = Seq::<char>::empty();
        assert(split_lines(e) == seq![e]);
        lemma_split_append_plain(e, ls[0]);
        assert(e + ls[0] == ls[0]);
        assert(seq![e].update(0, e + ls[0]) == ls);
    } else {
        let init = ls.drop_last();
        assert(no_breaks(init)) by {
            assert forall|i: int, j: int| 0 <= i < init.len() && 0 <= j < init[i].len() implies init[i][j]
                != '\n' by {
                assert(init[i] == ls[i]);
            }
        }
        lemma_split_join(init);
        let x = join_lines(init) + seq!['\n'];
        assert(x.drop_last() == join_lines(init));
        assert(split_lines(x) == init.push(Seq::empty()));
        assert forall|j: int| 0 <= j < ls.last().len() implies ls.last()[j] != '\n' by {
            assert(ls.last() == ls[ls.len() - 1]);
        }
        lemma_split_append_plain(x, ls.last());
        assert(Seq::<char>::empty() + ls.last() == ls.last());
        assert(init.push(Seq::empty()).update(init.len() as int, ls.last()) == ls);
    }
}

/// The characters of `v` from `a` up to `b`.
pub fn copy_range(v: &Vec<char>, a: usize, b: usize) -> (r: Vec<char>)
    requires
        a <= b <= v.len(),
    ensures
        r@ == v@.subrange(a as int, b as int),
{
    let mut r: Vec<char> = Vec::new();
    let mut i: usize = a;
    while i < b
        invariant
            a <= i <= b <= v.len(),
            r@ == v@.subrange(a as int, i as int),
        decreases b - i,
    {
        r.push(v[i]);
        i = i + 1;
        assert(r@ =~= v@.subrange(a as int, i as int));
    }
    r
}

/// `v` with trimmable characters removed at both ends; with `tag` set, every
/// character that may not stand in a tag name is trimmable, else white space.
pub fn trim_chars(v: &Vec<char>, tag: bool) -> (r: Vec<char>)
    ensures
        r@ == trim(v@, tag),
{
    let n = v.len();
    let mut a: usize = 0;
    assert(v@.subrange(0, n as int) =~= v@);
    while a < n && trimmable_at(v, a, tag)
        invariant
            a <= n == v.len(),
            trim_start(v@, tag) == trim_start(v@.subrange(a as int, n as int), tag),
        decreases n - a,
    {
        assert(v@.subrange(a as int, n as int).drop_first() =~= v@.subrange(a + 1, n as int));
        a = a + 1;
    }
    let ghost start = v@.subrange(a as int, n as int);
    assert(trim_start(v@, tag) == start);
    let mut b: usize = n;
    while b > a && trimmable_at(v, b - 1, tag)
        invariant
            a <= b <= n == v.len(),
            start == v@.subrange(a as int, n as int),
            trim_end(start, tag) == trim_end(v@.subrange(a as int, b as int), tag),
        decreases b - a,
    {
        assert(v@.subrange(a as int, b as int).drop_last() =~= v@.subrange(a as int, b - 1));
        b = b - 1;
    }
    copy_range(v, a, b)
}

/// The contents of each character vector in `ls`.
pub open spec fn views(ls: Seq<Vec<char>>) -> Seq<Seq<char>> {
    ls.map_values(|l: Vec<char>| l@)
}

/// Whether the character at `i` is trimmable.
fn trimmable_at(v: &Vec<char>, i: usize, tag: bool) -> (r: bool)
    requires
        i < v.len(),
    ensures
        r == trimmable(v@[i as int], tag),
{
    let c = v[i];
    if tag {
        !(char_is_alnum(c) || c == '-' || c == '_')
    } else {
        char_is_space(c)
    }
}

/// `v` split at every `'\n'`.
pub fn split_lines_exec(v: &Vec<char>) -> (r: Vec<Vec<char>>)
    ensures
        views(r@) == split_lines(v@),
{
    let mut lines: Vec<Vec<char>> = Vec::new();
    let mut cur: Vec<char> = Vec::new();
    let mut i: usize = 0;
    assert(v@.take(0) =~= Seq::<char>::empty());
    while i < v.len()
        invariant
            i <= v.len(),
            views(lines@).push(cur@) == split_lines(v@.take(i as int)),
        decreases v.len() - i,
    {
        let c = v[i];
        let ghost before = views(lines@).push(cur@);
        assert(v@.take(i + 1).drop_last() =~= v@.take(i as int));
        if c == '\n' {
            lines.push(cur);
            cur = Vec::new();
            assert(views(lines@).push(cur@) =~= before.push(Seq::empty()));
        } else {
            cur.push(c);
            assert(views(lines@).push(cur@) =~= before.update(
                before.len() - 1,
                before.last().push(c),
            ));
        }
        i = i + 1;
    }
    assert(v@.take(v.len() as int) =~= v@);
    lines.push(cur);
    assert(views(lines@) =~= split_lines(v@));
    lines
}

/// The pieces of `ls` joined with `'\n'` between them.
pub fn join_lines_exec(ls: &Vec<Vec<char>>) -> (r: Vec<char>)
    ensures
        r@ == join_lines(views(ls@)),
{
    let mut r: Vec<char> = Vec::new();
    let mut i: usize = 0;
    while i < ls.len()
        invariant
            i <= ls.len(),
            r@ == join_lines(views(ls@).take(i as int)),
        decreases ls.len() - i,
    {
        let ghost pre = r@;
        if i > 0 {
            r.push('\n');
        }
        let line = &ls[i];
        let mut j: usize = 0;
        let ghost mid = r@;
        while j < line.len()
            invariant
                j <= line.len(),
                r@ == mid + line@.take(j as int),
            decreases line.len() - j,
        {
            r.push(line[j]);
            j = j + 1;
            assert(r@ =~= mid + line@.take(j as int));
        }
        assert(line@.take(line.len() as int) =~= line@);
        let ghost t = views(ls@).take(i + 1);
        assert(t.drop_last() =~= views(ls@).take(i as int));
        assert(t.last() == line@);
        if i == 0 {
            assert(r@ =~= t[0]);
        } else {
            assert(r@ =~= pre + seq!['\n'] + line@);
        }
        i = i + 1;
    }
    assert(views(ls@).take(ls.len() as int) =~= views(ls@));
    r
}

} // verus!
