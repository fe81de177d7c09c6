//! Tag and todo extraction from note text.
//!
//! A word is a maximal run of non-white-space characters. A word of two or
//! more characters that starts with the marker (`#` for projects, `@` for
//! people) names a tag: the rest of the word, trimmed of every character that
//! may not stand in a tag name. Tags keep the order in which they are first
//! seen and appear once each. A line whose trimmed text starts with `[]` is an
//! open todo, one that starts with `[x]` or `[X]` a completed one.
use vstd::prelude::*;
use crate::text::{
    char_is_space, chars_of, copy_range, is_space, split_lines, string_of, trim,
    trim_chars, trim_ws, views,
};

verus! {

/// The words finished so far, and the word being read, after reading `s`.
pub open spec fn word_scan(s: Seq<char>) -> (Seq<Seq<char>>, Seq<char>)
    decreases s.len(),
{
    if s.len() == 0 {
        (Seq::empty(), Seq::empty())
    } else {
        let (ws, cur) = word_scan(s.drop_last());
        let c = s.last();
        if is_space(c) {
            if cur.len() > 0 {
                (ws.push(cur), Seq::empty())
            } else {
                (ws, Seq::empty())
            }
        } else {
            (ws, cur.push(c))
        }
    }
}

/// The words of `s`, as `str::split_whitespace` gives them.
pub open spec fn words(s: Seq<char>) -> Seq<Seq<char>> {
    let (ws, cur) = word_scan(s);
    if cur.len() > 0 {
        ws.push(cur)
    } else {
        ws
    }
}

/// The tag that word `w` names with `marker`, if any.
pub open spec fn tag_of(w: Seq<char>, marker: char) -> Option<Seq<char>> {
    if w.len() > 1 && w[0] == marker {
        let t = trim(w.drop_first(), true);
        if t.len() > 0 {
            Some(t)
        } else {
            None
        }
    } else {
        None
    }
}

/// The distinct tags that `ws` name with `marker`, in order of first appearance.
pub open spec fn collect_tags(ws: Seq<Seq<char>>, marker: char) -> Seq<Seq<char>>
    decreases ws.len(),
{
    if ws.len() == 0 {
        Seq::empty()
    } else {
        let acc = collect_tags(ws.drop_last(), marker);
        match tag_of(ws.last(), marker) {
            Some(t) => if acc.contains(t) {
                acc
            } else {
                acc.push(t)
            },
            None => acc,
        }
    }
}

/// The distinct tags of text `s` with `marker`, in order of first appearance.
pub open spec fn tags(s: Seq<char>, marker: char) -> Seq<Seq<char>> {
    collect_tags(words(s), marker)
}

/// The contents of each string in `v`.
pub open spec fn names(v: Seq<String>) -> Seq<Seq<char>> {
    v.map_values(|s: String| s@)
}

/// Whether `t` starts with `[]`.
pub open spec fn starts_open(t: Seq<char>) -> bool {
    t.len() >= 2 && t[0] == '[' && t[1] == ']'
}

/// Whether `t` starts with `[x]` or `[X]`.
pub open spec fn starts_done(t: Seq<char>) -> bool {
    t.len() >= 3 && t[0] == '[' && (t[1] == 'x' || t[1] == 'X') && t[2] == ']'
}

/// The todo that a line holds, if any: its text and whether it is completed.
pub open spec fn line_todo(line: Seq<char>) -> Option<(Seq<char>, bool)> {
    let t = trim_ws(line);
    if starts_open(t) {
        Some((trim_ws(t.skip(2)), false))
    } else if starts_done(t) {
        Some((trim_ws(t.skip(3)), true))
    } else {
        None
    }
}

/// A todo found in text: its text, whether it is completed, and the index of its line.
pub struct TodoLine {
    pub text: Seq<char>,
    pub completed: bool,
    pub line: int,
}

/// The todos of `lines`, in order.
pub open spec fn todos_from(lines: Seq<Seq<char>>) -> Seq<TodoLine>
    decreases lines.len(),
{
    if lines.len() == 0 {
        Seq::empty()
    } else {
        let acc = todos_from(lines.drop_last());
        match line_todo(lines.last()) {
            Some((text, completed)) => acc.push(
                TodoLine { text, completed, line: lines.len() - 1 },
            ),
            None => acc,
        }
    }
}

/// The todos of text `s`, in order of their lines.
pub open spec fn todo_lines(s: Seq<char>) -> Seq<TodoLine> {
    todos_from(split_lines(s))
}

/// Whether `a` and `b` hold the same characters.
pub fn same_chars(a: &Vec<char>, b: &Vec<char>) -> (r: bool)
    ensures
        r == (a@ == b@),
{
    if a.len() != b.len() {
        return false;
    }
    let mut i: usize = 0;
    while i < a.len()
        invariant
            i <= a.len() == b.len(),
            a@.take(i as int) == b@.take(i as int),
        decreases a.len() - i,
    {
        if a[i] != b[i] {
            assert(a@[i as int] != b@[i as int]);
            return false;
        }
        assert(a@.take(i + 1) =~= a@.take(i as int).push(a@[i as int]));
        assert(b@.take(i + 1) =~= b@.take(i as int).push(b@[i as int]));
        i = i + 1;
    }
    assert(a@ =~= a@.take(i as int));
    assert(b@ =~= b@.take(i as int));
    true
}

/// Whether `acc` holds `t`.
fn holds(acc: &Vec<Vec<char>>, t: &Vec<char>) -> (r: bool)
    ensures
        r == views(acc@).contains(t@),
{
    let mut i: usize = 0;
    while i < acc.len()
        invariant
            i <= acc.len(),
            forall|j: int| 0 <= j < i ==> acc@[j]@ != t@,
        decreases acc.len() - i,
    {
        if same_chars(&acc[i], t) {
            assert(views(acc@)[i as int] == t@);
            return true;
        }
        i = i + 1;
    }
    assert forall|j: int| 0 <= j < views(acc@).len() implies views(acc@)[j] != t@ by {
        assert(views(acc@)[j] == acc@[j]@);
    }
    false
}

/// Adds the tag that word `w` names with `marker`, if any and if new.
fn add_tag(acc: &mut Vec<Vec<char>>, w: &Vec<char>, marker: char)
    ensures
        views(final(acc)@) == match tag_of(w@, marker) {
            Some(t) => if views(old(acc)@).contains(t) {
                views(old(acc)@)
            } else {
                views(old(acc)@).push(t)
            },
            None => views(old(acc)@),
        },
{
    if w.len() > 1 && w[0] == marker {
        let rest = copy_range(w, 1, w.len());
        assert(rest@ =~= w@.drop_first());
        let t = trim_chars(&rest, true);
        if t.len() > 0 && !holds(acc, &t) {
            let ghost before = views(acc@);
            acc.push(t);
            assert(views(acc@) =~= before.push(t@));
        }
    }
}

/// The contents of `v` as strings.
fn to_strings(v: &Vec<Vec<char>>) -> (r: Vec<String>)
    ensures
        names(r@) == views(v@),
{
    let mut r: Vec<String> = Vec::new();
    let mut i: usize = 0;
    while i < v.len()
        invariant
            i <= v.len(),
            names(r@) == views(v@).take(i as int),
        decreases v.len() - i,
    {
        let s = string_of(v[i].as_slice());
        let ghost before = names(r@);
        r.push(s);
        assert(names(r@) =~= before.push(v@[i as int]@));
        assert(views(v@).take(i + 1) =~= views(v@).take(i as int).push(v@[i as int]@));
        i = i + 1;
    }
    assert(views(v@).take(i as int) =~= views(v@));
    r
}

/// The project tags (`#`) and person tags (`@`) of `text`, each distinct and
/// in order of first appearance.
pub fn extract_tags(text: &Vec<char>) -> (r: (Vec<String>, Vec<String>))
    ensures
        names(r.0@) == tags(text@, '#'),
        names(r.1@) == tags(text@, '@'),
{
    let mut projects: Vec<Vec<char>> = Vec::new();
    let mut people: Vec<Vec<char>> = Vec::new();
    let mut cur: Vec<char> = Vec::new();
    let mut i: usize = 0;
    assert(text@.take(0) =~= Seq::<char>::empty());
    while i < text.len()
        invariant
            i <= text.len(),
            word_scan(text@.take(i as int)).1 == cur@,
            views(projects@) == collect_tags(word_scan(text@.take(i as int)).0, '#'),
            views(people@) == collect_tags(word_scan(text@.take(i as int)).0, '@'),
        decreases text.len() - i,
    {
        let c = text[i];
        assert(text@.take(i + 1).drop_last() =~= text@.take(i as int));
        let ghost ws = word_scan(text@.take(i as int)).0;
        if char_is_space(c) {
            if cur.len() > 0 {
                add_tag(&mut projects, &cur, '#');
                add_tag(&mut people, &cur, '@');
                assert(ws.push(cur@).drop_last() =~= ws);
                cur = Vec::new();
            }
        } else {
            cur.push(c);
        }
        i = i + 1;
    }
    assert(text@.take(i as int) =~= text@);
    let ghost ws = word_scan(text@).0;
    if cur.len() > 0 {
        add_tag(&mut projects, &cur, '#');
        add_tag(&mut people, &cur, '@');
        assert(ws.push(cur@).drop_last() =~= ws);
    }
    (to_strings(&projects), to_strings(&people))
}

/// The todo that `line` holds, if any: its text and whether it is completed.
pub fn line_todo_exec(line: &Vec<char>) -> (r: Option<(Vec<char>, bool)>)
    ensures
        match r {
            Some((text, completed)) => line_todo(line@) == Some((text@, completed)),
            None => line_todo(line@) is None,
        },
{
    let t = trim_chars(line, false);
    let n = t.len();
    if n >= 2 && t[0] == '[' && t[1] == ']' {
        let rest = copy_range(&t, 2, n);
        assert(rest@ =~= t@.skip(2));
        Some((trim_chars(&rest, false), false))
    } else if n >= 3 && t[0] == '[' && (t[1] == 'x' || t[1] == 'X') && t[2] == ']' {
        let rest = copy_range(&t, 3, n);
        assert(rest@ =~= t@.skip(3));
        Some((trim_chars(&rest, false), true))
    } else {
        None
    }
}

/// How a word of a note is highlighted.
#[derive(Debug, Clone, Copy, PartialEq, Eq)]
pub enum WordKind {
    Project,
    Person,
    OpenTodo,
    DoneTodo,
    Plain,
}

/// The highlighting of word `w`: by its first character `#` or `@`, or by a
/// leading `[]` or `[x]`/`[X]`.
pub open spec fn kind_of_word(w: Seq<char>) -> WordKind {
    if w.len() > 0 && w[0] == '#' {
        WordKind::Project
    } else if w.len() > 0 && w[0] == '@' {
        WordKind::Person
    } else if starts_open(w) {
        WordKind::OpenTodo
    } else if starts_done(w) {
        WordKind::DoneTodo
    } else {
        WordKind::Plain
    }
}

/// The highlighting of `word`.
pub fn word_kind(word: &str) -> (r: WordKind)
    ensures
        r == kind_of_word(word@),
{
    let w = chars_of(word);
    let n = w.len();
    if n > 0 && w[0] == '#' {
        WordKind::Project
    } else if n > 0 && w[0] == '@' {
        WordKind::Person
    } else if n >= 2 && w[0] == '[' && w[1] == ']' {
        WordKind::OpenTodo
    } else if n >= 3 && w[0] == '[' && (w[1] == 'x' || w[1] == 'X') && w[2] == ']' {
        WordKind::DoneTodo
    } else {
        WordKind::Plain
    }
}

} // verus!
