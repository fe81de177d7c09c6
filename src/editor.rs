//! The entry under composition: its text, a cursor counted in characters,
//! line-aware cursor movement, and tag completion.
use vstd::prelude::*;
use crate::parser::names;
use crate::text::{
    char_is_space, chars_of, copy_range, is_space, join_lines, lemma_join_split,
    lemma_split_lines_shape, lowercase_of, split_lines, split_lines_exec, string_of, to_lowercase,
    trim_chars, trim_ws, views,
};

verus! {

/// What kind of tag is being completed.
#[derive(Debug, Clone, Copy, PartialEq, Eq)]
pub enum AutocompleteType {
    Inactive,
    Project,
    Person,
}

/// Where line `k` of `ls` starts in the joined text.
pub open spec fn line_start(ls: Seq<Seq<char>>, k: int) -> int
    decreases k,
{
    if k <= 0 {
        0
    } else {
        line_start(ls, k - 1) + ls[k - 1].len() + 1
    }
}

/// The index of the line that holds the cursor, and the cursor's column.
pub open spec fn line_and_column(content: Seq<char>, cursor: int) -> (int, int) {
    let before = split_lines(content.take(cursor));
    (before.len() - 1, before.last().len() as int)
}

/// The cursor after moving one line up: the same column on the line above,
/// or the end of that line if it is shorter; no move on the first line.
pub open spec fn cursor_up(content: Seq<char>, cursor: int) -> int {
    let before = split_lines(content.take(cursor));
    let (line, col) = line_and_column(content, cursor);
    if line == 0 {
        cursor
    } else {
        let above = before[line - 1].len() as int;
        line_start(before, line - 1) + if col < above {
            col
        } else {
            above
        }
    }
}

/// The cursor after moving one line down: the same column on the line below,
/// or the end of that line if it is shorter; no move on the last line.
pub open spec fn cursor_down(content: Seq<char>, cursor: int) -> int {
    let all = split_lines(content);
    let (line, col) = line_and_column(content, cursor);
    if line >= all.len() - 1 {
        cursor
    } else {
        let below = all[line + 1].len() as int;
        line_start(all, line + 1) + if col < below {
            col
        } else {
            below
        }
    }
}

proof fn lemma_line_start_prefix(ls: Seq<Seq<char>>, m: int, k: int)
    requires
        0 <= k <= m <= ls.len(),
    ensures
        line_start(ls.take(m), k) == line_start(ls, k),
    decreases k,
{
    if k > 0 {
        lemma_line_start_prefix(ls, m, k - 1);
        assert(ls.take(m)[k - 1] == ls[k - 1]);
    }
}

/// The joined text ends where its last line ends.
proof fn lemma_join_len(ls: Seq<Seq<char>>)
    requires
        ls.len() >= 1,
    ensures
        join_lines(ls).len() == line_start(ls, ls.len() - 1) + ls.last().len(),
    decreases ls.len(),
{
    if ls.len() > 1 {
        let init = ls.drop_last();
        lemma_join_len(init);
        lemma_line_start_prefix(ls, ls.len() - 1, ls.len() - 2);
        assert(init =~= ls.take(ls.len() - 1));
    }
}

/// Later lines end later.
proof fn lemma_line_end_mono(ls: Seq<Seq<char>>, j: int, k: int)
    requires
        0 <= j <= k < ls.len(),
    ensures
        line_start(ls, j) + ls[j].len() <= line_start(ls, k) + ls[k].len(),
    decreases k - j,
{
    if j < k {
        lemma_line_end_mono(ls, j + 1, k);
    }
}

/// Every line of the split of `s` ends within `s`.
proof fn lemma_line_within(s: Seq<char>, k: int)
    requires
        0 <= k < split_lines(s).len(),
    ensures
        line_start(split_lines(s), k) + split_lines(s)[k].len() <= s.len(),
{
    let ls = split_lines(s);
    lemma_split_lines_shape(s);
    lemma_join_split(s);
    lemma_join_len(ls);
    lemma_line_end_mono(ls, k, ls.len() - 1);
}

/// Where line `k` of `ls` starts, given a bound `limit` on that position.
fn line_start_exec(ls: &Vec<Vec<char>>, k: usize, Ghost(limit): Ghost<int>) -> (r: usize)
    requires
        k < ls.len(),
        line_start(views(ls@), k as int) <= limit <= usize::MAX,
    ensures
        r == line_start(views(ls@), k as int),
{
    let ghost v = views(ls@);
    let mut sum: usize = 0;
    let mut j: usize = 0;
    while j < k
        invariant
            j <= k < ls.len(),
            v == views(ls@),
            sum == line_start(v, j as int),
            line_start(v, k as int) <= limit <= usize::MAX,
        decreases k - j,
    {
        assert(line_start(v, j + 1) <= line_start(v, k as int)) by {
            lemma_line_start_mono(v, j + 1, k as int);
        }
        sum = sum + ls[j].len() + 1;
        j = j + 1;
    }
    sum
}

proof fn lemma_line_start_mono(ls: Seq<Seq<char>>, j: int, k: int)
    requires
        0 <= j <= k <= ls.len(),
    ensures
        line_start(ls, j) <= line_start(ls, k),
    decreases k - j,
{
    if j < k {
        lemma_line_start_mono(ls, j, k - 1);
    }
}

/// The index of the last white-space character in `s`, or -1 if there is none.
pub open spec fn last_space(s: Seq<char>) -> int
    decreases s.len(),
{
    if s.len() == 0 {
        -1
    } else if is_space(s.last()) {
        s.len() - 1
    } else {
        last_space(s.drop_last())
    }
}

/// Where the word that ends at `cursor` starts: just after the nearest
/// white space before the cursor, or at the start of the text.
pub open spec fn word_start(content: Seq<char>, cursor: int) -> int {
    last_space(content.take(cursor)) + 1
}

/// The word that ends at `cursor`.
pub open spec fn current_word(content: Seq<char>, cursor: int) -> Seq<char> {
    content.subrange(word_start(content, cursor), cursor)
}

/// Whether `p` is a prefix of `s`.
pub open spec fn is_prefix(p: Seq<char>, s: Seq<char>) -> bool {
    p.len() <= s.len() && s.take(p.len() as int) == p
}

/// The names among `ns` whose folded form (`folded`, index for index)
/// starts with `prefix`, in order.
pub open spec fn select_by_prefix(
    ns: Seq<Seq<char>>,
    folded: Seq<Seq<char>>,
    prefix: Seq<char>,
) -> Seq<Seq<char>>
    decreases ns.len(),
{
    if ns.len() == 0 {
        Seq::empty()
    } else {
        let acc = select_by_prefix(ns.drop_last(), folded, prefix);
        if is_prefix(prefix, folded[ns.len() - 1]) {
            acc.push(ns.last())
        } else {
            acc
        }
    }
}

/// The names among `ns` that start with `typed`, ignoring case.
pub open spec fn suggestions_for(ns: Seq<Seq<char>>, typed: Seq<char>) -> Seq<Seq<char>> {
    select_by_prefix(ns, ns.map_values(|n: Seq<char>| lowercase_of(n)), lowercase_of(typed))
}

/// Whether `p` is a prefix of `s`.
pub fn starts_with_chars(s: &Vec<char>, p: &Vec<char>) -> (r: bool)
    ensures
        r == is_prefix(p@, s@),
{
    if p.len() > s.len() {
        return false;
    }
    let mut i: usize = 0;
    while i < p.len()
        invariant
            i <= p.len() <= s.len(),
            s@.take(i as int) == p@.take(i as int),
        decreases p.len() - i,
    {
        if s[i] != p[i] {
            assert(s@.take(p.len() as int)[i as int] != p@[i as int]);
            return false;
        }
        assert(s@.take(i + 1) =~= s@.take(i as int).push(s@[i as int]));
        assert(p@.take(i + 1) =~= p@.take(i as int).push(p@[i as int]));
        i = i + 1;
    }
    assert(p@.take(i as int) =~= p@);
    true
}

/// The names among `ns` whose folded form (`folded`, index for index)
/// starts with `prefix`, in order.
pub fn names_with_prefix(ns: &Vec<String>, folded: &Vec<String>, prefix: &str) -> (r: Vec<String>)
    requires
        folded@.len() == ns@.len(),
    ensures
        names(r@) == select_by_prefix(names(ns@), names(folded@), prefix@),
{
    let p = chars_of(prefix);
    let mut r: Vec<String> = Vec::new();
    let mut i: usize = 0;
    while i < ns.len()
        invariant
            i <= ns.len() == folded@.len(),
            p@ == prefix@,
            names(r@) == select_by_prefix(names(ns@).take(i as int), names(folded@), prefix@),
        decreases ns.len() - i,
    {
        let f = chars_of(folded[i].as_str());
        let ghost before = names(r@);
        assert(names(ns@).take(i + 1).drop_last() =~= names(ns@).take(i as int));
        if starts_with_chars(&f, &p) {
            r.push(ns[i].clone());
            assert(names(r@) =~= before.push(ns@[i as int]@));
        }
        i = i + 1;
    }
    assert(names(ns@).take(i as int) =~= names(ns@));
    r
}

/// The text of the entry under composition, the cursor as a count of
/// characters before it, and the state of tag completion.
#[derive(Debug, Clone)]
pub struct Editor {
    pub content: String,
    pub cursor: usize,
    pub autocomplete_suggestions: Vec<String>,
    pub autocomplete_index: usize,
    pub autocomplete_active: bool,
    pub autocomplete_type: AutocompleteType,
    pub project_names: Vec<String>,
    pub people_names: Vec<String>,
}

impl Editor {
    /// The cursor stays within the text, and an active completion has its
    /// selection among its suggestions.
    pub open spec fn wf(self) -> bool {
        &&& self.cursor <= self.content@.len()
        &&& self.autocomplete_active ==> self.autocomplete_index
            < self.autocomplete_suggestions@.len()
    }

    /// Whether the completion state is the one that the text, the cursor and
    /// the known names give: for a word of two or more characters starting
    /// with `#` (or `@`) before the cursor, the project (or person) names that
    /// start with the rest of the word, ignoring case, active if there are any;
    /// for any other word, no completion.
    pub open spec fn completion_fresh(self) -> bool {
        let w = current_word(self.content@, self.cursor as int);
        if w.len() > 1 && (w[0] == '#' || w[0] == '@') {
            let known = if w[0] == '#' {
                names(self.project_names@)
            } else {
                names(self.people_names@)
            };
            let s = suggestions_for(known, w.drop_first());
            &&& names(self.autocomplete_suggestions@) == s
            &&& self.autocomplete_type == if w[0] == '#' {
                AutocompleteType::Project
            } else {
                AutocompleteType::Person
            }
            &&& self.autocomplete_active == (s.len() > 0)
            &&& self.autocomplete_index == 0
        } else {
            &&& self.autocomplete_suggestions@.len() == 0
            &&& self.autocomplete_type == AutocompleteType::Inactive
            &&& !self.autocomplete_active
            &&& self.autocomplete_index == 0
        }
    }

    /// An empty text with the cursor at its start, completing among the given names.
    pub fn new(project_names: Vec<String>, people_names: Vec<String>) -> (r: Self)
        ensures
            r.wf(),
            r.content@.len() == 0,
            r.cursor == 0,
            r.project_names == project_names,
            r.people_names == people_names,
            r.completion_fresh(),
    {
        let r = Editor {
            content: String::new(),
            cursor: 0,
            autocomplete_suggestions: Vec::new(),
            autocomplete_index: 0,
            autocomplete_active: false,
            autocomplete_type: AutocompleteType::Inactive,
            project_names,
            people_names,
        };
        assert(current_word(r.content@, 0).len() == 0);
        r
    }
}

/// Where the word that ends at `cursor` starts.
fn word_start_exec(v: &Vec<char>, cursor: usize) -> (r: usize)
    requires
        cursor <= v.len(),
    ensures
        r == word_start(v@, cursor as int),
        r <= cursor,
{
    let mut i: usize = cursor;
    while i > 0
        invariant
            i <= cursor <= v.len(),
            last_space(v@.take(cursor as int)) == last_space(v@.take(i as int)),
        decreases i,
    {
        assert(v@.take(i as int).drop_last() =~= v@.take(i - 1));
        if char_is_space(v[i - 1]) {
            return i;
        }
        i = i - 1;
    }
    0
}

/// The lower-case form of each name in `ns`.
fn fold_names(ns: &Vec<String>) -> (r: Vec<String>)
    ensures
        r@.len() == ns@.len(),
        names(r@) == names(ns@).map_values(|n: Seq<char>| lowercase_of(n)),
{
    let mut r: Vec<String> = Vec::new();
    let mut i: usize = 0;
    while i < ns.len()
        invariant
            i <= ns.len(),
            r@.len() == i,
            forall|j: int| 0 <= j < i ==> #[trigger] r@[j]@ == lowercase_of(ns@[j]@),
        decreases ns.len() - i,
    {
        r.push(to_lowercase(ns[i].as_str()));
        i = i + 1;
    }
    assert(names(r@) =~= names(ns@).map_values(|n: Seq<char>| lowercase_of(n)));
    r
}

/// The characters of `v` before `a`, then those of `mid`, then those of `v` from `b` on.
fn splice(v: &Vec<char>, a: usize, b: usize, mid: &Vec<char>) -> (r: Vec<char>)
    requires
        a <= b <= v.len(),
    ensures
        r@ == v@.take(a as int) + mid@ + v@.skip(b as int),
{
    let mut r = copy_range(v, 0, a);
    let mut i: usize = 0;
    while i < mid.len()
        invariant
            i <= mid.len(),
            r@ == v@.take(a as int) + mid@.take(i as int),
        decreases mid.len() - i,
    {
        r.push(mid[i]);
        i = i + 1;
        assert(r@ =~= v@.take(a as int) + mid@.take(i as int));
    }
    let mut j: usize = b;
    while j < v.len()
        invariant
            b <= j <= v.len(),
            r@ == v@.take(a as int) + mid@ + v@.subrange(b as int, j as int),
        decreases v.len() - j,
    {
        assert(mid@.take(mid.len() as int) =~= mid@);
        r.push(v[j]);
        j = j + 1;
        assert(r@ =~= v@.take(a as int) + mid@ + v@.subrange(b as int, j as int));
    }
    assert(mid@.take(mid.len() as int) =~= mid@);
    assert(v@.subrange(b as int, v.len() as int) =~= v@.skip(b as int));
    r
}

impl Editor {
    /// Whether the text holds nothing but white space, so that there is nothing to save.
    pub fn is_blank(&self) -> (r: bool)
        ensures
            r == (trim_ws(self.content@).len() == 0),
    {
        let v = chars_of(self.content.as_str());
        trim_chars(&v, false).len() == 0
    }

    /// Recomputes the completion state from the text, the cursor and the known names.
    pub fn update_autocomplete(&mut self)
        requires
            old(self).cursor <= old(self).content@.len(),
        ensures
            final(self).content == old(self).content,
            final(self).cursor == old(self).cursor,
            final(self).project_names == old(self).project_names,
            final(self).people_names == old(self).people_names,
            final(self).completion_fresh(),
            final(self).wf(),
    {
        let v = chars_of(self.content.as_str());
        let start = word_start_exec(&v, self.cursor);
        let w = copy_range(&v, start, self.cursor);
        if w.len() > 1 && (w[0] == '#' || w[0] == '@') {
            let rest = copy_range(&w, 1, w.len());
            assert(rest@ =~= w@.drop_first());
            let typed = to_lowercase(string_of(rest.as_slice()).as_str());
            let is_project = w[0] == '#';
            let found = if is_project {
                names_with_prefix(&self.project_names, &fold_names(&self.project_names), typed.as_str())
            } else {
                names_with_prefix(&self.people_names, &fold_names(&self.people_names), typed.as_str())
            };
            self.autocomplete_active = found.len() > 0;
            self.autocomplete_suggestions = found;
            self.autocomplete_type = if is_project {
                AutocompleteType::Project
            } else {
                AutocompleteType::Person
            };
            self.autocomplete_index = 0;
        } else {
            self.autocomplete_active = false;
            self.autocomplete_suggestions = Vec::new();
            self.autocomplete_type = AutocompleteType::Inactive;
            self.autocomplete_index = 0;
        }
    }

    /// Puts `c` at the cursor and moves the cursor past it, then recomputes completion.
    pub fn insert_char(&mut self, c: char)
        requires
            old(self).wf(),
        ensures
            final(self).content@ == old(self).content@.take(old(self).cursor as int) + seq![c]
                + old(self).content@.skip(old(self).cursor as int),
            final(self).cursor == old(self).cursor + 1,
            final(self).project_names == old(self).project_names,
            final(self).people_names == old(self).people_names,
            final(self).completion_fresh(),
            final(self).wf(),
    {
        let v = chars_of(self.content.as_str());
        let mut mid: Vec<char> = Vec::new();
        mid.push(c);
        let next = splice(&v, self.cursor, self.cursor, &mid);
        let n = next.len();
        assert(self.cursor < n);
        self.content = string_of(next.as_slice());
        self.cursor = self.cursor + 1;
        self.update_autocomplete();
    }

    /// Removes the character before the cursor and moves the cursor back,
    /// then recomputes completion; does nothing at the start of the text.
    pub fn delete_char(&mut self)
        requires
            old(self).wf(),
        ensures
            old(self).cursor == 0 ==> *final(self) == *old(self),
            old(self).cursor > 0 ==> {
                &&& final(self).content@ == old(self).content@.take(old(self).cursor - 1)
                    + old(self).content@.skip(old(self).cursor as int)
                &&& final(self).cursor == old(self).cursor - 1
                &&& final(self).completion_fresh()
            },
            final(self).project_names == old(self).project_names,
            final(self).people_names == old(self).people_names,
            final(self).wf(),
    {
        if self.cursor > 0 {
            let v = chars_of(self.content.as_str());
            let mid: Vec<char> = Vec::new();
            let next = splice(&v, self.cursor - 1, self.cursor, &mid);
            assert(next@ =~= v@.take(self.cursor - 1) + v@.skip(self.cursor as int));
            self.content = string_of(next.as_slice());
            self.cursor = self.cursor - 1;
            self.update_autocomplete();
        }
    }

    /// Moves the cursor one character back, if it is not at the start.
    pub fn move_cursor_left(&mut self)
        requires
            old(self).wf(),
        ensures
            *final(self) == (Editor {
                cursor: if old(self).cursor > 0 {
                    (old(self).cursor - 1) as usize
                } else {
                    0
                },
                ..*old(self)
            }),
            final(self).wf(),
    {
        if self.cursor > 0 {
            self.cursor = self.cursor - 1;
        }
    }

    /// Moves the cursor one character on, if it is not at the end.
    pub fn move_cursor_right(&mut self)
        requires
            old(self).wf(),
        ensures
            *final(self) == (Editor {
                cursor: if old(self).cursor < old(self).content@.len() {
                    (old(self).cursor + 1) as usize
                } else {
                    old(self).cursor
                },
                ..*old(self)
            }),
            final(self).wf(),
    {
        let v = chars_of(self.content.as_str());
        if self.cursor < v.len() {
            self.cursor = self.cursor + 1;
        }
    }

    /// Moves the cursor to the start of the text.
    pub fn set_start(&mut self)
        requires
            old(self).wf(),
        ensures
            *final(self) == (Editor { cursor: 0, ..*old(self) }),
            final(self).wf(),
    {
        self.cursor = 0;
    }

    /// Moves the cursor to the end of the text.
    pub fn set_end(&mut self)
        requires
            old(self).wf(),
        ensures
            final(self).cursor == old(self).content@.len(),
            *final(self) == (Editor { cursor: final(self).cursor, ..*old(self) }),
            final(self).wf(),
    {
        let v = chars_of(self.content.as_str());
        self.cursor = v.len();
    }

    /// Moves the cursor one line up, to the same column or to the end of the
    /// line above if it is shorter; does nothing on the first line.
    pub fn move_cursor_up(&mut self)
        requires
            old(self).wf(),
        ensures
            final(self).cursor == cursor_up(old(self).content@, old(self).cursor as int),
            *final(self) == (Editor { cursor: final(self).cursor, ..*old(self) }),
            final(self).wf(),
    {
        let v = chars_of(self.content.as_str());
        let before = copy_range(&v, 0, self.cursor);
        assert(before@ =~= v@.take(self.cursor as int));
        let lines = split_lines_exec(&before);
        proof {
            lemma_split_lines_shape(before@);
        }
        let line = lines.len() - 1;
        if line == 0 {
            return;
        }
        let col = lines[line].len();
        let above = lines[line - 1].len();
        let target = if col < above {
            col
        } else {
            above
        };
        proof {
            lemma_line_within(before@, line as int);
            lemma_line_start_mono(views(lines@), line - 1, line as int);
        }
        let start = line_start_exec(&lines, line - 1, Ghost(before@.len() as int));
        self.cursor = start + target;
    }

    /// Moves the cursor one line down, to the same column or to the end of the
    /// line below if it is shorter; does nothing on the last line.
    pub fn move_cursor_down(&mut self)
        requires
            old(self).wf(),
        ensures
            final(self).cursor == cursor_down(old(self).content@, old(self).cursor as int),
            *final(self) == (Editor { cursor: final(self).cursor, ..*old(self) }),
            final(self).wf(),
    {
        let v = chars_of(self.content.as_str());
        let all = split_lines_exec(&v);
        let before = copy_range(&v, 0, self.cursor);
        assert(before@ =~= v@.take(self.cursor as int));
        let lines = split_lines_exec(&before);
        proof {
            lemma_split_lines_shape(before@);
            lemma_split_lines_shape(v@);
        }
        let line = lines.len() - 1;
        let col = lines[line].len();
        if line >= all.len() - 1 {
            return;
        }
        let below = all[line + 1].len();
        let target = if col < below {
            col
        } else {
            below
        };
        proof {
            lemma_line_within(v@, line + 1);
        }
        let total = v.len();
        let start = line_start_exec(&all, line + 1, Ghost(total as int));
        self.cursor = start + target;
    }

    /// Selects the next suggestion, if there is one.
    pub fn select_next(&mut self)
        requires
            old(self).wf(),
        ensures
            *final(self) == (Editor {
                autocomplete_index: if old(self).autocomplete_index + 1
                    < old(self).autocomplete_suggestions@.len() {
                    (old(self).autocomplete_index + 1) as usize
                } else {
                    old(self).autocomplete_index
                },
                ..*old(self)
            }),
            final(self).wf(),
    {
        if self.autocomplete_index < self.autocomplete_suggestions.len()
            && self.autocomplete_index + 1 < self.autocomplete_suggestions.len() {
            self.autocomplete_index = self.autocomplete_index + 1;
        }
    }

    /// Selects the previous suggestion, if there is one.
    pub fn select_previous(&mut self)
        requires
            old(self).wf(),
        ensures
            *final(self) == (Editor {
                autocomplete_index: if old(self).autocomplete_index > 0 {
                    (old(self).autocomplete_index - 1) as usize
                } else {
                    0
                },
                ..*old(self)
            }),
            final(self).wf(),
    {
        if self.autocomplete_index > 0 {
            self.autocomplete_index = self.autocomplete_index - 1;
        }
    }

    /// Closes the suggestion list without taking a suggestion.
    pub fn dismiss_autocomplete(&mut self)
        requires
            old(self).wf(),
        ensures
            *final(self) == (Editor { autocomplete_active: false, ..*old(self) }),
            final(self).wf(),
    {
        self.autocomplete_active = false;
    }

    /// Replaces the word before the cursor with the marker, the selected
    /// suggestion and a space, puts the cursor after that space, and closes
    /// completion; does nothing unless a completion is active.
    pub fn accept_autocomplete(&mut self)
        requires
            old(self).wf(),
        ensures
            ({
                let o = *old(self);
                let f = *final(self);
                if o.autocomplete_active && o.autocomplete_suggestions@.len() > 0
                    && o.autocomplete_type != AutocompleteType::Inactive {
                    let chosen = o.autocomplete_suggestions@[o.autocomplete_index as int]@;
                    let start = word_start(o.content@, o.cursor as int);
                    let marker = if o.autocomplete_type == AutocompleteType::Project {
                        '#'
                    } else {
                        '@'
                    };
                    &&& f.content@ == o.content@.take(start) + seq![marker] + chosen + seq![' ']
                        + o.content@.skip(o.cursor as int)
                    &&& f.cursor == start + chosen.len() + 2
                    &&& !f.autocomplete_active
                    &&& f.autocomplete_suggestions@.len() == 0
                    &&& f.autocomplete_index == o.autocomplete_index
                    &&& f.autocomplete_type == o.autocomplete_type
                    &&& f.project_names == o.project_names
                    &&& f.people_names == o.people_names
                } else {
                    f == o
                }
            }),
            final(self).wf(),
    {
        if !self.autocomplete_active || self.autocomplete_suggestions.len() == 0 {
            return;
        }
        let marker = match self.autocomplete_type {
            AutocompleteType::Project => '#',
            AutocompleteType::Person => '@',
            AutocompleteType::Inactive => {
                return;
            },
        };
        let chosen = chars_of(self.autocomplete_suggestions[self.autocomplete_index].as_str());
        let v = chars_of(self.content.as_str());
        let start = word_start_exec(&v, self.cursor);
        let mut word: Vec<char> = Vec::new();
        word.push(marker);
        let mut i: usize = 0;
        while i < chosen.len()
            invariant
                i <= chosen.len(),
                word@ == seq![marker] + chosen@.take(i as int),
            decreases chosen.len() - i,
        {
            word.push(chosen[i]);
            i = i + 1;
            assert(word@ =~= seq![marker] + chosen@.take(i as int));
        }
        word.push(' ');
        assert(chosen@.take(i as int) =~= chosen@);
        let next = splice(&v, start, self.cursor, &word);
        assert(next@ =~= v@.take(start as int) + seq![marker] + chosen@ + seq![' '] + v@.skip(
            self.cursor as int,
        ));
        let n = next.len();
        assert(start + word.len() <= n);
        self.content = string_of(next.as_slice());
        self.cursor = start + word.len();
        self.autocomplete_active = false;
        self.autocomplete_suggestions = Vec::new();
    }
}

} // verus!
