//! Flipping a todo's marker in the text of its file.
//!
//! Only the todo's line changes. A completed todo has its first `[x]` or
//! `[X]` replaced by `[]`; an open one whose trimmed line starts with `[]` has
//! its first `[]` replaced by `[x]`; any other line stays as it is, since the
//! record no longer matches the file.
use vstd::prelude::*;
use crate::models::Todo;
use crate::parser::{line_todo, starts_done, starts_open, todo_lines, todos_from};
use crate::text::{
    chars_of, copy_range, is_space, join_lines, join_lines_exec, lemma_join_split,
    lemma_split_join, lemma_split_lines_shape, no_breaks, split_lines, split_lines_exec, string_of,
    trim_chars, trim_end, trim_start, trim_ws, trimmable, views,
};

verus! {

/// Whether `l` holds `[]` at `i`.
pub open spec fn open_mark_at(l: Seq<char>, i: int) -> bool {
    0 <= i && i + 2 <= l.len() && l[i] == '[' && l[i + 1] == ']'
}

/// Whether `l` holds `[x]` or `[X]` at `i`.
pub open spec fn done_mark_at(l: Seq<char>, i: int) -> bool {
    0 <= i && i + 3 <= l.len() && l[i] == '[' && (l[i + 1] == 'x' || l[i + 1] == 'X') && l[i + 2]
        == ']'
}

/// The first index from `i` on where `l` holds `[]`, or -1.
pub open spec fn first_open_mark(l: Seq<char>, i: int) -> int
    decreases l.len() - i,
{
    if i < 0 || i + 2 > l.len() {
        -1
    } else if open_mark_at(l, i) {
        i
    } else {
        first_open_mark(l, i + 1)
    }
}

/// The first index from `i` on where `l` holds `[x]` or `[X]`, or -1.
pub open spec fn first_done_mark(l: Seq<char>, i: int) -> int
    decreases l.len() - i,
{
    if i < 0 || i + 3 > l.len() {
        -1
    } else if done_mark_at(l, i) {
        i
    } else {
        first_done_mark(l, i + 1)
    }
}

/// Line `l` with the marker of a todo flipped, as described above.
pub open spec fn toggle_line(l: Seq<char>, completed: bool) -> Seq<char> {
    if completed {
        let k = first_done_mark(l, 0);
        if k < 0 {
            l
        } else {
            l.take(k) + seq!['[', ']'] + l.skip(k + 3)
        }
    } else if starts_open(trim_ws(l)) {
        let k = first_open_mark(l, 0);
        if k < 0 {
            l
        } else {
            l.take(k) + seq!['[', 'x', ']'] + l.skip(k + 2)
        }
    } else {
        l
    }
}

/// `content` with the marker on line `line` flipped; unchanged if there is no such line.
pub open spec fn toggle_text(content: Seq<char>, line: int, completed: bool) -> Seq<char> {
    let ls = split_lines(content);
    if 0 <= line < ls.len() {
        join_lines(ls.update(line, toggle_line(ls[line], completed)))
    } else {
        content
    }
}

proof fn lemma_first_open_mark(l: Seq<char>, i: int)
    ensures
        first_open_mark(l, i) == -1 || (i <= first_open_mark(l, i) && open_mark_at(
            l,
            first_open_mark(l, i),
        )),
    decreases l.len() - i,
{
    if !(i < 0 || i + 2 > l.len()) && !open_mark_at(l, i) {
        lemma_first_open_mark(l, i + 1);
    }
}

proof fn lemma_first_done_mark(l: Seq<char>, i: int)
    ensures
        first_done_mark(l, i) == -1 || (i <= first_done_mark(l, i) && done_mark_at(
            l,
            first_done_mark(l, i),
        )),
    decreases l.len() - i,
{
    if !(i < 0 || i + 3 > l.len()) && !done_mark_at(l, i) {
        lemma_first_done_mark(l, i + 1);
    }
}

/// The first index from `i` on where `l` holds `[]` or `[x]`/`[X]`.
fn find_mark(l: &Vec<char>, done: bool) -> (r: Option<usize>)
    ensures
        done ==> match r {
            Some(k) => k as int == first_done_mark(l@, 0),
            None => first_done_mark(l@, 0) == -1,
        },
        !done ==> match r {
            Some(k) => k as int == first_open_mark(l@, 0),
            None => first_open_mark(l@, 0) == -1,
        },
        r matches Some(k) ==> (done ==> k + 3 <= l.len()) && (!done ==> k + 2 <= l.len()),
{
    let width: usize = if done {
        3
    } else {
        2
    };
    let mut i: usize = 0;
    while i < l.len() && width <= l.len() - i
        invariant
            i <= l.len(),
            width == if done {
                3usize
            } else {
                2usize
            },
            done ==> first_done_mark(l@, 0) == first_done_mark(l@, i as int),
            !done ==> first_open_mark(l@, 0) == first_open_mark(l@, i as int),
        decreases l.len() - i,
    {
        let hit = if done {
            l[i] == '[' && (l[i + 1] == 'x' || l[i + 1] == 'X') && l[i + 2] == ']'
        } else {
            l[i] == '[' && l[i + 1] == ']'
        };
        if hit {
            return Some(i);
        }
        i = i + 1;
    }
    None
}

/// Line `l` with the marker of a todo flipped.
pub fn toggle_line_exec(l: &Vec<char>, completed: bool) -> (r: Vec<char>)
    ensures
        r@ == toggle_line(l@, completed),
{
    if !completed {
        let t = trim_chars(l, false);
        if !(t.len() >= 2 && t[0] == '[' && t[1] == ']') {
            return copy_range(l, 0, l.len());
        }
    }
    match find_mark(l, completed) {
        None => {
            let r = copy_range(l, 0, l.len());
            assert(r@ =~= l@);
            r
        },
        Some(k) => {
            let mut mid: Vec<char> = Vec::new();
            mid.push('[');
            if !completed {
                mid.push('x');
            }
            mid.push(']');
            let skip = if completed {
                3
            } else {
                2
            };
            let mut r = copy_range(l, 0, k);
            r.append(&mut mid);
            let mut rest = copy_range(l, k + skip, l.len());
            r.append(&mut rest);
            assert(l@.subrange(0, k as int) =~= l@.take(k as int));
            assert(l@.subrange(k + skip, l.len() as int) =~= l@.skip(k + skip));
            r
        },
    }
}

/// `content` with the marker on line `line` flipped.
pub fn toggle_text_exec(content: &str, line: usize, completed: bool) -> (r: String)
    ensures
        r@ == toggle_text(content@, line as int, completed),
{
    let v = chars_of(content);
    let mut lines = split_lines_exec(&v);
    proof {
        lemma_join_split(v@);
    }
    if line < lines.len() {
        let ghost before = views(lines@);
        let changed = toggle_line_exec(&lines[line], completed);
        lines.set(line, changed);
        assert(views(lines@) =~= before.update(line as int, toggle_line(before[line as int], completed)));
    }
    let joined = join_lines_exec(&lines);
    string_of(joined.as_slice())
}

impl Todo {
    /// The text of this todo's file, given as `file_text`, with the marker on
    /// the todo's line flipped.
    pub fn toggled_text(&self, file_text: &str) -> (r: String)
        ensures
            r@ == toggle_text(file_text@, self.line_number as int, self.completed),
    {
        toggle_text_exec(file_text, self.line_number, self.completed)
    }

    /// Flips this record's completion, once its file has been rewritten.
    pub fn toggle(&mut self)
        ensures
            final(self).completed == !old(self).completed,
            final(self).text == old(self).text,
            final(self).line_number == old(self).line_number,
            final(self).projects == old(self).projects,
            final(self).people == old(self).people,
            final(self).log_path == old(self).log_path,
    {
        self.completed = !self.completed;
    }
}

/// Whether `a` and `b` stand for the same line of the same file.
pub open spec fn same_line(a: Todo, b: Todo) -> bool {
    a.log_path@ == b.log_path@ && a.line_number == b.line_number
}

/// Gives every record in `todos` that stands for the same line as `changed`
/// its completion; leaves the others as they are.
pub fn sync_todos(todos: &mut Vec<Todo>, changed: &Todo)
    ensures
        final(todos)@.len() == old(todos)@.len(),
        forall|i: int|
            0 <= i < old(todos)@.len() ==> if same_line(old(todos)@[i], *changed) {
                #[trigger] final(todos)@[i] == (Todo { completed: changed.completed, ..old(todos)@[i] })
            } else {
                final(todos)@[i] == old(todos)@[i]
            },
{
    let ghost start = todos@;
    let mut i: usize = 0;
    while i < todos.len()
        invariant
            i <= todos@.len() == start.len(),
            forall|j: int|
                0 <= j < start.len() ==> if j < i && same_line(start[j], *changed) {
                    #[trigger] todos@[j] == (Todo { completed: changed.completed, ..start[j] })
                } else {
                    todos@[j] == start[j]
                },
        decreases start.len() - i,
    {
        if todos[i].line_number == changed.line_number && todos[i].log_path == changed.log_path {
            todos[i].completed = changed.completed;
        }
        i = i + 1;
    }
}

/// Whether `t` starts with `[X]`.
pub open spec fn starts_upper_done(t: Seq<char>) -> bool {
    t.len() >= 3 && t[0] == '[' && t[1] == 'X' && t[2] == ']'
}

/// Trimming the start drops exactly the leading trimmable characters.
proof fn lemma_trim_start_at(l: Seq<char>, t: bool, w: int)
    requires
        0 <= w <= l.len(),
        forall|j: int| 0 <= j < w ==> trimmable(l[j], t),
        w < l.len() ==> !trimmable(l[w], t),
    ensures
        trim_start(l, t) == l.skip(w),
    decreases w,
{
    if w == 0 {
        assert(l.skip(0) =~= l);
    } else {
        let d = l.drop_first();
        assert forall|j: int| 0 <= j < w - 1 implies trimmable(d[j], t) by {
            assert(d[j] == l[j + 1]);
        }
        lemma_trim_start_at(d, t, w - 1);
        assert(d.skip(w - 1) =~= l.skip(w));
    }
}

/// Every text has a run of leading trimmable characters, which trimming drops.
proof fn lemma_trim_start_lead(l: Seq<char>, t: bool) -> (w: int)
    ensures
        0 <= w <= l.len(),
        forall|j: int| 0 <= j < w ==> trimmable(l[j], t),
        w < l.len() ==> !trimmable(l[w], t),
        trim_start(l, t) == l.skip(w),
    decreases l.len(),
{
    if l.len() > 0 && trimmable(l[0], t) {
        let w0 = lemma_trim_start_lead(l.drop_first(), t);
        assert forall|j: int| 0 <= j < w0 + 1 implies trimmable(l[j], t) by {
            if j > 0 {
                assert(l[j] == l.drop_first()[j - 1]);
            }
        }
        assert(l.drop_first().skip(w0) =~= l.skip(w0 + 1));
        w0 + 1
    } else {
        assert(l.skip(0) =~= l);
        0
    }
}

/// Trimming the end keeps a prefix, which reaches past every character that
/// is not trimmable.
proof fn lemma_trim_end_prefix(x: Seq<char>, t: bool)
    ensures
        trim_end(x, t) == x.take(trim_end(x, t).len() as int),
        trim_end(x, t).len() <= x.len(),
        forall|k: int| 0 <= k < x.len() && !trimmable(x[k], t) ==> trim_end(x, t).len() > k,
    decreases x.len(),
{
    if x.len() > 0 && trimmable(x.last(), t) {
        let d = x.drop_last();
        lemma_trim_end_prefix(d, t);
        assert(d.take(trim_end(d, t).len() as int) =~= x.take(trim_end(d, t).len() as int));
        assert forall|k: int| 0 <= k < x.len() && !trimmable(x[k], t) implies trim_end(x, t).len()
            > k by {
            if k < x.len() - 1 {
                assert(x[k] == d[k]);
            }
        }
    } else {
        assert(x.take(x.len() as int) =~= x);
    }
}

proof fn lemma_first_open_at(l: Seq<char>, i: int, w: int)
    requires
        0 <= i <= w,
        open_mark_at(l, w),
        forall|j: int| i <= j < w ==> l[j] != '[',
    ensures
        first_open_mark(l, i) == w,
    decreases w - i,
{
    if i < w {
        lemma_first_open_at(l, i + 1, w);
    }
}

proof fn lemma_first_done_at(l: Seq<char>, i: int, w: int)
    requires
        0 <= i <= w,
        done_mark_at(l, w),
        forall|j: int| i <= j < w ==> l[j] != '[',
    ensures
        first_done_mark(l, i) == w,
    decreases w - i,
{
    if i < w {
        lemma_first_done_at(l, i + 1, w);
    }
}

/// Flipping a line's marker twice gives the line back, for a todo line
/// whose marker is `[]` or `[x]`.
proof fn lemma_line_round_trip(l: Seq<char>, completed: bool)
    requires
        line_todo(l) matches Some((_, c)) && c == completed,
        !starts_upper_done(trim_ws(l)),
    ensures
        toggle_line(toggle_line(l, completed), !completed) == l,
{
    let w = lemma_trim_start_lead(l, false);
    let x = l.skip(w);
    lemma_trim_end_prefix(x, false);
    let tw = trim_ws(l);
    assert(tw == trim_end(x, false));
    assert forall|j: int| 0 <= j < w implies l[j] != '[' by {
        assert(is_space(l[j]));
    }
    if !completed {
        assert(starts_open(tw));
        assert(tw[0] == x[0] && tw[1] == x[1]);
        assert(open_mark_at(l, w));
        lemma_first_open_at(l, 0, w);
        let l1 = l.take(w) + seq!['[', 'x', ']'] + l.skip(w + 2);
        assert(toggle_line(l, false) == l1);
        assert forall|j: int| 0 <= j < w implies l1[j] != '[' by {
            assert(l1[j] == l[j]);
        }
        assert(done_mark_at(l1, w));
        lemma_first_done_at(l1, 0, w);
        assert(l1.take(w) + seq!['[', ']'] + l1.skip(w + 3) =~= l);
    } else {
        assert(!starts_open(tw) && starts_done(tw));
        assert(tw[0] == x[0] && tw[1] == x[1] && tw[2] == x[2]);
        assert(x[1] == 'x');
        assert(done_mark_at(l, w));
        lemma_first_done_at(l, 0, w);
        let l1 = l.take(w) + seq!['[', ']'] + l.skip(w + 3);
        assert(toggle_line(l, true) == l1);
        assert forall|j: int| 0 <= j < w implies trimmable(l1[j], false) && l1[j] != '[' by {
            assert(l1[j] == l[j]);
        }
        assert(!trimmable(l1[w], false));
        lemma_trim_start_at(l1, false, w);
        let x1 = l1.skip(w);
        lemma_trim_end_prefix(x1, false);
        assert(x1[1] == ']');
        assert(!trimmable(x1[1], false));
        let t1 = trim_ws(l1);
        assert(t1 == trim_end(x1, false));
        assert(t1[0] == x1[0] && t1[1] == x1[1]);
        assert(starts_open(t1));
        assert(open_mark_at(l1, w));
        lemma_first_open_at(l1, 0, w);
        assert(l1.take(w) + seq!['[', 'x', ']'] + l1.skip(w + 2) =~= l);
    }
}

/// Flipping a marker adds no line break.
proof fn lemma_toggle_line_plain(l: Seq<char>, completed: bool)
    requires
        forall|j: int| 0 <= j < l.len() ==> l[j] != '\n',
    ensures
        forall|j: int|
            0 <= j < toggle_line(l, completed).len() ==> toggle_line(l, completed)[j] != '\n',
{
    lemma_first_done_mark(l, 0);
    lemma_first_open_mark(l, 0);
    let r = toggle_line(l, completed);
    assert forall|j: int| 0 <= j < r.len() implies r[j] != '\n' by {
        if completed {
            let k = first_done_mark(l, 0);
            if k >= 0 {
                if j >= k + 2 {
                    assert(r[j] == l[j + 1]);
                } else if j < k {
                    assert(r[j] == l[j]);
                }
            }
        } else if starts_open(trim_ws(l)) {
            let k = first_open_mark(l, 0);
            if k >= 0 {
                if j >= k + 3 {
                    assert(r[j] == l[j - 1]);
                } else if j < k {
                    assert(r[j] == l[j]);
                }
            }
        }
    }
}

/// Each todo found in a list of lines sits on one of them, which holds it.
proof fn lemma_todos_from_lines(ls: Seq<Seq<char>>)
    ensures
        forall|k: int|
            0 <= k < todos_from(ls).len() ==> {
                let t = #[trigger] todos_from(ls)[k];
                &&& 0 <= t.line < ls.len()
                &&& line_todo(ls[t.line]) == Some((t.text, t.completed))
            },
    decreases ls.len(),
{
    if ls.len() > 0 {
        let init = ls.drop_last();
        lemma_todos_from_lines(init);
        assert forall|k: int| 0 <= k < todos_from(ls).len() implies {
            let t = #[trigger] todos_from(ls)[k];
            &&& 0 <= t.line < ls.len()
            &&& line_todo(ls[t.line]) == Some((t.text, t.completed))
        } by {
            if k < todos_from(init).len() {
                assert(todos_from(ls)[k] == todos_from(init)[k]);
                assert(ls[todos_from(init)[k].line] == init[todos_from(init)[k].line]);
            }
        }
    }
}

/// Toggling a todo of `content` twice, its completion flipped in between as
/// a toggle flips it, gives back `content` character for character, for
/// every todo whose marker is `[]` or `[x]`.
pub proof fn toggle_round_trip(content: Seq<char>, k: int)
    requires
        0 <= k < todo_lines(content).len(),
        !starts_upper_done(trim_ws(split_lines(content)[todo_lines(content)[k].line])),
    ensures
        ({
            let t = todo_lines(content)[k];
            toggle_text(toggle_text(content, t.line, t.completed), t.line, !t.completed)
                == content
        }),
{
    let ls = split_lines(content);
    lemma_todos_from_lines(ls);
    let t = todo_lines(content)[k];
    let n = t.line;
    let l = ls[n];
    lemma_split_lines_shape(content);
    lemma_join_split(content);
    lemma_line_round_trip(l, t.completed);
    let l1 = toggle_line(l, t.completed);
    assert forall|j: int| 0 <= j < l.len() implies l[j] != '\n' by {}
    lemma_toggle_line_plain(l, t.completed);
    let ls1 = ls.update(n, l1);
    assert(no_breaks(ls1)) by {
        assert forall|i: int, j: int| 0 <= i < ls1.len() && 0 <= j < ls1[i].len() implies ls1[i][j]
            != '\n' by {
            if i != n {
                assert(ls1[i] == ls[i]);
            }
        }
    }
    lemma_split_join(ls1);
    assert(ls1.update(n, l) =~= ls);
}

} // verus!
