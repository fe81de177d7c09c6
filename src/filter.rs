//! Filters over todos and log entries.
//!
//! Each dimension of a filter is a set of names; an empty set imposes
//! nothing, and a non-empty one lets a record through when the record has at
//! least one of its names. The dimensions are combined with "and".
use vstd::prelude::*;
use crate::models::{LogEntry, Todo};
use crate::parser::names;
use crate::stamp::{day_of_text, parse_day};

verus! {

/// Whether some name of `have` is among `wanted`.
pub open spec fn shares_a_name(have: Seq<Seq<char>>, wanted: Seq<Seq<char>>) -> bool {
    exists|i: int| 0 <= i < have.len() && wanted.contains(#[trigger] have[i])
}

/// Whether a record with names `have` passes a dimension that asks for `wanted`.
pub open spec fn dimension_passes(wanted: Seq<Seq<char>>, have: Seq<Seq<char>>) -> bool {
    wanted.len() == 0 || shares_a_name(have, wanted)
}

/// `s` without any copy of `n`.
pub open spec fn without(s: Seq<Seq<char>>, n: Seq<char>) -> Seq<Seq<char>>
    decreases s.len(),
{
    if s.len() == 0 {
        s
    } else if s.last() == n {
        without(s.drop_last(), n)
    } else {
        without(s.drop_last(), n).push(s.last())
    }
}

/// `s` with `n` taken out if it holds it, else with `n` added at the end.
pub open spec fn toggled(s: Seq<Seq<char>>, n: Seq<char>) -> Seq<Seq<char>> {
    if s.contains(n) {
        without(s, n)
    } else {
        s.push(n)
    }
}

/// A bound after the text `input` was typed for it: none for empty text, the
/// day the text names, or else the bound as it was.
pub open spec fn bound_from_text(input: Seq<char>, current: Option<i64>) -> Option<i64> {
    if input.len() == 0 {
        None
    } else {
        match day_of_text(input) {
            Some(d) => Some(d),
            None => current,
        }
    }
}

/// Whether `v` holds `s`.
pub fn contains_name(v: &Vec<String>, s: &String) -> (r: bool)
    ensures
        r == names(v@).contains(s@),
{
    let mut i: usize = 0;
    while i < v.len()
        invariant
            i <= v.len(),
            forall|j: int| 0 <= j < i ==> v@[j]@ != s@,
        decreases v.len() - i,
    {
        if v[i] == *s {
            assert(names(v@)[i as int] == s@);
            return true;
        }
        i = i + 1;
    }
    assert forall|j: int| 0 <= j < names(v@).len() implies names(v@)[j] != s@ by {
        assert(names(v@)[j] == v@[j]@);
    }
    false
}

/// Whether some name of `have` is among `wanted`.
pub fn any_shared(have: &Vec<String>, wanted: &Vec<String>) -> (r: bool)
    ensures
        r == shares_a_name(names(have@), names(wanted@)),
{
    let mut i: usize = 0;
    while i < have.len()
        invariant
            i <= have.len(),
            forall|j: int| 0 <= j < i ==> !names(wanted@).contains(#[trigger] names(have@)[j]),
        decreases have.len() - i,
    {
        if contains_name(wanted, &have[i]) {
            assert(names(have@)[i as int] == have@[i as int]@);
            return true;
        }
        assert(names(have@)[i as int] == have@[i as int]@);
        i = i + 1;
    }
    false
}

/// Takes `name` out of `v` if it is there, else adds it at the end.
pub fn toggle_name(v: &mut Vec<String>, name: &str)
    ensures
        names(final(v)@) == toggled(names(old(v)@), name@),
{
    let s = String::from_str(name);
    if contains_name(v, &s) {
        let mut kept: Vec<String> = Vec::new();
        let mut i: usize = 0;
        while i < v.len()
            invariant
                i <= v.len(),
                names(kept@) == without(names(v@).take(i as int), name@),
                s@ == name@,
            decreases v.len() - i,
        {
            let ghost before = names(kept@);
            assert(names(v@).take(i + 1).drop_last() =~= names(v@).take(i as int));
            assert(names(v@).take(i + 1).last() == v@[i as int]@);
            if v[i] != s {
                kept.push(v[i].clone());
                assert(names(kept@) =~= before.push(v@[i as int]@));
            }
            i = i + 1;
        }
        assert(names(v@).take(i as int) =~= names(v@));
        *v = kept;
    } else {
        let ghost before = names(v@);
        v.push(s);
        assert(names(v@) =~= before.push(name@));
    }
}

/// The indices, in order, of the first `n` todos that `f` lets through.
pub open spec fn passing_todos(f: TodoFilter, todos: Seq<Todo>, n: int) -> Seq<usize>
    decreases n,
{
    if n <= 0 {
        Seq::empty()
    } else {
        let acc = passing_todos(f, todos, n - 1);
        if f.accepts(todos[n - 1]) {
            acc.push((n - 1) as usize)
        } else {
            acc
        }
    }
}

/// The indices, in order, of the first `n` entries that `f` lets through.
pub open spec fn passing_logs(f: LogFilter, logs: Seq<LogEntry>, n: int) -> Seq<usize>
    decreases n,
{
    if n <= 0 {
        Seq::empty()
    } else {
        let acc = passing_logs(f, logs, n - 1);
        if f.accepts(logs[n - 1]) {
            acc.push((n - 1) as usize)
        } else {
            acc
        }
    }
}

/// The indices, in order, of the first `n` entries tagged with project `name`.
pub open spec fn logs_tagged(logs: Seq<LogEntry>, name: Seq<char>, n: int) -> Seq<usize>
    decreases n,
{
    if n <= 0 {
        Seq::empty()
    } else {
        let acc = logs_tagged(logs, name, n - 1);
        if names(logs[n - 1].projects@).contains(name) {
            acc.push((n - 1) as usize)
        } else {
            acc
        }
    }
}

/// The indices, in order, of the entries of `logs` tagged with project `name`.
pub fn logs_with_project(logs: &Vec<LogEntry>, name: &String) -> (r: Vec<usize>)
    ensures
        r@ == logs_tagged(logs@, name@, logs@.len() as int),
{
    let mut r: Vec<usize> = Vec::new();
    let mut i: usize = 0;
    while i < logs.len()
        invariant
            i <= logs@.len(),
            r@ == logs_tagged(logs@, name@, i as int),
        decreases logs@.len() - i,
    {
        if contains_name(&logs[i].projects, name) {
            r.push(i);
        }
        i = i + 1;
    }
    r
}

/// Which todos to show.
#[derive(Debug, Clone)]
pub struct TodoFilter {
    pub show_completed: bool,
    pub projects: Vec<String>,
    pub people: Vec<String>,
}

impl TodoFilter {
    /// Whether this filter lets `todo` through.
    pub open spec fn accepts(self, todo: Todo) -> bool {
        &&& (self.show_completed || !todo.completed)
        &&& dimension_passes(names(self.projects@), names(todo.projects@))
        &&& dimension_passes(names(self.people@), names(todo.people@))
    }

    /// A filter that shows open todos and imposes nothing else.
    pub fn new() -> (r: Self)
        ensures
            !r.show_completed,
            r.projects@.len() == 0,
            r.people@.len() == 0,
    {
        TodoFilter { show_completed: false, projects: Vec::new(), people: Vec::new() }
    }

    /// Whether this filter lets `todo` through: completed todos only when
    /// they are shown, and for each non-empty set of names, a todo that has
    /// one of them.
    pub fn matches(&self, todo: &Todo) -> (r: bool)
        ensures
            r == self.accepts(*todo),
    {
        if !self.show_completed && todo.completed {
            return false;
        }
        if self.projects.len() > 0 && !any_shared(&todo.projects, &self.projects) {
            return false;
        }
        if self.people.len() > 0 && !any_shared(&todo.people, &self.people) {
            return false;
        }
        true
    }

    /// The indices, in order, of the todos that this filter lets through.
    pub fn apply(&self, todos: &Vec<Todo>) -> (r: Vec<usize>)
        ensures
            r@ == passing_todos(*self, todos@, todos@.len() as int),
    {
        let mut r: Vec<usize> = Vec::new();
        let mut i: usize = 0;
        while i < todos.len()
            invariant
                i <= todos@.len(),
                r@ == passing_todos(*self, todos@, i as int),
            decreases todos@.len() - i,
        {
            if self.matches(&todos[i]) {
                r.push(i);
            }
            i = i + 1;
        }
        r
    }

    /// Takes project `name` out of the filter if it is there, else adds it.
    pub fn toggle_project(&mut self, name: &str)
        ensures
            names(final(self).projects@) == toggled(names(old(self).projects@), name@),
            final(self).people == old(self).people,
            final(self).show_completed == old(self).show_completed,
    {
        toggle_name(&mut self.projects, name);
    }

    /// Takes person `name` out of the filter if it is there, else adds it.
    pub fn toggle_person(&mut self, name: &str)
        ensures
            names(final(self).people@) == toggled(names(old(self).people@), name@),
            final(self).projects == old(self).projects,
            final(self).show_completed == old(self).show_completed,
    {
        toggle_name(&mut self.people, name);
    }
}

impl Default for TodoFilter {
    fn default() -> (r: Self)
        ensures
            !r.show_completed,
            r.projects@.len() == 0,
            r.people@.len() == 0,
    {
        TodoFilter::new()
    }
}

/// Which log entries to show; dates are local calendar days counted from 1970-01-01.
#[derive(Debug, Clone)]
pub struct LogFilter {
    pub projects: Vec<String>,
    pub people: Vec<String>,
    pub start_date: Option<i64>,
    pub end_date: Option<i64>,
}

impl LogFilter {
    /// Whether this filter lets `entry` through.
    pub open spec fn accepts(self, entry: LogEntry) -> bool {
        &&& dimension_passes(names(self.projects@), names(entry.projects@))
        &&& dimension_passes(names(self.people@), names(entry.people@))
        &&& (self.start_date matches Some(d) ==> d <= entry.timestamp.day())
        &&& (self.end_date matches Some(d) ==> entry.timestamp.day() <= d)
    }

    /// A filter that imposes nothing.
    pub fn new() -> (r: Self)
        ensures
            r.projects@.len() == 0,
            r.people@.len() == 0,
            r.start_date is None,
            r.end_date is None,
    {
        LogFilter { projects: Vec::new(), people: Vec::new(), start_date: None, end_date: None }
    }

    /// Whether this filter lets `entry` through: for each non-empty set of
    /// names, an entry that has one of them, and a local day within the bounds
    /// that are set, both included.
    pub fn matches(&self, entry: &LogEntry) -> (r: bool)
        ensures
            r == self.accepts(*entry),
    {
        if self.projects.len() > 0 && !any_shared(&entry.projects, &self.projects) {
            return false;
        }
        if self.people.len() > 0 && !any_shared(&entry.people, &self.people) {
            return false;
        }
        let day = entry.timestamp.local_day();
        match self.start_date {
            Some(d) => if day < d {
                return false;
            },
            None => {},
        }
        match self.end_date {
            Some(d) => if day > d {
                return false;
            },
            None => {},
        }
        true
    }

    /// The indices, in order, of the entries that this filter lets through.
    pub fn apply(&self, logs: &Vec<LogEntry>) -> (r: Vec<usize>)
        ensures
            r@ == passing_logs(*self, logs@, logs@.len() as int),
    {
        let mut r: Vec<usize> = Vec::new();
        let mut i: usize = 0;
        while i < logs.len()
            invariant
                i <= logs@.len(),
                r@ == passing_logs(*self, logs@, i as int),
            decreases logs@.len() - i,
        {
            if self.matches(&logs[i]) {
                r.push(i);
            }
            i = i + 1;
        }
        r
    }

    /// Takes project `name` out of the filter if it is there, else adds it.
    pub fn toggle_project(&mut self, name: &str)
        ensures
            names(final(self).projects@) == toggled(names(old(self).projects@), name@),
            final(self).people == old(self).people,
            final(self).start_date == old(self).start_date,
            final(self).end_date == old(self).end_date,
    {
        toggle_name(&mut self.projects, name);
    }

    /// Sets the first day shown from the text typed for it.
    pub fn set_start_date_from_input(&mut self, input: &str)
        ensures
            final(self).start_date == bound_from_text(input@, old(self).start_date),
            final(self).end_date == old(self).end_date,
            final(self).projects == old(self).projects,
            final(self).people == old(self).people,
    {
        if input.is_empty() {
            self.start_date = None;
        } else {
            match parse_day(input) {
                Some(d) => self.start_date = Some(d),
                None => {},
            }
        }
    }

    /// Sets the last day shown from the text typed for it.
    pub fn set_end_date_from_input(&mut self, input: &str)
        ensures
            final(self).end_date == bound_from_text(input@, old(self).end_date),
            final(self).start_date == old(self).start_date,
            final(self).projects == old(self).projects,
            final(self).people == old(self).people,
    {
        if input.is_empty() {
            self.end_date = None;
        } else {
            match parse_day(input) {
                Some(d) => self.end_date = Some(d),
                None => {},
            }
        }
    }

    /// Takes person `name` out of the filter if it is there, else adds it.
    pub fn toggle_person(&mut self, name: &str)
        ensures
            names(final(self).people@) == toggled(names(old(self).people@), name@),
            final(self).projects == old(self).projects,
            final(self).start_date == old(self).start_date,
            final(self).end_date == old(self).end_date,
    {
        toggle_name(&mut self.people, name);
    }
}

impl Default for LogFilter {
    fn default() -> (r: Self)
        ensures
            r.projects@.len() == 0,
            r.people@.len() == 0,
            r.start_date is None,
            r.end_date is None,
    {
        LogFilter::new()
    }
}

/// Having a name in common is having a non-empty intersection.
pub proof fn lemma_shares_iff_meets(have: Seq<Seq<char>>, wanted: Seq<Seq<char>>)
    ensures
        shares_a_name(have, wanted) <==> have.to_set().intersect(wanted.to_set())
            != Set::<Seq<char>>::empty(),
{
    let meet = have.to_set().intersect(wanted.to_set());
    if shares_a_name(have, wanted) {
        let i = choose|i: int| 0 <= i < have.len() && wanted.contains(#[trigger] have[i]);
        assert(have.contains(have[i]));
        assert(meet.contains(have[i]));
        assert(!Set::<Seq<char>>::empty().contains(have[i]));
    } else {
        assert forall|n: Seq<char>| !meet.contains(n) by {
            if meet.contains(n) {
                assert(have.contains(n));
                let i = choose|i: int| 0 <= i < have.len() && have[i] == n;
                assert(wanted.contains(have[i]));
            }
        }
        assert(meet =~= Set::<Seq<char>>::empty());
    }
}

/// A todo filter lets a todo through exactly when each dimension does, with
/// the dimensions combined by "and": the completion test, and for each
/// non-empty set of names in the filter, a non-empty intersection of the
/// todo's names with it. What one dimension asks depends on that dimension's
/// names alone.
pub proof fn todo_filter_law(f: TodoFilter, t: Todo)
    ensures
        f.accepts(t) <==> {
            &&& (f.show_completed || !t.completed)
            &&& (f.projects@.len() == 0 || names(t.projects@).to_set().intersect(
                names(f.projects@).to_set(),
            ) != Set::<Seq<char>>::empty())
            &&& (f.people@.len() == 0 || names(t.people@).to_set().intersect(
                names(f.people@).to_set(),
            ) != Set::<Seq<char>>::empty())
        },
{
    lemma_shares_iff_meets(names(t.projects@), names(f.projects@));
    lemma_shares_iff_meets(names(t.people@), names(f.people@));
}

/// A log filter lets an entry through exactly when each dimension does, with
/// the dimensions combined by "and": for each non-empty set of names in the
/// filter, a non-empty intersection of the entry's names with it, and the
/// entry's local day within each bound that is set.
pub proof fn log_filter_law(f: LogFilter, e: LogEntry)
    ensures
        f.accepts(e) <==> {
            &&& (f.projects@.len() == 0 || names(e.projects@).to_set().intersect(
                names(f.projects@).to_set(),
            ) != Set::<Seq<char>>::empty())
            &&& (f.people@.len() == 0 || names(e.people@).to_set().intersect(
                names(f.people@).to_set(),
            ) != Set::<Seq<char>>::empty())
            &&& (f.start_date matches Some(d) ==> d <= e.timestamp.day())
            &&& (f.end_date matches Some(d) ==> e.timestamp.day() <= d)
        },
{
    lemma_shares_iff_meets(names(e.projects@), names(f.projects@));
    lemma_shares_iff_meets(names(e.people@), names(f.people@));
}

} // verus!
