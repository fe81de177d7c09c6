//! The records of the journal: projects, people, note entries and the todos
//! found in them, with the parsing of an entry from its text.
use vstd::prelude::*;
use crate::parser::{
    extract_tags, line_todo, line_todo_exec, names, tags, todo_lines, todos_from, word_scan, words,
    TodoLine,
};
use crate::paths::{parent_dir_name, parent_name};
use crate::stamp::{dir_timestamp, parse_dir_timestamp, Timestamp};
use crate::text::{
    chars_of, copy_range, lemma_split_lines_shape, split_lines, split_lines_exec, string_of, trim_ws,
    views,
};

verus! {

/// The status a project gets when none is recorded.
pub fn default_status() -> (r: String)
    ensures
        r@ == "open"@,
{
    String::from_str("open")
}

/// A project that can be tagged in log entries.
#[derive(Debug, Clone)]
pub struct Project {
    pub name: String,
    pub jira: Option<String>,
    pub description: Option<String>,
    pub status: String,
    pub group: String,
}

impl Project {
    /// The sample project written into a fresh journal.
    pub fn example() -> (r: Self)
        ensures
            r.name@ == "new-website"@,
            r.jira matches Some(j) && j@ == "https://jira.com/projects/WWW-123"@,
            r.description matches Some(d) && d@
                == "A project to create a new look on our website"@,
            r.status@ == "open"@,
            r.group@.len() == 0,
    {
        Project {
            name: String::from_str("new-website"),
            jira: Some(String::from_str("https://jira.com/projects/WWW-123")),
            description: Some(String::from_str("A project to create a new look on our website")),
            status: String::from_str("open"),
            group: String::new(),
        }
    }
}

/// The text of an edit field as an optional value: `None` when empty.
pub fn optional_text(s: String) -> (r: Option<String>)
    ensures
        s@.len() == 0 ==> r is None,
        s@.len() > 0 ==> r == Some(s),
{
    if s.as_str().is_empty() {
        None
    } else {
        Some(s)
    }
}

impl Project {
    /// The project described by the fields of the edit form; an empty
    /// description or Jira link is no value.
    pub fn from_fields(
        name: String,
        description: String,
        jira: String,
        status: String,
        group: String,
    ) -> (r: Self)
        ensures
            r.name == name,
            description@.len() == 0 ==> r.description is None,
            description@.len() > 0 ==> r.description == Some(description),
            jira@.len() == 0 ==> r.jira is None,
            jira@.len() > 0 ==> r.jira == Some(jira),
            r.status == status,
            r.group == group,
    {
        Project {
            name,
            description: optional_text(description),
            jira: optional_text(jira),
            status,
            group,
        }
    }
}

/// A person that can be tagged in log entries.
#[derive(Debug, Clone)]
pub struct Person {
    pub name: String,
    pub full_name: Option<String>,
    pub email: Option<String>,
    pub tel: Option<String>,
    pub company: Option<String>,
}

impl Person {
    /// The sample person written into a fresh journal.
    pub fn example() -> (r: Self)
        ensures
            r.name@ == "john"@,
            r.full_name matches Some(n) && n@ == "John Smith"@,
            r.email matches Some(e) && e@ == "john@example.com"@,
            r.tel matches Some(t) && t@ == "555 123 3333"@,
            r.company matches Some(c) && c@ == "foo works"@,
    {
        Person {
            name: String::from_str("john"),
            full_name: Some(String::from_str("John Smith")),
            email: Some(String::from_str("john@example.com")),
            tel: Some(String::from_str("555 123 3333")),
            company: Some(String::from_str("foo works")),
        }
    }
}

} // verus!

verus! {

/// A todo item extracted from a log entry.
#[derive(Debug, Clone)]
pub struct Todo {
    pub text: String,
    pub completed: bool,
    pub line_number: usize,
    pub projects: Vec<String>,
    pub people: Vec<String>,
    pub log_path: String,
}

impl Todo {
    /// Whether this record is the todo `t` found in the entry at `path` whose
    /// project and person tags are `projects` and `people`.
    pub open spec fn describes(
        self,
        t: TodoLine,
        projects: Seq<Seq<char>>,
        people: Seq<Seq<char>>,
        path: Seq<char>,
    ) -> bool {
        &&& self.text@ == t.text
        &&& self.completed == t.completed
        &&& self.line_number == t.line
        &&& names(self.projects@) == projects
        &&& names(self.people@) == people
        &&& self.log_path@ == path
    }
}

/// A copy of each string in `v`.
pub fn clone_strings(v: &Vec<String>) -> (r: Vec<String>)
    ensures
        names(r@) == names(v@),
{
    let mut r: Vec<String> = Vec::new();
    let mut i: usize = 0;
    while i < v.len()
        invariant
            i <= v.len(),
            names(r@) == names(v@).take(i as int),
        decreases v.len() - i,
    {
        let ghost before = names(r@);
        r.push(v[i].clone());
        assert(names(r@) =~= before.push(v@[i as int]@));
        assert(names(v@).take(i + 1) =~= names(v@).take(i as int).push(v@[i as int]@));
        i = i + 1;
    }
    assert(names(v@).take(i as int) =~= names(v@));
    r
}

/// The todos of `text`, each carrying the entry's tags and path.
pub fn extract_todos(
    text: &Vec<char>,
    projects: &Vec<String>,
    people: &Vec<String>,
    path: &String,
) -> (r: Vec<Todo>)
    ensures
        r@.len() == todo_lines(text@).len(),
        forall|i: int|
            0 <= i < r@.len() ==> #[trigger] r@[i].describes(
                todo_lines(text@)[i],
                names(projects@),
                names(people@),
                path@,
            ),
{
    let lines = split_lines_exec(text);
    let ghost ls = views(lines@);
    let mut r: Vec<Todo> = Vec::new();
    let mut i: usize = 0;
    while i < lines.len()
        invariant
            i <= lines.len(),
            ls == views(lines@),
            ls == split_lines(text@),
            r@.len() == todos_from(ls.take(i as int)).len(),
            forall|j: int|
                0 <= j < r@.len() ==> #[trigger] r@[j].describes(
                    todos_from(ls.take(i as int))[j],
                    names(projects@),
                    names(people@),
                    path@,
                ),
        decreases lines.len() - i,
    {
        let ghost prev = todos_from(ls.take(i as int));
        assert(ls.take(i + 1).drop_last() =~= ls.take(i as int));
        assert(ls.take(i + 1).last() == lines@[i as int]@);
        match line_todo_exec(&lines[i]) {
            Some((t, completed)) => {
                let todo = Todo {
                    text: string_of(t.as_slice()),
                    completed,
                    line_number: i,
                    projects: clone_strings(projects),
                    people: clone_strings(people),
                    log_path: path.clone(),
                };
                r.push(todo);
                assert(todos_from(ls.take(i + 1)) == prev.push(
                    TodoLine { text: t@, completed, line: i as int },
                ));
            },
            None => {},
        }
        i = i + 1;
    }
    assert(ls.take(i as int) =~= ls);
    r
}

/// A log entry: its text, the tags and todos found in it, and where it is kept.
#[derive(Debug, Clone)]
pub struct LogEntry {
    pub timestamp: Timestamp,
    pub content: String,
    pub projects: Vec<String>,
    pub people: Vec<String>,
    pub todos: Vec<Todo>,
    pub attachments: Vec<String>,
    pub file_path: String,
}

impl LogEntry {
    /// Whether this entry holds exactly what `content`, kept at `path`, yields:
    /// its distinct `#` and `@` tags in order of first appearance, and its todo
    /// lines in order, each carrying all of the entry's tags.
    pub open spec fn parsed_from(self, content: Seq<char>, path: Seq<char>) -> bool {
        let projects = tags(content, '#');
        let people = tags(content, '@');
        &&& self.content@ == content
        &&& self.file_path@ == path
        &&& names(self.projects@) == projects
        &&& names(self.people@) == people
        &&& self.todos@.len() == todo_lines(content).len()
        &&& forall|i: int|
            0 <= i < self.todos@.len() ==> #[trigger] self.todos@[i].describes(
                todo_lines(content)[i],
                projects,
                people,
                path,
            )
        &&& self.attachments@.len() == 0
    }

    /// An empty entry, stamped with `now`, the time its composition starts.
    pub fn new(now: Timestamp) -> (r: Self)
        ensures
            r.parsed_from(Seq::empty(), Seq::empty()),
            r.timestamp == now,
    {
        let r = LogEntry {
            timestamp: now,
            content: String::new(),
            projects: Vec::new(),
            people: Vec::new(),
            todos: Vec::new(),
            attachments: Vec::new(),
            file_path: String::new(),
        };
        proof {
            lemma_empty_text(r);
        }
        r
    }

    /// The entry that `content`, kept at `file_path`, yields, stamped with
    /// `fallback` unless the name of the directory holding the file gives the time.
    pub fn parse(content: &str, file_path: &str, fallback: Timestamp) -> (r: Self)
        ensures
            r.parsed_from(content@, file_path@),
            match parent_name(file_path@) {
                Some(dir) => match dir_timestamp(dir) {
                    Some(secs) => r.timestamp.secs == secs,
                    None => r.timestamp == fallback,
                },
                None => r.timestamp == fallback,
            },
    {
        let text = chars_of(content);
        let path = String::from_str(file_path);
        let timestamp = match parent_dir_name(file_path) {
            Some(dir) => match parse_dir_timestamp(dir.as_str()) {
                Some(secs) => Timestamp::at(secs),
                None => fallback,
            },
            None => fallback,
        };
        let (projects, people) = extract_tags(&text);
        let todos = extract_todos(&text, &projects, &people, &path);
        LogEntry {
            timestamp,
            content: String::from_str(content),
            projects,
            people,
            todos,
            attachments: Vec::new(),
            file_path: path,
        }
    }

    /// The first line of the entry, as a summary, without a trailing `'\r'`.
    pub fn first_line(&self) -> (r: String)
        ensures
            r@ == without_cr(split_lines(self.content@)[0]),
    {
        let v = chars_of(self.content.as_str());
        let lines = split_lines_exec(&v);
        proof {
            lemma_split_lines_shape(v@);
        }
        let first = &lines[0];
        let n = first.len();
        if n > 0 && first[n - 1] == '\r' {
            let cut = copy_range(first, 0, n - 1);
            assert(cut@ =~= first@.drop_last());
            string_of(cut.as_slice())
        } else {
            string_of(first.as_slice())
        }
    }
}

/// Parsing depends on the text and the path alone: two entries parsed from
/// the same text and path hold the same tags and the same todos, in the same
/// order and with the same content.
pub proof fn parse_is_deterministic(a: LogEntry, b: LogEntry, content: Seq<char>, path: Seq<char>)
    requires
        a.parsed_from(content, path),
        b.parsed_from(content, path),
    ensures
        names(a.projects@) == names(b.projects@),
        names(a.people@) == names(b.people@),
        a.todos@.len() == b.todos@.len(),
        forall|i: int|
            0 <= i < a.todos@.len() ==> {
                let (x, y) = (#[trigger] a.todos@[i], b.todos@[i]);
                &&& x.text@ == y.text@
                &&& x.completed == y.completed
                &&& x.line_number == y.line_number
                &&& names(x.projects@) == names(y.projects@)
                &&& names(x.people@) == names(y.people@)
                &&& x.log_path@ == y.log_path@
            },
{
    assert forall|i: int| 0 <= i < a.todos@.len() implies {
        let (x, y) = (#[trigger] a.todos@[i], b.todos@[i]);
        &&& x.text@ == y.text@
        &&& x.completed == y.completed
        &&& x.line_number == y.line_number
        &&& names(x.projects@) == names(y.projects@)
        &&& names(x.people@) == names(y.people@)
        &&& x.log_path@ == y.log_path@
    } by {
        assert(a.todos@[i].describes(todo_lines(content)[i], tags(content, '#'), tags(content, '@'), path));
        assert(b.todos@[i].describes(todo_lines(content)[i], tags(content, '#'), tags(content, '@'), path));
    }
}

/// Line `l` without a trailing `'\r'`.
pub open spec fn without_cr(l: Seq<char>) -> Seq<char> {
    if l.len() > 0 && l.last() == '\r' {
        l.drop_last()
    } else {
        l
    }
}

/// Empty text has no tags and no todos.
proof fn lemma_empty_text(e: LogEntry)
    requires
        e.content@ == Seq::<char>::empty(),
        e.file_path@ == Seq::<char>::empty(),
        e.projects@.len() == 0,
        e.people@.len() == 0,
        e.todos@.len() == 0,
        e.attachments@.len() == 0,
    ensures
        e.parsed_from(Seq::empty(), Seq::empty()),
{
    let s = Seq::<char>::empty();
    assert(word_scan(s) == (Seq::<Seq<char>>::empty(), s));
    assert(words(s).len() == 0);
    assert(names(e.projects@) =~= tags(s, '#'));
    assert(names(e.people@) =~= tags(s, '@'));
    let ls = split_lines(s);
    assert(ls.drop_last() =~= Seq::<Seq<char>>::empty());
    assert(line_todo(ls.last()) is None) by {
        assert(ls.last() == s);
        assert(trim_ws(s) == s);
    }
    assert(todos_from(ls.drop_last()).len() == 0);
    assert(todo_lines(s).len() == 0);
}

} // verus!
