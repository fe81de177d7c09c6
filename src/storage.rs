//! Where the journal keeps its files, and what is computed from what was read.
use vstd::prelude::*;
use crate::models::{LogEntry, Todo};
use crate::paths::{join, join_path};
use crate::stamp::Timestamp;

verus! {

/// Relies on `dirs::home_dir`, read as text: the user's home directory, if
/// the system reports one.
#[verifier::external_body]
fn home_dir() -> (r: Option<String>) {
    dirs::home_dir().map(|p| p.to_string_lossy().into_owned())
}

/// Why the journal's storage could not be set up.
#[derive(Debug, Clone, Copy, PartialEq, Eq)]
pub enum StorageError {
    /// The system reports no home directory.
    NoHomeDirectory,
}

/// The todos of each entry, entry after entry.
pub open spec fn all_todos(logs: Seq<LogEntry>) -> Seq<Todo>
    decreases logs.len(),
{
    if logs.len() == 0 {
        Seq::empty()
    } else {
        logs[0].todos@ + all_todos(logs.drop_first())
    }
}

/// Whether `logs` runs from the newest entry to the oldest.
pub open spec fn newest_first(logs: Seq<LogEntry>) -> bool {
    forall|i: int, j: int|
        0 <= i < j < logs.len() ==> logs[i].timestamp.secs >= logs[j].timestamp.secs
}

/// Whether entry `k` of `r` is entry `from[k]` of `logs`, with entries of the
/// same instant drawn in the order in which `logs` holds them.
pub open spec fn drawn_in_order(r: Seq<LogEntry>, logs: Seq<LogEntry>, from: Seq<int>) -> bool {
    &&& from.len() == r.len()
    &&& forall|k: int| 0 <= k < r.len() ==> 0 <= from[k] < logs.len() && r[k] == logs[from[k]]
    &&& forall|k: int, l: int|
        0 <= k < l < r.len() && r[k].timestamp.secs == r[l].timestamp.secs ==> from[k] < from[l]
}

/// `logs` ordered from the newest entry to the oldest; entries of the same
/// instant keep their order.
pub fn sort_newest_first(logs: Vec<LogEntry>) -> (r: Vec<LogEntry>)
    ensures
        r@.to_multiset() == logs@.to_multiset(),
        newest_first(r@),
        exists|from: Seq<int>| #[trigger] drawn_in_order(r@, logs@, from),
{
    broadcast use vstd::seq_lib::group_to_multiset_ensures, vstd::multiset::group_multiset_axioms;

    let ghost whole = logs@;
    let ghost mut from: Seq<int> = Seq::empty();
    let ghost mut taken: int = 0;
    let mut rest = logs;
    let mut out: Vec<LogEntry> = Vec::new();
    while rest.len() > 0
        invariant
            0 <= taken <= whole.len(),
            rest@ == whole.skip(taken),
            out@.to_multiset().add(rest@.to_multiset()) == whole.to_multiset(),
            newest_first(out@),
            from.len() == out@.len(),
            forall|k: int|
                #![trigger from[k]]
                0 <= k < out@.len() ==> 0 <= from[k] < taken && out@[k] == whole[from[k]],
            forall|k: int, l: int|
                0 <= k < l < out@.len() && out@[k].timestamp.secs == out@[l].timestamp.secs
                    ==> from[k] < from[l],
        decreases rest.len(),
    {
        let ghost rest0 = rest@;
        let ghost out0 = out@;
        let ghost from0 = from;
        let e = rest.remove(0);
        proof {
            vstd::seq_lib::to_multiset_remove(rest0, 0);
            assert(rest0[0] == e);
            assert(rest0.contains(e));
            vstd::seq_lib::to_multiset_contains(rest0, e);
            assert(e == whole[taken]);
            assert(rest@ =~= whole.skip(taken + 1));
        }
        let mut p: usize = 0;
        while p < out.len() && out[p].timestamp.secs >= e.timestamp.secs
            invariant
                p <= out.len(),
                out@ == out0,
                forall|k: int| 0 <= k < p ==> out@[k].timestamp.secs >= e.timestamp.secs,
            decreases out.len() - p,
        {
            p = p + 1;
        }
        let ghost secs = e.timestamp.secs;
        out.insert(p, e);
        proof {
            vstd::seq_lib::to_multiset_insert(out0, p as int, e);
            from = from0.insert(p as int, taken);
            assert forall|i: int, j: int| 0 <= i < j < out@.len() implies out@[i].timestamp.secs
                >= out@[j].timestamp.secs by {
                if j < p {
                    assert(out@[i] == out0[i] && out@[j] == out0[j]);
                } else if j == p {
                    assert(out@[i] == out0[i]);
                } else if i < p {
                    assert(out@[i] == out0[i] && out@[j] == out0[j - 1]);
                    assert(out0[p as int].timestamp.secs < secs);
                } else if i == p {
                    assert(out@[j] == out0[j - 1]);
                    assert(out0[p as int].timestamp.secs < secs);
                } else {
                    assert(out@[i] == out0[i - 1] && out@[j] == out0[j - 1]);
                }
            }
            assert forall|k: int|
                #![trigger from[k]]
                0 <= k < out@.len() implies 0 <= from[k] < taken + 1 && out@[k] == whole[from[k]] by {
                if k < p {
                    assert(out@[k] == out0[k] && from[k] == from0[k]);
                } else if k > p {
                    assert(out@[k] == out0[k - 1] && from[k] == from0[k - 1]);
                } else {
                    assert(from[k] == taken && out@[k] == e);
                }
            }
            assert forall|k: int, l: int|
                0 <= k < l < out@.len() && out@[k].timestamp.secs == out@[l].timestamp.secs
                    implies from[k] < from[l] by {
                if l < p {
                    assert(out@[k] == out0[k] && out@[l] == out0[l]);
                } else if l == p {
                    assert(from[k] == from0[k]);
                } else if k < p {
                    assert(out@[k] == out0[k] && out@[l] == out0[l - 1]);
                    assert(from[k] == from0[k] && from[l] == from0[l - 1]);
                } else if k == p {
                    assert(out@[l] == out0[l - 1]);
                    assert(out0[p as int].timestamp.secs < secs);
                    if l - 1 > p {
                        assert(out0[p as int].timestamp.secs >= out0[l - 1].timestamp.secs);
                    }
                } else {
                    assert(out@[k] == out0[k - 1] && out@[l] == out0[l - 1]);
                    assert(from[k] == from0[k - 1] && from[l] == from0[l - 1]);
                }
            }
            taken = taken + 1;
            assert(out@.to_multiset().add(rest@.to_multiset()) =~= whole.to_multiset());
        }
    }
    assert(rest@.to_multiset() =~= vstd::multiset::Multiset::empty());
    assert(out@.to_multiset().add(rest@.to_multiset()) =~= out@.to_multiset());
    assert(drawn_in_order(out@, whole, from));
    out
}

/// The journal's storage: a base directory holding the project, people and
/// configuration files and one directory of entries per year.
#[derive(Debug, Clone)]
pub struct Storage {
    pub base_dir: String,
}

impl Storage {
    /// Storage under the `todo-log` directory of the user's home directory.
    pub fn new() -> (r: Result<Self, StorageError>)
        ensures
            r matches Ok(s) ==> exists|home: Seq<char>| s.base_dir@ == join(home, "todo-log"@),
    {
        let home = home_dir();
        Storage::from_home(home)
    }

    /// Storage under the `todo-log` directory of `home`; an error when there is no home.
    pub fn from_home(home: Option<String>) -> (r: Result<Self, StorageError>)
        ensures
            match home {
                Some(h) => r matches Ok(s) && s.base_dir@ == join(h@, "todo-log"@),
                None => r == Err::<Storage, StorageError>(StorageError::NoHomeDirectory),
            },
    {
        match home {
            Some(h) => Ok(Storage { base_dir: join_path(h.as_str(), "todo-log") }),
            None => Err(StorageError::NoHomeDirectory),
        }
    }

    /// Storage under `base_dir`.
    pub fn with_base_dir(base_dir: String) -> (r: Self)
        ensures
            r.base_dir == base_dir,
    {
        Storage { base_dir }
    }

    /// The file that lists the projects.
    pub fn projects_file(&self) -> (r: String)
        ensures
            r@ == join(self.base_dir@, "projects.yml"@),
    {
        join_path(self.base_dir.as_str(), "projects.yml")
    }

    /// The file that lists the people.
    pub fn people_file(&self) -> (r: String)
        ensures
            r@ == join(self.base_dir@, "people.yml"@),
    {
        join_path(self.base_dir.as_str(), "people.yml")
    }

    /// The configuration file.
    pub fn config_file(&self) -> (r: String)
        ensures
            r@ == join(self.base_dir@, "config.yml"@),
    {
        join_path(self.base_dir.as_str(), "config.yml")
    }

    /// The entries of the notes read from disk, given as (path, text) pairs,
    /// from the newest to the oldest, entries of the same instant in the order
    /// of `notes`; `now` stamps each entry whose directory name gives no time.
    pub fn load_all_logs(notes: &Vec<(String, String)>, now: Timestamp) -> (r: Vec<LogEntry>)
        ensures
            newest_first(r@),
            exists|parsed: Seq<LogEntry>, from: Seq<int>|
                {
                    &&& parsed.len() == notes@.len()
                    &&& forall|j: int|
                        0 <= j < notes@.len() ==> #[trigger] parsed[j].parsed_from(
                            notes@[j].1@,
                            notes@[j].0@,
                        )
                    &&& r@.to_multiset() == parsed.to_multiset()
                    &&& #[trigger] drawn_in_order(r@, parsed, from)
                },
    {
        let mut entries: Vec<LogEntry> = Vec::new();
        let mut i: usize = 0;
        while i < notes.len()
            invariant
                i <= notes@.len(),
                entries@.len() == i,
                forall|j: int|
                    0 <= j < i ==> #[trigger] entries@[j].parsed_from(notes@[j].1@, notes@[j].0@),
            decreases notes@.len() - i,
        {
            let (path, text) = &notes[i];
            entries.push(LogEntry::parse(text.as_str(), path.as_str(), now));
            i = i + 1;
        }
        let ghost parsed = entries@;
        let r = sort_newest_first(entries);
        let ghost from = choose|from: Seq<int>| drawn_in_order(r@, parsed, from);
        assert(drawn_in_order(r@, parsed, from));
        r
    }

    /// The todos of all `logs`, entry after entry, each entry's in the order of its lines.
    pub fn load_all_todos(logs: Vec<LogEntry>) -> (r: Vec<Todo>)
        ensures
            r@ == all_todos(logs@),
    {
        let ghost whole = logs@;
        let mut rest = logs;
        let mut r: Vec<Todo> = Vec::new();
        while rest.len() > 0
            invariant
                r@ + all_todos(rest@) == all_todos(whole),
            decreases rest.len(),
        {
            let ghost before = rest@;
            let mut entry = rest.remove(0);
            assert(rest@ =~= before.drop_first());
            r.append(&mut entry.todos);
            assert(r@ + all_todos(rest@) =~= all_todos(whole));
        }
        assert(r@ + all_todos(rest@) =~= r@);
        r
    }
}

} // verus!
