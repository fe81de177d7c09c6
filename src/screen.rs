//! The screens of the journal, the panels open on them, moving between
//! screens, and what the attachment browser lists.
use vstd::prelude::*;
use crate::projects::{lemma_lex_order, lex_less, lex_lt};
use crate::text::{chars_of, lowercase_of, to_lowercase};

verus! {

/// The screen being shown.
#[derive(Debug, Clone, PartialEq)]
pub enum Screen {
    Menu,
    LogEntry,
    TodoList,
    LogList,
    /// The entry kept at this path.
    ViewLog(String),
    ProjectList,
    /// The project at this index of the project list.
    ProjectDetails(usize),
    /// A new project, or the one at this index of the project list.
    ProjectEdit(Option<usize>),
}

impl Screen {
    /// The same screen.
    pub fn copy(&self) -> (r: Screen)
        ensures
            r == *self,
    {
        match self {
            Screen::Menu => Screen::Menu,
            Screen::LogEntry => Screen::LogEntry,
            Screen::TodoList => Screen::TodoList,
            Screen::LogList => Screen::LogList,
            Screen::ViewLog(p) => Screen::ViewLog(p.clone()),
            Screen::ProjectList => Screen::ProjectList,
            Screen::ProjectDetails(i) => Screen::ProjectDetails(*i),
            Screen::ProjectEdit(i) => Screen::ProjectEdit(*i),
        }
    }
}

/// Which filter panel is open in the log list.
#[derive(Debug, Clone, Copy, PartialEq, Eq)]
pub enum LogFilterPanel {
    Closed,
    StartDate,
    EndDate,
    Projects,
    People,
}

/// Which filter panel is open in the todo list.
#[derive(Debug, Clone, Copy, PartialEq, Eq)]
pub enum TodoFilterPanel {
    Closed,
    Completed,
    Projects,
    People,
}

/// Which filter panel is open in the project list.
#[derive(Debug, Clone, Copy, PartialEq, Eq)]
pub enum ProjectFilterPanel {
    Closed,
    Groups,
}

/// A file or directory offered by the attachment browser.
#[derive(Debug, Clone)]
pub struct FileEntry {
    pub name: String,
    pub path: String,
    pub is_dir: bool,
    pub size: u64,
}

/// The screen shown, the one shown before it, and the selected menu item.
#[derive(Debug, Clone)]
pub struct Navigation {
    pub screen: Screen,
    pub previous_screen: Option<Screen>,
    pub menu_selected: usize,
}

impl Navigation {
    /// The menu, with its first item selected and nothing before it.
    pub fn new() -> (r: Self)
        ensures
            r.screen == Screen::Menu,
            r.previous_screen is None,
            r.menu_selected == 0,
    {
        Navigation { screen: Screen::Menu, previous_screen: None, menu_selected: 0 }
    }

    /// Shows `screen`, remembering the one shown now; the menu opens on its first item.
    pub fn go_to_screen(&mut self, screen: Screen)
        ensures
            final(self).screen == screen,
            final(self).previous_screen == Some(old(self).screen),
            final(self).menu_selected == if screen is Menu {
                0
            } else {
                old(self).menu_selected
            },
    {
        let is_menu = match screen {
            Screen::Menu => true,
            _ => false,
        };
        self.previous_screen = Some(self.screen.copy());
        self.screen = screen;
        if is_menu {
            self.menu_selected = 0;
        }
    }

    /// Shows the screen shown before, or the menu if none is remembered; the
    /// menu opens on its first item.
    pub fn go_back(&mut self)
        ensures
            final(self).previous_screen is None,
            final(self).screen == match old(self).previous_screen {
                Some(p) => p,
                None => Screen::Menu,
            },
            final(self).menu_selected == if final(self).screen is Menu {
                0
            } else {
                old(self).menu_selected
            },
    {
        let previous = self.previous_screen.take();
        match previous {
            Some(p) => {
                let is_menu = match p {
                    Screen::Menu => true,
                    _ => false,
                };
                self.screen = p;
                if is_menu {
                    self.menu_selected = 0;
                }
            },
            None => {
                self.screen = Screen::Menu;
                self.menu_selected = 0;
            },
        }
    }
}

/// Whether the browser lists `a` before `b`: directories first, then by
/// lower-case name.
pub open spec fn listed_before(a: FileEntry, b: FileEntry) -> bool {
    (a.is_dir && !b.is_dir) || (a.is_dir == b.is_dir && lex_lt(
        lowercase_of(a.name@),
        lowercase_of(b.name@),
    ))
}

/// Whether a name is hidden: it starts with a dot.
pub open spec fn is_hidden(name: Seq<char>) -> bool {
    name.len() > 0 && name[0] == '.'
}

/// The entries of `s` that are not hidden, in order.
pub open spec fn visible(s: Seq<FileEntry>) -> Seq<FileEntry>
    decreases s.len(),
{
    if s.len() == 0 {
        s
    } else if is_hidden(s.last().name@) {
        visible(s.drop_last())
    } else {
        visible(s.drop_last()).push(s.last())
    }
}

/// Whether the browser ranks `a` and `b` alike: both directories or both
/// files, with the same lower-case name.
pub open spec fn same_rank(a: FileEntry, b: FileEntry) -> bool {
    a.is_dir == b.is_dir && lowercase_of(a.name@) == lowercase_of(b.name@)
}

/// Whether entry `k` of `r` is entry `from[k]` of `entries`, with entries of
/// the same rank drawn in the order in which `entries` holds them.
pub open spec fn drawn_by_rank(r: Seq<FileEntry>, entries: Seq<FileEntry>, from: Seq<int>) -> bool {
    &&& from.len() == r.len()
    &&& forall|k: int| 0 <= k < r.len() ==> 0 <= from[k] < entries.len() && r[k] == entries[from[k]]
    &&& forall|k: int, l: int| 0 <= k < l < r.len() && same_rank(r[k], r[l]) ==> from[k] < from[l]
}

proof fn lemma_rank(a: FileEntry, b: FileEntry, c: FileEntry)
    ensures
        same_rank(a, b) ==> !listed_before(a, b),
        same_rank(a, b) ==> (listed_before(a, c) == listed_before(b, c)),
{
    lemma_lex_order(lowercase_of(a.name@), lowercase_of(b.name@), lowercase_of(c.name@));
}

impl FileEntry {
    /// What the attachment browser lists of a directory's `entries`: those
    /// not hidden, directories first, each part by lower-case name, entries
    /// of the same rank in their given order.
    pub fn listing(entries: Vec<FileEntry>) -> (r: Vec<FileEntry>)
        ensures
            r@.to_multiset() == visible(entries@).to_multiset(),
            forall|i: int, j: int|
                0 <= i < j < r@.len() ==> !listed_before(#[trigger] r@[j], #[trigger] r@[i]),
            exists|from: Seq<int>| #[trigger] drawn_by_rank(r@, entries@, from),
    {
        broadcast use vstd::seq_lib::group_to_multiset_ensures, vstd::multiset::group_multiset_axioms;

        let ghost whole = entries@;
        let mut rest = entries;
        let mut out: Vec<FileEntry> = Vec::new();
        let mut keys: Vec<Vec<char>> = Vec::new();
        let ghost mut done: Seq<FileEntry> = Seq::empty();
        let ghost mut from: Seq<int> = Seq::empty();
        while rest.len() > 0
            invariant
                whole == done + rest@,
                from.len() == out@.len(),
                forall|k: int|
                    #![trigger from[k]]
                    0 <= k < out@.len() ==> 0 <= from[k] < done.len() && out@[k] == whole[from[k]],
                forall|k: int, l: int|
                    #![trigger from[k], from[l]]
                    0 <= k < l < out@.len() && same_rank(out@[k], out@[l]) ==> from[k] < from[l],
                out@.to_multiset() == visible(done).to_multiset(),
                keys@.len() == out@.len(),
                forall|k: int| 0 <= k < out@.len() ==> #[trigger] keys@[k]@ == lowercase_of(out@[k].name@),
                forall|i: int, j: int|
                    0 <= i < j < out@.len() ==> !listed_before(#[trigger] out@[j], #[trigger] out@[i]),
            decreases rest.len(),
        {
            let ghost rest0 = rest@;
            let ghost at = done.len() as int;
            let e = rest.remove(0);
            proof {
                assert(whole[at] == e);
                assert(done.push(e) + rest@ =~= whole);
                assert(done.push(e).drop_last() =~= done);
                done = done.push(e);
            }
            let name = chars_of(e.name.as_str());
            if name.len() > 0 && name[0] == '.' {
                continue;
            }
            let key = chars_of(to_lowercase(e.name.as_str()).as_str());
            let ghost out0 = out@;
            let mut p: usize = 0;
            while p < out.len() && !((e.is_dir && !out[p].is_dir) || (e.is_dir == out[p].is_dir
                && lex_less(&key, &keys[p])))
                invariant
                    p <= out@.len(),
                    out@ == out0,
                    keys@.len() == out@.len(),
                    forall|k: int| 0 <= k < out@.len() ==> #[trigger] keys@[k]@ == lowercase_of(out@[k].name@),
                    key@ == lowercase_of(e.name@),
                    forall|k: int| 0 <= k < p ==> !listed_before(e, #[trigger] out0[k]),
                decreases out@.len() - p,
            {
                p = p + 1;
            }
            let ghost keys0 = keys@;
            let ghost from0 = from;
            out.insert(p, e);
            keys.insert(p, key);
            proof {
                from = from0.insert(p as int, at);
                assert forall|k: int|
                    #![trigger from[k]]
                    0 <= k < out@.len() implies 0 <= from[k] < done.len() && out@[k] == whole[from[k]] by {
                    if k < p {
                        assert(out@[k] == out0[k] && from[k] == from0[k]);
                    } else if k > p {
                        assert(out@[k] == out0[k - 1] && from[k] == from0[k - 1]);
                    } else {
                        assert(from[k] == at && out@[k] == e);
                    }
                }
                assert forall|k: int, l: int|
                    #![trigger from[k], from[l]]
                    0 <= k < l < out@.len() && same_rank(out@[k], out@[l]) implies from[k] < from[l] by {
                    if l < p {
                        assert(out@[k] == out0[k] && out@[l] == out0[l]);
                        assert(from[k] == from0[k] && from[l] == from0[l]);
                    } else if l == p {
                        assert(from[k] == from0[k]);
                    } else if k < p {
                        assert(out@[k] == out0[k] && out@[l] == out0[l - 1]);
                        assert(from[k] == from0[k] && from[l] == from0[l - 1]);
                    } else if k == p {
                        let y = out0[l - 1];
                        let z = out0[p as int];
                        assert(out@[l] == y);
                        assert(listed_before(e, z));
                        lemma_rank(e, y, z);
                        lemma_rank(y, e, z);
                        if l - 1 > p {
                            assert(!listed_before(y, z));
                        }
                    } else {
                        assert(out@[k] == out0[k - 1] && out@[l] == out0[l - 1]);
                        assert(from[k] == from0[k - 1] && from[l] == from0[l - 1]);
                    }
                }
                vstd::seq_lib::to_multiset_insert(out0, p as int, e);
                vstd::seq_lib::to_multiset_build(visible(done.drop_last()), e);
                assert forall|k: int| 0 <= k < out@.len() implies #[trigger] keys@[k]@ == lowercase_of(out@[k].name@) by {
                    if k < p {
                        assert(keys@[k] == keys0[k] && out@[k] == out0[k]);
                    } else if k > p {
                        assert(keys@[k] == keys0[k - 1] && out@[k] == out0[k - 1]);
                    }
                }
                assert forall|a: int, b: int| 0 <= a < b < out@.len() implies !listed_before(
                    #[trigger] out@[b],
                    #[trigger] out@[a],
                ) by {
                    if b < p {
                        assert(out@[a] == out0[a] && out@[b] == out0[b]);
                    } else if b == p {
                        assert(out@[a] == out0[a]);
                    } else if a < p {
                        assert(out@[a] == out0[a] && out@[b] == out0[b - 1]);
                    } else if a == p {
                        let y = out0[b - 1];
                        let z = out0[p as int];
                        assert(out@[b] == y);
                        assert(listed_before(e, z));
                        lemma_lex_order(lowercase_of(y.name@), lowercase_of(e.name@), lowercase_of(z.name@));
                        lemma_lex_order(lowercase_of(e.name@), lowercase_of(y.name@), lowercase_of(z.name@));
                        if b - 1 > p {
                            assert(!listed_before(y, z));
                        }
                    } else {
                        assert(out@[a] == out0[a - 1] && out@[b] == out0[b - 1]);
                    }
                }
            }
        }
        assert(done =~= whole);
        assert(drawn_by_rank(out@, whole, from));
        out
    }
}

} // verus!
