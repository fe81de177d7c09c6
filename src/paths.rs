//! File paths as text, with `/` between components. As for `std::path::Path`,
//! empty pieces (from repeated or trailing slashes) and `.` are no components.
use vstd::prelude::*;
use crate::text::{chars_of, string_of, views};

verus! {

/// Whether a piece between slashes counts as a component of a path: it is
/// neither empty (as between repeated slashes or after a trailing one) nor `.`.
pub open spec fn is_component(part: Seq<char>) -> bool {
    part.len() > 0 && part != seq!['.']
}

/// The components finished so far, and the piece being read, after reading `s`.
pub open spec fn part_scan(s: Seq<char>) -> (Seq<Seq<char>>, Seq<char>)
    decreases s.len(),
{
    if s.len() == 0 {
        (Seq::empty(), Seq::empty())
    } else {
        let (ps, cur) = part_scan(s.drop_last());
        if s.last() == '/' {
            if is_component(cur) {
                (ps.push(cur), Seq::empty())
            } else {
                (ps, Seq::empty())
            }
        } else {
            (ps, cur.push(s.last()))
        }
    }
}

/// The components of path `p`, in order.
pub open spec fn components(p: Seq<char>) -> Seq<Seq<char>> {
    let (ps, cur) = part_scan(p);
    if is_component(cur) {
        ps.push(cur)
    } else {
        ps
    }
}

/// The name of the directory that holds the file at `p`, if `p` names one:
/// the next-to-last component, unless that is `..`.
pub open spec fn parent_name(p: Seq<char>) -> Option<Seq<char>> {
    let cs = components(p);
    if cs.len() >= 2 && cs[cs.len() - 2] != seq!['.', '.'] {
        Some(cs[cs.len() - 2])
    } else {
        None
    }
}

/// `name` appended to `base` with a `/` between them, unless `base` is empty
/// or already ends with one.
pub open spec fn join(base: Seq<char>, name: Seq<char>) -> Seq<char> {
    if base.len() == 0 || base.last() == '/' {
        base + name
    } else {
        base + seq!['/'] + name
    }
}

/// Whether `part` counts as a component of a path.
fn is_component_exec(part: &Vec<char>) -> (r: bool)
    ensures
        r == is_component(part@),
{
    if part.len() == 0 {
        return false;
    }
    if part.len() == 1 && part[0] == '.' {
        assert(part@ =~= seq!['.']);
        return false;
    }
    assert(part@ != seq!['.']) by {
        if part@ == seq!['.'] {
            assert(part@.len() == 1 && part@[0] == '.');
        }
    }
    true
}

/// The components of `path`, in order.
fn components_exec(path: &Vec<char>) -> (r: Vec<Vec<char>>)
    ensures
        views(r@) == components(path@),
{
    let mut parts: Vec<Vec<char>> = Vec::new();
    let mut cur: Vec<char> = Vec::new();
    let mut i: usize = 0;
    assert(path@.take(0) =~= Seq::<char>::empty());
    while i < path.len()
        invariant
            i <= path.len(),
            views(parts@) == part_scan(path@.take(i as int)).0,
            cur@ == part_scan(path@.take(i as int)).1,
        decreases path.len() - i,
    {
        assert(path@.take(i + 1).drop_last() =~= path@.take(i as int));
        let c = path[i];
        if c == '/' {
            if is_component_exec(&cur) {
                let ghost before = views(parts@);
                parts.push(cur);
                assert(views(parts@) =~= before.push(part_scan(path@.take(i as int)).1));
            }
            cur = Vec::new();
        } else {
            cur.push(c);
        }
        i = i + 1;
    }
    assert(path@.take(i as int) =~= path@);
    if is_component_exec(&cur) {
        let ghost before = views(parts@);
        parts.push(cur);
        assert(views(parts@) =~= before.push(part_scan(path@).1));
    }
    parts
}

/// The name of the directory that holds the file at `path`, if `path` names one.
pub fn parent_dir_name(path: &str) -> (r: Option<String>)
    ensures
        match r {
            Some(n) => parent_name(path@) == Some(n@),
            None => parent_name(path@) is None,
        },
{
    let p = chars_of(path);
    let cs = components_exec(&p);
    let n = cs.len();
    if n < 2 {
        return None;
    }
    let dir = &cs[n - 2];
    assert(views(cs@)[n - 2] == dir@);
    if dir.len() == 2 && dir[0] == '.' && dir[1] == '.' {
        assert(dir@ =~= seq!['.', '.']);
        return None;
    }
    assert(dir@ != seq!['.', '.']) by {
        if dir@ == seq!['.', '.'] {
            assert(dir@.len() == 2 && dir@[0] == '.' && dir@[1] == '.');
        }
    }
    Some(string_of(dir.as_slice()))
}

/// `name` appended to `base` with a `/` between them, unless `base` is empty
/// or already ends with one.
pub fn join_path(base: &str, name: &str) -> (r: String)
    ensures
        r@ == join(base@, name@),
{
    let b = chars_of(base);
    let mut r = String::from_str(base);
    if b.len() > 0 && b[b.len() - 1] != '/' {
        r.append("/");
        proof {
            reveal_strlit("/");
        }
    }
    r.append(name);
    r
}

} // verus!
