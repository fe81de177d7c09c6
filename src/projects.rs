//! The project list: filtering by group, the order in which groups are
//! shown, and the names of the groups.
//!
//! Projects without a group are shown under "(No group)", after every other
//! group; the other groups are shown in the order of their names, and within
//! a group projects keep their order.
use vstd::prelude::*;
use crate::filter::contains_name;
use crate::models::Project;
use crate::parser::{names, same_chars};
use crate::text::{chars_of, string_of, views};

verus! {

/// Whether `a` comes before `b` in the order of `str`'s comparison: by the
/// first differing character (by code point), a proper prefix first.
pub open spec fn lex_lt(a: Seq<char>, b: Seq<char>) -> bool
    decreases a.len(),
{
    if a.len() == 0 {
        b.len() > 0
    } else if b.len() == 0 {
        false
    } else if a[0] != b[0] {
        a[0] < b[0]
    } else {
        lex_lt(a.drop_first(), b.drop_first())
    }
}

/// The name under which projects of group `g` are shown.
pub open spec fn group_key(g: Seq<char>) -> Seq<char> {
    if g.len() == 0 {
        "(No group)"@
    } else {
        g
    }
}

/// Whether projects of group `a` are shown before those of group `b`.
pub open spec fn group_before(a: Seq<char>, b: Seq<char>) -> bool {
    if group_key(a) == "(No group)"@ {
        false
    } else if group_key(b) == "(No group)"@ {
        true
    } else {
        lex_lt(group_key(a), group_key(b))
    }
}

pub proof fn lemma_lex_order(a: Seq<char>, b: Seq<char>, c: Seq<char>)
    ensures
        !lex_lt(a, a),
        lex_lt(a, b) ==> !lex_lt(b, a),
        a != b ==> lex_lt(a, b) || lex_lt(b, a),
        lex_lt(a, b) && lex_lt(b, c) ==> lex_lt(a, c),
    decreases a.len(),
{
    if a.len() == 0 && b.len() == 0 {
        assert(a =~= b);
    }
    if a.len() > 0 {
        let a1 = a.drop_first();
        lemma_lex_order(a1, a1, a1);
        if b.len() > 0 {
            let b1 = b.drop_first();
            let c1 = if c.len() > 0 {
                c.drop_first()
            } else {
                a1
            };
            lemma_lex_order(a1, b1, c1);
            if a[0] == b[0] && a != b {
                assert(a1 != b1) by {
                    if a1 == b1 {
                        assert(a =~= seq![a[0]] + a1);
                        assert(b =~= seq![b[0]] + b1);
                    }
                }
            }
        }
    }
}

proof fn lemma_group_order(a: Seq<char>, b: Seq<char>, c: Seq<char>)
    ensures
        group_before(a, b) ==> !group_before(b, a),
        !group_before(a, b) && !group_before(b, a) ==> group_key(a) == group_key(b),
        group_before(a, b) && group_before(b, c) ==> group_before(a, c),
        group_key(a) == group_key(b) ==> (group_before(a, c) == group_before(b, c)),
{
    lemma_lex_order(group_key(a), group_key(b), group_key(c));
}

/// Whether `a` comes before `b`, character by character.
pub fn lex_less(a: &Vec<char>, b: &Vec<char>) -> (r: bool)
    ensures
        r == lex_lt(a@, b@),
{
    let mut i: usize = 0;
    assert(a@.skip(0) =~= a@);
    assert(b@.skip(0) =~= b@);
    while i < a.len() && i < b.len() && a[i] == b[i]
        invariant
            i <= a.len(),
            i <= b.len(),
            lex_lt(a@, b@) == lex_lt(a@.skip(i as int), b@.skip(i as int)),
        decreases a.len() - i,
    {
        assert(a@.skip(i as int).drop_first() =~= a@.skip(i + 1));
        assert(b@.skip(i as int).drop_first() =~= b@.skip(i + 1));
        i = i + 1;
    }
    if i == a.len() {
        i < b.len()
    } else if i == b.len() {
        false
    } else {
        a[i] < b[i]
    }
}

/// The name under which projects of group `g` are shown.
fn group_key_exec(g: &String) -> (r: Vec<char>)
    ensures
        r@ == group_key(g@),
{
    let v = chars_of(g.as_str());
    if v.len() == 0 {
        chars_of("(No group)")
    } else {
        v
    }
}

/// Whether projects of group `a` are shown before those of group `b`.
pub fn shown_before(a: &String, b: &String) -> (r: bool)
    ensures
        r == group_before(a@, b@),
{
    let none = chars_of("(No group)");
    let ka = group_key_exec(a);
    let kb = group_key_exec(b);
    if same_chars(&ka, &none) {
        false
    } else if same_chars(&kb, &none) {
        true
    } else {
        lex_less(&ka, &kb)
    }
}

/// The indices, in order, of the first `n` projects whose group is among
/// `groups`, or of all of them when `groups` is empty.
pub open spec fn in_groups(projects: Seq<Project>, groups: Seq<Seq<char>>, n: int) -> Seq<usize>
    decreases n,
{
    if n <= 0 {
        Seq::empty()
    } else {
        let acc = in_groups(projects, groups, n - 1);
        if groups.len() == 0 || groups.contains(projects[n - 1].group@) {
            acc.push((n - 1) as usize)
        } else {
            acc
        }
    }
}

/// Whether the projects at indices `order` are in display order, projects of
/// the same group by increasing index.
pub open spec fn in_display_order(projects: Seq<Project>, order: Seq<usize>) -> bool {
    forall|i: int, j: int|
        #![trigger order[i], order[j]]
        0 <= i < j < order.len() ==> {
            let (a, b) = (projects[order[i] as int].group@, projects[order[j] as int].group@);
            &&& !group_before(b, a)
            &&& group_key(a) == group_key(b) ==> order[i] < order[j]
        }
}

/// The projects to list: the indices of those whose group is among `groups`
/// (all when `groups` is empty), groups in display order, and within a group
/// in the order of `projects`.
pub fn project_view(projects: &Vec<Project>, groups: &Vec<String>) -> (r: Vec<usize>)
    ensures
        r@.to_multiset() == in_groups(projects@, names(groups@), projects@.len() as int).to_multiset(),
        in_display_order(projects@, r@),
        forall|i: int| 0 <= i < r@.len() ==> r@[i] < projects@.len(),
{
    broadcast use vstd::seq_lib::group_to_multiset_ensures, vstd::multiset::group_multiset_axioms;

    let mut out: Vec<usize> = Vec::new();
    let mut i: usize = 0;
    while i < projects.len()
        invariant
            i <= projects@.len(),
            out@.to_multiset() == in_groups(projects@, names(groups@), i as int).to_multiset(),
            in_display_order(projects@, out@),
            forall|k: int| 0 <= k < out@.len() ==> out@[k] < i,
        decreases projects@.len() - i,
    {
        let keep = groups.len() == 0 || contains_name(groups, &projects[i].group);
        let ghost before = in_groups(projects@, names(groups@), i as int);
        assert(in_groups(projects@, names(groups@), i + 1) == if keep {
            before.push(i)
        } else {
            before
        });
        if keep {
            let ghost out0 = out@;
            let mut p: usize = 0;
            while p < out.len() && !shown_before(&projects[i].group, &projects[out[p]].group)
                invariant
                    i < projects@.len(),
                    p <= out@.len(),
                    out@ == out0,
                    forall|k: int| 0 <= k < out@.len() ==> out@[k] < i,
                    forall|k: int|
                        0 <= k < p ==> !group_before(
                            projects@[i as int].group@,
                            projects@[out@[k] as int].group@,
                        ),
                decreases out@.len() - p,
            {
                p = p + 1;
            }
            out.insert(p, i);
            proof {
                vstd::seq_lib::to_multiset_insert(out0, p as int, i);
                vstd::seq_lib::to_multiset_build(before, i);
                let g = projects@[i as int].group@;
                assert forall|a: int, b: int|
                    #![trigger out@[a], out@[b]]
                    0 <= a < b < out@.len() implies {
                    let (x, y) = (projects@[out@[a] as int].group@, projects@[out@[b] as int].group@);
                    &&& !group_before(y, x)
                    &&& group_key(x) == group_key(y) ==> out@[a] < out@[b]
                } by {
                    if b < p {
                        assert(out@[a] == out0[a] && out@[b] == out0[b]);
                    } else if b == p {
                        assert(out@[a] == out0[a]);
                        let x = projects@[out0[a] as int].group@;
                        lemma_group_order(g, x, x);
                    } else if a < p {
                        assert(out@[a] == out0[a] && out@[b] == out0[b - 1]);
                    } else if a == p {
                        assert(out@[b] == out0[b - 1]);
                        let y = projects@[out0[b - 1] as int].group@;
                        let z = projects@[out0[p as int] as int].group@;
                        assert(group_before(g, z));
                        lemma_group_order(y, g, z);
                        lemma_group_order(g, y, z);
                        if b - 1 > p {
                            assert(!group_before(y, z));
                        }
                    } else {
                        assert(out@[a] == out0[a - 1] && out@[b] == out0[b - 1]);
                    }
                }
            }
        }
        i = i + 1;
    }
    out
}

/// The groups of the first `n` projects.
pub open spec fn seen_groups(projects: Seq<Project>, n: int) -> Set<Seq<char>>
    decreases n,
{
    if n <= 0 {
        Set::empty()
    } else {
        seen_groups(projects, n - 1).insert(projects[n - 1].group@)
    }
}

/// Whether each name in `s` comes before the next.
pub open spec fn strictly_ordered(s: Seq<Seq<char>>) -> bool {
    forall|i: int, j: int| 0 <= i < j < s.len() ==> lex_lt(#[trigger] s[i], #[trigger] s[j])
}

/// The names of the groups of `projects`, each once and in order, with
/// "(No group)" last in place of the empty group if some project has none.
pub fn all_group_names(projects: &Vec<Project>) -> (r: Vec<String>)
    ensures
        ({
            let groups = seen_groups(projects@, projects@.len() as int);
            let has_none = groups.contains(Seq::empty());
            let named = if has_none {
                names(r@).drop_last()
            } else {
                names(r@)
            };
            &&& strictly_ordered(named)
            &&& named.to_set() == groups.remove(Seq::empty())
            &&& has_none ==> r@.len() > 0 && r@.last()@ == "(No group)"@
        }),
{
    let mut sorted: Vec<Vec<char>> = Vec::new();
    let mut has_none = false;
    let mut i: usize = 0;
    while i < projects.len()
        invariant
            i <= projects@.len(),
            strictly_ordered(views(sorted@)),
            views(sorted@).to_set() == seen_groups(projects@, i as int).remove(Seq::empty()),
            has_none == seen_groups(projects@, i as int).contains(Seq::empty()),
        decreases projects@.len() - i,
    {
        let g = chars_of(projects[i].group.as_str());
        if g.len() == 0 {
            has_none = true;
            assert(g@ =~= Seq::<char>::empty());
            assert(seen_groups(projects@, i + 1).remove(Seq::empty()) =~= seen_groups(
                projects@,
                i as int,
            ).remove(Seq::empty()));
        } else {
            let ghost old_s = views(sorted@);
            let mut p: usize = 0;
            while p < sorted.len() && lex_less(&sorted[p], &g)
                invariant
                    p <= sorted@.len(),
                    views(sorted@) == old_s,
                    forall|k: int| 0 <= k < p ==> lex_lt(old_s[k], g@),
                decreases sorted@.len() - p,
            {
                p = p + 1;
            }
            if p < sorted.len() && same_chars(&sorted[p], &g) {
                assert(old_s.contains(g@)) by {
                    assert(old_s[p as int] == g@);
                }
                assert(seen_groups(projects@, i + 1).remove(Seq::empty()) =~= old_s.to_set());
            } else {
                sorted.insert(p, g);
                let ghost new_s = views(sorted@);
                assert(new_s =~= old_s.insert(p as int, g@));
                proof {
                    if p < old_s.len() {
                        lemma_lex_order(g@, old_s[p as int], old_s[p as int]);
                    }
                    assert forall|a: int, b: int| 0 <= a < b < new_s.len() implies lex_lt(
                        #[trigger] new_s[a],
                        #[trigger] new_s[b],
                    ) by {
                        if b < p {
                        } else if b == p {
                        } else if a < p {
                            assert(new_s[b] == old_s[b - 1]);
                        } else if a == p {
                            assert(new_s[b] == old_s[b - 1]);
                            if b - 1 > p {
                                assert(lex_lt(old_s[p as int], old_s[b - 1]));
                                lemma_lex_order(g@, old_s[p as int], old_s[b - 1]);
                            }
                        } else {
                            assert(new_s[a] == old_s[a - 1] && new_s[b] == old_s[b - 1]);
                        }
                    }
                    assert forall|x: Seq<char>| new_s.contains(x) <==> old_s.contains(x) || x
                        == g@ by {
                        if new_s.contains(x) {
                            let k = choose|k: int| 0 <= k < new_s.len() && new_s[k] == x;
                            if k < p {
                                assert(old_s[k] == x);
                            } else if k > p {
                                assert(old_s[k - 1] == x);
                            }
                        }
                        if old_s.contains(x) {
                            let k = choose|k: int| 0 <= k < old_s.len() && old_s[k] == x;
                            if k < p {
                                assert(new_s[k] == x);
                            } else {
                                assert(new_s[k + 1] == x);
                            }
                        }
                        if x == g@ {
                            assert(new_s[p as int] == x);
                        }
                    }
                    assert(g@ != Seq::<char>::empty());
                    assert(seen_groups(projects@, i + 1) == seen_groups(projects@, i as int).insert(
                        g@,
                    ));
                    assert forall|x: Seq<char>| new_s.to_set().contains(x) <==> seen_groups(
                        projects@,
                        i + 1,
                    ).remove(Seq::empty()).contains(x) by {
                        assert(old_s.to_set().contains(x) <==> old_s.contains(x));
                        assert(new_s.to_set().contains(x) <==> new_s.contains(x));
                    }
                    assert(new_s.to_set() =~= seen_groups(projects@, i + 1).remove(Seq::empty()));
                }
            }
        }
        i = i + 1;
    }
    let mut r: Vec<String> = Vec::new();
    let mut k: usize = 0;
    while k < sorted.len()
        invariant
            k <= sorted@.len(),
            names(r@) == views(sorted@).take(k as int),
        decreases sorted@.len() - k,
    {
        let ghost before = names(r@);
        r.push(string_of(sorted[k].as_slice()));
        assert(names(r@) =~= before.push(sorted@[k as int]@));
        assert(views(sorted@).take(k + 1) =~= views(sorted@).take(k as int).push(sorted@[k as int]@));
        k = k + 1;
    }
    assert(views(sorted@).take(k as int) =~= views(sorted@));
    if has_none {
        let ghost before = names(r@);
        r.push(String::from_str("(No group)"));
        assert(names(r@).drop_last() =~= before);
    }
    r
}

/// Takes group `group` out of the group filter if it is there, else adds it;
/// "(No group)" stands for the empty group.
pub fn toggle_group(groups: &mut Vec<String>, group: &str)
    ensures
        names(final(groups)@) == crate::filter::toggled(
            names(old(groups)@),
            if group@ == "(No group)"@ {
                Seq::empty()
            } else {
                group@
            },
        ),
{
    let g = chars_of(group);
    let none = chars_of("(No group)");
    if same_chars(&g, &none) {
        proof {
            reveal_strlit("");
        }
        crate::filter::toggle_name(groups, "");
        assert(""@ =~= Seq::<char>::empty());
    } else {
        crate::filter::toggle_name(groups, group);
    }
}

} // verus!
