//! Laws that relate several store operations, proved once and for all
//! over the store's view.

use vstd::prelude::*;
use crate::task::TaskView;
use crate::todo_list::{
    contains_name, find_spec, lemma_find_spec_contains, lemma_remove_name_noop,
    lemma_remove_unique, name_ne, remove_name, unique_names, with_completed, with_date,
};

verus! {

/// A task appended under a fresh name is what a later lookup of that
/// name finds.
pub proof fn lemma_find_pushed(s: Seq<TaskView>, t: TaskView, n: Seq<char>)
    requires
        !contains_name(s, n),
        t.name == n,
    ensures
        find_spec(s.push(t), n) == Some(t),
    decreases s.len(),
{
    let p = s.push(t);
    if s.len() == 0 {
        assert(p[0] == t);
    } else {
        assert(p[0] == s[0]);
        assert(s[0].name != n);
        assert(p.drop_first() =~= s.drop_first().push(t));
        assert(!contains_name(s.drop_first(), n)) by {
            if contains_name(s.drop_first(), n) {
                let i = choose|i: int|
                    0 <= i < s.drop_first().len() && s.drop_first()[i].name == n;
                assert(s[i + 1] == s.drop_first()[i]);
            }
        }
        lemma_find_pushed(s.drop_first(), t, n);
    }
}

/// Adding a task whose name is not yet present and then looking that
/// name up finds exactly the task that was added, with its date
/// defaulted when it was empty.
pub proof fn lemma_add_then_find(s: Seq<TaskView>, t: TaskView, d: Seq<char>)
    requires
        !contains_name(s, t.name),
    ensures
        find_spec(s.push(with_date(t, d)), t.name) == Some(with_date(t, d)),
{
    lemma_find_pushed(s, with_date(t, d), t.name);
}

/// Removing a present name from a store with unique names shrinks the
/// store by exactly one task, and the name is no longer found.
pub proof fn lemma_remove_props(s: Seq<TaskView>, n: Seq<char>)
    requires
        unique_names(s),
        contains_name(s, n),
    ensures
        remove_name(s, n).len() == s.len() - 1,
        find_spec(remove_name(s, n), n) is None,
{
    lemma_remove_unique(s, n);
    lemma_find_spec_contains(remove_name(s, n), n);
}

/// Completing a task and then uncompleting it changes no field but the
/// completion flag, which ends false, and the task's position, which
/// moves to the end; where the task was not completed to begin with,
/// the store afterwards holds exactly the same records.
pub proof fn lemma_complete_then_uncomplete(s: Seq<TaskView>, n: Seq<char>)
    requires
        unique_names(s),
        contains_name(s, n),
    ensures
        match find_spec(s, n) {
            Some(t) => ({
                let s1 = remove_name(s, n).push(with_completed(t, true));
                let s2 = remove_name(s1, n).push(with_completed(t, false));
                &&& find_spec(s1, n) == Some(with_completed(t, true))
                &&& s2 == remove_name(s, n).push(with_completed(t, false))
                &&& s2.to_multiset() == s.to_multiset().remove(t).insert(with_completed(t, false))
                &&& (t.completed == false ==> s2.to_multiset() == s.to_multiset())
            }),
            None => false,
        },
{
    broadcast use vstd::seq_lib::group_to_multiset_ensures;
    broadcast use vstd::seq::Seq::lemma_filter_push;

    lemma_find_spec_contains(s, n);
    let t = find_spec(s, n)->Some_0;
    lemma_remove_unique(s, n);
    let rm = remove_name(s, n);
    let t1 = with_completed(t, true);
    let s1 = rm.push(t1);
    lemma_find_pushed(rm, t1, n);
    assert(remove_name(s1, n) == rm) by {
        assert(name_ne(n)(t1) == false);
        assert(s1.filter(name_ne(n)) == rm.filter(name_ne(n)));
        lemma_remove_name_noop(rm, n);
    }
    let t0 = with_completed(t, false);
    let s2 = rm.push(t0);
    assert(s2.to_multiset() == rm.to_multiset().insert(t0));
    assert(rm.to_multiset() =~= s.to_multiset().remove(t)) by {
        assert(s.to_multiset() == rm.to_multiset().insert(t));
    }
    if t.completed == false {
        assert(t0 == t);
        assert(s2.to_multiset() =~= s.to_multiset()) by {
            assert(s.to_multiset().count(t) > 0) by {
                assert(s.contains(t));
            }
        }
    }
}

/// A task appended under a fresh name keeps the store's names unique,
/// so the add, update, complete and uncomplete operations preserve the
/// store's invariant.
pub proof fn lemma_push_fresh_unique(s: Seq<TaskView>, t: TaskView)
    requires
        unique_names(s),
        !contains_name(s, t.name),
    ensures
        unique_names(s.push(t)),
{
    let p = s.push(t);
    assert forall|i: int, j: int| 0 <= i < j < p.len() implies p[i].name != p[j].name by {
        if j == p.len() - 1 {
            if p[i].name == t.name {
                assert(s[i] == p[i]);
                assert(contains_name(s, t.name));
            }
        }
    }
}

/// Removing a name keeps the remaining names unique, so the remove and
/// clear operations preserve the store's invariant.
pub proof fn lemma_remove_keeps_unique(s: Seq<TaskView>, n: Seq<char>)
    requires
        unique_names(s),
    ensures
        unique_names(remove_name(s, n)),
    decreases s.len(),
{
    broadcast use vstd::seq::Seq::lemma_filter_push;
    broadcast use vstd::seq_lib::group_filter_ensures;

    if s.len() == 0 {
        reveal(Seq::filter);
        assert(remove_name(s, n) =~= s);
    } else {
        let s0 = s.drop_last();
        let x = s.last();
        assert(unique_names(s0)) by {
            assert(forall|i: int, j: int|
                0 <= i < j < s0.len() ==> s0[i] == s[i] && s0[j] == s[j]);
        }
        lemma_remove_keeps_unique(s0, n);
        assert(s =~= s0.push(x));
        let rm0 = remove_name(s0, n);
        if name_ne(n)(x) {
            assert(remove_name(s, n) == rm0.push(x));
            assert(!contains_name(rm0, x.name)) by {
                if contains_name(rm0, x.name) {
                    let i = choose|i: int| 0 <= i < rm0.len() && rm0[i].name == x.name;
                    assert(rm0.contains(rm0[i]));
                    s0.lemma_filter_contains_rev(name_ne(n), rm0[i]);
                    assert(s0.contains(rm0[i]));
                    let k = choose|k: int| 0 <= k < s0.len() && s0[k] == rm0[i];
                    assert(s[k] == s0[k]);
                    assert(s[k].name == s.last().name);
                }
            }
            lemma_push_fresh_unique(rm0, x);
        } else {
            assert(remove_name(s, n) == rm0);
        }
    }
}

} // verus!
