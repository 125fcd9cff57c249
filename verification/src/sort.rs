//! The save-time order: a stable sort of the task sequence, ascending by
//! date under character-wise lexicographic comparison.

use vstd::prelude::*;
use vstd::multiset::Multiset;
use crate::task::{Task, TaskView};
use crate::todo_list::task_views;
use crate::strings::str_chars;

verus! {

/// Lexicographic "less or equal" on character sequences, by code point.
pub open spec fn lex_le(a: Seq<char>, b: Seq<char>) -> bool
    decreases a.len(),
{
    if a.len() == 0 {
        true
    } else if b.len() == 0 {
        false
    } else if (a[0] as u32) < (b[0] as u32) {
        true
    } else if (a[0] as u32) > (b[0] as u32) {
        false
    } else {
        lex_le(a.drop_first(), b.drop_first())
    }
}

/// Any two character sequences compare one way or the other.
pub proof fn lemma_lex_le_total(a: Seq<char>, b: Seq<char>)
    ensures
        lex_le(a, b) || lex_le(b, a),
    decreases a.len(),
{
    if a.len() == 0 || b.len() == 0 {
    } else if a[0] as u32 == b[0] as u32 {
        lemma_lex_le_total(a.drop_first(), b.drop_first());
    }
}

/// Lexicographic comparison is transitive.
pub proof fn lemma_lex_le_trans(a: Seq<char>, b: Seq<char>, c: Seq<char>)
    requires
        lex_le(a, b),
        lex_le(b, c),
    ensures
        lex_le(a, c),
    decreases a.len(),
{
    if a.len() == 0 {
    } else {
        if a[0] as u32 == b[0] as u32 && b[0] as u32 == c[0] as u32 {
            lemma_lex_le_trans(a.drop_first(), b.drop_first(), c.drop_first());
        }
    }
}

/// Whether the dates of `s` are ascending.
pub open spec fn sorted_by_date(s: Seq<TaskView>) -> bool {
    forall|i: int, j: int| 0 <= i < j < s.len() ==> lex_le(s[i].date, s[j].date)
}

/// `t` placed into `s` after every element whose date compares less or
/// equal: the stable insertion position.
pub open spec fn insert_sorted(t: TaskView, s: Seq<TaskView>) -> Seq<TaskView>
    decreases s.len(),
{
    if s.len() == 0 {
        seq![t]
    } else if lex_le(s.last().date, t.date) {
        s.push(t)
    } else {
        insert_sorted(t, s.drop_last()).push(s.last())
    }
}

/// The stable sort of `s` ascending by date: each element inserted, in
/// original order, after every already-placed element it does not
/// strictly precede.
pub open spec fn sort_spec(s: Seq<TaskView>) -> Seq<TaskView>
    decreases s.len(),
{
    if s.len() == 0 {
        Seq::<TaskView>::empty()
    } else {
        insert_sorted(s.last(), sort_spec(s.drop_last()))
    }
}

/// Inserting into a sorted sequence keeps it sorted and adds exactly the
/// new element.
pub proof fn lemma_insert_sorted_props(t: TaskView, s: Seq<TaskView>)
    requires
        sorted_by_date(s),
    ensures
        sorted_by_date(insert_sorted(t, s)),
        insert_sorted(t, s).to_multiset() == s.to_multiset().insert(t),
        insert_sorted(t, s).len() == s.len() + 1,
    decreases s.len(),
{
    broadcast use vstd::seq_lib::group_to_multiset_ensures;

    if s.len() == 0 {
        assert(seq![t] =~= Seq::<TaskView>::empty().push(t));
        assert(Seq::<TaskView>::empty().to_multiset() =~= Multiset::<TaskView>::empty());
        assert(seq![t].to_multiset() =~= s.to_multiset().insert(t));
    } else if lex_le(s.last().date, t.date) {
        let r = s.push(t);
        assert(sorted_by_date(r)) by {
            assert forall|i: int, j: int| 0 <= i < j < r.len() implies lex_le(
                r[i].date,
                r[j].date,
            ) by {
                if j == r.len() - 1 {
                    if i < s.len() - 1 {
                        assert(lex_le(s[i].date, s.last().date));
                        lemma_lex_le_trans(s[i].date, s.last().date, t.date);
                    }
                }
            }
        }
    } else {
        let s0 = s.drop_last();
        assert(sorted_by_date(s0)) by {
            assert(forall|i: int, j: int|
                0 <= i < j < s0.len() ==> s0[i] == s[i] && s0[j] == s[j]);
        }
        lemma_insert_sorted_props(t, s0);
        let r0 = insert_sorted(t, s0);
        let r = r0.push(s.last());
        lemma_lex_le_total(s.last().date, t.date);
        assert(lex_le(t.date, s.last().date));
        assert(sorted_by_date(r)) by {
            assert forall|i: int, j: int| 0 <= i < j < r.len() implies lex_le(
                r[i].date,
                r[j].date,
            ) by {
                if j == r.len() - 1 {
                    // r[i] is either an element of s0, or t itself
                    assert(r[i] == r0[i]);
                    assert(r0.to_multiset().count(r0[i]) > 0);
                    if r0[i] == t {
                        assert(lex_le(t.date, s.last().date));
                    } else {
                        assert(s0.to_multiset().insert(t).count(r0[i]) > 0);
                        assert(s0.to_multiset().count(r0[i]) > 0);
                        assert(s0.contains(r0[i]));
                        let k = choose|k: int| 0 <= k < s0.len() && s0[k] == r0[i];
                        assert(s[k] == s0[k]);
                        assert(lex_le(s[k].date, s.last().date));
                    }
                }
            }
        }
        assert(s.to_multiset() == s0.to_multiset().insert(s.last())) by {
            assert(s =~= s0.push(s.last()));
        }
        assert(r.to_multiset() =~= s.to_multiset().insert(t));
    }
}

/// The sorted sequence is ascending by date and holds exactly the same
/// tasks, counted with multiplicity.
pub proof fn lemma_sort_spec_props(s: Seq<TaskView>)
    ensures
        sorted_by_date(sort_spec(s)),
        sort_spec(s).to_multiset() == s.to_multiset(),
        sort_spec(s).len() == s.len(),
    decreases s.len(),
{
    broadcast use vstd::seq_lib::group_to_multiset_ensures;

    if s.len() == 0 {
        assert(sort_spec(s).to_multiset() =~= s.to_multiset());
    } else {
        let s0 = s.drop_last();
        lemma_sort_spec_props(s0);
        lemma_insert_sorted_props(s.last(), sort_spec(s0));
        assert(s =~= s0.push(s.last()));
        assert(s.to_multiset() == s0.to_multiset().insert(s.last()));
    }
}

/// Lexicographic comparison of two string slices.
pub fn str_le(a: &str, b: &str) -> (r: bool)
    ensures
        r == lex_le(a@, b@),
{
    let va = str_chars(a);
    let vb = str_chars(b);
    let na = va.len();
    let nb = vb.len();
    let mut i: usize = 0;
    proof {
        assert(a@.skip(0) =~= a@);
        assert(b@.skip(0) =~= b@);
    }
    while i < na && i < nb
        invariant
            na == va.len() && nb == vb.len(),
            va@ == a@ && vb@ == b@,
            i <= na && i <= nb,
            lex_le(a@, b@) == lex_le(a@.skip(i as int), b@.skip(i as int)),
        decreases na - i,
    {
        let ca = #[verifier::truncate] (va[i] as u32);
        let cb = #[verifier::truncate] (vb[i] as u32);
        proof {
            assert(a@.skip(i as int)[0] == a@[i as int]);
            assert(b@.skip(i as int)[0] == b@[i as int]);
            assert(a@.skip(i as int).drop_first() =~= a@.skip(i + 1 as int));
            assert(b@.skip(i as int).drop_first() =~= b@.skip(i + 1 as int));
        }
        if ca < cb {
            return true;
        }
        if ca > cb {
            return false;
        }
        i += 1;
    }
    proof {
        if i >= na {
            assert(a@.skip(i as int).len() == 0);
        } else {
            assert(b@.skip(i as int).len() == 0);
            assert(a@.skip(i as int).len() > 0);
        }
    }
    i >= na
}

/// The task sequence reordered for saving: ascending by date, ties kept
/// in their original relative order.
pub fn sort_by_date(tasks: Vec<Task>) -> (r: Vec<Task>)
    ensures
        task_views(r@) == sort_spec(task_views(tasks@)),
{
    let ghost full = task_views(tasks@);
    let mut out: Vec<Task> = Vec::new();
    let n = tasks.len();
    let mut i: usize = 0;
    proof {
        assert(task_views(out@) =~= Seq::<TaskView>::empty());
        assert(full.subrange(0, 0) =~= Seq::<TaskView>::empty());
        lemma_sort_spec_props(full.subrange(0, 0));
    }
    while i < n
        invariant
            n == tasks.len(),
            i <= n,
            full == task_views(tasks@),
            task_views(out@) == sort_spec(full.subrange(0, i as int)),
            sorted_by_date(task_views(out@)),
        decreases n - i,
    {
        let t = tasks[i].clone();
        let ghost tv = t@;
        let ghost ov = task_views(out@);
        let mut j: usize = out.len();
        while j > 0 && !str_le(out[j - 1].date.as_str(), t.date.as_str())
            invariant
                j <= out.len(),
                ov == task_views(out@),
                tv == t@,
                forall|k: int| j <= k < ov.len() ==> !lex_le(#[trigger] ov[k].date, tv.date),
            decreases j,
        {
            j -= 1;
        }
        proof {
            lemma_insert_splice(tv, ov, j as int);
        }
        out.insert(j, t);
        proof {
            assert(task_views(out@) =~= ov.subrange(0, j as int) + seq![tv] + ov.subrange(
                j as int,
                ov.len() as int,
            )) by {
                assert(out@ =~= out@);
            }
            assert(full.subrange(0, i + 1 as int).drop_last() =~= full.subrange(0, i as int));
            assert(full.subrange(0, i + 1 as int).last() == tv);
            lemma_insert_sorted_props(tv, ov);
        }
        i += 1;
    }
    proof {
        assert(full.subrange(0, n as int) =~= full);
    }
    out
}

/// Inserting at a position below which everything compares less or equal
/// and at or above which everything compares strictly greater is exactly
/// the stable insertion.
pub proof fn lemma_insert_splice(t: TaskView, s: Seq<TaskView>, j: int)
    requires
        0 <= j <= s.len(),
        j > 0 ==> lex_le(s[j - 1].date, t.date),
        forall|k: int| j <= k < s.len() ==> !lex_le(#[trigger] s[k].date, t.date),
    ensures
        insert_sorted(t, s) == s.subrange(0, j) + seq![t] + s.subrange(j, s.len() as int),
    decreases s.len(),
{
    if s.len() == 0 {
        assert(insert_sorted(t, s) =~= s.subrange(0, j) + seq![t] + s.subrange(
            j,
            s.len() as int,
        ));
    } else if lex_le(s.last().date, t.date) {
        assert(j == s.len());
        assert(s.push(t) =~= s.subrange(0, j) + seq![t] + s.subrange(j, s.len() as int));
    } else {
        let s0 = s.drop_last();
        assert(j <= s0.len());
        assert(forall|k: int| j <= k < s0.len() ==> s0[k] == s[k]);
        lemma_insert_splice(t, s0, j);
        assert(insert_sorted(t, s0).push(s.last()) =~= s.subrange(0, j) + seq![t] + s.subrange(
            j,
            s.len() as int,
        ));
    }
}

} // verus!
