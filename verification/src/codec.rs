//! The backing-file format: a pretty-printed JSON array of task objects,
//! written and read by the library itself. The encoder and the parser are
//! both specified exactly, and parsing an encoded store is proved to give
//! the store back.

use vstd::prelude::*;
use crate::task::{Task, TaskView};
use crate::todo_list::{task_views, TodoList};
use crate::sort::{sort_by_date, sort_spec, sorted_by_date, lemma_sort_spec_props};
use crate::strings::{push_char, str_chars};

verus! {

// ---------------------------------------------------------------------
// The text fragments of the format.
// ---------------------------------------------------------------------
/// The whole file when the store is empty.
pub open spec fn lit_empty() -> Seq<char> {
    "[]"@
}

/// Opens a non-empty array.
pub open spec fn lit_begin() -> Seq<char> {
    "[\n"@
}

/// Opens one task object up to the first character of its name string.
pub open spec fn lit_open() -> Seq<char> {
    "  {\n    \"name\": \""@
}

/// Closes the name string and opens the description string.
pub open spec fn lit_description() -> Seq<char> {
    "\",\n    \"description\": \""@
}

/// Closes the description string and opens the date string.
pub open spec fn lit_date() -> Seq<char> {
    "\",\n    \"date\": \""@
}

/// Closes the date string and opens the completion flag.
pub open spec fn lit_completed() -> Seq<char> {
    "\",\n    \"completed\": "@
}

/// Closes one task object.
pub open spec fn lit_close() -> Seq<char> {
    "\n  }"@
}

/// Separates two task objects.
pub open spec fn lit_next() -> Seq<char> {
    ",\n"@
}

/// Closes the array after the last task object.
pub open spec fn lit_end() -> Seq<char> {
    "\n]"@
}

/// The JSON text of a boolean.
pub open spec fn bool_text(b: bool) -> Seq<char> {
    if b {
        "true"@
    } else {
        "false"@
    }
}

// ---------------------------------------------------------------------
// Encoding.
// ---------------------------------------------------------------------
/// One character inside a JSON string: quote and backslash are escaped,
/// everything else stands for itself.
pub open spec fn esc_char(c: char) -> Seq<char> {
    if c == '"' {
        seq!['\\', '"']
    } else if c == '\\' {
        seq!['\\', '\\']
    } else {
        seq![c]
    }
}

/// The body of a JSON string: each character escaped.
pub open spec fn esc(s: Seq<char>) -> Seq<char>
    decreases s.len(),
{
    if s.len() == 0 {
        Seq::<char>::empty()
    } else {
        esc_char(s[0]) + esc(s.drop_first())
    }
}

/// One task object, pretty-printed.
pub open spec fn encode_task(t: TaskView) -> Seq<char> {
    lit_open() + esc(t.name) + lit_description() + esc(t.description) + lit_date() + esc(t.date)
        + lit_completed() + bool_text(t.completed) + lit_close()
}

/// The task objects of a non-empty store, separated by commas, with the
/// closing bracket after the last.
pub open spec fn encode_items(ts: Seq<TaskView>) -> Seq<char>
    decreases ts.len(),
{
    if ts.len() <= 1 {
        encode_task(ts[0]) + lit_end()
    } else {
        encode_task(ts[0]) + lit_next() + encode_items(ts.drop_first())
    }
}

/// The whole backing file for a task sequence.
pub open spec fn spec_encode(ts: Seq<TaskView>) -> Seq<char> {
    if ts.len() == 0 {
        lit_empty()
    } else {
        lit_begin() + encode_items(ts)
    }
}

// ---------------------------------------------------------------------
// Parsing.
// ---------------------------------------------------------------------
/// Consumes an exact literal prefix, giving what follows it.
pub open spec fn parse_lit(s: Seq<char>, lit: Seq<char>) -> Option<Seq<char>> {
    if lit.is_prefix_of(s) {
        Some(s.skip(lit.len() as int))
    } else {
        None
    }
}

/// Consumes the body of a JSON string up to, but not including, its
/// closing quote, undoing the escapes; `None` on a lone backslash, an
/// unknown escape, or a missing quote.
pub open spec fn parse_string(s: Seq<char>) -> Option<(Seq<char>, Seq<char>)>
    decreases s.len(),
{
    if s.len() == 0 {
        None
    } else if s[0] == '"' {
        Some((Seq::<char>::empty(), s))
    } else if s[0] == '\\' {
        if s.len() < 2 {
            None
        } else if s[1] == '"' || s[1] == '\\' {
            match parse_string(s.skip(2)) {
                Some((v, r)) => Some((seq![s[1]] + v, r)),
                None => None,
            }
        } else {
            None
        }
    } else {
        match parse_string(s.drop_first()) {
            Some((v, r)) => Some((seq![s[0]] + v, r)),
            None => None,
        }
    }
}

/// Consumes a JSON boolean.
pub open spec fn parse_bool(s: Seq<char>) -> Option<(bool, Seq<char>)> {
    match parse_lit(s, "true"@) {
        Some(r) => Some((true, r)),
        None => match parse_lit(s, "false"@) {
            Some(r) => Some((false, r)),
            None => None,
        },
    }
}

/// Consumes one task object.
pub open spec fn parse_task(s: Seq<char>) -> Option<(TaskView, Seq<char>)> {
    match parse_lit(s, lit_open()) {
        None => None,
        Some(r0) => match parse_string(r0) {
            None => None,
            Some((name, r1)) => match parse_lit(r1, lit_description()) {
                None => None,
                Some(r2) => match parse_string(r2) {
                    None => None,
                    Some((description, r3)) => match parse_lit(r3, lit_date()) {
                        None => None,
                        Some(r4) => match parse_string(r4) {
                            None => None,
                            Some((date, r5)) => match parse_lit(r5, lit_completed()) {
                                None => None,
                                Some(r6) => match parse_bool(r6) {
                                    None => None,
                                    Some((completed, r7)) => match parse_lit(r7, lit_close()) {
                                        None => None,
                                        Some(r8) => Some(
                                            (TaskView { name, description, date, completed }, r8),
                                        ),
                                    },
                                },
                            },
                        },
                    },
                },
            },
        },
    }
}

/// Consumes the task objects of a non-empty array up to and including
/// the closing bracket, which must end the text.
pub open spec fn parse_items(s: Seq<char>) -> Option<Seq<TaskView>>
    decreases s.len(),
{
    match parse_task(s) {
        None => None,
        Some((t, r)) => {
            if r == lit_end() {
                Some(seq![t])
            } else {
                match parse_lit(r, lit_next()) {
                    None => None,
                    Some(r2) => {
                        if r2.len() < s.len() {
                            match parse_items(r2) {
                                None => None,
                                Some(ts) => Some(seq![t] + ts),
                            }
                        } else {
                            None
                        }
                    },
                }
            }
        },
    }
}

/// The whole backing file: the empty array, or a bracketed list of task
/// objects; `None` on anything else.
pub open spec fn spec_parse(s: Seq<char>) -> Option<Seq<TaskView>> {
    if s == lit_empty() {
        Some(Seq::<TaskView>::empty())
    } else {
        match parse_lit(s, lit_begin()) {
            None => None,
            Some(r) => parse_items(r),
        }
    }
}

// ---------------------------------------------------------------------
// Parsing inverts encoding.
// ---------------------------------------------------------------------
/// A literal followed by anything parses back to that anything.
pub proof fn lemma_parse_lit(lit: Seq<char>, rest: Seq<char>)
    ensures
        parse_lit(lit + rest, lit) == Some(rest),
{
    let s = lit + rest;
    assert(lit =~= s.subrange(0, lit.len() as int));
    assert(s.skip(lit.len() as int) =~= rest);
}

/// An escaped string body followed by its closing quote parses back to
/// the original characters, leaving the quote in place.
pub proof fn lemma_parse_string_esc(x: Seq<char>, rest: Seq<char>)
    requires
        rest.len() > 0,
        rest[0] == '"',
    ensures
        parse_string(esc(x) + rest) == Some((x, rest)),
    decreases x.len(),
{
    let s = esc(x) + rest;
    if x.len() == 0 {
        assert(s =~= rest);
    } else {
        let c = x[0];
        let x1 = x.drop_first();
        lemma_parse_string_esc(x1, rest);
        if c == '"' || c == '\\' {
            assert(s[0] == '\\' && s[1] == c);
            assert(s.skip(2) =~= esc(x1) + rest);
            assert(seq![c] + x1 =~= x);
        } else {
            assert(s[0] == c);
            assert(s.drop_first() =~= esc(x1) + rest);
            assert(seq![c] + x1 =~= x);
        }
    }
}

/// A boolean's text followed by anything parses back to the boolean.
pub proof fn lemma_parse_bool(b: bool, rest: Seq<char>)
    ensures
        parse_bool(bool_text(b) + rest) == Some((b, rest)),
{
    reveal_strlit("true");
    reveal_strlit("false");
    lemma_parse_lit(bool_text(b), rest);
    if b {
        assert(parse_lit(bool_text(b) + rest, "true"@) == Some(rest));
    } else {
        let s = bool_text(b) + rest;
        assert(s[0] == 'f');
        assert(!"true"@.is_prefix_of(s));
        assert(parse_lit(s, "false"@) == Some(rest));
    }
}

/// Escaping produces no bare quote, so the literal that follows a string
/// is never mistaken for its body; concatenation brings each parser to
/// its own fragment. One encoded task followed by anything parses back
/// to the task.
#[verifier::rlimit(100)]
pub proof fn lemma_parse_task(t: TaskView, rest: Seq<char>)
    ensures
        parse_task(encode_task(t) + rest) == Some((t, rest)),
{
    reveal_strlit("\",\n    \"description\": \"");
    reveal_strlit("\",\n    \"date\": \"");
    reveal_strlit("\",\n    \"completed\": ");
    let s = encode_task(t) + rest;
    let a1 = esc(t.name) + lit_description() + esc(t.description) + lit_date() + esc(t.date)
        + lit_completed() + bool_text(t.completed) + lit_close() + rest;
    assert(s =~= lit_open() + a1);
    lemma_parse_lit(lit_open(), a1);
    let a2 = lit_description() + esc(t.description) + lit_date() + esc(t.date) + lit_completed()
        + bool_text(t.completed) + lit_close() + rest;
    assert(a1 =~= esc(t.name) + a2);
    assert(a2[0] == '"');
    lemma_parse_string_esc(t.name, a2);
    let a3 = esc(t.description) + lit_date() + esc(t.date) + lit_completed() + bool_text(
        t.completed,
    ) + lit_close() + rest;
    assert(a2 =~= lit_description() + a3);
    lemma_parse_lit(lit_description(), a3);
    let a4 = lit_date() + esc(t.date) + lit_completed() + bool_text(t.completed) + lit_close()
        + rest;
    assert(a3 =~= esc(t.description) + a4);
    assert(a4[0] == '"');
    lemma_parse_string_esc(t.description, a4);
    let a5 = esc(t.date) + lit_completed() + bool_text(t.completed) + lit_close() + rest;
    assert(a4 =~= lit_date() + a5);
    lemma_parse_lit(lit_date(), a5);
    let a6 = lit_completed() + bool_text(t.completed) + lit_close() + rest;
    assert(a5 =~= esc(t.date) + a6);
    assert(a6[0] == '"');
    lemma_parse_string_esc(t.date, a6);
    let a7 = bool_text(t.completed) + lit_close() + rest;
    assert(a6 =~= lit_completed() + a7);
    lemma_parse_lit(lit_completed(), a7);
    let a8 = lit_close() + rest;
    assert(a7 =~= bool_text(t.completed) + a8);
    lemma_parse_bool(t.completed, a8);
    lemma_parse_lit(lit_close(), rest);
}

/// An encoded task is never empty.
pub proof fn lemma_encode_task_len(t: TaskView)
    ensures
        encode_task(t).len() >= lit_open().len(),
        lit_open().len() >= 1,
{
    reveal_strlit("  {\n    \"name\": \"");
}

/// The encoded items of a non-empty sequence parse back to it.
pub proof fn lemma_parse_items(ts: Seq<TaskView>)
    requires
        ts.len() >= 1,
    ensures
        parse_items(encode_items(ts)) == Some(ts),
    decreases ts.len(),
{
    reveal_strlit("\n]");
    reveal_strlit(",\n");
    let s = encode_items(ts);
    let t = ts[0];
    lemma_encode_task_len(t);
    if ts.len() == 1 {
        lemma_parse_task(t, lit_end());
        assert(s =~= encode_task(t) + lit_end());
        assert(seq![t] =~= ts);
    } else {
        let ts1 = ts.drop_first();
        let r = lit_next() + encode_items(ts1);
        assert(s =~= encode_task(t) + r);
        lemma_parse_task(t, r);
        assert(r[0] == ',');
        assert(lit_end()[0] == '\n');
        assert(r != lit_end());
        lemma_parse_lit(lit_next(), encode_items(ts1));
        lemma_encode_task_len(ts1[0]);
        assert(encode_items(ts1).len() < s.len());
        lemma_parse_items(ts1);
        assert(seq![t] + ts1 =~= ts);
    }
}

/// Parsing undoes encoding: the backing text written for any task
/// sequence reads back as exactly that sequence.
pub proof fn lemma_round_trip(ts: Seq<TaskView>)
    ensures
        spec_parse(spec_encode(ts)) == Some(ts),
{
    reveal_strlit("[]");
    reveal_strlit("[\n");
    if ts.len() == 0 {
        assert(ts =~= Seq::<TaskView>::empty());
    } else {
        let s = spec_encode(ts);
        lemma_encode_task_len(ts[0]);
        assert(encode_items(ts).len() >= lit_end().len()) by {
            reveal_strlit("\n]");
            reveal_strlit(",\n");
            if ts.len() > 1 {
                assert(encode_items(ts).len() >= lit_next().len() + encode_items(
                    ts.drop_first(),
                ).len());
                assert(encode_items(ts.drop_first()).len() >= 0);
            }
        }
        assert(s.len() > lit_empty().len());
        assert(s != lit_empty());
        lemma_parse_lit(lit_begin(), encode_items(ts));
        lemma_parse_items(ts);
    }
}

/// What saving writes and loading reads: the store comes back with the
/// same tasks (as a multiset), and the saved order is ascending by date.
pub proof fn lemma_save_load_round_trip(ts: Seq<TaskView>)
    ensures
        spec_parse(spec_encode(sort_spec(ts))) == Some(sort_spec(ts)),
        sort_spec(ts).to_multiset() == ts.to_multiset(),
        sorted_by_date(sort_spec(ts)),
{
    lemma_round_trip(sort_spec(ts));
    lemma_sort_spec_props(ts);
}

// ---------------------------------------------------------------------
// The executable encoder.
// ---------------------------------------------------------------------
/// Escaping distributes over concatenation.
pub proof fn lemma_esc_add(a: Seq<char>, b: Seq<char>)
    ensures
        esc(a + b) == esc(a) + esc(b),
    decreases a.len(),
{
    if a.len() == 0 {
        assert(a + b =~= b);
        assert(esc(a) + esc(b) =~= esc(b));
    } else {
        let a1 = a.drop_first();
        assert((a + b)[0] == a[0]);
        assert((a + b).drop_first() =~= a1 + b);
        lemma_esc_add(a1, b);
        assert(esc_char(a[0]) + (esc(a1) + esc(b)) =~= (esc_char(a[0]) + esc(a1)) + esc(b));
    }
}

/// Appends the escaped body of `s` to `out`.
fn append_escaped(out: &mut String, s: &str)
    ensures
        final(out)@ == old(out)@ + esc(s@),
{
    let v = str_chars(s);
    let n = v.len();
    let mut i: usize = 0;
    proof {
        assert(s@.take(0) =~= Seq::<char>::empty());
        assert(out@ + esc(s@.take(0)) =~= out@);
    }
    while i < n
        invariant
            n == v.len(),
            v@ == s@,
            i <= n,
            out@ == old(out)@ + esc(s@.take(i as int)),
        decreases n - i,
    {
        let c = v[i];
        let ghost pre = out@;
        if c == '"' {
            push_char(out, '\\');
            push_char(out, '"');
        } else if c == '\\' {
            push_char(out, '\\');
            push_char(out, '\\');
        } else {
            push_char(out, c);
        }
        proof {
            lemma_esc_add(s@.take(i as int), seq![c]);
            assert(s@.take(i + 1 as int) =~= s@.take(i as int) + seq![c]);
            assert(seq![c].drop_first() =~= Seq::<char>::empty());
            assert(esc(Seq::<char>::empty()) =~= Seq::<char>::empty());
            assert(seq![c][0] == c);
            assert(esc(seq![c]) =~= esc_char(c));
            assert(out@ =~= pre + esc_char(c));
            assert(out@ =~= old(out)@ + esc(s@.take(i + 1 as int)));
        }
        i += 1;
    }
    proof {
        assert(s@.take(n as int) =~= s@);
    }
}

/// Appends one encoded task object to `out`.
fn append_task(out: &mut String, t: &Task)
    ensures
        final(out)@ == old(out)@ + encode_task(t@),
{
    out.append("  {\n    \"name\": \"");
    append_escaped(out, t.name.as_str());
    out.append("\",\n    \"description\": \"");
    append_escaped(out, t.description.as_str());
    out.append("\",\n    \"date\": \"");
    append_escaped(out, t.date.as_str());
    out.append("\",\n    \"completed\": ");
    if t.completed {
        out.append("true");
    } else {
        out.append("false");
    }
    out.append("\n  }");
    proof {
        assert(out@ =~= old(out)@ + encode_task(t@));
    }
}

/// The backing text for the given tasks, in the given order.
pub fn to_json(tasks: &Vec<Task>) -> (r: String)
    ensures
        r@ == spec_encode(task_views(tasks@)),
{
    let ghost tvs = task_views(tasks@);
    let n = tasks.len();
    if n == 0 {
        let r = String::from_str("[]");
        return r;
    }
    let mut out = String::from_str("[\n");
    let mut i: usize = 0;
    proof {
        assert(tvs.skip(0) =~= tvs);
        assert(tvs.len() == tasks@.len());
    }
    while i < n
        invariant
            n == tasks.len(),
            n > 0,
            i <= n,
            tvs == task_views(tasks@),
            i < n ==> out@ + encode_items(tvs.skip(i as int)) == spec_encode(tvs),
            i == n ==> out@ == spec_encode(tvs),
        decreases n - i,
    {
        let ghost pre = out@;
        append_task(&mut out, &tasks[i]);
        if i + 1 < n {
            out.append(",\n");
        } else {
            out.append("\n]");
        }
        proof {
            let rest = tvs.skip(i as int);
            assert(rest[0] == tvs[i as int]);
            if i + 1 < n {
                assert(rest.drop_first() =~= tvs.skip(i + 1 as int));
                assert(rest.len() > 1);
                assert(encode_items(rest) == encode_task(tvs[i as int]) + lit_next()
                    + encode_items(tvs.skip(i + 1 as int)));
                assert(out@ =~= pre + encode_task(tvs[i as int]) + lit_next());
                assert(out@ + encode_items(tvs.skip(i + 1 as int)) =~= pre + encode_items(rest));
            } else {
                assert(rest.len() == 1);
                assert(encode_items(rest) == encode_task(tvs[i as int]) + lit_end());
                assert(out@ =~= pre + encode_items(rest));
            }
        }
        i += 1;
    }
    out
}

// ---------------------------------------------------------------------
// The executable parser.
// ---------------------------------------------------------------------
/// Consumes the literal `lit` at position `i` of `v`, giving the
/// position after it.
fn expect_lit(v: &Vec<char>, i: usize, lit: &str) -> (r: Option<usize>)
    requires
        i <= v@.len(),
    ensures
        match r {
            Some(j) => i <= j <= v@.len() && parse_lit(v@.skip(i as int), lit@) == Some(
                v@.skip(j as int),
            ),
            None => parse_lit(v@.skip(i as int), lit@) is None,
        },
{
    let l = str_chars(lit);
    let m = l.len();
    let nv = v.len();
    if nv - i < m {
        proof {
            assert(v@.skip(i as int).len() < lit@.len());
            assert(!lit@.is_prefix_of(v@.skip(i as int)));
        }
        return None;
    }
    let mut k: usize = 0;
    while k < m
        invariant
            m == l.len(),
            l@ == lit@,
            nv == v@.len(),
            i <= nv,
            i + m <= nv,
            k <= m,
            forall|q: int| 0 <= q < k ==> v@[i + q] == lit@[q],
        decreases m - k,
    {
        if v[i + k] != l[k] {
            proof {
                assert(v@.skip(i as int)[k as int] == v@[i + k]);
                assert(!lit@.is_prefix_of(v@.skip(i as int)));
            }
            return None;
        }
        k += 1;
    }
    proof {
        assert(lit@ =~= v@.skip(i as int).subrange(0, m as int));
        assert(lit@.is_prefix_of(v@.skip(i as int)));
        assert(v@.skip(i as int).skip(m as int) =~= v@.skip(i + m as int));
    }
    Some(i + m)
}

/// Consumes a string body at position `i` of `v`, stopping before the
/// closing quote and undoing the escapes.
fn parse_string_at(v: &Vec<char>, i: usize) -> (r: Option<(String, usize)>)
    requires
        i <= v@.len(),
    ensures
        match r {
            Some(p) => i <= p.1 <= v@.len() && parse_string(v@.skip(i as int)) == Some(
                (p.0@, v@.skip(p.1 as int)),
            ),
            None => parse_string(v@.skip(i as int)) is None,
        },
{
    let mut out = String::new();
    let mut j: usize = i;
    loop
        invariant
            i <= j <= v@.len(),
            match parse_string(v@.skip(j as int)) {
                Some(p) => parse_string(v@.skip(i as int)) == Some((out@ + p.0, p.1)),
                None => parse_string(v@.skip(i as int)) is None,
            },
        decreases v@.len() - j,
    {
        if j >= v.len() {
            proof {
                assert(v@.skip(j as int).len() == 0);
            }
            return None;
        }
        let c = v[j];
        proof {
            assert(v@.skip(j as int)[0] == v@[j as int]);
        }
        if c == '"' {
            proof {
                let p0 = parse_string(v@.skip(j as int))->Some_0;
                assert(p0.0 =~= Seq::<char>::empty());
                assert(out@ + p0.0 =~= out@);
            }
            return Some((out, j));
        } else if c == '\\' {
            if j + 1 >= v.len() {
                proof {
                    assert(v@.skip(j as int).len() < 2);
                }
                return None;
            }
            let c2 = v[j + 1];
            proof {
                assert(v@.skip(j as int)[1] == v@[j + 1 as int]);
                assert(v@.skip(j as int).skip(2) =~= v@.skip(j + 2 as int));
            }
            if c2 == '"' || c2 == '\\' {
                let ghost pre = out@;
                push_char(&mut out, c2);
                proof {
                    match parse_string(v@.skip(j + 2 as int)) {
                        Some(p) => {
                            assert(out@ + p.0 =~= pre + (seq![c2] + p.0));
                        },
                        None => {},
                    }
                }
                j += 2;
            } else {
                return None;
            }
        } else {
            let ghost pre = out@;
            push_char(&mut out, c);
            proof {
                assert(v@.skip(j as int).drop_first() =~= v@.skip(j + 1 as int));
                match parse_string(v@.skip(j + 1 as int)) {
                    Some(p) => {
                        assert(out@ + p.0 =~= pre + (seq![c] + p.0));
                    },
                    None => {},
                }
            }
            j += 1;
        }
    }
}

/// Consumes a boolean at position `i` of `v`.
fn parse_bool_at(v: &Vec<char>, i: usize) -> (r: Option<(bool, usize)>)
    requires
        i <= v@.len(),
    ensures
        match r {
            Some(p) => i <= p.1 <= v@.len() && parse_bool(v@.skip(i as int)) == Some(
                (p.0, v@.skip(p.1 as int)),
            ),
            None => parse_bool(v@.skip(i as int)) is None,
        },
{
    match expect_lit(v, i, "true") {
        Some(j) => Some((true, j)),
        None => match expect_lit(v, i, "false") {
            Some(j) => Some((false, j)),
            None => None,
        },
    }
}

/// Consumes one task object at position `i` of `v`.
fn parse_task_at(v: &Vec<char>, i: usize) -> (r: Option<(Task, usize)>)
    requires
        i <= v@.len(),
    ensures
        match r {
            Some(p) => i <= p.1 <= v@.len() && parse_task(v@.skip(i as int)) == Some(
                (p.0@, v@.skip(p.1 as int)),
            ),
            None => parse_task(v@.skip(i as int)) is None,
        },
{
    let r0 = match expect_lit(v, i, "  {\n    \"name\": \"") {
        Some(j) => j,
        None => {
            return None;
        },
    };
    let (name, r1) = match parse_string_at(v, r0) {
        Some(p) => p,
        None => {
            return None;
        },
    };
    let r2 = match expect_lit(v, r1, "\",\n    \"description\": \"") {
        Some(j) => j,
        None => {
            return None;
        },
    };
    let (description, r3) = match parse_string_at(v, r2) {
        Some(p) => p,
        None => {
            return None;
        },
    };
    let r4 = match expect_lit(v, r3, "\",\n    \"date\": \"") {
        Some(j) => j,
        None => {
            return None;
        },
    };
    let (date, r5) = match parse_string_at(v, r4) {
        Some(p) => p,
        None => {
            return None;
        },
    };
    let r6 = match expect_lit(v, r5, "\",\n    \"completed\": ") {
        Some(j) => j,
        None => {
            return None;
        },
    };
    let (completed, r7) = match parse_bool_at(v, r6) {
        Some(p) => p,
        None => {
            return None;
        },
    };
    let r8 = match expect_lit(v, r7, "\n  }") {
        Some(j) => j,
        None => {
            return None;
        },
    };
    Some((Task { name, description, date, completed: completed }, r8))
}

/// Consumes the task objects of a non-empty array at position `i` of
/// `v`, up to the closing bracket, which must end the text.
fn parse_items_at(v: &Vec<char>, i: usize) -> (r: Option<Vec<Task>>)
    requires
        i <= v@.len(),
    ensures
        match r {
            Some(ts) => parse_items(v@.skip(i as int)) == Some(task_views(ts@)),
            None => parse_items(v@.skip(i as int)) is None,
        },
{
    let mut acc: Vec<Task> = Vec::new();
    let mut cur: usize = i;
    proof {
        assert(task_views(acc@) =~= Seq::<TaskView>::empty());
    }
    loop
        invariant
            i <= cur <= v@.len(),
            match parse_items(v@.skip(cur as int)) {
                Some(ts) => parse_items(v@.skip(i as int)) == Some(task_views(acc@) + ts),
                None => parse_items(v@.skip(i as int)) is None,
            },
        decreases v@.len() - cur,
    {
        let (t, j) = match parse_task_at(v, cur) {
            Some(p) => p,
            None => {
                return None;
            },
        };
        let ghost tv = t@;
        let ghost accv = task_views(acc@);
        let e = expect_lit(v, j, "\n]");
        let is_end = match e {
            Some(k) => k == v.len(),
            None => false,
        };
        if is_end {
            proof {
                reveal_strlit("\n]");
                let k = e->Some_0;
                assert(lit_end().is_prefix_of(v@.skip(j as int)));
                assert(v@.skip(j as int).skip(lit_end().len() as int) == v@.skip(k as int));
                assert(v@.skip(k as int).len() == 0);
                assert(v@.skip(j as int).len() == 2);
                assert(v@.skip(j as int) =~= lit_end());
                assert(parse_items(v@.skip(cur as int)) == Some(seq![tv]));
                assert(task_views(acc@.push(t)) =~= accv.push(tv));
                assert(accv + seq![tv] =~= accv.push(tv));
            }
            acc.push(t);
            return Some(acc);
        }
        proof {
            reveal_strlit("\n]");
            assert(v@.skip(j as int) != lit_end()) by {
                if v@.skip(j as int) == lit_end() {
                    assert(lit_end() =~= lit_end().subrange(0, lit_end().len() as int));
                    assert(lit_end().is_prefix_of(v@.skip(j as int)));
                    match e {
                        Some(k) => {
                            assert(v@.skip(j as int).skip(lit_end().len() as int) == v@.skip(
                                k as int,
                            ));
                            assert(v@.skip(k as int).len() == 0);
                            assert(k == v@.len());
                        },
                        None => {
                            assert(parse_lit(v@.skip(j as int), lit_end()) is Some);
                        },
                    }
                }
            }
        }
        let k = match expect_lit(v, j, ",\n") {
            Some(k) => k,
            None => {
                return None;
            },
        };
        proof {
            reveal_strlit(",\n");
            reveal_strlit("  {\n    \"name\": \"");
            assert(v@.skip(k as int).len() < v@.skip(cur as int).len());
            match parse_items(v@.skip(k as int)) {
                Some(ts) => {
                    assert(parse_items(v@.skip(cur as int)) == Some(seq![tv] + ts));
                    assert(task_views(acc@.push(t)) =~= accv.push(tv));
                    assert(accv.push(tv) + ts =~= accv + (seq![tv] + ts));
                },
                None => {},
            }
        }
        acc.push(t);
        cur = k;
    }
}

/// Reads a backing file's text; `None` when the text is not a
/// well-formed task array.
pub fn from_json(s: &str) -> (r: Option<TodoList>)
    ensures
        match r {
            Some(l) => spec_parse(s@) == Some(l@),
            None => spec_parse(s@) is None,
        },
{
    let v = str_chars(s);
    let e = expect_lit(&v, 0, "[]");
    let is_empty_file = match e {
        Some(j) => j == v.len(),
        None => false,
    };
    if is_empty_file {
        proof {
            reveal_strlit("[]");
            let j = e->Some_0;
            assert(v@.skip(0) =~= v@);
            assert(lit_empty().is_prefix_of(v@));
            assert(v@.skip(lit_empty().len() as int) == v@.skip(j as int));
            assert(v@.skip(j as int).len() == 0);
            assert(v@.len() == 2);
            assert(v@ =~= lit_empty());
        }
        let l = TodoList::new();
        return Some(l);
    }
    proof {
        reveal_strlit("[]");
        assert(v@.skip(0) =~= v@);
        assert(s@ != lit_empty()) by {
            if s@ == lit_empty() {
                assert(lit_empty() =~= lit_empty().subrange(0, lit_empty().len() as int));
                assert(lit_empty().is_prefix_of(v@));
                match e {
                    Some(j) => {
                        assert(v@.skip(lit_empty().len() as int) == v@.skip(j as int));
                        assert(v@.skip(j as int).len() == 0);
                        assert(j == v@.len());
                    },
                    None => {
                        assert(parse_lit(v@, lit_empty()) is Some);
                    },
                }
            }
        }
    }
    let j = match expect_lit(&v, 0, "[\n") {
        Some(j) => j,
        None => {
            return None;
        },
    };
    match parse_items_at(&v, j) {
        Some(ts) => {
            let l = TodoList { tasks: ts };
            Some(l)
        },
        None => None,
    }
}

// ---------------------------------------------------------------------
// Saving and loading a store.
// ---------------------------------------------------------------------
impl TodoList {
    /// The text to write back to the backing file: the store's tasks
    /// sorted ascending by date (stable), encoded as pretty-printed JSON.
    pub fn save_string(&self) -> (r: String)
        ensures
            r@ == spec_encode(sort_spec(self@)),
    {
        let copy = self.clone();
        let sorted = sort_by_date(copy.tasks);
        to_json(&sorted)
    }
}

} // verus!
