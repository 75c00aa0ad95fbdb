//! A schema script as the statements that are run one by one.

use crate::text::{chars_of, contains, has_substring, slice, trim_bounds, trimmed};
use vstd::prelude::*;

verus! {

/// A part of a script as a statement: trimmed, and none where it is blank.
pub open spec fn statement_of(part: Seq<char>) -> Seq<Seq<char>> {
    if trimmed(part).len() == 0 {
        Seq::empty()
    } else {
        seq![trimmed(part)]
    }
}

/// The statements of the rest of a script, where `part` is what was read
/// since the last semicolon.
pub open spec fn statements_after(rest: Seq<char>, part: Seq<char>) -> Seq<Seq<char>>
    decreases rest.len(),
{
    if rest.len() == 0 {
        statement_of(part)
    } else if rest[0] == ';' {
        statement_of(part) + statements_after(rest.drop_first(), Seq::empty())
    } else {
        statements_after(rest.drop_first(), part.push(rest[0]))
    }
}

/// The statements of a script: the parts between semicolons, each trimmed,
/// without the parts that are blank.
pub open spec fn statements(sql: Seq<char>) -> Seq<Seq<char>> {
    statements_after(sql, Seq::empty())
}

/// Appends the statement that the part of `sql` from `start` to `end` makes.
fn push_statement(out: &mut Vec<String>, sql: &str, start: usize, end: usize)
    requires
        start <= end <= sql@.len(),
    ensures
        final(out).deep_view() == old(out).deep_view() + statement_of(
            sql@.subrange(start as int, end as int),
        ),
{
    let part = slice(sql, start, end);
    let p = chars_of(part);
    let (a, b) = trim_bounds(&p, true);
    let ghost before = out.deep_view();
    if a < b {
        out.push(slice(part, a, b).to_owned());
        assert(out.deep_view() =~= before.push(trimmed(part@)));
        assert(out.deep_view() =~= before + statement_of(part@));
    } else {
        assert(out.deep_view() =~= before + statement_of(part@));
    }
}

/// Splits a script at its semicolons into the statements to run, in order.
pub fn sql_statements(sql: &str) -> (r: Vec<String>)
    ensures
        r.deep_view() == statements(sql@),
{
    let v = chars_of(sql);
    let mut out: Vec<String> = Vec::new();
    let mut start: usize = 0;
    let mut i: usize = 0;
    assert(out.deep_view() =~= Seq::<Seq<char>>::empty());
    assert(v@.skip(0) =~= v@);
    assert(v@.subrange(0, 0) =~= Seq::<char>::empty());
    assert(out.deep_view() + statements(sql@) =~= statements(sql@));
    while i < v.len()
        invariant
            start <= i <= v.len(),
            v@ == sql@,
            out.deep_view() + statements_after(v@.skip(i as int), v@.subrange(start as int, i as int))
                == statements(sql@),
        decreases v.len() - i,
    {
        let ghost rest = v@.skip(i as int);
        let ghost part = v@.subrange(start as int, i as int);
        proof {
            assert(rest.drop_first() =~= v@.skip(i + 1));
            assert(rest[0] == v@[i as int]);
            assert(part.push(v@[i as int]) =~= v@.subrange(start as int, i + 1));
            assert(v@.subrange(i + 1, i + 1) =~= Seq::<char>::empty());
        }
        if v[i] == ';' {
            let ghost before = out.deep_view();
            push_statement(&mut out, sql, start, i);
            assert(out.deep_view() + statements_after(v@.skip(i + 1), Seq::empty()) =~= before
                + statements_after(rest, part));
            start = i + 1;
        }
        i += 1;
    }
    push_statement(&mut out, sql, start, i);
    out
}

/// Whether a failure of a statement that adds a column only says that the
/// column is there already, and may be passed over.
pub fn is_duplicate_column_error(message: &str) -> (r: bool)
    ensures
        r == has_substring(message@, "duplicate column name"@),
{
    contains(message, "duplicate column name")
}

} // verus!
