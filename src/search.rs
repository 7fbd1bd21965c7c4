use vstd::prelude::*;
use vstd::string::*;

use crate::text::{chars_of, contains, line_bounds, lines, occurs_at, occurs_in};

verus! {

/// What `str::to_lowercase` makes of a text: its lowercase form, which
/// depends on the characters alone.
pub uninterp spec fn lower_of(s: Seq<char>) -> Seq<char>;

/// Relies on `str::to_lowercase`: the lowercase form of `s`, a function of
/// its characters alone.
#[verifier::external_body]
fn lowercase(s: &str) -> (r: String)
    ensures
        r@ == lower_of(s@),
{
    s.to_lowercase()
}

/// Whether the line `l` is selected by the query `q`: `q` occurs in it, or,
/// when case is ignored, the lowercase form of `q` occurs in that of `l`.
pub open spec fn line_matches(l: Seq<char>, q: Seq<char>, case_sensitive: bool) -> bool {
    if case_sensitive {
        contains(l, q)
    } else {
        contains(lower_of(l), lower_of(q))
    }
}

/// The lines of `ls` that `q` selects, in their order.
pub open spec fn selected(ls: Seq<Seq<char>>, q: Seq<char>, case_sensitive: bool) -> Seq<
    Seq<char>,
> {
    ls.filter(|l: Seq<char>| line_matches(l, q, case_sensitive))
}

proof fn lemma_selected_take(ls: Seq<Seq<char>>, q: Seq<char>, case_sensitive: bool, k: int)
    requires
        0 <= k < ls.len(),
    ensures
        selected(ls.take(k + 1), q, case_sensitive) == if line_matches(ls[k], q, case_sensitive) {
            selected(ls.take(k), q, case_sensitive).push(ls[k])
        } else {
            selected(ls.take(k), q, case_sensitive)
        },
{
    let t = ls.take(k + 1);
    let pred = |l: Seq<char>| line_matches(l, q, case_sensitive);
    assert(t.drop_last() =~= ls.take(k));
    assert(t.last() == ls[k]);
    reveal_with_fuel(Seq::filter, 1);
    assert(t.filter(pred) == if pred(t.last()) {
        t.drop_last().filter(pred).push(t.last())
    } else {
        t.drop_last().filter(pred)
    });
}

/// The texts of a sequence of string slices.
pub open spec fn views(v: Seq<&str>) -> Seq<Seq<char>> {
    v.map_values(|x: &str| x@)
}

/// Whether the already lowercased query occurs in the already lowercased
/// line: the test that case-insensitive search makes on each line.
pub fn matches_folded(folded_line: &str, folded_query: &str) -> (r: bool)
    ensures
        r == contains(folded_line@, folded_query@),
{
    let l = chars_of(folded_line);
    let q = chars_of(folded_query);
    assert(l@.subrange(0, l@.len() as int) =~= l@);
    occurs_in(&l, 0, l.len(), &q)
}

/// The lines of `contents` that hold `query`, compared character by
/// character, in the order in which they stand.
pub fn search<'a>(query: &str, contents: &'a str) -> (r: Vec<&'a str>)
    ensures
        views(r@) == selected(lines(contents@), query@, true),
{
    let text = chars_of(contents);
    let q = chars_of(query);
    let bounds = line_bounds(&text);
    let ghost ls = lines(contents@);
    let mut r: Vec<&'a str> = Vec::new();
    for k in 0..bounds.len()
        invariant
            text@ == contents@,
            q@ == query@,
            bounds.len() == ls.len(),
            ls == lines(contents@),
            forall|j: int|
                #![trigger bounds[j]]
                0 <= j < bounds.len() ==> {
                    &&& bounds[j].0 <= bounds[j].1 <= text.len()
                    &&& text@.subrange(bounds[j].0 as int, bounds[j].1 as int) == ls[j]
                },
            views(r@) == selected(ls.take(k as int), query@, true),
    {
        let (a, b) = bounds[k];
        proof {
            lemma_selected_take(ls, query@, true, k as int);
        }
        assert(text@.subrange(a as int, b as int) == ls[k as int]);
        let ghost r0 = r@;
        if occurs_in(&text, a, b, &q) {
            let line = contents.substring_char(a, b);
            r.push(line);
            assert(views(r@) =~= views(r0).push(line@));
        }
    }
    assert(ls.take(ls.len() as int) =~= ls);
    r
}

/// The lines of `contents` whose lowercase form holds the lowercase form of
/// `query`, in the order in which they stand and with their own casing.
pub fn search_case_insensitive<'a>(query: &str, contents: &'a str) -> (r: Vec<&'a str>)
    ensures
        views(r@) == selected(lines(contents@), query@, false),
{
    let folded_query = lowercase(query);
    let text = chars_of(contents);
    let bounds = line_bounds(&text);
    let ghost ls = lines(contents@);
    let mut r: Vec<&'a str> = Vec::new();
    for k in 0..bounds.len()
        invariant
            text@ == contents@,
            folded_query@ == lower_of(query@),
            bounds.len() == ls.len(),
            ls == lines(contents@),
            forall|j: int|
                #![trigger bounds[j]]
                0 <= j < bounds.len() ==> {
                    &&& bounds[j].0 <= bounds[j].1 <= text.len()
                    &&& text@.subrange(bounds[j].0 as int, bounds[j].1 as int) == ls[j]
                },
            views(r@) == selected(ls.take(k as int), query@, false),
    {
        let (a, b) = bounds[k];
        proof {
            lemma_selected_take(ls, query@, false, k as int);
        }
        assert(text@.subrange(a as int, b as int) == ls[k as int]);
        let ghost r0 = r@;
        let line = contents.substring_char(a, b);
        let folded_line = lowercase(line);
        if matches_folded(folded_line.as_str(), folded_query.as_str()) {
            r.push(line);
            assert(views(r@) =~= views(r0).push(line@));
        }
    }
    assert(ls.take(ls.len() as int) =~= ls);
    r
}

/// The lines of `contents` that `query` selects, with case respected or
/// ignored as `case_sensitive` says.
pub fn filter<'a>(query: &str, contents: &'a str, case_sensitive: bool) -> (r: Vec<&'a str>)
    ensures
        views(r@) == selected(lines(contents@), query@, case_sensitive),
{
    if case_sensitive {
        search(query, contents)
    } else {
        search_case_insensitive(query, contents)
    }
}

/// A line is selected exactly when it is one of the lines of `t` and the
/// query selects it: in particular every line that holds `q` verbatim is kept
/// by case-sensitive filtering, and no other line is.
pub proof fn lemma_selected_members(t: Seq<char>, q: Seq<char>, case_sensitive: bool, l: Seq<char>)
    ensures
        selected(lines(t), q, case_sensitive).contains(l) <==> (lines(t).contains(l)
            && line_matches(l, q, case_sensitive)),
{
    let ls = lines(t);
    let pred = |x: Seq<char>| line_matches(x, q, case_sensitive);
    assert(selected(ls, q, case_sensitive) == ls.filter(pred));
    if ls.filter(pred).contains(l) {
        ls.lemma_filter_contains_rev(pred, l);
        let j = choose|j: int| 0 <= j < ls.filter(pred).len() && ls.filter(pred)[j] == l;
        ls.lemma_filter_pred(pred, j);
    }
    if ls.contains(l) && pred(l) {
        let i = choose|i: int| 0 <= i < ls.len() && ls[i] == l;
        ls.lemma_filter_contains(pred, i);
    }
}

/// A line that differs from the query only in letter case (both have the
/// same lowercase form) is kept when case is ignored; when case is
/// respected, a line of the query's length that is not the query itself is
/// not kept.
pub proof fn lemma_case_only_difference(t: Seq<char>, q: Seq<char>, k: int)
    requires
        0 <= k < lines(t).len(),
        lower_of(lines(t)[k]) == lower_of(q),
    ensures
        selected(lines(t), q, false).contains(lines(t)[k]),
        lines(t)[k].len() == q.len() && lines(t)[k] != q ==> !selected(lines(t), q, true).contains(
            lines(t)[k],
        ),
{
    let l = lines(t)[k];
    let f = lower_of(l);
    assert(f.subrange(0, f.len() as int) =~= f);
    assert(occurs_at(f, lower_of(q), 0));
    assert(lines(t).contains(l));
    lemma_selected_members(t, q, false, l);
    lemma_selected_members(t, q, true, l);
    if l.len() == q.len() && contains(l, q) {
        let i = choose|i: int| occurs_at(l, q, i);
        assert(i == 0);
        assert(l.subrange(0, l.len() as int) =~= l);
    }
}

proof fn lemma_filter_twice(ls: Seq<Seq<char>>, pred: spec_fn(Seq<char>) -> bool)
    ensures
        ls.filter(pred).filter(pred) == ls.filter(pred),
    decreases ls.len(),
{
    reveal_with_fuel(Seq::filter, 1);
    if ls.len() > 0 {
        let rest = ls.drop_last().filter(pred);
        lemma_filter_twice(ls.drop_last(), pred);
        if pred(ls.last()) {
            assert(rest.push(ls.last()).drop_last() =~= rest);
        }
    }
}

/// Filtering is idempotent: filtering the selected lines again with the same
/// query and mode gives the same lines in the same order.
pub proof fn lemma_filter_idempotent(ls: Seq<Seq<char>>, q: Seq<char>, case_sensitive: bool)
    ensures
        selected(selected(ls, q, case_sensitive), q, case_sensitive) == selected(
            ls,
            q,
            case_sensitive,
        ),
{
    lemma_filter_twice(ls, |l: Seq<char>| line_matches(l, q, case_sensitive));
}

} // verus!
