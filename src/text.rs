use vstd::prelude::*;

verus! {

/// The pieces of `s` between line feeds, in order: one more than the number
/// of line feeds in `s`, the last one possibly empty.
pub open spec fn pieces(s: Seq<char>) -> Seq<Seq<char>>
    decreases s.len(),
{
    if s.len() == 0 {
        seq![Seq::empty()]
    } else {
        let p = pieces(s.drop_last());
        if s.last() == '\n' {
            p.push(Seq::empty())
        } else {
            p.update(p.len() - 1, p.last().push(s.last()))
        }
    }
}

/// A piece that was ended by a line feed, without the carriage return that
/// may stand before that line feed.
pub open spec fn strip_cr(l: Seq<char>) -> Seq<char> {
    if l.len() > 0 && l.last() == '\r' {
        l.drop_last()
    } else {
        l
    }
}

/// The lines of `s`: lines end at `\n` or `\r\n`, and the last line needs no
/// terminator. Empty text has no lines; a final terminator opens no new line.
pub open spec fn lines(s: Seq<char>) -> Seq<Seq<char>> {
    let p = pieces(s);
    let ended = p.drop_last().map_values(|l: Seq<char>| strip_cr(l));
    if p.last().len() == 0 {
        ended
    } else {
        ended.push(p.last())
    }
}

/// `q` occurs in `l` as a contiguous run starting at position `i`.
pub open spec fn occurs_at(l: Seq<char>, q: Seq<char>, i: int) -> bool {
    0 <= i && i + q.len() <= l.len() && l.subrange(i, i + q.len()) == q
}

/// `q` occurs somewhere in `l` as a contiguous run.
pub open spec fn contains(l: Seq<char>, q: Seq<char>) -> bool {
    exists|i: int| #[trigger] occurs_at(l, q, i)
}

/// The characters of `s`, in order.
pub fn chars_of(s: &str) -> (r: Vec<char>)
    ensures
        r@ == s@,
{
    let mut r: Vec<char> = Vec::new();
    for c in it: s.chars()
        invariant
            r@ == it.seq().take(it.index() as int),
    {
        r.push(c);
    }
    r
}

/// Whether `needle` occurs at position `at` of `hay`.
fn matches_at(hay: &Vec<char>, at: usize, needle: &Vec<char>) -> (r: bool)
    requires
        at + needle.len() <= hay.len(),
    ensures
        r == (hay@.subrange(at as int, at + needle.len()) == needle@),
{
    let mut j: usize = 0;
    while j < needle.len()
        invariant
            j <= needle.len(),
            at + needle.len() <= hay.len(),
            forall|k: int| 0 <= k < j ==> hay@[at + k] == needle@[k],
        decreases needle.len() - j,
    {
        if hay[at + j] != needle[j] {
            assert(hay@.subrange(at as int, at + needle.len())[j as int] != needle@[j as int]);
            return false;
        }
        j = j + 1;
    }
    assert(hay@.subrange(at as int, at + needle.len()) =~= needle@);
    true
}

/// Whether `needle` occurs in the part `lo..hi` of `hay`.
pub fn occurs_in(hay: &Vec<char>, lo: usize, hi: usize, needle: &Vec<char>) -> (r: bool)
    requires
        lo <= hi <= hay.len(),
    ensures
        r == contains(hay@.subrange(lo as int, hi as int), needle@),
{
    let ghost l = hay@.subrange(lo as int, hi as int);
    if needle.len() > hi - lo {
        assert forall|i: int| !#[trigger] occurs_at(l, needle@, i) by {}
        return false;
    }
    let last: usize = hi - needle.len();
    let mut at: usize = lo;
    loop
        invariant
            lo <= at <= last,
            last + needle.len() == hi,
            hi <= hay.len(),
            l == hay@.subrange(lo as int, hi as int),
            forall|i: int| 0 <= i < at - lo ==> !#[trigger] occurs_at(l, needle@, i),
        ensures
            forall|i: int| 0 <= i <= last - lo ==> !#[trigger] occurs_at(l, needle@, i),
        decreases last - at,
    {
        if matches_at(hay, at, needle) {
            assert(l.subrange(at - lo, at - lo + needle.len()) =~= hay@.subrange(at as int, at + needle.len()));
            assert(occurs_at(l, needle@, at - lo));
            return true;
        }
        assert(l.subrange(at - lo, at - lo + needle.len()) =~= hay@.subrange(at as int, at + needle.len()));
        if at == last {
            break;
        }
        at = at + 1;
    }
    assert forall|i: int| !#[trigger] occurs_at(l, needle@, i) by {}
    false
}

/// Where each line of `s` starts and ends: the line with number `k` is
/// `s[r[k].0..r[k].1]`.
pub fn line_bounds(s: &Vec<char>) -> (r: Vec<(usize, usize)>)
    ensures
        r.len() == lines(s@).len(),
        forall|k: int|
            #![trigger r[k]]
            #![trigger lines(s@)[k]]
            0 <= k < r.len() ==> {
                &&& r[k].0 <= r[k].1 <= s.len()
                &&& s@.subrange(r[k].0 as int, r[k].1 as int) == lines(s@)[k]
            },
{
    let mut r: Vec<(usize, usize)> = Vec::new();
    let mut start: usize = 0;
    let ghost mut done: Seq<Seq<char>> = Seq::empty();
    let mut i: usize = 0;
    assert(s@.take(0) =~= Seq::empty());
    while i < s.len()
        invariant
            start <= i <= s.len(),
            pieces(s@.take(i as int)) == done.push(s@.subrange(start as int, i as int)),
            r.len() == done.len(),
            forall|k: int|
                #![trigger r[k]]
                #![trigger done[k]]
                0 <= k < r.len() ==> {
                    &&& r[k].0 <= r[k].1 <= s.len()
                    &&& s@.subrange(r[k].0 as int, r[k].1 as int) == strip_cr(done[k])
                },
        decreases s.len() - i,
    {
        let ghost cur = s@.subrange(start as int, i as int);
        assert(s@.take(i + 1).drop_last() =~= s@.take(i as int));
        if s[i] == '\n' {
            let end: usize = if i > start && s[i - 1] == '\r' {
                assert(s@.subrange(start as int, i - 1) =~= cur.drop_last());
                i - 1
            } else {
                if i > start {
                    assert(cur.last() == s@[i - 1]);
                }
                i
            };
            assert(s@.subrange(start as int, end as int) == strip_cr(cur));
            let ghost r0 = r@;
            let ghost done0 = done;
            r.push((start, end));
            proof {
                done = done.push(cur);
                assert forall|k: int| 0 <= k < r.len() implies {
                    &&& r[k].0 <= r[k].1 <= s.len()
                    &&& s@.subrange(r[k].0 as int, r[k].1 as int) == strip_cr(#[trigger] done[k])
                } by {
                    if k < r0.len() {
                        assert(r[k] == r0[k]);
                        assert(done[k] == done0[k]);
                    }
                }
                assert(s@.subrange(i + 1, i + 1) =~= Seq::<char>::empty());
            }
            start = i + 1;
        } else {
            assert(s@.subrange(start as int, i + 1) =~= cur.push(s@[i as int]));
            assert(done.push(cur).update(done.len() as int, cur.push(s@[i as int])) =~= done.push(
                s@.subrange(start as int, i + 1),
            ));
        }
        i = i + 1;
    }
    assert(s@.take(s.len() as int) =~= s@);
    let ghost p = pieces(s@);
    assert(p.drop_last() =~= done);
    if start < s.len() {
        r.push((start, s.len()));
    }
    assert forall|k: int| 0 <= k < r.len() implies #[trigger] lines(s@)[k] == s@.subrange(
        r[k].0 as int,
        r[k].1 as int,
    ) by {
        if k < done.len() {
            assert(lines(s@)[k] == strip_cr(done[k]));
            assert(s@.subrange(r[k].0 as int, r[k].1 as int) == strip_cr(done[k]));
        } else {
            assert(lines(s@)[k] == p.last());
        }
    }
    r
}

} // verus!
