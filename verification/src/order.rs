//! The two orders in which a listing is returned, and the stable sort that
//! establishes them.

use vstd::prelude::*;
use crate::model::DirEntry;

verus! {

/// The order of a listing.
#[derive(Clone, Copy, Debug, PartialEq, Eq, Structural)]
pub enum SortOrder {
    /// Largest first.
    SizeDescending,
    /// By name, ignoring case, in ascending order of the lower-cased names.
    NameAscending,
}

/// The lower-cased form of a name, as `str::to_lowercase` gives it.
pub uninterp spec fn lowered(name: Seq<char>) -> Seq<char>;

/// Calls `str::to_lowercase` and hands the result out char by char. The
/// contract only names the result: it is the lower-cased form of `name`.
#[verifier::external_body]
fn lowercase_chars(name: &str) -> (key: Vec<char>)
    ensures
        key@ == lowered(name@),
{
    name.to_lowercase().chars().collect()
}

/// Whether `a` is before `b` in dictionary order of the code points, looking
/// from position `i` on.
pub open spec fn lex_lt_from(a: Seq<char>, b: Seq<char>, i: int) -> bool
    decreases a.len() - i,
{
    if i < 0 || i >= b.len() {
        false
    } else if i >= a.len() {
        true
    } else if a[i] < b[i] {
        true
    } else if a[i] > b[i] {
        false
    } else {
        lex_lt_from(a, b, i + 1)
    }
}

/// Whether `a` is strictly before `b` in dictionary order of the code points.
pub open spec fn lex_lt(a: Seq<char>, b: Seq<char>) -> bool {
    lex_lt_from(a, b, 0)
}

/// Whether `a` has to stand before `b` in a listing in `order`.
pub open spec fn precedes(order: SortOrder, a: DirEntry, b: DirEntry) -> bool {
    match order {
        SortOrder::SizeDescending => a.size > b.size,
        SortOrder::NameAscending => lex_lt(lowered(a.name@), lowered(b.name@)),
    }
}

proof fn lemma_lex_asymmetric(a: Seq<char>, b: Seq<char>, i: int)
    requires
        lex_lt_from(a, b, i),
    ensures
        !lex_lt_from(b, a, i),
    decreases a.len() - i,
{
    if i < a.len() && i < b.len() && a[i] == b[i] {
        lemma_lex_asymmetric(a, b, i + 1);
    }
}

proof fn lemma_lex_chain(a: Seq<char>, b: Seq<char>, c: Seq<char>, i: int)
    requires
        !lex_lt_from(a, b, i),
        !lex_lt_from(b, c, i),
    ensures
        !lex_lt_from(a, c, i),
    decreases a.len() - i,
{
    if 0 <= i < a.len() && i < b.len() && i < c.len() && a[i] == b[i] && b[i] == c[i] {
        lemma_lex_chain(a, b, c, i + 1);
    }
}

/// No two entries have to stand before each other.
pub proof fn lemma_precedes_asymmetric(order: SortOrder, a: DirEntry, b: DirEntry)
    requires
        precedes(order, a, b),
    ensures
        !precedes(order, b, a),
{
    if order == SortOrder::NameAscending {
        lemma_lex_asymmetric(lowered(a.name@), lowered(b.name@), 0);
    }
}

/// Where `a` need not stand before `b`, nor `b` before `c`, `a` need not
/// stand before `c`.
pub proof fn lemma_precedes_chain(order: SortOrder, a: DirEntry, b: DirEntry, c: DirEntry)
    requires
        !precedes(order, a, b),
        !precedes(order, b, c),
    ensures
        !precedes(order, a, c),
{
    if order == SortOrder::NameAscending {
        lemma_lex_chain(lowered(a.name@), lowered(b.name@), lowered(c.name@), 0);
    }
}

/// Dictionary order of two char sequences.
pub fn chars_before(a: &Vec<char>, b: &Vec<char>) -> (r: bool)
    ensures
        r == lex_lt(a@, b@),
{
    let mut i: usize = 0;
    while i < a.len() && i < b.len()
        invariant
            i <= a.len(),
            i <= b.len(),
            lex_lt(a@, b@) == lex_lt_from(a@, b@, i as int),
        decreases a.len() - i,
    {
        let x = a[i];
        let y = b[i];
        if x < y {
            return true;
        }
        if x > y {
            return false;
        }
        i += 1;
    }
    i < b.len()
}

/// Whether `a` has to stand before `b` in `order`.
pub fn comes_before(order: SortOrder, a: &DirEntry, b: &DirEntry) -> (r: bool)
    ensures
        r == precedes(order, *a, *b),
{
    match order {
        SortOrder::SizeDescending => a.size > b.size,
        SortOrder::NameAscending => {
            let ka = lowercase_chars(a.name.as_str());
            let kb = lowercase_chars(b.name.as_str());
            chars_before(&ka, &kb)
        },
    }
}

/// `p` lists each index below `n` once.
pub open spec fn is_arrangement(p: Seq<int>, n: nat) -> bool {
    &&& p.len() == n
    &&& forall|i: int| 0 <= i < p.len() ==> 0 <= #[trigger] p[i] < n
    &&& forall|i: int, j: int| 0 <= i < j < p.len() ==> #[trigger] p[i] != #[trigger] p[j]
}

/// No entry of `out` has to stand before an earlier one.
pub open spec fn is_sorted(out: Seq<DirEntry>, order: SortOrder) -> bool {
    forall|i: int, j: int| 0 <= i < j < out.len() ==> !precedes(order, #[trigger] out[j], #[trigger] out[i])
}

/// `out` holds the entries of `inp`, the one at `i` taken from `p[i]`, in
/// `order`; entries that tie keep the order they had in `inp`.
pub open spec fn sorts_stably(
    p: Seq<int>,
    inp: Seq<DirEntry>,
    out: Seq<DirEntry>,
    order: SortOrder,
) -> bool {
    &&& is_arrangement(p, inp.len())
    &&& out.len() == inp.len()
    &&& forall|i: int| 0 <= i < out.len() ==> #[trigger] out[i] == inp[p[i]]
    &&& is_sorted(out, order)
    &&& forall|i: int, j: int|
        0 <= i < j < out.len() ==> precedes(order, #[trigger] out[i], #[trigger] out[j]) || p[i] < p[j]
}

/// `out` is `inp` sorted stably in `order`.
pub open spec fn is_stable_sort(inp: Seq<DirEntry>, out: Seq<DirEntry>, order: SortOrder) -> bool {
    exists|p: Seq<int>| sorts_stably(p, inp, out, order)
}

/// Sorts `entries` in `order`, keeping ties in the order in which they came.
pub fn sort_entries(entries: Vec<DirEntry>, order: SortOrder) -> (out: Vec<DirEntry>)
    ensures
        is_stable_sort(entries@, out@, order),
{
    let ghost inp = entries@;
    let mut rest = entries;
    let mut out: Vec<DirEntry> = Vec::new();
    let ghost mut p: Seq<int> = Seq::empty();
    while rest.len() > 0
        invariant
            rest@ == inp.take(rest@.len() as int),
            rest@.len() <= inp.len(),
            out@.len() == inp.len() - rest@.len(),
            p.len() == out@.len(),
            forall|i: int| 0 <= i < p.len() ==> rest@.len() <= #[trigger] p[i] < inp.len(),
            forall|i: int, j: int| 0 <= i < j < p.len() ==> #[trigger] p[i] != #[trigger] p[j],
            forall|i: int| 0 <= i < out@.len() ==> #[trigger] out@[i] == inp[p[i]],
            is_sorted(out@, order),
            forall|i: int, j: int|
                0 <= i < j < out@.len() ==> precedes(order, #[trigger] out@[i], #[trigger] out@[j])
                    || p[i] < p[j],
        decreases rest@.len(),
    {
        let ghost m = rest@.len() - 1;
        let x = rest.pop().unwrap();
        assert(x == inp[m]);
        assert(rest@ =~= inp.take(m));
        let mut j: usize = 0;
        while j < out.len() && comes_before(order, &out[j], &x)
            invariant
                j <= out@.len(),
                forall|k: int| 0 <= k < j ==> precedes(order, #[trigger] out@[k], x),
            decreases out@.len() - j,
        {
            j += 1;
        }
        let ghost before = out@;
        let ghost q = p;
        out.insert(j, x);
        proof {
            p = q.insert(j as int, m);
            before.insert_ensures(j as int, x);
            q.insert_ensures(j as int, m);
            let after = out@;
            assert forall|a: int, b: int| 0 <= a < b < after.len() implies !precedes(
                order,
                #[trigger] after[b],
                #[trigger] after[a],
            ) && (precedes(order, after[a], after[b]) || p[a] < p[b]) && p[a] != p[b] by {
                if a == j {
                    assert(after[b] == before[b - 1]);
                    assert(p[b] == q[b - 1]);
                    if b - 1 > j {
                        assert(!precedes(order, before[b - 1], before[j as int]));
                        lemma_precedes_chain(order, before[b - 1], before[j as int], x);
                    }
                } else if b == j {
                    assert(after[a] == before[a]);
                    assert(p[a] == q[a]);
                    assert(precedes(order, before[a], x));
                    lemma_precedes_asymmetric(order, before[a], x);
                } else {
                    let a0 = if a < j { a } else { a - 1 };
                    let b0 = if b < j { b } else { b - 1 };
                    assert(after[a] == before[a0] && p[a] == q[a0]);
                    assert(after[b] == before[b0] && p[b] == q[b0]);
                    assert(!precedes(order, before[b0], before[a0]));
                }
            }
            assert forall|i: int| 0 <= i < after.len() implies #[trigger] after[i] == inp[p[i]]
                && m <= p[i] < inp.len() by {
                if i < j {
                    assert(after[i] == before[i] && p[i] == q[i]);
                } else if i > j {
                    assert(after[i] == before[i - 1] && p[i] == q[i - 1]);
                }
            }
        }
    }
    proof {
        assert(sorts_stably(p, inp, out@, order));
    }
    out
}

} // verus!
