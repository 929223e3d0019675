//! A stable insertion sort of nodes by name, generic over the node type,
//! with the facts the tree builder's laws rest on: the result is ordered,
//! sorting an ordered run changes nothing, and a property of every node is
//! kept.

use vstd::prelude::*;
use crate::text::lex_le;
use crate::text::lemma_lex_le_total;
use crate::text::lemma_lex_le_trans;

verus! {

/// Whether the names of `s` are in non-decreasing order.
pub open spec fn sorted_by_name<A>(s: Seq<A>, name: spec_fn(A) -> Seq<char>) -> bool {
    forall|i: int, j: int| 0 <= i < j < s.len() ==> lex_le(name(#[trigger] s[i]), name(#[trigger] s[j]))
}

/// Inserts `x` after every element whose name is not greater than its own:
/// where a stable sort places the latest-arriving element.
pub open spec fn insert_by_name<A>(s: Seq<A>, x: A, name: spec_fn(A) -> Seq<char>) -> Seq<A>
    decreases s.len(),
{
    if s.len() == 0 {
        seq![x]
    } else if lex_le(name(s.last()), name(x)) {
        s.push(x)
    } else {
        insert_by_name(s.drop_last(), x, name).push(s.last())
    }
}

/// Sorts by name: a stable insertion sort, inserting each element into the
/// sorted run of the elements before it.
pub open spec fn sort_by_name<A>(s: Seq<A>, name: spec_fn(A) -> Seq<char>) -> Seq<A>
    decreases s.len(),
{
    if s.len() == 0 {
        s
    } else {
        insert_by_name(sort_by_name(s.drop_last(), name), s.last(), name)
    }
}

/// Where the insertion point is known — every element from `j` on has a
/// greater name, the element before `j` (if any) does not — inserting by
/// name is inserting at `j`.
pub proof fn lemma_insert_by_name_at<A>(s: Seq<A>, x: A, name: spec_fn(A) -> Seq<char>, j: int)
    requires
        0 <= j <= s.len(),
        forall|k: int| j <= k < s.len() ==> !lex_le(name(#[trigger] s[k]), name(x)),
        j > 0 ==> lex_le(name(s[j - 1]), name(x)),
    ensures
        insert_by_name(s, x, name) == s.insert(j, x),
    decreases s.len(),
{
    if s.len() == 0 {
        assert(insert_by_name(s, x, name) =~= s.insert(0, x));
    } else if j == s.len() {
        assert(lex_le(name(s.last()), name(x)));
        assert(insert_by_name(s, x, name) =~= s.insert(j, x));
    } else {
        assert(!lex_le(name(s[s.len() - 1]), name(x)));
        lemma_insert_by_name_at(s.drop_last(), x, name, j);
        assert(insert_by_name(s, x, name) =~= s.insert(j, x));
    }
}

/// Inserting by name keeps a property that every element and the new
/// element have, and grows the run by one.
pub proof fn lemma_insert_by_name_all<A>(
    s: Seq<A>,
    x: A,
    name: spec_fn(A) -> Seq<char>,
    pred: spec_fn(A) -> bool,
)
    requires
        forall|i: int| 0 <= i < s.len() ==> pred(#[trigger] s[i]),
        pred(x),
    ensures
        insert_by_name(s, x, name).len() == s.len() + 1,
        forall|i: int|
            0 <= i < s.len() + 1 ==> pred(#[trigger] insert_by_name(s, x, name)[i]),
    decreases s.len(),
{
    if s.len() == 0 {
    } else if lex_le(name(s.last()), name(x)) {
    } else {
        lemma_insert_by_name_all(s.drop_last(), x, name, pred);
    }
}

/// Inserting by name into an ordered run keeps it ordered.
pub proof fn lemma_insert_by_name_sorted<A>(s: Seq<A>, x: A, name: spec_fn(A) -> Seq<char>)
    requires
        sorted_by_name(s, name),
    ensures
        sorted_by_name(insert_by_name(s, x, name), name),
    decreases s.len(),
{
    if s.len() == 0 {
    } else if lex_le(name(s.last()), name(x)) {
        let r = s.push(x);
        assert forall|i: int, j: int| 0 <= i < j < r.len() implies lex_le(
            name(r[i]),
            name(r[j]),
        ) by {
            if j == r.len() - 1 {
                if i < s.len() - 1 {
                    lemma_lex_le_trans(name(s[i]), name(s.last()), name(x));
                }
            }
        }
    } else {
        assert(sorted_by_name(s.drop_last(), name)) by {
            assert(forall|i: int|
                0 <= i < s.len() - 1 ==> #[trigger] s.drop_last()[i] == s[i]);
        }
        lemma_insert_by_name_sorted(s.drop_last(), x, name);
        let r0 = insert_by_name(s.drop_last(), x, name);
        lemma_lex_le_total(name(s.last()), name(x));
        lemma_insert_by_name_all(
            s.drop_last(),
            x,
            name,
            |a: A| lex_le(name(a), name(s.last())),
        );
        let r = r0.push(s.last());
        assert forall|i: int, j: int| 0 <= i < j < r.len() implies lex_le(
            name(r[i]),
            name(r[j]),
        ) by {
            if j == r.len() - 1 {
                assert(lex_le(name(r0[i]), name(s.last())));
            }
        }
    }
}

/// Sorting by name yields an ordered run.
pub proof fn lemma_sort_by_name_sorted<A>(s: Seq<A>, name: spec_fn(A) -> Seq<char>)
    ensures
        sorted_by_name(sort_by_name(s, name), name),
    decreases s.len(),
{
    if s.len() > 0 {
        lemma_sort_by_name_sorted(s.drop_last(), name);
        lemma_insert_by_name_sorted(sort_by_name(s.drop_last(), name), s.last(), name);
    }
}

/// Sorting keeps a property that every element has, and keeps the length.
pub proof fn lemma_sort_by_name_all<A>(
    s: Seq<A>,
    name: spec_fn(A) -> Seq<char>,
    pred: spec_fn(A) -> bool,
)
    requires
        forall|i: int| 0 <= i < s.len() ==> pred(#[trigger] s[i]),
    ensures
        sort_by_name(s, name).len() == s.len(),
        forall|i: int| 0 <= i < s.len() ==> pred(#[trigger] sort_by_name(s, name)[i]),
    decreases s.len(),
{
    if s.len() > 0 {
        assert(forall|i: int|
            0 <= i < s.len() - 1 ==> pred(#[trigger] s.drop_last()[i]));
        lemma_sort_by_name_all(s.drop_last(), name, pred);
        lemma_insert_by_name_all(sort_by_name(s.drop_last(), name), s.last(), name, pred);
    }
}

/// Sorting an ordered run changes nothing.
pub proof fn lemma_sort_by_name_of_sorted<A>(s: Seq<A>, name: spec_fn(A) -> Seq<char>)
    requires
        sorted_by_name(s, name),
    ensures
        sort_by_name(s, name) == s,
    decreases s.len(),
{
    if s.len() == 0 {
    } else {
        let d = s.drop_last();
        assert(sorted_by_name(d, name)) by {
            assert(forall|i: int| 0 <= i < s.len() - 1 ==> #[trigger] d[i] == s[i]);
        }
        lemma_sort_by_name_of_sorted(d, name);
        if d.len() == 0 {
            assert(insert_by_name(d, s.last(), name) =~= s);
        } else {
            assert(lex_le(name(d.last()), name(s.last())));
            assert(d.push(s.last()) =~= s);
        }
    }
}

} // verus!
