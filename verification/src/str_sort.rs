//! Ordering lists of strings by character order.

use vstd::prelude::*;
use crate::text::{lemma_lex_total, lemma_lex_trans, lex_lt, str_lt};

verus! {

/// Where `x` goes among `t` from index `i` on: before the first entry
/// greater than it.
pub open spec fn str_insert_pos(t: Seq<Seq<char>>, x: Seq<char>, i: int) -> int
    decreases t.len() - i,
{
    if i >= t.len() || i < 0 {
        t.len() as int
    } else if lex_lt(x, t[i]) {
        i
    } else {
        str_insert_pos(t, x, i + 1)
    }
}

/// `s` in character order; equal strings keep their order.
pub open spec fn sort_strs(s: Seq<Seq<char>>) -> Seq<Seq<char>>
    decreases s.len(),
{
    if s.len() == 0 {
        s
    } else {
        let t = sort_strs(s.drop_last());
        t.insert(str_insert_pos(t, s.last(), 0), s.last())
    }
}

/// Whether the strings are in character order.
pub open spec fn strs_sorted(s: Seq<Seq<char>>) -> bool {
    forall|i: int, j: int| 0 <= i < j < s.len() ==> !lex_lt(#[trigger] s[j], #[trigger] s[i])
}

proof fn lemma_pos_range(t: Seq<Seq<char>>, x: Seq<char>, i: int)
    requires
        0 <= i <= t.len(),
    ensures
        i <= str_insert_pos(t, x, i) <= t.len(),
    decreases t.len() - i,
{
    if i < t.len() && !lex_lt(x, t[i]) {
        lemma_pos_range(t, x, i + 1);
    }
}

proof fn lemma_sort_strs_len(s: Seq<Seq<char>>)
    ensures
        sort_strs(s).len() == s.len(),
    decreases s.len(),
{
    if s.len() > 0 {
        lemma_sort_strs_len(s.drop_last());
        lemma_pos_range(sort_strs(s.drop_last()), s.last(), 0);
    }
}

proof fn lemma_pos_before(t: Seq<Seq<char>>, x: Seq<char>, i: int, k: int)
    requires
        0 <= i <= k < str_insert_pos(t, x, i),
        str_insert_pos(t, x, i) <= t.len(),
    ensures
        !lex_lt(x, t[k]),
    decreases k - i,
{
    if i < k {
        lemma_pos_before(t, x, i + 1, k);
    }
}

proof fn lemma_pos_at(t: Seq<Seq<char>>, x: Seq<char>, i: int)
    requires
        0 <= i <= t.len(),
        str_insert_pos(t, x, i) < t.len(),
    ensures
        lex_lt(x, t[str_insert_pos(t, x, i)]),
    decreases t.len() - i,
{
    if i < t.len() && !lex_lt(x, t[i]) {
        lemma_pos_at(t, x, i + 1);
    }
}

/// Sorting gives the strings in character order.
pub proof fn lemma_sort_strs_sorted(s: Seq<Seq<char>>)
    ensures
        strs_sorted(sort_strs(s)),
        sort_strs(s).len() == s.len(),
    decreases s.len(),
{
    lemma_sort_strs_len(s);
    if s.len() > 0 {
        let t = sort_strs(s.drop_last());
        let x = s.last();
        lemma_sort_strs_sorted(s.drop_last());
        lemma_pos_range(t, x, 0);
        let p = str_insert_pos(t, x, 0);
        let r = t.insert(p, x);
        assert forall|i: int, j: int| 0 <= i < j < r.len() implies !lex_lt(#[trigger] r[j], #[trigger] r[i]) by {
            if j < p {
                assert(r[i] == t[i] && r[j] == t[j]);
            } else if j == p {
                lemma_pos_before(t, x, 0, i);
            } else if i == p {
                assert(r[j] == t[j - 1]);
                lemma_pos_at(t, x, 0);
                lemma_lex_total(x, t[p]);
                if p < j - 1 {
                    assert(!lex_lt(t[j - 1], t[p]));
                    if lex_lt(t[j - 1], x) {
                        lemma_lex_trans(t[j - 1], x, t[p]);
                    }
                }
            } else if i < p {
                assert(r[i] == t[i] && r[j] == t[j - 1]);
            } else {
                assert(r[i] == t[i - 1] && r[j] == t[j - 1]);
            }
        }
    }
}

/// Sorting keeps every string, as often as it occurs.
pub proof fn lemma_sort_strs_permutes(s: Seq<Seq<char>>)
    ensures
        sort_strs(s).to_multiset() == s.to_multiset(),
    decreases s.len(),
{
    if s.len() > 0 {
        let t = sort_strs(s.drop_last());
        lemma_sort_strs_permutes(s.drop_last());
        lemma_sort_strs_len(s.drop_last());
        lemma_pos_range(t, s.last(), 0);
        vstd::seq_lib::to_multiset_insert(t, str_insert_pos(t, s.last(), 0), s.last());
        vstd::seq_lib::to_multiset_build(s.drop_last(), s.last());
        assert(s.drop_last().push(s.last()) =~= s);
    }
}

/// The strings in character order, equal ones in their given order.
pub fn sort_strings(v: &Vec<String>) -> (res: Vec<String>)
    ensures
        res.deep_view() == sort_strs(v.deep_view()),
        strs_sorted(res.deep_view()),
        res.deep_view().to_multiset() == v.deep_view().to_multiset(),
{
    let ghost s = v.deep_view();
    let mut sorted: Vec<String> = Vec::new();
    let mut i: usize = 0;
    while i < v.len()
        invariant
            i <= v@.len(),
            s == v.deep_view(),
            sorted.deep_view() == sort_strs(s.take(i as int)),
        decreases v@.len() - i,
    {
        let ghost pre = s.take(i as int);
        assert(s.take(i + 1).drop_last() =~= pre);
        assert(s.take(i + 1).last() == v@[i as int]@);
        proof {
            lemma_sort_strs_len(pre);
        }
        let x = &v[i];
        let mut k: usize = 0;
        while k < sorted.len() && !str_lt(x.as_str(), sorted[k].as_str())
            invariant
                k <= sorted@.len(),
                sorted.deep_view().len() == sorted@.len(),
                str_insert_pos(sorted.deep_view(), x@, k as int) == str_insert_pos(sorted.deep_view(), x@, 0),
            decreases sorted@.len() - k,
        {
            assert(sorted.deep_view()[k as int] == sorted@[k as int]@);
            k = k + 1;
        }
        proof {
            if k < sorted@.len() {
                assert(sorted.deep_view()[k as int] == sorted@[k as int]@);
            }
        }
        assert(str_insert_pos(sorted.deep_view(), x@, k as int) == k);
        let ghost before = sorted.deep_view();
        sorted.insert(k, x.clone());
        assert(sorted.deep_view() =~= before.insert(k as int, x@));
        i = i + 1;
    }
    assert(s.take(s.len() as int) =~= s);
    proof {
        lemma_sort_strs_sorted(s);
        lemma_sort_strs_permutes(s);
    }
    sorted
}

} // verus!
