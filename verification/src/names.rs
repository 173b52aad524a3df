//! Lists of names: membership, and the sorted list without repetitions that
//! holds the same names as a given list.

use crate::text::{
    chars_of, lemma_lex_lt_irreflexive, lemma_lex_lt_total, lemma_lex_lt_transitive, less, lex_lt,
    same, same_str, string_of,
};
use vstd::prelude::*;

verus! {

/// The texts of a list of strings.
pub open spec fn texts(v: Seq<String>) -> Seq<Seq<char>> {
    Seq::new(v.len(), |i: int| v[i]@)
}

/// The texts of a list of character vectors.
pub open spec fn rows(v: Seq<Vec<char>>) -> Seq<Seq<char>> {
    Seq::new(v.len(), |i: int| v[i]@)
}

/// Each text comes before the next in the lexicographic order by code point,
/// so that the list is sorted and holds no text twice.
pub open spec fn strictly_sorted(s: Seq<Seq<char>>) -> bool {
    forall|i: int, j: int| 0 <= i < j < s.len() ==> lex_lt(#[trigger] s[i], #[trigger] s[j])
}

/// `a` and `b` hold the same texts, whatever their order and number.
pub open spec fn same_texts(a: Seq<Seq<char>>, b: Seq<Seq<char>>) -> bool {
    forall|x: Seq<char>| a.contains(x) <==> b.contains(x)
}

/// `r` is `s` sorted, with each text once.
pub open spec fn is_sorted_set_of(r: Seq<Seq<char>>, s: Seq<Seq<char>>) -> bool {
    strictly_sorted(r) && same_texts(r, s)
}

/// A sorted list without repetitions is determined by the texts it holds.
pub proof fn lemma_sorted_unique(a: Seq<Seq<char>>, b: Seq<Seq<char>>)
    requires
        strictly_sorted(a),
        strictly_sorted(b),
        same_texts(a, b),
    ensures
        a == b,
    decreases a.len(),
{
    if a.len() == 0 {
        if b.len() > 0 {
            assert(b.contains(b[0]));
            assert(a.contains(b[0]));
        }
        assert(a =~= b);
    } else {
        assert(a.contains(a[0]));
        assert(b.contains(a[0]));
        let k = choose|k: int| 0 <= k < b.len() && b[k] == a[0];
        assert(b.contains(b[0]));
        assert(a.contains(b[0]));
        let m = choose|m: int| 0 <= m < a.len() && a[m] == b[0];
        // The two first elements are each the least of the same texts.
        if k > 0 {
            assert(lex_lt(b[0], b[k]));
            if m > 0 {
                assert(lex_lt(a[0], a[m]));
                lemma_lex_lt_transitive(a[0], b[0], a[0]);
            }
            lemma_lex_lt_irreflexive(a[0]);
        }
        assert(a[0] == b[0]);
        let ta = a.subrange(1, a.len() as int);
        let tb = b.subrange(1, b.len() as int);
        assert forall|x: Seq<char>| ta.contains(x) <==> tb.contains(x) by {
            if ta.contains(x) {
                let i = choose|i: int| 0 <= i < ta.len() && ta[i] == x;
                assert(a[i + 1] == x);
                assert(a.contains(x));
                assert(lex_lt(a[0], a[i + 1]));
                let j = choose|j: int| 0 <= j < b.len() && b[j] == x;
                if j == 0 {
                    lemma_lex_lt_irreflexive(x);
                }
                assert(tb[j - 1] == x);
            }
            if tb.contains(x) {
                let i = choose|i: int| 0 <= i < tb.len() && tb[i] == x;
                assert(b[i + 1] == x);
                assert(b.contains(x));
                assert(lex_lt(b[0], b[i + 1]));
                let j = choose|j: int| 0 <= j < a.len() && a[j] == x;
                if j == 0 {
                    lemma_lex_lt_irreflexive(x);
                }
                assert(ta[j - 1] == x);
            }
        }
        assert forall|i: int, j: int| 0 <= i < j < ta.len() implies lex_lt(
            #[trigger] ta[i],
            #[trigger] ta[j],
        ) by {
            assert(lex_lt(a[i + 1], a[j + 1]));
        }
        assert forall|i: int, j: int| 0 <= i < j < tb.len() implies lex_lt(
            #[trigger] tb[i],
            #[trigger] tb[j],
        ) by {
            assert(lex_lt(b[i + 1], b[j + 1]));
        }
        lemma_sorted_unique(ta, tb);
        assert(a =~= seq![a[0]] + ta);
        assert(b =~= seq![b[0]] + tb);
    }
}

/// Whether `name` is one of `list`.
pub fn contains_name(list: &Vec<String>, name: &str) -> (r: bool)
    ensures
        r == texts(list@).contains(name@),
{
    let mut i: usize = 0;
    while i < list.len()
        invariant
            i <= list.len(),
            forall|k: int| 0 <= k < i ==> list[k]@ != name@,
        decreases list.len() - i,
    {
        if same_str(list[i].as_str(), name) {
            assert(texts(list@)[i as int] == name@);
            return true;
        }
        i += 1;
    }
    false
}

/// Puts `item` in its place in the sorted list `v`, unless it is there.
fn insert_sorted(v: &mut Vec<Vec<char>>, item: Vec<char>)
    requires
        strictly_sorted(rows(old(v)@)),
    ensures
        strictly_sorted(rows(final(v)@)),
        forall|x: Seq<char>|
            rows(final(v)@).contains(x) <==> (rows(old(v)@).contains(x) || x == item@),
{
    let ghost before = rows(v@);
    let mut i: usize = 0;
    while i < v.len() && less(v[i].as_slice(), item.as_slice())
        invariant
            i <= v.len(),
            rows(v@) == before,
            forall|k: int| 0 <= k < i ==> lex_lt(#[trigger] before[k], item@),
        decreases v.len() - i,
    {
        assert(before[i as int] == v[i as int]@);
        i += 1;
    }
    if i < v.len() && same(v[i].as_slice(), item.as_slice()) {
        assert(before[i as int] == item@);
        return ;
    }
    let ghost it = item@;
    v.insert(i, item);
    proof {
        let after = rows(v@);
        let p = i as int;
        assert(after.len() == before.len() + 1);
        assert(after[p] == it);
        assert forall|k: int| 0 <= k < p implies after[k] == before[k] by {}
        assert forall|k: int| p < k < after.len() implies after[k] == before[k - 1] by {}
        if p < before.len() {
            assert(before[p] == old(v)@[p]@);
            lemma_lex_lt_total(before[p], it);
        }
        assert forall|a: int, b: int| 0 <= a < b < after.len() implies lex_lt(
            #[trigger] after[a],
            #[trigger] after[b],
        ) by {
            if b < p {
                assert(lex_lt(before[a], before[b]));
            } else if b == p {
                assert(lex_lt(before[a], it));
            } else if a == p {
                if b - 1 > p {
                    assert(lex_lt(before[p], before[b - 1]));
                    lemma_lex_lt_transitive(it, before[p], before[b - 1]);
                }
            } else if a < p {
                assert(lex_lt(before[a], before[b - 1]));
            } else {
                assert(lex_lt(before[a - 1], before[b - 1]));
            }
        }
        assert forall|x: Seq<char>| after.contains(x) <==> (before.contains(x) || x == it) by {
            if after.contains(x) {
                let k = choose|k: int| 0 <= k < after.len() && after[k] == x;
                if k < p {
                    assert(before[k] == x);
                } else if k > p {
                    assert(before[k - 1] == x);
                }
            }
            if before.contains(x) {
                let k = choose|k: int| 0 <= k < before.len() && before[k] == x;
                if k < p {
                    assert(after[k] == x);
                } else {
                    assert(after[k + 1] == x);
                }
            }
        }
    }
}

/// The names of `items`, sorted, each once.
pub fn sort_dedup(items: &Vec<String>) -> (r: Vec<String>)
    ensures
        is_sorted_set_of(texts(r@), texts(items@)),
{
    let mut sorted: Vec<Vec<char>> = Vec::new();
    let mut i: usize = 0;
    while i < items.len()
        invariant
            i <= items.len(),
            strictly_sorted(rows(sorted@)),
            forall|x: Seq<char>|
                rows(sorted@).contains(x) <==> texts(items@.take(i as int)).contains(x),
        decreases items.len() - i,
    {
        let item = chars_of(items[i].as_str());
        let ghost before = rows(sorted@);
        insert_sorted(&mut sorted, item);
        proof {
            let head = texts(items@.take(i as int));
            let next = texts(items@.take(i + 1));
            assert forall|x: Seq<char>| next.contains(x) <==> (head.contains(x) || x
                == items[i as int]@) by {
                if next.contains(x) {
                    let k = choose|k: int| 0 <= k < next.len() && next[k] == x;
                    if k < i {
                        assert(head[k] == x);
                    }
                }
                if head.contains(x) {
                    let k = choose|k: int| 0 <= k < head.len() && head[k] == x;
                    assert(next[k] == x);
                }
                if x == items[i as int]@ {
                    assert(next[i as int] == x);
                }
            }
        }
        i += 1;
    }
    assert(items@.take(items.len() as int) == items@);
    let mut out: Vec<String> = Vec::new();
    let mut k: usize = 0;
    while k < sorted.len()
        invariant
            k <= sorted.len(),
            out.len() == k,
            forall|j: int| 0 <= j < k ==> out[j]@ == sorted[j]@,
        decreases sorted.len() - k,
    {
        out.push(string_of(sorted[k].as_slice()));
        k += 1;
    }
    assert(texts(out@) =~= rows(sorted@));
    out
}

/// Appends a copy of each name of `from` to `to`.
pub fn append_names(to: &mut Vec<String>, from: &Vec<String>)
    ensures
        texts(final(to)@) == texts(old(to)@) + texts(from@),
{
    let mut i: usize = 0;
    assert(texts(to@) =~= texts(old(to)@) + texts(from@.take(0)));
    while i < from.len()
        invariant
            i <= from.len(),
            texts(to@) == texts(old(to)@) + texts(from@.take(i as int)),
        decreases from.len() - i,
    {
        let ghost before = texts(to@);
        to.push(from[i].clone());
        assert(texts(to@) =~= before.push(from@[i as int]@));
        assert(texts(from@.take(i + 1)) =~= texts(from@.take(i as int)).push(from@[i as int]@));
        assert(texts(to@) =~= texts(old(to)@) + texts(from@.take(i + 1)));
        i += 1;
    }
    assert(from@.take(from.len() as int) =~= from@);
}

} // verus!
