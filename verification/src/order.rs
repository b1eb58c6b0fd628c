use vstd::prelude::*;

use crate::text::{lemma_lex_total, lemma_lex_transitive, lex_lt, lex_lt_str, str_eq};

verus! {

/// The text occurs among the strings.
pub open spec fn listed(r: Seq<String>, name: Seq<char>) -> bool {
    exists|k: int| 0 <= k < r.len() && #[trigger] r[k]@ == name
}

/// Whether the name occurs among the strings.
pub fn is_listed(r: &Vec<String>, name: &str) -> (b: bool)
    ensures
        b == listed(r@, name@),
{
    let mut k: usize = 0;
    while k < r.len()
        invariant
            k <= r@.len(),
            forall|j: int| 0 <= j < k ==> r@[j]@ != name@,
        decreases r@.len() - k,
    {
        if str_eq(r[k].as_str(), name) {
            return true;
        }
        k = k + 1;
    }
    false
}

/// Strings in strictly increasing lexicographic order: sorted, no repeats.
pub open spec fn strictly_ordered(s: Seq<String>) -> bool {
    forall|i: int, j: int| 0 <= i < j < s.len() ==> lex_lt(#[trigger] s[i]@, #[trigger] s[j]@)
}

/// The distinct strings of `items`, sorted: what collecting into a `BTreeSet`
/// (or sorting and removing repeats) gives.
pub fn sorted_distinct(items: &Vec<String>) -> (r: Vec<String>)
    ensures
        strictly_ordered(r@),
        forall|k: int| 0 <= k < r@.len() ==> listed(items@, #[trigger] r@[k]@),
        forall|name: Seq<char>| listed(items@, name) ==> listed(r@, name),
{
    let mut r: Vec<String> = Vec::new();
    for i in 0..items.len()
        invariant
            strictly_ordered(r@),
            forall|k: int| 0 <= k < r@.len() ==> listed(items@, #[trigger] r@[k]@),
            forall|j: int| 0 <= j < i ==> listed(r@, #[trigger] items@[j]@),
    {
        let x = &items[i];
        assert(listed(items@, x@));
        let mut p: usize = 0;
        while p < r.len() && lex_lt_str(r[p].as_str(), x.as_str())
            invariant
                p <= r@.len(),
                forall|k: int| 0 <= k < p ==> lex_lt(#[trigger] r@[k]@, x@),
            decreases r@.len() - p,
        {
            p = p + 1;
        }
        if p < r.len() && str_eq(r[p].as_str(), x.as_str()) {
            assert forall|j: int| 0 <= j < i + 1 implies listed(r@, #[trigger] items@[j]@) by {
                if j == i {
                    assert(r@[p as int]@ == items@[j]@);
                }
            }
        } else {
            let ghost before = r@;
            r.insert(p, x.clone());
            proof {
                assert(r@ == before.insert(p as int, *x));
                if p < before.len() {
                    lemma_lex_total(before[p as int]@, x@);
                }
                assert forall|a: int, b: int|
                    0 <= a < b < r@.len() implies lex_lt(#[trigger] r@[a]@, #[trigger] r@[b]@) by {
                    if b < p {
                    } else if a < p && b == p {
                    } else if a < p && b > p {
                        assert(lex_lt(before[a]@, x@));
                        assert(lex_lt(x@, before[p as int]@));
                        if b - 1 > p {
                            assert(lex_lt(before[p as int]@, before[b - 1]@));
                            lemma_lex_transitive(x@, before[p as int]@, before[b - 1]@);
                        }
                        lemma_lex_transitive(before[a]@, x@, before[b - 1]@);
                    } else if a == p {
                        if b - 1 > p {
                            assert(lex_lt(before[p as int]@, before[b - 1]@));
                            lemma_lex_transitive(x@, before[p as int]@, before[b - 1]@);
                        }
                    } else {
                        assert(lex_lt(before[a - 1]@, before[b - 1]@));
                    }
                }
                assert forall|k: int| 0 <= k < r@.len() implies listed(items@, #[trigger] r@[k]@) by {
                    if k < p {
                        assert(listed(items@, before[k]@));
                    } else if k > p {
                        assert(listed(items@, before[k - 1]@));
                    }
                }
                assert forall|j: int| 0 <= j < i + 1 implies listed(r@, #[trigger] items@[j]@) by {
                    if j < i {
                        assert(listed(before, items@[j]@));
                        let k = choose|k: int| 0 <= k < before.len() && #[trigger] before[k]@ == items@[j]@;
                        if k < p {
                            assert(r@[k]@ == items@[j]@);
                        } else {
                            assert(r@[k + 1]@ == items@[j]@);
                        }
                    } else {
                        assert(r@[p as int]@ == items@[j]@);
                    }
                }
            }
        }
    }
    proof {
        assert forall|name: Seq<char>| listed(items@, name) implies listed(r@, name) by {
            let j = choose|j: int| 0 <= j < items@.len() && #[trigger] items@[j]@ == name;
            assert(listed(r@, items@[j]@));
        }
    }
    r
}

} // verus!
