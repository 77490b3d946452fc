//! Ordering entries by their names: the order of std's strings, entries of equal
//! name kept in their original order.
use crate::text::{lemma_lex_asymmetric, lemma_lex_total, lemma_lex_transitive, lex_less, text_less};
use vstd::prelude::*;

verus! {

/// Whether `order` lists the positions of the kept entries, each once, ordered by
/// name, entries of equal name in their original order.
pub open spec fn ordered_by_name(names: Seq<String>, keep: Seq<bool>, order: Seq<usize>) -> bool {
    &&& forall|p: usize|
        #![trigger order.contains(p)]
        order.contains(p) <==> p < names.len() && keep[p as int]
    &&& forall|i: int, j: int|
        #![trigger order[i], order[j]]
        0 <= i < j < order.len() ==> order[i] != order[j] && !lex_less(
            names[order[j] as int]@,
            names[order[i] as int]@,
        ) && (names[order[i] as int]@ == names[order[j] as int]@ ==> order[i] < order[j])
}

/// The first position of `order` whose name comes after `name`.
fn place_after_equals(order: &Vec<usize>, names: &Vec<String>, name: &String) -> (p: usize)
    requires
        forall|i: int| 0 <= i < order@.len() ==> #[trigger] order@[i] < names@.len(),
    ensures
        p <= order@.len(),
        forall|i: int| 0 <= i < p ==> !lex_less(name@, #[trigger] names@[order@[i] as int]@),
        p < order@.len() ==> lex_less(name@, names@[order@[p as int] as int]@),
{
    let mut p: usize = 0;
    while p < order.len()
        invariant
            p <= order@.len(),
            forall|i: int| 0 <= i < order@.len() ==> #[trigger] order@[i] < names@.len(),
            forall|i: int| 0 <= i < p ==> !lex_less(name@, #[trigger] names@[order@[i] as int]@),
        decreases order.len() - p,
    {
        if text_less(name.as_str(), names[order[p]].as_str()) {
            return p;
        }
        p = p + 1;
    }
    p
}

/// The positions whose entry is kept, ordered by name; equal names keep their order.
pub fn order_by_name(names: &Vec<String>, keep: &Vec<bool>) -> (order: Vec<usize>)
    requires
        keep@.len() == names@.len(),
    ensures
        ordered_by_name(names@, keep@, order@),
{
    let mut order: Vec<usize> = Vec::new();
    let mut q: usize = 0;
    while q < names.len()
        invariant
            q <= names@.len(),
            keep@.len() == names@.len(),
            forall|i: int| 0 <= i < order@.len() ==> #[trigger] order@[i] < q,
            forall|p: usize|
                #![trigger order@.contains(p)]
                order@.contains(p) <==> p < q && keep@[p as int],
            forall|i: int, j: int|
                #![trigger order@[i], order@[j]]
                0 <= i < j < order@.len() ==> order@[i] != order@[j] && !lex_less(
                    names@[order@[j] as int]@,
                    names@[order@[i] as int]@,
                ) && (names@[order@[i] as int]@ == names@[order@[j] as int]@ ==> order@[i] < order@[j]),
        decreases names.len() - q,
    {
        if keep[q] {
            let ghost before = order@;
            let ghost name = names@[q as int]@;
            let p = place_after_equals(&order, names, &names[q]);
            order.insert(p, q);
            proof {
                let after = order@;
                assert(after =~= before.insert(p as int, q));
                assert forall|i: int| 0 <= i < after.len() implies #[trigger] after[i] < q + 1 by {
                    if i < p {
                        assert(after[i] == before[i]);
                    } else if i > p {
                        assert(after[i] == before[i - 1]);
                    }
                }
                assert forall|x: usize|
                    #[trigger] after.contains(x) <==> x < q + 1 && keep@[x as int] by {
                    if after.contains(x) {
                        let i = choose|i: int| 0 <= i < after.len() && after[i] == x;
                        if i < p {
                            assert(after[i] == before[i]);
                            assert(before.contains(x));
                        } else if i > p {
                            assert(after[i] == before[i - 1]);
                            assert(before.contains(x));
                        }
                    }
                    if x < q && keep@[x as int] {
                        assert(before.contains(x));
                        let i = choose|i: int| 0 <= i < before.len() && before[i] == x;
                        if i < p {
                            assert(after[i] == x);
                        } else {
                            assert(after[i + 1] == x);
                        }
                    }
                    if x == q {
                        assert(after[p as int] == x);
                    }
                }
                assert forall|i: int, j: int|
                    #![trigger after[i], after[j]]
                    0 <= i < j < after.len() implies after[i] != after[j] && !lex_less(
                        names@[after[j] as int]@,
                        names@[after[i] as int]@,
                    ) && (names@[after[i] as int]@ == names@[after[j] as int]@ ==> after[i] < after[j]) by {
                    if j < p {
                        assert(after[i] == before[i] && after[j] == before[j]);
                    } else if i > p {
                        assert(after[i] == before[i - 1] && after[j] == before[j - 1]);
                    } else if j == p {
                        assert(after[i] == before[i]);
                        assert(before[i] < q);
                        assert(!lex_less(name, names@[before[i] as int]@));
                    } else if i == p {
                        assert(after[j] == before[j - 1]);
                        assert(before[j - 1] < q);
                        let first = names@[before[p as int] as int]@;
                        let other = names@[before[j - 1] as int]@;
                        assert(lex_less(name, first));
                        if j - 1 > p && other != first {
                            assert(!lex_less(other, first));
                            lemma_lex_total(other, first);
                            lemma_lex_transitive(name, first, other);
                        }
                        lemma_lex_asymmetric(name, other);
                        crate::text::lemma_lex_irreflexive(name);
                    } else {
                        assert(after[i] == before[i] && after[j] == before[j - 1]);
                    }
                }
            }
        }
        q = q + 1;
    }
    order
}

} // verus!
