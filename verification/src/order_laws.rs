//! What holds of the emission order, whatever the objects and references.

use crate::order::{is_position, lemma_position_is, lemma_position_of_present, ordered, position,
    present, reordered, same_name};
use vstd::prelude::*;

verus! {

/// The list honours one reference: where both of its ends are in the list,
/// the referenced object stands at or before the dependent one.
pub open spec fn respects(names: Seq<Seq<char>>, dependent: Seq<char>, referenced: Seq<char>) -> bool {
    match (position(names, dependent), position(names, referenced)) {
        (Some(d), Some(r)) => r <= d,
        _ => true,
    }
}

/// The list honours every reference of `edges`.
pub open spec fn respects_all(names: Seq<Seq<char>>, edges: Seq<(Seq<char>, Seq<char>)>) -> bool {
    forall|k: int| 0 <= k < edges.len() ==> respects(names, (#[trigger] edges[k]).0, edges[k].1)
}

/// The references are listed from the top down: once an object has been
/// named as the dependent end of a reference, no later reference names it as
/// the referenced end.
pub open spec fn listed_top_down(edges: Seq<(Seq<char>, Seq<char>)>) -> bool {
    forall|i: int, j: int|
        0 <= i < j < edges.len() ==> !same_name((#[trigger] edges[i]).0, (#[trigger] edges[j]).1)
}

/// Where entry `to` comes from after the entry at `from` has been moved to
/// `to`, in front of it.
proof fn lemma_moved_entries(names: Seq<Seq<char>>, from: int, to: int)
    requires
        0 <= to < from < names.len(),
    ensures
        ({
            let m = names.remove(from).insert(to, names[from]);
            &&& m.len() == names.len()
            &&& m[to] == names[from]
            &&& forall|i: int| 0 <= i < to ==> #[trigger] m[i] == names[i]
            &&& forall|i: int| to < i <= from ==> #[trigger] m[i] == names[i - 1]
            &&& forall|i: int| from < i < names.len() ==> #[trigger] m[i] == names[i]
        }),
{
}

/// Two names for the same object have the same position.
proof fn lemma_position_of_same_name(names: Seq<Seq<char>>, a: Seq<char>, b: Seq<char>)
    requires
        same_name(a, b),
    ensures
        position(names, a) == position(names, b),
{
    if present(names, a) {
        lemma_position_of_present(names, a);
        let p = position(names, a).unwrap();
        assert(is_position(names, b, p));
        lemma_position_is(names, b, p);
    } else if present(names, b) {
        lemma_position_of_present(names, b);
        let p = position(names, b).unwrap();
        assert(same_name(names[p], a));
    }
}

/// The position of every name after a move: the moved object stands at
/// `to`, the objects between `to` and `from` one place further back, and
/// every other object where it stood.
proof fn lemma_position_after_move(names: Seq<Seq<char>>, from: int, to: int, name: Seq<char>)
    requires
        0 <= to < from < names.len(),
        is_position(names, names[from], from),
    ensures
        position(names.remove(from).insert(to, names[from]), name) == (if same_name(
            name,
            names[from],
        ) {
            Some(to)
        } else {
            match position(names, name) {
                Some(p) => Some(
                    if to <= p && p < from {
                        p + 1
                    } else {
                        p
                    },
                ),
                None => None,
            }
        }),
{
    let m = names.remove(from).insert(to, names[from]);
    lemma_moved_entries(names, from, to);
    if same_name(name, names[from]) {
        assert forall|j: int| 0 <= j < to implies !same_name(#[trigger] m[j], name) by {
            assert(!same_name(names[j], names[from]));
        }
        lemma_position_is(m, name, to);
    } else if present(names, name) {
        lemma_position_of_present(names, name);
        let p = position(names, name).unwrap();
        let q = if to <= p && p < from {
            p + 1
        } else {
            p
        };
        assert forall|j: int| 0 <= j < q implies !same_name(#[trigger] m[j], name) by {
            if j < to {
                assert(!same_name(names[j], name));
            } else if j == to {
            } else if j <= from {
                assert(!same_name(names[j - 1], name));
            } else {
                assert(!same_name(names[j], name));
            }
        }
        lemma_position_is(m, name, q);
    } else {
        assert forall|j: int| 0 <= j < m.len() implies !same_name(#[trigger] m[j], name) by {
            if j < to {
                assert(!same_name(names[j], name));
            } else if j == to {
                assert(!same_name(names[from], name));
            } else if j <= from {
                assert(!same_name(names[j - 1], name));
            } else {
                assert(!same_name(names[j], name));
            }
        }
    }
}

/// Taking a reference into account loses no object and adds none: the list
/// is as long as before, and a name denotes an entry of it exactly if it did
/// so before.
pub proof fn lemma_reordered_keeps_objects(
    names: Seq<Seq<char>>,
    dependent: Seq<char>,
    referenced: Seq<char>,
    name: Seq<char>,
)
    ensures
        reordered(names, dependent, referenced).len() == names.len(),
        reordered(names, dependent, referenced).to_multiset() == names.to_multiset(),
        present(reordered(names, dependent, referenced), name) == present(names, name),
{
    broadcast use vstd::seq_lib::to_multiset_remove, vstd::seq_lib::to_multiset_insert;

    if present(names, dependent) && present(names, referenced) {
        lemma_position_of_present(names, dependent);
        lemma_position_of_present(names, referenced);
        let d = position(names, dependent).unwrap();
        let r = position(names, referenced).unwrap();
        if r > d {
            lemma_moved_entries(names, r, d);
            assert(is_position(names, names[r], r)) by {
                assert forall|j: int| 0 <= j < r implies !same_name(#[trigger] names[j], names[r]) by {
                    assert(!same_name(names[j], referenced));
                }
            }
            lemma_position_after_move(names, r, d, name);
            let m = names.remove(r).insert(d, names[r]);
            if same_name(name, names[r]) {
                assert(same_name(names[r], name));
            }
            assert(names.remove(r).to_multiset() =~= names.to_multiset().remove(names[r]));
            assert(m.to_multiset() =~= names.remove(r).to_multiset().insert(names[r]));
            assert(names.to_multiset().count(names[r]) > 0) by {
                vstd::seq_lib::to_multiset_contains(names, names[r]);
                assert(names.contains(names[r]));
            }
            assert(m.to_multiset() =~= names.to_multiset());
        }
    }
}

/// Ordering loses no object and adds none.
pub proof fn lemma_ordered_keeps_objects(
    names: Seq<Seq<char>>,
    edges: Seq<(Seq<char>, Seq<char>)>,
    name: Seq<char>,
)
    ensures
        ordered(names, edges).len() == names.len(),
        ordered(names, edges).to_multiset() == names.to_multiset(),
        present(ordered(names, edges), name) == present(names, name),
    decreases edges.len(),
{
    if edges.len() > 0 {
        lemma_ordered_keeps_objects(names, edges.drop_last(), name);
        lemma_reordered_keeps_objects(
            ordered(names, edges.drop_last()),
            edges.last().0,
            edges.last().1,
            name,
        );
    }
}

/// A reference is honoured as soon as it has been taken into account.
pub proof fn lemma_reordered_respects_its_edge(
    names: Seq<Seq<char>>,
    dependent: Seq<char>,
    referenced: Seq<char>,
)
    ensures
        respects(reordered(names, dependent, referenced), dependent, referenced),
{
    if present(names, dependent) && present(names, referenced) {
        lemma_position_of_present(names, dependent);
        lemma_position_of_present(names, referenced);
        let d = position(names, dependent).unwrap();
        let r = position(names, referenced).unwrap();
        if r > d {
            assert(is_position(names, names[r], r)) by {
                assert forall|j: int| 0 <= j < r implies !same_name(#[trigger] names[j], names[r]) by {
                    assert(!same_name(names[j], referenced));
                }
            }
            lemma_position_after_move(names, r, d, dependent);
            lemma_position_after_move(names, r, d, referenced);
            if same_name(dependent, names[r]) {
                lemma_position_of_same_name(names, dependent, referenced);
            }
        }
    }
}

/// The reference that is taken into account last is honoured, whatever the
/// references before it.
pub proof fn lemma_last_edge_wins(names: Seq<Seq<char>>, edges: Seq<(Seq<char>, Seq<char>)>)
    requires
        edges.len() > 0,
    ensures
        respects(ordered(names, edges), edges.last().0, edges.last().1),
{
    lemma_reordered_respects_its_edge(
        ordered(names, edges.drop_last()),
        edges.last().0,
        edges.last().1,
    );
}

/// Taking the reference of `dependent` to `referenced` into account leaves
/// honoured every honoured reference whose dependent end is not
/// `referenced`.
pub proof fn lemma_reordered_keeps_respected(
    names: Seq<Seq<char>>,
    dependent: Seq<char>,
    referenced: Seq<char>,
    other_dependent: Seq<char>,
    other_referenced: Seq<char>,
)
    requires
        respects(names, other_dependent, other_referenced),
        !same_name(other_dependent, referenced),
    ensures
        respects(reordered(names, dependent, referenced), other_dependent, other_referenced),
{
    if present(names, dependent) && present(names, referenced) {
        lemma_position_of_present(names, dependent);
        lemma_position_of_present(names, referenced);
        let d = position(names, dependent).unwrap();
        let r = position(names, referenced).unwrap();
        if r > d {
            assert(is_position(names, names[r], r)) by {
                assert forall|j: int| 0 <= j < r implies !same_name(#[trigger] names[j], names[r]) by {
                    assert(!same_name(names[j], referenced));
                }
            }
            lemma_position_after_move(names, r, d, other_dependent);
            lemma_position_after_move(names, r, d, other_referenced);
            if same_name(other_referenced, names[r]) {
                lemma_position_of_same_name(names, other_referenced, referenced);
            }
        }
    }
}

/// Where the references are listed from the top down, the order that comes
/// out honours every one of them: each referenced object stands at or before
/// the objects that depend on it.
pub proof fn lemma_order_respects_edges(names: Seq<Seq<char>>, edges: Seq<(Seq<char>, Seq<char>)>)
    requires
        listed_top_down(edges),
    ensures
        respects_all(ordered(names, edges), edges),
    decreases edges.len(),
{
    if edges.len() > 0 {
        let init = edges.drop_last();
        let last = edges.last();
        assert(listed_top_down(init)) by {
            assert forall|i: int, j: int| 0 <= i < j < init.len() implies !same_name(
                (#[trigger] init[i]).0,
                (#[trigger] init[j]).1,
            ) by {
                assert(init[i] == edges[i] && init[j] == edges[j]);
            }
        }
        lemma_order_respects_edges(names, init);
        let before = ordered(names, init);
        let after = ordered(names, edges);
        assert forall|k: int| 0 <= k < edges.len() implies respects(
            after,
            (#[trigger] edges[k]).0,
            edges[k].1,
        ) by {
            if k < init.len() {
                assert(init[k] == edges[k]);
                assert(!same_name(edges[k].0, edges[edges.len() - 1].1));
                lemma_reordered_keeps_respected(before, last.0, last.1, edges[k].0, edges[k].1);
            } else {
                lemma_reordered_respects_its_edge(before, last.0, last.1);
            }
        }
    }
}

/// A reference with an end that is not among the objects changes nothing:
/// the order is the one that the other references give without it.
pub proof fn lemma_dangling_edge_is_ignored(
    names: Seq<Seq<char>>,
    edges: Seq<(Seq<char>, Seq<char>)>,
    k: int,
)
    requires
        0 <= k < edges.len(),
        !present(names, edges[k].0) || !present(names, edges[k].1),
    ensures
        ordered(names, edges) == ordered(names, edges.remove(k)),
    decreases edges.len(),
{
    let init = edges.drop_last();
    if k == edges.len() - 1 {
        lemma_ordered_keeps_objects(names, init, edges[k].0);
        lemma_ordered_keeps_objects(names, init, edges[k].1);
        assert(edges.remove(k) =~= init);
    } else {
        lemma_dangling_edge_is_ignored(names, init, k);
        assert(edges.remove(k).drop_last() =~= init.remove(k));
        assert(edges.remove(k).last() == edges.last());
    }
}

/// A list that honours every reference is left as it is.
pub proof fn lemma_order_keeps_ordered_input(
    names: Seq<Seq<char>>,
    edges: Seq<(Seq<char>, Seq<char>)>,
)
    requires
        respects_all(names, edges),
    ensures
        ordered(names, edges) == names,
    decreases edges.len(),
{
    if edges.len() > 0 {
        let init = edges.drop_last();
        assert(respects_all(names, init)) by {
            assert forall|k: int| 0 <= k < init.len() implies respects(
                names,
                (#[trigger] init[k]).0,
                init[k].1,
            ) by {
                assert(init[k] == edges[k]);
            }
        }
        lemma_order_keeps_ordered_input(names, init);
        assert(respects(names, edges[edges.len() - 1].0, edges[edges.len() - 1].1));
    }
}

/// Where the references are listed from the top down, ordering a second time
/// by the same references changes nothing.
pub proof fn lemma_order_is_idempotent(names: Seq<Seq<char>>, edges: Seq<(Seq<char>, Seq<char>)>)
    requires
        listed_top_down(edges),
    ensures
        ordered(ordered(names, edges), edges) == ordered(names, edges),
{
    lemma_order_respects_edges(names, edges);
    lemma_order_keeps_ordered_input(ordered(names, edges), edges);
}

} // verus!
