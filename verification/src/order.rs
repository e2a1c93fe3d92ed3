//! The order in which schema objects are written, so that an object comes
//! after the objects that its definition refers to.

use crate::order_laws::{lemma_dangling_edge_is_ignored, lemma_order_keeps_ordered_input,
    lemma_order_respects_edges, lemma_ordered_keeps_objects, listed_top_down, respects_all};
use vstd::prelude::*;
use vstd::std_specs::iter::IteratorSpec;
use vstd::string::*;

verus! {

/// The lower-case form of an ASCII capital letter; any other character is
/// left as it is.
pub open spec fn ascii_lower(c: char) -> char {
    if 'A' <= c && c <= 'Z' {
        ((c as u8 + 32) as u8) as char
    } else {
        c
    }
}

/// A name with its ASCII capital letters in lower case.
pub open spec fn folded(name: Seq<char>) -> Seq<char> {
    name.map_values(|c: char| ascii_lower(c))
}

/// Two names denote the same object: they differ at most in the case of
/// ASCII letters.
pub open spec fn same_name(a: Seq<char>, b: Seq<char>) -> bool {
    folded(a) == folded(b)
}

fn to_lower(c: char) -> (r: char)
    ensures
        r == ascii_lower(c),
{
    if 'A' <= c && c <= 'Z' {
        let b: u8 = c as u8;
        (b + 32) as char
    } else {
        c
    }
}

/// Whether two names denote the same object.
pub fn eq_ignore_ascii_case(a: &str, b: &str) -> (same: bool)
    ensures
        same == same_name(a@, b@),
{
    let mut other = b.chars();
    for c in it: a.chars()
        invariant
            it.seq() == a@,
            other.remaining() == b@.skip(it.index()),
            it.index() <= b@.len(),
            folded(a@.take(it.index())) == folded(b@.take(it.index())),
    {
        match other.next() {
            None => {
                proof {
                    assert(folded(a@).len() != folded(b@).len());
                }
                return false;
            },
            Some(d) => {
                if to_lower(c) != to_lower(d) {
                    proof {
                        let k = it.index();
                        assert(folded(a@)[k] != folded(b@)[k]);
                    }
                    return false;
                }
                proof {
                    let k = it.index();
                    assert(b@.skip(k).drop_first() =~= b@.skip(k + 1));
                    assert(folded(a@.take(k + 1)) =~= folded(a@.take(k)).push(ascii_lower(c)));
                    assert(folded(b@.take(k + 1)) =~= folded(b@.take(k)).push(ascii_lower(d)));
                }
            },
        }
    }
    let rest = other.next();
    proof {
        assert(a@.take(a@.len() as int) =~= a@);
        if rest is None {
            assert(b@.take(a@.len() as int) =~= b@);
        } else {
            assert(folded(a@).len() != folded(b@).len());
        }
    }
    rest.is_none()
}

/// `name` denotes some entry of `names`.
pub open spec fn present(names: Seq<Seq<char>>, name: Seq<char>) -> bool {
    exists|i: int| 0 <= i < names.len() && same_name(#[trigger] names[i], name)
}

/// `i` is the index of the first entry of `names` that `name` denotes.
pub open spec fn is_position(names: Seq<Seq<char>>, name: Seq<char>, i: int) -> bool {
    &&& 0 <= i < names.len()
    &&& same_name(names[i], name)
    &&& forall|j: int| 0 <= j < i ==> !same_name(#[trigger] names[j], name)
}

/// The index of the first entry of `names` that `name` denotes, if there is
/// one.
pub open spec fn position(names: Seq<Seq<char>>, name: Seq<char>) -> Option<int> {
    if present(names, name) {
        Some(choose|i: int| is_position(names, name, i))
    } else {
        None
    }
}

/// An index that meets `is_position` is the position.
pub proof fn lemma_position_is(names: Seq<Seq<char>>, name: Seq<char>, i: int)
    requires
        is_position(names, name, i),
    ensures
        position(names, name) == Some(i),
{
    assert(same_name(names[i], name));
    let p = choose|p: int| is_position(names, name, p);
    assert(is_position(names, name, p));
    if p < i {
        assert(!same_name(names[p], name));
    }
    if i < p {
        assert(!same_name(names[i], name));
    }
}

/// A name that is present has a position, and that position is the first
/// entry that the name denotes.
pub proof fn lemma_position_of_present(names: Seq<Seq<char>>, name: Seq<char>)
    requires
        present(names, name),
    ensures
        position(names, name) is Some,
        is_position(names, name, position(names, name).unwrap()),
{
    let w = choose|i: int| 0 <= i < names.len() && same_name(#[trigger] names[i], name);
    lemma_first_match(names, name, w);
}

proof fn lemma_first_match(names: Seq<Seq<char>>, name: Seq<char>, w: int)
    requires
        0 <= w < names.len(),
        same_name(names[w], name),
    ensures
        exists|i: int| is_position(names, name, i),
    decreases w,
{
    if exists|j: int| 0 <= j < w && same_name(#[trigger] names[j], name) {
        let j = choose|j: int| 0 <= j < w && same_name(#[trigger] names[j], name);
        lemma_first_match(names, name, j);
    } else {
        assert(is_position(names, name, w));
    }
}

/// The list after one reference has been taken into account: where the
/// referenced object stands after the dependent one, it is taken out and put
/// back at the dependent's place; a reference with an end that is not in the
/// list changes nothing.
pub open spec fn reordered(
    names: Seq<Seq<char>>,
    dependent: Seq<char>,
    referenced: Seq<char>,
) -> Seq<Seq<char>> {
    match (position(names, dependent), position(names, referenced)) {
        (Some(d), Some(r)) => if r > d {
            names.remove(r).insert(d, names[r])
        } else {
            names
        },
        _ => names,
    }
}

/// The list after every reference of `edges` has been taken into account,
/// one after the other, each on the list as the ones before it left it.
pub open spec fn ordered(names: Seq<Seq<char>>, edges: Seq<(Seq<char>, Seq<char>)>) -> Seq<
    Seq<char>,
>
    decreases edges.len(),
{
    if edges.len() == 0 {
        names
    } else {
        reordered(ordered(names, edges.drop_last()), edges.last().0, edges.last().1)
    }
}

/// The index of the first entry that `name` denotes.
pub fn find_position(names: &Vec<String>, name: &str) -> (found: Option<usize>)
    ensures
        (match found {
            Some(i) => i < names.len() && position(names.deep_view(), name@) == Some(i as int),
            None => position(names.deep_view(), name@) is None,
        }),
{
    let mut i: usize = 0;
    while i < names.len()
        invariant
            i <= names.len(),
            forall|j: int| 0 <= j < i ==> !same_name(#[trigger] names.deep_view()[j], name@),
        decreases names.len() - i,
    {
        if eq_ignore_ascii_case(names[i].as_str(), name) {
            proof {
                lemma_position_is(names.deep_view(), name@, i as int);
            }
            return Some(i);
        }
        i += 1;
    }
    None
}

/// Takes one reference into account: `table_name` refers to `ref_name`, so
/// `ref_name` must not come after it. A reference with an end that is not in
/// the list leaves the list as it is.
pub fn reorder_vec(mut vec: Vec<String>, table_name: &String, ref_name: &String) -> (sorted: Vec<
    String,
>)
    ensures
        sorted.deep_view() == reordered(vec.deep_view(), table_name@, ref_name@),
        !present(vec.deep_view(), table_name@) || !present(vec.deep_view(), ref_name@)
            ==> sorted.deep_view() == vec.deep_view(),
{
    let ghost before = vec.deep_view();
    let tab_index = find_position(&vec, table_name.as_str());
    let ref_index = find_position(&vec, ref_name.as_str());
    match (tab_index, ref_index) {
        (Some(t), Some(r)) => {
            if r > t {
                let org_ref = vec.remove(r);
                vec.insert(t, org_ref);
                assert(vec.deep_view() =~= before.remove(r as int).insert(t as int, before[r as int]));
            }
        },
        _ => {},
    }
    vec
}

/// Orders the objects by their references: each pair of `edges` names a
/// dependent object and the object that it refers to. The references are
/// taken into account one after the other, so a later one can undo what an
/// earlier one asked for. No object is lost or added. A reference with an
/// end that is not among the objects counts for nothing. Objects that
/// honour every reference stay as they are, and where the references are
/// listed from the top down, the order that comes out honours them all.
pub fn order(objects: Vec<String>, edges: &Vec<(String, String)>) -> (sorted: Vec<String>)
    ensures
        sorted.deep_view() == ordered(objects.deep_view(), edges.deep_view()),
        sorted.deep_view().to_multiset() == objects.deep_view().to_multiset(),
        forall|k: int|
            0 <= k < edges.len() && (!present(objects.deep_view(), (#[trigger] edges.deep_view()[k]).0)
                || !present(objects.deep_view(), edges.deep_view()[k].1)) ==> sorted.deep_view()
                == ordered(objects.deep_view(), edges.deep_view().remove(k)),
        respects_all(objects.deep_view(), edges.deep_view()) ==> sorted.deep_view()
            == objects.deep_view(),
        listed_top_down(edges.deep_view()) ==> respects_all(sorted.deep_view(), edges.deep_view()),
{
    let ghost start = objects.deep_view();
    let mut sorted = objects;
    let mut k: usize = 0;
    while k < edges.len()
        invariant
            k <= edges.len(),
            sorted.deep_view() == ordered(start, edges.deep_view().take(k as int)),
        decreases edges.len() - k,
    {
        let edge = &edges[k];
        sorted = reorder_vec(sorted, &edge.0, &edge.1);
        proof {
            let all = edges.deep_view();
            assert(all.take(k + 1).drop_last() =~= all.take(k as int));
            assert(all.take(k + 1).last() == (edge.0@, edge.1@));
        }
        k += 1;
    }
    proof {
        let all = edges.deep_view();
        assert(all.take(k as int) =~= all);
        lemma_ordered_keeps_objects(start, all, Seq::empty());
        assert forall|k: int|
            0 <= k < all.len() && (!present(start, (#[trigger] all[k]).0) || !present(
                start,
                all[k].1,
            )) implies ordered(start, all) == ordered(start, all.remove(k)) by {
            lemma_dangling_edge_is_ignored(start, all, k);
        }
        if respects_all(start, all) {
            lemma_order_keeps_ordered_input(start, all);
        }
        if listed_top_down(all) {
            lemma_order_respects_edges(start, all);
        }
    }
    sorted
}

/// Orders the tables by their foreign keys: each pair of `foreign_keys`
/// holds a table and a table that it refers to. Where the foreign keys are
/// listed from the top down, every referenced table comes at or before the
/// tables that depend on it.
pub fn order_tables(tables: Vec<String>, foreign_keys: &Vec<(String, String)>) -> (sorted: Vec<
    String,
>)
    ensures
        sorted.deep_view() == ordered(tables.deep_view(), foreign_keys.deep_view()),
        sorted.deep_view().to_multiset() == tables.deep_view().to_multiset(),
        respects_all(tables.deep_view(), foreign_keys.deep_view()) ==> sorted.deep_view()
            == tables.deep_view(),
        listed_top_down(foreign_keys.deep_view()) ==> respects_all(
            sorted.deep_view(),
            foreign_keys.deep_view(),
        ),
{
    order(tables, foreign_keys)
}

/// What is reported of a reference of a view with an end that is not
/// among the objects: the dependent end where that is missing, the
/// referenced end otherwise. Nothing is reported of a reference with both
/// ends.
pub open spec fn dangling_message(
    names: Seq<Seq<char>>,
    dependent: Seq<char>,
    referenced: Seq<char>,
) -> Option<Seq<char>> {
    if !present(names, dependent) {
        Some("Found a reference to a table/view "@ + dependent + " that doesn't exists"@)
    } else if !present(names, referenced) {
        Some("Found a referenced table/view "@ + referenced + " that doesn't exists"@)
    } else {
        None
    }
}

/// The reports of the references that are ignored, in the order of the
/// references.
pub open spec fn dangling_messages(names: Seq<Seq<char>>, edges: Seq<(Seq<char>, Seq<char>)>) -> Seq<
    Seq<char>,
>
    decreases edges.len(),
{
    if edges.len() == 0 {
        Seq::empty()
    } else {
        match dangling_message(names, edges.last().0, edges.last().1) {
            Some(message) => dangling_messages(names, edges.drop_last()).push(message),
            None => dangling_messages(names, edges.drop_last()),
        }
    }
}

/// The report of a reference that ordering ignores, if it is one.
pub fn dangling_reference(names: &Vec<String>, table_name: &str, ref_name: &str) -> (report: Option<
    String,
>)
    ensures
        report.deep_view() == dangling_message(names.deep_view(), table_name@, ref_name@),
{
    if find_position(names, table_name).is_none() {
        let mut message = String::from_str("Found a reference to a table/view ");
        message.append(table_name);
        message.append(" that doesn't exists");
        Some(message)
    } else if find_position(names, ref_name).is_none() {
        let mut message = String::from_str("Found a referenced table/view ");
        message.append(ref_name);
        message.append(" that doesn't exists");
        Some(message)
    } else {
        None
    }
}

/// The reports of the references that ordering ignores, in the order of
/// the references.
pub fn dangling_references(objects: &Vec<String>, edges: &Vec<(String, String)>) -> (reports: Vec<
    String,
>)
    ensures
        reports.deep_view() == dangling_messages(objects.deep_view(), edges.deep_view()),
{
    let mut reports: Vec<String> = Vec::new();
    let mut k: usize = 0;
    proof {
        assert(edges.deep_view().take(0) =~= Seq::<(Seq<char>, Seq<char>)>::empty());
        assert(reports.deep_view() =~= Seq::<Seq<char>>::empty());
    }
    while k < edges.len()
        invariant
            k <= edges.len(),
            reports.deep_view() == dangling_messages(
                objects.deep_view(),
                edges.deep_view().take(k as int),
            ),
        decreases edges.len() - k,
    {
        let edge = &edges[k];
        proof {
            let all = edges.deep_view();
            assert(all.take(k + 1).drop_last() =~= all.take(k as int));
            assert(all.take(k + 1).last() == (edge.0@, edge.1@));
        }
        match dangling_reference(objects, edge.0.as_str(), edge.1.as_str()) {
            Some(message) => {
                let ghost earlier = reports.deep_view();
                reports.push(message);
                assert(reports.deep_view() =~= earlier.push(message@));
            },
            None => {},
        }
        k += 1;
    }
    proof {
        assert(edges.deep_view().take(k as int) =~= edges.deep_view());
    }
    reports
}

/// What is reported of a foreign key with a table that is not among the
/// tables: the dependent table where that is missing; otherwise the
/// referenced table, with the table that refers to it. Nothing is reported
/// of a foreign key between two tables of the list.
pub open spec fn dangling_table_message(
    names: Seq<Seq<char>>,
    dependent: Seq<char>,
    referenced: Seq<char>,
) -> Option<Seq<char>> {
    if !present(names, dependent) {
        Some("Found a reference to a table "@ + dependent + " that doesn't exists"@)
    } else if !present(names, referenced) {
        Some(
            "Found a referenced table "@ + referenced + " that doesn't exists for "@ + dependent,
        )
    } else {
        None
    }
}

/// The reports of the foreign keys that are ignored, in the order of the
/// foreign keys.
pub open spec fn dangling_table_messages(
    names: Seq<Seq<char>>,
    edges: Seq<(Seq<char>, Seq<char>)>,
) -> Seq<Seq<char>>
    decreases edges.len(),
{
    if edges.len() == 0 {
        Seq::empty()
    } else {
        match dangling_table_message(names, edges.last().0, edges.last().1) {
            Some(message) => dangling_table_messages(names, edges.drop_last()).push(message),
            None => dangling_table_messages(names, edges.drop_last()),
        }
    }
}

/// The report of a foreign key that ordering ignores, if it is one.
pub fn dangling_table_reference(names: &Vec<String>, table_name: &str, ref_name: &str) -> (report:
    Option<String>)
    ensures
        report.deep_view() == dangling_table_message(names.deep_view(), table_name@, ref_name@),
{
    if find_position(names, table_name).is_none() {
        let mut message = String::from_str("Found a reference to a table ");
        message.append(table_name);
        message.append(" that doesn't exists");
        Some(message)
    } else if find_position(names, ref_name).is_none() {
        let mut message = String::from_str("Found a referenced table ");
        message.append(ref_name);
        message.append(" that doesn't exists for ");
        message.append(table_name);
        Some(message)
    } else {
        None
    }
}

/// The reports of the foreign keys that ordering ignores, in the order of
/// the foreign keys.
pub fn dangling_table_references(tables: &Vec<String>, foreign_keys: &Vec<(String, String)>) -> (reports:
    Vec<String>)
    ensures
        reports.deep_view() == dangling_table_messages(
            tables.deep_view(),
            foreign_keys.deep_view(),
        ),
{
    let mut reports: Vec<String> = Vec::new();
    let mut k: usize = 0;
    proof {
        assert(foreign_keys.deep_view().take(0) =~= Seq::<(Seq<char>, Seq<char>)>::empty());
        assert(reports.deep_view() =~= Seq::<Seq<char>>::empty());
    }
    while k < foreign_keys.len()
        invariant
            k <= foreign_keys.len(),
            reports.deep_view() == dangling_table_messages(
                tables.deep_view(),
                foreign_keys.deep_view().take(k as int),
            ),
        decreases foreign_keys.len() - k,
    {
        let edge = &foreign_keys[k];
        proof {
            let all = foreign_keys.deep_view();
            assert(all.take(k + 1).drop_last() =~= all.take(k as int));
            assert(all.take(k + 1).last() == (edge.0@, edge.1@));
        }
        match dangling_table_reference(tables, edge.0.as_str(), edge.1.as_str()) {
            Some(message) => {
                let ghost earlier = reports.deep_view();
                reports.push(message);
                assert(reports.deep_view() =~= earlier.push(message@));
            },
            None => {},
        }
        k += 1;
    }
    proof {
        assert(foreign_keys.deep_view().take(k as int) =~= foreign_keys.deep_view());
    }
    reports
}

} // verus!
