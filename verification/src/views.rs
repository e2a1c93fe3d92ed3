//! The order of views: a view refers to the tables and views that its
//! definition reads from, and those are found by matching the text of the
//! definition.

use crate::order::{order, ordered};
use crate::script::Definition;
use vstd::prelude::*;
use vstd::string::*;

verus! {

/// The error of `regex` for a pattern that it does not compile.
#[verifier::external_type_specification]
#[verifier::external_body]
pub struct ExRegexError(regex::Error);

/// What `regex` finds of `pattern` in `text`: for each match, from left to
/// right and without overlap, the text of capture group `group`, or `None`
/// where the group took no part in the match. `None` stands for a pattern
/// that `regex` does not compile.
pub uninterp spec fn regex_groups(pattern: Seq<char>, group: int, text: Seq<char>) -> Option<
    Seq<Option<Seq<char>>>,
>;

/// `regex::Regex::new` on the pattern, `Regex::captures_iter` on the text,
/// and of each `Captures` the group by `Captures::get` and `Match::as_str`.
/// Nothing is claimed of what is found but that the same pattern, group and
/// text give the same outcome, and that the error is the one of
/// `Regex::new`.
#[verifier::external_body]
fn find_groups(pattern: &str, group: usize, text: &str) -> (found: Result<
    Vec<Option<String>>,
    regex::Error,
>)
    ensures
        (match found {
            Ok(groups) => regex_groups(pattern@, group as int, text@) == Some(groups.deep_view()),
            Err(_) => regex_groups(pattern@, group as int, text@) is None,
        }),
{
    let re = regex::Regex::new(pattern)?;
    Ok(re.captures_iter(text).map(|found| found.get(group).map(|m| m.as_str().to_string())).collect())
}

/// A pattern for references that `regex` did not compile.
#[derive(Debug, Clone, Copy, PartialEq, Eq, Structural)]
pub struct PatternRefused;

/// After `from`: an optional bracket, then a schema and an object, each
/// between backticks, with a dot between them. The object is group 2.
pub const FROM_REFERENCE: &'static str = "from\\s+(\\()?`[^`]+`\\.`([^`]+)`";

/// The same after `join`.
pub const JOIN_REFERENCE: &'static str = "join\\s+(\\()?`[^`]+`\\.`([^`]+)`";

/// The groups that took part in their match, in order.
pub open spec fn taken(groups: Seq<Option<Seq<char>>>) -> Seq<Seq<char>>
    decreases groups.len(),
{
    if groups.len() == 0 {
        Seq::empty()
    } else {
        match groups.last() {
            Some(name) => taken(groups.drop_last()).push(name),
            None => taken(groups.drop_last()),
        }
    }
}

/// The names among the groups of the matches of one pattern: those of the
/// groups that took part.
pub fn referenced_names(groups: Vec<Option<String>>) -> (names: Vec<String>)
    ensures
        names.deep_view() == taken(groups.deep_view()),
{
    let mut names: Vec<String> = Vec::new();
    let ghost all = groups.deep_view();
    let mut k: usize = 0;
    proof {
        assert(all.take(0) =~= Seq::<Option<Seq<char>>>::empty());
        assert(names.deep_view() =~= Seq::<Seq<char>>::empty());
    }
    while k < groups.len()
        invariant
            k <= groups.len(),
            groups.deep_view() == all,
            names.deep_view() == taken(all.take(k as int)),
        decreases groups.len() - k,
    {
        proof {
            assert(all.take(k + 1).drop_last() =~= all.take(k as int));
            assert(all.take(k + 1).last() == all[k as int]);
        }
        match &groups[k] {
            Some(name) => {
                let ghost earlier = names.deep_view();
                names.push(name.clone());
                assert(names.deep_view() =~= earlier.push(name@));
            },
            None => {},
        }
        k += 1;
    }
    proof {
        assert(all.take(k as int) =~= all);
    }
    names
}

/// The objects that one pattern finds in a definition: the second group of
/// each match. `None` where `regex` does not compile the pattern.
pub open spec fn references_by(pattern: Seq<char>, definition: Seq<char>) -> Option<Seq<Seq<char>>> {
    match regex_groups(pattern, 2, definition) {
        Some(groups) => Some(taken(groups)),
        None => None,
    }
}

/// The objects that one pattern finds in a definition: the second group of
/// each match, from left to right.
pub fn find_references(pattern: &str, definition: &str) -> (outcome: Result<
    Vec<String>,
    PatternRefused,
>)
    ensures
        (match outcome {
            Ok(names) => references_by(pattern@, definition@) == Some(names.deep_view()),
            Err(_) => references_by(pattern@, definition@) is None,
        }),
{
    match find_groups(pattern, 2, definition) {
        Ok(groups) => Ok(referenced_names(groups)),
        Err(_) => Err(PatternRefused),
    }
}

/// The objects that a definition refers to: those named after `from`, as
/// they come, then those named after `join`. `None` where `regex` does not
/// compile a pattern.
pub open spec fn references_in(definition: Seq<char>) -> Option<Seq<Seq<char>>> {
    match (
        references_by(FROM_REFERENCE@, definition),
        references_by(JOIN_REFERENCE@, definition),
    ) {
        (Some(from), Some(join)) => Some(from + join),
        _ => None,
    }
}

/// The objects that the definition of a view refers to.
pub fn view_references(definition: &str) -> (outcome: Result<Vec<String>, PatternRefused>)
    ensures
        (match outcome {
            Ok(names) => references_in(definition@) == Some(names.deep_view()),
            Err(_) => references_in(definition@) is None,
        }),
{
    let from = match find_references(FROM_REFERENCE, definition) {
        Ok(names) => names,
        Err(e) => {
            return Err(e);
        },
    };
    let mut join = match find_references(JOIN_REFERENCE, definition) {
        Ok(names) => names,
        Err(e) => {
            return Err(e);
        },
    };
    let mut names = from;
    let ghost first = names.deep_view();
    let ghost second = join.deep_view();
    names.append(&mut join);
    proof {
        assert(names.deep_view() =~= first + second);
    }
    Ok(names)
}

/// The references of the views, view by view: each pair holds a view and an
/// object that its definition refers to. `None` where `regex` does not
/// compile a pattern.
pub open spec fn view_edges_of(views: Seq<Definition>) -> Option<Seq<(Seq<char>, Seq<char>)>>
    decreases views.len(),
{
    if views.len() == 0 {
        Some(Seq::empty())
    } else {
        match (view_edges_of(views.drop_last()), references_in(views.last().ddl@)) {
            (Some(edges), Some(names)) => Some(
                edges + names.map_values(|n: Seq<char>| (views.last().name@, n)),
            ),
            _ => None,
        }
    }
}

/// The names of the objects, in order.
pub open spec fn names_of(views: Seq<Definition>) -> Seq<Seq<char>> {
    views.map_values(|d: Definition| d.name@)
}

proof fn lemma_refusal_stays(views: Seq<Definition>, k: int)
    requires
        0 <= k <= views.len(),
        view_edges_of(views.take(k)) is None,
    ensures
        view_edges_of(views) is None,
    decreases views.len() - k,
{
    if k < views.len() {
        assert(views.take(k + 1).drop_last() =~= views.take(k));
        lemma_refusal_stays(views, k + 1);
    } else {
        assert(views.take(k) =~= views);
    }
}

/// The references of the views, view by view.
pub fn view_edges(views: &Vec<Definition>) -> (outcome: Result<
    Vec<(String, String)>,
    PatternRefused,
>)
    ensures
        (match outcome {
            Ok(edges) => view_edges_of(views@) == Some(edges.deep_view()),
            Err(_) => view_edges_of(views@) is None,
        }),
{
    let mut edges: Vec<(String, String)> = Vec::new();
    let mut k: usize = 0;
    proof {
        assert(views@.take(0) =~= Seq::<Definition>::empty());
        assert(edges.deep_view() =~= Seq::<(Seq<char>, Seq<char>)>::empty());
    }
    while k < views.len()
        invariant
            k <= views.len(),
            view_edges_of(views@.take(k as int)) == Some(edges.deep_view()),
        decreases views.len() - k,
    {
        let view = &views[k];
        proof {
            assert(views@.take(k + 1).drop_last() =~= views@.take(k as int));
            assert(views@.take(k + 1).last() == views@[k as int]);
        }
        match view_references(view.ddl.as_str()) {
            Err(e) => {
                proof {
                    lemma_refusal_stays(views@, k + 1);
                }
                return Err(e);
            },
            Ok(names) => {
                let ghost before = edges.deep_view();
                let ghost pair = |n: Seq<char>| (view.name@, n);
                let mut j: usize = 0;
                while j < names.len()
                    invariant
                        j <= names.len(),
                        pair == |n: Seq<char>| (view.name@, n),
                        edges.deep_view() == before + names.deep_view().take(j as int).map_values(
                            pair,
                        ),
                    decreases names.len() - j,
                {
                    let ghost earlier = edges.deep_view();
                    edges.push((view.name.clone(), names[j].clone()));
                    proof {
                        assert(edges.deep_view() =~= earlier.push((view.name@, names[j as int]@)));
                        assert(names.deep_view().take(j + 1) =~= names.deep_view().take(
                            j as int,
                        ).push(names[j as int]@));
                        assert(edges.deep_view() =~= before + names.deep_view().take(
                            j + 1,
                        ).map_values(pair));
                    }
                    j += 1;
                }
                proof {
                    assert(names.deep_view().take(j as int) =~= names.deep_view());
                }
            },
        }
        k += 1;
    }
    proof {
        assert(views@.take(k as int) =~= views@);
    }
    Ok(edges)
}

/// Orders the views so that a view comes after the tables and views that
/// its definition reads from, as far as the references that are found and
/// the order in which they are found allow. Fails only where `regex` does
/// not compile a pattern.
pub fn order_views(views: &Vec<Definition>) -> (outcome: Result<Vec<String>, PatternRefused>)
    ensures
        (match outcome {
            Ok(sorted) => view_edges_of(views@) matches Some(edges) && sorted.deep_view()
                == ordered(names_of(views@), edges),
            Err(_) => view_edges_of(views@) is None,
        }),
{
    let edges = match view_edges(views) {
        Ok(edges) => edges,
        Err(e) => {
            return Err(e);
        },
    };
    let mut names: Vec<String> = Vec::new();
    let mut k: usize = 0;
    while k < views.len()
        invariant
            k <= views.len(),
            names.deep_view() == names_of(views@.take(k as int)),
        decreases views.len() - k,
    {
        let ghost earlier = names.deep_view();
        names.push(views[k].name.clone());
        proof {
            assert(names.deep_view() =~= earlier.push(views@[k as int].name@));
            assert(views@.take(k + 1) =~= views@.take(k as int).push(views@[k as int]));
            assert(names.deep_view() =~= names_of(views@.take(k + 1)));
        }
        k += 1;
    }
    proof {
        assert(views@.take(k as int) =~= views@);
    }
    Ok(order(names, &edges))
}

} // verus!
