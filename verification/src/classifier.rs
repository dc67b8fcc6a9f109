//! Classification of a path against an ordered list of rules: the first rule
//! that takes the path wins.

use vstd::prelude::*;

use crate::rules::{rule_views, Category, CategoryRule};

verus! {

/// Rule `i` takes `path`, and no rule before it does.
pub open spec fn is_first_match(rules: Seq<CategoryRule>, path: Seq<char>, i: int) -> bool {
    &&& 0 <= i < rules.len()
    &&& rules[i].matches(path)
    &&& forall|j: int| 0 <= j < i ==> !(#[trigger] rules[j]).matches(path)
}

/// No rule takes `path`.
pub open spec fn matches_none(rules: Seq<CategoryRule>, path: Seq<char>) -> bool {
    forall|i: int| 0 <= i < rules.len() ==> !(#[trigger] rules[i]).matches(path)
}

/// The position of the first rule that takes `path`, if any rule does.
pub open spec fn classification(rules: Seq<CategoryRule>, path: Seq<char>) -> Option<int> {
    if exists|i: int| is_first_match(rules, path, i) {
        Some(choose|i: int| is_first_match(rules, path, i))
    } else {
        None
    }
}

/// At most one position holds the first match.
pub proof fn lemma_first_match_unique(rules: Seq<CategoryRule>, path: Seq<char>, i: int, j: int)
    requires
        is_first_match(rules, path, i),
        is_first_match(rules, path, j),
    ensures
        i == j,
{
    if i < j {
        assert(!rules[i].matches(path));
    } else if j < i {
        assert(!rules[j].matches(path));
    }
}

/// The classification is the first match, wherever there is one.
pub proof fn lemma_classification_is_first_match(
    rules: Seq<CategoryRule>,
    path: Seq<char>,
    i: int,
)
    requires
        is_first_match(rules, path, i),
    ensures
        classification(rules, path) == Some(i),
{
    let chosen = choose|k: int| is_first_match(rules, path, k);
    lemma_first_match_unique(rules, path, chosen, i);
}

/// A path is left unclassified exactly if no rule takes it.
pub proof fn lemma_unclassified_iff_matches_none(rules: Seq<CategoryRule>, path: Seq<char>)
    ensures
        classification(rules, path) is None <==> matches_none(rules, path),
{
    if matches_none(rules, path) {
        assert forall|i: int| !is_first_match(rules, path, i) by {
            if 0 <= i < rules.len() {
                assert(!rules[i].matches(path));
            }
        }
    } else {
        let hit = choose|i: int| 0 <= i < rules.len() && (#[trigger] rules[i]).matches(path);
        lemma_some_match_has_first(rules, path, hit);
    }
}

/// Where some rule takes the path, a first one does.
proof fn lemma_some_match_has_first(rules: Seq<CategoryRule>, path: Seq<char>, hit: int)
    requires
        0 <= hit < rules.len(),
        rules[hit].matches(path),
    ensures
        exists|i: int| is_first_match(rules, path, i),
    decreases hit,
{
    if exists|j: int| 0 <= j < hit && (#[trigger] rules[j]).matches(path) {
        let earlier = choose|j: int| 0 <= j < hit && (#[trigger] rules[j]).matches(path);
        lemma_some_match_has_first(rules, path, earlier);
    } else {
        assert(is_first_match(rules, path, hit));
    }
}

/// Classification is a function of the rules and the path: equal inputs
/// never classify differently.
pub proof fn lemma_classification_deterministic(
    rules_a: Seq<CategoryRule>,
    path_a: Seq<char>,
    rules_b: Seq<CategoryRule>,
    path_b: Seq<char>,
)
    requires
        rules_a == rules_b,
        path_a == path_b,
    ensures
        classification(rules_a, path_a) == classification(rules_b, path_b),
{
}

/// With a rule without patterns in last place, every path is classified.
pub proof fn lemma_trailing_catch_all_classifies(rules: Seq<CategoryRule>, path: Seq<char>)
    requires
        rules.len() > 0,
        rules.last().is_catch_all(),
    ensures
        classification(rules, path) is Some,
{
    lemma_some_match_has_first(rules, path, rules.len() - 1);
}

/// A rule without patterns hides every rule behind it: no path is ever
/// classified past it.
pub proof fn lemma_catch_all_shadows(rules: Seq<CategoryRule>, path: Seq<char>, at: int)
    requires
        0 <= at < rules.len(),
        rules[at].is_catch_all(),
    ensures
        classification(rules, path) matches Some(i) && i <= at,
{
    lemma_some_match_has_first(rules, path, at);
    let first = choose|i: int| is_first_match(rules, path, i);
    if first > at {
        assert(!rules[at].matches(path));
    }
}

/// Finds the first rule that takes `path`.
///
/// Returns its position, or nothing where no rule takes the path.
pub fn classify(rules: &Vec<Category>, path: &str) -> (position: Option<usize>)
    ensures
        match position {
            Some(i) => classification(rule_views(rules@), path@) == Some(i as int),
            None => classification(rule_views(rules@), path@) is None,
        },
        match position {
            Some(i) => is_first_match(rule_views(rules@), path@, i as int),
            None => matches_none(rule_views(rules@), path@),
        },
{
    let ghost model = rule_views(rules@);
    let mut i: usize = 0;
    while i < rules.len()
        invariant
            i <= rules.len(),
            model == rule_views(rules@),
            forall|j: int| 0 <= j < i ==> !(#[trigger] model[j]).matches(path@),
        decreases rules.len() - i,
    {
        if rules[i].is_match(path) {
            proof {
                assert(model[i as int] == rules[i as int]@);
                lemma_classification_is_first_match(model, path@, i as int);
            }
            return Some(i);
        }
        assert(model[i as int] == rules[i as int]@);
        i += 1;
    }
    proof {
        lemma_unclassified_iff_matches_none(model, path@);
    }
    None
}

} // verus!
