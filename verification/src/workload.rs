//! Workloads: the paths of one capture log, grouped by the rule that takes
//! them.
//!
//! A workload has one bucket per rule, in the order of the rules. Each bucket
//! holds the paths that its rule is the first to take, in the order of the
//! capture. A path that no rule takes is in no bucket.

use vstd::prelude::*;

use crate::capture::{record_views, RequestRecord};
use crate::classifier::{
    classification,
    classify,
    is_first_match,
    lemma_trailing_catch_all_classifies,
};
use crate::rules::{rule_views, Category, CategoryRule};

verus! {

/// A bucket, as mathematics.
pub struct BucketView {
    pub rule_name: Seq<char>,
    pub paths: Seq<Seq<char>>,
}

/// A workload, as mathematics.
pub struct WorkloadView {
    pub source_name: Seq<char>,
    pub buckets: Seq<BucketView>,
}

/// The paths assigned to one rule.
#[derive(Debug, PartialEq, Eq)]
pub struct CategoryBucket {
    /// The name of the rule that owns the bucket.
    pub rule_name: String,
    /// The paths, in the order of the capture.
    pub paths: Vec<String>,
}

/// The buckets of one capture log.
#[derive(Debug, PartialEq, Eq)]
pub struct Workload {
    /// The name of the capture log.
    pub source_name: String,
    /// One bucket per rule, in the order of the rules.
    pub buckets: Vec<CategoryBucket>,
}

/// The characters of each text of a list.
pub open spec fn text_views(texts: Seq<String>) -> Seq<Seq<char>> {
    texts.map_values(|text: String| text@)
}

impl View for CategoryBucket {
    type V = BucketView;

    open spec fn view(&self) -> BucketView {
        BucketView { rule_name: self.rule_name@, paths: text_views(self.paths@) }
    }
}

impl View for Workload {
    type V = WorkloadView;

    open spec fn view(&self) -> WorkloadView {
        WorkloadView {
            source_name: self.source_name@,
            buckets: self.buckets@.map_values(|bucket: CategoryBucket| bucket@),
        }
    }
}

/// The paths among `paths` that rule `k` is the first to take, in their
/// order.
pub open spec fn assigned_to(rules: Seq<CategoryRule>, paths: Seq<Seq<char>>, k: int) -> Seq<
    Seq<char>,
> {
    paths.filter(|path: Seq<char>| classification(rules, path) == Some(k))
}

/// The paths among `paths` that no rule takes, in their order.
pub open spec fn skipped_of(rules: Seq<CategoryRule>, paths: Seq<Seq<char>>) -> Seq<Seq<char>> {
    paths.filter(|path: Seq<char>| classification(rules, path) is None)
}

/// The workload of a capture: one bucket per rule, named after the rule, with
/// the paths assigned to it.
pub open spec fn workload_of(
    source_name: Seq<char>,
    rules: Seq<CategoryRule>,
    paths: Seq<Seq<char>>,
) -> WorkloadView {
    WorkloadView {
        source_name,
        buckets: Seq::new(
            rules.len(),
            |k: int| BucketView { rule_name: rules[k].name, paths: assigned_to(rules, paths, k) },
        ),
    }
}

/// Filtering a sequence that grew by one item either keeps the item at the
/// end or leaves the filtered sequence as it was.
pub proof fn lemma_filter_push<A>(items: Seq<A>, item: A, keep: spec_fn(A) -> bool)
    ensures
        items.push(item).filter(keep) == if keep(item) {
            items.filter(keep).push(item)
        } else {
            items.filter(keep)
        },
{
    reveal(Seq::filter);
    assert(items.push(item).drop_last() =~= items);
}

/// Every item of a filtered sequence stands somewhere in the sequence it
/// was filtered from.
pub proof fn lemma_filter_origin<A>(items: Seq<A>, keep: spec_fn(A) -> bool, i: int)
    requires
        0 <= i < items.filter(keep).len(),
    ensures
        exists|a: int| 0 <= a < items.len() && items[a] == items.filter(keep)[i],
    decreases items.len(),
{
    reveal(Seq::filter);
    let front = items.drop_last();
    if i < front.filter(keep).len() {
        lemma_filter_origin(front, keep, i);
        let a = choose|a: int| 0 <= a < front.len() && front[a] == front.filter(keep)[i];
        assert(items[a] == items.filter(keep)[i]);
    } else {
        assert(items[items.len() - 1] == items.filter(keep)[i]);
    }
}

/// Filtering keeps the order: of two items of the filtered sequence, the one
/// that stands first also stands first in the sequence it was filtered from.
pub proof fn lemma_filter_keeps_order<A>(items: Seq<A>, keep: spec_fn(A) -> bool, i: int, j: int)
    requires
        0 <= i < j < items.filter(keep).len(),
    ensures
        exists|a: int, b: int|
            0 <= a < b < items.len() && items[a] == items.filter(keep)[i] && items[b]
                == items.filter(keep)[j],
    decreases items.len(),
{
    reveal(Seq::filter);
    let front = items.drop_last();
    if j < front.filter(keep).len() {
        lemma_filter_keeps_order(front, keep, i, j);
        let (a, b) = choose|a: int, b: int|
            0 <= a < b < front.len() && front[a] == front.filter(keep)[i] && front[b]
                == front.filter(keep)[j];
        assert(0 <= a < b < items.len() && items[a] == items.filter(keep)[i] && items[b]
            == items.filter(keep)[j]);
    } else {
        lemma_filter_origin(front, keep, i);
        let a = choose|a: int| 0 <= a < front.len() && front[a] == front.filter(keep)[i];
        let b = items.len() - 1;
        assert(0 <= a < b < items.len() && items[a] == items.filter(keep)[i] && items[b]
            == items.filter(keep)[j]);
    }
}

/// The paths of a bucket stand in the order of the capture: of two paths of
/// the bucket, the one that stands first was also captured first.
pub proof fn lemma_bucket_keeps_capture_order(
    rules: Seq<CategoryRule>,
    paths: Seq<Seq<char>>,
    k: int,
    i: int,
    j: int,
)
    requires
        0 <= i < j < assigned_to(rules, paths, k).len(),
    ensures
        exists|a: int, b: int|
            0 <= a < b < paths.len() && paths[a] == assigned_to(rules, paths, k)[i] && paths[b]
                == assigned_to(rules, paths, k)[j],
{
    lemma_filter_keeps_order(
        paths,
        |path: Seq<char>| classification(rules, path) == Some(k),
        i,
        j,
    );
}

/// What a path that joins the capture does to the bucket of rule `k`: it goes
/// to the end of the bucket of the rule that takes it first, and leaves every
/// other bucket as it was.
pub proof fn lemma_assigned_push(
    rules: Seq<CategoryRule>,
    paths: Seq<Seq<char>>,
    path: Seq<char>,
    k: int,
)
    ensures
        assigned_to(rules, paths.push(path), k) == if classification(rules, path) == Some(k) {
            assigned_to(rules, paths, k).push(path)
        } else {
            assigned_to(rules, paths, k)
        },
{
    lemma_filter_push(paths, path, |p: Seq<char>| classification(rules, p) == Some(k));
}

/// What a path that joins the capture does to the skipped paths: it goes to
/// their end exactly if no rule takes it.
pub proof fn lemma_skipped_push(rules: Seq<CategoryRule>, paths: Seq<Seq<char>>, path: Seq<char>)
    ensures
        skipped_of(rules, paths.push(path)) == if classification(rules, path) is None {
            skipped_of(rules, paths).push(path)
        } else {
            skipped_of(rules, paths)
        },
{
    lemma_filter_push(paths, path, |p: Seq<char>| classification(rules, p) is None);
}

/// A capture without requests gives one empty bucket per rule, each named
/// after its rule, and leaves no path out.
pub proof fn lemma_empty_capture(source_name: Seq<char>, rules: Seq<CategoryRule>)
    ensures
        workload_of(source_name, rules, Seq::empty()).source_name == source_name,
        workload_of(source_name, rules, Seq::empty()).buckets.len() == rules.len(),
        forall|k: int|
            0 <= k < rules.len() ==> (#[trigger] workload_of(
                source_name,
                rules,
                Seq::empty(),
            ).buckets[k]) == (BucketView { rule_name: rules[k].name, paths: Seq::empty() }),
        skipped_of(rules, Seq::empty()) == Seq::<Seq<char>>::empty(),
{
    reveal(Seq::filter);
}

/// Every workload has one bucket per rule, in the order of the rules and
/// named after them, whatever the capture holds.
pub proof fn lemma_one_bucket_per_rule(
    source_name: Seq<char>,
    rules: Seq<CategoryRule>,
    paths: Seq<Seq<char>>,
)
    ensures
        workload_of(source_name, rules, paths).buckets.len() == rules.len(),
        forall|k: int|
            0 <= k < rules.len() ==> (#[trigger] workload_of(
                source_name,
                rules,
                paths,
            ).buckets[k]).rule_name == rules[k].name,
{
}

/// With a rule without patterns in last place, no path is left out.
pub proof fn lemma_trailing_catch_all_skips_nothing(
    rules: Seq<CategoryRule>,
    paths: Seq<Seq<char>>,
)
    requires
        rules.len() > 0,
        rules.last().is_catch_all(),
    ensures
        skipped_of(rules, paths) == Seq::<Seq<char>>::empty(),
{
    let unclassified = |path: Seq<char>| classification(rules, path) is None;
    let skipped = skipped_of(rules, paths);
    if skipped.len() > 0 {
        paths.lemma_filter_pred(unclassified, 0);
        lemma_trailing_catch_all_classifies(rules, skipped[0]);
    }
    assert(skipped =~= Seq::empty());
}

/// A path is in the bucket of a rule only if that rule is the first to take
/// it, and among the skipped paths only if no rule takes it.
pub proof fn lemma_buckets_hold_first_matches(
    rules: Seq<CategoryRule>,
    paths: Seq<Seq<char>>,
    k: int,
    i: int,
)
    ensures
        0 <= i < assigned_to(rules, paths, k).len() ==> classification(
            rules,
            assigned_to(rules, paths, k)[i],
        ) == Some(k),
        0 <= i < skipped_of(rules, paths).len() ==> classification(
            rules,
            skipped_of(rules, paths)[i],
        ) is None,
{
    if 0 <= i < assigned_to(rules, paths, k).len() {
        paths.lemma_filter_pred(|path: Seq<char>| classification(rules, path) == Some(k), i);
    }
    if 0 <= i < skipped_of(rules, paths).len() {
        paths.lemma_filter_pred(|path: Seq<char>| classification(rules, path) is None, i);
    }
}

/// How many paths the buckets of the first `n` rules hold together.
pub open spec fn assigned_count(rules: Seq<CategoryRule>, paths: Seq<Seq<char>>, n: int) -> int
    decreases n,
{
    if n <= 0 {
        0
    } else {
        assigned_count(rules, paths, n - 1) + assigned_to(rules, paths, n - 1).len()
    }
}

/// A path that joins the capture adds one to the count of the buckets that
/// include the bucket of its rule, and nothing to the others.
proof fn lemma_count_push(rules: Seq<CategoryRule>, paths: Seq<Seq<char>>, path: Seq<char>, n: int)
    ensures
        assigned_count(rules, paths.push(path), n) == assigned_count(rules, paths, n) + (
        if classification(rules, path) matches Some(k) && 0 <= k < n {
            1int
        } else {
            0int
        }),
    decreases n,
{
    if n > 0 {
        lemma_count_push(rules, paths, path, n - 1);
        lemma_assigned_push(rules, paths, path, n - 1);
    }
}

/// Every path of a capture is in exactly one place: in the bucket of one
/// rule, or among the skipped paths.
pub proof fn lemma_every_path_lands_once(rules: Seq<CategoryRule>, paths: Seq<Seq<char>>)
    ensures
        assigned_count(rules, paths, rules.len() as int) + skipped_of(rules, paths).len()
            == paths.len(),
    decreases paths.len(),
{
    if paths.len() == 0 {
        assert(paths =~= Seq::empty());
        lemma_count_of_nothing(rules, rules.len() as int);
        reveal(Seq::filter);
    } else {
        let front = paths.drop_last();
        let path = paths.last();
        assert(paths =~= front.push(path));
        lemma_every_path_lands_once(rules, front);
        lemma_count_push(rules, front, path, rules.len() as int);
        lemma_skipped_push(rules, front, path);
        if classification(rules, path) is Some {
            assert(is_first_match(rules, path, classification(rules, path)->0));
        }
    }
}

/// The buckets of a capture without requests hold nothing.
proof fn lemma_count_of_nothing(rules: Seq<CategoryRule>, n: int)
    ensures
        assigned_count(rules, Seq::empty(), n) == 0,
    decreases n,
{
    reveal(Seq::filter);
    if n > 0 {
        lemma_count_of_nothing(rules, n - 1);
    }
}

impl WorkloadView {
    /// The workload with `path` added at the end of bucket `k`.
    pub open spec fn with_path(self, k: int, path: Seq<char>) -> WorkloadView {
        WorkloadView {
            source_name: self.source_name,
            buckets: self.buckets.update(
                k,
                BucketView {
                    rule_name: self.buckets[k].rule_name,
                    paths: self.buckets[k].paths.push(path),
                },
            ),
        }
    }
}

impl Workload {
    /// A workload without paths: one empty bucket per rule.
    pub fn empty(source_name: &str, rules: &Vec<Category>) -> (workload: Workload)
        ensures
            workload@ == workload_of(source_name@, rule_views(rules@), Seq::empty()),
            workload@.buckets.len() == rules.len(),
    {
        let ghost model = rule_views(rules@);
        let mut buckets: Vec<CategoryBucket> = Vec::new();
        let mut i: usize = 0;
        while i < rules.len()
            invariant
                i <= rules.len(),
                model == rule_views(rules@),
                buckets.len() == i,
                forall|k: int|
                    0 <= k < i ==> (#[trigger] buckets[k])@ == (BucketView {
                        rule_name: model[k].name,
                        paths: Seq::empty(),
                    }),
            decreases rules.len() - i,
        {
            let bucket = CategoryBucket {
                rule_name: rules[i].name().to_owned(),
                paths: Vec::new(),
            };
            assert(bucket@.paths =~= Seq::empty());
            buckets.push(bucket);
            i += 1;
        }
        let workload = Workload { source_name: source_name.to_owned(), buckets };
        proof {
            reveal(Seq::filter);
            assert(workload@.buckets =~= workload_of(
                source_name@,
                model,
                Seq::empty(),
            ).buckets);
        }
        workload
    }

    /// Adds `path` at the end of the bucket at `position`.
    ///
    /// Returns whether there is such a bucket; the workload is unchanged
    /// where there is none.
    pub fn assign(&mut self, position: usize, path: &str) -> (placed: bool)
        ensures
            placed == (position < old(self)@.buckets.len()),
            placed ==> final(self)@ == old(self)@.with_path(position as int, path@),
            !placed ==> final(self)@ == old(self)@,
    {
        if position >= self.buckets.len() {
            return false;
        }
        self.buckets[position].paths.push(path.to_owned());
        proof {
            let k = position as int;
            assert(self.buckets[k]@.paths =~= old(self).buckets[k]@.paths.push(path@));
            assert(self@.buckets =~= old(self)@.with_path(k, path@).buckets);
        }
        true
    }

    /// Builds the workload of one capture.
    ///
    /// The workload has one bucket per rule, in the order of the rules, each
    /// named after its rule. Every record goes to the bucket of the first rule
    /// that takes its path, behind the records that came before it. A record
    /// that no rule takes is left out.
    pub fn build(source_name: &str, rules: &Vec<Category>, records: &Vec<RequestRecord>) -> (workload:
        Workload)
        ensures
            workload@ == workload_of(source_name@, rule_views(rules@), record_views(records@)),
            workload@.buckets.len() == rules.len(),
    {
        partition(source_name, rules, records).0
    }
}

/// Builds the workload of one capture, and lists the paths that were left
/// out of it because no rule takes them, in the order of the capture.
pub fn partition(source_name: &str, rules: &Vec<Category>, records: &Vec<RequestRecord>) -> (parts: (
    Workload,
    Vec<String>,
))
    ensures
        parts.0@ == workload_of(source_name@, rule_views(rules@), record_views(records@)),
        parts.0@.buckets.len() == rules.len(),
        text_views(parts.1@) == skipped_of(rule_views(rules@), record_views(records@)),
{
    let ghost model = rule_views(rules@);
    let ghost paths = record_views(records@);
    let mut workload = Workload::empty(source_name, rules);
    let mut skipped: Vec<String> = Vec::new();
    proof {
        reveal(Seq::filter);
        assert(paths.take(0) =~= Seq::empty());
        assert(text_views(skipped@) =~= skipped_of(model, paths.take(0)));
    }
    let mut n: usize = 0;
    while n < records.len()
        invariant
            n <= records.len(),
            model == rule_views(rules@),
            paths == record_views(records@),
            workload@ == workload_of(source_name@, model, paths.take(n as int)),
            text_views(skipped@) == skipped_of(model, paths.take(n as int)),
        decreases records.len() - n,
    {
        let path = records[n].path.as_str();
        let ghost seen = paths.take(n as int);
        proof {
            assert(paths.take(n + 1) =~= seen.push(path@));
            lemma_skipped_push(model, seen, path@);
            assert forall|k: int| 0 <= k < model.len() implies assigned_to(
                model,
                seen.push(path@),
                k,
            ) == if classification(model, path@) == Some(k) {
                assigned_to(model, seen, k).push(path@)
            } else {
                assigned_to(model, seen, k)
            } by {
                lemma_assigned_push(model, seen, path@, k);
            }
        }
        match classify(rules, path) {
            Some(position) => {
                workload.assign(position, path);
                assert(workload@.buckets =~= workload_of(
                    source_name@,
                    model,
                    seen.push(path@),
                ).buckets);
            },
            None => {
                let ghost skipped_before = text_views(skipped@);
                skipped.push(path.to_owned());
                assert(text_views(skipped@) =~= skipped_before.push(path@));
                assert(workload@.buckets =~= workload_of(
                    source_name@,
                    model,
                    seen.push(path@),
                ).buckets);
            },
        }
        n += 1;
    }
    proof {
        assert(paths.take(n as int) =~= paths);
    }
    (workload, skipped)
}

} // verus!
