//! Combining the per-item results of a resolution stage.
//!
//! Each item of a stage (a county, a station, a data folder) resolves on its
//! own to a list of links or to an error. The stage keeps every link of the
//! items that resolved, in item order, and every error; it fails as a whole
//! only where it had items and none of them resolved.

use vstd::prelude::*;
use crate::error::AppError;

verus! {

/// How many requests a stage keeps in flight where none is configured.
pub const DEFAULT_CONCURRENCY: usize = 8;

/// The most requests a stage keeps in flight.
pub const MAX_CONCURRENCY: usize = 16;

/// The number of concurrent requests a stage runs with: the default where
/// `requested` is 0, else `requested` capped at `MAX_CONCURRENCY`.
pub fn concurrency_limit(requested: usize) -> (r: usize)
    ensures
        requested == 0 ==> r == DEFAULT_CONCURRENCY,
        requested > 0 ==> r == if requested <= MAX_CONCURRENCY {
            requested
        } else {
            MAX_CONCURRENCY
        },
        1 <= r <= MAX_CONCURRENCY,
{
    if requested == 0 {
        DEFAULT_CONCURRENCY
    } else if requested <= MAX_CONCURRENCY {
        requested
    } else {
        MAX_CONCURRENCY
    }
}

/// The links of the items of `rs` that resolved, in item order.
pub open spec fn ok_links(rs: Seq<Result<Vec<String>, AppError>>) -> Seq<String>
    decreases rs.len(),
{
    if rs.len() == 0 {
        Seq::empty()
    } else {
        match rs.last() {
            Ok(v) => ok_links(rs.drop_last()) + v@,
            Err(_) => ok_links(rs.drop_last()),
        }
    }
}

/// The errors of the items of `rs` that failed, in item order.
pub open spec fn errors_of(rs: Seq<Result<Vec<String>, AppError>>) -> Seq<AppError>
    decreases rs.len(),
{
    if rs.len() == 0 {
        Seq::empty()
    } else {
        match rs.last() {
            Ok(_) => errors_of(rs.drop_last()),
            Err(e) => errors_of(rs.drop_last()).push(e),
        }
    }
}

/// How many items of `rs` resolved.
pub open spec fn count_ok(rs: Seq<Result<Vec<String>, AppError>>) -> nat
    decreases rs.len(),
{
    if rs.len() == 0 {
        0
    } else {
        count_ok(rs.drop_last()) + if rs.last() is Ok {
            1nat
        } else {
            0nat
        }
    }
}

/// The combined result of one stage.
pub struct StageReport {
    /// The links of the items that resolved, in item order.
    pub links: Vec<String>,
    /// The errors of the items that failed, in item order.
    pub errors: Vec<AppError>,
    /// How many items resolved.
    pub resolved: usize,
}

impl StageReport {
    /// Whether the stage failed as a whole: it had items, and none resolved.
    pub fn all_failed(&self) -> (r: bool)
        ensures
            r == (self.resolved == 0 && self.errors@.len() > 0),
    {
        self.resolved == 0 && self.errors.len() > 0
    }
}

/// Combines the per-item results of a stage, keeping all links of the items
/// that resolved and all errors of those that failed.
pub fn collect_stage(results: Vec<Result<Vec<String>, AppError>>) -> (r: StageReport)
    ensures
        r.links@ == ok_links(results@),
        r.errors@ == errors_of(results@),
        r.resolved == count_ok(results@),
        r.resolved + r.errors@.len() == results@.len(),
{
    let ghost all = results@;
    let n = results.len();
    let mut rest = results;
    let mut links: Vec<String> = Vec::new();
    let mut errors: Vec<AppError> = Vec::new();
    let mut resolved: usize = 0;
    let mut i: usize = 0;
    while i < n
        invariant
            n == all.len(),
            i <= n,
            rest@ == all.subrange(i as int, n as int),
            links@ == ok_links(all.subrange(0, i as int)),
            errors@ == errors_of(all.subrange(0, i as int)),
            resolved == count_ok(all.subrange(0, i as int)),
            resolved + errors@.len() == i,
        decreases n - i,
    {
        assert(all.subrange(0, i + 1).drop_last() =~= all.subrange(0, i as int));
        assert(rest@[0] == all[i as int]);
        let item = rest.remove(0);
        assert(rest@ =~= all.subrange(i + 1, n as int));
        match item {
            Ok(v) => {
                let mut v = v;
                links.append(&mut v);
                resolved = resolved + 1;
            },
            Err(e) => {
                errors.push(e);
            },
        }
        i = i + 1;
    }
    assert(all.subrange(0, n as int) =~= all);
    StageReport { links, errors, resolved }
}

/// Where one item of a stage resolves, the stage does not fail as a whole and
/// keeps every link of that item, whatever the other items gave: items after
/// the stage see them.
pub proof fn lemma_partial_failure_tolerated(rs: Seq<Result<Vec<String>, AppError>>, i: int)
    requires
        0 <= i < rs.len(),
        rs[i] is Ok,
    ensures
        count_ok(rs) > 0,
        forall|k: int| 0 <= k < rs[i]->Ok_0@.len() ==> ok_links(rs).contains(#[trigger] rs[i]->Ok_0@[k]),
    decreases rs.len(),
{
    let b = rs.drop_last();
    if i == rs.len() - 1 {
        let v = rs[i]->Ok_0@;
        assert forall|k: int| 0 <= k < v.len() implies ok_links(rs).contains(#[trigger] v[k]) by {
            assert(ok_links(rs)[ok_links(b).len() + k] == v[k]);
        }
    } else {
        assert(b[i] == rs[i]);
        lemma_partial_failure_tolerated(b, i);
        let v = rs[i]->Ok_0@;
        assert forall|k: int| 0 <= k < v.len() implies ok_links(rs).contains(#[trigger] v[k]) by {
            assert(ok_links(b).contains(v[k]));
            let j = choose|j: int| 0 <= j < ok_links(b).len() && ok_links(b)[j] == v[k];
            assert(ok_links(rs)[j] == v[k]);
        }
    }
}

/// Where exactly one item of a stage resolves and every other item fails,
/// the stage resolves once and hands on exactly that item's links.
pub proof fn lemma_only_resolved_item_flows_on(rs: Seq<Result<Vec<String>, AppError>>, i: int)
    requires
        0 <= i < rs.len(),
        rs[i] is Ok,
        forall|j: int| 0 <= j < rs.len() && j != i ==> #[trigger] rs[j] is Err,
    ensures
        count_ok(rs) == 1,
        ok_links(rs) == rs[i]->Ok_0@,
    decreases rs.len(),
{
    let b = rs.drop_last();
    if i == rs.len() - 1 {
        lemma_all_failed_yields_nothing(b);
        assert(ok_links(rs) =~= rs[i]->Ok_0@);
    } else {
        assert(b[i] == rs[i]);
        assert(forall|j: int| 0 <= j < b.len() && j != i ==> b[j] == rs[j]);
        assert(rs[rs.len() - 1] is Err);
        lemma_only_resolved_item_flows_on(b, i);
    }
}

/// A stage whose items all failed resolves nothing and hands on no links.
proof fn lemma_all_failed_yields_nothing(rs: Seq<Result<Vec<String>, AppError>>)
    requires
        forall|j: int| 0 <= j < rs.len() ==> #[trigger] rs[j] is Err,
    ensures
        count_ok(rs) == 0,
        ok_links(rs) == Seq::<String>::empty(),
    decreases rs.len(),
{
    if rs.len() > 0 {
        let b = rs.drop_last();
        assert(forall|j: int| 0 <= j < b.len() ==> b[j] == rs[j]);
        assert(rs[rs.len() - 1] is Err);
        lemma_all_failed_yields_nothing(b);
    }
}

} // verus!
