use vstd::prelude::*;

use crate::manifest::environment_label;
use crate::order::{is_listed, listed, sorted_distinct, strictly_ordered};
use crate::report::{QueryEvidence, Report};
use crate::text::{
    decimal, escape_pipes, fixed2, fixed2_text, pipe_escape, u128_decimal,
    debug_quoted, debug_str, join_strings, join_with, lemma_lex_asymmetric, lemma_lex_irreflexive,
    lemma_lex_total, lemma_lex_transitive, lex_lt, lex_lt_str, str_eq,
};

verus! {

/// How a query's median moved against the threshold.
#[derive(Debug, Clone, Copy, PartialEq, Eq, Structural)]
pub enum ComparisonStatus {
    Improved,
    Stable,
    Regression,
}

/// One query's baseline and candidate medians and the change between them.
#[derive(Debug, Clone)]
pub struct QueryComparison {
    pub name: String,
    pub baseline_median_us: u64,
    pub candidate_median_us: u64,
    /// The change of the median, in hundredths of a percent, rounded half away from zero.
    pub change_basis_points: i128,
    pub status: ComparisonStatus,
}

/// The outcome of comparing a candidate report with a baseline.
#[derive(Debug, Clone)]
pub struct Comparison {
    pub schema_version: u32,
    pub profile: String,
    /// The regression threshold, in hundredths of a percent.
    pub threshold_basis_points: u64,
    pub context_match: bool,
    pub context_warnings: Vec<String>,
    pub regressions: usize,
    pub queries: Vec<QueryComparison>,
}

pub open spec fn status_label(s: ComparisonStatus) -> Seq<char> {
    match s {
        ComparisonStatus::Improved => "improved"@,
        ComparisonStatus::Stable => "stable"@,
        ComparisonStatus::Regression => "regression"@,
    }
}

impl ComparisonStatus {
    /// The word that comparisons print for this status.
    pub fn label(&self) -> (r: &'static str)
        ensures
            r@ == status_label(*self),
    {
        match self {
            ComparisonStatus::Improved => "improved",
            ComparisonStatus::Stable => "stable",
            ComparisonStatus::Regression => "regression",
        }
    }
}

/// The warning for one piece of context that differs between the reports, if it does.
pub open spec fn context_warning(label: Seq<char>, before: Seq<char>, after: Seq<char>) -> Seq<
    Seq<char>,
> {
    if before != after {
        seq![label + " differs ("@ + debug_quoted(before) + " vs "@ + debug_quoted(after) + ")"@]
    } else {
        Seq::empty()
    }
}

/// All context warnings, in the order in which the context is compared.
pub open spec fn context_warnings(b: Report, c: Report) -> Seq<Seq<char>> {
    context_warning("profile"@, b.environment.profile@, c.environment.profile@) + context_warning(
        "evidence kind"@,
        environment_label(b.environment.evidence_kind),
        environment_label(c.environment.evidence_kind),
    ) + context_warning("SQLite version"@, b.sqlite.version@, c.sqlite.version@)
        + context_warning(
        "fixture SHA-256"@,
        b.workload.fixture_sha256@,
        c.workload.fixture_sha256@,
    ) + context_warning(
        "manifest SHA-256"@,
        b.workload.manifest_sha256@,
        c.workload.manifest_sha256@,
    )
}

fn compare_context(warnings: &mut Vec<String>, label: &str, before: &str, after: &str)
    ensures
        final(warnings)@.map_values(|w: String| w@) == old(warnings)@.map_values(|w: String| w@)
            + context_warning(label@, before@, after@),
{
    if !str_eq(before, after) {
        let mut w = String::from_str(label);
        w.append(" differs (");
        w.append(debug_str(before).as_str());
        w.append(" vs ");
        w.append(debug_str(after).as_str());
        w.append(")");
        let ghost old_views = warnings@.map_values(|w: String| w@);
        warnings.push(w);
        assert(warnings@.map_values(|w: String| w@) =~= old_views + context_warning(
            label@,
            before@,
            after@,
        ));
    } else {
        assert(warnings@.map_values(|w: String| w@) =~= warnings@.map_values(|w: String| w@)
            + context_warning(label@, before@, after@));
    }
}

/// The refusal when the context differs and mismatches are not allowed.
pub open spec fn context_mismatch_message(warnings: Seq<Seq<char>>) -> Seq<char> {
    "reports are not comparable: "@ + join_with(warnings, "; "@)
        + " (pass --allow-context-mismatch only for exploratory analysis)"@
}

/// Some query of `qs` has this name.
pub open spec fn has_query(qs: Seq<QueryEvidence>, name: Seq<char>) -> bool {
    exists|i: int| 0 <= i < qs.len() && #[trigger] qs[i].name@ == name
}

/// The index of the last query among `qs[..n]` with this name, or -1: a
/// report's queries are looked up by name and a later one shadows an earlier one.
pub open spec fn last_index(qs: Seq<QueryEvidence>, name: Seq<char>, n: int) -> int
    decreases n,
{
    if n <= 0 {
        -1
    } else if qs[n - 1].name@ == name {
        n - 1
    } else {
        last_index(qs, name, n - 1)
    }
}

/// The query that a name selects in a report.
pub open spec fn query_named(qs: Seq<QueryEvidence>, name: Seq<char>) -> QueryEvidence {
    qs[last_index(qs, name, qs.len() as int)]
}

/// Both reports name the same queries.
pub open spec fn same_query_names(b: Seq<QueryEvidence>, c: Seq<QueryEvidence>) -> bool {
    forall|name: Seq<char>| has_query(b, name) == has_query(c, name)
}

proof fn lemma_last_index(qs: Seq<QueryEvidence>, name: Seq<char>, n: int)
    requires
        0 <= n <= qs.len(),
    ensures
        -1 <= last_index(qs, name, n) < n,
        last_index(qs, name, n) >= 0 ==> qs[last_index(qs, name, n)].name@ == name,
        last_index(qs, name, n) >= 0 <==> exists|i: int| 0 <= i < n && #[trigger] qs[i].name@ == name,
    decreases n,
{
    if n > 0 {
        lemma_last_index(qs, name, n - 1);
    }
}

/// Finds the query that a name selects; the name must occur.
fn find_last(qs: &Vec<QueryEvidence>, name: &str) -> (r: usize)
    requires
        has_query(qs@, name@),
    ensures
        r == last_index(qs@, name@, qs@.len() as int),
        r < qs@.len(),
{
    proof {
        lemma_last_index(qs@, name@, qs@.len() as int);
    }
    let mut n: usize = qs.len();
    while n > 0
        invariant
            n <= qs@.len(),
            last_index(qs@, name@, n as int) == last_index(qs@, name@, qs@.len() as int),
            last_index(qs@, name@, qs@.len() as int) >= 0,
        decreases n,
    {
        if str_eq(qs[n - 1].name.as_str(), name) {
            return n - 1;
        }
        n = n - 1;
    }
    proof {
        lemma_last_index(qs@, name@, 0);
    }
    0
}

/// The distinct query names of a report, in lexicographic order.
fn ordered_names(qs: &Vec<QueryEvidence>) -> (r: Vec<String>)
    ensures
        strictly_ordered(r@),
        forall|k: int| 0 <= k < r@.len() ==> has_query(qs@, #[trigger] r@[k]@),
        forall|name: Seq<char>| has_query(qs@, name) ==> listed(r@, name),
{
    let mut names: Vec<String> = Vec::new();
    for i in 0..qs.len()
        invariant
            names@.len() == i,
            forall|k: int| 0 <= k < i ==> #[trigger] names@[k]@ == qs@[k].name@,
    {
        names.push(qs[i].name.clone());
    }
    let r = sorted_distinct(&names);
    proof {
        assert forall|k: int| 0 <= k < r@.len() implies has_query(qs@, #[trigger] r@[k]@) by {
            assert(listed(names@, r@[k]@));
            let j = choose|j: int| 0 <= j < names@.len() && #[trigger] names@[j]@ == r@[k]@;
            assert(qs@[j].name@ == r@[k]@);
        }
        assert forall|name: Seq<char>| has_query(qs@, name) implies listed(r@, name) by {
            let j = choose|j: int| 0 <= j < qs@.len() && #[trigger] qs@[j].name@ == name;
            assert(names@[j]@ == name);
            assert(listed(names@, name));
        }
    }
    r
}

} // verus!

verus! {

/// The change from `before` to `after` in hundredths of a percent of `before`,
/// rounded half away from zero; no change is reported against a zero baseline.
pub open spec fn change_basis_points(before: u64, after: u64) -> int {
    if before == 0 {
        0
    } else {
        let num = 10000 * (after - before);
        if num >= 0 {
            (2 * num + before) / (2 * before)
        } else {
            -((2 * (-num) + before) / (2 * before))
        }
    }
}

/// A change above the threshold is a regression, one below its negative an
/// improvement; `threshold` is in hundredths of a percent.
pub open spec fn status_for(before: u64, after: u64, threshold: u64) -> ComparisonStatus {
    if before > 0 && 10000 * (after - before) > threshold * before {
        ComparisonStatus::Regression
    } else if before > 0 && 10000 * (before - after) > threshold * before {
        ComparisonStatus::Improved
    } else {
        ComparisonStatus::Stable
    }
}

fn change_of(before: u64, after: u64) -> (r: i128)
    ensures
        r == change_basis_points(before, after),
{
    if before == 0 {
        return 0;
    }
    let b = before as i128;
    let a = after as i128;
    let num: i128 = 10000 * (a - b);
    if num >= 0 {
        (2 * num + b) / (2 * b)
    } else {
        0 - (2 * (0 - num) + b) / (2 * b)
    }
}

fn status_of(before: u64, after: u64, threshold: u64) -> (r: ComparisonStatus)
    ensures
        r == status_for(before, after, threshold),
{
    assert((threshold as int) * (before as int) <= u128::MAX) by (nonlinear_arith)
        requires
            threshold <= u64::MAX,
            before <= u64::MAX,
    ;
    let scaled: u128 = (threshold as u128) * (before as u128);
    if before > 0 && after > before && 10000 * ((after - before) as u128) > scaled {
        ComparisonStatus::Regression
    } else if before > 0 && before > after && 10000 * ((before - after) as u128) > scaled {
        ComparisonStatus::Improved
    } else {
        ComparisonStatus::Stable
    }
}

/// The query's result digest differs between the two reports.
pub open spec fn digest_changed(b: Report, c: Report, name: Seq<char>) -> bool {
    query_named(b.queries@, name).result_digest@ != query_named(c.queries@, name).result_digest@
}

/// `name` is the lexicographically first query whose result digest changed.
pub open spec fn first_changed(b: Report, c: Report, name: Seq<char>) -> bool {
    &&& has_query(b.queries@, name)
    &&& digest_changed(b, c, name)
    &&& forall|m: Seq<char>|
        has_query(b.queries@, m) && digest_changed(b, c, m) ==> !lex_lt(m, name)
}

pub open spec fn digest_message(name: Seq<char>) -> Seq<char> {
    "query "@ + name
        + " result digest changed; performance comparison would hide a behavior change"@
}

/// The comparison of one query, selected by name in both reports.
pub open spec fn compares(q: QueryComparison, b: Report, c: Report, threshold: u64) -> bool {
    let before = query_named(b.queries@, q.name@).timing_us.median;
    let after = query_named(c.queries@, q.name@).timing_us.median;
    &&& q.baseline_median_us == before
    &&& q.candidate_median_us == after
    &&& q.change_basis_points == change_basis_points(before, after)
    &&& q.status == status_for(before, after, threshold)
}

/// Query comparisons in strictly increasing order of name.
pub open spec fn comparisons_ordered(qs: Seq<QueryComparison>) -> bool {
    forall|i: int, j: int| 0 <= i < j < qs.len() ==> lex_lt(#[trigger] qs[i].name@, #[trigger] qs[j].name@)
}

/// How many of the comparisons have the given status.
pub open spec fn count_status(qs: Seq<QueryComparison>, s: ComparisonStatus) -> nat
    decreases qs.len(),
{
    if qs.len() == 0 {
        0
    } else {
        count_status(qs.drop_last(), s) + if qs.last().status == s {
            1nat
        } else {
            0nat
        }
    }
}

/// What a successful comparison holds.
pub open spec fn comparison_of(outcome: Comparison, b: Report, c: Report, threshold: u64) -> bool {
    let qs = outcome.queries@;
    &&& outcome.schema_version == 1
    &&& outcome.profile@ == c.environment.profile@
    &&& outcome.threshold_basis_points == threshold
    &&& outcome.context_warnings@.map_values(|w: String| w@) == context_warnings(b, c)
    &&& outcome.context_match == (context_warnings(b, c).len() == 0)
    &&& comparisons_ordered(qs)
    &&& forall|k: int| 0 <= k < qs.len() ==> has_query(b.queries@, #[trigger] qs[k].name@)
    &&& forall|name: Seq<char>|
        has_query(b.queries@, name) ==> exists|k: int| 0 <= k < qs.len() && #[trigger] qs[k].name@ == name
    &&& forall|k: int| 0 <= k < qs.len() ==> compares(#[trigger] qs[k], b, c, threshold)
    &&& outcome.regressions == count_status(qs, ComparisonStatus::Regression)
}

} // verus!

verus! {

/// Compares a candidate report with a baseline, query by query.
///
/// The reports must agree on profile, evidence kind, SQLite version and both
/// pinned hashes unless `allow_context_mismatch`; they must name the same
/// queries, and each query must return the same result digest. Queries are
/// compared in order of name by their medians against `threshold_basis_points`
/// (hundredths of a percent).
#[verifier::loop_isolation(false)]
pub fn compare_reports(
    baseline: &Report,
    candidate: &Report,
    threshold_basis_points: u64,
    allow_context_mismatch: bool,
) -> (r: Result<Comparison, String>)
    ensures
        ({
            let w = context_warnings(*baseline, *candidate);
            let usable = w.len() == 0 || allow_context_mismatch;
            let same = same_query_names(baseline.queries@, candidate.queries@);
            match r {
                Ok(outcome) => usable && same && (forall|name: Seq<char>|
                    has_query(baseline.queries@, name) ==> !digest_changed(
                        *baseline,
                        *candidate,
                        name,
                    )) && comparison_of(outcome, *baseline, *candidate, threshold_basis_points),
                Err(e) => if !usable {
                    e@ == context_mismatch_message(w)
                } else if !same {
                    e@ == "reports contain different query sets"@
                } else {
                    exists|name: Seq<char>|
                        first_changed(*baseline, *candidate, name) && e@ == digest_message(name)
                },
            }
        }),
{
    let mut warnings: Vec<String> = Vec::new();
    compare_context(
        &mut warnings,
        "profile",
        baseline.environment.profile.as_str(),
        candidate.environment.profile.as_str(),
    );
    compare_context(
        &mut warnings,
        "evidence kind",
        baseline.environment.evidence_kind.label(),
        candidate.environment.evidence_kind.label(),
    );
    compare_context(
        &mut warnings,
        "SQLite version",
        baseline.sqlite.version.as_str(),
        candidate.sqlite.version.as_str(),
    );
    compare_context(
        &mut warnings,
        "fixture SHA-256",
        baseline.workload.fixture_sha256.as_str(),
        candidate.workload.fixture_sha256.as_str(),
    );
    compare_context(
        &mut warnings,
        "manifest SHA-256",
        baseline.workload.manifest_sha256.as_str(),
        candidate.workload.manifest_sha256.as_str(),
    );
    let ghost w = context_warnings(*baseline, *candidate);
    assert(warnings@.map_values(|x: String| x@) =~= w);
    if warnings.len() > 0 && !allow_context_mismatch {
        let mut e = String::from_str("reports are not comparable: ");
        e.append(join_strings(&warnings, "; ").as_str());
        e.append(" (pass --allow-context-mismatch only for exploratory analysis)");
        return Err(e);
    }
    let bq = &baseline.queries;
    let cq = &candidate.queries;
    let names = ordered_names(bq);
    let other = ordered_names(cq);
    for k in 0..names.len()
        invariant
            forall|j: int| 0 <= j < k ==> listed(other@, #[trigger] names@[j]@),
    {
        if !is_listed(&other, names[k].as_str()) {
            proof {
                let n = names@[k as int]@;
                assert(has_query(bq@, n));
                if has_query(cq@, n) {
                    assert(listed(other@, n));
                }
            }
            return Err(String::from_str("reports contain different query sets"));
        }
    }
    for k in 0..other.len()
        invariant
            forall|j: int| 0 <= j < k ==> listed(names@, #[trigger] other@[j]@),
    {
        if !is_listed(&names, other[k].as_str()) {
            proof {
                let n = other@[k as int]@;
                assert(has_query(cq@, n));
                if has_query(bq@, n) {
                    assert(listed(names@, n));
                }
            }
            return Err(String::from_str("reports contain different query sets"));
        }
    }
    proof {
        assert forall|n: Seq<char>| has_query(bq@, n) == has_query(cq@, n) by {
            if has_query(bq@, n) {
                assert(listed(names@, n));
                let j = choose|j: int| 0 <= j < names@.len() && #[trigger] names@[j]@ == n;
                assert(listed(other@, names@[j]@));
                let i = choose|i: int| 0 <= i < other@.len() && #[trigger] other@[i]@ == n;
                assert(has_query(cq@, other@[i]@));
            }
            if has_query(cq@, n) {
                assert(listed(other@, n));
                let j = choose|j: int| 0 <= j < other@.len() && #[trigger] other@[j]@ == n;
                assert(listed(names@, other@[j]@));
                let i = choose|i: int| 0 <= i < names@.len() && #[trigger] names@[i]@ == n;
                assert(has_query(bq@, names@[i]@));
            }
        }
    }
    let mut queries: Vec<QueryComparison> = Vec::new();
    let mut regressions: usize = 0;
    for k in 0..names.len()
        invariant
            same_query_names(bq@, cq@),
            bq == &baseline.queries,
            cq == &candidate.queries,
            strictly_ordered(names@),
            forall|j: int| 0 <= j < names@.len() ==> has_query(bq@, #[trigger] names@[j]@),
            forall|n: Seq<char>| has_query(bq@, n) ==> listed(names@, n),
            queries@.len() == k,
            forall|j: int| 0 <= j < k ==> #[trigger] queries@[j].name@ == names@[j]@,
            forall|j: int| 0 <= j < k ==> compares(#[trigger] queries@[j], *baseline, *candidate, threshold_basis_points),
            forall|j: int| 0 <= j < k ==> !digest_changed(*baseline, *candidate, #[trigger] names@[j]@),
            regressions == count_status(queries@, ComparisonStatus::Regression),
            regressions <= k,
    {
        let name = names[k].as_str();
        assert(has_query(bq@, name@));
        let bi = find_last(bq, name);
        let ci = find_last(cq, name);
        let before = &bq[bi];
        let after = &cq[ci];
        if !str_eq(before.result_digest.as_str(), after.result_digest.as_str()) {
            let mut e = String::from_str("query ");
            e.append(name);
            e.append(" result digest changed; performance comparison would hide a behavior change");
            proof {
                assert forall|m: Seq<char>|
                    has_query(bq@, m) && digest_changed(*baseline, *candidate, m) implies !lex_lt(
                    m,
                    name@,
                ) by {
                    let j = choose|j: int| 0 <= j < names@.len() && #[trigger] names@[j]@ == m;
                    if j < k {
                        assert(!digest_changed(*baseline, *candidate, names@[j]@));
                    } else if j == k {
                        lemma_lex_irreflexive(m);
                    } else {
                        assert(lex_lt(names@[k as int]@, names@[j]@));
                        lemma_lex_asymmetric(name@, m);
                    }
                }
                assert(first_changed(*baseline, *candidate, name@));
                assert(e@ == digest_message(name@));
            }
            return Err(e);
        }
        let b_med = before.timing_us.median;
        let a_med = after.timing_us.median;
        let status = status_of(b_med, a_med, threshold_basis_points);
        let q = QueryComparison {
            name: names[k].clone(),
            baseline_median_us: b_med,
            candidate_median_us: a_med,
            change_basis_points: change_of(b_med, a_med),
            status,
        };
        let ghost prev = queries@;
        queries.push(q);
        assert(queries@.drop_last() == prev);
        if status == ComparisonStatus::Regression {
            regressions = regressions + 1;
        }
    }
    proof {
        assert forall|i: int, j: int| 0 <= i < j < queries@.len() implies lex_lt(
            #[trigger] queries@[i].name@,
            #[trigger] queries@[j].name@,
        ) by {
            assert(lex_lt(names@[i]@, names@[j]@));
        }
        assert forall|n: Seq<char>| has_query(bq@, n) implies !digest_changed(
            *baseline,
            *candidate,
            n,
        ) by {
            let j = choose|j: int| 0 <= j < names@.len() && #[trigger] names@[j]@ == n;
        }
        assert forall|n: Seq<char>| has_query(bq@, n) implies exists|k: int|
            0 <= k < queries@.len() && #[trigger] queries@[k].name@ == n by {
            let j = choose|j: int| 0 <= j < names@.len() && #[trigger] names@[j]@ == n;
            assert(queries@[j].name@ == n);
        }
    }
    let context_match = warnings.len() == 0;
    Ok(
        Comparison {
            schema_version: 1,
            profile: candidate.environment.profile.clone(),
            threshold_basis_points,
            context_match,
            context_warnings: warnings,
            regressions,
            queries,
        },
    )
}

} // verus!

verus! {

/// The signed change as `{:+.2}` prints the percentage: a minus sign exactly
/// when the candidate's median is below a non-zero baseline median.
pub open spec fn change_text(q: QueryComparison) -> Seq<char> {
    let magnitude: int = if q.change_basis_points < 0 {
        -q.change_basis_points
    } else {
        q.change_basis_points as int
    };
    (if q.baseline_median_us > 0 && q.candidate_median_us < q.baseline_median_us {
        "-"@
    } else {
        "+"@
    }) + fixed2(magnitude as nat)
}

pub open spec fn comparison_row(q: QueryComparison) -> Seq<char> {
    "| "@ + pipe_escape(q.name@) + " | "@ + decimal(q.baseline_median_us as nat) + " µs | "@
        + decimal(q.candidate_median_us as nat) + " µs | "@ + change_text(q) + "% | "@
        + status_label(q.status) + " |\n"@
}

pub open spec fn comparison_rows(qs: Seq<QueryComparison>) -> Seq<char>
    decreases qs.len(),
{
    if qs.len() == 0 {
        Seq::empty()
    } else {
        comparison_rows(qs.drop_last()) + comparison_row(qs.last())
    }
}

/// Each warning as a bullet, unescaped.
pub open spec fn warning_lines(ws: Seq<String>) -> Seq<char>
    decreases ws.len(),
{
    if ws.len() == 0 {
        Seq::empty()
    } else {
        warning_lines(ws.drop_last()) + "- "@ + ws.last()@ + "\n"@
    }
}

/// The Markdown report of a comparison.
pub open spec fn comparison_markdown(c: Comparison) -> Seq<char> {
    "# SQLite workload comparison: "@ + c.profile@ + "\n\n"@ + "**Gate: "@ + (if c.regressions == 0 {
        "PASS"@
    } else {
        "FAIL"@
    }) + "** — "@ + decimal(c.regressions as nat) + " regression(s) above "@ + fixed2(
        c.threshold_basis_points as nat,
    ) + "%\n\n"@ + (if c.context_warnings@.len() == 0 {
        Seq::empty()
    } else {
        "> Exploratory comparison: report context differs.\n\n"@ + warning_lines(
            c.context_warnings@,
        ) + "\n"@
    }) + "| Query | Baseline median | Candidate median | Change | Status |\n"@
        + "| --- | ---: | ---: | ---: | --- |\n"@ + comparison_rows(c.queries@)
        + "\nDescriptive median comparison only; this gate does not assert statistical significance.\n\n"@
}

fn change_str(q: &QueryComparison) -> (s: String)
    ensures
        s@ == change_text(*q),
{
    let magnitude: u128 = if q.change_basis_points < 0 {
        ((-1 - q.change_basis_points) as u128) + 1
    } else {
        q.change_basis_points as u128
    };
    let mut s = if q.baseline_median_us > 0 && q.candidate_median_us < q.baseline_median_us {
        String::from_str("-")
    } else {
        String::from_str("+")
    };
    s.append(fixed2_text(magnitude).as_str());
    s
}

impl Comparison {
    /// The comparison as Markdown: PASS or FAIL with the regression count, any
    /// context warnings, and one row per query.
    #[verifier::spinoff_prover]
    #[verifier::rlimit(40)]
    pub fn markdown(&self) -> (out: String)
        ensures
            out@ == comparison_markdown(*self),
    {
        let mut out = String::from_str("# SQLite workload comparison: ");
        out.append(self.profile.as_str());
        out.append("\n\n");
        out.append("**Gate: ");
        if self.regressions == 0 {
            out.append("PASS");
        } else {
            out.append("FAIL");
        }
        out.append("** — ");
        out.append(u128_decimal(self.regressions as u128).as_str());
        out.append(" regression(s) above ");
        out.append(fixed2_text(self.threshold_basis_points as u128).as_str());
        out.append("%\n\n");
        let ws = &self.context_warnings;
        if ws.len() > 0 {
            let mut block = String::from_str("> Exploratory comparison: report context differs.\n\n");
            let ghost head = block@;
            for i in 0..ws.len()
                invariant
                    block@ == head + warning_lines(ws@.take(i as int)),
            {
                block.append("- ");
                block.append(ws[i].as_str());
                block.append("\n");
                assert(ws@.take(i + 1).drop_last() == ws@.take(i as int));
            }
            assert(ws@.take(ws@.len() as int) == ws@);
            block.append("\n");
            out.append(block.as_str());
        } else {
            assert(out@ == out@ + Seq::<char>::empty());
        }
        out.append("| Query | Baseline median | Candidate median | Change | Status |\n");
        out.append("| --- | ---: | ---: | ---: | --- |\n");
        let qs = &self.queries;
        let mut rows = String::new();
        for i in 0..qs.len()
            invariant
                rows@ == comparison_rows(qs@.take(i as int)),
        {
            rows.append("| ");
            rows.append(escape_pipes(qs[i].name.as_str()).as_str());
            rows.append(" | ");
            rows.append(u128_decimal(qs[i].baseline_median_us as u128).as_str());
            rows.append(" µs | ");
            rows.append(u128_decimal(qs[i].candidate_median_us as u128).as_str());
            rows.append(" µs | ");
            rows.append(change_str(&qs[i]).as_str());
            rows.append("% | ");
            rows.append(qs[i].status.label());
            rows.append(" |\n");
            assert(qs@.take(i + 1).drop_last() == qs@.take(i as int));
        }
        assert(qs@.take(qs@.len() as int) == qs@);
        out.append(rows.as_str());
        out.append(
            "\nDescriptive median comparison only; this gate does not assert statistical significance.\n\n",
        );
        out
    }
}

} // verus!

verus! {

/// Names in strictly increasing lexicographic order.
pub open spec fn names_ordered(s: Seq<Seq<char>>) -> bool {
    forall|i: int, j: int| 0 <= i < j < s.len() ==> lex_lt(#[trigger] s[i], #[trigger] s[j])
}

pub open spec fn comparison_names(qs: Seq<QueryComparison>) -> Seq<Seq<char>> {
    qs.map_values(|q: QueryComparison| q.name@)
}

/// Two strictly ordered sequences of names with the same members are equal.
proof fn lemma_ordered_names_equal(a: Seq<Seq<char>>, b: Seq<Seq<char>>)
    requires
        names_ordered(a),
        names_ordered(b),
        forall|x: Seq<char>| a.contains(x) == b.contains(x),
    ensures
        a == b,
    decreases a.len() + b.len(),
{
    if a.len() == 0 {
        if b.len() > 0 {
            assert(b.contains(b[0]));
        }
        assert(a =~= b);
    } else if b.len() == 0 {
        assert(a.contains(a[0]));
    } else {
        let x = a.last();
        let y = b.last();
        assert(a.contains(x)) by {
            assert(a[a.len() - 1] == x);
        }
        assert(b.contains(y)) by {
            assert(b[b.len() - 1] == y);
        }
        if x != y {
            let j = choose|j: int| 0 <= j < b.len() && b[j] == x;
            let i = choose|i: int| 0 <= i < a.len() && a[i] == y;
            assert(j < b.len() - 1);
            assert(i < a.len() - 1);
            assert(lex_lt(b[j], b[b.len() - 1]));
            assert(lex_lt(a[i], a[a.len() - 1]));
            lemma_lex_asymmetric(x, y);
        }
        let a0 = a.drop_last();
        let b0 = b.drop_last();
        assert forall|z: Seq<char>| a0.contains(z) == b0.contains(z) by {
            if a0.contains(z) {
                let i = choose|i: int| 0 <= i < a0.len() && a0[i] == z;
                assert(a[i] == z);
                assert(lex_lt(a[i], a[a.len() - 1]));
                lemma_lex_irreflexive(x);
                assert(b.contains(z)) by {
                    assert(a.contains(z));
                }
                let j = choose|j: int| 0 <= j < b.len() && b[j] == z;
                assert(j != b.len() - 1);
                assert(b0[j] == z);
            }
            if b0.contains(z) {
                let j = choose|j: int| 0 <= j < b0.len() && b0[j] == z;
                assert(b[j] == z);
                assert(lex_lt(b[j], b[b.len() - 1]));
                lemma_lex_irreflexive(y);
                assert(a.contains(z)) by {
                    assert(b.contains(z));
                }
                let i = choose|i: int| 0 <= i < a.len() && a[i] == z;
                assert(i != a.len() - 1);
                assert(a0[i] == z);
            }
        }
        lemma_ordered_names_equal(a0, b0);
        assert(a =~= a0.push(x));
        assert(b =~= b0.push(y));
    }
}

proof fn lemma_count_monotone(a: Seq<QueryComparison>, b: Seq<QueryComparison>)
    requires
        a.len() == b.len(),
        forall|k: int|
            0 <= k < a.len() && #[trigger] a[k].status == ComparisonStatus::Regression
                ==> b[k].status == ComparisonStatus::Regression,
    ensures
        count_status(a, ComparisonStatus::Regression) <= count_status(
            b,
            ComparisonStatus::Regression,
        ),
    decreases a.len(),
{
    if a.len() > 0 {
        let n = a.len() - 1;
        assert forall|k: int|
            0 <= k < a.drop_last().len() && #[trigger] a.drop_last()[k].status
                == ComparisonStatus::Regression implies b.drop_last()[k].status
            == ComparisonStatus::Regression by {
            assert(a[k].status == ComparisonStatus::Regression);
        }
        lemma_count_monotone(a.drop_last(), b.drop_last());
        assert(a.last() == a[n]);
        assert(b.last() == b[n]);
    }
}

proof fn lemma_count_none(a: Seq<QueryComparison>, s: ComparisonStatus)
    requires
        forall|k: int| 0 <= k < a.len() ==> #[trigger] a[k].status != s,
    ensures
        count_status(a, s) == 0,
    decreases a.len(),
{
    if a.len() > 0 {
        lemma_count_none(a.drop_last(), s);
        assert(a.last() == a[a.len() - 1]);
    }
}

/// The names a successful comparison lists are those of the baseline, in order.
proof fn lemma_comparison_names(o: Comparison, b: Report, c: Report, t: u64)
    requires
        comparison_of(o, b, c, t),
    ensures
        names_ordered(comparison_names(o.queries@)),
        forall|x: Seq<char>| comparison_names(o.queries@).contains(x) == has_query(b.queries@, x),
{
    let qs = o.queries@;
    let ns = comparison_names(qs);
    assert forall|i: int, j: int| 0 <= i < j < ns.len() implies lex_lt(
        #[trigger] ns[i],
        #[trigger] ns[j],
    ) by {
        assert(lex_lt(qs[i].name@, qs[j].name@));
    }
    assert forall|x: Seq<char>| ns.contains(x) == has_query(b.queries@, x) by {
        if ns.contains(x) {
            let k = choose|k: int| 0 <= k < ns.len() && ns[k] == x;
            assert(has_query(b.queries@, qs[k].name@));
        }
        if has_query(b.queries@, x) {
            let k = choose|k: int| 0 <= k < qs.len() && #[trigger] qs[k].name@ == x;
            assert(ns[k] == x);
        }
    }
}

/// Lowering the threshold keeps every regression: comparing the same reports
/// at a lower threshold lists the same queries in the same order, each query
/// that regressed still regresses, and at least as many regressions are counted.
pub proof fn lemma_threshold_monotone(
    baseline: Report,
    candidate: Report,
    high: u64,
    at_high: Comparison,
    low: u64,
    at_low: Comparison,
)
    requires
        comparison_of(at_high, baseline, candidate, high),
        comparison_of(at_low, baseline, candidate, low),
        low <= high,
    ensures
        at_high.queries@.len() == at_low.queries@.len(),
        forall|k: int|
            0 <= k < at_high.queries@.len() ==> #[trigger] at_high.queries@[k].name@
                == at_low.queries@[k].name@,
        forall|k: int|
            0 <= k < at_high.queries@.len() && #[trigger] at_high.queries@[k].status
                == ComparisonStatus::Regression ==> at_low.queries@[k].status
                == ComparisonStatus::Regression,
        at_high.regressions <= at_low.regressions,
{
    let a = at_high.queries@;
    let b = at_low.queries@;
    lemma_comparison_names(at_high, baseline, candidate, high);
    lemma_comparison_names(at_low, baseline, candidate, low);
    lemma_ordered_names_equal(comparison_names(a), comparison_names(b));
    assert(a.len() == comparison_names(a).len());
    assert forall|k: int| 0 <= k < a.len() implies #[trigger] a[k].name@ == b[k].name@ by {
        assert(comparison_names(a)[k] == comparison_names(b)[k]);
    }
    assert forall|k: int|
        0 <= k < a.len() && #[trigger] a[k].status == ComparisonStatus::Regression implies b[k].status
        == ComparisonStatus::Regression by {
        assert(comparison_names(a)[k] == comparison_names(b)[k]);
        assert(compares(a[k], baseline, candidate, high));
        assert(compares(b[k], baseline, candidate, low));
        let before = query_named(baseline.queries@, a[k].name@).timing_us.median;
        let after = query_named(candidate.queries@, a[k].name@).timing_us.median;
        assert((low as int) * (before as int) <= (high as int) * (before as int)) by (nonlinear_arith)
            requires
                low <= high,
        ;
    }
    lemma_count_monotone(a, b);
}

/// A report compared with itself is comparable: its context agrees, it names
/// the same queries, and no result digest changed.
pub proof fn lemma_self_comparison_accepted(r: Report)
    ensures
        context_warnings(r, r).len() == 0,
        same_query_names(r.queries@, r.queries@),
        forall|name: Seq<char>| !digest_changed(r, r, name),
{
    assert(context_warnings(r, r) =~= Seq::<Seq<char>>::empty());
}

/// A report compared with itself finds no regression: every query is stable
/// with no change, whatever the threshold.
pub proof fn lemma_self_comparison_stable(r: Report, threshold: u64, outcome: Comparison)
    requires
        comparison_of(outcome, r, r, threshold),
    ensures
        outcome.context_match,
        outcome.context_warnings@.len() == 0,
        outcome.regressions == 0,
        forall|k: int|
            0 <= k < outcome.queries@.len() ==> #[trigger] outcome.queries@[k].status
                == ComparisonStatus::Stable && outcome.queries@[k].change_basis_points == 0,
{
    lemma_self_comparison_accepted(r);
    let qs = outcome.queries@;
    assert forall|k: int| 0 <= k < qs.len() implies #[trigger] qs[k].status
        == ComparisonStatus::Stable && qs[k].change_basis_points == 0 by {
        assert(compares(qs[k], r, r, threshold));
        let m = query_named(r.queries@, qs[k].name@).timing_us.median;
        if m > 0 {
            assert((2 * 0 + m) / (2 * (m as int)) == 0) by (nonlinear_arith)
                requires
                    m > 0,
            ;
        }
    }
    lemma_count_none(qs, ComparisonStatus::Regression);
    assert(outcome.context_warnings@.map_values(|w: String| w@).len()
        == outcome.context_warnings@.len());
}

} // verus!

verus! {

/// A query regresses exactly when its median grew by more than the
/// threshold, relative to a non-zero baseline (`threshold` in hundredths of a
/// percent), whatever the absolute size of the change; it improves exactly
/// when it shrank by more than the threshold; otherwise it is stable.
pub proof fn lemma_status_by_relative_change(before: u64, after: u64, threshold: u64)
    ensures
        (status_for(before, after, threshold) == ComparisonStatus::Regression) <==> (before > 0
            && 10000 * (after - before) > threshold * before),
        (status_for(before, after, threshold) == ComparisonStatus::Improved) <==> (before > 0
            && 10000 * (before - after) > threshold * before),
        (status_for(before, after, threshold) == ComparisonStatus::Stable) <==> !(before > 0
            && 10000 * (after - before) > threshold * before) && !(before > 0 && 10000 * (before
            - after) > threshold * before),
{
    assert(threshold * before >= 0) by (nonlinear_arith);
}

/// Scaling both medians by the same factor changes no status: only the
/// relative change counts.
pub proof fn lemma_status_scale_invariant(before: u64, after: u64, threshold: u64, factor: u64)
    requires
        factor > 0,
        factor * before <= u64::MAX,
        factor * after <= u64::MAX,
    ensures
        status_for((factor * before) as u64, (factor * after) as u64, threshold) == status_for(
            before,
            after,
            threshold,
        ),
{
    let kb = factor * before;
    let ka = factor * after;
    assert(kb > 0 <==> before > 0) by (nonlinear_arith)
        requires
            factor > 0,
            kb == factor * before,
            before >= 0,
    ;
    assert(10000 * (ka - kb) > threshold * kb <==> 10000 * (after - before) > threshold * before)
        by (nonlinear_arith)
        requires
            factor > 0,
            kb == factor * before,
            ka == factor * after,
    ;
    assert(10000 * (kb - ka) > threshold * kb <==> 10000 * (before - after) > threshold * before)
        by (nonlinear_arith)
        requires
            factor > 0,
            kb == factor * before,
            ka == factor * after,
    ;
}

proof fn lemma_count_positive(qs: Seq<QueryComparison>, s: ComparisonStatus)
    ensures
        count_status(qs, s) > 0 <==> exists|k: int| 0 <= k < qs.len() && #[trigger] qs[k].status == s,
    decreases qs.len(),
{
    if qs.len() > 0 {
        lemma_count_positive(qs.drop_last(), s);
        let n = qs.len() - 1;
        if exists|k: int| 0 <= k < qs.len() && #[trigger] qs[k].status == s {
            let k = choose|k: int| 0 <= k < qs.len() && #[trigger] qs[k].status == s;
            if k < n {
                assert(qs.drop_last()[k].status == s);
            }
        }
        if exists|k: int| 0 <= k < qs.drop_last().len() && #[trigger] qs.drop_last()[k].status == s {
            let k = choose|k: int| 0 <= k < qs.drop_last().len() && #[trigger] qs.drop_last()[k].status == s;
            assert(qs[k].status == s);
        }
    }
}

/// In a successful comparison each query's status follows its own medians
/// and the threshold alone, and regressions are counted exactly when some
/// query's median grew by more than the threshold relative to a non-zero
/// baseline.
pub proof fn lemma_comparison_statuses(outcome: Comparison, baseline: Report, candidate: Report, threshold: u64)
    requires
        comparison_of(outcome, baseline, candidate, threshold),
    ensures
        outcome.threshold_basis_points == threshold,
        forall|k: int|
            0 <= k < outcome.queries@.len() ==> {
                let q = #[trigger] outcome.queries@[k];
                let b = q.baseline_median_us;
                let a = q.candidate_median_us;
                &&& (q.status == ComparisonStatus::Regression) <==> (b > 0 && 10000 * (a - b)
                    > threshold * b)
                &&& (q.status == ComparisonStatus::Improved) <==> (b > 0 && 10000 * (b - a)
                    > threshold * b)
            },
        outcome.regressions > 0 <==> exists|k: int|
            0 <= k < outcome.queries@.len() && {
                let q = #[trigger] outcome.queries@[k];
                q.baseline_median_us > 0 && 10000 * (q.candidate_median_us - q.baseline_median_us)
                    > threshold * q.baseline_median_us
            },
{
    let qs = outcome.queries@;
    assert forall|k: int| 0 <= k < qs.len() implies {
        let q = #[trigger] qs[k];
        let b = q.baseline_median_us;
        let a = q.candidate_median_us;
        &&& (q.status == ComparisonStatus::Regression) <==> (b > 0 && 10000 * (a - b) > threshold
            * b)
        &&& (q.status == ComparisonStatus::Improved) <==> (b > 0 && 10000 * (b - a) > threshold
            * b)
    } by {
        assert(compares(qs[k], baseline, candidate, threshold));
        lemma_status_by_relative_change(qs[k].baseline_median_us, qs[k].candidate_median_us, threshold);
    }
    lemma_count_positive(qs, ComparisonStatus::Regression);
}

/// The comparison's Markdown opens with its outcome: after the title line,
/// `**Gate: PASS` exactly when no query regressed and `**Gate: FAIL`
/// otherwise, whether or not the reports' context matched.
pub proof fn lemma_markdown_gate_line(c: Comparison)
    ensures
        ({
            let head = "# SQLite workload comparison: "@ + c.profile@ + "\n\n**Gate: "@;
            let md = comparison_markdown(c);
            &&& md.len() >= head.len() + 4
            &&& md.take(head.len() as int) == head
            &&& md.subrange(head.len() as int, head.len() + 4int) == (if c.regressions == 0 {
                "PASS"@
            } else {
                "FAIL"@
            })
        }),
{
    reveal_strlit("# SQLite workload comparison: ");
    reveal_strlit("\n\n");
    reveal_strlit("**Gate: ");
    reveal_strlit("\n\n**Gate: ");
    reveal_strlit("PASS");
    reveal_strlit("FAIL");
    let head = "# SQLite workload comparison: "@ + c.profile@ + "\n\n**Gate: "@;
    let outcome_word = if c.regressions == 0 {
        "PASS"@
    } else {
        "FAIL"@
    };
    let md = comparison_markdown(c);
    let rest = md.skip(head.len() + 4int);
    assert(md =~= head + outcome_word + rest);
    assert(md.take(head.len() as int) =~= head);
    assert(md.subrange(head.len() as int, head.len() + 4int) =~= outcome_word);
}

} // verus!
