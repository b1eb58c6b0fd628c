use sqlite_workload_lab::status::gate_exit_code;
use sqlite_workload_lab::compare::{compare_reports, Comparison, ComparisonStatus, QueryComparison};
use sqlite_workload_lab::manifest::Environment;
use sqlite_workload_lab::report::{
    EnvironmentEvidence, Methodology, QueryEvidence, Report, SqliteEvidence, Timing, WorkloadEvidence,
};

fn timing(median: u64) -> Timing {
    Timing { samples: vec![median], min: median, median, mean: median, p95: median, max: median }
}

fn query(name: &str, median: u64, digest: &str) -> QueryEvidence {
    QueryEvidence {
        name: name.to_string(),
        sql: "SELECT 1".to_string(),
        plan: Vec::new(),
        row_count: 1,
        result_digest: digest.to_string(),
        timing_us: timing(median),
    }
}

fn report(profile: &str, queries: Vec<QueryEvidence>) -> Report {
    Report {
        schema_version: 1,
        tool_version: "0.1.0".to_string(),
        workload: WorkloadEvidence {
            name: "search".to_string(),
            manifest_sha256: "m".repeat(64),
            fixture_path: "fixtures/search.sql".to_string(),
            fixture_sha256: "f".repeat(64),
        },
        environment: EnvironmentEvidence {
            profile: profile.to_string(),
            evidence_kind: Environment::Hardware,
            architecture: "x86_64".to_string(),
            operating_system: "linux".to_string(),
            cpu_features: Vec::new(),
            profile_match: true,
            mismatches: Vec::new(),
        },
        sqlite: SqliteEvidence {
            version: "3.50.4".to_string(),
            source_id: "source".to_string(),
            compile_options: Vec::new(),
        },
        pragmas: Vec::new(),
        queries,
        methodology: Methodology {
            warmups: 2,
            repetitions: 10,
            clock: "clock".to_string(),
            statistical_claim: "claim".to_string(),
        },
    }
}

fn digest(c: char) -> String {
    c.to_string().repeat(64)
}

#[test]
fn a_report_compared_with_itself_passes() {
    let r = report("host", vec![query("b", 120, &digest('1')), query("a", 0, &digest('2'))]);
    let c = compare_reports(&r, &r, 0, false).unwrap();
    assert!(c.context_match);
    assert!(c.context_warnings.is_empty());
    assert_eq!(c.regressions, 0);
    assert_eq!(c.queries.len(), 2);
    for q in &c.queries {
        assert_eq!(q.status, ComparisonStatus::Stable);
        assert_eq!(q.change_basis_points, 0);
    }
    assert!(c.markdown().contains("**Gate: PASS** — 0 regression(s) above 0.00%"));
}

#[test]
fn regression_over_threshold_fails_the_gate() {
    let b = report("host", vec![query("release-evidence", 100, &digest('a'))]);
    let c = report("host", vec![query("release-evidence", 116, &digest('a'))]);
    let outcome = compare_reports(&b, &c, 1500, false).unwrap();
    assert_eq!(outcome.schema_version, 1);
    assert_eq!(outcome.profile, "host");
    assert_eq!(outcome.threshold_basis_points, 1500);
    assert_eq!(outcome.regressions, 1);
    assert_eq!(outcome.queries[0].status, ComparisonStatus::Regression);
    assert_eq!(outcome.queries[0].change_basis_points, 1600);
    let md = outcome.markdown();
    assert_eq!(
        md,
        "# SQLite workload comparison: host\n\n**Gate: FAIL** — 1 regression(s) above 15.00%\n\n| Query | Baseline median | Candidate median | Change | Status |\n| --- | ---: | ---: | ---: | --- |\n| release-evidence | 100 µs | 116 µs | +16.00% | regression |\n\nDescriptive median comparison only; this gate does not assert statistical significance.\n\n"
    );
}

#[test]
fn change_exactly_at_threshold_is_stable() {
    let b = report("host", vec![query("q", 100, &digest('a'))]);
    let c = report("host", vec![query("q", 115, &digest('a'))]);
    let outcome = compare_reports(&b, &c, 1500, false).unwrap();
    assert_eq!(outcome.queries[0].status, ComparisonStatus::Stable);
    assert_eq!(outcome.regressions, 0);
}

#[test]
fn improvement_below_negative_threshold() {
    let b = report("host", vec![query("q", 200, &digest('a'))]);
    let c = report("host", vec![query("q", 100, &digest('a'))]);
    let outcome = compare_reports(&b, &c, 1500, false).unwrap();
    assert_eq!(outcome.queries[0].status, ComparisonStatus::Improved);
    assert_eq!(outcome.queries[0].change_basis_points, -5000);
    assert!(outcome.markdown().contains("| q | 200 µs | 100 µs | -50.00% | improved |\n"));
}

#[test]
fn change_is_rounded_to_hundredths_of_a_percent() {
    let b = report("host", vec![query("q", 3, &digest('a'))]);
    let c = report("host", vec![query("q", 4, &digest('a'))]);
    let outcome = compare_reports(&b, &c, 10000, false).unwrap();
    assert_eq!(outcome.queries[0].change_basis_points, 3333);
    assert!(outcome.markdown().contains("| +33.33% | stable |"));
    let b = report("host", vec![query("q", 3, &digest('a'))]);
    let c = report("host", vec![query("q", 2, &digest('a'))]);
    let outcome = compare_reports(&b, &c, 10000, false).unwrap();
    assert_eq!(outcome.queries[0].change_basis_points, -3333);
    assert!(outcome.markdown().contains("| -33.33% | stable |"));
}

#[test]
fn small_drop_prints_negative_zero() {
    let b = report("host", vec![query("q", 100000, &digest('a'))]);
    let c = report("host", vec![query("q", 99999, &digest('a'))]);
    let outcome = compare_reports(&b, &c, 0, false).unwrap();
    assert_eq!(outcome.queries[0].change_basis_points, 0);
    assert_eq!(outcome.queries[0].status, ComparisonStatus::Improved);
    assert!(outcome.markdown().contains("| -0.00% | improved |"));
}

#[test]
fn zero_baseline_reports_no_change() {
    let b = report("host", vec![query("q", 0, &digest('a'))]);
    let c = report("host", vec![query("q", 50, &digest('a'))]);
    let outcome = compare_reports(&b, &c, 0, false).unwrap();
    assert_eq!(outcome.queries[0].change_basis_points, 0);
    assert_eq!(outcome.queries[0].status, ComparisonStatus::Stable);
    assert!(outcome.markdown().contains("| q | 0 µs | 50 µs | +0.00% | stable |"));
}

#[test]
fn queries_are_compared_in_name_order() {
    let b = report("host", vec![query("zeta", 10, &digest('a')), query("alpha", 10, &digest('b'))]);
    let c = report("host", vec![query("alpha", 30, &digest('b')), query("zeta", 10, &digest('a'))]);
    let outcome = compare_reports(&b, &c, 1000, false).unwrap();
    let names: Vec<&str> = outcome.queries.iter().map(|q| q.name.as_str()).collect();
    assert_eq!(names, vec!["alpha", "zeta"]);
    assert_eq!(outcome.queries[0].candidate_median_us, 30);
    assert_eq!(outcome.regressions, 1);
}

#[test]
fn later_query_with_the_same_name_wins() {
    let b = report("host", vec![query("q", 10, &digest('a')), query("q", 20, &digest('a'))]);
    let c = report("host", vec![query("q", 20, &digest('a'))]);
    let outcome = compare_reports(&b, &c, 0, false).unwrap();
    assert_eq!(outcome.queries.len(), 1);
    assert_eq!(outcome.queries[0].baseline_median_us, 20);
    assert_eq!(outcome.queries[0].status, ComparisonStatus::Stable);
}

#[test]
fn lower_threshold_keeps_every_regression() {
    let b = report("host", vec![query("a", 100, &digest('a')), query("b", 100, &digest('b'))]);
    let c = report("host", vec![query("a", 112, &digest('a')), query("b", 130, &digest('b'))]);
    let high = compare_reports(&b, &c, 2000, false).unwrap();
    let low = compare_reports(&b, &c, 1000, false).unwrap();
    assert_eq!(high.regressions, 1);
    assert_eq!(low.regressions, 2);
}

#[test]
fn context_mismatch_is_refused_by_default() {
    let b = report("host", vec![query("q", 10, &digest('a'))]);
    let mut c = report("arm64", vec![query("q", 10, &digest('a'))]);
    c.sqlite.version = "3.51.0".to_string();
    let err = compare_reports(&b, &c, 1500, false).unwrap_err();
    assert_eq!(
        err,
        "reports are not comparable: profile differs (\"host\" vs \"arm64\"); SQLite version differs (\"3.50.4\" vs \"3.51.0\") (pass --allow-context-mismatch only for exploratory analysis)"
    );
}

#[test]
fn context_mismatch_can_be_explored() {
    let b = report("host", vec![query("q", 10, &digest('a'))]);
    let mut c = report("host", vec![query("q", 10, &digest('a'))]);
    c.environment.evidence_kind = Environment::Emulator;
    let outcome: Comparison = compare_reports(&b, &c, 1500, true).unwrap();
    assert!(!outcome.context_match);
    assert_eq!(outcome.context_warnings, vec!["evidence kind differs (\"hardware\" vs \"emulator\")".to_string()]);
    assert!(outcome.markdown().contains(
        "> Exploratory comparison: report context differs.\n\n- evidence kind differs (\"hardware\" vs \"emulator\")\n\n"
    ));
}

#[test]
fn different_query_sets_are_refused() {
    let b = report("host", vec![query("a", 10, &digest('a'))]);
    let c = report("host", vec![query("a", 10, &digest('a')), query("b", 10, &digest('b'))]);
    assert_eq!(compare_reports(&b, &c, 0, false).unwrap_err(), "reports contain different query sets");
}

#[test]
fn changed_result_digest_is_refused() {
    let b = report("host", vec![query("b", 10, &digest('a')), query("a", 10, &digest('b'))]);
    let c = report("host", vec![query("b", 10, &digest('c')), query("a", 10, &digest('d'))]);
    assert_eq!(
        compare_reports(&b, &c, 0, false).unwrap_err(),
        "query a result digest changed; performance comparison would hide a behavior change"
    );
}

#[test]
fn pipes_in_query_names_are_escaped() {
    let c = Comparison {
        schema_version: 1,
        profile: "host".to_string(),
        threshold_basis_points: 250,
        context_match: true,
        context_warnings: Vec::new(),
        regressions: 0,
        queries: vec![QueryComparison {
            name: "a|b".to_string(),
            baseline_median_us: 1,
            candidate_median_us: 1,
            change_basis_points: 0,
            status: ComparisonStatus::Stable,
        }],
    };
    let md = c.markdown();
    assert!(md.contains("above 2.50%"));
    assert!(md.contains("| a\\|b | 1 µs | 1 µs | +0.00% | stable |"));
    assert_eq!(ComparisonStatus::Regression.label(), "regression");
}

#[test]
fn comparison_uses_exit_code_two_for_regression() {
    let median = 40;
    let baseline = report("host", vec![query("release-evidence", median, &digest('e'))]);
    let candidate = report("host", vec![query("release-evidence", median * 2 + 1, &digest('e'))]);
    let outcome = compare_reports(&baseline, &candidate, 1500, false).unwrap();
    assert!(outcome.regressions > 0);
    assert!(outcome.markdown().contains("Gate: FAIL"));
}

#[test]
fn gate_exit_code_is_two_on_regression() {
    let b = report("host", vec![query("q", 100, &digest('a'))]);
    let c = report("host", vec![query("q", 200, &digest('a'))]);
    assert_eq!(gate_exit_code(&compare_reports(&b, &c, 1500, false).unwrap()), 2);
    assert_eq!(gate_exit_code(&compare_reports(&b, &b, 1500, false).unwrap()), 0);
}
