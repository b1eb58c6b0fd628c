use sqlite_workload_lab::status::{check_summary, matrix_summary, run_summary};
use sqlite_workload_lab::manifest::{Environment, Lab, Manifest};
use sqlite_workload_lab::report::{
    EnvironmentEvidence, Methodology, PragmaEvidence, QueryEvidence, Report, SqliteEvidence, Timing,
    WorkloadEvidence,
};
use sqlite_workload_lab::text::{escape_markdown, title_case_str};
use sqlite_workload_lab::{
    fixture_path, refuse_overwrite, report_file_stem, sha256_bytes, starter_manifest, STARTER_FIXTURE,
    VERSION,
};

fn manifest_with_fixture(fixture: &str) -> Manifest {
    Manifest {
        schema_version: 1,
        lab: Lab {
            name: "n".to_string(),
            database: "workload.db".to_string(),
            fixture: fixture.to_string(),
            fixture_sha256: String::new(),
            sqlite_version: "3.50.4".to_string(),
            warmups: 2,
            repetitions: 10,
        },
        profiles: Vec::new(),
        pragmas: Vec::new(),
        queries: Vec::new(),
    }
}

#[test]
fn sha256_of_known_inputs() {
    assert_eq!(sha256_bytes(b""), "e3b0c44298fc1c149afbf4c8996fb92427ae41e4649b934ca495991b7852b855");
    assert_eq!(sha256_bytes(b"abc"), "ba7816bf8f01cfea414140de5dae2223b00361a396177a9cb410ff61f20015ad");
}

#[test]
fn fixture_is_relative_to_the_manifest() {
    let m = manifest_with_fixture("fixtures/sample.sql");
    assert_eq!(fixture_path("lab.toml", &m), "fixtures/sample.sql");
    assert_eq!(fixture_path("work/lab.toml", &m), "work/fixtures/sample.sql");
    assert_eq!(fixture_path("/", &m), "./fixtures/sample.sql");
    let absolute = manifest_with_fixture("/srv/fixture.sql");
    assert_eq!(fixture_path("work/lab.toml", &absolute), "/srv/fixture.sql");
}

#[test]
fn init_refuses_to_overwrite() {
    assert_eq!(refuse_overwrite("lab.toml", false), Ok(()));
    let refusal = refuse_overwrite("lab.toml", true).unwrap_err();
    assert!(refusal.contains("refusing to overwrite"));
    assert_eq!(refusal, "refusing to overwrite lab.toml; choose a new path");
}

#[test]
fn report_file_stems_are_safe() {
    assert_eq!(report_file_stem("x86-64-v2"), Ok("x86-64-v2".to_string()));
    assert_eq!(report_file_stem("arm64/hw é"), Ok("arm64_hw__".to_string()));
    assert_eq!(
        report_file_stem(""),
        Err("profile name cannot be converted to a safe output filename".to_string())
    );
}

#[test]
fn starter_manifest_pins_its_fixture() {
    let text = starter_manifest("3.50.4");
    let hash = sha256_bytes(STARTER_FIXTURE.as_bytes());
    assert!(text.starts_with("schema_version = 1\n\n[lab]\nname = \"sqlite-release-check\"\n"));
    assert!(text.contains(&format!("fixture_sha256 = \"{hash}\"\nsqlite_version = \"3.50.4\"\n")));
    assert!(text.contains("id = \"emulated-x86-v2\""));
    assert!(text.ends_with("capture_plan = true\n"));
    assert_eq!(VERSION, "0.1.0");
}

#[test]
fn markdown_helpers() {
    assert_eq!(escape_markdown("a|b"), "a\\|b");
    assert_eq!(title_case_str("emulator"), "Emulator");
    assert_eq!(title_case_str(""), "");
}

fn report() -> Report {
    Report {
        schema_version: 1,
        tool_version: "0.1.0".to_string(),
        workload: WorkloadEvidence {
            name: "search".to_string(),
            manifest_sha256: "m".repeat(64),
            fixture_path: "fixtures/search.sql".to_string(),
            fixture_sha256: "f".repeat(64),
        },
        environment: EnvironmentEvidence {
            profile: "x86-64-v2".to_string(),
            evidence_kind: Environment::Emulator,
            architecture: "x86_64".to_string(),
            operating_system: "linux".to_string(),
            cpu_features: vec!["avx".to_string()],
            profile_match: false,
            mismatches: vec!["forbidden feature avx is present".to_string()],
        },
        sqlite: SqliteEvidence {
            version: "3.50.4".to_string(),
            source_id: "2025-07-30 src".to_string(),
            compile_options: vec!["ENABLE_FTS5".to_string(), "THREADSAFE=1".to_string()],
        },
        pragmas: vec![PragmaEvidence {
            name: "journal_mode".to_string(),
            requested: "WAL".to_string(),
            observed: "wal".to_string(),
        }],
        queries: vec![QueryEvidence {
            name: "phrase-search".to_string(),
            sql: "  SELECT 1\n".to_string(),
            plan: vec!["2:0 SCAN docs".to_string()],
            row_count: 3,
            result_digest: "0123456789abcdef".to_string(),
            timing_us: Timing { samples: vec![4, 5, 9], min: 4, median: 5, mean: 6, p95: 9, max: 9 },
        }],
        methodology: Methodology {
            warmups: 2,
            repetitions: 3,
            clock: "monotonic std::time::Instant; microsecond samples".to_string(),
            statistical_claim: "Descriptive timings only.".to_string(),
        },
    }
}

#[test]
fn report_markdown_is_headed_by_its_evidence_kind() {
    let md = report().markdown();
    assert!(md.starts_with("# SQLite workload report: search\n\n> **Emulator evidence.** Timings from this report must not be represented as hardware measurements from another environment.\n\n## Reproduction record\n\n"));
    assert!(md.contains("| Profile | `x86-64-v2` (emulator) |\n| Profile check | Mismatch—see below |\n"));
    assert!(md.contains("| Method | 2 warmups, 3 measured repetitions, monotonic clock |\n\n### Profile mismatches\n\n- forbidden feature avx is present\n\n"));
    assert!(md.contains("| phrase-search | 5 µs | 9 µs | 4–9 µs | 3 | `0123456789ab` |\n"));
    assert!(md.contains("\n> Descriptive timings only.\n\n## PRAGMAs\n\n"));
    assert!(md.contains("| `journal_mode` | `WAL` | `wal` |\n"));
    assert!(md.contains("### phrase-search\n\n```sql\nSELECT 1\n```\n\n```text\n2:0 SCAN docs\n```\n\n"));
    assert!(md.contains("Compile options: `ENABLE_FTS5`, `THREADSAFE=1`\n\n"));
    assert!(md.ends_with("---\nGenerated by SQLite Workload Lab 0.1.0. No telemetry was sent.\n"));
}

#[test]
fn report_markdown_without_plan_or_mismatch() {
    let mut r = report();
    r.environment.profile_match = true;
    r.environment.mismatches.clear();
    r.queries[0].plan.clear();
    let md = r.markdown();
    assert!(md.contains("| Profile check | Pass |"));
    assert!(!md.contains("### Profile mismatches"));
    assert!(md.contains("Plan capture disabled.\n\n"));
}

#[test]
fn starter_fixture_sits_beside_the_manifest() {
    assert_eq!(sqlite_workload_lab::starter_fixture_path("lab.toml"), "fixtures/sample.sql");
    assert_eq!(sqlite_workload_lab::starter_fixture_path("work/lab.toml"), "work/fixtures/sample.sql");
}

#[test]
fn status_messages() {
    let mut m = manifest_with_fixture("fixtures/sample.sql");
    m.profiles = Vec::new();
    assert_eq!(check_summary(&m), "Valid: 0 queries across 0 CPU profiles; SQLite 3.50.4.");
    assert_eq!(run_summary(&report()), "Captured 1 query result(s) for x86-64-v2 emulator evidence.");
    assert_eq!(matrix_summary(3), "Captured 3 declared CPU profiles.");
}
