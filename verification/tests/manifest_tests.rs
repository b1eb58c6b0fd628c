use sqlite_workload_lab::manifest::{
    default_capture_plan, default_database, default_repetitions, default_warmups, normalize_feature,
    Environment, Lab, Manifest, Pragma, Profile, Query, Runner,
};
use sqlite_workload_lab::sha256_bytes;

const FIXTURE: &[u8] = b"CREATE TABLE t(x);\n";

fn profile(id: &str, required: &[&str], forbidden: &[&str]) -> Profile {
    Profile {
        id: id.to_string(),
        environment: Environment::Container,
        runner: Runner::Native,
        required_cpu_features: required.iter().map(|s| s.to_string()).collect(),
        forbidden_cpu_features: forbidden.iter().map(|s| s.to_string()).collect(),
        notes: None,
    }
}

fn manifest() -> Manifest {
    Manifest {
        schema_version: 1,
        lab: Lab {
            name: "search-release".to_string(),
            database: default_database(),
            fixture: "fixtures/search.sql".to_string(),
            fixture_sha256: format!("  {}  ", sha256_bytes(FIXTURE).to_uppercase()),
            sqlite_version: "3.50.4".to_string(),
            warmups: default_warmups(),
            repetitions: default_repetitions(),
        },
        profiles: vec![
            profile("x86-64-v2", &["sse4_2", "popcnt"], &["avx", "avx2"]),
            profile("x86-64-v3", &["avx", "avx2"], &[]),
            profile("arm64", &["asimd"], &[]),
        ],
        pragmas: vec![Pragma { name: "journal_mode".to_string(), value: "WAL".to_string() }],
        queries: vec![Query {
            name: "phrase-search".to_string(),
            sql: "SELECT rowid FROM docs LIMIT 20".to_string(),
            capture_plan: default_capture_plan(),
        }],
    }
}

fn structure_error(m: &Manifest) -> String {
    m.validate_structure().unwrap_err()
}

#[test]
fn defaults_match_the_documented_workload() {
    assert_eq!(default_database(), "workload.db");
    assert_eq!(default_warmups(), 2);
    assert_eq!(default_repetitions(), 10);
    assert!(default_capture_plan());
    assert_eq!(Runner::default(), Runner::Native);
    assert_eq!(Environment::Emulator.label(), "emulator");
    assert_eq!(Environment::Virtualized.label(), "virtualized");
}

#[test]
fn feature_names_are_normalized() {
    assert_eq!(normalize_feature("  SSE4.2 "), "sse4_2");
    assert_eq!(normalize_feature("AVX-512F"), "avx_512f");
    assert_eq!(normalize_feature(""), "");
    let once = normalize_feature("\tPop.Cnt-X ");
    assert_eq!(normalize_feature(&once), once);
}

#[test]
fn profiles_are_found_by_id() {
    let m = manifest();
    assert_eq!(m.profile("arm64").unwrap().id, "arm64");
    assert_eq!(
        m.profile("riscv").unwrap_err(),
        "unknown profile \"riscv\"; declared: x86-64-v2, x86-64-v3, arm64"
    );
}

#[test]
fn valid_manifest_passes_every_check() {
    let m = manifest();
    assert_eq!(m.validate_structure(), Ok(()));
    assert_eq!(m.validate_with("lab.toml", FIXTURE, "3.50.4"), Ok(()));
}

#[test]
fn fixture_hash_mismatch_is_reported() {
    let m = manifest();
    let found = sha256_bytes(b"other");
    assert_eq!(
        m.validate_with("work/lab.toml", b"other", "3.50.4").unwrap_err(),
        format!(
            "fixture SHA-256 mismatch for work/fixtures/search.sql: expected {}, found {}",
            m.lab.fixture_sha256, found
        )
    );
}

#[test]
fn sqlite_pin_mismatch_is_reported() {
    let m = manifest();
    assert_eq!(
        m.validate_with("lab.toml", FIXTURE, "3.45.0").unwrap_err(),
        "SQLite version pin mismatch: manifest requires 3.50.4, binary contains 3.45.0"
    );
}

#[test]
fn structure_errors_come_in_order() {
    let mut m = manifest();
    m.schema_version = 2;
    m.lab.name = " ".to_string();
    assert_eq!(structure_error(&m), "unsupported schema_version 2; expected 1");

    let mut m = manifest();
    m.lab.name = " \t".to_string();
    assert_eq!(structure_error(&m), "lab.name must not be empty");

    let mut m = manifest();
    m.lab.sqlite_version = String::new();
    assert_eq!(structure_error(&m), "lab.sqlite_version is a required pin");

    let mut m = manifest();
    m.lab.repetitions = 2;
    assert_eq!(structure_error(&m), "lab.repetitions must be at least 3");

    let mut m = manifest();
    m.lab.repetitions = 10001;
    assert_eq!(structure_error(&m), "lab.repetitions must not exceed 10000");

    let mut m = manifest();
    m.lab.warmups = 1001;
    assert_eq!(structure_error(&m), "lab.warmups must not exceed 1000");

    let mut m = manifest();
    m.profiles.pop();
    assert_eq!(structure_error(&m), "declare at least three CPU profiles for release evidence");

    let mut m = manifest();
    m.queries.clear();
    assert_eq!(structure_error(&m), "declare at least one query");
}

#[test]
fn names_must_be_unique_and_non_blank() {
    let mut m = manifest();
    m.profiles[2].id = "x86-64-v2".to_string();
    assert_eq!(structure_error(&m), "duplicate profile name \"x86-64-v2\"");

    let mut m = manifest();
    m.profiles[1].id = "  ".to_string();
    assert_eq!(structure_error(&m), "profile name must not be empty");

    let mut m = manifest();
    m.queries.push(m.queries[0].clone());
    assert_eq!(structure_error(&m), "duplicate query name \"phrase-search\"");

    let mut m = manifest();
    m.pragmas.push(Pragma { name: String::new(), value: "1".to_string() });
    assert_eq!(structure_error(&m), "PRAGMA name must not be empty");
}

#[test]
fn unsafe_pragmas_are_refused() {
    let mut m = manifest();
    m.pragmas[0].name = "journal_mode; DROP".to_string();
    assert_eq!(structure_error(&m), "PRAGMA name \"journal_mode; DROP\" contains unsafe characters");

    let mut m = manifest();
    m.pragmas[0].value = "WAL; DELETE FROM docs".to_string();
    assert_eq!(structure_error(&m), "PRAGMA journal_mode value must not contain a semicolon");
}

#[test]
fn blank_sql_is_refused() {
    let mut m = manifest();
    m.queries[0].sql = "\n  ".to_string();
    assert_eq!(structure_error(&m), "query phrase-search has empty SQL");
}

#[test]
fn a_profile_cannot_require_and_forbid_a_feature() {
    let mut m = manifest();
    m.profiles[1].forbidden_cpu_features = vec!["sse".to_string(), "AVX2".to_string()];
    assert_eq!(structure_error(&m), "profile x86-64-v3 both requires and forbids CPU feature AVX2");
}

#[test]
fn validate_stops_at_structure_before_the_pins() {
    let mut m = manifest();
    m.queries.clear();
    assert_eq!(m.validate("lab.toml", b"whatever").unwrap_err(), "declare at least one query");
}

#[test]
fn fixture_pin_spelling_does_not_matter() {
    let m = manifest();
    let mut m2 = manifest();
    m2.lab.fixture_sha256 = format!(" {} ", m.lab.fixture_sha256.to_ascii_uppercase());
    assert_eq!(m2.validate_with("lab.toml", FIXTURE, "3.50.4").is_ok(), m.validate_with("lab.toml", FIXTURE, "3.50.4").is_ok());
    let mut m3 = manifest();
    m3.lab.fixture_sha256 = sha256_bytes(FIXTURE).to_lowercase();
    assert_eq!(m3.validate_with("lab.toml", FIXTURE, "3.50.4"), Ok(()));
}
