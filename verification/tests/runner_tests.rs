use sqlite_workload_lab::runner::display_value;
use sqlite_workload_lab::manifest::{Environment, Lab, Manifest, Pragma, Profile, Query, Runner};
use sqlite_workload_lab::report::SqliteEvidence;
use sqlite_workload_lab::sqlite::{check_read_only, ScratchDatabase};
use sqlite_workload_lab::runner::{
    assemble_report, check_profile, cpu_features_from, database_file_name, encode_result,
    ensure_read_only, first_mutating, plan_line, pragma_evidence, profile_mismatches, result_digest,
    summarize, MeasureStep, Measurement, RunEvidence, SqlValue,
};

fn strings(items: &[&str]) -> Vec<String> {
    items.iter().map(|s| s.to_string()).collect()
}

fn profile(required: &[&str], forbidden: &[&str]) -> Profile {
    Profile {
        id: "x86-64-v2".to_string(),
        environment: Environment::Emulator,
        runner: Runner::Native,
        required_cpu_features: strings(required),
        forbidden_cpu_features: strings(forbidden),
        notes: None,
    }
}

#[test]
fn timing_summary_is_stable() {
    let timing = summarize(vec![10, 1, 5, 20, 8]);
    assert_eq!(timing.samples, vec![1, 5, 8, 10, 20]);
    assert_eq!(timing.median, 8);
    assert_eq!(timing.p95, 20);
    assert_eq!(timing.mean, 8);
}

#[test]
fn summary_of_one_sample() {
    let timing = summarize(vec![7]);
    assert_eq!(timing.samples, vec![7]);
    assert_eq!((timing.min, timing.median, timing.mean, timing.p95, timing.max), (7, 7, 7, 7, 7));
}

#[test]
fn summary_p95_and_median_of_twenty_samples() {
    let samples: Vec<u64> = (1..=20).rev().collect();
    let timing = summarize(samples);
    assert_eq!(timing.samples, (1..=20).collect::<Vec<u64>>());
    assert_eq!(timing.min, 1);
    assert_eq!(timing.median, 11);
    assert_eq!(timing.p95, 19);
    assert_eq!(timing.max, 20);
    assert_eq!(timing.mean, 10);
}

#[test]
fn summary_does_not_depend_on_sample_order() {
    let a = summarize(vec![3, 9, 4, 4, 12, 1]);
    let b = summarize(vec![12, 4, 1, 9, 4, 3]);
    assert_eq!(a.samples, b.samples);
    assert_eq!((a.min, a.median, a.mean, a.p95, a.max), (b.min, b.median, b.mean, b.p95, b.max));
    assert!(a.min <= a.median && a.median <= a.p95 && a.p95 <= a.max);
    assert!(a.min <= a.mean && a.mean <= a.max);
}

#[test]
fn cpu_features_come_from_the_first_flags_line() {
    let cpuinfo = "processor\t: 0\nvendor_id\t: GenuineIntel\nflags\t\t: sse4_2 POPCNT avx sse4.2 popcnt\nflags : avx512f\n";
    let features = cpu_features_from(cpuinfo);
    assert_eq!(features, strings(&["avx", "popcnt", "sse4_2"]));
}

#[test]
fn cpu_features_read_arm_features_line() {
    let cpuinfo = "processor : 0\r\nFeatures : fp asimd  evtstrm\r\n";
    assert_eq!(cpu_features_from(cpuinfo), strings(&["asimd", "evtstrm", "fp"]));
}

#[test]
fn cpu_features_of_text_without_flags_are_empty() {
    assert!(cpu_features_from("model name : something\nno colon here\n").is_empty());
    assert!(cpu_features_from("").is_empty());
}

#[test]
fn profile_matches_a_cpu_with_its_features() {
    let p = profile(&["SSE4.2", "popcnt"], &["avx", "avx2"]);
    let cpu = strings(&["popcnt", "sse4_2"]);
    assert!(profile_mismatches(&p, &cpu).is_empty());
    assert_eq!(check_profile(&p, &cpu, false), Ok(Vec::new()));
}

#[test]
fn profile_mismatch_lists_absent_then_present_features() {
    let p = profile(&["sse4_2", "popcnt"], &["avx", "avx2"]);
    let cpu = strings(&["avx", "sse4_2"]);
    assert_eq!(
        profile_mismatches(&p, &cpu),
        strings(&["required feature popcnt is absent", "forbidden feature avx is present"])
    );
    assert_eq!(
        check_profile(&p, &cpu, false),
        Err("CPU does not match profile x86-64-v2: required feature popcnt is absent; forbidden feature avx is present (pass --allow-profile-mismatch to record investigative evidence)".to_string())
    );
    assert_eq!(
        check_profile(&p, &cpu, true),
        Ok(strings(&["required feature popcnt is absent", "forbidden feature avx is present"]))
    );
}

#[test]
fn database_file_name_keeps_the_last_component() {
    assert_eq!(database_file_name("tmp/search.db"), "search.db");
    assert_eq!(database_file_name("workload.db"), "workload.db");
    assert_eq!(database_file_name("/"), "workload.db");
    assert_eq!(database_file_name(""), "workload.db");
    assert_eq!(database_file_name("data/.."), "workload.db");
}

#[test]
fn mutating_queries_are_refused() {
    assert_eq!(ensure_read_only("release-evidence", true), Ok(()));
    assert_eq!(
        ensure_read_only("release-evidence", false),
        Err("query release-evidence mutates the database; measured queries must be read-only".to_string())
    );
}

#[test]
fn plan_lines_show_id_parent_and_detail() {
    assert_eq!(plan_line(3, 0, "SCAN docs VIRTUAL TABLE INDEX 0:M1"), "3:0 SCAN docs VIRTUAL TABLE INDEX 0:M1");
    assert_eq!(plan_line(-12, 7, ""), "-12:7 ");
}

#[test]
fn result_encoding_tags_each_value() {
    let rows = vec![
        vec![SqlValue::Integer(1), SqlValue::Text(b"ab".to_vec())],
        vec![SqlValue::Null, SqlValue::Real(2.5f64.to_bits()), SqlValue::Blob(vec![9])],
    ];
    let mut expected = vec![1u8, 1, 0, 0, 0, 0, 0, 0, 0, 3, 2, 0, 0, 0, 0, 0, 0, 0, b'a', b'b', 0, 2];
    expected.extend_from_slice(&2.5f64.to_bits().to_le_bytes());
    expected.extend_from_slice(&[4, 1, 0, 0, 0, 0, 0, 0, 0, 9]);
    assert_eq!(encode_result(&rows), expected);
    let negative = vec![vec![SqlValue::Integer(-1)]];
    assert_eq!(encode_result(&negative), vec![1u8, 255, 255, 255, 255, 255, 255, 255, 255]);
}

#[test]
fn result_digest_of_no_rows_hashes_nothing() {
    let (count, digest) = result_digest(&Vec::new());
    assert_eq!(count, 0);
    assert_eq!(digest, "e3b0c44298fc1c149afbf4c8996fb92427ae41e4649b934ca495991b7852b855");
}

#[test]
fn result_digest_counts_rows_and_tells_results_apart() {
    let a = vec![vec![SqlValue::Text(b"x".to_vec())], vec![SqlValue::Text(b"y".to_vec())]];
    let b = vec![vec![SqlValue::Text(b"xy".to_vec())]];
    let (ca, da) = result_digest(&a);
    let (cb, db) = result_digest(&b);
    assert_eq!((ca, cb), (2, 1));
    assert_eq!(da.len(), 64);
    assert_ne!(da, db);
    assert_eq!(result_digest(&a).1, da);
}

#[test]
fn measurement_runs_warmups_then_repetitions() {
    let mut m = Measurement::new(1, 3);
    assert_eq!(m.next_step(), MeasureStep::Warmup);
    m.record_warmup();
    assert_eq!(m.next_step(), MeasureStep::Measure);
    assert_eq!(m.record_sample("q", 2, "d".repeat(64), 0), Ok(()));
    assert_eq!(m.record_sample("q", 2, "d".repeat(64), 30), Ok(()));
    assert_eq!(m.record_sample("q", 2, "d".repeat(64), 20), Ok(()));
    assert_eq!(m.next_step(), MeasureStep::Done);
    assert!(m.total_fits());
    let q = m.finish("q".to_string(), "SELECT 1".to_string(), vec!["0:0 SCAN t".to_string()]).unwrap();
    assert_eq!(q.name, "q");
    assert_eq!(q.row_count, 2);
    assert_eq!(q.result_digest, "d".repeat(64));
    assert_eq!(q.timing_us.samples, vec![1, 20, 30]);
    assert_eq!(q.timing_us.median, 20);
    assert_eq!(q.timing_us.mean, 17);
}

#[test]
fn measurement_refuses_an_inconsistent_result() {
    let mut m = Measurement::new(0, 3);
    assert_eq!(m.record_sample("q", 2, "a".to_string(), 5), Ok(()));
    assert_eq!(
        m.record_sample("q", 3, "a".to_string(), 5),
        Err("query q returned inconsistent results between repetitions".to_string())
    );
    assert_eq!(
        m.record_sample("q", 2, "b".to_string(), 5),
        Err("query q returned inconsistent results between repetitions".to_string())
    );
    assert_eq!(m.samples, vec![5]);
}

#[test]
fn measurement_without_repetitions_has_no_evidence() {
    let m = Measurement::new(0, 0);
    assert_eq!(m.next_step(), MeasureStep::Done);
    assert_eq!(
        m.finish("q".to_string(), String::new(), Vec::new()).unwrap_err(),
        "query q produced no measurement"
    );
}

#[test]
fn measurement_total_that_overflows_is_reported() {
    let mut m = Measurement::new(0, 2);
    assert_eq!(m.record_sample("q", 0, String::new(), u64::MAX as u128), Ok(()));
    assert_eq!(m.record_sample("q", 0, String::new(), 5), Ok(()));
    assert!(!m.total_fits());
}

#[test]
fn report_carries_the_declared_evidence_kind() {
    let manifest = Manifest {
        schema_version: 1,
        lab: Lab {
            name: "search".to_string(),
            database: "tmp/search.db".to_string(),
            fixture: "fixtures/search.sql".to_string(),
            fixture_sha256: "ABCDEF".to_string(),
            sqlite_version: "3.50.4".to_string(),
            warmups: 2,
            repetitions: 12,
        },
        profiles: Vec::new(),
        pragmas: vec![Pragma { name: "journal_mode".to_string(), value: "WAL".to_string() }],
        queries: vec![Query { name: "q".to_string(), sql: "SELECT 1".to_string(), capture_plan: true }],
    };
    let p = profile(&[], &[]);
    let pe = pragma_evidence(&manifest.pragmas[0], "wal".to_string());
    assert_eq!((pe.name.as_str(), pe.requested.as_str(), pe.observed.as_str()), ("journal_mode", "WAL", "wal"));
    let sqlite = SqliteEvidence { version: "3.50.4".to_string(), source_id: "id".to_string(), compile_options: Vec::new() };
    let r = assemble_report(
        &manifest,
        &p,
        b"abc",
        "x86_64".to_string(),
        "linux".to_string(),
        strings(&["avx"]),
        strings(&["forbidden feature avx is present"]),
        sqlite,
        vec![pe],
        Vec::new(),
    );
    assert_eq!(r.environment.evidence_kind, Environment::Emulator);
    assert_eq!(r.environment.profile, "x86-64-v2");
    assert!(!r.environment.profile_match);
    assert_eq!(r.workload.fixture_sha256, "abcdef");
    assert_eq!(r.workload.manifest_sha256, "ba7816bf8f01cfea414140de5dae2223b00361a396177a9cb410ff61f20015ad");
    assert_eq!(r.tool_version, "0.1.0");
    assert_eq!(r.methodology.warmups, 2);
    assert_eq!(r.methodology.repetitions, 12);
    assert_eq!(r.methodology.clock, "monotonic std::time::Instant; microsecond samples");
    assert!(r.methodology.statistical_claim.contains("do not establish statistical significance"));
}

#[test]
fn result_digest_tells_storage_classes_apart() {
    let integer = vec![vec![SqlValue::Integer(1)]];
    let real = vec![vec![SqlValue::Real(1)]];
    let text = vec![vec![SqlValue::Text(vec![1, 0, 0, 0, 0, 0, 0, 0])]];
    let (_, di) = result_digest(&integer);
    let (_, dr) = result_digest(&real);
    let (_, dt) = result_digest(&text);
    assert_ne!(di, dr);
    assert_ne!(di, dt);
    assert_ne!(dr, dt);
    let again = vec![vec![SqlValue::Integer(1)]];
    assert_eq!(result_digest(&again).1, di);
}

#[test]
fn check_rejects_a_mutating_measured_query() {
    let connection = rusqlite::Connection::open_in_memory().unwrap();
    connection.execute_batch(sqlite_workload_lab::STARTER_FIXTURE).unwrap();
    let mutating = connection.prepare("DELETE FROM docs").unwrap().readonly();
    assert_eq!(
        ensure_read_only("release-evidence", mutating).unwrap_err(),
        "query release-evidence mutates the database; measured queries must be read-only"
    );
    let reading = connection
        .prepare("SELECT rowid, title FROM docs WHERE docs MATCH 'sqlite OR workload' ORDER BY rank LIMIT 20")
        .unwrap()
        .readonly();
    assert_eq!(ensure_read_only("release-evidence", reading), Ok(()));
}

fn run_manifest() -> Manifest {
    Manifest {
        schema_version: 1,
        lab: Lab {
            name: "search".to_string(),
            database: "workload.db".to_string(),
            fixture: "fixtures/search.sql".to_string(),
            fixture_sha256: "AB".to_string(),
            sqlite_version: "3.50.4".to_string(),
            warmups: 0,
            repetitions: 2,
        },
        profiles: vec![profile(&[], &[])],
        pragmas: vec![
            Pragma { name: "journal_mode".to_string(), value: "WAL".to_string() },
            Pragma { name: "cache_size".to_string(), value: "-8000".to_string() },
        ],
        queries: vec![
            Query { name: "first".to_string(), sql: "SELECT 1".to_string(), capture_plan: true },
            Query { name: "second".to_string(), sql: "SELECT 2".to_string(), capture_plan: false },
        ],
    }
}

fn measured(samples: &[u128]) -> Measurement {
    let mut m = Measurement::new(0, samples.len() as u32);
    for s in samples {
        assert_eq!(m.record_sample("q", 1, "d".repeat(64), *s), Ok(()));
    }
    m
}

#[test]
fn run_evidence_follows_the_manifest_in_order() {
    let manifest = run_manifest();
    let mut evidence = RunEvidence::start(&manifest.profiles[0], Vec::new(), false).unwrap();
    assert!(!evidence.is_complete(&manifest));
    assert_eq!(evidence.next_pragma(&manifest).unwrap().name, "journal_mode");
    evidence.record_pragma(&manifest, "wal".to_string());
    assert_eq!(evidence.next_pragma(&manifest).unwrap().name, "cache_size");
    evidence.record_pragma(&manifest, "-8000".to_string());
    assert!(evidence.next_pragma(&manifest).is_none());
    assert_eq!(evidence.next_query(&manifest).unwrap().name, "first");
    assert_eq!(evidence.record_query(&manifest, measured(&[7, 3]), vec!["0:0 SCAN t".to_string()]), Ok(()));
    assert_eq!(evidence.next_query(&manifest).unwrap().name, "second");
    assert_eq!(evidence.record_query(&manifest, measured(&[4, 4]), vec!["0:0 SCAN u".to_string()]), Ok(()));
    assert!(evidence.next_query(&manifest).is_none());
    assert!(evidence.is_complete(&manifest));
    let report = evidence.into_report(
        &manifest,
        &manifest.profiles[0],
        b"abc",
        "x86_64".to_string(),
        "linux".to_string(),
        SqliteEvidence { version: "3.50.4".to_string(), source_id: "s".to_string(), compile_options: Vec::new() },
    );
    let pragmas: Vec<(&str, &str, &str)> = report
        .pragmas
        .iter()
        .map(|p| (p.name.as_str(), p.requested.as_str(), p.observed.as_str()))
        .collect();
    assert_eq!(pragmas, vec![("journal_mode", "WAL", "wal"), ("cache_size", "-8000", "-8000")]);
    assert_eq!(report.queries.len(), 2);
    assert_eq!((report.queries[0].name.as_str(), report.queries[0].sql.as_str()), ("first", "SELECT 1"));
    assert_eq!(report.queries[0].plan, vec!["0:0 SCAN t".to_string()]);
    assert_eq!(report.queries[0].timing_us.samples, vec![3, 7]);
    assert_eq!((report.queries[1].name.as_str(), report.queries[1].sql.as_str()), ("second", "SELECT 2"));
    assert!(report.queries[1].plan.is_empty());
    assert_eq!(report.environment.profile, "x86-64-v2");
    assert_eq!(report.methodology.repetitions, 2);
}

#[test]
fn run_evidence_without_repetitions_has_no_measurement() {
    let mut manifest = run_manifest();
    manifest.lab.repetitions = 0;
    let mut evidence = RunEvidence::start(&manifest.profiles[0], Vec::new(), false).unwrap();
    assert_eq!(
        evidence.record_query(&manifest, Measurement::new(0, 0), Vec::new()),
        Err("query first produced no measurement".to_string())
    );
    assert!(evidence.queries.is_empty());
}

#[test]
fn first_mutating_query_is_refused() {
    let names = strings(&["a", "b", "c"]);
    assert_eq!(first_mutating(&names, &vec![true, true, true]), Ok(()));
    assert_eq!(
        first_mutating(&names, &vec![true, false, false]),
        Err("query b mutates the database; measured queries must be read-only".to_string())
    );
    assert_eq!(first_mutating(&Vec::new(), &Vec::new()), Ok(()));
}

#[test]
fn read_only_scan_refuses_the_first_writer() {
    use_scan(|db, fixture| {
        let q = |name: &str, sql: &str| Query { name: name.to_string(), sql: sql.to_string(), capture_plan: false };
        let reading = vec![q("a", "SELECT count(*) FROM docs"), q("b", "SELECT title FROM docs")];
        assert_eq!(check_read_only(db, fixture, &reading), Ok(()));
        let writing = vec![q("a", "SELECT 1"), q("x", "not sql"), q("b", "DELETE FROM docs"), q("c", "DROP TABLE docs")];
        assert_eq!(
            check_read_only(db, fixture, &writing),
            Err("query b mutates the database; measured queries must be read-only".to_string())
        );
        let broken = vec![q("a", "SELECT 1"), q("c", "not sql")];
        assert_eq!(check_read_only(db, fixture, &broken), Ok(()));
    });
}

#[test]
fn read_only_scan_ignores_a_fixture_sqlite_refuses() {
    use_scan(|db, _| {
        let q = |name: &str, sql: &str| Query { name: name.to_string(), sql: sql.to_string(), capture_plan: false };
        assert_eq!(check_read_only(db, "CREATE nonsense;", &vec![q("a", "SELECT 1")]), Ok(()));
        assert_eq!(
            check_read_only(db, "CREATE TABLE t(x);", &vec![q("w", "INSERT INTO t VALUES (1)")]),
            Err("query w mutates the database; measured queries must be read-only".to_string())
        );
    });
}

fn use_scan(f: impl Fn(&mut ScratchDatabase, &str)) {
    let mut db = ScratchDatabase::open().expect("an in-memory database");
    f(&mut db, sqlite_workload_lab::STARTER_FIXTURE);
}

#[test]
fn run_starts_only_on_a_matching_cpu_unless_allowed() {
    let p = profile(&["sse4_2"], &["avx"]);
    let cpu = strings(&["avx"]);
    assert_eq!(
        RunEvidence::start(&p, cpu.clone(), false).err(),
        Some("CPU does not match profile x86-64-v2: required feature sse4_2 is absent; forbidden feature avx is present (pass --allow-profile-mismatch to record investigative evidence)".to_string())
    );
    let mut manifest = run_manifest();
    manifest.pragmas.clear();
    manifest.queries.clear();
    let evidence = RunEvidence::start(&p, cpu.clone(), true).ok().unwrap();
    assert!(evidence.is_complete(&manifest));
    let report = evidence.into_report(
        &manifest,
        &p,
        b"",
        "x86_64".to_string(),
        "linux".to_string(),
        SqliteEvidence { version: "3.50.4".to_string(), source_id: "s".to_string(), compile_options: Vec::new() },
    );
    assert_eq!(report.environment.cpu_features, cpu);
    assert!(!report.environment.profile_match);
    assert_eq!(
        report.environment.mismatches,
        strings(&["required feature sse4_2 is absent", "forbidden feature avx is present"])
    );
}

#[test]
fn pragma_values_are_displayed_as_sqlite_reports_them() {
    assert_eq!(display_value(&SqlValue::Null), Some("NULL".to_string()));
    assert_eq!(display_value(&SqlValue::Integer(-8000)), Some("-8000".to_string()));
    assert_eq!(display_value(&SqlValue::Text(b"wal".to_vec())), Some("wal".to_string()));
    assert_eq!(display_value(&SqlValue::Text(vec![b'a', 0xff])), Some("a\u{fffd}".to_string()));
    assert_eq!(display_value(&SqlValue::Blob(vec![1, 2, 3])), Some("<3 byte blob>".to_string()));
    assert_eq!(display_value(&SqlValue::Real(1.5f64.to_bits())), None);
}
