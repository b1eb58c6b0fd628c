use vstd::prelude::*;

pub mod compare;
pub mod digest;
pub mod manifest;
pub mod order;
pub mod paths;
pub mod report;
pub mod runner;
pub mod sqlite;
pub mod status;
pub mod text;

verus! {

/// The version that reports name as the tool's.
pub const VERSION: &'static str = "0.1.0";

/// The lower-case hexadecimal SHA-256 of `bytes`.
pub fn sha256_bytes(bytes: &[u8]) -> (r: String)
    ensures
        r@ == digest::sha256_hex(bytes@),
{
    let d = digest::sha256(bytes);
    digest::hex_encode(d.as_slice())
}

} // verus!

verus! {

/// The path of the pinned fixture: the manifest's `lab.fixture`, relative to
/// the directory that holds the manifest.
pub fn fixture_path(manifest_path: &str, manifest: &manifest::Manifest) -> (r: String)
    ensures
        r@ == paths::fixture_location(manifest_path@, manifest.lab.fixture@),
{
    let base = match paths::parent_of(manifest_path) {
        Some(p) => p,
        None => String::from_str("."),
    };
    paths::join(base.as_str(), manifest.lab.fixture.as_str())
}

/// Where `init` writes the starter fixture: `fixtures/sample.sql` beside the manifest.
pub fn starter_fixture_path(manifest_path: &str) -> (r: String)
    ensures
        r@ == paths::fixture_location(manifest_path@, "fixtures/sample.sql"@),
{
    let base = match paths::parent_of(manifest_path) {
        Some(p) => p,
        None => String::from_str("."),
    };
    paths::join(base.as_str(), "fixtures/sample.sql")
}

/// The refusal that `init` gives instead of overwriting an existing file.
pub open spec fn overwrite_message(path: Seq<char>) -> Seq<char> {
    "refusing to overwrite "@ + path + "; choose a new path"@
}

/// Refuses to go on when the target path already exists; `exists` is what
/// the file system reports for `path`.
pub fn refuse_overwrite(path: &str, exists: bool) -> (r: Result<(), String>)
    ensures
        match r {
            Ok(()) => !exists,
            Err(e) => exists && e@ == overwrite_message(path@),
        },
{
    if exists {
        let mut e = String::from_str("refusing to overwrite ");
        e.append(path);
        e.append("; choose a new path");
        return Err(e);
    }
    Ok(())
}

} // verus!

verus! {

/// A character that may stand in a report's file name: ASCII letter or
/// digit, `-` or `_`.
pub open spec fn is_file_name_char(c: char) -> bool {
    ('a' <= c <= 'z') || ('A' <= c <= 'Z') || ('0' <= c <= '9') || c == '-' || c == '_'
}

/// The profile id with every other character replaced by `_`.
pub open spec fn safe_stem(profile: Seq<char>) -> Seq<char> {
    profile.map_values(|c: char| if is_file_name_char(c) { c } else { '_' })
}

/// The stem of a profile's report files (`<stem>.json`, `<stem>.md`).
pub fn report_file_stem(profile: &str) -> (r: Result<String, String>)
    ensures
        match r {
            Ok(s) => profile@.len() > 0 && s@ == safe_stem(profile@),
            Err(e) => profile@.len() == 0
                && e@ == "profile name cannot be converted to a safe output filename"@,
        },
{
    let cs = text::chars_of(profile);
    let mut out = String::new();
    for i in 0..cs.len()
        invariant
            cs@ == profile@,
            out@ == safe_stem(profile@).take(i as int),
    {
        let c = cs[i];
        let keep = ('a' <= c && c <= 'z') || ('A' <= c && c <= 'Z') || ('0' <= c && c <= '9') || c
            == '-' || c == '_';
        text::push_char(
            &mut out,
            if keep {
                c
            } else {
                '_'
            },
        );
        assert(safe_stem(profile@).take(i + 1) == safe_stem(profile@).take(i as int).push(
            safe_stem(profile@)[i as int],
        ));
    }
    assert(safe_stem(profile@).take(cs@.len() as int) == safe_stem(profile@));
    if out.as_str().is_empty() {
        return Err(String::from_str("profile name cannot be converted to a safe output filename"));
    }
    Ok(out)
}

/// The SQL of the starter workload's fixture.
pub const STARTER_FIXTURE: &'static str = "CREATE VIRTUAL TABLE docs USING fts5(title, body);\nINSERT INTO docs(title, body) VALUES\n  ('Measure first', 'A pinned SQLite workload makes a release claim reviewable.'),\n  ('Portable builds', 'Test SQLite extensions without AVX and AVX2 before publishing.'),\n  ('Query plans', 'Capture EXPLAIN QUERY PLAN beside repeated timing samples.'),\n  ('Local evidence', 'The report stays on your machine and belongs in version control.');\n";

/// The starter manifest's text before the fixture hash.
pub open spec fn starter_head() -> Seq<char> {
    "schema_version = 1\n\n[lab]\nname = \"sqlite-release-check\"\ndatabase = \"workload.db\"\nfixture = \"fixtures/sample.sql\"\nfixture_sha256 = \""@
}

/// The starter manifest's text between the fixture hash and the SQLite version.
pub open spec fn starter_middle() -> Seq<char> {
    "\"\nsqlite_version = \""@
}

/// The starter manifest's text after the SQLite version: three profiles,
/// two PRAGMAs and one query.
pub open spec fn starter_tail() -> Seq<char> {
    "\"\nwarmups = 2\nrepetitions = 10\n\n[[profiles]]\nid = \"host\"\nenvironment = \"hardware\"\nrunner = \"native\"\nnotes = \"Run on the release host.\"\n\n[[profiles]]\nid = \"container\"\nenvironment = \"container\"\nrunner = \"native\"\nnotes = \"Run this selection from the pinned container image.\"\n\n[[profiles]]\nid = \"emulated-x86-v2\"\nenvironment = \"emulator\"\nrunner = \"native\"\nrequired_cpu_features = [\"sse4_2\", \"popcnt\"]\nforbidden_cpu_features = [\"avx\", \"avx2\"]\nnotes = \"Run under QEMU with an x86-64-v2 CPU model.\"\n\n[[pragmas]]\nname = \"journal_mode\"\nvalue = \"WAL\"\n\n[[pragmas]]\nname = \"cache_size\"\nvalue = \"-8000\"\n\n[[queries]]\nname = \"release-evidence\"\nsql = \"SELECT rowid, title FROM docs WHERE docs MATCH 'sqlite OR workload' ORDER BY rank LIMIT 20\"\ncapture_plan = true\n"@
}

/// The starter manifest, pinned to the starter fixture's hash and the given
/// SQLite version.
pub fn starter_manifest(sqlite_version: &str) -> (r: String)
    ensures
        r@ == starter_head() + digest::sha256_hex(vstd::utf8::encode_utf8(STARTER_FIXTURE@))
            + starter_middle() + sqlite_version@ + starter_tail(),
{
    let hash = sha256_bytes(STARTER_FIXTURE.as_bytes());
    let mut out = String::from_str(
        "schema_version = 1\n\n[lab]\nname = \"sqlite-release-check\"\ndatabase = \"workload.db\"\nfixture = \"fixtures/sample.sql\"\nfixture_sha256 = \"",
    );
    out.append(hash.as_str());
    out.append("\"\nsqlite_version = \"");
    out.append(sqlite_version);
    out.append(
        "\"\nwarmups = 2\nrepetitions = 10\n\n[[profiles]]\nid = \"host\"\nenvironment = \"hardware\"\nrunner = \"native\"\nnotes = \"Run on the release host.\"\n\n[[profiles]]\nid = \"container\"\nenvironment = \"container\"\nrunner = \"native\"\nnotes = \"Run this selection from the pinned container image.\"\n\n[[profiles]]\nid = \"emulated-x86-v2\"\nenvironment = \"emulator\"\nrunner = \"native\"\nrequired_cpu_features = [\"sse4_2\", \"popcnt\"]\nforbidden_cpu_features = [\"avx\", \"avx2\"]\nnotes = \"Run under QEMU with an x86-64-v2 CPU model.\"\n\n[[pragmas]]\nname = \"journal_mode\"\nvalue = \"WAL\"\n\n[[pragmas]]\nname = \"cache_size\"\nvalue = \"-8000\"\n\n[[queries]]\nname = \"release-evidence\"\nsql = \"SELECT rowid, title FROM docs WHERE docs MATCH 'sqlite OR workload' ORDER BY rank LIMIT 20\"\ncapture_plan = true\n",
    );
    out
}

} // verus!
