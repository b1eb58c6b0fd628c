use vstd::prelude::*;

use crate::manifest::{environment_label, Environment};
use crate::text::{
    decimal, escape_markdown, join_strings, join_with, md_escape, title_case, title_case_str, trim,
    trim_str, u64_decimal,
};
use vstd::utf8::{decode_utf8, encode_utf8, is_char_boundary};

verus! {

/// The evidence one run of one profile produces.
#[derive(Debug, Clone)]
pub struct Report {
    pub schema_version: u32,
    pub tool_version: String,
    pub workload: WorkloadEvidence,
    pub environment: EnvironmentEvidence,
    pub sqlite: SqliteEvidence,
    pub pragmas: Vec<PragmaEvidence>,
    pub queries: Vec<QueryEvidence>,
    pub methodology: Methodology,
}

/// Which workload ran, and the hashes that pin it.
#[derive(Debug, Clone)]
pub struct WorkloadEvidence {
    pub name: String,
    pub manifest_sha256: String,
    pub fixture_path: String,
    pub fixture_sha256: String,
}

/// Where it ran, and whether the CPU matched the profile.
#[derive(Debug, Clone)]
pub struct EnvironmentEvidence {
    pub profile: String,
    pub evidence_kind: Environment,
    pub architecture: String,
    pub operating_system: String,
    pub cpu_features: Vec<String>,
    pub profile_match: bool,
    pub mismatches: Vec<String>,
}

/// The SQLite build that executed the workload.
#[derive(Debug, Clone)]
pub struct SqliteEvidence {
    pub version: String,
    pub source_id: String,
    pub compile_options: Vec<String>,
}

/// A PRAGMA as requested and as SQLite then reported it.
#[derive(Debug, Clone)]
pub struct PragmaEvidence {
    pub name: String,
    pub requested: String,
    pub observed: String,
}

/// One measured query: its plan, its result and its timings.
#[derive(Debug, Clone)]
pub struct QueryEvidence {
    pub name: String,
    pub sql: String,
    pub plan: Vec<String>,
    pub row_count: usize,
    pub result_digest: String,
    pub timing_us: Timing,
}

/// Timing samples in microseconds, sorted, with their summary.
#[derive(Debug, Clone)]
pub struct Timing {
    pub samples: Vec<u64>,
    pub min: u64,
    pub median: u64,
    pub mean: u64,
    pub p95: u64,
    pub max: u64,
}

/// How the timings were taken, and what they may be used to claim.
#[derive(Debug, Clone)]
pub struct Methodology {
    pub warmups: u32,
    pub repetitions: u32,
    pub clock: String,
    pub statistical_claim: String,
}

} // verus!

verus! {

/// The first twelve bytes of a digest, as text.
pub open spec fn digest_prefix(d: Seq<char>) -> Seq<char> {
    decode_utf8(encode_utf8(d).subrange(0, 12))
}

/// A digest can be cut after twelve bytes: at least that long, and a
/// character ends there.
pub open spec fn digest_prefix_ok(d: Seq<char>) -> bool {
    is_char_boundary(encode_utf8(d), 12)
}

pub open spec fn record_section(r: Report) -> Seq<char> {
    let kind = environment_label(r.environment.evidence_kind);
    "# SQLite workload report: "@ + r.workload.name@ + "\n\n"@ + "> **"@ + title_case(kind)
        + " evidence.** Timings from this report must not be represented as hardware measurements from another environment.\n\n"@
        + "## Reproduction record\n\n"@ + "| Field | Captured value |\n"@ + "| --- | --- |\n"@
        + "| Profile | `"@ + md_escape(r.environment.profile@) + "` ("@ + kind + ") |\n"@
        + "| Profile check | "@ + (if r.environment.profile_match {
        "Pass"@
    } else {
        "Mismatch—see below"@
    }) + " |\n"@ + "| Platform | `"@ + r.environment.architecture@ + "` / `"@
        + r.environment.operating_system@ + "` |\n"@ + "| SQLite | `"@ + r.sqlite.version@
        + "` |\n"@ + "| Fixture SHA-256 | `"@ + r.workload.fixture_sha256@ + "` |\n"@
        + "| Manifest SHA-256 | `"@ + r.workload.manifest_sha256@ + "` |\n"@ + "| Method | "@
        + decimal(r.methodology.warmups as nat) + " warmups, "@ + decimal(
        r.methodology.repetitions as nat,
    ) + " measured repetitions, monotonic clock |\n\n"@
}

/// One Markdown bullet per item, escaped.
pub open spec fn bullet_lines(items: Seq<String>) -> Seq<char>
    decreases items.len(),
{
    if items.len() == 0 {
        Seq::empty()
    } else {
        bullet_lines(items.drop_last()) + "- "@ + md_escape(items.last()@) + "\n"@
    }
}

pub open spec fn mismatch_section(r: Report) -> Seq<char> {
    if r.environment.mismatches@.len() == 0 {
        Seq::empty()
    } else {
        "### Profile mismatches\n\n"@ + bullet_lines(r.environment.mismatches@) + "\n"@
    }
}

pub open spec fn timing_row(q: QueryEvidence) -> Seq<char> {
    "| "@ + md_escape(q.name@) + " | "@ + decimal(q.timing_us.median as nat) + " µs | "@ + decimal(
        q.timing_us.p95 as nat,
    ) + " µs | "@ + decimal(q.timing_us.min as nat) + "–"@ + decimal(q.timing_us.max as nat)
        + " µs | "@ + decimal(q.row_count as nat) + " | `"@ + digest_prefix(q.result_digest@)
        + "` |\n"@
}

pub open spec fn timing_rows(qs: Seq<QueryEvidence>) -> Seq<char>
    decreases qs.len(),
{
    if qs.len() == 0 {
        Seq::empty()
    } else {
        timing_rows(qs.drop_last()) + timing_row(qs.last())
    }
}

pub open spec fn timings_section(r: Report) -> Seq<char> {
    "## Query timings\n\n"@ + "| Query | Median | p95 | Min–max | Rows | Digest |\n"@
        + "| --- | ---: | ---: | ---: | ---: | --- |\n"@ + timing_rows(r.queries@) + "\n> "@
        + r.methodology.statistical_claim@ + "\n\n"@
}

pub open spec fn pragma_row(p: PragmaEvidence) -> Seq<char> {
    "| `"@ + p.name@ + "` | `"@ + md_escape(p.requested@) + "` | `"@ + md_escape(p.observed@)
        + "` |\n"@
}

pub open spec fn pragma_rows(ps: Seq<PragmaEvidence>) -> Seq<char>
    decreases ps.len(),
{
    if ps.len() == 0 {
        Seq::empty()
    } else {
        pragma_rows(ps.drop_last()) + pragma_row(ps.last())
    }
}

pub open spec fn pragmas_section(r: Report) -> Seq<char> {
    "## PRAGMAs\n\n"@ + "| Name | Requested | Observed |\n"@ + "| --- | --- | --- |\n"@
        + pragma_rows(r.pragmas@)
}

/// Each plan line followed by a line break.
pub open spec fn plan_lines(lines: Seq<String>) -> Seq<char>
    decreases lines.len(),
{
    if lines.len() == 0 {
        Seq::empty()
    } else {
        plan_lines(lines.drop_last()) + lines.last()@ + "\n"@
    }
}

pub open spec fn plan_block(q: QueryEvidence) -> Seq<char> {
    "### "@ + md_escape(q.name@) + "\n\n"@ + "```sql\n"@ + trim(q.sql@) + "\n```\n\n"@ + if q.plan@.len()
        == 0 {
        "Plan capture disabled.\n\n"@
    } else {
        "```text\n"@ + plan_lines(q.plan@) + "```\n\n"@
    }
}

pub open spec fn plan_blocks(qs: Seq<QueryEvidence>) -> Seq<char>
    decreases qs.len(),
{
    if qs.len() == 0 {
        Seq::empty()
    } else {
        plan_blocks(qs.drop_last()) + plan_block(qs.last())
    }
}

pub open spec fn plans_section(r: Report) -> Seq<char> {
    "\n## Query plans\n\n"@ + plan_blocks(r.queries@)
}

/// An inline code span with the text escaped.
pub open spec fn code_item(s: Seq<char>) -> Seq<char> {
    "`"@ + md_escape(s) + "`"@
}

/// Inline code spans separated by commas.
pub open spec fn code_list(items: Seq<String>) -> Seq<char> {
    join_with(items.map_values(|s: String| code_item(s@)), ", "@)
}

pub open spec fn build_section(r: Report) -> Seq<char> {
    "## SQLite build\n\n"@ + "Source ID: `"@ + md_escape(r.sqlite.source_id@) + "`\n\n"@
        + "Compile options: "@ + code_list(r.sqlite.compile_options@) + "\n\n"@ + "CPU features: "@
        + code_list(r.environment.cpu_features@) + "\n\n"@
        + "---\nGenerated by SQLite Workload Lab "@ + r.tool_version@
        + ". No telemetry was sent.\n"@
}

/// The Markdown companion of a report.
pub open spec fn report_markdown(r: Report) -> Seq<char> {
    record_section(r) + mismatch_section(r) + timings_section(r) + pragmas_section(r)
        + plans_section(r) + build_section(r)
}

fn record_text(r: &Report) -> (out: String)
    ensures
        out@ == record_section(*r),
{
    let kind = r.environment.evidence_kind.label();
    let mut out = String::from_str("# SQLite workload report: ");
    out.append(r.workload.name.as_str());
    out.append("\n\n");
    out.append("> **");
    out.append(title_case_str(kind).as_str());
    out.append(
        " evidence.** Timings from this report must not be represented as hardware measurements from another environment.\n\n",
    );
    out.append("## Reproduction record\n\n");
    out.append("| Field | Captured value |\n");
    out.append("| --- | --- |\n");
    out.append("| Profile | `");
    out.append(escape_markdown(r.environment.profile.as_str()).as_str());
    out.append("` (");
    out.append(kind);
    out.append(") |\n");
    out.append("| Profile check | ");
    if r.environment.profile_match {
        out.append("Pass");
    } else {
        out.append("Mismatch—see below");
    }
    out.append(" |\n");
    out.append("| Platform | `");
    out.append(r.environment.architecture.as_str());
    out.append("` / `");
    out.append(r.environment.operating_system.as_str());
    out.append("` |\n");
    out.append("| SQLite | `");
    out.append(r.sqlite.version.as_str());
    out.append("` |\n");
    out.append("| Fixture SHA-256 | `");
    out.append(r.workload.fixture_sha256.as_str());
    out.append("` |\n");
    out.append("| Manifest SHA-256 | `");
    out.append(r.workload.manifest_sha256.as_str());
    out.append("` |\n");
    out.append("| Method | ");
    out.append(u64_decimal(r.methodology.warmups as u64).as_str());
    out.append(" warmups, ");
    out.append(u64_decimal(r.methodology.repetitions as u64).as_str());
    out.append(" measured repetitions, monotonic clock |\n\n");
    out
}

fn mismatch_text(r: &Report) -> (out: String)
    ensures
        out@ == mismatch_section(*r),
{
    let items = &r.environment.mismatches;
    if items.len() == 0 {
        return String::new();
    }
    let mut out = String::from_str("### Profile mismatches\n\n");
    let ghost head = out@;
    for i in 0..items.len()
        invariant
            out@ == head + bullet_lines(items@.take(i as int)),
    {
        out.append("- ");
        out.append(escape_markdown(items[i].as_str()).as_str());
        out.append("\n");
        assert(items@.take(i + 1).drop_last() == items@.take(i as int));
    }
    assert(items@.take(items@.len() as int) == items@);
    out.append("\n");
    out
}

/// The first twelve bytes of a digest.
fn digest_head(d: &str) -> (r: &str)
    requires
        digest_prefix_ok(d@),
    ensures
        r@ == digest_prefix(d@),
{
    proof {
        vstd::utf8::encode_utf8_valid_utf8(d@);
    }
    let (head, _) = d.split_at(12);
    proof {
        vstd::utf8::encode_utf8_decode_utf8(head@);
    }
    head
}

fn timing_row_text(q: &QueryEvidence) -> (out: String)
    requires
        digest_prefix_ok(q.result_digest@),
    ensures
        out@ == timing_row(*q),
{
    let mut out = String::from_str("| ");
    out.append(escape_markdown(q.name.as_str()).as_str());
    out.append(" | ");
    out.append(u64_decimal(q.timing_us.median).as_str());
    out.append(" µs | ");
    out.append(u64_decimal(q.timing_us.p95).as_str());
    out.append(" µs | ");
    out.append(u64_decimal(q.timing_us.min).as_str());
    out.append("–");
    out.append(u64_decimal(q.timing_us.max).as_str());
    out.append(" µs | ");
    out.append(u64_decimal(q.row_count as u64).as_str());
    out.append(" | `");
    out.append(digest_head(q.result_digest.as_str()));
    out.append("` |\n");
    out
}

fn timings_text(r: &Report) -> (out: String)
    requires
        forall|i: int|
            0 <= i < r.queries@.len() ==> digest_prefix_ok(#[trigger] r.queries@[i].result_digest@),
    ensures
        out@ == timings_section(*r),
{
    let qs = &r.queries;
    let mut out = String::from_str("## Query timings\n\n");
    out.append("| Query | Median | p95 | Min–max | Rows | Digest |\n");
    out.append("| --- | ---: | ---: | ---: | ---: | --- |\n");
    let ghost head = out@;
    for i in 0..qs.len()
        invariant
            qs == &r.queries,
            forall|k: int|
                0 <= k < qs@.len() ==> digest_prefix_ok(#[trigger] qs@[k].result_digest@),
            out@ == head + timing_rows(qs@.take(i as int)),
    {
        out.append(timing_row_text(&qs[i]).as_str());
        assert(qs@.take(i + 1).drop_last() == qs@.take(i as int));
    }
    assert(qs@.take(qs@.len() as int) == qs@);
    out.append("\n> ");
    out.append(r.methodology.statistical_claim.as_str());
    out.append("\n\n");
    out
}

fn pragmas_text(r: &Report) -> (out: String)
    ensures
        out@ == pragmas_section(*r),
{
    let ps = &r.pragmas;
    let mut out = String::from_str("## PRAGMAs\n\n");
    out.append("| Name | Requested | Observed |\n");
    out.append("| --- | --- | --- |\n");
    let ghost head = out@;
    for i in 0..ps.len()
        invariant
            ps == &r.pragmas,
            out@ == head + pragma_rows(ps@.take(i as int)),
    {
        out.append("| `");
        out.append(ps[i].name.as_str());
        out.append("` | `");
        out.append(escape_markdown(ps[i].requested.as_str()).as_str());
        out.append("` | `");
        out.append(escape_markdown(ps[i].observed.as_str()).as_str());
        out.append("` |\n");
        assert(ps@.take(i + 1).drop_last() == ps@.take(i as int));
    }
    assert(ps@.take(ps@.len() as int) == ps@);
    out
}

fn plan_block_text(q: &QueryEvidence) -> (out: String)
    ensures
        out@ == plan_block(*q),
{
    let mut out = String::from_str("### ");
    out.append(escape_markdown(q.name.as_str()).as_str());
    out.append("\n\n");
    out.append("```sql\n");
    out.append(trim_str(q.sql.as_str()).as_str());
    out.append("\n```\n\n");
    if q.plan.len() == 0 {
        out.append("Plan capture disabled.\n\n");
    } else {
        let mut lines = String::from_str("```text\n");
        let ghost head = lines@;
        for i in 0..q.plan.len()
            invariant
                lines@ == head + plan_lines(q.plan@.take(i as int)),
        {
            lines.append(q.plan[i].as_str());
            lines.append("\n");
            assert(q.plan@.take(i + 1).drop_last() == q.plan@.take(i as int));
        }
        assert(q.plan@.take(q.plan@.len() as int) == q.plan@);
        lines.append("```\n\n");
        out.append(lines.as_str());
    }
    out
}

fn plans_text(r: &Report) -> (out: String)
    ensures
        out@ == plans_section(*r),
{
    let qs = &r.queries;
    let mut out = String::from_str("\n## Query plans\n\n");
    let ghost head = out@;
    for i in 0..qs.len()
        invariant
            qs == &r.queries,
            out@ == head + plan_blocks(qs@.take(i as int)),
    {
        out.append(plan_block_text(&qs[i]).as_str());
        assert(qs@.take(i + 1).drop_last() == qs@.take(i as int));
    }
    assert(qs@.take(qs@.len() as int) == qs@);
    out
}

fn code_list_text(items: &Vec<String>) -> (out: String)
    ensures
        out@ == code_list(items@),
{
    let mut parts: Vec<String> = Vec::new();
    for i in 0..items.len()
        invariant
            parts@.len() == i,
            forall|k: int| 0 <= k < i ==> #[trigger] parts@[k]@ == code_item(items@[k]@),
    {
        let mut p = String::from_str("`");
        p.append(escape_markdown(items[i].as_str()).as_str());
        p.append("`");
        parts.push(p);
    }
    assert(parts@.map_values(|s: String| s@) =~= items@.map_values(|s: String| code_item(s@)));
    join_strings(&parts, ", ")
}

fn build_text(r: &Report) -> (out: String)
    ensures
        out@ == build_section(*r),
{
    let mut out = String::from_str("## SQLite build\n\n");
    out.append("Source ID: `");
    out.append(escape_markdown(r.sqlite.source_id.as_str()).as_str());
    out.append("`\n\n");
    out.append("Compile options: ");
    out.append(code_list_text(&r.sqlite.compile_options).as_str());
    out.append("\n\n");
    out.append("CPU features: ");
    out.append(code_list_text(&r.environment.cpu_features).as_str());
    out.append("\n\n");
    out.append("---\nGenerated by SQLite Workload Lab ");
    out.append(r.tool_version.as_str());
    out.append(". No telemetry was sent.\n");
    out
}

impl Report {
    /// The human-readable companion of a report: reproduction record, profile
    /// mismatches, timings, PRAGMAs, plans and SQLite build, headed by the
    /// kind of evidence it is.
    pub fn markdown(&self) -> (out: String)
        requires
            forall|i: int|
                0 <= i < self.queries@.len() ==> digest_prefix_ok(
                    #[trigger] self.queries@[i].result_digest@,
                ),
        ensures
            out@ == report_markdown(*self),
    {
        let mut out = record_text(self);
        out.append(mismatch_text(self).as_str());
        out.append(timings_text(self).as_str());
        out.append(pragmas_text(self).as_str());
        out.append(plans_text(self).as_str());
        out.append(build_text(self).as_str());
        out
    }
}

} // verus!

verus! {

proof fn lemma_take_of_concat(a: Seq<char>, b: Seq<char>)
    ensures
        (a + b).take(a.len() as int) == a,
{
    assert((a + b).take(a.len() as int) =~= a);
}

proof fn lemma_prefix_chain(s: Seq<char>, t: Seq<char>, n: int)
    requires
        0 <= n <= t.len() <= s.len(),
        s.take(t.len() as int) == t,
    ensures
        s.take(n) == t.take(n),
{
    assert(s.take(n) =~= s.take(t.len() as int).take(n));
}

/// The pinned hashes row by row: the report's Markdown holds a line
/// `| Fixture SHA-256 | `…` |` with the report's fixture hash, followed
/// directly by a line `| Manifest SHA-256 | `…` |` with its manifest hash.
pub proof fn lemma_markdown_shows_pins(r: Report)
    ensures
        ({
            let rows = "| Fixture SHA-256 | `"@ + r.workload.fixture_sha256@ + "` |\n"@
                + "| Manifest SHA-256 | `"@ + r.workload.manifest_sha256@ + "` |\n"@;
            let md = report_markdown(r);
            exists|i: int| 0 <= i && i + rows.len() <= md.len() && #[trigger] md.subrange(i, i + rows.len()) == rows
        }),
{
    let kind = environment_label(r.environment.evidence_kind);
    let pre = "# SQLite workload report: "@ + r.workload.name@ + "\n\n"@ + "> **"@ + title_case(kind)
        + " evidence.** Timings from this report must not be represented as hardware measurements from another environment.\n\n"@
        + "## Reproduction record\n\n"@ + "| Field | Captured value |\n"@ + "| --- | --- |\n"@
        + "| Profile | `"@ + md_escape(r.environment.profile@) + "` ("@ + kind + ") |\n"@
        + "| Profile check | "@ + (if r.environment.profile_match {
        "Pass"@
    } else {
        "Mismatch—see below"@
    }) + " |\n"@ + "| Platform | `"@ + r.environment.architecture@ + "` / `"@
        + r.environment.operating_system@ + "` |\n"@ + "| SQLite | `"@ + r.sqlite.version@
        + "` |\n"@;
    let a = "| Fixture SHA-256 | `"@;
    let f = r.workload.fixture_sha256@;
    let b = "` |\n"@;
    let c = "| Manifest SHA-256 | `"@;
    let m = r.workload.manifest_sha256@;
    let rows = a + f + b + c + m + b;
    let x6 = pre + a + f + b + c + m + b;
    vstd::seq_lib::lemma_concat_associative(pre, a, f);
    vstd::seq_lib::lemma_concat_associative(pre, a + f, b);
    vstd::seq_lib::lemma_concat_associative(pre, a + f + b, c);
    vstd::seq_lib::lemma_concat_associative(pre, a + f + b + c, m);
    vstd::seq_lib::lemma_concat_associative(pre, a + f + b + c + m, b);
    assert(x6 == pre + rows);
    let m1 = "| Method | "@;
    let m2 = decimal(r.methodology.warmups as nat);
    let m3 = " warmups, "@;
    let m4 = decimal(r.methodology.repetitions as nat);
    let m5 = " measured repetitions, monotonic clock |\n\n"@;
    let rs = record_section(r);
    assert(rs == x6 + m1 + m2 + m3 + m4 + m5);
    let md = report_markdown(r);
    lemma_take_of_concat(rs, mismatch_section(r));
    lemma_take_of_concat(rs + mismatch_section(r), timings_section(r));
    lemma_take_of_concat(rs + mismatch_section(r) + timings_section(r), pragmas_section(r));
    lemma_take_of_concat(
        rs + mismatch_section(r) + timings_section(r) + pragmas_section(r),
        plans_section(r),
    );
    lemma_take_of_concat(
        rs + mismatch_section(r) + timings_section(r) + pragmas_section(r) + plans_section(r),
        build_section(r),
    );
    let s4 = rs + mismatch_section(r) + timings_section(r) + pragmas_section(r) + plans_section(r);
    let s3 = rs + mismatch_section(r) + timings_section(r) + pragmas_section(r);
    let s2 = rs + mismatch_section(r) + timings_section(r);
    let s1 = rs + mismatch_section(r);
    lemma_prefix_chain(md, s4, s3.len() as int);
    lemma_prefix_chain(md, s3, s2.len() as int);
    lemma_prefix_chain(md, s2, s1.len() as int);
    lemma_prefix_chain(md, s1, rs.len() as int);
    assert(md.take(rs.len() as int) == rs);
    lemma_take_of_concat(x6, m1);
    lemma_take_of_concat(x6 + m1, m2);
    lemma_take_of_concat(x6 + m1 + m2, m3);
    lemma_take_of_concat(x6 + m1 + m2 + m3, m4);
    lemma_take_of_concat(x6 + m1 + m2 + m3 + m4, m5);
    lemma_prefix_chain(rs, x6 + m1 + m2 + m3 + m4, (x6 + m1 + m2 + m3).len() as int);
    lemma_prefix_chain(rs, x6 + m1 + m2 + m3, (x6 + m1 + m2).len() as int);
    lemma_prefix_chain(rs, x6 + m1 + m2, (x6 + m1).len() as int);
    lemma_prefix_chain(rs, x6 + m1, x6.len() as int);
    lemma_prefix_chain(md, rs, x6.len() as int);
    assert(md.take(x6.len() as int) == x6);
    let i = pre.len() as int;
    assert(md.subrange(i, i + rows.len()) =~= md.take(x6.len() as int).subrange(i, i + rows.len()));
    assert((pre + rows).subrange(i, i + rows.len()) =~= rows);
}

} // verus!
