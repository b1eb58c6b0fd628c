use vstd::prelude::*;

use crate::digest::sha256_hex;
use crate::manifest::{normalize_feature, normalized_feature, Manifest, Pragma, Profile, Query};
use crate::order::{is_listed, listed, sorted_distinct, strictly_ordered};
use crate::report::{
    EnvironmentEvidence, Methodology, PragmaEvidence, QueryEvidence, Report, SqliteEvidence, Timing,
    WorkloadEvidence,
};
use crate::paths::{file_name_of, path_file_name};
use crate::text::{
    decimal, u64_decimal, lower_seq, to_ascii_lowercase_str, str_eq, i64_decimal, signed_decimal, join_strings, join_with, chars_of, eq_ignore_ascii_case, eq_ignore_ascii_case_chars, find_char, index_of_char,
    lemma_index_of_char, split_words, sub_chars, trim, trim_chars, words_of,
};

verus! {

broadcast use vstd::seq_lib::group_to_multiset_ensures;

/// Non-decreasing order.
pub open spec fn is_sorted(s: Seq<u64>) -> bool {
    forall|i: int, j: int| 0 <= i <= j < s.len() ==> s[i] <= s[j]
}

/// The samples in non-decreasing order: the same values, each as often.
pub fn sorted_samples(v: &[u64]) -> (r: Vec<u64>)
    ensures
        is_sorted(r@),
        r@.to_multiset() == v@.to_multiset(),
{
    let mut r: Vec<u64> = Vec::new();
    for i in 0..v.len()
        invariant
            is_sorted(r@),
            r@.to_multiset() == v@.take(i as int).to_multiset(),
    {
        let x = v[i];
        let mut p: usize = 0;
        while p < r.len() && r[p] <= x
            invariant
                p <= r@.len(),
                is_sorted(r@),
                forall|k: int| 0 <= k < p ==> r@[k] <= x,
            decreases r@.len() - p,
        {
            p = p + 1;
        }
        let ghost before = r@;
        r.insert(p, x);
        proof {
            assert(r@ == before.insert(p as int, x));
            assert(v@.take(i + 1) == v@.take(i as int).push(x));
            vstd::seq_lib::to_multiset_insert(before, p as int, x);
            assert forall|a: int, b: int| 0 <= a <= b < r@.len() implies r@[a] <= r@[b] by {
                if p < before.len() {
                    assert(before[p as int] > x);
                }
            }
        }
    }
    assert(v@.take(v@.len() as int) == v@);
    r
}

/// The sum of the samples.
pub open spec fn sum_of(s: Seq<u64>) -> int
    decreases s.len(),
{
    if s.len() == 0 {
        0
    } else {
        sum_of(s.drop_last()) + s.last()
    }
}

/// The index of the 95th percentile in `len` sorted samples: the ceiling of
/// 95% of `len`, minus one, within `0..len`.
pub open spec fn p95_index(len: nat) -> int {
    let c = (95 * len + 99) / 100;
    let k = if c >= 1 {
        c - 1
    } else {
        0
    };
    if k > len - 1 {
        len - 1
    } else {
        k
    }
}

/// The summary of some timing samples: sorted samples, their minimum, median
/// (the upper median), integer mean, 95th percentile and maximum.
pub open spec fn summarizes(t: Timing, samples: Seq<u64>) -> bool {
    let s = t.samples@;
    let n = samples.len();
    &&& is_sorted(s)
    &&& s.to_multiset() == samples.to_multiset()
    &&& s.len() == n
    &&& t.min == s[0]
    &&& t.median == s[(n / 2) as int]
    &&& t.mean == sum_of(samples) / (n as int)
    &&& t.p95 == s[p95_index(n)]
    &&& t.max == s[n - 1]
}

/// Sorts timing samples and summarizes them.
pub fn summarize(samples: Vec<u64>) -> (t: Timing)
    requires
        samples@.len() > 0,
        sum_of(samples@) <= u64::MAX,
    ensures
        summarizes(t, samples@),
{
    let sorted = sorted_samples(samples.as_slice());
    let len = sorted.len();
    assert(len == samples@.len()) by {
        assert(sorted@.to_multiset().len() == samples@.to_multiset().len());
    }
    let mut total: u64 = 0;
    for i in 0..samples.len()
        invariant
            total == sum_of(samples@.take(i as int)),
            sum_of(samples@) <= u64::MAX,
    {
        proof {
            assert(samples@.take(i + 1).drop_last() == samples@.take(i as int));
            lemma_sum_prefix_le(samples@, i + 1);
        }
        total = total + samples[i];
    }
    assert(samples@.take(samples@.len() as int) == samples@);
    let mean = total / (len as u64);
    let wide: u128 = (95 * (len as u128) + 99) / 100;
    assert(wide <= len);
    let c: usize = wide as usize;
    let k: usize = if c >= 1 { c - 1 } else { 0 };
    let p95_at: usize = if k > len - 1 { len - 1 } else { k };
    Timing {
        min: sorted[0],
        median: sorted[len / 2],
        mean,
        p95: sorted[p95_at],
        max: sorted[len - 1],
        samples: sorted,
    }
}

/// A prefix never sums to more than the whole.
pub proof fn lemma_sum_prefix_le(s: Seq<u64>, k: int)
    requires
        0 <= k <= s.len(),
    ensures
        sum_of(s.take(k)) <= sum_of(s),
    decreases s.len(),
{
    if k < s.len() {
        assert(s.drop_last().take(k) == s.take(k));
        lemma_sum_prefix_le(s.drop_last(), k);
    } else {
        assert(s.take(k) == s);
    }
}

} // verus!

verus! {

/// The first line of `s` without its `\n` or `\r\n`, and the text after it,
/// as `str::lines` splits text.
pub open spec fn next_line(s: Seq<char>) -> (Seq<char>, Seq<char>) {
    let k = index_of_char(s, '\n');
    if k >= s.len() {
        (s, Seq::empty())
    } else {
        let line = s.take(k);
        (
            if k > 0 && s[k - 1] == '\r' {
                line.drop_last()
            } else {
                line
            },
            s.skip(k + 1),
        )
    }
}

/// For a `/proc/cpuinfo` line whose key (before the first `:`) is `flags` or
/// `features`, ignoring ASCII case and surrounding whitespace: the value.
pub open spec fn feature_value(line: Seq<char>) -> Option<Seq<char>> {
    let c = index_of_char(line, ':');
    if c >= line.len() {
        None
    } else {
        let key = trim(line.take(c));
        if eq_ignore_ascii_case(key, "flags"@) || eq_ignore_ascii_case(key, "features"@) {
            Some(line.skip(c + 1))
        } else {
            None
        }
    }
}

/// The words of the first flags or features line of a `/proc/cpuinfo` text.
pub open spec fn cpuinfo_words(s: Seq<char>) -> Seq<Seq<char>>
    decreases s.len(),
{
    if s.len() == 0 {
        Seq::empty()
    } else {
        proof {
            lemma_index_of_char(s, '\n');
        }
        match feature_value(next_line(s).0) {
            Some(v) => words_of(v),
            None => cpuinfo_words(next_line(s).1),
        }
    }
}

/// Some word normalizes to `f`.
pub open spec fn declares(words: Seq<Seq<char>>, f: Seq<char>) -> bool {
    exists|w: int| 0 <= w < words.len() && normalized_feature(#[trigger] words[w]) == f
}

fn line_feature_words(line: &[char]) -> (r: Option<Vec<String>>)
    ensures
        match r {
            Some(ws) => feature_value(line@) is Some && ws@.map_values(|w: String| w@) == words_of(
                feature_value(line@)->0,
            ),
            None => feature_value(line@) is None,
        },
{
    let c = find_char(line, 0, ':');
    assert(line@.skip(0) == line@);
    proof {
        lemma_index_of_char(line@, ':');
    }
    if c >= line.len() {
        return None;
    }
    let key = trim_chars(sub_chars(line, 0, c).as_slice());
    assert(line@.subrange(0, c as int) == line@.take(c as int));
    let flags = chars_of("flags");
    let features = chars_of("features");
    if eq_ignore_ascii_case_chars(key.as_slice(), flags.as_slice()) || eq_ignore_ascii_case_chars(
        key.as_slice(),
        features.as_slice(),
    ) {
        let value = sub_chars(line, c + 1, line.len());
        assert(value@ == line@.skip(c + 1));
        Some(split_words(value.as_slice()))
    } else {
        None
    }
}

/// The CPU feature names that a `/proc/cpuinfo` text declares: the words of
/// its first `flags` or `features` line, normalized, sorted, without repeats.
pub fn cpu_features_from(cpuinfo: &str) -> (r: Vec<String>)
    ensures
        strictly_ordered(r@),
        forall|k: int| 0 <= k < r@.len() ==> declares(cpuinfo_words(cpuinfo@), #[trigger] r@[k]@),
        forall|w: int|
            0 <= w < cpuinfo_words(cpuinfo@).len() ==> listed(
                r@,
                normalized_feature(#[trigger] cpuinfo_words(cpuinfo@)[w]),
            ),
{
    let cs = chars_of(cpuinfo);
    let n = cs.len();
    let mut pos: usize = 0;
    let mut words: Vec<String> = Vec::new();
    assert(cs@.skip(0) == cs@);
    while pos < n
        invariant_except_break
            pos <= n,
            cpuinfo_words(cpuinfo@) == cpuinfo_words(cs@.skip(pos as int)),
            words@.len() == 0,
        invariant
            n == cs@.len(),
            cs@ == cpuinfo@,
        ensures
            words@.map_values(|w: String| w@) == cpuinfo_words(cpuinfo@),
        decreases n - pos,
    {
        let ghost t = cs@.skip(pos as int);
        let k = find_char(cs.as_slice(), pos, '\n');
        proof {
            lemma_index_of_char(t, '\n');
        }
        let end = if k < n && k > pos && cs[k - 1] == '\r' {
            k - 1
        } else {
            k
        };
        let line = sub_chars(cs.as_slice(), pos, end);
        let next = if k < n {
            k + 1
        } else {
            n
        };
        proof {
            if k < n {
                assert(t.take(k - pos) == cs@.subrange(pos as int, k as int));
                if k > pos && cs@[k - 1] == '\r' {
                    assert(t[k - pos - 1] == cs@[k - 1]);
                    assert(t.take(k - pos).drop_last() == line@);
                } else {
                    assert(k > pos ==> t[k - pos - 1] == cs@[k - 1]);
                }
                assert(t.skip(k - pos + 1) == cs@.skip(next as int));
            } else {
                assert(t == line@);
                assert(cs@.skip(next as int).len() == 0);
            }
            assert(next_line(t).0 == line@);
            assert(next_line(t).1 == cs@.skip(next as int));
        }
        match line_feature_words(line.as_slice()) {
            Some(ws) => {
                words = ws;
                assert(words@.map_values(|w: String| w@) == cpuinfo_words(cpuinfo@));
                break ;
            },
            None => {},
        }
        pos = next;
    }
    let ghost found = cpuinfo_words(cpuinfo@);
    assert(words@.len() == found.len());
    let mut normalized: Vec<String> = Vec::new();
    for i in 0..words.len()
        invariant
            words@.map_values(|w: String| w@) == found,
            normalized@.len() == i,
            forall|k: int| 0 <= k < i ==> #[trigger] normalized@[k]@ == normalized_feature(found[k]),
    {
        assert(words@[i as int]@ == found[i as int]);
        normalized.push(normalize_feature(words[i].as_str()));
    }
    let r = sorted_distinct(&normalized);
    proof {
        assert forall|k: int| 0 <= k < r@.len() implies declares(found, #[trigger] r@[k]@) by {
            assert(listed(normalized@, r@[k]@));
            let j = choose|j: int| 0 <= j < normalized@.len() && #[trigger] normalized@[j]@ == r@[k]@;
            assert(normalized_feature(found[j]) == r@[k]@);
        }
        assert forall|w: int| 0 <= w < found.len() implies listed(
            r@,
            normalized_feature(#[trigger] found[w]),
        ) by {
            assert(normalized@[w]@ == normalized_feature(found[w]));
            assert(listed(normalized@, normalized_feature(found[w])));
        }
    }
    r
}

} // verus!

verus! {

/// One message per required feature (normalized) that is not available.
pub open spec fn required_messages(fs: Seq<String>, available: Seq<String>) -> Seq<Seq<char>>
    decreases fs.len(),
{
    if fs.len() == 0 {
        Seq::empty()
    } else {
        let f = normalized_feature(fs.last()@);
        required_messages(fs.drop_last(), available) + if listed(available, f) {
            Seq::empty()
        } else {
            seq!["required feature "@ + f + " is absent"@]
        }
    }
}

/// One message per forbidden feature (normalized) that is available.
pub open spec fn forbidden_messages(fs: Seq<String>, available: Seq<String>) -> Seq<Seq<char>>
    decreases fs.len(),
{
    if fs.len() == 0 {
        Seq::empty()
    } else {
        let f = normalized_feature(fs.last()@);
        forbidden_messages(fs.drop_last(), available) + if listed(available, f) {
            seq!["forbidden feature "@ + f + " is present"@]
        } else {
            Seq::empty()
        }
    }
}

/// How the available CPU features fail a profile: absent required features
/// first, then present forbidden ones, each in declaration order.
pub open spec fn mismatch_messages(p: Profile, available: Seq<String>) -> Seq<Seq<char>> {
    required_messages(p.required_cpu_features@, available) + forbidden_messages(
        p.forbidden_cpu_features@,
        available,
    )
}

fn push_view(v: &mut Vec<String>, s: String)
    ensures
        final(v)@.map_values(|x: String| x@) == old(v)@.map_values(|x: String| x@).push(s@),
{
    v.push(s);
    assert(v@.map_values(|x: String| x@) =~= old(v)@.map_values(|x: String| x@).push(s@));
}

/// The ways in which the available CPU features fail the profile.
pub fn profile_mismatches(profile: &Profile, available: &Vec<String>) -> (r: Vec<String>)
    ensures
        r@.map_values(|x: String| x@) == mismatch_messages(*profile, available@),
{
    let mut r: Vec<String> = Vec::new();
    let req = &profile.required_cpu_features;
    for i in 0..req.len()
        invariant
            req == &profile.required_cpu_features,
            r@.map_values(|x: String| x@) == required_messages(req@.take(i as int), available@),
    {
        let f = normalize_feature(req[i].as_str());
        assert(req@.take(i + 1).drop_last() == req@.take(i as int));
        if !is_listed(available, f.as_str()) {
            let mut m = String::from_str("required feature ");
            m.append(f.as_str());
            m.append(" is absent");
            push_view(&mut r, m);
        }
    }
    assert(req@.take(req@.len() as int) == req@);
    let ghost head = r@.map_values(|x: String| x@);
    let forb = &profile.forbidden_cpu_features;
    for i in 0..forb.len()
        invariant
            forb == &profile.forbidden_cpu_features,
            r@.map_values(|x: String| x@) == head + forbidden_messages(forb@.take(i as int), available@),
    {
        let f = normalize_feature(forb[i].as_str());
        assert(forb@.take(i + 1).drop_last() == forb@.take(i as int));
        if is_listed(available, f.as_str()) {
            let mut m = String::from_str("forbidden feature ");
            m.append(f.as_str());
            m.append(" is present");
            push_view(&mut r, m);
        }
    }
    assert(forb@.take(forb@.len() as int) == forb@);
    r
}

/// The refusal to run a profile on a CPU that does not match it.
pub open spec fn profile_refusal(id: Seq<char>, mismatches: Seq<Seq<char>>) -> Seq<char> {
    "CPU does not match profile "@ + id + ": "@ + join_with(mismatches, "; "@)
        + " (pass --allow-profile-mismatch to record investigative evidence)"@
}

/// Checks the CPU against the profile. A mismatch stops the run unless
/// `allow_profile_mismatch`, in which case the mismatches are returned for the
/// report to carry.
pub fn check_profile(profile: &Profile, cpu_features: &Vec<String>, allow_profile_mismatch: bool) -> (r:
    Result<Vec<String>, String>)
    ensures
        ({
            let m = mismatch_messages(*profile, cpu_features@);
            match r {
                Ok(found) => (m.len() == 0 || allow_profile_mismatch) && found@.map_values(
                    |x: String| x@,
                ) == m,
                Err(e) => m.len() > 0 && !allow_profile_mismatch && e@ == profile_refusal(
                    profile.id@,
                    m,
                ),
            }
        }),
{
    let mismatches = profile_mismatches(profile, cpu_features);
    if mismatches.len() > 0 && !allow_profile_mismatch {
        let mut e = String::from_str("CPU does not match profile ");
        e.append(profile.id.as_str());
        e.append(": ");
        e.append(join_strings(&mismatches, "; ").as_str());
        e.append(" (pass --allow-profile-mismatch to record investigative evidence)");
        return Err(e);
    }
    Ok(mismatches)
}

/// The file name of the isolated database: the final component of the
/// manifest's `database`, or `workload.db` when it has none.
pub open spec fn database_file_name_of(database: Seq<char>) -> Seq<char> {
    match path_file_name(database) {
        Some(name) => if name.len() > 0 {
            name
        } else {
            "workload.db"@
        },
        None => "workload.db"@,
    }
}

pub fn database_file_name(database: &str) -> (r: String)
    ensures
        r@ == database_file_name_of(database@),
{
    match file_name_of(database) {
        Some(name) => if name.as_str().is_empty() {
            String::from_str("workload.db")
        } else {
            name
        },
        None => String::from_str("workload.db"),
    }
}

/// The refusal to measure a statement that writes.
pub open spec fn mutation_message(name: Seq<char>) -> Seq<char> {
    "query "@ + name + " mutates the database; measured queries must be read-only"@
}

/// Measured queries must be read-only; `readonly` is SQLite's classification
/// of the prepared statement.
pub fn ensure_read_only(query_name: &str, readonly: bool) -> (r: Result<(), String>)
    ensures
        match r {
            Ok(()) => readonly,
            Err(e) => !readonly && e@ == mutation_message(query_name@),
        },
{
    if !readonly {
        let mut e = String::from_str("query ");
        e.append(query_name);
        e.append(" mutates the database; measured queries must be read-only");
        return Err(e);
    }
    Ok(())
}

/// A line of an `EXPLAIN QUERY PLAN`: `id:parent detail`.
pub open spec fn plan_line_text(id: i64, parent: i64, detail: Seq<char>) -> Seq<char> {
    signed_decimal(id as int) + ":"@ + signed_decimal(parent as int) + " "@ + detail
}

pub fn plan_line(id: i64, parent: i64, detail: &str) -> (r: String)
    ensures
        r@ == plan_line_text(id, parent, detail@),
{
    let mut r = i64_decimal(id);
    r.append(":");
    r.append(i64_decimal(parent).as_str());
    r.append(" ");
    r.append(detail);
    r
}

} // verus!

verus! {

/// A value of a result row, as SQLite stores it; a REAL is held by its
/// IEEE-754 bit pattern.
#[derive(Debug, Clone)]
pub enum SqlValue {
    Null,
    Integer(i64),
    Real(u64),
    Text(Vec<u8>),
    Blob(Vec<u8>),
}

/// The eight little-endian bytes of a 64-bit word.
pub open spec fn le_bytes(v: u64) -> Seq<u8> {
    seq![
        (v % 256) as u8,
        ((v / 0x100) % 256) as u8,
        ((v / 0x10000) % 256) as u8,
        ((v / 0x1000000) % 256) as u8,
        ((v / 0x100000000) % 256) as u8,
        ((v / 0x10000000000) % 256) as u8,
        ((v / 0x1000000000000) % 256) as u8,
        ((v / 0x100000000000000) % 256) as u8,
    ]
}

/// How one value enters a result digest: a type tag, then the value; text and
/// blobs are preceded by their length.
pub open spec fn encode_value(v: SqlValue) -> Seq<u8> {
    match v {
        SqlValue::Null => seq![0u8],
        SqlValue::Integer(i) => seq![1u8] + le_bytes(i as u64),
        SqlValue::Real(bits) => seq![2u8] + le_bytes(bits),
        SqlValue::Text(b) => seq![3u8] + le_bytes(b@.len() as u64) + b@,
        SqlValue::Blob(b) => seq![4u8] + le_bytes(b@.len() as u64) + b@,
    }
}

pub open spec fn encode_row(row: Seq<SqlValue>) -> Seq<u8>
    decreases row.len(),
{
    if row.len() == 0 {
        Seq::empty()
    } else {
        encode_row(row.drop_last()) + encode_value(row.last())
    }
}

/// The bytes that a query's result digest hashes: every value of every row, in order.
pub open spec fn encode_rows(rows: Seq<Vec<SqlValue>>) -> Seq<u8>
    decreases rows.len(),
{
    if rows.len() == 0 {
        Seq::empty()
    } else {
        encode_rows(rows.drop_last()) + encode_row(rows.last()@)
    }
}

fn push_le(out: &mut Vec<u8>, v: u64)
    ensures
        final(out)@ == old(out)@ + le_bytes(v),
{
    out.push((v % 256) as u8);
    out.push(((v / 0x100) % 256) as u8);
    out.push(((v / 0x10000) % 256) as u8);
    out.push(((v / 0x1000000) % 256) as u8);
    out.push(((v / 0x100000000) % 256) as u8);
    out.push(((v / 0x10000000000) % 256) as u8);
    out.push(((v / 0x1000000000000) % 256) as u8);
    out.push(((v / 0x100000000000000) % 256) as u8);
    assert(final(out)@ =~= old(out)@ + le_bytes(v));
}

fn push_bytes(out: &mut Vec<u8>, b: &Vec<u8>)
    ensures
        final(out)@ == old(out)@ + b@,
{
    for i in 0..b.len()
        invariant
            out@ == old(out)@ + b@.take(i as int),
    {
        out.push(b[i]);
        assert(b@.take(i + 1) == b@.take(i as int).push(b@[i as int]));
        assert(out@ =~= old(out)@ + b@.take(i + 1));
    }
    assert(b@.take(b@.len() as int) == b@);
}

fn push_value(out: &mut Vec<u8>, v: &SqlValue)
    ensures
        final(out)@ == old(out)@ + encode_value(*v),
{
    match v {
        SqlValue::Null => {
            out.push(0u8);
        },
        SqlValue::Integer(i) => {
            out.push(1u8);
            push_le(out, *i as u64);
        },
        SqlValue::Real(bits) => {
            out.push(2u8);
            push_le(out, *bits);
        },
        SqlValue::Text(b) => {
            out.push(3u8);
            push_le(out, b.len() as u64);
            push_bytes(out, b);
        },
        SqlValue::Blob(b) => {
            out.push(4u8);
            push_le(out, b.len() as u64);
            push_bytes(out, b);
        },
    }
    assert(final(out)@ =~= old(out)@ + encode_value(*v));
}

/// The bytes that the result digest of these rows hashes.
pub fn encode_result(rows: &Vec<Vec<SqlValue>>) -> (r: Vec<u8>)
    ensures
        r@ == encode_rows(rows@),
{
    let mut out: Vec<u8> = Vec::new();
    for i in 0..rows.len()
        invariant
            out@ == encode_rows(rows@.take(i as int)),
    {
        let row = &rows[i];
        let ghost head = out@;
        for j in 0..row.len()
            invariant
                out@ == head + encode_row(row@.take(j as int)),
        {
            push_value(&mut out, &row[j]);
            assert(row@.take(j + 1).drop_last() == row@.take(j as int));
            assert(out@ =~= head + encode_row(row@.take(j + 1)));
        }
        assert(row@.take(row@.len() as int) == row@);
        assert(rows@.take(i + 1).drop_last() == rows@.take(i as int));
    }
    assert(rows@.take(rows@.len() as int) == rows@);
    out
}

/// The row count and result digest of a query's rows.
pub fn result_digest(rows: &Vec<Vec<SqlValue>>) -> (r: (usize, String))
    ensures
        r.0 == rows@.len(),
        r.1@ == sha256_hex(encode_rows(rows@)),
{
    let bytes = encode_result(rows);
    (rows.len(), crate::sha256_bytes(bytes.as_slice()))
}

} // verus!

verus! {

/// The next step in measuring one query.
#[derive(Debug, Clone, Copy, PartialEq, Eq, Structural)]
pub enum MeasureStep {
    /// Execute the query once, untimed.
    Warmup,
    /// Execute the query once, timed, and record the result.
    Measure,
    /// All executions are done.
    Done,
}

/// The measurement of one query in progress: warmups first, then timed
/// repetitions that must all return the same result.
pub struct Measurement {
    pub warmups: u32,
    pub repetitions: u32,
    pub warmups_done: u32,
    pub samples: Vec<u64>,
    /// The row count and digest of the first measured execution.
    pub expected: Option<(usize, String)>,
    /// The row count and digest that each measured execution returned, in order.
    pub results: Ghost<Seq<(usize, Seq<char>)>>,
}

/// Every measured execution returned the expected row count and digest.
pub open spec fn all_agree(results: Seq<(usize, Seq<char>)>, row_count: usize, digest: Seq<char>) -> bool {
    forall|j: int| 0 <= j < results.len() ==> #[trigger] results[j] == (row_count, digest)
}

/// A timed execution as a sample: its microseconds, raised to one, then cut
/// to 64 bits as `as u64` does.
pub open spec fn sample_of(elapsed_micros: u128) -> u64 {
    (if elapsed_micros < 1 {
        1
    } else {
        elapsed_micros
    }) as u64
}

/// The expected result is this row count and digest.
pub open spec fn expects(e: Option<(usize, String)>, row_count: usize, digest: Seq<char>) -> bool {
    match e {
        Some(x) => x.0 == row_count && x.1@ == digest,
        None => false,
    }
}

pub open spec fn inconsistency_message(name: Seq<char>) -> Seq<char> {
    "query "@ + name + " returned inconsistent results between repetitions"@
}

pub open spec fn no_measurement_message(name: Seq<char>) -> Seq<char> {
    "query "@ + name + " produced no measurement"@
}

impl Measurement {
    /// The measurement's bookkeeping is consistent.
    pub open spec fn wf(&self) -> bool {
        &&& self.warmups_done <= self.warmups
        &&& self.samples@.len() <= self.repetitions
        &&& self.samples@.len() > 0 ==> self.warmups_done == self.warmups
        &&& (self.samples@.len() > 0) == (self.expected is Some)
        &&& self.results@.len() == self.samples@.len()
        &&& match self.expected {
            Some(e) => all_agree(self.results@, e.0, e.1@),
            None => true,
        }
    }

    pub open spec fn step(&self) -> MeasureStep {
        if self.warmups_done < self.warmups {
            MeasureStep::Warmup
        } else if self.samples@.len() < self.repetitions {
            MeasureStep::Measure
        } else {
            MeasureStep::Done
        }
    }

    /// Executions still to come.
    pub open spec fn remaining(&self) -> nat {
        ((self.warmups - self.warmups_done) + (self.repetitions - self.samples@.len())) as nat
    }

    pub fn new(warmups: u32, repetitions: u32) -> (m: Measurement)
        ensures
            m.wf(),
            m.warmups == warmups,
            m.repetitions == repetitions,
            m.warmups_done == 0,
            m.samples@.len() == 0,
    {
        Measurement {
            warmups,
            repetitions,
            warmups_done: 0,
            samples: Vec::new(),
            expected: None,
            results: Ghost(Seq::empty()),
        }
    }

    /// What to do next.
    pub fn next_step(&self) -> (s: MeasureStep)
        ensures
            s == self.step(),
    {
        if self.warmups_done < self.warmups {
            MeasureStep::Warmup
        } else if (self.samples.len() as u64) < (self.repetitions as u64) {
            MeasureStep::Measure
        } else {
            MeasureStep::Done
        }
    }

    /// Records a warmup execution.
    pub fn record_warmup(&mut self)
        requires
            old(self).wf(),
            old(self).step() == MeasureStep::Warmup,
        ensures
            final(self).wf(),
            final(self).warmups_done == old(self).warmups_done + 1,
            final(self).warmups == old(self).warmups,
            final(self).repetitions == old(self).repetitions,
            final(self).samples@ == old(self).samples@,
            final(self).expected == old(self).expected,
            final(self).results@ == old(self).results@,
            final(self).remaining() < old(self).remaining(),
    {
        self.warmups_done = self.warmups_done + 1;
    }

    /// Records a timed execution that returned `row_count` rows with the given
    /// digest and took `elapsed_micros`. A result that differs from the first
    /// measured one is refused.
    pub fn record_sample(&mut self, query_name: &str, row_count: usize, digest: String, elapsed_micros: u128) -> (r:
        Result<(), String>)
        requires
            old(self).wf(),
            old(self).step() == MeasureStep::Measure,
        ensures
            final(self).wf(),
            final(self).warmups == old(self).warmups,
            final(self).repetitions == old(self).repetitions,
            final(self).warmups_done == old(self).warmups_done,
            ({
                let consistent = match old(self).expected {
                    None => true,
                    Some(e) => e.0 == row_count && e.1@ == digest@,
                };
                match r {
                    Ok(()) => consistent && final(self).samples@ == old(self).samples@.push(
                        sample_of(elapsed_micros),
                    ) && final(self).results@ == old(self).results@.push((row_count, digest@)) && (old(self).expected is None ==> expects(final(self).expected, row_count, digest@)) && (old(self).expected is Some
                        ==> final(self).expected == old(self).expected),
                    Err(e) => !consistent && e@ == inconsistency_message(query_name@)
                        && final(self).samples@ == old(self).samples@ && final(self).expected
                        == old(self).expected && final(self).results@ == old(self).results@,
                }
            }),
            final(self).remaining() <= old(self).remaining(),
            r is Ok ==> final(self).remaining() < old(self).remaining(),
    {
        let sample: u64 = (if elapsed_micros < 1 {
            1
        } else {
            elapsed_micros
        }) as u64;
        let ghost entry = (row_count, digest@);
        match &self.expected {
            Some(e) => {
                if !(e.0 == row_count && str_eq(e.1.as_str(), digest.as_str())) {
                    let mut m = String::from_str("query ");
                    m.append(query_name);
                    m.append(" returned inconsistent results between repetitions");
                    return Err(m);
                }
            },
            None => {
                self.expected = Some((row_count, digest));
            },
        }
        self.samples.push(sample);
        self.results = Ghost(self.results@.push(entry));
        Ok(())
    }

    /// The sum of the recorded samples fits in 64 bits.
    pub fn total_fits(&self) -> (b: bool)
        ensures
            b == (sum_of(self.samples@) <= u64::MAX),
    {
        let mut total: u128 = 0;
        let mut i: usize = 0;
        while i < self.samples.len()
            invariant
                i <= self.samples@.len(),
                total == sum_of(self.samples@.take(i as int)),
                total <= u64::MAX,
            decreases self.samples@.len() - i,
        {
            assert(self.samples@.take(i + 1).drop_last() == self.samples@.take(i as int));
            total = total + self.samples[i] as u128;
            if total > 0xffff_ffff_ffff_ffff {
                proof {
                    lemma_sum_prefix_le(self.samples@, i + 1);
                }
                return false;
            }
            i = i + 1;
        }
        assert(self.samples@.take(self.samples@.len() as int) == self.samples@);
        total <= 0xffff_ffff_ffff_ffff
    }

    /// The evidence of a finished measurement: the first measured result and
    /// the summary of all timed executions.
    pub fn finish(self, name: String, sql: String, plan: Vec<String>) -> (r: Result<QueryEvidence, String>)
        requires
            self.wf(),
            self.step() == MeasureStep::Done,
            sum_of(self.samples@) <= u64::MAX,
        ensures
            match r {
                Ok(q) => self.repetitions > 0 && self.expected is Some && q.name == name && q.sql
                    == sql && q.plan == plan && expects(self.expected, q.row_count, q.result_digest@)
                    && summarizes(q.timing_us, self.samples@)
                    && q.timing_us.samples@.len() == self.repetitions
                    && self.results@.len() == self.repetitions
                    && all_agree(self.results@, q.row_count, q.result_digest@),
                Err(e) => self.repetitions == 0 && e@ == no_measurement_message(name@),
            },
    {
        match self.expected {
            Some(e) => {
                let timing = summarize(self.samples);
                Ok(
                    QueryEvidence {
                        name,
                        sql,
                        plan,
                        row_count: e.0,
                        result_digest: e.1,
                        timing_us: timing,
                    },
                )
            },
            None => {
                let mut m = String::from_str("query ");
                m.append(name.as_str());
                m.append(" produced no measurement");
                Err(m)
            },
        }
    }
}

} // verus!

verus! {

/// The clock that measured the timings.
pub open spec fn clock_description() -> Seq<char> {
    "monotonic std::time::Instant; microsecond samples"@
}

/// What the timings may be used to claim.
pub open spec fn statistical_claim() -> Seq<char> {
    "Descriptive timings only. Repeated runs reduce noise but do not establish statistical significance."@
}

/// What the run of one profile reports, given what it measured.
pub open spec fn reports(
    r: Report,
    m: Manifest,
    p: Profile,
    manifest_bytes: Seq<u8>,
    architecture: Seq<char>,
    operating_system: Seq<char>,
    cpu_features: Seq<String>,
    mismatches: Seq<String>,
    sqlite: SqliteEvidence,
    pragmas: Seq<PragmaEvidence>,
    queries: Seq<QueryEvidence>,
) -> bool {
    &&& r.schema_version == 1
    &&& r.tool_version@ == "0.1.0"@
    &&& r.workload.name@ == m.lab.name@
    &&& r.workload.manifest_sha256@ == sha256_hex(manifest_bytes)
    &&& r.workload.fixture_path@ == m.lab.fixture@
    &&& r.workload.fixture_sha256@ == lower_seq(m.lab.fixture_sha256@)
    &&& r.environment.profile@ == p.id@
    &&& r.environment.evidence_kind == p.environment
    &&& r.environment.architecture@ == architecture
    &&& r.environment.operating_system@ == operating_system
    &&& r.environment.cpu_features@ == cpu_features
    &&& r.environment.profile_match == (mismatches.len() == 0)
    &&& r.environment.mismatches@ == mismatches
    &&& r.sqlite == sqlite
    &&& r.pragmas@ == pragmas
    &&& r.queries@ == queries
    &&& r.methodology.warmups == m.lab.warmups
    &&& r.methodology.repetitions == m.lab.repetitions
    &&& r.methodology.clock@ == clock_description()
    &&& r.methodology.statistical_claim@ == statistical_claim()
}

/// Puts a run's evidence together into its report. The evidence kind is the
/// profile's declared environment, whatever the CPU; a mismatch is carried
/// in the report.
pub fn assemble_report(
    manifest: &Manifest,
    profile: &Profile,
    manifest_bytes: &[u8],
    architecture: String,
    operating_system: String,
    cpu_features: Vec<String>,
    mismatches: Vec<String>,
    sqlite: SqliteEvidence,
    pragmas: Vec<PragmaEvidence>,
    queries: Vec<QueryEvidence>,
) -> (r: Report)
    ensures
        reports(
            r,
            *manifest,
            *profile,
            manifest_bytes@,
            architecture@,
            operating_system@,
            cpu_features@,
            mismatches@,
            sqlite,
            pragmas@,
            queries@,
        ),
{
    let profile_match = mismatches.len() == 0;
    Report {
        schema_version: 1,
        tool_version: String::from_str(crate::VERSION),
        workload: WorkloadEvidence {
            name: manifest.lab.name.clone(),
            manifest_sha256: crate::sha256_bytes(manifest_bytes),
            fixture_path: manifest.lab.fixture.clone(),
            fixture_sha256: to_ascii_lowercase_str(manifest.lab.fixture_sha256.as_str()),
        },
        environment: EnvironmentEvidence {
            profile: profile.id.clone(),
            evidence_kind: profile.environment,
            architecture,
            operating_system,
            cpu_features,
            profile_match,
            mismatches,
        },
        sqlite,
        pragmas,
        queries,
        methodology: Methodology {
            warmups: manifest.lab.warmups,
            repetitions: manifest.lab.repetitions,
            clock: String::from_str("monotonic std::time::Instant; microsecond samples"),
            statistical_claim: String::from_str(
                "Descriptive timings only. Repeated runs reduce noise but do not establish statistical significance.",
            ),
        },
    }
}

/// The evidence of one applied PRAGMA.
pub fn pragma_evidence(pragma: &Pragma, observed: String) -> (r: PragmaEvidence)
    ensures
        r.name@ == pragma.name@,
        r.requested@ == pragma.value@,
        r.observed == observed,
{
    PragmaEvidence { name: pragma.name.clone(), requested: pragma.value.clone(), observed }
}

} // verus!

verus! {

proof fn lemma_sum_remove(s: Seq<u64>, i: int)
    requires
        0 <= i < s.len(),
    ensures
        sum_of(s) == sum_of(s.remove(i)) + s[i],
    decreases s.len(),
{
    if i == s.len() - 1 {
        assert(s.remove(i) == s.drop_last());
    } else {
        lemma_sum_remove(s.drop_last(), i);
        assert(s.remove(i).drop_last() == s.drop_last().remove(i));
        assert(s.remove(i).last() == s.last());
    }
}

/// The sum of samples does not depend on their order.
proof fn lemma_sum_permutation(s: Seq<u64>, t: Seq<u64>)
    requires
        s.to_multiset() == t.to_multiset(),
    ensures
        sum_of(s) == sum_of(t),
    decreases s.len(),
{
    broadcast use vstd::multiset::group_multiset_axioms;

    if s.len() == 0 {
        assert(t.len() == 0) by {
            assert(t.to_multiset().len() == 0);
        }
    } else {
        let x = s.last();
        assert(s.to_multiset().count(x) > 0) by {
            assert(s.contains(x)) by {
                assert(s[s.len() - 1] == x);
            }
        }
        assert(t.contains(x));
        let i = choose|i: int| 0 <= i < t.len() && t[i] == x;
        let u = t.remove(i);
        assert(s.remove(s.len() - 1) == s.drop_last());
        assert(u.to_multiset() == s.drop_last().to_multiset());
        lemma_sum_permutation(s.drop_last(), u);
        lemma_sum_remove(t, i);
    }
}

/// Two sorted sequences with the same elements are the same sequence.
proof fn lemma_sorted_unique(s: Seq<u64>, t: Seq<u64>)
    requires
        is_sorted(s),
        is_sorted(t),
        s.to_multiset() == t.to_multiset(),
    ensures
        s == t,
    decreases s.len(),
{
    broadcast use vstd::multiset::group_multiset_axioms;

    assert(s.len() == t.len()) by {
        s.to_multiset_ensures();
        t.to_multiset_ensures();
    }
    if s.len() == 0 {
        assert(s =~= t);
    } else {
        let n = s.len();
        let x = s.last();
        let y = t.last();
        assert(s.contains(x)) by {
            assert(s[n - 1] == x);
        }
        assert(t.contains(y)) by {
            assert(t[n - 1] == y);
        }
        assert(t.to_multiset().count(x) > 0);
        assert(s.to_multiset().count(y) > 0);
        assert(t.contains(x));
        assert(s.contains(y));
        let i = choose|i: int| 0 <= i < t.len() && t[i] == x;
        let j = choose|j: int| 0 <= j < s.len() && s[j] == y;
        assert(x <= y);
        assert(y <= x);
        assert(s.remove(n - 1) == s.drop_last());
        assert(t.remove(n - 1) == t.drop_last());
        assert(s.drop_last().to_multiset() == t.drop_last().to_multiset());
        lemma_sorted_unique(s.drop_last(), t.drop_last());
        assert(s =~= t.drop_last().push(y));
        assert(t =~= t.drop_last().push(y));
    }
}

proof fn lemma_sum_bounds(s: Seq<u64>, lo: int, hi: int)
    requires
        forall|i: int| 0 <= i < s.len() ==> lo <= #[trigger] s[i] <= hi,
    ensures
        s.len() * lo <= sum_of(s) <= s.len() * hi,
    decreases s.len(),
{
    if s.len() > 0 {
        lemma_sum_bounds(s.drop_last(), lo, hi);
        let n = s.len() as int;
        assert(s.last() == s[n - 1]);
        assert((n - 1) * lo + lo == n * lo) by (nonlinear_arith);
        assert((n - 1) * hi + hi == n * hi) by (nonlinear_arith);
    }
}

/// A timing summary is ordered: the minimum is at most the median, the median
/// at most the 95th percentile, that at most the maximum, and the mean lies
/// between the minimum and the maximum.
pub proof fn lemma_summary_ordered(t: Timing, samples: Seq<u64>)
    requires
        samples.len() > 0,
        summarizes(t, samples),
    ensures
        t.min <= t.median <= t.p95 <= t.max,
        t.min <= t.mean <= t.max,
{
    let s = t.samples@;
    let n = samples.len() as int;
    assert(0 <= n / 2 <= p95_index(n as nat) <= n - 1);
    assert(s[0] <= s[n / 2]);
    assert(s[n / 2] <= s[p95_index(n as nat)]);
    assert(s[p95_index(n as nat)] <= s[n - 1]);
    lemma_sum_permutation(samples, s);
    lemma_sum_bounds(s, t.min as int, t.max as int);
    let total = sum_of(samples);
    let lo = t.min as int;
    let hi = t.max as int;
    assert(lo <= total / n <= hi) by (nonlinear_arith)
        requires
            n > 0,
            n * lo <= total,
            total <= n * hi,
    ;
}

/// The summary of timing samples does not depend on the order in which
/// they were taken.
pub proof fn lemma_summary_order_independent(
    t1: Timing,
    s1: Seq<u64>,
    t2: Timing,
    s2: Seq<u64>,
)
    requires
        summarizes(t1, s1),
        summarizes(t2, s2),
        s1.to_multiset() == s2.to_multiset(),
    ensures
        t1.samples@ == t2.samples@,
        t1.min == t2.min,
        t1.median == t2.median,
        t1.mean == t2.mean,
        t1.p95 == t2.p95,
        t1.max == t2.max,
{
    broadcast use vstd::multiset::group_multiset_axioms;

    assert(s1.len() == s2.len()) by {
        s1.to_multiset_ensures();
        s2.to_multiset_ensures();
    }
    lemma_sorted_unique(t1.samples@, t2.samples@);
    lemma_sum_permutation(s1, s2);
}

} // verus!

verus! {

proof fn lemma_required_messages_empty(fs: Seq<String>, available: Seq<String>)
    ensures
        required_messages(fs, available).len() == 0 <==> forall|i: int|
            0 <= i < fs.len() ==> listed(available, normalized_feature(#[trigger] fs[i]@)),
    decreases fs.len(),
{
    if fs.len() > 0 {
        lemma_required_messages_empty(fs.drop_last(), available);
        let n = fs.len() - 1;
        assert(fs.last() == fs[n]);
        if forall|i: int| 0 <= i < fs.len() ==> listed(available, normalized_feature(#[trigger] fs[i]@)) {
            assert forall|i: int| 0 <= i < fs.drop_last().len() implies listed(
                available,
                normalized_feature(#[trigger] fs.drop_last()[i]@),
            ) by {
                assert(fs.drop_last()[i] == fs[i]);
            }
        }
        if required_messages(fs, available).len() == 0 {
            assert forall|i: int| 0 <= i < fs.len() implies listed(
                available,
                normalized_feature(#[trigger] fs[i]@),
            ) by {
                if i < n {
                    assert(fs.drop_last()[i] == fs[i]);
                }
            }
        }
    }
}

proof fn lemma_forbidden_messages_empty(fs: Seq<String>, available: Seq<String>)
    ensures
        forbidden_messages(fs, available).len() == 0 <==> forall|i: int|
            0 <= i < fs.len() ==> !listed(available, normalized_feature(#[trigger] fs[i]@)),
    decreases fs.len(),
{
    if fs.len() > 0 {
        lemma_forbidden_messages_empty(fs.drop_last(), available);
        let n = fs.len() - 1;
        assert(fs.last() == fs[n]);
        if forall|i: int| 0 <= i < fs.len() ==> !listed(available, normalized_feature(#[trigger] fs[i]@)) {
            assert forall|i: int| 0 <= i < fs.drop_last().len() implies !listed(
                available,
                normalized_feature(#[trigger] fs.drop_last()[i]@),
            ) by {
                assert(fs.drop_last()[i] == fs[i]);
            }
        }
        if forbidden_messages(fs, available).len() == 0 {
            assert forall|i: int| 0 <= i < fs.len() implies !listed(
                available,
                normalized_feature(#[trigger] fs[i]@),
            ) by {
                if i < n {
                    assert(fs.drop_last()[i] == fs[i]);
                }
            }
        }
    }
}

/// A CPU matches a profile exactly when every required feature is available
/// and no forbidden feature is, each compared in normalized form.
pub proof fn lemma_profile_match(p: Profile, available: Seq<String>)
    ensures
        mismatch_messages(p, available).len() == 0 <==> (forall|i: int|
            0 <= i < p.required_cpu_features@.len() ==> listed(
                available,
                normalized_feature(#[trigger] p.required_cpu_features@[i]@),
            )) && (forall|i: int|
            0 <= i < p.forbidden_cpu_features@.len() ==> !listed(
                available,
                normalized_feature(#[trigger] p.forbidden_cpu_features@[i]@),
            )),
{
    lemma_required_messages_empty(p.required_cpu_features@, available);
    lemma_forbidden_messages_empty(p.forbidden_cpu_features@, available);
}

} // verus!

verus! {

/// Two row values are the same: same storage class, same value.
pub open spec fn same_value(a: SqlValue, b: SqlValue) -> bool {
    match (a, b) {
        (SqlValue::Null, SqlValue::Null) => true,
        (SqlValue::Integer(x), SqlValue::Integer(y)) => x == y,
        (SqlValue::Real(x), SqlValue::Real(y)) => x == y,
        (SqlValue::Text(x), SqlValue::Text(y)) => x@ == y@,
        (SqlValue::Blob(x), SqlValue::Blob(y)) => x@ == y@,
        _ => false,
    }
}

proof fn lemma_le_bytes_injective(x: u64, y: u64)
    requires
        le_bytes(x) == le_bytes(y),
    ensures
        x == y,
{
    assert(le_bytes(x)[0] == le_bytes(y)[0]);
    assert(le_bytes(x)[1] == le_bytes(y)[1]);
    assert(le_bytes(x)[2] == le_bytes(y)[2]);
    assert(le_bytes(x)[3] == le_bytes(y)[3]);
    assert(le_bytes(x)[4] == le_bytes(y)[4]);
    assert(le_bytes(x)[5] == le_bytes(y)[5]);
    assert(le_bytes(x)[6] == le_bytes(y)[6]);
    assert(le_bytes(x)[7] == le_bytes(y)[7]);
    assert(x == y) by (bit_vector)
        requires
            x % 256 == y % 256,
            (x / 0x100) % 256 == (y / 0x100) % 256,
            (x / 0x10000) % 256 == (y / 0x10000) % 256,
            (x / 0x1000000) % 256 == (y / 0x1000000) % 256,
            (x / 0x100000000) % 256 == (y / 0x100000000) % 256,
            (x / 0x10000000000) % 256 == (y / 0x10000000000) % 256,
            (x / 0x1000000000000) % 256 == (y / 0x1000000000000) % 256,
            (x / 0x100000000000000) % 256 == (y / 0x100000000000000) % 256,
    ;
}

proof fn lemma_i64_bits_injective(x: i64, y: i64)
    requires
        x as u64 == y as u64,
    ensures
        x == y,
{
    assert(x == y) by (bit_vector)
        requires
            x as u64 == y as u64,
    ;
}

proof fn lemma_decode_bytes(tag: u8, x: Seq<u8>, y: Seq<u8>, r1: Seq<u8>, r2: Seq<u8>)
    requires
        x.len() <= u64::MAX,
        y.len() <= u64::MAX,
        seq![tag] + le_bytes(x.len() as u64) + x + r1 == seq![tag] + le_bytes(y.len() as u64) + y
            + r2,
    ensures
        x == y,
        r1 == r2,
{
    let s = seq![tag] + le_bytes(x.len() as u64) + x + r1;
    let t = seq![tag] + le_bytes(y.len() as u64) + y + r2;
    assert(s.subrange(1, 9) =~= le_bytes(x.len() as u64));
    assert(t.subrange(1, 9) =~= le_bytes(y.len() as u64));
    lemma_le_bytes_injective(x.len() as u64, y.len() as u64);
    let n = x.len() as int;
    assert(y.len() == n);
    assert(s.subrange(9, 9 + n) =~= x);
    assert(t.subrange(9, 9 + n) =~= y);
    assert(r1 =~= s.skip(9 + n));
    assert(r2 =~= t.skip(9 + n));
}

proof fn lemma_decode_word(tag: u8, x: u64, y: u64, r1: Seq<u8>, r2: Seq<u8>)
    requires
        seq![tag] + le_bytes(x) + r1 == seq![tag] + le_bytes(y) + r2,
    ensures
        x == y,
        r1 == r2,
{
    let s = seq![tag] + le_bytes(x) + r1;
    let t = seq![tag] + le_bytes(y) + r2;
    assert(s.subrange(1, 9) =~= le_bytes(x));
    assert(t.subrange(1, 9) =~= le_bytes(y));
    lemma_le_bytes_injective(x, y);
    assert(r1 =~= s.skip(9));
    assert(r2 =~= t.skip(9));
}

/// The encoding of a value followed by anything else starts with the value's
/// encoding alone: a value can be read back from the front.
proof fn lemma_decode_value(a: SqlValue, b: SqlValue, r1: Seq<u8>, r2: Seq<u8>)
    requires
        encode_value(a) + r1 == encode_value(b) + r2,
    ensures
        same_value(a, b),
        r1 == r2,
{
    let s = encode_value(a) + r1;
    let t = encode_value(b) + r2;
    assert(s[0] == t[0]);
    match (a, b) {
        (SqlValue::Null, SqlValue::Null) => {
            assert(r1 =~= s.skip(1));
            assert(r2 =~= t.skip(1));
        },
        (SqlValue::Integer(x), SqlValue::Integer(y)) => {
            lemma_decode_word(1, x as u64, y as u64, r1, r2);
            lemma_i64_bits_injective(x, y);
        },
        (SqlValue::Real(x), SqlValue::Real(y)) => {
            lemma_decode_word(2, x, y, r1, r2);
        },
        (SqlValue::Text(x), SqlValue::Text(y)) => {
            assert(x.len() == x@.len() && y.len() == y@.len());
            lemma_decode_bytes(3, x@, y@, r1, r2);
        },
        (SqlValue::Blob(x), SqlValue::Blob(y)) => {
            assert(x.len() == x@.len() && y.len() == y@.len());
            lemma_decode_bytes(4, x@, y@, r1, r2);
        },
        _ => {},
    }
}

proof fn lemma_encode_row_front(row: Seq<SqlValue>)
    requires
        row.len() > 0,
    ensures
        encode_row(row) == encode_value(row[0]) + encode_row(row.drop_first()),
    decreases row.len(),
{
    if row.len() == 1 {
        assert(row.drop_last() =~= Seq::<SqlValue>::empty());
        assert(row.drop_first() =~= Seq::<SqlValue>::empty());
        assert(encode_row(row) =~= encode_value(row[0]) + encode_row(row.drop_first()));
    } else {
        lemma_encode_row_front(row.drop_last());
        assert(row.drop_last().drop_first() =~= row.drop_first().drop_last());
        assert(row.drop_first().last() == row.last());
        assert(encode_row(row) =~= encode_value(row[0]) + encode_row(row.drop_first()));
    }
}

proof fn lemma_encode_rows_front(rows: Seq<Vec<SqlValue>>)
    requires
        rows.len() > 0,
    ensures
        encode_rows(rows) == encode_row(rows[0]@) + encode_rows(rows.drop_first()),
    decreases rows.len(),
{
    if rows.len() == 1 {
        assert(rows.drop_last() =~= Seq::<Vec<SqlValue>>::empty());
        assert(rows.drop_first() =~= Seq::<Vec<SqlValue>>::empty());
        assert(encode_rows(rows) =~= encode_row(rows[0]@) + encode_rows(rows.drop_first()));
    } else {
        lemma_encode_rows_front(rows.drop_last());
        assert(rows.drop_last().drop_first() =~= rows.drop_first().drop_last());
        assert(rows.drop_first().last() == rows.last());
        assert(encode_rows(rows) =~= encode_row(rows[0]@) + encode_rows(rows.drop_first()));
    }
}

proof fn lemma_decode_row(a: Seq<SqlValue>, b: Seq<SqlValue>, r1: Seq<u8>, r2: Seq<u8>)
    requires
        a.len() == b.len(),
        encode_row(a) + r1 == encode_row(b) + r2,
    ensures
        forall|j: int| 0 <= j < a.len() ==> same_value(#[trigger] a[j], b[j]),
        r1 == r2,
    decreases a.len(),
{
    if a.len() == 0 {
        assert(encode_row(a) + r1 =~= r1);
        assert(encode_row(b) + r2 =~= r2);
    } else {
        lemma_encode_row_front(a);
        lemma_encode_row_front(b);
        let ra = encode_row(a.drop_first()) + r1;
        let rb = encode_row(b.drop_first()) + r2;
        assert(encode_row(a) + r1 =~= encode_value(a[0]) + ra);
        assert(encode_row(b) + r2 =~= encode_value(b[0]) + rb);
        lemma_decode_value(a[0], b[0], ra, rb);
        lemma_decode_row(a.drop_first(), b.drop_first(), r1, r2);
        assert forall|j: int| 0 <= j < a.len() implies same_value(#[trigger] a[j], b[j]) by {
            if j > 0 {
                assert(a.drop_first()[j - 1] == a[j]);
                assert(b.drop_first()[j - 1] == b[j]);
            }
        }
    }
}

proof fn lemma_decode_rows(
    a: Seq<Vec<SqlValue>>,
    b: Seq<Vec<SqlValue>>,
    width: nat,
    r1: Seq<u8>,
    r2: Seq<u8>,
)
    requires
        a.len() == b.len(),
        forall|i: int| 0 <= i < a.len() ==> (#[trigger] a[i])@.len() == width,
        forall|i: int| 0 <= i < b.len() ==> (#[trigger] b[i])@.len() == width,
        encode_rows(a) + r1 == encode_rows(b) + r2,
    ensures
        forall|i: int, j: int|
            0 <= i < a.len() && 0 <= j < width ==> same_value(#[trigger] a[i]@[j], b[i]@[j]),
        r1 == r2,
    decreases a.len(),
{
    if a.len() == 0 {
        assert(encode_rows(a) + r1 =~= r1);
        assert(encode_rows(b) + r2 =~= r2);
    } else {
        lemma_encode_rows_front(a);
        lemma_encode_rows_front(b);
        let ra = encode_rows(a.drop_first()) + r1;
        let rb = encode_rows(b.drop_first()) + r2;
        assert(encode_rows(a) + r1 =~= encode_row(a[0]@) + ra);
        assert(encode_rows(b) + r2 =~= encode_row(b[0]@) + rb);
        lemma_decode_row(a[0]@, b[0]@, ra, rb);
        assert forall|i: int| 0 <= i < a.drop_first().len() implies (#[trigger] a.drop_first()[i])@.len()
            == width by {
            assert(a.drop_first()[i] == a[i + 1]);
        }
        assert forall|i: int| 0 <= i < b.drop_first().len() implies (#[trigger] b.drop_first()[i])@.len()
            == width by {
            assert(b.drop_first()[i] == b[i + 1]);
        }
        lemma_decode_rows(a.drop_first(), b.drop_first(), width, r1, r2);
        assert forall|i: int, j: int| 0 <= i < a.len() && 0 <= j < width implies same_value(
            #[trigger] a[i]@[j],
            b[i]@[j],
        ) by {
            if i > 0 {
                assert(a.drop_first()[i - 1] == a[i]);
                assert(b.drop_first()[i - 1] == b[i]);
            }
        }
    }
}

/// What a result digest hashes determines the result: two results of one
/// statement (rows of the same width) with the same row count and the same
/// encoding hold the same values, of the same storage classes, in the same places.
pub proof fn lemma_result_encoding_faithful(a: Seq<Vec<SqlValue>>, b: Seq<Vec<SqlValue>>, width: nat)
    requires
        a.len() == b.len(),
        forall|i: int| 0 <= i < a.len() ==> (#[trigger] a[i])@.len() == width,
        forall|i: int| 0 <= i < b.len() ==> (#[trigger] b[i])@.len() == width,
        encode_rows(a) == encode_rows(b),
    ensures
        forall|i: int, j: int|
            0 <= i < a.len() && 0 <= j < width ==> same_value(#[trigger] a[i]@[j], b[i]@[j]),
{
    assert(encode_rows(a) + Seq::<u8>::empty() =~= encode_rows(a));
    assert(encode_rows(b) + Seq::<u8>::empty() =~= encode_rows(b));
    lemma_decode_rows(a, b, width, Seq::empty(), Seq::empty());
}

} // verus!

verus! {

/// The first query that SQLite classifies as writing, if any: `readonly[i]`
/// is the classification of the query named `names[i]`.
pub open spec fn first_writer(readonly: Seq<bool>, n: int) -> int
    decreases n,
{
    if n <= 0 {
        -1
    } else if first_writer(readonly, n - 1) >= 0 {
        first_writer(readonly, n - 1)
    } else if !readonly[n - 1] {
        n - 1
    } else {
        -1
    }
}

proof fn lemma_first_writer(readonly: Seq<bool>, n: int)
    requires
        0 <= n <= readonly.len(),
    ensures
        -1 <= first_writer(readonly, n) < n,
        first_writer(readonly, n) == -1 <==> forall|k: int| 0 <= k < n ==> #[trigger] readonly[k],
        first_writer(readonly, n) >= 0 ==> !readonly[first_writer(readonly, n)] && forall|k: int|
            0 <= k < first_writer(readonly, n) ==> #[trigger] readonly[k],
    decreases n,
{
    if n > 0 {
        lemma_first_writer(readonly, n - 1);
    }
}

/// Refuses the first of the queries that writes, in order; `readonly[i]` is
/// SQLite's classification of the query named `names[i]`.
pub fn first_mutating(names: &Vec<String>, readonly: &Vec<bool>) -> (r: Result<(), String>)
    requires
        names@.len() == readonly@.len(),
    ensures
        ({
            let w = first_writer(readonly@, readonly@.len() as int);
            match r {
                Ok(()) => w == -1 && forall|k: int| 0 <= k < readonly@.len() ==> #[trigger] readonly@[k],
                Err(e) => 0 <= w < readonly@.len() && !readonly@[w] && (forall|k: int|
                    0 <= k < w ==> #[trigger] readonly@[k]) && e@ == mutation_message(names@[w]@),
            }
        }),
{
    proof {
        lemma_first_writer(readonly@, readonly@.len() as int);
    }
    let mut i: usize = 0;
    while i < readonly.len()
        invariant
            i <= readonly@.len(),
            names@.len() == readonly@.len(),
            forall|k: int| 0 <= k < i ==> #[trigger] readonly@[k],
        decreases readonly@.len() - i,
    {
        if !readonly[i] {
            proof {
                lemma_first_writer(readonly@, i as int);
                lemma_first_writer(readonly@, i + 1);
                lemma_first_writer_stable(readonly@, i + 1, readonly@.len() as int);
            }
            return ensure_read_only(names[i].as_str(), false);
        }
        i = i + 1;
    }
    Ok(())
}

proof fn lemma_first_writer_stable(readonly: Seq<bool>, n: int, m: int)
    requires
        0 <= n <= m <= readonly.len(),
        first_writer(readonly, n) >= 0,
    ensures
        first_writer(readonly, m) == first_writer(readonly, n),
    decreases m,
{
    if m > n {
        lemma_first_writer_stable(readonly, n, m - 1);
    }
}

/// The evidence of a manifest's PRAGMA: its name and requested value.
pub open spec fn pragma_follows(e: PragmaEvidence, p: Pragma) -> bool {
    e.name@ == p.name@ && e.requested@ == p.value@
}

/// The evidence of a manifest's query: name and SQL copied, no plan unless
/// the query captures one, one sample per repetition, summarized.
pub open spec fn query_follows(e: QueryEvidence, q: Query, repetitions: u32) -> bool {
    &&& e.name@ == q.name@
    &&& e.sql@ == q.sql@
    &&& !q.capture_plan ==> e.plan@.len() == 0
    &&& e.timing_us.samples@.len() == repetitions
    &&& summarizes(e.timing_us, e.timing_us.samples@)
}

/// A run's PRAGMA and query evidence follow the manifest, entry for entry, in order.
pub open spec fn follows_manifest(
    pragmas: Seq<PragmaEvidence>,
    queries: Seq<QueryEvidence>,
    m: Manifest,
) -> bool {
    &&& pragmas.len() == m.pragmas@.len()
    &&& forall|i: int| 0 <= i < pragmas.len() ==> pragma_follows(#[trigger] pragmas[i], m.pragmas@[i])
    &&& queries.len() == m.queries@.len()
    &&& forall|i: int|
        0 <= i < queries.len() ==> query_follows(#[trigger] queries[i], m.queries@[i], m.lab.repetitions)
}

/// A summary also summarizes its own sorted samples.
proof fn lemma_summary_of_own_samples(t: Timing, samples: Seq<u64>)
    requires
        summarizes(t, samples),
    ensures
        summarizes(t, t.samples@),
{
    lemma_sum_permutation(samples, t.samples@);
}

/// The evidence of one run, gathered in manifest order: first the applied
/// PRAGMAs, then the measured queries.
pub struct RunEvidence {
    /// The CPU features of the machine the run measures on.
    pub cpu_features: Vec<String>,
    /// How those features fail the profile; empty when they match.
    pub mismatches: Vec<String>,
    /// Whether a mismatch was allowed when the run started.
    pub allowed: Ghost<bool>,
    pub pragmas: Vec<PragmaEvidence>,
    pub queries: Vec<QueryEvidence>,
    /// For each recorded query, the row count and digest that each of its
    /// measured executions returned.
    pub results: Ghost<Seq<Seq<(usize, Seq<char>)>>>,
}

/// Each measured execution of the query returned the result its evidence records.
pub open spec fn repetitions_agree(e: QueryEvidence, results: Seq<(usize, Seq<char>)>, repetitions: u32) -> bool {
    results.len() == repetitions && all_agree(results, e.row_count, e.result_digest@)
}

impl RunEvidence {
    /// What has been gathered is a prefix of what the manifest declares.
    pub open spec fn wf(&self, m: Manifest) -> bool {
        &&& self.pragmas@.len() <= m.pragmas@.len()
        &&& forall|i: int|
            0 <= i < self.pragmas@.len() ==> pragma_follows(#[trigger] self.pragmas@[i], m.pragmas@[i])
        &&& self.queries@.len() <= m.queries@.len()
        &&& forall|i: int|
            0 <= i < self.queries@.len() ==> query_follows(
                #[trigger] self.queries@[i],
                m.queries@[i],
                m.lab.repetitions,
            )
        &&& self.results@.len() == self.queries@.len()
        &&& forall|i: int|
            0 <= i < self.queries@.len() ==> repetitions_agree(
                #[trigger] self.queries@[i],
                self.results@[i],
                m.lab.repetitions,
            )
    }

    /// The CPU was checked against the profile: the mismatches are those of
    /// the profile on these features, and any mismatch was allowed.
    pub open spec fn checked(&self, p: Profile) -> bool {
        &&& self.mismatches@.map_values(|x: String| x@) == mismatch_messages(p, self.cpu_features@)
        &&& self.mismatches@.len() > 0 ==> self.allowed@
    }

    /// Starts a run of the profile on a CPU with these features: refused, as
    /// `check_profile` refuses, when they do not match and no mismatch is
    /// allowed; otherwise nothing is gathered yet.
    pub fn start(profile: &Profile, cpu_features: Vec<String>, allow_profile_mismatch: bool) -> (r:
        Result<RunEvidence, String>)
        ensures
            ({
                let found = mismatch_messages(*profile, cpu_features@);
                match r {
                    Ok(e) => (found.len() == 0 || allow_profile_mismatch) && e.cpu_features@
                        == cpu_features@ && e.allowed@ == allow_profile_mismatch && e.checked(
                        *profile,
                    ) && e.pragmas@.len() == 0 && e.queries@.len() == 0 && forall|m: Manifest|
                        e.wf(m),
                    Err(e) => found.len() > 0 && !allow_profile_mismatch && e@ == profile_refusal(
                        profile.id@,
                        found,
                    ),
                }
            }),
    {
        match check_profile(profile, &cpu_features, allow_profile_mismatch) {
            Ok(mismatches) => Ok(
                RunEvidence {
                    cpu_features,
                    mismatches,
                    allowed: Ghost(allow_profile_mismatch),
                    pragmas: Vec::new(),
                    queries: Vec::new(),
                    results: Ghost(Seq::empty()),
                },
            ),
            Err(e) => Err(e),
        }
    }

    /// The manifest's next PRAGMA to apply, if any is left.
    pub fn next_pragma<'a>(&self, m: &'a Manifest) -> (r: Option<&'a Pragma>)
        ensures
            match r {
                Some(p) => self.pragmas@.len() < m.pragmas@.len() && *p == m.pragmas@[self.pragmas@.len() as int],
                None => self.pragmas@.len() >= m.pragmas@.len(),
            },
    {
        if self.pragmas.len() < m.pragmas.len() {
            Some(&m.pragmas[self.pragmas.len()])
        } else {
            None
        }
    }

    /// Records the value SQLite reports for the next PRAGMA after applying it.
    pub fn record_pragma(&mut self, m: &Manifest, observed: String)
        requires
            old(self).wf(*m),
            old(self).pragmas@.len() < m.pragmas@.len(),
        ensures
            final(self).wf(*m),
            final(self).queries@ == old(self).queries@,
            final(self).results@ == old(self).results@,
            final(self).cpu_features == old(self).cpu_features,
            final(self).mismatches == old(self).mismatches,
            final(self).allowed == old(self).allowed,
            final(self).pragmas@.len() == old(self).pragmas@.len() + 1,
            final(self).pragmas@.drop_last() == old(self).pragmas@,
            pragma_follows(final(self).pragmas@.last(), m.pragmas@[old(self).pragmas@.len() as int]),
            final(self).pragmas@.last().observed == observed,
    {
        let e = pragma_evidence(&m.pragmas[self.pragmas.len()], observed);
        self.pragmas.push(e);
        assert(self.pragmas@.drop_last() == old(self).pragmas@);
    }

    /// The manifest's next query to measure, if any is left.
    pub fn next_query<'a>(&self, m: &'a Manifest) -> (r: Option<&'a Query>)
        ensures
            match r {
                Some(q) => self.queries@.len() < m.queries@.len() && *q == m.queries@[self.queries@.len() as int],
                None => self.queries@.len() >= m.queries@.len(),
            },
    {
        if self.queries.len() < m.queries.len() {
            Some(&m.queries[self.queries.len()])
        } else {
            None
        }
    }

    /// Records the finished measurement of the next query, with the plan that
    /// was captured for it; a query that does not capture its plan gets none.
    pub fn record_query(&mut self, m: &Manifest, measurement: Measurement, plan: Vec<String>) -> (r:
        Result<(), String>)
        requires
            old(self).wf(*m),
            old(self).queries@.len() < m.queries@.len(),
            measurement.wf(),
            measurement.step() == MeasureStep::Done,
            measurement.repetitions == m.lab.repetitions,
            sum_of(measurement.samples@) <= u64::MAX,
        ensures
            final(self).wf(*m),
            final(self).pragmas@ == old(self).pragmas@,
            final(self).cpu_features == old(self).cpu_features,
            final(self).mismatches == old(self).mismatches,
            final(self).allowed == old(self).allowed,
            ({
                let q = m.queries@[old(self).queries@.len() as int];
                match r {
                    Ok(()) => {
                        let e = final(self).queries@.last();
                        &&& final(self).queries@.len() == old(self).queries@.len() + 1
                        &&& final(self).queries@.drop_last() == old(self).queries@
                        &&& query_follows(e, q, m.lab.repetitions)
                        &&& final(self).results@ == old(self).results@.push(measurement.results@)
                        &&& repetitions_agree(e, measurement.results@, m.lab.repetitions)
                        &&& e.plan@ == (if q.capture_plan {
                            plan@
                        } else {
                            Seq::<String>::empty()
                        })
                        &&& expects(measurement.expected, e.row_count, e.result_digest@)
                        &&& summarizes(e.timing_us, measurement.samples@)
                    },
                    Err(e) => measurement.repetitions == 0 && e@ == no_measurement_message(q.name@)
                        && final(self).queries@ == old(self).queries@ && final(self).results@
                        == old(self).results@,
                }
            }),
    {
        let q = &m.queries[self.queries.len()];
        let kept = if q.capture_plan {
            plan
        } else {
            Vec::new()
        };
        let ghost samples = measurement.samples@;
        let ghost expected = measurement.expected;
        let ghost results = measurement.results@;
        match measurement.finish(q.name.clone(), q.sql.clone(), kept) {
            Ok(e) => {
                proof {
                    lemma_summary_of_own_samples(e.timing_us, samples);
                }
                self.queries.push(e);
                self.results = Ghost(self.results@.push(results));
                assert(self.queries@.drop_last() == old(self).queries@);
                assert(self.results@ =~= old(self).results@.push(results));
                Ok(())
            },
            Err(e) => Err(e),
        }
    }

    /// Every PRAGMA has been applied and every query measured.
    pub fn is_complete(&self, m: &Manifest) -> (b: bool)
        ensures
            b == (self.pragmas@.len() == m.pragmas@.len() && self.queries@.len()
                == m.queries@.len()),
    {
        self.pragmas.len() == m.pragmas.len() && self.queries.len() == m.queries.len()
    }

    /// The report of a complete run: what `assemble_report` makes of the
    /// gathered evidence, which follows the manifest entry for entry.
    pub fn into_report(
        self,
        m: &Manifest,
        profile: &Profile,
        manifest_bytes: &[u8],
        architecture: String,
        operating_system: String,
        sqlite: SqliteEvidence,
    ) -> (r: Report)
        requires
            self.wf(*m),
            self.checked(*profile),
            self.pragmas@.len() == m.pragmas@.len(),
            self.queries@.len() == m.queries@.len(),
        ensures
            reports(
                r,
                *m,
                *profile,
                manifest_bytes@,
                architecture@,
                operating_system@,
                self.cpu_features@,
                self.mismatches@,
                sqlite,
                self.pragmas@,
                self.queries@,
            ),
            follows_manifest(r.pragmas@, r.queries@, *m),
            r.environment.mismatches@.map_values(|x: String| x@) == mismatch_messages(
                *profile,
                r.environment.cpu_features@,
            ),
            !r.environment.profile_match ==> self.allowed@,
            self.results@.len() == r.queries@.len(),
            forall|i: int|
                0 <= i < r.queries@.len() ==> repetitions_agree(
                    #[trigger] r.queries@[i],
                    self.results@[i],
                    m.lab.repetitions,
                ),
    {
        assemble_report(
            m,
            profile,
            manifest_bytes,
            architecture,
            operating_system,
            self.cpu_features,
            self.mismatches,
            sqlite,
            self.pragmas,
            self.queries,
        )
    }
}

} // verus!

verus! {

/// What `String::from_utf8_lossy` makes of some bytes.
pub uninterp spec fn utf8_lossy(bytes: Seq<u8>) -> Seq<char>;

/// Trusted: `String::from_utf8_lossy` decodes the bytes, putting U+FFFD in
/// place of each invalid sequence; valid UTF-8 is decoded unchanged. The
/// result is a function of the bytes alone, named `utf8_lossy`.
#[verifier::external_body]
fn lossy_text(bytes: &[u8]) -> (r: String)
    ensures
        r@ == utf8_lossy(bytes@),
        vstd::utf8::valid_utf8(bytes@) ==> r@ == vstd::utf8::decode_utf8(bytes@),
{
    String::from_utf8_lossy(bytes).into_owned()
}

/// How a PRAGMA's reported value is shown, except a REAL, which is shown by
/// its floating-point formatting.
pub open spec fn displayed(v: SqlValue) -> Option<Seq<char>> {
    match v {
        SqlValue::Null => Some("NULL"@),
        SqlValue::Integer(i) => Some(signed_decimal(i as int)),
        SqlValue::Real(_) => None,
        SqlValue::Text(b) => Some(utf8_lossy(b@)),
        SqlValue::Blob(b) => Some("<"@ + decimal(b@.len()) + " byte blob>"@),
    }
}

/// Shows a value that SQLite reported for a PRAGMA; `None` for a REAL.
pub fn display_value(v: &SqlValue) -> (r: Option<String>)
    ensures
        match r {
            Some(text) => displayed(*v) == Some(text@),
            None => displayed(*v) is None,
        },
{
    match v {
        SqlValue::Null => Some(String::from_str("NULL")),
        SqlValue::Integer(i) => Some(i64_decimal(*i)),
        SqlValue::Real(_) => None,
        SqlValue::Text(b) => Some(lossy_text(b.as_slice())),
        SqlValue::Blob(b) => {
            let mut text = String::from_str("<");
            text.append(u64_decimal(b.len() as u64).as_str());
            text.append(" byte blob>");
            Some(text)
        },
    }
}

} // verus!

verus! {

proof fn lemma_required_members(fs: Seq<String>, available: Seq<String>)
    ensures
        forall|k: int|
            0 <= k < fs.len() && !listed(available, normalized_feature(#[trigger] fs[k]@)) ==> required_messages(
                fs,
                available,
            ).contains("required feature "@ + normalized_feature(fs[k]@) + " is absent"@),
    decreases fs.len(),
{
    if fs.len() > 0 {
        let init = fs.drop_last();
        lemma_required_members(init, available);
        let head = required_messages(init, available);
        let all = required_messages(fs, available);
        let n = fs.len() - 1;
        assert(fs.last() == fs[n]);
        assert forall|k: int|
            0 <= k < fs.len() && !listed(available, normalized_feature(#[trigger] fs[k]@)) implies all.contains(
            "required feature "@ + normalized_feature(fs[k]@) + " is absent"@,
        ) by {
            let msg = "required feature "@ + normalized_feature(fs[k]@) + " is absent"@;
            if k < n {
                assert(init[k] == fs[k]);
                let j = choose|j: int| 0 <= j < head.len() && head[j] == msg;
                assert(all[j] == head[j]);
            } else {
                assert(all[head.len() as int] == msg);
            }
        }
    }
}

proof fn lemma_forbidden_members(fs: Seq<String>, available: Seq<String>)
    ensures
        forall|k: int|
            0 <= k < fs.len() && listed(available, normalized_feature(#[trigger] fs[k]@)) ==> forbidden_messages(
                fs,
                available,
            ).contains("forbidden feature "@ + normalized_feature(fs[k]@) + " is present"@),
    decreases fs.len(),
{
    if fs.len() > 0 {
        let init = fs.drop_last();
        lemma_forbidden_members(init, available);
        let head = forbidden_messages(init, available);
        let all = forbidden_messages(fs, available);
        let n = fs.len() - 1;
        assert(fs.last() == fs[n]);
        assert forall|k: int|
            0 <= k < fs.len() && listed(available, normalized_feature(#[trigger] fs[k]@)) implies all.contains(
            "forbidden feature "@ + normalized_feature(fs[k]@) + " is present"@,
        ) by {
            let msg = "forbidden feature "@ + normalized_feature(fs[k]@) + " is present"@;
            if k < n {
                assert(init[k] == fs[k]);
                let j = choose|j: int| 0 <= j < head.len() && head[j] == msg;
                assert(all[j] == head[j]);
            } else {
                assert(all[head.len() as int] == msg);
            }
        }
    }
}

/// The mismatches name every failing feature, not only whether there is one:
/// each required feature that is not available gives `required feature <f>
/// is absent`, and each forbidden feature that is available gives `forbidden
/// feature <f> is present`, `<f>` normalized.
pub proof fn lemma_mismatches_name_every_feature(p: Profile, available: Seq<String>)
    ensures
        forall|k: int|
            0 <= k < p.required_cpu_features@.len() && !listed(
                available,
                normalized_feature(#[trigger] p.required_cpu_features@[k]@),
            ) ==> mismatch_messages(p, available).contains(
                "required feature "@ + normalized_feature(p.required_cpu_features@[k]@) + " is absent"@,
            ),
        forall|k: int|
            0 <= k < p.forbidden_cpu_features@.len() && listed(
                available,
                normalized_feature(#[trigger] p.forbidden_cpu_features@[k]@),
            ) ==> mismatch_messages(p, available).contains(
                "forbidden feature "@ + normalized_feature(p.forbidden_cpu_features@[k]@)
                    + " is present"@,
            ),
{
    let req = required_messages(p.required_cpu_features@, available);
    let forb = forbidden_messages(p.forbidden_cpu_features@, available);
    let all = mismatch_messages(p, available);
    lemma_required_members(p.required_cpu_features@, available);
    lemma_forbidden_members(p.forbidden_cpu_features@, available);
    assert forall|x: Seq<char>| req.contains(x) implies all.contains(x) by {
        let j = choose|j: int| 0 <= j < req.len() && req[j] == x;
        assert(all[j] == req[j]);
    }
    assert forall|x: Seq<char>| forb.contains(x) implies all.contains(x) by {
        let j = choose|j: int| 0 <= j < forb.len() && forb[j] == x;
        assert(all[req.len() + j] == forb[j]);
    }
}

} // verus!
