use vstd::prelude::*;

use crate::text::{
    ascii_lower, ascii_lower_char, chars_of, debug_quoted, debug_str, contains_char, decimal, has_char,
    eq_ignore_ascii_case, eq_ignore_ascii_case_str, is_blank, is_blank_str, join_strings, join_with,
    debug_plain, push_char, str_eq, trim, trim_chars, trim_str, u64_decimal, is_ws, trim_start, trim_end,
    lemma_trim_start_len, lemma_trim_end_prefix,
};
use crate::digest::sha256_hex;
use crate::paths::fixture_location;

verus! {

/// A declarative, pinned workload.
#[derive(Debug, Clone)]
pub struct Manifest {
    pub schema_version: u32,
    pub lab: Lab,
    pub profiles: Vec<Profile>,
    pub pragmas: Vec<Pragma>,
    pub queries: Vec<Query>,
}

/// The workload's pins and measurement settings.
#[derive(Debug, Clone)]
pub struct Lab {
    pub name: String,
    pub database: String,
    /// Path of the fixture SQL, relative to the manifest's directory.
    pub fixture: String,
    pub fixture_sha256: String,
    pub sqlite_version: String,
    pub warmups: u32,
    pub repetitions: u32,
}

/// A CPU profile: where a run counts as evidence and which CPU features it expects.
#[derive(Debug, Clone)]
pub struct Profile {
    pub id: String,
    pub environment: Environment,
    pub runner: Runner,
    pub required_cpu_features: Vec<String>,
    pub forbidden_cpu_features: Vec<String>,
    pub notes: Option<String>,
}

/// The kind of evidence a run in this profile produces.
#[derive(Debug, Clone, Copy, PartialEq, Eq, Structural)]
pub enum Environment {
    Hardware,
    Virtualized,
    Container,
    Emulator,
}

/// How a profile is executed.
#[derive(Debug, Clone, Copy, PartialEq, Eq, Structural)]
pub enum Runner {
    Native,
}

/// A PRAGMA applied to the isolated database before the fixture.
#[derive(Debug, Clone)]
pub struct Pragma {
    pub name: String,
    pub value: String,
}

/// A measured, read-only query.
#[derive(Debug, Clone)]
pub struct Query {
    pub name: String,
    pub sql: String,
    pub capture_plan: bool,
}

/// The lower-case label of an evidence kind.
pub open spec fn environment_label(e: Environment) -> Seq<char> {
    match e {
        Environment::Hardware => "hardware"@,
        Environment::Virtualized => "virtualized"@,
        Environment::Container => "container"@,
        Environment::Emulator => "emulator"@,
    }
}

impl Environment {
    /// The label that reports and comparisons print for this evidence kind.
    pub fn label(&self) -> (r: &'static str)
        ensures
            r@ == environment_label(*self),
    {
        match self {
            Environment::Hardware => "hardware",
            Environment::Virtualized => "virtualized",
            Environment::Container => "container",
            Environment::Emulator => "emulator",
        }
    }
}

impl Default for Runner {
    fn default() -> (r: Runner)
        ensures
            r == Runner::Native,
    {
        Runner::Native
    }
}

/// Database file name used when the manifest names none.
pub fn default_database() -> (r: String)
    ensures
        r@ == "workload.db"@,
{
    String::from_str("workload.db")
}

/// Warmup executions per query when the manifest names none.
pub fn default_warmups() -> (r: u32)
    ensures
        r == 2,
{
    2
}

/// Measured repetitions per query when the manifest names none.
pub fn default_repetitions() -> (r: u32)
    ensures
        r == 10,
{
    10
}

/// Query plans are captured unless a query opts out.
pub fn default_capture_plan() -> (r: bool)
    ensures
        r,
{
    true
}

/// How a feature name is compared: trimmed, ASCII lower case, with `.` and `-` read as `_`.
pub open spec fn feature_char(c: char) -> char {
    if c == '.' || c == '-' {
        '_'
    } else {
        ascii_lower(c)
    }
}

pub open spec fn normalized_feature(s: Seq<char>) -> Seq<char> {
    trim(s).map_values(|c: char| feature_char(c))
}

/// Brings a CPU feature name to the form in which features are compared.
pub fn normalize_feature(value: &str) -> (r: String)
    ensures
        r@ == normalized_feature(value@),
{
    let cs = chars_of(value);
    let t = trim_chars(cs.as_slice());
    let mut out = String::new();
    for i in 0..t.len()
        invariant
            t@ == trim(value@),
            out@ == normalized_feature(value@).take(i as int),
    {
        let c = t[i];
        let m = if c == '.' || c == '-' {
            '_'
        } else {
            ascii_lower_char(c)
        };
        push_char(&mut out, m);
        assert(normalized_feature(value@).take(i + 1) == normalized_feature(value@).take(
            i as int,
        ).push(feature_char(t@[i as int])));
    }
    assert(normalized_feature(value@).take(t@.len() as int) == normalized_feature(value@));
    out
}

pub open spec fn profile_ids(profiles: Seq<Profile>) -> Seq<Seq<char>> {
    profiles.map_values(|p: Profile| p.id@)
}

/// The error for an unknown profile id: the id quoted, then the declared ids.
pub open spec fn unknown_profile_message(id: Seq<char>, profiles: Seq<Profile>) -> Seq<char> {
    "unknown profile "@ + debug_quoted(id) + "; declared: "@ + join_with(profile_ids(profiles), ", "@)
}

impl Manifest {
    /// The first declared profile with the given id.
    pub fn profile(&self, id: &str) -> (r: Result<&Profile, String>)
        ensures
            match r {
                Ok(p) => exists|i: int|
                    0 <= i < self.profiles@.len() && self.profiles@[i] == *p && p.id@ == id@
                        && forall|k: int| 0 <= k < i ==> self.profiles@[k].id@ != id@,
                Err(e) => (forall|k: int|
                    0 <= k < self.profiles@.len() ==> self.profiles@[k].id@ != id@) && e@
                    == unknown_profile_message(id@, self.profiles@) && ((forall|k: int|
                    0 <= k < id@.len() ==> debug_plain(#[trigger] id@[k])) ==> e@
                    == "unknown profile \""@ + id@ + "\"; declared: "@ + join_with(
                    profile_ids(self.profiles@),
                    ", "@,
                )),
            },
    {
        let mut i: usize = 0;
        while i < self.profiles.len()
            invariant
                i <= self.profiles@.len(),
                forall|k: int| 0 <= k < i ==> self.profiles@[k].id@ != id@,
            decreases self.profiles@.len() - i,
        {
            if str_eq(self.profiles[i].id.as_str(), id) {
                return Ok(&self.profiles[i]);
            }
            i = i + 1;
        }
        let mut ids: Vec<String> = Vec::new();
        for k in 0..self.profiles.len()
            invariant
                ids@.len() == k,
                forall|j: int| 0 <= j < k ==> ids@[j]@ == self.profiles@[j].id@,
        {
            ids.push(self.profiles[k].id.clone());
        }
        assert(ids@.map_values(|p: String| p@) =~= profile_ids(self.profiles@));
        let quoted = debug_str(id);
        let mut e = String::from_str("unknown profile ");
        e.append(quoted.as_str());
        e.append("; declared: ");
        e.append(join_strings(&ids, ", ").as_str());
        proof {
            if forall|k: int| 0 <= k < id@.len() ==> debug_plain(#[trigger] id@[k]) {
                reveal_strlit("unknown profile ");
                reveal_strlit("unknown profile \"");
                reveal_strlit("\"");
                reveal_strlit("; declared: ");
                reveal_strlit("\"; declared: ");
                assert(e@ =~= "unknown profile \""@ + id@ + "\"; declared: "@ + join_with(
                    profile_ids(self.profiles@),
                    ", "@,
                ));
            }
        }
        Err(e)
    }
}

} // verus!

verus! {

/// The first of two possible issues.
pub open spec fn first_issue(a: Option<Seq<char>>, b: Option<Seq<char>>) -> Option<Seq<char>> {
    if a is Some {
        a
    } else {
        b
    }
}

/// The first issue that `check` reports for positions `0..n`, in order.
pub open spec fn first_some(check: spec_fn(int) -> Option<Seq<char>>, n: nat) -> Option<
    Seq<char>,
>
    decreases n,
{
    if n == 0 {
        None
    } else {
        match first_some(check, (n - 1) as nat) {
            Some(e) => Some(e),
            None => check(n - 1),
        }
    }
}

/// Once an issue is found among the first `n` positions, looking further does not change it.
pub proof fn lemma_first_some_stable(check: spec_fn(int) -> Option<Seq<char>>, n: nat, m: nat)
    requires
        n <= m,
        first_some(check, n) is Some,
    ensures
        first_some(check, m) == first_some(check, n),
    decreases m,
{
    if m > n {
        lemma_first_some_stable(check, n, (m - 1) as nat);
    }
}

/// The issue with `names[i]`: blank, or equal to an earlier name.
pub open spec fn name_check(label: Seq<char>, names: Seq<Seq<char>>, i: int) -> Option<Seq<char>> {
    let v = names[i];
    if is_blank(v) {
        Some(label + " name must not be empty"@)
    } else if names.take(i).contains(v) {
        Some("duplicate "@ + label + " name "@ + debug_quoted(v))
    } else {
        None
    }
}

/// The first name that is blank or repeats an earlier one.
pub open spec fn names_issue(label: Seq<char>, names: Seq<Seq<char>>) -> Option<Seq<char>> {
    first_some(|i: int| name_check(label, names, i), names.len())
}

pub open spec fn query_names(queries: Seq<Query>) -> Seq<Seq<char>> {
    queries.map_values(|q: Query| q.name@)
}

pub open spec fn pragma_names(pragmas: Seq<Pragma>) -> Seq<Seq<char>> {
    pragmas.map_values(|p: Pragma| p.name@)
}

/// A character allowed in a PRAGMA name: ASCII letter, digit or underscore.
pub open spec fn is_pragma_name_char(c: char) -> bool {
    ('a' <= c <= 'z') || ('A' <= c <= 'Z') || ('0' <= c <= '9') || c == '_'
}

pub open spec fn is_safe_pragma_name(name: Seq<char>) -> bool {
    forall|k: int| 0 <= k < name.len() ==> is_pragma_name_char(#[trigger] name[k])
}

/// The issue with one PRAGMA: an unsafe name, or a semicolon in the value.
pub open spec fn pragma_check(p: Pragma) -> Option<Seq<char>> {
    if !is_safe_pragma_name(p.name@) {
        Some("PRAGMA name "@ + debug_quoted(p.name@) + " contains unsafe characters"@)
    } else if has_char(p.value@, ';') {
        Some("PRAGMA "@ + p.name@ + " value must not contain a semicolon"@)
    } else {
        None
    }
}

pub open spec fn pragmas_issue(pragmas: Seq<Pragma>) -> Option<Seq<char>> {
    first_some(|i: int| pragma_check(pragmas[i]), pragmas.len())
}

/// The issue with one query: blank SQL.
pub open spec fn query_sql_check(q: Query) -> Option<Seq<char>> {
    if is_blank(q.sql@) {
        Some("query "@ + q.name@ + " has empty SQL"@)
    } else {
        None
    }
}

pub open spec fn queries_sql_issue(queries: Seq<Query>) -> Option<Seq<char>> {
    first_some(|i: int| query_sql_check(queries[i]), queries.len())
}

/// The profile requires a feature that normalizes like `f`.
pub open spec fn requires_feature(p: Profile, f: Seq<char>) -> bool {
    exists|k: int|
        0 <= k < p.required_cpu_features@.len() && normalized_feature(
            #[trigger] p.required_cpu_features@[k]@,
        ) == normalized_feature(f)
}

/// The issue with the profile's `i`-th forbidden feature: the profile also requires it.
pub open spec fn forbidden_check(p: Profile, i: int) -> Option<Seq<char>> {
    let f = p.forbidden_cpu_features@[i]@;
    if requires_feature(p, f) {
        Some("profile "@ + p.id@ + " both requires and forbids CPU feature "@ + f)
    } else {
        None
    }
}

/// The first forbidden feature of `p` that it also requires.
pub open spec fn profile_conflict(p: Profile) -> Option<Seq<char>> {
    first_some(|i: int| forbidden_check(p, i), p.forbidden_cpu_features@.len())
}

pub open spec fn conflicts_issue(profiles: Seq<Profile>) -> Option<Seq<char>> {
    first_some(|i: int| profile_conflict(profiles[i]), profiles.len())
}

/// The first structural problem of a manifest, in the order in which they are checked.
pub open spec fn structure_issue(m: Manifest) -> Option<Seq<char>> {
    if m.schema_version != 1 {
        Some("unsupported schema_version "@ + decimal(m.schema_version as nat) + "; expected 1"@)
    } else if is_blank(m.lab.name@) {
        Some("lab.name must not be empty"@)
    } else if is_blank(m.lab.sqlite_version@) {
        Some("lab.sqlite_version is a required pin"@)
    } else if m.lab.repetitions < 3 {
        Some("lab.repetitions must be at least 3"@)
    } else if m.lab.repetitions > 10000 {
        Some("lab.repetitions must not exceed 10000"@)
    } else if m.lab.warmups > 1000 {
        Some("lab.warmups must not exceed 1000"@)
    } else if m.profiles@.len() < 3 {
        Some("declare at least three CPU profiles for release evidence"@)
    } else if m.queries@.len() == 0 {
        Some("declare at least one query"@)
    } else {
        first_issue(
            names_issue("profile"@, profile_ids(m.profiles@)),
            first_issue(
                names_issue("query"@, query_names(m.queries@)),
                first_issue(
                    names_issue("PRAGMA"@, pragma_names(m.pragmas@)),
                    first_issue(
                        pragmas_issue(m.pragmas@),
                        first_issue(queries_sql_issue(m.queries@), conflicts_issue(m.profiles@)),
                    ),
                ),
            ),
        )
    }
}

fn unique_nonempty(values: &Vec<String>, label: &str) -> (r: Result<(), String>)
    ensures
        match r {
            Ok(()) => names_issue(label@, values@.map_values(|v: String| v@)) is None,
            Err(e) => names_issue(label@, values@.map_values(|v: String| v@)) == Some(e@),
        },
{
    let ghost names = values@.map_values(|v: String| v@);
    let mut i: usize = 0;
    while i < values.len()
        invariant
            names == values@.map_values(|v: String| v@),
            i <= values@.len(),
            first_some(|k: int| name_check(label@, names, k), i as nat) is None,
        decreases values@.len() - i,
    {
        let ghost check = |k: int| name_check(label@, names, k);
        if is_blank_str(values[i].as_str()) {
            let mut e = String::from_str(label);
            e.append(" name must not be empty");
            proof {
                lemma_first_some_stable(check, (i + 1) as nat, names.len());
            }
            return Err(e);
        }
        let mut j: usize = 0;
        while j < i
            invariant
                names == values@.map_values(|v: String| v@),
                j <= i < values@.len(),
                !is_blank(names[i as int]),
                first_some(|k: int| name_check(label@, names, k), i as nat) is None,
                forall|k: int| 0 <= k < j ==> names[k] != names[i as int],
            decreases i - j,
        {
            if str_eq(values[j].as_str(), values[i].as_str()) {
                assert(names[j as int] == values@[j as int]@);
                assert(names.take(i as int)[j as int] == names[i as int]);
                assert(names.take(i as int).contains(names[i as int]));
                let mut e = String::from_str("duplicate ");
                e.append(label);
                e.append(" name ");
                e.append(debug_str(values[i].as_str()).as_str());
                proof {
                    let check = |k: int| name_check(label@, names, k);
                    assert(check(i as int) is Some);
                    lemma_first_some_stable(check, (i + 1) as nat, names.len());
                }
                return Err(e);
            }
            j = j + 1;
        }
        assert(!names.take(i as int).contains(names[i as int]));
        i = i + 1;
    }
    Ok(())
}

} // verus!

verus! {

fn pragma_name_char(c: char) -> (r: bool)
    ensures
        r == is_pragma_name_char(c),
{
    ('a' <= c && c <= 'z') || ('A' <= c && c <= 'Z') || ('0' <= c && c <= '9') || c == '_'
}

fn pragma_problem(p: &Pragma) -> (r: Option<String>)
    ensures
        match r {
            None => pragma_check(*p) is None,
            Some(e) => pragma_check(*p) == Some(e@),
        },
{
    let cs = chars_of(p.name.as_str());
    let mut i: usize = 0;
    while i < cs.len()
        invariant
            cs@ == p.name@,
            i <= cs@.len(),
            forall|k: int| 0 <= k < i ==> is_pragma_name_char(#[trigger] cs@[k]),
        decreases cs@.len() - i,
    {
        if !pragma_name_char(cs[i]) {
            let mut e = String::from_str("PRAGMA name ");
            e.append(debug_str(p.name.as_str()).as_str());
            e.append(" contains unsafe characters");
            return Some(e);
        }
        i = i + 1;
    }
    if contains_char(p.value.as_str(), ';') {
        let mut e = String::from_str("PRAGMA ");
        e.append(p.name.as_str());
        e.append(" value must not contain a semicolon");
        return Some(e);
    }
    None
}

fn normalized_list(values: &Vec<String>) -> (r: Vec<String>)
    ensures
        r@.len() == values@.len(),
        forall|k: int| 0 <= k < r@.len() ==> #[trigger] r@[k]@ == normalized_feature(values@[k]@),
{
    let mut r: Vec<String> = Vec::new();
    for i in 0..values.len()
        invariant
            r@.len() == i,
            forall|k: int| 0 <= k < i ==> #[trigger] r@[k]@ == normalized_feature(values@[k]@),
    {
        r.push(normalize_feature(values[i].as_str()));
    }
    r
}

fn profile_problem(p: &Profile) -> (r: Option<String>)
    ensures
        match r {
            None => profile_conflict(*p) is None,
            Some(e) => profile_conflict(*p) == Some(e@),
        },
{
    let required = normalized_list(&p.required_cpu_features);
    let ghost check = |k: int| forbidden_check(*p, k);
    let mut i: usize = 0;
    while i < p.forbidden_cpu_features.len()
        invariant
            i <= p.forbidden_cpu_features@.len(),
            required@.len() == p.required_cpu_features@.len(),
            forall|k: int|
                0 <= k < required@.len() ==> #[trigger] required@[k]@ == normalized_feature(
                    p.required_cpu_features@[k]@,
                ),
            check == |k: int| forbidden_check(*p, k),
            first_some(check, i as nat) is None,
        decreases p.forbidden_cpu_features@.len() - i,
    {
        let f = normalize_feature(p.forbidden_cpu_features[i].as_str());
        let mut j: usize = 0;
        while j < required.len()
            invariant
                j <= required@.len(),
                i < p.forbidden_cpu_features@.len(),
                required@.len() == p.required_cpu_features@.len(),
                forall|k: int|
                    0 <= k < required@.len() ==> #[trigger] required@[k]@ == normalized_feature(
                        p.required_cpu_features@[k]@,
                    ),
                check == |k: int| forbidden_check(*p, k),
                first_some(check, i as nat) is None,
                f@ == normalized_feature(p.forbidden_cpu_features@[i as int]@),
                forall|k: int| 0 <= k < j ==> required@[k]@ != f@,
            decreases required@.len() - j,
        {
            if str_eq(required[j].as_str(), f.as_str()) {
                let mut e = String::from_str("profile ");
                e.append(p.id.as_str());
                e.append(" both requires and forbids CPU feature ");
                e.append(p.forbidden_cpu_features[i].as_str());
                proof {
                    assert(required@[j as int]@ == normalized_feature(
                        p.required_cpu_features@[j as int]@,
                    ));
                    assert(requires_feature(*p, p.forbidden_cpu_features@[i as int]@));
                    assert(check(i as int) is Some);
                    lemma_first_some_stable(
                        check,
                        (i + 1) as nat,
                        p.forbidden_cpu_features@.len(),
                    );
                }
                return Some(e);
            }
            j = j + 1;
        }
        proof {
            if requires_feature(*p, p.forbidden_cpu_features@[i as int]@) {
                let k = choose|k: int|
                    0 <= k < p.required_cpu_features@.len() && normalized_feature(
                        #[trigger] p.required_cpu_features@[k]@,
                    ) == normalized_feature(p.forbidden_cpu_features@[i as int]@);
                assert(required@[k]@ == normalized_feature(p.required_cpu_features@[k]@));
            }
        }
        i = i + 1;
    }
    None
}

fn id_list(profiles: &Vec<Profile>) -> (r: Vec<String>)
    ensures
        r@.map_values(|v: String| v@) == profile_ids(profiles@),
{
    let mut r: Vec<String> = Vec::new();
    for i in 0..profiles.len()
        invariant
            r@.len() == i,
            forall|k: int| 0 <= k < i ==> #[trigger] r@[k]@ == profiles@[k].id@,
    {
        r.push(profiles[i].id.clone());
    }
    assert(r@.map_values(|v: String| v@) =~= profile_ids(profiles@));
    r
}

fn query_name_list(queries: &Vec<Query>) -> (r: Vec<String>)
    ensures
        r@.map_values(|v: String| v@) == query_names(queries@),
{
    let mut r: Vec<String> = Vec::new();
    for i in 0..queries.len()
        invariant
            r@.len() == i,
            forall|k: int| 0 <= k < i ==> #[trigger] r@[k]@ == queries@[k].name@,
    {
        r.push(queries[i].name.clone());
    }
    assert(r@.map_values(|v: String| v@) =~= query_names(queries@));
    r
}

fn pragma_name_list(pragmas: &Vec<Pragma>) -> (r: Vec<String>)
    ensures
        r@.map_values(|v: String| v@) == pragma_names(pragmas@),
{
    let mut r: Vec<String> = Vec::new();
    for i in 0..pragmas.len()
        invariant
            r@.len() == i,
            forall|k: int| 0 <= k < i ==> #[trigger] r@[k]@ == pragmas@[k].name@,
    {
        r.push(pragmas[i].name.clone());
    }
    assert(r@.map_values(|v: String| v@) =~= pragma_names(pragmas@));
    r
}

fn pragmas_problem(pragmas: &Vec<Pragma>) -> (r: Result<(), String>)
    ensures
        match r {
            Ok(()) => pragmas_issue(pragmas@) is None,
            Err(e) => pragmas_issue(pragmas@) == Some(e@),
        },
{
    let ghost check = |k: int| pragma_check(pragmas@[k]);
    for i in 0..pragmas.len()
        invariant
            check == |k: int| pragma_check(pragmas@[k]),
            first_some(check, i as nat) is None,
    {
        match pragma_problem(&pragmas[i]) {
            Some(e) => {
                proof {
                    lemma_first_some_stable(check, (i + 1) as nat, pragmas@.len());
                }
                return Err(e);
            },
            None => {},
        }
    }
    Ok(())
}

fn queries_problem(queries: &Vec<Query>) -> (r: Result<(), String>)
    ensures
        match r {
            Ok(()) => queries_sql_issue(queries@) is None,
            Err(e) => queries_sql_issue(queries@) == Some(e@),
        },
{
    let ghost check = |k: int| query_sql_check(queries@[k]);
    for i in 0..queries.len()
        invariant
            check == |k: int| query_sql_check(queries@[k]),
            first_some(check, i as nat) is None,
    {
        if is_blank_str(queries[i].sql.as_str()) {
            let mut e = String::from_str("query ");
            e.append(queries[i].name.as_str());
            e.append(" has empty SQL");
            proof {
                lemma_first_some_stable(check, (i + 1) as nat, queries@.len());
            }
            return Err(e);
        }
    }
    Ok(())
}

fn conflicts_problem(profiles: &Vec<Profile>) -> (r: Result<(), String>)
    ensures
        match r {
            Ok(()) => conflicts_issue(profiles@) is None,
            Err(e) => conflicts_issue(profiles@) == Some(e@),
        },
{
    let ghost check = |k: int| profile_conflict(profiles@[k]);
    for i in 0..profiles.len()
        invariant
            check == |k: int| profile_conflict(profiles@[k]),
            first_some(check, i as nat) is None,
    {
        match profile_problem(&profiles[i]) {
            Some(e) => {
                proof {
                    lemma_first_some_stable(check, (i + 1) as nat, profiles@.len());
                }
                return Err(e);
            },
            None => {},
        }
    }
    Ok(())
}

impl Manifest {
    /// Checks everything about a manifest that needs neither the fixture nor SQLite:
    /// schema version, required pins, repetition bounds, profile and query counts,
    /// unique non-blank names, safe PRAGMAs, non-blank SQL and consistent profiles.
    pub fn validate_structure(&self) -> (r: Result<(), String>)
        ensures
            match r {
                Ok(()) => structure_issue(*self) is None,
                Err(e) => structure_issue(*self) == Some(e@),
            },
    {
        if self.schema_version != 1 {
            let mut e = String::from_str("unsupported schema_version ");
            e.append(u64_decimal(self.schema_version as u64).as_str());
            e.append("; expected 1");
            return Err(e);
        }
        if is_blank_str(self.lab.name.as_str()) {
            return Err(String::from_str("lab.name must not be empty"));
        }
        if is_blank_str(self.lab.sqlite_version.as_str()) {
            return Err(String::from_str("lab.sqlite_version is a required pin"));
        }
        if self.lab.repetitions < 3 {
            return Err(String::from_str("lab.repetitions must be at least 3"));
        }
        if self.lab.repetitions > 10000 {
            return Err(String::from_str("lab.repetitions must not exceed 10000"));
        }
        if self.lab.warmups > 1000 {
            return Err(String::from_str("lab.warmups must not exceed 1000"));
        }
        if self.profiles.len() < 3 {
            return Err(String::from_str("declare at least three CPU profiles for release evidence"));
        }
        if self.queries.len() == 0 {
            return Err(String::from_str("declare at least one query"));
        }
        unique_nonempty(&id_list(&self.profiles), "profile")?;
        unique_nonempty(&query_name_list(&self.queries), "query")?;
        unique_nonempty(&pragma_name_list(&self.pragmas), "PRAGMA")?;
        pragmas_problem(&self.pragmas)?;
        queries_problem(&self.queries)?;
        conflicts_problem(&self.profiles)?;
        Ok(())
    }
}

} // verus!

verus! {

/// The fixture's bytes do not hash to the pinned SHA-256 (compared without
/// regard to ASCII case, the pin trimmed).
pub open spec fn fixture_issue(m: Manifest, fixture_display: Seq<char>, fixture_bytes: Seq<u8>) -> Option<
    Seq<char>,
> {
    let actual = sha256_hex(fixture_bytes);
    if !eq_ignore_ascii_case(actual, trim(m.lab.fixture_sha256@)) {
        Some(
            "fixture SHA-256 mismatch for "@ + fixture_display + ": expected "@
                + m.lab.fixture_sha256@ + ", found "@ + actual,
        )
    } else {
        None
    }
}

/// The SQLite library in use is not the pinned version.
pub open spec fn sqlite_pin_issue(m: Manifest, runtime_sqlite: Seq<char>) -> Option<Seq<char>> {
    if runtime_sqlite != m.lab.sqlite_version@ {
        Some(
            "SQLite version pin mismatch: manifest requires "@ + m.lab.sqlite_version@
                + ", binary contains "@ + runtime_sqlite,
        )
    } else {
        None
    }
}

/// The first problem that validating a manifest finds, given the manifest's
/// path, the fixture's bytes and the version of the SQLite library in use:
/// structure, then the fixture pin, then the SQLite pin. (`check` runs the
/// read-only scan of the queries only after this validation passes.)
pub open spec fn validation_issue(
    m: Manifest,
    manifest_path: Seq<char>,
    fixture_bytes: Seq<u8>,
    runtime_sqlite: Seq<char>,
) -> Option<Seq<char>> {
    first_issue(
        structure_issue(m),
        first_issue(
            fixture_issue(m, fixture_location(manifest_path, m.lab.fixture@), fixture_bytes),
            sqlite_pin_issue(m, runtime_sqlite),
        ),
    )
}

impl Manifest {
    /// Checks the two pins: the fixture's SHA-256 and the SQLite version.
    pub fn validate_pins(&self, fixture_display: &str, fixture_bytes: &[u8], runtime_sqlite: &str) -> (r:
        Result<(), String>)
        ensures
            match r {
                Ok(()) => fixture_issue(*self, fixture_display@, fixture_bytes@) is None
                    && sqlite_pin_issue(*self, runtime_sqlite@) is None,
                Err(e) => first_issue(
                    fixture_issue(*self, fixture_display@, fixture_bytes@),
                    sqlite_pin_issue(*self, runtime_sqlite@),
                ) == Some(e@),
            },
    {
        let actual = crate::sha256_bytes(fixture_bytes);
        let pinned = trim_str(self.lab.fixture_sha256.as_str());
        if !eq_ignore_ascii_case_str(actual.as_str(), pinned.as_str()) {
            let mut e = String::from_str("fixture SHA-256 mismatch for ");
            e.append(fixture_display);
            e.append(": expected ");
            e.append(self.lab.fixture_sha256.as_str());
            e.append(", found ");
            e.append(actual.as_str());
            return Err(e);
        }
        if !str_eq(runtime_sqlite, self.lab.sqlite_version.as_str()) {
            let mut e = String::from_str("SQLite version pin mismatch: manifest requires ");
            e.append(self.lab.sqlite_version.as_str());
            e.append(", binary contains ");
            e.append(runtime_sqlite);
            return Err(e);
        }
        Ok(())
    }

    /// Everything that `check` validates, given the SQLite version in use.
    pub fn validate_with(&self, manifest_path: &str, fixture_bytes: &[u8], runtime_sqlite: &str) -> (r:
        Result<(), String>)
        ensures
            match r {
                Ok(()) => validation_issue(*self, manifest_path@, fixture_bytes@, runtime_sqlite@)
                    is None,
                Err(e) => validation_issue(*self, manifest_path@, fixture_bytes@, runtime_sqlite@)
                    == Some(e@),
            },
    {
        self.validate_structure()?;
        let fixture = crate::fixture_path(manifest_path, self);
        self.validate_pins(fixture.as_str(), fixture_bytes, runtime_sqlite)
    }

    /// Validates the manifest against its fixture's bytes and the SQLite
    /// library linked into this binary, whose version the result depends on.
    /// That version is a property of the build, so the contract leaves it
    /// open: the result is what `validate_with` gives for some version.
    /// `validate_with` states the check for a given version exactly.
    pub fn validate(&self, manifest_path: &str, fixture_bytes: &[u8]) -> (r: Result<(), String>)
        ensures
            exists|runtime: Seq<char>|
                match r {
                    Ok(()) => validation_issue(*self, manifest_path@, fixture_bytes@, runtime)
                        is None,
                    Err(e) => validation_issue(*self, manifest_path@, fixture_bytes@, runtime)
                        == Some(e@),
                },
    {
        let runtime = crate::sqlite::linked_sqlite_version();
        let r = self.validate_with(manifest_path, fixture_bytes, runtime.as_str());
        assert(match r {
            Ok(()) => validation_issue(*self, manifest_path@, fixture_bytes@, runtime@) is None,
            Err(e) => validation_issue(*self, manifest_path@, fixture_bytes@, runtime@) == Some(e@),
        });
        r
    }
}

} // verus!

verus! {

/// When no issue is found among the first `n` positions, each of them has none.
pub proof fn lemma_first_some_none(check: spec_fn(int) -> Option<Seq<char>>, n: nat)
    requires
        first_some(check, n) is None,
    ensures
        forall|i: int| 0 <= i < n ==> #[trigger] check(i) is None,
    decreases n,
{
    if n > 0 {
        lemma_first_some_none(check, (n - 1) as nat);
    }
}

/// Names without an issue are non-blank and pairwise distinct.
pub proof fn lemma_names_unique(label: Seq<char>, names: Seq<Seq<char>>)
    requires
        names_issue(label, names) is None,
    ensures
        forall|i: int| 0 <= i < names.len() ==> !is_blank(#[trigger] names[i]),
        forall|i: int, j: int|
            0 <= i < j < names.len() ==> #[trigger] names[i] != #[trigger] names[j],
{
    let check = |i: int| name_check(label, names, i);
    lemma_first_some_none(check, names.len());
    assert forall|i: int| 0 <= i < names.len() implies !is_blank(#[trigger] names[i]) by {
        assert(check(i) is None);
    }
    assert forall|i: int, j: int| 0 <= i < j < names.len() implies #[trigger] names[i]
        != #[trigger] names[j] by {
        assert(check(j) is None);
        assert(names.take(j)[i] == names[i]);
        assert(names.take(j).contains(names[i]));
    }
}

/// A manifest that `check` accepts declares at least three CPU profiles and at
/// least one query, pins a non-blank SQLite version equal to the one in use and
/// a fixture whose bytes hash to the pin, repeats each query 3 to 10000 times
/// after at most 1000 warm-ups, names its profiles, queries and PRAGMAs
/// uniquely and non-blank, uses only safe PRAGMA names and values without a
/// semicolon, gives every query SQL, and never both requires and forbids a
/// CPU feature in one profile.
pub proof fn lemma_checked_manifest(
    m: Manifest,
    manifest_path: Seq<char>,
    fixture_bytes: Seq<u8>,
    runtime_sqlite: Seq<char>,
)
    requires
        validation_issue(m, manifest_path, fixture_bytes, runtime_sqlite) is None,
    ensures
        m.schema_version == 1,
        !is_blank(m.lab.name@),
        !is_blank(m.lab.sqlite_version@),
        runtime_sqlite == m.lab.sqlite_version@,
        eq_ignore_ascii_case(sha256_hex(fixture_bytes), trim(m.lab.fixture_sha256@)),
        3 <= m.lab.repetitions <= 10000,
        m.lab.warmups <= 1000,
        m.profiles@.len() >= 3,
        m.queries@.len() >= 1,
        forall|i: int, j: int|
            0 <= i < j < m.profiles@.len() ==> #[trigger] m.profiles@[i].id@
                != #[trigger] m.profiles@[j].id@,
        forall|i: int, j: int|
            0 <= i < j < m.queries@.len() ==> #[trigger] m.queries@[i].name@
                != #[trigger] m.queries@[j].name@,
        forall|i: int, j: int|
            0 <= i < j < m.pragmas@.len() ==> #[trigger] m.pragmas@[i].name@
                != #[trigger] m.pragmas@[j].name@,
        forall|i: int| 0 <= i < m.profiles@.len() ==> !is_blank(#[trigger] m.profiles@[i].id@),
        forall|i: int|
            0 <= i < m.queries@.len() ==> !is_blank(#[trigger] m.queries@[i].name@) && !is_blank(
                m.queries@[i].sql@,
            ),
        forall|i: int|
            0 <= i < m.pragmas@.len() ==> is_safe_pragma_name(#[trigger] m.pragmas@[i].name@)
                && !has_char(m.pragmas@[i].value@, ';'),
        forall|i: int, k: int|
            0 <= i < m.profiles@.len() && 0 <= k < m.profiles@[i].forbidden_cpu_features@.len()
                ==> !requires_feature(
                m.profiles@[i],
                #[trigger] m.profiles@[i].forbidden_cpu_features@[k]@,
            ),
{
    let ids = profile_ids(m.profiles@);
    let qnames = query_names(m.queries@);
    let pnames = pragma_names(m.pragmas@);
    lemma_names_unique("profile"@, ids);
    lemma_names_unique("query"@, qnames);
    lemma_names_unique("PRAGMA"@, pnames);
    assert forall|i: int, j: int| 0 <= i < j < m.profiles@.len() implies #[trigger] m.profiles@[i].id@
        != #[trigger] m.profiles@[j].id@ by {
        assert(ids[i] != ids[j]);
    }
    assert forall|i: int, j: int| 0 <= i < j < m.queries@.len() implies #[trigger] m.queries@[i].name@
        != #[trigger] m.queries@[j].name@ by {
        assert(qnames[i] != qnames[j]);
    }
    assert forall|i: int, j: int| 0 <= i < j < m.pragmas@.len() implies #[trigger] m.pragmas@[i].name@
        != #[trigger] m.pragmas@[j].name@ by {
        assert(pnames[i] != pnames[j]);
    }
    assert forall|i: int| 0 <= i < m.profiles@.len() implies !is_blank(#[trigger] m.profiles@[i].id@) by {
        assert(!is_blank(ids[i]));
    }
    let sql_check = |i: int| query_sql_check(m.queries@[i]);
    lemma_first_some_none(sql_check, m.queries@.len());
    assert forall|i: int| 0 <= i < m.queries@.len() implies !is_blank(#[trigger] m.queries@[i].name@)
        && !is_blank(m.queries@[i].sql@) by {
        assert(!is_blank(qnames[i]));
        assert(sql_check(i) is None);
    }
    let p_check = |i: int| pragma_check(m.pragmas@[i]);
    lemma_first_some_none(p_check, m.pragmas@.len());
    assert forall|i: int| 0 <= i < m.pragmas@.len() implies is_safe_pragma_name(
        #[trigger] m.pragmas@[i].name@,
    ) && !has_char(m.pragmas@[i].value@, ';') by {
        assert(p_check(i) is None);
    }
    let c_check = |i: int| profile_conflict(m.profiles@[i]);
    lemma_first_some_none(c_check, m.profiles@.len());
    assert forall|i: int, k: int|
        0 <= i < m.profiles@.len() && 0 <= k < m.profiles@[i].forbidden_cpu_features@.len()
            implies !requires_feature(
            m.profiles@[i],
            #[trigger] m.profiles@[i].forbidden_cpu_features@[k]@,
        ) by {
        assert(c_check(i) is None);
        let p = m.profiles@[i];
        let f_check = |k: int| forbidden_check(p, k);
        lemma_first_some_none(f_check, p.forbidden_cpu_features@.len());
        assert(f_check(k) is None);
    }
}

} // verus!

verus! {

proof fn lemma_feature_char(c: char)
    ensures
        !is_ws(c) ==> !is_ws(feature_char(c)),
        feature_char(feature_char(c)) == feature_char(c),
{
    if 'A' <= c <= 'Z' {
        let u = (c as u32) + 32;
        assert(97 <= u <= 122);
        assert(((u as char) as u32) == u);
    }
}

proof fn lemma_trim_fixed(u: Seq<char>)
    requires
        u.len() > 0 ==> !is_ws(u[0]) && !is_ws(u.last()),
    ensures
        trim(u) == u,
{
    assert(trim_start(u) == u);
    assert(trim_end(u) == u);
}

/// Normalizing a feature name twice gives what normalizing it once gives.
pub proof fn lemma_normalize_feature_idempotent(s: Seq<char>)
    ensures
        normalized_feature(normalized_feature(s)) == normalized_feature(s),
{
    let t = trim(s);
    lemma_trim_start_len(s);
    lemma_trim_end_prefix(trim_start(s));
    let u = normalized_feature(s);
    assert(u.len() == t.len());
    if t.len() > 0 {
        assert(t[0] == trim_start(s)[0]);
        lemma_feature_char(t[0]);
        lemma_feature_char(t.last());
        assert(u[0] == feature_char(t[0]));
        assert(u.last() == feature_char(t.last()));
    }
    lemma_trim_fixed(u);
    assert forall|i: int| 0 <= i < u.len() implies #[trigger] feature_char(u[i]) == u[i] by {
        lemma_feature_char(t[i]);
    }
    assert(normalized_feature(u) =~= u);
}

} // verus!

verus! {

/// The fixture pin is compared trimmed and without regard to ASCII case: two
/// manifests that differ only in how their pin is written (surrounding
/// whitespace, ASCII letter case) pass or fail `check` alike.
pub proof fn lemma_pin_spelling_irrelevant(
    m: Manifest,
    m2: Manifest,
    manifest_path: Seq<char>,
    fixture_bytes: Seq<u8>,
    runtime_sqlite: Seq<char>,
)
    requires
        m2.schema_version == m.schema_version,
        m2.profiles == m.profiles,
        m2.pragmas == m.pragmas,
        m2.queries == m.queries,
        m2.lab.name == m.lab.name,
        m2.lab.database == m.lab.database,
        m2.lab.fixture == m.lab.fixture,
        m2.lab.sqlite_version == m.lab.sqlite_version,
        m2.lab.warmups == m.lab.warmups,
        m2.lab.repetitions == m.lab.repetitions,
        eq_ignore_ascii_case(trim(m.lab.fixture_sha256@), trim(m2.lab.fixture_sha256@)),
    ensures
        validation_issue(m, manifest_path, fixture_bytes, runtime_sqlite) is None
            <==> validation_issue(m2, manifest_path, fixture_bytes, runtime_sqlite) is None,
{
    assert(structure_issue(m2) == structure_issue(m));
}

} // verus!

verus! {

/// When no position has an issue, none is found.
proof fn lemma_first_some_all_none(check: spec_fn(int) -> Option<Seq<char>>, n: nat)
    requires
        forall|i: int| 0 <= i < n ==> #[trigger] check(i) is None,
    ensures
        first_some(check, n) is None,
    decreases n,
{
    if n > 0 {
        lemma_first_some_all_none(check, (n - 1) as nat);
    }
}

proof fn lemma_distinct_names_pass(label: Seq<char>, names: Seq<Seq<char>>)
    requires
        forall|i: int| 0 <= i < names.len() ==> !is_blank(#[trigger] names[i]),
        forall|i: int, j: int| 0 <= i < j < names.len() ==> #[trigger] names[i] != #[trigger] names[j],
    ensures
        names_issue(label, names) is None,
{
    let check = |i: int| name_check(label, names, i);
    assert forall|i: int| 0 <= i < names.len() implies #[trigger] check(i) is None by {
        assert(!is_blank(names[i]));
        if names.take(i).contains(names[i]) {
            let j = choose|j: int| 0 <= j < names.take(i).len() && names.take(i)[j] == names[i];
            assert(names[j] == names[i]);
        }
    }
    lemma_first_some_all_none(check, names.len());
}

/// The structural checks ask for nothing more than they say: a manifest with
/// schema version 1, a non-blank name and SQLite pin, 3 to 10000 repetitions,
/// at most 1000 warm-ups, at least three profiles and one query, unique
/// non-blank profile, query and PRAGMA names, PRAGMA names of ASCII letters,
/// digits and underscores, PRAGMA values without a semicolon, non-blank SQL,
/// and no profile that forbids a feature it requires (compared normalized)
/// has no structural issue.
pub proof fn lemma_structure_complete(m: Manifest)
    requires
        m.schema_version == 1,
        !is_blank(m.lab.name@),
        !is_blank(m.lab.sqlite_version@),
        3 <= m.lab.repetitions <= 10000,
        m.lab.warmups <= 1000,
        m.profiles@.len() >= 3,
        m.queries@.len() >= 1,
        forall|i: int| 0 <= i < m.profiles@.len() ==> !is_blank(#[trigger] m.profiles@[i].id@),
        forall|i: int, j: int|
            0 <= i < j < m.profiles@.len() ==> #[trigger] m.profiles@[i].id@
                != #[trigger] m.profiles@[j].id@,
        forall|i: int| 0 <= i < m.queries@.len() ==> !is_blank(#[trigger] m.queries@[i].name@),
        forall|i: int, j: int|
            0 <= i < j < m.queries@.len() ==> #[trigger] m.queries@[i].name@
                != #[trigger] m.queries@[j].name@,
        forall|i: int| 0 <= i < m.pragmas@.len() ==> !is_blank(#[trigger] m.pragmas@[i].name@),
        forall|i: int, j: int|
            0 <= i < j < m.pragmas@.len() ==> #[trigger] m.pragmas@[i].name@
                != #[trigger] m.pragmas@[j].name@,
        forall|i: int, k: int|
            0 <= i < m.pragmas@.len() && 0 <= k < m.pragmas@[i].name@.len() ==> {
                let c = #[trigger] m.pragmas@[i].name@[k];
                ('a' <= c <= 'z') || ('A' <= c <= 'Z') || ('0' <= c <= '9') || c == '_'
            },
        forall|i: int, k: int|
            0 <= i < m.pragmas@.len() && 0 <= k < m.pragmas@[i].value@.len()
                ==> #[trigger] m.pragmas@[i].value@[k] != ';',
        forall|i: int| 0 <= i < m.queries@.len() ==> !is_blank(#[trigger] m.queries@[i].sql@),
        forall|i: int, k: int, j: int|
            0 <= i < m.profiles@.len() && 0 <= k < m.profiles@[i].forbidden_cpu_features@.len() && 0
                <= j < m.profiles@[i].required_cpu_features@.len() ==> normalized_feature(
                #[trigger] m.profiles@[i].forbidden_cpu_features@[k]@,
            ) != normalized_feature(#[trigger] m.profiles@[i].required_cpu_features@[j]@),
    ensures
        structure_issue(m) is None,
{
    let ids = profile_ids(m.profiles@);
    let qn = query_names(m.queries@);
    let pn = pragma_names(m.pragmas@);
    assert forall|i: int, j: int| 0 <= i < j < ids.len() implies #[trigger] ids[i] != #[trigger] ids[j] by {
        assert(m.profiles@[i].id@ != m.profiles@[j].id@);
    }
    assert forall|i: int| 0 <= i < ids.len() implies !is_blank(#[trigger] ids[i]) by {
        assert(!is_blank(m.profiles@[i].id@));
    }
    lemma_distinct_names_pass("profile"@, ids);
    assert forall|i: int, j: int| 0 <= i < j < qn.len() implies #[trigger] qn[i] != #[trigger] qn[j] by {
        assert(m.queries@[i].name@ != m.queries@[j].name@);
    }
    assert forall|i: int| 0 <= i < qn.len() implies !is_blank(#[trigger] qn[i]) by {
        assert(!is_blank(m.queries@[i].name@));
    }
    lemma_distinct_names_pass("query"@, qn);
    assert forall|i: int, j: int| 0 <= i < j < pn.len() implies #[trigger] pn[i] != #[trigger] pn[j] by {
        assert(m.pragmas@[i].name@ != m.pragmas@[j].name@);
    }
    assert forall|i: int| 0 <= i < pn.len() implies !is_blank(#[trigger] pn[i]) by {
        assert(!is_blank(m.pragmas@[i].name@));
    }
    lemma_distinct_names_pass("PRAGMA"@, pn);
    let p_check = |i: int| pragma_check(m.pragmas@[i]);
    assert forall|i: int| 0 <= i < m.pragmas@.len() implies #[trigger] p_check(i) is None by {
        let p = m.pragmas@[i];
        assert forall|k: int| 0 <= k < p.name@.len() implies is_pragma_name_char(#[trigger] p.name@[k]) by {
            assert(m.pragmas@[i].name@[k] == p.name@[k]);
        }
        if has_char(p.value@, ';') {
            let k = choose|k: int| 0 <= k < p.value@.len() && p.value@[k] == ';';
            assert(m.pragmas@[i].value@[k] != ';');
        }
    }
    lemma_first_some_all_none(p_check, m.pragmas@.len());
    let s_check = |i: int| query_sql_check(m.queries@[i]);
    assert forall|i: int| 0 <= i < m.queries@.len() implies #[trigger] s_check(i) is None by {
        assert(!is_blank(m.queries@[i].sql@));
    }
    lemma_first_some_all_none(s_check, m.queries@.len());
    let c_check = |i: int| profile_conflict(m.profiles@[i]);
    assert forall|i: int| 0 <= i < m.profiles@.len() implies #[trigger] c_check(i) is None by {
        let p = m.profiles@[i];
        let f_check = |k: int| forbidden_check(p, k);
        assert forall|k: int| 0 <= k < p.forbidden_cpu_features@.len() implies #[trigger] f_check(k)
            is None by {
            let f = p.forbidden_cpu_features@[k]@;
            if requires_feature(p, f) {
                let j = choose|j: int|
                    0 <= j < p.required_cpu_features@.len() && normalized_feature(
                        #[trigger] p.required_cpu_features@[j]@,
                    ) == normalized_feature(f);
                assert(normalized_feature(m.profiles@[i].forbidden_cpu_features@[k]@)
                    != normalized_feature(m.profiles@[i].required_cpu_features@[j]@));
            }
        }
        lemma_first_some_all_none(f_check, p.forbidden_cpu_features@.len());
    }
    lemma_first_some_all_none(c_check, m.profiles@.len());
}

} // verus!
