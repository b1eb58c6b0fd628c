use vstd::prelude::*;

use crate::compare::Comparison;
use crate::manifest::{environment_label, Manifest};
use crate::report::Report;
use crate::text::{decimal, u64_decimal};

verus! {

/// What `check` reports for a valid manifest.
pub open spec fn check_message(m: Manifest) -> Seq<char> {
    "Valid: "@ + decimal(m.queries@.len()) + " queries across "@ + decimal(m.profiles@.len())
        + " CPU profiles; SQLite "@ + m.lab.sqlite_version@ + "."@
}

pub fn check_summary(manifest: &Manifest) -> (r: String)
    ensures
        r@ == check_message(*manifest),
{
    let mut r = String::from_str("Valid: ");
    r.append(u64_decimal(manifest.queries.len() as u64).as_str());
    r.append(" queries across ");
    r.append(u64_decimal(manifest.profiles.len() as u64).as_str());
    r.append(" CPU profiles; SQLite ");
    r.append(manifest.lab.sqlite_version.as_str());
    r.append(".");
    r
}

/// What `run` reports once a profile's evidence is captured.
pub open spec fn run_message(r: Report) -> Seq<char> {
    "Captured "@ + decimal(r.queries@.len()) + " query result(s) for "@ + r.environment.profile@
        + " "@ + environment_label(r.environment.evidence_kind) + " evidence."@
}

pub fn run_summary(report: &Report) -> (r: String)
    ensures
        r@ == run_message(*report),
{
    let mut r = String::from_str("Captured ");
    r.append(u64_decimal(report.queries.len() as u64).as_str());
    r.append(" query result(s) for ");
    r.append(report.environment.profile.as_str());
    r.append(" ");
    r.append(report.environment.evidence_kind.label());
    r.append(" evidence.");
    r
}

/// What `matrix` reports after running every profile.
pub open spec fn matrix_message(profiles: nat) -> Seq<char> {
    "Captured "@ + decimal(profiles) + " declared CPU profiles."@
}

pub fn matrix_summary(profiles: usize) -> (r: String)
    ensures
        r@ == matrix_message(profiles as nat),
{
    let mut r = String::from_str("Captured ");
    r.append(u64_decimal(profiles as u64).as_str());
    r.append(" declared CPU profiles.");
    r
}

/// The exit status of `compare`: 2 when any query regressed beyond the
/// threshold, 0 otherwise.
pub fn gate_exit_code(comparison: &Comparison) -> (code: u8)
    ensures
        code == (if comparison.regressions > 0 {
            2u8
        } else {
            0u8
        }),
{
    if comparison.regressions > 0 {
        2
    } else {
        0
    }
}

} // verus!
