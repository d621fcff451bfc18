//! The acceptance gate: a file with a clean scan passes with no questions;
//! a file with findings passes only on an explicit yes, and a missing
//! answer counts as no.

use vstd::prelude::*;

use crate::scanner::ScanResult;

verus! {

/// A file is accepted exactly when its scan is clean or the user has
/// explicitly said yes.
pub open spec fn gate_accepts_spec(n_matches: int, answer: Option<bool>) -> bool {
    n_matches == 0 || answer == Option::Some(true)
}

/// Whether confirmation must be requested for these findings: exactly
/// for a nonempty report.
pub fn needs_confirmation(results: &Vec<ScanResult>) -> (b: bool)
    ensures
        b == (results@.len() > 0),
{
    results.len() > 0
}

/// The acceptance decision over the findings and over the answer that
/// came back, if any answer came back at all.
pub fn gate_accepts(results: &Vec<ScanResult>, answer: Option<bool>) -> (b: bool)
    ensures
        b == gate_accepts_spec(results@.len() as int, answer),
{
    if results.len() == 0 {
        true
    } else {
        match answer {
            Option::Some(true) => true,
            _ => false,
        }
    }
}

/// A clean scan is accepted without any question: no confirmation is
/// needed for it.
pub proof fn lemma_clean_scan_needs_no_answer(answer: Option<bool>)
    ensures
        gate_accepts_spec(0, answer),
{
}

/// Findings are accepted only on an explicit yes; silence rejects.
pub proof fn lemma_findings_need_explicit_yes(n: int, answer: Option<bool>)
    requires
        n > 0,
        answer != Option::Some(true),
    ensures
        !gate_accepts_spec(n, answer),
{
}

} // verus!
