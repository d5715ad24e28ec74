use vstd::prelude::*;

use crate::severity::Severity;

verus! {

/// Whether `c` equals the upper-case ASCII letter `upper`, ignoring ASCII case.
pub open spec fn same_letter(c: char, upper: char) -> bool {
    c == upper || (c as u32) == (upper as u32) + 32
}

/// Whether `s` is a non-empty prefix of `name`, ignoring ASCII case; `name`
/// is written in upper-case ASCII letters.
pub open spec fn abbreviates(s: Seq<char>, name: Seq<char>) -> bool {
    0 < s.len() <= name.len() && forall|i: int| 0 <= i < s.len() ==> same_letter(s[i], name[i])
}

/// The severity that a level name denotes: a non-empty, case-insensitive
/// prefix of one of the full names `OFF CRITICAL ERROR WARNING INFO DEBUG
/// TRACE`, or failing that of one of the short names `OFF CRIT ERRO WARN INFO
/// DEBG TRCE`; the first match in that order wins.
pub open spec fn level_named(s: Seq<char>) -> Option<Severity> {
    if abbreviates(s, seq!['O', 'F', 'F']) {
        Some(Severity::Off)
    } else if abbreviates(s, seq!['C', 'R', 'I', 'T', 'I', 'C', 'A', 'L']) {
        Some(Severity::Critical)
    } else if abbreviates(s, seq!['E', 'R', 'R', 'O', 'R']) {
        Some(Severity::Error)
    } else if abbreviates(s, seq!['W', 'A', 'R', 'N', 'I', 'N', 'G']) {
        Some(Severity::Warning)
    } else if abbreviates(s, seq!['I', 'N', 'F', 'O']) {
        Some(Severity::Info)
    } else if abbreviates(s, seq!['D', 'E', 'B', 'U', 'G']) {
        Some(Severity::Debug)
    } else if abbreviates(s, seq!['T', 'R', 'A', 'C', 'E']) {
        Some(Severity::Trace)
    } else if abbreviates(s, seq!['D', 'E', 'B', 'G']) {
        Some(Severity::Debug)
    } else if abbreviates(s, seq!['T', 'R', 'C', 'E']) {
        Some(Severity::Trace)
    } else {
        None
    }
}

/// Relies on slog's `FromStr for FilterLevel`: it looks the name up, ignoring
/// ASCII case, as a non-empty prefix of the full level names and then of the
/// short ones, in the order `Off` to `Trace`.
#[verifier::external_body]
pub(crate) fn parse_level_name(name: &Vec<char>) -> (r: Option<Severity>)
    ensures
        r == level_named(name@),
{
    let s: String = name.iter().collect();
    match s.parse::<slog::FilterLevel>() {
        Ok(slog::FilterLevel::Off) => Some(Severity::Off),
        Ok(slog::FilterLevel::Critical) => Some(Severity::Critical),
        Ok(slog::FilterLevel::Error) => Some(Severity::Error),
        Ok(slog::FilterLevel::Warning) => Some(Severity::Warning),
        Ok(slog::FilterLevel::Info) => Some(Severity::Info),
        Ok(slog::FilterLevel::Debug) => Some(Severity::Debug),
        Ok(slog::FilterLevel::Trace) => Some(Severity::Trace),
        Err(()) => None,
    }
}

} // verus!
