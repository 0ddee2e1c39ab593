//! Flags past their expiry date.
use vstd::prelude::*;
use crate::ast::FlagDefinition;
use crate::lint::{findings, push_finding, LintLevel, LintWarning};
use crate::text::{concat3, decimal, decimal_of, int_decimal, int_text};

verus! {

/// The text `chrono` displays for the calendar date numbered `days`, counting
/// 1 January of year 1 as day 1; `None` where chrono has no such date.
pub uninterp spec fn ce_date_text(days: int) -> Option<Seq<char>>;

/// `chrono::NaiveDate::from_num_days_from_ce_opt`, displayed with `to_string`.
/// The result is the named `ce_date_text` of the day number.
#[verifier::external_body]
fn date_text(days: i32) -> (r: Option<String>)
    ensures
        match r {
            Some(t) => ce_date_text(days as int) == Some(t@),
            None => ce_date_text(days as int) is None,
        },
{
    match chrono::NaiveDate::from_num_days_from_ce_opt(days) {
        Some(d) => Some(d.to_string()),
        None => None,
    }
}

/// How an expiry date is written in a finding: as chrono displays it, or by
/// its day number where chrono has no such date.
pub open spec fn expiry_text(days: int) -> Seq<char> {
    match ce_date_text(days) {
        Some(t) => t,
        None => int_decimal(days),
    }
}

/// The error reported for a flag that expired `days_ago` days before today.
pub open spec fn expired_finding(name: Seq<char>, expires: int, days_ago: nat) -> (
    LintLevel,
    Seq<char>,
) {
    (
        LintLevel::Error,
        name + " expired "@ + expiry_text(expires) + " ("@ + decimal(days_ago)
            + " days ago). Run: ff find -s "@ + name,
    )
}

/// An error for a flag whose `@expires` date lies before `today` (both as
/// day numbers), saying how many days ago it expired.
pub open spec fn findings_of(name: Seq<char>, def: FlagDefinition, today: int) -> Seq<
    (LintLevel, Seq<char>),
> {
    match def.metadata.expires {
        Some(e) => if e < today {
            seq![expired_finding(name, e as int, (today - e) as nat)]
        } else {
            Seq::empty()
        },
        None => Seq::empty(),
    }
}

/// An error for a flag whose `@expires` date lies before `today` (both as
/// day numbers), saying how many days ago it expired.
pub fn check(name: &str, def: &FlagDefinition, today: i32) -> (r: Vec<LintWarning>)
    ensures
        findings(r@) == findings_of(name@, *def, today as int),
{
    let mut warnings: Vec<LintWarning> = Vec::new();
    if let Some(expires) = def.metadata.expires {
        if expires < today {
            let days_ago: u64 = (today as i64 - expires as i64) as u64;
            let date = match date_text(expires) {
                Some(t) => t,
                None => int_text(expires as i64),
            };
            let ago = decimal_of(days_ago);
            let head = concat3(name, " expired ", date.as_str());
            let middle = concat3(" (", ago.as_str(), " days ago). Run: ff find -s ");
            let msg = concat3(head.as_str(), middle.as_str(), name);
            push_finding(&mut warnings, LintWarning::error(msg));
            assert(msg@ =~= expired_finding(name@, expires as int, (today - expires) as nat).1);
        }
    }
    assert(findings(Seq::<LintWarning>::empty()) =~= Seq::empty());
    warnings
}

} // verus!
