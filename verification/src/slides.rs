//! Break slides: the words on the slides that announce which teams broke at
//! a tournament.

use crate::edit_command::chars_of;
use vstd::prelude::*;

verus! {

/// What an administrator enters to generate break slides.
#[derive(Debug, Clone)]
pub struct BreakSlidesForm {
    pub url: String,
    pub api_key: String,
    pub tournament_slug: String,
}

/// The ordinal suffix of a rank: 1st, 2nd, 3rd, and "th" for every other
/// number.
pub open spec fn rank_suffix(rank: i32) -> Seq<char> {
    if rank == 1 {
        "st"@
    } else if rank == 2 {
        "nd"@
    } else if rank == 3 {
        "rd"@
    } else {
        "th"@
    }
}

pub fn add_suffix(rank: i32) -> (s: String)
    ensures
        s@ == rank_suffix(rank),
{
    match rank {
        1 => String::from_str("st"),
        2 => String::from_str("nd"),
        3 => String::from_str("rd"),
        _ => String::from_str("th"),
    }
}

/// A metric by which a tournament ranks teams.
#[derive(Debug, Clone, Copy, PartialEq, Eq, Structural)]
pub enum TeamMetric {
    Points,
    Wins,
    SpeaksSum,
    SpeaksAvg,
    SpeaksIndAvg,
    SpeaksStddev,
    DrawStrength,
    DrawStrengthSpeaks,
    MarginSum,
    MarginAvg,
    Npullups,
    PullupDebates,
    NumAdjs,
    Firsts,
    Seconds,
    Thirds,
    NumIron,
    Wbw,
}

/// The name shown for a metric.
pub open spec fn metric_name(metric: TeamMetric) -> Seq<char> {
    match metric {
        TeamMetric::Points => "Points"@,
        TeamMetric::Wins => "Wins"@,
        TeamMetric::SpeaksSum => "Speaker Points Sum"@,
        TeamMetric::SpeaksAvg => "Speaker Points Average"@,
        TeamMetric::SpeaksIndAvg => "Individual Speaker Points Average"@,
        TeamMetric::SpeaksStddev => "Speaker Points Standard Deviation"@,
        TeamMetric::DrawStrength => "Draw Strength"@,
        TeamMetric::DrawStrengthSpeaks => "Draw Strength Speaker Points"@,
        TeamMetric::MarginSum => "Margin Sum"@,
        TeamMetric::MarginAvg => "Margin Average"@,
        TeamMetric::Npullups => "Number of Pullups"@,
        TeamMetric::PullupDebates => "Pullup Debates"@,
        TeamMetric::NumAdjs => "Number of Adjudications"@,
        TeamMetric::Firsts => "Firsts"@,
        TeamMetric::Seconds => "Seconds"@,
        TeamMetric::Thirds => "Thirds"@,
        TeamMetric::NumIron => "Number of Iron Persons"@,
        TeamMetric::Wbw => "Who Beat Whom"@,
    }
}

pub fn name_of_metric(metric: &TeamMetric) -> (s: String)
    ensures
        s@ == metric_name(*metric),
{
    match metric {
        TeamMetric::Points => String::from_str("Points"),
        TeamMetric::Wins => String::from_str("Wins"),
        TeamMetric::SpeaksSum => String::from_str("Speaker Points Sum"),
        TeamMetric::SpeaksAvg => String::from_str("Speaker Points Average"),
        TeamMetric::SpeaksIndAvg => String::from_str("Individual Speaker Points Average"),
        TeamMetric::SpeaksStddev => String::from_str("Speaker Points Standard Deviation"),
        TeamMetric::DrawStrength => String::from_str("Draw Strength"),
        TeamMetric::DrawStrengthSpeaks => String::from_str("Draw Strength Speaker Points"),
        TeamMetric::MarginSum => String::from_str("Margin Sum"),
        TeamMetric::MarginAvg => String::from_str("Margin Average"),
        TeamMetric::Npullups => String::from_str("Number of Pullups"),
        TeamMetric::PullupDebates => String::from_str("Pullup Debates"),
        TeamMetric::NumAdjs => String::from_str("Number of Adjudications"),
        TeamMetric::Firsts => String::from_str("Firsts"),
        TeamMetric::Seconds => String::from_str("Seconds"),
        TeamMetric::Thirds => String::from_str("Thirds"),
        TeamMetric::NumIron => String::from_str("Number of Iron Persons"),
        TeamMetric::Wbw => String::from_str("Who Beat Whom"),
    }
}

/// What a one-letter remark on a breaking team means: `C` capped, `I`
/// ineligible, `D` different break, `d` disqualified, `t` lost coin toss,
/// `w` withdrawn. Other codes have no meaning.
pub open spec fn remark_meaning(code: Seq<char>) -> Option<Seq<char>> {
    if code.len() != 1 {
        None
    } else if code[0] == 'C' {
        Some("Capped"@)
    } else if code[0] == 'I' {
        Some("Ineligible"@)
    } else if code[0] == 'D' {
        Some("Different break"@)
    } else if code[0] == 'd' {
        Some("Disqualified"@)
    } else if code[0] == 't' {
        Some("Lost coin toss"@)
    } else if code[0] == 'w' {
        Some("Withdrawn"@)
    } else {
        None
    }
}

/// The meaning of a remark code, if it has one.
pub fn remark_description(code: &str) -> (r: Option<&'static str>)
    ensures
        match remark_meaning(code@) {
            Some(m) => r matches Some(s) && s@ == m,
            None => r is None,
        },
{
    let cs = chars_of(code);
    if cs.len() != 1 {
        return None;
    }
    let c = cs[0];
    if c == 'C' {
        Some("Capped")
    } else if c == 'I' {
        Some("Ineligible")
    } else if c == 'D' {
        Some("Different break")
    } else if c == 'd' {
        Some("Disqualified")
    } else if c == 't' {
        Some("Lost coin toss")
    } else if c == 'w' {
        Some("Withdrawn")
    } else {
        None
    }
}

} // verus!
