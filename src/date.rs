//! The key of a day: a calendar date written `month-day-year`.
use vstd::prelude::*;

use crate::text::{
    decimal, fields, lemma_fields_join, lemma_fields_no_hyphen, lemma_read_decimal, parse_u32,
    push_decimal, read_u32, split_fields,
};

verus! {

/// A calendar date. No calendar validation is made: month 13 or day 32 stand as given.
/// Two keys are the same day exactly when month, day and year agree.
#[derive(Clone, Copy, Debug, PartialEq, Eq, Structural)]
pub struct HabitID {
    pub day: u32,
    pub month: u32,
    pub year: u32,
}

/// The text of a date: its month, day and year in decimal, joined by hyphens.
pub open spec fn date_text(d: HabitID) -> Seq<char> {
    decimal(d.month as nat) + seq!['-'] + decimal(d.day as nat) + seq!['-'] + decimal(d.year as nat)
}

/// The date that a text names: its first three hyphen-separated pieces read as
/// month, day and year; pieces after the third are not read.
pub open spec fn read_date(s: Seq<char>) -> Option<HabitID> {
    let f = fields(s);
    if f.len() >= 3 && read_u32(f[0]) is Some && read_u32(f[1]) is Some && read_u32(f[2]) is Some {
        Some(HabitID { month: read_u32(f[0])->0, day: read_u32(f[1])->0, year: read_u32(f[2])->0 })
    } else {
        None
    }
}

/// A date's text reads back as the same date.
pub proof fn lemma_date_text_round_trip(d: HabitID)
    ensures
        read_date(date_text(d)) == Some(d),
{
    let m = decimal(d.month as nat);
    let a = decimal(d.day as nat);
    let y = decimal(d.year as nat);
    lemma_read_decimal(d.month);
    lemma_read_decimal(d.day);
    lemma_read_decimal(d.year);
    lemma_fields_no_hyphen(m);
    lemma_fields_no_hyphen(a);
    lemma_fields_no_hyphen(y);
    lemma_fields_join(m, a);
    lemma_fields_join(m + seq!['-'] + a, y);
    assert(fields(date_text(d)) =~= seq![m, a, y]);
}

/// A date that a calendar can show: its month in 1..=12 and its day in 1..=31.
pub open spec fn calendar_date(d: HabitID) -> bool {
    1 <= d.month <= 12 && 1 <= d.day <= 31
}

/// Relies on chrono's `Local::now` with `Datelike::month`, `day` and `year`:
/// the local date now, as (month, day, year). chrono documents the month as
/// 1..=12 and the day as 1..=31. chrono panics where the system clock stands
/// before 1970 or the local time zone's offset cannot be found; both come from
/// the machine, not from an argument.
#[verifier::external_body]
fn local_date() -> (r: (u32, u32, u32))
    ensures
        1 <= r.0 <= 12,
        1 <= r.1 <= 31,
{
    let now = chrono::Local::now();
    (chrono::Datelike::month(&now), chrono::Datelike::day(&now), chrono::Datelike::year(&now) as u32)
}

impl HabitID {
    /// The local date today.
    pub fn today() -> (r: HabitID)
        ensures
            calendar_date(r),
    {
        let (month, day, year) = local_date();
        HabitID { day, month, year }
    }

    /// The date as text, e.g. `10-4-2023`.
    pub fn to_string(&self) -> (r: String)
        ensures
            r@ == date_text(*self),
    {
        let mut out = String::new();
        push_decimal(&mut out, self.month);
        out.append("-");
        push_decimal(&mut out, self.day);
        out.append("-");
        push_decimal(&mut out, self.year);
        proof {
            reveal_strlit("-");
        }
        out
    }

    /// Reads a date written `month-day-year`; `None` where the text names none.
    pub fn from_string(val: String) -> (r: Option<HabitID>)
        ensures
            r == read_date(val@),
    {
        let parts = split_fields(val.as_str());
        let ghost f = parts@.map_values(|p: &str| p@);
        if parts.len() < 3 {
            return None;
        }
        assert(f[0] == parts@[0]@ && f[1] == parts@[1]@ && f[2] == parts@[2]@);
        let month = parse_u32(parts[0]);
        let day = parse_u32(parts[1]);
        let year = parse_u32(parts[2]);
        match (month, day, year) {
            (Some(month), Some(day), Some(year)) => Some(HabitID { day, month, year }),
            _ => None,
        }
    }
}

} // verus!
