use vstd::prelude::*;
use vstd::arithmetic::div_mod::{
    lemma_add_mod_noop, lemma_add_mod_noop_right, lemma_mod_add_multiples_vanish, lemma_mod_bound,
    lemma_small_mod,
};
use crate::date::{
    Date, Weekday, add_days_x, date_weekday_idx, day_number, day_number_x, parse_iso_date,
    parse_iso_date_x, valid_date, valid_date_ext, weekday_idx, weekday_index_x,
};
use crate::errors::PlanError;
use crate::model::{Day, MealType, valid_day};
use crate::text::{chars_eq, lower_seq, lower_vec, str_chars};

verus! {

/// Case-insensitive meal-type parse: the four kind names, nothing else.
pub open spec fn parse_meal_type_spec(s: Seq<char>) -> Option<MealType> {
    let l = lower_seq(s);
    if l == seq!['b', 'r', 'e', 'a', 'k', 'f', 'a', 's', 't'] {
        Some(MealType::Breakfast)
    } else if l == seq!['l', 'u', 'n', 'c', 'h'] {
        Some(MealType::Lunch)
    } else if l == seq!['d', 'i', 'n', 'n', 'e', 'r'] {
        Some(MealType::Dinner)
    } else if l == seq!['s', 'n', 'a', 'c', 'k'] {
        Some(MealType::Snack)
    } else {
        None
    }
}

pub fn parse_meal_type(s: &str) -> (r: Result<MealType, PlanError>)
    ensures
        match r {
            Ok(t) => parse_meal_type_spec(s@) == Some(t),
            Err(e) => parse_meal_type_spec(s@) is None && e == PlanError::InvalidMealType,
        },
{
    let l = lower_vec(&str_chars(s));
    if chars_eq(&l, &vec!['b', 'r', 'e', 'a', 'k', 'f', 'a', 's', 't']) {
        Ok(MealType::Breakfast)
    } else if chars_eq(&l, &vec!['l', 'u', 'n', 'c', 'h']) {
        Ok(MealType::Lunch)
    } else if chars_eq(&l, &vec!['d', 'i', 'n', 'n', 'e', 'r']) {
        Ok(MealType::Dinner)
    } else if chars_eq(&l, &vec!['s', 'n', 'a', 'c', 'k']) {
        Ok(MealType::Snack)
    } else {
        Err(PlanError::InvalidMealType)
    }
}

/// Day parse: first the strict ISO date form, then a case-insensitive
/// weekday name, otherwise a format error.
pub open spec fn parse_day_spec(s: Seq<char>) -> Option<Day> {
    match parse_iso_date(s) {
        Some(d) => Some(Day::Date(d)),
        None => {
            let l = lower_seq(s);
            if l == seq!['m', 'o', 'n', 'd', 'a', 'y'] {
                Some(Day::Weekday(Weekday::Mon))
            } else if l == seq!['t', 'u', 'e', 's', 'd', 'a', 'y'] {
                Some(Day::Weekday(Weekday::Tue))
            } else if l == seq!['w', 'e', 'd', 'n', 'e', 's', 'd', 'a', 'y'] {
                Some(Day::Weekday(Weekday::Wed))
            } else if l == seq!['t', 'h', 'u', 'r', 's', 'd', 'a', 'y'] {
                Some(Day::Weekday(Weekday::Thu))
            } else if l == seq!['f', 'r', 'i', 'd', 'a', 'y'] {
                Some(Day::Weekday(Weekday::Fri))
            } else if l == seq!['s', 'a', 't', 'u', 'r', 'd', 'a', 'y'] {
                Some(Day::Weekday(Weekday::Sat))
            } else if l == seq!['s', 'u', 'n', 'd', 'a', 'y'] {
                Some(Day::Weekday(Weekday::Sun))
            } else {
                None
            }
        },
    }
}

pub fn parse_day(s: &str) -> (r: Result<Day, PlanError>)
    ensures
        match r {
            Ok(d) => parse_day_spec(s@) == Some(d) && valid_day(d),
            Err(e) => parse_day_spec(s@) is None && e == PlanError::InvalidDayFormat,
        },
{
    let chars = str_chars(s);
    match parse_iso_date_x(&chars) {
        Some(d) => Ok(Day::Date(d)),
        None => {
            let l = lower_vec(&chars);
            if chars_eq(&l, &vec!['m', 'o', 'n', 'd', 'a', 'y']) {
                Ok(Day::Weekday(Weekday::Mon))
            } else if chars_eq(&l, &vec!['t', 'u', 'e', 's', 'd', 'a', 'y']) {
                Ok(Day::Weekday(Weekday::Tue))
            } else if chars_eq(&l, &vec!['w', 'e', 'd', 'n', 'e', 's', 'd', 'a', 'y']) {
                Ok(Day::Weekday(Weekday::Wed))
            } else if chars_eq(&l, &vec!['t', 'h', 'u', 'r', 's', 'd', 'a', 'y']) {
                Ok(Day::Weekday(Weekday::Thu))
            } else if chars_eq(&l, &vec!['f', 'r', 'i', 'd', 'a', 'y']) {
                Ok(Day::Weekday(Weekday::Fri))
            } else if chars_eq(&l, &vec!['s', 'a', 't', 'u', 'r', 'd', 'a', 'y']) {
                Ok(Day::Weekday(Weekday::Sat))
            } else if chars_eq(&l, &vec!['s', 'u', 'n', 'd', 'a', 'y']) {
                Ok(Day::Weekday(Weekday::Sun))
            } else {
                Err(PlanError::InvalidDayFormat)
            }
        },
    }
}

/// Places a day on the timeline. A concrete date stands as it is; a weekday
/// symbol resolves to the one date with that weekday in the week
/// [week_start, week_start + 6 days].
pub fn resolve_to_date(day: &Day, week_start: &Date) -> (r: Date)
    requires
        valid_date(*week_start),
        valid_day(*day),
    ensures
        match *day {
            Day::Date(d0) => r == d0,
            Day::Weekday(w) => {
                &&& valid_date_ext(r)
                &&& day_number(*week_start) <= day_number(r) <= day_number(*week_start) + 6
                &&& date_weekday_idx(r) == weekday_idx(w)
            },
        },
{
    match day {
        Day::Date(d0) => *d0,
        Day::Weekday(w) => {
            let sn: u32 = day_number_x(week_start);
            let sidx: u32 = sn % 7;
            let widx: u32 = weekday_index_x(w);
            let delta: u32 = (widx + 7 - sidx) % 7;
            let r = add_days_x(week_start, delta);
            proof {
                let a = day_number(*week_start);
                let wi = weekday_idx(*w);
                lemma_mod_bound(a, 7);
                lemma_mod_bound(wi + 7 - a % 7, 7);
                lemma_small_mod(((wi + 7 - a % 7) % 7) as nat, 7);
                lemma_add_mod_noop(a, delta as int, 7);
                lemma_add_mod_noop_right(a % 7, wi + 7 - a % 7, 7);
                lemma_mod_add_multiples_vanish(wi, 7);
                lemma_small_mod(wi as nat, 7);
                assert(day_number(r) % 7 == wi);
            }
            r
        },
    }
}

} // verus!
