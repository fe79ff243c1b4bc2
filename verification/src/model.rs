use vstd::prelude::*;
use crate::date::{
    Date, Weekday, iso_date_chars, iso_date_seq, valid_date, weekday_short_name,
    weekday_short_name_chars,
};
use crate::text::chars_to_string;

verus! {

/// The kind of a meal entry.
#[derive(Clone, Copy, Debug, PartialEq, Eq, Structural)]
pub enum MealType {
    Breakfast,
    Lunch,
    Dinner,
    Snack,
}

/// A day slot: either an abstract weekday symbol or a concrete calendar date.
/// The two variants never compare equal, even when the symbol would resolve
/// to the same calendar day.
#[derive(Clone, Copy, Debug, PartialEq, Eq, Structural)]
pub enum Day {
    Weekday(Weekday),
    Date(Date),
}

pub open spec fn valid_day(d: Day) -> bool {
    match d {
        Day::Weekday(_) => true,
        Day::Date(dt) => valid_date(dt),
    }
}

/// Display name of a meal type.
pub open spec fn meal_type_name(t: MealType) -> Seq<char> {
    match t {
        MealType::Breakfast => seq!['B', 'r', 'e', 'a', 'k', 'f', 'a', 's', 't'],
        MealType::Lunch => seq!['L', 'u', 'n', 'c', 'h'],
        MealType::Dinner => seq!['D', 'i', 'n', 'n', 'e', 'r'],
        MealType::Snack => seq!['S', 'n', 'a', 'c', 'k'],
    }
}

pub fn meal_type_name_chars(t: &MealType) -> (v: Vec<char>)
    ensures
        v@ == meal_type_name(*t),
{
    match t {
        MealType::Breakfast => vec!['B', 'r', 'e', 'a', 'k', 'f', 'a', 's', 't'],
        MealType::Lunch => vec!['L', 'u', 'n', 'c', 'h'],
        MealType::Dinner => vec!['D', 'i', 'n', 'n', 'e', 'r'],
        MealType::Snack => vec!['S', 'n', 'a', 'c', 'k'],
    }
}

impl MealType {
    /// The display name, e.g. "Breakfast".
    pub fn name(&self) -> (r: String)
        ensures
            r@ == meal_type_name(*self),
    {
        chars_to_string(&meal_type_name_chars(self))
    }
}

/// Display text of a day: the short weekday name, or the ISO date.
pub open spec fn day_seq(d: Day) -> Seq<char> {
    match d {
        Day::Weekday(w) => weekday_short_name(w),
        Day::Date(dt) => iso_date_seq(dt),
    }
}

pub fn day_chars(d: &Day) -> (v: Vec<char>)
    requires
        valid_day(*d),
    ensures
        v@ == day_seq(*d),
{
    match d {
        Day::Weekday(w) => weekday_short_name_chars(w),
        Day::Date(dt) => iso_date_chars(dt),
    }
}

impl Day {
    /// The display text, e.g. "Mon" or "2023-05-01".
    pub fn to_text(&self) -> (r: String)
        requires
            valid_day(*self),
        ensures
            r@ == day_seq(*self),
    {
        chars_to_string(&day_chars(self))
    }
}

/// A single meal entry.
#[derive(Clone, Debug)]
pub struct Meal {
    pub meal_type: MealType,
    pub day: Day,
    pub cook: String,
    pub description: String,
}

/// Mathematical value of a meal entry.
pub ghost struct MealV {
    pub meal_type: MealType,
    pub day: Day,
    pub cook: Seq<char>,
    pub description: Seq<char>,
}

impl View for Meal {
    type V = MealV;

    open spec fn view(&self) -> MealV {
        MealV {
            meal_type: self.meal_type,
            day: self.day,
            cook: self.cook@,
            description: self.description@,
        }
    }
}

impl Meal {
    pub fn new(meal_type: MealType, day: Day, cook: String, description: String) -> (r: Meal)
        ensures
            r@.meal_type == meal_type,
            r@.day == day,
            r@.cook == cook@,
            r@.description == description@,
    {
        Meal { meal_type, day, cook, description }
    }
}

/// A week's plan: the ordered meal entries plus bookkeeping.
#[derive(Clone, Debug)]
pub struct MealPlan {
    pub meals: Vec<Meal>,
    pub week_start_date: Date,
    pub last_modified: i64,
}

/// Mathematical value of a plan.
pub ghost struct PlanV {
    pub meals: Seq<MealV>,
    pub week_start_date: Date,
    pub last_modified: int,
}

impl View for MealPlan {
    type V = PlanV;

    open spec fn view(&self) -> PlanV {
        PlanV {
            meals: self.meals@.map_values(|m: Meal| m@),
            week_start_date: self.week_start_date,
            last_modified: self.last_modified as int,
        }
    }
}

/// Every date a plan holds is a real calendar date with a four-digit year,
/// and the timestamp is a 64-bit value.
pub open spec fn plan_wf(p: PlanV) -> bool {
    &&& valid_date(p.week_start_date)
    &&& forall|i: int| 0 <= i < p.meals.len() ==> valid_day(#[trigger] p.meals[i].day)
    &&& -9223372036854775808 <= p.last_modified <= 9223372036854775807
}

pub open spec fn key_matches(m: MealV, t: MealType, d: Day) -> bool {
    m.meal_type == t && m.day == d
}

pub open spec fn has_match(s: Seq<MealV>, t: MealType, d: Day) -> bool {
    exists|i: int| 0 <= i < s.len() && key_matches(#[trigger] s[i], t, d)
}

/// Index of the first entry with the given key, or the length if there is none.
pub open spec fn find_index(s: Seq<MealV>, t: MealType, d: Day) -> int
    decreases s.len(),
{
    if s.len() == 0 {
        0
    } else if key_matches(s[0], t, d) {
        0
    } else {
        1 + find_index(s.drop_first(), t, d)
    }
}

pub proof fn lemma_find_index(s: Seq<MealV>, t: MealType, d: Day)
    ensures
        has_match(s, t, d) ==> {
            &&& 0 <= find_index(s, t, d) < s.len()
            &&& key_matches(s[find_index(s, t, d)], t, d)
            &&& forall|j: int| 0 <= j < find_index(s, t, d) ==> !key_matches(#[trigger] s[j], t, d)
        },
        !has_match(s, t, d) ==> find_index(s, t, d) == s.len(),
    decreases s.len(),
{
    if s.len() == 0 {
    } else if key_matches(s[0], t, d) {
    } else {
        let rest = s.drop_first();
        lemma_find_index(rest, t, d);
        assert(forall|i: int| 0 <= i < rest.len() ==> #[trigger] rest[i] == s[i + 1]);
        if has_match(s, t, d) {
            let i = choose|i: int| 0 <= i < s.len() && key_matches(#[trigger] s[i], t, d);
            assert(key_matches(rest[i - 1], t, d));
            assert(has_match(rest, t, d));
        }
        if has_match(rest, t, d) {
            let i = choose|i: int| 0 <= i < rest.len() && key_matches(#[trigger] rest[i], t, d);
            assert(key_matches(s[i + 1], t, d));
            assert(has_match(s, t, d));
        }
        if has_match(s, t, d) {
            let fr = find_index(rest, t, d);
            assert(key_matches(s[fr + 1], t, d));
            assert forall|j: int| 0 <= j < fr + 1 implies !key_matches(#[trigger] s[j], t, d) by {
                if j > 0 {
                    assert(!key_matches(rest[j - 1], t, d));
                }
            }
        }
    }
}

/// No two entries share a (meal_type, day) key.
pub open spec fn unique_keys(s: Seq<MealV>) -> bool {
    forall|i: int, j: int|
        0 <= i < j < s.len() ==> !(#[trigger] s[i].meal_type == #[trigger] s[j].meal_type
            && s[i].day == s[j].day)
}

/// Under pairwise distinct keys — the invariant the add, replace and edit
/// workflows are proved to preserve — a key matches at most one entry.
pub proof fn lemma_unique_at_most_one(s: Seq<MealV>, t: MealType, d: Day)
    requires
        unique_keys(s),
    ensures
        forall|i: int, j: int|
            0 <= i < s.len() && 0 <= j < s.len() && key_matches(#[trigger] s[i], t, d)
                && key_matches(#[trigger] s[j], t, d) ==> i == j,
{
}

/// Immediately after a removal of key (t, d) succeeds on a plan whose entries
/// have pairwise distinct keys — the invariant the add, replace and edit
/// workflows are proved to preserve; the raw store itself does not demand
/// it — a lookup of that key finds nothing.
pub proof fn lemma_find_none_after_remove(s: Seq<MealV>, t: MealType, d: Day)
    requires
        unique_keys(s),
        has_match(s, t, d),
    ensures
        !has_match(s.remove(find_index(s, t, d)), t, d),
{
    lemma_find_index(s, t, d);
    let fi = find_index(s, t, d);
    let rem = s.remove(fi);
    if has_match(rem, t, d) {
        let i = choose|i: int| 0 <= i < rem.len() && key_matches(#[trigger] rem[i], t, d);
        if i < fi {
            assert(rem[i] == s[i]);
            assert(false);
        } else {
            assert(rem[i] == s[i + 1]);
            assert(key_matches(s[fi], t, d));
            assert(s[fi].meal_type == s[i + 1].meal_type && s[fi].day == s[i + 1].day);
            assert(false);
        }
    }
}

/// Relies on std SystemTime::now / duration_since: seconds of the current
/// wall clock relative to the Unix epoch, negative for a clock set before
/// it. Both branches of the clock reading are handled, so the call returns
/// on every clock.
#[verifier::external_body]
pub(crate) fn now_timestamp() -> i64 {
    match std::time::SystemTime::now().duration_since(std::time::UNIX_EPOCH) {
        Ok(d) => d.as_secs() as i64,
        Err(e) => (e.duration().as_secs() as i64).wrapping_neg(),
    }
}

impl MealPlan {
    /// A fresh, empty plan anchored at the given week-start date.
    pub fn new(week_start_date: Date) -> (r: MealPlan)
        requires
            valid_date(week_start_date),
        ensures
            r@.meals.len() == 0,
            r@.week_start_date == week_start_date,
            plan_wf(r@),
    {
        MealPlan { meals: Vec::new(), week_start_date, last_modified: now_timestamp() }
    }

    /// Appends an entry and touches the modification time. Uniqueness of the
    /// (meal_type, day) key is the calling workflow's duty, not the store's.
    pub fn add_meal(&mut self, meal: Meal)
        ensures
            final(self)@.meals == old(self)@.meals.push(meal@),
            final(self)@.week_start_date == old(self)@.week_start_date,
    {
        self.meals.push(meal);
        self.last_modified = now_timestamp();
        proof {
            assert(self@.meals =~= old(self)@.meals.push(self.meals@.last()@));
        }
    }

    /// First entry with the given key, if any.
    pub fn find_meal(&self, meal_type: &MealType, day: &Day) -> (r: Option<&Meal>)
        ensures
            match r {
                Some(m) => {
                    &&& has_match(self@.meals, *meal_type, *day)
                    &&& m@ == self@.meals[find_index(self@.meals, *meal_type, *day)]
                    &&& key_matches(m@, *meal_type, *day)
                },
                None => !has_match(self@.meals, *meal_type, *day),
            },
    {
        let mut i: usize = 0;
        while i < self.meals.len()
            invariant
                i <= self.meals@.len(),
                self@.meals.len() == self.meals@.len(),
                forall|j: int| 0 <= j < i ==> !key_matches(#[trigger] self@.meals[j], *meal_type, *day),
            decreases self.meals@.len() - i,
        {
            let m: &Meal = &self.meals[i];
            if m.meal_type == *meal_type && m.day == *day {
                proof {
                    lemma_find_index(self@.meals, *meal_type, *day);
                    assert(key_matches(self@.meals[i as int], *meal_type, *day));
                    assert(find_index(self@.meals, *meal_type, *day) == i);
                }
                return Some(m);
            }
            i += 1;
        }
        None
    }

    /// Removes the first entry with the given key; touches the modification
    /// time only when something was removed.
    pub fn remove_meal(&mut self, meal_type: &MealType, day: &Day) -> (r: Option<Meal>)
        ensures
            match r {
                Some(m) => {
                    &&& has_match(old(self)@.meals, *meal_type, *day)
                    &&& m@ == old(self)@.meals[find_index(old(self)@.meals, *meal_type, *day)]
                    &&& key_matches(m@, *meal_type, *day)
                    &&& final(self)@.meals == old(self)@.meals.remove(
                        find_index(old(self)@.meals, *meal_type, *day),
                    )
                    &&& final(self)@.week_start_date == old(self)@.week_start_date
                },
                None => {
                    &&& !has_match(old(self)@.meals, *meal_type, *day)
                    &&& *final(self) == *old(self)
                },
            },
    {
        let mut i: usize = 0;
        while i < self.meals.len()
            invariant
                i <= self.meals@.len(),
                *self == *old(self),
                forall|j: int| 0 <= j < i ==> !key_matches(#[trigger] self@.meals[j], *meal_type, *day),
            decreases self.meals@.len() - i,
        {
            let matched: bool = {
                let m: &Meal = &self.meals[i];
                m.meal_type == *meal_type && m.day == *day
            };
            if matched {
                proof {
                    lemma_find_index(self@.meals, *meal_type, *day);
                    assert(key_matches(self@.meals[i as int], *meal_type, *day));
                    assert(find_index(self@.meals, *meal_type, *day) == i);
                }
                let meal = self.meals.remove(i);
                self.last_modified = now_timestamp();
                proof {
                    assert(self@.meals =~= old(self)@.meals.remove(i as int));
                }
                return Some(meal);
            }
            i += 1;
        }
        None
    }
}

} // verus!
