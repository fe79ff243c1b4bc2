use vstd::prelude::*;
use crate::date::{Date, iso_date_chars, iso_date_seq, weekday_idx};
use crate::model::{Day, MealPlan, MealV, PlanV, day_chars, day_seq, meal_type_name,
    meal_type_name_chars, plan_wf, valid_day};
use crate::nums::{i64_digits_x, int_digits};
use crate::text::{chars_to_string, str_chars};

verus! {

/// Rank that orders day groups in the document: concrete dates first,
/// chronologically, then weekday symbols in ISO order.
pub open spec fn day_rank(d: Day) -> int {
    match d {
        Day::Date(dt) => dt.year * 10000 + dt.month * 100 + dt.day,
        Day::Weekday(w) => 100000000 + weekday_idx(w),
    }
}

pub fn day_rank_x(d: &Day) -> (r: u32)
    requires
        valid_day(*d),
    ensures
        r as int == day_rank(*d),
{
    match d {
        Day::Date(dt) => dt.year * 10000 + dt.month * 100 + dt.day,
        Day::Weekday(w) => 100000000 + crate::date::weekday_index_x(w),
    }
}

/// The distinct days of the entries, in order of first appearance.
pub open spec fn distinct_days(ms: Seq<MealV>) -> Seq<Day>
    decreases ms.len(),
{
    if ms.len() == 0 {
        Seq::empty()
    } else {
        let pre = distinct_days(ms.drop_last());
        if pre.contains(ms.last().day) {
            pre
        } else {
            pre.push(ms.last().day)
        }
    }
}

/// Insertion into a rank-sorted day list, after any equal ranks.
pub open spec fn insert_day(d: Day, sorted: Seq<Day>) -> Seq<Day>
    decreases sorted.len(),
{
    if sorted.len() == 0 {
        seq![d]
    } else if day_rank(sorted[0]) <= day_rank(d) {
        seq![sorted[0]] + insert_day(d, sorted.drop_first())
    } else {
        seq![d] + sorted
    }
}

/// Insertion sort of the day groups by rank.
pub open spec fn sort_days(days: Seq<Day>) -> Seq<Day>
    decreases days.len(),
{
    if days.len() == 0 {
        Seq::empty()
    } else {
        insert_day(days.last(), sort_days(days.drop_last()))
    }
}

/// The section body of one entry.
pub open spec fn meal_section(m: MealV) -> Seq<char> {
    seq!['#', '#', '#', ' '] + meal_type_name(m.meal_type) + seq!['\n'] + seq![
        '-', ' ', 'C', 'o', 'o', 'k', ':', ' ',
    ] + m.cook + seq!['\n'] + seq![
        '-', ' ', 'D', 'e', 's', 'c', 'r', 'i', 'p', 't', 'i', 'o', 'n', ':', ' ',
    ] + m.description + seq!['\n', '\n']
}

/// The sections of the entries that fall on one day, in insertion order.
pub open spec fn meals_for_day(ms: Seq<MealV>, d: Day) -> Seq<char>
    decreases ms.len(),
{
    if ms.len() == 0 {
        Seq::empty()
    } else {
        (if ms[0].day == d {
            meal_section(ms[0])
        } else {
            Seq::empty()
        }) + meals_for_day(ms.drop_first(), d)
    }
}

/// One day group: heading plus its entries.
pub open spec fn day_section(d: Day, ms: Seq<MealV>) -> Seq<char> {
    seq!['#', '#', ' '] + day_seq(d) + seq!['\n', '\n'] + meals_for_day(ms, d)
}

/// All day groups, in the given order.
pub open spec fn md_sections(days: Seq<Day>, ms: Seq<MealV>) -> Seq<char>
    decreases days.len(),
{
    if days.len() == 0 {
        Seq::empty()
    } else {
        day_section(days[0], ms) + md_sections(days.drop_first(), ms)
    }
}

pub open spec fn md_header(week: Date) -> Seq<char> {
    seq![
        '#', ' ', 'M', 'e', 'a', 'l', ' ', 'P', 'l', 'a', 'n', ' ', 'f', 'o', 'r', ' ', 'W', 'e',
        'e', 'k', ' ', 'o', 'f', ' ',
    ] + iso_date_seq(week) + seq!['\n', '\n']
}

pub open spec fn md_trailer(last_modified: int) -> Seq<char> {
    seq!['\n', '*', 'L', 'a', 's', 't', ' ', 'm', 'o', 'd', 'i', 'f', 'i', 'e', 'd', ':', ' ']
        + int_digits(last_modified) + seq!['*']
}

/// The whole document: a dated title, the day groups (dates first, then
/// weekday symbols; grouping is by the day value itself, never by its
/// resolved date), and the modification stamp.
pub open spec fn md_doc(p: PlanV) -> Seq<char> {
    md_header(p.week_start_date) + md_sections(sort_days(distinct_days(p.meals)), p.meals)
        + md_trailer(p.last_modified)
}

proof fn lemma_meals_for_day_push(ms: Seq<MealV>, m: MealV, d: Day)
    ensures
        meals_for_day(ms.push(m), d) == meals_for_day(ms, d) + (if m.day == d {
            meal_section(m)
        } else {
            Seq::<char>::empty()
        }),
    decreases ms.len(),
{
    if ms.len() == 0 {
        assert(ms.push(m)[0] == m);
        assert(ms.push(m).drop_first() =~= Seq::<MealV>::empty());
        assert(meals_for_day(Seq::<MealV>::empty(), d) == Seq::<char>::empty());
        assert(meals_for_day(ms, d) == Seq::<char>::empty());
        assert(meals_for_day(ms.push(m), d) =~= meals_for_day(ms, d) + (if m.day == d {
            meal_section(m)
        } else {
            Seq::<char>::empty()
        }));
    } else {
        assert(ms.push(m)[0] == ms[0]);
        assert(ms.push(m).drop_first() =~= ms.drop_first().push(m));
        lemma_meals_for_day_push(ms.drop_first(), m, d);
        assert(meals_for_day(ms.push(m), d) =~= meals_for_day(ms, d) + (if m.day == d {
            meal_section(m)
        } else {
            Seq::<char>::empty()
        }));
    }
}

proof fn lemma_md_sections_push(days: Seq<Day>, d: Day, ms: Seq<MealV>)
    ensures
        md_sections(days.push(d), ms) == md_sections(days, ms) + day_section(d, ms),
    decreases days.len(),
{
    if days.len() == 0 {
        assert(days.push(d)[0] == d);
        assert(days.push(d).drop_first() =~= Seq::<Day>::empty());
        assert(md_sections(Seq::<Day>::empty(), ms) == Seq::<char>::empty());
        assert(md_sections(days, ms) == Seq::<char>::empty());
        assert(md_sections(days.push(d), ms) =~= md_sections(days, ms) + day_section(d, ms));
    } else {
        assert(days.push(d)[0] == days[0]);
        assert(days.push(d).drop_first() =~= days.drop_first().push(d));
        lemma_md_sections_push(days.drop_first(), d, ms);
        assert(md_sections(days.push(d), ms) =~= md_sections(days, ms) + day_section(d, ms));
    }
}

/// Does the vector hold this day already?
fn contains_day(days: &Vec<Day>, d: &Day) -> (r: bool)
    ensures
        r == days@.contains(*d),
{
    let mut i: usize = 0;
    while i < days.len()
        invariant
            i <= days@.len(),
            forall|j: int| 0 <= j < i ==> days@[j] != *d,
        decreases days@.len() - i,
    {
        if days[i] == *d {
            assert(days@[i as int] == *d);
            return true;
        }
        i += 1;
    }
    false
}

fn insert_day_at(d: Day, sorted: &Vec<Day>, i: usize) -> (r: Vec<Day>)
    requires
        i <= sorted@.len(),
        valid_day(d),
        forall|j: int| 0 <= j < sorted@.len() ==> valid_day(#[trigger] sorted@[j]),
    ensures
        r@ == insert_day(d, sorted@.skip(i as int)),
    decreases sorted@.len() - i,
{
    if i == sorted.len() {
        proof {
            assert(sorted@.skip(i as int) =~= Seq::<Day>::empty());
        }
        vec![d]
    } else {
        proof {
            assert(sorted@.skip(i as int)[0] == sorted@[i as int]);
            assert(sorted@.skip(i as int).drop_first() =~= sorted@.skip(i + 1));
        }
        if day_rank_x(&sorted[i]) <= day_rank_x(&d) {
            let mut r = insert_day_at(d, sorted, i + 1);
            let mut out: Vec<Day> = vec![sorted[i]];
            out.append(&mut r);
            proof {
                assert(out@ =~= insert_day(d, sorted@.skip(i as int)));
            }
            out
        } else {
            let mut out: Vec<Day> = vec![d];
            let mut j: usize = i;
            while j < sorted.len()
                invariant
                    i <= j <= sorted@.len(),
                    out@ =~= seq![d] + sorted@.subrange(i as int, j as int),
                decreases sorted@.len() - j,
            {
                out.push(sorted[j]);
                j += 1;
            }
            proof {
                assert(sorted@.subrange(i as int, sorted@.len() as int) =~= sorted@.skip(i as int));
                assert(out@ =~= insert_day(d, sorted@.skip(i as int)));
            }
            out
        }
    }
}

impl MealPlan {
    /// The one-way document rendering of this plan.
    pub fn to_markdown(&self) -> (r: String)
        requires
            plan_wf(self@),
        ensures
            r@ == md_doc(self@),
    {
        let ghost msv = self@.meals;
        // distinct days, in order of first appearance
        let mut days: Vec<Day> = Vec::new();
        let mut i: usize = 0;
        while i < self.meals.len()
            invariant
                i <= self.meals@.len(),
                plan_wf(self@),
                days@ == distinct_days(self@.meals.subrange(0, i as int)),
                forall|j: int| 0 <= j < days@.len() ==> valid_day(#[trigger] days@[j]),
            decreases self.meals@.len() - i,
        {
            let d = self.meals[i].day;
            proof {
                let pre = self@.meals.subrange(0, i as int);
                assert(self@.meals.subrange(0, i + 1).drop_last() =~= pre);
                assert(self@.meals.subrange(0, i + 1).last() == self@.meals[i as int]);
            }
            if !contains_day(&days, &d) {
                days.push(d);
            }
            i += 1;
        }
        proof {
            assert(self@.meals.subrange(0, self@.meals.len() as int) =~= self@.meals);
        }
        // sort the day groups
        let mut sorted: Vec<Day> = Vec::new();
        let mut k: usize = 0;
        while k < days.len()
            invariant
                k <= days@.len(),
                sorted@ == sort_days(days@.subrange(0, k as int)),
                forall|j: int| 0 <= j < days@.len() ==> valid_day(#[trigger] days@[j]),
                forall|j: int| 0 <= j < sorted@.len() ==> valid_day(#[trigger] sorted@[j]),
            decreases days@.len() - k,
        {
            proof {
                let pre = days@.subrange(0, k as int);
                assert(days@.subrange(0, k + 1).drop_last() =~= pre);
                assert(days@.subrange(0, k + 1).last() == days@[k as int]);
                lemma_insert_day_valid(days@[k as int], sorted@);
                assert(sorted@.skip(0) =~= sorted@);
            }
            let ins = insert_day_at(days[k], &sorted, 0);
            sorted = ins;
            k += 1;
        }
        proof {
            assert(days@.subrange(0, days@.len() as int) =~= days@);
        }
        // render
        let mut v: Vec<char> = vec![
            '#', ' ', 'M', 'e', 'a', 'l', ' ', 'P', 'l', 'a', 'n', ' ', 'f', 'o', 'r', ' ', 'W',
            'e', 'e', 'k', ' ', 'o', 'f', ' ',
        ];
        let mut iso = iso_date_chars(&self.week_start_date);
        v.append(&mut iso);
        v.push('\n');
        v.push('\n');
        proof {
            assert(v@ =~= md_header(self@.week_start_date));
        }
        let mut g: usize = 0;
        while g < sorted.len()
            invariant
                g <= sorted@.len(),
                plan_wf(self@),
                forall|j: int| 0 <= j < sorted@.len() ==> valid_day(#[trigger] sorted@[j]),
                v@ == md_header(self@.week_start_date) + md_sections(
                    sorted@.subrange(0, g as int),
                    self@.meals,
                ),
            decreases sorted@.len() - g,
        {
            let d = sorted[g];
            v.push('#');
            v.push('#');
            v.push(' ');
            let mut dn = day_chars(&d);
            v.append(&mut dn);
            v.push('\n');
            v.push('\n');
            let ghost v_at_group = v@;
            // entries of this group, in insertion order
            let mut m: usize = 0;
            while m < self.meals.len()
                invariant
                    m <= self.meals@.len(),
                    plan_wf(self@),
                    v@ == v_at_group + meals_for_day(self@.meals.subrange(0, m as int), d),
                decreases self.meals@.len() - m,
            {
                let ghost pre = self@.meals.subrange(0, m as int);
                proof {
                    assert(pre.push(self@.meals[m as int]) =~= self@.meals.subrange(0, m + 1));
                    lemma_meals_for_day_push(pre, self@.meals[m as int], d);
                }
                let matched: bool = {
                    let mm: &crate::model::Meal = &self.meals[m];
                    mm.day == d
                };
                if matched {
                    v.push('#');
                    v.push('#');
                    v.push('#');
                    v.push(' ');
                    let mut tn = meal_type_name_chars(&self.meals[m].meal_type);
                    v.append(&mut tn);
                    v.push('\n');
                    let mut ck: Vec<char> = vec!['-', ' ', 'C', 'o', 'o', 'k', ':', ' '];
                    v.append(&mut ck);
                    let mut cs = str_chars(self.meals[m].cook.as_str());
                    v.append(&mut cs);
                    v.push('\n');
                    let mut ds: Vec<char> = vec![
                        '-', ' ', 'D', 'e', 's', 'c', 'r', 'i', 'p', 't', 'i', 'o', 'n', ':', ' ',
                    ];
                    v.append(&mut ds);
                    let mut dsc = str_chars(self.meals[m].description.as_str());
                    v.append(&mut dsc);
                    v.push('\n');
                    v.push('\n');
                    proof {
                        assert(v@ =~= v_at_group + meals_for_day(
                            self@.meals.subrange(0, m + 1),
                            d,
                        ));
                    }
                } else {
                    proof {
                        assert(v@ =~= v_at_group + meals_for_day(
                            self@.meals.subrange(0, m + 1),
                            d,
                        ));
                    }
                }
                m += 1;
            }
            proof {
                assert(self@.meals.subrange(0, self@.meals.len() as int) =~= self@.meals);
                let spre = sorted@.subrange(0, g as int);
                assert(spre.push(sorted@[g as int]) =~= sorted@.subrange(0, g + 1));
                lemma_md_sections_push(spre, sorted@[g as int], self@.meals);
                assert(v_at_group + meals_for_day(self@.meals, d) =~= md_header(
                    self@.week_start_date,
                ) + md_sections(sorted@.subrange(0, g + 1), self@.meals));
            }
            g += 1;
        }
        proof {
            assert(sorted@.subrange(0, sorted@.len() as int) =~= sorted@);
        }
        let mut tr: Vec<char> = vec![
            '\n', '*', 'L', 'a', 's', 't', ' ', 'm', 'o', 'd', 'i', 'f', 'i', 'e', 'd', ':', ' ',
        ];
        v.append(&mut tr);
        let mut lm = i64_digits_x(self.last_modified);
        v.append(&mut lm);
        v.push('*');
        proof {
            assert(v@ =~= md_doc(self@));
        }
        chars_to_string(&v)
    }
}

/// Inserting a valid day into a list of valid days gives valid days.
proof fn lemma_insert_day_valid(d: Day, sorted: Seq<Day>)
    requires
        valid_day(d),
        forall|j: int| 0 <= j < sorted.len() ==> valid_day(#[trigger] sorted[j]),
    ensures
        forall|j: int|
            0 <= j < insert_day(d, sorted).len() ==> valid_day(#[trigger] insert_day(d, sorted)[j]),
    decreases sorted.len(),
{
    if sorted.len() == 0 {
    } else if day_rank(sorted[0]) <= day_rank(d) {
        let rest = sorted.drop_first();
        assert(forall|j: int| 0 <= j < rest.len() ==> #[trigger] rest[j] == sorted[j + 1]);
        lemma_insert_day_valid(d, rest);
        assert(forall|j: int|
            1 <= j < insert_day(d, sorted).len() ==> #[trigger] insert_day(d, sorted)[j]
                == insert_day(d, rest)[j - 1]);
    } else {
    }
}

} // verus!
