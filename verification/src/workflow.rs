use vstd::prelude::*;
use crate::errors::PlanError;
use crate::model::{
    Meal, MealPlan, MealV, find_index, has_match, key_matches, lemma_find_index,
    lemma_find_none_after_remove, plan_wf, unique_keys, valid_day,
};
use crate::resolver::{parse_day, parse_day_spec, parse_meal_type, parse_meal_type_spec};
use crate::text::{chars_eq, lower_seq, lower_vec, str_chars, trimmed, trimmed_chars};

verus! {

/// Adds a new entry. An entry with the same (meal_type, day) key is never
/// replaced silently: the caller gets MealAlreadyExists and may confirm the
/// replacement through replace_meal.
pub fn add_meal(
    plan: &mut MealPlan,
    meal_type: String,
    day: String,
    cook: String,
    description: String,
) -> (r: Result<(), PlanError>)
    ensures
        ({
            let pt = parse_meal_type_spec(meal_type@);
            let pd = parse_day_spec(day@);
            match r {
                Ok(()) => {
                    &&& pt is Some
                    &&& pd is Some
                    &&& !has_match(old(plan)@.meals, pt->Some_0, pd->Some_0)
                    &&& final(plan)@.meals == old(plan)@.meals.push(
                        MealV {
                            meal_type: pt->Some_0,
                            day: pd->Some_0,
                            cook: cook@,
                            description: description@,
                        },
                    )
                    &&& final(plan)@.week_start_date == old(plan)@.week_start_date
                    &&& plan_wf(old(plan)@) ==> plan_wf(final(plan)@)
                    &&& unique_keys(old(plan)@.meals) ==> unique_keys(final(plan)@.meals)
                },
                Err(e) => {
                    &&& *final(plan) == *old(plan)
                    &&& if pt is None {
                        e == PlanError::InvalidMealType
                    } else if pd is None {
                        e == PlanError::InvalidDayFormat
                    } else {
                        &&& has_match(old(plan)@.meals, pt->Some_0, pd->Some_0)
                        &&& e == (PlanError::MealAlreadyExists {
                            meal_type: pt->Some_0,
                            day: pd->Some_0,
                        })
                    }
                },
            }
        }),
{
    let t = match parse_meal_type(meal_type.as_str()) {
        Ok(t) => t,
        Err(e) => {
            return Err(e);
        },
    };
    let d = match parse_day(day.as_str()) {
        Ok(d) => d,
        Err(e) => {
            return Err(e);
        },
    };
    if plan.find_meal(&t, &d).is_some() {
        return Err(PlanError::MealAlreadyExists { meal_type: t, day: d });
    }
    let ghost s = plan@.meals;
    plan.add_meal(Meal::new(t, d, cook, description));
    proof {
        let s2 = plan@.meals;
        if unique_keys(s) {
            assert forall|i: int, j: int| 0 <= i < j < s2.len() implies !(#[trigger] s2[i].meal_type
                == #[trigger] s2[j].meal_type && s2[i].day == s2[j].day) by {
                if j < s.len() {
                    assert(s2[i] == s[i] && s2[j] == s[j]);
                } else {
                    assert(s2[j] == s2.last());
                    assert(s2[i] == s[i]);
                    if s2[i].meal_type == s2[j].meal_type && s2[i].day == s2[j].day {
                        assert(key_matches(s[i], t, d));
                        assert(has_match(s, t, d));
                    }
                }
            }
        }
        if plan_wf(old(plan)@) {
            assert forall|i: int| 0 <= i < s2.len() implies valid_day(#[trigger] s2[i].day) by {
                if i < s.len() {
                    assert(s2[i] == s[i]);
                } else {
                    assert(s2[i] == s2.last());
                }
            }
        }
    }
    Ok(())
}

/// Replaces (or introduces) the entry with the given key, as the confirmed
/// second half of the add workflow. After it succeeds, the plan holds exactly
/// one entry for that key.
pub fn replace_meal(
    plan: &mut MealPlan,
    meal_type: String,
    day: String,
    cook: String,
    description: String,
) -> (r: Result<(), PlanError>)
    ensures
        ({
            let pt = parse_meal_type_spec(meal_type@);
            let pd = parse_day_spec(day@);
            match r {
                Ok(()) => {
                    let t = pt->Some_0;
                    let d = pd->Some_0;
                    let newm = MealV { meal_type: t, day: d, cook: cook@, description: description@ };
                    &&& pt is Some
                    &&& pd is Some
                    &&& final(plan)@.meals == if has_match(old(plan)@.meals, t, d) {
                        old(plan)@.meals.remove(find_index(old(plan)@.meals, t, d)).push(newm)
                    } else {
                        old(plan)@.meals.push(newm)
                    }
                    &&& final(plan)@.week_start_date == old(plan)@.week_start_date
                    &&& plan_wf(old(plan)@) ==> plan_wf(final(plan)@)
                    &&& unique_keys(old(plan)@.meals) ==> unique_keys(final(plan)@.meals)
                    &&& unique_keys(old(plan)@.meals) ==> has_match(final(plan)@.meals, t, d)
                },
                Err(e) => {
                    &&& *final(plan) == *old(plan)
                    &&& if pt is None {
                        e == PlanError::InvalidMealType
                    } else {
                        pd is None && e == PlanError::InvalidDayFormat
                    }
                },
            }
        }),
{
    let t = match parse_meal_type(meal_type.as_str()) {
        Ok(t) => t,
        Err(e) => {
            return Err(e);
        },
    };
    let d = match parse_day(day.as_str()) {
        Ok(d) => d,
        Err(e) => {
            return Err(e);
        },
    };
    let ghost s = plan@.meals;
    let removed = plan.remove_meal(&t, &d);
    let ghost mid = plan@.meals;
    plan.add_meal(Meal::new(t, d, cook, description));
    proof {
        let s2 = plan@.meals;
        if removed is None {
            assert(mid == s);
        }
        if unique_keys(s) {
            if has_match(s, t, d) {
                lemma_find_none_after_remove(s, t, d);
            }
            assert(!has_match(mid, t, d)) by {
                if removed is None {
                } else {
                }
            }
            assert(unique_keys(mid)) by {
                if removed is Some {
                    let fi = find_index(s, t, d);
                    lemma_find_index(s, t, d);
                    assert forall|i: int, j: int| 0 <= i < j < mid.len() implies !(
                    #[trigger] mid[i].meal_type == #[trigger] mid[j].meal_type && mid[i].day
                        == mid[j].day) by {
                        let i0 = if i < fi {
                            i
                        } else {
                            i + 1
                        };
                        let j0 = if j < fi {
                            j
                        } else {
                            j + 1
                        };
                        assert(mid[i] == s[i0] && mid[j] == s[j0]);
                    }
                }
            }
            assert forall|i: int, j: int| 0 <= i < j < s2.len() implies !(#[trigger] s2[i].meal_type
                == #[trigger] s2[j].meal_type && s2[i].day == s2[j].day) by {
                if j < mid.len() {
                    assert(s2[i] == mid[i] && s2[j] == mid[j]);
                } else {
                    assert(s2[j] == s2.last());
                    assert(s2[i] == mid[i]);
                    if s2[i].meal_type == s2[j].meal_type && s2[i].day == s2[j].day {
                        assert(key_matches(mid[i], t, d));
                        assert(has_match(mid, t, d));
                    }
                }
            }
            assert(key_matches(s2.last(), t, d));
            assert(has_match(s2, t, d));
        }
        if plan_wf(old(plan)@) {
            assert forall|i: int| 0 <= i < s2.len() implies valid_day(#[trigger] s2[i].day) by {
                if i < mid.len() {
                    assert(s2[i] == mid[i]);
                    if removed is Some {
                        let fi = find_index(s, t, d);
                        lemma_find_index(s, t, d);
                        let i0 = if i < fi {
                            i
                        } else {
                            i + 1
                        };
                        assert(mid[i] == s[i0]);
                    }
                } else {
                    assert(s2[i] == s2.last());
                }
            }
        }
    }
    Ok(())
}

/// Edits the entry with the given key: the replacement is built first (absent
/// fields keep their current values) and then swapped in, so no failure can
/// drop the entry.
pub fn edit_meal(
    plan: &mut MealPlan,
    meal_type: String,
    day: String,
    new_cook: Option<String>,
    new_description: Option<String>,
) -> (r: Result<(), PlanError>)
    ensures
        ({
            let pt = parse_meal_type_spec(meal_type@);
            let pd = parse_day_spec(day@);
            match r {
                Ok(()) => {
                    let t = pt->Some_0;
                    let d = pd->Some_0;
                    let fi = find_index(old(plan)@.meals, t, d);
                    let prev = old(plan)@.meals[fi];
                    let newm = MealV {
                        meal_type: t,
                        day: d,
                        cook: match new_cook {
                            Some(c) => c@,
                            None => prev.cook,
                        },
                        description: match new_description {
                            Some(x) => x@,
                            None => prev.description,
                        },
                    };
                    &&& pt is Some
                    &&& pd is Some
                    &&& has_match(old(plan)@.meals, t, d)
                    &&& final(plan)@.meals == old(plan)@.meals.remove(fi).push(newm)
                    &&& final(plan)@.week_start_date == old(plan)@.week_start_date
                    &&& plan_wf(old(plan)@) ==> plan_wf(final(plan)@)
                    &&& unique_keys(old(plan)@.meals) ==> unique_keys(final(plan)@.meals)
                },
                Err(e) => {
                    &&& *final(plan) == *old(plan)
                    &&& if pt is None {
                        e == PlanError::InvalidMealType
                    } else if pd is None {
                        e == PlanError::InvalidDayFormat
                    } else {
                        &&& !has_match(old(plan)@.meals, pt->Some_0, pd->Some_0)
                        &&& e == (PlanError::MealNotFound {
                            meal_type: pt->Some_0,
                            day: pd->Some_0,
                        })
                    }
                },
            }
        }),
{
    let t = match parse_meal_type(meal_type.as_str()) {
        Ok(t) => t,
        Err(e) => {
            return Err(e);
        },
    };
    let d = match parse_day(day.as_str()) {
        Ok(d) => d,
        Err(e) => {
            return Err(e);
        },
    };
    let (cur_cook, cur_desc) = match plan.find_meal(&t, &d) {
        Some(m) => (m.cook.clone(), m.description.clone()),
        None => {
            return Err(PlanError::MealNotFound { meal_type: t, day: d });
        },
    };
    let cook2 = match new_cook {
        Some(c) => c,
        None => cur_cook,
    };
    let desc2 = match new_description {
        Some(x) => x,
        None => cur_desc,
    };
    let ghost s = plan@.meals;
    let removed = plan.remove_meal(&t, &d);
    let ghost mid = plan@.meals;
    proof {
        if removed is None {
            assert(false);
        }
    }
    plan.add_meal(Meal::new(t, d, cook2, desc2));
    proof {
        let s2 = plan@.meals;
        let fi = find_index(s, t, d);
        lemma_find_index(s, t, d);
        if unique_keys(s) {
            lemma_find_none_after_remove(s, t, d);
            assert forall|i: int, j: int| 0 <= i < j < s2.len() implies !(#[trigger] s2[i].meal_type
                == #[trigger] s2[j].meal_type && s2[i].day == s2[j].day) by {
                if j < mid.len() {
                    let i0 = if i < fi {
                        i
                    } else {
                        i + 1
                    };
                    let j0 = if j < fi {
                        j
                    } else {
                        j + 1
                    };
                    assert(s2[i] == s[i0] && s2[j] == s[j0]);
                } else {
                    assert(s2[j] == s2.last());
                    assert(s2[i] == mid[i]);
                    if s2[i].meal_type == s2[j].meal_type && s2[i].day == s2[j].day {
                        assert(key_matches(mid[i], t, d));
                        assert(has_match(mid, t, d));
                    }
                }
            }
        }
        if plan_wf(old(plan)@) {
            assert forall|i: int| 0 <= i < s2.len() implies valid_day(#[trigger] s2[i].day) by {
                if i < mid.len() {
                    let i0 = if i < fi {
                        i
                    } else {
                        i + 1
                    };
                    assert(mid[i] == s[i0]);
                } else {
                    assert(s2[i] == s2.last());
                }
            }
        }
    }
    Ok(())
}

/// Removes the entry with the given key. Removing the last remaining entry
/// of the plan goes through only with explicit confirmation: declining leaves
/// the plan unchanged and reports UserCancelled.
pub fn remove_meal(
    plan: &mut MealPlan,
    meal_type: String,
    day: String,
    last_meal_confirmed: bool,
) -> (r: Result<(), PlanError>)
    ensures
        ({
            let pt = parse_meal_type_spec(meal_type@);
            let pd = parse_day_spec(day@);
            match r {
                Ok(()) => {
                    let t = pt->Some_0;
                    let d = pd->Some_0;
                    &&& pt is Some
                    &&& pd is Some
                    &&& has_match(old(plan)@.meals, t, d)
                    &&& old(plan)@.meals.len() == 1 ==> last_meal_confirmed
                    &&& final(plan)@.meals == old(plan)@.meals.remove(
                        find_index(old(plan)@.meals, t, d),
                    )
                    &&& final(plan)@.week_start_date == old(plan)@.week_start_date
                    &&& plan_wf(old(plan)@) ==> plan_wf(final(plan)@)
                    &&& unique_keys(old(plan)@.meals) ==> unique_keys(final(plan)@.meals)
                },
                Err(e) => {
                    &&& *final(plan) == *old(plan)
                    &&& if pt is None {
                        e == PlanError::InvalidMealType
                    } else if pd is None {
                        e == PlanError::InvalidDayFormat
                    } else if !has_match(old(plan)@.meals, pt->Some_0, pd->Some_0) {
                        e == (PlanError::MealNotFound { meal_type: pt->Some_0, day: pd->Some_0 })
                    } else {
                        &&& old(plan)@.meals.len() == 1
                        &&& !last_meal_confirmed
                        &&& e == PlanError::UserCancelled
                    }
                },
            }
        }),
        // The plan can only become empty through a confirmed removal.
        r is Ok && final(plan)@.meals.len() == 0 ==> old(plan)@.meals.len() == 1
            && last_meal_confirmed,
{
    let t = match parse_meal_type(meal_type.as_str()) {
        Ok(t) => t,
        Err(e) => {
            return Err(e);
        },
    };
    let d = match parse_day(day.as_str()) {
        Ok(d) => d,
        Err(e) => {
            return Err(e);
        },
    };
    if plan.find_meal(&t, &d).is_none() {
        return Err(PlanError::MealNotFound { meal_type: t, day: d });
    }
    if plan.meals.len() == 1 && !last_meal_confirmed {
        return Err(PlanError::UserCancelled);
    }
    let ghost s = plan@.meals;
    let removed = plan.remove_meal(&t, &d);
    proof {
        if removed is None {
            assert(false);
        }
        let s2 = plan@.meals;
        let fi = find_index(s, t, d);
        lemma_find_index(s, t, d);
        if unique_keys(s) {
            assert forall|i: int, j: int| 0 <= i < j < s2.len() implies !(#[trigger] s2[i].meal_type
                == #[trigger] s2[j].meal_type && s2[i].day == s2[j].day) by {
                let i0 = if i < fi {
                    i
                } else {
                    i + 1
                };
                let j0 = if j < fi {
                    j
                } else {
                    j + 1
                };
                assert(s2[i] == s[i0] && s2[j] == s[j0]);
            }
        }
        if plan_wf(old(plan)@) {
            assert forall|i: int| 0 <= i < s2.len() implies valid_day(#[trigger] s2[i].day) by {
                let i0 = if i < fi {
                    i
                } else {
                    i + 1
                };
                assert(s2[i] == s[i0]);
            }
        }
    }
    Ok(())
}

/// A confirmation answer means yes exactly when, after surrounding
/// whitespace is stripped, it is a lone "y" in either case.
pub open spec fn is_yes_spec(s: Seq<char>) -> bool {
    lower_seq(trimmed(s)) == seq!['y']
}

/// Reads a confirmation answer as the prompts do.
pub fn is_yes(line: &str) -> (r: bool)
    ensures
        r == is_yes_spec(line@),
{
    let t = trimmed_chars(&str_chars(line));
    let l = lower_vec(&t);
    let yes: Vec<char> = vec!['y'];
    let r = chars_eq(&l, &yes);
    proof {
        assert(yes@ =~= seq!['y']);
    }
    r
}

/// Which way a synchronisation between the structured store and the document
/// export should run.
#[derive(Clone, Copy, Debug, PartialEq, Eq, Structural)]
pub enum SyncDirection {
    FromJson,
    FromMarkdown,
}

/// The direction the sync workflow picks: an explicit source wins; otherwise
/// whichever file exists, or the more recently modified one.
pub open spec fn sync_direction_spec(
    source: Seq<char>,
    json_exists: bool,
    markdown_exists: bool,
    json_newer_or_equal: bool,
) -> Result<SyncDirection, PlanError> {
    if !json_exists && !markdown_exists {
        Err(PlanError::StorageReadError)
    } else {
        let l = lower_seq(source);
        if l == seq!['j', 's', 'o', 'n'] {
            Ok(SyncDirection::FromJson)
        } else if l == seq!['m', 'a', 'r', 'k', 'd', 'o', 'w', 'n'] || l == seq!['m', 'd'] {
            Ok(SyncDirection::FromMarkdown)
        } else if !json_exists {
            Ok(SyncDirection::FromMarkdown)
        } else if !markdown_exists {
            Ok(SyncDirection::FromJson)
        } else if json_newer_or_equal {
            Ok(SyncDirection::FromJson)
        } else {
            Ok(SyncDirection::FromMarkdown)
        }
    }
}

pub fn sync_direction(
    source: &str,
    json_exists: bool,
    markdown_exists: bool,
    json_newer_or_equal: bool,
) -> (r: Result<SyncDirection, PlanError>)
    ensures
        r == sync_direction_spec(source@, json_exists, markdown_exists, json_newer_or_equal),
{
    if !json_exists && !markdown_exists {
        return Err(PlanError::StorageReadError);
    }
    let l = lower_vec(&str_chars(source));
    if chars_eq(&l, &vec!['j', 's', 'o', 'n']) {
        Ok(SyncDirection::FromJson)
    } else if chars_eq(&l, &vec!['m', 'a', 'r', 'k', 'd', 'o', 'w', 'n']) || chars_eq(
        &l,
        &vec!['m', 'd'],
    ) {
        Ok(SyncDirection::FromMarkdown)
    } else if !json_exists {
        Ok(SyncDirection::FromMarkdown)
    } else if !markdown_exists {
        Ok(SyncDirection::FromJson)
    } else if json_newer_or_equal {
        Ok(SyncDirection::FromJson)
    } else {
        Ok(SyncDirection::FromMarkdown)
    }
}

} // verus!
