use vstd::prelude::*;
use crate::model::{Day, MealType, day_chars, day_seq, meal_type_name, meal_type_name_chars,
    valid_day};
use crate::text::chars_to_string;

verus! {

/// Everything that can go wrong in the planning workflows and codecs.
#[derive(Clone, Copy, Debug, PartialEq, Eq, Structural)]
pub enum PlanError {
    /// The meal-type text matched none of the four kinds.
    InvalidMealType,
    /// The day text was neither an ISO date nor a weekday name.
    InvalidDayFormat,
    /// No entry with the given key exists.
    MealNotFound { meal_type: MealType, day: Day },
    /// An entry with the given key already exists; replacing needs confirmation.
    MealAlreadyExists { meal_type: MealType, day: Day },
    /// The user declined a confirmation prompt.
    UserCancelled,
    /// Stored structured text could not be read back as a plan.
    StorageReadError,
    /// The requested direction or format is not supported.
    UnsupportedOperation,
}

/// Days inside an error are real calendar dates, like everywhere else.
pub open spec fn error_wf(e: PlanError) -> bool {
    match e {
        PlanError::MealNotFound { day, .. } => valid_day(day),
        PlanError::MealAlreadyExists { day, .. } => valid_day(day),
        _ => true,
    }
}

/// The user-facing message of an error.
pub open spec fn message_seq(e: PlanError) -> Seq<char> {
    match e {
        PlanError::InvalidMealType => "Invalid meal type. Must be breakfast, lunch, dinner, or snack."@,
        PlanError::InvalidDayFormat => "Invalid day format. Use YYYY-MM-DD or day name."@,
        PlanError::MealNotFound { meal_type, day } => "No "@ + meal_type_name(meal_type)
            + " meal found for "@ + day_seq(day) + "."@,
        PlanError::MealAlreadyExists { meal_type, day } => "A "@ + meal_type_name(meal_type)
            + " meal already exists for "@ + day_seq(day) + "."@,
        PlanError::UserCancelled => "Operation cancelled by user."@,
        PlanError::StorageReadError => "Failed to read the stored meal plan."@,
        PlanError::UnsupportedOperation => "Loading from Markdown is not fully implemented. Please use JSON format."@,
    }
}

impl PlanError {
    /// The user-facing message.
    pub fn message(&self) -> (r: String)
        requires
            error_wf(*self),
        ensures
            r@ == message_seq(*self),
    {
        match self {
            PlanError::InvalidMealType => String::from_str(
                "Invalid meal type. Must be breakfast, lunch, dinner, or snack.",
            ),
            PlanError::InvalidDayFormat => String::from_str(
                "Invalid day format. Use YYYY-MM-DD or day name.",
            ),
            PlanError::MealNotFound { meal_type, day } => {
                let mut s = String::from_str("No ");
                let name = chars_to_string(&meal_type_name_chars(meal_type));
                s.append(name.as_str());
                s.append(" meal found for ");
                let dtext = chars_to_string(&day_chars(day));
                s.append(dtext.as_str());
                s.append(".");
                proof {
                    assert(s@ =~= message_seq(*self));
                }
                s
            },
            PlanError::MealAlreadyExists { meal_type, day } => {
                let mut s = String::from_str("A ");
                let name = chars_to_string(&meal_type_name_chars(meal_type));
                s.append(name.as_str());
                s.append(" meal already exists for ");
                let dtext = chars_to_string(&day_chars(day));
                s.append(dtext.as_str());
                s.append(".");
                proof {
                    assert(s@ =~= message_seq(*self));
                }
                s
            },
            PlanError::UserCancelled => String::from_str("Operation cancelled by user."),
            PlanError::StorageReadError => String::from_str("Failed to read the stored meal plan."),
            PlanError::UnsupportedOperation => String::from_str(
                "Loading from Markdown is not fully implemented. Please use JSON format.",
            ),
        }
    }
}

} // verus!
