//! Spaced-repetition scheduling: a pure state transition derived from SM-2.
//!
//! Easiness is held in hundredths (`easiness_centi`), so the whole review
//! state stays in integers: an easiness factor of 2.5 is stored as 250,
//! and the floor of 1.3 as 130.

use vstd::prelude::*;

use crate::error::EngineError;
use crate::text::str_eq;

verus! {

/// Quality of one recall attempt, from a failed recall (`Again`)
/// to an effortless one (`Easy`).
#[derive(Clone, Copy, Debug, PartialEq, Eq, Structural)]
pub enum Rating {
    Again,
    Hard,
    Good,
    Easy,
}

/// Easiness never drops below 1.3, stored as 130 hundredths.
pub const EASINESS_FLOOR_CENTI: u32 = 130;

/// A fresh note starts at easiness 2.5, stored as 250 hundredths.
pub const INITIAL_EASINESS_CENTI: u32 = 250;

/// Timestamps are seconds since the epoch; an interval of one day
/// moves the due time by this many seconds.
pub const SECONDS_PER_DAY: i64 = 86400;

/// Scheduling state of one note.
///
/// `interval_days` is `0` only in the pristine state before any rating
/// has ever been applied; every applied rating forces it to at least `1`.
#[derive(Clone, Copy, Debug, PartialEq, Eq, Structural)]
pub struct ReviewState {
    /// When the note should next be reviewed, seconds since the epoch.
    pub due_at: i64,
    /// Days until the following review.
    pub interval_days: u32,
    /// Consecutive correct recalls since the last lapse.
    pub streak: u32,
    /// Easiness factor in hundredths, never below `EASINESS_FLOOR_CENTI`.
    pub easiness_centi: u32,
}

/// The rating a lower-case name denotes, or `InvalidRating` for any
/// name outside `{again, hard, good, easy}`.
pub open spec fn parse_rating(name: Seq<char>) -> Result<Rating, EngineError> {
    if name == "again"@ {
        Ok(Rating::Again)
    } else if name == "hard"@ {
        Ok(Rating::Hard)
    } else if name == "good"@ {
        Ok(Rating::Good)
    } else if name == "easy"@ {
        Ok(Rating::Easy)
    } else {
        Err(EngineError::InvalidRating)
    }
}

/// Reads a rating from its lower-case name; any other name is rejected
/// as `InvalidRating`.
pub fn rating_from_name(name: &str) -> (result: Result<Rating, EngineError>)
    ensures
        result == parse_rating(name@),
{
    if str_eq(name, "again") {
        Ok(Rating::Again)
    } else if str_eq(name, "hard") {
        Ok(Rating::Hard)
    } else if str_eq(name, "good") {
        Ok(Rating::Good)
    } else if str_eq(name, "easy") {
        Ok(Rating::Easy)
    } else {
        Err(EngineError::InvalidRating)
    }
}

/// Ordinal quality of a rating: a rating of quality 3 or more counts
/// as a correct recall, below 3 as a lapse.
pub open spec fn quality(rating: Rating) -> int {
    match rating {
        Rating::Again => 0,
        Rating::Hard => 3,
        Rating::Good => 4,
        Rating::Easy => 5,
    }
}

/// Change of the easiness factor, in hundredths, for a correct recall.
pub open spec fn easiness_delta_centi(rating: Rating) -> int {
    match rating {
        Rating::Easy => 10,
        Rating::Good => -8,
        Rating::Hard => -15,
        Rating::Again => 0,
    }
}

/// Easiness after a rating: unchanged on a lapse; otherwise shifted by the
/// rating's delta, saturated at `u32::MAX`, and clamped to the 1.3 floor.
pub open spec fn next_easiness_centi(easiness_centi: u32, rating: Rating) -> int {
    if quality(rating) >= 3 {
        let raw = easiness_centi + easiness_delta_centi(rating);
        let capped = if raw > u32::MAX { u32::MAX as int } else { raw };
        if capped < EASINESS_FLOOR_CENTI { EASINESS_FLOOR_CENTI as int } else { capped }
    } else {
        easiness_centi as int
    }
}

/// `interval * easiness` rounded half away from zero to whole days,
/// where `easiness_centi` holds hundredths.
pub open spec fn rounded_product_days(interval_days: u32, easiness_centi: int) -> int {
    (interval_days * easiness_centi + 50) / 100
}

/// Interval after a rating: `1` on a lapse; otherwise the rounded product
/// of the old interval and the new easiness, saturated at `u32::MAX` and
/// floored to `1`.
pub open spec fn next_interval_days(interval_days: u32, rating: Rating, new_easiness_centi: int) -> int {
    if quality(rating) >= 3 {
        let rounded = rounded_product_days(interval_days, new_easiness_centi);
        let capped = if rounded > u32::MAX { u32::MAX as int } else { rounded };
        if capped < 1 { 1 } else { capped }
    } else {
        1
    }
}

/// Streak after a rating: reset to `0` on a lapse, otherwise one more,
/// saturated at `u32::MAX`.
pub open spec fn next_streak(streak: u32, rating: Rating) -> int {
    if quality(rating) >= 3 {
        if streak == u32::MAX { u32::MAX as int } else { streak + 1 }
    } else {
        0
    }
}

/// Due time after a rating: `now` plus the new interval in days,
/// saturated at `i64::MAX`.
pub open spec fn next_due_at(now: i64, new_interval_days: int) -> int {
    let advanced = now + new_interval_days * SECONDS_PER_DAY;
    if advanced > i64::MAX { i64::MAX as int } else { advanced }
}

/// The full transition applied by one rating at time `now`.
pub open spec fn apply_spec(state: ReviewState, rating: Rating, now: i64) -> ReviewState {
    let easiness = next_easiness_centi(state.easiness_centi, rating);
    let interval = next_interval_days(state.interval_days, rating, easiness);
    ReviewState {
        due_at: next_due_at(now, interval) as i64,
        interval_days: interval as u32,
        streak: next_streak(state.streak, rating) as u32,
        easiness_centi: easiness as u32,
    }
}

impl ReviewState {
    /// The pristine state a note carries from creation until its first
    /// rating: due immediately, no interval, no streak, easiness 2.5.
    pub open spec fn initial_spec(now: i64) -> ReviewState {
        ReviewState {
            due_at: now,
            interval_days: 0,
            streak: 0,
            easiness_centi: INITIAL_EASINESS_CENTI,
        }
    }

    /// Builds the pristine review state for a note created at `now`.
    pub fn initial(now: i64) -> (state: ReviewState)
        ensures
            state == ReviewState::initial_spec(now),
    {
        ReviewState {
            due_at: now,
            interval_days: 0,
            streak: 0,
            easiness_centi: INITIAL_EASINESS_CENTI,
        }
    }
}

/// Applies one rating to a review state at time `now`.
///
/// The transition is a pure function of `(state, rating, now)`: a correct
/// recall (`Hard`, `Good`, `Easy`) lengthens the streak, shifts the easiness
/// by the rating's delta down to the 1.3 floor, and multiplies the interval
/// by the new easiness; a lapse (`Again`) resets the streak and forces a
/// one-day interval while leaving the easiness untouched.
pub fn apply(state: &ReviewState, rating: Rating, now: i64) -> (next: ReviewState)
    ensures
        next == apply_spec(*state, rating, now),
        // Easiness floor: no rating drives the easiness below 1.3.
        next.easiness_centi >= EASINESS_FLOOR_CENTI || next.easiness_centi == state.easiness_centi,
        // Interval floor: every applied rating leaves at least one day.
        next.interval_days >= 1,
        // Lapse reset: `Again` zeroes the streak, forces a one-day interval,
        // and leaves the easiness unchanged, regardless of the prior state.
        rating is Again ==> next.streak == 0 && next.interval_days == 1
            && next.easiness_centi == state.easiness_centi,
{
    let correct = !matches!(rating, Rating::Again);
    let new_easiness: u32 = if correct {
        let shifted: u32 = match rating {
            Rating::Easy => {
                if state.easiness_centi > u32::MAX - 10 {
                    u32::MAX
                } else {
                    state.easiness_centi + 10
                }
            },
            Rating::Good => {
                if state.easiness_centi >= 8 {
                    state.easiness_centi - 8
                } else {
                    0
                }
            },
            _ => {
                if state.easiness_centi >= 15 {
                    state.easiness_centi - 15
                } else {
                    0
                }
            },
        };
        if shifted < EASINESS_FLOOR_CENTI {
            EASINESS_FLOOR_CENTI
        } else {
            shifted
        }
    } else {
        state.easiness_centi
    };
    let new_interval: u32 = if correct {
        proof {
            assert((state.interval_days as int) * (new_easiness as int) + 50 <= u64::MAX)
                by (nonlinear_arith)
                requires
                    state.interval_days <= u32::MAX,
                    new_easiness <= u32::MAX,
            ;
        }
        let product: u64 = (state.interval_days as u64) * (new_easiness as u64);
        let rounded: u64 = (product + 50) / 100;
        if rounded > u32::MAX as u64 {
            u32::MAX
        } else if rounded < 1 {
            1
        } else {
            rounded as u32
        }
    } else {
        1
    };
    let new_streak: u32 = if correct {
        if state.streak == u32::MAX {
            u32::MAX
        } else {
            state.streak + 1
        }
    } else {
        0
    };
    let advance: i64 = (new_interval as i64) * SECONDS_PER_DAY;
    let new_due: i64 = if now > i64::MAX - advance {
        i64::MAX
    } else {
        now + advance
    };
    ReviewState {
        due_at: new_due,
        interval_days: new_interval,
        streak: new_streak,
        easiness_centi: new_easiness,
    }
}

/// Easiness floor: from any state at or above the 1.3 floor — as every
/// note starts, at 2.5 — a rating leaves the easiness at or above the
/// floor again, so no sequence of ratings ever drives it below 1.3.
pub proof fn lemma_easiness_floor(state: ReviewState, rating: Rating, now: i64)
    requires
        state.easiness_centi >= EASINESS_FLOOR_CENTI,
    ensures
        apply_spec(state, rating, now).easiness_centi >= EASINESS_FLOOR_CENTI,
{
}

} // verus!
