//! Tuning constants for the evaluator and the search, gathered in one
//! record so call sites never hard-code them.

use vstd::prelude::*;

verus! {

/// Evaluation and search tuning constants.
#[derive(Debug, Clone)]
pub struct Config {
    pub bonus_bottom_cannon: i32,
    pub bonus_palace_heart_horse: i32,
    pub king_safety_penalty_per_guard: i32,
    pub dynamic_bonus_attack_per_missing_defender: i32,
    pub mobility_bonus_rook: i32,
    pub mobility_bonus_horse: i32,
    pub mobility_bonus_cannon: i32,
    pub lmr_reduction: i32,
}

/// Every tuning constant lies in 0..=100, which keeps all evaluation
/// arithmetic within 32 bits.
pub open spec fn config_wf(c: Config) -> bool {
    &&& 0 <= c.bonus_bottom_cannon <= 100
    &&& 0 <= c.bonus_palace_heart_horse <= 100
    &&& 0 <= c.king_safety_penalty_per_guard <= 100
    &&& 0 <= c.dynamic_bonus_attack_per_missing_defender <= 100
    &&& 0 <= c.mobility_bonus_rook <= 100
    &&& 0 <= c.mobility_bonus_horse <= 100
    &&& 0 <= c.mobility_bonus_cannon <= 100
    &&& 0 <= c.lmr_reduction <= 100
}

impl Default for Config {
    /// The engine's stock tuning.
    fn default() -> (r: Config)
        ensures
            config_wf(r),
            r.bonus_bottom_cannon == 80,
            r.bonus_palace_heart_horse == 70,
            r.king_safety_penalty_per_guard == 50,
            r.dynamic_bonus_attack_per_missing_defender == 15,
            r.mobility_bonus_rook == 1,
            r.mobility_bonus_horse == 3,
            r.mobility_bonus_cannon == 1,
            r.lmr_reduction == 1,
    {
        Config {
            bonus_bottom_cannon: 80,
            bonus_palace_heart_horse: 70,
            king_safety_penalty_per_guard: 50,
            dynamic_bonus_attack_per_missing_defender: 15,
            mobility_bonus_rook: 1,
            mobility_bonus_horse: 3,
            mobility_bonus_cannon: 1,
            lmr_reduction: 1,
        }
    }
}

} // verus!
