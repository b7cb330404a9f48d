use vstd::prelude::*;

verus! {

/// A hero's static stat block. Whole-number stats come as they are;
/// fractional stats are carried in thousandths (milli-units), so that a
/// starting armor of -1.3 arrives as -1300.
pub struct HeroData {
    pub attack_type: String,
    pub starting_armor_milli: i64,
    pub starting_damage_min_milli: i64,
    pub starting_damage_max_milli: i64,
    pub attack_rate_milli: i64,
    pub attack_range_milli: i64,
    pub primary_attribute: String,
    pub strength_base: u16,
    pub strength_gain_milli: i64,
    pub intelligence_base: u16,
    pub intelligence_gain_milli: i64,
    pub agility_base: u16,
    pub agility_gain_milli: i64,
    pub hp_regen_milli: i64,
    pub mp_regen_milli: i64,
    pub move_speed_milli: i64,
    pub move_turn_rate_milli: i64,
}

/// The hero member of the constants block.
pub struct HeroConstantQuery {
    pub stats: HeroData,
}

/// The constants block of the statistics payload.
pub struct ConstantQuery {
    pub hero: HeroConstantQuery,
}

/// The whole decoded hero-constants response.
pub struct ConstantGL {
    pub constants: ConstantQuery,
}

impl HeroData {
    /// Base health: 120 plus 22 for each point of base strength.
    pub fn base_health(&self) -> (r: u32)
        ensures
            r == 120 + 22 * self.strength_base,
    {
        120 + 22 * (self.strength_base as u32)
    }

    /// Base mana: 75 plus 12 for each point of base intelligence.
    pub fn base_mana(&self) -> (r: u32)
        ensures
            r == 75 + 12 * self.intelligence_base,
    {
        75 + 12 * (self.intelligence_base as u32)
    }
}

} // verus!
