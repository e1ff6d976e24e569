//! The user-tunable configuration record: two percentage ranges, one for the
//! chance that a popup fires on a tick and one for the opacity a popup gets.

use vstd::prelude::*;

verus! {

/// The persisted settings. Every field is a percentage in `0..=100`, and in
/// each pair the minimum never exceeds the maximum (see [`AppConfig::valid`]).
#[derive(Clone, Copy, Debug, PartialEq, Eq, Structural)]
pub struct AppConfig {
    pub popup_chance_min: u8,
    pub popup_chance_max: u8,
    pub popup_opacity_min: u8,
    pub popup_opacity_max: u8,
}

impl AppConfig {
    /// Well-formedness: both pairs are ordered and every field is a
    /// percentage. Every function that draws from these bounds assumes it.
    pub open spec fn valid(self) -> bool {
        &&& self.popup_chance_min <= self.popup_chance_max
        &&& self.popup_chance_max <= 100
        &&& self.popup_opacity_min <= self.popup_opacity_max
        &&& self.popup_opacity_max <= 100
    }

    /// The documented defaults: chance 10..=100, opacity 50..=100. Used when
    /// no persisted record exists or the record cannot be read back.
    pub open spec fn default_config() -> AppConfig {
        AppConfig {
            popup_chance_min: 10,
            popup_chance_max: 100,
            popup_opacity_min: 50,
            popup_opacity_max: 100,
        }
    }

    /// Whether both bound pairs are ordered percentages.
    pub fn is_valid(&self) -> (b: bool)
        ensures
            b == self.valid(),
    {
        self.popup_chance_min <= self.popup_chance_max && self.popup_chance_max <= 100
            && self.popup_opacity_min <= self.popup_opacity_max && self.popup_opacity_max <= 100
    }

    /// A fresh configuration holding the documented defaults.
    pub fn new() -> (c: AppConfig)
        ensures
            c == AppConfig::default_config(),
            c.valid(),
    {
        AppConfig {
            popup_chance_min: 10,
            popup_chance_max: 100,
            popup_opacity_min: 50,
            popup_opacity_max: 100,
        }
    }
}

} // verus!
