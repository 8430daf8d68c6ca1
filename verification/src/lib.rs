//! A dice-roller library: parsing of dice expressions such as `1d20` or
//! `4d8a`, resolution of rolls with advantage/disadvantage semantics, and
//! formatting of the results as a table.

pub mod digits;
pub mod expr;
pub mod output;
pub mod resolve;

pub use expr::{DiceError, DiceRequest, RollMode, canonical, parse_and_validate, parse_dice_expression};
pub use output::execute_roll;
pub use resolve::{RollResult, resolve_unit, roll_dice, total_kept};
