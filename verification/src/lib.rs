//! Dice rolling: reading dice groups and flags from command-line tokens, drawing
//! the rolls, and laying out the lines that report them.

pub mod args;
pub mod dice;
pub mod error;
pub mod flag;
pub mod line;
pub mod numeral;
pub mod report;
pub mod roller;
pub mod text;

pub use args::parsed_args;
pub use dice::{parsed_dice, DieGroup, Roll, RollView};
pub use error::ParseError;
pub use flag::{parsed_flags, Flag, FlagSet};
pub use line::{render_all, Line};
pub use report::report;
pub use roller::{draw_all, draw_group, roll_lines};
