pub mod digits;
pub mod eval;
pub mod expect;
pub mod format;
pub mod laws;
pub mod parse;
pub mod rng;
pub mod roll;
pub mod table;

pub use eval::combined_total;
pub use eval::roll_all;
pub use eval::DieSource;
pub use eval::FixedSource;
pub use eval::Outcome;
pub use parse::Component;
pub use parse::ParseError;
pub use rng::ThreadSource;
pub use roll::DieRoll;
pub use roll::Keep;
pub use roll::Roll;
pub use table::MacroTable;
