pub mod command;
pub mod cutify;
pub mod date;
pub mod feature;
pub mod rule;
pub mod target;
pub mod trigger;

pub use command::Command;
pub use date::Date;
pub use feature::Feature;
pub use rule::Rule;
pub use target::Target;
pub use trigger::Trigger;
