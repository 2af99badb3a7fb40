//! Combat initiative tracking: a roster of combatants, each with a base
//! initiative and a dice bonus, ordered and mutated turn by turn.

pub mod dice;
pub mod entity;
pub mod record;
pub mod roster;

pub use entity::Entity;
pub use record::EntityRecord;
pub use roster::Roster;
