//! Named, time-bounded behavioural modifiers applied to scoped actors, and the
//! tool-invocation protocol through which they are listed, taken, queried and
//! purged.

pub mod text;
pub mod models;
pub mod clock;
pub mod catalog;
pub mod store;
pub mod report;
pub mod dispatch;
pub mod lifecycle;
