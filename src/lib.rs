//! A fine-grained reactive state engine: signals, memoized computed values
//! that track which signals they read, and effects bound to one signal.
//!
//! All state lives in an explicit scope, [`registry::Registry`], that every
//! operation takes as an argument. Signals and computed states are addressed
//! by integer ids into that scope.
//!
//! Writes propagate by push-based invalidation and pull-based
//! recomputation: a write marks the computed states registered against the
//! signal dirty (one hop) and runs its subscribers; a computed signal
//! evaluates again only when it is read while dirty. When it publishes a
//! new result, the computed states that read its published signal are
//! marked dirty in turn, but none of that signal's subscribers runs.
//!
//! Subscriber callbacks take no argument and have no access to the scope,
//! so a notification cannot write to a signal: writes do not cascade and
//! cannot form cycles. A computed state is registered against a signal at
//! most once, so registrations stay bounded by the number of signals and
//! computed states.
pub mod computed;
pub mod effect;
pub mod registry;
pub mod signal;

pub use computed::{create_computed, ComputedSignal, ComputedState};
pub use effect::create_effect;
pub use registry::Registry;
pub use signal::Signal;
