//! A verified two-operand calculator engine.
//!
//! The engine holds a left operand text, a pending operator, a right
//! operand text and a result flag, and interprets one user command at a
//! time: digits, operators, equals, decimal point, sign toggle and the
//! editing commands. Every transition is specified against a mathematical
//! model of the state and proved; the one step the engine does not perform
//! itself is the numeric evaluation of a complete expression, which its
//! caller supplies as a [`state::ComputeOutcome`].

pub mod engine;
pub mod laws;
pub mod state;

pub use engine::Calculator;
pub use state::CalcState;
pub use state::ComputeOutcome;
pub use state::Message;
pub use state::OutcomeView;
