//! The connection: its states, timers and control block.

pub mod control;
pub mod inbound;
pub mod machine;
pub mod outbound;
pub mod states;
pub mod timer;

pub use control::ControlBlock;
pub use inbound::SegmentOutcome;
pub use machine::OutSegment;
pub use outbound::TimeoutOutcome;
pub use states::TcpState;
pub use timer::Timer;
