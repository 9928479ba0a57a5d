//! Telemetry bridge core for a power-control board: frame assembly from a
//! serial byte stream, frame parsing into typed records, and change-gated
//! dispatch of those records.

pub mod assembler;
pub mod numeric;
pub mod parser;
pub mod record;
pub mod dispatch;
pub mod pipeline;
