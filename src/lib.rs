//! Dynamic instrumentation of user-space functions: resolving function offsets from an
//! executable's symbol table, deciding how probes are attached and coordinated, decoding
//! the records that probes emit and turning them into spans.
pub mod analyzer;
pub mod controller;
pub mod event;
pub mod manager;
pub mod probe;
pub mod span;
pub mod symbols;

pub use analyzer::{AnalyzeError, Analyzer, ProcessInfo};
pub use controller::{ChannelEvent, Controller, ControllerAction, ControllerState, EVENT_CHANNEL_CAPACITY};
pub use event::{BPFEvent, ByteOrder, DecodeError, RECORD_SIZE};
pub use manager::{Manager, ProbeStatus};
pub use probe::{AttachAction, AttachEvent, AttachPhase, AttachSession, HookStage};
pub use span::{ClockSample, SpanAttribute, SpanRecord};
pub use symbols::{BinaryConfig, FunctionInfo, InstrumentationConfig, OffsetTracker, ResolveError, SymbolEntry};
