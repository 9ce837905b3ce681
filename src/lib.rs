//! Core of a Game of Life application: the cellular automaton, a
//! request/response protocol for effects handled by the host, and the
//! dispatcher that applies events to the model.

pub mod codec;
pub mod dispatch;
pub mod laws;
pub mod life;
pub mod protocol;

pub use codec::{cells_json, parsed_cells};
pub use dispatch::{
    new, AlertOpereation, App, Completion, CoreError, Effect, Event, ExportOperation, Model,
};
pub use life::{CellCoord, Life};
pub use protocol::{Protocol, ProtocolViolation};
