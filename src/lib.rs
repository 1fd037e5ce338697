//! Choreographic protocols: global protocol trees, their projection onto
//! per-role local types, and the bookkeeping of the runtime that executes them.

pub mod role;
pub mod message;
pub mod protocol;
pub mod local_type;
pub mod choreography;
pub mod projection;
pub mod projection_laws;
pub mod analysis;
pub mod role_map;
pub mod session;
pub mod handler;
pub mod endpoint;
pub mod recording;
pub mod middleware;
pub mod program;
pub mod framing;
pub mod label_codec;

pub use analysis::{analyze, AnalysisResult};
pub use choreography::{Choreography, ValidationError};
pub use endpoint::RumpsteakEndpoint;
pub use handler::{ChoreographyError, Label, NoOpHandler, RoleId, RumpsteakHandler};
pub use local_type::LocalType;
pub use message::MessageType;
pub use middleware::{Metrics, Retry, RetryDecision, Trace};
pub use program::{Effect, Program};
pub use projection::{project, ProjectionError};
pub use protocol::{Branch, Condition, Protocol};
pub use recording::{RecordedEvent, RecordingHandler};
pub use role::Role;
pub use session::{SessionChannelBundle, SessionMetadata, SessionState};
