//! Client-side logic for the control channel of a Knot DNS server daemon.
//!
//! The crate decodes the string-encoded fields of a `zone-status` reply,
//! drives one command/response exchange as a state machine that performs no
//! I/O itself, collects the decoded observations per zone and metric name,
//! and renders them in the text exposition format of Prometheus.

pub mod decode;
pub mod duration;
pub mod error;
pub mod export;
pub mod frame;
pub mod metric;
pub mod name;
pub mod router;
pub mod rules;
pub mod session;
pub mod text;

pub use crate::decode::{decode, knot_bool_parse, knot_counter_parse, parse, Decoder};
pub use crate::duration::knot_time_parse;
pub use crate::error::{KnotError, KnotResult};
pub use crate::export::{render, rendered};
pub use crate::frame::{KnotCtlData, KnotCtlIdx, KnotCtlType};
pub use crate::metric::{MetricRegistry, ZoneMetric};
pub use crate::name::{normalize, normalize_name};
pub use crate::router::route;
pub use crate::rules::{classify, label_rules, LabelRule};
pub use crate::session::{KnotCtx, SessionAction, SessionEvent, SessionState};
