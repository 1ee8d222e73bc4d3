//! The call observer: which calls become spans, what each span says, and what
//! goes on the wire with the calls that leave the process.

pub mod banks;
pub mod calls;
pub mod curl;
pub mod delivery;
pub mod messaging;
pub mod names;
pub mod spans;
pub mod state;

pub use crate::observer::curl::merge_propagation_headers;
pub use crate::observer::names::{
    is_dual_purpose_stream_function, is_excluded_path, is_remote_stream_target, observe_policy,
    parse_excluded_paths, trace_function, Manifest, ObserverSettings, SpanPolicy,
};
pub use crate::observer::spans::{root_http_span, CallFrame, NativeSpan};
pub use crate::observer::state::{
    clear_request_context, drain, install_observer, installed, last_throw, record_userland_span,
    set_propagation, set_request_context, suppress_native, take_pending_traceparent, LastThrow,
    Observer,
};
