//! Inspection of `.safetensors` files: the header of a local or remote file
//! summarized as a plain-text report, without reading the tensor data.
pub mod error;
pub mod header;
pub mod input;
pub mod inspect;
pub mod laws;
pub mod layout;
pub mod probe;
pub mod remote;
pub mod report;
pub mod shape;
pub mod text;

pub use error::InspectError;
pub use input::{classify_input, classify_url, Input, RemoteUrl};
pub use inspect::{inspect_local_buffer, inspect_remote_header, report_from_remote_header};
pub use remote::parse_total_size_from_content_range;
pub use report::{build_report, render_report, Report, TensorSummary};
pub use shape::{format_shape, numel};
