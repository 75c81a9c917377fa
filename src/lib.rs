//! Tensors carved out of a fixed-capacity memory arena, and a pipeline that
//! decodes fixed-layout binary records straight into arena-backed tensors.
pub mod bytes;
pub mod codec;
pub mod context;
pub mod io;
pub mod params;
pub mod tensor_type;

pub use codec::{DecodeFailure, Field, FieldLayout, Record, RecordLayout, ScalarKind};
pub use context::{Context, Tensor, TensorInfo};
pub use io::{ByteStream, ModelIO, ModelIOError, TensorPlan};
pub use params::{
    fetch_static_key_value_pair, fetch_static_tensor_datatype, fetch_static_tensor_dim,
    parse_datatype, parse_dim, TensorParams,
};
pub use tensor_type::{ConfigError, DataType, Dimension};
