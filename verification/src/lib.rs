//! A verified model of a minimal GPU resource layer: shader compilation and
//! linking, buffer upload, vertex-array attribute layout, and structural
//! reflection over interleaved vertex records.
//!
//! Every operation takes the one [`Context`] explicitly — the modeled
//! process-wide, single-threaded graphics context — and each wrapper type
//! exclusively owns one context handle from creation to its single release.

pub mod buffer;
pub mod context;
pub mod glsl;
pub mod layout;
pub mod program;
pub mod shader;
pub mod text;
pub mod vao;

pub use buffer::{Buffer, BufferTarget, UsageHint, VertexRecord};
pub use context::Context;
pub use glsl::GlslType;
pub use layout::{RecordLayout, VertexField};
pub use program::{AttributeNotFoundError, LinkError, ShaderProgram};
pub use shader::{CompileError, Shader, StageKind};
pub use vao::{AttributeBinding, BindingError, ElemType, VertexArray};
