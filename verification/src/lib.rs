//! Decoding of glTF accessors into flat numeric attribute streams, and the
//! shader-source containers of the render pipeline that consumes them.
//!
//! The decoder turns a typed, strided, possibly sparse byte buffer into a
//! flat, element-major stream of component values, regroups that stream into
//! fixed-arity vertex records, and assembles the records of one primitive
//! into a mesh bundle.  Floating-point components are carried as their exact
//! IEEE-754 bit patterns and normalized integers as exact rationals, so every
//! step of the pipeline is a pure integer computation.

pub mod assemble;
pub mod decode;
pub mod descriptor;
pub mod error;
pub mod extract;
pub mod shader;
pub mod store;
pub mod value;

pub use assemble::{to_index_array, to_vec2_array, to_vec3_array, value_to_index, Vector2, Vector3};
pub use decode::decode_accessor;
pub use descriptor::{
    bind_accessor, AccessorDescriptor, BufferViewRef, ComponentType, ElementType, SparseOverride,
};
pub use error::DecodeError;
pub use extract::{extract_primitive, MeshBundle, PrimitiveAccessors};
pub use shader::{Shader, ShaderSource, ShaderStage};
pub use store::{BufferSlot, BufferStore};
pub use value::DecodedValue;
