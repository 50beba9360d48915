use vstd::prelude::*;

use crate::assemble::{
    spec_index_array, spec_indices_ok, spec_vec2_array, spec_vec3_array, to_index_array,
    to_vec2_array, to_vec3_array, Vector2, Vector3,
};
use crate::decode::{decode_accessor, spec_decode};
use crate::descriptor::AccessorDescriptor;
use crate::error::DecodeError;
use crate::store::BufferStore;

verus! {

/// The accessors of one primitive, one per semantic this decoder serves.
/// The position accessor is mandatory; the rest are optional.
#[derive(Clone, Debug)]
pub struct PrimitiveAccessors {
    pub position: Option<AccessorDescriptor>,
    pub normal: Option<AccessorDescriptor>,
    pub texcoord: Option<AccessorDescriptor>,
    pub indices: Option<AccessorDescriptor>,
}

/// The decoded, mesh-ready arrays of one primitive.  Optional attributes
/// that the primitive does not carry are absent, not empty.
#[derive(Clone, Debug)]
pub struct MeshBundle {
    pub positions: Vec<Vector3>,
    pub normals: Option<Vec<Vector3>>,
    pub uvs: Option<Vec<Vector2>>,
    pub indices: Option<Vec<u32>>,
}

/// Decoding one accessor all the way to 3-vector records: the decode error
/// if any, `ShapeMismatch` if the stream is not `count` 3-vectors wide, and
/// the records otherwise.
pub open spec fn spec_vec3_attribute(desc: AccessorDescriptor, store: BufferStore) -> Result<
    Seq<Vector3>,
    DecodeError,
> {
    match spec_decode(desc, store) {
        Err(e) => Err(e),
        Ok(s) => {
            if s.len() == desc.count * 3 {
                Ok(spec_vec3_array(s))
            } else {
                Err(DecodeError::ShapeMismatch)
            }
        },
    }
}

/// Decoding one accessor all the way to 2-vector records.
pub open spec fn spec_vec2_attribute(desc: AccessorDescriptor, store: BufferStore) -> Result<
    Seq<Vector2>,
    DecodeError,
> {
    match spec_decode(desc, store) {
        Err(e) => Err(e),
        Ok(s) => {
            if s.len() == desc.count * 2 {
                Ok(spec_vec2_array(s))
            } else {
                Err(DecodeError::ShapeMismatch)
            }
        },
    }
}

/// Decoding one accessor all the way to a `u32` index array.
pub open spec fn spec_index_attribute(desc: AccessorDescriptor, store: BufferStore) -> Result<
    Seq<u32>,
    DecodeError,
> {
    match spec_decode(desc, store) {
        Err(e) => Err(e),
        Ok(s) => {
            if s.len() != desc.count {
                Err(DecodeError::ShapeMismatch)
            } else if !spec_indices_ok(s) {
                Err(DecodeError::IndexOverflow)
            } else {
                Ok(spec_index_array(s))
            }
        },
    }
}

/// The error an optional 3-vector attribute contributes: its own decode or
/// shape error, or `VertexCountMismatch` if it decodes fine but disagrees
/// with the position accessor on element count.
pub open spec fn spec_opt_vec3_err(
    opt: Option<AccessorDescriptor>,
    store: BufferStore,
    position_count: u32,
) -> Option<DecodeError> {
    match opt {
        None => None,
        Some(d) => match spec_vec3_attribute(d, store) {
            Err(e) => Some(e),
            Ok(_) => {
                if d.count != position_count {
                    Some(DecodeError::VertexCountMismatch)
                } else {
                    None
                }
            },
        },
    }
}

/// The error an optional 2-vector attribute contributes.
pub open spec fn spec_opt_vec2_err(
    opt: Option<AccessorDescriptor>,
    store: BufferStore,
    position_count: u32,
) -> Option<DecodeError> {
    match opt {
        None => None,
        Some(d) => match spec_vec2_attribute(d, store) {
            Err(e) => Some(e),
            Ok(_) => {
                if d.count != position_count {
                    Some(DecodeError::VertexCountMismatch)
                } else {
                    None
                }
            },
        },
    }
}

/// The error an optional index accessor contributes.  Index counts are not
/// held to the vertex count: an index array indexes the vertices, it does
/// not run parallel to them.
pub open spec fn spec_opt_index_err(opt: Option<AccessorDescriptor>, store: BufferStore) -> Option<
    DecodeError,
> {
    match opt {
        None => None,
        Some(d) => match spec_index_attribute(d, store) {
            Err(e) => Some(e),
            Ok(_) => None,
        },
    }
}

/// The first error extracting a primitive runs into, in the order the
/// pipeline works: the mandatory position, then normals, then texture
/// coordinates, then indices.
pub open spec fn spec_extract_err(prim: PrimitiveAccessors, store: BufferStore) -> Option<
    DecodeError,
> {
    match prim.position {
        None => Some(DecodeError::MissingRequiredAttribute),
        Some(p) => match spec_vec3_attribute(p, store) {
            Err(e) => Some(e),
            Ok(_) => {
                if spec_opt_vec3_err(prim.normal, store, p.count) is Some {
                    spec_opt_vec3_err(prim.normal, store, p.count)
                } else if spec_opt_vec2_err(prim.texcoord, store, p.count) is Some {
                    spec_opt_vec2_err(prim.texcoord, store, p.count)
                } else {
                    spec_opt_index_err(prim.indices, store)
                }
            },
        },
    }
}

/// Decode the accessors of one primitive and assemble the mesh bundle.
///
/// The position attribute is mandatory and the optional attribute arrays
/// must agree with it on element count; the bundle carries exactly the
/// arrays whose accessors the primitive carries.  On any failure the
/// specific error of `spec_extract_err` is surfaced and no partial bundle
/// escapes.
pub fn extract_primitive(prim: &PrimitiveAccessors, store: &BufferStore) -> (r: Result<
    MeshBundle,
    DecodeError,
>)
    ensures
        match r {
            Ok(b) => {
                &&& spec_extract_err(*prim, *store) is None
                &&& prim.position matches Some(p) && spec_vec3_attribute(p, *store)
                    == Ok::<Seq<Vector3>, DecodeError>(b.positions@)
                &&& match (prim.normal, b.normals) {
                    (Some(nd), Some(nv)) => spec_vec3_attribute(nd, *store) == Ok::<
                        Seq<Vector3>,
                        DecodeError,
                    >(nv@),
                    (None, None) => true,
                    _ => false,
                }
                &&& match (prim.texcoord, b.uvs) {
                    (Some(td), Some(tv)) => spec_vec2_attribute(td, *store) == Ok::<
                        Seq<Vector2>,
                        DecodeError,
                    >(tv@),
                    (None, None) => true,
                    _ => false,
                }
                &&& match (prim.indices, b.indices) {
                    (Some(id), Some(iv)) => spec_index_attribute(id, *store) == Ok::<
                        Seq<u32>,
                        DecodeError,
                    >(iv@),
                    (None, None) => true,
                    _ => false,
                }
            },
            Err(e) => spec_extract_err(*prim, *store) == Some(e),
        },
{
    let pdesc = match &prim.position {
        None => {
            return Err(DecodeError::MissingRequiredAttribute);
        },
        Some(p) => p,
    };
    let pstream = match decode_accessor(pdesc, store) {
        Ok(v) => v,
        Err(e) => {
            return Err(e);
        },
    };
    let positions = match to_vec3_array(&pstream, pdesc.count) {
        Ok(v) => v,
        Err(e) => {
            return Err(e);
        },
    };
    let normals = match &prim.normal {
        None => None,
        Some(nd) => {
            let ns = match decode_accessor(nd, store) {
                Ok(v) => v,
                Err(e) => {
                    return Err(e);
                },
            };
            let nv = match to_vec3_array(&ns, nd.count) {
                Ok(v) => v,
                Err(e) => {
                    return Err(e);
                },
            };
            if nd.count != pdesc.count {
                return Err(DecodeError::VertexCountMismatch);
            }
            Some(nv)
        },
    };
    let uvs = match &prim.texcoord {
        None => None,
        Some(td) => {
            let ts = match decode_accessor(td, store) {
                Ok(v) => v,
                Err(e) => {
                    return Err(e);
                },
            };
            let tv = match to_vec2_array(&ts, td.count) {
                Ok(v) => v,
                Err(e) => {
                    return Err(e);
                },
            };
            if td.count != pdesc.count {
                return Err(DecodeError::VertexCountMismatch);
            }
            Some(tv)
        },
    };
    let indices = match &prim.indices {
        None => None,
        Some(id) => {
            let is = match decode_accessor(id, store) {
                Ok(v) => v,
                Err(e) => {
                    return Err(e);
                },
            };
            let iv = match to_index_array(&is, id.count) {
                Ok(v) => v,
                Err(e) => {
                    return Err(e);
                },
            };
            Some(iv)
        },
    };
    Ok(MeshBundle { positions, normals, uvs, indices })
}

} // verus!
