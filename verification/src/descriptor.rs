use vstd::prelude::*;

use crate::error::DecodeError;

verus! {

/// How one scalar component of an element is encoded in the buffer.
/// The component type determines the byte width and the raw-to-value
/// conversion rule.
#[derive(Clone, Copy, Debug, PartialEq, Eq, Structural)]
pub enum ComponentType {
    Int8,
    UInt8,
    Int16,
    UInt16,
    UInt32,
    Float32,
}

impl ComponentType {
    /// Width in bytes of one encoded component.
    pub open spec fn spec_width(self) -> nat {
        match self {
            ComponentType::Int8 => 1,
            ComponentType::UInt8 => 1,
            ComponentType::Int16 => 2,
            ComponentType::UInt16 => 2,
            ComponentType::UInt32 => 4,
            ComponentType::Float32 => 4,
        }
    }

    /// Width in bytes of one encoded component.
    pub fn width(self) -> (w: u32)
        ensures
            w == self.spec_width(),
            1 <= w <= 4,
    {
        match self {
            ComponentType::Int8 => 1,
            ComponentType::UInt8 => 1,
            ComponentType::Int16 => 2,
            ComponentType::UInt16 => 2,
            ComponentType::UInt32 => 4,
            ComponentType::Float32 => 4,
        }
    }
}

/// The arity of an element: how many scalar components make up one element
/// of the stream.  Matrix arities exist in the interchange format but are
/// not supported by this decoder.
#[derive(Clone, Copy, Debug, PartialEq, Eq, Structural)]
pub enum ElementType {
    Scalar,
    Vec2,
    Vec3,
    Vec4,
    Mat4,
}

impl ElementType {
    /// Number of scalar components per element.
    pub open spec fn spec_arity(self) -> nat {
        match self {
            ElementType::Scalar => 1,
            ElementType::Vec2 => 2,
            ElementType::Vec3 => 3,
            ElementType::Vec4 => 4,
            ElementType::Mat4 => 16,
        }
    }

    /// Number of scalar components per element.
    pub fn arity(self) -> (a: u32)
        ensures
            a == self.spec_arity(),
            1 <= a <= 16,
    {
        match self {
            ElementType::Scalar => 1,
            ElementType::Vec2 => 2,
            ElementType::Vec3 => 3,
            ElementType::Vec4 => 4,
            ElementType::Mat4 => 16,
        }
    }

    /// The element types this decoder accepts: scalars, 2-vectors and
    /// 3-vectors.  Anything else is rejected as an invalid accessor.
    pub open spec fn spec_supported(self) -> bool {
        match self {
            ElementType::Scalar => true,
            ElementType::Vec2 => true,
            ElementType::Vec3 => true,
            ElementType::Vec4 => false,
            ElementType::Mat4 => false,
        }
    }

    /// Whether this decoder accepts the element type.
    pub fn supported(self) -> (r: bool)
        ensures
            r == self.spec_supported(),
    {
        match self {
            ElementType::Scalar => true,
            ElementType::Vec2 => true,
            ElementType::Vec3 => true,
            ElementType::Vec4 => false,
            ElementType::Mat4 => false,
        }
    }
}

/// A read-only sub-range of one raw byte buffer, identified by the id the
/// buffer store knows it under.
#[derive(Clone, Copy, Debug, PartialEq, Eq, Structural)]
pub struct BufferViewRef {
    pub buffer_id: u32,
    pub byte_offset: u32,
    pub byte_length: u32,
}

/// A sparse substitution: the listed element indices are overwritten, after
/// the bulk decode, with replacement values decoded from `values` by the same
/// per-component rule.  `values` is tightly packed, one element per listed
/// index, in listing order.
#[derive(Clone, Debug)]
pub struct SparseOverride {
    /// Element indices to overwrite, in strictly increasing order.
    pub indices: Vec<u32>,
    /// Tightly packed replacement elements, one per listed index.
    pub values: Vec<u8>,
}

/// A sequence of indices that strictly increases from left to right.
pub open spec fn strictly_increasing(s: Seq<u32>) -> bool {
    forall|i: int, j: int| 0 <= i < j < s.len() ==> s[i] < s[j]
}

/// Declarative metadata for one attribute stream: where its bytes live, how
/// they are strided, and how each component is converted.
#[derive(Clone, Debug)]
pub struct AccessorDescriptor {
    pub component_type: ComponentType,
    pub element_type: ElementType,
    /// Number of elements (not of scalar components).
    pub count: u32,
    /// Offset of the first element, relative to the start of the view.
    pub byte_offset: u32,
    /// Distance in bytes between the starts of consecutive elements;
    /// 0 means tightly packed.
    pub byte_stride: u32,
    /// Whether integer components are mapped to the unit interval.
    pub normalized: bool,
    pub sparse: Option<SparseOverride>,
    pub buffer_view: BufferViewRef,
}

impl AccessorDescriptor {
    /// The byte width of one tightly packed element.
    pub open spec fn spec_packed_width(self) -> nat {
        self.element_type.spec_arity() * self.component_type.spec_width()
    }

    /// The stride actually used when stepping from element to element:
    /// the explicit stride, or the packed width when the stride is 0.
    pub open spec fn spec_stride(self) -> nat {
        if self.byte_stride != 0 {
            self.byte_stride as nat
        } else {
            self.spec_packed_width()
        }
    }

    /// The byte width of one tightly packed element.
    pub fn packed_width(&self) -> (w: u32)
        ensures
            w == self.spec_packed_width(),
            w <= 64,
    {
        proof {
            assert(self.element_type.spec_arity() <= 16);
            assert(self.component_type.spec_width() <= 4);
            assert(self.element_type.spec_arity() * self.component_type.spec_width() <= 64)
                by (nonlinear_arith)
                requires
                    self.element_type.spec_arity() <= 16,
                    self.component_type.spec_width() <= 4,
            ;
        }
        self.element_type.arity() * self.component_type.width()
    }

    /// The effective stride, resolving 0 to the packed width.
    pub fn stride_effective(&self) -> (s: u32)
        ensures
            s == self.spec_stride(),
    {
        if self.byte_stride != 0 {
            self.byte_stride
        } else {
            self.packed_width()
        }
    }

    /// The sparse substitution, if present, is well formed for this
    /// accessor: indices strictly increasing and below `count`, and enough
    /// replacement bytes for every listed element.
    pub open spec fn spec_sparse_ok(self) -> bool {
        match self.sparse {
            None => true,
            Some(sp) => {
                &&& strictly_increasing(sp.indices@)
                &&& forall|k: int| 0 <= k < sp.indices@.len() ==> sp.indices@[k] < self.count
                &&& sp.values@.len() >= sp.indices@.len() * self.spec_packed_width()
            },
        }
    }

    /// The descriptor can be decoded against a view of `view_len` bytes:
    /// the element type is supported, elements do not overlap, the full
    /// strided range lies inside the view, and any sparse substitution is
    /// well formed.
    pub open spec fn spec_valid(self, view_len: nat) -> bool {
        &&& self.element_type.spec_supported()
        &&& self.spec_stride() >= self.spec_packed_width()
        &&& self.byte_offset + self.count * self.spec_stride() <= view_len
        &&& self.spec_sparse_ok()
    }

    /// Whether the descriptor can be decoded against a view of `view_len`
    /// bytes.
    pub fn check_valid(&self, view_len: u32) -> (r: bool)
        ensures
            r == self.spec_valid(view_len as nat),
    {
        let packed = self.packed_width();
        let stride = self.stride_effective();
        if !self.element_type.supported() {
            return false;
        }
        if stride < packed {
            return false;
        }
        proof {
            assert((self.count as nat) * (stride as nat) <= 0xffff_ffff * 0xffff_ffff)
                by (nonlinear_arith)
                requires
                    self.count <= 0xffff_ffffnat,
                    stride <= 0xffff_ffffnat,
            ;
        }
        let span: u64 = (self.byte_offset as u64) + (self.count as u64) * (stride as u64);
        if span > view_len as u64 {
            return false;
        }
        self.check_sparse()
    }

    /// Whether the sparse substitution, if present, is well formed.
    #[verifier::loop_isolation(false)]
    fn check_sparse(&self) -> (r: bool)
        ensures
            r == self.spec_sparse_ok(),
    {
        let packed = self.packed_width();
        match &self.sparse {
            None => true,
            Some(sp) => {
                let n = sp.indices.len();
                let have = sp.values.len();
                let needed = (n as u64).checked_mul(packed as u64);
                let enough = match needed {
                    None => false,
                    Some(p) => have as u64 >= p,
                };
                if !enough {
                    proof {
                        if needed is None {
                            assert((n as nat) * (packed as nat) > u64::MAX >= have);
                        }
                    }
                    return false;
                }
                let mut k: usize = 0;
                while k < n
                    invariant
                        n == sp.indices@.len(),
                        k <= n,
                        sp.values@.len() >= sp.indices@.len() * self.spec_packed_width(),
                        packed == self.spec_packed_width(),
                        forall|i: int, j: int| 0 <= i < j < k ==> sp.indices@[i] < sp.indices@[j],
                        forall|i: int| 0 <= i < k ==> sp.indices@[i] < self.count,
                    decreases n - k,
                {
                    if sp.indices[k] >= self.count {
                        return false;
                    }
                    if k > 0 && sp.indices[k - 1] >= sp.indices[k] {
                        return false;
                    }
                    proof {
                        assert forall|i: int, j: int| 0 <= i < j < k + 1 implies sp.indices@[i]
                            < sp.indices@[j] by {
                            if j == k && i < k - 1 {
                                assert(sp.indices@[i] < sp.indices@[k - 1]);
                            }
                        }
                    }
                    k = k + 1;
                }
                true
            },
        }
    }
}

/// Bind parsed accessor metadata to its buffer view, checking that the
/// implied byte range fits the view and that the component/element
/// combination is supported.  This is the only constructor the rest of the
/// pipeline needs: a bound descriptor decodes without further errors as long
/// as the view itself resolves.
pub fn bind_accessor(
    component_type: ComponentType,
    element_type: ElementType,
    count: u32,
    byte_offset: u32,
    byte_stride: u32,
    normalized: bool,
    sparse: Option<SparseOverride>,
    buffer_view: BufferViewRef,
) -> (r: Result<AccessorDescriptor, DecodeError>)
    ensures
        ({
            let d = AccessorDescriptor {
                component_type,
                element_type,
                count,
                byte_offset,
                byte_stride,
                normalized,
                sparse,
                buffer_view,
            };
            if d.spec_valid(buffer_view.byte_length as nat) {
                r == Ok::<AccessorDescriptor, DecodeError>(d)
            } else {
                r == Err::<AccessorDescriptor, DecodeError>(DecodeError::InvalidAccessor)
            }
        }),
{
    let d = AccessorDescriptor {
        component_type,
        element_type,
        count,
        byte_offset,
        byte_stride,
        normalized,
        sparse,
        buffer_view,
    };
    if d.check_valid(buffer_view.byte_length) {
        Ok(d)
    } else {
        Err(DecodeError::InvalidAccessor)
    }
}

} // verus!
