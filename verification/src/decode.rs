use vstd::prelude::*;

use vstd::arithmetic::div_mod::{
    lemma_div_denominator, lemma_div_is_ordered, lemma_fundamental_div_mod,
    lemma_fundamental_div_mod_converse, lemma_mod_pos_bound, lemma_small_mod,
};
use vstd::arithmetic::mul::lemma_mul_inequality;

use crate::descriptor::{strictly_increasing, AccessorDescriptor, ComponentType};
use crate::error::DecodeError;
use crate::store::BufferStore;
use crate::value::DecodedValue;

verus! {

/// The little-endian unsigned reading of `width` bytes starting at `off`.
pub open spec fn le_bytes_at(data: Seq<u8>, off: int, width: nat) -> nat
    recommends
        0 <= off,
        off + width <= data.len(),
    decreases width,
{
    if width == 0 {
        0
    } else {
        (data[off] as nat) + 256 * le_bytes_at(data, off + 1, (width - 1) as nat)
    }
}

/// Two's-complement reading of a raw value whose sign bit stands for
/// `half`: values below `half` are themselves, the rest wrap negative.
pub open spec fn as_signed(raw: nat, half: nat) -> int {
    if raw < half {
        raw as int
    } else {
        raw - 2 * half
    }
}

/// The decoded form of a signed integer component with maximum `max_val`:
/// normalized components become the exact rational `s / max_val` with the
/// numerator clamped to `-max_val`, so the value lies in `[-1, 1]`;
/// unnormalized ones are widened as they are.
pub open spec fn signed_component(s: int, max_val: int, normalized: bool) -> DecodedValue {
    if normalized {
        DecodedValue::Normalized((if s < -max_val { -max_val } else { s }) as i64, max_val as u64)
    } else {
        DecodedValue::Integer(s as i64)
    }
}

/// The decoded form of an unsigned integer component with maximum
/// `max_val`: normalized components become the exact rational
/// `raw / max_val` in `[0, 1]`; unnormalized ones are widened.
pub open spec fn unsigned_component(raw: nat, max_val: nat, normalized: bool) -> DecodedValue {
    if normalized {
        DecodedValue::Normalized(raw as i64, max_val as u64)
    } else {
        DecodedValue::Integer(raw as i64)
    }
}

/// The decoded value of one component of type `ct` whose encoding starts at
/// byte `off`: little-endian raw read, then the per-type conversion rule.
pub open spec fn component_value(
    ct: ComponentType,
    normalized: bool,
    data: Seq<u8>,
    off: int,
) -> DecodedValue {
    match ct {
        ComponentType::Float32 => DecodedValue::Float32Bits(le_bytes_at(data, off, 4) as u32),
        ComponentType::Int8 => signed_component(
            as_signed(le_bytes_at(data, off, 1), 128),
            127,
            normalized,
        ),
        ComponentType::UInt8 => unsigned_component(le_bytes_at(data, off, 1), 255, normalized),
        ComponentType::Int16 => signed_component(
            as_signed(le_bytes_at(data, off, 2), 32768),
            32767,
            normalized,
        ),
        ComponentType::UInt16 => unsigned_component(le_bytes_at(data, off, 2), 65535, normalized),
        ComponentType::UInt32 => unsigned_component(
            le_bytes_at(data, off, 4),
            4294967295,
            normalized,
        ),
    }
}

/// Byte offset of flat stream slot `k` for elements strided by `stride`
/// whose components are `width` bytes wide: slot `k` is component `k mod
/// arity` of element `k div arity`.
pub open spec fn slot_offset(base: int, stride: nat, width: nat, arity: nat, k: int) -> int
    recommends
        arity > 0,
{
    base + (k / (arity as int)) * stride + (k % (arity as int)) * width
}

/// The flat decoded stream of `count` elements of `arity` components each,
/// element-major and component-minor, starting at byte `base`.
pub open spec fn decoded_stream(
    data: Seq<u8>,
    base: int,
    stride: nat,
    ct: ComponentType,
    normalized: bool,
    arity: nat,
    count: nat,
) -> Seq<DecodedValue> {
    Seq::new(
        count * arity,
        |k: int| component_value(
            ct,
            normalized,
            data,
            slot_offset(base, stride, ct.spec_width(), arity, k),
        ),
    )
}

/// `piece` written over `s` starting at position `at`; everything outside
/// that window keeps its old value.
pub open spec fn overwrite_at(
    s: Seq<DecodedValue>,
    at: int,
    piece: Seq<DecodedValue>,
) -> Seq<DecodedValue> {
    Seq::new(
        s.len(),
        |m: int| if at <= m < at + piece.len() {
            piece[m - at]
        } else {
            s[m]
        },
    )
}

/// The sparse substitution applied to a bulk-decoded stream: for each listed
/// element index, in listing order, the `arity`-wide group at that index is
/// replaced by the corresponding replacement group of `vals`.
pub open spec fn apply_sparse(
    base: Seq<DecodedValue>,
    indices: Seq<u32>,
    vals: Seq<DecodedValue>,
    arity: nat,
) -> Seq<DecodedValue>
    recommends
        vals.len() >= indices.len() * arity,
    decreases indices.len(),
{
    if indices.len() == 0 {
        base
    } else {
        let k = indices.len() - 1;
        overwrite_at(
            apply_sparse(base, indices.drop_last(), vals, arity),
            (indices.last() as int) * arity,
            vals.subrange(k * arity, k * arity + arity),
        )
    }
}

/// The replacement stream of a sparse substitution: its `values` bytes are
/// tightly packed, so they decode with stride equal to the packed width.
pub open spec fn spec_sparse_values(desc: AccessorDescriptor, values: Seq<u8>, n: nat) -> Seq<
    DecodedValue,
> {
    decoded_stream(
        values,
        0,
        desc.spec_packed_width(),
        desc.component_type,
        desc.normalized,
        desc.element_type.spec_arity(),
        n,
    )
}

/// The stream an accessor denotes within the bytes of its resolved buffer,
/// assuming the descriptor is valid for its view: the bulk strided decode,
/// with the sparse substitution (if any) applied on top.
pub open spec fn spec_stream_of(desc: AccessorDescriptor, buf: Seq<u8>) -> Seq<DecodedValue> {
    let base = desc.buffer_view.byte_offset + desc.byte_offset;
    let bulk = decoded_stream(
        buf,
        base,
        desc.spec_stride(),
        desc.component_type,
        desc.normalized,
        desc.element_type.spec_arity(),
        desc.count as nat,
    );
    match desc.sparse {
        None => bulk,
        Some(sp) => apply_sparse(
            bulk,
            sp.indices@,
            spec_sparse_values(desc, sp.values@, sp.indices@.len()),
            desc.element_type.spec_arity(),
        ),
    }
}

/// The whole decode of one accessor as a mathematical function: the specific
/// error, or the exact decoded stream.  Resolution errors come first, then
/// a view that leaves its buffer, then everything `spec_valid` checks.
pub open spec fn spec_decode(desc: AccessorDescriptor, store: BufferStore) -> Result<
    Seq<DecodedValue>,
    DecodeError,
> {
    match store.spec_resolve(desc.buffer_view.buffer_id as int) {
        Err(e) => Err(e),
        Ok(buf) => {
            if desc.buffer_view.byte_offset + desc.buffer_view.byte_length > buf.len() {
                Err(DecodeError::InvalidAccessor)
            } else if !desc.spec_valid(desc.buffer_view.byte_length as nat) {
                Err(DecodeError::InvalidAccessor)
            } else {
                Ok(spec_stream_of(desc, buf))
            }
        },
    }
}

/// Component `c` of element `i` ends within the strided range of `count`
/// elements, as long as one packed element fits inside the stride.
proof fn lemma_component_span(i: int, c: int, stride: int, width: int, arity: int, count: int)
    requires
        0 <= i < count,
        0 <= c < arity,
        0 <= width,
        arity * width <= stride,
    ensures
        i * stride + c * width + width <= count * stride,
{
    assert(i * stride + c * width + width <= count * stride) by (nonlinear_arith)
        requires
            0 <= i < count,
            0 <= c < arity,
            0 <= width,
            arity * width <= stride,
    ;
}

/// The flat slot of component `c` of element `i` lies inside the stream.
proof fn lemma_flat_index(i: int, c: int, arity: int, count: int)
    requires
        0 <= i < count,
        0 <= c < arity,
    ensures
        0 <= i * arity + c < count * arity,
{
    assert(0 <= i * arity + c < count * arity) by (nonlinear_arith)
        requires
            0 <= i < count,
            0 <= c < arity,
    ;
}

proof fn lemma_le_bytes_1(data: Seq<u8>, off: int)
    ensures
        le_bytes_at(data, off, 1) == data[off],
{
    reveal_with_fuel(le_bytes_at, 3);
}

proof fn lemma_le_bytes_2(data: Seq<u8>, off: int)
    ensures
        le_bytes_at(data, off, 2) == data[off] + 256 * (data[off + 1] as nat),
{
    reveal_with_fuel(le_bytes_at, 4);
}

proof fn lemma_le_bytes_4(data: Seq<u8>, off: int)
    ensures
        le_bytes_at(data, off, 4) == data[off] + 256 * (data[off + 1] as nat) + 65536 * (data[off
            + 2] as nat) + 16777216 * (data[off + 3] as nat),
{
    reveal_with_fuel(le_bytes_at, 6);
}

/// Read and convert the single component of type `ct` at byte `off`.
fn read_component(data: &Vec<u8>, off: usize, ct: ComponentType, normalized: bool) -> (v:
    DecodedValue)
    requires
        off + ct.spec_width() <= data@.len(),
        data@.len() <= usize::MAX,
    ensures
        v == component_value(ct, normalized, data@, off as int),
{
    match ct {
        ComponentType::Float32 => {
            let raw: u32 = data[off] as u32 + 256 * (data[off + 1] as u32) + 65536 * (data[off
                + 2] as u32) + 16777216 * (data[off + 3] as u32);
            proof {
                lemma_le_bytes_4(data@, off as int);
            }
            DecodedValue::Float32Bits(raw)
        },
        ComponentType::Int8 => {
            let raw = data[off];
            proof {
                lemma_le_bytes_1(data@, off as int);
            }
            let s: i64 = if raw >= 128 {
                raw as i64 - 256
            } else {
                raw as i64
            };
            if normalized {
                DecodedValue::Normalized(if s < -127 { -127 } else { s }, 127)
            } else {
                DecodedValue::Integer(s)
            }
        },
        ComponentType::UInt8 => {
            let raw = data[off];
            proof {
                lemma_le_bytes_1(data@, off as int);
            }
            if normalized {
                DecodedValue::Normalized(raw as i64, 255)
            } else {
                DecodedValue::Integer(raw as i64)
            }
        },
        ComponentType::Int16 => {
            let raw: u32 = data[off] as u32 + 256 * (data[off + 1] as u32);
            proof {
                lemma_le_bytes_2(data@, off as int);
            }
            let s: i64 = if raw >= 32768 {
                raw as i64 - 65536
            } else {
                raw as i64
            };
            if normalized {
                DecodedValue::Normalized(if s < -32767 { -32767 } else { s }, 32767)
            } else {
                DecodedValue::Integer(s)
            }
        },
        ComponentType::UInt16 => {
            let raw: u32 = data[off] as u32 + 256 * (data[off + 1] as u32);
            proof {
                lemma_le_bytes_2(data@, off as int);
            }
            if normalized {
                DecodedValue::Normalized(raw as i64, 65535)
            } else {
                DecodedValue::Integer(raw as i64)
            }
        },
        ComponentType::UInt32 => {
            let raw: u32 = data[off] as u32 + 256 * (data[off + 1] as u32) + 65536 * (data[off
                + 2] as u32) + 16777216 * (data[off + 3] as u32);
            proof {
                lemma_le_bytes_4(data@, off as int);
            }
            if normalized {
                DecodedValue::Normalized(raw as i64, 4294967295)
            } else {
                DecodedValue::Integer(raw as i64)
            }
        },
    }
}

/// Bulk-decode `count` strided elements starting at byte `base` of `buf`.
#[verifier::loop_isolation(false)]
fn decode_bulk(
    buf: &Vec<u8>,
    base: usize,
    stride: usize,
    width: usize,
    arity: usize,
    count: usize,
    ct: ComponentType,
    normalized: bool,
) -> (out: Vec<DecodedValue>)
    requires
        width == ct.spec_width(),
        1 <= arity,
        arity * width <= stride,
        base + count * stride <= buf@.len(),
    ensures
        out@ == decoded_stream(
            buf@,
            base as int,
            stride as nat,
            ct,
            normalized,
            arity as nat,
            count as nat,
        ),
        out@.len() == count * arity,
{
    // pins buf@.len() within the usize range for the reads below
    let _buf_len = buf.len();
    let ghost bulk = decoded_stream(
        buf@,
        base as int,
        stride as nat,
        ct,
        normalized,
        arity as nat,
        count as nat,
    );
    let mut out: Vec<DecodedValue> = Vec::new();
    let mut i: usize = 0;
    while i < count
        invariant
            i <= count,
            out@.len() == i * arity,
            forall|k: int| 0 <= k < out@.len() ==> out@[k] == bulk[k],
        decreases count - i,
    {
        let e_off: usize = {
            proof {
                lemma_mul_inequality(i as int, count as int, stride as int);
            }
            base + i * stride
        };
        let mut c: usize = 0;
        while c < arity
            invariant
                c <= arity,
                i < count,
                e_off == base + i * stride,
                out@.len() == i * arity + c,
                forall|k: int| 0 <= k < out@.len() ==> out@[k] == bulk[k],
            decreases arity - c,
        {
            proof {
                lemma_component_span(
                    i as int,
                    c as int,
                    stride as int,
                    width as int,
                    arity as int,
                    count as int,
                );
            }
            let off: usize = e_off + c * width;
            let v = read_component(buf, off, ct, normalized);
            proof {
                let k = i * arity + c;
                lemma_flat_index(i as int, c as int, arity as int, count as int);
                lemma_fundamental_div_mod_converse(k as int, arity as int, i as int, c as int);
                assert(slot_offset(base as int, stride as nat, ct.spec_width(), arity as nat, k as int)
                    == off);
                assert(bulk[k as int] == v);
            }
            out.push(v);
            c = c + 1;
        }
        proof {
            assert((i + 1) * arity == i * arity + arity) by (nonlinear_arith);
        }
        i = i + 1;
    }
    proof {
        assert(out@ =~= bulk);
    }
    out
}

/// Overwrite the sparse-listed element groups of a bulk-decoded stream with
/// the replacement values, tightly packed in `values`, in listing order.
#[verifier::loop_isolation(false)]
fn apply_sparse_override(
    out: &mut Vec<DecodedValue>,
    indices: &Vec<u32>,
    values: &Vec<u8>,
    width: usize,
    arity: usize,
    packed: usize,
    count: usize,
    ct: ComponentType,
    normalized: bool,
)
    requires
        width == ct.spec_width(),
        1 <= arity,
        packed == arity * width,
        old(out)@.len() == count * arity,
        count * arity <= usize::MAX,
        indices@.len() * packed <= values@.len(),
        forall|k: int| 0 <= k < indices@.len() ==> indices@[k] < count,
    ensures
        final(out)@ == apply_sparse(
            old(out)@,
            indices@,
            decoded_stream(values@, 0, packed as nat, ct, normalized, arity as nat, indices@.len()),
            arity as nat,
        ),
        final(out)@.len() == old(out)@.len(),
{
    let ghost base0 = old(out)@;
    let ghost vals = decoded_stream(
        values@,
        0,
        packed as nat,
        ct,
        normalized,
        arity as nat,
        indices@.len(),
    );
    let n = indices.len();
    // pins values@.len() within the usize range for the reads below
    let _values_len = values.len();
    let mut k: usize = 0;
    while k < n
        invariant
            k <= n,
            out@.len() == base0.len(),
            out@ == apply_sparse(base0, indices@.take(k as int), vals, arity as nat),
        decreases n - k,
    {
        let j: usize = indices[k] as usize;
        let v_base: usize = {
            proof {
                lemma_mul_inequality(k as int, n as int, packed as int);
                lemma_mul_inequality(k as int + 1, n as int, packed as int);
            }
            k * packed
        };
        let ghost prev = apply_sparse(base0, indices@.take(k as int), vals, arity as nat);
        proof {
            assert(out@ == prev);
            lemma_mul_inequality(k as int, n as int, arity as int);
            assert(out@ =~= overwrite_at(
                prev,
                (j * arity) as int,
                vals.subrange(k as int * arity, k as int * arity),
            ));
        }
        let mut c: usize = 0;
        while c < arity
            invariant
                c <= arity,
                k < n,
                j == indices@[k as int],
                v_base == k * packed,
                out@.len() == base0.len(),
                out@ == overwrite_at(prev, (j * arity) as int, vals.subrange(k as int * arity, k as int * arity + c)),
            decreases arity - c,
        {
            proof {
                lemma_component_span(
                    k as int,
                    c as int,
                    packed as int,
                    width as int,
                    arity as int,
                    n as int,
                );
                lemma_flat_index(j as int, c as int, arity as int, count as int);
                lemma_flat_index(k as int, c as int, arity as int, n as int);
            }
            let v = read_component(values, v_base + c * width, ct, normalized);
            proof {
                let m = k * arity + c;
                lemma_fundamental_div_mod_converse(m as int, arity as int, k as int, c as int);
                assert(slot_offset(0, packed as nat, ct.spec_width(), arity as nat, m as int)
                    == v_base + c * width);
                assert(v == vals[m as int]);
            }
            let idx: usize = j * arity + c;
            vstd::std_specs::core::index_set(out, idx, v);
            proof {
                assert(out@ =~= overwrite_at(
                    prev,
                    (j * arity) as int,
                    vals.subrange(k as int * arity, k as int * arity + c + 1),
                ));
            }
            c = c + 1;
        }
        proof {
            let taken = indices@.take(k as int + 1);
            assert(taken.drop_last() =~= indices@.take(k as int));
            assert(taken.last() == indices@[k as int]);
            assert(out@ =~= apply_sparse(base0, taken, vals, arity as nat));
        }
        k = k + 1;
    }
    proof {
        assert(indices@.take(n as int) =~= indices@);
    }
}

/// Decode one accessor against the buffer store into its flat component
/// stream.
///
/// On success the stream is exactly the one `spec_decode` prescribes:
/// `count` elements of `arity` components each, element-major, so its length
/// is always `count * arity`.  On failure the error is exactly the one
/// `spec_decode` prescribes, and nothing is returned.
pub fn decode_accessor(desc: &AccessorDescriptor, store: &BufferStore) -> (r: Result<
    Vec<DecodedValue>,
    DecodeError,
>)
    ensures
        match r {
            Ok(v) => {
                &&& spec_decode(*desc, *store) matches Ok(s) && v@ == s
                &&& v@.len() == desc.count * desc.element_type.spec_arity()
            },
            Err(e) => spec_decode(*desc, *store) == Err::<Seq<DecodedValue>, DecodeError>(e),
        },
{
    let buf = match store.resolve(desc.buffer_view.buffer_id) {
        Ok(b) => b,
        Err(e) => {
            return Err(e);
        },
    };
    let view = desc.buffer_view;
    if (view.byte_offset as u64) + (view.byte_length as u64) > buf.len() as u64 {
        return Err(DecodeError::InvalidAccessor);
    }
    if !desc.check_valid(view.byte_length) {
        return Err(DecodeError::InvalidAccessor);
    }
    let ct = desc.component_type;
    let normalized = desc.normalized;
    let arity: usize = desc.element_type.arity() as usize;
    let width: usize = desc.component_type.width() as usize;
    let packed: usize = desc.packed_width() as usize;
    let stride: usize = desc.stride_effective() as usize;
    let count: usize = desc.count as usize;
    let base: usize = view.byte_offset as usize + desc.byte_offset as usize;
    proof {
        // one component is at least one byte, so the stream length is
        // bounded by the strided byte span
        lemma_mul_inequality(1, width as int, arity as int);
        assert(count * arity <= count * stride) by (nonlinear_arith)
            requires
                arity <= stride,
                count >= 0,
        ;
    }
    let mut out = decode_bulk(buf, base, stride, width, arity, count, ct, normalized);
    match &desc.sparse {
        None => Ok(out),
        Some(sp) => {
            apply_sparse_override(
                &mut out,
                &sp.indices,
                &sp.values,
                width,
                arity,
                packed,
                count,
                ct,
                normalized,
            );
            Ok(out)
        },
    }
}

/// Byte `j` of the little-endian serialization of one 32-bit word.
pub open spec fn spec_u32_byte(x: u32, j: int) -> u8 {
    if j == 0 {
        (x as nat % 256) as u8
    } else if j == 1 {
        ((x as nat / 256) % 256) as u8
    } else if j == 2 {
        ((x as nat / 65536) % 256) as u8
    } else {
        ((x as nat / 16777216) % 256) as u8
    }
}

/// The little-endian byte serialization of a sequence of 32-bit words.
pub open spec fn spec_words_bytes(words: Seq<u32>) -> Seq<u8> {
    Seq::new(4 * words.len(), |b: int| spec_u32_byte(words[b / 4], b % 4))
}

/// Serializing word `k` and reading its four bytes back is the identity.
proof fn lemma_word_round_trip(words: Seq<u32>, k: int)
    requires
        0 <= k < words.len(),
    ensures
        le_bytes_at(spec_words_bytes(words), 4 * k, 4) == words[k],
{
    let bytes = spec_words_bytes(words);
    lemma_le_bytes_4(bytes, 4 * k);
    assert forall|j: int| 0 <= j < 4 implies bytes[4 * k + j] == spec_u32_byte(words[k], j) by {
        lemma_fundamental_div_mod_converse(4 * k + j, 4, k, j);
    }
    let x = words[k] as int;
    lemma_fundamental_div_mod(x, 256);
    lemma_fundamental_div_mod(x / 256, 256);
    lemma_fundamental_div_mod(x / 65536, 256);
    lemma_div_denominator(x, 256, 256);
    lemma_div_denominator(x, 65536, 256);
    lemma_div_is_ordered(x, 0xffff_ffff, 16777216);
    lemma_small_mod((x / 16777216) as nat, 256);
}

/// Round trip: a tightly packed Float32 accessor over the little-endian
/// serialization of a sequence of bit patterns decodes to exactly those bit
/// patterns, for any grouping of the words into elements and either setting
/// of the normalized flag.
pub proof fn lemma_float32_round_trip(words: Seq<u32>, arity: nat, count: nat, normalized: bool)
    requires
        1 <= arity,
        words.len() == count * arity,
    ensures
        decoded_stream(
            spec_words_bytes(words),
            0,
            4 * arity,
            ComponentType::Float32,
            normalized,
            arity,
            count,
        ).len() == words.len(),
        forall|k: int|
            0 <= k < words.len() ==> decoded_stream(
                spec_words_bytes(words),
                0,
                4 * arity,
                ComponentType::Float32,
                normalized,
                arity,
                count,
            )[k] == DecodedValue::Float32Bits(words[k]),
{
    let stream = decoded_stream(
        spec_words_bytes(words),
        0,
        4 * arity,
        ComponentType::Float32,
        normalized,
        arity,
        count,
    );
    assert forall|k: int| 0 <= k < words.len() implies stream[k] == DecodedValue::Float32Bits(
        words[k],
    ) by {
        let q = k / (arity as int);
        let r = k % (arity as int);
        lemma_fundamental_div_mod(k, arity as int);
        lemma_mod_pos_bound(k, arity as int);
        assert(slot_offset(0, 4 * arity, 4, arity, k) == 4 * k) by {
            assert(q * (4 * arity) + r * 4 == 4 * ((arity as int) * q + r)) by (nonlinear_arith);
        }
        lemma_word_round_trip(words, k);
    }
}

/// Stride independence: an accessor that leaves `byte_stride` at 0 (tightly
/// packed) and one that spells the packed width out as its explicit stride
/// decode identically, errors included, whatever else they describe.
pub proof fn lemma_stride_independence(
    d0: AccessorDescriptor,
    d1: AccessorDescriptor,
    store: BufferStore,
)
    requires
        d0.byte_stride == 0,
        d1.byte_stride == d1.spec_packed_width(),
        d1.component_type == d0.component_type,
        d1.element_type == d0.element_type,
        d1.count == d0.count,
        d1.byte_offset == d0.byte_offset,
        d1.normalized == d0.normalized,
        d1.sparse == d0.sparse,
        d1.buffer_view == d0.buffer_view,
    ensures
        spec_decode(d0, store) == spec_decode(d1, store),
{
    assert(d0.element_type.spec_arity() >= 1);
    assert(d0.component_type.spec_width() >= 1);
    assert(d0.spec_packed_width() >= 1) by (nonlinear_arith)
        requires
            d0.element_type.spec_arity() >= 1,
            d0.component_type.spec_width() >= 1,
            d0.spec_packed_width() == d0.element_type.spec_arity()
                * d0.component_type.spec_width(),
    ;
    assert(d1.spec_packed_width() == d0.spec_packed_width());
    assert(d0.spec_stride() == d0.spec_packed_width());
    assert(d1.spec_stride() == d0.spec_packed_width());
    let vl = d0.buffer_view.byte_length as nat;
    assert(d0.spec_sparse_ok() == d1.spec_sparse_ok());
    assert(d0.spec_valid(vl) == d1.spec_valid(vl));
    match store.spec_resolve(d0.buffer_view.buffer_id as int) {
        Err(_) => {},
        Ok(buf) => {
            if d0.spec_valid(vl) && d0.buffer_view.byte_offset + d0.buffer_view.byte_length
                <= buf.len() {
                assert(spec_stream_of(d0, buf) == spec_stream_of(d1, buf));
            }
        },
    }
}


/// The sparse substitution never changes the stream's length.
pub proof fn lemma_apply_sparse_len(
    base: Seq<DecodedValue>,
    indices: Seq<u32>,
    vals: Seq<DecodedValue>,
    arity: nat,
)
    ensures
        apply_sparse(base, indices, vals, arity).len() == base.len(),
    decreases indices.len(),
{
    if indices.len() > 0 {
        lemma_apply_sparse_len(base, indices.drop_last(), vals, arity);
    }
}

/// What the sparse substitution does to one slot: a slot of a listed
/// element holds that element's replacement component, and a slot of an
/// element the substitution does not list keeps its bulk value untouched.
pub proof fn lemma_apply_sparse_slot(
    base: Seq<DecodedValue>,
    indices: Seq<u32>,
    vals: Seq<DecodedValue>,
    arity: nat,
    m: int,
)
    requires
        strictly_increasing(indices),
        1 <= arity,
        0 <= m < base.len(),
        vals.len() >= indices.len() * arity,
    ensures
        forall|k: int|
            #![trigger indices[k]]
            0 <= k < indices.len() && indices[k] == m / (arity as int) ==> apply_sparse(
                base,
                indices,
                vals,
                arity,
            )[m] == vals[k * arity + (m % (arity as int))],
        (forall|k: int|
            #![trigger indices[k]]
            0 <= k < indices.len() ==> indices[k] != m / (arity as int)) ==> apply_sparse(
            base,
            indices,
            vals,
            arity,
        )[m] == base[m],
    decreases indices.len(),
{
    lemma_apply_sparse_len(base, indices, vals, arity);
    let j = m / (arity as int);
    let c = m % (arity as int);
    lemma_fundamental_div_mod(m, arity as int);
    lemma_mod_pos_bound(m, arity as int);
    if indices.len() > 0 {
        let n = indices.len() as int;
        let shorter = indices.drop_last();
        assert forall|i: int, k: int| 0 <= i < k < shorter.len() implies shorter[i]
            < shorter[k] by {
            assert(indices[i] < indices[k]);
        }
        lemma_mul_inequality(n - 1, n, arity as int);
        assert((n - 1) * arity + arity == n * arity) by (nonlinear_arith);
        lemma_apply_sparse_slot(base, shorter, vals, arity, m);
        lemma_apply_sparse_len(base, shorter, vals, arity);
        let last = indices.last() as int;
        let prev = apply_sparse(base, shorter, vals, arity);
        let result = apply_sparse(base, indices, vals, arity);
        if last == j {
            assert(j * arity <= m < j * arity + arity);
            assert(result[m] == vals[(n - 1) * arity + c]);
            assert forall|k: int| 0 <= k < n && indices[k] == j implies k == n - 1 by {
                if k < n - 1 {
                    assert(indices[k] < indices[n - 1]);
                }
            }
        } else {
            if last < j {
                lemma_mul_inequality(last + 1, j, arity as int);
                assert((last + 1) * arity == last * arity + arity) by (nonlinear_arith);
            } else {
                lemma_mul_inequality(j + 1, last, arity as int);
                assert((j + 1) * arity == j * arity + arity) by (nonlinear_arith);
            }
            assert(result[m] == prev[m]);
            assert forall|k: int| 0 <= k < n && indices[k] == j implies result[m] == vals[k * arity
                + c] by {
                assert(k < n - 1);
                assert(shorter[k] == j);
            }
            if forall|k: int| #![trigger indices[k]] 0 <= k < n ==> indices[k] != j {
                assert forall|k: int| 0 <= k < n - 1 implies shorter[k] != j by {
                    assert(indices[k] != j);
                }
            }
        }
    }
}

} // verus!
