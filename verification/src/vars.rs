//! Typed PLC variables inside a raw state snapshot: their metadata, the
//! little-endian codec between values and state bytes, and bulk reads and
//! writes by variable name.
use vstd::prelude::*;

verus! {

/// Length of the NUL-padded name field of a variable record.
pub const VAR_NAME_LEN: usize = 32;

/// Storage type of a PLC variable.
#[derive(Debug, Clone, Copy, PartialEq, Eq, Structural)]
pub enum PlcVarType {
    UINT8,
    UINT16,
    UINT32,
    BOOL,
    FLOAT,
}

/// Where and how a PLC variable lives inside the state snapshot.
#[derive(Debug, Clone, Copy)]
pub struct PlcVarMeta {
    pub name: [u8; 32],
    pub var_type: PlcVarType,
    pub size: usize,
    pub offset: usize,
}

/// A decoded variable value. `FLOAT` carries the IEEE-754 bit pattern of the
/// single-precision value exactly as it is stored.
#[derive(Debug, Clone, Copy, PartialEq, Eq, Structural)]
pub enum PlcValue {
    UINT8(u8),
    UINT16(u16),
    UINT32(u32),
    BOOL(bool),
    FLOAT(u32),
}

/// Why a variable could not be read or written.
#[derive(Debug, Clone, Copy, PartialEq, Eq, Structural)]
pub enum VarErrorKind {
    /// `offset + size` does not fit in `usize`.
    OffsetOverflow,
    /// The variable reaches past the end of the state.
    OutOfBounds { offset: usize, size: usize, state_size: usize },
    /// The declared size does not match the width of the declared type.
    InvalidSize(PlcVarType),
    /// The value written has another type than the variable.
    TypeMismatch,
    /// No variable of that name exists.
    UnknownVariable,
}

/// An error together with the name of the variable it concerns.
#[derive(Debug)]
pub struct VarError {
    pub kind: VarErrorKind,
    pub name: String,
}

impl PlcVarType {
    /// The type with the given C enumeration code (0 to 4, in declaration order).
    pub fn from_code(code: u32) -> (t: Option<PlcVarType>)
        ensures
            code == 0 ==> t == Some(PlcVarType::UINT8),
            code == 1 ==> t == Some(PlcVarType::UINT16),
            code == 2 ==> t == Some(PlcVarType::UINT32),
            code == 3 ==> t == Some(PlcVarType::BOOL),
            code == 4 ==> t == Some(PlcVarType::FLOAT),
            code > 4 ==> t is None,
    {
        match code {
            0 => Some(PlcVarType::UINT8),
            1 => Some(PlcVarType::UINT16),
            2 => Some(PlcVarType::UINT32),
            3 => Some(PlcVarType::BOOL),
            4 => Some(PlcVarType::FLOAT),
            _ => None,
        }
    }
}

/// The value of an integer-typed variable given as an unsigned number:
/// `None` when the type is not an integer type or the number does not fit.
pub open spec fn unsigned_value_of(var_type: PlcVarType, raw: u64) -> Option<PlcValue> {
    match var_type {
        PlcVarType::UINT8 => if raw <= u8::MAX { Some(PlcValue::UINT8(raw as u8)) } else { None },
        PlcVarType::UINT16 => if raw <= u16::MAX { Some(PlcValue::UINT16(raw as u16)) } else { None },
        PlcVarType::UINT32 => if raw <= u32::MAX { Some(PlcValue::UINT32(raw as u32)) } else { None },
        _ => None,
    }
}

/// Converts an unsigned number into a value of an integer-typed variable.
pub fn unsigned_value(var_type: PlcVarType, raw: u64) -> (v: Option<PlcValue>)
    ensures
        v == unsigned_value_of(var_type, raw),
{
    match var_type {
        PlcVarType::UINT8 => if raw <= 255 { Some(PlcValue::UINT8(raw as u8)) } else { None },
        PlcVarType::UINT16 => if raw <= 65535 { Some(PlcValue::UINT16(raw as u16)) } else { None },
        PlcVarType::UINT32 => if raw <= 0xffff_ffff { Some(PlcValue::UINT32(raw as u32)) } else { None },
        _ => None,
    }
}

/// Number of state bytes a variable of type `t` occupies.
pub open spec fn type_width(t: PlcVarType) -> nat {
    match t {
        PlcVarType::UINT8 => 1,
        PlcVarType::UINT16 => 2,
        PlcVarType::UINT32 => 4,
        PlcVarType::BOOL => 1,
        PlcVarType::FLOAT => 4,
    }
}

pub open spec fn value_type(v: PlcValue) -> PlcVarType {
    match v {
        PlcValue::UINT8(_) => PlcVarType::UINT8,
        PlcValue::UINT16(_) => PlcVarType::UINT16,
        PlcValue::UINT32(_) => PlcVarType::UINT32,
        PlcValue::BOOL(_) => PlcVarType::BOOL,
        PlcValue::FLOAT(_) => PlcVarType::FLOAT,
    }
}

/// Little-endian bytes of a 16-bit value.
pub open spec fn le16_bytes(v: u16) -> Seq<u8> {
    seq![(v % 256) as u8, (v / 256) as u8]
}

/// Little-endian bytes of a 32-bit value.
pub open spec fn le32_bytes(v: u32) -> Seq<u8> {
    seq![(v % 256) as u8, ((v / 256) % 256) as u8, ((v / 65536) % 256) as u8, (v / 16777216) as u8]
}

pub open spec fn le16_value(b: Seq<u8>) -> u16 {
    (b[0] + 256 * b[1]) as u16
}

pub open spec fn le32_value(b: Seq<u8>) -> u32 {
    (b[0] + 256 * b[1] + 65536 * b[2] + 16777216 * b[3]) as u32
}

/// The bytes that store value `v`.
pub open spec fn value_bytes(v: PlcValue) -> Seq<u8> {
    match v {
        PlcValue::UINT8(x) => seq![x],
        PlcValue::UINT16(x) => le16_bytes(x),
        PlcValue::UINT32(x) => le32_bytes(x),
        PlcValue::BOOL(b) => seq![if b { 1u8 } else { 0u8 }],
        PlcValue::FLOAT(bits) => le32_bytes(bits),
    }
}

/// The value of type `t` stored in the bytes `b` (of length `type_width(t)`).
pub open spec fn bytes_value(t: PlcVarType, b: Seq<u8>) -> PlcValue {
    match t {
        PlcVarType::UINT8 => PlcValue::UINT8(b[0]),
        PlcVarType::UINT16 => PlcValue::UINT16(le16_value(b)),
        PlcVarType::UINT32 => PlcValue::UINT32(le32_value(b)),
        PlcVarType::BOOL => PlcValue::BOOL(b[0] != 0),
        PlcVarType::FLOAT => PlcValue::FLOAT(le32_value(b)),
    }
}

/// The location check shared by reads and writes: `None` when the variable
/// lies inside a state of `state_len` bytes.
pub open spec fn location_error(state_len: nat, meta: PlcVarMeta) -> Option<VarErrorKind> {
    if meta.offset + meta.size > usize::MAX {
        Some(VarErrorKind::OffsetOverflow)
    } else if meta.offset + meta.size > state_len {
        Some(
            VarErrorKind::OutOfBounds {
                offset: meta.offset,
                size: meta.size,
                state_size: state_len as usize,
            },
        )
    } else {
        None
    }
}

/// Reading variable `meta` from `state`.
pub open spec fn decode_result(state: Seq<u8>, meta: PlcVarMeta) -> Result<PlcValue, VarErrorKind> {
    match location_error(state.len(), meta) {
        Some(e) => Err(e),
        None => if meta.size != type_width(meta.var_type) {
            Err(VarErrorKind::InvalidSize(meta.var_type))
        } else {
            Ok(
                bytes_value(
                    meta.var_type,
                    state.subrange(meta.offset as int, meta.offset + meta.size),
                ),
            )
        },
    }
}

/// `state` with `bytes` stored from position `at` on.
pub open spec fn splice(state: Seq<u8>, at: int, bytes: Seq<u8>) -> Seq<u8> {
    state.subrange(0, at) + bytes + state.subrange(at + bytes.len(), state.len() as int)
}

/// Writing `value` into variable `meta` of `state`: the new state.
pub open spec fn encode_result(state: Seq<u8>, meta: PlcVarMeta, value: PlcValue) -> Result<
    Seq<u8>,
    VarErrorKind,
> {
    match location_error(state.len(), meta) {
        Some(e) => Err(e),
        None => if value_type(value) != meta.var_type {
            Err(VarErrorKind::TypeMismatch)
        } else if meta.size != type_width(meta.var_type) {
            Err(VarErrorKind::InvalidSize(meta.var_type))
        } else {
            Ok(splice(state, meta.offset as int, value_bytes(value)))
        },
    }
}

fn location_check(state_len: usize, meta: &PlcVarMeta) -> (r: Option<VarErrorKind>)
    ensures
        r == location_error(state_len as nat, *meta),
{
    match meta.offset.checked_add(meta.size) {
        None => Some(VarErrorKind::OffsetOverflow),
        Some(end) => if end > state_len {
            Some(VarErrorKind::OutOfBounds { offset: meta.offset, size: meta.size, state_size: state_len })
        } else {
            None
        },
    }
}

fn type_width_exec(t: PlcVarType) -> (w: usize)
    ensures
        w == type_width(t),
{
    match t {
        PlcVarType::UINT8 => 1,
        PlcVarType::UINT16 => 2,
        PlcVarType::UINT32 => 4,
        PlcVarType::BOOL => 1,
        PlcVarType::FLOAT => 4,
    }
}

fn read_le32(state: &[u8], o: usize) -> (v: u32)
    requires
        o + 4 <= state@.len(),
    ensures
        v == le32_value(state@.subrange(o as int, o + 4)),
{
    let b0 = state[o] as u32;
    let b1 = state[o + 1] as u32;
    let b2 = state[o + 2] as u32;
    let b3 = state[o + 3] as u32;
    b0 + 256 * b1 + 65536 * b2 + 16777216 * b3
}

/// Reads the value of variable `meta` out of the raw state snapshot `state`.
/// Errors carry the variable's display name.
pub fn decode_value_from_state(state: &[u8], meta: &PlcVarMeta) -> (r: Result<PlcValue, VarError>)
    ensures
        match r {
            Ok(v) => decode_result(state@, *meta) == Ok::<PlcValue, VarErrorKind>(v),
            Err(e) => decode_result(state@, *meta) == Err::<PlcValue, VarErrorKind>(e.kind)
                && e.name@ == crate::names::var_name(*meta),
        },
{
    if let Some(kind) = location_check(state.len(), meta) {
        return Err(VarError { kind, name: crate::names::meta_name(meta) });
    }
    let o = meta.offset;
    if meta.size != type_width_exec(meta.var_type) {
        return Err(VarError { kind: VarErrorKind::InvalidSize(meta.var_type), name: crate::names::meta_name(meta) });
    }
    let ghost bytes = state@.subrange(o as int, o + meta.size);
    let v = match meta.var_type {
        PlcVarType::UINT8 => PlcValue::UINT8(state[o]),
        PlcVarType::UINT16 => PlcValue::UINT16(state[o] as u16 + 256 * (state[o + 1] as u16)),
        PlcVarType::UINT32 => PlcValue::UINT32(read_le32(state, o)),
        PlcVarType::BOOL => PlcValue::BOOL(state[o] != 0),
        PlcVarType::FLOAT => PlcValue::FLOAT(read_le32(state, o)),
    };
    assert(bytes_value(meta.var_type, bytes) == v);
    Ok(v)
}

fn value_bytes_exec(value: PlcValue) -> (b: Vec<u8>)
    ensures
        b@ == value_bytes(value),
{
    match value {
        PlcValue::UINT8(x) => vec![x],
        PlcValue::UINT16(x) => vec![(x % 256) as u8, (x / 256) as u8],
        PlcValue::UINT32(x) => vec![(x % 256) as u8, ((x / 256) % 256) as u8, ((x / 65536) % 256) as u8, (x / 16777216) as u8],
        PlcValue::BOOL(b) => vec![if b { 1u8 } else { 0u8 }],
        PlcValue::FLOAT(x) => vec![(x % 256) as u8, ((x / 256) % 256) as u8, ((x / 65536) % 256) as u8, (x / 16777216) as u8],
    }
}

fn value_type_exec(value: &PlcValue) -> (t: PlcVarType)
    ensures
        t == value_type(*value),
{
    match value {
        PlcValue::UINT8(_) => PlcVarType::UINT8,
        PlcValue::UINT16(_) => PlcVarType::UINT16,
        PlcValue::UINT32(_) => PlcVarType::UINT32,
        PlcValue::BOOL(_) => PlcVarType::BOOL,
        PlcValue::FLOAT(_) => PlcVarType::FLOAT,
    }
}

/// Stores `value` into variable `meta` of the state snapshot `state`. On an
/// error the state is left as it was.
pub fn encode_value_to_state(state: &mut Vec<u8>, meta: &PlcVarMeta, value: PlcValue) -> (r: Result<(), VarError>)
    ensures
        match r {
            Ok(()) => encode_result(old(state)@, *meta, value) == Ok::<Seq<u8>, VarErrorKind>(final(state)@),
            Err(e) => encode_result(old(state)@, *meta, value) == Err::<Seq<u8>, VarErrorKind>(e.kind)
                && e.name@ == crate::names::var_name(*meta) && final(state)@ == old(state)@,
        },
{
    if let Some(kind) = location_check(state.len(), meta) {
        return Err(VarError { kind, name: crate::names::meta_name(meta) });
    }
    if value_type_exec(&value) != meta.var_type {
        return Err(VarError { kind: VarErrorKind::TypeMismatch, name: crate::names::meta_name(meta) });
    }
    if meta.size != type_width_exec(meta.var_type) {
        return Err(VarError { kind: VarErrorKind::InvalidSize(meta.var_type), name: crate::names::meta_name(meta) });
    }
    let bytes = value_bytes_exec(value);
    let o = meta.offset;
    let ghost old_state = state@;
    let mut i: usize = 0;
    while i < bytes.len()
        invariant
            bytes@ == value_bytes(value),
            bytes@.len() == meta.size,
            o + meta.size <= old_state.len(),
            o + meta.size <= usize::MAX,
            state@.len() == old_state.len(),
            0 <= i <= bytes@.len(),
            forall|j: int| 0 <= j < o ==> state@[j] == old_state[j],
            forall|j: int| o + meta.size <= j < old_state.len() ==> state@[j] == old_state[j],
            forall|j: int| 0 <= j < i ==> state@[o + j] == #[trigger] bytes@[j],
            forall|j: int| o + i <= j < o + meta.size ==> state@[j] == old_state[j],
        decreases bytes@.len() - i,
    {
        state.set(o + i, bytes[i]);
        i = i + 1;
    }
    assert(state@ =~= splice(old_state, o as int, value_bytes(value)));
    Ok(())
}

proof fn lemma_le16_value_of_bytes(v: u16)
    ensures
        le16_value(le16_bytes(v)) == v,
{
    let b = le16_bytes(v);
    assert(b[0] + 256 * b[1] == v);
}

proof fn lemma_le32_value_of_bytes(v: u32)
    ensures
        le32_value(le32_bytes(v)) == v,
{
    let b = le32_bytes(v);
    assert(b[0] + 256 * b[1] + 65536 * b[2] + 16777216 * b[3] == v) by (nonlinear_arith)
        requires
            b[0] == v % 256,
            b[1] == (v / 256) % 256,
            b[2] == (v / 65536) % 256,
            b[3] == v / 16777216,
            v <= 0xffff_ffff,
    {
        assert(v / 65536 == ((v / 256) / 256));
        assert(v / 16777216 == ((v / 65536) / 256));
    }
}

proof fn lemma_le16_bytes_of_value(b: Seq<u8>)
    requires
        b.len() == 2,
    ensures
        le16_bytes(le16_value(b)) =~= b,
{
    let v = le16_value(b);
    assert(v == b[0] + 256 * b[1]);
    assert((b[0] + 256 * b[1]) % 256 == b[0] && (b[0] + 256 * b[1]) / 256 == b[1]) by (nonlinear_arith)
        requires 0 <= b[0] < 256, 0 <= b[1] < 256;
}

proof fn lemma_le32_bytes_of_value(b: Seq<u8>)
    requires
        b.len() == 4,
    ensures
        le32_bytes(le32_value(b)) =~= b,
{
    let x0 = b[0] as int;
    let x1 = b[1] as int;
    let x2 = b[2] as int;
    let x3 = b[3] as int;
    let v = x0 + 256 * x1 + 65536 * x2 + 16777216 * x3;
    assert(0 <= v <= 0xffff_ffff);
    assert(le32_value(b) == v);
    assert(v % 256 == x0 && (v / 256) % 256 == x1 && (v / 65536) % 256 == x2 && v / 16777216 == x3)
        by (nonlinear_arith)
        requires
            0 <= x0 < 256, 0 <= x1 < 256, 0 <= x2 < 256, 0 <= x3 < 256,
            v == x0 + 256 * x1 + 65536 * x2 + 16777216 * x3,
    {
        assert(v / 256 == x1 + 256 * x2 + 65536 * x3);
        assert(v / 65536 == x2 + 256 * x3);
    }
}

/// What a write stores is what a read of the same variable gives back.
pub proof fn lemma_read_after_write(state: Seq<u8>, meta: PlcVarMeta, value: PlcValue)
    requires
        encode_result(state, meta, value) is Ok,
    ensures
        decode_result(encode_result(state, meta, value)->Ok_0, meta) == Ok::<PlcValue, VarErrorKind>(value),
{
    let s2 = encode_result(state, meta, value)->Ok_0;
    let o = meta.offset as int;
    let bytes = value_bytes(value);
    assert(s2.len() == state.len());
    assert(s2.subrange(o, o + meta.size) =~= bytes);
    match value {
        PlcValue::UINT16(x) => lemma_le16_value_of_bytes(x),
        PlcValue::UINT32(x) => lemma_le32_value_of_bytes(x),
        PlcValue::FLOAT(x) => lemma_le32_value_of_bytes(x),
        _ => {},
    }
}

/// A write changes only the bytes of the variable written and keeps the state's length.
pub proof fn lemma_write_frame(state: Seq<u8>, meta: PlcVarMeta, value: PlcValue)
    requires
        encode_result(state, meta, value) is Ok,
    ensures
        ({
            let s2 = encode_result(state, meta, value)->Ok_0;
            &&& s2.len() == state.len()
            &&& forall|i: int|
                0 <= i < state.len() && !(meta.offset <= i < meta.offset + meta.size) ==> #[trigger] s2[i]
                    == state[i]
            &&& s2.subrange(meta.offset as int, meta.offset + meta.size) == value_bytes(value)
        }),
{
    let s2 = encode_result(state, meta, value)->Ok_0;
    assert(s2.subrange(meta.offset as int, meta.offset + meta.size) =~= value_bytes(value));
}

/// A read looks only at the state's length and at the bytes of the variable read.
pub proof fn lemma_read_locality(s1: Seq<u8>, s2: Seq<u8>, meta: PlcVarMeta)
    requires
        s1.len() == s2.len(),
        meta.offset + meta.size <= s1.len() ==> s1.subrange(meta.offset as int, meta.offset + meta.size)
            == s2.subrange(meta.offset as int, meta.offset + meta.size),
    ensures
        decode_result(s1, meta) == decode_result(s2, meta),
{
}

/// Writing back the value just read leaves the state as it was, unless the
/// variable is a `BOOL` stored as a byte other than 0 or 1 (which reads as
/// `true` and is written back as 1).
pub proof fn lemma_write_back_read(state: Seq<u8>, meta: PlcVarMeta)
    requires
        decode_result(state, meta) is Ok,
        !(meta.var_type == PlcVarType::BOOL && state[meta.offset as int] > 1),
    ensures
        encode_result(state, meta, decode_result(state, meta)->Ok_0) == Ok::<Seq<u8>, VarErrorKind>(state),
{
    let v = decode_result(state, meta)->Ok_0;
    let o = meta.offset as int;
    let b = state.subrange(o, o + meta.size);
    assert(value_type(v) == meta.var_type);
    match meta.var_type {
        PlcVarType::UINT16 => lemma_le16_bytes_of_value(b),
        PlcVarType::UINT32 => lemma_le32_bytes_of_value(b),
        PlcVarType::FLOAT => lemma_le32_bytes_of_value(b),
        PlcVarType::UINT8 => assert(value_bytes(v) =~= b),
        PlcVarType::BOOL => assert(value_bytes(v) =~= b),
    }
    assert(value_bytes(v) =~= b);
    assert(splice(state, o, b) =~= state);
}

} // verus!
