//! ONNX Gaussian μ graph: protobuf writer and inspector.
//!
//! The writer emits a static `[1, obs_dim] → [1,1]` Gemm graph whose weight
//! is all zeros and whose bias is the recorded mean μ. The inspector reads
//! such a graph back. Both speak the protobuf wire format directly: varint
//! and length-delimited fields only.
//!
//! Floating-point values travel as their IEEE-754 bit patterns (`u32`).
use vstd::prelude::*;
use crate::text::{
    ascii_lower, chars_of, contains, contains_chars, decimal, decimal_string, eq_ignore_ascii_case,
    eq_ignore_case, eq_lit, push_str, split_chars, split_on, str_to_string, to_lower,
};
use vstd::utf8::{encode_utf8, valid_utf8, decode_utf8};

verus! {

/// Default flattened ladder (`V=8 × 5`) expected by weekday `gaussian_mlp`.
pub const DEFAULT_GAUSSIAN_MU_ONNX_OBS_DIM: i64 = 40;

/// Graph input name consumed by the Gaussian μ policy.
pub const GAUSSIAN_MU_ONNX_INPUT: &'static str = "observation";

/// Graph output name (`[1,1]` μ) consumed by the Gaussian μ policy.
pub const GAUSSIAN_MU_ONNX_OUTPUT: &'static str = "mean";

pub const RETIRED_UNIT_LOT_MICROSTRUCTURE: &'static str = "_retired_unit_lot_microstructure";

pub const ONNX_IR_VERSION: u64 = 8;

pub const ONNX_OPSET: u64 = 17;

pub const ONNX_FLOAT: u64 = 1;

pub const PRODUCER: &'static str = "trolly-gym";

pub const WIRE_VARINT: u64 = 0;

pub const WIRE_LEN: u64 = 2;

// ---------------------------------------------------------------------------
// Wire format model
// ---------------------------------------------------------------------------

/// Base-128 little-endian varint encoding of `v`.
pub open spec fn varint_encoding(v: nat) -> Seq<u8>
    decreases v,
{
    if v < 128 {
        seq![v as u8]
    } else {
        seq![(v % 128 + 128) as u8] + varint_encoding(v / 128)
    }
}

/// Field key: field number shifted left by three (in 32 bits) or'ed with
/// the wire type.
pub open spec fn tag_key(field: u32, wire: nat) -> nat {
    (field as nat % 0x2000_0000) * 8 + wire
}

pub open spec fn varint_field_bytes(field: u32, value: nat) -> Seq<u8> {
    varint_encoding(tag_key(field, 0)) + varint_encoding(value)
}

pub open spec fn len_field_bytes(field: u32, payload: Seq<u8>) -> Seq<u8> {
    varint_encoding(tag_key(field, 2)) + varint_encoding(payload.len()) + payload
}

pub open spec fn str_field_bytes(field: u32, s: Seq<char>) -> Seq<u8> {
    len_field_bytes(field, encode_utf8(s))
}

/// Outcome of reading a varint from the front of a byte sequence, allowing
/// at most `budget` bytes.
pub enum VarintScan {
    Done { len: nat, value: nat },
    Truncated,
    Overflow,
}

pub open spec fn varint_scan(s: Seq<u8>, budget: nat) -> VarintScan
    decreases budget,
{
    if s.len() == 0 {
        VarintScan::Truncated
    } else if s[0] < 128 {
        VarintScan::Done { len: 1, value: s[0] as nat }
    } else if budget <= 1 {
        VarintScan::Overflow
    } else {
        match varint_scan(s.drop_first(), (budget - 1) as nat) {
            VarintScan::Done { len, value } => VarintScan::Done {
                len: len + 1,
                value: (s[0] % 128) as nat + 128 * value,
            },
            other => other,
        }
    }
}

/// A decoder keeps at most ten groups and truncates the value to 64 bits.
pub open spec fn read_varint_at(bytes: Seq<u8>, pos: int) -> VarintScan {
    match varint_scan(bytes.skip(pos), 10) {
        VarintScan::Done { len, value } => VarintScan::Done {
            len,
            value: value % 0x1_0000_0000_0000_0000,
        },
        other => other,
    }
}

pub proof fn lemma_varint_scan_len(s: Seq<u8>, budget: nat)
    ensures
        varint_scan(s, budget) matches VarintScan::Done { len, value } ==> 1 <= len <= s.len(),
    decreases budget,
{
    if s.len() > 0 && s[0] >= 128 && budget > 1 {
        lemma_varint_scan_len(s.drop_first(), (budget - 1) as nat);
    }
}

pub open spec fn pow128(n: nat) -> nat
    decreases n,
{
    if n == 0 {
        1
    } else {
        128 * pow128((n - 1) as nat)
    }
}

// ---------------------------------------------------------------------------
// Writer
// ---------------------------------------------------------------------------

fn put_raw_varint(buf: &mut Vec<u8>, value: u64)
    ensures
        final(buf)@ == old(buf)@ + varint_encoding(value as nat),
{
    let ghost start = buf@;
    let ghost original = value;
    let mut value = value;
    loop
        invariant_except_break
            buf@ + varint_encoding(value as nat) == start + varint_encoding(original as nat),
        ensures
            buf@ == start + varint_encoding(original as nat),
        decreases value,
    {
        let byte: u8 = (value % 128) as u8;
        let ghost before = buf@;
        let ghost v = value;
        value = value / 128;
        if value != 0 {
            buf.push(byte + 128);
            assert(varint_encoding(v as nat) =~= seq![(byte + 128) as u8] + varint_encoding(
                value as nat,
            ));
            assert(buf@ + varint_encoding(value as nat) =~= before + varint_encoding(v as nat));
        } else {
            buf.push(byte);
            assert(varint_encoding(v as nat) =~= seq![byte]);
            assert(buf@ =~= before + varint_encoding(v as nat));
            break;
        }
    }
}

fn put_tag(buf: &mut Vec<u8>, field: u32, wire: u64)
    requires
        wire < 8,
    ensures
        final(buf)@ == old(buf)@ + varint_encoding(tag_key(field, wire as nat)),
{
    let key: u64 = ((field % 0x2000_0000) as u64) * 8 + wire;
    put_raw_varint(buf, key);
}

fn put_varint(buf: &mut Vec<u8>, field: u32, value: u64)
    ensures
        final(buf)@ == old(buf)@ + varint_field_bytes(field, value as nat),
{
    put_tag(buf, field, WIRE_VARINT);
    put_raw_varint(buf, value);
    assert(final(buf)@ =~= old(buf)@ + varint_field_bytes(field, value as nat));
}

fn append_bytes(buf: &mut Vec<u8>, value: &[u8])
    ensures
        final(buf)@ == old(buf)@ + value@,
{
    for i in 0..value.len()
        invariant
            buf@ == old(buf)@ + value@.take(i as int),
    {
        buf.push(value[i]);
        assert(old(buf)@ + value@.take(i + 1) =~= (old(buf)@ + value@.take(i as int)).push(
            value@[i as int],
        ));
    }
    assert(value@.take(value@.len() as int) =~= value@);
}

fn put_bytes(buf: &mut Vec<u8>, field: u32, value: &[u8])
    ensures
        final(buf)@ == old(buf)@ + len_field_bytes(field, value@),
{
    put_tag(buf, field, WIRE_LEN);
    put_raw_varint(buf, value.len() as u64);
    append_bytes(buf, value);
    assert(final(buf)@ =~= old(buf)@ + len_field_bytes(field, value@));
}

fn put_string(buf: &mut Vec<u8>, field: u32, value: &str)
    ensures
        final(buf)@ == old(buf)@ + str_field_bytes(field, value@),
{
    put_bytes(buf, field, value.as_bytes());
}

fn put_len(buf: &mut Vec<u8>, field: u32, value: &[u8])
    ensures
        final(buf)@ == old(buf)@ + len_field_bytes(field, value@),
{
    put_bytes(buf, field, value);
}

} // verus!

verus! {

// ---------------------------------------------------------------------------
// Reader
// ---------------------------------------------------------------------------

pub proof fn lemma_read_varint_len(bytes: Seq<u8>, pos: int)
    requires
        0 <= pos <= bytes.len(),
    ensures
        read_varint_at(bytes, pos) matches VarintScan::Done { len, value } ==> 1 <= len && pos
            + len <= bytes.len(),
{
    lemma_varint_scan_len(bytes.skip(pos), 10);
}

/// Errors of the protobuf reader.
pub enum ProtoError {
    TruncatedVarint,
    VarintOverflow,
    TruncatedLen,
    Truncated64,
    Truncated32,
    UnsupportedWire(nat),
}

pub open spec fn proto_error_text(e: ProtoError) -> Seq<char> {
    match e {
        ProtoError::TruncatedVarint => "truncated varint"@,
        ProtoError::VarintOverflow => "varint overflow"@,
        ProtoError::TruncatedLen => "truncated length-delimited field"@,
        ProtoError::Truncated64 => "truncated 64-bit field"@,
        ProtoError::Truncated32 => "truncated 32-bit field"@,
        ProtoError::UnsupportedWire(w) => "unsupported protobuf wire type "@ + decimal(w),
    }
}

pub open spec fn varint_error(s: VarintScan) -> ProtoError {
    if s is Overflow {
        ProtoError::VarintOverflow
    } else {
        ProtoError::TruncatedVarint
    }
}

/// A decoded field: number, payload of a length-delimited field (empty for
/// other wire types) and value of a varint field (zero for other wire types).
pub type FieldView = (u32, Seq<u8>, u64);

pub open spec fn prepend_field(f: FieldView, rest: Result<Seq<FieldView>, ProtoError>) -> Result<
    Seq<FieldView>,
    ProtoError,
> {
    match rest {
        Ok(fs) => Ok(seq![f] + fs),
        Err(e) => Err(e),
    }
}

/// Fields decoded from `bytes[pos..]`. Fixed-width fields are skipped.
pub open spec fn parse_fields_from(bytes: Seq<u8>, pos: nat) -> Result<Seq<FieldView>, ProtoError>
    decreases bytes.len() - pos,
{
    if pos >= bytes.len() {
        Ok(Seq::<FieldView>::empty())
    } else {
        match read_varint_at(bytes, pos as int) {
            VarintScan::Done { len: klen, value: key } => {
                proof {
                    lemma_read_varint_len(bytes, pos as int);
                }
                let next = pos + klen;
                let field = ((key / 8) % 0x1_0000_0000) as u32;
                let wire = key % 8;
                if wire == 0 {
                    match read_varint_at(bytes, next as int) {
                        VarintScan::Done { len: vlen, value } => {
                            proof {
                                lemma_read_varint_len(bytes, next as int);
                            }
                            prepend_field(
                                (field, Seq::<u8>::empty(), value as u64),
                                parse_fields_from(bytes, next + vlen),
                            )
                        },
                        other => Err(varint_error(other)),
                    }
                } else if wire == 2 {
                    match read_varint_at(bytes, next as int) {
                        VarintScan::Done { len: llen, value: n } => {
                            proof {
                                lemma_read_varint_len(bytes, next as int);
                            }
                            let start = next + llen;
                            let end = start + ((n as u64) as usize) as nat;
                            if end > bytes.len() {
                                Err(ProtoError::TruncatedLen)
                            } else {
                                prepend_field(
                                    (field, bytes.subrange(start as int, end as int), 0u64),
                                    parse_fields_from(bytes, end),
                                )
                            }
                        },
                        other => Err(varint_error(other)),
                    }
                } else if wire == 1 {
                    if next + 8 > bytes.len() {
                        Err(ProtoError::Truncated64)
                    } else {
                        parse_fields_from(bytes, next + 8)
                    }
                } else if wire == 5 {
                    if next + 4 > bytes.len() {
                        Err(ProtoError::Truncated32)
                    } else {
                        parse_fields_from(bytes, next + 4)
                    }
                } else {
                    Err(ProtoError::UnsupportedWire(wire))
                }
            },
            other => Err(varint_error(other)),
        }
    }
}

pub open spec fn parse_fields(bytes: Seq<u8>) -> Result<Seq<FieldView>, ProtoError> {
    parse_fields_from(bytes, 0)
}

pub open spec fn continue_scan(consumed: nat, acc: nat, mult: nat, tail: VarintScan) -> VarintScan {
    match tail {
        VarintScan::Done { len, value } => VarintScan::Done {
            len: len + consumed,
            value: acc + mult * value,
        },
        other => other,
    }
}

fn read_varint(bytes: &[u8], pos: usize) -> (r: Result<(u64, usize), String>)
    requires
        pos <= bytes@.len(),
    ensures
        match read_varint_at(bytes@, pos as int) {
            VarintScan::Done { len, value } => r matches Ok((v, p)) && v == value && p == pos + len,
            VarintScan::Truncated => r matches Err(e) && e@ == proto_error_text(ProtoError::TruncatedVarint),
            VarintScan::Overflow => r matches Err(e) && e@ == proto_error_text(ProtoError::VarintOverflow),
        },
{
    let ghost s = bytes@.skip(pos as int);
    let ghost pos0 = pos;
    let mut value: u64 = 0;
    let mut mult: u64 = 1;
    let mut i: usize = 0;
    let mut cursor = pos;
    proof {
        assert(bytes@.skip(cursor as int) =~= s);
    }
    loop
        invariant
            cursor == pos0 + i,
            pos0 == pos,
            cursor <= bytes@.len(),
            i <= 9,
            s == bytes@.skip(pos0 as int),
            mult as nat == pow128(i as nat),
            value < mult,
            varint_scan(s, 10) == continue_scan(
                i as nat,
                value as nat,
                mult as nat,
                varint_scan(bytes@.skip(cursor as int), (10 - i) as nat),
            ),
        decreases 10 - i,
    {
        let ghost t = bytes@.skip(cursor as int);
        if cursor >= bytes.len() {
            assert(t.len() == 0);
            assert(varint_scan(t, (10 - i) as nat) is Truncated);
            assert(read_varint_at(bytes@, pos0 as int) is Truncated);
            return Err(str_to_string("truncated varint"));
        }
        let byte = bytes[cursor];
        assert(t[0] == byte);
        cursor = cursor + 1;
        if byte < 128 {
            proof {
                lemma_pow128_9();
            }
            let add: u64 = if i == 9 {
                ((byte % 2) as u64) * mult
            } else {
                proof {
                    lemma_pow128_bound(i as nat);
                    assert(value + (byte as int) * mult < 0x8000_0000_0000_0000) by (nonlinear_arith)
                        requires
                            value < mult,
                            byte < 128,
                            mult * 128 <= 0x8000_0000_0000_0000,
                    ;
                }
                (byte as u64) * mult
            };
            proof {
                if i == 9 {
                    assert((value + mult * byte) % 0x1_0000_0000_0000_0000 == value + (byte % 2)
                        * mult) by (nonlinear_arith)
                        requires
                            mult == 0x8000_0000_0000_0000,
                            value < mult,
                            byte < 128,
                    ;
                } else {
                    lemma_pow128_bound(i as nat);
                    assert(value + mult * byte < 0x1_0000_0000_0000_0000) by (nonlinear_arith)
                        requires
                            value < mult,
                            byte < 128,
                            mult * 128 <= 0x8000_0000_0000_0000,
                    ;
                }
            }
            proof {
                assert(varint_scan(t, (10 - i) as nat) == VarintScan::Done { len: 1, value: byte as nat });
                assert(varint_scan(s, 10) == VarintScan::Done {
                    len: 1 + i as nat,
                    value: (value + mult * byte) as nat,
                });
                if i == 9 {
                    assert(add == (byte % 2) * mult);
                } else {
                    assert(add == byte * mult);
                    assert(byte * mult == mult * byte) by (nonlinear_arith);
                }
            }
            return Ok((value + add, cursor));
        }
        if i + 1 >= 10 {
            return Err(str_to_string("varint overflow"));
        }
        proof {
            lemma_pow128_bound(i as nat);
            assert(t.drop_first() =~= bytes@.skip(cursor as int));
            assert(value + ((byte % 128) as u64) * mult < mult * 128) by (nonlinear_arith)
                requires
                    value < mult,
            ;
            assert(((byte % 128) as u64) * mult == mult * (byte % 128)) by (nonlinear_arith);
            let tail = varint_scan(t.drop_first(), (10 - i - 1) as nat);
            if let VarintScan::Done { len, value: v } = tail {
                assert(value + mult * ((byte % 128) + 128 * v) == (value + mult * (byte % 128))
                    + (mult * 128) * v) by (nonlinear_arith);
            }
        }
        value = value + ((byte % 128) as u64) * mult;
        mult = mult * 128;
        i = i + 1;
    }
}

proof fn lemma_pow128_9()
    ensures
        pow128(9) == 0x8000_0000_0000_0000,
{
    reveal_with_fuel(pow128, 10);
}

proof fn lemma_pow128_bound(i: nat)
    requires
        i <= 8,
    ensures
        pow128(i) * 128 <= 0x8000_0000_0000_0000,
        pow128(i) >= 1,
    decreases i,
{
    reveal_with_fuel(pow128, 10);
    if i > 0 {
        lemma_pow128_bound((i - 1) as nat);
    }
}

} // verus!

verus! {

/// One decoded protobuf field.
pub struct ProtoField {
    pub field: u32,
    pub bytes: Vec<u8>,
    pub value: u64,
}

impl ProtoField {
    pub open spec fn view(&self) -> FieldView {
        (self.field, self.bytes@, self.value)
    }
}

/// The fields of one protobuf message, in wire order.
pub struct ProtoMap {
    pub fields: Vec<ProtoField>,
}

impl View for ProtoMap {
    type V = Seq<FieldView>;

    open spec fn view(&self) -> Seq<FieldView> {
        self.fields@.map_values(|f: ProtoField| f.view())
    }
}

pub open spec fn prefix_fields(fs: Seq<FieldView>, rest: Result<Seq<FieldView>, ProtoError>) -> Result<
    Seq<FieldView>,
    ProtoError,
> {
    match rest {
        Ok(r) => Ok(fs + r),
        Err(e) => Err(e),
    }
}

fn copy_range(bytes: &[u8], start: usize, end: usize) -> (r: Vec<u8>)
    requires
        start <= end <= bytes@.len(),
    ensures
        r@ == bytes@.subrange(start as int, end as int),
{
    let mut out: Vec<u8> = Vec::new();
    let mut k = start;
    while k < end
        invariant
            start <= k <= end <= bytes@.len(),
            out@ == bytes@.subrange(start as int, k as int),
        decreases end - k,
    {
        out.push(bytes[k]);
        assert(bytes@.subrange(start as int, k + 1) =~= bytes@.subrange(start as int, k as int).push(
            bytes@[k as int],
        ));
        k = k + 1;
    }
    out
}

fn unsupported_wire_text(wire: u64) -> (r: String)
    ensures
        r@ == proto_error_text(ProtoError::UnsupportedWire(wire as nat)),
{
    let mut s = str_to_string("unsupported protobuf wire type ");
    let d = decimal_string(wire);
    push_str(&mut s, d.as_str());
    s
}

impl ProtoMap {
    /// Decodes the fields of one message.
    pub fn parse(bytes: &[u8]) -> (r: Result<ProtoMap, String>)
        ensures
            match parse_fields(bytes@) {
                Ok(fs) => r matches Ok(m) && m@ == fs,
                Err(e) => r matches Err(msg) && msg@ == proto_error_text(e),
            },
    {
        let mut fields: Vec<ProtoField> = Vec::new();
        let mut pos: usize = 0;
        proof {
            assert(fields@.map_values(|f: ProtoField| f.view()) =~= Seq::<FieldView>::empty());
            assert(Seq::<FieldView>::empty() + parse_fields_from(bytes@, 0)->Ok_0 =~= parse_fields_from(
                bytes@,
                0,
            )->Ok_0);
        }
        while pos < bytes.len()
            invariant
                pos <= bytes@.len(),
                parse_fields(bytes@) == prefix_fields(
                    fields@.map_values(|f: ProtoField| f.view()),
                    parse_fields_from(bytes@, pos as nat),
                ),
            decreases bytes@.len() - pos,
        {
            let ghost fv = fields@.map_values(|f: ProtoField| f.view());
            proof {
                lemma_read_varint_len(bytes@, pos as int);
            }
            let (key, next) = match read_varint(bytes, pos) {
                Ok(kv) => kv,
                Err(e) => {
                    return Err(e);
                },
            };
            let field: u32 = ((key / 8) % 0x1_0000_0000) as u32;
            let wire: u64 = key % 8;
            if wire == WIRE_VARINT {
                proof {
                    lemma_read_varint_len(bytes@, next as int);
                }
                let (value, after) = match read_varint(bytes, next) {
                    Ok(kv) => kv,
                    Err(e) => {
                        return Err(e);
                    },
                };
                let f = ProtoField { field, bytes: Vec::new(), value };
                fields.push(f);
                proof {
                    assert(f.view() == (field, Seq::<u8>::empty(), value));
                    assert(fields@.map_values(|f: ProtoField| f.view()) =~= fv.push(f.view()));
                    if let Ok(rest) = parse_fields_from(bytes@, after as nat) {
                        assert(fv + (seq![f.view()] + rest) =~= fv.push(f.view()) + rest);
                    }
                }
                pos = after;
            } else if wire == WIRE_LEN {
                proof {
                    lemma_read_varint_len(bytes@, next as int);
                }
                let (len, start) = match read_varint(bytes, next) {
                    Ok(kv) => kv,
                    Err(e) => {
                        return Err(e);
                    },
                };
                let n: usize = len as usize;
                let end = match start.checked_add(n) {
                    Some(e) => e,
                    None => {
                        return Err(str_to_string("truncated length-delimited field"));
                    },
                };
                if end > bytes.len() {
                    return Err(str_to_string("truncated length-delimited field"));
                }
                let payload = copy_range(bytes, start, end);
                let f = ProtoField { field, bytes: payload, value: 0 };
                fields.push(f);
                proof {
                    assert(fields@.map_values(|f: ProtoField| f.view()) =~= fv.push(f.view()));
                    if let Ok(rest) = parse_fields_from(bytes@, end as nat) {
                        assert(fv + (seq![f.view()] + rest) =~= fv.push(f.view()) + rest);
                    }
                }
                pos = end;
            } else if wire == 1 {
                if next > bytes.len() || bytes.len() - next < 8 {
                    return Err(str_to_string("truncated 64-bit field"));
                }
                pos = next + 8;
            } else if wire == 5 {
                if next > bytes.len() || bytes.len() - next < 4 {
                    return Err(str_to_string("truncated 32-bit field"));
                }
                pos = next + 4;
            } else {
                return Err(unsupported_wire_text(wire));
            }
        }
        proof {
            assert(fields@.map_values(|f: ProtoField| f.view()) + Seq::<FieldView>::empty()
                =~= fields@.map_values(|f: ProtoField| f.view()));
        }
        Ok(ProtoMap { fields })
    }
}

} // verus!

verus! {

/// Which fields an accessor looks at: every field with the number, only
/// non-empty length-delimited ones, or only ones without payload bytes.
pub enum FieldKind {
    Any,
    Payload,
    Bare,
}

pub open spec fn field_matches(f: FieldView, field: u32, kind: FieldKind) -> bool {
    f.0 == field && match kind {
        FieldKind::Any => true,
        FieldKind::Payload => f.1.len() > 0,
        FieldKind::Bare => f.1.len() == 0,
    }
}

pub open spec fn first_field(fs: Seq<FieldView>, field: u32, kind: FieldKind) -> Option<FieldView>
    decreases fs.len(),
{
    if fs.len() == 0 {
        None
    } else if field_matches(fs[0], field, kind) {
        Some(fs[0])
    } else {
        first_field(fs.drop_first(), field, kind)
    }
}

pub open spec fn spec_string_field(fs: Seq<FieldView>, field: u32) -> Option<Seq<char>> {
    match first_field(fs, field, FieldKind::Any) {
        Some(f) => if valid_utf8(f.1) {
            Some(decode_utf8(f.1))
        } else {
            None
        },
        None => None,
    }
}

pub open spec fn spec_bytes_field(fs: Seq<FieldView>, field: u32) -> Option<Seq<u8>> {
    match first_field(fs, field, FieldKind::Payload) {
        Some(f) => Some(f.1),
        None => None,
    }
}

pub open spec fn spec_varint_field(fs: Seq<FieldView>, field: u32) -> Option<u64> {
    match first_field(fs, field, FieldKind::Bare) {
        Some(f) => Some(f.2),
        None => None,
    }
}

pub open spec fn spec_message_field(fs: Seq<FieldView>, field: u32) -> Option<Seq<FieldView>> {
    match spec_bytes_field(fs, field) {
        Some(b) => match parse_fields(b) {
            Ok(m) => Some(m),
            Err(_) => None,
        },
        None => None,
    }
}

/// The messages carried by the non-empty length-delimited fields numbered
/// `field`, in order; payloads that do not decode are skipped.
pub open spec fn spec_repeated_messages(fs: Seq<FieldView>, field: u32) -> Seq<Seq<FieldView>>
    decreases fs.len(),
{
    if fs.len() == 0 {
        Seq::<Seq<FieldView>>::empty()
    } else {
        let rest = spec_repeated_messages(fs.drop_first(), field);
        if fs[0].0 == field && fs[0].1.len() > 0 && parse_fields(fs[0].1) is Ok {
            seq![parse_fields(fs[0].1)->Ok_0] + rest
        } else {
            rest
        }
    }
}

/// `std::str::from_utf8`, with the slice copied into an owned `String`.
/// Trusted: the standard library documents that it succeeds exactly on
/// well-formed UTF-8 and then yields the characters that the bytes encode.
#[verifier::external_body]
fn utf8_to_string(bytes: &[u8]) -> (r: Option<String>)
    ensures
        r is Some <==> valid_utf8(bytes@),
        r matches Some(s) ==> s@ == decode_utf8(bytes@),
{
    std::str::from_utf8(bytes).ok().map(|s| s.to_owned())
}

impl ProtoMap {
    fn find_index(&self, field: u32, kind: FieldKind) -> (r: Option<usize>)
        ensures
            match first_field(self@, field, kind) {
                Some(f) => r matches Some(i) && i < self@.len() && self@[i as int] == f,
                None => r is None,
            },
    {
        let ghost fs = self@;
        proof {
            assert(fs.skip(0) =~= fs);
        }
        let mut i: usize = 0;
        while i < self.fields.len()
            invariant
                i <= self.fields@.len(),
                fs == self@,
                first_field(fs, field, kind) == first_field(fs.skip(i as int), field, kind),
            decreases self.fields@.len() - i,
        {
            let f = &self.fields[i];
            assert(fs[i as int] == f.view());
            assert(fs.skip(i as int)[0] == fs[i as int]);
            let hit = f.field == field && match kind {
                FieldKind::Any => true,
                FieldKind::Payload => f.bytes.len() > 0,
                FieldKind::Bare => f.bytes.len() == 0,
            };
            if hit {
                return Some(i);
            }
            assert(fs.skip(i as int).drop_first() =~= fs.skip(i + 1));
            i = i + 1;
        }
        None
    }

    pub fn string_field(&self, field: u32) -> (r: Option<String>)
        ensures
            match spec_string_field(self@, field) {
                Some(s) => r matches Some(x) && x@ == s,
                None => r is None,
            },
    {
        match self.find_index(field, FieldKind::Any) {
            Some(i) => utf8_to_string(self.fields[i].bytes.as_slice()),
            None => None,
        }
    }

    pub fn bytes_field(&self, field: u32) -> (r: Option<Vec<u8>>)
        ensures
            match spec_bytes_field(self@, field) {
                Some(b) => r matches Some(x) && x@ == b,
                None => r is None,
            },
    {
        match self.find_index(field, FieldKind::Payload) {
            Some(i) => Some(copy_range(self.fields[i].bytes.as_slice(), 0, self.fields[i].bytes.len())),
            None => None,
        }
    }

    pub fn varint_field(&self, field: u32) -> (r: Option<u64>)
        ensures
            r == spec_varint_field(self@, field),
    {
        match self.find_index(field, FieldKind::Bare) {
            Some(i) => Some(self.fields[i].value),
            None => None,
        }
    }

    pub fn message_field(&self, field: u32) -> (r: Option<ProtoMap>)
        ensures
            match spec_message_field(self@, field) {
                Some(m) => r matches Some(x) && x@ == m,
                None => r is None,
            },
    {
        match self.bytes_field(field) {
            Some(b) => match ProtoMap::parse(b.as_slice()) {
                Ok(m) => Some(m),
                Err(_) => None,
            },
            None => None,
        }
    }

    pub fn repeated_messages(&self, field: u32) -> (r: Vec<ProtoMap>)
        ensures
            r@.len() == spec_repeated_messages(self@, field).len(),
            forall|k: int|
                0 <= k < r@.len() ==> #[trigger] r@[k]@ == spec_repeated_messages(self@, field)[k],
    {
        let ghost fs = self@;
        let mut out: Vec<ProtoMap> = Vec::new();
        let mut i: usize = self.fields.len();
        proof {
            assert(fs.skip(fs.len() as int) =~= Seq::<FieldView>::empty());
        }
        // Walk backwards so that each step prepends to the collected suffix.
        let mut rev: Vec<ProtoMap> = Vec::new();
        while i > 0
            invariant
                i <= self.fields@.len(),
                fs == self@,
                rev@.len() == spec_repeated_messages(fs.skip(i as int), field).len(),
                forall|k: int|
                    0 <= k < rev@.len() ==> #[trigger] rev@[k]@ == spec_repeated_messages(
                        fs.skip(i as int),
                        field,
                    )[rev@.len() - 1 - k],
            decreases i,
        {
            i = i - 1;
            let ghost tail = fs.skip(i + 1);
            assert(fs.skip(i as int).drop_first() =~= tail);
            assert(fs.skip(i as int)[0] == fs[i as int]);
            let f = &self.fields[i];
            assert(fs[i as int] == f.view());
            if f.field == field && f.bytes.len() > 0 {
                match ProtoMap::parse(f.bytes.as_slice()) {
                    Ok(m) => {
                        rev.push(m);
                    },
                    Err(_) => {},
                }
            }
        }
        assert(fs.skip(0) =~= fs);
        let ghost want = spec_repeated_messages(fs, field);
        let ghost n = rev@.len();
        let mut k: usize = rev.len();
        while k > 0
            invariant
                k == rev@.len(),
                n == want.len(),
                k <= n,
                forall|j: int| 0 <= j < k ==> #[trigger] rev@[j]@ == want[n - 1 - j],
                out@.len() == n - k,
                forall|j: int| 0 <= j < out@.len() ==> #[trigger] out@[j]@ == want[j],
            decreases k,
        {
            let m = rev.pop().unwrap();
            assert(m@ == want[n - k]);
            out.push(m);
            k = k - 1;
        }
        out
    }
}

} // verus!

verus! {

// ---------------------------------------------------------------------------
// Graph writer
// ---------------------------------------------------------------------------

/// The four little-endian bytes of a 32-bit word.
pub open spec fn le_bytes_u32(w: u32) -> Seq<u8> {
    seq![
        (w % 0x100) as u8,
        ((w / 0x100) % 0x100) as u8,
        ((w / 0x1_0000) % 0x100) as u8,
        ((w / 0x100_0000) % 0x100) as u8,
    ]
}

/// Little-endian word read back from the first four bytes.
pub open spec fn u32_from_le(b: Seq<u8>) -> u32 {
    (b[0] as nat + b[1] as nat * 0x100 + b[2] as nat * 0x1_0000 + b[3] as nat * 0x100_0000) as u32
}

/// `f32::is_finite` on the bit pattern: the exponent field is not all ones.
pub open spec fn f32_bits_finite(bits: u32) -> bool {
    (bits / 0x80_0000) % 0x100 != 0xff
}

/// Bit pattern of the quiet NaN the inspector starts from.
pub const F32_NAN_BITS: u32 = 0x7fc0_0000;

pub open spec fn repeated_varint_fields(field: u32, dims: Seq<u64>) -> Seq<u8>
    decreases dims.len(),
{
    if dims.len() == 0 {
        Seq::<u8>::empty()
    } else {
        repeated_varint_fields(field, dims.drop_last()) + varint_field_bytes(
            field,
            dims.last() as nat,
        )
    }
}

pub open spec fn tensor_bytes(name: Seq<char>, dims: Seq<u64>, raw: Seq<u8>) -> Seq<u8> {
    repeated_varint_fields(1, dims) + varint_field_bytes(2, ONNX_FLOAT as nat) + str_field_bytes(
        8,
        name,
    ) + len_field_bytes(9, raw)
}

pub open spec fn shape_bytes(dims: Seq<u64>) -> Seq<u8>
    decreases dims.len(),
{
    if dims.len() == 0 {
        Seq::<u8>::empty()
    } else {
        shape_bytes(dims.drop_last()) + len_field_bytes(
            1,
            varint_field_bytes(1, dims.last() as nat),
        )
    }
}

pub open spec fn value_info_bytes(name: Seq<char>, dims: Seq<u64>) -> Seq<u8> {
    let tensor = varint_field_bytes(1, ONNX_FLOAT as nat) + len_field_bytes(2, shape_bytes(dims));
    let ty = len_field_bytes(1, tensor);
    str_field_bytes(1, name) + len_field_bytes(2, ty)
}

pub open spec fn repeated_str_fields(field: u32, items: Seq<Seq<char>>) -> Seq<u8>
    decreases items.len(),
{
    if items.len() == 0 {
        Seq::<u8>::empty()
    } else {
        repeated_str_fields(field, items.drop_last()) + str_field_bytes(field, items.last())
    }
}

pub open spec fn node_bytes(
    name: Seq<char>,
    op_type: Seq<char>,
    inputs: Seq<Seq<char>>,
    outputs: Seq<Seq<char>>,
) -> Seq<u8> {
    repeated_str_fields(1, inputs) + repeated_str_fields(2, outputs) + str_field_bytes(3, name)
        + str_field_bytes(4, op_type)
}

/// The recorded-mean graph: zero weight `[obs_dim, 1]`, bias `[1]` = μ.
#[verifier::opaque]
pub open spec fn gemm_mu_model_bytes(obs_dim: u64, bias_bits: u32) -> Seq<u8> {
    let w = tensor_bytes("W"@, seq![obs_dim, 1u64], Seq::new((4 * obs_dim) as nat, |i: int| 0u8));
    let b = tensor_bytes("B"@, seq![1u64], le_bytes_u32(bias_bits));
    let input = value_info_bytes(GAUSSIAN_MU_ONNX_INPUT@, seq![1u64, obs_dim]);
    let output = value_info_bytes(GAUSSIAN_MU_ONNX_OUTPUT@, seq![1u64, 1u64]);
    let node = node_bytes(
        "gemm_mu"@,
        "Gemm"@,
        seq![GAUSSIAN_MU_ONNX_INPUT@, "W"@, "B"@],
        seq![GAUSSIAN_MU_ONNX_OUTPUT@],
    );
    let graph = len_field_bytes(1, node) + str_field_bytes(2, "gaussian_mu"@) + len_field_bytes(
        5,
        w,
    ) + len_field_bytes(5, b) + len_field_bytes(11, input) + len_field_bytes(12, output);
    let opset = str_field_bytes(1, ""@) + varint_field_bytes(2, ONNX_OPSET as nat);
    varint_field_bytes(1, ONNX_IR_VERSION as nat) + str_field_bytes(2, PRODUCER@) + len_field_bytes(
        7,
        graph,
    ) + len_field_bytes(8, opset)
}

fn encode_tensor(name: &str, dims: &[u64], raw: &[u8]) -> (r: Vec<u8>)
    ensures
        r@ == tensor_bytes(name@, dims@, raw@),
{
    let mut buf: Vec<u8> = Vec::new();
    for i in 0..dims.len()
        invariant
            buf@ == repeated_varint_fields(1, dims@.take(i as int)),
    {
        put_varint(&mut buf, 1, dims[i]);
        assert(dims@.take(i + 1).drop_last() =~= dims@.take(i as int));
    }
    assert(dims@.take(dims@.len() as int) =~= dims@);
    put_varint(&mut buf, 2, ONNX_FLOAT);
    put_string(&mut buf, 8, name);
    put_bytes(&mut buf, 9, raw);
    buf
}

fn encode_value_info(name: &str, dims: &[u64]) -> (r: Vec<u8>)
    ensures
        r@ == value_info_bytes(name@, dims@),
{
    let mut shape: Vec<u8> = Vec::new();
    for i in 0..dims.len()
        invariant
            shape@ == shape_bytes(dims@.take(i as int)),
    {
        let mut dimension: Vec<u8> = Vec::new();
        put_varint(&mut dimension, 1, dims[i]);
        put_len(&mut shape, 1, dimension.as_slice());
        assert(dims@.take(i + 1).drop_last() =~= dims@.take(i as int));
        assert(dimension@ =~= varint_field_bytes(1, dims@[i as int] as nat));
    }
    assert(dims@.take(dims@.len() as int) =~= dims@);
    let mut tensor: Vec<u8> = Vec::new();
    put_varint(&mut tensor, 1, ONNX_FLOAT);
    put_len(&mut tensor, 2, shape.as_slice());
    let mut ty: Vec<u8> = Vec::new();
    put_len(&mut ty, 1, tensor.as_slice());
    let mut info: Vec<u8> = Vec::new();
    put_string(&mut info, 1, name);
    put_len(&mut info, 2, ty.as_slice());
    proof {
        assert(tensor@ =~= varint_field_bytes(1, ONNX_FLOAT as nat) + len_field_bytes(
            2,
            shape_bytes(dims@),
        ));
    }
    info
}

fn put_strings(buf: &mut Vec<u8>, field: u32, items: &[&str])
    ensures
        final(buf)@ == old(buf)@ + repeated_str_fields(
            field,
            items@.map_values(|s: &str| s@),
        ),
{
    let ghost start = buf@;
    for i in 0..items.len()
        invariant
            buf@ == start + repeated_str_fields(
                field,
                items@.map_values(|s: &str| s@).take(i as int),
            ),
    {
        put_string(buf, field, items[i]);
        assert(items@.map_values(|s: &str| s@).take(i + 1).drop_last() =~= items@.map_values(
            |s: &str| s@,
        ).take(i as int));
    }
    assert(items@.map_values(|s: &str| s@).take(items@.len() as int) =~= items@.map_values(
        |s: &str| s@,
    ));
}

fn encode_node(name: &str, op_type: &str, inputs: &[&str], outputs: &[&str]) -> (r: Vec<u8>)
    ensures
        r@ == node_bytes(
            name@,
            op_type@,
            inputs@.map_values(|s: &str| s@),
            outputs@.map_values(|s: &str| s@),
        ),
{
    let mut buf: Vec<u8> = Vec::new();
    put_strings(&mut buf, 1, inputs);
    put_strings(&mut buf, 2, outputs);
    put_string(&mut buf, 3, name);
    put_string(&mut buf, 4, op_type);
    buf
}

fn le_bytes(w: u32) -> (r: Vec<u8>)
    ensures
        r@ == le_bytes_u32(w),
{
    let mut v: Vec<u8> = Vec::new();
    v.push((w % 0x100) as u8);
    v.push(((w / 0x100) % 0x100) as u8);
    v.push(((w / 0x1_0000) % 0x100) as u8);
    v.push(((w / 0x100_0000) % 0x100) as u8);
    assert(v@ =~= le_bytes_u32(w));
    v
}

/// Bytes of the recorded-mean Gemm graph.
pub fn encode_gemm_mu_onnx(obs_dim: u64, bias_bits: u32) -> (r: Vec<u8>)
    requires
        4 * (obs_dim as int) <= usize::MAX,
    ensures
        r@ == gemm_mu_model_bytes(obs_dim, bias_bits),
{
    let n: usize = (4 * obs_dim) as usize;
    let mut weights: Vec<u8> = Vec::new();
    for i in 0..n
        invariant
            weights@ == Seq::new(i as nat, |k: int| 0u8),
    {
        weights.push(0u8);
        assert(weights@ =~= Seq::new((i + 1) as nat, |k: int| 0u8));
    }
    let bias = le_bytes(bias_bits);
    let w_dims: [u64; 2] = [obs_dim, 1];
    let b_dims: [u64; 1] = [1];
    let in_dims: [u64; 2] = [1, obs_dim];
    let out_dims: [u64; 2] = [1, 1];
    assert(w_dims@ =~= seq![obs_dim, 1u64]);
    assert(b_dims@ =~= seq![1u64]);
    assert(in_dims@ =~= seq![1u64, obs_dim]);
    assert(out_dims@ =~= seq![1u64, 1u64]);
    let w = encode_tensor("W", w_dims.as_slice(), weights.as_slice());
    let b = encode_tensor("B", b_dims.as_slice(), bias.as_slice());
    let input = encode_value_info(GAUSSIAN_MU_ONNX_INPUT, in_dims.as_slice());
    let output = encode_value_info(GAUSSIAN_MU_ONNX_OUTPUT, out_dims.as_slice());
    let node_inputs: [&str; 3] = [GAUSSIAN_MU_ONNX_INPUT, "W", "B"];
    let node_outputs: [&str; 1] = [GAUSSIAN_MU_ONNX_OUTPUT];
    assert(node_inputs@.map_values(|s: &str| s@) =~= seq![GAUSSIAN_MU_ONNX_INPUT@, "W"@, "B"@]);
    assert(node_outputs@.map_values(|s: &str| s@) =~= seq![GAUSSIAN_MU_ONNX_OUTPUT@]);
    let node = encode_node("gemm_mu", "Gemm", node_inputs.as_slice(), node_outputs.as_slice());

    let mut graph: Vec<u8> = Vec::new();
    put_len(&mut graph, 1, node.as_slice());
    put_string(&mut graph, 2, "gaussian_mu");
    put_len(&mut graph, 5, w.as_slice());
    put_len(&mut graph, 5, b.as_slice());
    put_len(&mut graph, 11, input.as_slice());
    put_len(&mut graph, 12, output.as_slice());

    let mut opset: Vec<u8> = Vec::new();
    put_string(&mut opset, 1, "");
    put_varint(&mut opset, 2, ONNX_OPSET);

    let mut model: Vec<u8> = Vec::new();
    put_varint(&mut model, 1, ONNX_IR_VERSION);
    put_string(&mut model, 2, PRODUCER);
    put_len(&mut model, 7, graph.as_slice());
    put_len(&mut model, 8, opset.as_slice());
    proof {
        reveal(gemm_mu_model_bytes);
    }
    model
}

} // verus!

verus! {

// ---------------------------------------------------------------------------
// Errors, metadata, inspector
// ---------------------------------------------------------------------------

/// Errors from the offline Gaussian μ ONNX writer / inspector.
#[derive(Debug, Clone, PartialEq, Eq)]
pub enum OnnxExportError {
    InvalidObservationDim(i64),
    NonFiniteMean,
    RetiredUnitLot(String),
    Io(String),
    InvalidGraph(String),
}

/// Metadata recovered from a recorded-mean graph. `mean_bias_bits` is the
/// IEEE-754 bit pattern of the recorded μ.
#[derive(Debug, Clone, PartialEq, Eq)]
pub struct GaussianMuOnnxInfo {
    pub obs_dim: i64,
    pub mean_bias_bits: u32,
    pub input_name: String,
    pub output_name: String,
    pub op_type: String,
    pub producer: String,
}

/// What the inspector reports: the six metadata fields, or the text of an
/// `InvalidGraph` error.
pub struct MuInfoView {
    pub obs_dim: i64,
    pub mean_bias_bits: u32,
    pub input_name: Seq<char>,
    pub output_name: Seq<char>,
    pub op_type: Seq<char>,
    pub producer: Seq<char>,
}

impl GaussianMuOnnxInfo {
    pub open spec fn view(&self) -> MuInfoView {
        MuInfoView {
            obs_dim: self.obs_dim,
            mean_bias_bits: self.mean_bias_bits,
            input_name: self.input_name@,
            output_name: self.output_name@,
            op_type: self.op_type@,
            producer: self.producer@,
        }
    }
}

pub open spec fn opt_text(o: Option<Seq<char>>) -> Seq<char> {
    match o {
        Some(s) => s,
        None => Seq::<char>::empty(),
    }
}

/// Last dimension of `value_info.type.tensor_type.shape`.
pub open spec fn spec_tensor_last_dim(value_info: Seq<FieldView>) -> Option<i64> {
    match spec_message_field(value_info, 2) {
        None => None,
        Some(ty) => match spec_message_field(ty, 1) {
            None => None,
            Some(tensor) => match spec_message_field(tensor, 2) {
                None => None,
                Some(shape) => {
                    let dims = spec_repeated_messages(shape, 1);
                    if dims.len() == 0 {
                        None
                    } else {
                        match spec_varint_field(dims.last(), 1) {
                            Some(v) => Some(v as i64),
                            None => None,
                        }
                    }
                },
            },
        },
    }
}

/// Input scan: the name of the graph input called `observation`, else of
/// the first named input, and the last dimension of the last input whose
/// name was taken.
pub open spec fn scan_inputs(inputs: Seq<Seq<FieldView>>) -> (Seq<char>, i64)
    decreases inputs.len(),
{
    if inputs.len() == 0 {
        (Seq::<char>::empty(), 0i64)
    } else {
        let (name, dim) = scan_inputs(inputs.drop_last());
        let input = inputs.last();
        match spec_string_field(input, 1) {
            Some(n) => if n == GAUSSIAN_MU_ONNX_INPUT@ || name.len() == 0 {
                (
                    n,
                    match spec_tensor_last_dim(input) {
                        Some(d) => d,
                        None => dim,
                    },
                )
            } else {
                (name, dim)
            },
            None => (name, dim),
        }
    }
}

/// `float_data` raw bytes of an initializer, read as one `f32` bit pattern.
pub open spec fn spec_initializer_bits(tensor: Seq<FieldView>) -> Option<u32> {
    match spec_bytes_field(tensor, 9) {
        Some(raw) => if raw.len() >= 4 {
            Some(u32_from_le(raw))
        } else {
            None
        },
        None => None,
    }
}

/// Bias scan: the value of the last initializer named `B`; `None` when such
/// an initializer carries no four-byte payload.
pub open spec fn scan_bias(inits: Seq<Seq<FieldView>>) -> Option<u32>
    decreases inits.len(),
{
    if inits.len() == 0 {
        Some(F32_NAN_BITS)
    } else {
        match scan_bias(inits.drop_last()) {
            None => None,
            Some(bits) => if spec_string_field(inits.last(), 8) == Some("B"@) {
                spec_initializer_bits(inits.last())
            } else {
                Some(bits)
            },
        }
    }
}

pub open spec fn first_text_field(msgs: Seq<Seq<FieldView>>, field: u32) -> Seq<char> {
    if msgs.len() == 0 {
        Seq::<char>::empty()
    } else {
        opt_text(spec_string_field(msgs[0], field))
    }
}

/// What `inspect_gaussian_mu_onnx` reports for `bytes`: the metadata, or the
/// text of the `InvalidGraph` error.
#[verifier::opaque]
pub open spec fn spec_inspect(bytes: Seq<u8>) -> Result<MuInfoView, Seq<char>> {
    match parse_fields(bytes) {
        Err(e) => Err(proto_error_text(e)),
        Ok(model) => {
            let producer = opt_text(spec_string_field(model, 2));
            match spec_message_field(model, 7) {
                None => Err("missing graph"@),
                Some(graph) => {
                    let (input_name, obs_dim) = scan_inputs(spec_repeated_messages(graph, 11));
                    let output_name = first_text_field(spec_repeated_messages(graph, 12), 1);
                    let op_type = first_text_field(spec_repeated_messages(graph, 1), 4);
                    match scan_bias(spec_repeated_messages(graph, 5)) {
                        None => Err("bias initializer is not a single f32"@),
                        Some(bits) => if input_name.len() == 0 || output_name.len() == 0
                            || op_type.len() == 0 || !f32_bits_finite(bits) {
                            Err("graph is missing observation/mean/Gemm/B"@)
                        } else {
                            Ok(
                                MuInfoView {
                                    obs_dim,
                                    mean_bias_bits: bits,
                                    input_name,
                                    output_name,
                                    op_type,
                                    producer,
                                },
                            )
                        },
                    }
                },
            }
        },
    }
}

fn tensor_last_dim(value_info: &ProtoMap) -> (r: Option<i64>)
    ensures
        r == spec_tensor_last_dim(value_info@),
{
    let ty = match value_info.message_field(2) {
        Some(t) => t,
        None => {
            return None;
        },
    };
    let tensor = match ty.message_field(1) {
        Some(t) => t,
        None => {
            return None;
        },
    };
    let shape = match tensor.message_field(2) {
        Some(t) => t,
        None => {
            return None;
        },
    };
    let dims = shape.repeated_messages(1);
    if dims.len() == 0 {
        return None;
    }
    let last = &dims[dims.len() - 1];
    match last.varint_field(1) {
        Some(v) => Some(v as i64),
        None => None,
    }
}

fn initializer_bits(tensor: &ProtoMap) -> (r: Option<u32>)
    ensures
        r == spec_initializer_bits(tensor@),
{
    match tensor.bytes_field(9) {
        Some(raw) => {
            if raw.len() >= 4 {
                let w: u32 = (raw[0] as u32) + (raw[1] as u32) * 0x100 + (raw[2] as u32) * 0x1_0000
                    + (raw[3] as u32) * 0x100_0000;
                Some(w)
            } else {
                None
            }
        },
        None => None,
    }
}

fn first_text(msgs: &Vec<ProtoMap>, field: u32, ghost_msgs: Ghost<Seq<Seq<FieldView>>>) -> (r: String)
    requires
        msgs@.len() == ghost_msgs@.len(),
        forall|k: int| 0 <= k < msgs@.len() ==> #[trigger] msgs@[k]@ == ghost_msgs@[k],
    ensures
        r@ == first_text_field(ghost_msgs@, field),
{
    if msgs.len() == 0 {
        return String::new();
    }
    match msgs[0].string_field(field) {
        Some(s) => s,
        None => String::new(),
    }
}

fn is_finite_bits(bits: u32) -> (r: bool)
    ensures
        r == f32_bits_finite(bits),
{
    (bits / 0x80_0000) % 0x100 != 0xff
}

/// Parses a graph written by the recorded-mean writer (or a matching
/// stand-in) and reports its metadata.
#[verifier::loop_isolation(false)]
pub fn inspect_gaussian_mu_onnx(bytes: &[u8]) -> (r: Result<GaussianMuOnnxInfo, OnnxExportError>)
    ensures
        match spec_inspect(bytes@) {
            Ok(info) => r matches Ok(x) && x@ == info,
            Err(msg) => r matches Err(OnnxExportError::InvalidGraph(m)) && m@ == msg,
        },
{
    proof {
        reveal(spec_inspect);
    }
    let model = match ProtoMap::parse(bytes) {
        Ok(m) => m,
        Err(e) => {
            return Err(OnnxExportError::InvalidGraph(e));
        },
    };
    let producer = match model.string_field(2) {
        Some(s) => s,
        None => String::new(),
    };
    let graph = match model.message_field(7) {
        Some(g) => g,
        None => {
            return Err(OnnxExportError::InvalidGraph(str_to_string("missing graph")));
        },
    };

    let inputs = graph.repeated_messages(11);
    let ghost ins = spec_repeated_messages(graph@, 11);
    let mut input_name = String::new();
    let mut obs_dim: i64 = 0;
    for i in 0..inputs.len()
        invariant
            inputs@.len() == ins.len(),
            forall|k: int| 0 <= k < inputs@.len() ==> #[trigger] inputs@[k]@ == ins[k],
            (input_name@, obs_dim) == scan_inputs(ins.take(i as int)),
    {
        let input = &inputs[i];
        assert(ins.take(i + 1).drop_last() =~= ins.take(i as int));
        assert(ins.take(i + 1).last() == input@);
        match input.string_field(1) {
            Some(name) => {
                let is_obs = eq_lit(chars_of(name.as_str()).as_slice(), GAUSSIAN_MU_ONNX_INPUT);
                if is_obs || input_name.as_str().is_empty() {
                    match tensor_last_dim(input) {
                        Some(d) => {
                            obs_dim = d;
                        },
                        None => {},
                    }
                    input_name = name;
                }
            },
            None => {},
        }
    }
    assert(ins.take(inputs@.len() as int) =~= ins);

    let outputs = graph.repeated_messages(12);
    let output_name = first_text(&outputs, 1, Ghost(spec_repeated_messages(graph@, 12)));
    let nodes = graph.repeated_messages(1);
    let op_type = first_text(&nodes, 4, Ghost(spec_repeated_messages(graph@, 1)));

    let inits = graph.repeated_messages(5);
    let ghost its = spec_repeated_messages(graph@, 5);
    let mut bits: u32 = F32_NAN_BITS;
    for i in 0..inits.len()
        invariant
            inits@.len() == its.len(),
            forall|k: int| 0 <= k < inits@.len() ==> #[trigger] inits@[k]@ == its[k],
            scan_bias(its.take(i as int)) == Some(bits),
    {
        let init = &inits[i];
        assert(its.take(i + 1).drop_last() =~= its.take(i as int));
        assert(its.take(i + 1).last() == init@);
        let named_b = match init.string_field(8) {
            Some(name) => eq_lit(chars_of(name.as_str()).as_slice(), "B"),
            None => false,
        };
        assert(named_b == (spec_string_field(init@, 8) == Some("B"@)));
        if named_b {
            match initializer_bits(init) {
                Some(b) => {
                    bits = b;
                },
                None => {
                    proof {
                        assert(scan_bias(its.take(i + 1)) is None);
                        lemma_scan_bias_none_sticks(its, (i + 1) as nat);
                    }
                    return Err(
                        OnnxExportError::InvalidGraph(
                            str_to_string("bias initializer is not a single f32"),
                        ),
                    );
                },
            }
        }
    }
    assert(its.take(inits@.len() as int) =~= its);

    if input_name.as_str().is_empty() || output_name.as_str().is_empty()
        || op_type.as_str().is_empty() || !is_finite_bits(bits) {
        return Err(
            OnnxExportError::InvalidGraph(
                str_to_string("graph is missing observation/mean/Gemm/B"),
            ),
        );
    }
    Ok(GaussianMuOnnxInfo {
        obs_dim,
        mean_bias_bits: bits,
        input_name,
        output_name,
        op_type,
        producer,
    })
}

proof fn lemma_scan_bias_none_sticks(its: Seq<Seq<FieldView>>, i: nat)
    requires
        i <= its.len(),
        scan_bias(its.take(i as int)) is None,
    ensures
        scan_bias(its) is None,
    decreases its.len() - i,
{
    if i < its.len() {
        assert(its.take(i + 1 as int).drop_last() =~= its.take(i as int));
        lemma_scan_bias_none_sticks(its, i + 1);
    } else {
        assert(its.take(i as int) =~= its);
    }
}

} // verus!

verus! {

/// A path names the retired unit-lot tree when one of its `/`-separated
/// components equals that directory name, ASCII case ignored.
pub open spec fn names_retired_unit_lot(path: Seq<char>) -> bool {
    exists|i: int|
        0 <= i < split_on(path, '/').len() && eq_ignore_case(
            #[trigger] split_on(path, '/')[i],
            RETIRED_UNIT_LOT_MICROSTRUCTURE@,
        )
}

/// `true` when `path` sits under the retired 3-logit unit-lot fossil tree.
pub fn path_is_retired_unit_lot(path: &str) -> (r: bool)
    ensures
        r == names_retired_unit_lot(path@),
{
    let cs = chars_of(path);
    let parts = split_chars(cs.as_slice(), '/');
    let name = chars_of(RETIRED_UNIT_LOT_MICROSTRUCTURE);
    for i in 0..parts.len()
        invariant
            cs@ == path@,
            name@ == RETIRED_UNIT_LOT_MICROSTRUCTURE@,
            parts@.len() == split_on(path@, '/').len(),
            forall|k: int| 0 <= k < parts@.len() ==> #[trigger] parts@[k]@ == split_on(path@, '/')[k],
            forall|k: int|
                0 <= k < i ==> !eq_ignore_case(
                    #[trigger] split_on(path@, '/')[k],
                    RETIRED_UNIT_LOT_MICROSTRUCTURE@,
                ),
    {
        assert(parts@[i as int]@ == split_on(path@, '/')[i as int]);
        if eq_ignore_ascii_case(parts[i].as_slice(), name.as_slice()) {
            return true;
        }
    }
    false
}

/// Inputs for which the recorded-mean writer gets as far as allocating the
/// weight tensor: those it does not refuse.
pub open spec fn export_accepted(path: Seq<char>, obs_dim: i64, mean_bits: u32) -> bool {
    !names_retired_unit_lot(path) && 0 < obs_dim && obs_dim as int <= usize::MAX
        && f32_bits_finite(mean_bits)
}

/// Checks the inputs of the recorded-mean writer and encodes its graph:
/// `[1, obs_dim] → [1,1]` Gemm with a zero weight and bias μ.
pub fn encode_recorded_mean_mu_onnx(path: &str, obs_dim: i64, mean_bits: u32) -> (r: Result<
    Vec<u8>,
    OnnxExportError,
>)
    requires
        export_accepted(path@, obs_dim, mean_bits) ==> 4 * (obs_dim as int) <= usize::MAX,
    ensures
        names_retired_unit_lot(path@) ==> (r matches Err(OnnxExportError::RetiredUnitLot(p)) && p@
            == path@),
        !names_retired_unit_lot(path@) && !(0 < obs_dim && obs_dim as int <= usize::MAX) ==> r
            == Err::<Vec<u8>, OnnxExportError>(OnnxExportError::InvalidObservationDim(obs_dim)),
        !names_retired_unit_lot(path@) && 0 < obs_dim && obs_dim as int <= usize::MAX
            && !f32_bits_finite(mean_bits) ==> r == Err::<Vec<u8>, OnnxExportError>(
            OnnxExportError::NonFiniteMean,
        ),
        export_accepted(path@, obs_dim, mean_bits) ==> (r matches Ok(b) && b@
            == gemm_mu_model_bytes(obs_dim as u64, mean_bits)),
{
    if path_is_retired_unit_lot(path) {
        return Err(OnnxExportError::RetiredUnitLot(str_to_string(path)));
    }
    if obs_dim <= 0 || obs_dim as u64 > usize::MAX as u64 {
        return Err(OnnxExportError::InvalidObservationDim(obs_dim));
    }
    if !is_finite_bits(mean_bits) {
        return Err(OnnxExportError::NonFiniteMean);
    }
    Ok(encode_gemm_mu_onnx(obs_dim as u64, mean_bits))
}

/// What the inspector reports for the recorded-mean graph of `obs_dim` and
/// `mean_bits`.
pub open spec fn recorded_mean_info(obs_dim: i64, mean_bits: u32) -> MuInfoView {
    MuInfoView {
        obs_dim,
        mean_bias_bits: mean_bits,
        input_name: GAUSSIAN_MU_ONNX_INPUT@,
        output_name: GAUSSIAN_MU_ONNX_OUTPUT@,
        op_type: "Gemm"@,
        producer: PRODUCER@,
    }
}

/// The recorded-mean writer without the file: checks its inputs, encodes the
/// graph and reads it back, giving the bytes to write and the metadata the
/// writer reports.
pub fn recorded_mean_mu_graph(path: &str, obs_dim: i64, mean_bits: u32) -> (r: Result<
    (Vec<u8>, GaussianMuOnnxInfo),
    OnnxExportError,
>)
    requires
        export_accepted(path@, obs_dim, mean_bits) ==> 4 * (obs_dim as int) <= usize::MAX,
    ensures
        names_retired_unit_lot(path@) ==> (r matches Err(OnnxExportError::RetiredUnitLot(p)) && p@
            == path@),
        !names_retired_unit_lot(path@) && !(0 < obs_dim && obs_dim as int <= usize::MAX) ==> (r
            matches Err(OnnxExportError::InvalidObservationDim(d)) && d == obs_dim),
        !names_retired_unit_lot(path@) && 0 < obs_dim && obs_dim as int <= usize::MAX
            && !f32_bits_finite(mean_bits) ==> (r matches Err(OnnxExportError::NonFiniteMean)),
        export_accepted(path@, obs_dim, mean_bits) ==> (r matches Ok((b, info)) && b@
            == gemm_mu_model_bytes(obs_dim as u64, mean_bits) && info@ == recorded_mean_info(
            obs_dim,
            mean_bits,
        )),
{
    let bytes = match encode_recorded_mean_mu_onnx(path, obs_dim, mean_bits) {
        Ok(b) => b,
        Err(e) => {
            return Err(e);
        },
    };
    proof {
        if export_accepted(path@, obs_dim, mean_bits) {
            assert(bytes@.len() == bytes.len());
            crate::wire::lemma_inspect_written_graph(obs_dim as u64, mean_bits);
        }
    }
    match inspect_gaussian_mu_onnx(bytes.as_slice()) {
        Ok(info) => Ok((bytes, info)),
        Err(e) => Err(e),
    }
}

/// Errors returned by the ONNX Runtime-backed policies.
#[derive(Debug, Clone)]
pub enum OnnxPolicyError {
    InvalidObservationDim(i64),
    MissingModel(String),
    Load { path: String, source: String },
    Inference(String),
    EmptyOutput,
    ShortOutput { len: usize },
    UnexpectedMeanOutput { len: usize },
    NonFiniteMean,
    SessionPoisoned,
}

/// Phrases of the error texts that ONNX Runtime gives when its native
/// library cannot be loaded.
pub open spec fn names_missing_runtime(source: Seq<char>) -> bool {
    let lower = ascii_lower(source);
    contains(lower, "shared library"@) || contains(lower, "dynamic library"@) || contains(
        lower,
        "onnx runtime"@,
    ) || contains(lower, "onnxruntime"@) || contains(lower, "ort dylib"@)
}

impl OnnxPolicyError {
    pub open spec fn runtime_unavailable(&self) -> bool {
        match self {
            OnnxPolicyError::Load { source, .. } => names_missing_runtime(source@),
            OnnxPolicyError::Inference(source) => names_missing_runtime(source@),
            _ => false,
        }
    }

    /// Best-effort classifier for environments where the native ORT runtime
    /// is unavailable.
    pub fn is_runtime_unavailable(&self) -> (r: bool)
        ensures
            r == self.runtime_unavailable(),
    {
        let source = match self {
            OnnxPolicyError::Load { source, .. } => source,
            OnnxPolicyError::Inference(source) => source,
            _ => {
                return false;
            },
        };
        let lower = to_lower(chars_of(source.as_str()).as_slice());
        let l = lower.as_slice();
        contains_chars(l, chars_of("shared library").as_slice()) || contains_chars(
            l,
            chars_of("dynamic library").as_slice(),
        ) || contains_chars(l, chars_of("onnx runtime").as_slice()) || contains_chars(
            l,
            chars_of("onnxruntime").as_slice(),
        ) || contains_chars(l, chars_of("ort dylib").as_slice())
    }
}

/// The checks before a model session is opened: a positive observation
/// width, then a model file that exists. Gives the width to feed.
pub fn check_model_request(path: &str, obs_dim: i64, model_exists: bool) -> (r: Result<
    usize,
    OnnxPolicyError,
>)
    ensures
        !(0 < obs_dim && obs_dim as int <= usize::MAX) ==> (r matches Err(
            OnnxPolicyError::InvalidObservationDim(d),
        ) && d == obs_dim),
        0 < obs_dim && obs_dim as int <= usize::MAX && !model_exists ==> (r matches Err(
            OnnxPolicyError::MissingModel(p),
        ) && p@ == path@),
        0 < obs_dim && obs_dim as int <= usize::MAX && model_exists ==> r == Ok::<
            usize,
            OnnxPolicyError,
        >(obs_dim as usize),
{
    if obs_dim <= 0 || obs_dim as u64 > usize::MAX as u64 {
        return Err(OnnxPolicyError::InvalidObservationDim(obs_dim));
    }
    if !model_exists {
        return Err(OnnxPolicyError::MissingModel(str_to_string(path)));
    }
    Ok(obs_dim as usize)
}

/// The observation fed to a model of width `obs_dim`: `obs` cut to that
/// width, or padded with `zero`.
pub fn prepare_observation<T: Copy>(obs: &[T], obs_dim: usize, zero: T) -> (r: Vec<T>)
    ensures
        r@.len() == obs_dim,
        forall|i: int| 0 <= i < obs_dim ==> #[trigger] r@[i] == if i < obs@.len() {
            obs@[i]
        } else {
            zero
        },
{
    let mut padded: Vec<T> = Vec::new();
    for i in 0..obs_dim
        invariant
            padded@.len() == i,
            forall|k: int| 0 <= k < i ==> #[trigger] padded@[k] == if k < obs@.len() {
                obs@[k]
            } else {
                zero
            },
    {
        if i < obs.len() {
            padded.push(obs[i]);
        } else {
            padded.push(zero);
        }
    }
    padded
}

/// Decimal text of a signed integer.
pub open spec fn signed_decimal(i: int) -> Seq<char> {
    if i < 0 {
        seq!['-'] + decimal((-i) as nat)
    } else {
        decimal(i as nat)
    }
}

fn signed_decimal_string(i: i64) -> (r: String)
    ensures
        r@ == signed_decimal(i as int),
{
    if i < 0 {
        let magnitude: u64 = ((-(i + 1)) as u64) + 1;
        let mut s = str_to_string("-");
        let d = decimal_string(magnitude);
        push_str(&mut s, d.as_str());
        proof {
            reveal_strlit("-");
        }
        s
    } else {
        decimal_string(i as u64)
    }
}

pub open spec fn export_error_text(e: OnnxExportError) -> Seq<char> {
    match e {
        OnnxExportError::InvalidObservationDim(dim) => "invalid ONNX observation dimension "@
            + signed_decimal(dim as int),
        OnnxExportError::NonFiniteMean => "recorded Gaussian μ is not finite"@,
        OnnxExportError::RetiredUnitLot(path) => "refusing retired unit-lot checkpoint "@ + path@,
        OnnxExportError::Io(source) => "write ONNX Gaussian μ graph: "@ + source@,
        OnnxExportError::InvalidGraph(source) => "inspect ONNX Gaussian μ graph: "@ + source@,
    }
}

impl OnnxExportError {
    /// The error's message.
    pub fn to_string(&self) -> (r: String)
        ensures
            r@ == export_error_text(*self),
    {
        match self {
            OnnxExportError::InvalidObservationDim(dim) => {
                let mut s = str_to_string("invalid ONNX observation dimension ");
                let d = signed_decimal_string(*dim);
                push_str(&mut s, d.as_str());
                s
            },
            OnnxExportError::NonFiniteMean => str_to_string("recorded Gaussian μ is not finite"),
            OnnxExportError::RetiredUnitLot(path) => {
                let mut s = str_to_string("refusing retired unit-lot checkpoint ");
                push_str(&mut s, path.as_str());
                s
            },
            OnnxExportError::Io(source) => {
                let mut s = str_to_string("write ONNX Gaussian μ graph: ");
                push_str(&mut s, source.as_str());
                s
            },
            OnnxExportError::InvalidGraph(source) => {
                let mut s = str_to_string("inspect ONNX Gaussian μ graph: ");
                push_str(&mut s, source.as_str());
                s
            },
        }
    }
}

pub open spec fn policy_error_text(e: OnnxPolicyError) -> Seq<char> {
    match e {
        OnnxPolicyError::InvalidObservationDim(dim) => "invalid ONNX observation dimension "@
            + signed_decimal(dim as int),
        OnnxPolicyError::MissingModel(path) => "ONNX model "@ + path@ + " does not exist"@,
        OnnxPolicyError::Load { path, source } => "load ONNX model "@ + path@ + ": "@ + source@,
        OnnxPolicyError::Inference(source) => "ONNX inference failed: "@ + source@,
        OnnxPolicyError::EmptyOutput => "ONNX model returned no outputs"@,
        OnnxPolicyError::ShortOutput { len } => "ONNX model returned "@ + decimal(len as nat)
            + " logits; expected at least 3"@,
        OnnxPolicyError::UnexpectedMeanOutput { len } => "ONNX Gaussian μ head returned "@
            + decimal(len as nat) + " values; expected [1] or [1,1]"@,
        OnnxPolicyError::NonFiniteMean => "ONNX Gaussian μ is not finite"@,
        OnnxPolicyError::SessionPoisoned => "ONNX session lock was poisoned"@,
    }
}

impl OnnxPolicyError {
    /// The error's message.
    pub fn to_string(&self) -> (r: String)
        ensures
            r@ == policy_error_text(*self),
    {
        match self {
            OnnxPolicyError::InvalidObservationDim(dim) => {
                let mut s = str_to_string("invalid ONNX observation dimension ");
                let d = signed_decimal_string(*dim);
                push_str(&mut s, d.as_str());
                s
            },
            OnnxPolicyError::MissingModel(path) => {
                let mut s = str_to_string("ONNX model ");
                push_str(&mut s, path.as_str());
                push_str(&mut s, " does not exist");
                s
            },
            OnnxPolicyError::Load { path, source } => {
                let mut s = str_to_string("load ONNX model ");
                push_str(&mut s, path.as_str());
                push_str(&mut s, ": ");
                push_str(&mut s, source.as_str());
                s
            },
            OnnxPolicyError::Inference(source) => {
                let mut s = str_to_string("ONNX inference failed: ");
                push_str(&mut s, source.as_str());
                s
            },
            OnnxPolicyError::EmptyOutput => str_to_string("ONNX model returned no outputs"),
            OnnxPolicyError::ShortOutput { len } => {
                let mut s = str_to_string("ONNX model returned ");
                let d = decimal_string(*len as u64);
                push_str(&mut s, d.as_str());
                push_str(&mut s, " logits; expected at least 3");
                s
            },
            OnnxPolicyError::UnexpectedMeanOutput { len } => {
                let mut s = str_to_string("ONNX Gaussian μ head returned ");
                let d = decimal_string(*len as u64);
                push_str(&mut s, d.as_str());
                push_str(&mut s, " values; expected [1] or [1,1]");
                s
            },
            OnnxPolicyError::NonFiniteMean => str_to_string("ONNX Gaussian μ is not finite"),
            OnnxPolicyError::SessionPoisoned => str_to_string("ONNX session lock was poisoned"),
        }
    }
}

} // verus!
