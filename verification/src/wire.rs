//! Laws of the protobuf wire codec behind the ONNX graph writer and
//! inspector: what the writer encodes, the reader decodes.
use vstd::prelude::*;
use crate::onnx::{
    FieldView, ProtoError, VarintScan, len_field_bytes, parse_fields, parse_fields_from, pow128,
    prepend_field, read_varint_at, tag_key, varint_encoding, varint_field_bytes, varint_scan,
    gemm_mu_model_bytes, tensor_bytes, value_info_bytes, node_bytes, shape_bytes,
    repeated_varint_fields, repeated_str_fields, le_bytes_u32,
    GAUSSIAN_MU_ONNX_INPUT, GAUSSIAN_MU_ONNX_OUTPUT, PRODUCER, ONNX_OPSET, ONNX_IR_VERSION,
    ONNX_FLOAT,
};
use vstd::utf8::{encode_utf8, encode_utf8_valid_utf8, encode_utf8_decode_utf8};
use crate::onnx::{
    FieldKind, field_matches, first_field, spec_string_field, spec_varint_field,
    spec_message_field, spec_repeated_messages, spec_tensor_last_dim, scan_inputs, scan_bias,
    first_text_field, spec_inspect, MuInfoView, u32_from_le,
    f32_bits_finite,
};

verus! {

/// A field as the writer emits it: a varint or a length-delimited payload.
pub enum WireField {
    Varint(u32, u64),
    Len(u32, Seq<u8>),
}

/// The bytes the writer emits for a field.
pub open spec fn wire_bytes(f: WireField) -> Seq<u8> {
    match f {
        WireField::Varint(n, v) => varint_field_bytes(n, v as nat),
        WireField::Len(n, p) => len_field_bytes(n, p),
    }
}

/// The decoded view the reader yields for a field.
pub open spec fn wire_view(f: WireField) -> FieldView {
    match f {
        WireField::Varint(n, v) => (n, Seq::<u8>::empty(), v),
        WireField::Len(n, p) => (n, p, 0u64),
    }
}

/// Field numbers fit the 29 bits of a key and payloads fit in memory.
pub open spec fn wire_ok(f: WireField) -> bool {
    match f {
        WireField::Varint(n, _) => n < 0x2000_0000,
        WireField::Len(n, p) => n < 0x2000_0000 && p.len() <= usize::MAX,
    }
}

/// A message: its fields' bytes one after another.
pub open spec fn wire_all(fs: Seq<WireField>) -> Seq<u8>
    decreases fs.len(),
{
    if fs.len() == 0 {
        Seq::<u8>::empty()
    } else {
        wire_bytes(fs[0]) + wire_all(fs.drop_first())
    }
}

pub open spec fn wire_views(fs: Seq<WireField>) -> Seq<FieldView> {
    fs.map_values(|f: WireField| wire_view(f))
}

/// A varint takes one byte per started group of seven bits.
pub proof fn lemma_varint_len(v: nat, n: nat)
    requires
        n >= 1,
        v < pow128(n),
    ensures
        1 <= varint_encoding(v).len() <= n,
    decreases v,
{
    if v >= 128 {
        assert(n >= 2) by {
            if n == 1 {
                reveal_with_fuel(pow128, 2);
            }
        }
        let m = (n - 1) as nat;
        assert(pow128(n) == 128 * pow128(m));
        assert(v / 128 < pow128(m)) by (nonlinear_arith)
            requires
                v < 128 * pow128(m),
        ;
        lemma_varint_len(v / 128, m);
    }
}

/// Every 64-bit value fits the reader's ten-byte budget.
pub proof fn lemma_varint_len_u64(v: nat)
    requires
        v < 0x1_0000_0000_0000_0000,
    ensures
        1 <= varint_encoding(v).len() <= 10,
{
    reveal_with_fuel(pow128, 11);
    lemma_varint_len(v, 10);
}

/// Scanning an encoded varint, whatever follows it, reads back its value and
/// length.
pub proof fn lemma_varint_scan_encoding(v: nat, rest: Seq<u8>, budget: nat)
    requires
        varint_encoding(v).len() <= budget,
    ensures
        varint_scan(varint_encoding(v) + rest, budget) == (VarintScan::Done {
            len: varint_encoding(v).len(),
            value: v,
        }),
    decreases v,
{
    let s = varint_encoding(v) + rest;
    if v < 128 {
        assert(s[0] == v as u8);
    } else {
        let head = (v % 128 + 128) as u8;
        assert(s[0] == head);
        assert(s.drop_first() =~= varint_encoding(v / 128) + rest);
        lemma_varint_scan_encoding(v / 128, rest, (budget - 1) as nat);
        assert(head % 128 == v % 128);
        assert(v == v % 128 + 128 * (v / 128));
    }
}

/// The reader decodes a 64-bit varint written at `pos`.
pub proof fn lemma_read_varint_encoding(bytes: Seq<u8>, pos: nat, v: nat, rest: Seq<u8>)
    requires
        v < 0x1_0000_0000_0000_0000,
        pos <= bytes.len(),
        bytes.skip(pos as int) == varint_encoding(v) + rest,
    ensures
        read_varint_at(bytes, pos as int) == (VarintScan::Done {
            len: varint_encoding(v).len(),
            value: v,
        }),
{
    lemma_varint_len_u64(v);
    lemma_varint_scan_encoding(v, rest, 10);
}

/// A 64-bit value written as a varint after any prefix reads back from the
/// prefix's end with its value and a length of one to ten bytes; a lone
/// continuation byte is a truncated varint.
pub proof fn lemma_varint_reads_back(prefix: Seq<u8>, v: nat)
    requires
        v < 0x1_0000_0000_0000_0000,
    ensures
        read_varint_at(prefix + varint_encoding(v), prefix.len() as int) == (VarintScan::Done {
            len: varint_encoding(v).len(),
            value: v,
        }),
        1 <= varint_encoding(v).len() <= 10,
        read_varint_at(seq![0x80u8], 0) == VarintScan::Truncated,
{
    let bytes = prefix + varint_encoding(v);
    assert(bytes.skip(prefix.len() as int) =~= varint_encoding(v) + Seq::<u8>::empty());
    lemma_read_varint_encoding(bytes, prefix.len(), v, Seq::<u8>::empty());
    lemma_varint_len_u64(v);
    let t = seq![0x80u8];
    assert(t.skip(0) =~= t);
    assert(t.drop_first() =~= Seq::<u8>::empty());
    assert(t[0] == 0x80u8);
    assert(varint_scan(t.drop_first(), 9) == VarintScan::Truncated);
    assert(varint_scan(t, 10) == VarintScan::Truncated);
}

/// A field key decodes to its field number and wire type.
proof fn lemma_key_decodes(n: u32, w: nat)
    requires
        n < 0x2000_0000,
        w < 8,
    ensures
        tag_key(n, w) < 0x1_0000_0000,
        tag_key(n, w) / 8 == n,
        tag_key(n, w) % 8 == w,
        ((tag_key(n, w) / 8) % 0x1_0000_0000) as u32 == n,
{
    assert(n as nat % 0x2000_0000 == n);
    vstd::arithmetic::div_mod::lemma_fundamental_div_mod_converse(tag_key(n, w) as int, 8, n as int, w as int);
}

/// What follows a known prefix at `pos` starts right after it.
proof fn lemma_skip_past(bytes: Seq<u8>, pos: nat, a: Seq<u8>, b: Seq<u8>)
    requires
        pos <= bytes.len(),
        bytes.skip(pos as int) == a + b,
    ensures
        pos + a.len() <= bytes.len(),
        bytes.skip((pos + a.len()) as int) == b,
{
    let whole = bytes.skip(pos as int);
    assert(whole.len() == a.len() + b.len());
    assert forall|i: int| 0 <= i < b.len() implies #[trigger] bytes.skip((pos + a.len()) as int)[i] == b[i] by {
        assert(whole[a.len() + i] == (a + b)[a.len() + i]);
    }
    assert(bytes.skip((pos + a.len()) as int) =~= b);
}

proof fn lemma_parse_varint_field(bytes: Seq<u8>, pos: nat, n: u32, v: u64, rest: Seq<u8>)
    requires
        n < 0x2000_0000,
        pos <= bytes.len(),
        bytes.skip(pos as int) == varint_field_bytes(n, v as nat) + rest,
    ensures
        pos + varint_field_bytes(n, v as nat).len() <= bytes.len(),
        parse_fields_from(bytes, pos) == prepend_field(
            (n, Seq::<u8>::empty(), v),
            parse_fields_from(bytes, pos + varint_field_bytes(n, v as nat).len()),
        ),
{
    let key = tag_key(n, 0);
    lemma_key_decodes(n, 0);
    let kb = varint_encoding(key);
    let vb = varint_encoding(v as nat);
    assert(varint_field_bytes(n, v as nat) + rest =~= kb + (vb + rest));
    lemma_read_varint_encoding(bytes, pos, key, vb + rest);
    lemma_skip_past(bytes, pos, kb, vb + rest);
    let next = pos + kb.len();
    lemma_read_varint_encoding(bytes, next, v as nat, rest);
    lemma_skip_past(bytes, next, vb, rest);
}

proof fn lemma_parse_len_field(bytes: Seq<u8>, pos: nat, n: u32, p: Seq<u8>, rest: Seq<u8>)
    requires
        n < 0x2000_0000,
        p.len() <= usize::MAX,
        pos <= bytes.len(),
        bytes.skip(pos as int) == len_field_bytes(n, p) + rest,
    ensures
        pos + len_field_bytes(n, p).len() <= bytes.len(),
        parse_fields_from(bytes, pos) == prepend_field(
            (n, p, 0u64),
            parse_fields_from(bytes, pos + len_field_bytes(n, p).len()),
        ),
{
    let key = tag_key(n, 2);
    lemma_key_decodes(n, 2);
    let kb = varint_encoding(key);
    let lb = varint_encoding(p.len());
    assert(len_field_bytes(n, p) + rest =~= kb + (lb + (p + rest)));
    lemma_read_varint_encoding(bytes, pos, key, lb + (p + rest));
    lemma_skip_past(bytes, pos, kb, lb + (p + rest));
    let next = pos + kb.len();
    lemma_read_varint_encoding(bytes, next, p.len(), p + rest);
    lemma_skip_past(bytes, next, lb, p + rest);
    let start = next + lb.len();
    lemma_skip_past(bytes, start, p, rest);
    assert(((p.len() as u64) as usize) as nat == p.len());
    assert forall|i: int| 0 <= i < p.len() implies #[trigger] bytes.subrange(
        start as int,
        (start + p.len()) as int,
    )[i] == p[i] by {
        assert(bytes.skip(start as int)[i] == (p + rest)[i]);
    }
    assert(bytes.subrange(start as int, (start + p.len()) as int) =~= p);
}

/// Reading a written field at `pos` yields its view, then the fields after it.
pub proof fn lemma_parse_one(bytes: Seq<u8>, pos: nat, f: WireField, rest: Seq<u8>)
    requires
        wire_ok(f),
        pos <= bytes.len(),
        bytes.skip(pos as int) == wire_bytes(f) + rest,
    ensures
        pos + wire_bytes(f).len() <= bytes.len(),
        parse_fields_from(bytes, pos) == prepend_field(
            wire_view(f),
            parse_fields_from(bytes, pos + wire_bytes(f).len()),
        ),
{
    match f {
        WireField::Varint(n, v) => lemma_parse_varint_field(bytes, pos, n, v, rest),
        WireField::Len(n, p) => lemma_parse_len_field(bytes, pos, n, p, rest),
    }
}

/// Reading the fields written from `pos` to the end yields their views.
pub proof fn lemma_parse_wire(bytes: Seq<u8>, pos: nat, fs: Seq<WireField>)
    requires
        pos <= bytes.len(),
        bytes.skip(pos as int) == wire_all(fs),
        forall|i: int| 0 <= i < fs.len() ==> wire_ok(#[trigger] fs[i]),
    ensures
        parse_fields_from(bytes, pos) == Ok::<Seq<FieldView>, ProtoError>(wire_views(fs)),
    decreases fs.len(),
{
    if fs.len() == 0 {
        assert(bytes.skip(pos as int).len() == 0);
        assert(wire_views(fs) =~= Seq::<FieldView>::empty());
    } else {
        let f = fs[0];
        let tail = fs.drop_first();
        assert(wire_ok(f));
        lemma_parse_one(bytes, pos, f, wire_all(tail));
        lemma_skip_past(bytes, pos, wire_bytes(f), wire_all(tail));
        let next = pos + wire_bytes(f).len();
        assert forall|i: int| 0 <= i < tail.len() implies wire_ok(#[trigger] tail[i]) by {
            assert(tail[i] == fs[i + 1]);
        }
        lemma_parse_wire(bytes, next, tail);
        assert(wire_views(fs) =~= seq![wire_view(f)] + wire_views(tail));
    }
}

/// A written message decodes to the views of its fields.
pub proof fn lemma_parse_message(fs: Seq<WireField>)
    requires
        forall|i: int| 0 <= i < fs.len() ==> wire_ok(#[trigger] fs[i]),
    ensures
        parse_fields(wire_all(fs)) == Ok::<Seq<FieldView>, ProtoError>(wire_views(fs)),
{
    let bytes = wire_all(fs);
    assert(bytes.skip(0) =~= bytes);
    lemma_parse_wire(bytes, 0, fs);
}

// ---------------------------------------------------------------------------
// The recorded-mean graph as nested field lists
// ---------------------------------------------------------------------------

pub open spec fn str_field(n: u32, s: Seq<char>) -> WireField {
    WireField::Len(n, encode_utf8(s))
}

pub open spec fn zero_weights(obs_dim: u64) -> Seq<u8> {
    Seq::new((4 * obs_dim) as nat, |i: int| 0u8)
}

pub open spec fn weight_fields(obs_dim: u64) -> Seq<WireField> {
    seq![
        WireField::Varint(1, obs_dim),
        WireField::Varint(1, 1),
        WireField::Varint(2, ONNX_FLOAT),
        str_field(8, "W"@),
        WireField::Len(9, zero_weights(obs_dim)),
    ]
}

pub open spec fn bias_fields(bits: u32) -> Seq<WireField> {
    seq![
        WireField::Varint(1, 1),
        WireField::Varint(2, ONNX_FLOAT),
        str_field(8, "B"@),
        WireField::Len(9, le_bytes_u32(bits)),
    ]
}

pub open spec fn dim_fields(v: u64) -> Seq<WireField> {
    seq![WireField::Varint(1, v)]
}

pub open spec fn shape_fields(a: u64, b: u64) -> Seq<WireField> {
    seq![WireField::Len(1, wire_all(dim_fields(a))), WireField::Len(1, wire_all(dim_fields(b)))]
}

pub open spec fn tensor_type_fields(a: u64, b: u64) -> Seq<WireField> {
    seq![WireField::Varint(1, ONNX_FLOAT), WireField::Len(2, wire_all(shape_fields(a, b)))]
}

pub open spec fn type_fields(a: u64, b: u64) -> Seq<WireField> {
    seq![WireField::Len(1, wire_all(tensor_type_fields(a, b)))]
}

pub open spec fn value_info_fields(name: Seq<char>, a: u64, b: u64) -> Seq<WireField> {
    seq![str_field(1, name), WireField::Len(2, wire_all(type_fields(a, b)))]
}

pub open spec fn node_fields() -> Seq<WireField> {
    seq![
        str_field(1, GAUSSIAN_MU_ONNX_INPUT@),
        str_field(1, "W"@),
        str_field(1, "B"@),
        str_field(2, GAUSSIAN_MU_ONNX_OUTPUT@),
        str_field(3, "gemm_mu"@),
        str_field(4, "Gemm"@),
    ]
}

pub open spec fn graph_fields(obs_dim: u64, bits: u32) -> Seq<WireField> {
    seq![
        WireField::Len(1, wire_all(node_fields())),
        str_field(2, "gaussian_mu"@),
        WireField::Len(5, wire_all(weight_fields(obs_dim))),
        WireField::Len(5, wire_all(bias_fields(bits))),
        WireField::Len(11, wire_all(value_info_fields(GAUSSIAN_MU_ONNX_INPUT@, 1, obs_dim))),
        WireField::Len(12, wire_all(value_info_fields(GAUSSIAN_MU_ONNX_OUTPUT@, 1, 1))),
    ]
}

pub open spec fn opset_fields() -> Seq<WireField> {
    seq![str_field(1, ""@), WireField::Varint(2, ONNX_OPSET)]
}

pub open spec fn model_fields(obs_dim: u64, bits: u32) -> Seq<WireField> {
    seq![
        WireField::Varint(1, ONNX_IR_VERSION),
        str_field(2, PRODUCER@),
        WireField::Len(7, wire_all(graph_fields(obs_dim, bits))),
        WireField::Len(8, wire_all(opset_fields())),
    ]
}

proof fn lemma_weight_bytes(obs_dim: u64)
    ensures
        tensor_bytes("W"@, seq![obs_dim, 1u64], zero_weights(obs_dim)) == wire_all(
            weight_fields(obs_dim),
        ),
{
    reveal_with_fuel(wire_all, 6);
    reveal_with_fuel(repeated_varint_fields, 3);
    let dims = seq![obs_dim, 1u64];
    assert(dims.drop_last() =~= seq![obs_dim]);
    assert(dims.drop_last().drop_last() =~= Seq::<u64>::empty());
    assert(tensor_bytes("W"@, dims, zero_weights(obs_dim)) =~= wire_all(weight_fields(obs_dim)));
}

proof fn lemma_bias_bytes(bits: u32)
    ensures
        tensor_bytes("B"@, seq![1u64], le_bytes_u32(bits)) == wire_all(bias_fields(bits)),
{
    reveal_with_fuel(wire_all, 5);
    reveal_with_fuel(repeated_varint_fields, 2);
    let dims = seq![1u64];
    assert(dims.drop_last() =~= Seq::<u64>::empty());
    assert(tensor_bytes("B"@, dims, le_bytes_u32(bits)) =~= wire_all(bias_fields(bits)));
}

proof fn lemma_value_info_bytes(name: Seq<char>, a: u64, b: u64)
    ensures
        value_info_bytes(name, seq![a, b]) == wire_all(value_info_fields(name, a, b)),
{
    reveal_with_fuel(wire_all, 3);
    reveal_with_fuel(shape_bytes, 3);
    let dims = seq![a, b];
    assert(dims.drop_last() =~= seq![a]);
    assert(dims.drop_last().drop_last() =~= Seq::<u64>::empty());
    assert(shape_bytes(dims) =~= wire_all(shape_fields(a, b)));
    assert(varint_field_bytes(1, ONNX_FLOAT as nat) + len_field_bytes(2, shape_bytes(dims))
        =~= wire_all(tensor_type_fields(a, b)));
    assert(len_field_bytes(1, wire_all(tensor_type_fields(a, b))) =~= wire_all(type_fields(a, b)));
    assert(value_info_bytes(name, dims) =~= wire_all(value_info_fields(name, a, b)));
}

proof fn lemma_node_bytes()
    ensures
        node_bytes(
            "gemm_mu"@,
            "Gemm"@,
            seq![GAUSSIAN_MU_ONNX_INPUT@, "W"@, "B"@],
            seq![GAUSSIAN_MU_ONNX_OUTPUT@],
        ) == wire_all(node_fields()),
{
    reveal_with_fuel(wire_all, 7);
    reveal_with_fuel(repeated_str_fields, 4);
    let ins = seq![GAUSSIAN_MU_ONNX_INPUT@, "W"@, "B"@];
    let outs = seq![GAUSSIAN_MU_ONNX_OUTPUT@];
    assert(ins.drop_last() =~= seq![GAUSSIAN_MU_ONNX_INPUT@, "W"@]);
    assert(ins.drop_last().drop_last() =~= seq![GAUSSIAN_MU_ONNX_INPUT@]);
    assert(ins.drop_last().drop_last().drop_last() =~= Seq::<Seq<char>>::empty());
    assert(outs.drop_last() =~= Seq::<Seq<char>>::empty());
    assert(node_bytes("gemm_mu"@, "Gemm"@, ins, outs) =~= wire_all(node_fields()));
}

proof fn lemma_wire_all_4(a: WireField, b: WireField, c: WireField, d: WireField)
    ensures
        wire_all(seq![a, b, c, d]) == wire_bytes(a) + wire_bytes(b) + wire_bytes(c) + wire_bytes(d),
{
    reveal_with_fuel(wire_all, 5);
    let s = seq![a, b, c, d];
    assert(s.drop_first() =~= seq![b, c, d]);
    assert(s.drop_first().drop_first() =~= seq![c, d]);
    assert(s.drop_first().drop_first().drop_first() =~= seq![d]);
    assert(s.drop_first().drop_first().drop_first().drop_first() =~= Seq::<WireField>::empty());
    assert(wire_all(s) =~= wire_bytes(a) + wire_bytes(b) + wire_bytes(c) + wire_bytes(d));
}

proof fn lemma_wire_all_6(
    a: WireField,
    b: WireField,
    c: WireField,
    d: WireField,
    e: WireField,
    f: WireField,
)
    ensures
        wire_all(seq![a, b, c, d, e, f]) == wire_bytes(a) + wire_bytes(b) + wire_bytes(c)
            + wire_bytes(d) + wire_bytes(e) + wire_bytes(f),
{
    reveal_with_fuel(wire_all, 3);
    let s = seq![a, b, c, d, e, f];
    assert(s.drop_first() =~= seq![b, c, d, e, f]);
    assert(s.drop_first().drop_first() =~= seq![c, d, e, f]);
    lemma_wire_all_4(c, d, e, f);
    assert(wire_all(s) =~= wire_bytes(a) + wire_bytes(b) + wire_bytes(c) + wire_bytes(d)
        + wire_bytes(e) + wire_bytes(f));
}

/// The recorded-mean graph is the nested field lists above, written out.
pub proof fn lemma_model_bytes(obs_dim: u64, bits: u32)
    ensures
        gemm_mu_model_bytes(obs_dim, bits) == wire_all(model_fields(obs_dim, bits)),
{
    reveal(gemm_mu_model_bytes);
    lemma_weight_bytes(obs_dim);
    lemma_bias_bytes(bits);
    lemma_value_info_bytes(GAUSSIAN_MU_ONNX_INPUT@, 1, obs_dim);
    lemma_value_info_bytes(GAUSSIAN_MU_ONNX_OUTPUT@, 1, 1);
    lemma_node_bytes();
    let g = graph_fields(obs_dim, bits);
    lemma_wire_all_6(g[0], g[1], g[2], g[3], g[4], g[5]);
    assert(g =~= seq![g[0], g[1], g[2], g[3], g[4], g[5]]);
    let o = opset_fields();
    assert(wire_all(o) == wire_bytes(o[0]) + wire_all(o.drop_first()));
    assert(o.drop_first() =~= seq![o[1]]);
    assert(wire_all(seq![o[1]]) == wire_bytes(o[1]) + wire_all(seq![o[1]].drop_first()));
    assert(seq![o[1]].drop_first() =~= Seq::<WireField>::empty());
    let m = model_fields(obs_dim, bits);
    lemma_wire_all_4(m[0], m[1], m[2], m[3]);
    assert(m =~= seq![m[0], m[1], m[2], m[3]]);
    assert(gemm_mu_model_bytes(obs_dim, bits) =~= wire_all(m));
}

// ---------------------------------------------------------------------------
// Sizes
// ---------------------------------------------------------------------------

pub open spec fn all_ok(fs: Seq<WireField>) -> bool {
    forall|i: int| 0 <= i < fs.len() ==> wire_ok(#[trigger] fs[i])
}

pub open spec fn field_number(f: WireField) -> u32 {
    match f {
        WireField::Varint(n, _) => n,
        WireField::Len(n, _) => n,
    }
}

pub open spec fn payload_len(f: WireField) -> nat {
    match f {
        WireField::Varint(_, _) => 0,
        WireField::Len(_, p) => p.len(),
    }
}

proof fn lemma_varint_nonempty(v: nat)
    ensures
        varint_encoding(v).len() >= 1,
{
}

/// Each field's payload is no longer than the whole message, and a message
/// with a field is not empty.
proof fn lemma_wire_all_len(fs: Seq<WireField>, i: int)
    requires
        0 <= i < fs.len(),
    ensures
        payload_len(fs[i]) < wire_all(fs).len(),
    decreases i,
{
    let f = fs[0];
    match f {
        WireField::Varint(n, v) => lemma_varint_nonempty(tag_key(n, 0)),
        WireField::Len(n, p) => lemma_varint_nonempty(tag_key(n, 2)),
    }
    if i > 0 {
        lemma_wire_all_len(fs.drop_first(), i - 1);
        assert(fs.drop_first()[i - 1] == fs[i]);
    } else {
        match f {
            WireField::Varint(n, v) => {},
            WireField::Len(n, p) => {
                assert(wire_bytes(f).len() == varint_encoding(tag_key(n, 2)).len()
                    + varint_encoding(p.len()).len() + p.len());
            },
        }
    }
}

/// A message that fits in memory, with small field numbers, has every
/// payload fit in memory.
proof fn lemma_all_ok(fs: Seq<WireField>)
    requires
        wire_all(fs).len() <= usize::MAX,
        forall|i: int| 0 <= i < fs.len() ==> #[trigger] field_number(fs[i]) < 0x2000_0000,
    ensures
        all_ok(fs),
{
    assert forall|i: int| 0 <= i < fs.len() implies wire_ok(#[trigger] fs[i]) by {
        lemma_wire_all_len(fs, i);
        assert(field_number(fs[i]) < 0x2000_0000);
    }
}

proof fn lemma_message_nonempty(fs: Seq<WireField>)
    requires
        fs.len() > 0,
    ensures
        wire_all(fs).len() > 0,
{
    match fs[0] {
        WireField::Varint(n, v) => lemma_varint_nonempty(tag_key(n, 0)),
        WireField::Len(n, p) => lemma_varint_nonempty(tag_key(n, 2)),
    }
}

// ---------------------------------------------------------------------------
// What the inspector reads from the recorded-mean graph
// ---------------------------------------------------------------------------

/// The first field numbered `n` of the requested kind sits at index `k`.
proof fn lemma_first_field_at(fs: Seq<FieldView>, n: u32, kind: FieldKind, k: int)
    requires
        0 <= k < fs.len(),
        field_matches(fs[k], n, kind),
        forall|j: int| 0 <= j < k ==> !field_matches(#[trigger] fs[j], n, kind),
    ensures
        first_field(fs, n, kind) == Some(fs[k]),
    decreases k,
{
    if k > 0 {
        let t = fs.drop_first();
        assert forall|j: int| 0 <= j < k - 1 implies !field_matches(#[trigger] t[j], n, kind) by {
            assert(t[j] == fs[j + 1]);
        }
        assert(!field_matches(fs[0], n, kind));
        lemma_first_field_at(t, n, kind, k - 1);
    }
}

/// A text field written with `str_field` reads back as its text.
proof fn lemma_text_at(fs: Seq<WireField>, n: u32, k: int, text: Seq<char>)
    requires
        0 <= k < fs.len(),
        fs[k] == str_field(n, text),
        forall|j: int| 0 <= j < k ==> #[trigger] field_number(fs[j]) != n,
    ensures
        spec_string_field(wire_views(fs), n) == Some(text),
{
    let v = wire_views(fs);
    assert forall|j: int| 0 <= j < k implies !field_matches(#[trigger] v[j], n, FieldKind::Any) by {
        assert(field_number(fs[j]) != n);
    }
    lemma_first_field_at(v, n, FieldKind::Any, k);
    encode_utf8_valid_utf8(text);
    encode_utf8_decode_utf8(text);
}

proof fn lemma_node_op()
    ensures
        spec_string_field(wire_views(node_fields()), 4) == Some("Gemm"@),
{
    let fs = node_fields();
    assert forall|j: int| 0 <= j < 5 implies #[trigger] field_number(fs[j]) != 4 by {}
    lemma_text_at(fs, 4, 5, "Gemm"@);
}

/// A nested message written at index `k` reads back as its fields.
proof fn lemma_message_at(fs: Seq<WireField>, n: u32, k: int, sub: Seq<WireField>)
    requires
        0 <= k < fs.len(),
        fs[k] == WireField::Len(n, wire_all(sub)),
        sub.len() > 0,
        all_ok(sub),
        forall|j: int| 0 <= j < k ==> #[trigger] field_number(fs[j]) != n,
    ensures
        spec_message_field(wire_views(fs), n) == Some(wire_views(sub)),
{
    let v = wire_views(fs);
    lemma_message_nonempty(sub);
    assert forall|j: int| 0 <= j < k implies !field_matches(#[trigger] v[j], n, FieldKind::Payload) by {
        assert(field_number(fs[j]) != n);
    }
    lemma_first_field_at(v, n, FieldKind::Payload, k);
    lemma_parse_message(sub);
}

/// A varint written at index `k` reads back as its value.
proof fn lemma_varint_at(fs: Seq<WireField>, n: u32, k: int, value: u64)
    requires
        0 <= k < fs.len(),
        fs[k] == WireField::Varint(n, value),
        forall|j: int| 0 <= j < k ==> #[trigger] field_number(fs[j]) != n,
    ensures
        spec_varint_field(wire_views(fs), n) == Some(value),
{
    let v = wire_views(fs);
    assert forall|j: int| 0 <= j < k implies !field_matches(#[trigger] v[j], n, FieldKind::Bare) by {
        assert(field_number(fs[j]) != n);
    }
    lemma_first_field_at(v, n, FieldKind::Bare, k);
}

/// A value-info block names its value and ends its shape with `b`.
proof fn lemma_value_info_reads(name: Seq<char>, a: u64, b: u64)
    requires
        wire_all(value_info_fields(name, a, b)).len() <= usize::MAX,
        b <= i64::MAX,
    ensures
        spec_string_field(wire_views(value_info_fields(name, a, b)), 1) == Some(name),
        spec_tensor_last_dim(wire_views(value_info_fields(name, a, b))) == Some(b as i64),
{
    let vi = value_info_fields(name, a, b);
    let ty = type_fields(a, b);
    let tt = tensor_type_fields(a, b);
    let sh = shape_fields(a, b);
    assert forall|i: int| 0 <= i < vi.len() implies #[trigger] field_number(vi[i]) < 0x2000_0000 by {}
    lemma_all_ok(vi);
    lemma_text_at(vi, 1, 0, name);
    lemma_wire_all_len(vi, 1);
    assert forall|i: int| 0 <= i < ty.len() implies #[trigger] field_number(ty[i]) < 0x2000_0000 by {}
    lemma_all_ok(ty);
    assert(field_number(vi[0]) != 2);
    lemma_message_at(vi, 2, 1, ty);
    lemma_wire_all_len(ty, 0);
    assert forall|i: int| 0 <= i < tt.len() implies #[trigger] field_number(tt[i]) < 0x2000_0000 by {}
    lemma_all_ok(tt);
    lemma_message_at(ty, 1, 0, tt);
    lemma_wire_all_len(tt, 1);
    assert forall|i: int| 0 <= i < sh.len() implies #[trigger] field_number(sh[i]) < 0x2000_0000 by {}
    lemma_all_ok(sh);
    assert(field_number(tt[0]) != 2);
    lemma_message_at(tt, 2, 1, sh);
    let da = dim_fields(a);
    let db = dim_fields(b);
    assert(all_ok(da));
    assert(all_ok(db));
    lemma_parse_message(da);
    lemma_parse_message(db);
    lemma_message_nonempty(da);
    lemma_message_nonempty(db);
    let sv = wire_views(sh);
    reveal_with_fuel(spec_repeated_messages, 3);
    assert(sv.drop_first().drop_first() =~= Seq::<FieldView>::empty());
    assert(spec_repeated_messages(sv, 1) =~= seq![wire_views(da), wire_views(db)]);
    lemma_varint_at(db, 1, 0, b);
}

/// Four little-endian bytes read back as the word they were taken from.
pub proof fn lemma_le_bytes_roundtrip(w: u32)
    ensures
        u32_from_le(le_bytes_u32(w)) == w,
{
    let b0 = w % 0x100;
    let b1 = (w / 0x100) % 0x100;
    let b2 = (w / 0x1_0000) % 0x100;
    let b3 = (w / 0x100_0000) % 0x100;
    assert(b0 + b1 * 0x100 + b2 * 0x1_0000 + b3 * 0x100_0000 == w) by (bit_vector)
        requires
            b0 == w % 0x100,
            b1 == (w / 0x100) % 0x100,
            b2 == (w / 0x1_0000) % 0x100,
            b3 == (w / 0x100_0000) % 0x100,
    ;
}

/// The initializers of the graph: the weight is named `W`, the bias `B`
/// with the recorded bits, so the bias scan finds those bits.
proof fn lemma_initializers_read(obs_dim: u64, bits: u32)
    requires
        wire_all(weight_fields(obs_dim)).len() <= usize::MAX,
        wire_all(bias_fields(bits)).len() <= usize::MAX,
    ensures
        scan_bias(seq![wire_views(weight_fields(obs_dim)), wire_views(bias_fields(bits))]) == Some(
            bits,
        ),
{
    let w = weight_fields(obs_dim);
    let b = bias_fields(bits);
    assert forall|j: int| 0 <= j < 3 implies #[trigger] field_number(w[j]) != 8 by {}
    lemma_text_at(w, 8, 3, "W"@);
    assert forall|j: int| 0 <= j < 2 implies #[trigger] field_number(b[j]) != 8 by {}
    lemma_text_at(b, 8, 2, "B"@);
    let bv = wire_views(b);
    assert forall|j: int| 0 <= j < 3 implies !field_matches(#[trigger] bv[j], 9, FieldKind::Payload) by {}
    lemma_first_field_at(bv, 9, FieldKind::Payload, 3);
    lemma_le_bytes_roundtrip(bits);
    reveal_strlit("W");
    reveal_strlit("B");
    assert("W"@ != "B"@) by {
        assert("W"@[0] != "B"@[0]);
    }
    let inits = seq![wire_views(w), bv];
    reveal_with_fuel(scan_bias, 3);
    assert(inits.drop_last() =~= seq![wire_views(w)]);
    assert(inits.drop_last().drop_last() =~= Seq::<Seq<FieldView>>::empty());
}

proof fn lemma_sub_ok(fs: Seq<WireField>, i: int, sub: Seq<WireField>)
    requires
        0 <= i < fs.len(),
        wire_all(fs).len() <= usize::MAX,
        fs[i] == WireField::Len(field_number(fs[i]), wire_all(sub)),
        forall|j: int| 0 <= j < sub.len() ==> #[trigger] field_number(sub[j]) < 0x2000_0000,
        sub.len() > 0,
    ensures
        all_ok(sub),
        wire_all(sub).len() > 0,
        parse_fields(wire_all(sub)) == Ok::<Seq<FieldView>, ProtoError>(wire_views(sub)),
{
    lemma_wire_all_len(fs, i);
    lemma_all_ok(sub);
    lemma_message_nonempty(sub);
    lemma_parse_message(sub);
}

/// The graph's node, initializers, input and output blocks, by field.
proof fn lemma_graph_reads(obs_dim: u64, bits: u32)
    requires
        wire_all(graph_fields(obs_dim, bits)).len() <= usize::MAX,
    ensures
        spec_repeated_messages(wire_views(graph_fields(obs_dim, bits)), 1) == seq![
            wire_views(node_fields()),
        ],
        spec_repeated_messages(wire_views(graph_fields(obs_dim, bits)), 5) == seq![
            wire_views(weight_fields(obs_dim)),
            wire_views(bias_fields(bits)),
        ],
        spec_repeated_messages(wire_views(graph_fields(obs_dim, bits)), 11) == seq![
            wire_views(value_info_fields(GAUSSIAN_MU_ONNX_INPUT@, 1, obs_dim)),
        ],
        spec_repeated_messages(wire_views(graph_fields(obs_dim, bits)), 12) == seq![
            wire_views(value_info_fields(GAUSSIAN_MU_ONNX_OUTPUT@, 1, 1)),
        ],
        wire_all(weight_fields(obs_dim)).len() <= usize::MAX,
        wire_all(bias_fields(bits)).len() <= usize::MAX,
        wire_all(value_info_fields(GAUSSIAN_MU_ONNX_INPUT@, 1, obs_dim)).len() <= usize::MAX,
        wire_all(value_info_fields(GAUSSIAN_MU_ONNX_OUTPUT@, 1, 1)).len() <= usize::MAX,
{
    let g = graph_fields(obs_dim, bits);
    let node = node_fields();
    let w = weight_fields(obs_dim);
    let b = bias_fields(bits);
    let vin = value_info_fields(GAUSSIAN_MU_ONNX_INPUT@, 1, obs_dim);
    let vout = value_info_fields(GAUSSIAN_MU_ONNX_OUTPUT@, 1, 1);
    assert forall|j: int| 0 <= j < node.len() implies #[trigger] field_number(node[j]) < 0x2000_0000 by {}
    assert forall|j: int| 0 <= j < w.len() implies #[trigger] field_number(w[j]) < 0x2000_0000 by {}
    assert forall|j: int| 0 <= j < b.len() implies #[trigger] field_number(b[j]) < 0x2000_0000 by {}
    assert forall|j: int| 0 <= j < vin.len() implies #[trigger] field_number(vin[j]) < 0x2000_0000 by {}
    assert forall|j: int| 0 <= j < vout.len() implies #[trigger] field_number(vout[j]) < 0x2000_0000 by {}
    lemma_sub_ok(g, 0, node);
    lemma_sub_ok(g, 2, w);
    lemma_sub_ok(g, 3, b);
    lemma_sub_ok(g, 4, vin);
    lemma_sub_ok(g, 5, vout);
    lemma_wire_all_len(g, 2);
    lemma_wire_all_len(g, 3);
    lemma_wire_all_len(g, 4);
    lemma_wire_all_len(g, 5);
    let gv = wire_views(g);
    let t1 = gv.drop_first();
    let t2 = t1.drop_first();
    let t3 = t2.drop_first();
    let t4 = t3.drop_first();
    let t5 = t4.drop_first();
    let t6 = t5.drop_first();
    assert(t6 =~= Seq::<FieldView>::empty());
    assert(t5[0] == gv[5]);
    assert(t4[0] == gv[4]);
    assert(t3[0] == gv[3]);
    assert(t2[0] == gv[2]);
    assert(t1[0] == gv[1]);
    reveal_with_fuel(spec_repeated_messages, 7);
    assert(spec_repeated_messages(gv, 1) =~= seq![wire_views(node)]);
    assert(spec_repeated_messages(gv, 5) =~= seq![wire_views(w), wire_views(b)]);
    assert(spec_repeated_messages(gv, 11) =~= seq![wire_views(vin)]);
    assert(spec_repeated_messages(gv, 12) =~= seq![wire_views(vout)]);
}

proof fn lemma_model_reads(obs_dim: u64, bits: u32)
    requires
        gemm_mu_model_bytes(obs_dim, bits).len() <= usize::MAX,
    ensures
        parse_fields(gemm_mu_model_bytes(obs_dim, bits)) == Ok::<Seq<FieldView>, ProtoError>(
            wire_views(model_fields(obs_dim, bits)),
        ),
        spec_string_field(wire_views(model_fields(obs_dim, bits)), 2) == Some(PRODUCER@),
        spec_message_field(wire_views(model_fields(obs_dim, bits)), 7) == Some(
            wire_views(graph_fields(obs_dim, bits)),
        ),
        wire_all(graph_fields(obs_dim, bits)).len() <= usize::MAX,
{
    lemma_model_bytes(obs_dim, bits);
    let m = model_fields(obs_dim, bits);
    let g = graph_fields(obs_dim, bits);
    assert forall|j: int| 0 <= j < m.len() implies #[trigger] field_number(m[j]) < 0x2000_0000 by {}
    lemma_all_ok(m);
    lemma_parse_message(m);
    lemma_text_at(m, 2, 1, PRODUCER@);
    assert forall|j: int| 0 <= j < g.len() implies #[trigger] field_number(g[j]) < 0x2000_0000 by {}
    lemma_sub_ok(m, 2, g);
    lemma_wire_all_len(m, 2);
    assert forall|j: int| 0 <= j < 2 implies #[trigger] field_number(m[j]) != 7 by {}
    lemma_message_at(m, 7, 2, g);
}

proof fn lemma_graph_input(obs_dim: u64, bits: u32)
    requires
        wire_all(graph_fields(obs_dim, bits)).len() <= usize::MAX,
    ensures
        scan_inputs(spec_repeated_messages(wire_views(graph_fields(obs_dim, bits)), 11)) == (
            GAUSSIAN_MU_ONNX_INPUT@,
            obs_dim as i64,
        ),
{
    let w = weight_fields(obs_dim);
    let vin = value_info_fields(GAUSSIAN_MU_ONNX_INPUT@, 1, obs_dim);
    lemma_graph_reads(obs_dim, bits);
    lemma_wire_all_len(w, 4);
    assert(obs_dim <= i64::MAX);
    lemma_value_info_reads(GAUSSIAN_MU_ONNX_INPUT@, 1, obs_dim);
    let inputs = seq![wire_views(vin)];
    assert(inputs.drop_last() =~= Seq::<Seq<FieldView>>::empty());
    reveal_with_fuel(scan_inputs, 2);
}

proof fn lemma_graph_output(obs_dim: u64, bits: u32)
    requires
        wire_all(graph_fields(obs_dim, bits)).len() <= usize::MAX,
    ensures
        first_text_field(spec_repeated_messages(wire_views(graph_fields(obs_dim, bits)), 12), 1)
            == GAUSSIAN_MU_ONNX_OUTPUT@,
        first_text_field(spec_repeated_messages(wire_views(graph_fields(obs_dim, bits)), 1), 4)
            == "Gemm"@,
{
    lemma_graph_reads(obs_dim, bits);
    lemma_value_info_reads(GAUSSIAN_MU_ONNX_OUTPUT@, 1, 1);
    lemma_node_op();
}

proof fn lemma_graph_bias(obs_dim: u64, bits: u32)
    requires
        wire_all(graph_fields(obs_dim, bits)).len() <= usize::MAX,
    ensures
        scan_bias(spec_repeated_messages(wire_views(graph_fields(obs_dim, bits)), 5)) == Some(bits),
{
    lemma_graph_reads(obs_dim, bits);
    lemma_initializers_read(obs_dim, bits);
}

/// What the writer emits, the inspector reads back: a recorded-mean graph
/// whose bytes fit in memory and whose bias is finite inspects to its
/// observation width, its bias bits, the input `observation`, the output
/// `mean`, the `Gemm` node and the `trolly-gym` producer.
pub proof fn lemma_inspect_written_graph(obs_dim: u64, bits: u32)
    requires
        gemm_mu_model_bytes(obs_dim, bits).len() <= usize::MAX,
        f32_bits_finite(bits),
    ensures
        spec_inspect(gemm_mu_model_bytes(obs_dim, bits)) == Ok::<MuInfoView, Seq<char>>(
            MuInfoView {
                obs_dim: obs_dim as i64,
                mean_bias_bits: bits,
                input_name: GAUSSIAN_MU_ONNX_INPUT@,
                output_name: GAUSSIAN_MU_ONNX_OUTPUT@,
                op_type: "Gemm"@,
                producer: PRODUCER@,
            },
        ),
{
    lemma_model_reads(obs_dim, bits);
    lemma_graph_input(obs_dim, bits);
    lemma_graph_output(obs_dim, bits);
    lemma_graph_bias(obs_dim, bits);
    reveal(spec_inspect);
    reveal_strlit("observation");
    reveal_strlit("mean");
    reveal_strlit("Gemm");
}

} // verus!
