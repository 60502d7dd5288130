//! Plausibility checking for ONNX model files, before they are loaded.
//!
//! A corrupt model file would abort the process that loads it. ONNX files are
//! Protocol Buffers; what is checked here is their envelope: the file starts
//! with the `ir_version` field, and its top-level fields walk to the end of
//! the file. That catches an interrupted download and a file that is no model
//! at all.
use vstd::prelude::*;
use vstd::string::*;

use crate::text;

verus! {

/// The most bytes that a varint may have.
pub const VARINT_MAX: u64 = 5;

/// The first byte of every ONNX file: the tag of field 1, a varint.
pub const FIRST_TAG: u8 = 0x08;

/// The weight of the `k`-th group of seven bits.
pub open spec fn place(k: nat) -> nat
    decreases k,
{
    if k == 0 {
        1
    } else {
        128 * place((k - 1) as nat)
    }
}

/// What stands where a varint is expected.
pub enum Varint {
    /// A number that takes up `len` bytes.
    Value { value: nat, len: nat },
    /// Nothing: there are no more bytes.
    End,
    /// The bytes end before the varint does.
    Truncated,
    /// More bytes than a varint may have.
    TooLong,
}

/// The varint whose first `k` bytes add up to `value` and that goes on with
/// `s`. Each byte holds seven bits of the number, the lowest ones first, and
/// all bytes but the last have their top bit set.
pub open spec fn varint_more(s: Seq<u8>, k: nat, value: nat) -> Varint
    decreases s.len(),
{
    if k >= VARINT_MAX {
        Varint::TooLong
    } else if s.len() == 0 {
        if k == 0 {
            Varint::End
        } else {
            Varint::Truncated
        }
    } else {
        let sum = value + (s[0] % 128) as nat * place(k);
        if s[0] < 128 {
            Varint::Value { value: sum, len: k + 1 }
        } else {
            varint_more(s.skip(1), k + 1, sum)
        }
    }
}

/// The varint at the start of `s`.
pub open spec fn varint(s: Seq<u8>) -> Varint {
    varint_more(s, 0, 0)
}

/// What a walk over the envelope of a file finds.
#[derive(Debug, Clone, Copy, PartialEq, Eq, Structural)]
pub enum Envelope {
    /// The fields walk to a clean end of the file.
    Plausible,
    /// The structure is simply wrong.
    Wrong,
    /// The file ends in the middle of a field.
    Truncated,
    /// A varint is longer than any real one.
    Malformed,
}

/// What follows the tag of a field.
pub enum Payload {
    /// A whole payload of so many bytes.
    Takes(nat),
    /// None: this is what the walk finds.
    Fails(Envelope),
}

/// A payload of `n` bytes at the start of `s`.
pub open spec fn fixed(s: Seq<u8>, n: nat) -> Payload {
    if s.len() < n {
        Payload::Fails(Envelope::Truncated)
    } else {
        Payload::Takes(n)
    }
}

/// The payload at the start of `s` of a field with this wire type: a varint, 8
/// bytes, a length and that many bytes, or 4 bytes. No ONNX file uses the
/// other wire types.
pub open spec fn payload(s: Seq<u8>, wire: nat) -> Payload {
    if wire == 1 {
        fixed(s, 8)
    } else if wire == 5 {
        fixed(s, 4)
    } else if wire == 0 || wire == 2 {
        match varint(s) {
            Varint::Value { value, len } => if wire == 0 {
                Payload::Takes(len)
            } else {
                fixed(s, len + value)
            },
            Varint::End | Varint::Truncated => Payload::Fails(Envelope::Truncated),
            Varint::TooLong => Payload::Fails(Envelope::Malformed),
        }
    } else {
        Payload::Fails(Envelope::Wrong)
    }
}

/// What the walk finds from a boundary between two fields on: a clean end, or
/// a field and then the rest.
pub open spec fn fields(s: Seq<u8>) -> Envelope
    decreases s.len(),
{
    match varint(s) {
        Varint::End => Envelope::Plausible,
        Varint::Truncated => Envelope::Truncated,
        Varint::TooLong => Envelope::Malformed,
        Varint::Value { value, len } => {
            let rest = s.skip(len as int);
            proof {
                lemma_varint(s, 0, 0);
                lemma_varint(rest, 0, 0);
            }
            match payload(rest, value % 8) {
                Payload::Takes(n) => fields(rest.skip(n as int)),
                Payload::Fails(e) => e,
            }
        },
    }
}

/// What the walk finds in a whole file: it starts with the `ir_version` field
/// and goes on with other fields.
pub open spec fn envelope(s: Seq<u8>) -> Envelope {
    if s.len() == 0 || s[0] != FIRST_TAG {
        Envelope::Wrong
    } else {
        match varint(s.skip(1)) {
            Varint::Value { value, len } => fields(s.skip(1).skip(len as int)),
            Varint::End | Varint::Truncated => Envelope::Truncated,
            Varint::TooLong => Envelope::Malformed,
        }
    }
}

/// Whether a file looks like an ONNX model.
pub open spec fn plausible(s: Seq<u8>) -> bool {
    envelope(s) is Plausible
}

/// A varint lies within the bytes it is read from.
pub proof fn lemma_varint(s: Seq<u8>, k: nat, value: nat)
    ensures
        varint_more(s, k, value) matches Varint::Value { value: _, len } ==> k < len <= k + s.len()
            && len <= VARINT_MAX,
        varint_more(s, k, value) is End ==> s.len() == 0 && k == 0,
    decreases s.len(),
{
    if k < VARINT_MAX && s.len() > 0 && s[0] >= 128 {
        lemma_varint(s.skip(1), k + 1, value + (s[0] % 128) as nat * place(k));
    }
}

/// A whole varint stays the same whatever follows it.
proof fn lemma_varint_extends(a: Seq<u8>, b: Seq<u8>, k: nat, value: nat)
    requires
        varint_more(a, k, value) is Value,
    ensures
        varint_more(a + b, k, value) == varint_more(a, k, value),
    decreases a.len(),
{
    assert((a + b)[0] == a[0]);
    if a[0] >= 128 {
        assert((a + b).skip(1) =~= a.skip(1) + b);
        lemma_varint_extends(a.skip(1), b, k + 1, value + (a[0] % 128) as nat * place(k));
    }
}

/// A whole payload stays the same whatever follows it.
proof fn lemma_payload_extends(a: Seq<u8>, b: Seq<u8>, wire: nat)
    requires
        payload(a, wire) is Takes,
    ensures
        payload(a + b, wire) == payload(a, wire),
        payload(a, wire)->Takes_0 <= a.len(),
{
    lemma_varint(a, 0, 0);
    if wire == 0 || wire == 2 {
        lemma_varint_extends(a, b, 0, 0);
    }
}

/// Fields can be put one after the other: a walk over whole fields and then
/// something else finds what it finds in that alone.
pub proof fn fields_follow_each_other(a: Seq<u8>, b: Seq<u8>)
    requires
        fields(a) is Plausible,
    ensures
        fields(a + b) == fields(b),
    decreases a.len(),
{
    lemma_varint(a, 0, 0);
    match varint(a) {
        Varint::Value { value, len } => {
            let wire = value % 8;
            let rest = a.skip(len as int);
            lemma_varint_extends(a, b, 0, 0);
            assert((a + b).skip(len as int) =~= rest + b);
            lemma_payload_extends(rest, b, wire);
            let n = payload(rest, wire)->Takes_0 as int;
            assert((rest + b).skip(n) =~= rest.skip(n) + b);
            fields_follow_each_other(rest.skip(n), b);
        },
        _ => {
            assert(a + b =~= b);
        },
    }
}

/// A plausible file that is cut off is still plausible only where the cut lies
/// between two fields: then what was cut off is whole fields too. A cut inside
/// a field is found.
pub proof fn cut_inside_a_field_is_found(s: Seq<u8>, cut: int)
    requires
        plausible(s),
        0 <= cut <= s.len(),
        !(fields(s.skip(cut)) is Plausible),
    ensures
        !plausible(s.take(cut)),
{
    let a = s.take(cut);
    let b = s.skip(cut);
    if plausible(a) {
        assert(a + b =~= s);
        let v = a.skip(1);
        lemma_varint(v, 0, 0);
        lemma_varint_extends(v, b, 0, 0);
        assert((a + b).skip(1) =~= v + b);
        let len = varint(v)->len as int;
        assert((v + b).skip(len) =~= v.skip(len) + b);
        fields_follow_each_other(v.skip(len), b);
    }
}

/// No empty file is plausible, and none that does not start with the tag of
/// `ir_version` and a value.
pub proof fn plausible_file_starts_with_ir_version(s: Seq<u8>)
    requires
        plausible(s),
    ensures
        s.len() >= 2,
        s[0] == FIRST_TAG,
        varint(s.skip(1)) is Value,
{
    lemma_varint(s.skip(1), 0, 0);
}

/// The number that some bytes hold in base 128, the lowest digit first, the
/// top bit of each byte left out.
pub open spec fn base_128(s: Seq<u8>) -> nat
    decreases s.len(),
{
    if s.len() == 0 {
        0
    } else {
        (s[0] % 128) as nat + 128 * base_128(s.skip(1))
    }
}

/// What a varint adds to the bytes before it.
proof fn lemma_varint_value(s: Seq<u8>, k: nat, value: nat)
    requires
        varint_more(s, k, value) is Value,
    ensures
        varint_more(s, k, value)->value == value + place(k) * base_128(
            s.take(varint_more(s, k, value)->len - k),
        ),
        forall|i: int|
            0 <= i < varint_more(s, k, value)->len - k ==> (#[trigger] s[i] < 128 <==> i
                == varint_more(s, k, value)->len - k - 1),
    decreases s.len(),
{
    lemma_varint(s, k, value);
    let n = varint_more(s, k, value)->len - k;
    let digit = (s[0] % 128) as nat;
    let sum = value + digit * place(k);
    let higher = base_128(s.skip(1).take(n - 1));
    assert(s.take(n).skip(1) =~= s.skip(1).take(n - 1));
    assert(s.take(n)[0] == s[0]);
    assert(base_128(s.take(n)) == digit + 128 * higher);
    assert(place(k + 1) == 128 * place(k));
    assert(place(k) * (digit + 128 * higher) == digit * place(k) + place(k + 1) * higher)
        by (nonlinear_arith)
        requires
            place(k + 1) == 128 * place(k),
    ;
    if s[0] >= 128 {
        lemma_varint_value(s.skip(1), k + 1, sum);
        lemma_varint(s.skip(1), k + 1, sum);
        assert(varint_more(s.skip(1), k + 1, sum) == varint_more(s, k, value));
        assert forall|i: int| 0 <= i < n implies (#[trigger] s[i] < 128 <==> i == n - 1) by {
            if i > 0 {
                assert(s.skip(1)[i - 1] == s[i]);
            }
        }
    } else {
        assert(n == 1);
        assert(higher == 0);
        assert(place(k + 1) * higher == 0) by (nonlinear_arith)
            requires
                higher == 0,
        ;
    }
}

/// A varint is the number that its bytes hold in base 128, and ends at the
/// first byte without the top bit.
pub proof fn varint_is_base_128(s: Seq<u8>)
    requires
        varint(s) is Value,
    ensures
        varint(s)->value == base_128(s.take(varint(s)->len as int)),
        forall|i: int|
            0 <= i < varint(s)->len ==> (#[trigger] s[i] < 128 <==> i == varint(s)->len - 1),
{
    lemma_varint_value(s, 0, 0);
    assert(place(0) * base_128(s.take(varint(s)->len as int)) == base_128(
        s.take(varint(s)->len as int),
    )) by (nonlinear_arith)
        requires
            place(0) == 1,
    ;
}

/// Whether some bytes are one whole varint: one to five of them, all but the
/// last with the top bit set.
pub open spec fn whole_varint(d: Seq<u8>) -> bool {
    &&& 1 <= d.len() <= 5
    &&& d[d.len() - 1] < 128
    &&& forall|i: int| 0 <= i < d.len() - 1 ==> #[trigger] d[i] >= 128
}

/// A varint that goes on with whole bytes of one.
proof fn lemma_whole_varint(d: Seq<u8>, rest: Seq<u8>, k: nat, value: nat)
    requires
        whole_varint(d),
        k + d.len() <= 5,
    ensures
        varint_more(d + rest, k, value) == (Varint::Value {
            value: value + place(k) * base_128(d),
            len: k + d.len(),
        }),
    decreases d.len(),
{
    let s = d + rest;
    let digit = (d[0] % 128) as nat;
    let sum = value + digit * place(k);
    let higher = base_128(d.skip(1));
    assert(s[0] == d[0]);
    assert(base_128(d) == digit + 128 * higher);
    assert(place(k + 1) == 128 * place(k));
    assert(place(k) * (digit + 128 * higher) == digit * place(k) + place(k + 1) * higher)
        by (nonlinear_arith)
        requires
            place(k + 1) == 128 * place(k),
    ;
    if d.len() > 1 {
        let t = d.skip(1);
        assert(d[0] >= 128);
        assert(t[t.len() - 1] == d[d.len() - 1]);
        assert forall|i: int| 0 <= i < t.len() - 1 implies #[trigger] t[i] >= 128 by {
            assert(t[i] == d[i + 1]);
        }
        assert(s.skip(1) =~= t + rest);
        lemma_whole_varint(t, rest, k + 1, sum);
    } else {
        assert(d.skip(1) =~= Seq::<u8>::empty());
        assert(higher == 0);
        assert(place(k + 1) * higher == 0) by (nonlinear_arith)
            requires
                higher == 0,
        ;
    }
}

/// Any varint of up to five bytes is read whole, whatever follows it and
/// whatever its value.
pub proof fn whole_varint_is_read(d: Seq<u8>, rest: Seq<u8>)
    requires
        whole_varint(d),
    ensures
        varint(d + rest) == (Varint::Value { value: base_128(d), len: d.len() }),
{
    lemma_whole_varint(d, rest, 0, 0);
    assert(place(0) * base_128(d) == base_128(d)) by (nonlinear_arith)
        requires
            place(0) == 1,
    ;
}

/// The value of a varint: seven bits of each byte, the lowest ones first.
pub proof fn varint_value_is_little_endian(a: u8, b: u8, c: u8, d: u8, e: u8)
    ensures
        base_128(seq![a]) == a % 128,
        base_128(seq![a, b]) == a % 128 + 128 * (b % 128),
        base_128(seq![a, b, c]) == a % 128 + 128 * (b % 128) + 16_384 * (c % 128),
        base_128(seq![a, b, c, d]) == a % 128 + 128 * (b % 128) + 16_384 * (c % 128) + 2_097_152
            * (d % 128),
        base_128(seq![a, b, c, d, e]) == a % 128 + 128 * (b % 128) + 16_384 * (c % 128) + 2_097_152
            * (d % 128) + 268_435_456 * (e % 128),
{
    reveal_with_fuel(base_128, 6);
    assert(seq![a].skip(1) =~= Seq::<u8>::empty());
    assert(seq![b].skip(1) =~= Seq::<u8>::empty());
    assert(seq![c].skip(1) =~= Seq::<u8>::empty());
    assert(seq![d].skip(1) =~= Seq::<u8>::empty());
    assert(seq![e].skip(1) =~= Seq::<u8>::empty());
    assert(seq![a, b].skip(1) =~= seq![b]);
    assert(seq![a, b, c].skip(1) =~= seq![b, c]);
    assert(seq![b, c].skip(1) =~= seq![c]);
    assert(seq![a, b, c, d].skip(1) =~= seq![b, c, d]);
    assert(seq![b, c, d].skip(1) =~= seq![c, d]);
    assert(seq![c, d].skip(1) =~= seq![d]);
    assert(seq![a, b, c, d, e].skip(1) =~= seq![b, c, d, e]);
    assert(seq![b, c, d, e].skip(1) =~= seq![c, d, e]);
    assert(seq![c, d, e].skip(1) =~= seq![d, e]);
    assert(seq![d, e].skip(1) =~= seq![e]);
}

/// A varint that does not end: without bytes there is none, with fewer than
/// five it is cut off, and with five it is too long.
pub proof fn endless_varint_is_found(s: Seq<u8>)
    requires
        forall|i: int| 0 <= i < s.len() && i < 5 ==> #[trigger] s[i] >= 128,
    ensures
        varint(s) == if s.len() == 0 {
            Varint::End
        } else if s.len() < 5 {
            Varint::Truncated
        } else {
            Varint::TooLong
        },
{
    lemma_endless(s, 0, 0);
}

/// What a varint comes to that goes on without an end.
proof fn lemma_endless(s: Seq<u8>, k: nat, value: nat)
    requires
        k <= 5,
        forall|i: int| 0 <= i < s.len() && i < 5 - k ==> #[trigger] s[i] >= 128,
    ensures
        varint_more(s, k, value) == if s.len() >= 5 - k {
            Varint::TooLong
        } else if s.len() == 0 && k == 0 {
            Varint::End
        } else {
            Varint::Truncated
        },
    decreases s.len(),
{
    if k < 5 && s.len() > 0 {
        let t = s.skip(1);
        assert(s[0] >= 128);
        assert forall|i: int| 0 <= i < t.len() && i < 5 - (k + 1) implies #[trigger] t[i] >= 128 by {
            assert(t[i] == s[i + 1]);
        }
        lemma_endless(t, k + 1, value + (s[0] % 128) as nat * place(k));
    }
}

/// Whether some bytes are one whole field: a tag, and what its lowest three
/// bits ask for - a varint, eight bytes, a length and that many bytes whatever
/// that is, or four bytes.
pub open spec fn whole_field(tag: Seq<u8>, length: Seq<u8>, data: Seq<u8>) -> bool {
    &&& whole_varint(tag)
    &&& {
        ||| base_128(tag) % 8 == 0 && length.len() == 0 && whole_varint(data)
        ||| base_128(tag) % 8 == 1 && length.len() == 0 && data.len() == 8
        ||| base_128(tag) % 8 == 2 && whole_varint(length) && data.len() == base_128(length)
        ||| base_128(tag) % 8 == 5 && length.len() == 0 && data.len() == 4
    }
}

/// A whole field is walked over, however long it is: what the walk finds is
/// what it finds behind it.
pub proof fn whole_field_is_walked_over(
    tag: Seq<u8>,
    length: Seq<u8>,
    data: Seq<u8>,
    rest: Seq<u8>,
)
    requires
        whole_field(tag, length, data),
    ensures
        fields(tag + length + data + rest) == fields(rest),
        fields(tag + length + data) is Plausible,
        fields(Seq::<u8>::empty()) is Plausible,
{
    lemma_walk_over_field(tag, length, data, rest);
    lemma_walk_over_field(tag, length, data, Seq::empty());
    assert(tag + length + data + Seq::<u8>::empty() =~= tag + length + data);
}

/// A walk over one whole field.
proof fn lemma_walk_over_field(tag: Seq<u8>, length: Seq<u8>, data: Seq<u8>, rest: Seq<u8>)
    requires
        whole_field(tag, length, data),
    ensures
        fields(tag + length + data + rest) == fields(rest),
{
    let s = tag + length + data + rest;
    let behind = length + data + rest;
    assert(s =~= tag + behind);
    whole_varint_is_read(tag, behind);
    assert(s.skip(tag.len() as int) =~= behind);
    if length.len() == 0 {
        assert(behind =~= data + rest);
        if base_128(tag) % 8 == 0 {
            whole_varint_is_read(data, rest);
        }
        assert(behind.skip(data.len() as int) =~= rest);
    } else {
        assert(behind =~= length + (data + rest));
        whole_varint_is_read(length, data + rest);
        assert(behind.skip((length.len() + data.len()) as int) =~= rest);
    }
}

/// A field that is cut off anywhere is found to be truncated, and one of
/// another wire type to be wrong.
pub proof fn cut_field_is_truncated(tag: Seq<u8>, length: Seq<u8>, data: Seq<u8>, cut: int)
    requires
        whole_field(tag, length, data),
        0 < cut < (tag + length + data).len(),
    ensures
        fields((tag + length + data).take(cut)) is Truncated,
{
    let whole = tag + length + data;
    let s = whole.take(cut);
    if cut < tag.len() {
        assert forall|i: int| 0 <= i < s.len() && i < 5 implies #[trigger] s[i] >= 128 by {
            assert(s[i] == tag[i]);
        }
        endless_varint_is_found(s);
    } else {
        let behind = s.skip(tag.len() as int);
        assert(s =~= tag + behind);
        whole_varint_is_read(tag, behind);
        let wire = base_128(tag) % 8;
        if wire == 0 {
            assert forall|i: int| 0 <= i < behind.len() && i < 5 implies #[trigger] behind[i]
                >= 128 by {
                assert(behind[i] == data[i]);
            }
            endless_varint_is_found(behind);
        } else if wire == 2 {
            if behind.len() < length.len() {
                assert forall|i: int| 0 <= i < behind.len() && i < 5 implies #[trigger] behind[i]
                    >= 128 by {
                    assert(behind[i] == length[i]);
                }
                endless_varint_is_found(behind);
            } else {
                let part = behind.skip(length.len() as int);
                assert(behind =~= length + part);
                whole_varint_is_read(length, part);
            }
        }
    }
}

/// A field of a wire type that no ONNX file uses is wrong, and a tag or a
/// length that does not end is malformed.
pub proof fn malformed_field_is_found(tag: Seq<u8>, s: Seq<u8>, endless: Seq<u8>)
    requires
        whole_varint(tag),
        endless.len() >= 5,
        forall|i: int| 0 <= i < 5 ==> #[trigger] endless[i] >= 128,
    ensures
        base_128(tag) % 8 == 3 || base_128(tag) % 8 == 4 || base_128(tag) % 8 == 6 || base_128(tag)
            % 8 == 7 ==> fields(tag + s) is Wrong,
        fields(endless) is Malformed,
        base_128(tag) % 8 == 0 || base_128(tag) % 8 == 2 ==> fields(tag + endless) is Malformed,
{
    whole_varint_is_read(tag, s);
    whole_varint_is_read(tag, endless);
    endless_varint_is_found(endless);
    assert((tag + s).skip(tag.len() as int) =~= s);
    assert((tag + endless).skip(tag.len() as int) =~= endless);
}

/// A file is plausible exactly when it is the tag of `ir_version`, a value and
/// fields that walk to a clean end. So is every file made of the first field
/// and any whole fields, whatever their sizes.
pub proof fn file_of_whole_fields_is_plausible(
    version: Seq<u8>,
    body: Seq<u8>,
    tag: Seq<u8>,
    length: Seq<u8>,
    data: Seq<u8>,
)
    requires
        whole_varint(version),
    ensures
        plausible(seq![0x08u8] + version + body) <==> fields(body) is Plausible,
        plausible(seq![0x08u8] + version),
        fields(body) is Plausible && whole_field(tag, length, data) ==> plausible(
            seq![0x08u8] + version + (body + (tag + length + data)),
        ),
{
    lemma_file(version, body);
    lemma_file(version, Seq::empty());
    assert(seq![0x08u8] + version + Seq::<u8>::empty() =~= seq![0x08u8] + version);
    if fields(body) is Plausible && whole_field(tag, length, data) {
        whole_field_is_walked_over(tag, length, data, Seq::empty());
        fields_follow_each_other(body, tag + length + data);
        lemma_file(version, body + (tag + length + data));
    }
}

/// What is found in a file is what is found behind its first field.
proof fn lemma_file(version: Seq<u8>, body: Seq<u8>)
    requires
        whole_varint(version),
    ensures
        envelope(seq![0x08u8] + version + body) == fields(body),
{
    let s = seq![0x08u8] + version + body;
    assert(s[0] == 0x08u8);
    assert(s.skip(1) =~= version + body);
    whole_varint_is_read(version, body);
    assert((version + body).skip(version.len() as int) =~= body);
}

/// A file that starts with any other byte is wrong, one that is empty too, and
/// one that ends in its first value is truncated.
pub proof fn other_file_is_not_plausible(s: Seq<u8>)
    ensures
        s.len() == 0 || s[0] != 0x08 ==> envelope(s) is Wrong,
        s.len() > 0 && s[0] == 0x08 && s.len() <= 5 && (forall|i: int|
            1 <= i < s.len() ==> #[trigger] s[i] >= 128) ==> envelope(s) is Truncated,
        s.len() > 5 && s[0] == 0x08 && (forall|i: int| 1 <= i < 6 ==> #[trigger] s[i] >= 128)
            ==> envelope(s) is Malformed,
        plausible(s) <==> envelope(s) is Plausible,
{
    if s.len() > 0 && s[0] == 0x08 {
        let t = s.skip(1);
        if s.len() <= 5 && (forall|i: int| 1 <= i < s.len() ==> #[trigger] s[i] >= 128) {
            assert forall|i: int| 0 <= i < t.len() && i < 5 implies #[trigger] t[i] >= 128 by {
                assert(t[i] == s[i + 1]);
            }
            endless_varint_is_found(t);
        }
        if s.len() > 5 && (forall|i: int| 1 <= i < 6 ==> #[trigger] s[i] >= 128) {
            assert forall|i: int| 0 <= i < t.len() && i < 5 implies #[trigger] t[i] >= 128 by {
                assert(t[i] == s[i + 1]);
            }
            endless_varint_is_found(t);
        }
    }
}

/// What the varint is that the walk is reading.
#[derive(Debug, Clone, Copy, PartialEq, Eq, Structural)]
pub enum Role {
    /// The value of `ir_version`.
    IrVersion,
    /// The tag of a field, or the end of the file.
    Tag,
    /// The value of a field.
    Value,
    /// The length of a field.
    Length,
}

/// How far a walk has come.
#[derive(Debug, Clone, Copy, PartialEq, Eq, Structural)]
pub enum Stage {
    /// Before the first byte.
    First,
    /// In a varint of which `count` bytes are read and add up to `value`.
    Number { role: Role, count: u64, value: u64 },
    /// Before a payload of `len` bytes.
    Skipping { len: u64 },
    Done { found: Envelope },
}

/// What the walk finds behind a varint, with `s` the bytes from some byte of
/// it on, and `count` the bytes of it before those.
pub open spec fn behind_number(role: Role, number: Varint, s: Seq<u8>, count: nat) -> Envelope {
    match number {
        Varint::End => if role is Tag {
            Envelope::Plausible
        } else {
            Envelope::Truncated
        },
        Varint::Truncated => Envelope::Truncated,
        Varint::TooLong => Envelope::Malformed,
        Varint::Value { value, len } => {
            let rest = s.skip(len - count);
            match role {
                Role::IrVersion | Role::Value => fields(rest),
                Role::Tag => match payload(rest, value % 8) {
                    Payload::Takes(n) => fields(rest.skip(n as int)),
                    Payload::Fails(e) => e,
                },
                Role::Length => if rest.len() < value {
                    Envelope::Truncated
                } else {
                    fields(rest.skip(value as int))
                },
            }
        },
    }
}

impl Stage {
    /// What the walk finds when the bytes that are left are `s`.
    #[verifier::opaque]
    pub open spec fn finds(self, s: Seq<u8>) -> Envelope {
        match self {
            Stage::First => envelope(s),
            Stage::Number { role, count, value } => behind_number(
                role,
                varint_more(s, count as nat, value as nat),
                s,
                count as nat,
            ),
            Stage::Skipping { len } => if s.len() < len {
                Envelope::Truncated
            } else {
                fields(s.skip(len as int))
            },
            Stage::Done { found } => found,
        }
    }

    /// A number is never read past the bytes that it may have.
    pub open spec fn wf(self) -> bool {
        self matches Stage::Number { role, count, value } ==> count < VARINT_MAX && value < place(
            count as nat,
        )
    }
}

/// What the walk needs next.
#[derive(Debug, Clone, Copy, PartialEq, Eq, Structural)]
pub enum Need {
    /// The next byte.
    Byte,
    /// So many bytes to be passed over.
    Skip(u64),
    /// Nothing: this is what it found.
    Done(Envelope),
}

/// What was read for the walk.
#[derive(Debug, Clone, Copy, PartialEq, Eq, Structural)]
pub enum Got {
    /// The next byte.
    Byte(u8),
    /// No byte: the file is at its end.
    End,
    /// The bytes were passed over.
    Skipped,
    /// The file ended before all of the bytes were passed over.
    Short,
}

/// Whether this is an answer to what was needed.
pub open spec fn answers(got: Got, need: Need) -> bool {
    match need {
        Need::Byte => got is Byte || got is End,
        Need::Skip(_) => got is Skipped || got is Short,
        Need::Done(_) => false,
    }
}

/// A walk over the envelope of a file that is read piece by piece.
pub struct Walker {
    stage: Stage,
}

/// The weight of the `count`-th group of seven bits.
fn place_of(count: u64) -> (p: u64)
    requires
        count < VARINT_MAX,
    ensures
        p == place(count as nat),
{
    proof {
        reveal_with_fuel(place, 6);
    }
    if count == 0 {
        1
    } else if count == 1 {
        128
    } else if count == 2 {
        16_384
    } else if count == 3 {
        2_097_152
    } else {
        268_435_456
    }
}

/// The sum of a number and one more digit stays below the next place.
proof fn lemma_digit(value: nat, digit: nat, count: nat)
    requires
        value < place(count),
        digit < 128,
        count < VARINT_MAX,
    ensures
        value + digit * place(count) < place(count + 1),
        place(count + 1) <= 34_359_738_368,
{
    reveal_with_fuel(place, 7);
    let p = place(count);
    assert(digit * p <= 127 * p) by (nonlinear_arith)
        requires
            digit < 128,
    ;
}

/// What the walk finds from a tag on.
proof fn lemma_at_tag(s: Seq<u8>)
    ensures
        (Stage::Number { role: Role::Tag, count: 0, value: 0 }).finds(s) == fields(s),
{
    reveal(Stage::finds);
    lemma_varint(s, 0, 0);
}

/// What the walk finds from the payload of a field on.
proof fn lemma_skipping(len: u64, s: Seq<u8>)
    ensures
        (Stage::Skipping { len }).finds(s) == match fixed(s, len as nat) {
            Payload::Takes(n) => fields(s.skip(n as int)),
            Payload::Fails(e) => e,
        },
{
    reveal(Stage::finds);
}

/// What the walk finds from the value of a field on.
proof fn lemma_at_value(s: Seq<u8>)
    ensures
        (Stage::Number { role: Role::Value, count: 0, value: 0 }).finds(s) == match payload(s, 0) {
            Payload::Takes(n) => fields(s.skip(n as int)),
            Payload::Fails(e) => e,
        },
{
    reveal(Stage::finds);
}

/// What the walk finds from the length of a field on.
proof fn lemma_at_length(s: Seq<u8>)
    ensures
        (Stage::Number { role: Role::Length, count: 0, value: 0 }).finds(s) == match payload(s, 2) {
            Payload::Takes(n) => fields(s.skip(n as int)),
            Payload::Fails(e) => e,
        },
{
    reveal(Stage::finds);
    lemma_varint(s, 0, 0);
    if let Varint::Value { value, len } = varint(s) {
        if s.len() >= len + value {
            assert(s.skip(len as int).skip(value as int) =~= s.skip((len + value) as int));
        }
    }
}

impl Walker {
    /// How far the walk has come.
    pub closed spec fn stage(&self) -> Stage {
        self.stage
    }

    /// What the walk finds when the bytes that are left are `s`.
    pub open spec fn finds(&self, s: Seq<u8>) -> Envelope {
        self.stage().finds(s)
    }

    /// What the walk needs next.
    pub open spec fn needs(&self) -> Need {
        match self.stage() {
            Stage::First => Need::Byte,
            Stage::Number { role, count, value } => Need::Byte,
            Stage::Skipping { len } => Need::Skip(len),
            Stage::Done { found } => Need::Done(found),
        }
    }

    /// The invariant of the walk.
    pub open spec fn wf(&self) -> bool {
        self.stage().wf()
    }

    /// A bound on the steps that take no byte.
    spec fn fuel(&self) -> nat {
        match self.needs() {
            Need::Done(_) => 0,
            Need::Byte => 1,
            Need::Skip(_) => 2,
        }
    }

    /// A walk from the start of a file.
    pub fn new() -> (w: Self)
        ensures
            w.wf(),
            w.stage() is First,
            forall|s: Seq<u8>| #[trigger] w.finds(s) == envelope(s),
    {
        proof {
            reveal(Stage::finds);
        }
        Walker { stage: Stage::First }
    }

    /// What the walk needs next.
    pub fn need(&self) -> (n: Need)
        ensures
            n == self.needs(),
    {
        match self.stage {
            Stage::First => Need::Byte,
            Stage::Number { role: _, count: _, value: _ } => Need::Byte,
            Stage::Skipping { len } => Need::Skip(len),
            Stage::Done { found } => Need::Done(found),
        }
    }

    /// A walk that is done finds the same whatever bytes are left.
    proof fn lemma_done(&self, s: Seq<u8>)
        ensures
            self.needs() matches Need::Done(found) ==> self.finds(s) == found,
    {
        reveal(Stage::finds);
    }

    /// The stage behind a number.
    fn behind(role: Role, value: u64) -> (stage: Stage)
        ensures
            stage.wf(),
            forall|s: Seq<u8>| #[trigger]
                stage.finds(s) == behind_number(
                    role,
                    Varint::Value { value: value as nat, len: 0 },
                    s,
                    0,
                ),
    {
        let wire: u64 = value % 8;
        let stage = match role {
            Role::IrVersion | Role::Value => Stage::Number { role: Role::Tag, count: 0, value: 0 },
            Role::Length => Stage::Skipping { len: value },
            Role::Tag => if wire == 0 {
                Stage::Number { role: Role::Value, count: 0, value: 0 }
            } else if wire == 1 {
                Stage::Skipping { len: 8 }
            } else if wire == 2 {
                Stage::Number { role: Role::Length, count: 0, value: 0 }
            } else if wire == 5 {
                Stage::Skipping { len: 4 }
            } else {
                Stage::Done { found: Envelope::Wrong }
            },
        };
        proof {
            assert forall|s: Seq<u8>| #[trigger]
                stage.finds(s) == behind_number(
                    role,
                    Varint::Value { value: value as nat, len: 0 },
                    s,
                    0,
                ) by {
                assert(s.skip(0) =~= s);
                match role {
                    Role::IrVersion | Role::Value => lemma_at_tag(s),
                    Role::Length => lemma_skipping(value, s),
                    Role::Tag => if wire == 0 {
                        lemma_at_value(s);
                    } else if wire == 1 {
                        lemma_skipping(8, s);
                    } else if wire == 2 {
                        lemma_at_length(s);
                    } else if wire == 5 {
                        lemma_skipping(4, s);
                    } else {
                        reveal(Stage::finds);
                    },
                }
            }
        }
        stage
    }

    /// The stage before the tag of a field.
    fn at_tag() -> (stage: Stage)
        ensures
            stage.wf(),
            stage is Number,
            forall|s: Seq<u8>| #[trigger] stage.finds(s) == fields(s),
    {
        let stage = Stage::Number { role: Role::Tag, count: 0, value: 0 };
        assert forall|s: Seq<u8>| #[trigger] stage.finds(s) == fields(s) by {
            lemma_at_tag(s);
        }
        stage
    }

    /// The stage after one more byte of a number.
    fn on_digit(role: Role, count: u64, value: u64, b: u8) -> (stage: Stage)
        requires
            count < VARINT_MAX,
            value < place(count as nat),
        ensures
            stage.wf(),
            forall|s: Seq<u8>| #[trigger]
                stage.finds(s) == (Stage::Number { role, count, value }).finds(seq![b] + s),
    {
        proof {
            reveal(Stage::finds);
        }
        let digit: u64 = (b % 128) as u64;
        let unit: u64 = place_of(count);
        let ghost k = count as nat;
        proof {
            lemma_digit(value as nat, digit as nat, k);
            assert(0 <= digit * unit) by (nonlinear_arith);
        }
        let sum: u64 = value + digit * unit;
        let stage = if b < 128 {
            Self::behind(role, sum)
        } else if count + 1 < VARINT_MAX {
            Stage::Number { role, count: count + 1, value: sum }
        } else {
            Stage::Done { found: Envelope::Malformed }
        };
        assert forall|s: Seq<u8>| #[trigger]
            stage.finds(s) == (Stage::Number { role, count, value }).finds(seq![b] + s) by {
            let t = seq![b] + s;
            assert(t[0] == b);
            assert(t.skip(1) =~= s);
            if b < 128 {
                assert(varint_more(t, k, value as nat) == (Varint::Value {
                    value: sum as nat,
                    len: k + 1,
                }));
                assert(s.skip(0) =~= s);
            } else {
                let number = varint_more(t, k, value as nat);
                assert(number == varint_more(s, k + 1, sum as nat));
                lemma_varint(s, k + 1, sum as nat);
                if let Varint::Value { value: v, len } = number {
                    assert(t.skip(len - k) =~= s.skip(len - (k + 1)));
                }
            }
        }
        stage
    }

    /// The stage after one more byte.
    fn on_byte(stage: Stage, b: u8) -> (after: Stage)
        requires
            stage.wf(),
            stage is First || stage is Number,
        ensures
            after.wf(),
            forall|s: Seq<u8>| #[trigger] after.finds(s) == stage.finds(seq![b] + s),
    {
        proof {
            reveal(Stage::finds);
        }
        match stage {
            Stage::Number { role, count, value } => Self::on_digit(role, count, value, b),
            _ => {
                let after = if b == FIRST_TAG {
                    Stage::Number { role: Role::IrVersion, count: 0, value: 0 }
                } else {
                    Stage::Done { found: Envelope::Wrong }
                };
                assert forall|s: Seq<u8>| #[trigger] after.finds(s) == stage.finds(seq![b] + s) by {
                    assert((seq![b] + s).skip(1) =~= s);
                    assert((seq![b] + s)[0] == b);
                }
                after
            },
        }
    }

    /// What the walk finds at the end of the file.
    fn on_end(stage: Stage) -> (found: Envelope)
        requires
            stage.wf(),
            stage is First || stage is Number,
        ensures
            found == stage.finds(Seq::empty()),
    {
        proof {
            reveal(Stage::finds);
        }
        match stage {
            Stage::Number { role, count, value: _ } => if count == 0 && matches!(role, Role::Tag) {
                Envelope::Plausible
            } else {
                Envelope::Truncated
            },
            _ => Envelope::Wrong,
        }
    }

    /// Take in what was read. What the walk finds in the bytes from there on
    /// is what it would have found before, with what was read in front of
    /// them.
    pub fn step(&mut self, got: Got)
        requires
            old(self).wf(),
            answers(got, old(self).needs()),
        ensures
            final(self).wf(),
            match got {
                Got::Byte(b) => forall|s: Seq<u8>| #[trigger]
                    final(self).finds(s) == old(self).finds(seq![b] + s),
                Got::End => final(self).needs() == Need::Done(old(self).finds(Seq::empty())),
                Got::Skipped => final(self).needs() is Byte && forall|s: Seq<u8>|
                    s.len() >= old(self).needs()->Skip_0 ==> #[trigger] old(self).finds(s)
                        == final(self).finds(s.skip(old(self).needs()->Skip_0 as int)),
                Got::Short => final(self).needs() == Need::Done(Envelope::Truncated) && forall|
                    s: Seq<u8>,
                |
                    s.len() < old(self).needs()->Skip_0 ==> #[trigger] old(self).finds(s)
                        is Truncated,
            },
    {
        let ghost before = self.stage;
        let stage = match got {
            Got::Byte(b) => Self::on_byte(self.stage, b),
            Got::End => Stage::Done { found: Self::on_end(self.stage) },
            Got::Skipped => Self::at_tag(),
            Got::Short => Stage::Done { found: Envelope::Truncated },
        };
        self.stage = stage;
        proof {
            if let Stage::Skipping { len } = before {
                assert forall|s: Seq<u8>| #[trigger]
                    before.finds(s) == if s.len() < len {
                        Envelope::Truncated
                    } else {
                        fields(s.skip(len as int))
                    } by {
                    lemma_skipping(len, s);
                }
            }
        }
    }
}

/// The envelope walk over bytes that are all at hand.
pub fn walk(bytes: &[u8]) -> (found: Envelope)
    ensures
        found == envelope(bytes@),
{
    let mut walker = Walker::new();
    let mut at: usize = 0;
    let ghost all = bytes@;
    assert(all.skip(0) =~= all);
    loop
        invariant
            all == bytes@,
            at <= all.len(),
            walker.wf(),
            walker.finds(all.skip(at as int)) == envelope(all),
        decreases all.len() - at, walker.fuel(),
    {
        let ghost left = all.skip(at as int);
        match walker.need() {
            Need::Byte => if at < bytes.len() {
                let b: u8 = bytes[at];
                assert(left =~= seq![b] + all.skip(at + 1));
                walker.step(Got::Byte(b));
                at += 1;
            } else {
                assert(left =~= Seq::<u8>::empty());
                walker.step(Got::End);
                proof {
                    walker.lemma_done(left);
                }
            },
            Need::Skip(n) => if n <= (bytes.len() - at) as u64 {
                assert(left.skip(n as int) =~= all.skip(at + n as int));
                walker.step(Got::Skipped);
                at += n as usize;
            } else {
                walker.step(Got::Short);
                proof {
                    walker.lemma_done(left);
                }
            },
            Need::Done(found) => {
                proof {
                    walker.lemma_done(left);
                }
                return found;
            },
        }
    }
}

/// Why a file could not be read.
#[derive(Debug, Clone, Copy, PartialEq, Eq, Structural)]
pub enum ReadFault {
    /// The reader reports an early end.
    UnexpectedEof,
    /// The reader reports that its data is malformed.
    InvalidData,
    /// Any other failure.
    Other,
}

/// What a failed read says of a file: an early end or malformed data means
/// that it is no ONNX file, like truncation; any other failure is one to
/// report.
pub fn unreadable(fault: ReadFault) -> (r: Result<bool, ReadFault>)
    ensures
        r == match fault {
            ReadFault::UnexpectedEof | ReadFault::InvalidData => Ok(false),
            ReadFault::Other => Err(fault),
        },
{
    match fault {
        ReadFault::UnexpectedEof | ReadFault::InvalidData => Ok(false),
        ReadFault::Other => Err(fault),
    }
}

/// Whether bytes have a plausible ONNX envelope. `Ok(false)` means that they
/// are structurally no ONNX file: garbage, truncated at any point, or
/// malformed.
pub fn is_plausible_onnx(bytes: &[u8]) -> (r: Result<bool, ReadFault>)
    ensures
        r == Ok::<bool, ReadFault>(plausible(bytes@)),
{
    Ok(matches!(walk(bytes), Envelope::Plausible))
}

/// Whether a model file of this name has an ONNX envelope: `.ort` files have
/// another format.
pub fn has_envelope(name: &str) -> (b: bool)
    ensures
        b == text::ends_with(name@, ".onnx"@),
{
    text::has_suffix(name, ".onnx")
}

/// Marks the error of a model file that was found but is corrupt: a hard
/// error, where a missing file is a reason to fall back to another backend.
#[derive(Debug, Clone, Copy, PartialEq, Eq, Structural)]
pub struct CorruptModel;

impl CorruptModel {
    pub fn message(&self) -> (s: String)
        ensures
            s@ == "corrupt model file"@,
    {
        "corrupt model file".to_string()
    }
}

/// What became of reading a model file.
#[derive(Debug, Clone, PartialEq, Eq)]
pub enum ModelRead {
    /// It could not be opened, for this reason.
    NotOpened(String),
    /// It could not be read, for this reason.
    NotRead(String),
    /// It was read, and has a plausible envelope or not.
    Read(bool),
}

/// Why a model file is of no use.
#[derive(Debug, Clone, PartialEq, Eq)]
pub enum ModelError {
    /// It could not be opened or read: what was tried, and the reason.
    Unreadable { context: String, cause: String },
    /// It is corrupt: what the user is told.
    Corrupt { context: String, mark: CorruptModel },
}

impl ModelError {
    /// Whether the file was found but is corrupt.
    pub fn is_corrupt(&self) -> (b: bool)
        ensures
            b == (self is Corrupt),
    {
        matches!(self, ModelError::Corrupt { context: _, mark: _ })
    }

    /// What the user is told.
    pub fn message(&self) -> (s: String)
        ensures
            s@ == match *self {
                ModelError::Unreadable { context, cause } => context@,
                ModelError::Corrupt { context, mark } => context@,
            },
    {
        match self {
            ModelError::Unreadable { context, cause: _ } => context.clone(),
            ModelError::Corrupt { context, mark: _ } => context.clone(),
        }
    }
}

/// `before`, what the file is, a space, and its path.
fn labelled(before: &str, what: &str, shown: &str) -> (s: String)
    ensures
        s@ == before@ + what@ + " "@ + shown@,
{
    let mut s = String::new();
    s.append(before);
    s.append(what);
    s.append(" ");
    s.append(shown);
    assert(s@ =~= before@ + what@ + " "@ + shown@);
    s
}

/// What a corrupt file is reported with.
pub open spec fn corrupt_text(what: Seq<char>, shown: Seq<char>) -> Seq<char> {
    what + " "@ + shown
        + " is not a valid ONNX model (corrupt or incomplete - an interrupted download?); delete it and re-run scripts/download-models.sh"@
}

/// Check a model file that was read. `what` labels the file in the message,
/// `shown` is its path.
pub fn check_onnx_file(shown: &str, what: &str, read: ModelRead) -> (r: Result<(), ModelError>)
    ensures
        match read {
            ModelRead::NotOpened(why) => r matches Err(ModelError::Unreadable { context, cause })
                && context@ == "opening "@ + what@ + " "@ + shown@ && cause == why,
            ModelRead::NotRead(why) => r matches Err(ModelError::Unreadable { context, cause })
                && context@ == "reading "@ + what@ + " "@ + shown@ && cause == why,
            ModelRead::Read(plausible) => if plausible {
                r is Ok
            } else {
                r matches Err(ModelError::Corrupt { context, mark }) && context@ == corrupt_text(
                    what@,
                    shown@,
                )
            },
        },
{
    match read {
        ModelRead::NotOpened(cause) => Err(
            ModelError::Unreadable { context: labelled("opening ", what, shown), cause },
        ),
        ModelRead::NotRead(cause) => Err(
            ModelError::Unreadable { context: labelled("reading ", what, shown), cause },
        ),
        ModelRead::Read(plausible) => if plausible {
            Ok(())
        } else {
            let mut context = labelled("", what, shown);
            context.append(
                " is not a valid ONNX model (corrupt or incomplete - an interrupted download?); delete it and re-run scripts/download-models.sh",
            );
            proof {
                reveal_strlit("");
                assert(context@ =~= corrupt_text(what@, shown@));
            }
            Err(ModelError::Corrupt { context, mark: CorruptModel })
        },
    }
}

/// What is said of a corrupt file starts with what it is and where, and ends
/// with what to do about it.
pub proof fn corrupt_text_names_the_file(what: Seq<char>, shown: Seq<char>)
    ensures
        text::starts_with(corrupt_text(what, shown), what + " "@ + shown),
        text::ends_with(
            corrupt_text(what, shown),
            " is not a valid ONNX model (corrupt or incomplete - an interrupted download?); delete it and re-run scripts/download-models.sh"@,
        ),
{
    let head = what + " "@ + shown;
    let tail =
        " is not a valid ONNX model (corrupt or incomplete - an interrupted download?); delete it and re-run scripts/download-models.sh"@;
    assert(corrupt_text(what, shown) =~= head + tail);
    text::ends_are_what_a_text_splits_at(head, head, head, tail);
    text::ends_are_what_a_text_splits_at(head, tail, head, tail);
}

} // verus!
