//! The protobuf wire format: a message is a sequence of tagged fields.

use vstd::prelude::*;

verus! {

/// The payload of one field.
pub enum WireValue {
    /// A base-128 integer.
    Varint(nat),
    /// Eight bytes, least significant first.
    Fixed64(nat),
    /// A length and that many bytes.
    Bytes(Seq<u8>),
}

/// One field of a message.
pub struct WireField {
    pub tag: nat,
    pub value: WireValue,
}

impl WireField {
    pub open spec fn varint(tag: nat, n: nat) -> WireField {
        WireField { tag, value: WireValue::Varint(n) }
    }

    pub open spec fn fixed64(tag: nat, n: nat) -> WireField {
        WireField { tag, value: WireValue::Fixed64(n) }
    }

    pub open spec fn bytes(tag: nat, b: Seq<u8>) -> WireField {
        WireField { tag, value: WireValue::Bytes(b) }
    }

    /// The field's key: its tag and, in the low three bits, the shape of its payload.
    pub open spec fn key(self) -> nat {
        self.tag * 8 + match self.value {
            WireValue::Varint(_) => 0nat,
            WireValue::Fixed64(_) => 1nat,
            WireValue::Bytes(_) => 2nat,
        }
    }

    pub open spec fn payload(self) -> Seq<u8> {
        match self.value {
            WireValue::Varint(n) => varint(n),
            WireValue::Fixed64(n) => little_endian(n, 8),
            WireValue::Bytes(b) => varint(b.len()) + b,
        }
    }

    pub open spec fn encoded(self) -> Seq<u8> {
        varint(self.key()) + self.payload()
    }
}

/// `n` in base 128, least significant digit first; every byte but the last has its
/// high bit set.
pub open spec fn varint(n: nat) -> Seq<u8>
    decreases n,
{
    if n < 128 {
        seq![n as u8]
    } else {
        seq![(n % 128 + 128) as u8] + varint(n / 128)
    }
}

/// The `k` low bytes of `n`, least significant first.
pub open spec fn little_endian(n: nat, k: nat) -> Seq<u8>
    decreases k,
{
    if k == 0 {
        seq![]
    } else {
        seq![(n % 256) as u8] + little_endian(n / 256, (k - 1) as nat)
    }
}

/// A message: its fields one after the other.
pub open spec fn encoded(fields: Seq<WireField>) -> Seq<u8>
    decreases fields.len(),
{
    if fields.len() == 0 {
        seq![]
    } else {
        fields[0].encoded() + encoded(fields.drop_first())
    }
}

/// An optional unsigned field.
pub open spec fn optional_uint(tag: nat, v: Option<u64>) -> Seq<WireField> {
    match v {
        Some(n) => seq![WireField::varint(tag, n as nat)],
        None => seq![],
    }
}

/// The 64-bit two's complement pattern of `v`.
pub open spec fn twos_complement(v: int) -> nat {
    if v >= 0 {
        v as nat
    } else {
        (v + 0x1_0000_0000_0000_0000) as nat
    }
}

/// An optional signed field.
pub open spec fn optional_int(tag: nat, v: Option<i64>) -> Seq<WireField> {
    match v {
        Some(n) => seq![WireField::varint(tag, twos_complement(n as int))],
        None => seq![],
    }
}

/// An optional field of eight bytes.
pub open spec fn optional_fixed64(tag: nat, v: Option<u64>) -> Seq<WireField> {
    match v {
        Some(n) => seq![WireField::fixed64(tag, n as nat)],
        None => seq![],
    }
}

/// An optional field of text, in UTF-8.
pub open spec fn optional_text(tag: nat, v: Option<Seq<char>>) -> Seq<WireField> {
    match v {
        Some(s) => seq![WireField::bytes(tag, vstd::utf8::encode_utf8(s))],
        None => seq![],
    }
}

/// An optional field that holds a message.
pub open spec fn optional_message(tag: nat, v: Option<Seq<WireField>>) -> Seq<WireField> {
    match v {
        Some(fields) => seq![WireField::bytes(tag, encoded(fields))],
        None => seq![],
    }
}

/// Fields that each hold a message.
pub open spec fn repeated_message(tag: nat, v: Seq<Seq<WireField>>) -> Seq<WireField> {
    v.map_values(|fields: Seq<WireField>| WireField::bytes(tag, encoded(fields)))
}

/// Fields of text, in UTF-8.
pub open spec fn repeated_text(tag: nat, v: Seq<Seq<char>>) -> Seq<WireField> {
    v.map_values(|s: Seq<char>| WireField::bytes(tag, vstd::utf8::encode_utf8(s)))
}

/// The encoding of fields one after the other is the encodings one after the other.
pub proof fn lemma_encoded_concat(a: Seq<WireField>, b: Seq<WireField>)
    ensures
        encoded(a + b) == encoded(a) + encoded(b),
    decreases a.len(),
{
    if a.len() == 0 {
        assert(a + b =~= b);
    } else {
        assert((a + b).drop_first() =~= a.drop_first() + b);
        lemma_encoded_concat(a.drop_first(), b);
        assert(encoded(a + b) =~= encoded(a) + encoded(b));
    }
}

pub proof fn lemma_encoded_single(f: WireField)
    ensures
        encoded(seq![f]) == f.encoded(),
{
    assert(seq![f].drop_first() =~= Seq::<WireField>::empty());
    assert(encoded(seq![f].drop_first()) =~= Seq::<u8>::empty());
    assert(encoded(seq![f]) =~= f.encoded());
}

/// Bytes that hold fields, extended by the encoding of more fields.
pub proof fn lemma_append(start: Seq<u8>, a: Seq<WireField>, b: Seq<WireField>)
    ensures
        start + encoded(a) + encoded(b) == start + encoded(a + b),
{
    lemma_encoded_concat(a, b);
    assert(start + encoded(a) + encoded(b) =~= start + (encoded(a) + encoded(b)));
}

/// Appends `value` as a base-128 integer.
///
/// Trusted: `prost::encoding::encode_varint` writes seven bits at a time, least
/// significant first, and marks every byte but the last with its high bit.
#[verifier::external_body]
fn put_varint(value: u64, buf: &mut Vec<u8>)
    ensures
        final(buf)@ == old(buf)@ + varint(value as nat),
{
    prost::encoding::encode_varint(value, buf)
}

fn put_little_endian(value: u64, buf: &mut Vec<u8>)
    ensures
        final(buf)@ == old(buf)@ + little_endian(value as nat, 8),
{
    let mut rest: u64 = value;
    let mut k: u32 = 0;
    let ghost start = buf@;
    assert(start + little_endian(value as nat, 8) =~= buf@ + little_endian(rest as nat, 8));
    while k < 8
        invariant
            k <= 8,
            start + little_endian(value as nat, 8) == buf@ + little_endian(
                rest as nat,
                (8 - k) as nat,
            ),
        decreases 8 - k,
    {
        let ghost before = buf@;
        let b: u8 = (rest % 256) as u8;
        buf.push(b);
        assert(before + little_endian(rest as nat, (8 - k) as nat) =~= buf@ + little_endian(
            (rest / 256) as nat,
            (8 - k - 1) as nat,
        ));
        rest = rest / 256;
        k = k + 1;
    }
    assert(little_endian(rest as nat, 0) =~= Seq::<u8>::empty());
    assert(buf@ + little_endian(rest as nat, 0) =~= buf@);
}

fn put_all(bytes: &[u8], buf: &mut Vec<u8>)
    ensures
        final(buf)@ == old(buf)@ + bytes@,
{
    let mut i: usize = 0;
    let ghost start = buf@;
    assert(bytes@.take(0) =~= Seq::<u8>::empty());
    while i < bytes.len()
        invariant
            i <= bytes.len(),
            buf@ == start + bytes@.take(i as int),
        decreases bytes.len() - i,
    {
        buf.push(bytes[i]);
        assert(bytes@.take(i + 1) =~= bytes@.take(i as int).push(bytes@[i as int]));
        i = i + 1;
    }
    assert(bytes@.take(i as int) =~= bytes@);
}

/// Appends a varint field.
pub fn put_uint(tag: u32, value: u64, buf: &mut Vec<u8>)
    requires
        tag < 0x2000_0000,
    ensures
        final(buf)@ == old(buf)@ + encoded(seq![WireField::varint(tag as nat, value as nat)]),
{
    proof {
        lemma_encoded_single(WireField::varint(tag as nat, value as nat));
    }
    put_varint(tag as u64 * 8, buf);
    put_varint(value, buf);
}

/// Appends an optional unsigned field.
pub fn put_optional_uint(tag: u32, value: Option<u64>, buf: &mut Vec<u8>)
    requires
        tag < 0x2000_0000,
    ensures
        final(buf)@ == old(buf)@ + encoded(optional_uint(tag as nat, value)),
{
    if let Some(n) = value {
        put_uint(tag, n, buf);
    }
}

/// Appends an optional signed field.
pub fn put_optional_int(tag: u32, value: Option<i64>, buf: &mut Vec<u8>)
    requires
        tag < 0x2000_0000,
    ensures
        final(buf)@ == old(buf)@ + encoded(optional_int(tag as nat, value)),
{
    if let Some(n) = value {
        let bits: u64 = if n >= 0 {
            n as u64
        } else {
            (n as i128 + 0x1_0000_0000_0000_0000) as u64
        };
        put_uint(tag, bits, buf);
    }
}

/// Appends an optional field of eight bytes.
pub fn put_optional_fixed64(tag: u32, value: Option<u64>, buf: &mut Vec<u8>)
    requires
        tag < 0x2000_0000,
    ensures
        final(buf)@ == old(buf)@ + encoded(optional_fixed64(tag as nat, value)),
{
    if let Some(n) = value {
        proof {
            lemma_encoded_single(WireField::fixed64(tag as nat, n as nat));
        }
        put_varint(tag as u64 * 8 + 1, buf);
        put_little_endian(n, buf);
    }
}

/// Appends a field of bytes.
pub fn put_bytes(tag: u32, bytes: &[u8], buf: &mut Vec<u8>)
    requires
        tag < 0x2000_0000,
    ensures
        final(buf)@ == old(buf)@ + encoded(seq![WireField::bytes(tag as nat, bytes@)]),
{
    proof {
        lemma_encoded_single(WireField::bytes(tag as nat, bytes@));
    }
    put_varint(tag as u64 * 8 + 2, buf);
    put_varint(bytes.len() as u64, buf);
    put_all(bytes, buf);
}

/// Appends an optional field of text.
pub fn put_optional_text(tag: u32, value: &Option<String>, buf: &mut Vec<u8>)
    requires
        tag < 0x2000_0000,
    ensures
        final(buf)@ == old(buf)@ + encoded(
            optional_text(tag as nat, crate::text::optional_view(*value)),
        ),
{
    if let Some(s) = value {
        put_bytes(tag, s.as_str().as_bytes(), buf);
    }
}

/// Appends a field of text for each string.
pub fn put_repeated_text(tag: u32, values: &Vec<String>, buf: &mut Vec<u8>)
    requires
        tag < 0x2000_0000,
    ensures
        final(buf)@ == old(buf)@ + encoded(
            repeated_text(tag as nat, crate::text::views(values@)),
        ),
{
    let ghost all = crate::text::views(values@);
    let ghost start = buf@;
    let mut i: usize = 0;
    assert(repeated_text(tag as nat, all.take(0)) =~= Seq::<WireField>::empty());
    while i < values.len()
        invariant
            i <= values.len(),
            tag < 0x2000_0000,
            all == crate::text::views(values@),
            buf@ == start + encoded(repeated_text(tag as nat, all.take(i as int))),
        decreases values.len() - i,
    {
        let ghost done = repeated_text(tag as nat, all.take(i as int));
        let ghost next = WireField::bytes(tag as nat, vstd::utf8::encode_utf8(all[i as int]));
        put_bytes(tag, values[i].as_str().as_bytes(), buf);
        proof {
            lemma_encoded_concat(done, seq![next]);
        }
        assert(repeated_text(tag as nat, all.take(i + 1)) =~= done + seq![next]);
        assert(buf@ =~= start + encoded(done + seq![next]));
        i = i + 1;
    }
    assert(all.take(i as int) =~= all);
}

} // verus!
