//! How a reader takes a protobuf message apart, and that it gets back what was
//! encoded.

use vstd::prelude::*;

use crate::wire;

verus! {

/// The integer at the front of `b` and the bytes behind it.
pub open spec fn read_varint(b: Seq<u8>) -> Option<(nat, Seq<u8>)>
    decreases b.len(),
{
    if b.len() == 0 {
        None
    } else if b[0] < 128 {
        Some((b[0] as nat, b.drop_first()))
    } else {
        match read_varint(b.drop_first()) {
            Some((n, rest)) => Some((n * 128 + (b[0] - 128) as nat, rest)),
            None => None,
        }
    }
}

/// The number whose bytes are `b`, least significant first.
pub open spec fn read_little_endian(b: Seq<u8>) -> nat
    decreases b.len(),
{
    if b.len() == 0 {
        0
    } else {
        b[0] as nat + 256 * read_little_endian(b.drop_first())
    }
}

/// The field at the front of `b` and the bytes behind it.
pub open spec fn read_field(b: Seq<u8>) -> Option<(wire::WireField, Seq<u8>)> {
    match read_varint(b) {
        None => None,
        Some((key, body)) => {
            let tag = key / 8;
            if key % 8 == 0 {
                match read_varint(body) {
                    Some((n, rest)) => Some((wire::WireField::varint(tag, n), rest)),
                    None => None,
                }
            } else if key % 8 == 1 {
                if body.len() < 8 {
                    None
                } else {
                    Some(
                        (
                            wire::WireField::fixed64(tag, read_little_endian(body.take(8))),
                            body.skip(8),
                        ),
                    )
                }
            } else if key % 8 == 2 {
                match read_varint(body) {
                    Some((len, rest)) => if rest.len() < len {
                        None
                    } else {
                        Some(
                            (
                                wire::WireField::bytes(tag, rest.take(len as int)),
                                rest.skip(len as int),
                            ),
                        )
                    },
                    None => None,
                }
            } else {
                None
            }
        },
    }
}

/// The fields of a message.
pub open spec fn read_fields(b: Seq<u8>) -> Option<Seq<wire::WireField>>
    decreases b.len(),
{
    if b.len() == 0 {
        Some(seq![])
    } else {
        match read_field(b) {
            Some((field, rest)) => if rest.len() < b.len() {
                match read_fields(rest) {
                    Some(fields) => Some(seq![field] + fields),
                    None => None,
                }
            } else {
                None
            },
            None => None,
        }
    }
}

/// Whether the field can be written: a fixed-size number has to fit its bytes.
pub open spec fn writable(f: wire::WireField) -> bool {
    match f.value {
        wire::WireValue::Fixed64(n) => n < 0x1_0000_0000_0000_0000,
        _ => true,
    }
}

/// Whether every field can be written.
pub open spec fn all_writable(fields: Seq<wire::WireField>) -> bool {
    forall|i: int| 0 <= i < fields.len() ==> writable(#[trigger] fields[i])
}

pub broadcast proof fn lemma_all_writable_concat(a: Seq<wire::WireField>, b: Seq<wire::WireField>)
    ensures
        #[trigger] all_writable(a + b) == (all_writable(a) && all_writable(b)),
{
    if all_writable(a + b) {
        assert forall|i: int| 0 <= i < a.len() implies writable(#[trigger] a[i]) by {
            assert((a + b)[i] == a[i]);
        }
        assert forall|i: int| 0 <= i < b.len() implies writable(#[trigger] b[i]) by {
            assert((a + b)[a.len() + i] == b[i]);
        }
    }
}

pub proof fn lemma_read_varint(n: nat, rest: Seq<u8>)
    ensures
        read_varint(wire::varint(n) + rest) == Some((n, rest)),
        wire::varint(n).len() > 0,
    decreases n,
{
    let b = wire::varint(n) + rest;
    if n < 128 {
        assert(b.drop_first() =~= rest);
    } else {
        lemma_read_varint(n / 128, rest);
        assert(b.drop_first() =~= wire::varint(n / 128) + rest);
        assert(b[0] == (n % 128 + 128) as u8);
    }
}

proof fn lemma_read_little_endian(n: nat, k: nat, bound: nat)
    requires
        n < bound,
        bound == vstd::arithmetic::power::pow(256, k),
    ensures
        wire::little_endian(n, k).len() == k,
        read_little_endian(wire::little_endian(n, k)) == n,
    decreases k,
{
    reveal(vstd::arithmetic::power::pow);
    if k > 0 {
        let smaller = vstd::arithmetic::power::pow(256, (k - 1) as nat);
        vstd::arithmetic::power::lemma_pow_positive(256, (k - 1) as nat);
        assert(bound == 256 * smaller);
        lemma_read_little_endian(n / 256, (k - 1) as nat, smaller as nat);
        assert(wire::little_endian(n, k).drop_first() =~= wire::little_endian(
            n / 256,
            (k - 1) as nat,
        ));
    }
}

/// Reading a written field gives the field back and leaves what follows it.
pub proof fn lemma_read_field(f: wire::WireField, rest: Seq<u8>)
    requires
        writable(f),
    ensures
        read_field(f.encoded() + rest) == Some((f, rest)),
        f.encoded().len() > 0,
{
    let b = f.encoded() + rest;
    let body = f.payload() + rest;
    lemma_read_varint(f.key(), body);
    assert(b =~= wire::varint(f.key()) + body);
    assert(f.key() / 8 == f.tag);
    match f.value {
        wire::WireValue::Varint(n) => {
            lemma_read_varint(n, rest);
        },
        wire::WireValue::Fixed64(n) => {
            assert(vstd::arithmetic::power::pow(256, 8) == 0x1_0000_0000_0000_0000) by {
                reveal(vstd::arithmetic::power::pow);
                reveal_with_fuel(vstd::arithmetic::power::pow, 9);
            }
            lemma_read_little_endian(n, 8, 0x1_0000_0000_0000_0000);
            assert(body.take(8) =~= f.payload());
            assert(body.skip(8) =~= rest);
        },
        wire::WireValue::Bytes(p) => {
            lemma_read_varint(p.len(), p + rest);
            assert(body =~= wire::varint(p.len()) + (p + rest));
            assert((p + rest).take(p.len() as int) =~= p);
            assert((p + rest).skip(p.len() as int) =~= rest);
        },
    }
}

/// Reading a written message gives its fields back.
#[verifier::rlimit(40)]
pub proof fn law_fields_read_back(fields: Seq<wire::WireField>)
    requires
        all_writable(fields),
    ensures
        read_fields(wire::encoded(fields)) == Some(fields),
    decreases fields.len(),
{
    if fields.len() > 0 {
        let rest = fields.drop_first();
        assert(all_writable(rest)) by {
            assert forall|i: int| 0 <= i < rest.len() implies writable(#[trigger] rest[i]) by {
                assert(rest[i] == fields[i + 1]);
            }
        }
        law_fields_read_back(rest);
        let tail = wire::encoded(rest);
        let all = wire::encoded(fields);
        lemma_read_field(fields[0], tail);
        assert(all == fields[0].encoded() + tail);
        lemma_one_more_field(all, fields[0], tail, rest);
        assert(seq![fields[0]] + rest =~= fields);
    }
}

proof fn lemma_one_more_field(
    b: Seq<u8>,
    field: wire::WireField,
    rest: Seq<u8>,
    fields: Seq<wire::WireField>,
)
    requires
        rest.len() < b.len(),
        read_field(b) == Some((field, rest)),
        read_fields(rest) == Some(fields),
    ensures
        read_fields(b) == Some(seq![field] + fields),
{
}

/// The value of the last field with the given tag.
pub open spec fn last_value(fields: Seq<wire::WireField>, tag: nat) -> Option<wire::WireValue>
    decreases fields.len(),
{
    if fields.len() == 0 {
        None
    } else if fields.last().tag == tag {
        Some(fields.last().value)
    } else {
        last_value(fields.drop_last(), tag)
    }
}

/// The values of the fields with the given tag, in order.
pub open spec fn all_values(fields: Seq<wire::WireField>, tag: nat) -> Seq<wire::WireValue>
    decreases fields.len(),
{
    if fields.len() == 0 {
        seq![]
    } else if fields.last().tag == tag {
        all_values(fields.drop_last(), tag).push(fields.last().value)
    } else {
        all_values(fields.drop_last(), tag)
    }
}

pub broadcast proof fn lemma_last_value_concat(
    a: Seq<wire::WireField>,
    b: Seq<wire::WireField>,
    tag: nat,
)
    ensures
        #[trigger] last_value(a + b, tag) == match last_value(b, tag) {
            Some(v) => Some(v),
            None => last_value(a, tag),
        },
    decreases b.len(),
{
    if b.len() == 0 {
        assert(a + b =~= a);
    } else {
        assert((a + b).drop_last() =~= a + b.drop_last());
        lemma_last_value_concat(a, b.drop_last(), tag);
    }
}

pub broadcast proof fn lemma_all_values_concat(
    a: Seq<wire::WireField>,
    b: Seq<wire::WireField>,
    tag: nat,
)
    ensures
        #[trigger] all_values(a + b, tag) == all_values(a, tag) + all_values(b, tag),
    decreases b.len(),
{
    if b.len() == 0 {
        assert(a + b =~= a);
        assert(all_values(a, tag) + all_values(b, tag) =~= all_values(a, tag));
    } else {
        assert((a + b).drop_last() =~= a + b.drop_last());
        lemma_all_values_concat(a, b.drop_last(), tag);
        assert(all_values(a + b, tag) =~= all_values(a, tag) + all_values(b, tag));
    }
}

pub broadcast proof fn lemma_one_field(f: wire::WireField, tag: nat)
    ensures
        #[trigger] last_value(seq![f], tag) == if f.tag == tag {
            Some(f.value)
        } else {
            None
        },
{
    reveal_with_fuel(last_value, 2);
    assert(seq![f].drop_last() =~= Seq::<wire::WireField>::empty());
}

pub broadcast proof fn lemma_optional_uint(own: nat, v: Option<u64>, tag: nat)
    ensures
        #[trigger] last_value(wire::optional_uint(own, v), tag) == if own != tag {
            None
        } else {
            match v {
                Some(n) => Some(wire::WireValue::Varint(n as nat)),
                None => None,
            }
        },
{
    if let Some(n) = v {
        lemma_one_field(wire::WireField::varint(own, n as nat), tag);
    }
}

pub broadcast proof fn lemma_optional_message(
    own: nat,
    v: Option<Seq<wire::WireField>>,
    tag: nat,
)
    ensures
        #[trigger] last_value(wire::optional_message(own, v), tag) == if own != tag {
            None
        } else {
            match v {
                Some(fields) => Some(wire::WireValue::Bytes(wire::encoded(fields))),
                None => None,
            }
        },
{
    if let Some(fields) = v {
        lemma_one_field(wire::WireField::bytes(own, wire::encoded(fields)), tag);
    }
}

pub broadcast proof fn lemma_one_field_values(f: wire::WireField, tag: nat)
    ensures
        #[trigger] all_values(seq![f], tag) == if f.tag == tag {
            seq![f.value]
        } else {
            seq![]
        },
{
    reveal_with_fuel(all_values, 2);
    assert(seq![f].drop_last() =~= Seq::<wire::WireField>::empty());
    assert(all_values(seq![f], tag) =~= if f.tag == tag {
        seq![f.value]
    } else {
        seq![]
    });
}

/// Fields that all have one tag.
pub proof fn lemma_values_of_one_tag(fields: Seq<wire::WireField>, own: nat, tag: nat)
    requires
        forall|i: int| 0 <= i < fields.len() ==> (#[trigger] fields[i]).tag == own,
    ensures
        own != tag ==> last_value(fields, tag) is None,
        own != tag ==> all_values(fields, tag) == Seq::<wire::WireValue>::empty(),
        own == tag ==> all_values(fields, tag) == fields.map_values(
            |f: wire::WireField| f.value,
        ),
    decreases fields.len(),
{
    if fields.len() > 0 {
        let init = fields.drop_last();
        assert forall|i: int| 0 <= i < init.len() implies (#[trigger] init[i]).tag == own by {
            assert(init[i] == fields[i]);
        }
        lemma_values_of_one_tag(init, own, tag);
        assert(fields.last() == fields[fields.len() - 1]);
        if own == tag {
            assert(all_values(fields, tag) =~= fields.map_values(|f: wire::WireField| f.value));
        }
    } else {
        assert(all_values(fields, tag) =~= fields.map_values(|f: wire::WireField| f.value));
    }
}

/// An unsigned number.
pub open spec fn as_uint(v: Option<wire::WireValue>) -> Option<u64> {
    match v {
        Some(wire::WireValue::Varint(n)) => Some(n as u64),
        _ => None,
    }
}

/// A signed number, from its two's complement pattern.
pub open spec fn as_int(v: Option<wire::WireValue>) -> Option<i64> {
    match v {
        Some(wire::WireValue::Varint(n)) => Some(
            if n < 0x8000_0000_0000_0000 {
                n as i64
            } else {
                (n - 0x1_0000_0000_0000_0000) as i64
            },
        ),
        _ => None,
    }
}

/// A number of eight bytes.
pub open spec fn as_fixed64(v: Option<wire::WireValue>) -> Option<u64> {
    match v {
        Some(wire::WireValue::Fixed64(n)) => Some(n as u64),
        _ => None,
    }
}

/// The text that a value holds.
pub open spec fn value_text(v: wire::WireValue) -> Seq<char> {
    match v {
        wire::WireValue::Bytes(b) => vstd::utf8::decode_utf8(b),
        _ => seq![],
    }
}

/// A text.
pub open spec fn as_text(v: Option<wire::WireValue>) -> Option<Seq<char>> {
    match v {
        Some(w) => Some(value_text(w)),
        None => None,
    }
}

/// The fields of the message that a value holds.
pub open spec fn value_fields(v: wire::WireValue) -> Seq<wire::WireField> {
    match v {
        wire::WireValue::Bytes(b) => match read_fields(b) {
            Some(fields) => fields,
            None => seq![],
        },
        _ => seq![],
    }
}

pub broadcast proof fn lemma_text_value(s: Seq<char>)
    ensures
        #[trigger] value_text(wire::WireValue::Bytes(vstd::utf8::encode_utf8(s))) == s,
{
    broadcast use vstd::utf8::encode_utf8_decode_utf8;

}

pub broadcast proof fn lemma_message_value(fields: Seq<wire::WireField>)
    requires
        all_writable(fields),
    ensures
        #[trigger] value_fields(wire::WireValue::Bytes(wire::encoded(fields))) == fields,
{
    law_fields_read_back(fields);
}

pub proof fn lemma_repeated_text(tag: nat, texts: Seq<Seq<char>>, other: nat)
    ensures
        tag != other ==> last_value(wire::repeated_text(tag, texts), other) is None,
        tag != other ==> all_values(wire::repeated_text(tag, texts), other) == Seq::<
            wire::WireValue,
        >::empty(),
        all_values(wire::repeated_text(tag, texts), tag).map_values(
            |v: wire::WireValue| value_text(v),
        ) == texts,
{
    broadcast use lemma_text_value;

    let fields = wire::repeated_text(tag, texts);
    lemma_values_of_one_tag(fields, tag, other);
    lemma_values_of_one_tag(fields, tag, tag);
    assert(all_values(fields, tag).map_values(|v: wire::WireValue| value_text(v)) =~= texts);
}

pub proof fn lemma_repeated_message(tag: nat, messages: Seq<Seq<wire::WireField>>, other: nat)
    requires
        forall|i: int| 0 <= i < messages.len() ==> all_writable(#[trigger] messages[i]),
    ensures
        tag != other ==> last_value(wire::repeated_message(tag, messages), other) is None,
        tag != other ==> all_values(wire::repeated_message(tag, messages), other) == Seq::<
            wire::WireValue,
        >::empty(),
        all_values(wire::repeated_message(tag, messages), tag).map_values(
            |v: wire::WireValue| value_fields(v),
        ) == messages,
{
    broadcast use lemma_message_value;

    let fields = wire::repeated_message(tag, messages);
    lemma_values_of_one_tag(fields, tag, other);
    lemma_values_of_one_tag(fields, tag, tag);
    let back = all_values(fields, tag).map_values(|v: wire::WireValue| value_fields(v));
    assert forall|i: int| 0 <= i < messages.len() implies back[i] == messages[i] by {
        assert(all_writable(messages[i]));
        assert(fields[i].value == wire::WireValue::Bytes(wire::encoded(messages[i])));
    }
    assert(back =~= messages);
}

} // verus!
