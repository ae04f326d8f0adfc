//! The wire codec: a self-describing, tagged binary encoding of value trees
//! and protocol messages, plus the length frame around each message.
//!
//! Every construct is written with its MessagePack format tag: nil, the two
//! booleans, 64-bit signed integers, 64-bit floats, and the 32-bit-length
//! forms of strings, binaries, arrays and maps. The encoder always emits the
//! 32-bit length forms, so the encoding of a value is unique, and decoding an
//! encoded value returns it unchanged — proved below as the round-trip law.
//!
//! A frame is a 4-byte big-endian payload length followed by the payload.

use vstd::prelude::*;

use crate::protocol::{Message, SpecMessage, SpecValue, Value};
use crate::resources::{ResourceCapabilities, ResourceRequirements};

verus! {

broadcast use
    vstd::seq::axiom_seq_index_decreases,
    vstd::std_specs::vec::axiom_vec_index_decreases,
    vstd::std_specs::vec::axiom_vec_decreases_to_view;

/// Format tag of nil.
pub const TAG_NIL: u8 = 0xc0;

/// Format tag of `false`.
pub const TAG_FALSE: u8 = 0xc2;

/// Format tag of `true`.
pub const TAG_TRUE: u8 = 0xc3;

/// Format tag of a binary blob with a 32-bit length.
pub const TAG_BIN32: u8 = 0xc6;

/// Format tag of a 64-bit float.
pub const TAG_FLOAT64: u8 = 0xcb;

/// Format tag of a 64-bit signed integer.
pub const TAG_INT64: u8 = 0xd3;

/// Format tag of a string with a 32-bit length.
pub const TAG_STR32: u8 = 0xdb;

/// Format tag of an array with a 32-bit count.
pub const TAG_ARRAY32: u8 = 0xdd;

/// Format tag of a map with a 32-bit count.
pub const TAG_MAP32: u8 = 0xdf;

/// Largest length or count the 32-bit forms can carry.
pub const LEN32_MAX: usize = 0xffff_ffff;

/// The four big-endian bytes of a 32-bit value.
pub open spec fn spec_be32(n: u32) -> Seq<u8> {
    seq![
        (n >> 24) as u8,
        ((n >> 16) & 0xff) as u8,
        ((n >> 8) & 0xff) as u8,
        (n & 0xff) as u8,
    ]
}

/// The 32-bit value of four big-endian bytes.
pub open spec fn spec_be32_val(b0: u8, b1: u8, b2: u8, b3: u8) -> u32 {
    (((b0 as u32) << 24) | ((b1 as u32) << 16) | ((b2 as u32) << 8) | (b3 as u32)) as u32
}

/// Reading back the four big-endian bytes of a value gives the value.
pub proof fn lemma_be32_roundtrip(n: u32)
    ensures
        spec_be32(n).len() == 4,
        spec_be32_val(spec_be32(n)[0], spec_be32(n)[1], spec_be32(n)[2], spec_be32(n)[3]) == n,
{
    assert(spec_be32_val(
        (n >> 24) as u8,
        ((n >> 16) & 0xff) as u8,
        ((n >> 8) & 0xff) as u8,
        (n & 0xff) as u8,
    ) == n) by (bit_vector);
}

/// The eight big-endian bytes of a 64-bit value.
pub open spec fn spec_be64(n: u64) -> Seq<u8> {
    seq![
        (n >> 56) as u8,
        ((n >> 48) & 0xff) as u8,
        ((n >> 40) & 0xff) as u8,
        ((n >> 32) & 0xff) as u8,
        ((n >> 24) & 0xff) as u8,
        ((n >> 16) & 0xff) as u8,
        ((n >> 8) & 0xff) as u8,
        (n & 0xff) as u8,
    ]
}

/// The 64-bit value of eight big-endian bytes.
pub open spec fn spec_be64_val(
    b0: u8,
    b1: u8,
    b2: u8,
    b3: u8,
    b4: u8,
    b5: u8,
    b6: u8,
    b7: u8,
) -> u64 {
    (((b0 as u64) << 56) | ((b1 as u64) << 48) | ((b2 as u64) << 40) | ((b3 as u64) << 32) | ((
    b4 as u64) << 24) | ((b5 as u64) << 16) | ((b6 as u64) << 8) | (b7 as u64)) as u64
}

/// Reading back the eight big-endian bytes of a value gives the value.
pub proof fn lemma_be64_roundtrip(n: u64)
    ensures
        spec_be64(n).len() == 8,
        spec_be64_val(
            spec_be64(n)[0],
            spec_be64(n)[1],
            spec_be64(n)[2],
            spec_be64(n)[3],
            spec_be64(n)[4],
            spec_be64(n)[5],
            spec_be64(n)[6],
            spec_be64(n)[7],
        ) == n,
{
    assert(spec_be64_val(
        (n >> 56) as u8,
        ((n >> 48) & 0xff) as u8,
        ((n >> 40) & 0xff) as u8,
        ((n >> 32) & 0xff) as u8,
        ((n >> 24) & 0xff) as u8,
        ((n >> 16) & 0xff) as u8,
        ((n >> 8) & 0xff) as u8,
        (n & 0xff) as u8,
    ) == n) by (bit_vector);
}

/// Casting a signed 64-bit value through its unsigned bit pattern gives the
/// value back.
pub proof fn lemma_i64_u64_roundtrip(i: i64)
    ensures
        ((i as u64) as i64) == i,
{
    assert(((i as u64) as i64) == i) by (bit_vector);
}

/// Whether the lengths and counts in a value fit the 32-bit length forms.
pub open spec fn spec_value_fits(v: SpecValue) -> bool
    decreases v,
{
    match v {
        SpecValue::Nil => true,
        SpecValue::Bool(_) => true,
        SpecValue::Int(_) => true,
        SpecValue::Float(_) => true,
        SpecValue::Str(s) => vstd::utf8::encode_utf8(s).len() <= LEN32_MAX,
        SpecValue::Binary(b) => b.len() <= LEN32_MAX,
        SpecValue::Array(items) => items.len() <= LEN32_MAX && spec_values_fit(items),
        SpecValue::Mapping(pairs) => pairs.len() <= LEN32_MAX && spec_pairs_fit(pairs),
    }
}

/// Whether every value of a sequence fits.
pub open spec fn spec_values_fit(items: Seq<SpecValue>) -> bool
    decreases items,
{
    if items.len() == 0 {
        true
    } else {
        proof {
            vstd::seq::axiom_seq_subrange_decreases(items, 0, items.len() - 1);
            vstd::seq::axiom_seq_index_decreases(items, items.len() - 1);
        }
        spec_values_fit(items.drop_last()) && spec_value_fits(items.last())
    }
}

/// Whether every pair of a sequence fits.
pub open spec fn spec_pairs_fit(pairs: Seq<(SpecValue, SpecValue)>) -> bool
    decreases pairs,
{
    if pairs.len() == 0 {
        true
    } else {
        proof {
            vstd::seq::axiom_seq_subrange_decreases(pairs, 0, pairs.len() - 1);
            vstd::seq::axiom_seq_index_decreases(pairs, pairs.len() - 1);
        }
        spec_pairs_fit(pairs.drop_last()) && spec_value_fits(pairs.last().0) && spec_value_fits(
            pairs.last().1,
        )
    }
}

/// The encoding of a value: a format tag, then the big-endian length where
/// the form carries one, then the contents.
pub open spec fn spec_encode_value(v: SpecValue) -> Seq<u8>
    decreases v,
{
    match v {
        SpecValue::Nil => seq![TAG_NIL],
        SpecValue::Bool(b) => if b {
            seq![TAG_TRUE]
        } else {
            seq![TAG_FALSE]
        },
        SpecValue::Int(i) => seq![TAG_INT64] + spec_be64(i as u64),
        SpecValue::Float(bits) => seq![TAG_FLOAT64] + spec_be64(bits),
        SpecValue::Str(s) => {
            let bytes = vstd::utf8::encode_utf8(s);
            seq![TAG_STR32] + spec_be32(bytes.len() as u32) + bytes
        },
        SpecValue::Binary(b) => seq![TAG_BIN32] + spec_be32(b.len() as u32) + b,
        SpecValue::Array(items) => seq![TAG_ARRAY32] + spec_be32(items.len() as u32)
            + spec_encode_values(items),
        SpecValue::Mapping(pairs) => seq![TAG_MAP32] + spec_be32(pairs.len() as u32)
            + spec_encode_pairs(pairs),
    }
}

/// The concatenated encodings of a sequence of values.
pub open spec fn spec_encode_values(items: Seq<SpecValue>) -> Seq<u8>
    decreases items,
{
    if items.len() == 0 {
        Seq::empty()
    } else {
        proof {
            vstd::seq::axiom_seq_subrange_decreases(items, 0, items.len() - 1);
            vstd::seq::axiom_seq_index_decreases(items, items.len() - 1);
        }
        spec_encode_values(items.drop_last()) + spec_encode_value(items.last())
    }
}

/// The concatenated encodings of a sequence of pairs, key before value.
pub open spec fn spec_encode_pairs(pairs: Seq<(SpecValue, SpecValue)>) -> Seq<u8>
    decreases pairs,
{
    if pairs.len() == 0 {
        Seq::empty()
    } else {
        proof {
            vstd::seq::axiom_seq_subrange_decreases(pairs, 0, pairs.len() - 1);
            vstd::seq::axiom_seq_index_decreases(pairs, pairs.len() - 1);
        }
        spec_encode_pairs(pairs.drop_last()) + spec_encode_value(pairs.last().0)
            + spec_encode_value(pairs.last().1)
    }
}

/// Append the four big-endian bytes of `n`.
fn push_be32(out: &mut Vec<u8>, n: u32)
    ensures
        final(out)@ == old(out)@ + spec_be32(n),
{
    out.push((n >> 24) as u8);
    out.push(((n >> 16) & 0xff) as u8);
    out.push(((n >> 8) & 0xff) as u8);
    out.push((n & 0xff) as u8);
    proof {
        assert(final(out)@ =~= old(out)@ + spec_be32(n));
    }
}

/// Append the eight big-endian bytes of `n`.
fn push_be64(out: &mut Vec<u8>, n: u64)
    ensures
        final(out)@ == old(out)@ + spec_be64(n),
{
    out.push((n >> 56) as u8);
    out.push(((n >> 48) & 0xff) as u8);
    out.push(((n >> 40) & 0xff) as u8);
    out.push(((n >> 32) & 0xff) as u8);
    out.push(((n >> 24) & 0xff) as u8);
    out.push(((n >> 16) & 0xff) as u8);
    out.push(((n >> 8) & 0xff) as u8);
    out.push((n & 0xff) as u8);
    proof {
        assert(final(out)@ =~= old(out)@ + spec_be64(n));
    }
}

/// Append a byte slice.
fn push_bytes(out: &mut Vec<u8>, bytes: &[u8])
    ensures
        final(out)@ == old(out)@ + bytes@,
{
    let mut i: usize = 0;
    while i < bytes.len()
        invariant
            i <= bytes@.len(),
            out@ == old(out)@ + bytes@.take(i as int),
        decreases bytes@.len() - i,
    {
        out.push(bytes[i]);
        proof {
            assert(old(out)@ + bytes@.take(i as int) + seq![bytes@[i as int]] =~= old(out)@
                + bytes@.take(i + 1));
        }
        i = i + 1;
    }
    proof {
        assert(bytes@.take(bytes@.len() as int) =~= bytes@);
    }
}

/// A sequence of values fits exactly when each element fits.
pub proof fn lemma_values_fit_pointwise(items: Seq<SpecValue>)
    ensures
        spec_values_fit(items) <==> (forall|i: int|
            0 <= i < items.len() ==> spec_value_fits(#[trigger] items[i])),
    decreases items.len(),
{
    if items.len() > 0 {
        lemma_values_fit_pointwise(items.drop_last());
        if spec_values_fit(items.drop_last()) && spec_value_fits(items.last()) {
            assert forall|i: int| 0 <= i < items.len() implies spec_value_fits(
                #[trigger] items[i],
            ) by {
                if i < items.len() - 1 {
                    assert(items.drop_last()[i] == items[i]);
                }
            }
        }
        if forall|i: int| 0 <= i < items.len() ==> spec_value_fits(#[trigger] items[i]) {
            assert forall|i: int| 0 <= i < items.drop_last().len() implies spec_value_fits(
                #[trigger] items.drop_last()[i],
            ) by {
                assert(items.drop_last()[i] == items[i]);
            }
        }
    }
}

/// A sequence of pairs fits exactly when each key and value fits.
pub proof fn lemma_pairs_fit_pointwise(pairs: Seq<(SpecValue, SpecValue)>)
    ensures
        spec_pairs_fit(pairs) <==> (forall|i: int|
            0 <= i < pairs.len() ==> spec_value_fits((#[trigger] pairs[i]).0) && spec_value_fits(
                pairs[i].1,
            )),
    decreases pairs.len(),
{
    if pairs.len() > 0 {
        lemma_pairs_fit_pointwise(pairs.drop_last());
        if spec_pairs_fit(pairs.drop_last()) && spec_value_fits(pairs.last().0)
            && spec_value_fits(pairs.last().1) {
            assert forall|i: int| 0 <= i < pairs.len() implies spec_value_fits(
                (#[trigger] pairs[i]).0,
            ) && spec_value_fits(pairs[i].1) by {
                if i < pairs.len() - 1 {
                    assert(pairs.drop_last()[i] == pairs[i]);
                }
            }
        }
        if forall|i: int| 0 <= i < pairs.len() ==> spec_value_fits((#[trigger] pairs[i]).0)
            && spec_value_fits(pairs[i].1) {
            assert forall|i: int| 0 <= i < pairs.drop_last().len() implies spec_value_fits(
                (#[trigger] pairs.drop_last()[i]).0,
            ) && spec_value_fits(pairs.drop_last()[i].1) by {
                assert(pairs.drop_last()[i] == pairs[i]);
            }
        }
    }
}

/// Whether a value's lengths and counts fit the 32-bit length forms.
#[verifier::loop_isolation(false)]
pub fn value_fits(v: &Value) -> (r: bool)
    ensures
        r == spec_value_fits(v@),
    decreases v,
{
    match v {
        Value::Nil => true,
        Value::Bool(_) => true,
        Value::Int(_) => true,
        Value::Float(_) => true,
        Value::Str(s) => {
            let bytes = s.as_str().as_bytes();
            bytes.len() <= LEN32_MAX
        },
        Value::Binary(b) => b.len() <= LEN32_MAX,
        Value::Array(items) => {
            proof {
                crate::protocol::lemma_value_seq_view_len(items@);
            }
            if items.len() > LEN32_MAX {
                return false;
            }
            let ghost views = crate::protocol::spec_value_seq_view(items@);
            let mut i: usize = 0;
            while i < items.len()
                invariant
                    i <= items@.len(),
                    forall|j: int| 0 <= j < i ==> spec_value_fits(#[trigger] views[j]),
                decreases items@.len() - i,
            {
                proof {
                    crate::protocol::lemma_value_seq_view_index(items@, i as int);
                }
                if !value_fits(&items[i]) {
                    proof {
                        crate::protocol::lemma_value_seq_view_len(items@);
                        lemma_values_fit_pointwise(views);
                    }
                    return false;
                }
                i = i + 1;
            }
            proof {
                crate::protocol::lemma_value_seq_view_len(items@);
                lemma_values_fit_pointwise(views);
            }
            true
        },
        Value::Mapping(pairs) => {
            proof {
                crate::protocol::lemma_pair_seq_view_len(pairs@);
            }
            if pairs.len() > LEN32_MAX {
                return false;
            }
            let ghost views = crate::protocol::spec_pair_seq_view(pairs@);
            let mut i: usize = 0;
            while i < pairs.len()
                invariant
                    i <= pairs@.len(),
                    forall|j: int| 0 <= j < i ==> spec_value_fits((#[trigger] views[j]).0)
                        && spec_value_fits(views[j].1),
                decreases pairs@.len() - i,
            {
                proof {
                    crate::protocol::lemma_pair_seq_view_index(pairs@, i as int);
                }
                if !value_fits(&pairs[i].0) {
                    proof {
                        crate::protocol::lemma_pair_seq_view_len(pairs@);
                        lemma_pairs_fit_pointwise(views);
                    }
                    return false;
                }
                if !value_fits(&pairs[i].1) {
                    proof {
                        crate::protocol::lemma_pair_seq_view_len(pairs@);
                        lemma_pairs_fit_pointwise(views);
                    }
                    return false;
                }
                i = i + 1;
            }
            proof {
                crate::protocol::lemma_pair_seq_view_len(pairs@);
                lemma_pairs_fit_pointwise(views);
            }
            true
        },
    }
}

/// Append the encoding of a value.
#[verifier::loop_isolation(false)]
#[verifier::rlimit(60)]
pub fn encode_value(v: &Value, out: &mut Vec<u8>)
    requires
        spec_value_fits(v@),
    ensures
        final(out)@ == old(out)@ + spec_encode_value(v@),
    decreases v,
{
    match v {
        Value::Nil => {
            out.push(TAG_NIL);
            proof {
                assert(final(out)@ =~= old(out)@ + spec_encode_value(v@));
            }
        },
        Value::Bool(b) => {
            out.push(if *b {
                TAG_TRUE
            } else {
                TAG_FALSE
            });
            proof {
                assert(final(out)@ =~= old(out)@ + spec_encode_value(v@));
            }
        },
        Value::Int(i) => {
            out.push(TAG_INT64);
            push_be64(out, *i as u64);
            proof {
                assert(final(out)@ =~= old(out)@ + spec_encode_value(v@));
            }
        },
        Value::Float(bits) => {
            out.push(TAG_FLOAT64);
            push_be64(out, *bits);
            proof {
                assert(final(out)@ =~= old(out)@ + spec_encode_value(v@));
            }
        },
        Value::Str(s) => {
            let bytes = s.as_str().as_bytes();
            out.push(TAG_STR32);
            push_be32(out, bytes.len() as u32);
            push_bytes(out, bytes);
            proof {
                assert(final(out)@ =~= old(out)@ + spec_encode_value(v@));
            }
        },
        Value::Binary(b) => {
            out.push(TAG_BIN32);
            push_be32(out, b.len() as u32);
            push_bytes(out, b.as_slice());
            proof {
                assert(final(out)@ =~= old(out)@ + spec_encode_value(v@));
            }
        },
        Value::Array(items) => {
            let ghost views = crate::protocol::spec_value_seq_view(items@);
            proof {
                crate::protocol::lemma_value_seq_view_len(items@);
            }
            out.push(TAG_ARRAY32);
            push_be32(out, items.len() as u32);
            let ghost header_done = out@;
            let mut i: usize = 0;
            while i < items.len()
                invariant
                    i <= items@.len(),
                    spec_values_fit(views),
                    out@ == header_done + spec_encode_values(views.take(i as int)),
                decreases items@.len() - i,
            {
                proof {
                    crate::protocol::lemma_value_seq_view_index(items@, i as int);
                    lemma_values_fit_pointwise(views);
                    lemma_encode_values_take_step(views, i as int);
                }
                encode_value(&items[i], out);
                i = i + 1;
            }
            proof {
                assert(views.take(views.len() as int) =~= views);
                assert(final(out)@ =~= old(out)@ + spec_encode_value(v@));
            }
        },
        Value::Mapping(pairs) => {
            let ghost views = crate::protocol::spec_pair_seq_view(pairs@);
            proof {
                crate::protocol::lemma_pair_seq_view_len(pairs@);
            }
            out.push(TAG_MAP32);
            push_be32(out, pairs.len() as u32);
            let ghost header_done = out@;
            let mut i: usize = 0;
            while i < pairs.len()
                invariant
                    i <= pairs@.len(),
                    spec_pairs_fit(views),
                    out@ == header_done + spec_encode_pairs(views.take(i as int)),
                decreases pairs@.len() - i,
            {
                proof {
                    crate::protocol::lemma_pair_seq_view_index(pairs@, i as int);
                    lemma_pairs_fit_pointwise(views);
                    lemma_encode_pairs_take_step(views, i as int);
                }
                encode_value(&pairs[i].0, out);
                encode_value(&pairs[i].1, out);
                i = i + 1;
            }
            proof {
                assert(views.take(views.len() as int) =~= views);
                assert(final(out)@ =~= old(out)@ + spec_encode_value(v@));
            }
        },
    }
}

/// One more element extends the concatenated encodings by that element's
/// encoding.
pub proof fn lemma_encode_values_take_step(items: Seq<SpecValue>, i: int)
    requires
        0 <= i < items.len(),
    ensures
        spec_encode_values(items.take(i + 1)) == spec_encode_values(items.take(i))
            + spec_encode_value(items[i]),
{
    assert(items.take(i + 1).drop_last() =~= items.take(i));
    assert(items.take(i + 1).last() == items[i]);
}

/// One more pair extends the concatenated encodings by that pair's encoding.
pub proof fn lemma_encode_pairs_take_step(pairs: Seq<(SpecValue, SpecValue)>, i: int)
    requires
        0 <= i < pairs.len(),
    ensures
        spec_encode_pairs(pairs.take(i + 1)) == spec_encode_pairs(pairs.take(i))
            + spec_encode_value(pairs[i].0) + spec_encode_value(pairs[i].1),
{
    assert(pairs.take(i + 1).drop_last() =~= pairs.take(i));
    assert(pairs.take(i + 1).last() == pairs[i]);
}

/// Why a byte sequence cannot be decoded.
#[derive(Clone, Copy, Debug, PartialEq, Eq, Structural)]
pub enum DecodeError {
    /// The input ends before the construct it announces.
    Truncated,
    /// The leading byte is not a tag this codec emits.
    UnknownTag,
    /// A string's bytes are not valid UTF-8.
    InvalidUtf8,
    /// Bytes follow the decoded message.
    TrailingBytes,
    /// The decoded value is not the shape of any message variant.
    MalformedMessage,
}

/// The value decoded from the front of `s`, with the count of bytes it took,
/// or nothing when `s` does not begin with a well-formed encoding.
pub open spec fn spec_decode_value(s: Seq<u8>) -> Option<(SpecValue, int)>
    decreases s.len(), 0int,
{
    if s.len() < 1 {
        None
    } else {
        let tag = s[0];
        if tag == TAG_NIL {
            Some((SpecValue::Nil, 1))
        } else if tag == TAG_FALSE {
            Some((SpecValue::Bool(false), 1))
        } else if tag == TAG_TRUE {
            Some((SpecValue::Bool(true), 1))
        } else if tag == TAG_INT64 {
            if s.len() >= 9 {
                Some(
                    (
                        SpecValue::Int(
                            spec_be64_val(
                                s[1],
                                s[2],
                                s[3],
                                s[4],
                                s[5],
                                s[6],
                                s[7],
                                s[8],
                            ) as i64,
                        ),
                        9,
                    ),
                )
            } else {
                None
            }
        } else if tag == TAG_FLOAT64 {
            if s.len() >= 9 {
                Some(
                    (
                        SpecValue::Float(
                            spec_be64_val(s[1], s[2], s[3], s[4], s[5], s[6], s[7], s[8]),
                        ),
                        9,
                    ),
                )
            } else {
                None
            }
        } else if tag == TAG_STR32 {
            if s.len() >= 5 {
                let n = spec_be32_val(s[1], s[2], s[3], s[4]) as int;
                if s.len() >= 5 + n {
                    let bytes = s.subrange(5, 5 + n);
                    if vstd::utf8::valid_utf8(bytes) {
                        Some((SpecValue::Str(vstd::utf8::decode_utf8(bytes)), 5 + n))
                    } else {
                        None
                    }
                } else {
                    None
                }
            } else {
                None
            }
        } else if tag == TAG_BIN32 {
            if s.len() >= 5 {
                let n = spec_be32_val(s[1], s[2], s[3], s[4]) as int;
                if s.len() >= 5 + n {
                    Some((SpecValue::Binary(s.subrange(5, 5 + n)), 5 + n))
                } else {
                    None
                }
            } else {
                None
            }
        } else if tag == TAG_ARRAY32 {
            if s.len() >= 5 {
                let n = spec_be32_val(s[1], s[2], s[3], s[4]) as int;
                match spec_decode_values(s.skip(5), n) {
                    Some((items, used)) => Some((SpecValue::Array(items), 5 + used)),
                    None => None,
                }
            } else {
                None
            }
        } else if tag == TAG_MAP32 {
            if s.len() >= 5 {
                let n = spec_be32_val(s[1], s[2], s[3], s[4]) as int;
                match spec_decode_pairs(s.skip(5), n) {
                    Some((pairs, used)) => Some((SpecValue::Mapping(pairs), 5 + used)),
                    None => None,
                }
            } else {
                None
            }
        } else {
            None
        }
    }
}

/// `n` values decoded from the front of `s`, with the count of bytes taken.
pub open spec fn spec_decode_values(s: Seq<u8>, n: int) -> Option<(Seq<SpecValue>, int)>
    decreases s.len(), n + 1,
{
    if n <= 0 {
        Some((Seq::empty(), 0))
    } else {
        match spec_decode_value(s) {
            Some((v, k)) => if 0 < k <= s.len() {
                match spec_decode_values(s.skip(k), n - 1) {
                    Some((rest, used)) => Some((seq![v] + rest, k + used)),
                    None => None,
                }
            } else {
                None
            },
            None => None,
        }
    }
}

/// `n` key-value pairs decoded from the front of `s`, with the count of bytes
/// taken.
pub open spec fn spec_decode_pairs(s: Seq<u8>, n: int) -> Option<(Seq<(SpecValue, SpecValue)>, int)>
    decreases s.len(), n + 1,
{
    if n <= 0 {
        Some((Seq::empty(), 0))
    } else {
        match spec_decode_value(s) {
            Some((key, k1)) => if 0 < k1 <= s.len() {
                match spec_decode_value(s.skip(k1)) {
                    Some((val, k2)) => if 0 < k2 <= s.len() - k1 {
                        match spec_decode_pairs(s.skip(k1 + k2), n - 1) {
                            Some((rest, used)) => Some(
                                (seq![(key, val)] + rest, k1 + k2 + used),
                            ),
                            None => None,
                        }
                    } else {
                        None
                    },
                    None => None,
                }
            } else {
                None
            },
            None => None,
        }
    }
}

/// Skipping twice is skipping the sum.
pub proof fn lemma_skip_skip(s: Seq<u8>, a: int, b: int)
    requires
        0 <= a,
        0 <= b,
        a + b <= s.len(),
    ensures
        s.skip(a).skip(b) == s.skip(a + b),
{
    assert(s.skip(a).skip(b) =~= s.skip(a + b));
}

/// Relies on String::from_utf8: it returns a string exactly when the bytes
/// are valid UTF-8, and the string's UTF-8 bytes are the input bytes.
#[verifier::external_body]
fn string_from_utf8(bytes: Vec<u8>) -> (r: Option<String>)
    ensures
        match r {
            Some(s) => vstd::utf8::valid_utf8(bytes@) && vstd::utf8::encode_utf8(s@) == bytes@,
            None => !vstd::utf8::valid_utf8(bytes@),
        },
{
    String::from_utf8(bytes).ok()
}

/// Read one byte.
fn read_u8_at(bytes: &Vec<u8>, pos: &mut usize) -> (r: u8)
    requires
        *old(pos) < bytes@.len(),
    ensures
        r == bytes@[*old(pos) as int],
        *final(pos) == *old(pos) + 1,
{
    proof {
        vstd::std_specs::vec::axiom_spec_len(bytes);
    }
    let r = bytes[*pos];
    *pos = *pos + 1;
    r
}

/// Read four big-endian bytes as a 32-bit value.
fn read_be32_at(bytes: &Vec<u8>, pos: &mut usize) -> (r: u32)
    requires
        *old(pos) + 4 <= bytes@.len(),
    ensures
        r == spec_be32_val(
            bytes@[*old(pos) as int],
            bytes@[*old(pos) + 1],
            bytes@[*old(pos) + 2],
            bytes@[*old(pos) + 3],
        ),
        *final(pos) == *old(pos) + 4,
{
    proof {
        vstd::std_specs::vec::axiom_spec_len(bytes);
    }
    let b0 = bytes[*pos];
    let b1 = bytes[*pos + 1];
    let b2 = bytes[*pos + 2];
    let b3 = bytes[*pos + 3];
    *pos = *pos + 4;
    ((b0 as u32) << 24) | ((b1 as u32) << 16) | ((b2 as u32) << 8) | (b3 as u32)
}

/// Read eight big-endian bytes as a 64-bit value.
fn read_be64_at(bytes: &Vec<u8>, pos: &mut usize) -> (r: u64)
    requires
        *old(pos) + 8 <= bytes@.len(),
    ensures
        r == spec_be64_val(
            bytes@[*old(pos) as int],
            bytes@[*old(pos) + 1],
            bytes@[*old(pos) + 2],
            bytes@[*old(pos) + 3],
            bytes@[*old(pos) + 4],
            bytes@[*old(pos) + 5],
            bytes@[*old(pos) + 6],
            bytes@[*old(pos) + 7],
        ),
        *final(pos) == *old(pos) + 8,
{
    proof {
        vstd::std_specs::vec::axiom_spec_len(bytes);
    }
    let b0 = bytes[*pos];
    let b1 = bytes[*pos + 1];
    let b2 = bytes[*pos + 2];
    let b3 = bytes[*pos + 3];
    let b4 = bytes[*pos + 4];
    let b5 = bytes[*pos + 5];
    let b6 = bytes[*pos + 6];
    let b7 = bytes[*pos + 7];
    *pos = *pos + 8;
    ((b0 as u64) << 56) | ((b1 as u64) << 48) | ((b2 as u64) << 40) | ((b3 as u64) << 32) | ((
    b4 as u64) << 24) | ((b5 as u64) << 16) | ((b6 as u64) << 8) | (b7 as u64)
}

/// Copy `n` bytes.
fn copy_bytes_at(bytes: &Vec<u8>, pos: &mut usize, n: usize) -> (r: Vec<u8>)
    requires
        *old(pos) + n <= bytes@.len(),
    ensures
        r@ == bytes@.subrange(*old(pos) as int, *old(pos) + n),
        *final(pos) == *old(pos) + n,
{
    proof {
        vstd::std_specs::vec::axiom_spec_len(bytes);
    }
    let mut r: Vec<u8> = Vec::new();
    let stop = *pos + n;
    while *pos < stop
        invariant
            *old(pos) <= *pos <= stop,
            stop == *old(pos) + n,
            stop <= bytes@.len(),
            r@ == bytes@.subrange(*old(pos) as int, *pos as int),
        decreases stop - *pos,
    {
        r.push(bytes[*pos]);
        proof {
            assert(bytes@.subrange(*old(pos) as int, *pos as int).push(bytes@[*pos as int])
                =~= bytes@.subrange(*old(pos) as int, *pos + 1));
        }
        *pos = *pos + 1;
    }
    r
}

/// A decoded prefix joined with the outcome on the remaining input.
pub open spec fn spec_compose_values(
    prefix: Seq<SpecValue>,
    taken: int,
    rem: Option<(Seq<SpecValue>, int)>,
) -> Option<(Seq<SpecValue>, int)> {
    match rem {
        Some((vs, used)) => Some((prefix + vs, taken + used)),
        None => None,
    }
}

/// A decoded prefix of pairs joined with the outcome on the remaining input.
pub open spec fn spec_compose_pairs(
    prefix: Seq<(SpecValue, SpecValue)>,
    taken: int,
    rem: Option<(Seq<(SpecValue, SpecValue)>, int)>,
) -> Option<(Seq<(SpecValue, SpecValue)>, int)> {
    match rem {
        Some((ps, used)) => Some((prefix + ps, taken + used)),
        None => None,
    }
}

/// Decode one value from `bytes` at `*pos`, advancing `*pos` past it. The
/// result agrees exactly with the ghost decoder on the remaining input: a
/// value comes back precisely when one is encoded there.
pub fn decode_value_at(bytes: &Vec<u8>, pos: &mut usize) -> (r: Result<Value, DecodeError>)
    requires
        *old(pos) <= bytes@.len(),
    ensures
        match r {
            Ok(v) => {
                &&& spec_decode_value(bytes@.skip(*old(pos) as int)) == Some(
                    (v@, *final(pos) - *old(pos)),
                )
                &&& *old(pos) < *final(pos) <= bytes@.len()
            },
            Err(_) => spec_decode_value(bytes@.skip(*old(pos) as int)) is None,
        },
    decreases bytes@.len() - *old(pos), 0int,
{
    proof {
        vstd::std_specs::vec::axiom_spec_len(bytes);
    }
    let len = bytes.len();
    let ghost base = *pos as int;
    let ghost s = bytes@.skip(base);
    if *pos >= len {
        return Err(DecodeError::Truncated);
    }
    let tag = read_u8_at(bytes, pos);
    proof {
        assert(tag == s[0]);
    }
    if tag == TAG_NIL {
        Ok(Value::Nil)
    } else if tag == TAG_FALSE {
        Ok(Value::Bool(false))
    } else if tag == TAG_TRUE {
        Ok(Value::Bool(true))
    } else if tag == TAG_INT64 {
        if len - *pos < 8 {
            return Err(DecodeError::Truncated);
        }
        let x = read_be64_at(bytes, pos);
        proof {
            assert(s.len() >= 9);
            assert(x == spec_be64_val(s[1], s[2], s[3], s[4], s[5], s[6], s[7], s[8]));
        }
        Ok(Value::Int(x as i64))
    } else if tag == TAG_FLOAT64 {
        if len - *pos < 8 {
            return Err(DecodeError::Truncated);
        }
        let x = read_be64_at(bytes, pos);
        proof {
            assert(s.len() >= 9);
            assert(x == spec_be64_val(s[1], s[2], s[3], s[4], s[5], s[6], s[7], s[8]));
        }
        Ok(Value::Float(x))
    } else if tag == TAG_STR32 {
        if len - *pos < 4 {
            return Err(DecodeError::Truncated);
        }
        let l = read_be32_at(bytes, pos);
        proof {
            assert(s.len() >= 5);
            assert(l == spec_be32_val(s[1], s[2], s[3], s[4]));
        }
        let l_us = l as usize;
        if len - *pos < l_us {
            return Err(DecodeError::Truncated);
        }
        let raw = copy_bytes_at(bytes, pos, l_us);
        proof {
            assert(raw@ =~= s.subrange(5, 5 + l as int));
        }
        match string_from_utf8(raw) {
            Some(st) => {
                proof {
                    vstd::utf8::encode_utf8_decode_utf8(st@);
                }
                Ok(Value::Str(st))
            },
            None => Err(DecodeError::InvalidUtf8),
        }
    } else if tag == TAG_BIN32 {
        if len - *pos < 4 {
            return Err(DecodeError::Truncated);
        }
        let l = read_be32_at(bytes, pos);
        proof {
            assert(s.len() >= 5);
            assert(l == spec_be32_val(s[1], s[2], s[3], s[4]));
        }
        let l_us = l as usize;
        if len - *pos < l_us {
            return Err(DecodeError::Truncated);
        }
        let raw = copy_bytes_at(bytes, pos, l_us);
        proof {
            assert(raw@ =~= s.subrange(5, 5 + l as int));
        }
        Ok(Value::Binary(raw))
    } else if tag == TAG_ARRAY32 {
        if len - *pos < 4 {
            return Err(DecodeError::Truncated);
        }
        let c = read_be32_at(bytes, pos);
        proof {
            assert(s.len() >= 5);
            assert(c == spec_be32_val(s[1], s[2], s[3], s[4]));
            lemma_skip_skip(bytes@, base, 5);
        }
        match decode_values_at(bytes, pos, c) {
            Ok(items) => Ok(Value::Array(items)),
            Err(e) => Err(e),
        }
    } else if tag == TAG_MAP32 {
        if len - *pos < 4 {
            return Err(DecodeError::Truncated);
        }
        let c = read_be32_at(bytes, pos);
        proof {
            assert(s.len() >= 5);
            assert(c == spec_be32_val(s[1], s[2], s[3], s[4]));
            lemma_skip_skip(bytes@, base, 5);
        }
        match decode_pairs_at(bytes, pos, c) {
            Ok(pairs) => Ok(Value::Mapping(pairs)),
            Err(e) => Err(e),
        }
    } else {
        Err(DecodeError::UnknownTag)
    }
}

/// Decode `count` values in sequence.
fn decode_values_at(bytes: &Vec<u8>, pos: &mut usize, count: u32) -> (r: Result<
    Vec<Value>,
    DecodeError,
>)
    requires
        *old(pos) <= bytes@.len(),
    ensures
        match r {
            Ok(items) => {
                &&& spec_decode_values(bytes@.skip(*old(pos) as int), count as int) == Some(
                    (crate::protocol::spec_value_seq_view(items@), *final(pos) - *old(pos)),
                )
                &&& *old(pos) <= *final(pos) <= bytes@.len()
            },
            Err(_) => spec_decode_values(bytes@.skip(*old(pos) as int), count as int) is None,
        },
    decreases bytes@.len() - *old(pos), 1int,
{
    proof {
        vstd::std_specs::vec::axiom_spec_len(bytes);
    }
    let ghost base = *pos as int;
    let ghost full = spec_decode_values(bytes@.skip(base), count as int);
    let mut items: Vec<Value> = Vec::new();
    let mut i: u32 = 0;
    while i < count
        invariant
            base <= *pos <= bytes@.len(),
            base == *old(pos),
            i <= count,
            items@.len() == i,
            full == spec_decode_values(bytes@.skip(base), count as int),
            full == spec_compose_values(
                crate::protocol::spec_value_seq_view(items@),
                *pos - base,
                spec_decode_values(bytes@.skip(*pos as int), (count - i) as int),
            ),
        decreases count - i,
    {
        let ghost pre_pos = *pos as int;
        let ghost pre_items = items@;
        match decode_value_at(bytes, pos) {
            Ok(v) => {
                proof {
                    lemma_skip_skip(bytes@, pre_pos, *pos - pre_pos);
                }
                items.push(v);
                proof {
                    assert(items@.drop_last() =~= pre_items);
                    assert(crate::protocol::spec_value_seq_view(items@)
                        == crate::protocol::spec_value_seq_view(pre_items).push(v@));
                    let rem = spec_decode_values(bytes@.skip(*pos as int), (count - i - 1) as int);
                    match rem {
                        Some((rest, used)) => {
                            assert(crate::protocol::spec_value_seq_view(pre_items) + (seq![v@]
                                + rest) =~= crate::protocol::spec_value_seq_view(items@) + rest);
                        },
                        None => {},
                    }
                }
                i = i + 1;
            },
            Err(e) => {
                return Err(e);
            },
        }
    }
    proof {
        assert(spec_decode_values(bytes@.skip(*pos as int), 0) == Some(
            (Seq::<SpecValue>::empty(), 0int),
        ));
        assert(crate::protocol::spec_value_seq_view(items@) + Seq::<SpecValue>::empty()
            =~= crate::protocol::spec_value_seq_view(items@));
    }
    Ok(items)
}

/// Decode `count` key-value pairs in sequence.
fn decode_pairs_at(bytes: &Vec<u8>, pos: &mut usize, count: u32) -> (r: Result<
    Vec<(Value, Value)>,
    DecodeError,
>)
    requires
        *old(pos) <= bytes@.len(),
    ensures
        match r {
            Ok(pairs) => {
                &&& spec_decode_pairs(bytes@.skip(*old(pos) as int), count as int) == Some(
                    (crate::protocol::spec_pair_seq_view(pairs@), *final(pos) - *old(pos)),
                )
                &&& *old(pos) <= *final(pos) <= bytes@.len()
            },
            Err(_) => spec_decode_pairs(bytes@.skip(*old(pos) as int), count as int) is None,
        },
    decreases bytes@.len() - *old(pos), 1int,
{
    proof {
        vstd::std_specs::vec::axiom_spec_len(bytes);
    }
    let ghost base = *pos as int;
    let ghost full = spec_decode_pairs(bytes@.skip(base), count as int);
    let mut pairs: Vec<(Value, Value)> = Vec::new();
    let mut i: u32 = 0;
    while i < count
        invariant
            base <= *pos <= bytes@.len(),
            base == *old(pos),
            i <= count,
            pairs@.len() == i,
            full == spec_decode_pairs(bytes@.skip(base), count as int),
            full == spec_compose_pairs(
                crate::protocol::spec_pair_seq_view(pairs@),
                *pos - base,
                spec_decode_pairs(bytes@.skip(*pos as int), (count - i) as int),
            ),
        decreases count - i,
    {
        let ghost pre_pos = *pos as int;
        let ghost pre_pairs = pairs@;
        let key = match decode_value_at(bytes, pos) {
            Ok(k) => k,
            Err(e) => {
                return Err(e);
            },
        };
        let ghost mid_pos = *pos as int;
        proof {
            lemma_skip_skip(bytes@, pre_pos, mid_pos - pre_pos);
        }
        let val = match decode_value_at(bytes, pos) {
            Ok(v) => v,
            Err(e) => {
                return Err(e);
            },
        };
        proof {
            lemma_skip_skip(bytes@, pre_pos, *pos - pre_pos);
            lemma_skip_skip(bytes@, mid_pos, *pos - mid_pos);
        }
        pairs.push((key, val));
        proof {
            assert(pairs@.drop_last() =~= pre_pairs);
            assert(crate::protocol::spec_pair_seq_view(pairs@)
                == crate::protocol::spec_pair_seq_view(pre_pairs).push((key@, val@)));
            let rem = spec_decode_pairs(bytes@.skip(*pos as int), (count - i - 1) as int);
            match rem {
                Some((rest, used)) => {
                    assert(crate::protocol::spec_pair_seq_view(pre_pairs) + (seq![(key@, val@)]
                        + rest) =~= crate::protocol::spec_pair_seq_view(pairs@) + rest);
                },
                None => {},
            }
        }
        i = i + 1;
    }
    proof {
        assert(spec_decode_pairs(bytes@.skip(*pos as int), 0) == Some(
            (Seq::<(SpecValue, SpecValue)>::empty(), 0int),
        ));
        assert(crate::protocol::spec_pair_seq_view(pairs@) + Seq::<(SpecValue, SpecValue)>::empty()
            =~= crate::protocol::spec_pair_seq_view(pairs@));
    }
    Ok(pairs)
}

/// Every encoding starts with its tag byte.
pub proof fn lemma_encode_value_len_pos(v: SpecValue)
    ensures
        spec_encode_value(v).len() >= 1,
{
}

/// The concatenated encodings, taken from the front.
pub proof fn lemma_encode_values_first(items: Seq<SpecValue>)
    requires
        items.len() > 0,
    ensures
        spec_encode_values(items) == spec_encode_value(items.first()) + spec_encode_values(
            items.drop_first(),
        ),
    decreases items.len(),
{
    if items.len() == 1 {
        assert(items.drop_last() =~= Seq::<SpecValue>::empty());
        assert(items.drop_first() =~= Seq::<SpecValue>::empty());
        assert(items.last() == items.first());
        assert(Seq::<u8>::empty() + spec_encode_value(items.first()) =~= spec_encode_value(
            items.first(),
        ) + Seq::<u8>::empty());
    } else {
        let pre = items.drop_last();
        lemma_encode_values_first(pre);
        assert(pre.drop_first() =~= items.drop_first().drop_last());
        assert(pre.first() == items.first());
        assert(items.drop_first().last() == items.last());
        assert(spec_encode_values(items.drop_first()) == spec_encode_values(
            items.drop_first().drop_last(),
        ) + spec_encode_value(items.drop_first().last()));
        assert(spec_encode_value(items.first()) + spec_encode_values(pre.drop_first())
            + spec_encode_value(items.last()) =~= spec_encode_value(items.first()) + (
        spec_encode_values(pre.drop_first()) + spec_encode_value(items.last())));
    }
}

/// The concatenated pair encodings, taken from the front.
pub proof fn lemma_encode_pairs_first(pairs: Seq<(SpecValue, SpecValue)>)
    requires
        pairs.len() > 0,
    ensures
        spec_encode_pairs(pairs) == spec_encode_value(pairs.first().0) + spec_encode_value(
            pairs.first().1,
        ) + spec_encode_pairs(pairs.drop_first()),
    decreases pairs.len(),
{
    if pairs.len() == 1 {
        assert(pairs.drop_last() =~= Seq::<(SpecValue, SpecValue)>::empty());
        assert(pairs.drop_first() =~= Seq::<(SpecValue, SpecValue)>::empty());
        assert(pairs.last() == pairs.first());
        assert(Seq::<u8>::empty() + spec_encode_value(pairs.first().0) + spec_encode_value(
            pairs.first().1,
        ) =~= spec_encode_value(pairs.first().0) + spec_encode_value(pairs.first().1)
            + Seq::<u8>::empty());
    } else {
        let pre = pairs.drop_last();
        lemma_encode_pairs_first(pre);
        assert(pre.drop_first() =~= pairs.drop_first().drop_last());
        assert(pre.first() == pairs.first());
        assert(pairs.drop_first().last() == pairs.last());
        assert(spec_encode_pairs(pairs.drop_first()) == spec_encode_pairs(
            pairs.drop_first().drop_last(),
        ) + spec_encode_value(pairs.drop_first().last().0) + spec_encode_value(
            pairs.drop_first().last().1,
        ));
        assert(spec_encode_value(pairs.first().0) + spec_encode_value(pairs.first().1) + (
        spec_encode_pairs(pre.drop_first()) + spec_encode_value(pairs.last().0)
            + spec_encode_value(pairs.last().1)) =~= spec_encode_value(pairs.first().0)
            + spec_encode_value(pairs.first().1) + spec_encode_pairs(pre.drop_first())
            + spec_encode_value(pairs.last().0) + spec_encode_value(pairs.last().1));
    }
}

/// Decoding an encoded value, whatever follows it, returns the value and
/// consumes exactly its encoding: the codec round-trip law.
pub proof fn lemma_decode_encode_value(v: SpecValue, rest: Seq<u8>)
    requires
        spec_value_fits(v),
    ensures
        spec_decode_value(spec_encode_value(v) + rest) == Some(
            (v, spec_encode_value(v).len() as int),
        ),
    decreases v, 0int,
{
    let e = spec_encode_value(v);
    let s = e + rest;
    match v {
        SpecValue::Nil => {
            assert(s[0] == TAG_NIL);
        },
        SpecValue::Bool(b) => {
            assert(s[0] == if b {
                TAG_TRUE
            } else {
                TAG_FALSE
            });
        },
        SpecValue::Int(i) => {
            let w = spec_be64(i as u64);
            assert forall|k: int| 0 <= k < 8 implies s[1 + k] == w[k] by {
                assert(e[1 + k] == w[k]);
            }
            lemma_be64_roundtrip(i as u64);
            lemma_i64_u64_roundtrip(i);
            assert(s[0] == TAG_INT64 && s.len() >= 9);
        },
        SpecValue::Float(bits) => {
            let w = spec_be64(bits);
            assert forall|k: int| 0 <= k < 8 implies s[1 + k] == w[k] by {
                assert(e[1 + k] == w[k]);
            }
            lemma_be64_roundtrip(bits);
            assert(s[0] == TAG_FLOAT64 && s.len() >= 9);
        },
        SpecValue::Str(chars) => {
            let bytes = vstd::utf8::encode_utf8(chars);
            let w = spec_be32(bytes.len() as u32);
            assert forall|k: int| 0 <= k < 4 implies s[1 + k] == w[k] by {
                assert(e[1 + k] == w[k]);
            }
            lemma_be32_roundtrip(bytes.len() as u32);
            assert(s[0] == TAG_STR32 && s.len() >= 5);
            assert(spec_be32_val(s[1], s[2], s[3], s[4]) as int == bytes.len());
            assert(s.subrange(5, 5 + bytes.len() as int) =~= bytes);
            vstd::utf8::encode_utf8_valid_utf8(chars);
            vstd::utf8::encode_utf8_decode_utf8(chars);
        },
        SpecValue::Binary(bytes) => {
            let w = spec_be32(bytes.len() as u32);
            assert forall|k: int| 0 <= k < 4 implies s[1 + k] == w[k] by {
                assert(e[1 + k] == w[k]);
            }
            lemma_be32_roundtrip(bytes.len() as u32);
            assert(s[0] == TAG_BIN32 && s.len() >= 5);
            assert(spec_be32_val(s[1], s[2], s[3], s[4]) as int == bytes.len());
            assert(s.subrange(5, 5 + bytes.len() as int) =~= bytes);
        },
        SpecValue::Array(items) => {
            let w = spec_be32(items.len() as u32);
            assert forall|k: int| 0 <= k < 4 implies s[1 + k] == w[k] by {
                assert(e[1 + k] == w[k]);
            }
            lemma_be32_roundtrip(items.len() as u32);
            assert(s[0] == TAG_ARRAY32 && s.len() >= 5);
            assert(spec_be32_val(s[1], s[2], s[3], s[4]) as int == items.len());
            assert(s.skip(5) =~= spec_encode_values(items) + rest);
            lemma_decode_encode_values(items, rest);
        },
        SpecValue::Mapping(pairs) => {
            let w = spec_be32(pairs.len() as u32);
            assert forall|k: int| 0 <= k < 4 implies s[1 + k] == w[k] by {
                assert(e[1 + k] == w[k]);
            }
            lemma_be32_roundtrip(pairs.len() as u32);
            assert(s[0] == TAG_MAP32 && s.len() >= 5);
            assert(spec_be32_val(s[1], s[2], s[3], s[4]) as int == pairs.len());
            assert(s.skip(5) =~= spec_encode_pairs(pairs) + rest);
            lemma_decode_encode_pairs(pairs, rest);
        },
    }
}

/// Round trip of a concatenation of encoded values.
pub proof fn lemma_decode_encode_values(items: Seq<SpecValue>, rest: Seq<u8>)
    requires
        spec_values_fit(items),
    ensures
        spec_decode_values(spec_encode_values(items) + rest, items.len() as int) == Some(
            (items, spec_encode_values(items).len() as int),
        ),
    decreases items, 1int,
{
    if items.len() == 0 {
        assert(spec_encode_values(items) + rest =~= rest);
        assert(items =~= Seq::<SpecValue>::empty());
    } else {
        vstd::seq::axiom_seq_index_decreases(items, 0);
        vstd::seq::axiom_seq_subrange_decreases(items, 1, items.len() as int);
        let first = items.first();
        let tail = items.drop_first();
        lemma_values_fit_pointwise(items);
        assert(spec_value_fits(first));
        lemma_values_fit_pointwise(tail);
        assert forall|k: int| 0 <= k < tail.len() implies spec_value_fits(
            #[trigger] tail[k],
        ) by {
            assert(tail[k] == items[k + 1]);
        }
        lemma_encode_values_first(items);
        let e0 = spec_encode_value(first);
        let etail = spec_encode_values(tail);
        let s = spec_encode_values(items) + rest;
        assert(s =~= e0 + (etail + rest));
        lemma_decode_encode_value(first, etail + rest);
        lemma_encode_value_len_pos(first);
        assert(s.skip(e0.len() as int) =~= etail + rest);
        lemma_decode_encode_values(tail, rest);
        assert(seq![first] + tail =~= items);
    }
}

/// Round trip of a concatenation of encoded pairs.
#[verifier::rlimit(100)]
#[verifier::spinoff_prover]
pub proof fn lemma_decode_encode_pairs(pairs: Seq<(SpecValue, SpecValue)>, rest: Seq<u8>)
    requires
        spec_pairs_fit(pairs),
    ensures
        spec_decode_pairs(spec_encode_pairs(pairs) + rest, pairs.len() as int) == Some(
            (pairs, spec_encode_pairs(pairs).len() as int),
        ),
    decreases pairs, 1int,
{
    if pairs.len() == 0 {
        assert(spec_encode_pairs(pairs) + rest =~= rest);
        assert(pairs =~= Seq::<(SpecValue, SpecValue)>::empty());
    } else {
        vstd::seq::axiom_seq_index_decreases(pairs, 0);
        vstd::seq::axiom_seq_subrange_decreases(pairs, 1, pairs.len() as int);
        let first = pairs.first();
        let tail = pairs.drop_first();
        lemma_pairs_fit_pointwise(pairs);
        assert(spec_value_fits(first.0) && spec_value_fits(first.1));
        assert forall|k: int| 0 <= k < tail.len() implies spec_value_fits(
            (#[trigger] tail[k]).0,
        ) && spec_value_fits(tail[k].1) by {
            assert(tail[k] == pairs[k + 1]);
        }
        lemma_pairs_fit_pointwise(tail);
        lemma_encode_pairs_first(pairs);
        let ek = spec_encode_value(first.0);
        let ev = spec_encode_value(first.1);
        let etail = spec_encode_pairs(tail);
        let s = spec_encode_pairs(pairs) + rest;
        assert(s =~= ek + (ev + (etail + rest)));
        lemma_decode_encode_value(first.0, ev + (etail + rest));
        lemma_encode_value_len_pos(first.0);
        assert(s.skip(ek.len() as int) =~= ev + (etail + rest));
        lemma_decode_encode_value(first.1, etail + rest);
        lemma_encode_value_len_pos(first.1);
        assert(s.skip(ek.len() as int).skip(ev.len() as int) =~= etail + rest);
        assert(s.skip(ek.len() + ev.len() as int) =~= etail + rest);
        lemma_decode_encode_pairs(tail, rest);
        assert(seq![first] + tail =~= pairs);
    }
}

/// Why a message cannot be encoded.
#[derive(Clone, Copy, Debug, PartialEq, Eq, Structural)]
pub enum EncodeError {
    /// A length, count or resource figure exceeds what the wire form carries.
    TooLarge,
}

/// The value standing for a capability record: three integers, CPUs, GPUs
/// and memory, in milli-units.
pub open spec fn spec_caps_value(c: ResourceCapabilities) -> SpecValue {
    SpecValue::Array(
        seq![
            SpecValue::Int(c.num_cpus as i64),
            SpecValue::Int(c.num_gpus as i64),
            SpecValue::Int(c.memory_gb as i64),
        ],
    )
}

/// The value standing for a requirement record.
pub open spec fn spec_reqs_value(r: ResourceRequirements) -> SpecValue {
    SpecValue::Array(
        seq![
            SpecValue::Int(r.num_cpus as i64),
            SpecValue::Int(r.num_gpus as i64),
            SpecValue::Int(r.memory_gb as i64),
        ],
    )
}

/// The capability record a value stands for, if it has the right shape.
pub open spec fn spec_caps_of_value(v: SpecValue) -> Option<ResourceCapabilities> {
    match v {
        SpecValue::Array(items) => if items.len() == 3 {
            match (items[0], items[1], items[2]) {
                (SpecValue::Int(a), SpecValue::Int(b), SpecValue::Int(c)) => if a >= 0 && b >= 0
                    && c >= 0 {
                    Some(
                        ResourceCapabilities {
                            num_cpus: a as u64,
                            num_gpus: b as u64,
                            memory_gb: c as u64,
                        },
                    )
                } else {
                    None
                },
                _ => None,
            }
        } else {
            None
        },
        _ => None,
    }
}

/// The requirement record a value stands for, if it has the right shape.
pub open spec fn spec_reqs_of_value(v: SpecValue) -> Option<ResourceRequirements> {
    match v {
        SpecValue::Array(items) => if items.len() == 3 {
            match (items[0], items[1], items[2]) {
                (SpecValue::Int(a), SpecValue::Int(b), SpecValue::Int(c)) => if a >= 0 && b >= 0
                    && c >= 0 {
                    Some(
                        ResourceRequirements {
                            num_cpus: a as u64,
                            num_gpus: b as u64,
                            memory_gb: c as u64,
                        },
                    )
                } else {
                    None
                },
                _ => None,
            }
        } else {
            None
        },
        _ => None,
    }
}

/// The tagged value carrying a message: a one-entry map from the variant
/// name to the array of its fields.
pub open spec fn spec_message_value(m: SpecMessage) -> SpecValue {
    match m {
        SpecMessage::WorkerReady { worker_id, pid, capabilities } => SpecValue::Mapping(
            seq![
                (
                    SpecValue::Str("WorkerReady"@),
                    SpecValue::Array(
                        seq![
                            SpecValue::Str(worker_id),
                            SpecValue::Int(pid as i64),
                            spec_caps_value(capabilities),
                        ],
                    ),
                ),
            ],
        ),
        SpecMessage::TaskAssignment { task_id, function_name, args, resources } =>
            SpecValue::Mapping(
            seq![
                (
                    SpecValue::Str("TaskAssignment"@),
                    SpecValue::Array(
                        seq![
                            SpecValue::Str(task_id),
                            SpecValue::Str(function_name),
                            args,
                            spec_reqs_value(resources),
                        ],
                    ),
                ),
            ],
        ),
        SpecMessage::TaskResult { task_id, success, result } => SpecValue::Mapping(
            seq![
                (
                    SpecValue::Str("TaskResult"@),
                    SpecValue::Array(
                        seq![SpecValue::Str(task_id), SpecValue::Bool(success), result],
                    ),
                ),
            ],
        ),
        SpecMessage::Shutdown { graceful } => SpecValue::Mapping(
            seq![
                (
                    SpecValue::Str("Shutdown"@),
                    SpecValue::Array(seq![SpecValue::Bool(graceful)]),
                ),
            ],
        ),
        SpecMessage::Heartbeat { worker_id } => SpecValue::Mapping(
            seq![
                (
                    SpecValue::Str("Heartbeat"@),
                    SpecValue::Array(seq![SpecValue::Str(worker_id)]),
                ),
            ],
        ),
    }
}

/// The message a decoded value stands for, if it is the shape of a variant.
pub open spec fn spec_message_of_value(v: SpecValue) -> Option<SpecMessage> {
    match v {
        SpecValue::Mapping(pairs) => if pairs.len() == 1 {
            match (pairs[0].0, pairs[0].1) {
                (SpecValue::Str(name), SpecValue::Array(fields)) => if name == "WorkerReady"@ {
                    spec_worker_ready_of(fields)
                } else if name == "TaskAssignment"@ {
                    spec_task_assignment_of(fields)
                } else if name == "TaskResult"@ {
                    spec_task_result_of(fields)
                } else if name == "Shutdown"@ {
                    spec_shutdown_of(fields)
                } else if name == "Heartbeat"@ {
                    spec_heartbeat_of(fields)
                } else {
                    None
                },
                _ => None,
            }
        } else {
            None
        },
        _ => None,
    }
}

/// The readiness handshake from its field array.
pub open spec fn spec_worker_ready_of(fields: Seq<SpecValue>) -> Option<SpecMessage> {
    if fields.len() == 3 {
        match (fields[0], fields[1]) {
            (SpecValue::Str(worker_id), SpecValue::Int(pid)) => if 0 <= pid <= u32::MAX {
                match spec_caps_of_value(fields[2]) {
                    Some(capabilities) => Some(
                        SpecMessage::WorkerReady { worker_id, pid: pid as u32, capabilities },
                    ),
                    None => None,
                }
            } else {
                None
            },
            _ => None,
        }
    } else {
        None
    }
}

/// A task assignment from its field array.
pub open spec fn spec_task_assignment_of(fields: Seq<SpecValue>) -> Option<SpecMessage> {
    if fields.len() == 4 {
        match (fields[0], fields[1]) {
            (SpecValue::Str(task_id), SpecValue::Str(function_name)) => match spec_reqs_of_value(
                fields[3],
            ) {
                Some(resources) => Some(
                    SpecMessage::TaskAssignment {
                        task_id,
                        function_name,
                        args: fields[2],
                        resources,
                    },
                ),
                None => None,
            },
            _ => None,
        }
    } else {
        None
    }
}

/// A task result from its field array.
pub open spec fn spec_task_result_of(fields: Seq<SpecValue>) -> Option<SpecMessage> {
    if fields.len() == 3 {
        match (fields[0], fields[1]) {
            (SpecValue::Str(task_id), SpecValue::Bool(success)) => Some(
                SpecMessage::TaskResult { task_id, success, result: fields[2] },
            ),
            _ => None,
        }
    } else {
        None
    }
}

/// A shutdown request from its field array.
pub open spec fn spec_shutdown_of(fields: Seq<SpecValue>) -> Option<SpecMessage> {
    if fields.len() == 1 {
        match fields[0] {
            SpecValue::Bool(graceful) => Some(SpecMessage::Shutdown { graceful }),
            _ => None,
        }
    } else {
        None
    }
}

/// A heartbeat from its field array.
pub open spec fn spec_heartbeat_of(fields: Seq<SpecValue>) -> Option<SpecMessage> {
    if fields.len() == 1 {
        match fields[0] {
            SpecValue::Str(worker_id) => Some(SpecMessage::Heartbeat { worker_id }),
            _ => None,
        }
    } else {
        None
    }
}

/// Whether a message's strings, payload and resource figures fit the wire
/// form: lengths within the 32-bit forms, resource milli-units within a
/// 64-bit signed integer.
pub open spec fn spec_message_fits(m: SpecMessage) -> bool {
    match m {
        SpecMessage::WorkerReady { worker_id, pid, capabilities } => {
            &&& vstd::utf8::encode_utf8(worker_id).len() <= LEN32_MAX
            &&& capabilities.num_cpus <= i64::MAX
            &&& capabilities.num_gpus <= i64::MAX
            &&& capabilities.memory_gb <= i64::MAX
        },
        SpecMessage::TaskAssignment { task_id, function_name, args, resources } => {
            &&& vstd::utf8::encode_utf8(task_id).len() <= LEN32_MAX
            &&& vstd::utf8::encode_utf8(function_name).len() <= LEN32_MAX
            &&& spec_value_fits(args)
            &&& resources.num_cpus <= i64::MAX
            &&& resources.num_gpus <= i64::MAX
            &&& resources.memory_gb <= i64::MAX
        },
        SpecMessage::TaskResult { task_id, success, result } => {
            &&& vstd::utf8::encode_utf8(task_id).len() <= LEN32_MAX
            &&& spec_value_fits(result)
        },
        SpecMessage::Shutdown { .. } => true,
        SpecMessage::Heartbeat { worker_id } => vstd::utf8::encode_utf8(worker_id).len()
            <= LEN32_MAX,
    }
}

/// A UTF-8 encoding takes at most four bytes per character.
pub proof fn lemma_encode_utf8_len_bound(chars: Seq<char>)
    ensures
        vstd::utf8::encode_utf8(chars).len() <= 4 * chars.len(),
    decreases chars.len(),
{
    if chars.len() > 0 {
        lemma_encode_utf8_len_bound(chars.drop_first());
    }
}

/// The value standing for a capability record.
fn caps_to_value(c: &ResourceCapabilities) -> (v: Value)
    ensures
        v@ == spec_caps_value(*c),
{
    let mut items: Vec<Value> = Vec::new();
    items.push(Value::Int(c.num_cpus as i64));
    items.push(Value::Int(c.num_gpus as i64));
    items.push(Value::Int(c.memory_gb as i64));
    proof {
        crate::protocol::lemma_value_seq_view_len(items@);
        crate::protocol::lemma_value_seq_view_index(items@, 0);
        crate::protocol::lemma_value_seq_view_index(items@, 1);
        crate::protocol::lemma_value_seq_view_index(items@, 2);
        assert(crate::protocol::spec_value_seq_view(items@) =~= spec_caps_value(*c)->Array_0);
    }
    Value::Array(items)
}

/// The value standing for a requirement record.
fn reqs_to_value(r: &ResourceRequirements) -> (v: Value)
    ensures
        v@ == spec_reqs_value(*r),
{
    let mut items: Vec<Value> = Vec::new();
    items.push(Value::Int(r.num_cpus as i64));
    items.push(Value::Int(r.num_gpus as i64));
    items.push(Value::Int(r.memory_gb as i64));
    proof {
        crate::protocol::lemma_value_seq_view_len(items@);
        crate::protocol::lemma_value_seq_view_index(items@, 0);
        crate::protocol::lemma_value_seq_view_index(items@, 1);
        crate::protocol::lemma_value_seq_view_index(items@, 2);
        assert(crate::protocol::spec_value_seq_view(items@) =~= spec_reqs_value(*r)->Array_0);
    }
    Value::Array(items)
}

/// The capability record a value stands for.
fn caps_from_value(v: Value) -> (r: Result<ResourceCapabilities, DecodeError>)
    ensures
        match r {
            Ok(c) => spec_caps_of_value(v@) == Some(c),
            Err(_) => spec_caps_of_value(v@) is None,
        },
{
    let mut items = match v {
        Value::Array(items) => items,
        _ => {
            return Err(DecodeError::MalformedMessage);
        },
    };
    proof {
        crate::protocol::lemma_value_seq_view_len(items@);
    }
    if items.len() != 3 {
        return Err(DecodeError::MalformedMessage);
    }
    proof {
        crate::protocol::lemma_value_seq_view_index(items@, 0);
        crate::protocol::lemma_value_seq_view_index(items@, 1);
        crate::protocol::lemma_value_seq_view_index(items@, 2);
    }
    let f2 = match items.pop() {
        Some(x) => x,
        None => {
            return Err(DecodeError::MalformedMessage);
        },
    };
    let f1 = match items.pop() {
        Some(x) => x,
        None => {
            return Err(DecodeError::MalformedMessage);
        },
    };
    let f0 = match items.pop() {
        Some(x) => x,
        None => {
            return Err(DecodeError::MalformedMessage);
        },
    };
    let a = match f0 {
        Value::Int(a) => a,
        _ => {
            return Err(DecodeError::MalformedMessage);
        },
    };
    let b = match f1 {
        Value::Int(b) => b,
        _ => {
            return Err(DecodeError::MalformedMessage);
        },
    };
    let c = match f2 {
        Value::Int(c) => c,
        _ => {
            return Err(DecodeError::MalformedMessage);
        },
    };
    if a < 0 || b < 0 || c < 0 {
        return Err(DecodeError::MalformedMessage);
    }
    Ok(ResourceCapabilities { num_cpus: a as u64, num_gpus: b as u64, memory_gb: c as u64 })
}

/// The requirement record a value stands for.
fn reqs_from_value(v: Value) -> (r: Result<ResourceRequirements, DecodeError>)
    ensures
        match r {
            Ok(c) => spec_reqs_of_value(v@) == Some(c),
            Err(_) => spec_reqs_of_value(v@) is None,
        },
{
    match caps_from_value(v) {
        Ok(c) => Ok(
            ResourceRequirements {
                num_cpus: c.num_cpus,
                num_gpus: c.num_gpus,
                memory_gb: c.memory_gb,
            },
        ),
        Err(e) => Err(e),
    }
}

/// The tagged value carrying a message.
pub fn message_to_value(m: &Message) -> (v: Value)
    ensures
        v@ == spec_message_value(m@),
{
    match m {
        Message::WorkerReady { worker_id, pid, capabilities } => {
            let mut fields: Vec<Value> = Vec::new();
            fields.push(Value::Str(worker_id.clone()));
            fields.push(Value::Int(*pid as i64));
            fields.push(caps_to_value(capabilities));
            proof {
                crate::protocol::lemma_value_seq_view_len(fields@);
                crate::protocol::lemma_value_seq_view_index(fields@, 0);
                crate::protocol::lemma_value_seq_view_index(fields@, 1);
                crate::protocol::lemma_value_seq_view_index(fields@, 2);
                assert(crate::protocol::spec_value_seq_view(fields@) =~= seq![
                    SpecValue::Str(worker_id@),
                    SpecValue::Int((*pid) as i64),
                    spec_caps_value(*capabilities),
                ]);
            }
            finish_message(String::from_str("WorkerReady"), fields)
        },
        Message::TaskAssignment { task_id, function_name, args, resources } => {
            let mut fields: Vec<Value> = Vec::new();
            fields.push(Value::Str(task_id.clone()));
            fields.push(Value::Str(function_name.clone()));
            fields.push(args.clone());
            fields.push(reqs_to_value(resources));
            proof {
                crate::protocol::lemma_value_seq_view_len(fields@);
                crate::protocol::lemma_value_seq_view_index(fields@, 0);
                crate::protocol::lemma_value_seq_view_index(fields@, 1);
                crate::protocol::lemma_value_seq_view_index(fields@, 2);
                crate::protocol::lemma_value_seq_view_index(fields@, 3);
                assert(crate::protocol::spec_value_seq_view(fields@) =~= seq![
                    SpecValue::Str(task_id@),
                    SpecValue::Str(function_name@),
                    args@,
                    spec_reqs_value(*resources),
                ]);
            }
            finish_message(String::from_str("TaskAssignment"), fields)
        },
        Message::TaskResult { task_id, success, result } => {
            let mut fields: Vec<Value> = Vec::new();
            fields.push(Value::Str(task_id.clone()));
            fields.push(Value::Bool(*success));
            fields.push(result.clone());
            proof {
                crate::protocol::lemma_value_seq_view_len(fields@);
                crate::protocol::lemma_value_seq_view_index(fields@, 0);
                crate::protocol::lemma_value_seq_view_index(fields@, 1);
                crate::protocol::lemma_value_seq_view_index(fields@, 2);
                assert(crate::protocol::spec_value_seq_view(fields@) =~= seq![
                    SpecValue::Str(task_id@),
                    SpecValue::Bool(*success),
                    result@,
                ]);
            }
            finish_message(String::from_str("TaskResult"), fields)
        },
        Message::Shutdown { graceful } => {
            let mut fields: Vec<Value> = Vec::new();
            fields.push(Value::Bool(*graceful));
            proof {
                crate::protocol::lemma_value_seq_view_len(fields@);
                crate::protocol::lemma_value_seq_view_index(fields@, 0);
                assert(crate::protocol::spec_value_seq_view(fields@) =~= seq![
                    SpecValue::Bool(*graceful),
                ]);
            }
            finish_message(String::from_str("Shutdown"), fields)
        },
        Message::Heartbeat { worker_id } => {
            let mut fields: Vec<Value> = Vec::new();
            fields.push(Value::Str(worker_id.clone()));
            proof {
                crate::protocol::lemma_value_seq_view_len(fields@);
                crate::protocol::lemma_value_seq_view_index(fields@, 0);
                assert(crate::protocol::spec_value_seq_view(fields@) =~= seq![
                    SpecValue::Str(worker_id@),
                ]);
            }
            finish_message(String::from_str("Heartbeat"), fields)
        },
    }
}

/// Wrap a variant name and its fields as the one-entry map.
fn finish_message(name: String, fields: Vec<Value>) -> (v: Value)
    ensures
        v@ == SpecValue::Mapping(
            seq![
                (
                    SpecValue::Str(name@),
                    SpecValue::Array(crate::protocol::spec_value_seq_view(fields@)),
                ),
            ],
        ),
{
    let ghost fields_view = crate::protocol::spec_value_seq_view(fields@);
    let payload = Value::Array(fields);
    let mut pairs: Vec<(Value, Value)> = Vec::new();
    pairs.push((Value::Str(name), payload));
    proof {
        crate::protocol::lemma_pair_seq_view_len(pairs@);
        crate::protocol::lemma_pair_seq_view_index(pairs@, 0);
        assert(crate::protocol::spec_pair_seq_view(pairs@) =~= seq![
            (SpecValue::Str(pairs@[0].0@->Str_0), SpecValue::Array(fields_view)),
        ]);
    }
    Value::Mapping(pairs)
}

/// Whether a message fits the wire form.
pub fn message_fits(m: &Message) -> (r: bool)
    ensures
        r == spec_message_fits(m@),
{
    match m {
        Message::WorkerReady { worker_id, pid, capabilities } => {
            string_len32_ok(worker_id) && capabilities.num_cpus <= I64_MAX_U64
                && capabilities.num_gpus <= I64_MAX_U64 && capabilities.memory_gb <= I64_MAX_U64
        },
        Message::TaskAssignment { task_id, function_name, args, resources } => {
            string_len32_ok(task_id) && string_len32_ok(function_name) && value_fits(args)
                && resources.num_cpus <= I64_MAX_U64 && resources.num_gpus <= I64_MAX_U64
                && resources.memory_gb <= I64_MAX_U64
        },
        Message::TaskResult { task_id, success, result } => {
            string_len32_ok(task_id) && value_fits(result)
        },
        Message::Shutdown { .. } => true,
        Message::Heartbeat { worker_id } => string_len32_ok(worker_id),
    }
}

/// The bit pattern of the largest 64-bit signed value.
pub const I64_MAX_U64: u64 = 0x7fff_ffff_ffff_ffff;

/// Whether a string's UTF-8 byte length fits a 32-bit length field.
fn string_len32_ok(s: &String) -> (r: bool)
    ensures
        r == (vstd::utf8::encode_utf8(s@).len() <= LEN32_MAX),
{
    let bytes = s.as_str().as_bytes();
    bytes.len() <= LEN32_MAX
}

/// The message a tagged value carries, if any.
pub fn value_to_message(v: Value) -> (r: Result<Message, DecodeError>)
    ensures
        match r {
            Ok(m) => spec_message_of_value(v@) == Some(m@),
            Err(_) => spec_message_of_value(v@) is None,
        },
{
    let mut pairs = match v {
        Value::Mapping(pairs) => pairs,
        _ => {
            return Err(DecodeError::MalformedMessage);
        },
    };
    proof {
        crate::protocol::lemma_pair_seq_view_len(pairs@);
    }
    if pairs.len() != 1 {
        return Err(DecodeError::MalformedMessage);
    }
    proof {
        crate::protocol::lemma_pair_seq_view_index(pairs@, 0);
    }
    let pair = match pairs.pop() {
        Some(p) => p,
        None => {
            return Err(DecodeError::MalformedMessage);
        },
    };
    let name = match pair.0 {
        Value::Str(s) => s,
        _ => {
            return Err(DecodeError::MalformedMessage);
        },
    };
    let fields = match pair.1 {
        Value::Array(f) => f,
        _ => {
            return Err(DecodeError::MalformedMessage);
        },
    };
    if name == String::from_str("WorkerReady") {
        worker_ready_from_fields(fields)
    } else if name == String::from_str("TaskAssignment") {
        task_assignment_from_fields(fields)
    } else if name == String::from_str("TaskResult") {
        task_result_from_fields(fields)
    } else if name == String::from_str("Shutdown") {
        shutdown_from_fields(fields)
    } else if name == String::from_str("Heartbeat") {
        heartbeat_from_fields(fields)
    } else {
        Err(DecodeError::MalformedMessage)
    }
}

/// Parse the readiness handshake's fields.
fn worker_ready_from_fields(fields: Vec<Value>) -> (r: Result<Message, DecodeError>)
    ensures
        match r {
            Ok(m) => spec_worker_ready_of(crate::protocol::spec_value_seq_view(fields@)) == Some(
                m@,
            ),
            Err(_) => spec_worker_ready_of(crate::protocol::spec_value_seq_view(fields@)) is None,
        },
{
    let mut fields = fields;
    proof {
        crate::protocol::lemma_value_seq_view_len(fields@);
    }
    if fields.len() != 3 {
        return Err(DecodeError::MalformedMessage);
    }
    proof {
        crate::protocol::lemma_value_seq_view_index(fields@, 0);
        crate::protocol::lemma_value_seq_view_index(fields@, 1);
        crate::protocol::lemma_value_seq_view_index(fields@, 2);
    }
    let f2 = match fields.pop() {
        Some(x) => x,
        None => {
            return Err(DecodeError::MalformedMessage);
        },
    };
    let f1 = match fields.pop() {
        Some(x) => x,
        None => {
            return Err(DecodeError::MalformedMessage);
        },
    };
    let f0 = match fields.pop() {
        Some(x) => x,
        None => {
            return Err(DecodeError::MalformedMessage);
        },
    };
    let worker_id = match f0 {
        Value::Str(s) => s,
        _ => {
            return Err(DecodeError::MalformedMessage);
        },
    };
    let pid_i = match f1 {
        Value::Int(i) => i,
        _ => {
            return Err(DecodeError::MalformedMessage);
        },
    };
    if pid_i < 0 || pid_i > 0xffff_ffffi64 {
        return Err(DecodeError::MalformedMessage);
    }
    let capabilities = match caps_from_value(f2) {
        Ok(c) => c,
        Err(e) => {
            return Err(e);
        },
    };
    Ok(Message::WorkerReady { worker_id, pid: pid_i as u32, capabilities })
}

/// Parse a task assignment's fields.
fn task_assignment_from_fields(fields: Vec<Value>) -> (r: Result<Message, DecodeError>)
    ensures
        match r {
            Ok(m) => spec_task_assignment_of(crate::protocol::spec_value_seq_view(fields@))
                == Some(m@),
            Err(_) => spec_task_assignment_of(
                crate::protocol::spec_value_seq_view(fields@),
            ) is None,
        },
{
    let mut fields = fields;
    proof {
        crate::protocol::lemma_value_seq_view_len(fields@);
    }
    if fields.len() != 4 {
        return Err(DecodeError::MalformedMessage);
    }
    proof {
        crate::protocol::lemma_value_seq_view_index(fields@, 0);
        crate::protocol::lemma_value_seq_view_index(fields@, 1);
        crate::protocol::lemma_value_seq_view_index(fields@, 2);
        crate::protocol::lemma_value_seq_view_index(fields@, 3);
    }
    let f3 = match fields.pop() {
        Some(x) => x,
        None => {
            return Err(DecodeError::MalformedMessage);
        },
    };
    let f2 = match fields.pop() {
        Some(x) => x,
        None => {
            return Err(DecodeError::MalformedMessage);
        },
    };
    let f1 = match fields.pop() {
        Some(x) => x,
        None => {
            return Err(DecodeError::MalformedMessage);
        },
    };
    let f0 = match fields.pop() {
        Some(x) => x,
        None => {
            return Err(DecodeError::MalformedMessage);
        },
    };
    let task_id = match f0 {
        Value::Str(s) => s,
        _ => {
            return Err(DecodeError::MalformedMessage);
        },
    };
    let function_name = match f1 {
        Value::Str(s) => s,
        _ => {
            return Err(DecodeError::MalformedMessage);
        },
    };
    let resources = match reqs_from_value(f3) {
        Ok(c) => c,
        Err(e) => {
            return Err(e);
        },
    };
    Ok(Message::TaskAssignment { task_id, function_name, args: f2, resources })
}

/// Parse a task result's fields.
fn task_result_from_fields(fields: Vec<Value>) -> (r: Result<Message, DecodeError>)
    ensures
        match r {
            Ok(m) => spec_task_result_of(crate::protocol::spec_value_seq_view(fields@)) == Some(
                m@,
            ),
            Err(_) => spec_task_result_of(crate::protocol::spec_value_seq_view(fields@)) is None,
        },
{
    let mut fields = fields;
    proof {
        crate::protocol::lemma_value_seq_view_len(fields@);
    }
    if fields.len() != 3 {
        return Err(DecodeError::MalformedMessage);
    }
    proof {
        crate::protocol::lemma_value_seq_view_index(fields@, 0);
        crate::protocol::lemma_value_seq_view_index(fields@, 1);
        crate::protocol::lemma_value_seq_view_index(fields@, 2);
    }
    let f2 = match fields.pop() {
        Some(x) => x,
        None => {
            return Err(DecodeError::MalformedMessage);
        },
    };
    let f1 = match fields.pop() {
        Some(x) => x,
        None => {
            return Err(DecodeError::MalformedMessage);
        },
    };
    let f0 = match fields.pop() {
        Some(x) => x,
        None => {
            return Err(DecodeError::MalformedMessage);
        },
    };
    let task_id = match f0 {
        Value::Str(s) => s,
        _ => {
            return Err(DecodeError::MalformedMessage);
        },
    };
    let success = match f1 {
        Value::Bool(b) => b,
        _ => {
            return Err(DecodeError::MalformedMessage);
        },
    };
    Ok(Message::TaskResult { task_id, success, result: f2 })
}

/// Parse a shutdown request's fields.
fn shutdown_from_fields(fields: Vec<Value>) -> (r: Result<Message, DecodeError>)
    ensures
        match r {
            Ok(m) => spec_shutdown_of(crate::protocol::spec_value_seq_view(fields@)) == Some(m@),
            Err(_) => spec_shutdown_of(crate::protocol::spec_value_seq_view(fields@)) is None,
        },
{
    let mut fields = fields;
    proof {
        crate::protocol::lemma_value_seq_view_len(fields@);
    }
    if fields.len() != 1 {
        return Err(DecodeError::MalformedMessage);
    }
    proof {
        crate::protocol::lemma_value_seq_view_index(fields@, 0);
    }
    let f0 = match fields.pop() {
        Some(x) => x,
        None => {
            return Err(DecodeError::MalformedMessage);
        },
    };
    match f0 {
        Value::Bool(graceful) => Ok(Message::Shutdown { graceful }),
        _ => Err(DecodeError::MalformedMessage),
    }
}

/// Parse a heartbeat's fields.
fn heartbeat_from_fields(fields: Vec<Value>) -> (r: Result<Message, DecodeError>)
    ensures
        match r {
            Ok(m) => spec_heartbeat_of(crate::protocol::spec_value_seq_view(fields@)) == Some(m@),
            Err(_) => spec_heartbeat_of(crate::protocol::spec_value_seq_view(fields@)) is None,
        },
{
    let mut fields = fields;
    proof {
        crate::protocol::lemma_value_seq_view_len(fields@);
    }
    if fields.len() != 1 {
        return Err(DecodeError::MalformedMessage);
    }
    proof {
        crate::protocol::lemma_value_seq_view_index(fields@, 0);
    }
    let f0 = match fields.pop() {
        Some(x) => x,
        None => {
            return Err(DecodeError::MalformedMessage);
        },
    };
    match f0 {
        Value::Str(worker_id) => Ok(Message::Heartbeat { worker_id }),
        _ => Err(DecodeError::MalformedMessage),
    }
}

/// Casting a bounded unsigned value through a signed 64-bit integer gives
/// the value back.
pub proof fn lemma_u64_i64_roundtrip(x: u64)
    requires
        x <= i64::MAX,
    ensures
        (x as i64) >= 0,
        ((x as i64) as u64) == x,
{
    assert(x <= 0x7fff_ffff_ffff_ffffu64 ==> (x as i64) >= 0 && ((x as i64) as u64) == x)
        by (bit_vector);
}

/// Casting a 32-bit process id through a signed 64-bit integer gives it back.
pub proof fn lemma_u32_i64_roundtrip(p: u32)
    ensures
        0 <= (p as i64) <= u32::MAX,
        ((p as i64) as u32) == p,
{
    assert(0 <= (p as i64) && (p as i64) <= 0xffff_ffffi64 && ((p as i64) as u32) == p)
        by (bit_vector);
}

/// A capability record survives the trip through its value form.
pub proof fn lemma_caps_value_roundtrip(c: ResourceCapabilities)
    requires
        c.num_cpus <= i64::MAX,
        c.num_gpus <= i64::MAX,
        c.memory_gb <= i64::MAX,
    ensures
        spec_caps_of_value(spec_caps_value(c)) == Some(c),
{
    lemma_u64_i64_roundtrip(c.num_cpus);
    lemma_u64_i64_roundtrip(c.num_gpus);
    lemma_u64_i64_roundtrip(c.memory_gb);
}

/// A requirement record survives the trip through its value form.
pub proof fn lemma_reqs_value_roundtrip(r: ResourceRequirements)
    requires
        r.num_cpus <= i64::MAX,
        r.num_gpus <= i64::MAX,
        r.memory_gb <= i64::MAX,
    ensures
        spec_reqs_of_value(spec_reqs_value(r)) == Some(r),
{
    lemma_u64_i64_roundtrip(r.num_cpus);
    lemma_u64_i64_roundtrip(r.num_gpus);
    lemma_u64_i64_roundtrip(r.memory_gb);
}

/// Reading a message back out of its tagged value gives the message.
pub proof fn lemma_message_value_roundtrip(m: SpecMessage)
    requires
        spec_message_fits(m),
    ensures
        spec_message_of_value(spec_message_value(m)) == Some(m),
{
    reveal_strlit("WorkerReady");
    reveal_strlit("TaskAssignment");
    reveal_strlit("TaskResult");
    reveal_strlit("Shutdown");
    reveal_strlit("Heartbeat");
    assert("WorkerReady"@.len() == 11);
    assert("TaskAssignment"@.len() == 14);
    assert("TaskResult"@.len() == 10);
    assert("Shutdown"@.len() == 8);
    assert("Heartbeat"@.len() == 9);
    match m {
        SpecMessage::WorkerReady { worker_id, pid, capabilities } => {
            lemma_u32_i64_roundtrip(pid);
            lemma_caps_value_roundtrip(capabilities);
            assert(spec_message_of_value(spec_message_value(m)) == Some(m));
        },
        SpecMessage::TaskAssignment { task_id, function_name, args, resources } => {
            lemma_reqs_value_roundtrip(resources);
            let mv = spec_message_value(m);
            let fields = mv->Mapping_0[0].1->Array_0;
            assert(mv->Mapping_0[0].0 == SpecValue::Str("TaskAssignment"@));
            assert("TaskAssignment"@ != "WorkerReady"@);
            assert(fields.len() == 4);
            assert(fields[0] == SpecValue::Str(task_id));
            assert(fields[1] == SpecValue::Str(function_name));
            assert(fields[3] == spec_reqs_value(resources));
            assert(spec_task_assignment_of(fields) == Some(m));
            assert(spec_message_of_value(spec_message_value(m)) == Some(m));
        },
        SpecMessage::TaskResult { task_id, success, result } => {
            let mv = spec_message_value(m);
            let fields = mv->Mapping_0[0].1->Array_0;
            assert(mv->Mapping_0[0].0 == SpecValue::Str("TaskResult"@));
            assert("TaskResult"@ != "WorkerReady"@);
            assert("TaskResult"@ != "TaskAssignment"@);
            assert(fields.len() == 3);
            assert(fields[0] == SpecValue::Str(task_id));
            assert(fields[1] == SpecValue::Bool(success));
            assert(fields[2] == result);
            assert(spec_task_result_of(fields) == Some(m));
            assert(spec_message_of_value(spec_message_value(m)) == Some(m));
        },
        SpecMessage::Shutdown { .. } => {
            assert(spec_message_of_value(spec_message_value(m)) == Some(m));
        },
        SpecMessage::Heartbeat { .. } => {
            assert(spec_message_of_value(spec_message_value(m)) == Some(m));
        },
    }
}

/// A message that fits the wire form has a value form whose lengths fit.
pub proof fn lemma_message_value_fits(m: SpecMessage)
    requires
        spec_message_fits(m),
    ensures
        spec_value_fits(spec_message_value(m)),
{
    let mv = spec_message_value(m);
    let pairs = mv->Mapping_0;
    let name = pairs[0].0->Str_0;
    let fields = pairs[0].1->Array_0;
    assert(name.len() <= 14) by {
        reveal_strlit("WorkerReady");
        reveal_strlit("TaskAssignment");
        reveal_strlit("TaskResult");
        reveal_strlit("Shutdown");
        reveal_strlit("Heartbeat");
        match m {
            SpecMessage::WorkerReady { .. } => {},
            SpecMessage::TaskAssignment { .. } => {},
            SpecMessage::TaskResult { .. } => {},
            SpecMessage::Shutdown { .. } => {},
            SpecMessage::Heartbeat { .. } => {},
        }
    }
    lemma_encode_utf8_len_bound(name);
    assert forall|i: int| 0 <= i < fields.len() implies spec_value_fits(
        #[trigger] fields[i],
    ) by {
        match m {
            SpecMessage::WorkerReady { worker_id, pid, capabilities } => {
                lemma_values_fit_pointwise(spec_caps_value(capabilities)->Array_0);
            },
            SpecMessage::TaskAssignment { task_id, function_name, args, resources } => {
                lemma_values_fit_pointwise(spec_reqs_value(resources)->Array_0);
            },
            SpecMessage::TaskResult { .. } => {},
            SpecMessage::Shutdown { .. } => {},
            SpecMessage::Heartbeat { .. } => {},
        }
    }
    lemma_values_fit_pointwise(fields);
    assert(spec_value_fits(pairs[0].1));
    lemma_pairs_fit_pointwise(pairs);
}

/// The message encoded in a byte string, when the bytes are exactly one
/// well-formed message and nothing more.
pub open spec fn spec_message_from_bytes(s: Seq<u8>) -> Option<SpecMessage> {
    match spec_decode_value(s) {
        Some((sv, used)) => if used == s.len() {
            spec_message_of_value(sv)
        } else {
            None
        },
        None => None,
    }
}

impl Message {
    /// Serialize the message to its wire bytes. Fails exactly when a length,
    /// count or resource figure does not fit the wire form.
    pub fn to_bytes(&self) -> (r: Result<Vec<u8>, EncodeError>)
        ensures
            match r {
                Ok(b) => spec_message_fits(self@) && b@ == spec_encode_value(
                    spec_message_value(self@),
                ),
                Err(_) => !spec_message_fits(self@),
            },
    {
        if !message_fits(self) {
            return Err(EncodeError::TooLarge);
        }
        let v = message_to_value(self);
        proof {
            lemma_message_value_fits(self@);
        }
        let mut out: Vec<u8> = Vec::new();
        encode_value(&v, &mut out);
        Ok(out)
    }

    /// Deserialize a message from its wire bytes. Succeeds exactly when the
    /// bytes are one well-formed message and nothing more.
    pub fn from_bytes(bytes: &Vec<u8>) -> (r: Result<Message, DecodeError>)
        ensures
            match r {
                Ok(m) => spec_message_from_bytes(bytes@) == Some(m@),
                Err(_) => spec_message_from_bytes(bytes@) is None,
            },
    {
        proof {
            vstd::std_specs::vec::axiom_spec_len(bytes);
            assert(bytes@.skip(0) =~= bytes@);
        }
        let mut pos: usize = 0;
        let v = match decode_value_at(bytes, &mut pos) {
            Ok(v) => v,
            Err(e) => {
                return Err(e);
            },
        };
        if pos != bytes.len() {
            return Err(DecodeError::TrailingBytes);
        }
        value_to_message(v)
    }
}

/// The frame codec law: any message that fits the wire form is returned
/// unchanged by decoding its encoding.
pub proof fn lemma_message_round_trip(m: SpecMessage)
    requires
        spec_message_fits(m),
    ensures
        spec_message_from_bytes(spec_encode_value(spec_message_value(m))) == Some(m),
{
    let mv = spec_message_value(m);
    lemma_message_value_fits(m);
    lemma_decode_encode_value(mv, Seq::empty());
    assert(spec_encode_value(mv) + Seq::<u8>::empty() =~= spec_encode_value(mv));
    lemma_message_value_roundtrip(m);
}

/// Wrap a payload in its frame: the four big-endian bytes of its length,
/// then the payload. Fails exactly when the length does not fit.
pub fn encode_frame(payload: &Vec<u8>) -> (r: Result<Vec<u8>, EncodeError>)
    ensures
        match r {
            Ok(b) => payload@.len() <= LEN32_MAX && b@ == spec_be32(payload@.len() as u32)
                + payload@,
            Err(_) => payload@.len() > LEN32_MAX,
        },
{
    if payload.len() > LEN32_MAX {
        return Err(EncodeError::TooLarge);
    }
    let mut out: Vec<u8> = Vec::new();
    push_be32(&mut out, payload.len() as u32);
    push_bytes(&mut out, payload.as_slice());
    proof {
        assert(Seq::<u8>::empty() + spec_be32(payload@.len() as u32) + payload@ =~= spec_be32(
            payload@.len() as u32,
        ) + payload@);
    }
    Ok(out)
}

/// The payload length announced by a frame header.
pub fn frame_payload_len(header: &Vec<u8>) -> (r: u32)
    requires
        header@.len() >= 4,
    ensures
        r == spec_be32_val(header@[0], header@[1], header@[2], header@[3]),
{
    let mut pos: usize = 0;
    read_be32_at(header, &mut pos)
}

/// A frame is decoded by the length it announces: the header of the frame of
/// any payload that fits announces that payload's length.
pub proof fn lemma_frame_round_trip(payload: Seq<u8>)
    requires
        payload.len() <= LEN32_MAX,
    ensures
        ({
            let framed = spec_be32(payload.len() as u32) + payload;
            &&& framed.len() == 4 + payload.len()
            &&& spec_be32_val(framed[0], framed[1], framed[2], framed[3]) == payload.len()
            &&& framed.skip(4) == payload
        }),
{
    lemma_be32_roundtrip(payload.len() as u32);
    let framed = spec_be32(payload.len() as u32) + payload;
    assert(framed.skip(4) =~= payload);
}

} // verus!
