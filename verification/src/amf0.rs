//! The compact self-describing binary object notation used inside command and
//! data message payloads: numbers, booleans, strings, ordered key/value
//! objects, arrays and dates, each introduced by a one-byte marker.
//!
//! Numbers and dates carry an IEEE-754 double on the wire; the library stores
//! its eight big-endian bytes as a `u64` bit pattern, so the value travels
//! through untouched.

use vstd::prelude::*;

use crate::bytes::{be2, be4, be8, be2_of, be4_of, be8_of, read_be2, read_be4, read_be8,
    lemma_be2_of, lemma_be4_of, lemma_be8_of, lemma_be2_sub, lemma_be4_sub, lemma_be8_sub,
    push_be2, push_be4, push_be8};

verus! {

/// A decoded object-notation value. Text is kept as its raw UTF-8 bytes.
#[derive(Debug)]
pub enum Amf0Value {
    /// Marker 0x00: the bit pattern of a big-endian IEEE-754 double.
    Number { bits: u64 },
    /// Marker 0x01: one byte, nonzero meaning true.
    Boolean { value: bool },
    /// Marker 0x02 (short form) or 0x0C (long form): UTF-8 text.
    Str { text: Vec<u8> },
    /// Marker 0x03: ordered key/value pairs ended by an empty key and 0x09.
    Object { pairs: Vec<(Vec<u8>, Amf0Value)> },
    /// Marker 0x05.
    Null,
    /// Marker 0x06.
    Undefined,
    /// Marker 0x08: a keyed array, framed like an object after a count.
    EcmaArray { pairs: Vec<(Vec<u8>, Amf0Value)> },
    /// Marker 0x0A: a counted list of unkeyed values.
    StrictArray { items: Vec<Amf0Value> },
    /// Marker 0x0B: a double's bit pattern plus a two-byte timezone offset.
    Date { millis_bits: u64, timezone: u16 },
}

/// The mathematical model of an `Amf0Value`.
#[verifier::ext_equal]
pub enum SpecAmf0Value {
    Number { bits: u64 },
    Boolean { value: bool },
    Str { text: Seq<u8> },
    Object { pairs: Seq<(Seq<u8>, SpecAmf0Value)> },
    Null,
    Undefined,
    EcmaArray { pairs: Seq<(Seq<u8>, SpecAmf0Value)> },
    StrictArray { items: Seq<SpecAmf0Value> },
    Date { millis_bits: u64, timezone: u16 },
}

/// Model of one executable value.
pub open spec fn amf0_view(v: Amf0Value) -> SpecAmf0Value
    decreases v,
{
    match v {
        Amf0Value::Number { bits } => SpecAmf0Value::Number { bits },
        Amf0Value::Boolean { value } => SpecAmf0Value::Boolean { value },
        Amf0Value::Str { text } => SpecAmf0Value::Str { text: text@ },
        Amf0Value::Object { pairs } => SpecAmf0Value::Object { pairs: pairs_view(pairs@) },
        Amf0Value::Null => SpecAmf0Value::Null,
        Amf0Value::Undefined => SpecAmf0Value::Undefined,
        Amf0Value::EcmaArray { pairs } => SpecAmf0Value::EcmaArray { pairs: pairs_view(pairs@) },
        Amf0Value::StrictArray { items } => SpecAmf0Value::StrictArray {
            items: items_view(items@),
        },
        Amf0Value::Date { millis_bits, timezone } => SpecAmf0Value::Date { millis_bits, timezone },
    }
}

/// Model of a sequence of key/value pairs.
pub open spec fn pairs_view(pairs: Seq<(Vec<u8>, Amf0Value)>) -> Seq<(Seq<u8>, SpecAmf0Value)>
    decreases pairs,
    via pairs_view_decreases
{
    if pairs.len() == 0 {
        Seq::empty()
    } else {
        seq![(pairs[0].0@, amf0_view(pairs[0].1))] + pairs_view(pairs.drop_first())
    }
}

#[via_fn]
proof fn pairs_view_decreases(pairs: Seq<(Vec<u8>, Amf0Value)>) {
    if pairs.len() > 0 {
        assert(decreases_to!(pairs => pairs[0]));
        assert(decreases_to!(pairs => pairs.subrange(1, pairs.len() as int)));
    }
}

/// Model of a sequence of values.
pub open spec fn items_view(items: Seq<Amf0Value>) -> Seq<SpecAmf0Value>
    decreases items,
    via items_view_decreases
{
    if items.len() == 0 {
        Seq::empty()
    } else {
        seq![amf0_view(items[0])] + items_view(items.drop_first())
    }
}

#[via_fn]
proof fn items_view_decreases(items: Seq<Amf0Value>) {
    if items.len() > 0 {
        assert(decreases_to!(items => items[0]));
        assert(decreases_to!(items => items.subrange(1, items.len() as int)));
    }
}

/// Why a payload failed to decode: the offending byte and where it stood.
#[derive(Debug, Clone, PartialEq, Eq)]
pub enum DecodeError {
    /// The payload ended before the field beginning at `offset` was complete.
    Truncated { offset: usize },
    /// An unrecognized value marker at `offset`.
    UnknownMarker { marker: u8, offset: usize },
    /// A peer-bandwidth limit byte other than hard, soft or dynamic.
    InvalidPeerBandwidthLimit { value: u8 },
    /// A user-control event type outside the known table.
    UnknownUserControlEvent { event_type: u16 },
    /// A command payload whose first value is not a string.
    CommandNameNotAString { offset: usize },
    /// A command payload whose second value is not a number.
    TransactionIdNotANumber { offset: usize },
}

/// The mathematical model of a `DecodeError`.
pub enum SpecDecodeError {
    Truncated { offset: int },
    UnknownMarker { marker: u8, offset: int },
    InvalidPeerBandwidthLimit { value: u8 },
    UnknownUserControlEvent { event_type: u16 },
    CommandNameNotAString { offset: int },
    TransactionIdNotANumber { offset: int },
}

/// Model of one executable decode error.
pub open spec fn error_view(e: DecodeError) -> SpecDecodeError {
    match e {
        DecodeError::Truncated { offset } => SpecDecodeError::Truncated { offset: offset as int },
        DecodeError::UnknownMarker { marker, offset } => SpecDecodeError::UnknownMarker {
            marker,
            offset: offset as int,
        },
        DecodeError::InvalidPeerBandwidthLimit { value } => {
            SpecDecodeError::InvalidPeerBandwidthLimit { value }
        },
        DecodeError::UnknownUserControlEvent { event_type } => {
            SpecDecodeError::UnknownUserControlEvent { event_type }
        },
        DecodeError::CommandNameNotAString { offset } => SpecDecodeError::CommandNameNotAString {
            offset: offset as int,
        },
        DecodeError::TransactionIdNotANumber { offset } => {
            SpecDecodeError::TransactionIdNotANumber { offset: offset as int }
        },
    }
}

/// Outcome of decoding one value starting at a position.
#[verifier::ext_equal]
pub enum SpecValueDecode {
    Value { v: SpecAmf0Value, end: int },
    Fail { err: SpecDecodeError },
}

/// Outcome of decoding the pair list of an object body.
#[verifier::ext_equal]
pub enum SpecPairsDecode {
    Pairs { pairs: Seq<(Seq<u8>, SpecAmf0Value)>, end: int },
    Fail { err: SpecDecodeError },
}

/// Outcome of decoding a counted list of values.
#[verifier::ext_equal]
pub enum SpecItemsDecode {
    Items { items: Seq<SpecAmf0Value>, end: int },
    Fail { err: SpecDecodeError },
}

/// What decoding one value of the byte sequence `s` at `pos` yields: the
/// value and the position one past it, or the first error met.
pub open spec fn spec_decode_value(s: Seq<u8>, pos: int) -> SpecValueDecode
    decreases s.len() - pos, 0int,
{
    if !(0 <= pos < s.len()) {
        SpecValueDecode::Fail { err: SpecDecodeError::Truncated { offset: pos } }
    } else {
        let marker = s[pos];
        if marker == 0x00 {
            if pos + 9 <= s.len() {
                SpecValueDecode::Value {
                    v: SpecAmf0Value::Number { bits: be8(s, pos + 1) },
                    end: pos + 9,
                }
            } else {
                SpecValueDecode::Fail { err: SpecDecodeError::Truncated { offset: pos + 1 } }
            }
        } else if marker == 0x01 {
            if pos + 2 <= s.len() {
                SpecValueDecode::Value {
                    v: SpecAmf0Value::Boolean { value: s[pos + 1] != 0 },
                    end: pos + 2,
                }
            } else {
                SpecValueDecode::Fail { err: SpecDecodeError::Truncated { offset: pos + 1 } }
            }
        } else if marker == 0x02 {
            if pos + 3 <= s.len() {
                let n = be2(s, pos + 1) as int;
                if pos + 3 + n <= s.len() {
                    SpecValueDecode::Value {
                        v: SpecAmf0Value::Str { text: s.subrange(pos + 3, pos + 3 + n) },
                        end: pos + 3 + n,
                    }
                } else {
                    SpecValueDecode::Fail { err: SpecDecodeError::Truncated { offset: pos + 3 } }
                }
            } else {
                SpecValueDecode::Fail { err: SpecDecodeError::Truncated { offset: pos + 1 } }
            }
        } else if marker == 0x03 {
            match spec_decode_pairs(s, pos + 1) {
                SpecPairsDecode::Pairs { pairs, end } => SpecValueDecode::Value {
                    v: SpecAmf0Value::Object { pairs },
                    end,
                },
                SpecPairsDecode::Fail { err } => SpecValueDecode::Fail { err },
            }
        } else if marker == 0x05 {
            SpecValueDecode::Value { v: SpecAmf0Value::Null, end: pos + 1 }
        } else if marker == 0x06 {
            SpecValueDecode::Value { v: SpecAmf0Value::Undefined, end: pos + 1 }
        } else if marker == 0x08 {
            if pos + 5 <= s.len() {
                match spec_decode_pairs(s, pos + 5) {
                    SpecPairsDecode::Pairs { pairs, end } => SpecValueDecode::Value {
                        v: SpecAmf0Value::EcmaArray { pairs },
                        end,
                    },
                    SpecPairsDecode::Fail { err } => SpecValueDecode::Fail { err },
                }
            } else {
                SpecValueDecode::Fail { err: SpecDecodeError::Truncated { offset: pos + 1 } }
            }
        } else if marker == 0x0A {
            if pos + 5 <= s.len() {
                match spec_decode_items(s, pos + 5, be4(s, pos + 1) as int) {
                    SpecItemsDecode::Items { items, end } => SpecValueDecode::Value {
                        v: SpecAmf0Value::StrictArray { items },
                        end,
                    },
                    SpecItemsDecode::Fail { err } => SpecValueDecode::Fail { err },
                }
            } else {
                SpecValueDecode::Fail { err: SpecDecodeError::Truncated { offset: pos + 1 } }
            }
        } else if marker == 0x0B {
            if pos + 11 <= s.len() {
                SpecValueDecode::Value {
                    v: SpecAmf0Value::Date {
                        millis_bits: be8(s, pos + 1),
                        timezone: be2(s, pos + 9),
                    },
                    end: pos + 11,
                }
            } else {
                SpecValueDecode::Fail { err: SpecDecodeError::Truncated { offset: pos + 1 } }
            }
        } else if marker == 0x0C {
            if pos + 5 <= s.len() {
                let n = be4(s, pos + 1) as int;
                if pos + 5 + n <= s.len() {
                    SpecValueDecode::Value {
                        v: SpecAmf0Value::Str { text: s.subrange(pos + 5, pos + 5 + n) },
                        end: pos + 5 + n,
                    }
                } else {
                    SpecValueDecode::Fail { err: SpecDecodeError::Truncated { offset: pos + 5 } }
                }
            } else {
                SpecValueDecode::Fail { err: SpecDecodeError::Truncated { offset: pos + 1 } }
            }
        } else {
            SpecValueDecode::Fail { err: SpecDecodeError::UnknownMarker { marker, offset: pos } }
        }
    }
}

/// What decoding an object's key/value pairs at `pos` yields, up to and
/// including the empty key and end marker 0x09 that close the object.
pub open spec fn spec_decode_pairs(s: Seq<u8>, pos: int) -> SpecPairsDecode
    decreases s.len() - pos, 0int,
{
    if !(0 <= pos && pos + 2 <= s.len()) {
        SpecPairsDecode::Fail { err: SpecDecodeError::Truncated { offset: pos } }
    } else {
        let n = be2(s, pos) as int;
        if n == 0 {
            if pos + 3 <= s.len() {
                if s[pos + 2] == 0x09 {
                    SpecPairsDecode::Pairs { pairs: Seq::empty(), end: pos + 3 }
                } else {
                    SpecPairsDecode::Fail {
                        err: SpecDecodeError::UnknownMarker { marker: s[pos + 2], offset: pos + 2 },
                    }
                }
            } else {
                SpecPairsDecode::Fail { err: SpecDecodeError::Truncated { offset: pos + 2 } }
            }
        } else {
            if pos + 2 + n <= s.len() {
                let key = s.subrange(pos + 2, pos + 2 + n);
                match spec_decode_value(s, pos + 2 + n) {
                    SpecValueDecode::Value { v, end } => {
                        if pos + 2 + n < end && end <= s.len() {
                            match spec_decode_pairs(s, end) {
                                SpecPairsDecode::Pairs { pairs, end: e2 } => {
                                    SpecPairsDecode::Pairs {
                                        pairs: seq![(key, v)] + pairs,
                                        end: e2,
                                    }
                                },
                                SpecPairsDecode::Fail { err } => SpecPairsDecode::Fail { err },
                            }
                        } else {
                            SpecPairsDecode::Fail {
                                err: SpecDecodeError::Truncated { offset: pos },
                            }
                        }
                    },
                    SpecValueDecode::Fail { err } => SpecPairsDecode::Fail { err },
                }
            } else {
                SpecPairsDecode::Fail { err: SpecDecodeError::Truncated { offset: pos + 2 } }
            }
        }
    }
}

/// What decoding `count` consecutive values at `pos` yields.
pub open spec fn spec_decode_items(s: Seq<u8>, pos: int, count: int) -> SpecItemsDecode
    decreases s.len() - pos, count,
{
    if count <= 0 {
        SpecItemsDecode::Items { items: Seq::empty(), end: pos }
    } else {
        match spec_decode_value(s, pos) {
            SpecValueDecode::Value { v, end } => {
                if pos < end && end <= s.len() {
                    match spec_decode_items(s, end, count - 1) {
                        SpecItemsDecode::Items { items, end: e2 } => SpecItemsDecode::Items {
                            items: seq![v] + items,
                            end: e2,
                        },
                        SpecItemsDecode::Fail { err } => SpecItemsDecode::Fail { err },
                    }
                } else {
                    SpecItemsDecode::Fail { err: SpecDecodeError::Truncated { offset: pos } }
                }
            },
            SpecValueDecode::Fail { err } => SpecItemsDecode::Fail { err },
        }
    }
}

/// A successful decode always moves forward and never past the end.
pub proof fn lemma_decode_value_in_range(s: Seq<u8>, pos: int)
    requires
        0 <= pos,
    ensures
        spec_decode_value(s, pos) matches SpecValueDecode::Value { v, end } ==> pos < end
            && end <= s.len(),
    decreases s.len() - pos, 0int,
{
    if 0 <= pos < s.len() {
        let marker = s[pos];
        if marker == 0x03 {
            lemma_decode_pairs_in_range(s, pos + 1);
        } else if marker == 0x08 {
            if pos + 5 <= s.len() {
                lemma_decode_pairs_in_range(s, pos + 5);
            }
        } else if marker == 0x0A {
            if pos + 5 <= s.len() {
                lemma_decode_items_in_range(s, pos + 5, be4(s, pos + 1) as int);
            }
        }
    }
}

/// A successful pair-list decode always moves forward and never past the end.
pub proof fn lemma_decode_pairs_in_range(s: Seq<u8>, pos: int)
    requires
        0 <= pos,
    ensures
        spec_decode_pairs(s, pos) matches SpecPairsDecode::Pairs { pairs, end } ==> pos < end
            && end <= s.len(),
    decreases s.len() - pos, 0int,
{
    if 0 <= pos && pos + 2 <= s.len() {
        let n = be2(s, pos) as int;
        if n > 0 && pos + 2 + n <= s.len() {
            lemma_decode_value_in_range(s, pos + 2 + n);
            match spec_decode_value(s, pos + 2 + n) {
                SpecValueDecode::Value { v, end } => {
                    lemma_decode_pairs_in_range(s, end);
                },
                SpecValueDecode::Fail { .. } => {},
            }
        }
    }
}

/// A successful counted-list decode never moves backward or past the end.
pub proof fn lemma_decode_items_in_range(s: Seq<u8>, pos: int, count: int)
    requires
        0 <= pos,
    ensures
        spec_decode_items(s, pos, count) matches SpecItemsDecode::Items { items, end } ==> pos
            <= end && (count > 0 ==> pos < end) && (end > pos ==> end <= s.len()),
    decreases s.len() - pos, count,
{
    if count > 0 {
        lemma_decode_value_in_range(s, pos);
        match spec_decode_value(s, pos) {
            SpecValueDecode::Value { v, end } => {
                if pos < end && end <= s.len() {
                    lemma_decode_items_in_range(s, end, count - 1);
                }
            },
            SpecValueDecode::Fail { .. } => {},
        }
    }
}

/// Copy of the bytes of `s` from `start` to `end`.
pub fn copy_range(s: &[u8], start: usize, end: usize) -> (r: Vec<u8>)
    requires
        start <= end <= s@.len(),
    ensures
        r@ == s@.subrange(start as int, end as int),
{
    let mut out: Vec<u8> = Vec::new();
    let mut i = start;
    while i < end
        invariant
            start <= i <= end <= s@.len(),
            out@ == s@.subrange(start as int, i as int),
        decreases end - i,
    {
        out.push(s[i]);
        i = i + 1;
        proof {
            assert(out@ =~= s@.subrange(start as int, i as int));
        }
    }
    out
}

/// What an executable value decode stands for in the model.
pub open spec fn value_result_view(r: Result<(Amf0Value, usize), DecodeError>) -> SpecValueDecode {
    match r {
        Ok(p) => SpecValueDecode::Value { v: amf0_view(p.0), end: p.1 as int },
        Err(e) => SpecValueDecode::Fail { err: error_view(e) },
    }
}

/// What an executable pair-list decode stands for in the model.
pub open spec fn pairs_result_view(
    r: Result<(Vec<(Vec<u8>, Amf0Value)>, usize), DecodeError>,
) -> SpecPairsDecode {
    match r {
        Ok(p) => SpecPairsDecode::Pairs { pairs: pairs_view(p.0@), end: p.1 as int },
        Err(e) => SpecPairsDecode::Fail { err: error_view(e) },
    }
}

/// What an executable counted-list decode stands for in the model.
pub open spec fn items_result_view(
    r: Result<(Vec<Amf0Value>, usize), DecodeError>,
) -> SpecItemsDecode {
    match r {
        Ok(p) => SpecItemsDecode::Items { items: items_view(p.0@), end: p.1 as int },
        Err(e) => SpecItemsDecode::Fail { err: error_view(e) },
    }
}

/// Prepending one pair prepends its model.
pub proof fn lemma_pairs_view_cons(p: (Vec<u8>, Amf0Value), ps: Seq<(Vec<u8>, Amf0Value)>)
    ensures
        pairs_view(seq![p] + ps) == seq![(p.0@, amf0_view(p.1))] + pairs_view(ps),
{
    let q = seq![p] + ps;
    assert(q.drop_first() =~= ps);
}

/// Prepending one value prepends its model.
pub proof fn lemma_items_view_cons(v: Amf0Value, items: Seq<Amf0Value>)
    ensures
        items_view(seq![v] + items) == seq![amf0_view(v)] + items_view(items),
{
    let q = seq![v] + items;
    assert(q.drop_first() =~= items);
}

/// Decodes one value of `s` at `pos`, exactly as `spec_decode_value` says.
pub fn decode_value(s: &[u8], pos: usize) -> (r: Result<(Amf0Value, usize), DecodeError>)
    requires
        pos <= s@.len(),
    ensures
        value_result_view(r) == spec_decode_value(s@, pos as int),
    decreases s@.len() - pos, 0int,
{
    let len = s.len();
    if pos >= len {
        return Err(DecodeError::Truncated { offset: pos });
    }
    let marker = s[pos];
    if marker == 0x00 {
        if len - pos >= 9 {
            let bits = read_be8(s, pos + 1);
            Ok((Amf0Value::Number { bits }, pos + 9))
        } else {
            Err(DecodeError::Truncated { offset: pos + 1 })
        }
    } else if marker == 0x01 {
        if len - pos >= 2 {
            let value = s[pos + 1] != 0;
            Ok((Amf0Value::Boolean { value }, pos + 2))
        } else {
            Err(DecodeError::Truncated { offset: pos + 1 })
        }
    } else if marker == 0x02 {
        if len - pos >= 3 {
            let n = read_be2(s, pos + 1) as usize;
            if len - (pos + 3) >= n {
                let text = copy_range(s, pos + 3, pos + 3 + n);
                Ok((Amf0Value::Str { text }, pos + 3 + n))
            } else {
                Err(DecodeError::Truncated { offset: pos + 3 })
            }
        } else {
            Err(DecodeError::Truncated { offset: pos + 1 })
        }
    } else if marker == 0x03 {
        match decode_pairs(s, pos + 1) {
            Ok((pairs, end)) => Ok((Amf0Value::Object { pairs }, end)),
            Err(e) => Err(e),
        }
    } else if marker == 0x05 {
        Ok((Amf0Value::Null, pos + 1))
    } else if marker == 0x06 {
        Ok((Amf0Value::Undefined, pos + 1))
    } else if marker == 0x08 {
        if len - pos >= 5 {
            match decode_pairs(s, pos + 5) {
                Ok((pairs, end)) => Ok((Amf0Value::EcmaArray { pairs }, end)),
                Err(e) => Err(e),
            }
        } else {
            Err(DecodeError::Truncated { offset: pos + 1 })
        }
    } else if marker == 0x0A {
        if len - pos >= 5 {
            let count = read_be4(s, pos + 1);
            match decode_items(s, pos + 5, count) {
                Ok((items, end)) => Ok((Amf0Value::StrictArray { items }, end)),
                Err(e) => Err(e),
            }
        } else {
            Err(DecodeError::Truncated { offset: pos + 1 })
        }
    } else if marker == 0x0B {
        if len - pos >= 11 {
            let millis_bits = read_be8(s, pos + 1);
            let timezone = read_be2(s, pos + 9);
            Ok((Amf0Value::Date { millis_bits, timezone }, pos + 11))
        } else {
            Err(DecodeError::Truncated { offset: pos + 1 })
        }
    } else if marker == 0x0C {
        if len - pos >= 5 {
            let n = read_be4(s, pos + 1) as usize;
            if len - (pos + 5) >= n {
                let text = copy_range(s, pos + 5, pos + 5 + n);
                Ok((Amf0Value::Str { text }, pos + 5 + n))
            } else {
                Err(DecodeError::Truncated { offset: pos + 5 })
            }
        } else {
            Err(DecodeError::Truncated { offset: pos + 1 })
        }
    } else {
        Err(DecodeError::UnknownMarker { marker, offset: pos })
    }
}

/// Decodes an object's pair list, exactly as `spec_decode_pairs` says.
pub fn decode_pairs(s: &[u8], pos: usize) -> (r: Result<
    (Vec<(Vec<u8>, Amf0Value)>, usize),
    DecodeError,
>)
    requires
        pos <= s@.len(),
    ensures
        pairs_result_view(r) == spec_decode_pairs(s@, pos as int),
    decreases s@.len() - pos, 1int,
{
    let len = s.len();
    if len - pos < 2 {
        return Err(DecodeError::Truncated { offset: pos });
    }
    let n = read_be2(s, pos) as usize;
    if n == 0 {
        if len - pos >= 3 {
            let m = s[pos + 2];
            if m == 0x09 {
                let empty: Vec<(Vec<u8>, Amf0Value)> = Vec::new();
                Ok((empty, pos + 3))
            } else {
                Err(DecodeError::UnknownMarker { marker: m, offset: pos + 2 })
            }
        } else {
            Err(DecodeError::Truncated { offset: pos + 2 })
        }
    } else {
        if len - (pos + 2) >= n {
            let key = copy_range(s, pos + 2, pos + 2 + n);
            match decode_value(s, pos + 2 + n) {
                Ok((v, end)) => {
                    proof {
                        lemma_decode_value_in_range(s@, (pos + 2 + n) as int);
                    }
                    match decode_pairs(s, end) {
                        Ok((pairs, e2)) => {
                            let mut pairs = pairs;
                            proof {
                                lemma_pairs_view_cons((key, v), pairs@);
                            }
                            let ghost old_pairs = pairs@;
                            pairs.insert(0, (key, v));
                            proof {
                                assert(pairs@ =~= seq![(key, v)] + old_pairs);
                            }
                            Ok((pairs, e2))
                        },
                        Err(e) => Err(e),
                    }
                },
                Err(e) => Err(e),
            }
        } else {
            Err(DecodeError::Truncated { offset: pos + 2 })
        }
    }
}

/// Decodes `count` consecutive values, exactly as `spec_decode_items` says.
pub fn decode_items(s: &[u8], pos: usize, count: u32) -> (r: Result<
    (Vec<Amf0Value>, usize),
    DecodeError,
>)
    requires
        pos <= s@.len(),
    ensures
        items_result_view(r) == spec_decode_items(s@, pos as int, count as int),
    decreases s@.len() - pos, count,
{
    if count == 0 {
        let empty: Vec<Amf0Value> = Vec::new();
        return Ok((empty, pos));
    }
    match decode_value(s, pos) {
        Ok((v, end)) => {
            proof {
                lemma_decode_value_in_range(s@, pos as int);
            }
            match decode_items(s, end, count - 1) {
                Ok((items, e2)) => {
                    let mut items = items;
                    proof {
                        lemma_items_view_cons(v, items@);
                    }
                    let ghost old_items = items@;
                    items.insert(0, v);
                    proof {
                        assert(items@ =~= seq![v] + old_items);
                    }
                    Ok((items, e2))
                },
                Err(e) => Err(e),
            }
        },
        Err(e) => Err(e),
    }
}

/// Outcome of decoding values until the payload is exhausted.
#[verifier::ext_equal]
pub enum SpecListDecode {
    Values { values: Seq<SpecAmf0Value> },
    Fail { err: SpecDecodeError },
}

/// What decoding values of `s` from `pos` until its end yields.
pub open spec fn spec_decode_value_list(s: Seq<u8>, pos: int) -> SpecListDecode
    decreases s.len() - pos,
{
    if pos >= s.len() {
        SpecListDecode::Values { values: Seq::empty() }
    } else {
        match spec_decode_value(s, pos) {
            SpecValueDecode::Value { v, end } => {
                if pos < end && end <= s.len() {
                    match spec_decode_value_list(s, end) {
                        SpecListDecode::Values { values } => SpecListDecode::Values {
                            values: seq![v] + values,
                        },
                        SpecListDecode::Fail { err } => SpecListDecode::Fail { err },
                    }
                } else {
                    SpecListDecode::Fail { err: SpecDecodeError::Truncated { offset: pos } }
                }
            },
            SpecValueDecode::Fail { err } => SpecListDecode::Fail { err },
        }
    }
}

/// What an executable list decode stands for in the model.
pub open spec fn list_result_view(r: Result<Vec<Amf0Value>, DecodeError>) -> SpecListDecode {
    match r {
        Ok(values) => SpecListDecode::Values { values: items_view(values@) },
        Err(e) => SpecListDecode::Fail { err: error_view(e) },
    }
}

/// Decodes values from `pos` until the end of `s`, as
/// `spec_decode_value_list` says.
pub fn decode_value_list(s: &[u8], pos: usize) -> (r: Result<Vec<Amf0Value>, DecodeError>)
    requires
        pos <= s@.len(),
    ensures
        list_result_view(r) == spec_decode_value_list(s@, pos as int),
    decreases s@.len() - pos,
{
    if pos >= s.len() {
        let empty: Vec<Amf0Value> = Vec::new();
        return Ok(empty);
    }
    match decode_value(s, pos) {
        Ok((v, end)) => {
            proof {
                lemma_decode_value_in_range(s@, pos as int);
            }
            match decode_value_list(s, end) {
                Ok(values) => {
                    let mut values = values;
                    proof {
                        lemma_items_view_cons(v, values@);
                    }
                    let ghost old_values = values@;
                    values.insert(0, v);
                    proof {
                        assert(values@ =~= seq![v] + old_values);
                    }
                    Ok(values)
                },
                Err(e) => Err(e),
            }
        },
        Err(e) => Err(e),
    }
}

/// The bytes that encode a value. Strings that fit the two-byte length use
/// the short form; longer ones the long form.
pub open spec fn spec_encode_value(v: SpecAmf0Value) -> Seq<u8>
    decreases v,
{
    match v {
        SpecAmf0Value::Number { bits } => seq![0x00u8] + be8_of(bits),
        SpecAmf0Value::Boolean { value } => seq![
            0x01u8,
            if value {
                1u8
            } else {
                0u8
            },
        ],
        SpecAmf0Value::Str { text } => if text.len() <= 0xFFFF {
            seq![0x02u8] + be2_of(text.len() as u16) + text
        } else {
            seq![0x0Cu8] + be4_of(text.len() as u32) + text
        },
        SpecAmf0Value::Object { pairs } => seq![0x03u8] + spec_encode_pairs(pairs) + seq![
            0u8,
            0u8,
            0x09u8,
        ],
        SpecAmf0Value::Null => seq![0x05u8],
        SpecAmf0Value::Undefined => seq![0x06u8],
        SpecAmf0Value::EcmaArray { pairs } => seq![0x08u8] + be4_of(pairs.len() as u32)
            + spec_encode_pairs(pairs) + seq![0u8, 0u8, 0x09u8],
        SpecAmf0Value::StrictArray { items } => seq![0x0Au8] + be4_of(items.len() as u32)
            + spec_encode_items(items),
        SpecAmf0Value::Date { millis_bits, timezone } => seq![0x0Bu8] + be8_of(millis_bits)
            + be2_of(timezone),
    }
}

/// The bytes that encode an object's pairs, without the end sentinel.
pub open spec fn spec_encode_pairs(ps: Seq<(Seq<u8>, SpecAmf0Value)>) -> Seq<u8>
    decreases ps,
    via spec_encode_pairs_decreases
{
    if ps.len() == 0 {
        Seq::empty()
    } else {
        be2_of(ps[0].0.len() as u16) + ps[0].0 + spec_encode_value(ps[0].1) + spec_encode_pairs(
            ps.drop_first(),
        )
    }
}

#[via_fn]
proof fn spec_encode_pairs_decreases(ps: Seq<(Seq<u8>, SpecAmf0Value)>) {
    if ps.len() > 0 {
        assert(decreases_to!(ps => ps[0]));
        assert(decreases_to!(ps => ps.subrange(1, ps.len() as int)));
    }
}

/// The bytes that encode a counted list of values.
pub open spec fn spec_encode_items(items: Seq<SpecAmf0Value>) -> Seq<u8>
    decreases items,
    via spec_encode_items_decreases
{
    if items.len() == 0 {
        Seq::empty()
    } else {
        spec_encode_value(items[0]) + spec_encode_items(items.drop_first())
    }
}

#[via_fn]
proof fn spec_encode_items_decreases(items: Seq<SpecAmf0Value>) {
    if items.len() > 0 {
        assert(decreases_to!(items => items[0]));
        assert(decreases_to!(items => items.subrange(1, items.len() as int)));
    }
}

/// Whether the wire format can carry the value: string and count fields fit
/// their length fields, and object keys are nonempty (an empty key would
/// read back as the end sentinel) and fit two bytes.
pub open spec fn spec_encodable(v: SpecAmf0Value) -> bool
    decreases v,
{
    match v {
        SpecAmf0Value::Str { text } => text.len() <= 0xFFFFFFFF,
        SpecAmf0Value::Object { pairs } => spec_encodable_pairs(pairs),
        SpecAmf0Value::EcmaArray { pairs } => pairs.len() <= 0xFFFFFFFF && spec_encodable_pairs(
            pairs,
        ),
        SpecAmf0Value::StrictArray { items } => items.len() <= 0xFFFFFFFF
            && spec_encodable_items(items),
        _ => true,
    }
}

/// Whether every pair of an object body is encodable.
pub open spec fn spec_encodable_pairs(ps: Seq<(Seq<u8>, SpecAmf0Value)>) -> bool
    decreases ps,
    via spec_encodable_pairs_decreases
{
    if ps.len() == 0 {
        true
    } else {
        &&& 1 <= ps[0].0.len() <= 0xFFFF
        &&& spec_encodable(ps[0].1)
        &&& spec_encodable_pairs(ps.drop_first())
    }
}

#[via_fn]
proof fn spec_encodable_pairs_decreases(ps: Seq<(Seq<u8>, SpecAmf0Value)>) {
    if ps.len() > 0 {
        assert(decreases_to!(ps => ps[0]));
        assert(decreases_to!(ps => ps.subrange(1, ps.len() as int)));
    }
}

/// Whether every value of a list is encodable.
pub open spec fn spec_encodable_items(items: Seq<SpecAmf0Value>) -> bool
    decreases items,
    via spec_encodable_items_decreases
{
    if items.len() == 0 {
        true
    } else {
        spec_encodable(items[0]) && spec_encodable_items(items.drop_first())
    }
}

#[via_fn]
proof fn spec_encodable_items_decreases(items: Seq<SpecAmf0Value>) {
    if items.len() > 0 {
        assert(decreases_to!(items => items[0]));
        assert(decreases_to!(items => items.subrange(1, items.len() as int)));
    }
}

/// The bytes of an embedded encoding, read one by one.
proof fn lemma_sub_bytes(s: Seq<u8>, pos: int, enc: Seq<u8>)
    requires
        0 <= pos,
        pos + enc.len() <= s.len(),
        s.subrange(pos, pos + enc.len()) == enc,
    ensures
        forall|k: int| 0 <= k < enc.len() ==> s[pos + k] == enc[k],
{
    assert forall|k: int| 0 <= k < enc.len() implies s[pos + k] == enc[k] by {
        assert(s.subrange(pos, pos + enc.len())[k] == s[pos + k]);
    }
}

/// One byte of an embedded encoding.
proof fn lemma_byte_at(s: Seq<u8>, pos: int, enc: Seq<u8>, k: int)
    requires
        0 <= pos,
        pos + enc.len() <= s.len(),
        s.subrange(pos, pos + enc.len()) == enc,
        0 <= k < enc.len(),
    ensures
        s[pos + k] == enc[k],
{
    assert(s.subrange(pos, pos + enc.len())[k] == enc[k]);
}

/// A slice of an embedded encoding is itself embedded.
proof fn lemma_sub_sub(s: Seq<u8>, pos: int, enc: Seq<u8>, a: int, b: int)
    requires
        0 <= pos,
        pos + enc.len() <= s.len(),
        s.subrange(pos, pos + enc.len()) == enc,
        0 <= a <= b <= enc.len(),
    ensures
        s.subrange(pos + a, pos + b) == enc.subrange(a, b),
{
    lemma_sub_bytes(s, pos, enc);
    assert(s.subrange(pos + a, pos + b) =~= enc.subrange(a, b));
}

/// Object-notation round trip: wherever the encoding of an encodable value
/// stands in a byte sequence, decoding there yields back exactly that value
/// and stops one past its encoding.
#[verifier::rlimit(100)]
pub proof fn lemma_decode_encoded_value(v: SpecAmf0Value, s: Seq<u8>, pos: int)
    requires
        spec_encodable(v),
        0 <= pos,
        pos + spec_encode_value(v).len() <= s.len(),
        s.subrange(pos, pos + spec_encode_value(v).len()) == spec_encode_value(v),
    ensures
        spec_decode_value(s, pos) == (SpecValueDecode::Value {
            v,
            end: pos + spec_encode_value(v).len(),
        }),
    decreases v,
{
    let enc = spec_encode_value(v);
    lemma_byte_at(s, pos, enc, 0);
    match v {
        SpecAmf0Value::Number { bits } => {
            lemma_be8_of(bits);
            lemma_sub_sub(s, pos, enc, 1, 9);
            assert(enc.subrange(1, 9) =~= be8_of(bits));
            assert(be8_of(bits).subrange(0, 8) =~= be8_of(bits));
            lemma_be8_sub(s, pos + 1, be8_of(bits), 0);
        },
        SpecAmf0Value::Boolean { value } => {
            lemma_byte_at(s, pos, enc, 1);
        },
        SpecAmf0Value::Str { text } => {
            if text.len() <= 0xFFFF {
                lemma_be2_of(text.len() as u16);
                lemma_sub_sub(s, pos, enc, 1, 3);
                assert(enc.subrange(1, 3) =~= be2_of(text.len() as u16));
                assert(be2_of(text.len() as u16).subrange(0, 2) =~= be2_of(text.len() as u16));
                lemma_be2_sub(s, pos + 1, be2_of(text.len() as u16), 0);
                assert(s.subrange(pos + 3, pos + 3 + text.len()) =~= text) by {
                    lemma_sub_sub(s, pos, enc, 3, 3 + text.len() as int);
                    assert(enc.subrange(3, 3 + text.len() as int) =~= text);
                }
            } else {
                lemma_be4_of(text.len() as u32);
                lemma_sub_sub(s, pos, enc, 1, 5);
                assert(enc.subrange(1, 5) =~= be4_of(text.len() as u32));
                assert(be4_of(text.len() as u32).subrange(0, 4) =~= be4_of(text.len() as u32));
                lemma_be4_sub(s, pos + 1, be4_of(text.len() as u32), 0);
                assert(s.subrange(pos + 5, pos + 5 + text.len()) =~= text) by {
                    lemma_sub_sub(s, pos, enc, 5, 5 + text.len() as int);
                    assert(enc.subrange(5, 5 + text.len() as int) =~= text);
                }
            }
        },
        SpecAmf0Value::Object { pairs } => {
            let body = spec_encode_pairs(pairs);
            assert(decreases_to!(v => pairs));
            lemma_sub_sub(s, pos, enc, 1, enc.len() as int);
            assert(enc.subrange(1, enc.len() as int) =~= body + seq![0u8, 0u8, 0x09u8]);
            lemma_decode_encoded_pairs(pairs, s, pos + 1);
        },
        SpecAmf0Value::Null => {
        },
        SpecAmf0Value::Undefined => {
        },
        SpecAmf0Value::EcmaArray { pairs } => {
            let body = spec_encode_pairs(pairs);
            assert(decreases_to!(v => pairs));
            lemma_sub_sub(s, pos, enc, 5, enc.len() as int);
            assert(enc.subrange(5, enc.len() as int) =~= body + seq![0u8, 0u8, 0x09u8]);
            lemma_decode_encoded_pairs(pairs, s, pos + 5);
        },
        SpecAmf0Value::StrictArray { items } => {
            lemma_be4_of(items.len() as u32);
            lemma_sub_sub(s, pos, enc, 1, 5);
            assert(enc.subrange(1, 5) =~= be4_of(items.len() as u32));
            assert(be4_of(items.len() as u32).subrange(0, 4) =~= be4_of(items.len() as u32));
            lemma_be4_sub(s, pos + 1, be4_of(items.len() as u32), 0);
            let body = spec_encode_items(items);
            assert(decreases_to!(v => items));
            lemma_sub_sub(s, pos, enc, 5, enc.len() as int);
            assert(enc.subrange(5, enc.len() as int) =~= body);
            lemma_decode_encoded_items(items, s, pos + 5);
        },
        SpecAmf0Value::Date { millis_bits, timezone } => {
            lemma_be8_of(millis_bits);
            lemma_sub_sub(s, pos, enc, 1, 9);
            assert(enc.subrange(1, 9) =~= be8_of(millis_bits));
            assert(be8_of(millis_bits).subrange(0, 8) =~= be8_of(millis_bits));
            lemma_be8_sub(s, pos + 1, be8_of(millis_bits), 0);
            lemma_be2_of(timezone);
            lemma_sub_sub(s, pos, enc, 9, 11);
            assert(enc.subrange(9, 11) =~= be2_of(timezone));
            assert(be2_of(timezone).subrange(0, 2) =~= be2_of(timezone));
            lemma_be2_sub(s, pos + 9, be2_of(timezone), 0);
        },
    }
}

/// Round trip for an object body followed by the end sentinel.
pub proof fn lemma_decode_encoded_pairs(ps: Seq<(Seq<u8>, SpecAmf0Value)>, s: Seq<u8>, pos: int)
    requires
        spec_encodable_pairs(ps),
        0 <= pos,
        pos + spec_encode_pairs(ps).len() + 3 <= s.len(),
        s.subrange(pos, pos + spec_encode_pairs(ps).len() + 3) == spec_encode_pairs(ps) + seq![
            0u8,
            0u8,
            0x09u8,
        ],
    ensures
        spec_decode_pairs(s, pos) == (SpecPairsDecode::Pairs {
            pairs: ps,
            end: pos + spec_encode_pairs(ps).len() + 3,
        }),
    decreases ps,
{
    let body = spec_encode_pairs(ps) + seq![0u8, 0u8, 0x09u8];
    if ps.len() == 0 {
        lemma_byte_at(s, pos, body, 0);
        lemma_byte_at(s, pos, body, 1);
        lemma_byte_at(s, pos, body, 2);
        assert(be2(s, pos) == 0);
        assert(s[pos + 2] == 0x09);
    } else {
        let key = ps[0].0;
        let k = key.len() as int;
        let ev = spec_encode_value(ps[0].1);
        let rest = spec_encode_pairs(ps.drop_first());
        assert(body =~= be2_of(key.len() as u16) + key + ev + (rest + seq![0u8, 0u8, 0x09u8]));
        lemma_be2_of(key.len() as u16);
        lemma_sub_sub(s, pos, body, 0, 2);
        assert(body.subrange(0, 2) =~= be2_of(key.len() as u16));
        assert(be2_of(key.len() as u16).subrange(0, 2) =~= be2_of(key.len() as u16));
        lemma_be2_sub(s, pos, be2_of(key.len() as u16), 0);
        assert(be2(s, pos) == k);
        assert(s.subrange(pos + 2, pos + 2 + k) =~= key) by {
            lemma_sub_sub(s, pos, body, 2, 2 + k);
            assert(body.subrange(2, 2 + k) =~= key);
        }
        let vpos = pos + 2 + k;
        assert(s.subrange(vpos, vpos + ev.len()) =~= ev) by {
            lemma_sub_sub(s, pos, body, 2 + k, 2 + k + ev.len());
            assert(body.subrange(2 + k, 2 + k + ev.len()) =~= ev);
        }
        assert(decreases_to!(ps => ps[0].1));
        lemma_decode_encoded_value(ps[0].1, s, vpos);
        let end0 = vpos + ev.len();
        assert(s.subrange(end0, end0 + rest.len() + 3) =~= rest + seq![0u8, 0u8, 0x09u8]) by {
            lemma_sub_sub(s, pos, body, 2 + k + ev.len(), body.len() as int);
            assert(body.subrange(2 + k + ev.len(), body.len() as int) =~= rest + seq![
                0u8,
                0u8,
                0x09u8,
            ]);
        }
        assert(decreases_to!(ps => ps.subrange(1, ps.len() as int)));
        lemma_decode_encoded_pairs(ps.drop_first(), s, end0);
        assert(seq![(key, ps[0].1)] + ps.drop_first() =~= ps);
    }
}

/// Round trip for a counted list of values.
pub proof fn lemma_decode_encoded_items(items: Seq<SpecAmf0Value>, s: Seq<u8>, pos: int)
    requires
        spec_encodable_items(items),
        0 <= pos,
        pos + spec_encode_items(items).len() <= s.len(),
        s.subrange(pos, pos + spec_encode_items(items).len()) == spec_encode_items(items),
    ensures
        spec_decode_items(s, pos, items.len() as int) == (SpecItemsDecode::Items {
            items,
            end: pos + spec_encode_items(items).len(),
        }),
    decreases items,
{
    if items.len() == 0 {
    } else {
        let body = spec_encode_items(items);
        let ev = spec_encode_value(items[0]);
        let rest = spec_encode_items(items.drop_first());
        assert(body =~= ev + rest);
        assert(s.subrange(pos, pos + ev.len()) =~= ev) by {
            lemma_sub_sub(s, pos, body, 0, ev.len() as int);
            assert(body.subrange(0, ev.len() as int) =~= ev);
        }
        assert(decreases_to!(items => items[0]));
        lemma_decode_encoded_value(items[0], s, pos);
        let end0 = pos + ev.len();
        assert(s.subrange(end0, end0 + rest.len()) =~= rest) by {
            lemma_sub_sub(s, pos, body, ev.len() as int, body.len() as int);
            assert(body.subrange(ev.len() as int, body.len() as int) =~= rest);
        }
        assert(decreases_to!(items => items.subrange(1, items.len() as int)));
        lemma_decode_encoded_items(items.drop_first(), s, end0);
        assert(seq![items[0]] + items.drop_first() =~= items);
    }
}

/// A pair list and its model have the same length.
pub proof fn lemma_pairs_view_len(ps: Seq<(Vec<u8>, Amf0Value)>)
    ensures
        pairs_view(ps).len() == ps.len(),
    decreases ps.len(),
{
    if ps.len() > 0 {
        lemma_pairs_view_len(ps.drop_first());
    }
}

/// The model of a pair list, pointwise.
pub proof fn lemma_pairs_view_index(ps: Seq<(Vec<u8>, Amf0Value)>, i: int)
    requires
        0 <= i < ps.len(),
    ensures
        pairs_view(ps).len() == ps.len(),
        pairs_view(ps)[i] == (ps[i].0@, amf0_view(ps[i].1)),
    decreases i,
{
    lemma_pairs_view_len(ps);
    if i > 0 {
        lemma_pairs_view_index(ps.drop_first(), i - 1);
    }
}

/// A value list and its model have the same length.
pub proof fn lemma_items_view_len(items: Seq<Amf0Value>)
    ensures
        items_view(items).len() == items.len(),
    decreases items.len(),
{
    if items.len() > 0 {
        lemma_items_view_len(items.drop_first());
    }
}

/// The model of a value list, pointwise.
pub proof fn lemma_items_view_index(items: Seq<Amf0Value>, i: int)
    requires
        0 <= i < items.len(),
    ensures
        items_view(items).len() == items.len(),
        items_view(items)[i] == amf0_view(items[i]),
    decreases i,
{
    lemma_items_view_len(items);
    if i > 0 {
        lemma_items_view_index(items.drop_first(), i - 1);
    }
}

/// Appends all bytes of `src`.
fn push_all(out: &mut Vec<u8>, src: &Vec<u8>)
    ensures
        final(out)@ == old(out)@ + src@,
{
    let mut i: usize = 0;
    let ghost before = out@;
    while i < src.len()
        invariant
            i <= src@.len(),
            out@ == before + src@.subrange(0, i as int),
        decreases src@.len() - i,
    {
        out.push(src[i]);
        i = i + 1;
        proof {
            assert(out@ =~= before + src@.subrange(0, i as int));
        }
    }
    proof {
        assert(src@.subrange(0, src@.len() as int) =~= src@);
    }
}

/// Splitting an object body splits its encoding.
proof fn lemma_encode_pairs_concat(a: Seq<(Seq<u8>, SpecAmf0Value)>, b: Seq<(Seq<u8>, SpecAmf0Value)>)
    ensures
        spec_encode_pairs(a + b) == spec_encode_pairs(a) + spec_encode_pairs(b),
    decreases a.len(),
{
    if a.len() == 0 {
        assert(a + b =~= b);
        assert(spec_encode_pairs(a) + spec_encode_pairs(b) =~= spec_encode_pairs(b));
    } else {
        assert((a + b)[0] == a[0]);
        assert((a + b).drop_first() =~= a.drop_first() + b);
        lemma_encode_pairs_concat(a.drop_first(), b);
        assert(spec_encode_pairs(a + b) =~= spec_encode_pairs(a) + spec_encode_pairs(b));
    }
}

/// Splitting a value list splits its encoding.
proof fn lemma_encode_items_concat(a: Seq<SpecAmf0Value>, b: Seq<SpecAmf0Value>)
    ensures
        spec_encode_items(a + b) == spec_encode_items(a) + spec_encode_items(b),
    decreases a.len(),
{
    if a.len() == 0 {
        assert(a + b =~= b);
        assert(spec_encode_items(a) + spec_encode_items(b) =~= spec_encode_items(b));
    } else {
        assert((a + b)[0] == a[0]);
        assert((a + b).drop_first() =~= a.drop_first() + b);
        lemma_encode_items_concat(a.drop_first(), b);
        assert(spec_encode_items(a + b) =~= spec_encode_items(a) + spec_encode_items(b));
    }
}

/// Every suffix of an encodable pair list is encodable.
proof fn lemma_encodable_pairs_skip(ps: Seq<(Seq<u8>, SpecAmf0Value)>, i: int)
    requires
        spec_encodable_pairs(ps),
        0 <= i <= ps.len(),
    ensures
        spec_encodable_pairs(ps.skip(i)),
    decreases i,
{
    if i == 0 {
        assert(ps.skip(0) =~= ps);
    } else {
        lemma_encodable_pairs_skip(ps, i - 1);
        let t = ps.skip(i - 1);
        assert(t.len() > 0);
        assert(t.drop_first() =~= ps.skip(i));
    }
}

/// Every suffix of an encodable value list is encodable.
proof fn lemma_encodable_items_skip(items: Seq<SpecAmf0Value>, i: int)
    requires
        spec_encodable_items(items),
        0 <= i <= items.len(),
    ensures
        spec_encodable_items(items.skip(i)),
    decreases i,
{
    if i == 0 {
        assert(items.skip(0) =~= items);
    } else {
        lemma_encodable_items_skip(items, i - 1);
        let t = items.skip(i - 1);
        assert(t.len() > 0);
        assert(t.drop_first() =~= items.skip(i));
    }
}

/// Appends the encoding of `v`. The value must be representable: string,
/// key and count fields must fit the wire format's length fields.
pub fn encode_value(v: &Amf0Value, out: &mut Vec<u8>)
    requires
        spec_encodable(amf0_view(*v)),
    ensures
        final(out)@ == old(out)@ + spec_encode_value(amf0_view(*v)),
    decreases *v,
{
    let ghost before = out@;
    let ghost target = spec_encode_value(amf0_view(*v));
    match v {
        Amf0Value::Number { bits } => {
            out.push(0x00);
            push_be8(out, *bits);
            proof {
                assert(out@ =~= before + target);
            }
        },
        Amf0Value::Boolean { value } => {
            out.push(0x01);
            out.push(
                if *value {
                    1
                } else {
                    0
                },
            );
            proof {
                assert(out@ =~= before + target);
            }
        },
        Amf0Value::Str { text } => {
            if text.len() <= 0xFFFF {
                out.push(0x02);
                push_be2(out, text.len() as u16);
                push_all(out, text);
            } else {
                out.push(0x0C);
                push_be4(out, text.len() as u32);
                push_all(out, text);
            }
            proof {
                assert(out@ =~= before + target);
            }
        },
        Amf0Value::Object { pairs } => {
            out.push(0x03);
            encode_pairs(pairs, out);
            out.push(0x00);
            out.push(0x00);
            out.push(0x09);
            proof {
                assert(out@ =~= before + target);
            }
        },
        Amf0Value::Null => {
            out.push(0x05);
            proof {
                assert(out@ =~= before + target);
            }
        },
        Amf0Value::Undefined => {
            out.push(0x06);
            proof {
                assert(out@ =~= before + target);
            }
        },
        Amf0Value::EcmaArray { pairs } => {
            out.push(0x08);
            push_be4(out, pairs.len() as u32);
            encode_pairs(pairs, out);
            out.push(0x00);
            out.push(0x00);
            out.push(0x09);
            proof {
                lemma_pairs_view_len(pairs@);
                assert(out@ =~= before + target);
            }
        },
        Amf0Value::StrictArray { items } => {
            out.push(0x0A);
            push_be4(out, items.len() as u32);
            encode_items(items, out);
            proof {
                lemma_items_view_len(items@);
                assert(out@ =~= before + target);
            }
        },
        Amf0Value::Date { millis_bits, timezone } => {
            out.push(0x0B);
            push_be8(out, *millis_bits);
            push_be2(out, *timezone);
            proof {
                assert(out@ =~= before + target);
            }
        },
    }
}

/// Appends the encoding of an object body, without the end sentinel.
fn encode_pairs(pairs: &Vec<(Vec<u8>, Amf0Value)>, out: &mut Vec<u8>)
    requires
        spec_encodable_pairs(pairs_view(pairs@)),
    ensures
        final(out)@ == old(out)@ + spec_encode_pairs(pairs_view(pairs@)),
    decreases *pairs,
{
    let ghost before = out@;
    let ghost ps = pairs_view(pairs@);
    let mut i: usize = 0;
    proof {
        lemma_pairs_view_len(pairs@);
        assert(ps.take(0) =~= Seq::<(Seq<u8>, SpecAmf0Value)>::empty());
        assert(before + spec_encode_pairs(ps.take(0)) =~= before);
    }
    while i < pairs.len()
        invariant
            i <= pairs@.len(),
            ps == pairs_view(pairs@),
            ps.len() == pairs@.len(),
            spec_encodable_pairs(ps),
            out@ == before + spec_encode_pairs(ps.take(i as int)),
        decreases pairs@.len() - i,
    {
        proof {
            lemma_pairs_view_index(pairs@, i as int);
            lemma_encodable_pairs_skip(ps, i as int);
            assert(ps.skip(i as int)[0] == ps[i as int]);
        }
        let key = &pairs[i].0;
        push_be2(out, key.len() as u16);
        push_all(out, key);
        proof {
            assert(decreases_to!(*pairs => pairs@[i as int].1));
        }
        encode_value(&pairs[i].1, out);
        proof {
            let j = i as int;
            assert(ps.take(j + 1) =~= ps.take(j) + seq![ps[j]]);
            lemma_encode_pairs_concat(ps.take(j), seq![ps[j]]);
            assert(seq![ps[j]].drop_first() =~= Seq::<(Seq<u8>, SpecAmf0Value)>::empty());
            reveal_with_fuel(spec_encode_pairs, 2);
            assert(spec_encode_pairs(seq![ps[j]]) =~= be2_of(ps[j].0.len() as u16) + ps[j].0
                + spec_encode_value(ps[j].1));
            assert(ps[j].0 == pairs@[j].0@ && ps[j].1 == amf0_view(pairs@[j].1));
            assert(out@ =~= before + spec_encode_pairs(ps.take(j + 1)));
        }
        i = i + 1;
    }
    proof {
        assert(ps.take(pairs@.len() as int) =~= ps);
    }
}

/// Appends the encoding of a value list.
fn encode_items(items: &Vec<Amf0Value>, out: &mut Vec<u8>)
    requires
        spec_encodable_items(items_view(items@)),
    ensures
        final(out)@ == old(out)@ + spec_encode_items(items_view(items@)),
    decreases *items,
{
    let ghost before = out@;
    let ghost vs = items_view(items@);
    let mut i: usize = 0;
    proof {
        lemma_items_view_len(items@);
        assert(vs.take(0) =~= Seq::<SpecAmf0Value>::empty());
        assert(before + spec_encode_items(vs.take(0)) =~= before);
    }
    while i < items.len()
        invariant
            i <= items@.len(),
            vs == items_view(items@),
            vs.len() == items@.len(),
            spec_encodable_items(vs),
            out@ == before + spec_encode_items(vs.take(i as int)),
        decreases items@.len() - i,
    {
        proof {
            lemma_items_view_index(items@, i as int);
            lemma_encodable_items_skip(vs, i as int);
            assert(vs.skip(i as int)[0] == vs[i as int]);
            assert(decreases_to!(*items => items@[i as int]));
        }
        encode_value(&items[i], out);
        proof {
            let j = i as int;
            assert(vs.take(j + 1) =~= vs.take(j) + seq![vs[j]]);
            lemma_encode_items_concat(vs.take(j), seq![vs[j]]);
            assert(seq![vs[j]].drop_first() =~= Seq::<SpecAmf0Value>::empty());
            reveal_with_fuel(spec_encode_items, 2);
            assert(spec_encode_items(seq![vs[j]]) =~= spec_encode_value(vs[j]));
            assert(vs[j] == amf0_view(items@[j]));
            assert(out@ =~= before + spec_encode_items(vs.take(j + 1)));
        }
        i = i + 1;
    }
    proof {
        assert(vs.take(items@.len() as int) =~= vs);
    }
}

} // verus!
