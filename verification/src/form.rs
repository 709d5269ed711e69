//! The form decoder.
//!
//! A schema declares named fields with semantic types; a raw body is
//! decoded field by field into a typed value, or refused with exactly
//! one classified error. The taxonomy is layered: a body that is not
//! valid UTF-8 fails with the encoding error before any field is
//! looked at; otherwise the first field in schema declaration order
//! that fails conversion (or is missing, treated as an empty raw value)
//! names the error. No partial success: every field validates or the
//! whole decode fails.

use vstd::prelude::*;
use vstd::utf8::valid_utf8;
use crate::bytes::bytes_eq;
use crate::router::{spec_lookup, spec_pairs, parse_pairs};
use crate::utf8::is_valid_utf8;

verus! {

/// The semantic type of a declared field.
#[derive(Debug, Clone)]
pub enum FieldType {
    /// A checkbox-like flag: absence means `false`; a fixed token set
    /// ("on"/"true" and "off"/"false") is recognized, anything else is
    /// malformed.
    Boolean,
    /// A non-negative base-10 integer.
    Unsigned,
    /// A bounded enumeration: the raw value must match one of the
    /// declared labels case-sensitively.
    Enumeration(Vec<Vec<u8>>),
    /// Text accepted as-is, exactly the bytes that came over the wire.
    RawText,
    /// Text accepted as-is and owned by the decoded value.
    OwnedText,
}

/// One declared field: its in-memory name, an optional wire-name
/// override distinct from that name, and its semantic type.
#[derive(Debug, Clone)]
pub struct Field {
    pub name: Vec<u8>,
    pub wire: Option<Vec<u8>>,
    pub ty: FieldType,
}

/// A declared set of named fields, immutable once built.
#[derive(Debug, Clone)]
pub struct FormSchema {
    pub fields: Vec<Field>,
}

/// A decoded field value in its semantic type.
#[derive(Debug, Clone, PartialEq, Eq)]
pub enum FieldValue {
    Bool(bool),
    Uint(u64),
    /// Index of the matched label among the declared ones.
    Choice(usize),
    Text(Vec<u8>),
}

/// A value instance conforming to a schema: one value per declared
/// field, in declaration order.
#[derive(Debug, Clone, PartialEq, Eq)]
pub struct DecodedForm {
    pub values: Vec<FieldValue>,
}

/// Why a decode failed: the body was not valid text, or one named
/// field (the first bad one in schema order) had the given raw value.
#[derive(Debug, Clone, PartialEq, Eq)]
pub enum DecodeError {
    Encoding,
    Field(Vec<u8>, Vec<u8>),
}

/// The mathematical model of a decoded field value.
pub enum SpecValue {
    Bool(bool),
    Uint(int),
    Choice(int),
    Text(Seq<u8>),
}

/// The model of an executable field value.
pub open spec fn value_view(v: FieldValue) -> SpecValue {
    match v {
        FieldValue::Bool(b) => SpecValue::Bool(b),
        FieldValue::Uint(n) => SpecValue::Uint(n as int),
        FieldValue::Choice(i) => SpecValue::Choice(i as int),
        FieldValue::Text(t) => SpecValue::Text(t@),
    }
}

/// The models of a sequence of field values.
pub open spec fn values_view(v: Seq<FieldValue>) -> Seq<SpecValue> {
    Seq::new(v.len(), |i: int| value_view(v[i]))
}

/// The wire name a field's value travels under: its declared override,
/// or its in-memory name when none is declared.
pub open spec fn spec_wire_name(f: Field) -> Seq<u8> {
    match f.wire {
        Some(w) => w@,
        None => f.name@,
    }
}

pub open spec fn is_digit(b: u8) -> bool {
    48 <= b <= 57
}

/// True when `s` is a non-empty run of base-10 digits.
pub open spec fn all_digits(s: Seq<u8>) -> bool {
    s.len() > 0 && (forall|i: int| 0 <= i < s.len() ==> is_digit(#[trigger] s[i]))
}

/// The base-10 value of a digit run.
pub open spec fn dec_value(s: Seq<u8>) -> int
    decreases s.len(),
{
    if s.len() == 0 {
        0
    } else {
        dec_value(s.drop_last()) * 10 + (s.last() - 48)
    }
}

/// Index of the first declared label equal to `v`, or `-1`.
pub open spec fn label_index(labels: Seq<Vec<u8>>, v: Seq<u8>) -> int
    decreases labels.len(),
{
    if labels.len() == 0 {
        -1
    } else if labels[0]@ == v {
        0
    } else {
        let r = label_index(labels.skip(1), v);
        if r < 0 {
            -1
        } else {
            r + 1
        }
    }
}

pub open spec fn on_bytes() -> Seq<u8> {
    seq![111u8, 110u8]  // "on"
}

pub open spec fn true_bytes() -> Seq<u8> {
    seq![116u8, 114u8, 117u8, 101u8]  // "true"
}

pub open spec fn off_bytes() -> Seq<u8> {
    seq![111u8, 102u8, 102u8]  // "off"
}

pub open spec fn false_bytes() -> Seq<u8> {
    seq![102u8, 97u8, 108u8, 115u8, 101u8]  // "false"
}

/// What one field decodes to from its raw wire value, if present:
/// the typed value, or the offending raw value (empty for a missing
/// required field).
pub open spec fn spec_field_value(ty: FieldType, raw: Option<Seq<u8>>) -> Result<SpecValue, Seq<u8>> {
    match ty {
        FieldType::Boolean => match raw {
            None => Ok(SpecValue::Bool(false)),
            Some(v) => if v == on_bytes() || v == true_bytes() {
                Ok(SpecValue::Bool(true))
            } else if v == off_bytes() || v == false_bytes() {
                Ok(SpecValue::Bool(false))
            } else {
                Err(v)
            },
        },
        FieldType::Unsigned => match raw {
            None => Err(Seq::empty()),
            Some(v) => if all_digits(v) && dec_value(v) <= u64::MAX {
                Ok(SpecValue::Uint(dec_value(v)))
            } else {
                Err(v)
            },
        },
        FieldType::Enumeration(labels) => match raw {
            None => Err(Seq::empty()),
            Some(v) => if label_index(labels@, v) >= 0 {
                Ok(SpecValue::Choice(label_index(labels@, v)))
            } else {
                Err(v)
            },
        },
        FieldType::RawText => match raw {
            None => Err(Seq::empty()),
            Some(v) => Ok(SpecValue::Text(v)),
        },
        FieldType::OwnedText => match raw {
            None => Err(Seq::empty()),
            Some(v) => Ok(SpecValue::Text(v)),
        },
    }
}

/// Field-by-field decoding from field `i` on, with the values already
/// decoded in `acc`: the whole form's values, or the name and raw value
/// of the first failing field in declaration order.
pub open spec fn spec_decode_from(
    fields: Seq<Field>,
    pairs: Seq<(Seq<u8>, Seq<u8>)>,
    i: int,
    acc: Seq<SpecValue>,
) -> Result<Seq<SpecValue>, (Seq<u8>, Seq<u8>)>
    decreases fields.len() - i,
{
    if i < 0 || i >= fields.len() {
        Ok(acc)
    } else {
        let f = fields[i];
        match spec_field_value(f.ty, spec_lookup(pairs, spec_wire_name(f))) {
            Err(raw) => Err((f.name@, raw)),
            Ok(v) => spec_decode_from(fields, pairs, i + 1, acc.push(v)),
        }
    }
}

/// What decoding a valid-text body yields for a schema.
pub open spec fn spec_decode_fields(fields: Seq<Field>, pairs: Seq<(Seq<u8>, Seq<u8>)>) -> Result<
    Seq<SpecValue>,
    (Seq<u8>, Seq<u8>),
> {
    spec_decode_from(fields, pairs, 0, Seq::empty())
}

/// Parses a non-empty digit run into a 64-bit value.
#[verifier::loop_isolation(false)]
pub fn parse_u64(s: &Vec<u8>) -> (r: Option<u64>)
    ensures
        match r {
            Some(n) => all_digits(s@) && dec_value(s@) == n as int,
            None => !(all_digits(s@) && dec_value(s@) <= u64::MAX),
        },
{
    if s.len() == 0 {
        return None;
    }
    let mut acc: u64 = 0;
    let mut i: usize = 0;
    while i < s.len()
        invariant
            0 < s@.len(),
            i <= s@.len(),
            forall|j: int| 0 <= j < i ==> is_digit(#[trigger] s@[j]),
            acc as int == dec_value(s@.take(i as int)),
        decreases s@.len() - i,
    {
        let b = s[i];
        if !(48 <= b && b <= 57) {
            return None;
        }
        let d: u64 = (b - 48) as u64;
        proof {
            lemma_dec_step(s@, i as int);
        }
        if acc > 1844674407370955161u64 || (acc == 1844674407370955161u64 && d > 5) {
            proof {
                assert(dec_value(s@.take(i as int + 1)) > u64::MAX);
                if all_digits(s@) {
                    lemma_dec_prefix_le(s@, i as int + 1);
                }
            }
            return None;
        }
        acc = acc * 10 + d;
        i = i + 1;
    }
    proof {
        assert(s@.take(s@.len() as int) =~= s@);
    }
    Some(acc)
}

/// One base-10 step: the value of a longer prefix is ten times the
/// shorter one plus the new digit.
proof fn lemma_dec_step(s: Seq<u8>, i: int)
    requires
        0 <= i < s.len(),
    ensures
        dec_value(s.take(i + 1)) == dec_value(s.take(i)) * 10 + (s[i] - 48),
{
    assert(s.take(i + 1).drop_last() =~= s.take(i));
    assert(s.take(i + 1).last() == s[i]);
}

/// A digit run's value never drops below zero.
proof fn lemma_dec_nonneg(s: Seq<u8>)
    requires
        forall|i: int| 0 <= i < s.len() ==> is_digit(#[trigger] s[i]),
    ensures
        dec_value(s) >= 0,
    decreases s.len(),
{
    if s.len() > 0 {
        assert(forall|i: int| 0 <= i < s.drop_last().len() ==> is_digit(
            #[trigger] s.drop_last()[i],
        ));
        lemma_dec_nonneg(s.drop_last());
    }
}

/// A digit run's value only grows as digits are appended.
proof fn lemma_dec_prefix_le(s: Seq<u8>, i: int)
    requires
        forall|j: int| 0 <= j < s.len() ==> is_digit(#[trigger] s[j]),
        0 <= i <= s.len(),
    ensures
        dec_value(s.take(i)) <= dec_value(s),
    decreases s.len() - i,
{
    if i == s.len() {
        assert(s.take(i) =~= s);
    } else {
        lemma_dec_step(s, i);
        assert(forall|j: int| 0 <= j < s.take(i).len() ==> is_digit(#[trigger] s.take(i)[j]));
        lemma_dec_nonneg(s.take(i));
        assert(dec_value(s.take(i)) * 10 >= dec_value(s.take(i)));
        lemma_dec_prefix_le(s, i + 1);
    }
}

/// Index of the first label equal to `v`, if any.
#[verifier::loop_isolation(false)]
fn find_label(labels: &Vec<Vec<u8>>, v: &Vec<u8>) -> (r: Option<usize>)
    ensures
        match r {
            Some(i) => label_index(labels@, v@) == i as int,
            None => label_index(labels@, v@) < 0,
        },
{
    let mut i: usize = 0;
    while i < labels.len()
        invariant
            i <= labels@.len(),
            forall|j: int| 0 <= j < i ==> (#[trigger] labels@[j])@ != v@,
        decreases labels@.len() - i,
    {
        if bytes_eq(&labels[i], v) {
            proof {
                lemma_label_index_past_prefix(labels@, v@, i as int);
            }
            return Some(i);
        }
        i = i + 1;
    }
    proof {
        lemma_label_index_none(labels@, v@);
    }
    None
}

/// A scan that has ruled out a prefix of the labels finds the first
/// matching label at the first match past it.
proof fn lemma_label_index_past_prefix(labels: Seq<Vec<u8>>, v: Seq<u8>, i: int)
    requires
        0 <= i < labels.len(),
        forall|j: int| 0 <= j < i ==> (#[trigger] labels[j])@ != v,
        labels[i]@ == v,
    ensures
        label_index(labels, v) == i,
    decreases i,
{
    if i > 0 {
        assert forall|j: int| 0 <= j < i - 1 implies (#[trigger] labels.skip(1)[j])@ != v by {
            assert(labels.skip(1)[j] == labels[j + 1]);
        }
        assert(labels.skip(1)[i - 1] == labels[i]);
        lemma_label_index_past_prefix(labels.skip(1), v, i - 1);
    }
}

/// When no label matches, the lookup reports none.
proof fn lemma_label_index_none(labels: Seq<Vec<u8>>, v: Seq<u8>)
    requires
        forall|j: int| 0 <= j < labels.len() ==> (#[trigger] labels[j])@ != v,
    ensures
        label_index(labels, v) < 0,
    decreases labels.len(),
{
    if labels.len() > 0 {
        assert forall|j: int| 0 <= j < labels.len() - 1 implies (#[trigger] labels.skip(1)[j])@
            != v by {
            assert(labels.skip(1)[j] == labels[j + 1]);
        }
        lemma_label_index_none(labels.skip(1), v);
    }
}

/// A fresh copy of the token the decoder recognizes as a set flag.
fn on_vec() -> (r: Vec<u8>)
    ensures
        r@ == on_bytes(),
{
    let mut r: Vec<u8> = Vec::new();
    r.push(111);
    r.push(110);
    proof {
        assert(r@ =~= on_bytes());
    }
    r
}

/// A fresh copy of the token a set flag renders back to.
pub fn true_token() -> (r: Vec<u8>)
    ensures
        r@ == true_bytes(),
{
    let mut r: Vec<u8> = Vec::new();
    r.push(116);
    r.push(114);
    r.push(117);
    r.push(101);
    proof {
        assert(r@ =~= true_bytes());
    }
    r
}

fn off_vec() -> (r: Vec<u8>)
    ensures
        r@ == off_bytes(),
{
    let mut r: Vec<u8> = Vec::new();
    r.push(111);
    r.push(102);
    r.push(102);
    proof {
        assert(r@ =~= off_bytes());
    }
    r
}

/// A fresh copy of the token a cleared flag renders back to.
pub fn false_token() -> (r: Vec<u8>)
    ensures
        r@ == false_bytes(),
{
    let mut r: Vec<u8> = Vec::new();
    r.push(102);
    r.push(97);
    r.push(108);
    r.push(115);
    r.push(101);
    proof {
        assert(r@ =~= false_bytes());
    }
    r
}

/// Converts one raw wire value (or its absence) to the field's
/// semantic type, or hands back the offending raw value.
fn convert_field(ty: &FieldType, raw: Option<&Vec<u8>>) -> (r: Result<FieldValue, Vec<u8>>)
    ensures
        ({
            let rawv = match raw {
                Some(v) => Some(v@),
                None => None::<Seq<u8>>,
            };
            match r {
                Ok(fv) => spec_field_value(*ty, rawv) == Ok::<SpecValue, Seq<u8>>(value_view(fv)),
                Err(b) => spec_field_value(*ty, rawv) == Err::<SpecValue, Seq<u8>>(b@),
            }
        }),
{
    match ty {
        FieldType::Boolean => match raw {
            None => Ok(FieldValue::Bool(false)),
            Some(v) => {
                if bytes_eq(v, &on_vec()) || bytes_eq(v, &true_token()) {
                    Ok(FieldValue::Bool(true))
                } else if bytes_eq(v, &off_vec()) || bytes_eq(v, &false_token()) {
                    Ok(FieldValue::Bool(false))
                } else {
                    Err(v.clone())
                }
            },
        },
        FieldType::Unsigned => match raw {
            None => Err(Vec::new()),
            Some(v) => match parse_u64(v) {
                Some(n) => Ok(FieldValue::Uint(n)),
                None => Err(v.clone()),
            },
        },
        FieldType::Enumeration(labels) => match raw {
            None => Err(Vec::new()),
            Some(v) => match find_label(labels, v) {
                Some(i) => Ok(FieldValue::Choice(i)),
                None => Err(v.clone()),
            },
        },
        FieldType::RawText => match raw {
            None => Err(Vec::new()),
            Some(v) => Ok(FieldValue::Text(v.clone())),
        },
        FieldType::OwnedText => match raw {
            None => Err(Vec::new()),
            Some(v) => Ok(FieldValue::Text(v.clone())),
        },
    }
}

/// Decodes a raw body against a schema.
///
/// The body must be valid UTF-8, else the decode fails with the
/// encoding error before any field is examined; then every declared
/// field must convert, else the first failing field in declaration
/// order names the error, a missing field counting as an empty raw
/// value. On success every field is populated with exactly the value
/// its raw wire input parses to.
#[verifier::loop_isolation(false)]
pub fn decode(schema: &FormSchema, body: &Vec<u8>) -> (r: Result<DecodedForm, DecodeError>)
    ensures
        (r matches Err(e) && e == DecodeError::Encoding) <==> !valid_utf8(body@),
        valid_utf8(body@) ==> match spec_decode_fields(schema.fields@, spec_pairs(body@)) {
            Ok(vals) => r matches Ok(form) && values_view(form.values@) == vals,
            Err(e) => r matches Err(err) && err matches DecodeError::Field(n, raw) && n@ == e.0
                && raw@ == e.1,
        },
{
    if !is_valid_utf8(body) {
        return Err(DecodeError::Encoding);
    }
    let pairs = parse_pairs(body);
    let mut values: Vec<FieldValue> = Vec::new();
    proof {
        assert(values_view(values@) =~= Seq::<SpecValue>::empty());
    }
    let mut i: usize = 0;
    while i < schema.fields.len()
        invariant
            i <= schema.fields@.len(),
            spec_decode_fields(schema.fields@, spec_pairs(body@)) == spec_decode_from(
                schema.fields@,
                spec_pairs(body@),
                i as int,
                values_view(values@),
            ),
        decreases schema.fields@.len() - i,
    {
        let field = &schema.fields[i];
        let wire: &Vec<u8> = match &field.wire {
            Some(w) => w,
            None => &field.name,
        };
        let raw = pairs.get(wire);
        proof {
            assert(wire@ == spec_wire_name(schema.fields@[i as int]));
        }
        match convert_field(&field.ty, raw) {
            Ok(fv) => {
                let ghost prev = values@;
                values.push(fv);
                proof {
                    assert(values_view(values@) =~= values_view(prev).push(value_view(fv)));
                }
            },
            Err(b) => {
                return Err(DecodeError::Field(field.name.clone(), b));
            },
        }
        i = i + 1;
    }
    Ok(DecodedForm { values })
}

/// A decode that succeeds yields exactly one value per declared field.
pub proof fn lemma_decode_from_len(
    fields: Seq<Field>,
    pairs: Seq<(Seq<u8>, Seq<u8>)>,
    i: int,
    acc: Seq<SpecValue>,
)
    requires
        0 <= i <= fields.len(),
        spec_decode_from(fields, pairs, i, acc) is Ok,
    ensures
        spec_decode_from(fields, pairs, i, acc) matches Ok(vals) && vals.len() == acc.len()
            + fields.len() - i,
    decreases fields.len() - i,
{
    if i < fields.len() {
        let f = fields[i];
        match spec_field_value(f.ty, spec_lookup(pairs, spec_wire_name(f))) {
            Ok(v) => {
                lemma_decode_from_len(fields, pairs, i + 1, acc.push(v));
            },
            Err(_) => {},
        }
    }
}

} // verus!
