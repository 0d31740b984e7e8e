//! The protobuf wire format: messages as sequences of tagged fields.

use vstd::prelude::*;
use vstd::slice::{slice_subrange, slice_to_vec};

verus! {

broadcast use vstd::string::group_string_axioms;

/// The error that `prost` reports for malformed bytes.
#[verifier::external_type_specification]
#[verifier::external_body]
pub struct ExDecodeError(prost::DecodeError);

/// Why bytes are not a message.
#[derive(Debug, Clone, Copy, PartialEq, Eq, Structural)]
pub enum WireError {
    /// The bytes are not a sequence of fields.
    Malformed,
    /// A field of the message has the wrong type or contents.
    BadField,
}

/// The contents of a field.
#[derive(Debug, PartialEq)]
pub enum FieldValue {
    Varint(u64),
    Fixed64,
    Bytes(Vec<u8>),
    Group,
    Fixed32,
}

/// One field of a message. Of fixed-width fields and groups, which no message
/// here uses, only the presence is kept.
#[derive(Debug, PartialEq)]
pub struct Field {
    pub tag: u32,
    pub value: FieldValue,
}

#[verifier::ext_equal]
pub enum FieldValueModel {
    Varint(u64),
    Fixed64,
    Bytes(Seq<u8>),
    Group,
    Fixed32,
}

#[verifier::ext_equal]
pub struct FieldModel {
    pub tag: u32,
    pub value: FieldValueModel,
}

impl DeepView for FieldValue {
    type V = FieldValueModel;

    open spec fn deep_view(&self) -> FieldValueModel {
        match self {
            FieldValue::Varint(v) => FieldValueModel::Varint(*v),
            FieldValue::Fixed64 => FieldValueModel::Fixed64,
            FieldValue::Bytes(b) => FieldValueModel::Bytes(b@),
            FieldValue::Group => FieldValueModel::Group,
            FieldValue::Fixed32 => FieldValueModel::Fixed32,
        }
    }
}

impl DeepView for Field {
    type V = FieldModel;

    open spec fn deep_view(&self) -> FieldModel {
        FieldModel { tag: self.tag, value: self.value.deep_view() }
    }
}

// ---- variable-length integers ----

/// A number in base 128, least significant digit first, each byte but the last
/// with its high bit set.
pub open spec fn varint(v: nat) -> Seq<u8>
    decreases v,
{
    if v < 128 {
        seq![v as u8]
    } else {
        seq![(v % 128 + 128) as u8] + varint(v / 128)
    }
}

/// The number that `bytes` begin with, of any size, and its width.
pub open spec fn leading_number(bytes: Seq<u8>) -> Option<(nat, nat)>
    decreases bytes.len(),
{
    if bytes.len() == 0 {
        None
    } else if bytes[0] < 128 {
        Some((bytes[0] as nat, 1))
    } else {
        match leading_number(bytes.drop_first()) {
            Some((v, n)) => Some(((bytes[0] - 128 + 128 * v) as nat, n + 1)),
            None => None,
        }
    }
}

/// The 64-bit number that `bytes` begin with, at most ten bytes wide, and its
/// width.
pub open spec fn leading_varint(bytes: Seq<u8>) -> Option<(u64, nat)> {
    match leading_number(bytes) {
        Some((v, n)) => if n <= 10 && v <= u64::MAX {
            Some((v as u64, n))
        } else {
            None
        },
        None => None,
    }
}

/// `prost::encoding::encode_varint`: appends the base-128 form of `value`.
#[verifier::external_body]
pub(crate) fn put_varint(out: &mut Vec<u8>, value: u64)
    ensures
        final(out)@ == old(out)@ + varint(value as nat),
{
    prost::encoding::encode_varint(value, out);
}

/// `prost::encoding::decode_varint` on a slice: reads the number that `bytes`
/// begin with and leaves what follows it. It fails where no byte ends the
/// number, where the number is wider than ten bytes, and where it exceeds 64
/// bits.
#[verifier::external_body]
pub(crate) fn take_varint(bytes: &[u8]) -> (taken: Result<(u64, &[u8]), prost::DecodeError>)
    ensures
        match taken {
            Ok((value, rest)) => leading_varint(bytes@) matches Some((v, n)) && value == v && rest@ == bytes@.skip(
                n as int,
            ),
            Err(_) => leading_varint(bytes@) is None,
        },
{
    let mut rest = bytes;
    let value = prost::encoding::decode_varint(&mut rest)?;
    Ok((value, rest))
}

/// What `prost` leaves of `bytes` after the group that was opened under `tag`.
pub uninterp spec fn after_group(tag: u32, bytes: Seq<u8>) -> Option<Seq<u8>>;

/// `prost::encoding::skip_field` for a group that stands in no other: reads past
/// the fields of the group up to its end mark, and leaves what follows. It fails
/// where there is no such mark, and where groups nest deeper than its limit.
#[verifier::external_body]
fn skip_group(tag: u32, bytes: &[u8]) -> (skipped: Result<&[u8], prost::DecodeError>)
    ensures
        match skipped {
            Ok(rest) => after_group(tag, bytes@) == Some(rest@) && rest@.len() <= bytes@.len(),
            Err(_) => after_group(tag, bytes@) is None,
        },
{
    let mut rest = bytes;
    let context = prost::encoding::DecodeContext::default();
    prost::encoding::skip_field(prost::encoding::WireType::StartGroup, tag, &mut rest, context)?;
    Ok(rest)
}

/// A group under `tag`, given by what follows its start mark, inside `level`
/// others: what follows the start mark of the outermost.
pub open spec fn enclosed(level: nat, tag: u32, group: Seq<u8>) -> Seq<u8> {
    Seq::new((level - 1) as nat, |i: int| 11u8) + varint((tag * 8 + 3) as nat) + group + Seq::new(level, |i: int| 12u8)
}

/// What is left of `bytes` after the group that was opened under `tag` inside
/// `level` messages. A message counts as much as a group against the limit on
/// how deep they nest, so the group must be such as could stand inside as many
/// groups.
pub open spec fn after_nested_group(level: nat, tag: u32, bytes: Seq<u8>) -> Option<Seq<u8>> {
    match after_group(tag, bytes) {
        Some(rest) => if forall|k: nat|
            1 <= k <= level ==> after_group(1, #[trigger] enclosed(k, tag, bytes.take(bytes.len() - rest.len()))) is Some {
            Some(rest)
        } else {
            None
        },
        None => None,
    }
}

/// The bytes of a group inside `level` others.
fn enclose(level: usize, tag: u32, group: &[u8]) -> (bytes: Vec<u8>)
    requires
        level >= 1,
        tag < 0x2000_0000,
    ensures
        bytes@ == enclosed(level as nat, tag, group@),
{
    let mut bytes: Vec<u8> = Vec::new();
    let mut i: usize = 1;
    while i < level
        invariant
            1 <= i <= level,
            bytes@ == Seq::new((i - 1) as nat, |j: int| 11u8),
        decreases level - i,
    {
        bytes.push(11);
        i = i + 1;
        assert(bytes@ =~= Seq::new((i - 1) as nat, |j: int| 11u8));
    }
    put_varint(&mut bytes, tag as u64 * 8 + 3);
    bytes.extend_from_slice(group);
    let ghost opened = bytes@;
    assert(opened =~= Seq::new((level - 1) as nat, |j: int| 11u8) + varint((tag * 8 + 3) as nat) + group@);
    let mut i: usize = 0;
    assert(bytes@ =~= opened + Seq::new(0, |j: int| 12u8));
    while i < level
        invariant
            i <= level,
            bytes@ == opened + Seq::new(i as nat, |j: int| 12u8),
        decreases level - i,
    {
        bytes.push(12);
        i = i + 1;
        assert(bytes@ =~= opened + Seq::new(i as nat, |j: int| 12u8));
    }
    bytes
}

/// Reads past a group inside `level` messages, and leaves what follows.
fn skip_nested_group(level: usize, tag: u32, bytes: &[u8]) -> (skipped: Option<&[u8]>)
    requires
        tag < 0x2000_0000,
    ensures
        match skipped {
            Some(rest) => after_nested_group(level as nat, tag, bytes@) == Some(rest@) && rest@.len() <= bytes@.len(),
            None => after_nested_group(level as nat, tag, bytes@) is None,
        },
{
    let rest = match skip_group(tag, bytes) {
        Ok(rest) => rest,
        Err(_) => {
            return None;
        },
    };
    let group = slice_subrange(bytes, 0, bytes.len() - rest.len());
    assert(group@ =~= bytes@.take(bytes@.len() - rest@.len()));
    let mut k: usize = level;
    while k > 0
        invariant
            k <= level,
            tag < 0x2000_0000,
            after_group(tag, bytes@) == Some(rest@),
            group@ == bytes@.take(bytes@.len() - rest@.len()),
            forall|j: nat| k < j <= level ==> after_group(1, #[trigger] enclosed(j, tag, group@)) is Some,
        decreases k,
    {
        let whole = enclose(k, tag, group);
        if skip_group(1, whole.as_slice()).is_err() {
            assert(after_group(1, enclosed(k as nat, tag, group@)) is None);
            return None;
        }
        k = k - 1;
    }
    Some(rest)
}

proof fn leading_number_bounds(bytes: Seq<u8>)
    ensures
        leading_number(bytes) matches Some((v, n)) ==> 1 <= n <= bytes.len(),
    decreases bytes.len(),
{
    if bytes.len() > 0 {
        leading_number_bounds(bytes.drop_first());
    }
}

proof fn varint_then_tail(v: nat, tail: Seq<u8>)
    ensures
        leading_number(varint(v) + tail) == Some((v, varint(v).len())),
        varint(v).len() >= 1,
    decreases v,
{
    let bytes = varint(v) + tail;
    if v >= 128 {
        varint_then_tail(v / 128, tail);
        assert(bytes.drop_first() =~= varint(v / 128) + tail);
        assert(bytes[0] == (v % 128 + 128) as u8);
    } else {
        assert(bytes[0] == v as u8);
    }
}

spec fn pow128(k: nat) -> nat
    decreases k,
{
    if k == 0 {
        1
    } else {
        128 * pow128((k - 1) as nat)
    }
}

proof fn varint_width(v: nat, k: nat)
    requires
        v < pow128(k),
        k >= 1,
    ensures
        varint(v).len() <= k,
    decreases k,
{
    if v >= 128 {
        if k == 1 {
            assert(pow128(1) == 128 * pow128(0));
        }
        assert(v / 128 < pow128((k - 1) as nat));
        varint_width(v / 128, (k - 1) as nat);
    }
}

/// A 64-bit number is read back from its base-128 form, whatever follows it.
pub proof fn varint_round_trip(v: u64, tail: Seq<u8>)
    ensures
        leading_varint(varint(v as nat) + tail) == Some((v, varint(v as nat).len())),
        1 <= varint(v as nat).len() <= 10,
        (varint(v as nat) + tail).skip(varint(v as nat).len() as int) == tail,
{
    varint_then_tail(v as nat, tail);
    assert(pow128(10) > u64::MAX) by {
        reveal_with_fuel(pow128, 11);
    }
    varint_width(v as nat, 10);
    assert((varint(v as nat) + tail).skip(varint(v as nat).len() as int) =~= tail);
}

// ---- fields ----

/// The bytes of a field. Only numbers and byte strings are ever written.
pub open spec fn field_bytes(field: FieldModel) -> Seq<u8> {
    match field.value {
        FieldValueModel::Varint(v) => varint((field.tag * 8) as nat) + varint(v as nat),
        FieldValueModel::Bytes(b) => varint((field.tag * 8 + 2) as nat) + varint(b.len()) + b,
        _ => Seq::empty(),
    }
}

/// The bytes of a sequence of fields.
pub open spec fn fields_bytes(fields: Seq<FieldModel>) -> Seq<u8>
    decreases fields.len(),
{
    if fields.len() == 0 {
        Seq::empty()
    } else {
        field_bytes(fields[0]) + fields_bytes(fields.drop_first())
    }
}

/// The field whose key has been read from before `bytes`, and what follows it.
pub open spec fn keyed_field(key: u64, bytes: Seq<u8>, level: nat) -> Option<(FieldModel, Seq<u8>)> {
    let tag = (key / 8) as u32;
    let wire_type = key % 8;
    if key > u32::MAX || tag == 0 {
        None
    } else if wire_type == 0 {
        match leading_varint(bytes) {
            Some((v, n)) => Some((FieldModel { tag, value: FieldValueModel::Varint(v) }, bytes.skip(n as int))),
            None => None,
        }
    } else if wire_type == 1 {
        if bytes.len() >= 8 {
            Some((FieldModel { tag, value: FieldValueModel::Fixed64 }, bytes.skip(8)))
        } else {
            None
        }
    } else if wire_type == 2 {
        match leading_varint(bytes) {
            Some((len, n)) => if len <= bytes.len() - n {
                Some(
                    (
                        FieldModel { tag, value: FieldValueModel::Bytes(bytes.subrange(n as int, n + len)) },
                        bytes.skip(n + len),
                    ),
                )
            } else {
                None
            },
            None => None,
        }
    } else if wire_type == 3 {
        match after_nested_group(level, tag, bytes) {
            Some(rest) => Some((FieldModel { tag, value: FieldValueModel::Group }, rest)),
            None => None,
        }
    } else if wire_type == 5 {
        if bytes.len() >= 4 {
            Some((FieldModel { tag, value: FieldValueModel::Fixed32 }, bytes.skip(4)))
        } else {
            None
        }
    } else {
        None
    }
}

/// The field that `bytes` begin with, inside `level` messages, and what follows
/// it.
pub open spec fn leading_field(bytes: Seq<u8>, level: nat) -> Option<(FieldModel, Seq<u8>)> {
    match leading_varint(bytes) {
        Some((key, n)) => keyed_field(key, bytes.skip(n as int), level),
        None => None,
    }
}

/// The fields that make up `bytes`, the contents of a message inside `level`
/// others, if they are such.
pub open spec fn parsed(bytes: Seq<u8>, level: nat) -> Option<Seq<FieldModel>>
    decreases bytes.len(),
{
    if bytes.len() == 0 {
        Some(Seq::empty())
    } else {
        match leading_field(bytes, level) {
            Some((field, rest)) => if rest.len() < bytes.len() {
                match parsed(rest, level) {
                    Some(fields) => Some(seq![field] + fields),
                    None => None,
                }
            } else {
                None
            },
            None => None,
        }
    }
}

/// A field that this crate writes: a tag in the range that protobuf allows,
/// and a number or a byte string.
pub open spec fn writable(field: FieldModel) -> bool {
    1 <= field.tag < 0x2000_0000 && (field.value is Varint || field.value is Bytes)
}

/// Every field can be written.
pub open spec fn all_writable(fields: Seq<FieldModel>) -> bool {
    forall|i: int| 0 <= i < fields.len() ==> writable(#[trigger] fields[i])
}

/// A byte string is no longer than the fields that it stands in.
pub proof fn payload_within(fields: Seq<FieldModel>, i: int)
    requires
        0 <= i < fields.len(),
    ensures
        fields[i].value matches FieldValueModel::Bytes(b) ==> b.len() <= fields_bytes(fields).len(),
    decreases fields.len(),
{
    if i > 0 {
        payload_within(fields.drop_first(), i - 1);
        assert(fields.drop_first()[i - 1] == fields[i]);
    }
}

proof fn field_round_trip(field: FieldModel, tail: Seq<u8>, level: nat)
    requires
        writable(field),
        field.value matches FieldValueModel::Bytes(b) ==> b.len() <= u64::MAX,
    ensures
        leading_field(field_bytes(field) + tail, level) == Some((field, tail)),
        field_bytes(field).len() >= 2,
{
    match field.value {
        FieldValueModel::Varint(v) => {
            let key = (field.tag * 8) as u64;
            let after_key = varint(v as nat) + tail;
            varint_round_trip(key, after_key);
            varint_round_trip(v, tail);
            assert(field_bytes(field) + tail =~= varint(key as nat) + after_key);
        },
        FieldValueModel::Bytes(b) => {
            let key = (field.tag * 8 + 2) as u64;
            let len = b.len() as u64;
            let after_len = b + tail;
            let after_key = varint(len as nat) + after_len;
            varint_round_trip(key, after_key);
            varint_round_trip(len, after_len);
            assert(field_bytes(field) + tail =~= varint(key as nat) + after_key);
            let n = varint(len as nat).len();
            assert(after_key.subrange(n as int, n + len) =~= b);
            assert(after_key.skip(n + len) =~= tail);
        },
        _ => {},
    }
}

/// Fields are read back from their bytes.
pub proof fn fields_round_trip(fields: Seq<FieldModel>, level: nat)
    requires
        all_writable(fields),
        fields_bytes(fields).len() <= u64::MAX,
    ensures
        parsed(fields_bytes(fields), level) == Some(fields),
    decreases fields.len(),
{
    if fields.len() > 0 {
        let rest = fields.drop_first();
        assert(all_writable(rest)) by {
            assert forall|i: int| 0 <= i < rest.len() implies writable(#[trigger] rest[i]) by {
                assert(rest[i] == fields[i + 1]);
            }
        }
        payload_within(fields, 0);
        fields_round_trip(rest, level);
        let tail = fields_bytes(rest);
        field_round_trip(fields[0], tail, level);
        assert(fields_bytes(fields) == field_bytes(fields[0]) + tail);
        assert(seq![fields[0]] + rest =~= fields);
    }
}

pub proof fn leading_varint_bounds(bytes: Seq<u8>)
    ensures
        leading_varint(bytes) matches Some((v, n)) ==> 1 <= n <= bytes.len(),
{
    leading_number_bounds(bytes);
}

/// What can stand inside many messages can stand inside fewer.
pub proof fn fewer_levels_do(bytes: Seq<u8>, fewer: nat, level: nat)
    requires
        fewer <= level,
        parsed(bytes, level) is Some,
    ensures
        parsed(bytes, fewer) == parsed(bytes, level),
    decreases bytes.len(),
{
    if bytes.len() > 0 {
        let (_, rest) = leading_field(bytes, level).unwrap();
        assert(leading_field(bytes, fewer) == leading_field(bytes, level));
        fewer_levels_do(rest, fewer, level);
    }
}

/// Reads the field that `bytes` begin with; `None` if there is none.
fn take_field(bytes: &[u8], level: usize) -> (taken: Option<(Field, &[u8])>)
    ensures
        match taken {
            Some((field, rest)) => leading_field(bytes@, level as nat) == Some((field.deep_view(), rest@))
                && rest@.len() < bytes@.len(),
            None => leading_field(bytes@, level as nat) is None,
        },
{
    proof {
        leading_varint_bounds(bytes@);
    }
    let (key, after_key) = match take_varint(bytes) {
        Ok(taken) => taken,
        Err(_) => {
            return None;
        },
    };
    proof {
        leading_varint_bounds(after_key@);
    }
    if key > 0xffff_ffff || key / 8 == 0 {
        return None;
    }
    let tag: u32 = (key / 8) as u32;
    let wire_type: u64 = key % 8;
    if wire_type == 0 {
        match take_varint(after_key) {
            Ok((value, rest)) => Some((Field { tag, value: FieldValue::Varint(value) }, rest)),
            Err(_) => None,
        }
    } else if wire_type == 1 {
        if after_key.len() >= 8 {
            Some((Field { tag, value: FieldValue::Fixed64 }, slice_subrange(after_key, 8, after_key.len())))
        } else {
            None
        }
    } else if wire_type == 2 {
        match take_varint(after_key) {
            Ok((len, rest)) => {
                if len <= rest.len() as u64 {
                    let cut: usize = len as usize;
                    let payload = slice_subrange(rest, 0, cut);
                    let after = slice_subrange(rest, cut, rest.len());
                    let copy = slice_to_vec(payload);
                    proof {
                        let (_, n) = leading_varint(after_key@).unwrap();
                        assert(copy@ =~= after_key@.subrange(n as int, n + len));
                        assert(after@ =~= after_key@.skip(n + len));
                    }
                    Some((Field { tag, value: FieldValue::Bytes(copy) }, after))
                } else {
                    None
                }
            },
            Err(_) => None,
        }
    } else if wire_type == 3 {
        match skip_nested_group(level, tag, after_key) {
            Some(rest) => Some((Field { tag, value: FieldValue::Group }, rest)),
            None => None,
        }
    } else if wire_type == 5 {
        if after_key.len() >= 4 {
            Some((Field { tag, value: FieldValue::Fixed32 }, slice_subrange(after_key, 4, after_key.len())))
        } else {
            None
        }
    } else {
        None
    }
}

/// Reads the contents of a message inside `level` others as a sequence of
/// fields.
pub fn parse_fields(bytes: &[u8], level: usize) -> (fields: Result<Vec<Field>, WireError>)
    ensures
        match fields {
            Ok(fs) => parsed(bytes@, level as nat) == Some(fs.deep_view()),
            Err(e) => parsed(bytes@, level as nat) is None && e == WireError::Malformed,
        },
{
    let mut fields: Vec<Field> = Vec::new();
    let mut rest: &[u8] = bytes;
    assert(fields.deep_view() =~= Seq::<FieldModel>::empty());
    assert forall|tail: Seq<FieldModel>| #[trigger] (fields.deep_view() + tail) =~= tail by {}
    while rest.len() > 0
        invariant
            match parsed(rest@, level as nat) {
                Some(tail) => parsed(bytes@, level as nat) == Some(fields.deep_view() + tail),
                None => parsed(bytes@, level as nat) is None,
            },
        decreases rest@.len(),
    {
        match take_field(rest, level) {
            Some((field, after)) => {
                let ghost before = fields.deep_view();
                let ghost model = field.deep_view();
                fields.push(field);
                proof {
                    assert(fields.deep_view() =~= before.push(model));
                    if parsed(after@, level as nat) is Some {
                        let tail = parsed(after@, level as nat)->0;
                        assert(before + (seq![model] + tail) =~= fields.deep_view() + tail);
                    }
                }
                rest = after;
            },
            None => {
                return Err(WireError::Malformed);
            },
        }
    }
    assert(fields.deep_view() + Seq::<FieldModel>::empty() =~= fields.deep_view());
    Ok(fields)
}

/// Appends the bytes of a field.
fn put_field(out: &mut Vec<u8>, field: &Field)
    requires
        writable(field.deep_view()),
    ensures
        final(out)@ == old(out)@ + field_bytes(field.deep_view()),
{
    match &field.value {
        FieldValue::Varint(v) => {
            put_varint(out, field.tag as u64 * 8);
            put_varint(out, *v);
            assert(out@ =~= old(out)@ + field_bytes(field.deep_view()));
        },
        FieldValue::Bytes(b) => {
            put_varint(out, field.tag as u64 * 8 + 2);
            put_varint(out, b.len() as u64);
            out.extend_from_slice(b.as_slice());
            assert(out@ =~= old(out)@ + field_bytes(field.deep_view()));
        },
        _ => {},
    }
}

proof fn fields_bytes_push(fields: Seq<FieldModel>, field: FieldModel)
    ensures
        fields_bytes(fields.push(field)) == fields_bytes(fields) + field_bytes(field),
    decreases fields.len(),
{
    let all = fields.push(field);
    if fields.len() == 0 {
        assert(all.drop_first() =~= Seq::<FieldModel>::empty());
        assert(fields_bytes(all.drop_first()) =~= Seq::<u8>::empty());
        assert(fields_bytes(all) =~= field_bytes(field));
        assert(fields_bytes(fields) + field_bytes(field) =~= field_bytes(field));
    } else {
        fields_bytes_push(fields.drop_first(), field);
        assert(all.drop_first() =~= fields.drop_first().push(field));
        assert(fields_bytes(all) =~= fields_bytes(fields) + field_bytes(field));
    }
}

/// Writes a sequence of fields.
pub fn write_fields(fields: &Vec<Field>) -> (bytes: Vec<u8>)
    requires
        all_writable(fields.deep_view()),
    ensures
        bytes@ == fields_bytes(fields.deep_view()),
{
    let ghost model = fields.deep_view();
    let mut bytes: Vec<u8> = Vec::new();
    let mut i: usize = 0;
    assert(model.take(0) =~= Seq::<FieldModel>::empty());
    while i < fields.len()
        invariant
            i <= fields@.len(),
            model == fields.deep_view(),
            all_writable(model),
            bytes@ == fields_bytes(model.take(i as int)),
        decreases fields@.len() - i,
    {
        assert(model[i as int] == fields@[i as int].deep_view());
        put_field(&mut bytes, &fields[i]);
        proof {
            fields_bytes_push(model.take(i as int), model[i as int]);
            assert(model.take(i + 1) =~= model.take(i as int).push(model[i as int]));
        }
        i = i + 1;
    }
    assert(model.take(fields@.len() as int) =~= model);
    bytes
}

/// How a number is written: a byte below 128 stands for itself, and a number of
/// several digits in base 128 begins with its last digit, raised by 128, before
/// the rest.
pub proof fn varints_are_written_digit_by_digit(n: nat, d: nat)
    requires
        d < 128,
    ensures
        varint(d) == seq![d as u8],
        n > 0 ==> varint(128 * n + d) == seq![(128 + d) as u8] + varint(n),
{
    if n > 0 {
        assert((128 * n + d) / 128 == n && (128 * n + d) % 128 == d) by (nonlinear_arith)
            requires
                d < 128,
        ;
    }
}

/// How a field is written: eight times its tag and the number of its type, 0 for
/// numbers and 2 for bytes; and then the number, or the length and the bytes.
/// Fields follow one another.
pub proof fn fields_are_written_so(tag: u32, value: u64, bytes: Seq<u8>, first: Seq<FieldModel>, second: FieldModel)
    ensures
        field_bytes((FieldModel { tag, value: FieldValueModel::Varint(value) })) == varint((8 * tag) as nat) + varint(
            value as nat,
        ),
        field_bytes((FieldModel { tag, value: FieldValueModel::Bytes(bytes) })) == varint((8 * tag + 2) as nat)
            + varint(bytes.len()) + bytes,
        fields_bytes(first.push(second)) == fields_bytes(first) + field_bytes(second),
        fields_bytes(Seq::empty()) == Seq::<u8>::empty(),
{
    fields_bytes_push(first, second);
}

/// How a number is read: a byte below 128 ends it, and any other byte is the last
/// digit, raised by 128, of the number that follows. Bytes that end before the
/// number does hold none.
pub proof fn varints_are_read_digit_by_digit(first: u8, rest: Seq<u8>)
    ensures
        ({
            let bytes = seq![first] + rest;
            &&& first < 128 ==> leading_number(bytes) == Some((first as nat, 1nat))
            &&& first >= 128 ==> (leading_number(bytes) is Some <==> leading_number(rest) is Some)
            &&& first >= 128 ==> (leading_number(rest) matches Some((n, width)) ==> leading_number(bytes) == Some(
                ((128 * n + (first - 128)) as nat, (width + 1) as nat),
            ))
        }),
        leading_number(Seq::empty()) is None,
{
    assert((seq![first] + rest).drop_first() =~= rest);
}

/// How a field is read behind its key: the key is eight times the tag and the
/// type. Numbers and byte strings keep their contents; of fixed numbers only the
/// place is kept. No field has the tag 0, and no other type is known but groups.
pub proof fn fields_are_read_so(tag: u32, bytes: Seq<u8>, level: nat)
    requires
        0 < tag < 0x2000_0000,
    ensures
        leading_varint(bytes) matches Some((v, n)) ==> keyed_field((8 * tag) as u64, bytes, level) == Some(
            ((FieldModel { tag, value: FieldValueModel::Varint(v) }), bytes.skip(n as int)),
        ),
        leading_varint(bytes) matches Some((len, n)) ==> (if n + len <= bytes.len() {
            keyed_field((8 * tag + 2) as u64, bytes, level) == Some(
                (
                    (FieldModel { tag, value: FieldValueModel::Bytes(bytes.subrange(n as int, n + len)) }),
                    bytes.skip(n + len),
                ),
            )
        } else {
            keyed_field((8 * tag + 2) as u64, bytes, level) is None
        }),
        leading_varint(bytes) is None ==> keyed_field((8 * tag) as u64, bytes, level) is None && keyed_field(
            (8 * tag + 2) as u64,
            bytes,
            level,
        ) is None,
        keyed_field((8 * tag + 1) as u64, bytes, level) == if bytes.len() >= 8 {
            Some(((FieldModel { tag, value: FieldValueModel::Fixed64 }), bytes.skip(8)))
        } else {
            None
        },
        keyed_field((8 * tag + 5) as u64, bytes, level) == if bytes.len() >= 4 {
            Some(((FieldModel { tag, value: FieldValueModel::Fixed32 }), bytes.skip(4)))
        } else {
            None
        },
        keyed_field((8 * tag + 4) as u64, bytes, level) is None,
        keyed_field((8 * tag + 6) as u64, bytes, level) is None,
        keyed_field((8 * tag + 7) as u64, bytes, level) is None,
        keyed_field(0, bytes, level) is None && keyed_field(2, bytes, level) is None,
{
}

} // verus!
