//! Messages: typed values that are written as fields and read from them.

use crate::schema::{find_field_kind, FieldKind, MessageKind};
use crate::wire::{
    parse_fields, put_varint, take_varint, write_fields, Field, FieldModel, FieldValue,
    FieldValueModel, WireError,
};
use vstd::prelude::*;
use vstd::slice::{slice_subrange, slice_to_vec};

verus! {

broadcast use vstd::string::group_string_axioms;

// ---- reading fields ----

/// The fields that a byte string consists of, none if it is not such.
pub open spec fn inner_fields(bytes: Seq<u8>) -> Seq<FieldModel> {
    match crate::wire::parsed(bytes, 0) {
        Some(fields) => fields,
        None => Seq::empty(),
    }
}

/// The contents of a field of a message inside `level` others fit its kind.
pub open spec fn field_ok(kind: MessageKind, field: FieldModel, level: nat) -> bool
    decreases crate::schema::depth(kind), 0nat,
{
    match crate::schema::field_kind(kind, field.tag) {
        None => true,
        Some(FieldKind::Varint) => field.value is Varint,
        Some(FieldKind::Text) => field.value matches FieldValueModel::Bytes(b) && vstd::utf8::valid_utf8(b),
        Some(FieldKind::Message(inner)) => {
            &&& crate::schema::depth(inner) < crate::schema::depth(kind)
            &&& field.value matches FieldValueModel::Bytes(b)
            &&& crate::wire::parsed(b, level + 1) is Some
            &&& well_typed(inner, inner_fields(b), level + 1)
        },
    }
}

/// The contents of every field that a message inside `level` others has fit its
/// kind. Fields that the message does not have may hold anything.
pub open spec fn well_typed(kind: MessageKind, fields: Seq<FieldModel>, level: nat) -> bool
    decreases crate::schema::depth(kind), 1nat,
{
    forall|i: int| 0 <= i < fields.len() ==> field_ok(kind, #[trigger] fields[i], level)
}

/// What fits inside many messages fits inside fewer.
proof fn fewer_levels_fit(kind: MessageKind, fields: Seq<FieldModel>, fewer: nat, level: nat)
    requires
        fewer <= level,
        well_typed(kind, fields, level),
    ensures
        well_typed(kind, fields, fewer),
    decreases crate::schema::depth(kind),
{
    assert forall|i: int| 0 <= i < fields.len() implies field_ok(kind, #[trigger] fields[i], fewer) by {
        assert(field_ok(kind, fields[i], level));
        if let Some(FieldKind::Message(inner)) = crate::schema::field_kind(kind, fields[i].tag) {
            if let FieldValueModel::Bytes(b) = fields[i].value {
                crate::wire::fewer_levels_do(b, fewer + 1, level + 1);
                fewer_levels_fit(inner, inner_fields(b), fewer + 1, level + 1);
            }
        }
    }
}

/// The number in the last field `tag`, 0 if there is none.
pub open spec fn last_varint(fields: Seq<FieldModel>, tag: u32) -> u64
    decreases fields.len(),
{
    if fields.len() == 0 {
        0
    } else if fields.last().tag == tag {
        match fields.last().value {
            FieldValueModel::Varint(v) => v,
            _ => 0,
        }
    } else {
        last_varint(fields.drop_last(), tag)
    }
}

/// The text in the last field `tag`, empty if there is none.
pub open spec fn last_text(fields: Seq<FieldModel>, tag: u32) -> Seq<char>
    decreases fields.len(),
{
    if fields.len() == 0 {
        Seq::empty()
    } else if fields.last().tag == tag {
        match fields.last().value {
            FieldValueModel::Bytes(b) => vstd::utf8::decode_utf8(b),
            _ => Seq::empty(),
        }
    } else {
        last_text(fields.drop_last(), tag)
    }
}

/// The contents of a field as fields.
pub open spec fn contents(field: FieldModel) -> Seq<FieldModel> {
    match field.value {
        FieldValueModel::Bytes(b) => inner_fields(b),
        _ => Seq::empty(),
    }
}

/// The contents of each field `tag`, in order.
pub open spec fn each(fields: Seq<FieldModel>, tag: u32) -> Seq<Seq<FieldModel>>
    decreases fields.len(),
{
    if fields.len() == 0 {
        Seq::empty()
    } else if fields.last().tag == tag {
        each(fields.drop_last(), tag).push(contents(fields.last()))
    } else {
        each(fields.drop_last(), tag)
    }
}

/// What the fields with a tag from `lo` to `hi`, of which a message holds one,
/// come to: the last such tag, and the contents of the fields with it since
/// another such tag stood.
pub open spec fn chosen(fields: Seq<FieldModel>, lo: u32, hi: u32) -> Option<(u32, Seq<FieldModel>)>
    decreases fields.len(),
{
    if fields.len() == 0 {
        None
    } else {
        let before = chosen(fields.drop_last(), lo, hi);
        let field = fields.last();
        if field.tag < lo || hi < field.tag {
            before
        } else {
            match before {
                Some((tag, inner)) => if tag == field.tag {
                    Some((tag, inner + contents(field)))
                } else {
                    Some((field.tag, contents(field)))
                },
                None => Some((field.tag, contents(field))),
            }
        }
    }
}

/// `String::from_utf8` of std: the text that the bytes encode, if they are
/// valid UTF-8.
#[verifier::external_body]
pub(crate) fn text_from_utf8(bytes: Vec<u8>) -> (text: Option<String>)
    ensures
        match text {
            Some(s) => vstd::utf8::valid_utf8(bytes@) && s@ == vstd::utf8::decode_utf8(bytes@),
            None => !vstd::utf8::valid_utf8(bytes@),
        },
{
    String::from_utf8(bytes).ok()
}

/// Whether the fields fit the message.
pub fn check_fields(kind: MessageKind, fields: &Vec<Field>, level: usize) -> (ok: bool)
    requires
        level + crate::schema::depth(kind) <= usize::MAX,
    ensures
        ok == well_typed(kind, fields.deep_view(), level as nat),
    decreases crate::schema::depth(kind),
{
    let ghost model = fields.deep_view();
    let mut i: usize = 0;
    while i < fields.len()
        invariant
            i <= fields@.len(),
            model == fields.deep_view(),
            level + crate::schema::depth(kind) <= usize::MAX,
            forall|j: int| 0 <= j < i ==> field_ok(kind, #[trigger] model[j], level as nat),
        decreases fields@.len() - i,
    {
        assert(model[i as int] == fields@[i as int].deep_view());
        let ok = match find_field_kind(kind, fields[i].tag) {
            None => true,
            Some(FieldKind::Varint) => match &fields[i].value {
                FieldValue::Varint(_) => true,
                _ => false,
            },
            Some(FieldKind::Text) => match &fields[i].value {
                FieldValue::Bytes(b) => text_from_utf8(slice_to_vec(b.as_slice())).is_some(),
                _ => false,
            },
            Some(FieldKind::Message(inner)) => match &fields[i].value {
                FieldValue::Bytes(b) => match parse_fields(b.as_slice(), level + 1) {
                    Ok(parts) => {
                        proof {
                            crate::wire::fewer_levels_do(b@, 0, (level + 1) as nat);
                        }
                        check_fields(inner, &parts, level + 1)
                    },
                    Err(_) => false,
                },
                _ => false,
            },
        };
        if !ok {
            assert(!field_ok(kind, model[i as int], level as nat));
            return false;
        }
        i = i + 1;
    }
    true
}

/// Reads the number of field `tag`.
pub fn read_varint(fields: &Vec<Field>, tag: u32) -> (value: u64)
    ensures
        value == last_varint(fields.deep_view(), tag),
{
    let ghost model = fields.deep_view();
    let mut i: usize = fields.len();
    assert(model.take(i as int) =~= model);
    while i > 0
        invariant
            i <= fields@.len(),
            model == fields.deep_view(),
            last_varint(model, tag) == last_varint(model.take(i as int), tag),
        decreases i,
    {
        i = i - 1;
        proof {
            assert(model.take(i + 1).last() == fields@[i as int].deep_view());
            assert(model.take(i + 1).drop_last() =~= model.take(i as int));
        }
        if fields[i].tag == tag {
            return match &fields[i].value {
                FieldValue::Varint(v) => *v,
                _ => 0,
            };
        }
    }
    0
}

/// Reads the text of field `tag`.
pub(crate) fn read_text(Ghost(kind): Ghost<MessageKind>, fields: &Vec<Field>, tag: u32) -> (text: String)
    requires
        well_typed(kind, fields.deep_view(), 0),
        crate::schema::field_kind(kind, tag) == Some(FieldKind::Text),
    ensures
        text@ == last_text(fields.deep_view(), tag),
{
    let ghost model = fields.deep_view();
    let mut i: usize = fields.len();
    assert(model.take(i as int) =~= model);
    while i > 0
        invariant
            i <= fields@.len(),
            model == fields.deep_view(),
            well_typed(kind, model, 0),
            crate::schema::field_kind(kind, tag) == Some(FieldKind::Text),
            last_text(model, tag) == last_text(model.take(i as int), tag),
        decreases i,
    {
        i = i - 1;
        proof {
            assert(model.take(i + 1).last() == fields@[i as int].deep_view());
            assert(model.take(i + 1).drop_last() =~= model.take(i as int));
            assert(model[i as int] == fields@[i as int].deep_view());
            assert(field_ok(kind, model[i as int], 0));
        }
        if fields[i].tag == tag {
            return match &fields[i].value {
                FieldValue::Bytes(b) => match text_from_utf8(slice_to_vec(b.as_slice())) {
                    Some(text) => text,
                    None => String::new(),
                },
                _ => String::new(),
            };
        }
    }
    String::new()
}

/// Reads the contents of a field as fields.
fn read_contents(field: &Field) -> (fields: Vec<Field>)
    ensures
        fields.deep_view() == contents(field.deep_view()),
{
    let none: Vec<Field> = Vec::new();
    assert(none.deep_view() =~= Seq::<FieldModel>::empty());
    match &field.value {
        FieldValue::Bytes(b) => match parse_fields(b.as_slice(), 0) {
            Ok(fields) => fields,
            Err(_) => none,
        },
        _ => none,
    }
}

/// The contents of each field `tag`, in order.
pub(crate) fn read_each(Ghost(kind): Ghost<MessageKind>, fields: &Vec<Field>, tag: u32) -> (all: Vec<Vec<Field>>)
    requires
        well_typed(kind, fields.deep_view(), 0),
        crate::schema::field_kind(kind, tag) matches Some(FieldKind::Message(_)),
    ensures
        all.deep_view() == each(fields.deep_view(), tag),
        forall|i: int|
            0 <= i < all@.len() ==> well_typed(crate::schema::field_kind(kind, tag)->0->Message_0, #[trigger] all.deep_view()[i], 0),
{
    let ghost model = fields.deep_view();
    let ghost inner = crate::schema::field_kind(kind, tag)->0->Message_0;
    let mut all: Vec<Vec<Field>> = Vec::new();
    let mut i: usize = 0;
    assert(model.take(0) =~= Seq::<FieldModel>::empty());
    assert(all.deep_view() =~= Seq::<Seq<FieldModel>>::empty());
    while i < fields.len()
        invariant
            i <= fields@.len(),
            model == fields.deep_view(),
            well_typed(kind, model, 0),
            crate::schema::field_kind(kind, tag) == Some(FieldKind::Message(inner)),
            all.deep_view() == each(model.take(i as int), tag),
            forall|j: int| 0 <= j < all@.len() ==> well_typed(inner, #[trigger] all.deep_view()[j], 0),
        decreases fields@.len() - i,
    {
        proof {
            assert(model.take(i + 1).last() == fields@[i as int].deep_view());
            assert(model.take(i + 1).drop_last() =~= model.take(i as int));
            assert(model[i as int] == fields@[i as int].deep_view());
            assert(field_ok(kind, model[i as int], 0));
        }
        if fields[i].tag == tag {
            let ghost before = all.deep_view();
            let inner_fields = read_contents(&fields[i]);
            let ghost inner_model = inner_fields.deep_view();
            all.push(inner_fields);
            proof {
                fewer_levels_fit(inner, inner_model, 0, 1);
                assert(all.deep_view() =~= before.push(inner_model));
                assert forall|j: int| 0 <= j < all@.len() implies well_typed(inner, #[trigger] all.deep_view()[j], 0) by {
                    if j < before.len() {
                        assert(all.deep_view()[j] == before[j]);
                    }
                }
            }
        }
        i = i + 1;
    }
    assert(model.take(fields@.len() as int) =~= model);
    all
}

/// What the fields with a tag from `lo` to `hi` come to.
pub(crate) fn read_chosen(Ghost(kind): Ghost<MessageKind>, fields: &Vec<Field>, lo: u32, hi: u32) -> (choice: Option<
    (u32, Vec<Field>),
>)
    requires
        well_typed(kind, fields.deep_view(), 0),
    ensures
        choice.deep_view() == chosen(fields.deep_view(), lo, hi),
        choice matches Some((tag, inner)) ==> lo <= tag <= hi && (crate::schema::field_kind(kind, tag) matches Some(
            FieldKind::Message(inner_kind),
        ) ==> well_typed(inner_kind, inner.deep_view(), 0)),
{
    let ghost model = fields.deep_view();
    let mut choice: Option<(u32, Vec<Field>)> = None;
    let mut i: usize = 0;
    assert(model.take(0) =~= Seq::<FieldModel>::empty());
    while i < fields.len()
        invariant
            i <= fields@.len(),
            model == fields.deep_view(),
            well_typed(kind, model, 0),
            choice.deep_view() == chosen(model.take(i as int), lo, hi),
            choice matches Some((tag, inner)) ==> lo <= tag <= hi && (crate::schema::field_kind(kind, tag) matches Some(
                FieldKind::Message(inner_kind),
            ) ==> well_typed(inner_kind, inner.deep_view(), 0)),
        decreases fields@.len() - i,
    {
        let field = &fields[i];
        proof {
            assert(model.take(i + 1).last() == field.deep_view());
            assert(model.take(i + 1).drop_last() =~= model.take(i as int));
            assert(model[i as int] == field.deep_view());
            assert(field_ok(kind, model[i as int], 0));
        }
        if lo <= field.tag && field.tag <= hi {
            let mut added = read_contents(field);
            let ghost added_model = added.deep_view();
            proof {
                if let Some(FieldKind::Message(inner_kind)) = crate::schema::field_kind(kind, field.tag) {
                    fewer_levels_fit(inner_kind, added_model, 0, 1);
                }
            }
            choice = match choice {
                Some((tag, mut inner)) => {
                    if tag == field.tag {
                        let ghost inner_model = inner.deep_view();
                        inner.append(&mut added);
                        proof {
                            assert(inner.deep_view() =~= inner_model + added_model);
                            if let Some(FieldKind::Message(inner_kind)) = crate::schema::field_kind(kind, tag) {
                                assert forall|j: int| 0 <= j < inner.deep_view().len() implies field_ok(
                                    inner_kind,
                                    #[trigger] inner.deep_view()[j],
                                    0,
                                ) by {
                                    if j < inner_model.len() {
                                        assert(inner.deep_view()[j] == inner_model[j]);
                                    } else {
                                        assert(inner.deep_view()[j] == added_model[j - inner_model.len()]);
                                    }
                                }
                            }
                        }
                        Some((tag, inner))
                    } else {
                        Some((field.tag, added))
                    }
                },
                None => Some((field.tag, added)),
            };
        }
        i = i + 1;
    }
    assert(model.take(fields@.len() as int) =~= model);
    choice
}

// ---- writing fields ----

/// The field of a number; 0 is not written.
pub open spec fn varint_field(tag: u32, value: u64) -> Seq<FieldModel> {
    if value == 0 {
        Seq::empty()
    } else {
        seq![FieldModel { tag, value: FieldValueModel::Varint(value) }]
    }
}

/// The field of a text; the empty text is not written.
pub open spec fn text_field(tag: u32, text: Seq<char>) -> Seq<FieldModel> {
    if text.len() == 0 {
        Seq::empty()
    } else {
        seq![FieldModel { tag, value: FieldValueModel::Bytes(vstd::utf8::encode_utf8(text)) }]
    }
}

/// The field of a message.
pub open spec fn message_field(tag: u32, fields: Seq<FieldModel>) -> Seq<FieldModel> {
    seq![FieldModel { tag, value: FieldValueModel::Bytes(crate::wire::fields_bytes(fields)) }]
}

/// A flag as a number.
pub open spec fn flag(value: bool) -> u64 {
    if value {
        1
    } else {
        0
    }
}

/// Appends the field of a number.
pub fn push_varint(out: &mut Vec<Field>, tag: u32, value: u64)
    ensures
        final(out).deep_view() == old(out).deep_view() + varint_field(tag, value),
{
    if value != 0 {
        out.push(Field { tag, value: FieldValue::Varint(value) });
    }
    assert(out.deep_view() =~= old(out).deep_view() + varint_field(tag, value));
}

proof fn text_bytes_empty(text: Seq<char>)
    ensures
        vstd::utf8::encode_utf8(text).len() == 0 <==> text.len() == 0,
{
}

/// Appends the field of a text.
pub fn push_text(out: &mut Vec<Field>, tag: u32, text: &String)
    ensures
        final(out).deep_view() == old(out).deep_view() + text_field(tag, text@),
{
    let bytes: Vec<u8> = slice_to_vec(text.as_str().as_bytes());
    proof {
        text_bytes_empty(text@);
    }
    if bytes.len() != 0 {
        out.push(Field { tag, value: FieldValue::Bytes(bytes) });
    }
    assert(out.deep_view() =~= old(out).deep_view() + text_field(tag, text@));
}

/// Appends the field of a message.
pub fn push_message(out: &mut Vec<Field>, tag: u32, fields: &Vec<Field>)
    requires
        crate::wire::all_writable(fields.deep_view()),
    ensures
        final(out).deep_view() == old(out).deep_view() + message_field(tag, fields.deep_view()),
{
    let bytes = write_fields(fields);
    out.push(Field { tag, value: FieldValue::Bytes(bytes) });
    assert(out.deep_view() =~= old(out).deep_view() + message_field(tag, fields.deep_view()));
}

/// The fields of a list of messages.
pub open spec fn repeated_field(tag: u32, list: Seq<Seq<FieldModel>>) -> Seq<FieldModel> {
    Seq::new(
        list.len(),
        |i: int| FieldModel { tag, value: FieldValueModel::Bytes(crate::wire::fields_bytes(list[i])) },
    )
}

// ---- reading what was written ----

/// A number is read from the last field that holds one.
pub broadcast proof fn last_varint_of_varint(a: Seq<FieldModel>, tag: u32, value: u64, t: u32)
    ensures
        #[trigger] last_varint(a + varint_field(tag, value), t) == if tag == t && value != 0 {
            value
        } else {
            last_varint(a, t)
        },
{
    let all = a + varint_field(tag, value);
    if value == 0 {
        assert(all =~= a);
    } else {
        assert(all.drop_last() =~= a);
    }
}

pub broadcast proof fn last_varint_of_text(a: Seq<FieldModel>, tag: u32, text: Seq<char>, t: u32)
    requires
        tag != t,
    ensures
        #[trigger] last_varint(a + text_field(tag, text), t) == last_varint(a, t),
{
    let all = a + text_field(tag, text);
    if text.len() == 0 {
        assert(all =~= a);
    } else {
        assert(all.drop_last() =~= a);
    }
}

pub broadcast proof fn last_varint_of_message(a: Seq<FieldModel>, tag: u32, fields: Seq<FieldModel>, t: u32)
    requires
        tag != t,
    ensures
        #[trigger] last_varint(a + message_field(tag, fields), t) == last_varint(a, t),
{
    assert((a + message_field(tag, fields)).drop_last() =~= a);
}

pub broadcast proof fn last_varint_of_repeated(a: Seq<FieldModel>, tag: u32, list: Seq<Seq<FieldModel>>, t: u32)
    requires
        tag != t,
    ensures
        #[trigger] last_varint(a + repeated_field(tag, list), t) == last_varint(a, t),
    decreases list.len(),
{
    let all = a + repeated_field(tag, list);
    if list.len() == 0 {
        assert(all =~= a);
    } else {
        assert(all.drop_last() =~= a + repeated_field(tag, list.drop_last()));
        last_varint_of_repeated(a, tag, list.drop_last(), t);
    }
}

pub broadcast proof fn last_text_of_varint(a: Seq<FieldModel>, tag: u32, value: u64, t: u32)
    requires
        tag != t,
    ensures
        #[trigger] last_text(a + varint_field(tag, value), t) == last_text(a, t),
{
    let all = a + varint_field(tag, value);
    if value == 0 {
        assert(all =~= a);
    } else {
        assert(all.drop_last() =~= a);
    }
}

/// A text is read from the last field that holds one.
pub broadcast proof fn last_text_of_text(a: Seq<FieldModel>, tag: u32, text: Seq<char>, t: u32)
    ensures
        #[trigger] last_text(a + text_field(tag, text), t) == if tag == t && text.len() != 0 {
            text
        } else {
            last_text(a, t)
        },
{
    let all = a + text_field(tag, text);
    if text.len() == 0 {
        assert(all =~= a);
    } else {
        assert(all.drop_last() =~= a);
        vstd::utf8::encode_utf8_decode_utf8(text);
    }
}

pub broadcast proof fn last_text_of_message(a: Seq<FieldModel>, tag: u32, fields: Seq<FieldModel>, t: u32)
    requires
        tag != t,
    ensures
        #[trigger] last_text(a + message_field(tag, fields), t) == last_text(a, t),
{
    assert((a + message_field(tag, fields)).drop_last() =~= a);
}

pub broadcast proof fn last_text_of_repeated(a: Seq<FieldModel>, tag: u32, list: Seq<Seq<FieldModel>>, t: u32)
    requires
        tag != t,
    ensures
        #[trigger] last_text(a + repeated_field(tag, list), t) == last_text(a, t),
    decreases list.len(),
{
    let all = a + repeated_field(tag, list);
    if list.len() == 0 {
        assert(all =~= a);
    } else {
        assert(all.drop_last() =~= a + repeated_field(tag, list.drop_last()));
        last_text_of_repeated(a, tag, list.drop_last(), t);
    }
}

pub broadcast proof fn each_of_varint(a: Seq<FieldModel>, tag: u32, value: u64, t: u32)
    requires
        tag != t,
    ensures
        #[trigger] each(a + varint_field(tag, value), t) == each(a, t),
{
    let all = a + varint_field(tag, value);
    if value == 0 {
        assert(all =~= a);
    } else {
        assert(all.drop_last() =~= a);
    }
}

pub broadcast proof fn each_of_text(a: Seq<FieldModel>, tag: u32, text: Seq<char>, t: u32)
    requires
        tag != t,
    ensures
        #[trigger] each(a + text_field(tag, text), t) == each(a, t),
{
    let all = a + text_field(tag, text);
    if text.len() == 0 {
        assert(all =~= a);
    } else {
        assert(all.drop_last() =~= a);
    }
}

/// A message's fields can be read back from its bytes, whatever the message
/// stands in.
pub open spec fn readable(fields: Seq<FieldModel>) -> bool {
    forall|level: nat| #[trigger] crate::wire::parsed(crate::wire::fields_bytes(fields), level) == Some(fields)
}

/// Every message of the list can be read back from its bytes.
pub open spec fn all_readable(list: Seq<Seq<FieldModel>>) -> bool {
    forall|i: int| 0 <= i < list.len() ==> readable(#[trigger] list[i])
}

pub broadcast proof fn each_of_message(a: Seq<FieldModel>, tag: u32, fields: Seq<FieldModel>, t: u32)
    requires
        tag == t ==> readable(fields),
    ensures
        #[trigger] each(a + message_field(tag, fields), t) == if tag == t {
            each(a, t).push(fields)
        } else {
            each(a, t)
        },
{
    assert((a + message_field(tag, fields)).drop_last() =~= a);
}

/// The messages of a list are read in order.
pub broadcast proof fn each_of_repeated(a: Seq<FieldModel>, tag: u32, list: Seq<Seq<FieldModel>>, t: u32)
    requires
        tag == t ==> all_readable(list),
    ensures
        #[trigger] each(a + repeated_field(tag, list), t) == if tag == t {
            each(a, t) + list
        } else {
            each(a, t)
        },
    decreases list.len(),
{
    let all = a + repeated_field(tag, list);
    if list.len() == 0 {
        assert(all =~= a);
        assert(each(a, t) + list =~= each(a, t));
    } else {
        let rest = list.drop_last();
        assert(all.drop_last() =~= a + repeated_field(tag, rest));
        assert(tag == t ==> all_readable(rest)) by {
            assert forall|i: int| tag == t && 0 <= i < rest.len() implies readable(#[trigger] rest[i]) by {
                assert(rest[i] == list[i]);
            }
        }
        each_of_repeated(a, tag, rest, t);
        if tag == t {
            assert(readable(list[list.len() - 1]));
            assert((each(a, t) + rest).push(list.last()) =~= each(a, t) + list);
        }
    }
}

pub broadcast proof fn chosen_of_varint(a: Seq<FieldModel>, tag: u32, value: u64, lo: u32, hi: u32)
    requires
        tag < lo || hi < tag,
    ensures
        #[trigger] chosen(a + varint_field(tag, value), lo, hi) == chosen(a, lo, hi),
{
    let all = a + varint_field(tag, value);
    if value == 0 {
        assert(all =~= a);
    } else {
        assert(all.drop_last() =~= a);
    }
}

pub broadcast proof fn chosen_of_text(a: Seq<FieldModel>, tag: u32, text: Seq<char>, lo: u32, hi: u32)
    requires
        tag < lo || hi < tag,
    ensures
        #[trigger] chosen(a + text_field(tag, text), lo, hi) == chosen(a, lo, hi),
{
    let all = a + text_field(tag, text);
    if text.len() == 0 {
        assert(all =~= a);
    } else {
        assert(all.drop_last() =~= a);
    }
}

/// An optional message is read from its field.
pub broadcast proof fn chosen_of_optional(a: Seq<FieldModel>, tag: u32, list: Seq<Seq<FieldModel>>)
    requires
        list.len() <= 1,
        all_readable(list),
        chosen(a, tag, tag) is None,
    ensures
        #[trigger] chosen(a + repeated_field(tag, list), tag, tag) == if list.len() == 1 {
            Some((tag, list[0]))
        } else {
            None
        },
{
    let all = a + repeated_field(tag, list);
    if list.len() == 0 {
        assert(all =~= a);
    } else {
        assert(all.drop_last() =~= a);
        assert(readable(list[0]));
    }
}

pub broadcast proof fn fields_bytes_concat(a: Seq<FieldModel>, b: Seq<FieldModel>)
    ensures
        (#[trigger] crate::wire::fields_bytes(a + b)).len() == crate::wire::fields_bytes(a).len()
            + crate::wire::fields_bytes(b).len(),
    decreases a.len(),
{
    if a.len() == 0 {
        assert(a + b =~= b);
    } else {
        fields_bytes_concat(a.drop_first(), b);
        assert((a + b).drop_first() =~= a.drop_first() + b);
    }
}

pub broadcast proof fn well_typed_concat(kind: MessageKind, a: Seq<FieldModel>, b: Seq<FieldModel>, level: nat)
    ensures
        #[trigger] well_typed(kind, a + b, level) == (well_typed(kind, a, level) && well_typed(kind, b, level)),
{
    let all = a + b;
    if well_typed(kind, all, level) {
        assert forall|i: int| 0 <= i < a.len() implies field_ok(kind, #[trigger] a[i], level) by {
            assert(all[i] == a[i]);
        }
        assert forall|i: int| 0 <= i < b.len() implies field_ok(kind, #[trigger] b[i], level) by {
            assert(all[a.len() + i] == b[i]);
        }
    }
}

pub broadcast proof fn all_writable_concat(a: Seq<FieldModel>, b: Seq<FieldModel>)
    ensures
        #[trigger] crate::wire::all_writable(a + b) == (crate::wire::all_writable(a) && crate::wire::all_writable(b)),
{
    let all = a + b;
    if crate::wire::all_writable(all) {
        assert forall|i: int| 0 <= i < a.len() implies crate::wire::writable(#[trigger] a[i]) by {
            assert(all[i] == a[i]);
        }
        assert forall|i: int| 0 <= i < b.len() implies crate::wire::writable(#[trigger] b[i]) by {
            assert(all[a.len() + i] == b[i]);
        }
    }
}

pub broadcast proof fn text_field_ok(kind: MessageKind, tag: u32, text: Seq<char>, level: nat)
    requires
        crate::schema::field_kind(kind, tag) == Some(FieldKind::Text),
    ensures
        #[trigger] well_typed(kind, text_field(tag, text), level),
{
    vstd::utf8::encode_utf8_valid_utf8(text);
}

pub broadcast proof fn message_field_ok(
    kind: MessageKind,
    tag: u32,
    inner: MessageKind,
    fields: Seq<FieldModel>,
    level: nat,
    deeper: nat,
)
    requires
        #[trigger] crate::schema::field_kind(kind, tag) == Some(FieldKind::Message(inner)),
        crate::schema::depth(inner) < crate::schema::depth(kind),
        readable(fields),
        deeper == level + 1,
        #[trigger] well_typed(inner, fields, deeper),
    ensures
        #[trigger] well_typed(kind, message_field(tag, fields), level),
{
}

pub broadcast group group_fields {
    last_varint_of_varint,
    last_varint_of_text,
    last_varint_of_message,
    last_varint_of_repeated,
    last_text_of_varint,
    last_text_of_text,
    last_text_of_message,
    last_text_of_repeated,
    each_of_varint,
    each_of_text,
    each_of_message,
    each_of_repeated,
    chosen_of_varint,
    chosen_of_text,
    chosen_of_optional,
    fields_bytes_concat,
    well_typed_concat,
    all_writable_concat,
    text_field_ok,
    message_field_ok,
}

/// A message is read from the bytes that its fields are written as.
proof fn written_is_readable(fields: Seq<FieldModel>)
    requires
        crate::wire::all_writable(fields),
        crate::wire::fields_bytes(fields).len() <= u64::MAX,
    ensures
        readable(fields),
{
    assert forall|level: nat| #[trigger] crate::wire::parsed(crate::wire::fields_bytes(fields), level) == Some(
        fields,
    ) by {
        crate::wire::fields_round_trip(fields, level);
    }
}

// ---- messages ----

/// A message type: how its values are written as fields and read from fields.
pub trait Message: DeepView + Sized {
    /// The message's place in the schemas.
    spec fn kind() -> MessageKind;

    /// The fields of a value.
    spec fn fields_of(model: Self::V) -> Seq<FieldModel>;

    /// The value that fields stand for.
    spec fn of_fields(fields: Seq<FieldModel>) -> Self::V;

    /// The fields of a value make it up again: written and read, a value
    /// comes back, whatever it stands in.
    proof fn fields_make_value(model: Self::V, level: nat)
        requires
            crate::wire::fields_bytes(Self::fields_of(model)).len() <= u64::MAX,
        ensures
            well_typed(Self::kind(), Self::fields_of(model), level),
            crate::wire::all_writable(Self::fields_of(model)),
            Self::of_fields(Self::fields_of(model)) == model,
    ;

    /// The message type.
    fn message_kind() -> (kind: MessageKind)
        ensures
            kind == Self::kind(),
    ;

    /// The fields of this value.
    fn to_fields(&self) -> (fields: Vec<Field>)
        ensures
            fields.deep_view() == Self::fields_of(self.deep_view()),
            crate::wire::all_writable(fields.deep_view()),
    ;

    /// The value that well-typed fields stand for.
    fn from_fields(fields: &Vec<Field>) -> (value: Self)
        requires
            well_typed(Self::kind(), fields.deep_view(), 0),
        ensures
            value.deep_view() == Self::of_fields(fields.deep_view()),
    ;
}

/// The fields of each message of a list.
pub open spec fn lists_of<M: Message>(models: Seq<M::V>) -> Seq<Seq<FieldModel>> {
    Seq::new(models.len(), |i: int| M::fields_of(models[i]))
}

/// The fields of an optional message, as a list.
pub open spec fn optional_list<M: Message>(model: Option<M::V>) -> Seq<Seq<FieldModel>> {
    match model {
        Some(m) => seq![M::fields_of(m)],
        None => Seq::empty(),
    }
}

/// The messages that a list of fields stands for.
pub open spec fn values_of<M: Message>(lists: Seq<Seq<FieldModel>>) -> Seq<M::V> {
    Seq::new(lists.len(), |i: int| M::of_fields(lists[i]))
}

/// The message that a field comes to, if it is there.
pub open spec fn optional_of<M: Message>(choice: Option<(u32, Seq<FieldModel>)>) -> Option<M::V> {
    match choice {
        Some((_, fields)) => Some(M::of_fields(fields)),
        None => None,
    }
}

/// Appends the fields of a list of messages.
pub fn push_repeated<M: Message>(out: &mut Vec<Field>, tag: u32, list: &Vec<M>)
    requires
        1 <= tag < 0x2000_0000,
    ensures
        final(out).deep_view() == old(out).deep_view() + repeated_field(tag, lists_of::<M>(list.deep_view())),
        crate::wire::all_writable(repeated_field(tag, lists_of::<M>(list.deep_view()))),
{
    let ghost models = list.deep_view();
    let ghost before = out.deep_view();
    let mut i: usize = 0;
    assert(out.deep_view() =~= before + repeated_field(tag, lists_of::<M>(models.take(0))));
    while i < list.len()
        invariant
            i <= list@.len(),
            models == list.deep_view(),
            out.deep_view() == before + repeated_field(tag, lists_of::<M>(models.take(i as int))),
        decreases list@.len() - i,
    {
        let ghost so_far = out.deep_view();
        let fields = list[i].to_fields();
        push_message(out, tag, &fields);
        proof {
            assert(models[i as int] == list@[i as int].deep_view());
            assert(out.deep_view() =~= before + repeated_field(tag, lists_of::<M>(models.take(i + 1))));
        }
        i = i + 1;
    }
    assert(models.take(list@.len() as int) =~= models);
}

/// Appends the field of an optional message.
pub fn push_optional<M: Message>(out: &mut Vec<Field>, tag: u32, value: &Option<M>)
    requires
        1 <= tag < 0x2000_0000,
    ensures
        final(out).deep_view() == old(out).deep_view() + repeated_field(tag, optional_list::<M>(value.deep_view())),
        crate::wire::all_writable(repeated_field(tag, optional_list::<M>(value.deep_view()))),
{
    match value {
        Some(message) => {
            let fields = message.to_fields();
            push_message(out, tag, &fields);
        },
        None => {},
    }
    assert(out.deep_view() =~= old(out).deep_view() + repeated_field(tag, optional_list::<M>(value.deep_view())));
}

/// Reads the messages of the fields `tag`.
pub(crate) fn read_repeated<M: Message>(Ghost(kind): Ghost<MessageKind>, fields: &Vec<Field>, tag: u32) -> (list: Vec<M>)
    requires
        well_typed(kind, fields.deep_view(), 0),
        crate::schema::field_kind(kind, tag) == Some(FieldKind::Message(M::kind())),
    ensures
        list.deep_view() == values_of::<M>(each(fields.deep_view(), tag)),
{
    let all = read_each(Ghost(kind), fields, tag);
    let ghost lists = all.deep_view();
    let mut list: Vec<M> = Vec::new();
    let mut i: usize = 0;
    while i < all.len()
        invariant
            i <= all@.len(),
            lists == all.deep_view(),
            forall|j: int| 0 <= j < all@.len() ==> well_typed(M::kind(), #[trigger] lists[j], 0),
            list@.len() == i,
            forall|j: int| 0 <= j < i ==> (#[trigger] list@[j]).deep_view() == M::of_fields(lists[j]),
        decreases all@.len() - i,
    {
        assert(lists[i as int] == all@[i as int].deep_view());
        list.push(M::from_fields(&all[i]));
        i = i + 1;
    }
    assert(list.deep_view() =~= values_of::<M>(lists));
    list
}

/// Reads the message that field `tag` comes to.
pub(crate) fn read_optional<M: Message>(Ghost(kind): Ghost<MessageKind>, fields: &Vec<Field>, tag: u32) -> (value: Option<M>)
    requires
        well_typed(kind, fields.deep_view(), 0),
        crate::schema::field_kind(kind, tag) == Some(FieldKind::Message(M::kind())),
    ensures
        value.deep_view() == optional_of::<M>(chosen(fields.deep_view(), tag, tag)),
{
    match read_chosen(Ghost(kind), fields, tag, tag) {
        Some((_, inner)) => Some(M::from_fields(&inner)),
        None => None,
    }
}

/// A list of messages is read back from its fields.
pub proof fn repeated_makes_values<M: Message>(kind: MessageKind, tag: u32, models: Seq<M::V>, level: nat)
    requires
        crate::schema::field_kind(kind, tag) == Some(FieldKind::Message(M::kind())),
        crate::schema::depth(M::kind()) < crate::schema::depth(kind),
        1 <= tag < 0x2000_0000,
        crate::wire::fields_bytes(repeated_field(tag, lists_of::<M>(models))).len() <= u64::MAX,
    ensures
        all_readable(lists_of::<M>(models)),
        well_typed(kind, repeated_field(tag, lists_of::<M>(models)), level),
        crate::wire::all_writable(repeated_field(tag, lists_of::<M>(models))),
        values_of::<M>(lists_of::<M>(models)) == models,
        Seq::<Seq<FieldModel>>::empty() + lists_of::<M>(models) == lists_of::<M>(models),
{
    let lists = lists_of::<M>(models);
    let fields = repeated_field(tag, lists);
    assert forall|i: int| 0 <= i < lists.len() implies readable(#[trigger] lists[i]) && well_typed(
        M::kind(),
        lists[i],
        level + 1,
    ) && M::of_fields(lists[i]) == models[i] by {
        crate::wire::payload_within(fields, i);
        assert(fields[i].value == FieldValueModel::Bytes(crate::wire::fields_bytes(lists[i])));
        M::fields_make_value(models[i], level + 1);
        written_is_readable(lists[i]);
    }
    assert forall|i: int| 0 <= i < fields.len() implies field_ok(kind, #[trigger] fields[i], level) by {
        assert(readable(lists[i]));
    }
    assert(values_of::<M>(lists) =~= models);
    assert(Seq::<Seq<FieldModel>>::empty() + lists =~= lists);
}

/// An optional message is read back from its field.
pub proof fn optional_makes_value<M: Message>(kind: MessageKind, tag: u32, model: Option<M::V>, level: nat)
    requires
        crate::schema::field_kind(kind, tag) == Some(FieldKind::Message(M::kind())),
        crate::schema::depth(M::kind()) < crate::schema::depth(kind),
        1 <= tag < 0x2000_0000,
        crate::wire::fields_bytes(repeated_field(tag, optional_list::<M>(model))).len() <= u64::MAX,
    ensures
        all_readable(optional_list::<M>(model)),
        well_typed(kind, repeated_field(tag, optional_list::<M>(model)), level),
        crate::wire::all_writable(repeated_field(tag, optional_list::<M>(model))),
        model matches Some(m) ==> M::of_fields(M::fields_of(m)) == m,
{
    if let Some(m) = model {
        let fields = repeated_field(tag, optional_list::<M>(model));
        crate::wire::payload_within(fields, 0);
        M::fields_make_value(m, level + 1);
        written_is_readable(M::fields_of(m));
    }
}

/// The one field of a message that holds a message of its own.
pub proof fn message_makes_value<M: Message>(
    kind: MessageKind,
    lo: u32,
    hi: u32,
    tag: u32,
    model: M::V,
    level: nat,
)
    requires
        crate::schema::field_kind(kind, tag) == Some(FieldKind::Message(M::kind())),
        crate::schema::depth(M::kind()) < crate::schema::depth(kind),
        lo <= tag <= hi,
        1 <= tag < 0x2000_0000,
        crate::wire::fields_bytes(message_field(tag, M::fields_of(model))).len() <= u64::MAX,
    ensures
        well_typed(kind, message_field(tag, M::fields_of(model)), level),
        crate::wire::all_writable(message_field(tag, M::fields_of(model))),
        chosen(message_field(tag, M::fields_of(model)), lo, hi) == Some((tag, M::fields_of(model))),
        M::of_fields(M::fields_of(model)) == model,
{
    let fields = message_field(tag, M::fields_of(model));
    crate::wire::payload_within(fields, 0);
    M::fields_make_value(model, level + 1);
    written_is_readable(M::fields_of(model));
    assert(fields.drop_last() =~= Seq::<FieldModel>::empty());
    assert(chosen(fields.drop_last(), lo, hi) is None);
}

/// The one field of a message that holds a text.
pub open spec fn chosen_text_field(tag: u32, text: Seq<char>) -> Seq<FieldModel> {
    seq![FieldModel { tag, value: FieldValueModel::Bytes(vstd::utf8::encode_utf8(text)) }]
}

/// Appends the one field of a message that holds a text.
pub fn push_chosen_text(out: &mut Vec<Field>, tag: u32, text: &String)
    ensures
        final(out).deep_view() == old(out).deep_view() + chosen_text_field(tag, text@),
{
    let bytes: Vec<u8> = slice_to_vec(text.as_str().as_bytes());
    out.push(Field { tag, value: FieldValue::Bytes(bytes) });
    assert(out.deep_view() =~= old(out).deep_view() + chosen_text_field(tag, text@));
}

/// A text that is the one field of a message is read back.
pub proof fn chosen_text_makes_value(kind: MessageKind, lo: u32, hi: u32, tag: u32, text: Seq<char>, level: nat)
    requires
        crate::schema::field_kind(kind, tag) == Some(FieldKind::Text),
        lo <= tag <= hi,
        1 <= tag < 0x2000_0000,
    ensures
        well_typed(kind, chosen_text_field(tag, text), level),
        crate::wire::all_writable(chosen_text_field(tag, text)),
        chosen(chosen_text_field(tag, text), lo, hi) matches Some((t, _)) && t == tag,
        last_text(chosen_text_field(tag, text), tag) == text,
{
    let fields = chosen_text_field(tag, text);
    vstd::utf8::encode_utf8_valid_utf8(text);
    vstd::utf8::encode_utf8_decode_utf8(text);
    assert(fields.drop_last() =~= Seq::<FieldModel>::empty());
    assert(chosen(fields.drop_last(), lo, hi) is None);
}

/// The bytes of a message.
pub open spec fn message_bytes<M: Message>(model: M::V) -> Seq<u8> {
    crate::wire::fields_bytes(M::fields_of(model))
}

/// The message that bytes inside `level` messages stand for.
pub open spec fn read_nested<M: Message>(bytes: Seq<u8>, level: nat) -> Result<M::V, WireError> {
    match crate::wire::parsed(bytes, level) {
        Some(fields) => if well_typed(M::kind(), fields, level) {
            Ok(M::of_fields(fields))
        } else {
            Err(WireError::BadField)
        },
        None => Err(WireError::Malformed),
    }
}

/// The message that bytes stand for.
pub open spec fn read_message<M: Message>(bytes: Seq<u8>) -> Result<M::V, WireError> {
    read_nested::<M>(bytes, 0)
}

/// The bytes of a message after their number.
pub open spec fn delimited_bytes<M: Message>(model: M::V) -> Seq<u8> {
    crate::wire::varint(message_bytes::<M>(model).len()) + message_bytes::<M>(model)
}

/// The message whose delimited bytes `bytes` begin with. What delimits it counts
/// as a message around it.
pub open spec fn read_delimited<M: Message>(bytes: Seq<u8>) -> Result<M::V, WireError> {
    match crate::wire::leading_varint(bytes) {
        Some((len, n)) => if len <= bytes.len() - n {
            read_nested::<M>(bytes.subrange(n as int, n + len), 1)
        } else {
            Err(WireError::Malformed)
        },
        None => Err(WireError::Malformed),
    }
}

/// Encodes a message.
pub fn encode_to_vec<M: Message>(message: &M) -> (bytes: Vec<u8>)
    ensures
        bytes@ == message_bytes::<M>(message.deep_view()),
{
    write_fields(&message.to_fields())
}

/// Encodes a message with its length in front.
pub fn encode_length_delimited_to_vec<M: Message>(message: &M) -> (bytes: Vec<u8>)
    ensures
        bytes@ == delimited_bytes::<M>(message.deep_view()),
{
    let body = encode_to_vec(message);
    let mut bytes: Vec<u8> = Vec::new();
    put_varint(&mut bytes, body.len() as u64);
    bytes.extend_from_slice(body.as_slice());
    assert(bytes@ =~= delimited_bytes::<M>(message.deep_view()));
    bytes
}

/// Decodes a message inside `level` others.
fn decode_nested<M: Message>(bytes: &[u8], level: usize) -> (message: Result<M, WireError>)
    requires
        level <= 1,
    ensures
        match message {
            Ok(m) => read_nested::<M>(bytes@, level as nat) == Ok::<M::V, WireError>(m.deep_view()),
            Err(e) => read_nested::<M>(bytes@, level as nat) == Err::<M::V, WireError>(e),
        },
{
    match parse_fields(bytes, level) {
        Ok(fields) => {
            if check_fields(M::message_kind(), &fields, level) {
                proof {
                    fewer_levels_fit(M::kind(), fields.deep_view(), 0, level as nat);
                }
                Ok(M::from_fields(&fields))
            } else {
                Err(WireError::BadField)
            }
        },
        Err(e) => Err(e),
    }
}

/// Decodes a message from bytes that hold nothing else.
pub fn decode<M: Message>(bytes: &[u8]) -> (message: Result<M, WireError>)
    ensures
        match message {
            Ok(m) => read_message::<M>(bytes@) == Ok::<M::V, WireError>(m.deep_view()),
            Err(e) => read_message::<M>(bytes@) == Err::<M::V, WireError>(e),
        },
{
    decode_nested(bytes, 0)
}

/// Decodes a message from bytes that begin with its length.
pub fn decode_length_delimited<M: Message>(bytes: &[u8]) -> (message: Result<M, WireError>)
    ensures
        match message {
            Ok(m) => read_delimited::<M>(bytes@) == Ok::<M::V, WireError>(m.deep_view()),
            Err(e) => read_delimited::<M>(bytes@) == Err::<M::V, WireError>(e),
        },
{
    match take_varint(bytes) {
        Ok((len, rest)) => {
            proof {
                crate::wire::leading_varint_bounds(bytes@);
            }
            if len <= rest.len() as u64 {
                let body = slice_subrange(rest, 0, len as usize);
                proof {
                    let (_, n) = crate::wire::leading_varint(bytes@).unwrap();
                    assert(body@ =~= bytes@.subrange(n as int, n + len));
                }
                decode_nested(body, 1)
            } else {
                Err(WireError::Malformed)
            }
        },
        Err(_) => Err(WireError::Malformed),
    }
}

/// A message is read back from its bytes, delimited or not.
pub proof fn message_round_trip<M: Message>(model: M::V)
    requires
        message_bytes::<M>(model).len() <= u64::MAX,
    ensures
        read_message::<M>(message_bytes::<M>(model)) == Ok::<M::V, WireError>(model),
        read_delimited::<M>(delimited_bytes::<M>(model)) == Ok::<M::V, WireError>(model),
{
    M::fields_make_value(model, 0);
    M::fields_make_value(model, 1);
    crate::wire::fields_round_trip(M::fields_of(model), 0);
    crate::wire::fields_round_trip(M::fields_of(model), 1);
    let body = message_bytes::<M>(model);
    crate::wire::varint_round_trip(body.len() as u64, body);
    let n = crate::wire::varint(body.len()).len();
    assert(delimited_bytes::<M>(model).subrange(n as int, (n + body.len()) as int) =~= body);
}

/// Of several fields under a tag the last one counts, for numbers and for texts,
/// and what stands under other tags does not matter. Without one a number is 0 and
/// a text empty.
pub proof fn the_last_field_counts(
    before: Seq<FieldModel>,
    tag: u32,
    value: u64,
    bytes: Seq<u8>,
    after: Seq<FieldModel>,
)
    requires
        forall|i: int| 0 <= i < after.len() ==> (#[trigger] after[i]).tag != tag,
    ensures
        last_varint(before.push((FieldModel { tag, value: FieldValueModel::Varint(value) })) + after, tag) == value,
        last_text(before.push((FieldModel { tag, value: FieldValueModel::Bytes(bytes) })) + after, tag)
            == vstd::utf8::decode_utf8(bytes),
        last_varint(after, tag) == 0,
        last_text(after, tag) == Seq::<char>::empty(),
    decreases after.len(),
{
    let number = before.push(FieldModel { tag, value: FieldValueModel::Varint(value) });
    let text = before.push(FieldModel { tag, value: FieldValueModel::Bytes(bytes) });
    if after.len() == 0 {
        assert(number + after =~= number);
        assert(text + after =~= text);
    } else {
        let rest = after.drop_last();
        assert(after[after.len() - 1].tag != tag);
        assert forall|i: int| 0 <= i < rest.len() implies (#[trigger] rest[i]).tag != tag by {
            assert(rest[i] == after[i]);
        }
        the_last_field_counts(before, tag, value, bytes, rest);
        assert((number + after).drop_last() =~= number + rest);
        assert((text + after).drop_last() =~= text + rest);
        assert((number + after).last() == after.last());
        assert((text + after).last() == after.last());
    }
}

/// Every field under a tag is one of a list, in order.
pub proof fn every_field_is_listed(fields: Seq<FieldModel>, tag: u32)
    ensures
        each(fields, tag) == fields.filter(|f: FieldModel| f.tag == tag).map_values(|f: FieldModel| contents(f)),
    decreases fields.len(),
{
    reveal(Seq::filter);
    let tagged = |f: FieldModel| f.tag == tag;
    let inside = |f: FieldModel| contents(f);
    if fields.len() > 0 {
        let rest = fields.drop_last();
        every_field_is_listed(rest, tag);
        assert(rest.filter(tagged).push(fields.last()).map_values(inside) =~= rest.filter(tagged).map_values(
            inside,
        ).push(contents(fields.last())));
    }
    assert(each(fields, tag) =~= fields.filter(tagged).map_values(inside));
}

/// Of fields of which a message holds one the last tag counts: a field under
/// another tag drops what stood before, a further one under the same tag adds to
/// it, and fields under tags outside the range do not matter.
pub proof fn the_last_choice_counts(fields: Seq<FieldModel>, field: FieldModel, lo: u32, hi: u32)
    ensures
        ({
            let before = chosen(fields, lo, hi);
            let after = chosen(fields.push(field), lo, hi);
            let inside = lo <= field.tag <= hi;
            &&& !inside ==> after == before
            &&& inside ==> (after matches Some((tag, inner)) && tag == field.tag && inner == match before {
                Some((same, held)) if same == field.tag => held + contents(field),
                _ => contents(field),
            })
        }),
        chosen(Seq::empty(), lo, hi) is None,
{
    assert(fields.push(field).drop_last() =~= fields);
}

/// A message that follows its length is that many bytes, after the number.
pub proof fn delimited_messages_begin_with_their_length<M: Message>(model: M::V)
    ensures
        delimited_bytes::<M>(model) == crate::wire::varint(message_bytes::<M>(model).len()) + message_bytes::<M>(
            model,
        ),
        delimited_bytes::<M>(model).len() > message_bytes::<M>(model).len(),
{
}

} // verus!
