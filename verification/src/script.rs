//! The payload of a script tag: a name and one value of the recursive
//! script-data grammar.

use vstd::prelude::*;
use vstd::string::StringSliceAdditionalSpecFns;
use vstd::utf8::{decode_utf8, encode_utf8_decode_utf8, valid_utf8};
use crate::error::{
    lemma_prepend_empty, lemma_prepend_end, lemma_prepend_push, outcome, outcome_view, prepend,
    truncated, Error,
};
use crate::number::{be_i16, be_sint, be_u16, be_u32, be_u64, be_u8, be_uint, spec_take, take};
use crate::script_laws::{lemma_property_rest, lemma_value_rest};

verus! {

/// A date value.
#[derive(Debug, Copy, Clone, PartialEq)]
pub struct ScriptDataDate {
    /// Milliseconds since the Unix epoch: the bits of an IEEE-754 double.
    pub date_time: u64,
    /// The local time's offset from UTC in minutes.
    pub local_date_time_offset: i16,
}

/// A script-data value.
#[derive(Debug, PartialEq)]
pub enum ScriptDataValue<'a> {
    /// 0: the bits of an IEEE-754 double.
    Number(u64),
    /// 1
    Boolean(bool),
    /// 2
    String(&'a str),
    /// 3
    Object(Vec<ScriptDataObjectProperty<'a>>),
    /// 4
    MovieClip,
    /// 5
    Null,
    /// 6
    Undefined,
    /// 7
    Reference(u16),
    /// 8
    ECMAArray(Vec<ScriptDataObjectProperty<'a>>),
    /// 10
    StrictArray(Vec<ScriptDataValue<'a>>),
    /// 11
    Date(ScriptDataDate),
    /// 12
    LongString(&'a str),
}

/// One named member of an object or of an ECMA array.
#[derive(Debug, PartialEq)]
pub struct ScriptDataObjectProperty<'a> {
    pub property_name: &'a str,
    pub property_data: ScriptDataValue<'a>,
}

/// The payload of a script tag.
#[derive(Debug, PartialEq)]
pub struct ScriptTag<'a> {
    pub name: &'a str,
    pub value: ScriptDataValue<'a>,
}

/// What a script-data value holds.
pub enum ScriptValue {
    Number(u64),
    Boolean(bool),
    String(Seq<char>),
    Object(Seq<ScriptProperty>),
    MovieClip,
    Null,
    Undefined,
    Reference(u16),
    ECMAArray(Seq<ScriptProperty>),
    StrictArray(Seq<ScriptValue>),
    Date(ScriptDataDate),
    LongString(Seq<char>),
}

/// What a property holds.
pub struct ScriptProperty {
    pub name: Seq<char>,
    pub value: ScriptValue,
}

/// What a script tag's payload holds.
pub struct ScriptTagView {
    pub name: Seq<char>,
    pub value: ScriptValue,
}

/// What `value` holds.
pub open spec fn value_view(value: ScriptDataValue) -> ScriptValue
    decreases value,
{
    match value {
        ScriptDataValue::Number(bits) => ScriptValue::Number(bits),
        ScriptDataValue::Boolean(b) => ScriptValue::Boolean(b),
        ScriptDataValue::String(s) => ScriptValue::String(s@),
        ScriptDataValue::Object(properties) => ScriptValue::Object(
            Seq::new(
                properties@.len(),
                |i: int|
                    if 0 <= i < properties@.len() {
                        property_view(properties@[i])
                    } else {
                        arbitrary()
                    },
            ),
        ),
        ScriptDataValue::MovieClip => ScriptValue::MovieClip,
        ScriptDataValue::Null => ScriptValue::Null,
        ScriptDataValue::Undefined => ScriptValue::Undefined,
        ScriptDataValue::Reference(index) => ScriptValue::Reference(index),
        ScriptDataValue::ECMAArray(properties) => ScriptValue::ECMAArray(
            Seq::new(
                properties@.len(),
                |i: int|
                    if 0 <= i < properties@.len() {
                        property_view(properties@[i])
                    } else {
                        arbitrary()
                    },
            ),
        ),
        ScriptDataValue::StrictArray(values) => ScriptValue::StrictArray(
            Seq::new(
                values@.len(),
                |i: int|
                    if 0 <= i < values@.len() {
                        value_view(values@[i])
                    } else {
                        arbitrary()
                    },
            ),
        ),
        ScriptDataValue::Date(date) => ScriptValue::Date(date),
        ScriptDataValue::LongString(s) => ScriptValue::LongString(s@),
    }
}

/// What `property` holds.
pub open spec fn property_view(property: ScriptDataObjectProperty) -> ScriptProperty
    decreases property,
{
    ScriptProperty { name: property.property_name@, value: value_view(property.property_data) }
}

impl<'a> View for ScriptDataValue<'a> {
    type V = ScriptValue;

    open spec fn view(&self) -> ScriptValue {
        value_view(*self)
    }
}

impl<'a> View for ScriptDataObjectProperty<'a> {
    type V = ScriptProperty;

    open spec fn view(&self) -> ScriptProperty {
        property_view(*self)
    }
}

impl<'a> View for ScriptTag<'a> {
    type V = ScriptTagView;

    open spec fn view(&self) -> ScriptTagView {
        ScriptTagView { name: self.name@, value: self.value@ }
    }
}

/// What a list of properties holds, member by member.
pub open spec fn properties_view(properties: Seq<ScriptDataObjectProperty>) -> Seq<
    ScriptProperty,
> {
    Seq::new(properties.len(), |i: int| properties[i]@)
}

/// What a list of values holds, member by member.
pub open spec fn values_view(values: Seq<ScriptDataValue>) -> Seq<ScriptValue> {
    Seq::new(values.len(), |i: int| values[i]@)
}

/// The error that `core::str::from_utf8` gives.
#[verifier::external_type_specification]
#[verifier::external_body]
pub struct ExUtf8Error(core::str::Utf8Error);

/// `core::str::from_utf8` succeeds exactly on the byte sequences that are
/// UTF-8, and the string it gives has the bytes it was given.
pub assume_specification<'a>[ core::str::from_utf8 ](bytes: &'a [u8]) -> (r: Result<
    &'a str,
    core::str::Utf8Error,
>)
    ensures
        r is Ok <==> valid_utf8(bytes@),
        r matches Ok(s) ==> s.spec_bytes() == bytes@,
;

/// The three bytes that end a property list.
pub open spec fn end_marker() -> Seq<u8> {
    seq![0u8, 0u8, 9u8]
}

/// A string behind a big-endian length of `width` bytes.
pub open spec fn spec_length_string(input: Seq<u8>, width: nat) -> Result<
    (Seq<u8>, Seq<char>),
    Error,
> {
    match spec_take(input, width) {
        Ok((rest, length)) => match spec_take(rest, be_uint(length)) {
            Ok((rest, bytes)) => if valid_utf8(bytes) {
                Ok((rest, decode_utf8(bytes)))
            } else {
                Err(Error::InvalidUtf8)
            },
            Err(e) => Err(e),
        },
        Err(e) => Err(e),
    }
}

/// A number: eight bytes, the bits of a double.
pub open spec fn spec_script_data_number(input: Seq<u8>) -> Result<(Seq<u8>, u64), Error> {
    match spec_take(input, 8) {
        Ok((rest, bytes)) => Ok((rest, be_uint(bytes) as u64)),
        Err(e) => Err(e),
    }
}

/// The byte of a boolean.
pub open spec fn spec_script_data_boolean(input: Seq<u8>) -> Result<(Seq<u8>, u8), Error> {
    match spec_take(input, 1) {
        Ok((rest, bytes)) => Ok((rest, bytes[0])),
        Err(e) => Err(e),
    }
}

/// A reference: an index of two bytes.
pub open spec fn spec_script_data_reference(input: Seq<u8>) -> Result<(Seq<u8>, u16), Error> {
    match spec_take(input, 2) {
        Ok((rest, bytes)) => Ok((rest, be_uint(bytes) as u16)),
        Err(e) => Err(e),
    }
}

/// A string behind a length of two bytes.
pub open spec fn spec_script_data_string(input: Seq<u8>) -> Result<(Seq<u8>, Seq<char>), Error> {
    spec_length_string(input, 2)
}

/// A string behind a length of four bytes.
pub open spec fn spec_script_data_long_string(input: Seq<u8>) -> Result<
    (Seq<u8>, Seq<char>),
    Error,
> {
    spec_length_string(input, 4)
}

/// A date: eight bytes of milliseconds, the bits of a double, then a signed
/// offset of two bytes.
pub open spec fn spec_script_data_date(input: Seq<u8>) -> Result<(Seq<u8>, ScriptDataDate), Error> {
    match spec_take(input, 8) {
        Ok((rest, millis)) => match spec_take(rest, 2) {
            Ok((rest, offset)) => Ok(
                (
                    rest,
                    ScriptDataDate {
                        date_time: be_uint(millis) as u64,
                        local_date_time_offset: be_sint(offset) as i16,
                    },
                ),
            ),
            Err(e) => Err(e),
        },
        Err(e) => Err(e),
    }
}

/// The end marker at the start of `input`.
pub open spec fn spec_script_data_object_end_marker(input: Seq<u8>) -> Result<
    (Seq<u8>, Seq<u8>),
    Error,
> {
    if input.len() >= 3 && input.take(3) == end_marker() {
        Ok((input.skip(3), end_marker()))
    } else {
        Err(Error::MissingObjectTerminator)
    }
}

/// One value: a type byte, then what the type calls for.
pub open spec fn spec_script_data_value(input: Seq<u8>) -> Result<(Seq<u8>, ScriptValue), Error>
    decreases input.len(), 0nat,
{
    if input.len() < 1 {
        Err(truncated(1))
    } else {
        let body = input.skip(1);
        match input[0] {
            0u8 => match spec_script_data_number(body) {
                Ok((rest, bits)) => Ok((rest, ScriptValue::Number(bits))),
                Err(e) => Err(e),
            },
            1u8 => match spec_script_data_boolean(body) {
                Ok((rest, byte)) => Ok((rest, ScriptValue::Boolean(byte != 0))),
                Err(e) => Err(e),
            },
            2u8 => match spec_script_data_string(body) {
                Ok((rest, s)) => Ok((rest, ScriptValue::String(s))),
                Err(e) => Err(e),
            },
            3u8 => match spec_script_data_object(body) {
                Ok((rest, properties)) => Ok((rest, ScriptValue::Object(properties))),
                Err(e) => Err(e),
            },
            4u8 => Ok((body, ScriptValue::MovieClip)),
            5u8 => Ok((body, ScriptValue::Null)),
            6u8 => Ok((body, ScriptValue::Undefined)),
            7u8 => match spec_script_data_reference(body) {
                Ok((rest, index)) => Ok((rest, ScriptValue::Reference(index))),
                Err(e) => Err(e),
            },
            8u8 => match spec_script_data_ecma_array(body) {
                Ok((rest, properties)) => Ok((rest, ScriptValue::ECMAArray(properties))),
                Err(e) => Err(e),
            },
            10u8 => match spec_script_data_strict_array(body) {
                Ok((rest, values)) => Ok((rest, ScriptValue::StrictArray(values))),
                Err(e) => Err(e),
            },
            11u8 => match spec_script_data_date(body) {
                Ok((rest, date)) => Ok((rest, ScriptValue::Date(date))),
                Err(e) => Err(e),
            },
            12u8 => match spec_script_data_long_string(body) {
                Ok((rest, s)) => Ok((rest, ScriptValue::LongString(s))),
                Err(e) => Err(e),
            },
            other => Err(Error::UnknownScriptValueType(other)),
        }
    }
}

/// One property: a name, then a value.
pub open spec fn spec_script_data_object_property(input: Seq<u8>) -> Result<
    (Seq<u8>, ScriptProperty),
    Error,
>
    decreases input.len(), 1nat,
{
    match spec_script_data_string(input) {
        Ok((rest, name)) => match spec_script_data_value(rest) {
            Ok((rest, value)) => Ok((rest, ScriptProperty { name, value })),
            Err(e) => Err(e),
        },
        Err(e) => Err(e),
    }
}

/// A property list: properties up to the end marker, which is consumed and
/// is no member of the list. Where fewer than three bytes are left and no
/// marker was met, the marker is missing. A property always takes bytes
/// (`lemma_property_rest`), so the last branch is never reached.
pub open spec fn spec_script_data_object(input: Seq<u8>) -> Result<
    (Seq<u8>, Seq<ScriptProperty>),
    Error,
>
    decreases input.len(), 2nat,
{
    if input.len() < 3 {
        Err(Error::MissingObjectTerminator)
    } else if input.take(3) == end_marker() {
        Ok((input.skip(3), Seq::empty()))
    } else {
        match spec_script_data_object_property(input) {
            Ok((rest, property)) => if rest.len() < input.len() {
                prepend(seq![property], spec_script_data_object(rest))
            } else {
                Err(Error::MissingObjectTerminator)
            },
            Err(e) => Err(e),
        }
    }
}

/// An ECMA array: four bytes of a count that is not held against the
/// members, then a property list.
pub open spec fn spec_script_data_ecma_array(input: Seq<u8>) -> Result<
    (Seq<u8>, Seq<ScriptProperty>),
    Error,
>
    decreases input.len(), 3nat,
{
    match spec_take(input, 4) {
        Ok((rest, _)) => spec_script_data_object(rest),
        Err(e) => Err(e),
    }
}

/// `count` values in a row. A value always takes bytes
/// (`lemma_value_rest`), so the last branch is never reached.
pub open spec fn spec_script_data_values(input: Seq<u8>, count: nat) -> Result<
    (Seq<u8>, Seq<ScriptValue>),
    Error,
>
    decreases input.len(), count + 1,
{
    if count == 0 {
        Ok((input, Seq::empty()))
    } else {
        match spec_script_data_value(input) {
            Ok((rest, value)) => if rest.len() < input.len() {
                prepend(seq![value], spec_script_data_values(rest, (count - 1) as nat))
            } else {
                Err(truncated(1))
            },
            Err(e) => Err(e),
        }
    }
}

/// A strict array: a count of four bytes, then that many values.
pub open spec fn spec_script_data_strict_array(input: Seq<u8>) -> Result<
    (Seq<u8>, Seq<ScriptValue>),
    Error,
>
    decreases input.len(), 0nat,
{
    match spec_take(input, 4) {
        Ok((rest, count)) => spec_script_data_values(rest, be_uint(count)),
        Err(e) => Err(e),
    }
}

/// A script payload in the first `size` bytes of `input`: the string type
/// byte, the name, one value. What the value leaves of the `size` bytes is
/// passed over.
pub open spec fn spec_script_tag(input: Seq<u8>, size: nat) -> Result<
    (Seq<u8>, ScriptTagView),
    Error,
> {
    if input.len() < size {
        Err(truncated(size))
    } else if size < 1 {
        Err(truncated(1))
    } else if input[0] != 2 {
        Err(Error::UnknownScriptValueType(input[0]))
    } else {
        match spec_script_data_string(input.subrange(1, size as int)) {
            Ok((rest, name)) => match spec_script_data_value(rest) {
                Ok((_, value)) => Ok((input.skip(size as int), ScriptTagView { name, value })),
                Err(e) => Err(e),
            },
            Err(e) => Err(e),
        }
    }
}

/// A decoder's result with the rest of the input taken as a sequence and
/// the properties by what they hold.
pub open spec fn outcome_properties<'a>(
    r: Result<(&'a [u8], Vec<ScriptDataObjectProperty<'a>>), Error>,
) -> Result<(Seq<u8>, Seq<ScriptProperty>), Error> {
    match r {
        Ok((rest, properties)) => Ok((rest@, properties_view(properties@))),
        Err(e) => Err(e),
    }
}

/// A decoder's result with the rest of the input taken as a sequence and
/// the values by what they hold.
pub open spec fn outcome_values<'a>(
    r: Result<(&'a [u8], Vec<ScriptDataValue<'a>>), Error>,
) -> Result<(Seq<u8>, Seq<ScriptValue>), Error> {
    match r {
        Ok((rest, values)) => Ok((rest@, values_view(values@))),
        Err(e) => Err(e),
    }
}

/// What an object holds is what its properties hold.
pub proof fn lemma_object_view(properties: Vec<ScriptDataObjectProperty>)
    ensures
        ScriptDataValue::Object(properties)@ == ScriptValue::Object(
            properties_view(properties@),
        ),
{
    reveal_with_fuel(value_view, 2);
    assert(ScriptDataValue::Object(properties)@->Object_0 =~= properties_view(properties@));
}

/// What an ECMA array holds is what its properties hold.
pub proof fn lemma_ecma_array_view(properties: Vec<ScriptDataObjectProperty>)
    ensures
        ScriptDataValue::ECMAArray(properties)@ == ScriptValue::ECMAArray(
            properties_view(properties@),
        ),
{
    reveal_with_fuel(value_view, 2);
    assert(ScriptDataValue::ECMAArray(properties)@->ECMAArray_0 =~= properties_view(
        properties@,
    ));
}

/// What a strict array holds is what its values hold.
pub proof fn lemma_strict_array_view(values: Vec<ScriptDataValue>)
    ensures
        ScriptDataValue::StrictArray(values)@ == ScriptValue::StrictArray(values_view(values@)),
{
    reveal_with_fuel(value_view, 2);
    assert(ScriptDataValue::StrictArray(values)@->StrictArray_0 =~= values_view(values@));
}

/// Decodes a number: the eight bytes of a double, kept as its bits.
pub fn script_data_number(input: &[u8]) -> (r: Result<(&[u8], u64), Error>)
    ensures
        outcome(r) == spec_script_data_number(input@),
{
    be_u64(input)
}

/// Reads the byte of a boolean; any byte but 0 stands for true.
pub fn script_data_boolean(input: &[u8]) -> (r: Result<(&[u8], u8), Error>)
    ensures
        outcome(r) == spec_script_data_boolean(input@),
{
    be_u8(input)
}

/// Decodes a reference: an index of two bytes.
pub fn script_data_reference(input: &[u8]) -> (r: Result<(&[u8], u16), Error>)
    ensures
        outcome(r) == spec_script_data_reference(input@),
{
    be_u16(input)
}

/// Takes `length` bytes of `input` as a string.
fn string_of_length(input: &[u8], length: usize) -> (r: Result<(&[u8], &str), Error>)
    ensures
        outcome_view(r) == match spec_take(input@, length as nat) {
            Ok((rest, bytes)) => if valid_utf8(bytes) {
                Ok((rest, decode_utf8(bytes)))
            } else {
                Err(Error::InvalidUtf8)
            },
            Err(e) => Err(e),
        },
{
    let (rest, bytes) = match take(input, length) {
        Ok(pair) => pair,
        Err(e) => {
            return Err(e);
        },
    };
    match core::str::from_utf8(bytes) {
        Ok(s) => {
            proof {
                encode_utf8_decode_utf8(s@);
            }
            Ok((rest, s))
        },
        Err(_) => Err(Error::InvalidUtf8),
    }
}

/// Decodes a string behind a length of two bytes.
pub fn script_data_string(input: &[u8]) -> (r: Result<(&[u8], &str), Error>)
    ensures
        outcome_view(r) == spec_script_data_string(input@),
{
    let (rest, length) = match be_u16(input) {
        Ok(pair) => pair,
        Err(e) => {
            return Err(e);
        },
    };
    string_of_length(rest, length as usize)
}

/// Decodes a string behind a length of four bytes.
pub fn script_data_long_string(input: &[u8]) -> (r: Result<(&[u8], &str), Error>)
    ensures
        outcome_view(r) == spec_script_data_long_string(input@),
{
    let (rest, length) = match be_u32(input) {
        Ok(pair) => pair,
        Err(e) => {
            return Err(e);
        },
    };
    string_of_length(rest, length as usize)
}

/// Decodes a date.
pub fn script_data_date(input: &[u8]) -> (r: Result<(&[u8], ScriptDataDate), Error>)
    ensures
        outcome(r) == spec_script_data_date(input@),
{
    let (rest, date_time) = match be_u64(input) {
        Ok(pair) => pair,
        Err(e) => {
            return Err(e);
        },
    };
    match be_i16(rest) {
        Ok((rest, local_date_time_offset)) => Ok(
            (rest, ScriptDataDate { date_time, local_date_time_offset }),
        ),
        Err(e) => Err(e),
    }
}

/// Takes the end marker of a property list from the start of `input`.
pub fn script_data_object_end_marker(input: &[u8]) -> (r: Result<(&[u8], &[u8]), Error>)
    ensures
        match r {
            Ok((rest, marker)) => spec_script_data_object_end_marker(input@) == Ok::<_, Error>(
                (rest@, marker@),
            ),
            Err(e) => spec_script_data_object_end_marker(input@) == Err::<(Seq<u8>, Seq<u8>), _>(
                e,
            ),
        },
{
    match take(input, 3) {
        Ok((rest, marker)) => {
            if marker[0] == 0 && marker[1] == 0 && marker[2] == 9 {
                assert(marker@ =~= end_marker());
                Ok((rest, marker))
            } else {
                Err(Error::MissingObjectTerminator)
            }
        },
        Err(_) => Err(Error::MissingObjectTerminator),
    }
}

/// Decodes one value.
pub fn script_data_value<'a>(input: &'a [u8]) -> (r: Result<
    (&'a [u8], ScriptDataValue<'a>),
    Error,
>)
    ensures
        outcome_view(r) == spec_script_data_value(input@),
    decreases input@.len(), 0nat,
{
    let (body, type_byte) = match be_u8(input) {
        Ok(pair) => pair,
        Err(e) => {
            return Err(e);
        },
    };
    match type_byte {
        0 => match script_data_number(body) {
            Ok((rest, bits)) => Ok((rest, ScriptDataValue::Number(bits))),
            Err(e) => Err(e),
        },
        1 => match script_data_boolean(body) {
            Ok((rest, byte)) => Ok((rest, ScriptDataValue::Boolean(byte != 0))),
            Err(e) => Err(e),
        },
        2 => match script_data_string(body) {
            Ok((rest, s)) => Ok((rest, ScriptDataValue::String(s))),
            Err(e) => Err(e),
        },
        3 => match script_data_object(body) {
            Ok((rest, properties)) => {
                proof {
                    lemma_object_view(properties);
                }
                Ok((rest, ScriptDataValue::Object(properties)))
            },
            Err(e) => Err(e),
        },
        4 => Ok((body, ScriptDataValue::MovieClip)),
        5 => Ok((body, ScriptDataValue::Null)),
        6 => Ok((body, ScriptDataValue::Undefined)),
        7 => match script_data_reference(body) {
            Ok((rest, index)) => Ok((rest, ScriptDataValue::Reference(index))),
            Err(e) => Err(e),
        },
        8 => match script_data_ecma_array(body) {
            Ok((rest, properties)) => {
                proof {
                    lemma_ecma_array_view(properties);
                }
                Ok((rest, ScriptDataValue::ECMAArray(properties)))
            },
            Err(e) => Err(e),
        },
        10 => match script_data_strict_array(body) {
            Ok((rest, values)) => {
                proof {
                    lemma_strict_array_view(values);
                }
                Ok((rest, ScriptDataValue::StrictArray(values)))
            },
            Err(e) => Err(e),
        },
        11 => match script_data_date(body) {
            Ok((rest, date)) => Ok((rest, ScriptDataValue::Date(date))),
            Err(e) => Err(e),
        },
        12 => match script_data_long_string(body) {
            Ok((rest, s)) => Ok((rest, ScriptDataValue::LongString(s))),
            Err(e) => Err(e),
        },
        other => Err(Error::UnknownScriptValueType(other)),
    }
}

/// Decodes one property: a name, then a value.
pub fn script_data_object_property<'a>(input: &'a [u8]) -> (r: Result<
    (&'a [u8], ScriptDataObjectProperty<'a>),
    Error,
>)
    ensures
        outcome_view(r) == spec_script_data_object_property(input@),
    decreases input@.len(), 1nat,
{
    let (rest, property_name) = match script_data_string(input) {
        Ok(pair) => pair,
        Err(e) => {
            return Err(e);
        },
    };
    match script_data_value(rest) {
        Ok((rest, property_data)) => Ok(
            (rest, ScriptDataObjectProperty { property_name, property_data }),
        ),
        Err(e) => Err(e),
    }
}

/// Decodes a property list up to and with its end marker.
pub fn script_data_object<'a>(input: &'a [u8]) -> (r: Result<
    (&'a [u8], Vec<ScriptDataObjectProperty<'a>>),
    Error,
>)
    ensures
        outcome_properties(r) == spec_script_data_object(input@),
    decreases input@.len(), 2nat,
{
    let mut properties: Vec<ScriptDataObjectProperty<'a>> = Vec::new();
    let mut cur = input;
    proof {
        lemma_prepend_empty(spec_script_data_object(input@));
        assert(properties_view(properties@) =~= Seq::empty());
    }
    loop
        invariant
            cur@.len() <= input@.len(),
            spec_script_data_object(input@) == prepend(
                properties_view(properties@),
                spec_script_data_object(cur@),
            ),
        decreases cur@.len(),
    {
        if cur.len() < 3 {
            return Err(Error::MissingObjectTerminator);
        }
        match script_data_object_end_marker(cur) {
            Ok((rest, _)) => {
                proof {
                    lemma_prepend_end(properties_view(properties@), rest@);
                }
                return Ok((rest, properties));
            },
            Err(_) => {},
        }
        match script_data_object_property(cur) {
            Ok((rest, property)) => {
                proof {
                    lemma_property_rest(cur@);
                    lemma_prepend_push(
                        properties_view(properties@),
                        property@,
                        spec_script_data_object(rest@),
                    );
                    assert(properties_view(properties@.push(property)) =~= properties_view(
                        properties@,
                    ).push(property@));
                }
                properties.push(property);
                cur = rest;
            },
            Err(e) => {
                return Err(e);
            },
        }
    }
}

/// Decodes an ECMA array: a count that is read and not used, then a
/// property list.
pub fn script_data_ecma_array<'a>(input: &'a [u8]) -> (r: Result<
    (&'a [u8], Vec<ScriptDataObjectProperty<'a>>),
    Error,
>)
    ensures
        outcome_properties(r) == spec_script_data_ecma_array(input@),
    decreases input@.len(), 3nat,
{
    let (rest, _) = match be_u32(input) {
        Ok(pair) => pair,
        Err(e) => {
            return Err(e);
        },
    };
    script_data_object(rest)
}

/// Decodes a strict array: a count, then that many values.
pub fn script_data_strict_array<'a>(input: &'a [u8]) -> (r: Result<
    (&'a [u8], Vec<ScriptDataValue<'a>>),
    Error,
>)
    ensures
        outcome_values(r) == spec_script_data_strict_array(input@),
    decreases input@.len(), 0nat,
{
    let (start, count) = match be_u32(input) {
        Ok(pair) => pair,
        Err(e) => {
            return Err(e);
        },
    };
    let mut values: Vec<ScriptDataValue<'a>> = Vec::new();
    let mut cur = start;
    let mut done: u32 = 0;
    proof {
        lemma_prepend_empty(spec_script_data_values(start@, count as nat));
        assert(values_view(values@) =~= Seq::empty());
    }
    while done < count
        invariant
            done <= count,
            cur@.len() < input@.len(),
            spec_script_data_strict_array(input@) == spec_script_data_values(
                start@,
                count as nat,
            ),
            spec_script_data_values(start@, count as nat) == prepend(
                values_view(values@),
                spec_script_data_values(cur@, (count - done) as nat),
            ),
        decreases count - done,
    {
        match script_data_value(cur) {
            Ok((rest, value)) => {
                proof {
                    lemma_value_rest(cur@);
                    assert(spec_script_data_values(cur@, (count - done) as nat) == prepend(
                        seq![value@],
                        spec_script_data_values(rest@, (count - done - 1) as nat),
                    ));
                    lemma_prepend_push(
                        values_view(values@),
                        value@,
                        spec_script_data_values(rest@, (count - done - 1) as nat),
                    );
                    assert(values_view(values@.push(value)) =~= values_view(values@).push(
                        value@,
                    ));
                }
                values.push(value);
                cur = rest;
                done = done + 1;
            },
            Err(e) => {
                assert(spec_script_data_values(cur@, (count - done) as nat) == Err::<
                    (Seq<u8>, Seq<ScriptValue>),
                    _,
                >(e));
                return Err(e);
            },
        }
    }
    proof {
        lemma_prepend_end(values_view(values@), cur@);
    }
    Ok((cur, values))
}

/// Decodes the payload of a script tag from the first `size` bytes of
/// `input`.
pub fn script_tag<'a>(input: &'a [u8], size: usize) -> (r: Result<
    (&'a [u8], ScriptTag<'a>),
    Error,
>)
    ensures
        outcome_view(r) == spec_script_tag(input@, size as nat),
{
    if input.len() < size {
        return Err(Error::Truncated { needed: size });
    }
    if size < 1 {
        return Err(Error::Truncated { needed: 1 });
    }
    if input[0] != 2 {
        return Err(Error::UnknownScriptValueType(input[0]));
    }
    let window = &input[1..size];
    let (rest, name) = match script_data_string(window) {
        Ok(pair) => pair,
        Err(e) => {
            return Err(e);
        },
    };
    let value = match script_data_value(rest) {
        Ok((_, value)) => value,
        Err(e) => {
            return Err(e);
        },
    };
    let rest = &input[size..input.len()];
    assert(rest@ =~= input@.skip(size as int));
    Ok((rest, ScriptTag { name, value }))
}

impl<'a> ScriptTag<'a> {
    /// Decodes the payload of a script tag from the first `size` bytes of
    /// `input`.
    pub fn parse(input: &'a [u8], size: usize) -> (r: Result<(&'a [u8], ScriptTag<'a>), Error>)
        ensures
            outcome_view(r) == spec_script_tag(input@, size as nat),
    {
        script_tag(input, size)
    }
}

impl<'a> ScriptDataValue<'a> {
    /// Decodes a date.
    pub fn parse_date(input: &'a [u8]) -> (r: Result<(&'a [u8], ScriptDataDate), Error>)
        ensures
            outcome(r) == spec_script_data_date(input@),
    {
        script_data_date(input)
    }

    /// Decodes a string behind a length of four bytes.
    pub fn parse_long_string(input: &'a [u8]) -> (r: Result<(&'a [u8], &'a str), Error>)
        ensures
            outcome_view(r) == spec_script_data_long_string(input@),
    {
        script_data_long_string(input)
    }
}

/// Copies a value with all that it holds.
fn clone_value<'a>(value: &ScriptDataValue<'a>) -> (res: ScriptDataValue<'a>)
    ensures
        res@ == value@,
    decreases *value,
{
    match value {
        ScriptDataValue::Number(bits) => ScriptDataValue::Number(*bits),
        ScriptDataValue::Boolean(b) => ScriptDataValue::Boolean(*b),
        ScriptDataValue::String(s) => ScriptDataValue::String(*s),
        ScriptDataValue::Object(properties) => {
            let copies = clone_properties(properties);
            proof {
                lemma_object_view(*properties);
                lemma_object_view(copies);
            }
            ScriptDataValue::Object(copies)
        },
        ScriptDataValue::MovieClip => ScriptDataValue::MovieClip,
        ScriptDataValue::Null => ScriptDataValue::Null,
        ScriptDataValue::Undefined => ScriptDataValue::Undefined,
        ScriptDataValue::Reference(index) => ScriptDataValue::Reference(*index),
        ScriptDataValue::ECMAArray(properties) => {
            let copies = clone_properties(properties);
            proof {
                lemma_ecma_array_view(*properties);
                lemma_ecma_array_view(copies);
            }
            ScriptDataValue::ECMAArray(copies)
        },
        ScriptDataValue::StrictArray(values) => {
            let copies = clone_values(values);
            proof {
                lemma_strict_array_view(*values);
                lemma_strict_array_view(copies);
            }
            ScriptDataValue::StrictArray(copies)
        },
        ScriptDataValue::Date(date) => ScriptDataValue::Date(*date),
        ScriptDataValue::LongString(s) => ScriptDataValue::LongString(*s),
    }
}

/// Copies a list of values with all that they hold.
fn clone_values<'a>(values: &Vec<ScriptDataValue<'a>>) -> (res: Vec<ScriptDataValue<'a>>)
    ensures
        values_view(res@) == values_view(values@),
    decreases *values,
{
    let mut copies: Vec<ScriptDataValue<'a>> = Vec::new();
    let mut i: usize = 0;
    while i < values.len()
        invariant
            i <= values@.len(),
            copies@.len() == i,
            forall|j: int| 0 <= j < i ==> copies@[j]@ == values@[j]@,
        decreases values@.len() - i,
    {
        copies.push(clone_value(&values[i]));
        i = i + 1;
    }
    assert(values_view(copies@) =~= values_view(values@));
    copies
}

/// Copies a list of properties with all that they hold.
fn clone_properties<'a>(properties: &Vec<ScriptDataObjectProperty<'a>>) -> (res: Vec<
    ScriptDataObjectProperty<'a>,
>)
    ensures
        properties_view(res@) == properties_view(properties@),
    decreases *properties,
{
    let mut copies: Vec<ScriptDataObjectProperty<'a>> = Vec::new();
    let mut i: usize = 0;
    while i < properties.len()
        invariant
            i <= properties@.len(),
            copies@.len() == i,
            forall|j: int| 0 <= j < i ==> copies@[j]@ == properties@[j]@,
        decreases properties@.len() - i,
    {
        let property = &properties[i];
        copies.push(
            ScriptDataObjectProperty {
                property_name: property.property_name,
                property_data: clone_value(&property.property_data),
            },
        );
        i = i + 1;
    }
    assert(properties_view(copies@) =~= properties_view(properties@));
    copies
}

impl<'a> Clone for ScriptDataValue<'a> {
    fn clone(&self) -> (res: Self)
        ensures
            res@ == self@,
    {
        clone_value(self)
    }
}

impl<'a> Clone for ScriptDataObjectProperty<'a> {
    fn clone(&self) -> (res: Self)
        ensures
            res@ == self@,
    {
        ScriptDataObjectProperty {
            property_name: self.property_name,
            property_data: clone_value(&self.property_data),
        }
    }
}

impl<'a> Clone for ScriptTag<'a> {
    fn clone(&self) -> (res: Self)
        ensures
            res@ == self@,
    {
        ScriptTag { name: self.name, value: clone_value(&self.value) }
    }
}

} // verus!
