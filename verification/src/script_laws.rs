//! What follows from the script-data grammar: what a decode leaves of its
//! input, which inputs round-trip, which fail, and that bytes appended to
//! the input change no value already decoded.

use vstd::prelude::*;
use crate::error::Error;
use crate::number::{
    be_bytes, be_uint, lemma_be_sint_of_be_bytes, lemma_be_uint_of_be_bytes, lemma_pow256_values,
    spec_take, twos_complement,
};
use crate::script::{
    end_marker, spec_length_string, spec_script_data_date, spec_script_data_ecma_array,
    spec_script_data_object, spec_script_data_object_property, spec_script_data_strict_array,
    spec_script_data_string, spec_script_data_value, spec_script_data_values, ScriptDataDate,
    ScriptValue,
};

verus! {

/// `rest` is what is left of `input` after some of its first bytes.
pub open spec fn is_suffix(rest: Seq<u8>, input: Seq<u8>) -> bool {
    rest.len() <= input.len() && rest == input.skip(input.len() - rest.len())
}

/// A suffix of a suffix is a suffix.
pub proof fn lemma_suffix_of_suffix(a: Seq<u8>, b: Seq<u8>, c: Seq<u8>)
    requires
        is_suffix(a, b),
        is_suffix(b, c),
    ensures
        is_suffix(a, c),
{
    assert(a =~= c.skip(c.len() - a.len()));
}

/// A string leaves a suffix of its input that is at least `width` bytes
/// shorter.
pub proof fn lemma_length_string_rest(input: Seq<u8>, width: nat)
    ensures
        spec_length_string(input, width) matches Ok((rest, _)) ==> is_suffix(rest, input)
            && rest.len() + width <= input.len(),
{
    if let Ok((rest, _)) = spec_length_string(input, width) {
        let mid = input.skip(width as int);
        lemma_suffix_of_suffix(rest, mid, input);
    }
}

/// A reader of `width` bytes leaves a suffix of its input that is `width`
/// bytes shorter.
pub proof fn lemma_take_rest(input: Seq<u8>, width: nat)
    ensures
        spec_take(input, width) matches Ok((rest, _)) ==> is_suffix(rest, input) && rest.len()
            + width == input.len(),
{
}

/// A date leaves a suffix of its input that is ten bytes shorter.
pub proof fn lemma_date_rest(input: Seq<u8>)
    ensures
        spec_script_data_date(input) matches Ok((rest, _)) ==> is_suffix(rest, input)
            && rest.len() + 10 == input.len(),
{
    if let Ok((rest, _)) = spec_script_data_date(input) {
        lemma_suffix_of_suffix(rest, input.skip(8), input);
    }
}

/// A value leaves a proper suffix of its input.
pub proof fn lemma_value_rest(input: Seq<u8>)
    ensures
        spec_script_data_value(input) matches Ok((rest, _)) ==> is_suffix(rest, input)
            && rest.len() < input.len(),
    decreases input.len(), 0nat,
{
    if let Ok((rest, _)) = spec_script_data_value(input) {
        let body = input.skip(1);
        let t = input[0];
        assert(is_suffix(rest, body)) by {
            if t == 0 {
                lemma_take_rest(body, 8);
            } else if t == 1 {
                lemma_take_rest(body, 1);
            } else if t == 2 {
                lemma_length_string_rest(body, 2);
            } else if t == 3 {
                lemma_object_rest(body);
            } else if t == 4 || t == 5 || t == 6 {
                assert(body =~= body.skip(0));
            } else if t == 7 {
                lemma_take_rest(body, 2);
            } else if t == 8 {
                lemma_ecma_array_rest(body);
            } else if t == 10 {
                lemma_strict_array_rest(body);
            } else if t == 11 {
                lemma_date_rest(body);
            } else if t == 12 {
                lemma_length_string_rest(body, 4);
            }
        }
        lemma_suffix_of_suffix(rest, body, input);
    }
}

/// A property leaves a proper suffix of its input.
pub proof fn lemma_property_rest(input: Seq<u8>)
    ensures
        spec_script_data_object_property(input) matches Ok((rest, _)) ==> is_suffix(rest, input)
            && rest.len() < input.len(),
    decreases input.len(), 1nat,
{
    if let Ok((rest, _)) = spec_script_data_object_property(input) {
        lemma_length_string_rest(input, 2);
        let mid = spec_script_data_string(input)->Ok_0.0;
        lemma_value_rest(mid);
        lemma_suffix_of_suffix(rest, mid, input);
    }
}

/// A property list leaves a suffix of its input, which starts right behind
/// an end marker.
pub proof fn lemma_object_rest(input: Seq<u8>)
    ensures
        spec_script_data_object(input) matches Ok((rest, _)) ==> is_suffix(rest, input)
            && rest.len() + 3 <= input.len() && input.subrange(
            input.len() - rest.len() - 3,
            input.len() - rest.len(),
        ) == end_marker(),
    decreases input.len(), 2nat,
{
    if let Ok((rest, _)) = spec_script_data_object(input) {
        if input.take(3) == end_marker() {
            assert(input.subrange(0, 3) =~= input.take(3));
        } else {
            lemma_property_rest(input);
            let mid = spec_script_data_object_property(input)->Ok_0.0;
            lemma_object_rest(mid);
            lemma_suffix_of_suffix(rest, mid, input);
            let shift = input.len() - mid.len();
            assert(mid.subrange(mid.len() - rest.len() - 3, mid.len() - rest.len())
                =~= input.subrange(input.len() - rest.len() - 3, input.len() - rest.len()));
        }
    }
}

/// An ECMA array leaves a suffix of its input, which starts right behind an
/// end marker.
pub proof fn lemma_ecma_array_rest(input: Seq<u8>)
    ensures
        spec_script_data_ecma_array(input) matches Ok((rest, _)) ==> is_suffix(rest, input)
            && rest.len() + 7 <= input.len() && input.subrange(
            input.len() - rest.len() - 3,
            input.len() - rest.len(),
        ) == end_marker(),
    decreases input.len(), 3nat,
{
    if let Ok((rest, _)) = spec_script_data_ecma_array(input) {
        let mid = input.skip(4);
        lemma_object_rest(mid);
        lemma_suffix_of_suffix(rest, mid, input);
        assert(mid.subrange(mid.len() - rest.len() - 3, mid.len() - rest.len())
            =~= input.subrange(input.len() - rest.len() - 3, input.len() - rest.len()));
    }
}

/// `count` values in a row leave a suffix of the input and are `count`
/// values.
pub proof fn lemma_values_rest(input: Seq<u8>, count: nat)
    ensures
        spec_script_data_values(input, count) matches Ok((rest, values)) ==> is_suffix(
            rest,
            input,
        ) && values.len() == count && rest.len() + count <= input.len(),
    decreases input.len(), count + 1,
{
    if let Ok((rest, _)) = spec_script_data_values(input, count) {
        if count == 0 {
            assert(input =~= input.skip(0));
        } else {
            lemma_value_rest(input);
            let mid = spec_script_data_value(input)->Ok_0.0;
            lemma_values_rest(mid, (count - 1) as nat);
            lemma_suffix_of_suffix(rest, mid, input);
        }
    }
}

/// A strict array leaves a proper suffix of its input and holds as many
/// values as its count says.
pub proof fn lemma_strict_array_rest(input: Seq<u8>)
    ensures
        spec_script_data_strict_array(input) matches Ok((rest, values)) ==> is_suffix(
            rest,
            input,
        ) && rest.len() + 4 <= input.len() && values.len() == be_uint(input.take(4)),
    decreases input.len(), 0nat,
{
    if let Ok((rest, _)) = spec_script_data_strict_array(input) {
        let mid = input.skip(4);
        lemma_values_rest(mid, be_uint(input.take(4)));
        lemma_suffix_of_suffix(rest, mid, input);
    }
}

/// A number holds a double bit for bit: the type byte 0 and the eight
/// bytes of any 64 bits decode to those bits, whatever follows.
pub proof fn lemma_number_round_trip(bits: u64, tail: Seq<u8>)
    ensures
        spec_script_data_value(seq![0u8] + be_bytes(bits as nat, 8) + tail) == Ok::<_, Error>(
            (tail, ScriptValue::Number(bits)),
        ),
{
    let bytes = be_bytes(bits as nat, 8);
    let input = seq![0u8] + bytes + tail;
    lemma_pow256_values();
    lemma_be_uint_of_be_bytes(bits as nat, 8);
    let body = input.skip(1);
    assert(body =~= bytes + tail);
    assert(body.take(8) =~= bytes);
    assert(body.skip(8) =~= tail);
}

/// A date holds its milliseconds bit for bit and its offset with its sign:
/// the type byte 11, the eight bytes of any 64 bits and the two bytes of
/// the two's-complement code of any offset decode to those bits and that
/// offset, whatever follows.
pub proof fn lemma_date_round_trip(millis: u64, offset: i16, tail: Seq<u8>)
    ensures
        spec_script_data_value(
            seq![11u8] + be_bytes(millis as nat, 8) + be_bytes(twos_complement(offset as int, 2), 2)
                + tail,
        ) == Ok::<_, Error>(
            (
                tail,
                ScriptValue::Date(
                    ScriptDataDate { date_time: millis, local_date_time_offset: offset },
                ),
            ),
        ),
{
    let first = be_bytes(millis as nat, 8);
    let second = be_bytes(twos_complement(offset as int, 2), 2);
    let input = seq![11u8] + first + second + tail;
    lemma_pow256_values();
    lemma_be_uint_of_be_bytes(millis as nat, 8);
    lemma_be_sint_of_be_bytes(offset as int, 2);
    let body = input.skip(1);
    assert(body =~= first + second + tail);
    assert(body.take(8) =~= first);
    assert(body.skip(8) =~= second + tail);
    assert(body.skip(8).take(2) =~= second);
    assert(body.skip(8).skip(2) =~= tail);
}

/// Whether `input` holds the three bytes of an end marker anywhere.
pub open spec fn holds_end_marker(input: Seq<u8>) -> bool {
    exists|i: int| 0 <= i && i + 3 <= input.len() && #[trigger] input.subrange(i, i + 3)
            == end_marker()
}

/// A property list, and so an object and an ECMA array, fails on an input
/// that holds no end marker.
pub proof fn lemma_property_list_needs_end_marker(input: Seq<u8>)
    requires
        !holds_end_marker(input),
    ensures
        spec_script_data_object(input) is Err,
        spec_script_data_ecma_array(input) is Err,
        spec_script_data_value(seq![3u8] + input) is Err,
        spec_script_data_value(seq![8u8] + input) is Err,
{
    lemma_object_rest(input);
    lemma_ecma_array_rest(input);
    if let Ok((rest, _)) = spec_script_data_object(input) {
        let at = input.len() - rest.len() - 3;
        assert(input.subrange(at, at + 3) == end_marker());
    }
    if let Ok((rest, _)) = spec_script_data_ecma_array(input) {
        let at = input.len() - rest.len() - 3;
        assert(input.subrange(at, at + 3) == end_marker());
    }
    assert((seq![3u8] + input).skip(1) =~= input);
    assert((seq![8u8] + input).skip(1) =~= input);
}

/// The count of an ECMA array is not held against its members: two inputs
/// that differ in their first four bytes only decode alike.
pub proof fn lemma_ecma_array_count_is_advisory(a: Seq<u8>, b: Seq<u8>)
    requires
        a.len() >= 4,
        b.len() >= 4,
        a.skip(4) == b.skip(4),
    ensures
        spec_script_data_ecma_array(a) == spec_script_data_ecma_array(b),
{
}

/// A reader of `width` bytes that succeeds is not changed by what follows
/// the input.
pub proof fn lemma_take_extends(input: Seq<u8>, width: nat, tail: Seq<u8>)
    ensures
        spec_take(input, width) matches Ok((rest, head)) ==> spec_take(input + tail, width)
            == Ok::<_, Error>((rest + tail, head)),
{
    if let Ok((rest, head)) = spec_take(input, width) {
        assert((input + tail).skip(width as int) =~= rest + tail);
        assert((input + tail).take(width as int) =~= head);
    }
}

/// A string that decodes is not changed by what follows the input.
pub proof fn lemma_length_string_extends(input: Seq<u8>, width: nat, tail: Seq<u8>)
    ensures
        spec_length_string(input, width) matches Ok((rest, s)) ==> spec_length_string(
            input + tail,
            width,
        ) == Ok::<_, Error>((rest + tail, s)),
{
    if let Ok((rest, s)) = spec_length_string(input, width) {
        lemma_take_extends(input, width, tail);
        let (mid, length) = spec_take(input, width)->Ok_0;
        lemma_take_extends(mid, be_uint(length), tail);
    }
}

/// A date that decodes is not changed by what follows the input.
pub proof fn lemma_date_extends(input: Seq<u8>, tail: Seq<u8>)
    ensures
        spec_script_data_date(input) matches Ok((rest, date)) ==> spec_script_data_date(
            input + tail,
        ) == Ok::<_, Error>((rest + tail, date)),
{
    if let Ok((rest, date)) = spec_script_data_date(input) {
        lemma_take_extends(input, 8, tail);
        lemma_take_extends(input.skip(8), 2, tail);
    }
}

/// A value that decodes is not changed by what follows the input.
pub proof fn lemma_value_extends(input: Seq<u8>, tail: Seq<u8>)
    ensures
        spec_script_data_value(input) matches Ok((rest, value)) ==> spec_script_data_value(
            input + tail,
        ) == Ok::<_, Error>((rest + tail, value)),
    decreases input.len(), 0nat,
{
    if let Ok((rest, value)) = spec_script_data_value(input) {
        let body = input.skip(1);
        let t = input[0];
        assert((input + tail)[0] == t);
        assert((input + tail).skip(1) =~= body + tail);
        if t == 0 {
            lemma_take_extends(body, 8, tail);
        } else if t == 1 {
            lemma_take_extends(body, 1, tail);
        } else if t == 2 {
            lemma_length_string_extends(body, 2, tail);
        } else if t == 3 {
            lemma_object_extends(body, tail);
        } else if t == 7 {
            lemma_take_extends(body, 2, tail);
        } else if t == 8 {
            lemma_ecma_array_extends(body, tail);
        } else if t == 10 {
            lemma_strict_array_extends(body, tail);
        } else if t == 11 {
            lemma_date_extends(body, tail);
        } else if t == 12 {
            lemma_length_string_extends(body, 4, tail);
        }
    }
}

/// A property that decodes is not changed by what follows the input.
pub proof fn lemma_property_extends(input: Seq<u8>, tail: Seq<u8>)
    ensures
        spec_script_data_object_property(input) matches Ok((rest, property))
            ==> spec_script_data_object_property(input + tail) == Ok::<_, Error>(
            (rest + tail, property),
        ),
    decreases input.len(), 1nat,
{
    if let Ok((rest, property)) = spec_script_data_object_property(input) {
        lemma_length_string_extends(input, 2, tail);
        let mid = spec_script_data_string(input)->Ok_0.0;
        lemma_length_string_rest(input, 2);
        lemma_value_extends(mid, tail);
    }
}

/// A property list that decodes is not changed by what follows the input.
pub proof fn lemma_object_extends(input: Seq<u8>, tail: Seq<u8>)
    ensures
        spec_script_data_object(input) matches Ok((rest, properties)) ==> spec_script_data_object(
            input + tail,
        ) == Ok::<_, Error>((rest + tail, properties)),
    decreases input.len(), 2nat,
{
    if let Ok((rest, properties)) = spec_script_data_object(input) {
        assert((input + tail).take(3) =~= input.take(3));
        if input.take(3) == end_marker() {
            assert((input + tail).skip(3) =~= input.skip(3) + tail);
        } else {
            lemma_property_extends(input, tail);
            let mid = spec_script_data_object_property(input)->Ok_0.0;
            lemma_object_extends(mid, tail);
        }
    }
}

/// An ECMA array that decodes is not changed by what follows the input.
pub proof fn lemma_ecma_array_extends(input: Seq<u8>, tail: Seq<u8>)
    ensures
        spec_script_data_ecma_array(input) matches Ok((rest, properties))
            ==> spec_script_data_ecma_array(input + tail) == Ok::<_, Error>(
            (rest + tail, properties),
        ),
    decreases input.len(), 3nat,
{
    if let Ok((rest, properties)) = spec_script_data_ecma_array(input) {
        lemma_take_extends(input, 4, tail);
        lemma_object_extends(input.skip(4), tail);
    }
}

/// `count` values that decode are not changed by what follows the input.
pub proof fn lemma_values_extend(input: Seq<u8>, count: nat, tail: Seq<u8>)
    ensures
        spec_script_data_values(input, count) matches Ok((rest, values))
            ==> spec_script_data_values(input + tail, count) == Ok::<_, Error>(
            (rest + tail, values),
        ),
    decreases input.len(), count + 1,
{
    if let Ok((rest, values)) = spec_script_data_values(input, count) {
        if count > 0 {
            lemma_value_extends(input, tail);
            let mid = spec_script_data_value(input)->Ok_0.0;
            lemma_values_extend(mid, (count - 1) as nat, tail);
        }
    }
}

/// A strict array decodes as many values as its count says, whatever
/// follows them: one that decodes is not changed by what follows the input.
pub proof fn lemma_strict_array_extends(input: Seq<u8>, tail: Seq<u8>)
    ensures
        spec_script_data_strict_array(input) matches Ok((rest, values)) ==> values.len()
            == be_uint(input.take(4)) && spec_script_data_strict_array(input + tail) == Ok::<
            _,
            Error,
        >((rest + tail, values)),
    decreases input.len(), 0nat,
{
    if let Ok((rest, values)) = spec_script_data_strict_array(input) {
        lemma_strict_array_rest(input);
        lemma_take_extends(input, 4, tail);
        lemma_values_extend(input.skip(4), be_uint(input.take(4)), tail);
    }
}

} // verus!
