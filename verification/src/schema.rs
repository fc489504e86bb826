//! The schema synthesizer: given one example structured value, produce the
//! structural schema description that gets registered for the value's topic.
//! The description is rendered as canonical structured text with the keys of
//! every description object in a fixed order, so that synthesizing from the
//! same shape always yields byte-identical output.

use vstd::prelude::*;
use crate::textutil::push_char;
use crate::value::{
    StructuredValue, ValueModel, model_elems, model_fields, lemma_model_elems_len,
    lemma_model_elems_index, lemma_model_fields_len, lemma_model_fields_index,
};

verus! {

/// The structural schema of one value: its shape with every payload erased.
pub enum SchemaModel {
    Null,
    Boolean,
    Integer,
    Number,
    Text,
    /// The unconstrained schema, used for the items of an empty array.
    Any,
    Array(Box<SchemaModel>),
    Object(Seq<(Seq<char>, SchemaModel)>),
}

/// The schema synthesized from a value: scalars map to their type name, an
/// array samples its first element only, an object maps each field to the
/// schema of its value.
pub open spec fn spec_schema_of(v: ValueModel) -> SchemaModel
    decreases v,
{
    match v {
        ValueModel::Null => SchemaModel::Null,
        ValueModel::Bool(_) => SchemaModel::Boolean,
        ValueModel::Int(_) => SchemaModel::Integer,
        ValueModel::BigInt(_) => SchemaModel::Number,
        ValueModel::NonIntegral => SchemaModel::Number,
        ValueModel::Text(_) => SchemaModel::Text,
        ValueModel::Array(elems) => SchemaModel::Array(
            Box::new(
                if elems.len() == 0 {
                    SchemaModel::Any
                } else {
                    spec_schema_of(elems[0])
                },
            ),
        ),
        ValueModel::Object(fields) => SchemaModel::Object(spec_schema_of_fields(fields)),
    }
}

/// The schemas of an object's fields, key by key.
pub open spec fn spec_schema_of_fields(fields: Seq<(Seq<char>, ValueModel)>) -> Seq<
    (Seq<char>, SchemaModel),
>
    decreases fields,
{
    if fields.len() == 0 {
        Seq::empty()
    } else {
        spec_schema_of_fields(fields.drop_last()).push(
            (fields.last().0, spec_schema_of(fields.last().1)),
        )
    }
}

pub broadcast proof fn lemma_schema_fields_len(fields: Seq<(Seq<char>, ValueModel)>)
    ensures
        #[trigger] spec_schema_of_fields(fields).len() == fields.len(),
    decreases fields,
{
    if fields.len() > 0 {
        lemma_schema_fields_len(fields.drop_last());
    }
}

pub broadcast proof fn lemma_schema_fields_index(fields: Seq<(Seq<char>, ValueModel)>, i: int)
    requires
        0 <= i < fields.len(),
    ensures
        #[trigger] spec_schema_of_fields(fields)[i] == (fields[i].0, spec_schema_of(fields[i].1)),
    decreases fields,
{
    lemma_schema_fields_len(fields);
    if i < fields.len() - 1 {
        lemma_schema_fields_len(fields.drop_last());
        lemma_schema_fields_index(fields.drop_last(), i);
    }
}

/// How one character of a key is written inside a quoted string: quote and
/// backslash are escaped, the five named control characters take their short
/// escape, any other control character is written as a four-digit escape,
/// and everything else stands as itself.
pub open spec fn spec_escape_char(c: char) -> Seq<char> {
    if c == '"' {
        seq!['\\', '"']
    } else if c == '\\' {
        seq!['\\', '\\']
    } else if c == '\u{8}' {
        seq!['\\', 'b']
    } else if c == '\u{9}' {
        seq!['\\', 't']
    } else if c == '\u{a}' {
        seq!['\\', 'n']
    } else if c == '\u{c}' {
        seq!['\\', 'f']
    } else if c == '\u{d}' {
        seq!['\\', 'r']
    } else if (c as u32) < 0x20 {
        seq!['\\', 'u', '0', '0', spec_hex_digit((c as u32) / 16), spec_hex_digit((c as u32) % 16)]
    } else {
        seq![c]
    }
}

/// The lower-case hexadecimal digit for `n`, which must be below 16.
pub open spec fn spec_hex_digit(n: u32) -> char {
    if n == 0 { '0' } else if n == 1 { '1' } else if n == 2 { '2' } else if n == 3 { '3' }
    else if n == 4 { '4' } else if n == 5 { '5' } else if n == 6 { '6' } else if n == 7 { '7' }
    else if n == 8 { '8' } else if n == 9 { '9' } else if n == 10 { 'a' } else if n == 11 { 'b' }
    else if n == 12 { 'c' } else if n == 13 { 'd' } else if n == 14 { 'e' } else { 'f' }
}

/// A whole key, escaped character by character.
pub open spec fn spec_escape(s: Seq<char>) -> Seq<char>
    decreases s.len(),
{
    if s.len() == 0 {
        Seq::empty()
    } else {
        spec_escape(s.drop_last()) + spec_escape_char(s.last())
    }
}

/// The rendered description of one schema.
pub open spec fn spec_render(s: SchemaModel) -> Seq<char>
    decreases s,
{
    match s {
        SchemaModel::Null => "{\"type\":\"null\"}"@,
        SchemaModel::Boolean => "{\"type\":\"boolean\"}"@,
        SchemaModel::Integer => "{\"type\":\"integer\"}"@,
        SchemaModel::Number => "{\"type\":\"number\"}"@,
        SchemaModel::Text => "{\"type\":\"string\"}"@,
        SchemaModel::Any => "{}"@,
        SchemaModel::Array(items) => "{\"items\":"@ + spec_render(*items) + ",\"type\":\"array\"}"@,
        SchemaModel::Object(fields) => "{\"properties\":{"@ + spec_render_fields(fields)
            + "},\"type\":\"object\"}"@,
    }
}

/// One rendered field: the quoted, escaped key, a colon, the rendered schema.
pub open spec fn spec_render_field(f: (Seq<char>, SchemaModel)) -> Seq<char>
    decreases f,
{
    seq!['"'] + spec_escape(f.0) + seq!['"', ':'] + spec_render(f.1)
}

/// The rendered fields of an object schema, comma-separated.
pub open spec fn spec_render_fields(fields: Seq<(Seq<char>, SchemaModel)>) -> Seq<char>
    decreases fields,
{
    if fields.len() == 0 {
        Seq::empty()
    } else if fields.len() == 1 {
        spec_render_field(fields[0])
    } else {
        spec_render_fields(fields.drop_last()) + seq![','] + spec_render_field(fields.last())
    }
}

/// Rendering one more field appends a separator (after the first field) and
/// the field's rendering.
proof fn lemma_render_fields_snoc(props: Seq<(Seq<char>, SchemaModel)>, i: int)
    requires
        0 <= i < props.len(),
    ensures
        spec_render_fields(props.take(i + 1)) == spec_render_fields(props.take(i)) + (
        if i == 0 {
            Seq::<char>::empty()
        } else {
            seq![',']
        }) + spec_render_field(props[i]),
{
    if i == 0 {
        assert(props.take(0) =~= Seq::<(Seq<char>, SchemaModel)>::empty());
        assert(props.take(1).len() == 1);
        assert(props.take(1)[0] == props[0]);
        assert(spec_render_fields(props.take(1)) == spec_render_field(props[0]));
        assert(spec_render_fields(props.take(0)) + Seq::<char>::empty() + spec_render_field(
            props[0],
        ) =~= spec_render_field(props[0]));
    } else {
        assert(props.take(i + 1).drop_last() =~= props.take(i));
        assert(props.take(i + 1).last() == props[i]);
    }
}

/// The full description text synthesized from a value.
pub open spec fn spec_schema_text(v: ValueModel) -> Seq<char> {
    spec_render(spec_schema_of(v))
}

/// The lower-case hexadecimal digit for `n`.
fn hex_digit(n: u32) -> (c: char)
    requires
        n < 16,
    ensures
        c == spec_hex_digit(n),
{
    match n {
        0 => '0',
        1 => '1',
        2 => '2',
        3 => '3',
        4 => '4',
        5 => '5',
        6 => '6',
        7 => '7',
        8 => '8',
        9 => '9',
        10 => 'a',
        11 => 'b',
        12 => 'c',
        13 => 'd',
        14 => 'e',
        _ => 'f',
    }
}

/// Appends one escaped character to `out`.
fn escape_char_into(out: &mut String, c: char)
    ensures
        final(out)@ == old(out)@ + spec_escape_char(c),
{
    if c == '"' {
        push_char(out, '\\');
        push_char(out, '"');
    } else if c == '\\' {
        push_char(out, '\\');
        push_char(out, '\\');
    } else if c == '\u{8}' {
        push_char(out, '\\');
        push_char(out, 'b');
    } else if c == '\u{9}' {
        push_char(out, '\\');
        push_char(out, 't');
    } else if c == '\u{a}' {
        push_char(out, '\\');
        push_char(out, 'n');
    } else if c == '\u{c}' {
        push_char(out, '\\');
        push_char(out, 'f');
    } else if c == '\u{d}' {
        push_char(out, '\\');
        push_char(out, 'r');
    } else if (c as u32) < 0x20 {
        push_char(out, '\\');
        push_char(out, 'u');
        push_char(out, '0');
        push_char(out, '0');
        push_char(out, hex_digit((c as u32) / 16));
        push_char(out, hex_digit((c as u32) % 16));
    } else {
        push_char(out, c);
    }
    proof {
        assert(out@ =~= old(out)@ + spec_escape_char(c));
    }
}

/// Appends the escaped form of `s` to `out`.
fn escape_into(out: &mut String, s: &str)
    ensures
        final(out)@ == old(out)@ + spec_escape(s@),
{
    let n: usize = s.unicode_len();
    let mut i: usize = 0;
    while i < n
        invariant
            0 <= i <= n,
            n == s@.len(),
            out@ == old(out)@ + spec_escape(s@.take(i as int)),
        decreases n - i,
    {
        escape_char_into(out, s.get_char(i));
        proof {
            assert(s@.take(i + 1).drop_last() =~= s@.take(i as int));
            assert(s@.take(i + 1).last() == s@[i as int]);
            assert(out@ =~= old(out)@ + spec_escape(s@.take(i + 1)));
        }
        i = i + 1;
    }
    proof {
        assert(s@.take(n as int) =~= s@);
    }
}

/// Appends the rendered description of the schema of `v` to `out`.
#[verifier::loop_isolation(false)]
fn render_value_schema_into(out: &mut String, v: &StructuredValue)
    ensures
        final(out)@ == old(out)@ + spec_schema_text(v@),
    decreases v,
{
    match v {
        StructuredValue::Null => out.append("{\"type\":\"null\"}"),
        StructuredValue::Bool(_) => out.append("{\"type\":\"boolean\"}"),
        StructuredValue::Int(_) => out.append("{\"type\":\"integer\"}"),
        StructuredValue::BigInt(_) => out.append("{\"type\":\"number\"}"),
        StructuredValue::NonIntegral => out.append("{\"type\":\"number\"}"),
        StructuredValue::Text(_) => out.append("{\"type\":\"string\"}"),
        StructuredValue::Array(elems) => {
            proof {
                assert(v@ == ValueModel::Array(model_elems(elems@)));
            }
            out.append("{\"items\":");
            if elems.len() == 0 {
                out.append("{}");
                proof {
                    lemma_model_elems_len(elems@);
                }
            } else {
                proof {
                    lemma_model_elems_len(elems@);
                    lemma_model_elems_index(elems@, 0);
                    assert(decreases_to!(*v => *elems));
                    assert(decreases_to!(*elems => elems@));
                    assert(decreases_to!(elems@ => elems@[0]));
                }
                render_value_schema_into(out, &elems[0]);
            }
            out.append(",\"type\":\"array\"}");
            proof {
                let sch = spec_schema_of(v@);
                assert(sch is Array);
                assert(spec_render(sch) == "{\"items\":"@ + spec_render(*sch->Array_0)
                    + ",\"type\":\"array\"}"@);
                assert(out@ =~= old(out)@ + spec_schema_text(v@));
            }
        },
        StructuredValue::Object(fields) => {
            out.append("{\"properties\":{");
            let ghost props = spec_schema_of_fields(model_fields(fields@));
            proof {
                lemma_model_fields_len(fields@);
                lemma_schema_fields_len(model_fields(fields@));
                assert forall|j: int| 0 <= j < fields@.len() implies #[trigger] props[j] == (
                fields@[j].0@,
                spec_schema_of(fields@[j].1.model()),
                ) by {
                    lemma_model_fields_index(fields@, j);
                    lemma_schema_fields_index(model_fields(fields@), j);
                }
            }
            let ghost mid = old(out)@ + "{\"properties\":{"@;
            let n: usize = fields.len();
            let mut i: usize = 0;
            while i < n
                invariant
                    0 <= i <= n,
                    n == fields@.len(),
                    props == spec_schema_of_fields(model_fields(fields@)),
                    props.len() == n,
                    forall|j: int|
                        0 <= j < n ==> #[trigger] props[j] == (
                        fields@[j].0@,
                        spec_schema_of(fields@[j].1.model()),
                        ),
                    out@ == mid + spec_render_fields(props.take(i as int)),
                decreases n - i,
            {
                if i > 0 {
                    push_char(out, ',');
                }
                push_char(out, '"');
                escape_into(out, fields[i].0.as_str());
                push_char(out, '"');
                push_char(out, ':');
                proof {
                    assert(*fields == v->Object_0);
                    assert(decreases_to!(*v => v->Object_0));
                    assert(decreases_to!(*fields => fields@));
                    assert(decreases_to!(fields@ => fields@[i as int]));
                    assert(decreases_to!(fields@[i as int] => fields@[i as int].1));
                }
                render_value_schema_into(out, &fields[i].1);
                proof {
                    lemma_render_fields_snoc(props, i as int);
                    assert(out@ =~= mid + spec_render_fields(props.take(i + 1)));
                }
                i = i + 1;
            }
            out.append("},\"type\":\"object\"}");
            proof {
                assert(props.take(n as int) =~= props);
                assert(out@ =~= old(out)@ + spec_schema_text(v@));
            }
        },
    }
}

/// Synthesizes the schema description for one example value: a description
/// tree isomorphic to the value's shape, rendered as canonical text.
pub fn create_schema(v: &StructuredValue) -> (r: String)
    ensures
        r@ == spec_schema_text(v@),
{
    let mut out = String::new();
    render_value_schema_into(&mut out, v);
    out
}

/// The keys of a field sequence, in order.
pub open spec fn spec_keys<T>(fields: Seq<(Seq<char>, T)>) -> Seq<Seq<char>> {
    fields.map(|i: int, f: (Seq<char>, T)| f.0)
}

/// Law: for a value whose top level is an object, the synthesized schema is
/// an object description whose property keys are exactly the value's keys,
/// in the same order.
pub proof fn lemma_schema_object_keys(v: ValueModel)
    requires
        v is Object,
    ensures
        spec_schema_of(v) is Object,
        spec_keys(spec_schema_of(v)->Object_0) == spec_keys(v->Object_0),
{
    let fields = v->Object_0;
    let props = spec_schema_of_fields(fields);
    lemma_schema_fields_len(fields);
    assert forall|j: int| 0 <= j < fields.len() implies #[trigger] props[j].0 == fields[j].0 by {
        lemma_schema_fields_index(fields, j);
    }
    assert(spec_keys(props) =~= spec_keys(fields));
}

/// Two values have the same shape when they differ at most in their scalar
/// payloads: arrays must agree on emptiness and on the shape of their first
/// element (only the first is ever sampled), objects must carry the same
/// keys in the same order with same-shaped values.
pub open spec fn same_shape(a: ValueModel, b: ValueModel) -> bool
    decreases a,
{
    match (a, b) {
        (ValueModel::Null, ValueModel::Null) => true,
        (ValueModel::Bool(_), ValueModel::Bool(_)) => true,
        (ValueModel::Int(_), ValueModel::Int(_)) => true,
        (ValueModel::BigInt(_), ValueModel::BigInt(_)) => true,
        (ValueModel::NonIntegral, ValueModel::NonIntegral) => true,
        (ValueModel::Text(_), ValueModel::Text(_)) => true,
        (ValueModel::Array(x), ValueModel::Array(y)) => (x.len() == 0 <==> y.len() == 0) && (x.len()
            > 0 ==> same_shape(x[0], y[0])),
        (ValueModel::Object(f), ValueModel::Object(g)) => same_shape_fields(f, g),
        _ => false,
    }
}

/// Field sequences of the same shape: equal keys in order, same-shaped values.
pub open spec fn same_shape_fields(
    f: Seq<(Seq<char>, ValueModel)>,
    g: Seq<(Seq<char>, ValueModel)>,
) -> bool
    decreases f,
{
    if f.len() != g.len() {
        false
    } else if f.len() == 0 {
        true
    } else {
        same_shape_fields(f.drop_last(), g.drop_last()) && f.last().0 == g.last().0 && same_shape(
            f.last().1,
            g.last().1,
        )
    }
}

/// Law: schema synthesis is a function of the value's shape alone, so two
/// same-shaped values always synthesize byte-identical descriptions.
pub proof fn lemma_schema_deterministic(a: ValueModel, b: ValueModel)
    requires
        same_shape(a, b),
    ensures
        spec_schema_of(a) == spec_schema_of(b),
        spec_schema_text(a) == spec_schema_text(b),
    decreases a,
{
    match (a, b) {
        (ValueModel::Array(x), ValueModel::Array(y)) => {
            if x.len() > 0 {
                lemma_schema_deterministic(x[0], y[0]);
            }
        },
        (ValueModel::Object(f), ValueModel::Object(g)) => {
            lemma_schema_fields_deterministic(f, g);
        },
        _ => {},
    }
}

proof fn lemma_schema_fields_deterministic(
    f: Seq<(Seq<char>, ValueModel)>,
    g: Seq<(Seq<char>, ValueModel)>,
)
    requires
        same_shape_fields(f, g),
    ensures
        spec_schema_of_fields(f) == spec_schema_of_fields(g),
    decreases f,
{
    if f.len() > 0 {
        lemma_schema_fields_deterministic(f.drop_last(), g.drop_last());
        lemma_schema_deterministic(f.last().1, g.last().1);
    }
}

} // verus!
