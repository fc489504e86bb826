//! The library's own model of a self-describing structured-text value: a
//! tree of null / boolean / number / string / array / object nodes. Payloads
//! arriving from the bus are converted into this type at the trusted
//! boundary; everything that inspects a value afterwards is verified.

use vstd::prelude::*;
use crate::textutil::str_eq;

verus! {

/// One structured-text value. Numbers keep only what the recorder reads of
/// them: an integer representable as `i64`, an integer above `i64::MAX`
/// representable as `u64`, or a non-integral number whose magnitude the
/// recorder never consults.
pub enum StructuredValue {
    Null,
    Bool(bool),
    Int(i64),
    BigInt(u64),
    NonIntegral,
    Text(String),
    Array(Vec<StructuredValue>),
    Object(Vec<(String, StructuredValue)>),
}

/// The mathematical view of a [`StructuredValue`]: strings become character
/// sequences, vectors become sequences.
pub enum ValueModel {
    Null,
    Bool(bool),
    Int(i64),
    BigInt(u64),
    NonIntegral,
    Text(Seq<char>),
    Array(Seq<ValueModel>),
    Object(Seq<(Seq<char>, ValueModel)>),
}

impl StructuredValue {
    /// The view of one value.
    pub open spec fn model(self) -> ValueModel
        decreases self,
    {
        match self {
            StructuredValue::Null => ValueModel::Null,
            StructuredValue::Bool(b) => ValueModel::Bool(b),
            StructuredValue::Int(i) => ValueModel::Int(i),
            StructuredValue::BigInt(u) => ValueModel::BigInt(u),
            StructuredValue::NonIntegral => ValueModel::NonIntegral,
            StructuredValue::Text(s) => ValueModel::Text(s@),
            StructuredValue::Array(elems) => ValueModel::Array(model_elems(elems@)),
            StructuredValue::Object(fields) => ValueModel::Object(model_fields(fields@)),
        }
    }
}

/// The views of a sequence of values.
pub open spec fn model_elems(s: Seq<StructuredValue>) -> Seq<ValueModel>
    decreases s,
{
    if s.len() == 0 {
        Seq::empty()
    } else {
        model_elems(s.drop_last()).push(s.last().model())
    }
}

/// The views of a sequence of object fields.
pub open spec fn model_fields(s: Seq<(String, StructuredValue)>) -> Seq<(Seq<char>, ValueModel)>
    decreases s,
{
    if s.len() == 0 {
        Seq::empty()
    } else {
        model_fields(s.drop_last()).push((s.last().0@, s.last().1.model()))
    }
}

impl View for StructuredValue {
    type V = ValueModel;

    open spec fn view(&self) -> ValueModel {
        self.model()
    }
}

pub broadcast proof fn lemma_model_elems_len(s: Seq<StructuredValue>)
    ensures
        #[trigger] model_elems(s).len() == s.len(),
    decreases s,
{
    if s.len() > 0 {
        lemma_model_elems_len(s.drop_last());
    }
}

pub broadcast proof fn lemma_model_elems_index(s: Seq<StructuredValue>, i: int)
    requires
        0 <= i < s.len(),
    ensures
        #[trigger] model_elems(s)[i] == s[i].model(),
    decreases s,
{
    lemma_model_elems_len(s);
    if i < s.len() - 1 {
        lemma_model_elems_len(s.drop_last());
        lemma_model_elems_index(s.drop_last(), i);
    }
}

pub broadcast proof fn lemma_model_fields_len(s: Seq<(String, StructuredValue)>)
    ensures
        #[trigger] model_fields(s).len() == s.len(),
    decreases s,
{
    if s.len() > 0 {
        lemma_model_fields_len(s.drop_last());
    }
}

pub broadcast proof fn lemma_model_fields_index(s: Seq<(String, StructuredValue)>, i: int)
    requires
        0 <= i < s.len(),
    ensures
        #[trigger] model_fields(s)[i] == (s[i].0@, s[i].1.model()),
    decreases s,
{
    lemma_model_fields_len(s);
    if i < s.len() - 1 {
        lemma_model_fields_len(s.drop_last());
        lemma_model_fields_index(s.drop_last(), i);
    }
}

/// The value of the first field named `k`, if any.
pub open spec fn spec_field_lookup(fields: Seq<(Seq<char>, ValueModel)>, k: Seq<char>) -> Option<
    ValueModel,
>
    decreases fields,
{
    if fields.len() == 0 {
        None
    } else if fields[0].0 == k {
        Some(fields[0].1)
    } else {
        spec_field_lookup(fields.drop_first(), k)
    }
}

proof fn lemma_field_lookup_at(fields: Seq<(Seq<char>, ValueModel)>, k: Seq<char>, i: int)
    requires
        0 <= i <= fields.len(),
        forall|j: int| 0 <= j < i ==> fields[j].0 != k,
    ensures
        i < fields.len() && fields[i].0 == k ==> spec_field_lookup(fields, k) == Some(fields[i].1),
        i == fields.len() ==> spec_field_lookup(fields, k) is None,
    decreases i,
{
    if i > 0 {
        let t = fields.drop_first();
        assert(forall|j: int| 0 <= j < i - 1 ==> t[j] == fields[j + 1]);
        lemma_field_lookup_at(t, k, i - 1);
    }
}

/// The value interpreted as an unsigned 64-bit integer, when it is one.
pub open spec fn spec_as_u64(v: ValueModel) -> Option<u64> {
    match v {
        ValueModel::Int(i) => if i >= 0 {
            Some(i as u64)
        } else {
            None
        },
        ValueModel::BigInt(u) => Some(u),
        _ => None,
    }
}

/// The safety-armed bit of a control payload: present only when the value is
/// an object whose `bits` field is an unsigned integer; then it is bit 7 of
/// that integer.
pub open spec fn spec_armed_bit(v: ValueModel) -> Option<bool> {
    match v {
        ValueModel::Object(fields) => match spec_field_lookup(fields, "bits"@) {
            Some(bits) => match spec_as_u64(bits) {
                Some(u) => Some(u & 0x80 != 0),
                None => None,
            },
            None => None,
        },
        _ => None,
    }
}

impl StructuredValue {
    /// Whether the top level of the value is an object.
    pub fn is_object(&self) -> (r: bool)
        ensures
            r == (self@ is Object),
    {
        match self {
            StructuredValue::Object(_) => true,
            _ => false,
        }
    }

    /// Reads the safety-armed bit out of a parsed control payload, following
    /// [`spec_armed_bit`].
    pub fn armed_bit(&self) -> (r: Option<bool>)
        ensures
            r == spec_armed_bit(self@),
    {
        let fields: &Vec<(String, StructuredValue)> = match self {
            StructuredValue::Object(fields) => fields,
            _ => {
                return None;
            },
        };
        let ghost m = model_fields(fields@);
        proof {
            lemma_model_fields_len(fields@);
            assert forall|j: int| 0 <= j < fields@.len() implies #[trigger] m[j] == (
            fields@[j].0@,
            fields@[j].1.model(),
            ) by {
                lemma_model_fields_index(fields@, j);
            }
        }
        let n: usize = fields.len();
        let mut i: usize = 0;
        while i < n
            invariant
                0 <= i <= n,
                n == fields@.len(),
                m == model_fields(fields@),
                m.len() == n,
                forall|j: int| 0 <= j < n ==> #[trigger] m[j] == (fields@[j].0@, fields@[j].1.model()),
                forall|j: int| 0 <= j < i ==> #[trigger] m[j].0 != "bits"@,
                self@ == ValueModel::Object(m),
            decreases n - i,
        {
            proof {
                lemma_model_fields_index(fields@, i as int);
            }
            if str_eq(fields[i].0.as_str(), "bits") {
                proof {
                    lemma_field_lookup_at(m, "bits"@, i as int);
                }
                let r = match &fields[i].1 {
                    StructuredValue::Int(v) => {
                        if *v >= 0 {
                            Some((*v as u64) & 0x80 != 0)
                        } else {
                            None
                        }
                    },
                    StructuredValue::BigInt(u) => Some(*u & 0x80 != 0),
                    _ => None,
                };
                return r;
            }
            i = i + 1;
        }
        proof {
            lemma_field_lookup_at(m, "bits"@, n as int);
        }
        None
    }
}

} // verus!
