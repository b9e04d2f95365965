//! The JSON document model: an owned document type, its mathematical
//! model, and helpers for reading object fields.

use vstd::prelude::*;

verus! {

broadcast use vstd::std_specs::vec::axiom_vec_index_decreases;

/// The mathematical model of a JSON document: what a `JsonValue` denotes.
pub enum JVal {
    Null,
    Bool(bool),
    Int(int),
    NumText(Seq<char>),
    Str(Seq<char>),
    Arr(Seq<JVal>),
    Obj(Seq<(Seq<char>, JVal)>),
}

/// An owned JSON document. A number that is a 64-bit signed integer is
/// held as one; any other number — fractional, with an exponent, or out
/// of that range — is held as its exact source text, carried through and
/// written back verbatim rather than rounded.
#[derive(Debug, PartialEq)]
pub enum JsonValue {
    Null,
    Bool(bool),
    Int(i64),
    NumText(String),
    Str(String),
    Arr(Vec<JsonValue>),
    Obj(Vec<(String, JsonValue)>),
}

impl JsonValue {
    /// The model of this document.
    pub open spec fn model(self) -> JVal
        decreases self,
    {
        match self {
            JsonValue::Null => JVal::Null,
            JsonValue::Bool(b) => JVal::Bool(b),
            JsonValue::Int(i) => JVal::Int(i as int),
            JsonValue::NumText(t) => JVal::NumText(t@),
            JsonValue::Str(s) => JVal::Str(s@),
            JsonValue::Arr(items) => JVal::Arr(Self::models_of(items@)),
            JsonValue::Obj(fields) => JVal::Obj(Self::field_models_of(fields@)),
        }
    }

    /// The models of a sequence of documents, element by element.
    pub open spec fn models_of(s: Seq<JsonValue>) -> Seq<JVal>
        decreases s,
    {
        if s.len() == 0 {
            Seq::empty()
        } else {
            Self::models_of(s.drop_last()).push(s.last().model())
        }
    }

    /// The models of a sequence of object fields, element by element.
    pub open spec fn field_models_of(s: Seq<(String, JsonValue)>) -> Seq<(Seq<char>, JVal)>
        decreases s,
    {
        if s.len() == 0 {
            Seq::empty()
        } else {
            Self::field_models_of(s.drop_last()).push((s.last().0@, s.last().1.model()))
        }
    }
}

impl View for JsonValue {
    type V = JVal;

    open spec fn view(&self) -> JVal {
        self.model()
    }
}

impl JsonValue {
    /// A copy of this document with the same model.
    #[verifier::loop_isolation(false)]
    pub fn deep_clone(&self) -> (r: JsonValue)
        ensures
            r@ == self@,
        decreases *self,
    {
        broadcast use lemma_models_of_push, lemma_field_models_of_push,
            lemma_models_of_index, lemma_field_models_of_index;
        match self {
            JsonValue::Null => JsonValue::Null,
            JsonValue::Bool(b) => JsonValue::Bool(*b),
            JsonValue::Int(i) => JsonValue::Int(*i),
            JsonValue::NumText(t) => JsonValue::NumText(t.clone()),
            JsonValue::Str(s) => JsonValue::Str(s.clone()),
            JsonValue::Arr(items) => {
                let mut out: Vec<JsonValue> = Vec::new();
                for i in 0..items.len()
                    invariant
                        out@.len() == i,
                        forall|k: int| 0 <= k < i ==> out@[k].model() == items@[k].model(),
                {
                    proof {
                        assert(decreases_to!(*self => *items));
                        assert(decreases_to!(*self => items@[i as int]));
                    }
                    out.push(items[i].deep_clone());
                }
                proof {
                    assert(JsonValue::models_of(out@) =~= JsonValue::models_of(items@));
                }
                JsonValue::Arr(out)
            }
            JsonValue::Obj(fields) => {
                let mut out: Vec<(String, JsonValue)> = Vec::new();
                for i in 0..fields.len()
                    invariant
                        out@.len() == i,
                        forall|k: int| 0 <= k < i ==> out@[k].0@ == fields@[k].0@
                            && out@[k].1.model() == fields@[k].1.model(),
                {
                    proof {
                        assert(decreases_to!(*self => *fields));
                        assert(decreases_to!(*self => fields@[i as int]));
                    }
                    let name = fields[i].0.clone();
                    let val = fields[i].1.deep_clone();
                    out.push((name, val));
                }
                proof {
                    assert(JsonValue::field_models_of(out@) =~= JsonValue::field_models_of(fields@));
                }
                JsonValue::Obj(out)
            }
        }
    }
}

/// Whether a document model is one the codec keeps stable: every
/// integer fits 64 signed bits, and every number kept as text is a
/// number lexeme that reads back as itself.
pub open spec fn wf_jval(v: JVal) -> bool
    decreases v, 0int,
{
    match v {
        JVal::Null => true,
        JVal::Bool(_) => true,
        JVal::Int(i) => -0x8000000000000000 <= i <= 0x7fffffffffffffff,
        JVal::NumText(t) => crate::parse::wf_numtext(t),
        JVal::Str(_) => true,
        JVal::Arr(items) => wf_jvals(items),
        JVal::Obj(fields) => wf_jfields(fields),
    }
}

/// Whether every model of a sequence is well formed.
pub open spec fn wf_jvals(s: Seq<JVal>) -> bool
    decreases s, 1int,
{
    if s.len() == 0 {
        true
    } else {
        wf_jvals(s.drop_last()) && wf_jval(s.last())
    }
}

/// Whether every field model of a sequence is well formed.
pub open spec fn wf_jfields(s: Seq<(Seq<char>, JVal)>) -> bool
    decreases s, 1int,
{
    if s.len() == 0 {
        true
    } else {
        wf_jfields(s.drop_last()) && wf_jval(s.last().1)
    }
}

/// A well-formed sequence is well formed element by element.
pub proof fn lemma_wf_jvals_index(s: Seq<JVal>)
    requires
        wf_jvals(s),
    ensures
        forall|k: int| 0 <= k < s.len() ==> wf_jval(#[trigger] s[k]),
    decreases s.len(),
{
    if s.len() > 0 {
        lemma_wf_jvals_index(s.drop_last());
        assert forall|k: int| 0 <= k < s.len() implies wf_jval(#[trigger] s[k]) by {
            if k < s.len() - 1 {
                assert(s[k] == s.drop_last()[k]);
            } else {
                assert(s[k] == s.last());
            }
        }
    }
}

/// A well-formed field sequence is well formed field by field.
pub proof fn lemma_wf_jfields_index(s: Seq<(Seq<char>, JVal)>)
    requires
        wf_jfields(s),
    ensures
        forall|k: int| 0 <= k < s.len() ==> wf_jval((#[trigger] s[k]).1),
    decreases s.len(),
{
    if s.len() > 0 {
        lemma_wf_jfields_index(s.drop_last());
        assert forall|k: int| 0 <= k < s.len() implies wf_jval((#[trigger] s[k]).1) by {
            if k < s.len() - 1 {
                assert(s[k] == s.drop_last()[k]);
            } else {
                assert(s[k] == s.last());
            }
        }
    }
}

/// The value under the last field named `k`, if any: of duplicated
/// names, the later binding wins.
pub open spec fn obj_lookup(fields: Seq<(Seq<char>, JVal)>, k: Seq<char>) -> Option<JVal>
    decreases fields.len(),
{
    if fields.len() == 0 {
        None
    } else if fields.last().0 == k {
        Some(fields.last().1)
    } else {
        obj_lookup(fields.drop_last(), k)
    }
}

/// The value under field `k` of `v`, when `v` is an object that has one.
pub open spec fn jv_get(v: JVal, k: Seq<char>) -> Option<JVal> {
    match v {
        JVal::Obj(fields) => obj_lookup(fields, k),
        _ => None,
    }
}

/// A last matching field pins `obj_lookup` down.
pub proof fn lemma_obj_lookup_is(fields: Seq<(Seq<char>, JVal)>, k: Seq<char>, i: int)
    requires
        0 <= i < fields.len(),
        fields[i].0 == k,
        forall|j: int| i < j < fields.len() ==> fields[j].0 != k,
    ensures
        obj_lookup(fields, k) == Some(fields[i].1),
    decreases fields.len(),
{
    if i == fields.len() - 1 {
    } else {
        assert(fields.last().0 != k);
        lemma_obj_lookup_is(fields.drop_last(), k, i);
    }
}

/// A name under which no field stands makes `obj_lookup` return nothing.
pub proof fn lemma_obj_lookup_none(fields: Seq<(Seq<char>, JVal)>, k: Seq<char>)
    requires
        forall|j: int| 0 <= j < fields.len() ==> fields[j].0 != k,
    ensures
        obj_lookup(fields, k) is None,
    decreases fields.len(),
{
    if fields.len() > 0 {
        lemma_obj_lookup_none(fields.drop_last(), k);
    }
}

impl JsonValue {
    /// The value under field `k`, when this document is an object that
    /// has one: of duplicated names, the later binding wins.
    #[verifier::loop_isolation(false)]
    pub fn get_field<'a>(&'a self, k: &str) -> (r: Option<&'a JsonValue>)
        ensures
            match r {
                Some(x) => jv_get(self@, k@) == Some(x@),
                None => jv_get(self@, k@) is None,
            },
    {
        broadcast use lemma_field_models_of_index;
        match self {
            JsonValue::Obj(fields) => {
                let ghost m = JsonValue::field_models_of(fields@);
                let mut i: usize = fields.len();
                while i > 0
                    invariant
                        0 <= i <= fields@.len(),
                        forall|j: int| i <= j < m.len() ==> m[j].0 != k@,
                    decreases i,
                {
                    i = i - 1;
                    if crate::strutil::str_eq(fields[i].0.as_str(), k) {
                        proof {
                            lemma_obj_lookup_is(m, k@, i as int);
                        }
                        return Some(&fields[i].1);
                    }
                }
                proof {
                    lemma_obj_lookup_none(m, k@);
                }
                None
            }
            _ => None,
        }
    }

    /// The number this document holds, when it is a number.
    pub fn as_i64(&self) -> (r: Option<i64>)
        ensures
            match r {
                Some(v) => self@ == JVal::Int(v as int),
                None => !(self@ is Int),
            },
    {
        match self {
            JsonValue::Int(v) => Some(*v),
            _ => None,
        }
    }

    /// The text this document holds, when it is a string.
    pub fn as_str_val<'a>(&'a self) -> (r: Option<&'a String>)
        ensures
            match r {
                Some(v) => self@ == JVal::Str(v@),
                None => !(self@ is Str),
            },
    {
        match self {
            JsonValue::Str(v) => Some(v),
            _ => None,
        }
    }

    /// Whether this document is an object.
    pub fn is_object(&self) -> (r: bool)
        ensures
            r == (self@ is Obj),
    {
        match self {
            JsonValue::Obj(_) => true,
            _ => false,
        }
    }
}

/// Appending a document to a sequence appends its model to the models.
pub broadcast proof fn lemma_models_of_push(s: Seq<JsonValue>, x: JsonValue)
    ensures
        #[trigger] JsonValue::models_of(s.push(x)) == JsonValue::models_of(s).push(x.model()),
{
    assert(s.push(x).drop_last() =~= s);
    assert(s.push(x).last() == x);
}

/// Appending a field to a sequence appends its model to the models.
pub broadcast proof fn lemma_field_models_of_push(s: Seq<(String, JsonValue)>, x: (String, JsonValue))
    ensures
        #[trigger] JsonValue::field_models_of(s.push(x))
            == JsonValue::field_models_of(s).push((x.0@, x.1.model())),
{
    assert(s.push(x).drop_last() =~= s);
    assert(s.push(x).last() == x);
}

/// The models of a sequence of documents match it element by element.
pub broadcast proof fn lemma_models_of_index(s: Seq<JsonValue>)
    ensures
        (#[trigger] JsonValue::models_of(s)).len() == s.len(),
        forall|i: int| 0 <= i < s.len()
            ==> JsonValue::models_of(s)[i] == s[i].model(),
    decreases s.len(),
{
    if s.len() > 0 {
        lemma_models_of_index(s.drop_last());
    }
}

/// The models of a sequence of fields match it element by element.
pub broadcast proof fn lemma_field_models_of_index(s: Seq<(String, JsonValue)>)
    ensures
        (#[trigger] JsonValue::field_models_of(s)).len() == s.len(),
        forall|i: int| 0 <= i < s.len()
            ==> JsonValue::field_models_of(s)[i] == (s[i].0@, s[i].1.model()),
    decreases s.len(),
{
    if s.len() > 0 {
        lemma_field_models_of_index(s.drop_last());
    }
}

} // verus!
