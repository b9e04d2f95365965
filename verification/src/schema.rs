//! The schema deriver: given a tool's declared parameter list, build the
//! JSON object schema that describes the tool's input — one fragment per
//! parameter, a `required` list holding exactly the non-optional names,
//! and a description pulled out of a structured documentation block.

use vstd::prelude::*;
use crate::json::{JVal, JsonValue};
use crate::strutil::{
    contains_sub, find_char, find_sub, trim_start_any, trim_start_prefix, trim_ws,
    find_char_from, find_sub_vec, lemma_find_char_is, lemma_find_char_none,
    str_to_chars, chars_to_string, subvec, trim_start_any_vec, trim_start_prefix_vec,
    trim_ws_vec,
};

verus! {

/// The declared type of one tool parameter.
pub enum ParamType {
    Text,
    Integer32,
    Integer64,
    Number,
    Boolean,
    Object,
    Array,
}

impl ParamType {
    /// The name of this type inside a schema fragment.
    pub open spec fn tag_name_model(self) -> Seq<char> {
        match self {
            ParamType::Text => "string"@,
            ParamType::Integer32 => "integer"@,
            ParamType::Integer64 => "integer"@,
            ParamType::Number => "number"@,
            ParamType::Boolean => "boolean"@,
            ParamType::Object => "object"@,
            ParamType::Array => "array"@,
        }
    }

    /// The format annotation of this type, where one applies.
    pub open spec fn format_model(self) -> Option<Seq<char>> {
        match self {
            ParamType::Integer32 => Some("int32"@),
            ParamType::Integer64 => Some("int64"@),
            ParamType::Number => Some("double"@),
            _ => None,
        }
    }

    /// The name of this type inside a schema fragment.
    pub fn tag_name(&self) -> (r: String)
        ensures
            r@ == self.tag_name_model(),
    {
        match self {
            ParamType::Text => String::from_str("string"),
            ParamType::Integer32 => String::from_str("integer"),
            ParamType::Integer64 => String::from_str("integer"),
            ParamType::Number => String::from_str("number"),
            ParamType::Boolean => String::from_str("boolean"),
            ParamType::Object => String::from_str("object"),
            ParamType::Array => String::from_str("array"),
        }
    }

    /// The format annotation of this type, where one applies.
    pub fn format(&self) -> (r: Option<String>)
        ensures
            match r {
                Some(f) => self.format_model() == Some(f@),
                None => self.format_model() is None,
            },
    {
        match self {
            ParamType::Integer32 => Some(String::from_str("int32")),
            ParamType::Integer64 => Some(String::from_str("int64")),
            ParamType::Number => Some(String::from_str("double")),
            _ => None,
        }
    }
}

/// One declared parameter of a tool: its name, declared type, an explicit
/// optionality flag, and a human description. An optional parameter is
/// left out of the schema's `required` list and its type is widened to
/// also allow a null value.
pub struct ParameterSpec {
    pub name: String,
    pub ty: ParamType,
    pub optional: bool,
    pub description: String,
}

impl ParameterSpec {
    /// Whether this parameter appears in the schema at all: a parameter
    /// named for the receiver does not.
    pub open spec fn included(self) -> bool {
        self.name@ != "self"@
    }

    /// Whether this parameter's name belongs in the `required` list.
    pub open spec fn required(self) -> bool {
        self.included() && !self.optional
    }

    /// The schema fragment describing this parameter.
    pub open spec fn fragment_model(self) -> JVal {
        JVal::Obj(
            seq![
                ("type"@, if self.optional {
                    JVal::Arr(
                        seq![JVal::Str(self.ty.tag_name_model()), JVal::Str("null"@)],
                    )
                } else {
                    JVal::Str(self.ty.tag_name_model())
                }),
            ] + match self.ty.format_model() {
                Some(f) => seq![("format"@, JVal::Str(f))],
                None => Seq::empty(),
            } + seq![("description"@, JVal::Str(self.description@))],
        )
    }

    /// Build the schema fragment describing this parameter.
    pub fn fragment(&self) -> (r: JsonValue)
        ensures
            r@ == self.fragment_model(),
    {
        broadcast use crate::json::lemma_field_models_of_push, crate::json::lemma_models_of_push;
        let mut fields: Vec<(String, JsonValue)> = Vec::new();
        let ty = if self.optional {
            let mut alts: Vec<JsonValue> = Vec::new();
            alts.push(JsonValue::Str(self.ty.tag_name()));
            alts.push(JsonValue::Str(String::from_str("null")));
            proof {
                assert(JsonValue::models_of(alts@) =~= seq![
                    JVal::Str(self.ty.tag_name_model()),
                    JVal::Str("null"@),
                ]);
            }
            JsonValue::Arr(alts)
        } else {
            JsonValue::Str(self.ty.tag_name())
        };
        fields.push((String::from_str("type"), ty));
        match self.ty.format() {
            Some(f) => {
                fields.push((String::from_str("format"), JsonValue::Str(f)));
            }
            None => {}
        }
        fields.push((String::from_str("description"), JsonValue::Str(self.description.clone())));
        proof {
            assert(JsonValue::field_models_of(fields@) =~= self.fragment_model()->Obj_0);
        }
        JsonValue::Obj(fields)
    }
}

/// The `properties` fields of the schema of a parameter list: one
/// fragment per parameter, in declaration order, the receiver left out.
pub open spec fn props_model(ps: Seq<ParameterSpec>) -> Seq<(Seq<char>, JVal)>
    decreases ps.len(),
{
    if ps.len() == 0 {
        Seq::empty()
    } else {
        props_model(ps.drop_last()) + if ps.last().included() {
            seq![(ps.last().name@, ps.last().fragment_model())]
        } else {
            Seq::empty()
        }
    }
}

/// The `required` list of the schema of a parameter list: the name of
/// every non-optional parameter, in declaration order.
pub open spec fn required_model(ps: Seq<ParameterSpec>) -> Seq<JVal>
    decreases ps.len(),
{
    if ps.len() == 0 {
        Seq::empty()
    } else {
        required_model(ps.drop_last()) + if ps.last().required() {
            seq![JVal::Str(ps.last().name@)]
        } else {
            Seq::empty()
        }
    }
}

/// The full object schema of a parameter list. A tool with no declared
/// parameters gets the empty object schema with an empty required list.
pub open spec fn schema_model(ps: Seq<ParameterSpec>) -> JVal {
    JVal::Obj(
        seq![
            ("type"@, JVal::Str("object"@)),
            ("properties"@, JVal::Obj(props_model(ps))),
            ("required"@, JVal::Arr(required_model(ps))),
        ],
    )
}

/// Whether the parameters of a list have pairwise distinct names.
pub open spec fn distinct_names(ps: Seq<ParameterSpec>) -> bool {
    forall|i: int, j: int| 0 <= i < j < ps.len() ==> ps[i].name@ != ps[j].name@
}

/// Build the object schema of a parameter list.
#[verifier::loop_isolation(false)]
pub fn derive_schema(params: &Vec<ParameterSpec>) -> (r: JsonValue)
    ensures
        r@ == schema_model(params@),
{
    broadcast use crate::json::lemma_field_models_of_push, crate::json::lemma_models_of_push;
    let mut props: Vec<(String, JsonValue)> = Vec::new();
    let mut required: Vec<JsonValue> = Vec::new();
    for i in 0..params.len()
        invariant
            JsonValue::field_models_of(props@) =~= props_model(params@.take(i as int)),
            JsonValue::models_of(required@) =~= required_model(params@.take(i as int)),
    {
        let included = !crate::strutil::str_eq(params[i].name.as_str(), "self");
        if included {
            props.push((params[i].name.clone(), params[i].fragment()));
            if !params[i].optional {
                required.push(JsonValue::Str(params[i].name.clone()));
            }
        }
        proof {
            assert(params@.take(i + 1).drop_last() =~= params@.take(i as int));
            assert(params@.take(i + 1).last() == params@[i as int]);
            assert(JsonValue::field_models_of(props@) =~= props_model(params@.take(i + 1)));
            assert(JsonValue::models_of(required@) =~= required_model(params@.take(i + 1)));
        }
    }
    proof {
        assert(params@.take(params@.len() as int) =~= params@);
    }
    let mut fields: Vec<(String, JsonValue)> = Vec::new();
    fields.push((String::from_str("type"), JsonValue::Str(String::from_str("object"))));
    fields.push((String::from_str("properties"), JsonValue::Obj(props)));
    fields.push((String::from_str("required"), JsonValue::Arr(required)));
    proof {
        assert(JsonValue::field_models_of(fields@) =~= schema_model(params@)->Obj_0);
    }
    JsonValue::Obj(fields)
}

/// What stands in the `required` list: exactly the strings that name a
/// non-optional parameter.
pub proof fn lemma_required_model_elems(ps: Seq<ParameterSpec>)
    ensures
        forall|v: JVal| required_model(ps).contains(v)
            <==> exists|i: int| 0 <= i < ps.len() && (#[trigger] ps[i]).required()
                && v == JVal::Str(ps[i].name@),
    decreases ps.len(),
{
    if ps.len() == 0 {
    } else {
        lemma_required_model_elems(ps.drop_last());
        assert forall|v: JVal| required_model(ps).contains(v) implies exists|i: int|
            0 <= i < ps.len() && (#[trigger] ps[i]).required() && v == JVal::Str(ps[i].name@) by {
            if required_model(ps.drop_last()).contains(v) {
                let i = choose|i: int| 0 <= i < ps.drop_last().len()
                    && (#[trigger] ps.drop_last()[i]).required()
                    && v == JVal::Str(ps.drop_last()[i].name@);
                assert(ps[i] == ps.drop_last()[i]);
            } else {
                assert(ps.last().required() && v == JVal::Str(ps.last().name@));
                assert(ps[ps.len() - 1] == ps.last());
            }
        }
        assert forall|v: JVal| (exists|i: int| 0 <= i < ps.len() && (#[trigger] ps[i]).required()
            && v == JVal::Str(ps[i].name@)) implies required_model(ps).contains(v) by {
            let i = choose|i: int| 0 <= i < ps.len() && (#[trigger] ps[i]).required()
                && v == JVal::Str(ps[i].name@);
            if i < ps.len() - 1 {
                assert(ps.drop_last()[i] == ps[i]);
                assert(required_model(ps.drop_last()).contains(v));
                let j = choose|j: int| 0 <= j < required_model(ps.drop_last()).len()
                    && required_model(ps.drop_last())[j] == v;
                assert(required_model(ps)[j] == v);
            } else {
                assert(required_model(ps).last() == v);
            }
        }
    }
}

/// The derived schema document carries the property fragments under
/// `properties` and the non-optional names under `required`.
pub proof fn lemma_schema_fields(ps: Seq<ParameterSpec>)
    ensures
        crate::json::jv_get(schema_model(ps), "properties"@) == Some(JVal::Obj(props_model(ps))),
        crate::json::jv_get(schema_model(ps), "required"@) == Some(JVal::Arr(required_model(ps))),
{
    reveal_strlit("type");
    reveal_strlit("properties");
    reveal_strlit("required");
    assert("type"@.len() == 4 && "properties"@.len() == 10 && "required"@.len() == 8);
    let fields = schema_model(ps)->Obj_0;
    let front = fields.drop_last();
    assert(front =~= seq![
        ("type"@, JVal::Str("object"@)),
        ("properties"@, JVal::Obj(props_model(ps))),
    ]);
    assert(fields.last().0 == "required"@);
    assert(crate::json::obj_lookup(fields, "required"@) == Some(JVal::Arr(required_model(ps))));
    assert(fields.last().0 != "properties"@);
    assert(front.last().0 == "properties"@);
    assert(crate::json::obj_lookup(fields, "properties"@)
        == crate::json::obj_lookup(front, "properties"@));
    assert(crate::json::obj_lookup(front, "properties"@) == Some(JVal::Obj(props_model(ps))));
}

/// One documentation line without its trailing carriage return.
pub open spec fn strip_cr(s: Seq<char>) -> Seq<char> {
    if s.len() > 0 && s.last() == '\r' {
        s.drop_last()
    } else {
        s
    }
}

/// The lines of a documentation block, split on newlines.
pub open spec fn lines_of(s: Seq<char>) -> Seq<Seq<char>>
    decreases s.len(),
    via lines_of_dec
{
    if s.len() == 0 {
        Seq::empty()
    } else {
        match find_char(s, '\n') {
            Some(i) => seq![strip_cr(s.take(i))] + lines_of(s.skip(i + 1)),
            None => seq![strip_cr(s)],
        }
    }
}

#[via_fn]
proof fn lines_of_dec(s: Seq<char>) {
    if s.len() > 0 {
        crate::strutil::lemma_find_char(s, '\n');
    }
}

/// Whether a documentation line speaks of the parameter `name`: it holds
/// the backtick-quoted name, or the name after a bullet marker.
pub open spec fn line_matches(line: Seq<char>, name: Seq<char>) -> bool {
    contains_sub(line, seq!['`'] + name + seq!['`'])
        || contains_sub(line, seq!['*', ' '] + name)
        || contains_sub(line, seq!['-', ' '] + name)
}

/// The first documentation line that speaks of `name`, if any.
pub open spec fn first_match(lines: Seq<Seq<char>>, name: Seq<char>) -> Option<Seq<char>>
    decreases lines.len(),
{
    if lines.len() == 0 {
        None
    } else if line_matches(lines[0], name) {
        Some(lines[0])
    } else {
        first_match(lines.skip(1), name)
    }
}

/// A matching line reduced to the description it carries: the bullet
/// marker, the parameter reference and the separating dashes are peeled
/// off, and what remains is trimmed.
pub open spec fn clean_param_line(line: Seq<char>, name: Seq<char>) -> Seq<char> {
    let t2 = trim_ws(trim_start_any(trim_ws(line), seq!['*', '-']));
    let t3 = match find_sub(t2, seq!['`'] + name + seq!['`']) {
        Some(i) => t2.skip(i),
        None => match find_sub(t2, name) {
            Some(i) => t2.skip(i),
            None => t2,
        },
    };
    let t5 = trim_start_prefix(trim_start_any(t3, seq!['`']), name);
    let t7 = trim_start_any(trim_start_any(t5, seq!['`']), seq!['-']);
    trim_ws(trim_start_prefix(t7, seq![' ', '-', ' ']))
}

/// The description of parameter `name` in a documentation block: the
/// cleaned first line that speaks of it, or the empty string when no
/// line does.
pub open spec fn extract_param_doc_model(docs: Seq<char>, name: Seq<char>) -> Seq<char> {
    match first_match(lines_of(docs), name) {
        Some(line) => clean_param_line(line, name),
        None => Seq::empty(),
    }
}

/// Splitting off one line splits `first_match` accordingly.
proof fn lemma_first_match_cons(l: Seq<char>, rest: Seq<Seq<char>>, name: Seq<char>)
    ensures
        first_match(seq![l] + rest, name) == if line_matches(l, name) {
            Some(l)
        } else {
            first_match(rest, name)
        },
{
    assert((seq![l] + rest)[0] == l);
    assert((seq![l] + rest).skip(1) =~= rest);
}

/// One documentation line without its trailing carriage return.
fn strip_cr_vec(s: &Vec<char>) -> (r: Vec<char>)
    ensures
        r@ == strip_cr(s@),
{
    if s.len() > 0 && s[s.len() - 1] == '\r' {
        proof {
            assert(s@.subrange(0, s@.len() - 1) =~= s@.drop_last());
        }
        subvec(s, 0, s.len() - 1)
    } else {
        proof {
            assert(s@.subrange(0, s@.len() as int) =~= s@);
        }
        subvec(s, 0, s.len())
    }
}

/// Reduce a matching line to the description it carries.
fn clean_param_line_vec(line: &Vec<char>, nv: &Vec<char>, bt_pat: &Vec<char>) -> (r: Vec<char>)
    requires
        bt_pat@ == seq!['`'] + nv@ + seq!['`'],
    ensures
        r@ == clean_param_line(line@, nv@),
{
    let mut bullets: Vec<char> = Vec::new();
    bullets.push('*');
    bullets.push('-');
    proof {
        assert(bullets@ =~= seq!['*', '-']);
    }
    let t1 = trim_ws_vec(line);
    let t2a = trim_start_any_vec(&t1, &bullets);
    let t2 = trim_ws_vec(&t2a);
    proof {
        crate::strutil::lemma_find_sub(t2@, bt_pat@);
        crate::strutil::lemma_find_sub(t2@, nv@);
    }
    let t3 = match find_sub_vec(&t2, bt_pat) {
        Some(i) => {
            proof {
                assert(t2@.skip(i as int) =~= t2@.subrange(i as int, t2@.len() as int));
            }
            subvec(&t2, i, t2.len())
        }
        None => match find_sub_vec(&t2, nv) {
            Some(i) => {
                proof {
                    assert(t2@.skip(i as int) =~= t2@.subrange(i as int, t2@.len() as int));
                }
                subvec(&t2, i, t2.len())
            }
            None => {
                proof {
                    assert(t2@.subrange(0, t2@.len() as int) =~= t2@);
                }
                subvec(&t2, 0, t2.len())
            }
        },
    };
    let mut tick: Vec<char> = Vec::new();
    tick.push('`');
    proof {
        assert(tick@ =~= seq!['`']);
    }
    let mut dash: Vec<char> = Vec::new();
    dash.push('-');
    proof {
        assert(dash@ =~= seq!['-']);
    }
    let mut sep: Vec<char> = Vec::new();
    sep.push(' ');
    sep.push('-');
    sep.push(' ');
    proof {
        assert(sep@ =~= seq![' ', '-', ' ']);
    }
    let t4 = trim_start_any_vec(&t3, &tick);
    let t5 = trim_start_prefix_vec(&t4, nv);
    let t6 = trim_start_any_vec(&t5, &tick);
    let t7 = trim_start_any_vec(&t6, &dash);
    let t8 = trim_start_prefix_vec(&t7, &sep);
    trim_ws_vec(&t8)
}

/// The description of parameter `param_name` in the documentation block
/// `docs`: the cleaned first line that references the parameter by its
/// backtick-quoted name or after a bullet marker, or the empty string
/// when no line does.
#[verifier::loop_isolation(false)]
#[verifier::rlimit(60)]
pub fn extract_param_doc(docs: &str, param_name: &str) -> (r: String)
    ensures
        r@ == extract_param_doc_model(docs@, param_name@),
{
    let dv = str_to_chars(docs);
    let nv = str_to_chars(param_name);
    let mut bt_pat: Vec<char> = Vec::new();
    bt_pat.push('`');
    let mut k: usize = 0;
    while k < nv.len()
        invariant
            k <= nv@.len(),
            bt_pat@ =~= seq!['`'] + nv@.take(k as int),
        decreases nv@.len() - k,
    {
        bt_pat.push(nv[k]);
        k = k + 1;
    }
    bt_pat.push('`');
    proof {
        assert(nv@.take(nv@.len() as int) =~= nv@);
        assert(bt_pat@ =~= seq!['`'] + nv@ + seq!['`']);
    }
    let mut star_pat: Vec<char> = Vec::new();
    star_pat.push('*');
    star_pat.push(' ');
    let mut k: usize = 0;
    while k < nv.len()
        invariant
            k <= nv@.len(),
            star_pat@ =~= seq!['*', ' '] + nv@.take(k as int),
        decreases nv@.len() - k,
    {
        star_pat.push(nv[k]);
        k = k + 1;
    }
    let mut dash_pat: Vec<char> = Vec::new();
    dash_pat.push('-');
    dash_pat.push(' ');
    let mut k: usize = 0;
    while k < nv.len()
        invariant
            k <= nv@.len(),
            dash_pat@ =~= seq!['-', ' '] + nv@.take(k as int),
        decreases nv@.len() - k,
    {
        dash_pat.push(nv[k]);
        k = k + 1;
    }
    proof {
        assert(nv@.take(nv@.len() as int) =~= nv@);
        assert(star_pat@ =~= seq!['*', ' '] + nv@);
        assert(dash_pat@ =~= seq!['-', ' '] + nv@);
        assert(dv@.skip(0) =~= dv@);
    }
    let mut pos: usize = 0;
    while pos < dv.len()
        invariant
            pos <= dv@.len(),
            first_match(lines_of(dv@), nv@)
                == first_match(lines_of(dv@.skip(pos as int)), nv@),
        decreases dv@.len() - pos,
    {
        let nl = find_char_from(&dv, pos, '\n');
        let line_end = match nl {
            Some(i) => i,
            None => dv.len(),
        };
        let raw_line = subvec(&dv, pos, line_end);
        let line = strip_cr_vec(&raw_line);
        proof {
            let rem = dv@.skip(pos as int);
            match nl {
                Some(i) => {
                    assert(forall|j: int| 0 <= j < rem.len() ==> rem[j] == dv@[pos + j]);
                    lemma_find_char_is(rem, '\n', i - pos);
                    assert(rem.take(i - pos) =~= dv@.subrange(pos as int, i as int));
                    assert(rem.skip(i - pos + 1) =~= dv@.skip(i + 1));
                    assert(lines_of(rem) == seq![strip_cr(raw_line@)] + lines_of(dv@.skip(i + 1)));
                }
                None => {
                    assert(forall|j: int| 0 <= j < rem.len() ==> rem[j] == dv@[pos + j]);
                    lemma_find_char_none(rem, '\n');
                    assert(rem =~= dv@.subrange(pos as int, dv@.len() as int));
                    assert(lines_of(rem) == seq![strip_cr(raw_line@)]);
                }
            }
        }
        let hit = match find_sub_vec(&line, &bt_pat) {
            Some(_) => true,
            None => match find_sub_vec(&line, &star_pat) {
                Some(_) => true,
                None => match find_sub_vec(&line, &dash_pat) {
                    Some(_) => true,
                    None => false,
                },
            },
        };
        proof {
            assert(hit == line_matches(line@, nv@));
        }
        if hit {
            proof {
                match nl {
                    Some(i) => {
                        lemma_first_match_cons(line@, lines_of(dv@.skip(i + 1)), nv@);
                    }
                    None => {
                        lemma_first_match_cons(line@, Seq::empty(), nv@);
                        assert(seq![line@] + Seq::<Seq<char>>::empty() =~= seq![line@]);
                        assert(lines_of(dv@.skip(pos as int)) =~= seq![line@]);
                    }
                }
                assert(first_match(lines_of(dv@), nv@) == Some(line@));
            }
            let cleaned = clean_param_line_vec(&line, &nv, &bt_pat);
            return chars_to_string(&cleaned);
        }
        match nl {
            Some(i) => {
                proof {
                    lemma_first_match_cons(line@, lines_of(dv@.skip(i + 1)), nv@);
                }
                pos = i + 1;
            }
            None => {
                proof {
                    lemma_first_match_cons(line@, Seq::empty(), nv@);
                    assert(seq![line@] + Seq::<Seq<char>>::empty() =~= seq![line@]);
                    assert(lines_of(dv@.skip(pos as int)) =~= seq![line@]);
                    assert(first_match(lines_of(dv@), nv@) is None);
                }
                return String::new();
            }
        }
    }
    proof {
        assert(dv@.skip(pos as int) =~= Seq::<char>::empty());
        assert(first_match(lines_of(dv@), nv@) is None);
    }
    String::new()
}

/// For every parameter list with pairwise distinct names, the schema's
/// `required` list holds the name of every non-optional parameter (the
/// receiver aside), holds nothing else, and holds no optional
/// parameter's name.
pub proof fn lemma_required_exact(ps: Seq<ParameterSpec>)
    requires
        distinct_names(ps),
    ensures
        forall|i: int| 0 <= i < ps.len() && (#[trigger] ps[i]).required()
            ==> required_model(ps).contains(JVal::Str(ps[i].name@)),
        forall|v: JVal| required_model(ps).contains(v)
            ==> exists|i: int| 0 <= i < ps.len() && (#[trigger] ps[i]).required()
                && v == JVal::Str(ps[i].name@),
        forall|i: int| 0 <= i < ps.len() && (#[trigger] ps[i]).optional
            ==> !required_model(ps).contains(JVal::Str(ps[i].name@)),
{
    lemma_required_model_elems(ps);
    assert forall|i: int| 0 <= i < ps.len() && (#[trigger] ps[i]).optional
        implies !required_model(ps).contains(JVal::Str(ps[i].name@)) by {
        if required_model(ps).contains(JVal::Str(ps[i].name@)) {
            let j = choose|j: int| 0 <= j < ps.len() && (#[trigger] ps[j]).required()
                && JVal::Str(ps[i].name@) == JVal::Str(ps[j].name@);
            assert(ps[i].name@ == ps[j].name@);
            assert(i != j);
            assert(false);
        }
    }
}

} // verus!
