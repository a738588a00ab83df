//! Encoding of fetched features: value conversion, coded-domain expansion,
//! property rewriting for GeoJSON output, and flat rows for CSV output.
use vstd::prelude::*;
use crate::metadata::{ServiceField, RestServiceFieldType, field_codes, code_map};
use crate::text::{TextMap, map_get, entries_map};

verus! {

/// One attribute value of a feature, as the output reads it.
#[derive(Debug, Clone, PartialEq)]
pub enum JsonValue {
    /// Absent or null.
    Null,
    Bool(bool),
    /// A number, held as its canonical decimal text.
    Number(String),
    Text(String),
    /// An array or object, held as its compact JSON text.
    Structured(String),
}

/// The text of an attribute value.
pub enum JsonView {
    Null,
    Bool(bool),
    Number(Seq<char>),
    Text(Seq<char>),
    Structured(Seq<char>),
}

impl View for JsonValue {
    type V = JsonView;

    open spec fn view(&self) -> JsonView {
        match self {
            JsonValue::Null => JsonView::Null,
            JsonValue::Bool(b) => JsonView::Bool(*b),
            JsonValue::Number(t) => JsonView::Number(t@),
            JsonValue::Text(t) => JsonView::Text(t@),
            JsonValue::Structured(t) => JsonView::Structured(t@),
        }
    }
}

/// The output text of a value: empty for null, `TRUE` or `FALSE` for a
/// boolean, the decimal text of a number, a string as it is, and the
/// compact JSON text of an array or object.
pub open spec fn converted(v: JsonView) -> Seq<char> {
    match v {
        JsonView::Null => Seq::empty(),
        JsonView::Bool(b) => if b {
            "TRUE"@
        } else {
            "FALSE"@
        },
        JsonView::Number(t) => t,
        JsonView::Text(t) => t,
        JsonView::Structured(t) => t,
    }
}

/// The output text of a value.
pub fn convert_json_value(value: &JsonValue) -> (r: String)
    ensures
        r@ == converted(value@),
{
    match value {
        JsonValue::Null => String::new(),
        JsonValue::Bool(b) => if *b {
            "TRUE".to_owned()
        } else {
            "FALSE".to_owned()
        },
        JsonValue::Number(t) => t.clone(),
        JsonValue::Text(t) => t.clone(),
        JsonValue::Structured(t) => t.clone(),
    }
}

/// The texts of a property map.
pub open spec fn props_view(m: Map<Seq<char>, JsonValue>) -> Map<Seq<char>, JsonView> {
    m.map_values(|v: JsonValue| v@)
}

/// The output text of the property `name`: empty where it is absent.
pub open spec fn property_text(props: Map<Seq<char>, JsonView>, name: Seq<char>) -> Seq<char> {
    match map_get(props, name) {
        Some(v) => converted(v),
        None => Seq::empty(),
    }
}

/// The label of `code` in a coded domain: empty where the code is not listed.
pub open spec fn code_label(codes: Seq<crate::metadata::CodedValue>, code: Seq<char>) -> Seq<char> {
    match map_get(code_map(codes), code) {
        Some(l) => l@,
        None => Seq::empty(),
    }
}

/// The name of the companion that holds a coded field's label.
pub open spec fn desc_name(name: Seq<char>) -> Seq<char> {
    name + "_DESC"@
}

/// Every property value replaced by its output text.
pub open spec fn all_converted(props: Map<Seq<char>, JsonView>) -> Map<Seq<char>, JsonView> {
    props.map_values(|v: JsonView| JsonView::Text(converted(v)))
}

/// The properties after rewriting by `fields`, in order: every property
/// value becomes its output text; then each field but geometry fields is set
/// to the text of its value before rewriting (empty where it is absent), and
/// each coded one gains its `_DESC` companion with the label of that text.
pub open spec fn transformed(fields: Seq<ServiceField>, orig: Map<Seq<char>, JsonView>) -> Map<
    Seq<char>,
    JsonView,
>
    decreases fields.len(),
{
    if fields.len() == 0 {
        all_converted(orig)
    } else {
        let m = transformed(fields.drop_last(), orig);
        let f = fields.last();
        if f.field_type == RestServiceFieldType::Geometry {
            m
        } else {
            let text = property_text(orig, f.name@);
            let m1 = m.insert(f.name@, JsonView::Text(text));
            match field_codes(f) {
                Some(codes) => m1.insert(desc_name(f.name@), JsonView::Text(code_label(codes, text))),
                None => m1,
            }
        }
    }
}

pub(crate) fn property_string(props: &TextMap<JsonValue>, name: &str) -> (r: String)
    ensures
        r@ == property_text(props_view(props@), name@),
{
    match props.get(name) {
        Some(v) => convert_json_value(v),
        None => String::new(),
    }
}

/// The label of `code` in a field's code table, empty where it is missing.
pub(crate) fn label_of(table: &TextMap<String>, code: &str) -> (r: String)
    ensures
        r@ == match map_get(table@, code@) {
            Some(l) => l@,
            None => Seq::empty(),
        },
{
    match table.get(code) {
        Some(l) => l.clone(),
        None => String::new(),
    }
}

fn desc_of(name: &String) -> (r: String)
    ensures
        r@ == desc_name(name@),
{
    let mut s = name.clone();
    s.append("_DESC");
    s
}

proof fn lemma_props_view_insert(m: Map<Seq<char>, JsonValue>, k: Seq<char>, v: JsonValue)
    ensures
        props_view(m.insert(k, v)) == props_view(m).insert(k, v@),
{
    assert(props_view(m.insert(k, v)) =~= props_view(m).insert(k, v@));
}

/// Rewrites one feature's properties for GeoJSON output: every value becomes
/// its output text, every field but geometry fields is present, and every
/// coded field gains a `_DESC` companion with its label.
pub fn transform_properties(fields: &Vec<ServiceField>, properties: &TextMap<JsonValue>) -> (r: TextMap<
    JsonValue,
>)
    ensures
        props_view(r@) == transformed(fields@, props_view(properties@)),
{
    let ghost orig = props_view(properties@);
    let mut texts: Vec<String> = Vec::new();
    let mut i: usize = 0;
    while i < fields.len()
        invariant
            i <= fields.len(),
            texts@.len() == i,
            orig == props_view(properties@),
            forall|j: int| 0 <= j < i ==> #[trigger] texts@[j]@ == property_text(orig, fields@[j].name@),
        decreases fields.len() - i,
    {
        texts.push(property_string(properties, fields[i].name.as_str()));
        i = i + 1;
    }
    let mut result: TextMap<JsonValue> = TextMap::new();
    let mut k: usize = 0;
    while k < properties.entries.len()
        invariant
            k <= properties.entries.len(),
            orig == props_view(properties@),
            props_view(result@) == all_converted(
                props_view(entries_map(properties.entries@.subrange(0, k as int))),
            ),
        decreases properties.entries.len() - k,
    {
        let entry = &properties.entries[k];
        let text = convert_json_value(&entry.1);
        proof {
            let pre = properties.entries@.subrange(0, k as int);
            let next = properties.entries@.subrange(0, k + 1);
            assert(next.drop_last() =~= pre);
            assert(next.last() == properties.entries@[k as int]);
            lemma_props_view_insert(entries_map(pre), entry.0@, entry.1);
            lemma_props_view_insert(result@, entry.0@, JsonValue::Text(text));
            assert(all_converted(props_view(entries_map(next))) =~= all_converted(
                props_view(entries_map(pre)),
            ).insert(entry.0@, JsonView::Text(converted(entry.1@))));
        }
        result.insert(entry.0.clone(), JsonValue::Text(text));
        k = k + 1;
    }
    assert(properties.entries@.subrange(0, k as int) =~= properties.entries@);
    assert(fields@.subrange(0, 0) =~= Seq::<ServiceField>::empty());
    let mut i: usize = 0;
    while i < fields.len()
        invariant
            i <= fields.len(),
            texts@.len() == fields.len(),
            forall|j: int| 0 <= j < fields.len() ==> #[trigger] texts@[j]@ == property_text(orig, fields@[j].name@),
            props_view(result@) == transformed(fields@.subrange(0, i as int), orig),
        decreases fields.len() - i,
    {
        let field = &fields[i];
        proof {
            assert(fields@.subrange(0, i + 1).drop_last() =~= fields@.subrange(0, i as int));
            assert(fields@.subrange(0, i + 1).last() == fields@[i as int]);
        }
        if field.field_type != RestServiceFieldType::Geometry {
            let text = texts[i].clone();
            let coded = field.is_coded();
            let label = match &coded {
                Some(table) => Some(label_of(table, text.as_str())),
                None => None,
            };
            proof {
                lemma_props_view_insert(result@, field.name@, JsonValue::Text(text));
            }
            result.insert(field.name.clone(), JsonValue::Text(text));
            match label {
                Some(l) => {
                    let desc = desc_of(&field.name);
                    proof {
                        lemma_props_view_insert(result@, desc@, JsonValue::Text(l));
                    }
                    result.insert(desc, JsonValue::Text(l));
                },
                None => {},
            }
        }
        i = i + 1;
    }
    assert(fields@.subrange(0, i as int) =~= fields@);
    result
}

} // verus!
