//! The typed description of one feature service: its fields, coded domains,
//! capabilities and identifier bounds.
use vstd::prelude::*;
use crate::text::{TextMap, same_text, entries_map, digit_char};

verus! {

/// Why a service description cannot be planned or could not be read.
#[derive(Debug, Clone, PartialEq, Eq)]
pub enum RestServiceMetadataError {
    /// Offset pagination is unsupported and no identifier field or no
    /// identifier bounds are known.
    MissingOidField,
    /// The service has geometry, but neither a requested nor a source
    /// spatial reference is known.
    MissingSpatialReference,
    /// The advertised maximum number of records per response is not positive.
    InvalidMaxRecordCount(i32),
    /// A query address could not be built from the base address.
    InvalidUrl,
    /// A metadata response lacked what it should hold.
    InvalidResponse(String),
}

/// The geometry kind of a service.
#[derive(Debug, Clone, Copy, PartialEq, Eq, Structural)]
pub enum RestServiceGeometryType {
    Point,
    Multipoint,
    Polyline,
    Polygon,
    Envelope,
}

/// The service's own name for a geometry kind.
pub open spec fn geometry_type_name(g: RestServiceGeometryType) -> Seq<char> {
    match g {
        RestServiceGeometryType::Point => "esriGeometryPoint"@,
        RestServiceGeometryType::Multipoint => "esriGeometryMultipoint"@,
        RestServiceGeometryType::Polyline => "esriGeometryPolyline"@,
        RestServiceGeometryType::Polygon => "esriGeometryPolygon"@,
        RestServiceGeometryType::Envelope => "esriGeometryEnvelope"@,
    }
}

impl RestServiceGeometryType {
    /// The service's own name for this kind, as queries carry it.
    pub fn esri_name(&self) -> (r: String)
        ensures
            r@ == geometry_type_name(*self),
    {
        let s = match self {
            RestServiceGeometryType::Point => "esriGeometryPoint",
            RestServiceGeometryType::Multipoint => "esriGeometryMultipoint",
            RestServiceGeometryType::Polyline => "esriGeometryPolyline",
            RestServiceGeometryType::Polygon => "esriGeometryPolygon",
            RestServiceGeometryType::Envelope => "esriGeometryEnvelope",
        };
        s.to_owned()
    }
}

/// The type of one attribute field.
#[derive(Debug, Clone, Copy, PartialEq, Eq, Structural)]
pub enum RestServiceFieldType {
    Blob,
    Date,
    Double,
    Float,
    Geometry,
    GlobalID,
    GUID,
    Integer,
    OID,
    Raster,
    Single,
    SmallInteger,
    String,
    XML,
}

/// The field type that the service's name `s` stands for, if any.
pub open spec fn field_type_from_name(s: Seq<char>) -> Option<RestServiceFieldType> {
    if s == "esriFieldTypeBlob"@ {
        Some(RestServiceFieldType::Blob)
    } else if s == "esriFieldTypeDate"@ {
        Some(RestServiceFieldType::Date)
    } else if s == "esriFieldTypeDouble"@ {
        Some(RestServiceFieldType::Double)
    } else if s == "esriFieldTypeFloat"@ {
        Some(RestServiceFieldType::Float)
    } else if s == "esriFieldTypeGeometry"@ {
        Some(RestServiceFieldType::Geometry)
    } else if s == "esriFieldTypeGlobalID"@ {
        Some(RestServiceFieldType::GlobalID)
    } else if s == "esriFieldTypeGUID"@ {
        Some(RestServiceFieldType::GUID)
    } else if s == "esriFieldTypeInteger"@ {
        Some(RestServiceFieldType::Integer)
    } else if s == "esriFieldTypeOID"@ {
        Some(RestServiceFieldType::OID)
    } else if s == "esriFieldTypeRaster"@ {
        Some(RestServiceFieldType::Raster)
    } else if s == "esriFieldTypeSingle"@ {
        Some(RestServiceFieldType::Single)
    } else if s == "esriFieldTypeSmallInteger"@ {
        Some(RestServiceFieldType::SmallInteger)
    } else if s == "esriFieldTypeString"@ {
        Some(RestServiceFieldType::String)
    } else if s == "esriFieldTypeXML"@ {
        Some(RestServiceFieldType::XML)
    } else {
        None
    }
}

/// The short label of a field type.
pub open spec fn field_type_label(t: RestServiceFieldType) -> Seq<char> {
    match t {
        RestServiceFieldType::Blob => "Blob"@,
        RestServiceFieldType::Date => "Date"@,
        RestServiceFieldType::Double => "Double"@,
        RestServiceFieldType::Float => "Float"@,
        RestServiceFieldType::Geometry => "Geometry"@,
        RestServiceFieldType::GlobalID => "GlobalID"@,
        RestServiceFieldType::GUID => "GUID"@,
        RestServiceFieldType::Integer => "Integer"@,
        RestServiceFieldType::OID => "OID"@,
        RestServiceFieldType::Raster => "Raster"@,
        RestServiceFieldType::Single => "Single"@,
        RestServiceFieldType::SmallInteger => "SmallInteger"@,
        RestServiceFieldType::String => "String"@,
        RestServiceFieldType::XML => "XML"@,
    }
}

impl RestServiceFieldType {
    /// Reads a field type from the service's name for it.
    pub fn from_str(s: &str) -> (r: Result<RestServiceFieldType, String>)
        ensures
            match field_type_from_name(s@) {
                Some(t) => r == Ok::<RestServiceFieldType, String>(t),
                None => r is Err && r->Err_0@ == "Could not decode the field type"@,
            },
    {
        if same_text(s, "esriFieldTypeBlob") {
            Ok(RestServiceFieldType::Blob)
        } else if same_text(s, "esriFieldTypeDate") {
            Ok(RestServiceFieldType::Date)
        } else if same_text(s, "esriFieldTypeDouble") {
            Ok(RestServiceFieldType::Double)
        } else if same_text(s, "esriFieldTypeFloat") {
            Ok(RestServiceFieldType::Float)
        } else if same_text(s, "esriFieldTypeGeometry") {
            Ok(RestServiceFieldType::Geometry)
        } else if same_text(s, "esriFieldTypeGlobalID") {
            Ok(RestServiceFieldType::GlobalID)
        } else if same_text(s, "esriFieldTypeGUID") {
            Ok(RestServiceFieldType::GUID)
        } else if same_text(s, "esriFieldTypeInteger") {
            Ok(RestServiceFieldType::Integer)
        } else if same_text(s, "esriFieldTypeOID") {
            Ok(RestServiceFieldType::OID)
        } else if same_text(s, "esriFieldTypeRaster") {
            Ok(RestServiceFieldType::Raster)
        } else if same_text(s, "esriFieldTypeSingle") {
            Ok(RestServiceFieldType::Single)
        } else if same_text(s, "esriFieldTypeSmallInteger") {
            Ok(RestServiceFieldType::SmallInteger)
        } else if same_text(s, "esriFieldTypeString") {
            Ok(RestServiceFieldType::String)
        } else if same_text(s, "esriFieldTypeXML") {
            Ok(RestServiceFieldType::XML)
        } else {
            Err("Could not decode the field type".to_owned())
        }
    }

    /// The short label of this type, as a listing of the fields shows it.
    pub fn label(&self) -> (r: String)
        ensures
            r@ == field_type_label(*self),
    {
        let s = match self {
            RestServiceFieldType::Blob => "Blob",
            RestServiceFieldType::Date => "Date",
            RestServiceFieldType::Double => "Double",
            RestServiceFieldType::Float => "Float",
            RestServiceFieldType::Geometry => "Geometry",
            RestServiceFieldType::GlobalID => "GlobalID",
            RestServiceFieldType::GUID => "GUID",
            RestServiceFieldType::Integer => "Integer",
            RestServiceFieldType::OID => "OID",
            RestServiceFieldType::Raster => "Raster",
            RestServiceFieldType::Single => "Single",
            RestServiceFieldType::SmallInteger => "SmallInteger",
            RestServiceFieldType::String => "String",
            RestServiceFieldType::XML => "XML",
        };
        s.to_owned()
    }
}

/// One entry of a coded-value domain: a code and its label.
#[derive(Debug, Clone)]
pub struct CodedValue {
    pub name: String,
    pub code: String,
}

/// The value domain attached to a field.
#[derive(Debug, Clone)]
pub enum FieldDomain {
    Range { name: String, range: Vec<i32> },
    Coded { coded_values: Vec<CodedValue> },
    Inherited,
}

/// The label of each code of a coded-value list; where a code repeats, the
/// later entry wins.
pub open spec fn code_map(coded_values: Seq<CodedValue>) -> Map<Seq<char>, String>
    decreases coded_values.len(),
{
    if coded_values.len() == 0 {
        Map::empty()
    } else {
        code_map(coded_values.drop_last()).insert(
            coded_values.last().code@,
            coded_values.last().name,
        )
    }
}

/// The lookup table from code to label of a coded-value list.
pub fn coded_to_map(coded_values: &Vec<CodedValue>) -> (r: TextMap<String>)
    ensures
        r@ == code_map(coded_values@),
{
    let mut table = TextMap::new();
    let mut i: usize = 0;
    while i < coded_values.len()
        invariant
            i <= coded_values.len(),
            table@ == code_map(coded_values@.subrange(0, i as int)),
        decreases coded_values.len() - i,
    {
        let entry = &coded_values[i];
        table.insert(entry.code.clone(), entry.name.clone());
        proof {
            let next = coded_values@.subrange(0, i + 1);
            assert(next.drop_last() =~= coded_values@.subrange(0, i as int));
        }
        i = i + 1;
    }
    assert(coded_values@.subrange(0, i as int) =~= coded_values@);
    table
}

/// One attribute field of a service.
#[derive(Debug, Clone)]
pub struct ServiceField {
    pub name: String,
    pub field_type: RestServiceFieldType,
    pub alias: String,
    pub domain: Option<FieldDomain>,
}

/// The coded values of a field, if its domain is a coded-value domain.
pub open spec fn field_codes(f: ServiceField) -> Option<Seq<CodedValue>> {
    match f.domain {
        Some(FieldDomain::Coded { coded_values }) => Some(coded_values@),
        _ => None,
    }
}

impl ServiceField {
    /// The code-to-label table of this field, if its domain is coded.
    pub fn is_coded(&self) -> (r: Option<TextMap<String>>)
        ensures
            match field_codes(*self) {
                Some(codes) => r is Some && r->0@ == code_map(codes),
                None => r is None,
            },
    {
        match &self.domain {
            Some(FieldDomain::Coded { coded_values }) => Some(coded_to_map(coded_values)),
            _ => None,
        }
    }
}

/// A spatial reference as the service declares it.
#[derive(Debug, Clone, Copy, PartialEq, Eq, Structural)]
pub struct SpatialReference {
    pub wk_id: i32,
    pub latest_wk_id: i32,
}

/// Whether an optional capability table sets `key` to true.
pub open spec fn capability_set(caps: Option<TextMap<bool>>, key: Seq<char>) -> bool {
    match caps {
        Some(t) => t@.contains_key(key) && t@[key],
        None => false,
    }
}

fn capability(caps: &Option<TextMap<bool>>, key: &str) -> (r: bool)
    ensures
        r == capability_set(*caps, key@),
{
    match caps {
        Some(t) => match t.get(key) {
            Some(v) => *v,
            None => false,
        },
        None => false,
    }
}

/// The service description as its metadata response states it.
pub struct RestServiceJsonMetadata {
    pub name: String,
    pub max_record_count: i32,
    pub server_type: String,
    pub geo_type: RestServiceGeometryType,
    pub fields: Vec<ServiceField>,
    pub oid_field: Option<String>,
    pub source_spatial_reference: Option<SpatialReference>,
    pub supports_pagination: Option<bool>,
    pub supports_statistics: Option<bool>,
    pub advanced_query_capabilities: Option<TextMap<bool>>,
}

impl RestServiceJsonMetadata {
    /// Whether the service pages by offset: its own flag, or the flag among
    /// its advanced query capabilities.
    pub fn supports_pagination(&self) -> (r: bool)
        ensures
            r == (self.supports_pagination == Some(true) || capability_set(
                self.advanced_query_capabilities,
                "supportsPagination"@,
            )),
    {
        let own = match self.supports_pagination {
            Some(b) => b,
            None => false,
        };
        own || capability(&self.advanced_query_capabilities, "supportsPagination")
    }

    /// Whether the service computes statistics: its own flag, or the flag
    /// among its advanced query capabilities.
    pub fn supports_statistics(&self) -> (r: bool)
        ensures
            r == (self.supports_statistics == Some(true) || capability_set(
                self.advanced_query_capabilities,
                "supportsStatistics"@,
            )),
    {
        let own = match self.supports_statistics {
            Some(b) => b,
            None => false,
        };
        own || capability(&self.advanced_query_capabilities, "supportsStatistics")
    }
}

/// An optional index moved forward by `k`.
pub open spec fn shift_index(o: Option<int>, k: int) -> Option<int> {
    match o {
        Some(j) => Some(j + k),
        None => None,
    }
}

/// Index of the first field named `name`, if any.
pub open spec fn first_named(fields: Seq<ServiceField>, name: Seq<char>) -> Option<int>
    decreases fields.len(),
{
    if fields.len() == 0 {
        None
    } else if fields[0].name@ == name {
        Some(0)
    } else {
        match first_named(fields.drop_first(), name) {
            Some(i) => Some(i + 1),
            None => None,
        }
    }
}

/// Index of the first field whose type is the object identifier type, if any.
pub open spec fn first_oid_typed(fields: Seq<ServiceField>) -> Option<int>
    decreases fields.len(),
{
    if fields.len() == 0 {
        None
    } else if fields[0].field_type == RestServiceFieldType::OID {
        Some(0)
    } else {
        match first_oid_typed(fields.drop_first()) {
            Some(i) => Some(i + 1),
            None => None,
        }
    }
}

/// The identifier field that a service description designates: the declared
/// one if a field has that name, else the first field of identifier type.
pub open spec fn resolved_oid_field(
    fields: Seq<ServiceField>,
    declared: Option<String>,
) -> Option<Seq<char>> {
    let found = match declared {
        Some(d) => first_named(fields, d@),
        None => first_oid_typed(fields),
    };
    match found {
        Some(i) => Some(fields[i].name@),
        None => None,
    }
}

/// Picks the identifier field of a service: the declared one if a field has
/// that name, else the first field of identifier type.
pub fn resolve_oid_field(fields: &Vec<ServiceField>, declared: &Option<String>) -> (r: Option<
    String,
>)
    ensures
        match r {
            Some(s) => resolved_oid_field(fields@, *declared) == Some(s@),
            None => resolved_oid_field(fields@, *declared) is None,
        },
{
    let mut i: usize = 0;
    assert(fields@.subrange(0, fields.len() as int) =~= fields@);
    match declared {
        Some(d) => {
            assert(shift_index(first_named(fields@, d@), 0) == first_named(fields@, d@));
        },
        None => {
            assert(shift_index(first_oid_typed(fields@), 0) == first_oid_typed(fields@));
        },
    }
    while i < fields.len()
        invariant
            i <= fields.len(),
            match declared {
                Some(d) => first_named(fields@, d@) == shift_index(first_named(
                    fields@.subrange(i as int, fields.len() as int),
                    d@,
                ), i as int),
                None => first_oid_typed(fields@) == shift_index(first_oid_typed(
                    fields@.subrange(i as int, fields.len() as int),
                ), i as int),
            },
        decreases fields.len() - i,
    {
        let rest = Ghost(fields@.subrange(i as int, fields.len() as int));
        assert(rest@.drop_first() =~= fields@.subrange(i + 1, fields.len() as int));
        let hit = match declared {
            Some(d) => same_text(fields[i].name.as_str(), d.as_str()),
            None => fields[i].field_type == RestServiceFieldType::OID,
        };
        if hit {
            return Some(fields[i].name.clone());
        }
        i = i + 1;
    }
    None
}

/// The identifier bounds read from a list of identifiers: its largest and its
/// smallest member, in that order.
pub open spec fn ids_max_min(ids: Seq<i32>, max: i32, min: i32) -> bool {
    &&& forall|j: int| 0 <= j < ids.len() ==> min <= #[trigger] ids[j] <= max
    &&& exists|j: int| 0 <= j < ids.len() && ids[j] == max
    &&& exists|j: int| 0 <= j < ids.len() && ids[j] == min
}

/// The largest and the smallest of the identifiers that a service listed.
pub fn max_min_from_object_ids(ids: &Vec<i32>) -> (r: Result<
    (i32, i32),
    RestServiceMetadataError,
>)
    ensures
        ids.len() == 0 <==> r is Err,
        ids.len() == 0 ==> (r matches Err(RestServiceMetadataError::InvalidResponse(m)) && m@
            == "No object ids in max min response"@),
        r matches Ok((max, min)) ==> ids_max_min(ids@, max, min),
{
    if ids.len() == 0 {
        return Err(
            RestServiceMetadataError::InvalidResponse("No object ids in max min response".to_owned()),
        );
    }
    let mut max = ids[0];
    let mut min = ids[0];
    let mut i: usize = 1;
    assert(ids@.subrange(0, 1)[0] == ids@[0]);
    while i < ids.len()
        invariant
            1 <= i <= ids.len(),
            ids_max_min(ids@.subrange(0, i as int), max, min),
        decreases ids.len() - i,
    {
        let v = ids[i];
        let ghost old_max = max;
        let ghost old_min = min;
        let ghost pre = ids@.subrange(0, i as int);
        let ghost next = ids@.subrange(0, i + 1);
        if v > max {
            max = v;
        }
        if v < min {
            min = v;
        }
        assert(ids_max_min(next, max, min)) by {
            assert forall|j: int| 0 <= j < next.len() implies min <= #[trigger] next[j] <= max by {
                if j < i {
                    assert(next[j] == pre[j]);
                }
            }
            let jm = choose|j: int| 0 <= j < pre.len() && pre[j] == old_max;
            let jn = choose|j: int| 0 <= j < pre.len() && pre[j] == old_min;
            if v > old_max {
                assert(next[i as int] == max);
            } else {
                assert(next[jm] == max);
            }
            if v < old_min {
                assert(next[i as int] == min);
            } else {
                assert(next[jn] == min);
            }
        }
        i = i + 1;
    }
    assert(ids@.subrange(0, i as int) =~= ids@);
    Ok((max, min))
}

/// The identifier bounds read from a statistics response, whose features each
/// carry a largest and a smallest value: those of its first feature.
pub fn max_min_from_statistics(features: &Vec<(i32, i32)>) -> (r: Result<
    (i32, i32),
    RestServiceMetadataError,
>)
    ensures
        features.len() == 0 <==> r is Err,
        features.len() == 0 ==> (r matches Err(RestServiceMetadataError::InvalidResponse(m)) && m@
            == "No features in max min response"@),
        features.len() > 0 ==> r == Ok::<(i32, i32), RestServiceMetadataError>(features@[0]),
{
    if features.len() == 0 {
        return Err(
            RestServiceMetadataError::InvalidResponse("No features in max min response".to_owned()),
        );
    }
    Ok(features[0])
}

/// The lower-case hexadecimal digit for `d`, which is below sixteen.
pub open spec fn hex_digit(d: nat) -> char {
    if d < 10 {
        digit_char(d)
    } else if d == 10 {
        'a'
    } else if d == 11 {
        'b'
    } else if d == 12 {
        'c'
    } else if d == 13 {
        'd'
    } else if d == 14 {
        'e'
    } else {
        'f'
    }
}

/// How one character stands inside a JSON string literal: quote and
/// backslash escaped, backspace, tab, line feed, form feed and carriage
/// return as short escapes, other control characters below 0x20 as
/// `\u00xx` in lower-case hex, every other character as it is.
pub open spec fn json_char_escape(c: char) -> Seq<char> {
    if c == '"' {
        seq!['\\', '"']
    } else if c == '\\' {
        seq!['\\', '\\']
    } else if c == '\x08' {
        seq!['\\', 'b']
    } else if c == '\t' {
        seq!['\\', 't']
    } else if c == '\n' {
        seq!['\\', 'n']
    } else if c == '\x0c' {
        seq!['\\', 'f']
    } else if c == '\r' {
        seq!['\\', 'r']
    } else if (c as u32) < 0x20 {
        seq![
            '\\',
            'u',
            '0',
            '0',
            hex_digit((c as u32 / 16) as nat),
            hex_digit((c as u32 % 16) as nat),
        ]
    } else {
        seq![c]
    }
}

/// The characters of a string, each escaped for a JSON string literal.
pub open spec fn json_escape(s: Seq<char>) -> Seq<char>
    decreases s.len(),
{
    if s.len() == 0 {
        Seq::empty()
    } else {
        json_escape(s.drop_last()) + json_char_escape(s.last())
    }
}

/// A string as a compact JSON string literal.
pub open spec fn json_quoted(s: Seq<char>) -> Seq<char> {
    seq!['"'] + json_escape(s) + seq!['"']
}

/// Renders `s` as a JSON string literal.
///
/// Relies on `serde_json::Value`'s `Display`, which writes a string value in
/// quotes with the escapes of serde_json's escape table (`ser.rs`): quote,
/// backslash and the five short escapes, `\u00xx` for the other bytes below
/// 0x20, every other byte copied.
#[verifier::external_body]
fn json_string_literal(s: &str) -> (r: String)
    ensures
        r@ == json_quoted(s@),
{
    serde_json::Value::String(s.to_owned()).to_string()
}

/// The statistics request that asks for the largest and the smallest value of
/// the field whose JSON string literal is `quoted`.
pub open spec fn statistics_parameter_text(quoted: Seq<char>) -> Seq<char> {
    "[{\"onStatisticField\":"@ + quoted
        + ",\"outStatisticFieldName\":\"MAX_VALUE\",\"statisticType\":\"max\"},{\"onStatisticField\":"@
        + quoted + ",\"outStatisticFieldName\":\"MIN_VALUE\",\"statisticType\":\"min\"}]"@
}

/// The `outStatistics` parameter that asks a service for the largest and the
/// smallest value of the identifier field.
pub fn out_statistics_parameter(oid_field_name: &str) -> (r: String)
    ensures
        r@ == statistics_parameter_text(json_quoted(oid_field_name@)),
{
    let quoted = json_string_literal(oid_field_name);
    let mut s = "[{\"onStatisticField\":".to_owned();
    s.append(quoted.as_str());
    s.append(
        ",\"outStatisticFieldName\":\"MAX_VALUE\",\"statisticType\":\"max\"},{\"onStatisticField\":",
    );
    s.append(quoted.as_str());
    s.append(",\"outStatisticFieldName\":\"MIN_VALUE\",\"statisticType\":\"min\"}]");
    s
}

/// The largest number of records that one query may ask for, whatever the
/// service advertises.
pub const MAX_SCRAPE_COUNT: i32 = 10000;

/// The identifier field a service needs bounds for, and whether the bounds
/// can come from a statistics query.
#[derive(Debug, Clone)]
pub struct BoundsQuery {
    pub oid_field: String,
    pub use_statistics: bool,
}

/// The immutable description of one service that planning reads.
#[derive(Debug, Clone)]
pub struct RestServiceMetadata {
    pub url: String,
    pub name: String,
    pub source_count: i32,
    pub max_record_count: i32,
    pub pagination_enabled: bool,
    pub server_type: String,
    pub geo_type: RestServiceGeometryType,
    pub fields: Vec<ServiceField>,
    pub oid_field: Option<String>,
    /// The largest and the smallest identifier, in that order.
    pub max_min_oid: Option<(i32, i32)>,
    pub source_spatial_reference: Option<i32>,
    pub output_spatial_reference: Option<i32>,
}

/// Whether the metadata response advertises offset pagination.
pub open spec fn json_pagination(m: RestServiceJsonMetadata) -> bool {
    m.supports_pagination == Some(true) || capability_set(
        m.advanced_query_capabilities,
        "supportsPagination"@,
    )
}

/// Whether the metadata response advertises statistics queries.
pub open spec fn json_statistics(m: RestServiceJsonMetadata) -> bool {
    m.supports_statistics == Some(true) || capability_set(
        m.advanced_query_capabilities,
        "supportsStatistics"@,
    )
}

/// The number of records one query asks for.
pub open spec fn scrape_count_of(max_record_count: i32) -> i32 {
    if max_record_count <= MAX_SCRAPE_COUNT {
        max_record_count
    } else {
        MAX_SCRAPE_COUNT
    }
}

/// Whether a service's identifiers run without gaps from the smallest to the
/// largest, judged from the record count.
pub open spec fn incremental_oid_spec(m: RestServiceMetadata) -> bool {
    match (m.oid_field, m.max_min_oid) {
        (Some(_), Some((max, min))) => m.source_count == max - min + 1,
        _ => false,
    }
}

impl RestServiceJsonMetadata {
    /// The identifier bounds query a service needs before it can be planned:
    /// one exactly when it does not page by offset and has an identifier field.
    pub fn bounds_query(&self) -> (r: Option<BoundsQuery>)
        ensures
            match r {
                Some(q) => !json_pagination(*self) && resolved_oid_field(
                    self.fields@,
                    self.oid_field,
                ) == Some(q.oid_field@) && q.use_statistics == json_statistics(*self),
                None => json_pagination(*self) || resolved_oid_field(
                    self.fields@,
                    self.oid_field,
                ) is None,
            },
    {
        if self.supports_pagination() {
            return None;
        }
        match resolve_oid_field(&self.fields, &self.oid_field) {
            Some(oid_field) => Some(BoundsQuery { oid_field, use_statistics: self.supports_statistics() }),
            None => None,
        }
    }
}

impl RestServiceMetadata {
    /// The description of a service from its metadata response, its record
    /// count, its identifier bounds (largest, smallest) where they were read,
    /// and the spatial reference the output is asked in.
    pub fn from_json(
        url: String,
        json: RestServiceJsonMetadata,
        source_count: i32,
        max_min_oid: Option<(i32, i32)>,
        output_spatial_reference: Option<i32>,
    ) -> (r: RestServiceMetadata)
        ensures
            r.url == url,
            r.name == json.name,
            r.source_count == source_count,
            r.max_record_count == json.max_record_count,
            r.pagination_enabled == json_pagination(json),
            r.server_type == json.server_type,
            r.geo_type == json.geo_type,
            r.fields == json.fields,
            match r.oid_field {
                Some(s) => resolved_oid_field(json.fields@, json.oid_field) == Some(s@),
                None => resolved_oid_field(json.fields@, json.oid_field) is None,
            },
            r.max_min_oid == max_min_oid,
            r.source_spatial_reference == match json.source_spatial_reference {
                Some(sr) => Some(sr.wk_id),
                None => None::<i32>,
            },
            r.output_spatial_reference == output_spatial_reference,
    {
        let pagination_enabled = json.supports_pagination();
        let oid_field = resolve_oid_field(&json.fields, &json.oid_field);
        let source_spatial_reference = match json.source_spatial_reference {
            Some(sr) => Some(sr.wk_id),
            None => None,
        };
        RestServiceMetadata {
            url,
            name: json.name,
            source_count,
            max_record_count: json.max_record_count,
            pagination_enabled,
            server_type: json.server_type,
            geo_type: json.geo_type,
            fields: json.fields,
            oid_field,
            max_min_oid,
            source_spatial_reference,
            output_spatial_reference,
        }
    }

    /// The number of records one query asks for: the advertised maximum,
    /// capped at `MAX_SCRAPE_COUNT`.
    pub fn scrape_count(&self) -> (r: i32)
        ensures
            r == scrape_count_of(self.max_record_count),
    {
        if self.max_record_count <= MAX_SCRAPE_COUNT {
            self.max_record_count
        } else {
            MAX_SCRAPE_COUNT
        }
    }

    /// Whether the service is a table, without geometry.
    pub fn is_table(&self) -> (r: bool)
        ensures
            r == (self.server_type@ == "TABLE"@),
    {
        same_text(self.server_type.as_str(), "TABLE")
    }

    /// Whether the identifiers run without gaps from the smallest to the
    /// largest: the count of records equals the width of the bounds. A
    /// diagnostic only; planning does not depend on it.
    pub fn incremental_oid(&self) -> (r: bool)
        ensures
            r == incremental_oid_spec(*self),
    {
        match (&self.oid_field, self.max_min_oid) {
            (Some(_), Some((max, min))) => {
                let width: i64 = max as i64 - min as i64 + 1;
                self.source_count as i64 == width
            },
            _ => false,
        }
    }
}

} // verus!
