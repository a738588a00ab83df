//! Query planning: cutting a service's record set into chunks of bounded
//! size, and rendering the query address of each chunk.
use vstd::prelude::*;
use crate::metadata::{
    RestServiceMetadata, RestServiceMetadataError, geometry_type_name, scrape_count_of,
    out_statistics_parameter, statistics_parameter_text, json_quoted,
};
use crate::text::{int_text, int_to_text};
use vstd::arithmetic::div_mod::{lemma_fundamental_div_mod, lemma_mod_pos_bound, lemma_div_pos_is_pos};

verus! {

/// The serialization a run asks the service for.
#[derive(Debug, Clone, Copy, PartialEq, Eq, Structural)]
pub enum OutputFormat {
    Csv,
    GeoJson,
}

/// The value of the `f` query parameter for a format.
pub open spec fn format_param(f: OutputFormat) -> Seq<char> {
    match f {
        OutputFormat::Csv => "json"@,
        OutputFormat::GeoJson => "geojson"@,
    }
}

/// One planned unit of work.
#[derive(Debug, Clone, Copy, PartialEq, Eq, Structural)]
pub enum ChunkSpec {
    /// `limit` records from position `offset` on.
    Offset { offset: i64, limit: i64 },
    /// The records whose identifier lies in `lower..=upper`.
    IdRange { lower: i64, upper: i64 },
}

/// The number of chunks of `size` records that cover `count` records.
pub open spec fn chunk_count(count: int, size: int) -> int {
    if count <= 0 {
        0
    } else {
        (count + size - 1) / size
    }
}

/// `chunk_count` chunks of `size` records hold at least `count` records,
/// and fewer than `count + size`.
pub proof fn lemma_chunk_count_bounds(count: int, size: int)
    requires
        size > 0,
    ensures
        chunk_count(count, size) >= 0,
        count > 0 ==> count <= chunk_count(count, size) * size < count + size,
        count <= 0 ==> chunk_count(count, size) == 0,
{
    if count > 0 {
        let x = count + size - 1;
        lemma_fundamental_div_mod(x, size);
        lemma_mod_pos_bound(x, size);
        lemma_div_pos_is_pos(x, size);
        assert(chunk_count(count, size) * size == x - x % size) by (nonlinear_arith)
            requires
                x == size * (x / size) + x % size,
                chunk_count(count, size) == x / size,
        ;
    }
}

/// Chunk `i` of a plan with chunks of `size` records.
pub open spec fn chunk_at(pagination: bool, size: int, min_id: int, i: int) -> ChunkSpec {
    if pagination {
        ChunkSpec::Offset { offset: (i * size) as i64, limit: size as i64 }
    } else {
        ChunkSpec::IdRange {
            lower: (min_id + i * size) as i64,
            upper: (min_id + i * size + size - 1) as i64,
        }
    }
}

/// The ordered chunks that cover `count` records, by offset or by identifier
/// range from `min_id` on.
pub open spec fn plan_spec(count: int, size: int, pagination: bool, min_id: int) -> Seq<ChunkSpec> {
    Seq::new(chunk_count(count, size) as nat, |i: int| chunk_at(pagination, size, min_id, i))
}

/// Whether a chunk asks for the record at position, or with identifier, `v`.
pub open spec fn chunk_contains(c: ChunkSpec, v: int) -> bool {
    match c {
        ChunkSpec::Offset { offset, limit } => offset <= v < offset + limit,
        ChunkSpec::IdRange { lower, upper } => lower <= v <= upper,
    }
}

/// Whether some chunk of a plan asks for `v`.
pub open spec fn plan_covers(plan: Seq<ChunkSpec>, v: int) -> bool {
    exists|i: int| 0 <= i < plan.len() && #[trigger] chunk_contains(plan[i], v)
}

/// Where the chunks of a plan start counting: position 0, or the smallest
/// identifier.
pub open spec fn plan_base(pagination: bool, min_id: int) -> int {
    if pagination {
        0
    } else {
        min_id
    }
}

/// A plan covers its range with no gap and no overlap: the chunks together
/// hold exactly the values from the base up to `chunk_count * size`, each
/// value in one chunk only, and that span holds all `count` records with
/// less than one chunk to spare. So an offset plan asks for every position
/// below `count` once, and an identifier plan asks once for every identifier
/// from the smallest up to the largest whenever the largest lies below
/// `min_id + chunk_count * size`, as it does when identifiers run without gaps.
pub proof fn lemma_plan_covers_exactly(count: int, size: int, pagination: bool, min_id: int)
    requires
        0 < size <= i32::MAX,
        count <= i32::MAX,
        i32::MIN <= min_id <= i32::MAX,
    ensures
        ({
            let plan = plan_spec(count, size, pagination, min_id);
            let base = plan_base(pagination, min_id);
            &&& forall|v: int| #[trigger]
                plan_covers(plan, v) <==> base <= v < base + plan.len() * size
            &&& forall|i: int, j: int, v: int|
                0 <= i < plan.len() && 0 <= j < plan.len() && #[trigger] chunk_contains(plan[i], v)
                    && #[trigger] chunk_contains(plan[j], v) ==> i == j
            &&& count > 0 ==> count <= plan.len() * size < count + size
            &&& count <= 0 ==> plan.len() == 0
        }),
{
    let plan = plan_spec(count, size, pagination, min_id);
    let base = plan_base(pagination, min_id);
    let n = chunk_count(count, size);
    lemma_chunk_count_bounds(count, size);
    assert forall|i: int, v: int| 0 <= i < n implies #[trigger] chunk_contains(plan[i], v) <==> (
    base + i * size <= v < base + i * size + size) by {
        assert(0 <= i * size < n * size) by (nonlinear_arith)
            requires
                0 <= i < n,
                size > 0,
        ;
    }
    assert forall|v: int| base <= v < base + plan.len() * size implies #[trigger] plan_covers(
        plan,
        v,
    ) by {
        let i = (v - base) / size;
        lemma_fundamental_div_mod(v - base, size);
        lemma_mod_pos_bound(v - base, size);
        assert(0 <= i < n) by (nonlinear_arith)
            requires
                0 <= v - base < n * size,
                v - base == size * i + (v - base) % size,
                0 <= (v - base) % size < size,
                size > 0,
        ;
        assert(chunk_contains(plan[i], v));
    }
    assert forall|v: int| #[trigger] plan_covers(plan, v) implies base <= v < base + plan.len()
        * size by {
        let i = choose|i: int| 0 <= i < plan.len() && #[trigger] chunk_contains(plan[i], v);
        assert(i * size + size <= n * size) by (nonlinear_arith)
            requires
                0 <= i < n,
                size > 0,
        ;
    }
    assert forall|i: int, j: int, v: int|
        0 <= i < plan.len() && 0 <= j < plan.len() && #[trigger] chunk_contains(plan[i], v)
            && #[trigger] chunk_contains(plan[j], v) implies i == j by {
        assert(i == j) by (nonlinear_arith)
            requires
                i * size <= v - base < i * size + size,
                j * size <= v - base < j * size + size,
                size > 0,
        ;
    }
}

/// Cuts `record_count` records into chunks of `chunk_size`, in ascending
/// order: by offset where the service pages, else by identifier range from
/// `min_id` on. The last chunk may reach past the last record.
pub fn plan_chunks(record_count: i32, chunk_size: i32, pagination: bool, min_id: i32) -> (r: Vec<
    ChunkSpec,
>)
    requires
        chunk_size > 0,
    ensures
        r@ == plan_spec(record_count as int, chunk_size as int, pagination, min_id as int),
{
    let size: i64 = chunk_size as i64;
    let n: i64 = if record_count <= 0 {
        0
    } else {
        (record_count as i64 + size - 1) / size
    };
    proof {
        lemma_chunk_count_bounds(record_count as int, size as int);
        assert(n == chunk_count(record_count as int, size as int));
    }
    let mut r: Vec<ChunkSpec> = Vec::new();
    let mut i: i64 = 0;
    while i < n
        invariant
            0 <= i <= n,
            n == chunk_count(record_count as int, chunk_size as int),
            size == chunk_size,
            size > 0,
            n == 0 || n * size < record_count + size,
            r@ == plan_spec(record_count as int, chunk_size as int, pagination, min_id as int).subrange(
                0,
                i as int,
            ),
        decreases n - i,
    {
        assert(i * size < n * size) by (nonlinear_arith)
            requires
                i < n,
                size > 0,
        ;
        assert(i * size >= 0) by (nonlinear_arith)
            requires
                i >= 0,
                size > 0,
        ;
        let start: i64 = i * size;
        let chunk = if pagination {
            ChunkSpec::Offset { offset: start, limit: size }
        } else {
            ChunkSpec::IdRange { lower: min_id as i64 + start, upper: min_id as i64 + start + size - 1 }
        };
        r.push(chunk);
        i = i + 1;
        assert(r@ =~= plan_spec(record_count as int, chunk_size as int, pagination, min_id as int).subrange(
            0,
            i as int,
        ));
    }
    r
}

/// A query parameter as plain text: name and value.
pub type ParamView = (Seq<char>, Seq<char>);

/// The text of each query parameter.
pub open spec fn pairs_view(params: Seq<(String, String)>) -> Seq<ParamView> {
    params.map_values(|p: (String, String)| (p.0@, p.1@))
}

/// The address that `reqwest::Url::parse_with_params` makes of a base
/// address and query parameters, or `None` where the base does not parse.
pub uninterp spec fn query_url(base: Seq<char>, params: Seq<ParamView>) -> Option<Seq<char>>;

/// The most characters, counting two per parameter, that a query address is
/// built from.
pub const MAX_URL_INPUT: u64 = 0x1000_0000;

/// The characters of the parameters, counting two more per parameter.
pub open spec fn params_size(params: Seq<ParamView>) -> int
    decreases params.len(),
{
    if params.len() == 0 {
        0
    } else {
        params_size(params.drop_last()) + params.last().0.len() + params.last().1.len() + 2
    }
}

/// The characters that a query address is built from.
pub open spec fn url_input_size(base: Seq<char>, params: Seq<ParamView>) -> int {
    base.len() + params_size(params)
}

/// The query address for a base address and parameters: `None` where the
/// base does not parse or the input exceeds `MAX_URL_INPUT`.
pub open spec fn rendered_url(base: Seq<char>, params: Seq<ParamView>) -> Option<Seq<char>> {
    if url_input_size(base, params) <= MAX_URL_INPUT {
        query_url(base, params)
    } else {
        None
    }
}

proof fn lemma_params_size_prefix(params: Seq<ParamView>, i: int)
    requires
        0 <= i <= params.len(),
    ensures
        0 <= params_size(params.subrange(0, i)) <= params_size(params),
    decreases params.len(),
{
    if i < params.len() {
        lemma_params_size_prefix(params.drop_last(), i);
        assert(params.drop_last().subrange(0, i) =~= params.subrange(0, i));
    } else {
        assert(params.subrange(0, i) =~= params);
    }
    if params.len() > 0 {
        lemma_params_size_prefix(params.drop_last(), 0);
    }
}

/// Builds the address for a base address and query parameters.
///
/// Relies on reqwest's `Url::parse_with_params` (from the url crate): it
/// parses the base and appends the parameters form-encoded, and the address
/// is its serialization, a function of the arguments alone. It panics only
/// where the serialization outgrows 32-bit offsets: at most twelve bytes per
/// character and three per parameter, which the size bound keeps far below.
#[verifier::external_body]
fn parse_with_params(base: &str, params: &Vec<(String, String)>) -> (r: Option<String>)
    requires
        url_input_size(base@, pairs_view(params@)) <= MAX_URL_INPUT,
    ensures
        match r {
            Some(u) => query_url(base@, pairs_view(params@)) == Some(u@),
            None => query_url(base@, pairs_view(params@)) is None,
        },
{
    reqwest::Url::parse_with_params(base, params.iter()).ok().map(String::from)
}

/// Whether the address built from `base` and `params` stays within
/// `MAX_URL_INPUT`.
fn url_input_fits(base: &str, params: &Vec<(String, String)>) -> (r: bool)
    ensures
        r == (url_input_size(base@, pairs_view(params@)) <= MAX_URL_INPUT),
{
    let ghost pv = pairs_view(params@);
    let base_len = base.unicode_len();
    if base_len as u64 > MAX_URL_INPUT {
        proof {
            lemma_params_size_prefix(pv, 0);
        }
        return false;
    }
    let mut total: u64 = base_len as u64;
    let mut i: usize = 0;
    while i < params.len()
        invariant
            i <= params.len(),
            pv == pairs_view(params@),
            total == base@.len() + params_size(pv.subrange(0, i as int)),
            total <= MAX_URL_INPUT,
        decreases params.len() - i,
    {
        let k = params[i].0.as_str().unicode_len();
        let v = params[i].1.as_str().unicode_len();
        proof {
            assert(pv.subrange(0, i + 1).drop_last() =~= pv.subrange(0, i as int));
        }
        if k as u64 > MAX_URL_INPUT || v as u64 > MAX_URL_INPUT || total + k as u64 + v as u64 + 2
            > MAX_URL_INPUT {
            proof {
                lemma_params_size_prefix(pv, i + 1);
                lemma_params_size_prefix(pv, i as int);
            }
            return false;
        }
        total = total + k as u64 + v as u64 + 2;
        i = i + 1;
    }
    assert(pv.subrange(0, i as int) =~= pv);
    true
}

/// Renders the address for a base address and query parameters.
pub fn render_url(base: &str, params: &Vec<(String, String)>) -> (r: Result<
    String,
    RestServiceMetadataError,
>)
    ensures
        match rendered_url(base@, pairs_view(params@)) {
            Some(u) => r is Ok && r->Ok_0@ == u,
            None => r == Err::<String, RestServiceMetadataError>(
                RestServiceMetadataError::InvalidUrl,
            ),
        },
{
    if !url_input_fits(base, params) {
        return Err(RestServiceMetadataError::InvalidUrl);
    }
    match parse_with_params(base, params) {
        Some(u) => Ok(u),
        None => Err(RestServiceMetadataError::InvalidUrl),
    }
}

fn param(name: &str, value: String) -> (r: (String, String))
    ensures
        r.0@ == name@,
        r.1@ == value@,
{
    (name.to_owned(), value)
}

/// The address of a service's query endpoint.
pub open spec fn query_base(url: Seq<char>) -> Seq<char> {
    url + "/query"@
}

fn query_endpoint(url: &str) -> (r: String)
    ensures
        r@ == query_base(url@),
{
    let mut s = url.to_owned();
    s.append("/query");
    s
}

/// The address that reads a service's metadata.
pub fn metadata_url(url: &str) -> (r: Result<String, RestServiceMetadataError>)
    ensures
        match rendered_url(url@, seq![("f"@, "json"@)]) {
            Some(u) => r is Ok && r->Ok_0@ == u,
            None => r is Err && r->Err_0 == RestServiceMetadataError::InvalidUrl,
        },
{
    let params = vec![param("f", "json".to_owned())];
    assert(pairs_view(params@) =~= seq![("f"@, "json"@)]);
    render_url(url, &params)
}

/// The address that asks a service for its record count.
pub fn count_query_url(url: &str) -> (r: Result<String, RestServiceMetadataError>)
    ensures
        match rendered_url(
            query_base(url@),
            seq![("where"@, "1=1"@), ("returnCountOnly"@, "true"@), ("f"@, "json"@)],
        ) {
            Some(u) => r is Ok && r->Ok_0@ == u,
            None => r is Err && r->Err_0 == RestServiceMetadataError::InvalidUrl,
        },
{
    let params = vec![
        param("where", "1=1".to_owned()),
        param("returnCountOnly", "true".to_owned()),
        param("f", "json".to_owned()),
    ];
    assert(pairs_view(params@) =~= seq![
        ("where"@, "1=1"@),
        ("returnCountOnly"@, "true"@),
        ("f"@, "json"@),
    ]);
    render_url(query_endpoint(url).as_str(), &params)
}

/// The address that asks a service for all its identifiers.
pub fn object_ids_url(url: &str) -> (r: Result<String, RestServiceMetadataError>)
    ensures
        match rendered_url(
            query_base(url@),
            seq![("where"@, "1=1"@), ("returnIdsOnly"@, "true"@), ("f"@, "json"@)],
        ) {
            Some(u) => r is Ok && r->Ok_0@ == u,
            None => r is Err && r->Err_0 == RestServiceMetadataError::InvalidUrl,
        },
{
    let params = vec![
        param("where", "1=1".to_owned()),
        param("returnIdsOnly", "true".to_owned()),
        param("f", "json".to_owned()),
    ];
    assert(pairs_view(params@) =~= seq![
        ("where"@, "1=1"@),
        ("returnIdsOnly"@, "true"@),
        ("f"@, "json"@),
    ]);
    render_url(query_endpoint(url).as_str(), &params)
}

/// The address that asks a service for the largest and the smallest value of
/// its identifier field.
pub fn statistics_url(url: &str, oid_field_name: &str) -> (r: Result<
    String,
    RestServiceMetadataError,
>)
    ensures
        match rendered_url(
            query_base(url@),
            seq![
                ("outStatistics"@, statistics_parameter_text(json_quoted(oid_field_name@))),
                ("f"@, "json"@),
            ],
        ) {
            Some(u) => r is Ok && r->Ok_0@ == u,
            None => r is Err && r->Err_0 == RestServiceMetadataError::InvalidUrl,
        },
{
    let params = vec![
        param("outStatistics", out_statistics_parameter(oid_field_name)),
        param("f", "json".to_owned()),
    ];
    assert(pairs_view(params@) =~= seq![
        ("outStatistics"@, statistics_parameter_text(json_quoted(oid_field_name@))),
        ("f"@, "json"@),
    ]);
    render_url(query_endpoint(url).as_str(), &params)
}

/// Whether a service is a table, without geometry.
pub open spec fn is_table_spec(m: RestServiceMetadata) -> bool {
    m.server_type@ == "TABLE"@
}

/// The spatial reference the output is asked in: the requested one, else the
/// service's own.
pub open spec fn out_spatial_reference(m: RestServiceMetadata) -> Option<i32> {
    match m.output_spatial_reference {
        Some(sr) => Some(sr),
        None => m.source_spatial_reference,
    }
}

/// The geometry parameters of a service's queries: none for a table, else
/// the geometry type and the output spatial reference; `None` where geometry
/// is needed and no spatial reference is known.
pub open spec fn geometry_params(m: RestServiceMetadata) -> Option<Seq<ParamView>> {
    if is_table_spec(m) {
        Some(Seq::empty())
    } else {
        match out_spatial_reference(m) {
            Some(sr) => Some(
                seq![("geometryType"@, geometry_type_name(m.geo_type)), ("outSR"@, int_text(sr as int))],
            ),
            None => None,
        }
    }
}

/// The filter that selects the identifiers `lower..=upper` of `field`.
pub open spec fn id_range_filter(field: Seq<char>, lower: int, upper: int) -> Seq<char> {
    field + " >= "@ + int_text(lower) + " and "@ + field + " <= "@ + int_text(upper)
}

/// The parameters of the query for one chunk, given the geometry parameters.
pub open spec fn chunk_params(
    m: RestServiceMetadata,
    c: ChunkSpec,
    f: OutputFormat,
    geometry: Seq<ParamView>,
) -> Seq<ParamView> {
    match c {
        ChunkSpec::Offset { offset, limit } => seq![
            ("where"@, "1=1"@),
            ("resultOffset"@, int_text(offset as int)),
            ("resultRecordCount"@, int_text(limit as int)),
            ("outFields"@, "*"@),
            ("f"@, format_param(f)),
        ] + geometry,
        ChunkSpec::IdRange { lower, upper } => seq![
            ("where"@, id_range_filter(m.oid_field->0@, lower as int, upper as int)),
            ("outFields"@, "*"@),
            ("f"@, format_param(f)),
        ] + geometry,
    }
}

/// The query address of one chunk, or why there is none.
pub open spec fn chunk_query_spec(m: RestServiceMetadata, c: ChunkSpec, f: OutputFormat) -> Result<
    Seq<char>,
    RestServiceMetadataError,
> {
    if c is IdRange && m.oid_field is None {
        Err(RestServiceMetadataError::MissingOidField)
    } else {
        match geometry_params(m) {
            None => Err(RestServiceMetadataError::MissingSpatialReference),
            Some(g) => match rendered_url(query_base(m.url@), chunk_params(m, c, f, g)) {
                Some(u) => Ok(u),
                None => Err(RestServiceMetadataError::InvalidUrl),
            },
        }
    }
}

/// Why a service cannot be planned at all, if it cannot.
pub open spec fn planning_error(m: RestServiceMetadata) -> Option<RestServiceMetadataError> {
    if !m.pagination_enabled && (m.oid_field is None || m.max_min_oid is None) {
        Some(RestServiceMetadataError::MissingOidField)
    } else if scrape_count_of(m.max_record_count) <= 0 {
        Some(RestServiceMetadataError::InvalidMaxRecordCount(m.max_record_count))
    } else if geometry_params(m) is None {
        Some(RestServiceMetadataError::MissingSpatialReference)
    } else {
        None
    }
}

/// The smallest identifier where a service is planned by identifier range.
pub open spec fn plan_min_id(m: RestServiceMetadata) -> int {
    if m.pagination_enabled {
        0
    } else {
        (m.max_min_oid->0).1 as int
    }
}

/// The chunks that a plannable service is cut into.
pub open spec fn plan_of(m: RestServiceMetadata) -> Seq<ChunkSpec> {
    plan_spec(
        m.source_count as int,
        scrape_count_of(m.max_record_count) as int,
        m.pagination_enabled,
        plan_min_id(m),
    )
}

/// The query addresses of a service's chunks, in plan order, or why there
/// are none: the service cannot be planned, or some chunk's address cannot
/// be built.
pub open spec fn planned_queries(m: RestServiceMetadata, f: OutputFormat) -> Result<
    Seq<Seq<char>>,
    RestServiceMetadataError,
> {
    match planning_error(m) {
        Some(e) => Err(e),
        None => {
            let plan = plan_of(m);
            if exists|i: int| 0 <= i < plan.len() && #[trigger] chunk_query_spec(m, plan[i], f) is Err {
                Err(RestServiceMetadataError::InvalidUrl)
            } else {
                Ok(Seq::new(plan.len(), |i: int| chunk_query_spec(m, plan[i], f)->Ok_0))
            }
        },
    }
}

/// The identifier field's name, if any.
pub open spec fn oid_name(m: RestServiceMetadata) -> Option<Seq<char>> {
    match m.oid_field {
        Some(s) => Some(s@),
        None => None,
    }
}

/// Two descriptions agree on everything that planning reads.
pub open spec fn same_planning_inputs(m1: RestServiceMetadata, m2: RestServiceMetadata) -> bool {
    &&& m1.url@ == m2.url@
    &&& m1.source_count == m2.source_count
    &&& m1.max_record_count == m2.max_record_count
    &&& m1.pagination_enabled == m2.pagination_enabled
    &&& m1.server_type@ == m2.server_type@
    &&& m1.geo_type == m2.geo_type
    &&& oid_name(m1) == oid_name(m2)
    &&& m1.max_min_oid == m2.max_min_oid
    &&& m1.source_spatial_reference == m2.source_spatial_reference
    &&& m1.output_spatial_reference == m2.output_spatial_reference
}

/// Planning is a function of the description: two descriptions that agree
/// on what planning reads (identical ones among them) give the same chunks
/// and the same query addresses, in the same order, or the same error.
pub proof fn lemma_planning_deterministic(
    m1: RestServiceMetadata,
    m2: RestServiceMetadata,
    f: OutputFormat,
)
    requires
        same_planning_inputs(m1, m2),
    ensures
        plan_of(m1) == plan_of(m2),
        planned_queries(m1, f) == planned_queries(m2, f),
{
    assert(plan_of(m1) =~= plan_of(m2));
    assert forall|c: ChunkSpec|
        #![trigger chunk_query_spec(m1, c, f)]
        #![trigger chunk_query_spec(m2, c, f)]
        chunk_query_spec(m1, c, f) == chunk_query_spec(m2, c, f) by {
        if m1.oid_field is Some {
            assert(m1.oid_field->0@ == m2.oid_field->0@);
        }
        assert(geometry_params(m1) == geometry_params(m2));
        if geometry_params(m1) is Some {
            let g = geometry_params(m1)->0;
            assert(chunk_params(m1, c, f, g) == chunk_params(m2, c, f, g));
        }
    }
    assert(m1.oid_field is None <==> m2.oid_field is None);
    assert(planning_error(m1) == planning_error(m2));
    if planning_error(m1) is None {
        let plan = plan_of(m1);
        assert((exists|i: int| 0 <= i < plan.len() && #[trigger] chunk_query_spec(m1, plan[i], f) is Err)
            == (exists|i: int| 0 <= i < plan.len() && #[trigger] chunk_query_spec(m2, plan[i], f) is Err));
        assert(Seq::new(plan.len(), |i: int| chunk_query_spec(m1, plan[i], f)->Ok_0) =~= Seq::new(
            plan.len(),
            |i: int| chunk_query_spec(m2, plan[i], f)->Ok_0,
        ));
    }
}

/// A plannable service whose identifiers run without gaps is covered by its
/// identifier ranges: together they hold exactly the identifiers from the
/// smallest up to the upper bound of the last range, each in one range only,
/// and that bound reaches the largest identifier and passes it by less than
/// one chunk, so only the last range reaches past the largest identifier.
pub proof fn lemma_incremental_ids_covered(m: RestServiceMetadata)
    requires
        !m.pagination_enabled,
        planning_error(m) is None,
        m.source_count > 0,
        m.max_min_oid matches Some((max, min)) && max - min + 1 == m.source_count,
    ensures
        ({
            let plan = plan_of(m);
            let size = scrape_count_of(m.max_record_count) as int;
            let (max, min) = m.max_min_oid->0;
            let hi = min + plan.len() * size - 1;
            &&& forall|v: int| #[trigger] plan_covers(plan, v) <==> min <= v <= hi
            &&& forall|i: int, j: int, v: int|
                0 <= i < plan.len() && 0 <= j < plan.len() && #[trigger] chunk_contains(plan[i], v)
                    && #[trigger] chunk_contains(plan[j], v) ==> i == j
            &&& max <= hi < max + size
            &&& plan.len() > 0 && plan.last() == ChunkSpec::IdRange {
                lower: (hi - size + 1) as i64,
                upper: hi as i64,
            }
        }),
{
    let size = scrape_count_of(m.max_record_count) as int;
    let (max, min) = m.max_min_oid->0;
    lemma_plan_covers_exactly(m.source_count as int, size, false, min as int);
    let plan = plan_of(m);
    assert(plan.len() > 0);
    let n = plan.len() as int;
    assert(plan[n - 1] == chunk_at(false, size, min as int, n - 1));
    assert(min + (n - 1) * size + size - 1 == min + n * size - 1) by (nonlinear_arith);
}

/// A plannable service with no records gives no chunks and no queries.
pub proof fn lemma_empty_service_plans_nothing(m: RestServiceMetadata, f: OutputFormat)
    requires
        m.source_count == 0,
        planning_error(m) is None,
    ensures
        plan_of(m).len() == 0,
        planned_queries(m, f) == Ok::<Seq<Seq<char>>, RestServiceMetadataError>(Seq::empty()),
{
    assert(Seq::new(0, |i: int| chunk_query_spec(m, plan_of(m)[i], f)->Ok_0) =~= Seq::<
        Seq<char>,
    >::empty());
}

impl RestServiceMetadata {
    /// The geometry parameters of this service's queries.
    pub fn geometry_options(&self) -> (r: Result<Vec<(String, String)>, RestServiceMetadataError>)
        ensures
            match geometry_params(*self) {
                Some(g) => r is Ok && pairs_view(r->Ok_0@) == g,
                None => r is Err && r->Err_0 == RestServiceMetadataError::MissingSpatialReference,
            },
    {
        if self.is_table() {
            let v: Vec<(String, String)> = Vec::new();
            assert(pairs_view(v@) =~= Seq::<ParamView>::empty());
            return Ok(v);
        }
        let sr = match self.output_spatial_reference {
            Some(sr) => sr,
            None => match self.source_spatial_reference {
                Some(sr) => sr,
                None => {
                    return Err(RestServiceMetadataError::MissingSpatialReference);
                },
            },
        };
        let v = vec![
            param("geometryType", self.geo_type.esri_name()),
            param("outSR", int_to_text(sr as i64)),
        ];
        assert(pairs_view(v@) =~= seq![
            ("geometryType"@, geometry_type_name(self.geo_type)),
            ("outSR"@, int_text(sr as int)),
        ]);
        Ok(v)
    }

    /// The query address of one chunk.
    pub fn chunk_query(&self, chunk: &ChunkSpec, format: OutputFormat) -> (r: Result<
        String,
        RestServiceMetadataError,
    >)
        ensures
            match chunk_query_spec(*self, *chunk, format) {
                Ok(u) => r is Ok && r->Ok_0@ == u,
                Err(e) => r is Err && r->Err_0 == e,
            },
    {
        let f = match format {
            OutputFormat::Csv => "json".to_owned(),
            OutputFormat::GeoJson => "geojson".to_owned(),
        };
        let mut params = match chunk {
            ChunkSpec::Offset { offset, limit } => {
                let v = vec![
                    param("where", "1=1".to_owned()),
                    param("resultOffset", int_to_text(*offset)),
                    param("resultRecordCount", int_to_text(*limit)),
                    param("outFields", "*".to_owned()),
                    param("f", f),
                ];
                v
            },
            ChunkSpec::IdRange { lower, upper } => {
                let field = match &self.oid_field {
                    Some(name) => name,
                    None => {
                        return Err(RestServiceMetadataError::MissingOidField);
                    },
                };
                let mut filter = field.clone();
                filter.append(" >= ");
                filter.append(int_to_text(*lower).as_str());
                filter.append(" and ");
                filter.append(field.as_str());
                filter.append(" <= ");
                filter.append(int_to_text(*upper).as_str());
                let v = vec![
                    param("where", filter),
                    param("outFields", "*".to_owned()),
                    param("f", f),
                ];
                v
            },
        };
        let ghost head = pairs_view(params@);
        let mut geometry = self.geometry_options()?;
        let ghost g = pairs_view(geometry@);
        params.append(&mut geometry);
        assert(pairs_view(params@) =~= head + g);
        assert(head + g =~= chunk_params(*self, *chunk, format, g));
        render_url(query_endpoint(self.url.as_str()).as_str(), &params)
    }

    /// The query addresses of all chunks of this service, in plan order.
    pub fn queries(&self, format: OutputFormat) -> (r: Result<
        Vec<String>,
        RestServiceMetadataError,
    >)
        ensures
            match planned_queries(*self, format) {
                Ok(qs) => r is Ok && r->Ok_0@.map_values(|q: String| q@) == qs,
                Err(e) => r is Err && r->Err_0 == e,
            },
    {
        let min_id: i32 = if self.pagination_enabled {
            0
        } else {
            match (&self.oid_field, self.max_min_oid) {
                (Some(_), Some((_, min))) => min,
                _ => {
                    return Err(RestServiceMetadataError::MissingOidField);
                },
            }
        };
        let size = self.scrape_count();
        if size <= 0 {
            return Err(RestServiceMetadataError::InvalidMaxRecordCount(self.max_record_count));
        }
        let _ = self.geometry_options()?;
        let plan = plan_chunks(self.source_count, size, self.pagination_enabled, min_id);
        let ghost gplan = plan_of(*self);
        assert(plan@ == gplan);
        let mut result: Vec<String> = Vec::new();
        let mut i: usize = 0;
        while i < plan.len()
            invariant
                i <= plan.len(),
                plan@ == gplan,
                gplan == plan_of(*self),
                planning_error(*self) is None,
                result@.len() == i,
                forall|j: int| 0 <= j < i ==> #[trigger] chunk_query_spec(*self, gplan[j], format) is Ok,
                forall|j: int|
                    0 <= j < i ==> #[trigger] result@[j]@ == chunk_query_spec(*self, gplan[j], format)->Ok_0,
            decreases plan.len() - i,
        {
            let q = self.chunk_query(&plan[i], format);
            proof {
                if !self.pagination_enabled {
                    assert(self.oid_field is Some);
                } else {
                    assert(gplan[i as int] is Offset);
                }
                assert(geometry_params(*self) is Some);
            }
            match q {
                Ok(u) => {
                    result.push(u);
                    assert(result@[i as int]@ == chunk_query_spec(*self, gplan[i as int], format)->Ok_0);
                },
                Err(e) => {
                    assert(chunk_query_spec(*self, gplan[i as int], format) is Err);
                    assert(e == RestServiceMetadataError::InvalidUrl);
                    return Err(e);
                },
            }
            i = i + 1;
        }
        assert(!exists|j: int| 0 <= j < gplan.len() && #[trigger] chunk_query_spec(*self, gplan[j], format) is Err);
        assert(result@.map_values(|q: String| q@) =~= Seq::new(
            gplan.len(),
            |j: int| chunk_query_spec(*self, gplan[j], format)->Ok_0,
        ));
        Ok(result)
    }
}

} // verus!
