use rest_scraper::metadata::{
    coded_to_map, max_min_from_object_ids, max_min_from_statistics, out_statistics_parameter,
    resolve_oid_field, CodedValue, FieldDomain, RestServiceFieldType, RestServiceGeometryType,
    RestServiceJsonMetadata, RestServiceMetadata, RestServiceMetadataError, ServiceField,
    SpatialReference,
};
use rest_scraper::planner::{
    count_query_url, metadata_url, object_ids_url, plan_chunks, render_url, statistics_url,
    ChunkSpec, OutputFormat,
};
use rest_scraper::text::{int_to_text, same_text, TextMap};

const BASE: &str = "https://example.com/arcgis/rest/services/Wells/FeatureServer/0";

fn field(name: &str, field_type: RestServiceFieldType) -> ServiceField {
    ServiceField {
        name: name.to_owned(),
        field_type,
        alias: name.to_owned(),
        domain: None,
    }
}

fn service(count: i32, max_record_count: i32, pagination: bool) -> RestServiceMetadata {
    RestServiceMetadata {
        url: BASE.to_owned(),
        name: "Wells".to_owned(),
        source_count: count,
        max_record_count,
        pagination_enabled: pagination,
        server_type: "Feature Layer".to_owned(),
        geo_type: RestServiceGeometryType::Point,
        fields: vec![field("OBJECTID", RestServiceFieldType::OID)],
        oid_field: Some("OBJECTID".to_owned()),
        max_min_oid: Some((20, 1)),
        source_spatial_reference: Some(4326),
        output_spatial_reference: None,
    }
}

#[test]
fn offset_plan_covers_every_record_once() {
    let plan = plan_chunks(25, 10, true, 0);
    assert_eq!(
        plan,
        vec![
            ChunkSpec::Offset { offset: 0, limit: 10 },
            ChunkSpec::Offset { offset: 10, limit: 10 },
            ChunkSpec::Offset { offset: 20, limit: 10 },
        ]
    );
}

#[test]
fn identifier_plan_uses_inclusive_ranges() {
    let plan = plan_chunks(20, 10, false, 5);
    assert_eq!(
        plan,
        vec![
            ChunkSpec::IdRange { lower: 5, upper: 14 },
            ChunkSpec::IdRange { lower: 15, upper: 24 },
        ]
    );
}

#[test]
fn empty_service_plans_no_chunk() {
    assert!(plan_chunks(0, 10, true, 0).is_empty());
    assert!(plan_chunks(0, 10, false, 1).is_empty());
    let queries = service(0, 1000, true).queries(OutputFormat::GeoJson).unwrap();
    assert!(queries.is_empty());
}

#[test]
fn exact_multiple_gives_no_extra_chunk() {
    let plan = plan_chunks(30, 10, true, 0);
    assert_eq!(plan.len(), 3);
    assert_eq!(plan[2], ChunkSpec::Offset { offset: 20, limit: 10 });
}

#[test]
fn scrape_count_is_capped() {
    assert_eq!(service(1, 20000, true).scrape_count(), 10000);
    assert_eq!(service(1, 2000, true).scrape_count(), 2000);
    assert_eq!(service(1, 10000, true).scrape_count(), 10000);
}

#[test]
fn pagination_queries_carry_offsets_and_geometry() {
    let queries = service(3, 2, true).queries(OutputFormat::GeoJson).unwrap();
    assert_eq!(
        queries,
        vec![
            format!("{}/query?where=1%3D1&resultOffset=0&resultRecordCount=2&outFields=*&f=geojson&geometryType=esriGeometryPoint&outSR=4326", BASE),
            format!("{}/query?where=1%3D1&resultOffset=2&resultRecordCount=2&outFields=*&f=geojson&geometryType=esriGeometryPoint&outSR=4326", BASE),
        ]
    );
}

#[test]
fn identifier_queries_filter_by_range() {
    let queries = service(3, 2, false).queries(OutputFormat::Csv).unwrap();
    assert_eq!(
        queries,
        vec![
            format!("{}/query?where=OBJECTID+%3E%3D+1+and+OBJECTID+%3C%3D+2&outFields=*&f=json&geometryType=esriGeometryPoint&outSR=4326", BASE),
            format!("{}/query?where=OBJECTID+%3E%3D+3+and+OBJECTID+%3C%3D+4&outFields=*&f=json&geometryType=esriGeometryPoint&outSR=4326", BASE),
        ]
    );
}

#[test]
fn planning_twice_gives_the_same_queries() {
    let s = service(45, 10, false);
    let first = s.queries(OutputFormat::GeoJson).unwrap();
    let second = s.clone().queries(OutputFormat::GeoJson).unwrap();
    assert_eq!(first.len(), 5);
    assert_eq!(first, second);
}

#[test]
fn requested_spatial_reference_overrides_source() {
    let mut s = service(1, 10, true);
    s.output_spatial_reference = Some(3857);
    s.source_spatial_reference = None;
    let queries = s.queries(OutputFormat::GeoJson).unwrap();
    assert!(queries[0].ends_with("&geometryType=esriGeometryPoint&outSR=3857"));
}

#[test]
fn table_queries_have_no_geometry() {
    let mut s = service(1, 10, true);
    s.server_type = "TABLE".to_owned();
    s.source_spatial_reference = None;
    let queries = s.queries(OutputFormat::Csv).unwrap();
    assert_eq!(
        queries,
        vec![format!("{}/query?where=1%3D1&resultOffset=0&resultRecordCount=10&outFields=*&f=json", BASE)]
    );
    assert!(s.is_table());
    assert!(s.geometry_options().unwrap().is_empty());
}

#[test]
fn missing_spatial_reference_fails_before_any_query() {
    let mut s = service(5, 10, true);
    s.source_spatial_reference = None;
    assert_eq!(s.queries(OutputFormat::GeoJson), Err(RestServiceMetadataError::MissingSpatialReference));
    assert_eq!(s.geometry_options(), Err(RestServiceMetadataError::MissingSpatialReference));
}

#[test]
fn missing_identifier_fails_without_pagination() {
    let mut s = service(5, 10, false);
    s.oid_field = None;
    assert_eq!(s.queries(OutputFormat::GeoJson), Err(RestServiceMetadataError::MissingOidField));
    let mut s = service(5, 10, false);
    s.max_min_oid = None;
    assert_eq!(s.queries(OutputFormat::GeoJson), Err(RestServiceMetadataError::MissingOidField));
}

#[test]
fn non_positive_record_limit_is_rejected() {
    let s = service(5, 0, true);
    assert_eq!(s.queries(OutputFormat::GeoJson), Err(RestServiceMetadataError::InvalidMaxRecordCount(0)));
}

#[test]
fn malformed_base_url_is_rejected() {
    let mut s = service(5, 10, true);
    s.url = "not a url".to_owned();
    assert_eq!(s.queries(OutputFormat::GeoJson), Err(RestServiceMetadataError::InvalidUrl));
    assert_eq!(render_url("::", &vec![]), Err(RestServiceMetadataError::InvalidUrl));
}

#[test]
fn metadata_addresses() {
    assert_eq!(metadata_url(BASE).unwrap(), format!("{}?f=json", BASE));
    assert_eq!(
        count_query_url(BASE).unwrap(),
        format!("{}/query?where=1%3D1&returnCountOnly=true&f=json", BASE)
    );
    assert_eq!(
        object_ids_url(BASE).unwrap(),
        format!("{}/query?where=1%3D1&returnIdsOnly=true&f=json", BASE)
    );
    let stats = statistics_url(BASE, "OBJECTID").unwrap();
    assert!(stats.starts_with(&format!("{}/query?outStatistics=%5B%7B", BASE)));
    assert!(stats.ends_with("&f=json"));
}

#[test]
fn statistics_parameter_names_the_field() {
    assert_eq!(
        out_statistics_parameter("OBJECTID"),
        "[{\"onStatisticField\":\"OBJECTID\",\"outStatisticFieldName\":\"MAX_VALUE\",\"statisticType\":\"max\"},{\"onStatisticField\":\"OBJECTID\",\"outStatisticFieldName\":\"MIN_VALUE\",\"statisticType\":\"min\"}]"
    );
    assert!(out_statistics_parameter("a\"b").contains("\"onStatisticField\":\"a\\\"b\""));
    assert!(out_statistics_parameter("a\\b\tc\u{1}d\u{1f}é").contains(
        "\"onStatisticField\":\"a\\\\b\\tc\\u0001d\\u001fé\""
    ));
}

#[test]
fn decimal_text_of_integers() {
    assert_eq!(int_to_text(0), "0");
    assert_eq!(int_to_text(4326), "4326");
    assert_eq!(int_to_text(-42), "-42");
    assert_eq!(int_to_text(i64::MIN), "-9223372036854775808");
    assert_eq!(int_to_text(i64::MAX), "9223372036854775807");
}

#[test]
fn text_comparison() {
    assert!(same_text("TABLE", "TABLE"));
    assert!(!same_text("TABLE", "Table"));
}

#[test]
fn incremental_identifiers() {
    let s = service(20, 10, false);
    assert!(s.incremental_oid());
    let s = service(19, 10, false);
    assert!(!s.incremental_oid());
    let mut s = service(20, 10, false);
    s.oid_field = None;
    assert!(!s.incremental_oid());
}

#[test]
fn identifier_field_resolution() {
    let fields = vec![
        field("NAME", RestServiceFieldType::String),
        field("FID", RestServiceFieldType::OID),
        field("OBJECTID", RestServiceFieldType::OID),
    ];
    assert_eq!(resolve_oid_field(&fields, &None), Some("FID".to_owned()));
    assert_eq!(resolve_oid_field(&fields, &Some("OBJECTID".to_owned())), Some("OBJECTID".to_owned()));
    assert_eq!(resolve_oid_field(&fields, &Some("GONE".to_owned())), None);
    assert_eq!(resolve_oid_field(&vec![field("NAME", RestServiceFieldType::String)], &None), None);
}

#[test]
fn identifier_bounds_from_lists() {
    assert_eq!(max_min_from_object_ids(&vec![3, 1, 7, 2]), Ok((7, 1)));
    assert_eq!(
        max_min_from_object_ids(&vec![]),
        Err(RestServiceMetadataError::InvalidResponse("No object ids in max min response".to_owned()))
    );
    assert_eq!(max_min_from_statistics(&vec![(90, 4), (1, 1)]), Ok((90, 4)));
    assert_eq!(
        max_min_from_statistics(&vec![]),
        Err(RestServiceMetadataError::InvalidResponse("No features in max min response".to_owned()))
    );
}

fn json_metadata(pagination: Option<bool>, caps: Option<TextMap<bool>>) -> RestServiceJsonMetadata {
    RestServiceJsonMetadata {
        name: "Wells".to_owned(),
        max_record_count: 2000,
        server_type: "Feature Layer".to_owned(),
        geo_type: RestServiceGeometryType::Point,
        fields: vec![field("OBJECTID", RestServiceFieldType::OID)],
        oid_field: None,
        source_spatial_reference: Some(SpatialReference { wk_id: 102100, latest_wk_id: 3857 }),
        supports_pagination: pagination,
        supports_statistics: None,
        advanced_query_capabilities: caps,
    }
}

#[test]
fn capabilities_come_from_either_flag() {
    assert!(json_metadata(Some(true), None).supports_pagination());
    assert!(!json_metadata(Some(false), None).supports_pagination());
    let mut caps = TextMap::new();
    caps.insert("supportsPagination".to_owned(), true);
    caps.insert("supportsStatistics".to_owned(), false);
    let m = json_metadata(None, Some(caps));
    assert!(m.supports_pagination());
    assert!(!m.supports_statistics());
    assert!(m.bounds_query().is_none());
    let q = json_metadata(None, None).bounds_query().unwrap();
    assert_eq!(q.oid_field, "OBJECTID");
    assert!(!q.use_statistics);
}

#[test]
fn descriptor_from_metadata_response() {
    let m = RestServiceMetadata::from_json(BASE.to_owned(), json_metadata(None, None), 120, Some((130, 11)), None);
    assert_eq!(m.source_count, 120);
    assert!(!m.pagination_enabled);
    assert_eq!(m.oid_field, Some("OBJECTID".to_owned()));
    assert_eq!(m.source_spatial_reference, Some(102100));
    assert_eq!(m.max_min_oid, Some((130, 11)));
}

#[test]
fn coded_values_later_entry_wins() {
    let table = coded_to_map(&vec![
        CodedValue { name: "Active".to_owned(), code: "1".to_owned() },
        CodedValue { name: "Plugged".to_owned(), code: "2".to_owned() },
        CodedValue { name: "Capped".to_owned(), code: "1".to_owned() },
    ]);
    assert_eq!(table.get("1"), Some(&"Capped".to_owned()));
    assert_eq!(table.get("2"), Some(&"Plugged".to_owned()));
    assert_eq!(table.get("3"), None);
    let f = ServiceField {
        name: "STATUS".to_owned(),
        field_type: RestServiceFieldType::String,
        alias: "Status".to_owned(),
        domain: Some(FieldDomain::Inherited),
    };
    assert!(f.is_coded().is_none());
}

#[test]
fn type_names() {
    assert_eq!(RestServiceGeometryType::Polygon.esri_name(), "esriGeometryPolygon");
    assert_eq!(RestServiceFieldType::SmallInteger.label(), "SmallInteger");
}
