use rest_scraper::assemble::{csv_chunk_text, csv_header_line, GeoJsonChunk, GeoJsonWriter};
use rest_scraper::csv::{csv_header, csv_line, csv_quote, csv_record, row_geometry, Feature};
use rest_scraper::encode::{convert_json_value, transform_properties, JsonValue};
use rest_scraper::metadata::{CodedValue, FieldDomain, RestServiceFieldType, RestServiceGeometryType, ServiceField};
use rest_scraper::text::TextMap;

fn plain(name: &str, field_type: RestServiceFieldType) -> ServiceField {
    ServiceField { name: name.to_owned(), field_type, alias: name.to_owned(), domain: None }
}

fn status_field() -> ServiceField {
    ServiceField {
        name: "STATUS".to_owned(),
        field_type: RestServiceFieldType::String,
        alias: "Status".to_owned(),
        domain: Some(FieldDomain::Coded {
            coded_values: vec![
                CodedValue { name: "Active".to_owned(), code: "1".to_owned() },
                CodedValue { name: "Plugged".to_owned(), code: "2".to_owned() },
            ],
        }),
    }
}

fn attrs(pairs: Vec<(&str, JsonValue)>) -> TextMap<JsonValue> {
    let mut m = TextMap::new();
    for (k, v) in pairs {
        m.insert(k.to_owned(), v);
    }
    m
}

fn point(x: &str, y: &str) -> Option<TextMap<JsonValue>> {
    Some(attrs(vec![("x", JsonValue::Number(x.to_owned())), ("y", JsonValue::Number(y.to_owned()))]))
}

/// Reads one CSV record, line end removed, as RFC 4180 describes.
fn read_record(line: &str) -> Vec<String> {
    let mut cells = vec![];
    let mut cell = String::new();
    let mut quoted = false;
    let mut chars = line.chars().peekable();
    let mut at_start = true;
    while let Some(c) = chars.next() {
        if quoted {
            if c == '"' {
                if chars.peek() == Some(&'"') {
                    chars.next();
                    cell.push('"');
                } else {
                    quoted = false;
                }
            } else {
                cell.push(c);
            }
        } else if c == ',' {
            cells.push(std::mem::take(&mut cell));
            at_start = true;
            continue;
        } else if c == '"' && at_start {
            quoted = true;
        } else {
            cell.push(c);
        }
        at_start = false;
    }
    cells.push(cell);
    cells
}

#[test]
fn value_conversion_rules() {
    assert_eq!(convert_json_value(&JsonValue::Null), "");
    assert_eq!(convert_json_value(&JsonValue::Bool(true)), "TRUE");
    assert_eq!(convert_json_value(&JsonValue::Bool(false)), "FALSE");
    assert_eq!(convert_json_value(&JsonValue::Number("12".to_owned())), "12");
    assert_eq!(convert_json_value(&JsonValue::Text("abc".to_owned())), "abc");
    assert_eq!(convert_json_value(&JsonValue::Structured("[1,2]".to_owned())), "[1,2]");
}

#[test]
fn coded_domain_expands_to_label() {
    let fields = vec![status_field()];
    let f = Feature { attributes: attrs(vec![("STATUS", JsonValue::Text("2".to_owned()))]), geometry: None };
    assert_eq!(csv_record(&fields, None, &f), vec!["2".to_owned(), "Plugged".to_owned()]);
    let f = Feature { attributes: attrs(vec![("STATUS", JsonValue::Text("9".to_owned()))]), geometry: None };
    assert_eq!(csv_record(&fields, None, &f), vec!["9".to_owned(), "".to_owned()]);
    assert_eq!(csv_header(&fields, None), vec!["STATUS".to_owned(), "STATUS_DESC".to_owned()]);
}

#[test]
fn coded_domain_in_geojson_properties() {
    let fields = vec![status_field(), plain("DEPTH", RestServiceFieldType::Double)];
    let props = attrs(vec![
        ("STATUS", JsonValue::Number("2".to_owned())),
        ("DEPTH", JsonValue::Null),
        ("OTHER", JsonValue::Bool(true)),
    ]);
    let out = transform_properties(&fields, &props);
    assert_eq!(out.get("STATUS"), Some(&JsonValue::Text("2".to_owned())));
    assert_eq!(out.get("STATUS_DESC"), Some(&JsonValue::Text("Plugged".to_owned())));
    assert_eq!(out.get("DEPTH"), Some(&JsonValue::Text("".to_owned())));
    assert_eq!(out.get("OTHER"), Some(&JsonValue::Text("TRUE".to_owned())));
    assert_eq!(out.get("DEPTH_DESC"), None);
}

#[test]
fn every_property_value_is_converted() {
    let props = attrs(vec![
        ("A", JsonValue::Null),
        ("B", JsonValue::Bool(false)),
        ("C", JsonValue::Number("1.5".to_owned())),
        ("D", JsonValue::Structured("{\"k\":1}".to_owned())),
    ]);
    let out = transform_properties(&vec![], &props);
    assert_eq!(out.get("A"), Some(&JsonValue::Text("".to_owned())));
    assert_eq!(out.get("B"), Some(&JsonValue::Text("FALSE".to_owned())));
    assert_eq!(out.get("C"), Some(&JsonValue::Text("1.5".to_owned())));
    assert_eq!(out.get("D"), Some(&JsonValue::Text("{\"k\":1}".to_owned())));
}

#[test]
fn absent_property_becomes_empty_text() {
    let fields = vec![status_field()];
    let out = transform_properties(&fields, &TextMap::new());
    assert_eq!(out.get("STATUS"), Some(&JsonValue::Text("".to_owned())));
    assert_eq!(out.get("STATUS_DESC"), Some(&JsonValue::Text("".to_owned())));
}

#[test]
fn point_geometry_is_flattened() {
    let fields = vec![plain("NAME", RestServiceFieldType::String)];
    let kind = row_geometry(false, RestServiceGeometryType::Point);
    let f = Feature { attributes: attrs(vec![("NAME", JsonValue::Text("well".to_owned()))]), geometry: point("10.5", "-20.1") };
    let line = csv_line(&csv_record(&fields, kind, &f));
    assert_eq!(line, "well,10.5,-20.1\n");
    assert!(line.trim_end().ends_with(",10.5,-20.1"));
    let f = Feature { attributes: attrs(vec![("NAME", JsonValue::Text("well".to_owned()))]), geometry: None };
    let line = csv_line(&csv_record(&fields, kind, &f));
    assert_eq!(line, "well,,\n");
    assert!(line.trim_end_matches('\n').ends_with(",,"));
}

#[test]
fn geometry_columns_by_kind() {
    let fields = vec![plain("A", RestServiceFieldType::Integer), plain("SHAPE", RestServiceFieldType::Geometry)];
    assert_eq!(csv_header(&fields, row_geometry(true, RestServiceGeometryType::Point)), vec!["A"]);
    assert_eq!(csv_header(&fields, Some(RestServiceGeometryType::Point)), vec!["A", "X", "Y"]);
    assert_eq!(csv_header(&fields, Some(RestServiceGeometryType::Multipoint)), vec!["A", "POINTS"]);
    assert_eq!(csv_header(&fields, Some(RestServiceGeometryType::Polyline)), vec!["A", "PATHS"]);
    assert_eq!(csv_header(&fields, Some(RestServiceGeometryType::Polygon)), vec!["A", "RINGS"]);
    assert_eq!(
        csv_header(&fields, Some(RestServiceGeometryType::Envelope)),
        vec!["A", "XMIN", "YMIN", "XMAX", "YMAX", "ZMIN", "ZMAX", "MMIN", "MMAX"]
    );
}

#[test]
fn envelope_components_only_where_present() {
    let fields: Vec<ServiceField> = vec![];
    let g = attrs(vec![
        ("xmin", JsonValue::Number("1".to_owned())),
        ("ymin", JsonValue::Number("2".to_owned())),
        ("xmax", JsonValue::Number("3".to_owned())),
        ("ymax", JsonValue::Number("4".to_owned())),
        ("mmax", JsonValue::Number("9".to_owned())),
    ]);
    let f = Feature { attributes: TextMap::new(), geometry: Some(g) };
    let row = csv_record(&fields, Some(RestServiceGeometryType::Envelope), &f);
    assert_eq!(row, vec!["1", "2", "3", "4", "", "", "", "9"]);
}

#[test]
fn polygon_rings_are_json_text() {
    let fields: Vec<ServiceField> = vec![];
    let g = attrs(vec![("rings", JsonValue::Structured("[[[0,0],[1,0],[0,0]]]".to_owned()))]);
    let f = Feature { attributes: TextMap::new(), geometry: Some(g) };
    let line = csv_line(&csv_record(&fields, Some(RestServiceGeometryType::Polygon), &f));
    assert_eq!(line, "\"[[[0,0],[1,0],[0,0]]]\"\n");
}

#[test]
fn quoting_rules() {
    assert_eq!(csv_quote("plain"), "plain");
    assert_eq!(csv_quote(""), "");
    assert_eq!(csv_quote("a,b"), "\"a,b\"");
    assert_eq!(csv_quote("say \"hi\""), "\"say \"\"hi\"\"\"");
    assert_eq!(csv_quote("two\nlines"), "\"two\nlines\"");
    assert_eq!(csv_quote("cr\r"), "\"cr\r\"");
}

#[test]
fn quoted_values_read_back_unchanged() {
    let values: Vec<String> = vec!["a,b", "say \"hi\"", "two\nlines", "", "plain", "\"", ",,"]
        .into_iter()
        .map(String::from)
        .collect();
    let line = csv_line(&values);
    assert!(line.ends_with('\n'));
    assert_eq!(read_record(&line[..line.len() - 1]), values);
    for v in &values {
        assert_eq!(read_record(&csv_quote(v)), vec![v.clone()]);
    }
}

#[test]
fn empty_geojson_collection() {
    let w = GeoJsonWriter::new();
    assert_eq!(w.finish(), "{\"type\":\"FeatureCollection\",\"features\":[]}");
}

#[test]
fn empty_csv_is_header_only() {
    let fields = vec![status_field(), plain("DEPTH", RestServiceFieldType::Double)];
    let kind = Some(RestServiceGeometryType::Point);
    assert_eq!(csv_header_line(&fields, kind), "STATUS,STATUS_DESC,DEPTH,X,Y\n");
    assert_eq!(csv_chunk_text(&fields, kind, &vec![]), "");
}

#[test]
fn geojson_chunks_form_one_collection() {
    let mut w = GeoJsonWriter::new();
    let mut out = String::new();
    out.push_str(&w.chunk_text(&GeoJsonChunk {
        crs: Some("{\"type\":\"name\"}".to_owned()),
        features: vec!["{\"a\":1}".to_owned(), "{\"a\":2}".to_owned()],
    }));
    out.push_str(&w.chunk_text(&GeoJsonChunk { crs: Some("{\"ignored\":1}".to_owned()), features: vec![] }));
    out.push_str(&w.chunk_text(&GeoJsonChunk { crs: None, features: vec!["{\"a\":3}".to_owned()] }));
    out.push_str(&w.finish());
    assert_eq!(
        out,
        "{\"type\":\"FeatureCollection\",\"crs\":{\"type\":\"name\"},\"features\":[{\"a\":1},{\"a\":2},{\"a\":3}]}"
    );
}

#[test]
fn geojson_leading_empty_chunk() {
    let mut w = GeoJsonWriter::new();
    let mut out = w.chunk_text(&GeoJsonChunk { crs: None, features: vec![] });
    out.push_str(&w.chunk_text(&GeoJsonChunk { crs: None, features: vec!["{}".to_owned()] }));
    out.push_str(&w.finish());
    assert_eq!(out, "{\"type\":\"FeatureCollection\",\"features\":[{}]}");
}

#[test]
fn csv_chunk_lines_in_order() {
    let fields = vec![plain("N", RestServiceFieldType::Integer)];
    let rows = vec![
        Feature { attributes: attrs(vec![("N", JsonValue::Number("1".to_owned()))]), geometry: None },
        Feature { attributes: attrs(vec![("N", JsonValue::Number("2".to_owned()))]), geometry: None },
    ];
    assert_eq!(csv_chunk_text(&fields, None, &rows), "1\n2\n");
}
