//! Flat CSV output: the header, one row per feature with coded-domain
//! expansion and flattened geometry, and quoting of values.
use vstd::prelude::*;
use crate::metadata::{ServiceField, RestServiceFieldType, RestServiceGeometryType, field_codes};
use crate::encode::{JsonValue, props_view, property_text, code_label, desc_name};
use crate::text::{TextMap, push_char};

verus! {

/// One fetched feature: its attributes, and its geometry's members where it
/// has a geometry.
pub struct Feature {
    pub attributes: TextMap<JsonValue>,
    pub geometry: Option<TextMap<JsonValue>>,
}

/// The geometry columns of a kind and the geometry member each one reads.
pub open spec fn geometry_layout(kind: Option<RestServiceGeometryType>) -> Seq<(Seq<char>, Seq<char>)> {
    match kind {
        None => Seq::empty(),
        Some(RestServiceGeometryType::Point) => seq![("X"@, "x"@), ("Y"@, "y"@)],
        Some(RestServiceGeometryType::Multipoint) => seq![("POINTS"@, "points"@)],
        Some(RestServiceGeometryType::Polyline) => seq![("PATHS"@, "paths"@)],
        Some(RestServiceGeometryType::Polygon) => seq![("RINGS"@, "rings"@)],
        Some(RestServiceGeometryType::Envelope) => seq![
            ("XMIN"@, "xmin"@),
            ("YMIN"@, "ymin"@),
            ("XMAX"@, "xmax"@),
            ("YMAX"@, "ymax"@),
            ("ZMIN"@, "zmin"@),
            ("ZMAX"@, "zmax"@),
            ("MMIN"@, "mmin"@),
            ("MMAX"@, "mmax"@),
        ],
    }
}

/// The attribute columns: each field but geometry fields, in declaration
/// order, followed by its `_DESC` companion where it is coded.
pub open spec fn attribute_columns(fields: Seq<ServiceField>) -> Seq<Seq<char>>
    decreases fields.len(),
{
    if fields.len() == 0 {
        Seq::empty()
    } else {
        let f = fields.last();
        let before = attribute_columns(fields.drop_last());
        if f.field_type == RestServiceFieldType::Geometry {
            before
        } else if field_codes(f) is Some {
            before.push(f.name@).push(desc_name(f.name@))
        } else {
            before.push(f.name@)
        }
    }
}

/// The header: attribute columns, then geometry columns; a table has none.
pub open spec fn header_spec(fields: Seq<ServiceField>, kind: Option<RestServiceGeometryType>) -> Seq<
    Seq<char>,
> {
    attribute_columns(fields) + geometry_layout(kind).map_values(|p: (Seq<char>, Seq<char>)| p.0)
}

/// A feature's attribute values, column by column: the text of each field's
/// value, followed by its label where the field is coded.
pub open spec fn attribute_values(
    fields: Seq<ServiceField>,
    attributes: Map<Seq<char>, crate::encode::JsonView>,
) -> Seq<Seq<char>>
    decreases fields.len(),
{
    if fields.len() == 0 {
        Seq::empty()
    } else {
        let f = fields.last();
        let before = attribute_values(fields.drop_last(), attributes);
        let text = property_text(attributes, f.name@);
        if f.field_type == RestServiceFieldType::Geometry {
            before
        } else {
            match field_codes(f) {
                Some(codes) => before.push(text).push(code_label(codes, text)),
                None => before.push(text),
            }
        }
    }
}

/// A feature's geometry values, column by column: the text of each member
/// the kind reads, empty where the member or the whole geometry is missing.
pub open spec fn geometry_values(
    kind: Option<RestServiceGeometryType>,
    geometry: Option<Map<Seq<char>, crate::encode::JsonView>>,
) -> Seq<Seq<char>> {
    geometry_layout(kind).map_values(
        |p: (Seq<char>, Seq<char>)|
            match geometry {
                Some(g) => property_text(g, p.1),
                None => Seq::empty(),
            },
    )
}

/// The geometry members of a feature, as texts.
pub open spec fn feature_geometry(f: Feature) -> Option<Map<Seq<char>, crate::encode::JsonView>> {
    match f.geometry {
        Some(g) => Some(props_view(g@)),
        None => None,
    }
}

/// A feature's row: attribute values, then geometry values.
pub open spec fn record_spec(
    fields: Seq<ServiceField>,
    kind: Option<RestServiceGeometryType>,
    f: Feature,
) -> Seq<Seq<char>> {
    attribute_values(fields, props_view(f.attributes@)) + geometry_values(kind, feature_geometry(f))
}

/// The geometry columns of a kind and the member each one reads.
fn geometry_columns(kind: Option<RestServiceGeometryType>) -> (r: Vec<(&'static str, &'static str)>)
    ensures
        r@.map_values(|p: (&str, &str)| (p.0@, p.1@)) == geometry_layout(kind),
{
    let v = match kind {
        None => vec![],
        Some(RestServiceGeometryType::Point) => vec![("X", "x"), ("Y", "y")],
        Some(RestServiceGeometryType::Multipoint) => vec![("POINTS", "points")],
        Some(RestServiceGeometryType::Polyline) => vec![("PATHS", "paths")],
        Some(RestServiceGeometryType::Polygon) => vec![("RINGS", "rings")],
        Some(RestServiceGeometryType::Envelope) => vec![
            ("XMIN", "xmin"),
            ("YMIN", "ymin"),
            ("XMAX", "xmax"),
            ("YMAX", "ymax"),
            ("ZMIN", "zmin"),
            ("ZMAX", "zmax"),
            ("MMIN", "mmin"),
            ("MMAX", "mmax"),
        ],
    };
    assert(v@.map_values(|p: (&str, &str)| (p.0@, p.1@)) =~= geometry_layout(kind));
    v
}

/// The geometry kind whose columns a service's rows carry: none for a table.
pub fn row_geometry(is_table: bool, geo_type: RestServiceGeometryType) -> (r: Option<
    RestServiceGeometryType,
>)
    ensures
        r == if is_table {
            None
        } else {
            Some(geo_type)
        },
{
    if is_table {
        None
    } else {
        Some(geo_type)
    }
}

/// The CSV header: attribute columns with coded companions, then the
/// geometry columns of `kind`.
pub fn csv_header(fields: &Vec<ServiceField>, kind: Option<RestServiceGeometryType>) -> (r: Vec<
    String,
>)
    ensures
        r@.map_values(|s: String| s@) == header_spec(fields@, kind),
{
    let mut out: Vec<String> = Vec::new();
    let mut i: usize = 0;
    while i < fields.len()
        invariant
            i <= fields.len(),
            out@.map_values(|s: String| s@) == attribute_columns(fields@.subrange(0, i as int)),
        decreases fields.len() - i,
    {
        let f = &fields[i];
        proof {
            assert(fields@.subrange(0, i + 1).drop_last() =~= fields@.subrange(0, i as int));
            assert(fields@.subrange(0, i + 1).last() == fields@[i as int]);
        }
        if f.field_type != RestServiceFieldType::Geometry {
            out.push(f.name.clone());
            if is_coded_field(f) {
                let mut d = f.name.clone();
                d.append("_DESC");
                out.push(d);
            }
        }
        i = i + 1;
        assert(out@.map_values(|s: String| s@) =~= attribute_columns(fields@.subrange(0, i as int)));
    }
    assert(fields@.subrange(0, i as int) =~= fields@);
    let ghost attrs = out@.map_values(|s: String| s@);
    let layout = geometry_columns(kind);
    let mut j: usize = 0;
    while j < layout.len()
        invariant
            j <= layout.len(),
            attrs == attribute_columns(fields@),
            layout@.map_values(|p: (&str, &str)| (p.0@, p.1@)) == geometry_layout(kind),
            out@.map_values(|s: String| s@) == attrs + geometry_layout(kind).subrange(
                0,
                j as int,
            ).map_values(|p: (Seq<char>, Seq<char>)| p.0),
        decreases layout.len() - j,
    {
        proof {
            assert(layout@.map_values(|p: (&str, &str)| (p.0@, p.1@))[j as int] == (
                layout@[j as int].0@,
                layout@[j as int].1@,
            ));
            assert(geometry_layout(kind)[j as int].0 == layout@[j as int].0@);
        }
        let column = layout[j].0.to_owned();
        let ghost before = out@;
        out.push(column);
        proof {
            let g = geometry_layout(kind);
            let cols = g.subrange(0, j + 1).map_values(|p: (Seq<char>, Seq<char>)| p.0);
            assert(cols =~= g.subrange(0, j as int).map_values(|p: (Seq<char>, Seq<char>)| p.0).push(
                g[j as int].0,
            ));
            assert(out@.map_values(|s: String| s@) =~= before.map_values(|s: String| s@).push(
                out@[j + attrs.len()]@,
            ));
        }
        j = j + 1;
        assert(out@.map_values(|s: String| s@) =~= attrs + geometry_layout(kind).subrange(
            0,
            j as int,
        ).map_values(|p: (Seq<char>, Seq<char>)| p.0));
    }
    assert(geometry_layout(kind).subrange(0, j as int) =~= geometry_layout(kind));
    out
}

/// A feature's CSV values: for each field but geometry fields, the text of
/// its value and, where it is coded, the label of that text; then one value
/// per geometry column, empty where the geometry or the member is missing.
pub fn csv_record(
    fields: &Vec<ServiceField>,
    kind: Option<RestServiceGeometryType>,
    feature: &Feature,
) -> (r: Vec<String>)
    ensures
        r@.map_values(|s: String| s@) == record_spec(fields@, kind, *feature),
{
    let ghost attrs = props_view(feature.attributes@);
    let mut out: Vec<String> = Vec::new();
    let mut i: usize = 0;
    while i < fields.len()
        invariant
            i <= fields.len(),
            attrs == props_view(feature.attributes@),
            out@.map_values(|s: String| s@) == attribute_values(fields@.subrange(0, i as int), attrs),
        decreases fields.len() - i,
    {
        let f = &fields[i];
        proof {
            assert(fields@.subrange(0, i + 1).drop_last() =~= fields@.subrange(0, i as int));
            assert(fields@.subrange(0, i + 1).last() == fields@[i as int]);
        }
        if f.field_type != RestServiceFieldType::Geometry {
            let text = crate::encode::property_string(&feature.attributes, f.name.as_str());
            match f.is_coded() {
                Some(table) => {
                    let label = crate::encode::label_of(&table, text.as_str());
                    out.push(text);
                    out.push(label);
                },
                None => {
                    out.push(text);
                },
            }
        }
        i = i + 1;
        assert(out@.map_values(|s: String| s@) =~= attribute_values(
            fields@.subrange(0, i as int),
            attrs,
        ));
    }
    assert(fields@.subrange(0, i as int) =~= fields@);
    let ghost head = out@.map_values(|s: String| s@);
    let ghost geo = feature_geometry(*feature);
    let layout = geometry_columns(kind);
    let mut j: usize = 0;
    while j < layout.len()
        invariant
            j <= layout.len(),
            head == attribute_values(fields@, attrs),
            geo == feature_geometry(*feature),
            layout@.map_values(|p: (&str, &str)| (p.0@, p.1@)) == geometry_layout(kind),
            out@.map_values(|s: String| s@) == head + geometry_values(kind, geo).subrange(0, j as int),
        decreases layout.len() - j,
    {
        proof {
            assert(layout@.map_values(|p: (&str, &str)| (p.0@, p.1@))[j as int] == (
                layout@[j as int].0@,
                layout@[j as int].1@,
            ));
            assert(geometry_layout(kind)[j as int].1 == layout@[j as int].1@);
        }
        let value = match &feature.geometry {
            Some(g) => crate::encode::property_string(g, layout[j].1),
            None => String::new(),
        };
        let ghost before = out@;
        out.push(value);
        j = j + 1;
        proof {
            assert(out@.map_values(|s: String| s@) =~= before.map_values(|s: String| s@).push(
                value@,
            ));
            assert(geometry_values(kind, geo).subrange(0, j as int) =~= geometry_values(
                kind,
                geo,
            ).subrange(0, j - 1).push(geometry_values(kind, geo)[j - 1]));
        }
    }
    assert(geometry_values(kind, geo).subrange(0, j as int) =~= geometry_values(kind, geo));
    out
}

/// Whether a character forces a CSV value into quotes.
pub open spec fn is_special(c: char) -> bool {
    c == ',' || c == '"' || c == '\n' || c == '\r'
}

/// Whether a value holds a comma, a quote or a line break.
pub open spec fn needs_quotes(s: Seq<char>) -> bool {
    exists|i: int| 0 <= i < s.len() && is_special(#[trigger] s[i])
}

/// A value with each quote doubled.
pub open spec fn double_quotes(s: Seq<char>) -> Seq<char>
    decreases s.len(),
{
    if s.len() == 0 {
        Seq::empty()
    } else if s.last() == '"' {
        double_quotes(s.drop_last()) + seq!['"', '"']
    } else {
        double_quotes(s.drop_last()).push(s.last())
    }
}

/// A value as a CSV cell: in quotes, with inner quotes doubled, where it
/// holds a comma, a quote or a line break; else as it is.
pub open spec fn csv_escape(s: Seq<char>) -> Seq<char> {
    if needs_quotes(s) {
        seq!['"'] + double_quotes(s) + seq!['"']
    } else {
        s
    }
}

/// Writes a value as a CSV cell: in quotes, with inner quotes doubled,
/// where it holds a comma, a quote or a line break.
pub fn csv_quote(value: &str) -> (r: String)
    ensures
        r@ == csv_escape(value@),
{
    let mut doubled = String::new();
    let mut special = false;
    let ghost chars = value@;
    for c in it: value.chars()
        invariant
            chars == value@,
            it.seq() == chars,
            doubled@ == double_quotes(chars.subrange(0, it.index() as int)),
            special == needs_quotes(chars.subrange(0, it.index() as int)),
    {
        let ghost k = it.index() as int;
        let ghost prefix = chars.subrange(0, k);
        let ghost next = chars.subrange(0, k + 1);
        proof {
            assert(next.drop_last() =~= prefix);
            assert(next.last() == c);
        }
        if c == '"' {
            push_char(&mut doubled, '"');
            push_char(&mut doubled, '"');
            assert(doubled@ =~= double_quotes(next));
        } else {
            push_char(&mut doubled, c);
        }
        if c == ',' || c == '"' || c == '\n' || c == '\r' {
            special = true;
            assert(next[k] == c);
        }
        proof {
            if needs_quotes(next) && !is_special(c) {
                let i = choose|i: int| 0 <= i < next.len() && is_special(#[trigger] next[i]);
                assert(prefix[i] == next[i]);
            }
            if needs_quotes(prefix) {
                let i = choose|i: int| 0 <= i < prefix.len() && is_special(#[trigger] prefix[i]);
                assert(next[i] == prefix[i]);
            }
        }
    }
    assert(chars.subrange(0, chars.len() as int) =~= chars);
    if special {
        let mut r = String::new();
        push_char(&mut r, '"');
        r.append(doubled.as_str());
        push_char(&mut r, '"');
        assert(r@ =~= csv_escape(value@));
        r
    } else {
        value.to_owned()
    }
}

/// The cells of a record joined by commas.
pub open spec fn record_text(values: Seq<Seq<char>>) -> Seq<char>
    decreases values.len(),
{
    if values.len() == 0 {
        Seq::empty()
    } else if values.len() == 1 {
        csv_escape(values[0])
    } else {
        record_text(values.drop_last()) + seq![','] + csv_escape(values.last())
    }
}

/// A record's line: its cells joined by commas, ended by a line feed.
pub open spec fn csv_line_spec(values: Seq<Seq<char>>) -> Seq<char> {
    record_text(values).push('\n')
}

/// Writes one record as a CSV line.
pub fn csv_line(values: &Vec<String>) -> (r: String)
    ensures
        r@ == csv_line_spec(values@.map_values(|s: String| s@)),
{
    let ghost vals = values@.map_values(|s: String| s@);
    let mut out = String::new();
    let mut i: usize = 0;
    while i < values.len()
        invariant
            i <= values.len(),
            vals == values@.map_values(|s: String| s@),
            out@ == record_text(vals.subrange(0, i as int)),
        decreases values.len() - i,
    {
        let cell = csv_quote(values[i].as_str());
        proof {
            let next = vals.subrange(0, i + 1);
            assert(next.drop_last() =~= vals.subrange(0, i as int));
            assert(next.last() == values@[i as int]@);
        }
        if i > 0 {
            push_char(&mut out, ',');
        }
        out.append(cell.as_str());
        i = i + 1;
        assert(out@ =~= record_text(vals.subrange(0, i as int)));
    }
    assert(vals.subrange(0, i as int) =~= vals);
    push_char(&mut out, '\n');
    out
}

/// Where a CSV reader stands within a record.
pub enum ReadState {
    /// At the start of a cell.
    CellStart,
    /// Inside a cell without quotes.
    Bare,
    /// Inside a quoted cell.
    Quoted,
    /// Just after a quote inside a quoted cell.
    QuoteSeen,
}

/// An RFC 4180 reader of one record's text, without its line end: given the
/// state, the cell read so far and the cells done, the cells of the record.
pub open spec fn read_cells(
    s: Seq<char>,
    st: ReadState,
    cell: Seq<char>,
    done: Seq<Seq<char>>,
) -> Seq<Seq<char>>
    decreases s.len(),
{
    if s.len() == 0 {
        done.push(cell)
    } else {
        let c = s[0];
        let rest = s.drop_first();
        match st {
            ReadState::CellStart => if c == '"' {
                read_cells(rest, ReadState::Quoted, cell, done)
            } else if c == ',' {
                read_cells(rest, ReadState::CellStart, Seq::empty(), done.push(cell))
            } else {
                read_cells(rest, ReadState::Bare, cell.push(c), done)
            },
            ReadState::Bare => if c == ',' {
                read_cells(rest, ReadState::CellStart, Seq::empty(), done.push(cell))
            } else {
                read_cells(rest, ReadState::Bare, cell.push(c), done)
            },
            ReadState::Quoted => if c == '"' {
                read_cells(rest, ReadState::QuoteSeen, cell, done)
            } else {
                read_cells(rest, ReadState::Quoted, cell.push(c), done)
            },
            ReadState::QuoteSeen => if c == '"' {
                read_cells(rest, ReadState::Quoted, cell.push('"'), done)
            } else if c == ',' {
                read_cells(rest, ReadState::CellStart, Seq::empty(), done.push(cell))
            } else {
                read_cells(rest, ReadState::Bare, cell.push(c), done)
            },
        }
    }
}

/// The cells a CSV reader finds in one record's text.
pub open spec fn read_record(s: Seq<char>) -> Seq<Seq<char>> {
    read_cells(s, ReadState::CellStart, Seq::empty(), Seq::empty())
}

proof fn lemma_read_bare(u: Seq<char>, t: Seq<char>, cell: Seq<char>, done: Seq<Seq<char>>)
    requires
        forall|i: int| 0 <= i < u.len() ==> #[trigger] u[i] != ',',
    ensures
        read_cells(u + t, ReadState::Bare, cell, done) == read_cells(t, ReadState::Bare, cell + u, done),
    decreases u.len(),
{
    if u.len() > 0 {
        assert((u + t).drop_first() =~= u.drop_first() + t);
        assert((u + t)[0] == u[0]);
        lemma_read_bare(u.drop_first(), t, cell.push(u[0]), done);
        assert(cell.push(u[0]) + u.drop_first() =~= cell + u);
    } else {
        assert(u + t =~= t);
        assert(cell + u =~= cell);
    }
}

proof fn lemma_read_quoted(u: Seq<char>, t: Seq<char>, cell: Seq<char>, done: Seq<Seq<char>>)
    ensures
        read_cells(double_quotes(u) + t, ReadState::Quoted, cell, done) == read_cells(
            t,
            ReadState::Quoted,
            cell + u,
            done,
        ),
    decreases u.len(),
{
    if u.len() == 0 {
        assert(double_quotes(u) + t =~= t);
        assert(cell + u =~= cell);
    } else {
        let c = u.last();
        let piece = if c == '"' { seq!['"', '"'] } else { seq![c] };
        assert(double_quotes(u) == double_quotes(u.drop_last()) + piece);
        assert(double_quotes(u) + t =~= double_quotes(u.drop_last()) + (piece + t));
        lemma_read_quoted(u.drop_last(), piece + t, cell, done);
        let cell1 = cell + u.drop_last();
        if c == '"' {
            assert((piece + t)[0] == '"');
            assert((piece + t).drop_first() =~= seq!['"'] + t);
            assert((seq!['"'] + t).drop_first() =~= t);
            assert((seq!['"'] + t)[0] == '"');
            assert(read_cells(piece + t, ReadState::Quoted, cell1, done) == read_cells(
                seq!['"'] + t,
                ReadState::QuoteSeen,
                cell1,
                done,
            ));
            assert(read_cells(seq!['"'] + t, ReadState::QuoteSeen, cell1, done) == read_cells(
                t,
                ReadState::Quoted,
                cell1.push('"'),
                done,
            ));
        } else {
            assert((piece + t)[0] == c);
            assert((piece + t).drop_first() =~= t);
            assert(read_cells(piece + t, ReadState::Quoted, cell1, done) == read_cells(
                t,
                ReadState::Quoted,
                cell1.push(c),
                done,
            ));
        }
        assert(cell1.push(c) =~= cell + u);
    }
}

proof fn lemma_needs_quotes_free(v: Seq<char>)
    requires
        !needs_quotes(v),
    ensures
        forall|i: int| 0 <= i < v.len() ==> #[trigger] v[i] != ',' && v[i] != '"',
{
    assert forall|i: int| 0 <= i < v.len() implies #[trigger] v[i] != ',' && v[i] != '"' by {
        if v[i] == ',' || v[i] == '"' {
            assert(is_special(v[i]));
        }
    }
}

/// Reading one cell followed by `t`: the cell is done, and reading goes on in
/// `t` from the state that follows the cell's text.
proof fn lemma_read_cell(v: Seq<char>, t: Seq<char>, done: Seq<Seq<char>>)
    ensures
        t.len() == 0 ==> read_cells(csv_escape(v) + t, ReadState::CellStart, Seq::empty(), done)
            == done.push(v),
        t.len() > 0 && t[0] == ',' ==> read_cells(
            csv_escape(v) + t,
            ReadState::CellStart,
            Seq::empty(),
            done,
        ) == read_cells(t.drop_first(), ReadState::CellStart, Seq::empty(), done.push(v)),
{
    let e = Seq::<char>::empty();
    let s = csv_escape(v) + t;
    if needs_quotes(v) {
        assert(s =~= seq!['"'] + (double_quotes(v) + (seq!['"'] + t)));
        assert(s[0] == '"');
        assert(s.drop_first() =~= double_quotes(v) + (seq!['"'] + t));
        assert(read_cells(s, ReadState::CellStart, e, done) == read_cells(
            double_quotes(v) + (seq!['"'] + t),
            ReadState::Quoted,
            e,
            done,
        ));
        lemma_read_quoted(v, seq!['"'] + t, e, done);
        assert(e + v =~= v);
        assert((seq!['"'] + t)[0] == '"');
        assert((seq!['"'] + t).drop_first() =~= t);
        assert(read_cells(seq!['"'] + t, ReadState::Quoted, v, done) == read_cells(
            t,
            ReadState::QuoteSeen,
            v,
            done,
        ));
        if t.len() > 0 && t[0] == ',' {
            assert(read_cells(t, ReadState::QuoteSeen, v, done) == read_cells(
                t.drop_first(),
                ReadState::CellStart,
                e,
                done.push(v),
            ));
        }
    } else {
        lemma_needs_quotes_free(v);
        if v.len() == 0 {
            assert(s =~= t);
            assert(v =~= e);
        } else {
            assert(csv_escape(v) == v);
            assert(s[0] == v[0]);
            assert(s.drop_first() =~= v.drop_first() + t);
            assert(read_cells(s, ReadState::CellStart, e, done) == read_cells(
                v.drop_first() + t,
                ReadState::Bare,
                e.push(v[0]),
                done,
            ));
            assert forall|i: int| 0 <= i < v.drop_first().len() implies #[trigger] v.drop_first()[i]
                != ',' by {
                assert(v.drop_first()[i] == v[i + 1]);
            }
            lemma_read_bare(v.drop_first(), t, e.push(v[0]), done);
            assert(e.push(v[0]) + v.drop_first() =~= v);
            if t.len() > 0 && t[0] == ',' {
                assert(read_cells(t, ReadState::Bare, v, done) == read_cells(
                    t.drop_first(),
                    ReadState::CellStart,
                    e,
                    done.push(v),
                ));
            }
        }
    }
}

proof fn lemma_read_record_then(values: Seq<Seq<char>>, t: Seq<char>, done: Seq<Seq<char>>)
    requires
        values.len() >= 1,
    ensures
        t.len() == 0 ==> read_cells(
            record_text(values) + t,
            ReadState::CellStart,
            Seq::empty(),
            done,
        ) == done + values,
        t.len() > 0 && t[0] == ',' ==> read_cells(
            record_text(values) + t,
            ReadState::CellStart,
            Seq::empty(),
            done,
        ) == read_cells(t.drop_first(), ReadState::CellStart, Seq::empty(), done + values),
    decreases values.len(),
{
    if values.len() == 1 {
        lemma_read_cell(values[0], t, done);
        assert(done.push(values[0]) =~= done + values);
    } else {
        let prefix = values.drop_last();
        let last = values.last();
        let t2 = seq![','] + (csv_escape(last) + t);
        assert(record_text(values) + t =~= record_text(prefix) + t2);
        lemma_read_record_then(prefix, t2, done);
        assert(t2.drop_first() =~= csv_escape(last) + t);
        lemma_read_cell(last, t, done + prefix);
        assert((done + prefix).push(last) =~= done + values);
    }
}

/// Quoting round trip: a record written by `csv_line` and read back by an
/// RFC 4180 reader, line end removed, gives back exactly its cells, whatever
/// commas, quotes or line breaks they hold.
pub proof fn lemma_csv_round_trip(values: Seq<Seq<char>>)
    requires
        values.len() >= 1,
    ensures
        csv_line_spec(values).drop_last() == record_text(values),
        read_record(record_text(values)) == values,
{
    lemma_read_record_then(values, Seq::empty(), Seq::empty());
    assert(record_text(values) + Seq::<char>::empty() =~= record_text(values));
    assert(Seq::<Seq<char>>::empty() + values =~= values);
    assert(csv_line_spec(values).drop_last() =~= record_text(values));
}

/// A single value survives writing and reading as one cell.
pub proof fn lemma_csv_cell_round_trip(v: Seq<char>)
    ensures
        read_record(csv_escape(v)) == seq![v],
{
    lemma_csv_round_trip(seq![v]);
}

fn is_coded_field(f: &ServiceField) -> (r: bool)
    ensures
        r == field_codes(*f) is Some,
{
    match &f.domain {
        Some(crate::metadata::FieldDomain::Coded { .. }) => true,
        _ => false,
    }
}

} // verus!
