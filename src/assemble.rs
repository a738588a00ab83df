//! Streaming assembly of the single output document from encoded chunks, in
//! plan order: a GeoJSON feature collection opened and closed exactly once,
//! or a CSV table with one header line.
use vstd::prelude::*;
use crate::csv::{Feature, csv_line, csv_line_spec, csv_record, csv_header, header_spec, record_spec};
use crate::metadata::{ServiceField, RestServiceGeometryType};

verus! {

/// The opening of a feature collection, with the coordinate reference block
/// where there is one.
pub open spec fn opening(crs: Option<Seq<char>>) -> Seq<char> {
    match crs {
        Some(c) => "{\"type\":\"FeatureCollection\",\"crs\":"@ + c + ",\"features\":["@,
        None => "{\"type\":\"FeatureCollection\",\"features\":["@,
    }
}

/// The closing of a feature collection.
pub open spec fn closing() -> Seq<char> {
    "]}"@
}

/// Feature texts joined by commas, after a comma too where `after_feature`
/// says one was written before.
pub open spec fn sep_join(features: Seq<Seq<char>>, after_feature: bool) -> Seq<char>
    decreases features.len(),
{
    if features.len() == 0 {
        Seq::empty()
    } else {
        let sep = if after_feature || features.len() > 1 {
            seq![',']
        } else {
            Seq::empty()
        };
        sep_join(features.drop_last(), after_feature) + sep + features.last()
    }
}

/// One encoded GeoJSON chunk: the coordinate reference block of its
/// collection, if any, and the text of each feature.
pub struct GeoJsonChunk {
    pub crs: Option<String>,
    pub features: Vec<String>,
}

/// The texts of a chunk: its reference block and its features.
pub open spec fn chunk_view(c: GeoJsonChunk) -> (Option<Seq<char>>, Seq<Seq<char>>) {
    (
        match c.crs {
            Some(s) => Some(s@),
            None => None,
        },
        c.features@.map_values(|f: String| f@),
    )
}

/// All feature texts of a sequence of chunks, in order.
pub open spec fn all_features(chunks: Seq<(Option<Seq<char>>, Seq<Seq<char>>)>) -> Seq<Seq<char>>
    decreases chunks.len(),
{
    if chunks.len() == 0 {
        Seq::empty()
    } else {
        all_features(chunks.drop_last()) + chunks.last().1
    }
}

/// The whole feature collection for chunks in plan order: opened once with
/// the first chunk's reference block, every feature in order, closed once.
pub open spec fn geojson_document(chunks: Seq<(Option<Seq<char>>, Seq<Seq<char>>)>) -> Seq<char> {
    let crs = if chunks.len() > 0 {
        chunks[0].0
    } else {
        None
    };
    opening(crs) + sep_join(all_features(chunks), false) + closing()
}

/// What the writer has written so far.
#[derive(Debug, Clone, Copy, PartialEq, Eq, Structural)]
pub struct GeoJsonWriter {
    /// The collection's opening was written.
    pub opened: bool,
    /// At least one feature was written.
    pub wrote_feature: bool,
}

/// The text written for a chunk from state `w`.
pub open spec fn chunk_output(w: GeoJsonWriter, crs: Option<Seq<char>>, features: Seq<Seq<char>>) -> Seq<char> {
    (if w.opened {
        Seq::empty()
    } else {
        opening(crs)
    }) + sep_join(features, w.wrote_feature)
}

/// The state after writing a chunk from state `w`.
pub open spec fn chunk_state(w: GeoJsonWriter, features: Seq<Seq<char>>) -> GeoJsonWriter {
    GeoJsonWriter { opened: true, wrote_feature: w.wrote_feature || features.len() > 0 }
}

/// The text written to finish from state `w`.
pub open spec fn finish_output(w: GeoJsonWriter) -> Seq<char> {
    (if w.opened {
        Seq::empty()
    } else {
        opening(None)
    }) + closing()
}

/// What the writer writes in all for chunks in turn, from state `w`, and then
/// to finish.
pub open spec fn writer_run(w: GeoJsonWriter, chunks: Seq<(Option<Seq<char>>, Seq<Seq<char>>)>) -> Seq<
    char,
>
    decreases chunks.len(),
{
    if chunks.len() == 0 {
        finish_output(w)
    } else {
        chunk_output(w, chunks[0].0, chunks[0].1) + writer_run(
            chunk_state(w, chunks[0].1),
            chunks.drop_first(),
        )
    }
}

fn push_features(out: &mut String, features: &Vec<String>, after_feature: bool)
    ensures
        final(out)@ == old(out)@ + sep_join(features@.map_values(|f: String| f@), after_feature),
{
    let ghost start = out@;
    let ghost fs = features@.map_values(|f: String| f@);
    let mut i: usize = 0;
    while i < features.len()
        invariant
            i <= features.len(),
            fs == features@.map_values(|f: String| f@),
            out@ == start + sep_join(fs.subrange(0, i as int), after_feature),
        decreases features.len() - i,
    {
        proof {
            let next = fs.subrange(0, i + 1);
            assert(next.drop_last() =~= fs.subrange(0, i as int));
            assert(next.last() == features@[i as int]@);
        }
        if after_feature || i > 0 {
            crate::text::push_char(out, ',');
        }
        out.append(features[i].as_str());
        i = i + 1;
        assert(out@ =~= start + sep_join(fs.subrange(0, i as int), after_feature));
    }
    assert(fs.subrange(0, i as int) =~= fs);
}

fn push_opening(out: &mut String, crs: &Option<String>)
    ensures
        final(out)@ == old(out)@ + opening(
            match crs {
                Some(s) => Some(s@),
                None => None,
            },
        ),
{
    match crs {
        Some(c) => {
            out.append("{\"type\":\"FeatureCollection\",\"crs\":");
            out.append(c.as_str());
            out.append(",\"features\":[");
        },
        None => {
            out.append("{\"type\":\"FeatureCollection\",\"features\":[");
        },
    }
}

impl GeoJsonWriter {
    /// A writer that has written nothing.
    pub fn new() -> (r: GeoJsonWriter)
        ensures
            !r.opened,
            !r.wrote_feature,
    {
        GeoJsonWriter { opened: false, wrote_feature: false }
    }

    /// The text to append for the next chunk in plan order: the opening,
    /// with this chunk's reference block, if nothing was written yet; then
    /// its features, each after a comma but the very first.
    pub fn chunk_text(&mut self, chunk: &GeoJsonChunk) -> (r: String)
        ensures
            r@ == chunk_output(*old(self), chunk_view(*chunk).0, chunk_view(*chunk).1),
            *final(self) == chunk_state(*old(self), chunk_view(*chunk).1),
    {
        let mut out = String::new();
        if !self.opened {
            push_opening(&mut out, &chunk.crs);
        }
        push_features(&mut out, &chunk.features, self.wrote_feature);
        self.opened = true;
        self.wrote_feature = self.wrote_feature || chunk.features.len() > 0;
        out
    }

    /// The text that ends the collection: the opening first if nothing was
    /// written yet, then the closing.
    pub fn finish(&self) -> (r: String)
        ensures
            r@ == finish_output(*self),
    {
        let mut out = String::new();
        if !self.opened {
            push_opening(&mut out, &None);
        }
        out.append("]}");
        out
    }
}

proof fn lemma_sep_join_append(a: Seq<Seq<char>>, b: Seq<Seq<char>>, after: bool)
    ensures
        sep_join(a + b, after) == sep_join(a, after) + sep_join(b, after || a.len() > 0),
    decreases b.len(),
{
    if b.len() == 0 {
        assert(a + b =~= a);
    } else {
        assert((a + b).drop_last() =~= a + b.drop_last());
        lemma_sep_join_append(a, b.drop_last(), after);
    }
}

proof fn lemma_all_features_first(chunks: Seq<(Option<Seq<char>>, Seq<Seq<char>>)>)
    requires
        chunks.len() > 0,
    ensures
        all_features(chunks) == chunks[0].1 + all_features(chunks.drop_first()),
    decreases chunks.len(),
{
    if chunks.len() == 1 {
        assert(chunks.drop_last().len() == 0);
        assert(chunks.drop_first().len() == 0);
        assert(all_features(chunks.drop_last()) == Seq::<Seq<char>>::empty());
        assert(all_features(chunks.drop_first()) == Seq::<Seq<char>>::empty());
        assert(chunks.last() == chunks[0]);
        assert(Seq::<Seq<char>>::empty() + chunks[0].1 =~= chunks[0].1);
        assert(chunks[0].1 + Seq::<Seq<char>>::empty() =~= chunks[0].1);
    } else {
        let init = chunks.drop_last();
        lemma_all_features_first(init);
        assert(init.drop_first() =~= chunks.drop_first().drop_last());
        assert(chunks.drop_first().last() == chunks.last());
        assert(init[0] == chunks[0]);
        let a = all_features(init.drop_first());
        assert(all_features(chunks.drop_first()) == a + chunks.last().1);
        assert(chunks[0].1 + (a + chunks.last().1) =~= (chunks[0].1 + a) + chunks.last().1);
    }
}

proof fn lemma_writer_run_rest(
    w: GeoJsonWriter,
    chunks: Seq<(Option<Seq<char>>, Seq<Seq<char>>)>,
)
    requires
        w.opened,
    ensures
        writer_run(w, chunks) == sep_join(all_features(chunks), w.wrote_feature) + closing(),
    decreases chunks.len(),
{
    if chunks.len() == 0 {
        assert(sep_join(all_features(chunks), w.wrote_feature) =~= Seq::<char>::empty());
        assert(finish_output(w) =~= Seq::<char>::empty() + closing());
    } else {
        let first = chunks[0].1;
        let rest = chunks.drop_first();
        let w2 = chunk_state(w, first);
        lemma_writer_run_rest(w2, rest);
        lemma_all_features_first(chunks);
        lemma_sep_join_append(first, all_features(rest), w.wrote_feature);
        assert(chunk_output(w, chunks[0].0, first) =~= sep_join(first, w.wrote_feature));
        assert(w.wrote_feature || first.len() > 0 <==> w2.wrote_feature);
    }
}

/// The writer, fed the chunks in plan order and then finished, writes
/// exactly one well-formed feature collection: opened once with the first
/// chunk's reference block, every feature once and in order with commas
/// between, closed once.
pub proof fn lemma_geojson_stream(chunks: Seq<(Option<Seq<char>>, Seq<Seq<char>>)>)
    ensures
        writer_run(GeoJsonWriter { opened: false, wrote_feature: false }, chunks) == geojson_document(
            chunks,
        ),
{
    let w = GeoJsonWriter { opened: false, wrote_feature: false };
    if chunks.len() == 0 {
        assert(sep_join(all_features(chunks), false) =~= Seq::<char>::empty());
        assert(geojson_document(chunks) =~= opening(None) + closing());
    } else {
        let first = chunks[0].1;
        let rest = chunks.drop_first();
        let w2 = chunk_state(w, first);
        lemma_writer_run_rest(w2, rest);
        lemma_all_features_first(chunks);
        lemma_sep_join_append(first, all_features(rest), false);
        assert(writer_run(w, chunks) =~= geojson_document(chunks));
    }
}

/// An empty service gives an empty collection.
pub proof fn lemma_empty_geojson()
    ensures
        writer_run(GeoJsonWriter { opened: false, wrote_feature: false }, Seq::empty())
            == "{\"type\":\"FeatureCollection\",\"features\":["@ + "]}"@,
{
}

/// The CSV lines of a chunk's features, in order.
pub open spec fn csv_chunk_spec(
    fields: Seq<ServiceField>,
    kind: Option<RestServiceGeometryType>,
    features: Seq<Feature>,
) -> Seq<char>
    decreases features.len(),
{
    if features.len() == 0 {
        Seq::empty()
    } else {
        csv_chunk_spec(fields, kind, features.drop_last()) + csv_line_spec(
            record_spec(fields, kind, features.last()),
        )
    }
}

/// The whole CSV table for chunks in plan order: the header line, then the
/// lines of every chunk in order.
pub open spec fn csv_document(
    fields: Seq<ServiceField>,
    kind: Option<RestServiceGeometryType>,
    chunks: Seq<Seq<Feature>>,
) -> Seq<char>
    decreases chunks.len(),
{
    if chunks.len() == 0 {
        csv_line_spec(header_spec(fields, kind))
    } else {
        csv_document(fields, kind, chunks.drop_last()) + csv_chunk_spec(fields, kind, chunks.last())
    }
}

/// An empty service gives a table with its header line alone.
pub proof fn lemma_empty_csv(fields: Seq<ServiceField>, kind: Option<RestServiceGeometryType>)
    ensures
        csv_document(fields, kind, Seq::empty()) == csv_line_spec(header_spec(fields, kind)),
{
}

/// The header line of the CSV table.
pub fn csv_header_line(fields: &Vec<ServiceField>, kind: Option<RestServiceGeometryType>) -> (r: String)
    ensures
        r@ == csv_line_spec(header_spec(fields@, kind)),
{
    let header = csv_header(fields, kind);
    csv_line(&header)
}

/// The CSV lines of one chunk's features, in order.
pub fn csv_chunk_text(
    fields: &Vec<ServiceField>,
    kind: Option<RestServiceGeometryType>,
    features: &Vec<Feature>,
) -> (r: String)
    ensures
        r@ == csv_chunk_spec(fields@, kind, features@),
{
    let mut out = String::new();
    let mut i: usize = 0;
    while i < features.len()
        invariant
            i <= features.len(),
            out@ == csv_chunk_spec(fields@, kind, features@.subrange(0, i as int)),
        decreases features.len() - i,
    {
        let record = csv_record(fields, kind, &features[i]);
        let line = csv_line(&record);
        proof {
            let next = features@.subrange(0, i + 1);
            assert(next.drop_last() =~= features@.subrange(0, i as int));
            assert(next.last() == features@[i as int]);
        }
        out.append(line.as_str());
        i = i + 1;
    }
    assert(features@.subrange(0, i as int) =~= features@);
    out
}

} // verus!
