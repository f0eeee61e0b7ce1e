//! Signature and implementation hashes.
//!
//! A signature hash covers what callers see of a catalog row. The row becomes
//! a JSON array, the array is written in canonical form, and its UTF-8 bytes
//! are hashed. An implementation hash covers source files instead.
use vstd::prelude::*;

use crate::digest::{blake3_hash, blake3_hex};
use crate::json::{
    array_value, bool_value, canonicalize, integer_value, null_value, object_value, parse_value,
    text_value, value_bytes,
};
use crate::order::stable_sort;
use crate::sources::{bytes_equal, is_rust_source, HelperFile};

verus! {

// ---------------------------------------------------------------------------
// Canonical JSON
// ---------------------------------------------------------------------------

/// A document could not be written.
#[derive(Clone, Copy, Debug, PartialEq, Eq, Structural)]
pub struct SerializeError;

/// The bytes of a list of documents: a JSON array that keeps their order, each
/// in canonical form.
pub open spec fn canonical_bytes(docs: Seq<crate::json::Json>) -> Seq<u8> {
    vstd::utf8::encode_utf8(
        crate::json::json_text(crate::json::Json::Array(crate::json::canonical_items(docs))),
    )
}

/// Writes values as a JSON array in canonical form: the order of the values is
/// kept, and the members of every object inside them are sorted by key.
///
/// A column that holds JSON as text is parsed by [`recanonicalize_json_str`]
/// before it comes here; a string among the values is written as a string.
pub fn canonical_json_bytes(values: &[serde_json::Value]) -> (r: Result<Vec<u8>, SerializeError>)
    ensures
        r is Ok,
        r->Ok_0@ == canonical_bytes(crate::json::jsons(values@)),
{
    let ghost docs = crate::json::jsons(values@);
    let mut items: Vec<serde_json::Value> = Vec::new();
    let mut i: usize = 0;
    while i < values.len()
        invariant
            i <= values@.len(),
            docs == crate::json::jsons(values@),
            crate::json::jsons(items@) == crate::json::canonical_items(docs.take(i as int)),
        decreases values@.len() - i,
    {
        let ghost before = items@;
        let item = canonicalize(&values[i]);
        assert(docs.take(i + 1).drop_last() =~= docs.take(i as int));
        assert(docs.take(i + 1).last() == crate::json::value_json(values@[i as int]));
        items.push(item);
        assert(crate::json::jsons(items@) =~= crate::json::jsons(before).push(
            crate::json::value_json(item),
        ));
        i += 1;
    }
    assert(docs.take(i as int) =~= docs);
    match value_bytes(&array_value(items)) {
        Ok(bytes) => Ok(bytes),
        Err(_) => Err(SerializeError),
    }
}

/// The document that a JSON-shaped text stands for: what it parses to, in
/// canonical form; the text itself if it does not parse.
pub open spec fn recanonicalized(raw: Seq<char>) -> crate::json::Json {
    match crate::json::read_json(raw) {
        Some(doc) => crate::json::canonical(doc),
        None => crate::json::Json::Text(raw),
    }
}

/// What becomes of a JSON-shaped text once it was parsed, or not.
pub fn recanonicalize_parsed(raw: &str, parsed: Option<serde_json::Value>) -> (r: serde_json::Value)
    ensures
        crate::json::value_json(r) == (match parsed {
            Some(v) => crate::json::canonical(crate::json::value_json(v)),
            None => crate::json::Json::Text(raw@),
        }),
{
    match parsed {
        Some(v) => canonicalize(&v),
        None => text_value(raw.to_owned()),
    }
}

/// Parses a JSON-shaped text and brings it into canonical form. A text that
/// does not parse stands for itself, as a JSON string.
pub fn recanonicalize_json_str(raw: &str) -> (r: serde_json::Value)
    ensures
        crate::json::value_json(r) == recanonicalized(raw@),
{
    let parsed = match parse_value(raw) {
        Ok(v) => Some(v),
        Err(_) => None,
    };
    recanonicalize_parsed(raw, parsed)
}

/// The hash of a list of documents.
pub open spec fn document_hash_text(docs: Seq<crate::json::Json>) -> Seq<char> {
    crate::digest::hex_text(crate::digest::blake3_digest(canonical_bytes(docs)))
}

/// Hashes the canonical bytes of a list of values.
pub fn document_hash(values: &[serde_json::Value]) -> (r: String)
    ensures
        r@ == document_hash_text(crate::json::jsons(values@)),
{
    match canonical_json_bytes(values) {
        Ok(bytes) => blake3_hex(bytes.as_slice()),
        Err(_) => String::new(),
    }
}

// ---------------------------------------------------------------------------
// Functions
// ---------------------------------------------------------------------------

/// What callers see of a scalar function.
#[derive(Clone, Copy, Debug)]
pub struct ScalarSig<'a> {
    pub name: &'a str,
    pub param_types_json: &'a str,
    pub return_type: &'a str,
    pub is_deterministic: bool,
    pub propagates_null: bool,
}

/// A scalar function as a document, given the document of its parameters.
pub open spec fn scalar_document(
    s: ScalarSig<'_>,
    params: crate::json::Json,
) -> Seq<crate::json::Json> {
    seq![
        crate::json::Json::Text(s.name@),
        params,
        crate::json::Json::Text(s.return_type@),
        crate::json::Json::Bool(s.is_deterministic),
        crate::json::Json::Bool(s.propagates_null),
    ]
}

/// A scalar function as a list of values, given the value of its parameters.
pub fn scalar_values(s: &ScalarSig<'_>, params: serde_json::Value) -> (r: Vec<serde_json::Value>)
    ensures
        crate::json::jsons(r@) == scalar_document(*s, crate::json::value_json(params)),
{
    let r = vec![
        text_value(s.name.to_owned()),
        params,
        text_value(s.return_type.to_owned()),
        bool_value(s.is_deterministic),
        bool_value(s.propagates_null),
    ];
    assert(crate::json::jsons(r@) =~= scalar_document(*s, crate::json::value_json(params)));
    r
}

/// The signature hash of a scalar function.
pub fn scalar_signature_hash(s: &ScalarSig<'_>) -> (r: String)
    ensures
        r@ == document_hash_text(scalar_document(*s, recanonicalized(s.param_types_json@))),
{
    let params = recanonicalize_json_str(s.param_types_json);
    document_hash(scalar_values(s, params).as_slice())
}

/// What callers see of an aggregate function.
#[derive(Clone, Copy, Debug)]
pub struct AggregateSig<'a> {
    pub name: &'a str,
    pub param_types_json: &'a str,
    pub supports_grouped: bool,
    pub supports_partial: bool,
    pub is_order_sensitive: bool,
    pub accepts_config: bool,
    pub config_arg_indices_json: &'a str,
}

/// An aggregate function as a document, given the documents of its parameters
/// and of its configuration arguments.
pub open spec fn aggregate_document(
    a: AggregateSig<'_>,
    params: crate::json::Json,
    config: crate::json::Json,
) -> Seq<crate::json::Json> {
    seq![
        crate::json::Json::Text(a.name@),
        params,
        crate::json::Json::Bool(a.supports_grouped),
        crate::json::Json::Bool(a.supports_partial),
        crate::json::Json::Bool(a.is_order_sensitive),
        crate::json::Json::Bool(a.accepts_config),
        config,
    ]
}

/// An aggregate function as a list of values, given the values of its
/// parameters and of its configuration arguments.
pub fn aggregate_values(
    a: &AggregateSig<'_>,
    params: serde_json::Value,
    config: serde_json::Value,
) -> (r: Vec<serde_json::Value>)
    ensures
        crate::json::jsons(r@) == aggregate_document(
            *a,
            crate::json::value_json(params),
            crate::json::value_json(config),
        ),
{
    let r = vec![
        text_value(a.name.to_owned()),
        params,
        bool_value(a.supports_grouped),
        bool_value(a.supports_partial),
        bool_value(a.is_order_sensitive),
        bool_value(a.accepts_config),
        config,
    ];
    assert(crate::json::jsons(r@) =~= aggregate_document(
        *a,
        crate::json::value_json(params),
        crate::json::value_json(config),
    ));
    r
}

/// The signature hash of an aggregate function.
pub fn aggregate_signature_hash(a: &AggregateSig<'_>) -> (r: String)
    ensures
        r@ == document_hash_text(
            aggregate_document(
                *a,
                recanonicalized(a.param_types_json@),
                recanonicalized(a.config_arg_indices_json@),
            ),
        ),
{
    let params = recanonicalize_json_str(a.param_types_json);
    let config = recanonicalize_json_str(a.config_arg_indices_json);
    document_hash(aggregate_values(a, params, config).as_slice())
}

/// What callers see of a table or window function.
#[derive(Clone, Copy, Debug)]
pub struct SimpleFnSig<'a> {
    pub name: &'a str,
    pub param_types_json: &'a str,
}

/// A table or window function as a document, given the document of its
/// parameters.
pub open spec fn simple_fn_document(
    kind: Seq<char>,
    t: SimpleFnSig<'_>,
    params: crate::json::Json,
) -> Seq<crate::json::Json> {
    seq![crate::json::Json::Text(kind), crate::json::Json::Text(t.name@), params]
}

/// A table or window function as a list of values, given the value of its
/// parameters.
pub fn simple_fn_values(
    kind: &str,
    t: &SimpleFnSig<'_>,
    params: serde_json::Value,
) -> (r: Vec<serde_json::Value>)
    ensures
        crate::json::jsons(r@) == simple_fn_document(kind@, *t, crate::json::value_json(params)),
{
    let r = vec![text_value(kind.to_owned()), text_value(t.name.to_owned()), params];
    assert(crate::json::jsons(r@) =~= simple_fn_document(
        kind@,
        *t,
        crate::json::value_json(params),
    ));
    r
}

/// The signature hash of a table function.
pub fn table_function_signature_hash(t: &SimpleFnSig<'_>) -> (r: String)
    ensures
        r@ == document_hash_text(
            simple_fn_document("table_function"@, *t, recanonicalized(t.param_types_json@)),
        ),
{
    simple_fn_signature_hash("table_function", t)
}

/// The signature hash of a window function.
pub fn window_function_signature_hash(t: &SimpleFnSig<'_>) -> (r: String)
    ensures
        r@ == document_hash_text(
            simple_fn_document("window_function"@, *t, recanonicalized(t.param_types_json@)),
        ),
{
    simple_fn_signature_hash("window_function", t)
}

fn simple_fn_signature_hash(kind: &str, t: &SimpleFnSig<'_>) -> (r: String)
    ensures
        r@ == document_hash_text(
            simple_fn_document(kind@, *t, recanonicalized(t.param_types_json@)),
        ),
{
    let params = recanonicalize_json_str(t.param_types_json);
    document_hash(simple_fn_values(kind, t, params).as_slice())
}

// ---------------------------------------------------------------------------
// Types, operators, casts, indexes, patterns
// ---------------------------------------------------------------------------

/// What callers see of a column type.
#[derive(Clone, Copy, Debug)]
pub struct ColumnTypeSig<'a> {
    pub typename: &'a str,
    pub storage_size: i64,
    pub cast_from_json: &'a str,
    pub cast_to_json: &'a str,
}

/// A column type as a document, given the documents of its casts.
pub open spec fn column_type_document(
    t: ColumnTypeSig<'_>,
    cast_from: crate::json::Json,
    cast_to: crate::json::Json,
) -> Seq<crate::json::Json> {
    seq![
        crate::json::Json::Text("column_type"@),
        crate::json::Json::Text(t.typename@),
        crate::json::Json::Number(crate::text::integer_text(t.storage_size as int)),
        cast_from,
        cast_to,
    ]
}

/// A column type as a list of values, given the values of its casts.
pub fn column_type_values(
    t: &ColumnTypeSig<'_>,
    cast_from: serde_json::Value,
    cast_to: serde_json::Value,
) -> (r: Vec<serde_json::Value>)
    ensures
        crate::json::jsons(r@) == column_type_document(
            *t,
            crate::json::value_json(cast_from),
            crate::json::value_json(cast_to),
        ),
{
    let r = vec![
        text_value("column_type".to_owned()),
        text_value(t.typename.to_owned()),
        integer_value(t.storage_size),
        cast_from,
        cast_to,
    ];
    assert(crate::json::jsons(r@) =~= column_type_document(
        *t,
        crate::json::value_json(cast_from),
        crate::json::value_json(cast_to),
    ));
    r
}

/// The signature hash of a column type.
pub fn column_type_signature_hash(t: &ColumnTypeSig<'_>) -> (r: String)
    ensures
        r@ == document_hash_text(
            column_type_document(
                *t,
                recanonicalized(t.cast_from_json@),
                recanonicalized(t.cast_to_json@),
            ),
        ),
{
    let cast_from = recanonicalize_json_str(t.cast_from_json);
    let cast_to = recanonicalize_json_str(t.cast_to_json);
    document_hash(column_type_values(t, cast_from, cast_to).as_slice())
}

/// What callers see of an operator.
#[derive(Clone, Copy, Debug)]
pub struct OperatorSig<'a> {
    pub symbol: &'a str,
    pub lhs_type_id: Option<i64>,
    pub rhs_type_id: Option<i64>,
    pub backing_function: &'a str,
}

/// An operand type as a document: its id, or null.
pub open spec fn operand_document(id: Option<i64>) -> crate::json::Json {
    match id {
        Some(n) => crate::json::Json::Number(crate::text::integer_text(n as int)),
        None => crate::json::Json::Null,
    }
}

/// An operator as a document.
pub open spec fn operator_document(o: OperatorSig<'_>) -> Seq<crate::json::Json> {
    seq![
        crate::json::Json::Text("operator"@),
        crate::json::Json::Text(o.symbol@),
        operand_document(o.lhs_type_id),
        operand_document(o.rhs_type_id),
        crate::json::Json::Text(o.backing_function@),
    ]
}

fn operand_value(id: Option<i64>) -> (r: serde_json::Value)
    ensures
        crate::json::value_json(r) == operand_document(id),
{
    match id {
        Some(n) => integer_value(n),
        None => null_value(),
    }
}

/// An operator as a list of values.
pub fn operator_values(o: &OperatorSig<'_>) -> (r: Vec<serde_json::Value>)
    ensures
        crate::json::jsons(r@) == operator_document(*o),
{
    let r = vec![
        text_value("operator".to_owned()),
        text_value(o.symbol.to_owned()),
        operand_value(o.lhs_type_id),
        operand_value(o.rhs_type_id),
        text_value(o.backing_function.to_owned()),
    ];
    assert(crate::json::jsons(r@) =~= operator_document(*o));
    r
}

/// The signature hash of an operator.
pub fn operator_signature_hash(o: &OperatorSig<'_>) -> (r: String)
    ensures
        r@ == document_hash_text(operator_document(*o)),
{
    document_hash(operator_values(o).as_slice())
}

/// What callers see of a cast rewrite.
#[derive(Clone, Copy, Debug)]
pub struct CastRewriteSig<'a> {
    pub source_type_id: i64,
    pub target_type: &'a str,
    pub source_kind: &'a str,
    pub source_fn_hint: &'a str,
    pub rewrite_target: &'a str,
}

/// A cast rewrite as a document.
pub open spec fn cast_rewrite_document(c: CastRewriteSig<'_>) -> Seq<crate::json::Json> {
    seq![
        crate::json::Json::Text("cast_rewrite"@),
        crate::json::Json::Number(crate::text::integer_text(c.source_type_id as int)),
        crate::json::Json::Text(c.target_type@),
        crate::json::Json::Text(c.source_kind@),
        crate::json::Json::Text(c.source_fn_hint@),
        crate::json::Json::Text(c.rewrite_target@),
    ]
}

/// A cast rewrite as a list of values.
pub fn cast_rewrite_values(c: &CastRewriteSig<'_>) -> (r: Vec<serde_json::Value>)
    ensures
        crate::json::jsons(r@) == cast_rewrite_document(*c),
{
    let r = vec![
        text_value("cast_rewrite".to_owned()),
        integer_value(c.source_type_id),
        text_value(c.target_type.to_owned()),
        text_value(c.source_kind.to_owned()),
        text_value(c.source_fn_hint.to_owned()),
        text_value(c.rewrite_target.to_owned()),
    ];
    assert(crate::json::jsons(r@) =~= cast_rewrite_document(*c));
    r
}

/// The signature hash of a cast rewrite.
pub fn cast_rewrite_signature_hash(c: &CastRewriteSig<'_>) -> (r: String)
    ensures
        r@ == document_hash_text(cast_rewrite_document(*c)),
{
    document_hash(cast_rewrite_values(c).as_slice())
}

/// What callers see of a spatial index.
#[derive(Clone, Copy, Debug)]
pub struct SpatialIndexSig<'a> {
    pub method: &'a str,
    pub capabilities_json: &'a str,
}

/// A spatial index as a document, given the document of its capabilities.
pub open spec fn spatial_index_document(
    s: SpatialIndexSig<'_>,
    caps: crate::json::Json,
) -> Seq<crate::json::Json> {
    seq![
        crate::json::Json::Text("spatial_index"@),
        crate::json::Json::Text(s.method@),
        caps,
    ]
}

/// The document of an index's capabilities: the empty object where there are
/// none.
pub open spec fn capabilities_document(raw: Seq<char>) -> crate::json::Json {
    if raw.len() == 0 {
        crate::json::Json::Object(Seq::empty())
    } else {
        recanonicalized(raw)
    }
}

/// A spatial index as a list of values, given the value of its capabilities.
pub fn spatial_index_values(
    s: &SpatialIndexSig<'_>,
    caps: serde_json::Value,
) -> (r: Vec<serde_json::Value>)
    ensures
        crate::json::jsons(r@) == spatial_index_document(*s, crate::json::value_json(caps)),
{
    let r = vec![
        text_value("spatial_index".to_owned()),
        text_value(s.method.to_owned()),
        caps,
    ];
    assert(crate::json::jsons(r@) =~= spatial_index_document(*s, crate::json::value_json(caps)));
    r
}

/// The signature hash of a spatial index. Missing capabilities count as the
/// empty object.
pub fn spatial_index_signature_hash(s: &SpatialIndexSig<'_>) -> (r: String)
    ensures
        r@ == document_hash_text(
            spatial_index_document(*s, capabilities_document(s.capabilities_json@)),
        ),
{
    let caps = if s.capabilities_json.is_empty() {
        object_value(serde_json::Map::<String, serde_json::Value>::new())
    } else {
        recanonicalize_json_str(s.capabilities_json)
    };
    document_hash(spatial_index_values(s, caps).as_slice())
}

/// What callers see of a preprocessor pattern.
#[derive(Clone, Copy, Debug)]
pub struct PreprocessorPatternSig<'a> {
    pub op_token: &'a str,
    pub function_name: &'a str,
}

/// A preprocessor pattern as a document.
pub open spec fn preprocessor_pattern_document(
    p: PreprocessorPatternSig<'_>,
) -> Seq<crate::json::Json> {
    seq![
        crate::json::Json::Text("preprocessor_pattern"@),
        crate::json::Json::Text(p.op_token@),
        crate::json::Json::Text(p.function_name@),
    ]
}

/// A preprocessor pattern as a list of values.
pub fn preprocessor_pattern_values(p: &PreprocessorPatternSig<'_>) -> (r: Vec<serde_json::Value>)
    ensures
        crate::json::jsons(r@) == preprocessor_pattern_document(*p),
{
    let r = vec![
        text_value("preprocessor_pattern".to_owned()),
        text_value(p.op_token.to_owned()),
        text_value(p.function_name.to_owned()),
    ];
    assert(crate::json::jsons(r@) =~= preprocessor_pattern_document(*p));
    r
}

/// The signature hash of a preprocessor pattern.
pub fn preprocessor_pattern_signature_hash(p: &PreprocessorPatternSig<'_>) -> (r: String)
    ensures
        r@ == document_hash_text(preprocessor_pattern_document(*p)),
{
    document_hash(preprocessor_pattern_values(p).as_slice())
}

// ---------------------------------------------------------------------------
// Implementation hashes
// ---------------------------------------------------------------------------

/// What one helper file adds to the digest: its path, a zero byte, its bytes.
pub open spec fn helper_bytes(f: HelperFile) -> Seq<u8> {
    vstd::utf8::encode_utf8(f.rel@).push(0) + f.bytes@
}

/// What helper files add to the digest, one after the other.
pub open spec fn helpers_bytes(files: Seq<HelperFile>) -> Seq<u8>
    decreases files.len(),
{
    if files.len() == 0 {
        Seq::empty()
    } else {
        helpers_bytes(files.drop_last()) + helper_bytes(files.last())
    }
}

/// Those of the files that are Rust sources.
pub open spec fn rust_helpers(files: Seq<HelperFile>) -> Seq<HelperFile>
    decreases files.len(),
{
    if files.len() == 0 {
        Seq::empty()
    } else if crate::sources::rust_source(files.last().entry) {
        rust_helpers(files.drop_last()).push(files.last())
    } else {
        rust_helpers(files.drop_last())
    }
}

/// The helper files that count, in the order of their paths.
pub open spec fn helpers_in_order(files: Seq<HelperFile>) -> Seq<HelperFile> {
    crate::order::stable_sorted(rust_helpers(files), crate::order::rank_order::<HelperFile>())
}

fn append_bytes(out: &mut Vec<u8>, more: &[u8])
    ensures
        final(out)@ == old(out)@ + more@,
{
    let ghost before = out@;
    let mut i: usize = 0;
    while i < more.len()
        invariant
            i <= more@.len(),
            out@ == before + more@.take(i as int),
        decreases more@.len() - i,
    {
        out.push(more[i]);
        i += 1;
        assert(out@ =~= before + more@.take(i as int));
    }
    assert(out@ =~= before + more@);
}

fn only_rust(files: Vec<HelperFile>) -> (r: Vec<HelperFile>)
    ensures
        r@ == rust_helpers(files@),
{
    let mut out: Vec<HelperFile> = Vec::new();
    for f in it: files
        invariant
            it.seq() == files@,
            out@ == rust_helpers(files@.take(it.index() as int)),
    {
        assert(files@.take(it.index() + 1).drop_last() =~= files@.take(it.index() as int));
        if is_rust_source(&f.entry) {
            out.push(f);
        }
    }
    assert(files@.take(files@.len() as int) =~= files@);
    out
}

/// The digest of the helper files of a source tree: its Rust sources, taken in
/// the order of their paths. Only paths below the directory of the helpers go
/// into it, so it does not matter where the directory lies.
pub fn helpers_hash(files: Vec<HelperFile>) -> (r: [u8; 32])
    ensures
        r@ == crate::digest::blake3_digest(helpers_bytes(helpers_in_order(files@))),
{
    let files = stable_sort(only_rust(files));
    let mut input: Vec<u8> = Vec::new();
    let mut i: usize = 0;
    while i < files.len()
        invariant
            i <= files@.len(),
            input@ == helpers_bytes(files@.take(i as int)),
        decreases files@.len() - i,
    {
        assert(files@.take(i + 1).drop_last() =~= files@.take(i as int));
        let ghost before = input@;
        append_bytes(&mut input, files[i].rel.as_str().as_bytes());
        input.push(0);
        append_bytes(&mut input, files[i].bytes.as_slice());
        assert(input@ =~= before + helper_bytes(files@[i as int]));
        i += 1;
    }
    assert(files@.take(i as int) =~= files@);
    blake3_hash(input.as_slice())
}

/// The digests of the helpers that a process has worked out, by the absolute
/// paths of their directories. The first digest of a path stays, even if files
/// change meanwhile.
#[derive(Debug)]
pub struct HelpersCache {
    entries: Vec<(Vec<u8>, [u8; 32])>,
}

/// The digest that is listed first for a path.
pub open spec fn first_digest(entries: Seq<(Seq<u8>, Seq<u8>)>, path: Seq<u8>) -> Option<Seq<u8>>
    decreases entries.len(),
{
    if entries.len() == 0 {
        None
    } else if first_digest(entries.drop_last(), path) is Some {
        first_digest(entries.drop_last(), path)
    } else if entries.last().0 == path {
        Some(entries.last().1)
    } else {
        None
    }
}

/// What is kept after digests were handed to a cache one after the other: that
/// of `path` is the one that was kept before, or else the first that was handed
/// over for it.
pub open spec fn kept_after(
    kept: Option<Seq<u8>>,
    path: Seq<u8>,
    handed: Seq<(Seq<u8>, Seq<u8>)>,
) -> Option<Seq<u8>>
    decreases handed.len(),
{
    if handed.len() == 0 {
        kept
    } else {
        let so_far = kept_after(kept, path, handed.drop_last());
        if so_far is Some || handed.last().0 != path {
            so_far
        } else {
            Some(handed.last().1)
        }
    }
}

impl HelpersCache {
    /// The paths and digests, in the order in which they were worked out.
    pub closed spec fn entries(&self) -> Seq<(Seq<u8>, Seq<u8>)> {
        self.entries@.map_values(|e: (Vec<u8>, [u8; 32])| (e.0@, e.1@))
    }

    /// The digest that is kept for a path.
    pub open spec fn kept(&self, path: Seq<u8>) -> Option<Seq<u8>> {
        first_digest(self.entries(), path)
    }

    /// A cache without digests.
    pub fn new() -> (r: HelpersCache)
        ensures
            forall|path: Seq<u8>| #[trigger] r.kept(path) is None,
    {
        let r = HelpersCache { entries: Vec::new() };
        assert(r.entries().len() == 0);
        r
    }

    /// The digest that is kept for a path, if there is one.
    pub fn get(&self, path: &[u8]) -> (r: Option<[u8; 32]>)
        ensures
            match r {
                Some(d) => self.kept(path@) == Some(d@),
                None => self.kept(path@) is None,
            },
    {
        let ghost all = self.entries();
        let mut i: usize = 0;
        while i < self.entries.len()
            invariant
                all == self.entries(),
                i <= self.entries@.len(),
                first_digest(all.take(i as int), path@) is None,
            decreases self.entries@.len() - i,
        {
            assert(all.take(i + 1).drop_last() =~= all.take(i as int));
            assert(all.take(i + 1).last() == all[i as int]);
            if bytes_equal(self.entries[i].0.as_slice(), path) {
                proof {
                    lemma_first_stays(all.take(i + 1), all.skip(i + 1), path@);
                    assert(all.take(i + 1) + all.skip(i + 1) =~= all);
                }
                return Some(self.entries[i].1);
            }
            i += 1;
        }
        assert(all.take(i as int) =~= all);
        None
    }

    /// Keeps a digest for a path, unless one is kept already; hands back the one
    /// that is kept.
    pub fn remember(&mut self, path: Vec<u8>, digest: [u8; 32]) -> (r: [u8; 32])
        ensures
            final(self).kept(path@) == Some(r@),
            r@ == match old(self).kept(path@) {
                Some(d) => d,
                None => digest@,
            },
            forall|p: Seq<u8>| #[trigger]
                final(self).kept(p) == kept_after(
                    old(self).kept(p),
                    p,
                    seq![(path@, digest@)],
                ),
    {
        proof {
            reveal_with_fuel(kept_after, 2);
            assert(seq![(path@, digest@)].drop_last() =~= Seq::empty());
        }
        if let Some(d) = self.get(path.as_slice()) {
            return d;
        }
        let ghost before = self.entries();
        let ghost added = (path@, digest@);
        self.entries.push((path, digest));
        assert(self.entries() =~= before.push(added));
        assert(self.entries().drop_last() =~= before);
        digest
    }
}

/// What is listed first stays first.
proof fn lemma_first_stays(
    entries: Seq<(Seq<u8>, Seq<u8>)>,
    more: Seq<(Seq<u8>, Seq<u8>)>,
    path: Seq<u8>,
)
    requires
        first_digest(entries, path) is Some,
    ensures
        first_digest(entries + more, path) == first_digest(entries, path),
    decreases more.len(),
{
    if more.len() == 0 {
        assert(entries + more =~= entries);
    } else {
        lemma_first_stays(entries, more.drop_last(), path);
        assert((entries + more).drop_last() =~= entries + more.drop_last());
    }
}

/// What an implementation hash covers: the owner file, if there is one, and the
/// digest of the helpers.
pub open spec fn implementation_bytes(owner: Option<Seq<u8>>, helpers: Seq<u8>) -> Seq<u8> {
    match owner {
        Some(bytes) => bytes + helpers,
        None => helpers,
    }
}

/// The hash of an implementation: the owner file, given by what it holds, and
/// the digest of the helpers. Without an owner file only the helpers count.
pub fn implementation_hash(owner_file: Option<&[u8]>, helpers_hash: &[u8; 32]) -> (r: String)
    ensures
        r@ == crate::digest::hex_text(
            crate::digest::blake3_digest(
                implementation_bytes(
                    match owner_file {
                        Some(b) => Some(b@),
                        None => None,
                    },
                    helpers_hash@,
                ),
            ),
        ),
{
    let mut input: Vec<u8> = Vec::new();
    match owner_file {
        Some(bytes) => {
            append_bytes(&mut input, bytes);
        },
        None => {},
    }
    append_bytes(&mut input, helpers_hash.as_slice());
    assert(input@ =~= implementation_bytes(
        match owner_file {
            Some(b) => Some(b@),
            None => None,
        },
        helpers_hash@,
    ));
    blake3_hex(input.as_slice())
}

// ---------------------------------------------------------------------------
// Laws
// ---------------------------------------------------------------------------

/// The signature of a catalog row, of any kind.
pub enum Signature<'a> {
    Scalar(ScalarSig<'a>),
    Aggregate(AggregateSig<'a>),
    TableFunction(SimpleFnSig<'a>),
    WindowFunction(SimpleFnSig<'a>),
    ColumnType(ColumnTypeSig<'a>),
    Operator(OperatorSig<'a>),
    CastRewrite(CastRewriteSig<'a>),
    SpatialIndex(SpatialIndexSig<'a>),
    PreprocessorPattern(PreprocessorPatternSig<'a>),
}

/// The document that is hashed for a signature.
pub open spec fn signature_document(s: Signature<'_>) -> Seq<crate::json::Json> {
    match s {
        Signature::Scalar(x) => scalar_document(x, recanonicalized(x.param_types_json@)),
        Signature::Aggregate(x) => aggregate_document(
            x,
            recanonicalized(x.param_types_json@),
            recanonicalized(x.config_arg_indices_json@),
        ),
        Signature::TableFunction(x) => simple_fn_document(
            "table_function"@,
            x,
            recanonicalized(x.param_types_json@),
        ),
        Signature::WindowFunction(x) => simple_fn_document(
            "window_function"@,
            x,
            recanonicalized(x.param_types_json@),
        ),
        Signature::ColumnType(x) => column_type_document(
            x,
            recanonicalized(x.cast_from_json@),
            recanonicalized(x.cast_to_json@),
        ),
        Signature::Operator(x) => operator_document(x),
        Signature::CastRewrite(x) => cast_rewrite_document(x),
        Signature::SpatialIndex(x) => spatial_index_document(
            x,
            capabilities_document(x.capabilities_json@),
        ),
        Signature::PreprocessorPattern(x) => preprocessor_pattern_document(x),
    }
}

/// Two signatures are of the same kind and agree in every field; fields that
/// hold JSON need only stand for the same document.
pub open spec fn same_signature(a: Signature<'_>, b: Signature<'_>) -> bool {
    match (a, b) {
        (Signature::Scalar(x), Signature::Scalar(y)) => {
            &&& x.name@ == y.name@
            &&& recanonicalized(x.param_types_json@) == recanonicalized(y.param_types_json@)
            &&& x.return_type@ == y.return_type@
            &&& x.is_deterministic == y.is_deterministic
            &&& x.propagates_null == y.propagates_null
        },
        (Signature::Aggregate(x), Signature::Aggregate(y)) => {
            &&& x.name@ == y.name@
            &&& recanonicalized(x.param_types_json@) == recanonicalized(y.param_types_json@)
            &&& x.supports_grouped == y.supports_grouped
            &&& x.supports_partial == y.supports_partial
            &&& x.is_order_sensitive == y.is_order_sensitive
            &&& x.accepts_config == y.accepts_config
            &&& recanonicalized(x.config_arg_indices_json@) == recanonicalized(
                y.config_arg_indices_json@,
            )
        },
        (Signature::TableFunction(x), Signature::TableFunction(y)) => same_simple_fn(x, y),
        (Signature::WindowFunction(x), Signature::WindowFunction(y)) => same_simple_fn(x, y),
        (Signature::ColumnType(x), Signature::ColumnType(y)) => {
            &&& x.typename@ == y.typename@
            &&& x.storage_size == y.storage_size
            &&& recanonicalized(x.cast_from_json@) == recanonicalized(y.cast_from_json@)
            &&& recanonicalized(x.cast_to_json@) == recanonicalized(y.cast_to_json@)
        },
        (Signature::Operator(x), Signature::Operator(y)) => {
            &&& x.symbol@ == y.symbol@
            &&& x.lhs_type_id == y.lhs_type_id
            &&& x.rhs_type_id == y.rhs_type_id
            &&& x.backing_function@ == y.backing_function@
        },
        (Signature::CastRewrite(x), Signature::CastRewrite(y)) => {
            &&& x.source_type_id == y.source_type_id
            &&& x.target_type@ == y.target_type@
            &&& x.source_kind@ == y.source_kind@
            &&& x.source_fn_hint@ == y.source_fn_hint@
            &&& x.rewrite_target@ == y.rewrite_target@
        },
        (Signature::SpatialIndex(x), Signature::SpatialIndex(y)) => {
            &&& x.method@ == y.method@
            &&& capabilities_document(x.capabilities_json@) == capabilities_document(
                y.capabilities_json@,
            )
        },
        (Signature::PreprocessorPattern(x), Signature::PreprocessorPattern(y)) => {
            &&& x.op_token@ == y.op_token@
            &&& x.function_name@ == y.function_name@
        },
        _ => false,
    }
}

/// Two table functions, or two window functions, agree in every field.
pub open spec fn same_simple_fn(x: SimpleFnSig<'_>, y: SimpleFnSig<'_>) -> bool {
    &&& x.name@ == y.name@
    &&& recanonicalized(x.param_types_json@) == recanonicalized(y.param_types_json@)
}

/// The documents of a signature are in canonical form already.
proof fn lemma_document_is_canonical(s: Signature<'_>)
    ensures
        crate::json::canonical_items(signature_document(s)) == signature_document(s),
{
    let docs = signature_document(s);
    crate::json::lemma_canonical_items(docs);
    assert forall|i: int| 0 <= i < docs.len() implies crate::json::canonical(#[trigger] docs[i])
        == docs[i] by {
        lemma_recanonicalized();
    }
    assert(crate::json::canonical_items(docs) =~= docs);
}

/// What a JSON-shaped text stands for is in canonical form.
pub(crate) proof fn lemma_recanonicalized()
    ensures
        forall|raw: Seq<char>| #[trigger]
            crate::json::canonical(recanonicalized(raw)) == recanonicalized(raw),
        forall|raw: Seq<char>| #[trigger]
            crate::json::canonical(capabilities_document(raw)) == capabilities_document(raw),
{
    assert forall|raw: Seq<char>| #[trigger]
        crate::json::canonical(recanonicalized(raw)) == recanonicalized(raw) by {
        match crate::json::read_json(raw) {
            Some(doc) => {
                crate::json::canonical_is_idempotent(doc);
            },
            None => {},
        }
    }
    assert forall|raw: Seq<char>| #[trigger]
        crate::json::canonical(capabilities_document(raw)) == capabilities_document(raw) by {
        if raw.len() == 0 {
            crate::json::canonical_is_idempotent(crate::json::Json::Object(Seq::empty()));
            assert(crate::json::canonical(crate::json::Json::Object(Seq::empty()))
                == crate::json::Json::Object(Seq::empty()));
        } else {
            assert(crate::json::canonical(recanonicalized(raw)) == recanonicalized(raw));
        }
    }
}

proof fn lemma_same_operand(a: Option<i64>, b: Option<i64>)
    requires
        operand_document(a) == operand_document(b),
    ensures
        a == b,
{
    if a is Some && b is Some {
        crate::text::integer_texts_differ(a->0 as int, b->0 as int);
    }
}

/// The hashed documents of two signatures are the same exactly if the
/// signatures are: no field is lost, and rows of different kinds never share a
/// document.
pub proof fn documents_tell_signatures_apart(a: Signature<'_>, b: Signature<'_>)
    ensures
        crate::json::canonical_items(signature_document(a)) == crate::json::canonical_items(
            signature_document(b),
        ) <==> same_signature(a, b),
{
    lemma_document_is_canonical(a);
    lemma_document_is_canonical(b);
    let x = signature_document(a);
    let y = signature_document(b);
    if same_signature(a, b) {
        assert(x =~= y);
    }
    if x == y {
        assert(x.len() == y.len());
        assert(x[0] == y[0] && x[1] == y[1] && x[2] == y[2]);
        if x.len() > 3 {
            assert(x[3] == y[3] && x[4] == y[4]);
        }
        if x.len() > 5 {
            assert(x[5] == y[5]);
        }
        if x.len() > 6 {
            assert(x[6] == y[6]);
        }
        lemma_tags();
        match (a, b) {
            (Signature::ColumnType(p), Signature::ColumnType(q)) => {
                crate::text::integer_texts_differ(p.storage_size as int, q.storage_size as int);
            },
            (Signature::Operator(p), Signature::Operator(q)) => {
                lemma_same_operand(p.lhs_type_id, q.lhs_type_id);
                lemma_same_operand(p.rhs_type_id, q.rhs_type_id);
            },
            (Signature::CastRewrite(p), Signature::CastRewrite(q)) => {
                crate::text::integer_texts_differ(p.source_type_id as int, q.source_type_id as int);
            },
            _ => {},
        }
    }
}

/// The kind tags of documents of the same length differ.
proof fn lemma_tags()
    ensures
        "table_function"@ != "window_function"@,
        "table_function"@ != "spatial_index"@,
        "table_function"@ != "preprocessor_pattern"@,
        "window_function"@ != "spatial_index"@,
        "window_function"@ != "preprocessor_pattern"@,
        "spatial_index"@ != "preprocessor_pattern"@,
        "column_type"@ != "operator"@,
{
    reveal_strlit("table_function");
    reveal_strlit("window_function");
    reveal_strlit("spatial_index");
    reveal_strlit("preprocessor_pattern");
    reveal_strlit("column_type");
    reveal_strlit("operator");
    assert("table_function"@.len() == 14);
    assert("window_function"@.len() == 15);
    assert("spatial_index"@.len() == 13);
    assert("preprocessor_pattern"@.len() == 20);
    assert("column_type"@.len() == 11);
    assert("operator"@.len() == 8);
}

/// Every number in the documents of a signature is a numeral.
proof fn lemma_document_holds_numerals(s: Signature<'_>)
    ensures
        crate::json::holds_numerals(crate::json::Json::Array(signature_document(s))),
{
    let docs = signature_document(s);
    assert forall|i: int| 0 <= i < docs.len() implies crate::json::holds_numerals(
        #[trigger] docs[i],
    ) by {
        lemma_recanonicalized_holds_numerals();
        crate::text::lemma_integer_numeral();
    }
}

/// Every number in what a JSON-shaped text stands for is a numeral.
pub(crate) proof fn lemma_recanonicalized_holds_numerals()
    ensures
        forall|raw: Seq<char>| #[trigger] crate::json::holds_numerals(recanonicalized(raw)),
        forall|raw: Seq<char>| #[trigger] crate::json::holds_numerals(capabilities_document(raw)),
{
    assert forall|raw: Seq<char>| #[trigger]
        crate::json::holds_numerals(recanonicalized(raw)) by {
        match crate::json::read_json(raw) {
            Some(doc) => {
                crate::json::lemma_canonical_numerals(doc);
            },
            None => {},
        }
    }
    assert forall|raw: Seq<char>| #[trigger]
        crate::json::holds_numerals(capabilities_document(raw)) by {
        assert(crate::json::holds_numerals(recanonicalized(raw)));
    }
}

/// The bytes that are hashed for two signatures are the same exactly if the
/// signatures are: no field is lost, and rows of different kinds never share
/// their bytes. That the hashes of different bytes differ rests on BLAKE3.
pub proof fn hashed_bytes_tell_signatures_apart(a: Signature<'_>, b: Signature<'_>)
    ensures
        canonical_bytes(signature_document(a)) == canonical_bytes(signature_document(b))
            <==> same_signature(a, b),
{
    let x = crate::json::Json::Array(signature_document(a));
    let y = crate::json::Json::Array(signature_document(b));
    lemma_document_is_canonical(a);
    lemma_document_is_canonical(b);
    lemma_document_holds_numerals(a);
    lemma_document_holds_numerals(b);
    documents_tell_signatures_apart(a, b);
    crate::json::texts_tell_documents_apart(x, y);
    vstd::utf8::encode_utf8_decode_utf8(crate::json::json_text(x));
    vstd::utf8::encode_utf8_decode_utf8(crate::json::json_text(y));
}

/// The table and the window function of one signature never share the bytes
/// that are hashed.
pub proof fn table_and_window_bytes_differ(t: SimpleFnSig<'_>)
    ensures
        canonical_bytes(
            simple_fn_document("table_function"@, t, recanonicalized(t.param_types_json@)),
        ) != canonical_bytes(
            simple_fn_document("window_function"@, t, recanonicalized(t.param_types_json@)),
        ),
{
    hashed_bytes_tell_signatures_apart(Signature::TableFunction(t), Signature::WindowFunction(t));
}

/// Signatures that are the same have the same hash.
pub proof fn same_signature_same_hash(a: Signature<'_>, b: Signature<'_>)
    requires
        same_signature(a, b),
    ensures
        document_hash_text(signature_document(a)) == document_hash_text(signature_document(b)),
{
    documents_tell_signatures_apart(a, b);
}

/// How a JSON field is laid out, and the order of the members of its objects,
/// leaves no trace: texts that parse to the same document, up to the order of
/// members, stand for the same document.
pub proof fn layout_leaves_no_trace(x: Seq<char>, y: Seq<char>)
    requires
        crate::json::read_json(x) is Some,
        crate::json::read_json(y) is Some,
        crate::json::same_document(
            crate::json::read_json(x)->0,
            crate::json::read_json(y)->0,
        ),
    ensures
        recanonicalized(x) == recanonicalized(y),
{
    crate::json::canonical_ignores_member_order(
        crate::json::read_json(x)->0,
        crate::json::read_json(y)->0,
    );
}

/// Once a digest is kept for a path, every later one for the path is the same,
/// whatever is handed to the cache meanwhile.
pub proof fn later_digests_equal_the_first(
    first: Seq<u8>,
    path: Seq<u8>,
    handed: Seq<(Seq<u8>, Seq<u8>)>,
)
    ensures
        kept_after(Some(first), path, handed) == Some(first),
    decreases handed.len(),
{
    if handed.len() > 0 {
        later_digests_equal_the_first(first, path, handed.drop_last());
    }
}

/// The paths of helper files are pairwise different.
pub open spec fn distinct_paths(files: Seq<HelperFile>) -> bool {
    forall|i: int, j: int|
        0 <= i < j < files.len() ==> crate::sources::path_of((#[trigger] files[i]).entry.components@)
            != crate::sources::path_of((#[trigger] files[j]).entry.components@)
}

/// The digest of the helpers does not depend on the order in which the files
/// are found, as long as no path occurs twice.
pub proof fn helpers_in_any_order(a: Seq<HelperFile>, b: Seq<HelperFile>)
    requires
        a.to_multiset() == b.to_multiset(),
        distinct_paths(a),
    ensures
        helpers_in_order(a) == helpers_in_order(b),
        helpers_bytes(helpers_in_order(a)) == helpers_bytes(helpers_in_order(b)),
{
    broadcast use vstd::seq_lib::group_to_multiset_ensures;

    let le = crate::order::rank_order::<HelperFile>();
    lemma_helper_order();
    lemma_rust_helpers(a);
    lemma_rust_helpers(b);
    crate::order::stable_sorted_is_a_sort(rust_helpers(a), le);
    crate::order::stable_sorted_is_a_sort(rust_helpers(b), le);
    let x = helpers_in_order(a);
    let y = helpers_in_order(b);
    assert(x.to_multiset() =~= y.to_multiset());
    lemma_sorted_is_ascending(a, x);
    lemma_sorted_is_ascending(a, y);
    assert forall|f: HelperFile|
        #![trigger x.contains(f)]
        #![trigger y.contains(f)]
        x.contains(f) <==> y.contains(f) by {
        assert(x.contains(f) <==> x.to_multiset().contains(f));
        assert(y.contains(f) <==> y.to_multiset().contains(f));
    }
    crate::order::ascending_lists_are_unique(x, y, le);
}

/// Of each file that is a Rust source there are as many as before, and no other
/// is left.
proof fn lemma_rust_helpers(files: Seq<HelperFile>)
    ensures
        forall|f: HelperFile| #[trigger]
            rust_helpers(files).to_multiset().count(f) == if crate::sources::rust_source(f.entry) {
                files.to_multiset().count(f)
            } else {
                0
            },
    decreases files.len(),
{
    broadcast use vstd::seq_lib::group_to_multiset_ensures;

    if files.len() > 0 {
        let front = files.drop_last();
        lemma_rust_helpers(front);
        assert(files =~= front.push(files.last()));
        assert(files.to_multiset() =~= front.to_multiset().insert(files.last()));
        if crate::sources::rust_source(files.last().entry) {
            assert(rust_helpers(files).to_multiset() =~= rust_helpers(front).to_multiset().insert(
                files.last(),
            ));
        }
        assert forall|f: HelperFile| #[trigger]
            rust_helpers(files).to_multiset().count(f) == if crate::sources::rust_source(f.entry) {
                files.to_multiset().count(f)
            } else {
                0
            } by {
            assert(rust_helpers(front).to_multiset().count(f) == if crate::sources::rust_source(
                f.entry,
            ) {
                front.to_multiset().count(f)
            } else {
                0
            });
        }
    } else {
        assert(rust_helpers(files) =~= files);
        assert forall|f: HelperFile| #[trigger]
            rust_helpers(files).to_multiset().count(f) == 0 by {
            if files.to_multiset().count(f) > 0 {
                assert(files.contains(f));
            }
        }
    }
}

/// A file that is not a Rust source does not count, wherever it is found.
pub proof fn other_files_do_not_count(before: Seq<HelperFile>, f: HelperFile, after: Seq<HelperFile>)
    requires
        !crate::sources::rust_source(f.entry),
    ensures
        helpers_in_order(before.push(f) + after) == helpers_in_order(before + after),
{
    lemma_dropped(before, f, after);
}

proof fn lemma_dropped(before: Seq<HelperFile>, f: HelperFile, after: Seq<HelperFile>)
    requires
        !crate::sources::rust_source(f.entry),
    ensures
        rust_helpers(before.push(f) + after) == rust_helpers(before + after),
    decreases after.len(),
{
    if after.len() == 0 {
        assert(before.push(f) + after =~= before.push(f));
        assert(before + after =~= before);
        assert(before.push(f).drop_last() =~= before);
    } else {
        lemma_dropped(before, f, after.drop_last());
        assert((before.push(f) + after).drop_last() =~= before.push(f) + after.drop_last());
        assert((before + after).drop_last() =~= before + after.drop_last());
    }
}

proof fn lemma_helper_order()
    ensures
        crate::order::total_preorder(crate::order::rank_order::<HelperFile>()),
{
    let le = crate::order::rank_order::<HelperFile>();
    assert forall|a: HelperFile, b: HelperFile| #[trigger] le(a, b) || le(b, a) by {
        <HelperFile as crate::order::Ranked>::ranking_is_total(a, b, b);
    }
    assert forall|a: HelperFile, b: HelperFile, c: HelperFile| #[trigger]
        le(a, b) && #[trigger] le(b, c) implies le(a, c) by {
        <HelperFile as crate::order::Ranked>::ranking_is_total(a, b, c);
    }
}

/// A sorted list of some of the files is strictly ascending if their paths
/// differ.
proof fn lemma_sorted_is_ascending(a: Seq<HelperFile>, x: Seq<HelperFile>)
    requires
        forall|f: HelperFile| #[trigger]
            x.to_multiset().count(f) <= a.to_multiset().count(f),
        distinct_paths(a),
        crate::order::sorted(x, crate::order::rank_order::<HelperFile>()),
    ensures
        crate::order::ascending(x, crate::order::rank_order::<HelperFile>()),
{
    broadcast use vstd::seq_lib::group_to_multiset_ensures;

    let le = crate::order::rank_order::<HelperFile>();
    assert forall|i: int, j: int| 0 <= i < j < x.len() implies le(
        #[trigger] x[i],
        #[trigger] x[j],
    ) && !le(x[j], x[i]) by {
        if le(x[j], x[i]) {
            crate::sources::path_order_is_total();
            let p = crate::sources::path_of(x[i].entry.components@);
            let q = crate::sources::path_of(x[j].entry.components@);
            assert(crate::sources::path_order()(p, q) && crate::sources::path_order()(q, p));
            assert(p == q);
            assert(x.contains(x[i]) && x.contains(x[j]));
            assert(x.to_multiset().count(x[i]) > 0 && x.to_multiset().count(x[j]) > 0);
            assert(a.to_multiset().contains(x[i]) && a.to_multiset().contains(x[j]));
            assert(a.contains(x[i]) && a.contains(x[j]));
            if x[i] == x[j] {
                lemma_repeated(x, i, j);
                lemma_repeated_places(a, x[i]);
            } else {
                let k = choose|k: int| 0 <= k < a.len() && a[k] == x[i];
                let l = choose|l: int| 0 <= l < a.len() && a[l] == x[j];
                if k < l {
                    assert(crate::sources::path_of(a[k].entry.components@) != crate::sources::path_of(
                        a[l].entry.components@,
                    ));
                } else {
                    assert(crate::sources::path_of(a[l].entry.components@) != crate::sources::path_of(
                        a[k].entry.components@,
                    ));
                }
            }
        }
    }
}

/// An entry at two places counts at least twice.
proof fn lemma_repeated(x: Seq<HelperFile>, i: int, j: int)
    requires
        0 <= i < j < x.len(),
        x[i] == x[j],
    ensures
        x.to_multiset().count(x[i]) >= 2,
{
    broadcast use vstd::seq_lib::group_to_multiset_ensures;

    let rest = x.remove(j);
    assert(rest[i] == x[i]);
    assert(rest.contains(x[i]));
    assert(rest.to_multiset() == x.to_multiset().remove(x[j]));
    assert(rest.to_multiset().contains(x[i]));
    assert(x.to_multiset().contains(x[j]));
}

/// An entry that counts twice stands at two places.
proof fn lemma_repeated_places(a: Seq<HelperFile>, f: HelperFile)
    requires
        distinct_paths(a),
    ensures
        a.to_multiset().count(f) <= 1,
{
    broadcast use vstd::seq_lib::group_to_multiset_ensures;

    if a.to_multiset().count(f) >= 2 {
        assert(a.contains(f));
        let k = choose|k: int| 0 <= k < a.len() && a[k] == f;
        let rest = a.remove(k);
        assert(rest.to_multiset() == a.to_multiset().remove(f));
        assert(rest.to_multiset().contains(f));
        assert(rest.contains(f));
        let l = choose|l: int| 0 <= l < rest.len() && rest[l] == f;
        let m = if l < k { l } else { l + 1 };
        assert(a[m] == f);
        if k < m {
            assert(crate::sources::path_of(a[k].entry.components@) != crate::sources::path_of(
                a[m].entry.components@,
            ));
        } else {
            assert(crate::sources::path_of(a[m].entry.components@) != crate::sources::path_of(
                a[k].entry.components@,
            ));
        }
    }
}

/// Each kind of row is hashed as the document of its own signature.
pub proof fn rows_are_hashed_as_their_signatures(
    scalar: &ScalarSig<'_>,
    aggregate: &AggregateSig<'_>,
    simple: &SimpleFnSig<'_>,
    column_type: &ColumnTypeSig<'_>,
    operator: &OperatorSig<'_>,
    cast: &CastRewriteSig<'_>,
    index: &SpatialIndexSig<'_>,
    pattern: &PreprocessorPatternSig<'_>,
    h: String,
)
    ensures
        call_ensures(scalar_signature_hash, (scalar,), h) ==> h@ == document_hash_text(
            signature_document(Signature::Scalar(*scalar)),
        ),
        call_ensures(aggregate_signature_hash, (aggregate,), h) ==> h@ == document_hash_text(
            signature_document(Signature::Aggregate(*aggregate)),
        ),
        call_ensures(table_function_signature_hash, (simple,), h) ==> h@ == document_hash_text(
            signature_document(Signature::TableFunction(*simple)),
        ),
        call_ensures(window_function_signature_hash, (simple,), h) ==> h@ == document_hash_text(
            signature_document(Signature::WindowFunction(*simple)),
        ),
        call_ensures(column_type_signature_hash, (column_type,), h) ==> h@ == document_hash_text(
            signature_document(Signature::ColumnType(*column_type)),
        ),
        call_ensures(operator_signature_hash, (operator,), h) ==> h@ == document_hash_text(
            signature_document(Signature::Operator(*operator)),
        ),
        call_ensures(cast_rewrite_signature_hash, (cast,), h) ==> h@ == document_hash_text(
            signature_document(Signature::CastRewrite(*cast)),
        ),
        call_ensures(spatial_index_signature_hash, (index,), h) ==> h@ == document_hash_text(
            signature_document(Signature::SpatialIndex(*index)),
        ),
        call_ensures(preprocessor_pattern_signature_hash, (pattern,), h) ==> h@
            == document_hash_text(signature_document(Signature::PreprocessorPattern(*pattern))),
{
}

/// A signature hash is the digest, in hexadecimal, of a JSON array in UTF-8: the
/// documents of the signature in order, each in canonical form.
pub proof fn documents_are_hashed_as_arrays(values: &[serde_json::Value], h: String, bytes: &[u8])
    requires
        call_ensures(document_hash, (values,), h),
        bytes@ == vstd::utf8::encode_utf8(
            crate::json::json_text(
                crate::json::canonical(crate::json::Json::Array(crate::json::jsons(values@))),
            ),
        ),
    ensures
        forall|digest: String| #[trigger] call_ensures(blake3_hex, (bytes,), digest) ==> h@
            == digest@,
{
}

/// An owner file and the helpers are hashed as one, the owner file first: its
/// bytes and the digest of the helpers one behind the other. No owner file counts
/// as an empty one.
pub proof fn owners_are_hashed_before_helpers(
    file: &[u8],
    helpers: &[u8; 32],
    owned: String,
    both: &[u8],
    digest: String,
    unowned: String,
)
    requires
        call_ensures(implementation_hash, (Some(file), helpers), owned),
        both@ == file@ + helpers@,
        call_ensures(blake3_hex, (both,), digest),
        call_ensures(implementation_hash, (None::<&[u8]>, helpers), unowned),
    ensures
        owned@ == digest@,
        file@.len() == 0 ==> owned@ == unowned@,
{
    if file@.len() == 0 {
        assert(file@ + helpers@ =~= helpers@);
    }
}

/// Helper files are hashed one behind the other, in the order of their paths, each
/// as its path, a zero byte and what it holds; files that are not Rust sources do
/// not count.
pub proof fn helpers_are_hashed_one_by_one(files: Seq<HelperFile>, f: HelperFile)
    ensures
        helpers_bytes(Seq::empty()) == Seq::<u8>::empty(),
        helpers_bytes(files.push(f)) == helpers_bytes(files) + vstd::utf8::encode_utf8(f.rel@)
            + seq![0u8] + f.bytes@,
        crate::order::sorted(
            helpers_in_order(files),
            |a: HelperFile, b: HelperFile|
                crate::sources::path_le(
                    crate::sources::path_of(a.entry.components@),
                    crate::sources::path_of(b.entry.components@),
                ),
        ),
        forall|x: HelperFile| #[trigger]
            helpers_in_order(files).contains(x) <==> files.contains(x)
                && crate::sources::rust_source(x.entry),
{
    assert(files.push(f).drop_last() =~= files);
    assert(helpers_bytes(files.push(f)) =~= helpers_bytes(files) + vstd::utf8::encode_utf8(f.rel@)
        + seq![0u8] + f.bytes@);
    lemma_helper_order();
    lemma_rust_helpers(files);
    let le = crate::order::rank_order::<HelperFile>();
    crate::order::stable_sorted_is_a_sort(rust_helpers(files), le);
    let taken = helpers_in_order(files);
    assert forall|x: HelperFile| #[trigger] taken.contains(x) <==> files.contains(x)
        && crate::sources::rust_source(x.entry) by {
        broadcast use vstd::seq_lib::group_to_multiset_ensures;

        assert(taken.contains(x) <==> taken.to_multiset().contains(x));
        assert(rust_helpers(files).contains(x) <==> rust_helpers(files).to_multiset().contains(x));
        lemma_rust_helper_found(files, x);
    }
}

proof fn lemma_rust_helper_found(files: Seq<HelperFile>, x: HelperFile)
    ensures
        rust_helpers(files).contains(x) <==> files.contains(x) && crate::sources::rust_source(
            x.entry,
        ),
    decreases files.len(),
{
    if files.len() > 0 {
        let front = files.drop_last();
        lemma_rust_helper_found(front, x);
        let before = rust_helpers(front);
        let after = rust_helpers(files);
        if files.contains(x) {
            let i = choose|i: int| 0 <= i < files.len() && files[i] == x;
            if i < front.len() {
                assert(front[i] == x);
            }
        }
        if front.contains(x) {
            let i = choose|i: int| 0 <= i < front.len() && front[i] == x;
            assert(files[i] == x);
        }
        assert(files[files.len() - 1] == files.last());
        if after.contains(x) {
            let k = choose|k: int| 0 <= k < after.len() && after[k] == x;
            if k < before.len() {
                assert(before[k] == x);
            }
        }
        if before.contains(x) {
            let k = choose|k: int| 0 <= k < before.len() && before[k] == x;
            assert(after[k] == x);
        }
        if after.len() > before.len() {
            assert(after[before.len() as int] == files.last());
        }
    }
}

/// A text that is JSON stands for what it says; any other stands for itself. An
/// index that says nothing of what it can do is hashed as one that says so with
/// an empty object.
pub proof fn texts_stand_for_what_they_say(raw: Seq<char>)
    ensures
        crate::json::read_json(raw) is None ==> recanonicalized(raw) == crate::json::Json::Text(raw),
        crate::json::read_json(raw) is Some ==> recanonicalized(raw) == crate::json::canonical(
            crate::json::read_json(raw)->0,
        ),
        capabilities_document(Seq::empty()) == crate::json::Json::Object(Seq::empty()),
        raw.len() > 0 ==> capabilities_document(raw) == recanonicalized(raw),
{
}

/// What callers see of a function stands in its document column by column, in the
/// order in which it is declared: a kind that shares its columns with another
/// goes first, and flags are told one by one.
pub proof fn function_columns_come_in_their_order(
    s: &ScalarSig<'_>,
    a: &AggregateSig<'_>,
    t: &SimpleFnSig<'_>,
    kind: &str,
    params: serde_json::Value,
    config: serde_json::Value,
    r: Vec<serde_json::Value>,
)
    ensures
        call_ensures(scalar_values, (s, params), r) ==> {
            let d = crate::json::jsons(r@);
            &&& d.len() == 5
            &&& d[0] == crate::json::Json::Text(s.name@)
            &&& d[1] == crate::json::value_json(params)
            &&& d[2] == crate::json::Json::Text(s.return_type@)
            &&& d[3] == crate::json::Json::Bool(s.is_deterministic)
            &&& d[4] == crate::json::Json::Bool(s.propagates_null)
        },
        call_ensures(aggregate_values, (a, params, config), r) ==> {
            let d = crate::json::jsons(r@);
            &&& d.len() == 7
            &&& d[0] == crate::json::Json::Text(a.name@)
            &&& d[1] == crate::json::value_json(params)
            &&& d[2] == crate::json::Json::Bool(a.supports_grouped)
            &&& d[3] == crate::json::Json::Bool(a.supports_partial)
            &&& d[4] == crate::json::Json::Bool(a.is_order_sensitive)
            &&& d[5] == crate::json::Json::Bool(a.accepts_config)
            &&& d[6] == crate::json::value_json(config)
        },
        call_ensures(simple_fn_values, (kind, t, params), r) ==> {
            let d = crate::json::jsons(r@);
            &&& d.len() == 3
            &&& d[0] == crate::json::Json::Text(kind@)
            &&& d[1] == crate::json::Json::Text(t.name@)
            &&& d[2] == crate::json::value_json(params)
        },
{
}

/// The documents of types, operators, casts, indexes and patterns name their kind
/// first; the columns follow in the order in which they are declared. An operand
/// that an operator does not have is null.
pub proof fn other_columns_come_in_their_order(
    t: &ColumnTypeSig<'_>,
    o: &OperatorSig<'_>,
    c: &CastRewriteSig<'_>,
    s: &SpatialIndexSig<'_>,
    p: &PreprocessorPatternSig<'_>,
    from: serde_json::Value,
    to: serde_json::Value,
    r: Vec<serde_json::Value>,
)
    ensures
        call_ensures(column_type_values, (t, from, to), r) ==> {
            let d = crate::json::jsons(r@);
            &&& d.len() == 5
            &&& d[0] == crate::json::Json::Text("column_type"@)
            &&& d[1] == crate::json::Json::Text(t.typename@)
            &&& d[2] == crate::json::Json::Number(crate::text::integer_text(t.storage_size as int))
            &&& d[3] == crate::json::value_json(from)
            &&& d[4] == crate::json::value_json(to)
        },
        call_ensures(operator_values, (o,), r) ==> {
            let d = crate::json::jsons(r@);
            &&& d.len() == 5
            &&& d[0] == crate::json::Json::Text("operator"@)
            &&& d[1] == crate::json::Json::Text(o.symbol@)
            &&& o.lhs_type_id is None <==> d[2] is Null
            &&& o.lhs_type_id matches Some(n) ==> d[2] == crate::json::Json::Number(
                crate::text::integer_text(n as int),
            )
            &&& o.rhs_type_id is None <==> d[3] is Null
            &&& o.rhs_type_id matches Some(n) ==> d[3] == crate::json::Json::Number(
                crate::text::integer_text(n as int),
            )
            &&& d[4] == crate::json::Json::Text(o.backing_function@)
        },
        call_ensures(cast_rewrite_values, (c,), r) ==> {
            let d = crate::json::jsons(r@);
            &&& d.len() == 6
            &&& d[0] == crate::json::Json::Text("cast_rewrite"@)
            &&& d[1] == crate::json::Json::Number(
                crate::text::integer_text(c.source_type_id as int),
            )
            &&& d[2] == crate::json::Json::Text(c.target_type@)
            &&& d[3] == crate::json::Json::Text(c.source_kind@)
            &&& d[4] == crate::json::Json::Text(c.source_fn_hint@)
            &&& d[5] == crate::json::Json::Text(c.rewrite_target@)
        },
        call_ensures(spatial_index_values, (s, from), r) ==> {
            let d = crate::json::jsons(r@);
            &&& d.len() == 3
            &&& d[0] == crate::json::Json::Text("spatial_index"@)
            &&& d[1] == crate::json::Json::Text(s.method@)
            &&& d[2] == crate::json::value_json(from)
        },
        call_ensures(preprocessor_pattern_values, (p,), r) ==> {
            let d = crate::json::jsons(r@);
            &&& d.len() == 3
            &&& d[0] == crate::json::Json::Text("preprocessor_pattern"@)
            &&& d[1] == crate::json::Json::Text(p.op_token@)
            &&& d[2] == crate::json::Json::Text(p.function_name@)
        },
{
}

/// The hash of a function is the hash of its list of values, where each text of
/// types or places goes in as what it says.
pub proof fn functions_are_hashed_by_their_values(
    s: &ScalarSig<'_>,
    a: &AggregateSig<'_>,
    t: &SimpleFnSig<'_>,
    params: serde_json::Value,
    config: serde_json::Value,
    r: Vec<serde_json::Value>,
    values: &[serde_json::Value],
    h: String,
    of_values: String,
)
    requires
        values@ == r@,
        call_ensures(document_hash, (values,), of_values),
    ensures
        call_ensures(scalar_signature_hash, (s,), h) && call_ensures(
            recanonicalize_json_str,
            (s.param_types_json,),
            params,
        ) && call_ensures(scalar_values, (s, params), r) ==> h@ == of_values@,
        call_ensures(aggregate_signature_hash, (a,), h) && call_ensures(
            recanonicalize_json_str,
            (a.param_types_json,),
            params,
        ) && call_ensures(recanonicalize_json_str, (a.config_arg_indices_json,), config)
            && call_ensures(aggregate_values, (a, params, config), r) ==> h@ == of_values@,
        call_ensures(table_function_signature_hash, (t,), h) && call_ensures(
            recanonicalize_json_str,
            (t.param_types_json,),
            params,
        ) && call_ensures(simple_fn_values, ("table_function", t, params), r) ==> h@
            == of_values@,
        call_ensures(window_function_signature_hash, (t,), h) && call_ensures(
            recanonicalize_json_str,
            (t.param_types_json,),
            params,
        ) && call_ensures(simple_fn_values, ("window_function", t, params), r) ==> h@
            == of_values@,
{
}

/// The hash of a type, an operator, a cast, an index or a pattern is the hash of
/// its list of values, where each text of casts or capabilities goes in as what it
/// says.
pub proof fn others_are_hashed_by_their_values(
    t: &ColumnTypeSig<'_>,
    o: &OperatorSig<'_>,
    c: &CastRewriteSig<'_>,
    s: &SpatialIndexSig<'_>,
    p: &PreprocessorPatternSig<'_>,
    from: serde_json::Value,
    to: serde_json::Value,
    r: Vec<serde_json::Value>,
    values: &[serde_json::Value],
    h: String,
    of_values: String,
)
    requires
        values@ == r@,
        call_ensures(document_hash, (values,), of_values),
    ensures
        call_ensures(column_type_signature_hash, (t,), h) && call_ensures(
            recanonicalize_json_str,
            (t.cast_from_json,),
            from,
        ) && call_ensures(recanonicalize_json_str, (t.cast_to_json,), to) && call_ensures(
            column_type_values,
            (t, from, to),
            r,
        ) ==> h@ == of_values@,
        call_ensures(operator_signature_hash, (o,), h) && call_ensures(operator_values, (o,), r)
            ==> h@ == of_values@,
        call_ensures(cast_rewrite_signature_hash, (c,), h) && call_ensures(
            cast_rewrite_values,
            (c,),
            r,
        ) ==> h@ == of_values@,
        call_ensures(spatial_index_signature_hash, (s,), h) && s.capabilities_json@.len() > 0
            && call_ensures(recanonicalize_json_str, (s.capabilities_json,), from)
            && call_ensures(spatial_index_values, (s, from), r) ==> h@ == of_values@,
        call_ensures(preprocessor_pattern_signature_hash, (p,), h) && call_ensures(
            preprocessor_pattern_values,
            (p,),
            r,
        ) ==> h@ == of_values@,
{
}

} // verus!
