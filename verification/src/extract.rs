//! One shim's extraction: the rows that its metadata becomes, and the summary
//! of what a database holds.
use vstd::prelude::*;
use vstd::string::StringExecFns;

use crate::digest::blake3_hex;
use crate::registry::{spatial_index_rows, SpatialIndexInsert, SpatialIndexMetadata};

verus! {

// ---------------------------------------------------------------------------
// SQL metadata
// ---------------------------------------------------------------------------

/// A cast that a shim rewrites.
#[derive(Clone, Debug)]
pub struct ExtractedCast {
    pub target_type: String,
    pub source_kind: String,
    pub function_name: String,
    pub source_fn_hint: String,
    pub source_type_id: Option<u32>,
}

/// An operator that a shim binds to a function.
#[derive(Clone, Debug)]
pub struct ExtractedOperator {
    pub symbol: String,
    pub lhs_type_id: Option<u32>,
    pub rhs_type_id: Option<u32>,
    pub function_name: String,
}

/// A token that a shim rewrites to a function before parsing.
#[derive(Clone, Debug)]
pub struct ExtractedPreprocessor {
    pub operator_token: String,
    pub function_name: String,
}

/// The rewrites that a shim publishes.
#[derive(Clone, Debug)]
pub struct SqlMetadata {
    pub casts: Vec<ExtractedCast>,
    pub operators: Vec<ExtractedOperator>,
    pub preprocessors: Vec<ExtractedPreprocessor>,
}

/// The row of a cast. Rows of casts from any type hold the type id 0, since a
/// key column must not be null.
#[derive(Clone, Debug)]
pub struct CastInsert {
    pub target_type: String,
    pub source_kind: String,
    pub function_name: String,
    pub source_fn_hint: String,
    pub source_type_id: i64,
}

/// The row of an operator.
#[derive(Clone, Debug)]
pub struct OperatorInsert {
    pub symbol: String,
    pub lhs_type_id: Option<i64>,
    pub rhs_type_id: Option<i64>,
    pub function_name: String,
}

/// The row of a preprocessor pattern.
#[derive(Clone, Debug)]
pub struct PreprocessorInsert {
    pub op_token: String,
    pub function_name: String,
}

/// A type id as it is stored, where it may be missing.
pub open spec fn stored_id(id: Option<u32>) -> Option<i64> {
    match id {
        Some(n) => Some(n as i64),
        None => None,
    }
}

/// A row is that of a cast.
pub open spec fn is_cast_row(r: CastInsert, c: ExtractedCast) -> bool {
    &&& r.target_type@ == c.target_type@
    &&& r.source_kind@ == c.source_kind@
    &&& r.function_name@ == c.function_name@
    &&& r.source_fn_hint@ == c.source_fn_hint@
    &&& r.source_type_id == match c.source_type_id {
        Some(n) => n as i64,
        None => 0,
    }
}

/// A row is that of an operator.
pub open spec fn is_operator_row(r: OperatorInsert, o: ExtractedOperator) -> bool {
    &&& r.symbol@ == o.symbol@
    &&& r.lhs_type_id == stored_id(o.lhs_type_id)
    &&& r.rhs_type_id == stored_id(o.rhs_type_id)
    &&& r.function_name@ == o.function_name@
}

/// A row is that of a preprocessor pattern.
pub open spec fn is_preprocessor_row(r: PreprocessorInsert, p: ExtractedPreprocessor) -> bool {
    &&& r.op_token@ == p.operator_token@
    &&& r.function_name@ == p.function_name@
}

/// The rows of casts, one for each, in order.
pub fn cast_rows(casts: &Vec<ExtractedCast>) -> (r: Vec<CastInsert>)
    ensures
        r@.len() == casts@.len(),
        forall|i: int| 0 <= i < r@.len() ==> is_cast_row(#[trigger] r@[i], casts@[i]),
{
    let mut out: Vec<CastInsert> = Vec::new();
    let mut i: usize = 0;
    while i < casts.len()
        invariant
            i <= casts@.len(),
            out@.len() == i,
            forall|j: int| 0 <= j < i ==> is_cast_row(#[trigger] out@[j], casts@[j]),
        decreases casts@.len() - i,
    {
        let c = &casts[i];
        out.push(
            CastInsert {
                target_type: c.target_type.clone(),
                source_kind: c.source_kind.clone(),
                function_name: c.function_name.clone(),
                source_fn_hint: c.source_fn_hint.clone(),
                source_type_id: match c.source_type_id {
                    Some(n) => n as i64,
                    None => 0,
                },
            },
        );
        i += 1;
    }
    out
}

fn id_of(id: Option<u32>) -> (r: Option<i64>)
    ensures
        r == stored_id(id),
{
    match id {
        Some(n) => Some(n as i64),
        None => None,
    }
}

/// The rows of operators, one for each, in order.
pub fn operator_rows(operators: &Vec<ExtractedOperator>) -> (r: Vec<OperatorInsert>)
    ensures
        r@.len() == operators@.len(),
        forall|i: int| 0 <= i < r@.len() ==> is_operator_row(#[trigger] r@[i], operators@[i]),
{
    let mut out: Vec<OperatorInsert> = Vec::new();
    let mut i: usize = 0;
    while i < operators.len()
        invariant
            i <= operators@.len(),
            out@.len() == i,
            forall|j: int| 0 <= j < i ==> is_operator_row(#[trigger] out@[j], operators@[j]),
        decreases operators@.len() - i,
    {
        let o = &operators[i];
        out.push(
            OperatorInsert {
                symbol: o.symbol.clone(),
                lhs_type_id: id_of(o.lhs_type_id),
                rhs_type_id: id_of(o.rhs_type_id),
                function_name: o.function_name.clone(),
            },
        );
        i += 1;
    }
    out
}

/// The rows of preprocessor patterns, one for each, in order.
pub fn preprocessor_rows(patterns: &Vec<ExtractedPreprocessor>) -> (r: Vec<PreprocessorInsert>)
    ensures
        r@.len() == patterns@.len(),
        forall|i: int| 0 <= i < r@.len() ==> is_preprocessor_row(#[trigger] r@[i], patterns@[i]),
{
    let mut out: Vec<PreprocessorInsert> = Vec::new();
    let mut i: usize = 0;
    while i < patterns.len()
        invariant
            i <= patterns@.len(),
            out@.len() == i,
            forall|j: int| 0 <= j < i ==> is_preprocessor_row(#[trigger] out@[j], patterns@[j]),
        decreases patterns@.len() - i,
    {
        let p = &patterns[i];
        out.push(
            PreprocessorInsert {
                op_token: p.operator_token.clone(),
                function_name: p.function_name.clone(),
            },
        );
        i += 1;
    }
    out
}

/// The rows of the rewrites that a shim publishes.
#[derive(Clone, Debug)]
pub struct SqlRows {
    pub casts: Vec<CastInsert>,
    pub operators: Vec<OperatorInsert>,
    pub preprocessors: Vec<PreprocessorInsert>,
}

/// The rows are those of the rewrites.
pub open spec fn are_sql_rows(r: SqlRows, m: SqlMetadata) -> bool {
    &&& r.casts@.len() == m.casts@.len()
    &&& forall|i: int| 0 <= i < r.casts@.len() ==> is_cast_row(#[trigger] r.casts@[i], m.casts@[i])
    &&& r.operators@.len() == m.operators@.len()
    &&& forall|i: int|
        0 <= i < r.operators@.len() ==> is_operator_row(
            #[trigger] r.operators@[i],
            m.operators@[i],
        )
    &&& r.preprocessors@.len() == m.preprocessors@.len()
    &&& forall|i: int|
        0 <= i < r.preprocessors@.len() ==> is_preprocessor_row(
            #[trigger] r.preprocessors@[i],
            m.preprocessors@[i],
        )
}

/// The rows of the rewrites that a shim publishes.
pub fn sql_rows(m: &SqlMetadata) -> (r: SqlRows)
    ensures
        are_sql_rows(r, *m),
{
    SqlRows {
        casts: cast_rows(&m.casts),
        operators: operator_rows(&m.operators),
        preprocessors: preprocessor_rows(&m.preprocessors),
    }
}

/// How many rewrites of each kind were drained from a plug.
#[derive(Debug, Clone, Copy)]
pub struct PostgisMetadataCounts {
    pub casts: usize,
    pub operators: usize,
    pub preprocessors: usize,
}

/// The rows of the rewrites that a plug publishes, and how many there are of
/// each kind. A plug that publishes none of that has nothing to drain.
pub fn drain_postgis_metadata(snapshot: Option<&SqlMetadata>) -> (r: Option<
    (SqlRows, PostgisMetadataCounts),
>)
    ensures
        r is Some <==> snapshot is Some,
        snapshot is Some ==> {
            &&& are_sql_rows((r->0).0, *snapshot->0)
            &&& (r->0).1.casts == snapshot->0.casts@.len()
            &&& (r->0).1.operators == snapshot->0.operators@.len()
            &&& (r->0).1.preprocessors == snapshot->0.preprocessors@.len()
        },
{
    match snapshot {
        Some(m) => {
            let counts = PostgisMetadataCounts {
                casts: m.casts.len(),
                operators: m.operators.len(),
                preprocessors: m.preprocessors.len(),
            };
            Some((sql_rows(m), counts))
        },
        None => None,
    }
}

// ---------------------------------------------------------------------------
// Shims
// ---------------------------------------------------------------------------

/// What was loaded of a shim.
#[derive(Clone, Debug)]
pub struct ShimSnapshot {
    pub name: String,
    pub version: String,
    /// Where the shim was loaded from.
    pub wasm_path: String,
    /// What the shim's file holds.
    pub wasm: Vec<u8>,
    pub sql: SqlMetadata,
    /// The spatial index that the shim publishes for the whole process, if any.
    pub spatial_index: Option<SpatialIndexMetadata>,
}

/// The row of an extension. The time of the extraction is added when it is
/// written.
#[derive(Clone, Debug)]
pub struct ExtensionInsert {
    pub name: String,
    pub version: String,
    pub api_version: String,
    pub wasm_path: String,
    pub wasm_blake3: String,
}

/// What was extracted, for the one who asked.
#[derive(Debug, Clone)]
pub struct ExtractedSummary {
    pub name: String,
    pub version: String,
    pub blake3: String,
}

/// The rows that a shim becomes, apart from what it registers.
#[derive(Clone, Debug)]
pub struct ShimRows {
    pub extension: ExtensionInsert,
    pub sql: SqlRows,
    pub spatial_indexes: Vec<SpatialIndexInsert>,
    pub summary: ExtractedSummary,
}

/// The hash of a shim's file.
pub open spec fn file_hash(s: ShimSnapshot) -> Seq<char> {
    crate::digest::hex_text(crate::digest::blake3_digest(s.wasm@))
}

/// The names under which a shim publishes its spatial index.
pub open spec fn index_aliases(s: ShimSnapshot) -> Seq<String> {
    match s.spatial_index {
        Some(m) => m.aliases@,
        None => Seq::empty(),
    }
}

/// The row of an extension, and what is told of the extraction.
pub fn extension_row(name: &str, version: &str, wasm_path: &str, wasm: &[u8]) -> (r: (
    ExtensionInsert,
    ExtractedSummary,
))
    ensures
        r.0.name@ == name@,
        r.0.version@ == version@,
        r.0.api_version@ == version@,
        r.0.wasm_path@ == wasm_path@,
        r.0.wasm_blake3@ == crate::digest::hex_text(crate::digest::blake3_digest(wasm@)),
        r.1.name@ == name@,
        r.1.version@ == version@,
        r.1.blake3@ == crate::digest::hex_text(crate::digest::blake3_digest(wasm@)),
{
    let blake3 = blake3_hex(wasm);
    let row = ExtensionInsert {
        name: name.to_owned(),
        version: version.to_owned(),
        api_version: version.to_owned(),
        wasm_path: wasm_path.to_owned(),
        wasm_blake3: blake3.clone(),
    };
    (row, ExtractedSummary { name: name.to_owned(), version: version.to_owned(), blake3 })
}

/// Works out the rows that a shim becomes, apart from what it registers.
pub fn extract_shim(s: &ShimSnapshot) -> (r: ShimRows)
    ensures
        r.extension.name@ == s.name@,
        r.extension.version@ == s.version@,
        r.extension.api_version@ == s.version@,
        r.extension.wasm_path@ == s.wasm_path@,
        r.extension.wasm_blake3@ == file_hash(*s),
        are_sql_rows(r.sql, s.sql),
        r.spatial_indexes@.len() == index_aliases(*s).len(),
        forall|i: int|
            0 <= i < r.spatial_indexes@.len() ==> {
                &&& (#[trigger] r.spatial_indexes@[i]).name@ == index_aliases(*s)[i]@
                &&& r.spatial_indexes@[i].type_id == 0
                &&& crate::text::text_option(r.spatial_indexes@[i].capabilities_json) == Some(
                    crate::json::json_text(
                        crate::registry::capabilities_value_document(s.spatial_index->0),
                    ),
                )
            },
        r.summary.name@ == s.name@,
        r.summary.version@ == s.version@,
        r.summary.blake3@ == file_hash(*s),
{
    let (extension, summary) = extension_row(
        s.name.as_str(),
        s.version.as_str(),
        s.wasm_path.as_str(),
        s.wasm.as_slice(),
    );
    let spatial_indexes = match &s.spatial_index {
        Some(m) => spatial_index_rows(m),
        None => Vec::new(),
    };
    ShimRows { extension, sql: sql_rows(&s.sql), spatial_indexes, summary }
}

// ---------------------------------------------------------------------------
// Summary
// ---------------------------------------------------------------------------

/// How many rows of each kind an extension has.
#[derive(Clone, Debug)]
pub struct ExtensionCounts {
    pub extension: String,
    pub version: String,
    pub scalars: i64,
    pub aggregates: i64,
    pub table_functions: i64,
    pub window_functions: i64,
    pub column_types: i64,
    pub operators: i64,
    pub cast_rewrites: i64,
    pub preprocessor_patterns: i64,
    pub system_catalog_tables: i64,
    pub spatial_indexes: i64,
}

/// A number of spaces.
pub open spec fn spaces(n: nat) -> Seq<char> {
    Seq::new(n, |i: int| ' ')
}

/// How many spaces bring a text to a width.
pub open spec fn missing(text: Seq<char>, width: nat) -> nat {
    if text.len() < width {
        (width - text.len()) as nat
    } else {
        0
    }
}

/// A text at the left of a column.
pub open spec fn left(text: Seq<char>, width: nat) -> Seq<char> {
    text + spaces(missing(text, width))
}

/// A text at the right of a column.
pub open spec fn right(text: Seq<char>, width: nat) -> Seq<char> {
    spaces(missing(text, width)) + text
}

/// One line of the summary: two columns at the left, ten at the right, a space
/// between each two.
pub open spec fn line_text(cells: Seq<Seq<char>>) -> Seq<char> {
    left(cells[0], 14) + " "@ + left(cells[1], 8) + " "@ + right(cells[2], 8) + " "@ + right(
        cells[3],
        5,
    ) + " "@ + right(cells[4], 5) + " "@ + right(cells[5], 7) + " "@ + right(cells[6], 6) + " "@
        + right(cells[7], 6) + " "@ + right(cells[8], 6) + " "@ + right(cells[9], 6) + " "@ + right(
        cells[10],
        7,
    ) + " "@ + right(cells[11], 7)
}

/// The cells of the line of an extension.
pub open spec fn count_cells(c: ExtensionCounts) -> Seq<Seq<char>> {
    seq![
        c.extension@,
        c.version@,
        crate::text::integer_text(c.scalars as int),
        crate::text::integer_text(c.aggregates as int),
        crate::text::integer_text(c.table_functions as int),
        crate::text::integer_text(c.window_functions as int),
        crate::text::integer_text(c.column_types as int),
        crate::text::integer_text(c.operators as int),
        crate::text::integer_text(c.cast_rewrites as int),
        crate::text::integer_text(c.preprocessor_patterns as int),
        crate::text::integer_text(c.system_catalog_tables as int),
        crate::text::integer_text(c.spatial_indexes as int),
    ]
}

/// The cells of the head of the summary.
pub open spec fn head_cells() -> Seq<Seq<char>> {
    seq![
        "extension"@,
        "version"@,
        "scalars"@,
        "agg"@,
        "udtf"@,
        "window"@,
        "types"@,
        "ops"@,
        "casts"@,
        "preps"@,
        "catalog"@,
        "idx"@,
    ]
}

/// The number of characters of a string, counted no further than a limit.
fn length_up_to(s: &str, limit: usize) -> (r: usize)
    ensures
        r == if s@.len() < limit {
            s@.len()
        } else {
            limit as nat
        },
{
    let mut n: usize = 0;
    for c in it: s.chars()
        invariant
            it.seq() == s@,
            n == if it.index() < limit {
                it.index()
            } else {
                limit as int
            },
    {
        if n < limit {
            n += 1;
        }
    }
    n
}

/// Appends the spaces that bring a text to a width.
fn pad(out: &mut String, text: &str, width: usize)
    ensures
        final(out)@ == old(out)@ + spaces(missing(text@, width as nat)),
{
    let ghost before = out@;
    let mut n: usize = length_up_to(text, width);
    let ghost start = n as int;
    assert(out@ =~= before + spaces(0));
    while n < width
        invariant
            start <= n <= width,
            out@ == before + spaces((n - start) as nat),
        decreases width - n,
    {
        out.push(' ');
        n += 1;
        assert(out@ =~= before + spaces((n - start) as nat));
    }
}

fn push_left(out: &mut String, text: &str, width: usize)
    ensures
        final(out)@ == old(out)@ + left(text@, width as nat),
{
    let ghost before = out@;
    out.append(text);
    pad(out, text, width);
    assert(out@ =~= before + left(text@, width as nat));
}

fn push_right(out: &mut String, text: &str, width: usize)
    ensures
        final(out)@ == old(out)@ + " "@ + right(text@, width as nat),
{
    let ghost before = out@;
    out.append(" ");
    pad(out, text, width);
    out.append(text);
    assert(out@ =~= before + " "@ + right(text@, width as nat));
}

/// One line of the summary.
fn line(cells: &Vec<String>) -> (r: String)
    requires
        cells@.len() == 12,
    ensures
        r@ == line_text(crate::text::texts(cells@)),
{
    let ghost t = crate::text::texts(cells@);
    let mut out = String::new();
    push_left(&mut out, cells[0].as_str(), 14);
    assert(out@ =~= left(t[0], 14));
    out.append(" ");
    push_left(&mut out, cells[1].as_str(), 8);
    push_right(&mut out, cells[2].as_str(), 8);
    push_right(&mut out, cells[3].as_str(), 5);
    push_right(&mut out, cells[4].as_str(), 5);
    push_right(&mut out, cells[5].as_str(), 7);
    push_right(&mut out, cells[6].as_str(), 6);
    push_right(&mut out, cells[7].as_str(), 6);
    push_right(&mut out, cells[8].as_str(), 6);
    push_right(&mut out, cells[9].as_str(), 6);
    push_right(&mut out, cells[10].as_str(), 7);
    push_right(&mut out, cells[11].as_str(), 7);
    out
}

/// The head of the summary.
pub fn summary_head() -> (r: String)
    ensures
        r@ == line_text(head_cells()),
{
    let cells = vec![
        "extension".to_owned(),
        "version".to_owned(),
        "scalars".to_owned(),
        "agg".to_owned(),
        "udtf".to_owned(),
        "window".to_owned(),
        "types".to_owned(),
        "ops".to_owned(),
        "casts".to_owned(),
        "preps".to_owned(),
        "catalog".to_owned(),
        "idx".to_owned(),
    ];
    assert(crate::text::texts(cells@) =~= head_cells());
    line(&cells)
}

/// The line of an extension in the summary.
pub fn summary_line(c: &ExtensionCounts) -> (r: String)
    ensures
        r@ == line_text(count_cells(*c)),
{
    let cells = vec![
        c.extension.clone(),
        c.version.clone(),
        crate::text::integer_of(c.scalars),
        crate::text::integer_of(c.aggregates),
        crate::text::integer_of(c.table_functions),
        crate::text::integer_of(c.window_functions),
        crate::text::integer_of(c.column_types),
        crate::text::integer_of(c.operators),
        crate::text::integer_of(c.cast_rewrites),
        crate::text::integer_of(c.preprocessor_patterns),
        crate::text::integer_of(c.system_catalog_tables),
        crate::text::integer_of(c.spatial_indexes),
    ];
    assert(crate::text::texts(cells@) =~= count_cells(*c));
    line(&cells)
}

/// The line of an extension, as one text.
#[verifier::opaque]
spec fn row_text(c: ExtensionCounts) -> Seq<char> {
    line_text(count_cells(c))
}

/// The lines of the extensions, put behind those that are there.
fn push_rows(out: &mut Vec<String>, counts: &Vec<ExtensionCounts>)
    ensures
        crate::text::texts(final(out)@) == crate::text::texts(old(out)@) + counts@.map_values(
            |c: ExtensionCounts| row_text(c),
        ),
{
    let ghost before = crate::text::texts(out@);
    let ghost rows = counts@.map_values(|c: ExtensionCounts| row_text(c));
    assert(before + rows.take(0) =~= before);
    for c in it: counts
        invariant
            it.seq().unref() == counts@,
            rows == counts@.map_values(|c: ExtensionCounts| row_text(c)),
            crate::text::texts(out@) == before + rows.take(it.index() as int),
    {
        let row = row_of(c);
        assert(row@ == rows[it.index() as int]);
        assert(before + rows.take(it.index() + 1) =~= (before + rows.take(
            it.index() as int,
        )).push(row@));
        let ghost so_far = crate::text::texts(out@);
        out.push(row);
        assert(crate::text::texts(out@) =~= so_far.push(row@));
    }
    assert(rows.take(rows.len() as int) =~= rows);
}

fn row_of(c: &ExtensionCounts) -> (r: String)
    ensures
        r@ == row_text(*c),
{
    reveal(row_text);
    summary_line(c)
}

/// The lines of the summary: an empty one, the head, and one for each
/// extension.
pub fn print_summary(counts: &Vec<ExtensionCounts>) -> (r: Vec<String>)
    ensures
        r@.len() == counts@.len() + 2,
        r@[0]@ == Seq::<char>::empty(),
        r@[1]@ == line_text(head_cells()),
        forall|j: int|
            2 <= j < r@.len() ==> (#[trigger] r@[j])@ == line_text(count_cells(counts@[j - 2])),
{
    let mut out: Vec<String> = vec![String::new(), summary_head()];
    let ghost first = out@;
    push_rows(&mut out, counts);
    proof {
        let texts = crate::text::texts(out@);
        assert(texts.len() == out@.len());
        assert(texts[0] == out@[0]@ && texts[0] == first[0]@);
        assert(texts[1] == out@[1]@ && texts[1] == first[1]@);
        assert forall|j: int| 2 <= j < out@.len() implies (#[trigger] out@[j])@ == line_text(
            count_cells(counts@[j - 2]),
        ) by {
            reveal(row_text);
            assert(texts[j] == out@[j]@);
        }
    }
    out
}

// ---------------------------------------------------------------------------
// Laws
// ---------------------------------------------------------------------------

/// Casts that differ only in naming the type id 0 or none become the same row,
/// so that one of them is stored; other differences show.
pub proof fn missing_source_types_are_zero(
    a: ExtractedCast,
    b: ExtractedCast,
    x: CastInsert,
    y: CastInsert,
)
    requires
        is_cast_row(x, a),
        is_cast_row(y, b),
    ensures
        x.source_type_id == y.source_type_id <==> a.source_type_id == b.source_type_id || (
        a.source_type_id is None && b.source_type_id == Some(0u32)) || (b.source_type_id is None
            && a.source_type_id == Some(0u32)),
{
}

/// Columns line up: a cell that fits takes exactly the width of its column.
pub proof fn cells_fill_their_columns(text: Seq<char>, width: nat)
    requires
        text.len() <= width,
    ensures
        left(text, width).len() == width,
        right(text, width).len() == width,
{
}

/// Every cast, operator and pattern has its row, in order, and each row says what
/// its rewrite says, column by column. Type ids keep their values; a missing one
/// is 0 for a cast and stays missing for an operand.
pub proof fn rewrites_become_rows(m: &SqlMetadata, r: SqlRows)
    requires
        call_ensures(sql_rows, (m,), r),
    ensures
        r.casts@.len() == m.casts@.len(),
        r.operators@.len() == m.operators@.len(),
        r.preprocessors@.len() == m.preprocessors@.len(),
        forall|i: int| #![trigger r.casts@[i]]
            0 <= i < r.casts@.len() ==> {
                let row = r.casts@[i];
                let c = m.casts@[i];
                &&& row.target_type@ == c.target_type@
                &&& row.source_kind@ == c.source_kind@
                &&& row.function_name@ == c.function_name@
                &&& row.source_fn_hint@ == c.source_fn_hint@
                &&& c.source_type_id is Some ==> row.source_type_id == c.source_type_id->0
                &&& c.source_type_id is None ==> row.source_type_id == 0
            },
        forall|i: int| #![trigger r.operators@[i]]
            0 <= i < r.operators@.len() ==> {
                let row = r.operators@[i];
                let o = m.operators@[i];
                &&& row.symbol@ == o.symbol@
                &&& row.function_name@ == o.function_name@
                &&& (row.lhs_type_id is Some <==> o.lhs_type_id is Some)
                &&& o.lhs_type_id is Some ==> row.lhs_type_id->0 == o.lhs_type_id->0
                &&& (row.rhs_type_id is Some <==> o.rhs_type_id is Some)
                &&& o.rhs_type_id is Some ==> row.rhs_type_id->0 == o.rhs_type_id->0
            },
        forall|i: int| #![trigger r.preprocessors@[i]]
            0 <= i < r.preprocessors@.len() ==> r.preprocessors@[i].op_token@
                == m.preprocessors@[i].operator_token@ && r.preprocessors@[i].function_name@
                == m.preprocessors@[i].function_name@,
{
}

/// Rows of one kind alone are the rows that all kinds together have of it.
pub proof fn kinds_of_rewrites_are_apart(
    m: &SqlMetadata,
    casts: Vec<CastInsert>,
    operators: Vec<OperatorInsert>,
    patterns: Vec<PreprocessorInsert>,
    i: int,
)
    requires
        call_ensures(cast_rows, (&m.casts,), casts),
        call_ensures(operator_rows, (&m.operators,), operators),
        call_ensures(preprocessor_rows, (&m.preprocessors,), patterns),
    ensures
        casts@.len() == m.casts@.len(),
        operators@.len() == m.operators@.len(),
        patterns@.len() == m.preprocessors@.len(),
        0 <= i < casts@.len() ==> casts@[i].target_type@ == m.casts@[i].target_type@
            && casts@[i].source_kind@ == m.casts@[i].source_kind@ && casts@[i].function_name@
            == m.casts@[i].function_name@ && casts@[i].source_fn_hint@
            == m.casts@[i].source_fn_hint@ && casts@[i].source_type_id == (
        if m.casts@[i].source_type_id is Some {
            m.casts@[i].source_type_id->0 as int
        } else {
            0
        }),
        0 <= i < operators@.len() ==> operators@[i].symbol@ == m.operators@[i].symbol@
            && operators@[i].function_name@ == m.operators@[i].function_name@,
        0 <= i < patterns@.len() ==> patterns@[i].op_token@ == m.preprocessors@[i].operator_token@
            && patterns@[i].function_name@ == m.preprocessors@[i].function_name@,
{
}

/// What is drained from a plug is what it publishes, with how many there are of
/// each kind; a plug that publishes nothing is left alone.
pub proof fn plugs_are_drained_in_full(
    snapshot: Option<&SqlMetadata>,
    r: Option<(SqlRows, PostgisMetadataCounts)>,
)
    requires
        call_ensures(drain_postgis_metadata, (snapshot,), r),
    ensures
        r is Some <==> snapshot is Some,
        r is Some ==> (r->0).1.casts == (r->0).0.casts@.len() && (r->0).1.casts
            == snapshot->0.casts@.len(),
        r is Some ==> (r->0).1.operators == (r->0).0.operators@.len() && (r->0).1.operators
            == snapshot->0.operators@.len(),
        r is Some ==> (r->0).1.preprocessors == (r->0).0.preprocessors@.len()
            && (r->0).1.preprocessors == snapshot->0.preprocessors@.len(),
        r is Some ==> forall|i: int| #![trigger (r->0).0.casts@[i]]
            0 <= i < (r->0).0.casts@.len() ==> (r->0).0.casts@[i].target_type@
                == snapshot->0.casts@[i].target_type@ && (r->0).0.casts@[i].function_name@
                == snapshot->0.casts@[i].function_name@,
{
}

/// The row of an extension and what is told of it agree: the name, the version,
/// which is that of the interface too, and the hash of the file's bytes.
pub proof fn extensions_are_told_as_stored(
    name: &str,
    version: &str,
    wasm_path: &str,
    wasm: &[u8],
    r: (ExtensionInsert, ExtractedSummary),
    hash: String,
)
    requires
        call_ensures(extension_row, (name, version, wasm_path, wasm), r),
        call_ensures(blake3_hex, (wasm,), hash),
    ensures
        r.0.name@ == name@,
        r.0.version@ == version@,
        r.0.api_version@ == version@,
        r.0.wasm_path@ == wasm_path@,
        r.0.wasm_blake3@ == hash@,
        r.1.name@ == r.0.name@,
        r.1.version@ == r.0.version@,
        r.1.blake3@ == r.0.wasm_blake3@,
{
}

/// A shim becomes the row of its extension, the rows of its rewrites and those of
/// its spatial index, each as it becomes by itself.
pub proof fn shims_become_their_rows(
    s: &ShimSnapshot,
    r: ShimRows,
    alone: (ExtensionInsert, ExtractedSummary),
    name: &str,
    version: &str,
    path: &str,
    wasm: &[u8],
)
    requires
        call_ensures(extract_shim, (s,), r),
        name@ == s.name@,
        version@ == s.version@,
        path@ == s.wasm_path@,
        wasm@ == s.wasm@,
        call_ensures(extension_row, (name, version, path, wasm), alone),
    ensures
        r.extension.name@ == alone.0.name@,
        r.extension.version@ == alone.0.version@,
        r.extension.api_version@ == alone.0.api_version@,
        r.extension.wasm_path@ == alone.0.wasm_path@,
        r.extension.wasm_blake3@ == alone.0.wasm_blake3@,
        r.summary.name@ == s.name@,
        r.summary.version@ == s.version@,
        r.summary.blake3@ == alone.1.blake3@,
        r.sql.casts@.len() == s.sql.casts@.len(),
        r.sql.operators@.len() == s.sql.operators@.len(),
        r.sql.preprocessors@.len() == s.sql.preprocessors@.len(),
        s.spatial_index is None ==> r.spatial_indexes@.len() == 0,
        s.spatial_index is Some ==> r.spatial_indexes@.len() == s.spatial_index->0.aliases@.len(),
        s.spatial_index is Some ==> forall|i: int| #![trigger r.spatial_indexes@[i]]
            0 <= i < r.spatial_indexes@.len() ==> r.spatial_indexes@[i].name@
                == s.spatial_index->0.aliases@[i]@ && r.spatial_indexes@[i].type_id == 0,
{
}

/// Every extension has its line in the summary, in order, behind an empty line
/// and the head.
pub proof fn every_extension_has_its_line(
    counts: &Vec<ExtensionCounts>,
    r: Vec<String>,
    i: int,
    line: String,
    head: String,
)
    requires
        call_ensures(print_summary, (counts,), r),
        0 <= i < counts@.len(),
        call_ensures(summary_line, (&counts@[i],), line),
        call_ensures(summary_head, (), head),
    ensures
        r@.len() == counts@.len() + 2,
        r@[0]@.len() == 0,
        r@[1]@ == head@,
        r@[i + 2]@ == line@,
{
    assert(r@[i + 2]@ == line_text(count_cells(counts@[(i + 2) - 2])));
}

/// A cell at the left begins with its text, one at the right ends with it, and
/// nothing but spaces fills up the column. A text that does not fit is told in
/// full.
pub proof fn cells_stand_at_their_side(text: Seq<char>, width: nat, i: int)
    ensures
        left(text, width).take(text.len() as int) == text,
        right(text, width).skip(right(text, width).len() - text.len()) == text,
        left(text, width).len() == right(text, width).len(),
        left(text, width).len() >= text.len(),
        left(text, width).len() >= width,
        text.len() <= i < left(text, width).len() ==> left(text, width)[i] == ' ',
        0 <= i < right(text, width).len() - text.len() ==> right(text, width)[i] == ' ',
        text.len() >= width ==> left(text, width) == text && right(text, width) == text,
{
    assert(left(text, width).take(text.len() as int) =~= text);
    assert(right(text, width).skip(right(text, width).len() - text.len()) =~= text);
    if text.len() >= width {
        assert(left(text, width) =~= text);
        assert(right(text, width) =~= text);
    }
}

/// Each count of an extension stands under its head: the name of the extension
/// and its version first, then how many there are of each kind.
pub proof fn counts_stand_under_their_heads(c: ExtensionCounts, k: int)
    requires
        0 <= k < head_cells().len(),
    ensures
        count_cells(c).len() == head_cells().len(),
        head_cells()[k] == "extension"@ ==> count_cells(c)[k] == c.extension@,
        head_cells()[k] == "version"@ ==> count_cells(c)[k] == c.version@,
        head_cells()[k] == "scalars"@ ==> count_cells(c)[k] == crate::text::integer_text(
            c.scalars as int,
        ),
        head_cells()[k] == "agg"@ ==> count_cells(c)[k] == crate::text::integer_text(
            c.aggregates as int,
        ),
        head_cells()[k] == "udtf"@ ==> count_cells(c)[k] == crate::text::integer_text(
            c.table_functions as int,
        ),
        head_cells()[k] == "window"@ ==> count_cells(c)[k] == crate::text::integer_text(
            c.window_functions as int,
        ),
        head_cells()[k] == "types"@ ==> count_cells(c)[k] == crate::text::integer_text(
            c.column_types as int,
        ),
        head_cells()[k] == "ops"@ ==> count_cells(c)[k] == crate::text::integer_text(
            c.operators as int,
        ),
        head_cells()[k] == "casts"@ ==> count_cells(c)[k] == crate::text::integer_text(
            c.cast_rewrites as int,
        ),
        head_cells()[k] == "preps"@ ==> count_cells(c)[k] == crate::text::integer_text(
            c.preprocessor_patterns as int,
        ),
        head_cells()[k] == "catalog"@ ==> count_cells(c)[k] == crate::text::integer_text(
            c.system_catalog_tables as int,
        ),
        head_cells()[k] == "idx"@ ==> count_cells(c)[k] == crate::text::integer_text(
            c.spatial_indexes as int,
        ),
{
    reveal_strlit("extension");
    reveal_strlit("version");
    reveal_strlit("scalars");
    reveal_strlit("agg");
    reveal_strlit("udtf");
    reveal_strlit("window");
    reveal_strlit("types");
    reveal_strlit("ops");
    reveal_strlit("casts");
    reveal_strlit("preps");
    reveal_strlit("catalog");
    reveal_strlit("idx");
    assert("agg"@[0] == 'a');
    assert("ops"@[0] == 'o');
    assert("idx"@[0] == 'i');
    assert("udtf"@[0] == 'u');
    assert("types"@[0] == 't');
    assert("casts"@[0] == 'c');
    assert("preps"@[0] == 'p');
    assert("window"@[0] == 'w');
    assert("version"@[0] == 'v');
    assert("scalars"@[0] == 's');
    assert("catalog"@[0] == 'c');
    assert("extension"@[0] == 'e');
    assert("casts"@.len() != "catalog"@.len());
}

/// Lines whose cells fit are as long as the head, so that columns stand below each
/// other.
#[verifier::rlimit(30)]
pub proof fn lines_are_as_long_as_the_head(c: &ExtensionCounts, line: String, head: String)
    requires
        call_ensures(summary_line, (c,), line),
        call_ensures(summary_head, (), head),
        c.extension@.len() <= 14,
        c.version@.len() <= 8,
        crate::text::integer_text(c.scalars as int).len() <= 8,
        crate::text::integer_text(c.aggregates as int).len() <= 5,
        crate::text::integer_text(c.table_functions as int).len() <= 5,
        crate::text::integer_text(c.window_functions as int).len() <= 7,
        crate::text::integer_text(c.column_types as int).len() <= 6,
        crate::text::integer_text(c.operators as int).len() <= 6,
        crate::text::integer_text(c.cast_rewrites as int).len() <= 6,
        crate::text::integer_text(c.preprocessor_patterns as int).len() <= 6,
        crate::text::integer_text(c.system_catalog_tables as int).len() <= 7,
        crate::text::integer_text(c.spatial_indexes as int).len() <= 7,
    ensures
        line@.len() == head@.len(),
{
    reveal_strlit("extension");
    reveal_strlit("version");
    reveal_strlit("scalars");
    reveal_strlit("agg");
    reveal_strlit("udtf");
    reveal_strlit("window");
    reveal_strlit("types");
    reveal_strlit("ops");
    reveal_strlit("casts");
    reveal_strlit("preps");
    reveal_strlit("catalog");
    reveal_strlit("idx");
    lemma_line_length(count_cells(*c));
    lemma_line_length(head_cells());
}

proof fn lemma_line_length(cells: Seq<Seq<char>>)
    requires
        cells.len() == 12,
        cells[0].len() <= 14,
        cells[1].len() <= 8,
        cells[2].len() <= 8,
        cells[3].len() <= 5,
        cells[4].len() <= 5,
        cells[5].len() <= 7,
        cells[6].len() <= 6,
        cells[7].len() <= 6,
        cells[8].len() <= 6,
        cells[9].len() <= 6,
        cells[10].len() <= 7,
        cells[11].len() <= 7,
    ensures
        line_text(cells).len() == 96,
{
    reveal_strlit(" ");
    cells_fill_their_columns(cells[0], 14);
    cells_fill_their_columns(cells[1], 8);
    cells_fill_their_columns(cells[2], 8);
    cells_fill_their_columns(cells[3], 5);
    cells_fill_their_columns(cells[4], 5);
    cells_fill_their_columns(cells[5], 7);
    cells_fill_their_columns(cells[6], 6);
    cells_fill_their_columns(cells[7], 6);
    cells_fill_their_columns(cells[8], 6);
    cells_fill_their_columns(cells[9], 6);
    cells_fill_their_columns(cells[10], 7);
    cells_fill_their_columns(cells[11], 7);
}

} // verus!
