//! What the source tree of a shim adds to its catalog rows: hashes, interfaces
//! and the edges between functions.
use vstd::prelude::*;
use vstd::string::StringExecFns;

use crate::edges::{call_edges, EdgeRow, FunctionKind, KnownFunctions};
use crate::hashes::{
    aggregate_signature_hash, implementation_hash, scalar_signature_hash,
    table_function_signature_hash, window_function_signature_hash, AggregateSig, ScalarSig,
    SimpleFnSig,
};
use crate::text::str_eq;
use crate::walker::WalkedFn;

verus! {

// ---------------------------------------------------------------------------
// Implementation hashes of interfaces
// ---------------------------------------------------------------------------

/// An interface with what its owner file holds; `None` if it has no owner.
#[derive(Debug)]
pub struct InterfaceOwner {
    pub interface: String,
    pub owner: Option<Vec<u8>>,
}

/// An interface with the hash of its implementation.
#[derive(Debug)]
pub struct InterfaceHash {
    pub interface: String,
    pub hash: String,
}

/// The hash of an implementation, in hexadecimal.
pub open spec fn implementation_text(owner: Option<Seq<u8>>, helpers: Seq<u8>) -> Seq<char> {
    crate::digest::hex_text(
        crate::digest::blake3_digest(crate::hashes::implementation_bytes(owner, helpers)),
    )
}

/// What an owner file holds.
pub open spec fn owner_bytes(o: InterfaceOwner) -> Option<Seq<u8>> {
    match o.owner {
        Some(b) => Some(b@),
        None => None,
    }
}

/// Interfaces and their hashes, by their texts.
pub open spec fn hash_texts(hashes: Seq<InterfaceHash>) -> Seq<(Seq<char>, Seq<char>)> {
    hashes.map_values(|h: InterfaceHash| (h.interface@, h.hash@))
}

/// The hash that is listed for an interface; of several the last counts.
pub open spec fn hash_for(
    hashes: Seq<(Seq<char>, Seq<char>)>,
    interface: Seq<char>,
) -> Option<Seq<char>>
    decreases hashes.len(),
{
    if hashes.len() == 0 {
        None
    } else if hashes.last().0 == interface {
        Some(hashes.last().1)
    } else {
        hash_for(hashes.drop_last(), interface)
    }
}

/// Each interface with the hash of its implementation.
pub open spec fn owner_hashes(owners: Seq<InterfaceOwner>, helpers: Seq<u8>) -> Seq<
    (Seq<char>, Seq<char>),
> {
    owners.map_values(
        |o: InterfaceOwner| (o.interface@, implementation_text(owner_bytes(o), helpers)),
    )
}

/// The implementation hash of each interface.
pub fn interface_hashes(owners: &Vec<InterfaceOwner>, helpers_hash: &[u8; 32]) -> (r: Vec<
    InterfaceHash,
>)
    ensures
        hash_texts(r@) == owner_hashes(owners@, helpers_hash@),
{
    let mut out: Vec<InterfaceHash> = Vec::new();
    let mut i: usize = 0;
    while i < owners.len()
        invariant
            i <= owners@.len(),
            out@.len() == i,
            forall|j: int|
                0 <= j < i ==> (#[trigger] out@[j]).interface@ == owners@[j].interface@
                    && out@[j].hash@ == implementation_text(
                    owner_bytes(owners@[j]),
                    helpers_hash@,
                ),
        decreases owners@.len() - i,
    {
        let hash = match &owners[i].owner {
            Some(bytes) => implementation_hash(Some(bytes.as_slice()), helpers_hash),
            None => implementation_hash(None, helpers_hash),
        };
        out.push(InterfaceHash { interface: owners[i].interface.clone(), hash });
        i += 1;
    }
    assert(hash_texts(out@) =~= owner_hashes(owners@, helpers_hash@));
    out
}

fn lookup<'a>(hashes: &'a Vec<InterfaceHash>, interface: &str) -> (r: Option<&'a String>)
    ensures
        match r {
            Some(h) => hash_for(hash_texts(hashes@), interface@) == Some(h@),
            None => hash_for(hash_texts(hashes@), interface@) is None,
        },
{
    let ghost all = hash_texts(hashes@);
    let mut n: usize = hashes.len();
    assert(all.take(n as int) =~= all);
    while n > 0
        invariant
            all == hash_texts(hashes@),
            n <= hashes@.len(),
            hash_for(all, interface@) == hash_for(all.take(n as int), interface@),
        decreases n,
    {
        assert(all.take(n as int).last() == all[n - 1]);
        assert(all.take(n as int).drop_last() =~= all.take(n - 1));
        if str_eq(hashes[n - 1].interface.as_str(), interface) {
            return Some(&hashes[n - 1].hash);
        }
        n -= 1;
    }
    None
}

/// The interface that owns a row, guessed from the row's name. Owners are found
/// by interface and not by function, so the name alone never tells.
pub fn interface_lookup<'a>(hashes: &'a Vec<InterfaceHash>, row_name: &str) -> (r: Option<&'a str>)
    ensures
        r is None,
{
    None
}

/// The interface of a row: its own, or else the guess.
pub open spec fn resolved_interface(
    row: Option<Seq<char>>,
    guessed: Option<Seq<char>>,
) -> Option<Seq<char>> {
    if row is Some {
        row
    } else {
        guessed
    }
}

/// The implementation hash of a row: that of its interface if one is listed,
/// or else that of the helpers alone.
pub open spec fn resolved_hash(
    interface: Option<Seq<char>>,
    hashes: Seq<(Seq<char>, Seq<char>)>,
    helpers_only: Seq<char>,
) -> Seq<char> {
    match interface {
        Some(i) => match hash_for(hashes, i) {
            Some(h) => h,
            None => helpers_only,
        },
        None => helpers_only,
    }
}

/// The interface of a row and the hash of its implementation.
pub fn resolve_iface_and_impl(
    row_iface: Option<&str>,
    guessed: Option<&str>,
    hashes: &Vec<InterfaceHash>,
    helpers_only: &str,
) -> (r: (Option<String>, String))
    ensures
        crate::text::text_option(r.0) == resolved_interface(
            crate::text::str_option(row_iface),
            crate::text::str_option(guessed),
        ),
        r.1@ == resolved_hash(
            crate::text::text_option(r.0),
            hash_texts(hashes@),
            helpers_only@,
        ),
{
    let iface = match row_iface {
        Some(s) => Some(s),
        None => guessed,
    };
    match iface {
        Some(s) => {
            let hash = match lookup(hashes, s) {
                Some(h) => h.clone(),
                None => helpers_only.to_owned(),
            };
            (Some(s.to_owned()), hash)
        },
        None => (None, helpers_only.to_owned()),
    }
}

// ---------------------------------------------------------------------------
// Stamps
// ---------------------------------------------------------------------------

/// A stored scalar function.
#[derive(Clone, Debug)]
pub struct ScalarRow {
    pub name: String,
    pub param_types_json: String,
    pub return_type: String,
    pub is_deterministic: i64,
    pub propagates_null: i64,
    pub interface: Option<String>,
    pub first_seen: Option<String>,
}

/// A stored aggregate function.
#[derive(Clone, Debug)]
pub struct AggregateRow {
    pub name: String,
    pub param_types_json: String,
    pub supports_grouped: i64,
    pub supports_partial: i64,
    pub is_order_sensitive: i64,
    pub accepts_config: i64,
    pub config_arg_indices_json: String,
    pub interface: Option<String>,
    pub first_seen: Option<String>,
}

/// A stored table or window function.
#[derive(Clone, Debug)]
pub struct SimpleFnRow {
    pub name: String,
    pub param_types_json: String,
    pub interface: Option<String>,
    pub first_seen: Option<String>,
}

/// What is written to the row of a function: its interface, the upstream
/// releases that had it first and last, and both hashes.
#[derive(Clone, Debug)]
pub struct Stamp {
    pub name: String,
    pub interface: Option<String>,
    pub first_seen: String,
    pub last_seen: String,
    pub signature_hash: String,
    pub implementation_hash: String,
}

/// A [`Stamp`], by its texts.
pub struct StampModel {
    pub name: Seq<char>,
    pub interface: Option<Seq<char>>,
    pub first_seen: Seq<char>,
    pub last_seen: Seq<char>,
    pub signature: Seq<char>,
    pub implementation: Seq<char>,
}

impl View for Stamp {
    type V = StampModel;

    open spec fn view(&self) -> StampModel {
        StampModel {
            name: self.name@,
            interface: crate::text::text_option(self.interface),
            first_seen: self.first_seen@,
            last_seen: self.last_seen@,
            signature: self.signature_hash@,
            implementation: self.implementation_hash@,
        }
    }
}

/// The sources that rows are stamped from: the upstream release, the
/// implementation hashes of the interfaces, and that of the helpers alone.
pub struct SourceModel {
    pub version: Seq<char>,
    pub hashes: Seq<(Seq<char>, Seq<char>)>,
    pub helpers_only: Seq<char>,
}

/// The stamp of a row with a signature. A row that was stamped before keeps the
/// release that had it first.
pub open spec fn stamped(
    name: Seq<char>,
    interface: Option<Seq<char>>,
    first_seen: Option<Seq<char>>,
    signature: Seq<char>,
    src: SourceModel,
) -> StampModel {
    let owner = resolved_interface(interface, None);
    StampModel {
        name,
        interface: owner,
        first_seen: match first_seen {
            Some(v) => v,
            None => src.version,
        },
        last_seen: src.version,
        signature,
        implementation: resolved_hash(owner, src.hashes, src.helpers_only),
    }
}

/// The signature of a stored scalar function. A flag is set if its column is
/// not zero.
pub open spec fn scalar_row_document(row: ScalarRow) -> Seq<crate::json::Json> {
    seq![
        crate::json::Json::Text(row.name@),
        crate::hashes::recanonicalized(row.param_types_json@),
        crate::json::Json::Text(row.return_type@),
        crate::json::Json::Bool(row.is_deterministic != 0),
        crate::json::Json::Bool(row.propagates_null != 0),
    ]
}

/// The signature of a stored aggregate function. A flag is set if its column is
/// not zero.
pub open spec fn aggregate_row_document(row: AggregateRow) -> Seq<crate::json::Json> {
    seq![
        crate::json::Json::Text(row.name@),
        crate::hashes::recanonicalized(row.param_types_json@),
        crate::json::Json::Bool(row.supports_grouped != 0),
        crate::json::Json::Bool(row.supports_partial != 0),
        crate::json::Json::Bool(row.is_order_sensitive != 0),
        crate::json::Json::Bool(row.accepts_config != 0),
        crate::hashes::recanonicalized(row.config_arg_indices_json@),
    ]
}

/// The signature of a stored table or window function.
pub open spec fn simple_row_document(kind: Seq<char>, row: SimpleFnRow) -> Seq<
    crate::json::Json,
> {
    seq![
        crate::json::Json::Text(kind),
        crate::json::Json::Text(row.name@),
        crate::hashes::recanonicalized(row.param_types_json@),
    ]
}

/// The sources that rows are stamped from.
#[derive(Debug)]
pub struct StampSource<'a> {
    pub upstream_version: &'a str,
    pub hashes: &'a Vec<InterfaceHash>,
    pub helpers_only: &'a str,
}

impl<'a> View for StampSource<'a> {
    type V = SourceModel;

    open spec fn view(&self) -> SourceModel {
        SourceModel {
            version: self.upstream_version@,
            hashes: hash_texts(self.hashes@),
            helpers_only: self.helpers_only@,
        }
    }
}

fn stamp(
    name: &String,
    interface: &Option<String>,
    first_seen: &Option<String>,
    signature: String,
    src: &StampSource<'_>,
) -> (r: Stamp)
    ensures
        r@ == stamped(
            name@,
            crate::text::text_option(*interface),
            crate::text::text_option(*first_seen),
            signature@,
            src@,
        ),
{
    let guessed = interface_lookup(src.hashes, name.as_str());
    let row = match interface {
        Some(s) => Some(s.as_str()),
        None => None,
    };
    let (iface, hash) = resolve_iface_and_impl(row, guessed, src.hashes, src.helpers_only);
    Stamp {
        name: name.clone(),
        interface: iface,
        first_seen: match first_seen {
            Some(v) => v.clone(),
            None => src.upstream_version.to_owned(),
        },
        last_seen: src.upstream_version.to_owned(),
        signature_hash: signature,
        implementation_hash: hash,
    }
}

/// The stamp of each scalar function.
pub open spec fn are_scalar_stamps(
    stamps: Seq<Stamp>,
    rows: Seq<ScalarRow>,
    src: SourceModel,
) -> bool {
    &&& stamps.len() == rows.len()
    &&& forall|i: int|
        0 <= i < stamps.len() ==> (#[trigger] stamps[i])@ == stamped(
            rows[i].name@,
            crate::text::text_option(rows[i].interface),
            crate::text::text_option(rows[i].first_seen),
            crate::hashes::document_hash_text(scalar_row_document(rows[i])),
            src,
        )
}

/// Stamps scalar functions.
pub fn stamp_scalar_rows(
    rows: &Vec<ScalarRow>,
    src: &StampSource<'_>,
) -> (r: Vec<Stamp>)
    ensures
        are_scalar_stamps(r@, rows@, src@),
{
    let mut out: Vec<Stamp> = Vec::new();
    let mut i: usize = 0;
    while i < rows.len()
        invariant
            i <= rows@.len(),
            are_scalar_stamps(out@, rows@.take(i as int), src@),
        decreases rows@.len() - i,
    {
        let row = &rows[i];
        let sig = scalar_signature_hash(
            &ScalarSig {
                name: row.name.as_str(),
                param_types_json: row.param_types_json.as_str(),
                return_type: row.return_type.as_str(),
                is_deterministic: row.is_deterministic != 0,
                propagates_null: row.propagates_null != 0,
            },
        );
        out.push(stamp(&row.name, &row.interface, &row.first_seen, sig, src));
        i += 1;
    }
    assert(rows@.take(i as int) =~= rows@);
    out
}

/// The stamp of each aggregate function.
pub open spec fn are_aggregate_stamps(
    stamps: Seq<Stamp>,
    rows: Seq<AggregateRow>,
    src: SourceModel,
) -> bool {
    &&& stamps.len() == rows.len()
    &&& forall|i: int|
        0 <= i < stamps.len() ==> (#[trigger] stamps[i])@ == stamped(
            rows[i].name@,
            crate::text::text_option(rows[i].interface),
            crate::text::text_option(rows[i].first_seen),
            crate::hashes::document_hash_text(aggregate_row_document(rows[i])),
            src,
        )
}

/// Stamps aggregate functions.
pub fn stamp_aggregate_rows(
    rows: &Vec<AggregateRow>,
    src: &StampSource<'_>,
) -> (r: Vec<Stamp>)
    ensures
        are_aggregate_stamps(r@, rows@, src@),
{
    let mut out: Vec<Stamp> = Vec::new();
    let mut i: usize = 0;
    while i < rows.len()
        invariant
            i <= rows@.len(),
            are_aggregate_stamps(out@, rows@.take(i as int), src@),
        decreases rows@.len() - i,
    {
        let row = &rows[i];
        let sig = aggregate_signature_hash(
            &AggregateSig {
                name: row.name.as_str(),
                param_types_json: row.param_types_json.as_str(),
                supports_grouped: row.supports_grouped != 0,
                supports_partial: row.supports_partial != 0,
                is_order_sensitive: row.is_order_sensitive != 0,
                accepts_config: row.accepts_config != 0,
                config_arg_indices_json: row.config_arg_indices_json.as_str(),
            },
        );
        out.push(stamp(&row.name, &row.interface, &row.first_seen, sig, src));
        i += 1;
    }
    assert(rows@.take(i as int) =~= rows@);
    out
}

/// The two kinds of function that have a name and parameters only.
#[derive(Clone, Copy, Debug, PartialEq, Eq, Structural)]
pub enum SimpleTable {
    TableFunctions,
    WindowFunctions,
}

/// The tag under which a function is hashed.
pub open spec fn simple_tag(table: SimpleTable) -> Seq<char> {
    match table {
        SimpleTable::TableFunctions => "table_function"@,
        SimpleTable::WindowFunctions => "window_function"@,
    }
}

/// The stamp of each table or window function.
pub open spec fn are_simple_stamps(
    stamps: Seq<Stamp>,
    table: SimpleTable,
    rows: Seq<SimpleFnRow>,
    src: SourceModel,
) -> bool {
    &&& stamps.len() == rows.len()
    &&& forall|i: int|
        0 <= i < stamps.len() ==> (#[trigger] stamps[i])@ == stamped(
            rows[i].name@,
            crate::text::text_option(rows[i].interface),
            crate::text::text_option(rows[i].first_seen),
            crate::hashes::document_hash_text(simple_row_document(simple_tag(table), rows[i])),
            src,
        )
}

/// Stamps table or window functions.
pub fn stamp_simple_fn_rows(
    table: SimpleTable,
    rows: &Vec<SimpleFnRow>,
    src: &StampSource<'_>,
) -> (r: Vec<Stamp>)
    ensures
        are_simple_stamps(r@, table, rows@, src@),
{
    let mut out: Vec<Stamp> = Vec::new();
    let mut i: usize = 0;
    while i < rows.len()
        invariant
            i <= rows@.len(),
            are_simple_stamps(out@, table, rows@.take(i as int), src@),
        decreases rows@.len() - i,
    {
        let row = &rows[i];
        let arg = SimpleFnSig {
            name: row.name.as_str(),
            param_types_json: row.param_types_json.as_str(),
        };
        let sig = match table {
            SimpleTable::TableFunctions => table_function_signature_hash(&arg),
            SimpleTable::WindowFunctions => window_function_signature_hash(&arg),
        };
        out.push(stamp(&row.name, &row.interface, &row.first_seen, sig, src));
        i += 1;
    }
    assert(rows@.take(i as int) =~= rows@);
    out
}

// ---------------------------------------------------------------------------
// The whole pass
// ---------------------------------------------------------------------------

/// The statement that writes a stamp. Its parameters are the extension, the
/// name, the interface, the releases that had the function first and last, and
/// the two hashes.
pub open spec fn stamp_text(kind: FunctionKind) -> Seq<char> {
    "UPDATE "@ + kind.table_text()
        + " SET interface = ?3, first_seen_upstream_version = ?4, last_seen_upstream_version = ?5, signature_hash = ?6, implementation_hash = ?7 WHERE extension = ?1 AND name = ?2"@
}

/// The statement that writes a stamp.
pub fn stamp_sql(kind: FunctionKind) -> (r: String)
    ensures
        r@ == stamp_text(kind),
{
    let mut sql = "UPDATE ".to_owned();
    sql.append(kind.table());
    sql.append(
        " SET interface = ?3, first_seen_upstream_version = ?4, last_seen_upstream_version = ?5, signature_hash = ?6, implementation_hash = ?7 WHERE extension = ?1 AND name = ?2",
    );
    sql
}

/// The stored functions of an extension.
#[derive(Debug)]
pub struct FunctionRows {
    pub scalars: Vec<ScalarRow>,
    pub aggregates: Vec<AggregateRow>,
    pub table_functions: Vec<SimpleFnRow>,
    pub window_functions: Vec<SimpleFnRow>,
}

/// The names of stored functions are those that are known.
pub open spec fn names_rows(known: KnownFunctions, rows: FunctionRows) -> bool {
    &&& known.names(FunctionKind::Scalar) == rows.scalars@.map_values(|r: ScalarRow| r.name@)
    &&& known.names(FunctionKind::Aggregate) == rows.aggregates@.map_values(
        |r: AggregateRow| r.name@,
    )
    &&& known.names(FunctionKind::Table) == rows.table_functions@.map_values(
        |r: SimpleFnRow| r.name@,
    )
    &&& known.names(FunctionKind::Window) == rows.window_functions@.map_values(
        |r: SimpleFnRow| r.name@,
    )
}

fn simple_names(rows: &Vec<SimpleFnRow>) -> (r: Vec<String>)
    ensures
        crate::text::texts(r@) == rows@.map_values(|r: SimpleFnRow| r.name@),
{
    let mut out: Vec<String> = Vec::new();
    let mut i: usize = 0;
    while i < rows.len()
        invariant
            i <= rows@.len(),
            out@.len() == i,
            forall|j: int| 0 <= j < i ==> (#[trigger] out@[j])@ == rows@[j].name@,
        decreases rows@.len() - i,
    {
        out.push(rows[i].name.clone());
        i += 1;
    }
    assert(crate::text::texts(out@) =~= rows@.map_values(|r: SimpleFnRow| r.name@));
    out
}

/// The names of the stored functions.
pub fn known_functions(rows: &FunctionRows) -> (r: KnownFunctions)
    ensures
        names_rows(r, *rows),
{
    let mut scalars: Vec<String> = Vec::new();
    let mut i: usize = 0;
    while i < rows.scalars.len()
        invariant
            i <= rows.scalars@.len(),
            scalars@.len() == i,
            forall|j: int| 0 <= j < i ==> (#[trigger] scalars@[j])@ == rows.scalars@[j].name@,
        decreases rows.scalars@.len() - i,
    {
        scalars.push(rows.scalars[i].name.clone());
        i += 1;
    }
    assert(crate::text::texts(scalars@) =~= rows.scalars@.map_values(|r: ScalarRow| r.name@));
    let mut aggregates: Vec<String> = Vec::new();
    let mut k: usize = 0;
    while k < rows.aggregates.len()
        invariant
            k <= rows.aggregates@.len(),
            aggregates@.len() == k,
            forall|j: int|
                0 <= j < k ==> (#[trigger] aggregates@[j])@ == rows.aggregates@[j].name@,
        decreases rows.aggregates@.len() - k,
    {
        aggregates.push(rows.aggregates[k].name.clone());
        k += 1;
    }
    assert(crate::text::texts(aggregates@) =~= rows.aggregates@.map_values(
        |r: AggregateRow| r.name@,
    ));
    KnownFunctions {
        scalars,
        aggregates,
        table_functions: simple_names(&rows.table_functions),
        window_functions: simple_names(&rows.window_functions),
    }
}

/// The upstream release that an extension is taken from.
#[derive(Clone, Copy, Debug)]
pub struct Release<'a> {
    pub extension: &'a str,
    pub version: &'a str,
    pub released_at: Option<&'a str>,
    pub commit: Option<&'a str>,
}

/// The row of an upstream release. The time of the extraction is added when it
/// is written.
#[derive(Debug)]
pub struct UpstreamRow {
    pub extension: String,
    pub version: String,
    pub released_at: Option<String>,
    pub ingested_from_commit: Option<String>,
    pub scalar_count: usize,
    pub aggregate_count: usize,
    pub table_function_count: usize,
    pub window_function_count: usize,
    pub notes: Option<String>,
}

/// A row records a release: its texts are carried over, each count is the number
/// of the extension's stored functions of the kind, and there are no notes.
pub open spec fn is_upstream_row(row: UpstreamRow, release: Release<'_>, rows: FunctionRows) -> bool {
    &&& row.extension@ == release.extension@
    &&& row.version@ == release.version@
    &&& crate::text::text_option(row.released_at) == crate::text::str_option(release.released_at)
    &&& crate::text::text_option(row.ingested_from_commit) == crate::text::str_option(
        release.commit,
    )
    &&& row.scalar_count == rows.scalars@.len()
    &&& row.aggregate_count == rows.aggregates@.len()
    &&& row.table_function_count == rows.table_functions@.len()
    &&& row.window_function_count == rows.window_functions@.len()
    &&& row.notes is None
}

fn owned(s: Option<&str>) -> (r: Option<String>)
    ensures
        crate::text::text_option(r) == crate::text::str_option(s),
{
    match s {
        Some(t) => Some(t.to_owned()),
        None => None,
    }
}

/// The row of an upstream release, given the functions that are stored of the
/// extension.
pub fn upstream_row(release: &Release<'_>, rows: &FunctionRows) -> (r: UpstreamRow)
    ensures
        is_upstream_row(r, *release, *rows),
{
    UpstreamRow {
        extension: release.extension.to_owned(),
        version: release.version.to_owned(),
        released_at: owned(release.released_at),
        ingested_from_commit: owned(release.commit),
        scalar_count: rows.scalars.len(),
        aggregate_count: rows.aggregates.len(),
        table_function_count: rows.table_functions.len(),
        window_function_count: rows.window_functions.len(),
        notes: None,
    }
}

/// Everything that the source tree of a shim adds to its catalog, apart from
/// the edges that the catalog itself shows.
#[derive(Debug)]
pub struct SourceUpdates {
    pub scalars: Vec<Stamp>,
    pub aggregates: Vec<Stamp>,
    pub table_functions: Vec<Stamp>,
    pub window_functions: Vec<Stamp>,
    pub known: KnownFunctions,
    pub edges: Vec<EdgeRow>,
    pub upstream: UpstreamRow,
}

/// The sources with an upstream release, given the owner files and the digest
/// of the helpers.
pub open spec fn source_model(
    version: Seq<char>,
    owners: Seq<InterfaceOwner>,
    helpers: Seq<u8>,
) -> SourceModel {
    SourceModel {
        version,
        hashes: owner_hashes(owners, helpers),
        helpers_only: implementation_text(None, helpers),
    }
}

/// `u` is what the sources of a release add: a stamp for every stored function,
/// a row for every call of a stored function if the sources were walked, and
/// the row of the release.
pub open spec fn are_updates(
    u: SourceUpdates,
    rows: FunctionRows,
    owners: Seq<InterfaceOwner>,
    helpers: Seq<u8>,
    release: Release<'_>,
    walked: Option<Seq<crate::walker::WalkedModel>>,
) -> bool {
    let src = source_model(release.version@, owners, helpers);
    &&& are_scalar_stamps(u.scalars@, rows.scalars@, src)
    &&& are_aggregate_stamps(u.aggregates@, rows.aggregates@, src)
    &&& are_simple_stamps(
        u.table_functions@,
        SimpleTable::TableFunctions,
        rows.table_functions@,
        src,
    )
    &&& are_simple_stamps(
        u.window_functions@,
        SimpleTable::WindowFunctions,
        rows.window_functions@,
        src,
    )
    &&& names_rows(u.known, rows)
    &&& crate::edges::row_models(u.edges@) == match walked {
        Some(w) => crate::edges::call_rows(u.known, w),
        None => Seq::empty(),
    }
    &&& is_upstream_row(u.upstream, release, rows)
}

/// The walked functions, by their texts, if there was a walk.
pub open spec fn walk_model(walked: Option<&Vec<WalkedFn>>) -> Option<
    Seq<crate::walker::WalkedModel>,
> {
    match walked {
        Some(w) => Some(crate::walker::walked_models(w@)),
        None => None,
    }
}

/// Works out what the source tree of a shim adds to its catalog: a stamp for
/// every stored function, a row for every call of a stored function if the
/// sources were walked, and the row of the release.
pub fn extract_source_metadata(
    rows: &FunctionRows,
    owners: &Vec<InterfaceOwner>,
    helpers_hash: &[u8; 32],
    release: &Release<'_>,
    walked: Option<&Vec<WalkedFn>>,
) -> (r: SourceUpdates)
    ensures
        are_updates(r, *rows, owners@, helpers_hash@, *release, walk_model(walked)),
{
    let interfaces = interface_hashes(owners, helpers_hash);
    let helpers_only = implementation_hash(None, helpers_hash);
    let src = StampSource {
        upstream_version: release.version,
        hashes: &interfaces,
        helpers_only: helpers_only.as_str(),
    };
    let scalars = stamp_scalar_rows(&rows.scalars, &src);
    let aggregates = stamp_aggregate_rows(&rows.aggregates, &src);
    let table_functions = stamp_simple_fn_rows(
        SimpleTable::TableFunctions,
        &rows.table_functions,
        &src,
    );
    let window_functions = stamp_simple_fn_rows(
        SimpleTable::WindowFunctions,
        &rows.window_functions,
        &src,
    );
    let known = known_functions(rows);
    let edges = match walked {
        Some(w) => call_edges(&known, w),
        None => {
            let none: Vec<EdgeRow> = Vec::new();
            assert(crate::edges::row_models(none@) =~= Seq::<crate::edges::EdgeRowModel>::empty());
            none
        },
    };
    SourceUpdates {
        scalars,
        aggregates,
        table_functions,
        window_functions,
        known,
        edges,
        upstream: upstream_row(release, rows),
    }
}

// ---------------------------------------------------------------------------
// Laws
// ---------------------------------------------------------------------------

/// A row that has an interface keeps it.
pub proof fn stamping_keeps_the_interface(
    name: Seq<char>,
    interface: Seq<char>,
    first_seen: Option<Seq<char>>,
    signature: Seq<char>,
    src: SourceModel,
)
    ensures
        stamped(name, Some(interface), first_seen, signature, src).interface == Some(interface),
{
}

/// A row without an interface that is listed is stamped with the hash of the
/// helpers alone, whatever the owner files hold.
pub proof fn unowned_rows_depend_on_helpers_alone(
    name: Seq<char>,
    interface: Option<Seq<char>>,
    first_seen: Option<Seq<char>>,
    signature: Seq<char>,
    version: Seq<char>,
    owners: Seq<InterfaceOwner>,
    helpers: Seq<u8>,
)
    requires
        interface is Some ==> forall|i: int|
            0 <= i < owners.len() ==> (#[trigger] owners[i]).interface@ != interface->0,
    ensures
        stamped(name, interface, first_seen, signature, source_model(version, owners, helpers))
            .implementation == implementation_text(None, helpers),
{
    if interface is Some {
        let hashes = owner_hashes(owners, helpers);
        assert forall|i: int| 0 <= i < hashes.len() implies (#[trigger] hashes[i]).0
            != interface->0 by {
            assert(owners[i].interface@ != interface->0);
        }
        lemma_not_listed(hashes, interface->0);
    }
}

proof fn lemma_not_listed(hashes: Seq<(Seq<char>, Seq<char>)>, interface: Seq<char>)
    requires
        forall|i: int| 0 <= i < hashes.len() ==> (#[trigger] hashes[i]).0 != interface,
    ensures
        hash_for(hashes, interface) is None,
    decreases hashes.len(),
{
    if hashes.len() > 0 {
        assert(hashes[hashes.len() - 1].0 != interface);
        assert forall|i: int| 0 <= i < hashes.drop_last().len() implies (
        #[trigger] hashes.drop_last()[i]).0 != interface by {
            assert(hashes[i].0 != interface);
        }
        lemma_not_listed(hashes.drop_last(), interface);
    }
}

/// A row that an interface with an owner file provides is stamped with the hash
/// of the last owner file that is listed for the interface.
pub proof fn owned_rows_follow_their_owner(
    name: Seq<char>,
    first_seen: Option<Seq<char>>,
    signature: Seq<char>,
    version: Seq<char>,
    owners: Seq<InterfaceOwner>,
    helpers: Seq<u8>,
    at: int,
)
    requires
        0 <= at < owners.len(),
        forall|j: int|
            at < j < owners.len() ==> (#[trigger] owners[j]).interface@ != owners[at].interface@,
    ensures
        stamped(
            name,
            Some(owners[at].interface@),
            first_seen,
            signature,
            source_model(version, owners, helpers),
        ).implementation == implementation_text(owner_bytes(owners[at]), helpers),
{
    let hashes = owner_hashes(owners, helpers);
    assert forall|j: int| at < j < hashes.len() implies (#[trigger] hashes[j]).0
        != hashes[at].0 by {
        assert(owners[j].interface@ != owners[at].interface@);
    }
    lemma_last_listed(hashes, at);
}

proof fn lemma_last_listed(hashes: Seq<(Seq<char>, Seq<char>)>, at: int)
    requires
        0 <= at < hashes.len(),
        forall|j: int| at < j < hashes.len() ==> (#[trigger] hashes[j]).0 != hashes[at].0,
    ensures
        hash_for(hashes, hashes[at].0) == Some(hashes[at].1),
    decreases hashes.len(),
{
    if at < hashes.len() - 1 {
        let front = hashes.drop_last();
        assert(hashes[hashes.len() - 1].0 != hashes[at].0);
        assert forall|j: int| at < j < front.len() implies (#[trigger] front[j]).0
            != front[at].0 by {
            assert(hashes[j].0 != hashes[at].0);
        }
        lemma_last_listed(front, at);
    }
}

/// Stamps, by their texts.
pub open spec fn stamp_models(stamps: Seq<Stamp>) -> Seq<StampModel> {
    stamps.map_values(|s: Stamp| s@)
}

/// Two rows record the same.
pub open spec fn same_upstream_row(a: UpstreamRow, b: UpstreamRow) -> bool {
    &&& a.extension@ == b.extension@
    &&& a.version@ == b.version@
    &&& crate::text::text_option(a.released_at) == crate::text::text_option(b.released_at)
    &&& crate::text::text_option(a.ingested_from_commit) == crate::text::text_option(
        b.ingested_from_commit,
    )
    &&& a.scalar_count == b.scalar_count
    &&& a.aggregate_count == b.aggregate_count
    &&& a.table_function_count == b.table_function_count
    &&& a.window_function_count == b.window_function_count
    &&& crate::text::text_option(a.notes) == crate::text::text_option(b.notes)
}

/// Leaving the walk through the sources out changes the edges of calls alone:
/// there are none then, while every stamp and the row of the release are what
/// they are with the walk. The edges that the catalog itself shows do not
/// depend on the sources at all.
pub proof fn leaving_the_walk_out_changes_edges_alone(
    rows: FunctionRows,
    owners: Seq<InterfaceOwner>,
    helpers: Seq<u8>,
    release: Release<'_>,
    walked: Seq<crate::walker::WalkedModel>,
    with: SourceUpdates,
    without: SourceUpdates,
)
    requires
        are_updates(with, rows, owners, helpers, release, Some(walked)),
        are_updates(without, rows, owners, helpers, release, None),
    ensures
        without.edges@.len() == 0,
        stamp_models(without.scalars@) == stamp_models(with.scalars@),
        stamp_models(without.aggregates@) == stamp_models(with.aggregates@),
        stamp_models(without.table_functions@) == stamp_models(with.table_functions@),
        stamp_models(without.window_functions@) == stamp_models(with.window_functions@),
        forall|kind: FunctionKind| #[trigger]
            without.known.names(kind) == with.known.names(kind),
        same_upstream_row(without.upstream, with.upstream),
{
    assert(crate::edges::row_models(without.edges@).len() == 0);
    assert(stamp_models(without.scalars@) =~= stamp_models(with.scalars@));
    assert(stamp_models(without.aggregates@) =~= stamp_models(with.aggregates@));
    assert(stamp_models(without.table_functions@) =~= stamp_models(with.table_functions@));
    assert(stamp_models(without.window_functions@) =~= stamp_models(with.window_functions@));
}

/// However often a row is stamped, the release that had it first stays, and the
/// release that had it last is that of the last stamp.
pub proof fn first_release_stays(
    name: Seq<char>,
    interface: Option<Seq<char>>,
    first_seen: Option<Seq<char>>,
    signature: Seq<char>,
    earlier: SourceModel,
    later: SourceModel,
)
    ensures
        ({
            let once = stamped(name, interface, first_seen, signature, earlier);
            let twice = stamped(name, once.interface, Some(once.first_seen), signature, later);
            &&& twice.first_seen == once.first_seen
            &&& twice.last_seen == later.version
            &&& first_seen is None ==> twice.first_seen == earlier.version
            &&& first_seen is Some ==> twice.first_seen == first_seen->0
        }),
{
}

/// Stamping a row again with the same sources changes nothing.
pub proof fn stamping_twice_is_stamping_once(
    name: Seq<char>,
    interface: Option<Seq<char>>,
    first_seen: Option<Seq<char>>,
    signature: Seq<char>,
    src: SourceModel,
)
    ensures
        ({
            let once = stamped(name, interface, first_seen, signature, src);
            stamped(name, once.interface, Some(once.first_seen), signature, src) == once
        }),
{
}

/// A scalar function is hashed by its own columns: its stamp carries the hash of
/// the signature that the row's columns make up, where a flag is set exactly if
/// its own column is not zero.
pub proof fn scalars_are_hashed_by_their_columns(
    rows: &Vec<ScalarRow>,
    src: &StampSource<'_>,
    r: Vec<Stamp>,
    i: int,
    sig: &ScalarSig<'_>,
    hash: String,
)
    requires
        call_ensures(stamp_scalar_rows, (rows, src), r),
        0 <= i < rows@.len(),
        sig.name@ == rows@[i].name@,
        sig.param_types_json@ == rows@[i].param_types_json@,
        sig.return_type@ == rows@[i].return_type@,
        sig.is_deterministic == (rows@[i].is_deterministic != 0),
        sig.propagates_null == (rows@[i].propagates_null != 0),
        call_ensures(scalar_signature_hash, (sig,), hash),
    ensures
        r@.len() == rows@.len(),
        r@[i].signature_hash@ == hash@,
{
    assert(r@[i]@.signature == r@[i].signature_hash@);
    assert(crate::hashes::scalar_document(
        *sig,
        crate::hashes::recanonicalized(sig.param_types_json@),
    ) =~= scalar_row_document(rows@[i]));
}

/// An aggregate function is hashed by its own columns, each flag read from the
/// column of its name.
pub proof fn aggregates_are_hashed_by_their_columns(
    rows: &Vec<AggregateRow>,
    src: &StampSource<'_>,
    r: Vec<Stamp>,
    i: int,
    sig: &AggregateSig<'_>,
    hash: String,
)
    requires
        call_ensures(stamp_aggregate_rows, (rows, src), r),
        0 <= i < rows@.len(),
        sig.name@ == rows@[i].name@,
        sig.param_types_json@ == rows@[i].param_types_json@,
        sig.supports_grouped == (rows@[i].supports_grouped != 0),
        sig.supports_partial == (rows@[i].supports_partial != 0),
        sig.is_order_sensitive == (rows@[i].is_order_sensitive != 0),
        sig.accepts_config == (rows@[i].accepts_config != 0),
        sig.config_arg_indices_json@ == rows@[i].config_arg_indices_json@,
        call_ensures(aggregate_signature_hash, (sig,), hash),
    ensures
        r@.len() == rows@.len(),
        r@[i].signature_hash@ == hash@,
{
    assert(r@[i]@.signature == r@[i].signature_hash@);
    assert(crate::hashes::aggregate_document(
        *sig,
        crate::hashes::recanonicalized(sig.param_types_json@),
        crate::hashes::recanonicalized(sig.config_arg_indices_json@),
    ) =~= aggregate_row_document(rows@[i]));
}

/// A table or window function is hashed by its own columns, as a function of the
/// kind that it is stored as.
pub proof fn simple_functions_are_hashed_by_their_columns(
    table: SimpleTable,
    rows: &Vec<SimpleFnRow>,
    src: &StampSource<'_>,
    r: Vec<Stamp>,
    i: int,
    sig: &SimpleFnSig<'_>,
    hash: String,
)
    requires
        call_ensures(stamp_simple_fn_rows, (table, rows, src), r),
        0 <= i < rows@.len(),
        sig.name@ == rows@[i].name@,
        sig.param_types_json@ == rows@[i].param_types_json@,
        table is TableFunctions ==> call_ensures(table_function_signature_hash, (sig,), hash),
        table is WindowFunctions ==> call_ensures(window_function_signature_hash, (sig,), hash),
    ensures
        r@.len() == rows@.len(),
        r@[i].signature_hash@ == hash@,
{
    assert(r@[i]@.signature == r@[i].signature_hash@);
    let params = crate::hashes::recanonicalized(sig.param_types_json@);
    assert(crate::hashes::simple_fn_document(simple_tag(table), *sig, params)
        =~= simple_row_document(simple_tag(table), rows@[i]));
}

/// Every column of a stored aggregate function shows in what is hashed: two rows
/// are hashed over the same bytes exactly if they agree in every column, flags
/// counting as set or not and JSON up to its layout.
pub proof fn every_aggregate_column_shows(a: AggregateRow, b: AggregateRow)
    ensures
        crate::hashes::canonical_bytes(aggregate_row_document(a)) == crate::hashes::canonical_bytes(
            aggregate_row_document(b),
        ) <==> {
            &&& a.name@ == b.name@
            &&& crate::hashes::recanonicalized(a.param_types_json@)
                == crate::hashes::recanonicalized(b.param_types_json@)
            &&& (a.supports_grouped == 0 <==> b.supports_grouped == 0)
            &&& (a.supports_partial == 0 <==> b.supports_partial == 0)
            &&& (a.is_order_sensitive == 0 <==> b.is_order_sensitive == 0)
            &&& (a.accepts_config == 0 <==> b.accepts_config == 0)
            &&& crate::hashes::recanonicalized(a.config_arg_indices_json@)
                == crate::hashes::recanonicalized(b.config_arg_indices_json@)
        },
{
    let x = aggregate_row_document(a);
    let y = aggregate_row_document(b);
    crate::hashes::lemma_recanonicalized();
    crate::hashes::lemma_recanonicalized_holds_numerals();
    lemma_bytes_tell_apart(x, y);
    if x == y {
        assert(x[0] == y[0] && x[1] == y[1] && x[2] == y[2] && x[3] == y[3] && x[4] == y[4] && x[5]
            == y[5] && x[6] == y[6]);
    }
    if a.name@ == b.name@ && crate::hashes::recanonicalized(a.param_types_json@)
        == crate::hashes::recanonicalized(b.param_types_json@) && (a.supports_grouped == 0
        <==> b.supports_grouped == 0) && (a.supports_partial == 0 <==> b.supports_partial == 0) && (
    a.is_order_sensitive == 0 <==> b.is_order_sensitive == 0) && (a.accepts_config == 0
        <==> b.accepts_config == 0) && crate::hashes::recanonicalized(a.config_arg_indices_json@)
        == crate::hashes::recanonicalized(b.config_arg_indices_json@) {
        assert(x =~= y);
    }
}

/// Every column of a stored scalar function shows in what is hashed.
pub proof fn every_scalar_column_shows(a: ScalarRow, b: ScalarRow)
    ensures
        crate::hashes::canonical_bytes(scalar_row_document(a)) == crate::hashes::canonical_bytes(
            scalar_row_document(b),
        ) <==> {
            &&& a.name@ == b.name@
            &&& crate::hashes::recanonicalized(a.param_types_json@)
                == crate::hashes::recanonicalized(b.param_types_json@)
            &&& a.return_type@ == b.return_type@
            &&& (a.is_deterministic == 0 <==> b.is_deterministic == 0)
            &&& (a.propagates_null == 0 <==> b.propagates_null == 0)
        },
{
    let x = scalar_row_document(a);
    let y = scalar_row_document(b);
    crate::hashes::lemma_recanonicalized();
    crate::hashes::lemma_recanonicalized_holds_numerals();
    lemma_bytes_tell_apart(x, y);
    if x == y {
        assert(x[0] == y[0] && x[1] == y[1] && x[2] == y[2] && x[3] == y[3] && x[4] == y[4]);
    }
    if a.name@ == b.name@ && crate::hashes::recanonicalized(a.param_types_json@)
        == crate::hashes::recanonicalized(b.param_types_json@) && a.return_type@ == b.return_type@
        && (a.is_deterministic == 0 <==> b.is_deterministic == 0) && (a.propagates_null == 0
        <==> b.propagates_null == 0) {
        assert(x =~= y);
    }
}

proof fn lemma_bytes_tell_apart(x: Seq<crate::json::Json>, y: Seq<crate::json::Json>)
    requires
        forall|i: int| #![trigger x[i]]
            0 <= i < x.len() ==> crate::json::holds_numerals(x[i]) && crate::json::canonical(x[i])
                == x[i],
        forall|i: int| #![trigger y[i]]
            0 <= i < y.len() ==> crate::json::holds_numerals(y[i]) && crate::json::canonical(y[i])
                == y[i],
    ensures
        crate::hashes::canonical_bytes(x) == crate::hashes::canonical_bytes(y) <==> x == y,
{
    crate::json::lemma_canonical_items(x);
    crate::json::lemma_canonical_items(y);
    assert(crate::json::canonical_items(x) =~= x);
    assert(crate::json::canonical_items(y) =~= y);
    let p = crate::json::Json::Array(x);
    let q = crate::json::Json::Array(y);
    crate::json::texts_tell_documents_apart(p, q);
    vstd::utf8::encode_utf8_decode_utf8(crate::json::json_text(p));
    vstd::utf8::encode_utf8_decode_utf8(crate::json::json_text(q));
}

/// A stamp is that of a row: it is written to the row's name and keeps the row's
/// interface, the release that had the function first is the one that the row
/// names or else the one at hand, and the one that had it last is the one at
/// hand.
pub open spec fn is_stamp_of(
    s: Stamp,
    name: String,
    interface: Option<String>,
    first_seen: Option<String>,
    version: Seq<char>,
) -> bool {
    &&& s.name@ == name@
    &&& interface is Some <==> s.interface is Some
    &&& interface is Some ==> s.interface->0@ == interface->0@
    &&& first_seen is Some ==> s.first_seen@ == first_seen->0@
    &&& first_seen is None ==> s.first_seen@ == version
    &&& s.last_seen@ == version
}

proof fn lemma_is_stamp_of(
    s: Stamp,
    name: String,
    interface: Option<String>,
    first_seen: Option<String>,
    signature: Seq<char>,
    src: SourceModel,
)
    requires
        s@ == stamped(
            name@,
            crate::text::text_option(interface),
            crate::text::text_option(first_seen),
            signature,
            src,
        ),
    ensures
        is_stamp_of(s, name, interface, first_seen, src.version),
        s.signature_hash@ == signature,
        s.implementation_hash@ == resolved_hash(
            crate::text::text_option(interface),
            src.hashes,
            src.helpers_only,
        ),
{
    assert(s@.name == s.name@ && s@.first_seen == s.first_seen@ && s@.last_seen == s.last_seen@);
    assert(s@.interface == crate::text::text_option(s.interface));
    assert(s@.signature == s.signature_hash@);
    assert(s@.implementation == s.implementation_hash@);
}

/// Every stored function gets its stamp, in order, whatever its kind.
pub proof fn every_function_is_stamped(
    rows: &FunctionRows,
    owners: &Vec<InterfaceOwner>,
    helpers_hash: &[u8; 32],
    release: &Release<'_>,
    walked: Option<&Vec<WalkedFn>>,
    u: SourceUpdates,
)
    requires
        call_ensures(extract_source_metadata, (rows, owners, helpers_hash, release, walked), u),
    ensures
        u.scalars@.len() == rows.scalars@.len(),
        u.aggregates@.len() == rows.aggregates@.len(),
        u.table_functions@.len() == rows.table_functions@.len(),
        u.window_functions@.len() == rows.window_functions@.len(),
        forall|i: int| #![trigger u.scalars@[i]]
            0 <= i < u.scalars@.len() ==> is_stamp_of(
                u.scalars@[i],
                rows.scalars@[i].name,
                rows.scalars@[i].interface,
                rows.scalars@[i].first_seen,
                release.version@,
            ),
        forall|i: int| #![trigger u.aggregates@[i]]
            0 <= i < u.aggregates@.len() ==> is_stamp_of(
                u.aggregates@[i],
                rows.aggregates@[i].name,
                rows.aggregates@[i].interface,
                rows.aggregates@[i].first_seen,
                release.version@,
            ),
        forall|i: int| #![trigger u.table_functions@[i]]
            0 <= i < u.table_functions@.len() ==> is_stamp_of(
                u.table_functions@[i],
                rows.table_functions@[i].name,
                rows.table_functions@[i].interface,
                rows.table_functions@[i].first_seen,
                release.version@,
            ),
        forall|i: int| #![trigger u.window_functions@[i]]
            0 <= i < u.window_functions@.len() ==> is_stamp_of(
                u.window_functions@[i],
                rows.window_functions@[i].name,
                rows.window_functions@[i].interface,
                rows.window_functions@[i].first_seen,
                release.version@,
            ),
{
    let src = source_model(release.version@, owners@, helpers_hash@);
    assert forall|i: int| #![trigger u.scalars@[i]] 0 <= i < u.scalars@.len() implies is_stamp_of(
        u.scalars@[i],
        rows.scalars@[i].name,
        rows.scalars@[i].interface,
        rows.scalars@[i].first_seen,
        release.version@,
    ) by {
        let row = rows.scalars@[i];
        lemma_is_stamp_of(
            u.scalars@[i],
            row.name,
            row.interface,
            row.first_seen,
            crate::hashes::document_hash_text(scalar_row_document(row)),
            src,
        );
    }
    assert forall|i: int| #![trigger u.aggregates@[i]]
        0 <= i < u.aggregates@.len() implies is_stamp_of(
        u.aggregates@[i],
        rows.aggregates@[i].name,
        rows.aggregates@[i].interface,
        rows.aggregates@[i].first_seen,
        release.version@,
    ) by {
        let row = rows.aggregates@[i];
        lemma_is_stamp_of(
            u.aggregates@[i],
            row.name,
            row.interface,
            row.first_seen,
            crate::hashes::document_hash_text(aggregate_row_document(row)),
            src,
        );
    }
    assert forall|i: int| #![trigger u.table_functions@[i]]
        0 <= i < u.table_functions@.len() implies is_stamp_of(
        u.table_functions@[i],
        rows.table_functions@[i].name,
        rows.table_functions@[i].interface,
        rows.table_functions@[i].first_seen,
        release.version@,
    ) by {
        let row = rows.table_functions@[i];
        lemma_is_stamp_of(
            u.table_functions@[i],
            row.name,
            row.interface,
            row.first_seen,
            crate::hashes::document_hash_text(
                simple_row_document(simple_tag(SimpleTable::TableFunctions), row),
            ),
            src,
        );
    }
    assert forall|i: int| #![trigger u.window_functions@[i]]
        0 <= i < u.window_functions@.len() implies is_stamp_of(
        u.window_functions@[i],
        rows.window_functions@[i].name,
        rows.window_functions@[i].interface,
        rows.window_functions@[i].first_seen,
        release.version@,
    ) by {
        let row = rows.window_functions@[i];
        lemma_is_stamp_of(
            u.window_functions@[i],
            row.name,
            row.interface,
            row.first_seen,
            crate::hashes::document_hash_text(
                simple_row_document(simple_tag(SimpleTable::WindowFunctions), row),
            ),
            src,
        );
    }
}

/// The whole pass stamps each kind of function as stamping that kind alone does,
/// with the hashes of the owners' interfaces and of the helpers at hand.
pub proof fn the_pass_stamps_each_kind_alike(
    rows: &FunctionRows,
    owners: &Vec<InterfaceOwner>,
    helpers_hash: &[u8; 32],
    release: &Release<'_>,
    walked: Option<&Vec<WalkedFn>>,
    u: SourceUpdates,
    hashes: &Vec<InterfaceHash>,
    src: &StampSource<'_>,
    unowned: String,
    scalars: Vec<Stamp>,
    aggregates: Vec<Stamp>,
    tables: Vec<Stamp>,
    windows: Vec<Stamp>,
)
    requires
        call_ensures(extract_source_metadata, (rows, owners, helpers_hash, release, walked), u),
        call_ensures(interface_hashes, (owners, helpers_hash), *hashes),
        call_ensures(implementation_hash, (None::<&[u8]>, helpers_hash), unowned),
        src.upstream_version@ == release.version@,
        src.hashes == hashes,
        src.helpers_only@ == unowned@,
        call_ensures(stamp_scalar_rows, (&rows.scalars, src), scalars),
        call_ensures(stamp_aggregate_rows, (&rows.aggregates, src), aggregates),
        call_ensures(
            stamp_simple_fn_rows,
            (SimpleTable::TableFunctions, &rows.table_functions, src),
            tables,
        ),
        call_ensures(
            stamp_simple_fn_rows,
            (SimpleTable::WindowFunctions, &rows.window_functions, src),
            windows,
        ),
    ensures
        stamp_models(u.scalars@) == stamp_models(scalars@),
        stamp_models(u.aggregates@) == stamp_models(aggregates@),
        stamp_models(u.table_functions@) == stamp_models(tables@),
        stamp_models(u.window_functions@) == stamp_models(windows@),
{
    assert(src@ == source_model(release.version@, owners@, helpers_hash@));
    assert(stamp_models(u.scalars@) =~= stamp_models(scalars@));
    assert(stamp_models(u.aggregates@) =~= stamp_models(aggregates@));
    assert(stamp_models(u.table_functions@) =~= stamp_models(tables@));
    assert(stamp_models(u.window_functions@) =~= stamp_models(windows@));
}

/// The implementation of a row is hashed with the file of its interface's owner:
/// of several entries for the interface the last counts, and where none is listed
/// the helpers alone are hashed.
pub proof fn rows_follow_the_last_owner(
    rows: &Vec<ScalarRow>,
    src: &StampSource<'_>,
    r: Vec<Stamp>,
    i: int,
    at: int,
)
    requires
        call_ensures(stamp_scalar_rows, (rows, src), r),
        0 <= i < rows@.len(),
    ensures
        rows@[i].interface is None ==> r@[i].implementation_hash@ == src.helpers_only@,
        rows@[i].interface is Some && (forall|k: int|
            0 <= k < src.hashes@.len() ==> (#[trigger] src.hashes@[k]).interface@
                != rows@[i].interface->0@) ==> r@[i].implementation_hash@ == src.helpers_only@,
        rows@[i].interface is Some && 0 <= at < src.hashes@.len() && src.hashes@[at].interface@
            == rows@[i].interface->0@ && (forall|k: int|
            at < k < src.hashes@.len() ==> (#[trigger] src.hashes@[k]).interface@
                != rows@[i].interface->0@) ==> r@[i].implementation_hash@ == src.hashes@[at].hash@,
{
    let row = rows@[i];
    let all = hash_texts(src.hashes@);
    lemma_is_stamp_of(
        r@[i],
        row.name,
        row.interface,
        row.first_seen,
        crate::hashes::document_hash_text(scalar_row_document(row)),
        src@,
    );
    assert forall|k: int| 0 <= k < all.len() implies #[trigger] all[k] == (
        src.hashes@[k].interface@,
        src.hashes@[k].hash@,
    ) by {}
    if row.interface is Some {
        let name = row.interface->0@;
        if forall|k: int|
            0 <= k < src.hashes@.len() ==> (#[trigger] src.hashes@[k]).interface@ != name {
            assert forall|k: int| 0 <= k < all.len() implies (#[trigger] all[k]).0 != name by {
                assert(src.hashes@[k].interface@ != name);
            }
            lemma_not_listed(all, name);
        }
        if 0 <= at < src.hashes@.len() && src.hashes@[at].interface@ == name && (forall|k: int|
            at < k < src.hashes@.len() ==> (#[trigger] src.hashes@[k]).interface@ != name) {
            assert forall|k: int| at < k < all.len() implies (#[trigger] all[k]).0 != all[at].0 by {
                assert(src.hashes@[k].interface@ != name);
            }
            lemma_last_listed(all, at);
        }
    }
}

/// Rows of every kind resolve their implementation alike: rows with the same
/// interface carry the same hash, whether they are scalars, aggregates, table or
/// window functions.
pub proof fn kinds_resolve_alike(
    scalars: &Vec<ScalarRow>,
    aggregates: &Vec<AggregateRow>,
    table: SimpleTable,
    simple: &Vec<SimpleFnRow>,
    src: &StampSource<'_>,
    a: Vec<Stamp>,
    b: Vec<Stamp>,
    c: Vec<Stamp>,
    i: int,
    j: int,
    k: int,
)
    requires
        call_ensures(stamp_scalar_rows, (scalars, src), a),
        call_ensures(stamp_aggregate_rows, (aggregates, src), b),
        call_ensures(stamp_simple_fn_rows, (table, simple, src), c),
        0 <= i < scalars@.len(),
        0 <= j < aggregates@.len(),
        0 <= k < simple@.len(),
    ensures
        crate::text::text_option(scalars@[i].interface) == crate::text::text_option(
            aggregates@[j].interface,
        ) ==> a@[i].implementation_hash@ == b@[j].implementation_hash@,
        crate::text::text_option(scalars@[i].interface) == crate::text::text_option(
            simple@[k].interface,
        ) ==> a@[i].implementation_hash@ == c@[k].implementation_hash@,
{
    let x = scalars@[i];
    let y = aggregates@[j];
    let z = simple@[k];
    lemma_is_stamp_of(
        a@[i],
        x.name,
        x.interface,
        x.first_seen,
        crate::hashes::document_hash_text(scalar_row_document(x)),
        src@,
    );
    lemma_is_stamp_of(
        b@[j],
        y.name,
        y.interface,
        y.first_seen,
        crate::hashes::document_hash_text(aggregate_row_document(y)),
        src@,
    );
    lemma_is_stamp_of(
        c@[k],
        z.name,
        z.interface,
        z.first_seen,
        crate::hashes::document_hash_text(simple_row_document(simple_tag(table), z)),
        src@,
    );
}

/// Every interface is listed with the hash of its own owner file, in order.
pub proof fn interfaces_are_hashed_one_by_one(
    owners: &Vec<InterfaceOwner>,
    helpers_hash: &[u8; 32],
    r: Vec<InterfaceHash>,
    i: int,
    file: &[u8],
    hash: String,
)
    requires
        call_ensures(interface_hashes, (owners, helpers_hash), r),
        0 <= i < owners@.len(),
        owners@[i].owner is Some ==> file@ == owners@[i].owner->0@ && call_ensures(
            implementation_hash,
            (Some(file), helpers_hash),
            hash,
        ),
        owners@[i].owner is None ==> call_ensures(
            implementation_hash,
            (None::<&[u8]>, helpers_hash),
            hash,
        ),
    ensures
        r@.len() == owners@.len(),
        r@[i].interface@ == owners@[i].interface@,
        r@[i].hash@ == hash@,
{
    let shown = hash_texts(r@);
    assert(shown.len() == r@.len());
    assert(shown[i] == (r@[i].interface@, r@[i].hash@));
}

/// The row of a release says what the release says, and counts the stored
/// functions of each kind.
pub proof fn releases_are_recorded(release: &Release<'_>, rows: &FunctionRows, r: UpstreamRow)
    requires
        call_ensures(upstream_row, (release, rows), r),
    ensures
        r.extension@ == release.extension@,
        r.version@ == release.version@,
        release.released_at is Some <==> r.released_at is Some,
        release.released_at is Some ==> r.released_at->0@ == release.released_at->0@,
        release.commit is Some <==> r.ingested_from_commit is Some,
        release.commit is Some ==> r.ingested_from_commit->0@ == release.commit->0@,
        r.scalar_count == rows.scalars@.len(),
        r.aggregate_count == rows.aggregates@.len(),
        r.table_function_count == rows.table_functions@.len(),
        r.window_function_count == rows.window_functions@.len(),
        r.notes is None,
{
}

/// The pass records its release, knows the names of the stored functions, and
/// adds the edges that the calls of these functions make, or none if the sources
/// were not walked.
pub proof fn the_pass_adds_edges_and_release(
    rows: &FunctionRows,
    owners: &Vec<InterfaceOwner>,
    helpers_hash: &[u8; 32],
    release: &Release<'_>,
    walked: Option<&Vec<WalkedFn>>,
    u: SourceUpdates,
    known: &KnownFunctions,
    edges: Vec<EdgeRow>,
    record: UpstreamRow,
)
    requires
        call_ensures(extract_source_metadata, (rows, owners, helpers_hash, release, walked), u),
        call_ensures(known_functions, (rows,), *known),
        walked is Some ==> call_ensures(call_edges, (known, walked->0), edges),
        walked is None ==> edges@.len() == 0,
        call_ensures(upstream_row, (release, rows), record),
    ensures
        crate::edges::row_models(u.edges@) == crate::edges::row_models(edges@),
        same_upstream_row(u.upstream, record),
{
    assert forall|kind: FunctionKind| #[trigger] u.known.names(kind) == known.names(kind) by {}
    if walked is Some {
        crate::edges::lemma_same_names(
            u.known,
            *known,
            crate::walker::walked_models(walked->0@),
        );
    } else {
        assert(crate::edges::row_models(u.edges@) =~= crate::edges::row_models(edges@));
    }
}

/// The known functions of each kind are those that are stored as that kind, in
/// order.
pub proof fn stored_functions_are_known(rows: &FunctionRows, known: KnownFunctions)
    requires
        call_ensures(known_functions, (rows,), known),
    ensures
        known.scalars@.len() == rows.scalars@.len(),
        known.aggregates@.len() == rows.aggregates@.len(),
        known.table_functions@.len() == rows.table_functions@.len(),
        known.window_functions@.len() == rows.window_functions@.len(),
        forall|i: int| #![trigger known.scalars@[i]]
            0 <= i < known.scalars@.len() ==> known.scalars@[i]@ == rows.scalars@[i].name@,
        forall|i: int| #![trigger known.aggregates@[i]]
            0 <= i < known.aggregates@.len() ==> known.aggregates@[i]@ == rows.aggregates@[i].name@,
        forall|i: int| #![trigger known.table_functions@[i]]
            0 <= i < known.table_functions@.len() ==> known.table_functions@[i]@
                == rows.table_functions@[i].name@,
        forall|i: int| #![trigger known.window_functions@[i]]
            0 <= i < known.window_functions@.len() ==> known.window_functions@[i]@
                == rows.window_functions@[i].name@,
{
    let a = known.names(FunctionKind::Scalar);
    let b = known.names(FunctionKind::Aggregate);
    let c = known.names(FunctionKind::Table);
    let d = known.names(FunctionKind::Window);
    assert(a.len() == rows.scalars@.len() && b.len() == rows.aggregates@.len());
    assert(c.len() == rows.table_functions@.len() && d.len() == rows.window_functions@.len());
    assert forall|i: int| #![trigger known.scalars@[i]] 0 <= i < known.scalars@.len() implies known.scalars@[i]@
        == rows.scalars@[i].name@ by {
        assert(a[i] == known.scalars@[i]@);
    }
    assert forall|i: int| #![trigger known.aggregates@[i]]
        0 <= i < known.aggregates@.len() implies known.aggregates@[i]@
        == rows.aggregates@[i].name@ by {
        assert(b[i] == known.aggregates@[i]@);
    }
    assert forall|i: int| #![trigger known.table_functions@[i]]
        0 <= i < known.table_functions@.len() implies known.table_functions@[i]@
        == rows.table_functions@[i].name@ by {
        assert(c[i] == known.table_functions@[i]@);
    }
    assert forall|i: int| #![trigger known.window_functions@[i]]
        0 <= i < known.window_functions@.len() implies known.window_functions@[i]@
        == rows.window_functions@[i].name@ by {
        assert(d[i] == known.window_functions@[i]@);
    }
}

/// Stamps of all kinds of functions are written alike, each into the table of its
/// kind.
pub proof fn stamps_are_written_alike(
    a: FunctionKind,
    b: FunctionKind,
    of_a: String,
    of_b: String,
    start: Seq<char>,
    end: Seq<char>,
)
    requires
        call_ensures(stamp_sql, (a,), of_a),
        call_ensures(stamp_sql, (b,), of_b),
        start.len() == "UPDATE "@.len(),
        of_a@ == start + a.table_text() + end,
    ensures
        of_b@ == start + b.table_text() + end,
{
    let set =
        " SET interface = ?3, first_seen_upstream_version = ?4, last_seen_upstream_version = ?5, signature_hash = ?6, implementation_hash = ?7 WHERE extension = ?1 AND name = ?2"@;
    let n = start.len() as int;
    let m = n + a.table_text().len();
    assert(of_a@ == "UPDATE "@ + a.table_text() + set);
    assert(start =~= of_a@.take(n));
    assert("UPDATE "@ =~= of_a@.take(n));
    assert(end =~= of_a@.skip(m));
    assert(set =~= of_a@.skip(m));
}

/// A row's own interface counts before one that is guessed, which counts where
/// the row has none.
pub proof fn own_interfaces_count_first(
    own: Option<&str>,
    guessed: Option<&str>,
    hashes: &Vec<InterfaceHash>,
    helpers_only: &str,
    r: (Option<String>, String),
)
    requires
        call_ensures(resolve_iface_and_impl, (own, guessed, hashes, helpers_only), r),
    ensures
        own is Some ==> r.0 is Some && r.0->0@ == own->0@,
        own is None && guessed is Some ==> r.0 is Some && r.0->0@ == guessed->0@,
        own is None && guessed is None ==> r.0 is None && r.1@ == helpers_only@,
        r.0 is Some && (forall|k: int|
            0 <= k < hashes@.len() ==> (#[trigger] hashes@[k]).interface@ != r.0->0@) ==> r.1@
            == helpers_only@,
{
    if r.0 is Some && (forall|k: int|
        0 <= k < hashes@.len() ==> (#[trigger] hashes@[k]).interface@ != r.0->0@) {
        let all = hash_texts(hashes@);
        assert forall|k: int| 0 <= k < all.len() implies (#[trigger] all[k]).0 != r.0->0@ by {
            assert(all[k].0 == hashes@[k].interface@);
        }
        lemma_no_hash(all, r.0->0@);
    }
}

proof fn lemma_no_hash(hashes: Seq<(Seq<char>, Seq<char>)>, interface: Seq<char>)
    requires
        forall|k: int| 0 <= k < hashes.len() ==> (#[trigger] hashes[k]).0 != interface,
    ensures
        hash_for(hashes, interface) is None,
    decreases hashes.len(),
{
    if hashes.len() > 0 {
        let front = hashes.drop_last();
        assert forall|k: int| 0 <= k < front.len() implies (#[trigger] front[k]).0
            != interface by {
            assert(front[k] == hashes[k]);
        }
        lemma_no_hash(front, interface);
    }
}

} // verus!
