//! A loaded catalog: the nine entity families, their rows, and how the rows of
//! each family become entities that can be compared.
use vstd::prelude::*;

use crate::order::Ranked;
use crate::text::{normalized, str_eq};

verus! {

// ---------------------------------------------------------------------------
// Family taxonomy
// ---------------------------------------------------------------------------

/// The nine entity families of a catalog.
#[derive(Clone, Copy, Debug, PartialEq, Eq, Hash, PartialOrd, Ord, Structural)]
pub enum Family {
    Scalars,
    Aggregates,
    TableFunctions,
    WindowFunctions,
    ColumnTypes,
    Operators,
    CastRewrites,
    SpatialIndexes,
    PreprocessorPatterns,
}

/// Every family, in the order in which a report prints them.
pub open spec fn all_families() -> Seq<Family> {
    seq![
        Family::Scalars,
        Family::Aggregates,
        Family::TableFunctions,
        Family::WindowFunctions,
        Family::ColumnTypes,
        Family::Operators,
        Family::CastRewrites,
        Family::SpatialIndexes,
        Family::PreprocessorPatterns,
    ]
}

/// The family that a normalized name stands for.
pub open spec fn family_named(norm: Seq<char>) -> Option<Family> {
    if norm == "scalars"@ || norm == "scalar"@ {
        Some(Family::Scalars)
    } else if norm == "aggregates"@ || norm == "aggregate"@ || norm == "agg"@ {
        Some(Family::Aggregates)
    } else if norm == "table_functions"@ || norm == "tables"@ || norm == "table"@ || norm
        == "udtf"@ {
        Some(Family::TableFunctions)
    } else if norm == "window_functions"@ || norm == "windows"@ || norm == "window"@ {
        Some(Family::WindowFunctions)
    } else if norm == "types"@ || norm == "column_types"@ || norm == "column-types"@ || norm
        == "column"@ {
        Some(Family::ColumnTypes)
    } else if norm == "operators"@ || norm == "operator"@ || norm == "ops"@ || norm == "op"@ {
        Some(Family::Operators)
    } else if norm == "casts"@ || norm == "cast_rewrites"@ || norm == "cast"@ || norm
        == "cast-rewrites"@ {
        Some(Family::CastRewrites)
    } else if norm == "indexes"@ || norm == "spatial_indexes"@ || norm == "index"@ || norm
        == "spatial-indexes"@ || norm == "idx"@ {
        Some(Family::SpatialIndexes)
    } else if norm == "preprocessors"@ || norm == "preprocessor_patterns"@ || norm == "prep"@
        || norm == "preprocessor-patterns"@ {
        Some(Family::PreprocessorPatterns)
    } else {
        None
    }
}

impl Family {
    /// The canonical name of the family.
    pub open spec fn slug_text(self) -> Seq<char> {
        match self {
            Family::Scalars => "scalars"@,
            Family::Aggregates => "aggregates"@,
            Family::TableFunctions => "table_functions"@,
            Family::WindowFunctions => "window_functions"@,
            Family::ColumnTypes => "column_types"@,
            Family::Operators => "operators"@,
            Family::CastRewrites => "cast_rewrites"@,
            Family::SpatialIndexes => "spatial_indexes"@,
            Family::PreprocessorPatterns => "preprocessor_patterns"@,
        }
    }

    /// The heading of the family in a text report.
    pub open spec fn label_text(self) -> Seq<char> {
        match self {
            Family::Scalars => "Scalars"@,
            Family::Aggregates => "Aggregates"@,
            Family::TableFunctions => "Table functions"@,
            Family::WindowFunctions => "Window functions"@,
            Family::ColumnTypes => "Types"@,
            Family::Operators => "Operators"@,
            Family::CastRewrites => "Casts"@,
            Family::SpatialIndexes => "Indexes"@,
            Family::PreprocessorPatterns => "Preprocessors"@,
        }
    }

    /// Every family, in the order in which a report prints them.
    pub fn all() -> (r: Vec<Family>)
        ensures
            r@ == all_families(),
    {
        let r: Vec<Family> = vec![
            Family::Scalars,
            Family::Aggregates,
            Family::TableFunctions,
            Family::WindowFunctions,
            Family::ColumnTypes,
            Family::Operators,
            Family::CastRewrites,
            Family::SpatialIndexes,
            Family::PreprocessorPatterns,
        ];
        assert(r@ =~= all_families());
        r
    }

    /// The canonical name of the family, as used in structured output.
    pub fn slug(self) -> (r: &'static str)
        ensures
            r@ == self.slug_text(),
    {
        match self {
            Family::Scalars => "scalars",
            Family::Aggregates => "aggregates",
            Family::TableFunctions => "table_functions",
            Family::WindowFunctions => "window_functions",
            Family::ColumnTypes => "column_types",
            Family::Operators => "operators",
            Family::CastRewrites => "cast_rewrites",
            Family::SpatialIndexes => "spatial_indexes",
            Family::PreprocessorPatterns => "preprocessor_patterns",
        }
    }

    /// The heading of the family in a text report.
    pub fn label(self) -> (r: &'static str)
        ensures
            r@ == self.label_text(),
    {
        match self {
            Family::Scalars => "Scalars",
            Family::Aggregates => "Aggregates",
            Family::TableFunctions => "Table functions",
            Family::WindowFunctions => "Window functions",
            Family::ColumnTypes => "Types",
            Family::Operators => "Operators",
            Family::CastRewrites => "Casts",
            Family::SpatialIndexes => "Indexes",
            Family::PreprocessorPatterns => "Preprocessors",
        }
    }

    /// Whether a database at schema version 3 carries signature hashes for
    /// this family: the four families of functions do, the other five pick
    /// them up at version 4.
    pub fn has_hash_at_v3(self) -> (r: bool)
        ensures
            r == (self is Scalars || self is Aggregates || self is TableFunctions
                || self is WindowFunctions),
    {
        match self {
            Family::Scalars => true,
            Family::Aggregates => true,
            Family::TableFunctions => true,
            Family::WindowFunctions => true,
            _ => false,
        }
    }

    /// The family that `s` names: its canonical name or an alias, in any ASCII
    /// case, with white space around it.
    pub fn parse_slug(s: &str) -> (r: Option<Family>)
        ensures
            r == family_named(crate::text::ascii_lowered(crate::text::trimmed(s@))),
    {
        let owned = normalized(s);
        let norm = owned.as_str();
        if str_eq(norm, "scalars") || str_eq(norm, "scalar") {
            Some(Family::Scalars)
        } else if str_eq(norm, "aggregates") || str_eq(norm, "aggregate") || str_eq(norm, "agg") {
            Some(Family::Aggregates)
        } else if str_eq(norm, "table_functions") || str_eq(norm, "tables") || str_eq(norm, "table")
            || str_eq(norm, "udtf") {
            Some(Family::TableFunctions)
        } else if str_eq(norm, "window_functions") || str_eq(norm, "windows") || str_eq(
            norm,
            "window",
        ) {
            Some(Family::WindowFunctions)
        } else if str_eq(norm, "types") || str_eq(norm, "column_types") || str_eq(
            norm,
            "column-types",
        ) || str_eq(norm, "column") {
            Some(Family::ColumnTypes)
        } else if str_eq(norm, "operators") || str_eq(norm, "operator") || str_eq(norm, "ops")
            || str_eq(norm, "op") {
            Some(Family::Operators)
        } else if str_eq(norm, "casts") || str_eq(norm, "cast_rewrites") || str_eq(norm, "cast")
            || str_eq(norm, "cast-rewrites") {
            Some(Family::CastRewrites)
        } else if str_eq(norm, "indexes") || str_eq(norm, "spatial_indexes") || str_eq(
            norm,
            "index",
        ) || str_eq(norm, "spatial-indexes") || str_eq(norm, "idx") {
            Some(Family::SpatialIndexes)
        } else if str_eq(norm, "preprocessors") || str_eq(norm, "preprocessor_patterns") || str_eq(
            norm,
            "prep",
        ) || str_eq(norm, "preprocessor-patterns") {
            Some(Family::PreprocessorPatterns)
        } else {
            None
        }
    }
}

// ---------------------------------------------------------------------------
// Loaded catalog shape
// ---------------------------------------------------------------------------

/// One row's identity, what a report prints for it, and its signature hash if
/// the source carries one.
#[derive(Clone, Debug)]
pub struct Entity {
    pub pk: String,
    pub signature_hash: Option<String>,
    pub display: String,
}

/// What an [`Entity`] says.
#[verifier::ext_equal]
pub struct EntityModel {
    pub pk: Seq<char>,
    pub signature_hash: Option<Seq<char>>,
    pub display: Seq<char>,
}

impl View for Entity {
    type V = EntityModel;

    open spec fn view(&self) -> EntityModel {
        EntityModel {
            pk: self.pk@,
            signature_hash: crate::text::text_option(self.signature_hash),
            display: self.display@,
        }
    }
}

/// What a list of entities says.
pub open spec fn entity_models(rows: Seq<Entity>) -> Seq<EntityModel> {
    rows.map_values(|e: Entity| e@)
}

/// The order of entities: by key.
pub open spec fn pk_order() -> spec_fn(EntityModel, EntityModel) -> bool {
    |a: EntityModel, b: EntityModel| crate::order::text_le(a.pk, b.pk)
}

impl Ranked for Entity {
    /// Entities rank by key.
    open spec fn rank_le(&self, other: &Self) -> bool {
        crate::order::text_le(self.pk@, other.pk@)
    }

    proof fn ranking_is_total(a: Self, b: Self, c: Self) {
        crate::order::text_order_is_total();
    }

    fn ranks_le(&self, other: &Self) -> (r: bool) {
        crate::order::str_le(self.pk.as_str(), other.pk.as_str())
    }
}

/// The rows of one family.
#[derive(Clone, Debug)]
pub struct FamilyRows {
    /// The rows; the loaders leave them sorted by key.
    pub rows: Vec<Entity>,
    /// True when the source carries no signature hash for this family.
    pub signatures_unavailable: bool,
}

impl FamilyRows {
    /// What the rows say.
    pub open spec fn models(self) -> Seq<EntityModel> {
        entity_models(self.rows@)
    }
}

impl Default for FamilyRows {
    /// No rows.
    fn default() -> (r: FamilyRows)
        ensures
            r.rows@.len() == 0,
            !r.signatures_unavailable,
    {
        FamilyRows { rows: Vec::new(), signatures_unavailable: false }
    }
}

/// The rows of every family.
#[derive(Clone, Debug)]
pub struct FamilyTable {
    pub scalars: FamilyRows,
    pub aggregates: FamilyRows,
    pub table_functions: FamilyRows,
    pub window_functions: FamilyRows,
    pub column_types: FamilyRows,
    pub operators: FamilyRows,
    pub cast_rewrites: FamilyRows,
    pub spatial_indexes: FamilyRows,
    pub preprocessor_patterns: FamilyRows,
}

impl FamilyTable {
    /// The rows of one family.
    pub open spec fn of(self, fam: Family) -> FamilyRows {
        match fam {
            Family::Scalars => self.scalars,
            Family::Aggregates => self.aggregates,
            Family::TableFunctions => self.table_functions,
            Family::WindowFunctions => self.window_functions,
            Family::ColumnTypes => self.column_types,
            Family::Operators => self.operators,
            Family::CastRewrites => self.cast_rewrites,
            Family::SpatialIndexes => self.spatial_indexes,
            Family::PreprocessorPatterns => self.preprocessor_patterns,
        }
    }

    /// The rows of one family.
    pub fn get(&self, fam: Family) -> (r: &FamilyRows)
        ensures
            *r == self.of(fam),
    {
        match fam {
            Family::Scalars => &self.scalars,
            Family::Aggregates => &self.aggregates,
            Family::TableFunctions => &self.table_functions,
            Family::WindowFunctions => &self.window_functions,
            Family::ColumnTypes => &self.column_types,
            Family::Operators => &self.operators,
            Family::CastRewrites => &self.cast_rewrites,
            Family::SpatialIndexes => &self.spatial_indexes,
            Family::PreprocessorPatterns => &self.preprocessor_patterns,
        }
    }
}

/// The kind of source a catalog was loaded from.
#[derive(Clone, Copy, Debug, PartialEq, Eq, Structural)]
pub enum SourceKind {
    Sqlite,
    Toml,
}

impl SourceKind {
    /// The name of the kind.
    pub open spec fn label_text(self) -> Seq<char> {
        match self {
            SourceKind::Sqlite => "sqlite"@,
            SourceKind::Toml => "toml"@,
        }
    }

    /// The name of the kind, as warnings print it.
    pub fn label(self) -> (r: &'static str)
        ensures
            r@ == self.label_text(),
    {
        match self {
            SourceKind::Sqlite => "sqlite",
            SourceKind::Toml => "toml",
        }
    }
}

/// A catalog, normalized to entity lists.
#[derive(Clone, Debug)]
pub struct Catalog {
    /// Extension name, `@`, version.
    pub display_label: String,
    pub extension: String,
    pub version: String,
    /// The `user_version` of a database; `None` for a TOML catalog.
    pub schema_version: Option<u32>,
    /// The path the catalog was loaded from.
    pub source_path: String,
    /// The loader that produced the catalog.
    pub source_kind: SourceKind,
    pub families: FamilyTable,
}

impl Catalog {
    /// The label that heads a report.
    pub fn label(&self) -> (r: &str)
        ensures
            r@ == self.display_label@,
    {
        self.display_label.as_str()
    }
}

// ---------------------------------------------------------------------------
// Laws
// ---------------------------------------------------------------------------

/// A text of small letters and underscores is its own normal form.
proof fn lemma_normal(s: Seq<char>)
    requires
        forall|i: int|
            0 <= i < s.len() ==> 'a' <= #[trigger] s[i] <= 'z' || s[i] == '_',
    ensures
        crate::text::ascii_lowered(crate::text::trimmed(s)) == s,
{
    assert(crate::text::ascii_lowered(s) =~= s);
}

/// The family that a canonical name stands for.
proof fn lemma_slugs(fam: Family)
    ensures
        family_named(fam.slug_text()) == Some(fam),
{
    reveal_strlit("scalars");
    reveal_strlit("scalar");
    reveal_strlit("aggregates");
    reveal_strlit("aggregate");
    reveal_strlit("agg");
    reveal_strlit("table_functions");
    reveal_strlit("tables");
    reveal_strlit("table");
    reveal_strlit("udtf");
    reveal_strlit("window_functions");
    reveal_strlit("windows");
    reveal_strlit("window");
    reveal_strlit("types");
    reveal_strlit("column_types");
    reveal_strlit("column-types");
    reveal_strlit("column");
    reveal_strlit("operators");
    reveal_strlit("operator");
    reveal_strlit("ops");
    reveal_strlit("op");
    reveal_strlit("casts");
    reveal_strlit("cast_rewrites");
    reveal_strlit("cast");
    reveal_strlit("cast-rewrites");
    reveal_strlit("indexes");
    reveal_strlit("spatial_indexes");
    reveal_strlit("preprocessor_patterns");
    reveal_strlit("preprocessors");
    reveal_strlit("index");
    reveal_strlit("spatial-indexes");
    reveal_strlit("idx");
    assert("scalars"@.len() == 7);
    assert("scalar"@.len() == 6);
    assert("aggregates"@.len() == 10);
    assert("aggregate"@.len() == 9);
    assert("agg"@.len() == 3);
    assert("table_functions"@.len() == 15);
    assert("tables"@.len() == 6);
    assert("table"@.len() == 5);
    assert("udtf"@.len() == 4);
    assert("window_functions"@.len() == 16);
    assert("windows"@.len() == 7);
    assert("window"@.len() == 6);
    assert("types"@.len() == 5);
    assert("column_types"@.len() == 12);
    assert("column-types"@.len() == 12);
    assert("column"@.len() == 6);
    assert("operators"@.len() == 9);
    assert("operator"@.len() == 8);
    assert("ops"@.len() == 3);
    assert("op"@.len() == 2);
    assert("casts"@.len() == 5);
    assert("cast_rewrites"@.len() == 13);
    assert("cast"@.len() == 4);
    assert("cast-rewrites"@.len() == 13);
    assert("indexes"@.len() == 7);
    assert("spatial_indexes"@.len() == 15);
    assert("preprocessor_patterns"@.len() == 21);
    assert("preprocessors"@.len() == 13);
    assert("index"@.len() == 5);
    assert("spatial-indexes"@.len() == 15);
    assert("idx"@.len() == 3);
    assert("operators"@[0] == 'o' && "aggregate"@[0] == 'a');
    assert("spatial_indexes"@[0] == 's' && "table_functions"@[0] == 't');
}

/// The canonical name of a family is understood as that family, so that names
/// from structured output can be handed back in.
pub proof fn canonical_names_are_understood(fam: Family)
    ensures
        family_named(crate::text::ascii_lowered(crate::text::trimmed(fam.slug_text()))) == Some(
            fam,
        ),
{
    reveal_strlit("scalars");
    reveal_strlit("aggregates");
    reveal_strlit("table_functions");
    reveal_strlit("window_functions");
    reveal_strlit("column_types");
    reveal_strlit("operators");
    reveal_strlit("cast_rewrites");
    reveal_strlit("spatial_indexes");
    reveal_strlit("preprocessor_patterns");
    lemma_normal(fam.slug_text());
    lemma_slugs(fam);
}

/// Families have different names.
pub proof fn family_names_differ(a: Family, b: Family)
    ensures
        a.slug_text() == b.slug_text() ==> a == b,
{
    lemma_slugs(a);
    lemma_slugs(b);
}

/// The rows of a family are those of the field that is named after it.
pub proof fn each_family_has_its_rows(table: &FamilyTable, fam: Family, r: &FamilyRows)
    requires
        call_ensures(FamilyTable::get, (table, fam), r),
    ensures
        fam == Family::Scalars ==> r == table.scalars,
        fam == Family::Aggregates ==> r == table.aggregates,
        fam == Family::TableFunctions ==> r == table.table_functions,
        fam == Family::WindowFunctions ==> r == table.window_functions,
        fam == Family::ColumnTypes ==> r == table.column_types,
        fam == Family::Operators ==> r == table.operators,
        fam == Family::CastRewrites ==> r == table.cast_rewrites,
        fam == Family::SpatialIndexes ==> r == table.spatial_indexes,
        fam == Family::PreprocessorPatterns ==> r == table.preprocessor_patterns,
        *r == table.of(fam),
{
}

/// A family goes by the name of its table: read back, the name stands for the
/// family, and no other family goes by it.
pub proof fn names_stand_for_their_families(
    fam: Family,
    name: &'static str,
    read: Option<Family>,
    other: Family,
    other_name: &'static str,
)
    requires
        call_ensures(Family::slug, (fam,), name),
        call_ensures(Family::parse_slug, (name,), read),
        call_ensures(Family::slug, (other,), other_name),
    ensures
        read == Some(fam),
        name@ == other_name@ ==> fam == other,
{
    canonical_names_are_understood(fam);
    family_names_differ(fam, other);
}

/// The names that a family goes by: its table and the heading of a report, in the
/// singular and in short, with underscores or hyphens.
pub open spec fn aliases(fam: Family) -> Seq<Seq<char>> {
    match fam {
        Family::Scalars => seq!["scalars"@, "scalar"@],
        Family::Aggregates => seq!["aggregates"@, "aggregate"@, "agg"@],
        Family::TableFunctions => seq!["table_functions"@, "tables"@, "table"@, "udtf"@],
        Family::WindowFunctions => seq!["window_functions"@, "windows"@, "window"@],
        Family::ColumnTypes => seq!["types"@, "column_types"@, "column-types"@, "column"@],
        Family::Operators => seq!["operators"@, "operator"@, "ops"@, "op"@],
        Family::CastRewrites => seq!["casts"@, "cast_rewrites"@, "cast"@, "cast-rewrites"@],
        Family::SpatialIndexes => seq!["indexes"@, "spatial_indexes"@, "index"@, "spatial-indexes"@, "idx"@],
        Family::PreprocessorPatterns => seq!["preprocessors"@, "preprocessor_patterns"@, "prep"@, "preprocessor-patterns"@],
    }
}

/// A name goes by one family: it is understood as a family exactly if it is one of
/// the family's names, and no two families share a name.
pub proof fn each_alias_names_one_family(norm: Seq<char>, fam: Family, other: Family)
    ensures
        family_named(norm) == Some(fam) <==> aliases(fam).contains(norm),
        aliases(fam).contains(norm) && aliases(other).contains(norm) ==> fam == other,
{
    lemma_alias_texts();
    lemma_alias_listed(norm, fam);
    lemma_alias_listed(norm, other);
}

proof fn lemma_alias_listed(norm: Seq<char>, fam: Family)
    ensures
        family_named(norm) == Some(fam) <==> aliases(fam).contains(norm),
{
    lemma_alias_texts();
    let names = aliases(fam);
    if names.contains(norm) {
        let i = choose|i: int| 0 <= i < names.len() && names[i] == norm;
        assert(names[i] == norm);
    }
    if family_named(norm) == Some(fam) {
        assert(names.len() >= 2);
        assert(names[0] == norm || names[1] == norm || (names.len() > 2 && names[2] == norm) || (
        names.len() > 3 && names[3] == norm) || (names.len() > 4 && names[4] == norm));
    }
}

/// The names differ in length, or else in their first two characters.
proof fn lemma_alias_texts()
    ensures
        "scalars"@.len() == 7 && "scalars"@[0] == 's' && "scalars"@[1] == 'c',
        "scalar"@.len() == 6 && "scalar"@[0] == 's' && "scalar"@[1] == 'c',
        "aggregates"@.len() == 10 && "aggregates"@[0] == 'a' && "aggregates"@[1] == 'g',
        "aggregate"@.len() == 9 && "aggregate"@[0] == 'a' && "aggregate"@[1] == 'g',
        "agg"@.len() == 3 && "agg"@[0] == 'a' && "agg"@[1] == 'g',
        "table_functions"@.len() == 15 && "table_functions"@[0] == 't' && "table_functions"@[1] == 'a',
        "tables"@.len() == 6 && "tables"@[0] == 't' && "tables"@[1] == 'a',
        "table"@.len() == 5 && "table"@[0] == 't' && "table"@[1] == 'a',
        "udtf"@.len() == 4 && "udtf"@[0] == 'u' && "udtf"@[1] == 'd',
        "window_functions"@.len() == 16 && "window_functions"@[0] == 'w' && "window_functions"@[1] == 'i',
        "windows"@.len() == 7 && "windows"@[0] == 'w' && "windows"@[1] == 'i',
        "window"@.len() == 6 && "window"@[0] == 'w' && "window"@[1] == 'i',
        "types"@.len() == 5 && "types"@[0] == 't' && "types"@[1] == 'y',
        "column_types"@.len() == 12 && "column_types"@[0] == 'c' && "column_types"@[1] == 'o',
        "column-types"@.len() == 12 && "column-types"@[0] == 'c' && "column-types"@[1] == 'o',
        "column"@.len() == 6 && "column"@[0] == 'c' && "column"@[1] == 'o',
        "operators"@.len() == 9 && "operators"@[0] == 'o' && "operators"@[1] == 'p',
        "operator"@.len() == 8 && "operator"@[0] == 'o' && "operator"@[1] == 'p',
        "ops"@.len() == 3 && "ops"@[0] == 'o' && "ops"@[1] == 'p',
        "op"@.len() == 2 && "op"@[0] == 'o' && "op"@[1] == 'p',
        "casts"@.len() == 5 && "casts"@[0] == 'c' && "casts"@[1] == 'a',
        "cast_rewrites"@.len() == 13 && "cast_rewrites"@[0] == 'c' && "cast_rewrites"@[1] == 'a',
        "cast"@.len() == 4 && "cast"@[0] == 'c' && "cast"@[1] == 'a',
        "cast-rewrites"@.len() == 13 && "cast-rewrites"@[0] == 'c' && "cast-rewrites"@[1] == 'a',
        "indexes"@.len() == 7 && "indexes"@[0] == 'i' && "indexes"@[1] == 'n',
        "spatial_indexes"@.len() == 15 && "spatial_indexes"@[0] == 's' && "spatial_indexes"@[1] == 'p',
        "index"@.len() == 5 && "index"@[0] == 'i' && "index"@[1] == 'n',
        "spatial-indexes"@.len() == 15 && "spatial-indexes"@[0] == 's' && "spatial-indexes"@[1] == 'p',
        "idx"@.len() == 3 && "idx"@[0] == 'i' && "idx"@[1] == 'd',
        "preprocessors"@.len() == 13 && "preprocessors"@[0] == 'p' && "preprocessors"@[1] == 'r',
        "preprocessor_patterns"@.len() == 21 && "preprocessor_patterns"@[0] == 'p' && "preprocessor_patterns"@[1] == 'r',
        "prep"@.len() == 4 && "prep"@[0] == 'p' && "prep"@[1] == 'r',
        "preprocessor-patterns"@.len() == 21 && "preprocessor-patterns"@[0] == 'p' && "preprocessor-patterns"@[1] == 'r',
{
    reveal_strlit("scalars");
    reveal_strlit("scalar");
    reveal_strlit("aggregates");
    reveal_strlit("aggregate");
    reveal_strlit("agg");
    reveal_strlit("table_functions");
    reveal_strlit("tables");
    reveal_strlit("table");
    reveal_strlit("udtf");
    reveal_strlit("window_functions");
    reveal_strlit("windows");
    reveal_strlit("window");
    reveal_strlit("types");
    reveal_strlit("column_types");
    reveal_strlit("column-types");
    reveal_strlit("column");
    reveal_strlit("operators");
    reveal_strlit("operator");
    reveal_strlit("ops");
    reveal_strlit("op");
    reveal_strlit("casts");
    reveal_strlit("cast_rewrites");
    reveal_strlit("cast");
    reveal_strlit("cast-rewrites");
    reveal_strlit("indexes");
    reveal_strlit("spatial_indexes");
    reveal_strlit("index");
    reveal_strlit("spatial-indexes");
    reveal_strlit("idx");
    reveal_strlit("preprocessors");
    reveal_strlit("preprocessor_patterns");
    reveal_strlit("prep");
    reveal_strlit("preprocessor-patterns");
}

/// The case of ASCII letters and white space around a name do not matter.
pub proof fn case_and_space_do_not_matter(
    a: &str,
    b: &str,
    before: Seq<char>,
    core: Seq<char>,
    behind: Seq<char>,
    x: Option<Family>,
    y: Option<Family>,
)
    requires
        call_ensures(Family::parse_slug, (a,), x),
        call_ensures(Family::parse_slug, (b,), y),
        forall|i: int| 0 <= i < before.len() ==> crate::text::white_space(#[trigger] before[i]),
        forall|i: int| 0 <= i < behind.len() ==> crate::text::white_space(#[trigger] behind[i]),
        core.len() > 0,
        !crate::text::white_space(core[0]),
        !crate::text::white_space(core.last()),
        a@ == before + core + behind,
        b@ == crate::text::ascii_lowered(core),
    ensures
        x == y,
{
    let low = crate::text::ascii_lowered(core);
    let none = Seq::<char>::empty();
    crate::text::white_space_around_goes(before, core, behind);
    crate::text::capitals_become_small(core, 0);
    crate::text::capitals_become_small(core, core.len() - 1);
    assert(none + low + none =~= low);
    crate::text::white_space_around_goes(none, low, none);
}

/// A report goes through the families in one order, and each has its turn once.
pub proof fn every_family_has_its_turn(r: Vec<Family>, fam: Family)
    requires
        call_ensures(Family::all, (), r),
    ensures
        exists|i: int| 0 <= i < r@.len() && #[trigger] r@[i] == fam,
        forall|i: int, j: int| 0 <= i < j < r@.len() ==> #[trigger] r@[i] != #[trigger] r@[j],
        r@.len() == 9,
{
    let at: int = match fam {
        Family::Scalars => 0,
        Family::Aggregates => 1,
        Family::TableFunctions => 2,
        Family::WindowFunctions => 3,
        Family::ColumnTypes => 4,
        Family::Operators => 5,
        Family::CastRewrites => 6,
        Family::SpatialIndexes => 7,
        Family::PreprocessorPatterns => 8,
    };
    assert(r@[at] == fam);
}

/// Families have different headings.
pub proof fn family_headings_differ(a: Family, b: Family)
    ensures
        a.label_text() == b.label_text() ==> a == b,
{
    reveal_strlit("Scalars");
    reveal_strlit("Aggregates");
    reveal_strlit("Table functions");
    reveal_strlit("Window functions");
    reveal_strlit("Types");
    reveal_strlit("Operators");
    reveal_strlit("Casts");
    reveal_strlit("Indexes");
    reveal_strlit("Preprocessors");
    assert("Scalars"@.len() == 7 && "Scalars"@[0] == 'S');
    assert("Aggregates"@.len() == 10 && "Aggregates"@[0] == 'A');
    assert("Table functions"@.len() == 15 && "Table functions"@[0] == 'T');
    assert("Window functions"@.len() == 16 && "Window functions"@[0] == 'W');
    assert("Types"@.len() == 5 && "Types"@[0] == 'T');
    assert("Operators"@.len() == 9 && "Operators"@[0] == 'O');
    assert("Casts"@.len() == 5 && "Casts"@[0] == 'C');
    assert("Indexes"@.len() == 7 && "Indexes"@[0] == 'I');
    assert("Preprocessors"@.len() == 13 && "Preprocessors"@[0] == 'P');
}

/// Hashes of functions were there a version before those of the other families.
pub proof fn functions_were_hashed_first(fam: Family, r: bool)
    requires
        call_ensures(Family::has_hash_at_v3, (fam,), r),
    ensures
        r <==> exists|kind: crate::edges::FunctionKind| #[trigger] kind.table_text()
            == fam.slug_text(),
{
    family_names_differ(fam, Family::Scalars);
    family_names_differ(fam, Family::Aggregates);
    family_names_differ(fam, Family::TableFunctions);
    family_names_differ(fam, Family::WindowFunctions);
    assert(crate::edges::FunctionKind::Scalar.table_text() == Family::Scalars.slug_text());
    assert(crate::edges::FunctionKind::Aggregate.table_text() == Family::Aggregates.slug_text());
    assert(crate::edges::FunctionKind::Table.table_text() == Family::TableFunctions.slug_text());
    assert(crate::edges::FunctionKind::Window.table_text() == Family::WindowFunctions.slug_text());
}

/// The heading of a family is its first name with a capital, and with a space
/// where the name has an underscore.
pub proof fn headings_are_names_with_a_capital(fam: Family, heading: &'static str, i: int)
    requires
        call_ensures(Family::label, (fam,), heading),
        0 <= i < heading@.len(),
    ensures
        heading@.len() == aliases(fam)[0].len(),
        i == 0 ==> crate::text::ascii_lowered(heading@)[0] == aliases(fam)[0][0] && heading@[0]
            != aliases(fam)[0][0],
        i > 0 && heading@[i] != ' ' ==> heading@[i] == aliases(fam)[0][i],
        heading@[i] == ' ' ==> aliases(fam)[0][i] == '_',
{
    reveal_strlit("Scalars");
    reveal_strlit("Aggregates");
    reveal_strlit("Table functions");
    reveal_strlit("Window functions");
    reveal_strlit("Types");
    reveal_strlit("Operators");
    reveal_strlit("Casts");
    reveal_strlit("Indexes");
    reveal_strlit("Preprocessors");
    reveal_strlit("scalars");
    reveal_strlit("aggregates");
    reveal_strlit("table_functions");
    reveal_strlit("window_functions");
    reveal_strlit("types");
    reveal_strlit("operators");
    reveal_strlit("casts");
    reveal_strlit("indexes");
    reveal_strlit("preprocessors");
    crate::text::capitals_become_small(heading@, 0);
}

/// A report tells of functions first, of scalar ones before all others, then of
/// types, and of the rewrites and indexes that go with them in the end.
pub proof fn families_come_in_order(r: Vec<Family>)
    requires
        call_ensures(Family::all, (), r),
    ensures
        r@[0] is Scalars,
        r@[1] is Aggregates,
        r@[2] is TableFunctions,
        r@[3] is WindowFunctions,
        r@[4] is ColumnTypes,
        r@[5] is Operators,
        r@[6] is CastRewrites,
        r@[7] is SpatialIndexes,
        r@[8] is PreprocessorPatterns,
{
}

} // verus!
