//! Comparing two catalogs.
use shim_interface_core::catalog::{
    Catalog, Entity, Family, FamilyRows, FamilyTable, SourceKind,
};
use shim_interface_core::diff::{classify, diff_family, EntityRef, Semver};
use shim_interface_core::load::{
    column_exists, load_cast_rewrites, load_column_types, load_operators,
    load_preprocessor_patterns, load_simple_named, load_spatial_indexes, select_sql,
    sqlite_catalog, table_info_sql, toml_catalog, CastRewriteRow, CatalogToml, ColumnTypeRow,
    NamedRow, OperatorRow, PreprocessorPatternRow, SpatialIndexRow, TomlLeaf, TomlMeta, TomlType,
};
use shim_interface_core::options::{
    effective_format, entity_filter, gate, source_kind, OutputFormat,
};
use shim_interface_core::report::{build_report, format_text, Report};

fn no_rows() -> FamilyRows {
    FamilyRows { rows: Vec::new(), signatures_unavailable: true }
}

fn table(scalars: FamilyRows) -> FamilyTable {
    FamilyTable {
        scalars,
        aggregates: no_rows(),
        table_functions: no_rows(),
        window_functions: no_rows(),
        column_types: no_rows(),
        operators: no_rows(),
        cast_rewrites: no_rows(),
        spatial_indexes: no_rows(),
        preprocessor_patterns: no_rows(),
    }
}

fn scalar(name: &str, hash: &str) -> NamedRow {
    NamedRow {
        extension: "demo".to_string(),
        name: name.to_string(),
        signature_hash: Some(hash.to_string()),
    }
}

/// A tiny catalog of two scalars.
fn seed_catalog(tweak_second_hash: bool, add_extra: bool, remove_first: bool) -> Catalog {
    let mut rows = Vec::new();
    if !remove_first {
        rows.push(scalar("st_alpha", "aaaa"));
    }
    let beta_hash = if tweak_second_hash { "bbbb-TWEAKED" } else { "bbbb" };
    rows.push(scalar("st_beta", beta_hash));
    if add_extra {
        rows.push(scalar("st_gamma", "cccc"));
    }
    sqlite_catalog(
        "demo".to_string(),
        "1.0.0".to_string(),
        3,
        "demo.sqlite".to_string(),
        table(load_simple_named(&rows, true, true)),
    )
}

fn strings(list: &[&str]) -> Vec<String> {
    list.iter().map(|s| s.to_string()).collect()
}

/// The whole run: the report, and whether it passes.
fn run(before: &Catalog, after: &Catalog, filter: &[&str]) -> Result<(Report, bool), String> {
    let filter = entity_filter(&strings(filter))?;
    let report = build_report(before, after, &filter);
    let passes = gate(report.semver.class).is_ok();
    Ok((report, passes))
}

#[test]
fn additive_and_signature_change_yields_minor_with_changes() {
    let before = seed_catalog(false, false, false);
    let after = seed_catalog(true, true, false); // tweak st_beta hash + add st_gamma

    let (report, passes) = run(&before, &after, &[]).unwrap();
    assert!(passes, "expected zero exit for MINOR-WITH-CHANGES");

    let scalars = report
        .families
        .iter()
        .find(|f| f.family == "scalars")
        .expect("scalars family in report");
    assert_eq!(scalars.added.len(), 1);
    assert_eq!(scalars.removed.len(), 0);
    assert_eq!(scalars.signature_changed.len(), 1);
    assert_eq!(scalars.unchanged, 1);
    assert_eq!(report.semver.class, Semver::MinorWithChanges);
    assert_eq!(scalars.added[0].pk, "demo|st_gamma");
    assert_eq!(scalars.signature_changed[0].before_hash.as_deref(), Some("bbbb"));
    assert_eq!(scalars.signature_changed[0].after_hash.as_deref(), Some("bbbb-TWEAKED"));
}

#[test]
fn removal_yields_major_and_nonzero_exit() {
    let before = seed_catalog(false, false, false);
    let after = seed_catalog(false, false, true); // st_alpha removed

    let (report, passes) = run(&before, &after, &[]).unwrap();
    assert!(!passes, "MAJOR must exit non-zero");
    assert_eq!(report.semver.class, Semver::Major);
    assert_eq!(gate(Semver::Major), Err("MAJOR — removals detected (see report)"));
}

#[test]
fn entity_filter_narrows_the_report() {
    let before = seed_catalog(false, false, false);
    let after = seed_catalog(true, false, false); // tweak second hash only

    let (report, passes) = run(&before, &after, &["scalars"]).unwrap();
    assert!(passes);
    assert_eq!(report.families.len(), 1);
    assert_eq!(report.families[0].family, "scalars");
}

#[test]
fn unknown_entity_filter_errors_out() {
    let before = seed_catalog(false, false, false);
    let after = seed_catalog(false, false, false);

    let err = run(&before, &after, &["scalars", "nonsense"]).map(|_| ()).unwrap_err();
    assert!(err.contains("nonsense"), "the message should mention the bad slug: {err}");
    assert_eq!(err, "unknown --entity-filter value: nonsense");
}

#[test]
fn additions_alone_are_minor() {
    let (report, passes) =
        run(&seed_catalog(false, false, false), &seed_catalog(false, true, false), &[]).unwrap();
    assert!(passes);
    assert_eq!(report.semver.class, Semver::Minor);
    assert_eq!(report.semver.reason, "additive only, no breaking removals");
    assert_eq!(report.human_gate, vec!["1 new scalars need test cases"]);
}

#[test]
fn a_catalog_compared_with_itself_is_a_patch() {
    let cat = seed_catalog(false, false, false);
    let (report, passes) = run(&cat, &cat, &[]).unwrap();
    assert!(passes);
    assert_eq!(report.semver.class, Semver::Patch);
    assert_eq!(report.families.len(), 9);
    assert_eq!(report.families[0].unchanged, 2);
    assert!(report.families.iter().all(|f| f.added.is_empty() && f.removed.is_empty()));
    let order: Vec<&str> = report.families.iter().map(|f| f.family).collect();
    assert_eq!(
        order,
        vec![
            "scalars",
            "aggregates",
            "table_functions",
            "window_functions",
            "column_types",
            "operators",
            "cast_rewrites",
            "spatial_indexes",
            "preprocessor_patterns",
        ]
    );
}

#[test]
fn exchanging_the_sides_exchanges_additions_and_removals() {
    let a = seed_catalog(false, true, false);
    let b = seed_catalog(true, false, true);
    let forth = diff_family(Family::Scalars, &a.families.scalars, &b.families.scalars);
    let back = diff_family(Family::Scalars, &b.families.scalars, &a.families.scalars);
    let pks = |list: &Vec<EntityRef>| -> Vec<String> { list.iter().map(|e| e.pk.clone()).collect() };
    assert_eq!(pks(&forth.added), pks(&back.removed));
    assert_eq!(pks(&forth.removed), pks(&back.added));
    assert_eq!(pks(&forth.removed), vec!["demo|st_alpha", "demo|st_gamma"]);
    assert_eq!(forth.signature_changed.len(), back.signature_changed.len());
    assert_eq!(forth.unchanged, back.unchanged);
}

fn entity(pk: &str, hash: Option<&str>) -> Entity {
    Entity {
        pk: pk.to_string(),
        display: format!("<{pk}>"),
        signature_hash: hash.map(|h| h.to_string()),
    }
}

fn rows(list: Vec<Entity>, signatures_unavailable: bool) -> FamilyRows {
    FamilyRows { rows: list, signatures_unavailable }
}

#[test]
fn missing_hashes_are_not_changes() {
    let before = rows(vec![entity("a", None), entity("b", Some("1")), entity("c", Some("1"))], false);
    let after = rows(vec![entity("a", Some("1")), entity("b", None), entity("c", Some("2"))], false);
    let d = diff_family(Family::Operators, &before, &after);
    assert_eq!(d.unchanged, 2);
    assert_eq!(d.signature_changed.len(), 1);
    assert_eq!(d.signature_changed[0].display, "<c>");
    assert!(!d.hash_compare_skipped);
    assert!(d.compared);
    let reason = "signature_hash missing on some rows, which were compared by name only";
    assert_eq!(d.skip_reason.as_deref(), Some(reason));
    let mut out = String::new();
    shim_interface_core::report::format_family_text(&mut out, &d);
    assert!(out.ends_with(&format!("  ! hash-level compare partial: {reason}\n")));
    let whole = rows(vec![entity("c", Some("1")), entity("x", None)], false);
    let d = diff_family(Family::Operators, &whole, &rows(vec![entity("c", Some("2"))], false));
    assert!(d.skip_reason.is_none());
}

#[test]
fn a_skipped_comparison_reports_no_change() {
    let before = rows(vec![entity("a", Some("1"))], false);
    let after = rows(vec![entity("a", Some("2"))], true);
    let d = diff_family(Family::Operators, &before, &after);
    assert_eq!((d.unchanged, d.signature_changed.len()), (1, 0));
    assert_eq!(d.skip_reason.as_deref(), Some("signature_hash unavailable on after"));
    let d = diff_family(Family::Operators, &after, &before);
    assert_eq!(d.skip_reason.as_deref(), Some("signature_hash unavailable on before"));
    let d = diff_family(Family::Operators, &after, &after);
    assert_eq!(d.skip_reason.as_deref(), Some("signature_hash unavailable on both sides"));
}

#[test]
fn of_rows_with_one_key_the_last_counts() {
    let before = rows(vec![entity("a", Some("1")), entity("a", Some("2"))], false);
    let after = rows(vec![entity("a", Some("2"))], false);
    let d = diff_family(Family::Scalars, &before, &after);
    assert_eq!((d.unchanged, d.signature_changed.len()), (1, 0));
    assert_eq!(d.family, "scalars");
}

#[test]
fn classes_have_labels_and_reasons() {
    assert_eq!(classify(&[]), Semver::Patch);
    assert_eq!(Semver::Major.label(), "MAJOR");
    assert_eq!(Semver::Minor.label(), "MINOR");
    assert_eq!(Semver::MinorWithChanges.label(), "MINOR-WITH-CHANGES");
    assert_eq!(Semver::Patch.label(), "PATCH");
    assert_eq!(Semver::Major.reason(), "removals present — breaking");
    assert_eq!(Semver::MinorWithChanges.reason(), "signature changes flagged for re-verification");
    assert_eq!(Semver::Patch.reason(), "no observable delta");
    assert_eq!(EntityRef::from(&entity("k", None)).display, "<k>");
}

#[test]
fn the_text_report_is_exact() {
    let mut before = seed_catalog(false, false, false);
    before.schema_version = Some(4);
    let mut after = seed_catalog(true, true, true);
    after.schema_version = Some(4);
    let (report, _) = run(&before, &after, &["scalars", "ops"]).unwrap();
    assert_eq!(
        format_text(&report),
        "Comparing demo@1.0.0 (before) vs demo@1.0.0 (after):\n  \
         schema: v4 (before) vs v4 (after)\n\n\
         Scalars: +1 -1 ~1 = 0 unchanged\n  \
         +1 added:  st_gamma\n  \
         -1 removed:  st_alpha\n  \
         ~1 signature-changed:  st_beta\n\
         Operators: +0 -0 ~0 = 0 unchanged\n  \
         ! hash-level compare skipped: signature_hash unavailable on both sides\n\
         \nSEMVER classification: MAJOR (removals present — breaking)\n\
         Human gate:\n  \
         - 1 new scalars need test cases\n  \
         - 1 scalars with changed signatures need re-verification\n"
    );
}

#[test]
fn long_lists_are_cut_after_twenty() {
    let many: Vec<Entity> = (0..23).map(|i| entity(&format!("{i:02}"), None)).collect();
    let none = rows(Vec::new(), false);
    let some = rows(many, false);
    let d = diff_family(Family::SpatialIndexes, &none, &some);
    let mut out = String::new();
    shim_interface_core::report::format_family_text(&mut out, &d);
    assert!(out.starts_with("Indexes: +23 -0 ~0 = 0 unchanged\n  +23 added:  <00>, <01>, "));
    assert!(out.ends_with("<19>, ... (+3)\n"));
    let d = diff_family(Family::SpatialIndexes, &some, &none);
    let mut out = String::new();
    shim_interface_core::report::format_family_text(&mut out, &d);
    assert!(out.ends_with("<19>, ... (-3)\n"));
}

#[test]
fn warnings_name_what_differs() {
    let before = seed_catalog(false, false, false);
    let mut after = toml_catalog(
        &CatalogToml {
            meta: TomlMeta { extension: None, version: None },
            types: Vec::new(),
            leaves: Vec::new(),
        },
        "x.toml".to_string(),
    );
    after.schema_version = Some(2);
    let report = build_report(&before, &after, &[]);
    assert_eq!(report.warnings.len(), 4);
    assert!(report.warnings[0].starts_with("before DB is at schema v3 (< v4); five of the nine "));
    assert!(report.warnings[1].starts_with("after DB is at schema v2 (< v4); five of the nine "));
    assert!(report.warnings[2]
        .starts_with("extension mismatch: before='demo' vs after='<unknown-extension>' — "));
    assert!(report.warnings[3].starts_with("mixed input formats (before=sqlite, after=toml) — "));
    assert_eq!(report.after.label, "<unknown-extension>@<unknown-version>");
    assert_eq!(report.after.source_path, "x.toml");
}

#[test]
fn toml_names_are_gathered_and_sorted() {
    let leaf = |scalars: &[&str], casts: &[&str]| TomlLeaf {
        scalars: strings(scalars),
        aggregates: Vec::new(),
        table_functions: Vec::new(),
        window_functions: Vec::new(),
        operators: Vec::new(),
        casts: strings(casts),
        preprocessor_patterns: Vec::new(),
        spatial_indexes: Vec::new(),
    };
    let doc = CatalogToml {
        meta: TomlMeta { extension: Some("e".to_string()), version: Some("2".to_string()) },
        types: vec![TomlType { name: "point".to_string(), kind: None }],
        leaves: vec![leaf(&["b", "a"], &["c"]), leaf(&["a", "0"], &[])],
    };
    let cat = toml_catalog(&doc, "p".to_string());
    let pks = |f: Family| -> Vec<String> {
        cat.families.get(f).rows.iter().map(|e| e.pk.clone()).collect()
    };
    assert_eq!(pks(Family::Scalars), vec!["e|0", "e|a", "e|b"]);
    assert_eq!(pks(Family::CastRewrites), vec!["e|c"]);
    assert_eq!(pks(Family::ColumnTypes), vec!["e|point"]);
    assert_eq!(cat.families.scalars.rows[1].display, "a");
    assert!(cat.families.scalars.signatures_unavailable);
    assert!(cat.families.operators.signatures_unavailable);
    assert_eq!(cat.label(), "e@2");
    assert_eq!(cat.schema_version, None);
    assert_eq!(cat.source_kind, SourceKind::Toml);
}

#[test]
fn rows_become_entities() {
    let s = |t: &str| t.to_string();
    let r = load_column_types(
        &vec![ColumnTypeRow { extension: s("e"), type_id: 7, typename: s("t"), signature_hash: None }],
        true,
    );
    assert_eq!((r.rows[0].pk.as_str(), r.rows[0].display.as_str()), ("e|7|t", "t"));
    assert!(r.signatures_unavailable);

    let r = load_operators(
        &vec![
            OperatorRow {
                extension: s("e"),
                symbol: s("&&"),
                lhs_type_id: Some(-1),
                rhs_type_id: None,
                function_name: s("f"),
                signature_hash: Some(s("h")),
            },
            OperatorRow {
                extension: s("d"),
                symbol: s("&&"),
                lhs_type_id: None,
                rhs_type_id: Some(2),
                function_name: s("g"),
                signature_hash: None,
            },
        ],
        true,
    );
    assert_eq!(r.rows[0].pk, "d|&&|null|2");
    assert_eq!(r.rows[1].pk, "e|&&|-1|null");
    assert_eq!(r.rows[1].display, "&& (-1,null) -> f");
    assert!(!r.signatures_unavailable);

    let r = load_cast_rewrites(
        &vec![CastRewriteRow {
            extension: s("e"),
            target_type: s("t"),
            source_kind: s("k"),
            source_fn_hint: s("h"),
            source_type_id: 3,
            function_name: s("f"),
            signature_hash: None,
        }],
        false,
    );
    assert_eq!(r.rows[0].pk, "e|t|k|h|3");
    assert_eq!(r.rows[0].display, "t <- k/h#3 via f");

    let r = load_spatial_indexes(
        &vec![SpatialIndexRow { extension: s("e"), name: s("n"), type_id: 0, signature_hash: None }],
        true,
    );
    assert_eq!((r.rows[0].pk.as_str(), r.rows[0].display.as_str()), ("e|n|0", "n"));

    let r = load_preprocessor_patterns(
        &vec![PreprocessorPatternRow {
            extension: s("e"),
            op_token: s("<->"),
            function_name: s("f"),
            signature_hash: Some(s("x")),
        }],
        true,
    );
    assert_eq!((r.rows[0].pk.as_str(), r.rows[0].display.as_str()), ("e|<->", "<-> -> f"));
    assert!(!r.signatures_unavailable);
}

#[test]
fn hashes_that_were_not_computed_do_not_count() {
    let row = |hash: Option<&str>| NamedRow {
        extension: "e".to_string(),
        name: "n".to_string(),
        signature_hash: hash.map(|h| h.to_string()),
    };
    assert!(load_simple_named(&vec![row(None)], true, true).signatures_unavailable);
    assert!(!load_simple_named(&vec![row(None)], true, false).signatures_unavailable);
    assert!(!load_simple_named(&vec![row(Some("h"))], true, true).signatures_unavailable);
    assert!(load_simple_named(&vec![row(Some("h"))], false, true).signatures_unavailable);
    assert!(load_simple_named(&Vec::new(), true, true).signatures_unavailable);
}

#[test]
fn statements_for_loading() {
    assert_eq!(table_info_sql("scalars"), "PRAGMA table_info(\"scalars\")");
    assert_eq!(table_info_sql("a\"b"), "PRAGMA table_info(\"a\"\"b\")");
    assert!(column_exists(&strings(&["a", "b"]), "b"));
    assert!(!column_exists(&strings(&["a", "b"]), "B"));
    assert_eq!(
        select_sql(Family::Aggregates, true),
        "SELECT extension, name, signature_hash FROM aggregates"
    );
    assert_eq!(
        select_sql(Family::ColumnTypes, false),
        "SELECT extension, type_id, type_name, NULL AS signature_hash FROM column_types"
    );
}

#[test]
fn families_have_names_and_aliases() {
    for f in Family::all() {
        assert_eq!(Family::parse_slug(f.slug()), Some(f));
    }
    assert_eq!(Family::parse_slug("  UDTF\t"), Some(Family::TableFunctions));
    assert_eq!(Family::parse_slug("Cast-Rewrites"), Some(Family::CastRewrites));
    assert_eq!(Family::parse_slug("\u{a0}idx\u{3000}"), Some(Family::SpatialIndexes));
    assert_eq!(Family::parse_slug(""), None);
    assert_eq!(Family::WindowFunctions.label(), "Window functions");
    assert!(Family::Scalars.has_hash_at_v3());
    assert!(!Family::Operators.has_hash_at_v3());
    assert_eq!(SourceKind::Sqlite.label(), "sqlite");
}

#[test]
fn formats_follow_from_the_output_files() {
    assert_eq!(effective_format(None, false, false), Ok(OutputFormat::Text));
    assert_eq!(effective_format(None, true, false), Ok(OutputFormat::Text));
    assert_eq!(effective_format(None, false, true), Ok(OutputFormat::Json));
    assert_eq!(effective_format(None, true, true), Ok(OutputFormat::Both));
    assert_eq!(effective_format(Some(OutputFormat::Json), true, false), Ok(OutputFormat::Json));
    assert_eq!(
        effective_format(Some(OutputFormat::Both), true, false),
        Err("--output-format=both requires both --text-out and --json-out (stdout cannot carry two formats simultaneously)")
    );
    assert!(OutputFormat::Both.wants_text() && OutputFormat::Both.wants_json());
    assert!(OutputFormat::Text.wants_text() && !OutputFormat::Text.wants_json());
    assert!(!OutputFormat::Json.wants_text() && OutputFormat::Json.wants_json());
    assert_eq!(source_kind(Some("TOML")), SourceKind::Toml);
    assert_eq!(source_kind(Some("db")), SourceKind::Sqlite);
    assert_eq!(source_kind(None), SourceKind::Sqlite);
}
