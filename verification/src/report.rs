//! The report on two catalogs: per-family differences, a rating, warnings,
//! and its rendering as text.
use vstd::prelude::*;
use vstd::string::StringExecFns;

use crate::catalog::{Catalog, Family};
use crate::diff::{classify, diff_family, EntityRef, FamilyDelta, Semver, SignatureChange};
use crate::text::{ascii_lowercase, decimal_of, join, push_decimal, str_eq};

verus! {

// ---------------------------------------------------------------------------
// Report
// ---------------------------------------------------------------------------

/// A difference report.
#[derive(Clone, Debug)]
pub struct Report {
    pub before: CatalogSummary,
    pub after: CatalogSummary,
    pub families: Vec<FamilyDelta>,
    pub semver: SemverBlock,
    pub warnings: Vec<String>,
    pub human_gate: Vec<String>,
}

/// One side of a report.
#[derive(Clone, Debug)]
pub struct CatalogSummary {
    pub label: String,
    pub extension: String,
    pub version: String,
    pub schema_version: Option<u32>,
    pub source_path: String,
}

/// The rating of a report.
#[derive(Clone, Debug)]
pub struct SemverBlock {
    pub class: Semver,
    pub reason: String,
}

/// `s` sums up `cat`.
pub open spec fn is_summary(s: CatalogSummary, cat: Catalog) -> bool {
    &&& s.label@ == cat.display_label@
    &&& s.extension@ == cat.extension@
    &&& s.version@ == cat.version@
    &&& s.schema_version == cat.schema_version
    &&& s.source_path@ == cat.source_path@
}

/// The families that a filter lets through, in report order. An empty filter
/// lets every family through.
pub open spec fn selected(filter: Seq<Family>) -> Seq<Family> {
    selected_of(crate::catalog::all_families(), filter)
}

/// Those of `families` that the filter lets through.
pub open spec fn selected_of(families: Seq<Family>, filter: Seq<Family>) -> Seq<Family>
    decreases families.len(),
{
    if families.len() == 0 {
        Seq::empty()
    } else {
        let front = selected_of(families.drop_last(), filter);
        if filter.len() == 0 || filter.contains(families.last()) {
            front.push(families.last())
        } else {
            front
        }
    }
}

/// The warning that a database is too old to carry every hash.
pub open spec fn schema_warnings(side: Seq<char>, version: Option<u32>) -> Seq<Seq<char>> {
    match version {
        Some(sv) if sv < 4 => seq![
            side + " DB is at schema v"@ + crate::text::decimal(sv as nat)
                + " (< v4); five of the nine families won't carry signature_hash — compare falls back to name-only for those. Apply B4 to enable hash-level diff."@,
        ],
        _ => Seq::empty(),
    }
}

/// The warning that the two sides are of different extensions.
pub open spec fn extension_warnings(before: Seq<char>, after: Seq<char>) -> Seq<Seq<char>> {
    if before != after {
        seq![
            "extension mismatch: before='"@ + before + "' vs after='"@ + after
                + "' — diffing anyway, but PK collisions between different extensions may look like additions/removals rather than the extension swap they are."@,
        ]
    } else {
        Seq::empty()
    }
}

/// The warning that the two sides were loaded from different kinds of source.
pub open spec fn format_warnings(
    before: crate::catalog::SourceKind,
    after: crate::catalog::SourceKind,
) -> Seq<Seq<char>> {
    if before != after {
        seq![
            "mixed input formats (before="@ + before.label_text() + ", after="@
                + after.label_text()
                + ") — compound-keyed families (operators, casts, types) use different PK renderings per format, so the diff will show them as removed-and-re-added. Compare like formats to avoid the noise."@,
        ]
    } else {
        Seq::empty()
    }
}

/// Every warning on a pair of catalogs.
pub open spec fn warnings_on(before: Catalog, after: Catalog) -> Seq<Seq<char>> {
    schema_warnings("before"@, before.schema_version) + schema_warnings(
        "after"@,
        after.schema_version,
    ) + extension_warnings(before.extension@, after.extension@) + format_warnings(
        before.source_kind,
        after.source_kind,
    )
}

/// What a human has to look at in one family.
pub open spec fn gate_lines(fam: Family, d: FamilyDelta) -> Seq<Seq<char>> {
    let what = crate::text::ascii_lowered(fam.label_text());
    let added: Seq<Seq<char>> = if d.added@.len() > 0 {
        seq![
            crate::text::decimal(d.added@.len()) + " new "@ + what + " need test cases"@,
        ]
    } else {
        Seq::empty()
    };
    let changed: Seq<Seq<char>> = if d.signature_changed@.len() > 0 {
        seq![
            crate::text::decimal(d.signature_changed@.len()) + " "@ + what
                + " with changed signatures need re-verification"@,
        ]
    } else {
        Seq::empty()
    };
    added + changed
}

/// What a human has to look at in all of the families.
pub open spec fn all_gate_lines(fams: Seq<Family>, deltas: Seq<FamilyDelta>) -> Seq<Seq<char>>
    decreases fams.len(),
{
    if fams.len() == 0 {
        Seq::empty()
    } else {
        all_gate_lines(fams.drop_last(), deltas.drop_last()) + gate_lines(
            fams.last(),
            deltas.last(),
        )
    }
}

/// `deltas` are the differences between the two catalogs in the families
/// `fams`.
pub open spec fn are_deltas(
    deltas: Seq<FamilyDelta>,
    fams: Seq<Family>,
    before: Catalog,
    after: Catalog,
) -> bool {
    &&& deltas.len() == fams.len()
    &&& forall|i: int|
        0 <= i < fams.len() ==> crate::diff::is_delta(
            #[trigger] deltas[i],
            fams[i],
            before.families.of(fams[i]),
            after.families.of(fams[i]),
        )
}

/// `r` reports on the two catalogs, in the families that the filter lets
/// through.
pub open spec fn is_report(
    r: Report,
    before: Catalog,
    after: Catalog,
    filter: Seq<Family>,
) -> bool {
    &&& is_summary(r.before, before)
    &&& is_summary(r.after, after)
    &&& are_deltas(r.families@, selected(filter), before, after)
    &&& r.semver.class == crate::diff::classified(r.families@)
    &&& r.semver.reason@ == r.semver.class.reason_text()
    &&& crate::text::texts(r.warnings@) == warnings_on(before, after)
    &&& crate::text::texts(r.human_gate@) == all_gate_lines(selected(filter), r.families@)
}

/// Appends the warning that a database is too old, if it is.
fn push_schema_warning(warnings: &mut Vec<String>, side: &str, version: Option<u32>)
    ensures
        crate::text::texts(final(warnings)@) == crate::text::texts(old(warnings)@)
            + schema_warnings(side@, version),
{
    if let Some(sv) = version {
        if sv < 4 {
            let mut w = side.to_owned();
            w.append(" DB is at schema v");
            push_decimal(&mut w, sv as u64);
            w.append(
                " (< v4); five of the nine families won't carry signature_hash — compare falls back to name-only for those. Apply B4 to enable hash-level diff.",
            );
            warnings.push(w);
        }
    }
    assert(crate::text::texts(warnings@) =~= crate::text::texts(old(warnings)@) + schema_warnings(
        side@,
        version,
    ));
}

/// The warnings on a pair of catalogs.
fn collect_warnings(before: &Catalog, after: &Catalog) -> (r: Vec<String>)
    ensures
        crate::text::texts(r@) == warnings_on(*before, *after),
{
    let mut warnings: Vec<String> = Vec::new();
    push_schema_warning(&mut warnings, "before", before.schema_version);
    push_schema_warning(&mut warnings, "after", after.schema_version);
    if !str_eq(before.extension.as_str(), after.extension.as_str()) {
        let mut w = "extension mismatch: before='".to_owned();
        w.append(before.extension.as_str());
        w.append("' vs after='");
        w.append(after.extension.as_str());
        w.append(
            "' — diffing anyway, but PK collisions between different extensions may look like additions/removals rather than the extension swap they are.",
        );
        warnings.push(w);
    }
    if before.source_kind != after.source_kind {
        let mut w = "mixed input formats (before=".to_owned();
        w.append(before.source_kind.label());
        w.append(", after=");
        w.append(after.source_kind.label());
        w.append(
            ") — compound-keyed families (operators, casts, types) use different PK renderings per format, so the diff will show them as removed-and-re-added. Compare like formats to avoid the noise.",
        );
        warnings.push(w);
    }
    assert(crate::text::texts(warnings@) =~= warnings_on(*before, *after));
    warnings
}

/// Appends what a human has to look at in one family.
fn push_gate_lines(gate: &mut Vec<String>, fam: Family, d: &FamilyDelta)
    ensures
        crate::text::texts(final(gate)@) == crate::text::texts(old(gate)@) + gate_lines(fam, *d),
{
    if !d.added.is_empty() {
        let mut line = decimal_of(d.added.len() as u64);
        line.append(" new ");
        line.append(ascii_lowercase(fam.label()).as_str());
        line.append(" need test cases");
        gate.push(line);
    }
    if !d.signature_changed.is_empty() {
        let mut line = decimal_of(d.signature_changed.len() as u64);
        line.append(" ");
        line.append(ascii_lowercase(fam.label()).as_str());
        line.append(" with changed signatures need re-verification");
        gate.push(line);
    }
    assert(crate::text::texts(gate@) =~= crate::text::texts(old(gate)@) + gate_lines(fam, *d));
}

/// Sums a catalog up.
fn summary(cat: &Catalog) -> (r: CatalogSummary)
    ensures
        is_summary(r, *cat),
{
    CatalogSummary {
        label: cat.label().to_owned(),
        extension: cat.extension.clone(),
        version: cat.version.clone(),
        schema_version: cat.schema_version,
        source_path: cat.source_path.clone(),
    }
}

/// Whether the filter lets a family through.
fn lets_through(filter: &[Family], fam: Family) -> (r: bool)
    ensures
        r == (filter@.len() == 0 || filter@.contains(fam)),
{
    if filter.len() == 0 {
        return true;
    }
    let mut i: usize = 0;
    while i < filter.len()
        invariant
            i <= filter@.len(),
            forall|k: int| 0 <= k < i ==> filter@[k] != fam,
        decreases filter@.len() - i,
    {
        if filter[i] == fam {
            return true;
        }
        i += 1;
    }
    false
}

/// Compares two catalogs in the families that the filter lets through. An
/// empty filter lets every family through.
pub fn build_report(before: &Catalog, after: &Catalog, filter: &[Family]) -> (r: Report)
    ensures
        is_report(r, *before, *after, filter@),
{
    let warnings = collect_warnings(before, after);
    let mut families: Vec<FamilyDelta> = Vec::new();
    let mut human_gate: Vec<String> = Vec::new();
    let every = Family::all();
    let mut i: usize = 0;
    assert(crate::text::texts(human_gate@) =~= Seq::<Seq<char>>::empty());
    while i < every.len()
        invariant
            every@ == crate::catalog::all_families(),
            i <= every@.len(),
            are_deltas(
                families@,
                selected_of(every@.take(i as int), filter@),
                *before,
                *after,
            ),
            crate::text::texts(human_gate@) == all_gate_lines(
                selected_of(every@.take(i as int), filter@),
                families@,
            ),
        decreases every@.len() - i,
    {
        let fam = every[i];
        let ghost so_far = selected_of(every@.take(i as int), filter@);
        let ghost deltas_before = families@;
        assert(every@.take(i + 1).drop_last() =~= every@.take(i as int));
        assert(every@.take(i + 1).last() == fam);
        if lets_through(filter, fam) {
            let delta = diff_family(fam, before.families.get(fam), after.families.get(fam));
            push_gate_lines(&mut human_gate, fam, &delta);
            families.push(delta);
            proof {
                assert(so_far.push(fam).drop_last() =~= so_far);
                assert(families@.drop_last() =~= deltas_before);
            }
        }
        i += 1;
    }
    assert(every@.take(i as int) =~= crate::catalog::all_families());
    let class = classify(families.as_slice());
    Report {
        before: summary(before),
        after: summary(after),
        families,
        semver: SemverBlock { class, reason: class.reason().to_owned() },
        warnings,
        human_gate,
    }
}

// ---------------------------------------------------------------------------
// Text output
// ---------------------------------------------------------------------------

/// How many entities a text report names under each heading.
pub const SAMPLE_LIMIT: usize = 20;

/// What entities are shown as.
pub open spec fn ref_displays(list: Seq<EntityRef>) -> Seq<Seq<char>> {
    list.map_values(|r: EntityRef| r.display@)
}

/// What changed entities are shown as.
pub open spec fn change_displays(list: Seq<SignatureChange>) -> Seq<Seq<char>> {
    list.map_values(|c: SignatureChange| c.display@)
}

/// The first entries of a list, as many as a report names.
pub open spec fn sample_of(names: Seq<Seq<char>>) -> Seq<Seq<char>> {
    if names.len() > SAMPLE_LIMIT {
        names.take(SAMPLE_LIMIT as int)
    } else {
        names
    }
}

/// The line that names entities under one heading; nothing if there are none.
pub open spec fn detail_text(sign: Seq<char>, what: Seq<char>, names: Seq<Seq<char>>) -> Seq<char> {
    if names.len() == 0 {
        Seq::empty()
    } else {
        "  "@ + sign + crate::text::decimal(names.len()) + " "@ + what + ":  "@
            + crate::text::joined(sample_of(names), ", "@) + rest_text(sign, names.len()) + "\n"@
    }
}

/// The note on how many of `count` entities a line leaves out.
pub open spec fn rest_text(sign: Seq<char>, count: nat) -> Seq<char> {
    if count > SAMPLE_LIMIT {
        ", ... ("@ + sign + crate::text::decimal((count - SAMPLE_LIMIT) as nat) + ")"@
    } else {
        Seq::empty()
    }
}

/// The heading of a family in a report: its label, or the name itself if it
/// names no family.
pub open spec fn heading_of(family: Seq<char>) -> Seq<char> {
    match crate::catalog::family_named(
        crate::text::ascii_lowered(crate::text::trimmed(family)),
    ) {
        Some(f) => f.label_text(),
        None => family,
    }
}

/// A family's section of a text report.
pub open spec fn family_text(d: FamilyDelta) -> Seq<char> {
    heading_of(d.family@) + ": +"@ + crate::text::decimal(d.added@.len()) + " -"@
        + crate::text::decimal(d.removed@.len()) + " ~"@ + crate::text::decimal(
        d.signature_changed@.len(),
    ) + " = "@ + crate::text::decimal(d.unchanged as nat) + " unchanged\n"@ + detail_text(
        "+"@,
        "added"@,
        ref_displays(d.added@),
    ) + detail_text("-"@, "removed"@, ref_displays(d.removed@)) + detail_text(
        "~"@,
        "signature-changed"@,
        change_displays(d.signature_changed@),
    ) + skip_text(d)
}

/// The note that hashes were not compared, or not on every row.
pub open spec fn skip_text(d: FamilyDelta) -> Seq<char> {
    match d.skip_reason {
        Some(reason) => (if d.hash_compare_skipped {
            "  ! hash-level compare skipped: "@
        } else {
            "  ! hash-level compare partial: "@
        }) + reason@ + "\n"@,
        None => Seq::empty(),
    }
}

/// The sections of all of the families.
pub open spec fn families_text(deltas: Seq<FamilyDelta>) -> Seq<char>
    decreases deltas.len(),
{
    if deltas.len() == 0 {
        Seq::empty()
    } else {
        families_text(deltas.drop_last()) + family_text(deltas.last())
    }
}

/// Lines, each with a prefix in front.
pub open spec fn prefixed_lines(prefix: Seq<char>, lines: Seq<Seq<char>>) -> Seq<char>
    decreases lines.len(),
{
    if lines.len() == 0 {
        Seq::empty()
    } else {
        prefixed_lines(prefix, lines.drop_last()) + prefix + lines.last() + "\n"@
    }
}

/// A headed list of lines; nothing if there are none.
pub open spec fn block_text(
    heading: Seq<char>,
    prefix: Seq<char>,
    lines: Seq<Seq<char>>,
) -> Seq<char> {
    if lines.len() == 0 {
        Seq::empty()
    } else {
        heading + prefixed_lines(prefix, lines)
    }
}

/// The line on the schema versions, where both are known.
pub open spec fn schema_line(before: Option<u32>, after: Option<u32>) -> Seq<char> {
    match (before, after) {
        (Some(bv), Some(av)) => "  schema: v"@ + crate::text::decimal(bv as nat)
            + " (before) vs v"@ + crate::text::decimal(av as nat) + " (after)\n"@,
        _ => Seq::empty(),
    }
}

/// A text report.
pub open spec fn report_text(r: Report) -> Seq<char> {
    "Comparing "@ + r.before.label@ + " (before) vs "@ + r.after.label@ + " (after):\n"@
        + schema_line(r.before.schema_version, r.after.schema_version) + "\n"@ + families_text(
        r.families@,
    ) + block_text("\n"@, "WARNING: "@, crate::text::texts(r.warnings@))
        + "\nSEMVER classification: "@ + r.semver.class.label_text() + " ("@ + r.semver.reason@
        + ")\n"@ + block_text("Human gate:\n"@, "  - "@, crate::text::texts(r.human_gate@))
}

/// Lines, each with a prefix in front.
fn format_prefixed(prefix: &str, lines: &Vec<String>) -> (r: String)
    ensures
        r@ == prefixed_lines(prefix@, crate::text::texts(lines@)),
{
    let ghost all = crate::text::texts(lines@);
    let mut out = String::new();
    let mut i: usize = 0;
    while i < lines.len()
        invariant
            i <= lines@.len(),
            all == crate::text::texts(lines@),
            out@ == prefixed_lines(prefix@, all.take(i as int)),
        decreases lines@.len() - i,
    {
        assert(all.take(i + 1).drop_last() =~= all.take(i as int));
        assert(all.take(i + 1).last() == lines@[i as int]@);
        out.append(prefix);
        out.append(lines[i].as_str());
        out.append("\n");
        i += 1;
    }
    assert(all.take(i as int) =~= all);
    out
}

/// What the first entities of a list are shown as.
fn ref_sample(list: &Vec<EntityRef>) -> (r: Vec<String>)
    ensures
        crate::text::texts(r@) == sample_of(ref_displays(list@)),
{
    let mut out: Vec<String> = Vec::new();
    let mut i: usize = 0;
    while i < list.len() && i < SAMPLE_LIMIT
        invariant
            i <= list@.len(),
            i <= SAMPLE_LIMIT,
            out@.len() == i,
            forall|k: int| 0 <= k < i ==> (#[trigger] out@[k])@ == list@[k].display@,
        decreases list@.len() - i,
    {
        out.push(list[i].display.clone());
        i += 1;
    }
    assert(crate::text::texts(out@) =~= sample_of(ref_displays(list@)));
    out
}

/// What the first changed entities of a list are shown as.
fn change_sample(list: &Vec<SignatureChange>) -> (r: Vec<String>)
    ensures
        crate::text::texts(r@) == sample_of(change_displays(list@)),
{
    let mut out: Vec<String> = Vec::new();
    let mut i: usize = 0;
    while i < list.len() && i < SAMPLE_LIMIT
        invariant
            i <= list@.len(),
            i <= SAMPLE_LIMIT,
            out@.len() == i,
            forall|k: int| 0 <= k < i ==> (#[trigger] out@[k])@ == list@[k].display@,
        decreases list@.len() - i,
    {
        out.push(list[i].display.clone());
        i += 1;
    }
    assert(crate::text::texts(out@) =~= sample_of(change_displays(list@)));
    out
}

/// The note on how many entities a line leaves out.
fn format_rest(sign: &str, count: usize) -> (r: String)
    ensures
        r@ == rest_text(sign@, count as nat),
{
    if count > SAMPLE_LIMIT {
        let mut out = ", ... (".to_owned();
        out.append(sign);
        push_decimal(&mut out, (count - SAMPLE_LIMIT) as u64);
        out.append(")");
        out
    } else {
        String::new()
    }
}

/// The line that names entities under one heading.
fn format_detail(
    sign: &str,
    what: &str,
    count: usize,
    sample: &Vec<String>,
    Ghost(names): Ghost<Seq<Seq<char>>>,
) -> (r: String)
    requires
        count == names.len(),
        crate::text::texts(sample@) == sample_of(names),
    ensures
        r@ == detail_text(sign@, what@, names),
{
    if count == 0 {
        return String::new();
    }
    let mut out = "  ".to_owned();
    out.append(sign);
    push_decimal(&mut out, count as u64);
    out.append(" ");
    out.append(what);
    out.append(":  ");
    out.append(join(sample, ", ").as_str());
    out.append(format_rest(sign, count).as_str());
    out.append("\n");
    out
}

/// The note that hashes were not compared, or not on every row.
fn format_skip(d: &FamilyDelta) -> (r: String)
    ensures
        r@ == skip_text(*d),
{
    match &d.skip_reason {
        Some(reason) => {
            let mut out = if d.hash_compare_skipped {
                "  ! hash-level compare skipped: ".to_owned()
            } else {
                "  ! hash-level compare partial: ".to_owned()
            };
            out.append(reason.as_str());
            out.append("\n");
            out
        },
        None => String::new(),
    }
}

/// Appends a family's section.
pub fn format_family_text(out: &mut String, d: &FamilyDelta)
    ensures
        final(out)@ == old(out)@ + family_text(*d),
{
    let heading: &str = match Family::parse_slug(d.family) {
        Some(f) => f.label(),
        None => d.family,
    };
    let mut section = heading.to_owned();
    section.append(": +");
    push_decimal(&mut section, d.added.len() as u64);
    section.append(" -");
    push_decimal(&mut section, d.removed.len() as u64);
    section.append(" ~");
    push_decimal(&mut section, d.signature_changed.len() as u64);
    section.append(" = ");
    push_decimal(&mut section, d.unchanged as u64);
    section.append(" unchanged\n");
    let added = format_detail(
        "+",
        "added",
        d.added.len(),
        &ref_sample(&d.added),
        Ghost(ref_displays(d.added@)),
    );
    section.append(added.as_str());
    let removed = format_detail(
        "-",
        "removed",
        d.removed.len(),
        &ref_sample(&d.removed),
        Ghost(ref_displays(d.removed@)),
    );
    section.append(removed.as_str());
    let changed = format_detail(
        "~",
        "signature-changed",
        d.signature_changed.len(),
        &change_sample(&d.signature_changed),
        Ghost(change_displays(d.signature_changed@)),
    );
    section.append(changed.as_str());
    section.append(format_skip(d).as_str());
    out.append(section.as_str());
}

/// The line on the schema versions.
fn format_schema_line(before: Option<u32>, after: Option<u32>) -> (r: String)
    ensures
        r@ == schema_line(before, after),
{
    match (before, after) {
        (Some(bv), Some(av)) => {
            let mut out = "  schema: v".to_owned();
            push_decimal(&mut out, bv as u64);
            out.append(" (before) vs v");
            push_decimal(&mut out, av as u64);
            out.append(" (after)\n");
            out
        },
        _ => String::new(),
    }
}

/// The sections of all of the families.
fn format_families(deltas: &Vec<FamilyDelta>) -> (r: String)
    ensures
        r@ == families_text(deltas@),
{
    let mut out = String::new();
    let mut i: usize = 0;
    while i < deltas.len()
        invariant
            i <= deltas@.len(),
            out@ == families_text(deltas@.take(i as int)),
        decreases deltas@.len() - i,
    {
        assert(deltas@.take(i + 1).drop_last() =~= deltas@.take(i as int));
        format_family_text(&mut out, &deltas[i]);
        i += 1;
    }
    assert(deltas@.take(i as int) =~= deltas@);
    out
}

/// A headed list of lines; nothing if there are none.
fn format_block(heading: &str, prefix: &str, lines: &Vec<String>) -> (r: String)
    ensures
        r@ == block_text(heading@, prefix@, crate::text::texts(lines@)),
{
    if lines.is_empty() {
        String::new()
    } else {
        let mut out = heading.to_owned();
        out.append(format_prefixed(prefix, lines).as_str());
        out
    }
}

/// Renders a report as text.
pub fn format_text(report: &Report) -> (r: String)
    ensures
        r@ == report_text(*report),
{
    let mut out = "Comparing ".to_owned();
    out.append(report.before.label.as_str());
    out.append(" (before) vs ");
    out.append(report.after.label.as_str());
    out.append(" (after):\n");
    out.append(
        format_schema_line(report.before.schema_version, report.after.schema_version).as_str(),
    );
    out.append("\n");
    out.append(format_families(&report.families).as_str());
    out.append(format_block("\n", "WARNING: ", &report.warnings).as_str());
    out.append("\nSEMVER classification: ");
    out.append(report.semver.class.label());
    out.append(" (");
    out.append(report.semver.reason.as_str());
    out.append(")\n");
    out.append(format_block("Human gate:\n", "  - ", &report.human_gate).as_str());
    out
}

// ---------------------------------------------------------------------------
// Laws
// ---------------------------------------------------------------------------

/// A catalog compared with itself is rated a patch, with nothing for a human
/// to look at.
pub proof fn report_on_itself_is_a_patch(r: Report, cat: Catalog, filter: Seq<Family>)
    requires
        is_report(r, cat, cat, filter),
    ensures
        r.semver.class is Patch,
        r.human_gate@.len() == 0,
        forall|i: int|
            0 <= i < r.families@.len() ==> (#[trigger] r.families@[i]).added@.len() == 0
                && r.families@[i].removed@.len() == 0 && r.families@[i].signature_changed@.len()
                == 0,
{
    let fams = selected(filter);
    assert forall|i: int| 0 <= i < r.families@.len() implies (
    #[trigger] r.families@[i]).added@.len() == 0 && r.families@[i].removed@.len() == 0
        && r.families@[i].signature_changed@.len() == 0 by {
        crate::diff::no_difference_from_itself(fams[i], cat.families.of(fams[i]), r.families@[i]);
    }
    lemma_no_gate(fams, r.families@);
    assert(crate::text::texts(r.human_gate@).len() == 0);
}

/// Families without additions and signature changes ask nothing of a human.
proof fn lemma_no_gate(fams: Seq<Family>, deltas: Seq<FamilyDelta>)
    requires
        fams.len() == deltas.len(),
        forall|i: int|
            0 <= i < deltas.len() ==> (#[trigger] deltas[i]).added@.len() == 0
                && deltas[i].signature_changed@.len() == 0,
    ensures
        all_gate_lines(fams, deltas).len() == 0,
    decreases fams.len(),
{
    if fams.len() > 0 {
        assert forall|i: int| 0 <= i < deltas.drop_last().len() implies (
        #[trigger] deltas.drop_last()[i]).added@.len() == 0
            && deltas.drop_last()[i].signature_changed@.len() == 0 by {
            assert(deltas[i].added@.len() == 0);
        }
        lemma_no_gate(fams.drop_last(), deltas.drop_last());
        assert(deltas.last() == deltas[deltas.len() - 1]);
    }
}

/// A report is rated major exactly when some key of a reported family is gone
/// from the later catalog.
pub proof fn major_means_a_key_is_gone(
    r: Report,
    before: Catalog,
    after: Catalog,
    filter: Seq<Family>,
)
    requires
        is_report(r, before, after, filter),
    ensures
        r.semver.class is Major <==> exists|i: int, pk: Seq<char>|
            #![trigger selected(filter)[i], crate::diff::row_for(before.families.of(selected(filter)[i]).models(), pk)]
            0 <= i < selected(filter).len() && crate::diff::row_for(
                before.families.of(selected(filter)[i]).models(),
                pk,
            ) is Some && crate::diff::row_for(
                after.families.of(selected(filter)[i]).models(),
                pk,
            ) is None,
{
    let fams = selected(filter);
    if r.semver.class is Major {
        let i = choose|i: int| 0 <= i < r.families@.len() && (
        #[trigger] r.families@[i]).removed@.len() > 0;
        let d = r.families@[i];
        let keys = crate::diff::ref_keys(d.removed@);
        assert(keys.contains(keys[0]));
        assert(crate::diff::row_for(before.families.of(fams[i]).models(), keys[0]) is Some);
        assert(crate::diff::row_for(after.families.of(fams[i]).models(), keys[0]) is None);
    }
    assert forall|i: int, pk: Seq<char>|
        0 <= i < fams.len() && #[trigger] crate::diff::row_for(
            before.families.of(#[trigger] fams[i]).models(),
            pk,
        ) is Some && crate::diff::row_for(
            after.families.of(fams[i]).models(),
            pk,
        ) is None implies r.semver.class is Major by {
        let d = r.families@[i];
        let keys = crate::diff::ref_keys(d.removed@);
        assert(keys.contains(pk));
        assert(d.removed@.len() > 0);
    }
}

/// With an empty filter every family is reported, in order.
pub proof fn empty_filter_reports_every_family()
    ensures
        selected(Seq::empty()) == crate::catalog::all_families(),
{
    lemma_unfiltered(crate::catalog::all_families());
}

proof fn lemma_unfiltered(families: Seq<Family>)
    ensures
        selected_of(families, Seq::empty()) == families,
    decreases families.len(),
{
    if families.len() > 0 {
        lemma_unfiltered(families.drop_last());
        assert(families =~= families.drop_last().push(families.last()));
    } else {
        assert(families =~= Seq::empty());
    }
}

/// A filter of one family reports that family alone.
pub proof fn single_filter_reports_one_family(fam: Family)
    ensures
        selected(seq![fam]) == seq![fam],
{
    let filter = seq![fam];
    reveal_with_fuel(selected_of, 10);
    let all = crate::catalog::all_families();
    assert(filter.contains(fam)) by {
        assert(filter[0] == fam);
    }
    assert(forall|f: Family| filter.contains(f) ==> f == fam);
    assert(selected_of(all, filter) =~= seq![fam]);
}

/// A report covers exactly the families that the filter lets through, each
/// once.
pub proof fn filter_reports_its_families(filter: Seq<Family>)
    ensures
        selected(filter).no_duplicates(),
        forall|fam: Family| #[trigger]
            selected(filter).contains(fam) <==> filter.len() == 0 || filter.contains(fam),
{
    let all = crate::catalog::all_families();
    assert(all.no_duplicates());
    lemma_selected(all, filter);
    assert forall|fam: Family| #[trigger] all.contains(fam) by {
        let at: int = match fam {
            Family::Scalars => 0,
            Family::Aggregates => 1,
            Family::TableFunctions => 2,
            Family::WindowFunctions => 3,
            Family::ColumnTypes => 4,
            Family::Operators => 5,
            Family::CastRewrites => 6,
            Family::SpatialIndexes => 7,
            Family::PreprocessorPatterns => 8,
        };
        assert(all[at] == fam);
    }
    assert forall|fam: Family| #[trigger] selected(filter).contains(fam) <==> filter.len() == 0
        || filter.contains(fam) by {
        assert(all.contains(fam));
    }
}

proof fn lemma_selected(families: Seq<Family>, filter: Seq<Family>)
    requires
        families.no_duplicates(),
    ensures
        selected_of(families, filter).no_duplicates(),
        forall|fam: Family| #[trigger]
            selected_of(families, filter).contains(fam) <==> families.contains(fam) && (filter.len()
                == 0 || filter.contains(fam)),
    decreases families.len(),
{
    if families.len() > 0 {
        let front = families.drop_last();
        let last = families.last();
        lemma_selected(front, filter);
        let before = selected_of(front, filter);
        let after = selected_of(families, filter);
        assert forall|fam: Family| #[trigger] families.contains(fam) <==> front.contains(fam) || fam
            == last by {
            if families.contains(fam) {
                let i = choose|i: int| 0 <= i < families.len() && families[i] == fam;
                if i < front.len() {
                    assert(front[i] == fam);
                }
            }
            if front.contains(fam) {
                let i = choose|i: int| 0 <= i < front.len() && front[i] == fam;
                assert(families[i] == fam);
            }
            assert(families[families.len() - 1] == last);
        }
        assert(!front.contains(last)) by {
            if front.contains(last) {
                let i = choose|i: int| 0 <= i < front.len() && front[i] == last;
                assert(families[i] == families[families.len() - 1]);
            }
        }
        assert forall|fam: Family| #[trigger] after.contains(fam) <==> families.contains(fam) && (
        filter.len() == 0 || filter.contains(fam)) by {
            if after.contains(fam) {
                let i = choose|i: int| 0 <= i < after.len() && after[i] == fam;
                if i < before.len() {
                    assert(before[i] == fam);
                    assert(before.contains(fam));
                }
            }
            if before.contains(fam) {
                let i = choose|i: int| 0 <= i < before.len() && before[i] == fam;
                assert(after[i] == fam);
            }
            if after.len() > before.len() {
                assert(after[before.len() as int] == last);
            }
        }
        assert(!before.contains(last));
    }
}

/// The section of a family is headed by the family's label.
pub proof fn sections_are_headed_by_their_family(fam: Family)
    ensures
        heading_of(fam.slug_text()) == fam.label_text(),
{
    crate::catalog::canonical_names_are_understood(fam);
}

/// A filter lets a family through: it names the family, or names none at all.
pub open spec fn reports_on(filter: Seq<Family>, fam: Family) -> bool {
    filter.len() == 0 || exists|i: int| 0 <= i < filter.len() && #[trigger] filter[i] == fam
}

/// In some reported family a key of the first catalog is missing from the
/// second.
pub open spec fn missing_somewhere(first: Catalog, second: Catalog, filter: Seq<Family>) -> bool {
    exists|fam: Family| #[trigger]
        reports_on(filter, fam) && crate::diff::some_key_is_missing(
            first.families.of(fam),
            second.families.of(fam),
        )
}

/// In some reported family a key of both catalogs has two different hashes that
/// are compared.
pub open spec fn differing_somewhere(before: Catalog, after: Catalog, filter: Seq<Family>) -> bool {
    exists|fam: Family| #[trigger]
        reports_on(filter, fam) && crate::diff::some_hash_differs(
            before.families.of(fam),
            after.families.of(fam),
        )
}

proof fn lemma_reported(filter: Seq<Family>, fam: Family)
    ensures
        reports_on(filter, fam) <==> selected(filter).contains(fam),
{
    filter_reports_its_families(filter);
    if filter.contains(fam) {
        let i = choose|i: int| 0 <= i < filter.len() && filter[i] == fam;
        assert(filter[i] == fam);
    }
}

/// The rating, over the two catalogs: major exactly if some reported family lost
/// a key; where none did, changes are flagged exactly if some key of a reported
/// family is on both sides with two different hashes that are compared; where
/// there is neither, minor exactly if some reported family gained a key; and a
/// patch only if no reported family has a key that is added, removed or changed.
pub proof fn ratings_follow_from_the_catalogs(
    before: &Catalog,
    after: &Catalog,
    filter: &[Family],
    r: Report,
)
    requires
        call_ensures(build_report, (before, after, filter), r),
    ensures
        r.semver.class is Major <==> missing_somewhere(*before, *after, filter@),
        r.semver.class is MinorWithChanges <==> !missing_somewhere(*before, *after, filter@)
            && differing_somewhere(*before, *after, filter@),
        r.semver.class is Minor <==> !missing_somewhere(*before, *after, filter@)
            && !differing_somewhere(*before, *after, filter@) && missing_somewhere(
            *after,
            *before,
            filter@,
        ),
        r.semver.class is Patch <==> !missing_somewhere(*before, *after, filter@)
            && !differing_somewhere(*before, *after, filter@) && !missing_somewhere(
            *after,
            *before,
            filter@,
        ),
{
    let fams = selected(filter@);
    let deltas = r.families@;
    assert forall|i: int| 0 <= i < deltas.len() implies {
        let d = #[trigger] deltas[i];
        let b = before.families.of(fams[i]);
        let a = after.families.of(fams[i]);
        &&& reports_on(filter@, fams[i])
        &&& (d.added@.len() > 0 <==> crate::diff::some_key_is_missing(a, b))
        &&& (d.removed@.len() > 0 <==> crate::diff::some_key_is_missing(b, a))
        &&& (d.signature_changed@.len() > 0 <==> crate::diff::some_hash_differs(b, a))
    } by {
        let b = before.families.of(fams[i]);
        let a = after.families.of(fams[i]);
        crate::diff::lists_are_filled_exactly_when_called_for(fams[i], b, a, deltas[i]);
        assert(fams.contains(fams[i]));
        lemma_reported(filter@, fams[i]);
    }
    assert forall|fam: Family| #[trigger] reports_on(filter@, fam) implies exists|i: int|
        0 <= i < deltas.len() && #[trigger] fams[i] == fam by {
        lemma_reported(filter@, fam);
        let i = choose|i: int| 0 <= i < fams.len() && fams[i] == fam;
        assert(0 <= i < deltas.len() && fams[i] == fam);
    }
    assert(crate::diff::any_removed(deltas) <==> missing_somewhere(*before, *after, filter@)) by {
        if crate::diff::any_removed(deltas) {
            let i = choose|i: int|
                0 <= i < deltas.len() && (#[trigger] deltas[i]).removed@.len() > 0;
            assert(reports_on(filter@, fams[i]));
        }
        if missing_somewhere(*before, *after, filter@) {
            let fam = choose|fam: Family| #[trigger]
                reports_on(filter@, fam) && crate::diff::some_key_is_missing(
                    before.families.of(fam),
                    after.families.of(fam),
                );
            let i = choose|i: int| 0 <= i < deltas.len() && #[trigger] fams[i] == fam;
            assert(deltas[i].removed@.len() > 0);
        }
    }
    assert(crate::diff::any_added(deltas) <==> missing_somewhere(*after, *before, filter@)) by {
        if crate::diff::any_added(deltas) {
            let i = choose|i: int| 0 <= i < deltas.len() && (#[trigger] deltas[i]).added@.len() > 0;
            assert(reports_on(filter@, fams[i]));
        }
        if missing_somewhere(*after, *before, filter@) {
            let fam = choose|fam: Family| #[trigger]
                reports_on(filter@, fam) && crate::diff::some_key_is_missing(
                    after.families.of(fam),
                    before.families.of(fam),
                );
            let i = choose|i: int| 0 <= i < deltas.len() && #[trigger] fams[i] == fam;
            assert(deltas[i].added@.len() > 0);
        }
    }
    assert(crate::diff::any_signature_changed(deltas) <==> differing_somewhere(
        *before,
        *after,
        filter@,
    )) by {
        if crate::diff::any_signature_changed(deltas) {
            let i = choose|i: int|
                0 <= i < deltas.len() && (#[trigger] deltas[i]).signature_changed@.len() > 0;
            assert(reports_on(filter@, fams[i]));
        }
        if differing_somewhere(*before, *after, filter@) {
            let fam = choose|fam: Family| #[trigger]
                reports_on(filter@, fam) && crate::diff::some_hash_differs(
                    before.families.of(fam),
                    after.families.of(fam),
                );
            let i = choose|i: int| 0 <= i < deltas.len() && #[trigger] fams[i] == fam;
            assert(deltas[i].signature_changed@.len() > 0);
        }
    }
}

/// A report holds one difference for each family that is reported, under the
/// family's name, and it is one that comparing the rows of that family alone can
/// come to.
pub proof fn every_reported_family_is_compared(
    before: &Catalog,
    after: &Catalog,
    filter: &[Family],
    r: Report,
    fam: Family,
)
    requires
        call_ensures(build_report, (before, after, filter), r),
    ensures
        reports_on(filter@, fam) ==> exists|i: int|
            0 <= i < r.families@.len() && (#[trigger] r.families@[i]).family@ == fam.slug_text()
                && crate::diff::is_delta(
                r.families@[i],
                fam,
                before.families.of(fam),
                after.families.of(fam),
            ),
        !reports_on(filter@, fam) ==> forall|i: int|
            0 <= i < r.families@.len() ==> (#[trigger] r.families@[i]).family@ != fam.slug_text(),
        forall|i: int, j: int|
            0 <= i < j < r.families@.len() ==> (#[trigger] r.families@[i]).family@ != (
            #[trigger] r.families@[j]).family@,
{
    let fams = selected(filter@);
    lemma_reported(filter@, fam);
    filter_reports_its_families(filter@);
    if reports_on(filter@, fam) {
        let i = choose|i: int| 0 <= i < fams.len() && fams[i] == fam;
        assert(r.families@[i].family@ == fam.slug_text());
    }
    assert forall|i: int| 0 <= i < r.families@.len() implies (#[trigger] r.families@[i]).family@
        == fams[i].slug_text() by {}
    if !reports_on(filter@, fam) {
        assert forall|i: int| 0 <= i < r.families@.len() implies (
        #[trigger] r.families@[i]).family@ != fam.slug_text() by {
            assert(fams.contains(fams[i]));
            crate::catalog::family_names_differ(fams[i], fam);
        }
    }
    assert forall|i: int, j: int| 0 <= i < j < r.families@.len() implies (
    #[trigger] r.families@[i]).family@ != (#[trigger] r.families@[j]).family@ by {
        crate::catalog::family_names_differ(fams[i], fams[j]);
    }
}

/// A report says of each side what the catalog of that side says, and rates with
/// the reason of its rating.
pub proof fn sides_are_summed_up(before: &Catalog, after: &Catalog, filter: &[Family], r: Report)
    requires
        call_ensures(build_report, (before, after, filter), r),
    ensures
        r.before.label@ == before.display_label@,
        r.before.extension@ == before.extension@,
        r.before.version@ == before.version@,
        r.before.schema_version == before.schema_version,
        r.before.source_path@ == before.source_path@,
        r.after.label@ == after.display_label@,
        r.after.extension@ == after.extension@,
        r.after.version@ == after.version@,
        r.after.schema_version == after.schema_version,
        r.after.source_path@ == after.source_path@,
        forall|reason: &'static str|
            call_ensures(Semver::reason, (r.semver.class,), reason) ==> r.semver.reason@
                == #[trigger] reason@,
{
}

/// A side is a database of a schema before the one that carries every hash.
pub open spec fn is_old(cat: Catalog) -> bool {
    cat.schema_version is Some && cat.schema_version->0 < 4
}

/// How many of some conditions hold.
pub open spec fn count_of(a: bool, b: bool, c: bool, d: bool) -> nat {
    (if a {
        1nat
    } else {
        0
    }) + (if b {
        1nat
    } else {
        0
    }) + (if c {
        1nat
    } else {
        0
    }) + (if d {
        1nat
    } else {
        0
    })
}

/// A text begins with another.
pub open spec fn begins_with(text: Seq<char>, start: Seq<char>) -> bool {
    start.len() <= text.len() && text.take(start.len() as int) == start
}

proof fn lemma_begins(start: Seq<char>, rest: Seq<char>)
    ensures
        begins_with(start + rest, start),
{
    assert((start + rest).take(start.len() as int) =~= start);
}

/// There is one warning for each of the two sides that is too old, one if the
/// extensions differ and one if the kinds of source do, in this order, and no
/// other. Each names what it is about.
pub proof fn warnings_are_called_for(
    before: &Catalog,
    after: &Catalog,
    filter: &[Family],
    r: Report,
)
    requires
        call_ensures(build_report, (before, after, filter), r),
    ensures
        ({
            let old_before = is_old(*before);
            let old_after = is_old(*after);
            let mismatch = before.extension@ != after.extension@;
            let mixed = before.source_kind != after.source_kind;
            let w = r.warnings@;
            &&& w.len() == count_of(old_before, old_after, mismatch, mixed)
            &&& old_before ==> begins_with(
                w[0]@,
                "before"@ + " DB is at schema v"@ + crate::text::decimal(
                    before.schema_version->0 as nat,
                ),
            )
            &&& old_after ==> begins_with(
                w[count_of(old_before, false, false, false) as int]@,
                "after"@ + " DB is at schema v"@ + crate::text::decimal(
                    after.schema_version->0 as nat,
                ),
            )
            &&& mismatch ==> begins_with(
                w[count_of(old_before, old_after, false, false) as int]@,
                "extension mismatch: before='"@ + before.extension@ + "' vs after='"@
                    + after.extension@,
            )
            &&& mixed ==> begins_with(
                w[count_of(old_before, old_after, mismatch, false) as int]@,
                "mixed input formats (before="@ + before.source_kind.label_text() + ", after="@
                    + after.source_kind.label_text(),
            )
        }),
{
    let all = warnings_on(*before, *after);
    let a = schema_warnings("before"@, before.schema_version);
    let b = schema_warnings("after"@, after.schema_version);
    let c = extension_warnings(before.extension@, after.extension@);
    let d = format_warnings(before.source_kind, after.source_kind);
    let old_before = is_old(*before);
    let old_after = is_old(*after);
    let mismatch = before.extension@ != after.extension@;
    let mixed = before.source_kind != after.source_kind;
    assert(all == a + b + c + d);
    assert(all.len() == a.len() + b.len() + c.len() + d.len());
    assert(crate::text::texts(r.warnings@).len() == r.warnings@.len());
    assert forall|i: int| 0 <= i < r.warnings@.len() implies #[trigger] r.warnings@[i]@
        == all[i] by {
        assert(crate::text::texts(r.warnings@)[i] == r.warnings@[i]@);
    }
    if old_before {
        assert(all[0] == a[0]);
        lemma_begins(
            "before"@ + " DB is at schema v"@ + crate::text::decimal(
                before.schema_version->0 as nat,
            ),
            " (< v4); five of the nine families won't carry signature_hash — compare falls back to name-only for those. Apply B4 to enable hash-level diff."@,
        );
    }
    if old_after {
        assert(all[a.len() as int] == b[0]);
        lemma_begins(
            "after"@ + " DB is at schema v"@ + crate::text::decimal(after.schema_version->0 as nat),
            " (< v4); five of the nine families won't carry signature_hash — compare falls back to name-only for those. Apply B4 to enable hash-level diff."@,
        );
    }
    if mismatch {
        assert(all[(a.len() + b.len()) as int] == c[0]);
        lemma_begins(
            "extension mismatch: before='"@ + before.extension@ + "' vs after='"@
                + after.extension@,
            "' — diffing anyway, but PK collisions between different extensions may look like additions/removals rather than the extension swap they are."@,
        );
    }
    if mixed {
        assert(all[(a.len() + b.len() + c.len()) as int] == d[0]);
        lemma_begins(
            "mixed input formats (before="@ + before.source_kind.label_text() + ", after="@
                + after.source_kind.label_text(),
            ") — compound-keyed families (operators, casts, types) use different PK renderings per format, so the diff will show them as removed-and-re-added. Compare like formats to avoid the noise."@,
        );
    }
}

/// The lines of a family that a human has to look at: one if keys were added and
/// one if signatures changed, each with how many there are; removals ask for
/// none.
pub proof fn gates_ask_for_additions_and_changes(fam: Family, d: FamilyDelta)
    ensures
        gate_lines(fam, d).len() == count_of(
            d.added@.len() > 0,
            d.signature_changed@.len() > 0,
            false,
            false,
        ),
        d.added@.len() > 0 ==> begins_with(
            gate_lines(fam, d)[0],
            crate::text::decimal(d.added@.len()) + " new "@,
        ),
        d.signature_changed@.len() > 0 ==> begins_with(
            gate_lines(fam, d).last(),
            crate::text::decimal(d.signature_changed@.len()) + " "@ + crate::text::ascii_lowered(
                fam.label_text(),
            ) + " with changed signatures"@,
        ),
{
    let what = crate::text::ascii_lowered(fam.label_text());
    reveal_strlit(" with changed signatures");
    reveal_strlit(" need re-verification");
    reveal_strlit(" with changed signatures need re-verification");
    assert(" with changed signatures need re-verification"@ =~= " with changed signatures"@
        + " need re-verification"@);
    let first = crate::text::decimal(d.added@.len()) + " new "@;
    assert(first + what + " need test cases"@ =~= first + (what + " need test cases"@));
    lemma_begins(first, what + " need test cases"@);
    let second = crate::text::decimal(d.signature_changed@.len()) + " "@ + what;
    assert(second + " with changed signatures need re-verification"@ =~= (second
        + " with changed signatures"@) + " need re-verification"@);
    lemma_begins(second + " with changed signatures"@, " need re-verification"@);
}

/// What a human has to look at are the lines of each reported family, family by
/// family.
pub proof fn gates_are_gathered_family_by_family(
    fams: Seq<Family>,
    deltas: Seq<FamilyDelta>,
    fam: Family,
    d: FamilyDelta,
)
    requires
        fams.len() == deltas.len(),
    ensures
        all_gate_lines(Seq::empty(), Seq::empty()) == Seq::<Seq<char>>::empty(),
        all_gate_lines(fams.push(fam), deltas.push(d)) == all_gate_lines(fams, deltas) + gate_lines(
            fam,
            d,
        ),
{
    assert(fams.push(fam).drop_last() =~= fams);
    assert(deltas.push(d).drop_last() =~= deltas);
}

/// A text report begins with what is compared, the earlier side first, and with
/// the schemas of the two sides in the same order where both are known.
pub proof fn reports_begin_with_the_sides(report: &Report, r: String)
    requires
        call_ensures(format_text, (report,), r),
    ensures
        begins_with(
            r@,
            "Comparing "@ + report.before.label@ + " (before) vs "@ + report.after.label@
                + " (after):\n"@,
        ),
        report.before.schema_version is Some && report.after.schema_version is Some ==> begins_with(
            r@,
            "Comparing "@ + report.before.label@ + " (before) vs "@ + report.after.label@
                + " (after):\n"@ + ("  schema: v"@ + crate::text::decimal(
                report.before.schema_version->0 as nat,
            ) + " (before) vs v"@ + crate::text::decimal(report.after.schema_version->0 as nat)
                + " (after)\n"@),
        ),
        report.before.schema_version is None || report.after.schema_version is None ==> begins_with(
            r@,
            "Comparing "@ + report.before.label@ + " (before) vs "@ + report.after.label@
                + " (after):\n"@ + "\n"@,
        ),
{
    let first = "Comparing "@ + report.before.label@ + " (before) vs "@ + report.after.label@
        + " (after):\n"@;
    let schema = schema_line(report.before.schema_version, report.after.schema_version);
    lemma_begins(first, schema);
    lemma_report_begins(*report, first, first);
    lemma_report_begins(*report, first, first + schema);
    lemma_report_begins(*report, first, first + schema + "\n"@);
    if report.before.schema_version is None || report.after.schema_version is None {
        assert(first + schema =~= first);
    }
}

proof fn lemma_still_begins(text: Seq<char>, more: Seq<char>, start: Seq<char>)
    requires
        begins_with(text, start),
    ensures
        begins_with(text + more, start),
{
    assert((text + more).take(start.len() as int) =~= text.take(start.len() as int));
}

proof fn lemma_report_begins(r: Report, first: Seq<char>, start: Seq<char>)
    requires
        first == "Comparing "@ + r.before.label@ + " (before) vs "@ + r.after.label@
            + " (after):\n"@,
        start == first || start == first + schema_line(
            r.before.schema_version,
            r.after.schema_version,
        ) || start == first + schema_line(r.before.schema_version, r.after.schema_version) + "\n"@,
    ensures
        begins_with(report_text(r), start),
{
    let schema = schema_line(r.before.schema_version, r.after.schema_version);
    let t1 = first + schema;
    let t2 = t1 + "\n"@;
    let t3 = t2 + families_text(r.families@);
    let t4 = t3 + block_text("\n"@, "WARNING: "@, crate::text::texts(r.warnings@));
    let t5 = t4 + "\nSEMVER classification: "@;
    let t6 = t5 + r.semver.class.label_text();
    let t7 = t6 + " ("@;
    let t8 = t7 + r.semver.reason@;
    let t9 = t8 + ")\n"@;
    if start == first {
        lemma_begins(first, schema);
        lemma_still_begins(t1, "\n"@, start);
    } else if start == t1 {
        lemma_begins(t1, "\n"@);
    } else {
        assert(t2.take(t2.len() as int) =~= t2);
    }
    lemma_still_begins(t2, families_text(r.families@), start);
    lemma_still_begins(
        t3,
        block_text("\n"@, "WARNING: "@, crate::text::texts(r.warnings@)),
        start,
    );
    lemma_still_begins(t4, "\nSEMVER classification: "@, start);
    lemma_still_begins(t5, r.semver.class.label_text(), start);
    lemma_still_begins(t6, " ("@, start);
    lemma_still_begins(t7, r.semver.reason@, start);
    lemma_still_begins(t8, ")\n"@, start);
    lemma_still_begins(
        t9,
        block_text("Human gate:\n"@, "  - "@, crate::text::texts(r.human_gate@)),
        start,
    );
}

/// A text report ends with the rating and its reason, and behind them, if there
/// is anything to do, with what a human has to look at, each on a line of its own.
pub proof fn reports_end_with_the_rating(report: &Report, r: String)
    requires
        call_ensures(format_text, (report,), r),
    ensures
        crate::walker::ends_with(
            r@,
            "\nSEMVER classification: "@ + report.semver.class.label_text() + " ("@
                + report.semver.reason@ + ")\n"@ + if report.human_gate@.len() == 0 {
                Seq::empty()
            } else {
                "Human gate:\n"@ + prefixed_lines("  - "@, crate::text::texts(report.human_gate@))
            },
        ),
{
    let front = "Comparing "@ + report.before.label@ + " (before) vs "@ + report.after.label@
        + " (after):\n"@ + schema_line(report.before.schema_version, report.after.schema_version)
        + "\n"@ + families_text(report.families@) + block_text(
        "\n"@,
        "WARNING: "@,
        crate::text::texts(report.warnings@),
    );
    let end = "\nSEMVER classification: "@ + report.semver.class.label_text() + " ("@
        + report.semver.reason@ + ")\n"@ + if report.human_gate@.len() == 0 {
        Seq::empty()
    } else {
        "Human gate:\n"@ + prefixed_lines("  - "@, crate::text::texts(report.human_gate@))
    };
    assert(crate::text::texts(report.human_gate@).len() == report.human_gate@.len());
    let gate = block_text("Human gate:\n"@, "  - "@, crate::text::texts(report.human_gate@));
    let e1 = "\nSEMVER classification: "@;
    let e2 = e1 + report.semver.class.label_text();
    let e3 = e2 + " ("@;
    let e4 = e3 + report.semver.reason@;
    let e5 = e4 + ")\n"@;
    assert(end == e5 + gate);
    lemma_regrouped(front, e1, report.semver.class.label_text());
    lemma_regrouped(front, e2, " ("@);
    lemma_regrouped(front, e3, report.semver.reason@);
    lemma_regrouped(front, e4, ")\n"@);
    lemma_regrouped(front, e5, gate);
    assert(r@ == front + end);
}

proof fn lemma_regrouped(a: Seq<char>, b: Seq<char>, c: Seq<char>)
    ensures
        (a + b) + c == a + (b + c),
{
    assert((a + b) + c =~= a + (b + c));
}

/// Lines come one after the other, each behind its prefix, and families section
/// by section.
pub proof fn lines_and_sections_come_in_order(
    prefix: Seq<char>,
    lines: Seq<Seq<char>>,
    line: Seq<char>,
    deltas: Seq<FamilyDelta>,
    d: FamilyDelta,
)
    ensures
        prefixed_lines(prefix, Seq::empty()) == Seq::<char>::empty(),
        prefixed_lines(prefix, lines.push(line)) == prefixed_lines(prefix, lines) + prefix + line
            + "\n"@,
        families_text(Seq::empty()) == Seq::<char>::empty(),
        families_text(deltas.push(d)) == families_text(deltas) + family_text(d),
        lines.len() == 0 <==> block_text(line + "\n"@, prefix, lines) == Seq::<char>::empty(),
{
    assert(lines.push(line).drop_last() =~= lines);
    assert(deltas.push(d).drop_last() =~= deltas);
    reveal_strlit("\n");
    if lines.len() > 0 {
        assert(block_text(line + "\n"@, prefix, lines).len() > 0);
    }
}

/// The section of a family begins with its heading and how many keys were added,
/// removed, changed and left, each under its own sign.
pub proof fn sections_begin_with_their_counts(d: FamilyDelta, fam: Family)
    requires
        d.family@ == fam.slug_text(),
    ensures
        begins_with(
            family_text(d),
            fam.label_text() + ": +"@ + crate::text::decimal(d.added@.len()) + " -"@
                + crate::text::decimal(d.removed@.len()) + " ~"@ + crate::text::decimal(
                d.signature_changed@.len(),
            ) + " = "@ + crate::text::decimal(d.unchanged as nat) + " unchanged\n"@,
        ),
{
    sections_are_headed_by_their_family(fam);
    let counts = fam.label_text() + ": +"@ + crate::text::decimal(d.added@.len()) + " -"@
        + crate::text::decimal(d.removed@.len()) + " ~"@ + crate::text::decimal(
        d.signature_changed@.len(),
    ) + " = "@ + crate::text::decimal(d.unchanged as nat) + " unchanged\n"@;
    let a = detail_text("+"@, "added"@, ref_displays(d.added@));
    let b = detail_text("-"@, "removed"@, ref_displays(d.removed@));
    let c = detail_text("~"@, "signature-changed"@, change_displays(d.signature_changed@));
    lemma_begins(counts, a);
    lemma_still_begins(counts + a, b, counts);
    lemma_still_begins(counts + a + b, c, counts);
    lemma_still_begins(counts + a + b + c, skip_text(d), counts);
}

/// A line names the first entities of a list, at most twenty, and says how many
/// it leaves out.
pub proof fn samples_are_cut_at_the_limit(sign: Seq<char>, names: Seq<Seq<char>>)
    ensures
        names.len() <= 20 ==> sample_of(names) == names && rest_text(sign, names.len()).len() == 0,
        names.len() > 20 ==> sample_of(names) == names.take(20) && rest_text(sign, names.len())
            == ", ... ("@ + sign + crate::text::decimal((names.len() - 20) as nat) + ")"@,
{
}

/// Behind the counts, a section names what was added, removed and changed, in this
/// order and each under its own sign, and ends with the note on hashes.
pub proof fn sections_name_what_differs(d: FamilyDelta)
    ensures
        crate::walker::ends_with(
            family_text(d),
            detail_text("+"@, "added"@, ref_displays(d.added@)) + detail_text(
                "-"@,
                "removed"@,
                ref_displays(d.removed@),
            ) + detail_text("~"@, "signature-changed"@, change_displays(d.signature_changed@))
                + skip_text(d),
        ),
{
    let counts = heading_of(d.family@) + ": +"@ + crate::text::decimal(d.added@.len()) + " -"@
        + crate::text::decimal(d.removed@.len()) + " ~"@ + crate::text::decimal(
        d.signature_changed@.len(),
    ) + " = "@ + crate::text::decimal(d.unchanged as nat) + " unchanged\n"@;
    let a = detail_text("+"@, "added"@, ref_displays(d.added@));
    let b = detail_text("-"@, "removed"@, ref_displays(d.removed@));
    let c = detail_text("~"@, "signature-changed"@, change_displays(d.signature_changed@));
    lemma_regrouped(counts, a, b);
    lemma_regrouped(counts, a + b, c);
    lemma_regrouped(counts, a + b + c, skip_text(d));
    assert(family_text(d) == counts + (a + b + c + skip_text(d)));
}

/// A section has a note on hashes exactly if there is a reason for one. The note
/// gives the reason, and tells a comparison that was left out from one that was
/// made in part.
pub proof fn notes_give_the_reason(d: FamilyDelta)
    ensures
        d.skip_reason is None <==> skip_text(d).len() == 0,
        d.skip_reason is Some && d.hash_compare_skipped ==> skip_text(d)
            == "  ! hash-level compare skipped: "@ + d.skip_reason->0@ + "\n"@,
        d.skip_reason is Some && !d.hash_compare_skipped ==> skip_text(d)
            == "  ! hash-level compare partial: "@ + d.skip_reason->0@ + "\n"@,
{
    reveal_strlit("\n");
}

/// A line of details begins with the sign, the full count and what became of the
/// entities; there is none where there are no entities.
pub proof fn details_begin_with_the_count(
    sign: Seq<char>,
    what: Seq<char>,
    names: Seq<Seq<char>>,
)
    ensures
        names.len() == 0 <==> detail_text(sign, what, names).len() == 0,
        names.len() > 0 ==> begins_with(
            detail_text(sign, what, names),
            "  "@ + sign + crate::text::decimal(names.len()) + " "@ + what + ":  "@,
        ),
        names.len() > 0 ==> crate::walker::ends_with(
            detail_text(sign, what, names),
            crate::text::joined(sample_of(names), ", "@) + rest_text(sign, names.len()) + "\n"@,
        ),
{
    if names.len() > 0 {
        let start = "  "@ + sign + crate::text::decimal(names.len()) + " "@ + what + ":  "@;
        let list = crate::text::joined(sample_of(names), ", "@);
        let rest = rest_text(sign, names.len());
        lemma_begins(start, list);
        lemma_still_begins(start + list, rest, start);
        lemma_still_begins(start + list + rest, "\n"@, start);
        lemma_regrouped(start, list, rest);
        lemma_regrouped(start, list + rest, "\n"@);
        reveal_strlit("\n");
        assert(detail_text(sign, what, names) == start + (list + rest + "\n"@));
    }
}

} // verus!
