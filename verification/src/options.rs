//! Decisions of the comparison tool: which families to report, in which
//! formats, from which kind of source, and whether the run fails.
use vstd::prelude::*;
use vstd::string::StringExecFns;

use crate::catalog::{Family, SourceKind};
use crate::diff::Semver;
use crate::text::{ascii_lowercase, str_eq};

verus! {

// ---------------------------------------------------------------------------
// Families to report
// ---------------------------------------------------------------------------

/// The families that a list of names stands for, or the first name that
/// stands for none.
pub open spec fn families_named(names: Seq<Seq<char>>) -> Result<Seq<Family>, Seq<char>>
    decreases names.len(),
{
    if names.len() == 0 {
        Ok(Seq::empty())
    } else {
        match families_named(names.drop_last()) {
            Err(unknown) => Err(unknown),
            Ok(families) => match crate::catalog::family_named(
                crate::text::ascii_lowered(crate::text::trimmed(names.last())),
            ) {
                Some(f) => Ok(families.push(f)),
                None => Err(names.last()),
            },
        }
    }
}

/// A name that has failed stays the answer for every longer list.
proof fn lemma_unknown_stays(names: Seq<Seq<char>>, n: int)
    requires
        0 <= n <= names.len(),
        families_named(names.take(n)) is Err,
    ensures
        families_named(names) == families_named(names.take(n)),
    decreases names.len() - n,
{
    if n < names.len() {
        assert(names.take(n + 1).drop_last() =~= names.take(n));
        lemma_unknown_stays(names, n + 1);
    } else {
        assert(names.take(n) =~= names);
    }
}

/// The families that a list of names stands for; an error message that quotes
/// the first name that stands for none.
pub fn entity_filter(names: &[String]) -> (r: Result<Vec<Family>, String>)
    ensures
        match families_named(crate::text::texts(names@)) {
            Ok(families) => r is Ok && r->Ok_0@ == families,
            Err(unknown) => r is Err && r->Err_0@ == "unknown --entity-filter value: "@ + unknown,
        },
{
    let ghost all = crate::text::texts(names@);
    let mut families: Vec<Family> = Vec::new();
    let mut i: usize = 0;
    while i < names.len()
        invariant
            i <= names@.len(),
            all == crate::text::texts(names@),
            families_named(all.take(i as int)) == Ok::<Seq<Family>, Seq<char>>(families@),
        decreases names@.len() - i,
    {
        assert(all.take(i + 1).drop_last() =~= all.take(i as int));
        assert(all.take(i + 1).last() == names@[i as int]@);
        match Family::parse_slug(names[i].as_str()) {
            Some(f) => {
                families.push(f);
            },
            None => {
                let mut message = "unknown --entity-filter value: ".to_owned();
                message.append(names[i].as_str());
                proof {
                    lemma_unknown_stays(all, i + 1);
                }
                return Err(message);
            },
        }
        i += 1;
    }
    assert(all.take(i as int) =~= all);
    Ok(families)
}

// ---------------------------------------------------------------------------
// Output
// ---------------------------------------------------------------------------

/// The formats that a run emits.
#[derive(Clone, Copy, Debug, PartialEq, Eq, Structural)]
pub enum OutputFormat {
    Text,
    Json,
    Both,
}

/// The format that a run has, before it is known whether it can be emitted:
/// the one asked for, or else the one that the output files imply.
pub open spec fn implied_format(
    requested: Option<OutputFormat>,
    text_out: bool,
    json_out: bool,
) -> OutputFormat {
    match requested {
        Some(format) => format,
        None => if text_out && json_out {
            OutputFormat::Both
        } else if json_out {
            OutputFormat::Json
        } else {
            OutputFormat::Text
        },
    }
}

/// The format that a run emits. Both formats at once need a file each, since
/// one stream cannot carry two.
pub fn effective_format(
    requested: Option<OutputFormat>,
    text_out: bool,
    json_out: bool,
) -> (r: Result<OutputFormat, &'static str>)
    ensures
        ({
            let format = implied_format(requested, text_out, json_out);
            if format is Both && !(text_out && json_out) {
                r is Err && r->Err_0@
                    == "--output-format=both requires both --text-out and --json-out (stdout cannot carry two formats simultaneously)"@
            } else {
                r == Ok::<OutputFormat, &'static str>(format)
            }
        }),
{
    let format = match requested {
        Some(f) => f,
        None => match (text_out, json_out) {
            (true, true) => OutputFormat::Both,
            (true, false) => OutputFormat::Text,
            (false, true) => OutputFormat::Json,
            (false, false) => OutputFormat::Text,
        },
    };
    if format == OutputFormat::Both && (!text_out || !json_out) {
        return Err(
            "--output-format=both requires both --text-out and --json-out (stdout cannot carry two formats simultaneously)",
        );
    }
    Ok(format)
}

impl OutputFormat {
    /// Whether the text report is emitted.
    pub fn wants_text(self) -> (r: bool)
        ensures
            r == (self is Text || self is Both),
    {
        match self {
            OutputFormat::Text => true,
            OutputFormat::Both => true,
            OutputFormat::Json => false,
        }
    }

    /// Whether the structured report is emitted.
    pub fn wants_json(self) -> (r: bool)
        ensures
            r == (self is Json || self is Both),
    {
        match self {
            OutputFormat::Json => true,
            OutputFormat::Both => true,
            OutputFormat::Text => false,
        }
    }
}

/// Whether a run passes: it fails on removals, so that a pipeline can gate on
/// them without reading the report.
pub fn gate(class: Semver) -> (r: Result<(), &'static str>)
    ensures
        r is Err <==> class is Major,
        r is Err ==> r->Err_0@ == "MAJOR — removals detected (see report)"@,
{
    match class {
        Semver::Major => Err("MAJOR — removals detected (see report)"),
        _ => Ok(()),
    }
}

// ---------------------------------------------------------------------------
// Input
// ---------------------------------------------------------------------------

/// The kind of source behind a file: a TOML catalog if the file name's
/// extension is `toml` in any ASCII case, a database otherwise.
pub fn source_kind(extension: Option<&str>) -> (r: SourceKind)
    ensures
        r is Toml <==> extension is Some && crate::text::ascii_lowered(extension->0@) == "toml"@,
{
    match extension {
        Some(ext) => {
            if str_eq(ascii_lowercase(ext).as_str(), "toml") {
                SourceKind::Toml
            } else {
                SourceKind::Sqlite
            }
        },
        None => SourceKind::Sqlite,
    }
}

// ---------------------------------------------------------------------------
// Laws
// ---------------------------------------------------------------------------

/// The family that a name stands for as it is given: in any ASCII case, with
/// white space around it.
pub open spec fn family_of(name: Seq<char>) -> Option<Family> {
    crate::catalog::family_named(crate::text::ascii_lowered(crate::text::trimmed(name)))
}

/// A filter is understood exactly if each of its names is, and lists the families
/// of the names in order; otherwise the first name that is not understood is
/// quoted.
pub proof fn filters_are_understood_name_by_name(
    names: &[String],
    r: Result<Vec<Family>, String>,
    at: int,
)
    requires
        call_ensures(entity_filter, (names,), r),
    ensures
        r is Ok <==> forall|i: int|
            0 <= i < names@.len() ==> family_of((#[trigger] names@[i])@) is Some,
        r is Ok ==> r->Ok_0@.len() == names@.len() && forall|i: int|
            0 <= i < names@.len() ==> family_of((#[trigger] names@[i])@) == Some(r->Ok_0@[i]),
        0 <= at < names@.len() && family_of(names@[at]@) is None && (forall|i: int|
            0 <= i < at ==> family_of((#[trigger] names@[i])@) is Some) ==> r is Err && r->Err_0@
            == "unknown --entity-filter value: "@ + names@[at]@,
{
    let all = crate::text::texts(names@);
    assert(all.len() == names@.len());
    assert forall|i: int| 0 <= i < names@.len() implies #[trigger] all[i] == names@[i]@ by {}
    lemma_families_named(all);
    if forall|i: int| 0 <= i < names@.len() ==> family_of((#[trigger] names@[i])@) is Some {
        assert forall|i: int| 0 <= i < all.len() implies family_of(#[trigger] all[i]) is Some by {
            assert(family_of(names@[i]@) is Some);
        }
    }
    if families_named(all) is Ok {
        assert forall|i: int| 0 <= i < names@.len() implies family_of((#[trigger] names@[i])@)
            == Some(r->Ok_0@[i]) by {
            assert(family_of(all[i]) == Some(families_named(all)->Ok_0[i]));
        }
    }
    if 0 <= at < names@.len() && family_of(names@[at]@) is None && (forall|i: int|
        0 <= i < at ==> family_of((#[trigger] names@[i])@) is Some) {
        assert forall|i: int| 0 <= i < at implies family_of(#[trigger] all[i]) is Some by {
            assert(family_of(names@[i]@) is Some);
        }
        assert(all[at] == names@[at]@);
        lemma_first_unknown(all, at);
    }
}

proof fn lemma_families_named(names: Seq<Seq<char>>)
    ensures
        families_named(names) is Ok <==> forall|i: int|
            0 <= i < names.len() ==> family_of(#[trigger] names[i]) is Some,
        families_named(names) is Ok ==> families_named(names)->Ok_0.len() == names.len()
            && forall|i: int|
            0 <= i < names.len() ==> family_of(#[trigger] names[i]) == Some(
                families_named(names)->Ok_0[i],
            ),
    decreases names.len(),
{
    if names.len() > 0 {
        let front = names.drop_last();
        lemma_families_named(front);
        assert(names[names.len() - 1] == names.last());
        assert forall|i: int| 0 <= i < front.len() implies #[trigger] front[i] == names[i] by {}
        if families_named(names) is Ok {
            assert forall|i: int| 0 <= i < names.len() implies family_of(#[trigger] names[i])
                == Some(families_named(names)->Ok_0[i]) by {
                if i < front.len() {
                    assert(family_of(front[i]) == Some(families_named(front)->Ok_0[i]));
                }
            }
        }
        if forall|i: int| 0 <= i < names.len() ==> family_of(#[trigger] names[i]) is Some {
            assert forall|i: int| 0 <= i < front.len() implies family_of(#[trigger] front[i]) is Some by {
                assert(family_of(names[i]) is Some);
            }
        }
    }
}

proof fn lemma_first_unknown(names: Seq<Seq<char>>, at: int)
    requires
        0 <= at < names.len(),
        family_of(names[at]) is None,
        forall|i: int| 0 <= i < at ==> family_of(#[trigger] names[i]) is Some,
    ensures
        families_named(names) == Err::<Seq<Family>, Seq<char>>(names[at]),
{
    let front = names.take(at);
    lemma_families_named(front);
    assert forall|i: int| 0 <= i < front.len() implies family_of(#[trigger] front[i]) is Some by {
        assert(family_of(names[i]) is Some);
    }
    assert(names.take(at + 1).drop_last() =~= front);
    assert(names.take(at + 1).last() == names[at]);
    lemma_unknown_stays(names, at + 1);
}

/// A run emits each format that was asked for or has a file, and text if nothing
/// was said; both at once need both files. A format that is asked for is never
/// changed.
pub proof fn formats_follow_from_what_was_asked(
    requested: Option<OutputFormat>,
    text_out: bool,
    json_out: bool,
    r: Result<OutputFormat, &'static str>,
)
    requires
        call_ensures(effective_format, (requested, text_out, json_out), r),
    ensures
        r is Err <==> requested == Some(OutputFormat::Both) && !(text_out && json_out),
        requested is Some && r is Ok ==> r->Ok_0 == requested->0,
        requested is None ==> (r->Ok_0 == OutputFormat::Both <==> text_out && json_out),
        requested is None ==> (r->Ok_0 == OutputFormat::Json <==> json_out && !text_out),
        requested is None ==> (r->Ok_0 == OutputFormat::Text <==> !json_out),
{
}

/// What is emitted: text unless JSON alone is wanted, and JSON unless text alone
/// is.
pub proof fn formats_emit_what_they_say(f: OutputFormat, text: bool, json: bool)
    requires
        call_ensures(OutputFormat::wants_text, (f,), text),
        call_ensures(OutputFormat::wants_json, (f,), json),
    ensures
        text || json,
        f == OutputFormat::Both <==> text && json,
        f == OutputFormat::Text <==> text && !json,
        f == OutputFormat::Json <==> json && !text,
{
}

/// A run fails exactly if some reported family lost a key.
pub proof fn runs_fail_on_removals_alone(
    before: &crate::catalog::Catalog,
    after: &crate::catalog::Catalog,
    filter: &[Family],
    r: crate::report::Report,
    passed: Result<(), &'static str>,
)
    requires
        call_ensures(crate::report::build_report, (before, after, filter), r),
        call_ensures(gate, (r.semver.class,), passed),
    ensures
        passed is Err <==> crate::report::missing_somewhere(*before, *after, filter@),
{
    crate::report::ratings_follow_from_the_catalogs(before, after, filter, r);
}

/// A file is taken for TOML exactly if its extension is `toml`, in whatever ASCII
/// case; without an extension it is a database.
pub proof fn toml_is_told_by_its_extension(extension: Option<&str>, r: SourceKind)
    requires
        call_ensures(source_kind, (extension,), r),
    ensures
        extension is None ==> r is Sqlite,
        extension is Some && extension->0@.len() != 4 ==> r is Sqlite,
        extension is Some && extension->0@.len() == 4 ==> {
            let e = extension->0@;
            r is Toml <==> (e[0] == 't' || e[0] == 'T') && (e[1] == 'o' || e[1] == 'O') && (e[2]
                == 'm' || e[2] == 'M') && (e[3] == 'l' || e[3] == 'L')
        },
{
    reveal_strlit("toml");
    assert("toml"@.len() == 4);
    if extension is Some {
        let e = extension->0@;
        let low = crate::text::ascii_lowered(e);
        assert(low.len() == e.len());
        if e.len() == 4 {
            assert(low[0] == crate::text::ascii_lower(e[0]));
            assert(low[1] == crate::text::ascii_lower(e[1]));
            assert(low[2] == crate::text::ascii_lower(e[2]));
            assert(low[3] == crate::text::ascii_lower(e[3]));
            assert(low == "toml"@ <==> low[0] == 't' && low[1] == 'o' && low[2] == 'm' && low[3]
                == 'l') by {
                if low[0] == 't' && low[1] == 'o' && low[2] == 'm' && low[3] == 'l' {
                    assert(low =~= "toml"@);
                }
            }
        }
    }
}

} // verus!
