//! The schema version with which a database is tagged.
//!
//! Forward only: a database that is newer than [`SCHEMA_VERSION`] is not
//! touched, and one that is older is upgraded before anything is written.
use vstd::prelude::*;
use vstd::string::StringExecFns;

use crate::migrations::{apply, Plan};

verus! {

/// The schema version that this build writes and understands.
pub const SCHEMA_VERSION: u32 = 3;

/// The statement that tags a database with a version.
pub open spec fn user_version_text(v: u32) -> Seq<char> {
    "PRAGMA user_version = "@ + crate::text::decimal(v as nat)
}

/// The statement that tags a database with a version.
pub fn write_user_version(v: u32) -> (r: String)
    ensures
        r@ == user_version_text(v),
{
    let mut out = "PRAGMA user_version = ".to_owned();
    out.append(crate::text::decimal_of(v as u64).as_str());
    out
}

/// The message for a database that is too new.
pub open spec fn newer_text(v: u32) -> Seq<char> {
    "DB schema v"@ + crate::text::decimal(v as nat) + " is newer than tool schema v"@
        + crate::text::decimal(SCHEMA_VERSION as nat) + "; upgrade shim-interface-core"@
}

/// What has to happen to a database tagged `v` before it is used.
pub open spec fn schema_plan(v: u32) -> crate::migrations::PlanModel {
    if v == SCHEMA_VERSION {
        crate::migrations::PlanModel { steps: Seq::empty(), refusal: None }
    } else if v < SCHEMA_VERSION {
        crate::migrations::planned(v, SCHEMA_VERSION)
    } else {
        crate::migrations::PlanModel { steps: Seq::empty(), refusal: Some(newer_text(v)) }
    }
}

/// Plans how a database tagged `v` is brought to [`SCHEMA_VERSION`]: nothing
/// if it is there, the migrations if it is older; a newer one is refused.
pub fn ensure_schema(v: u32) -> (r: Plan)
    ensures
        r@ == schema_plan(v),
{
    if v == SCHEMA_VERSION {
        Plan { steps: Vec::new(), outcome: Ok(()) }
    } else if v < SCHEMA_VERSION {
        apply(v, SCHEMA_VERSION)
    } else {
        let mut out = "DB schema v".to_owned();
        out.append(crate::text::decimal_of(v as u64).as_str());
        out.append(" is newer than tool schema v");
        out.append(crate::text::decimal_of(SCHEMA_VERSION as u64).as_str());
        out.append("; upgrade shim-interface-core");
        Plan { steps: Vec::new(), outcome: Err(out) }
    }
}

/// A database that is no newer than this build is accepted and ends at
/// [`SCHEMA_VERSION`]; a newer one is refused with nothing run on it.
pub proof fn older_databases_are_upgraded(v: u32)
    ensures
        v <= SCHEMA_VERSION ==> schema_plan(v).refusal is None && crate::migrations::version_after(
            v,
            schema_plan(v).steps,
        ) == SCHEMA_VERSION,
        v == SCHEMA_VERSION ==> schema_plan(v).steps.len() == 0,
        v > SCHEMA_VERSION ==> schema_plan(v).refusal is Some && schema_plan(v).steps.len() == 0,
        crate::migrations::connected(v, schema_plan(v).steps),
{
    reveal_with_fuel(crate::migrations::climbed, 4);
    crate::migrations::plans_reach_the_target(v, SCHEMA_VERSION);
}

/// How a database is made ready.
#[derive(Clone, Copy, Debug, PartialEq, Eq, Structural)]
pub enum Preparation {
    /// Run the whole schema.
    CreateSchema,
    /// Bring what is stored to [`SCHEMA_VERSION`].
    EnsureSchema,
}

/// How a database that is kept across runs is made ready: the schema is
/// created where the table of extensions is not there yet.
pub fn open_or_migrate(extension_tables: i64) -> (r: Preparation)
    ensures
        r == if extension_tables == 0 {
            Preparation::CreateSchema
        } else {
            Preparation::EnsureSchema
        },
{
    if extension_tables == 0 {
        Preparation::CreateSchema
    } else {
        Preparation::EnsureSchema
    }
}

/// Whether a file is removed before a fresh database is opened at a path: it is
/// if it exists, unless the path is the one that stands for a database in
/// memory.
pub fn open_fresh(components: &Vec<Vec<u8>>, exists: bool) -> (r: bool)
    ensures
        r == (exists && crate::sources::path_of(components@) != seq![
            vstd::utf8::encode_utf8(":memory:"@),
        ]),
{
    let memory = components.len() == 1 && crate::sources::bytes_equal(
        components[0].as_slice(),
        ":memory:".as_bytes(),
    );
    let ghost path = crate::sources::path_of(components@);
    let ghost name = seq![vstd::utf8::encode_utf8(":memory:"@)];
    assert(memory <==> path == name) by {
        assert(name.len() == 1 && name[0] == vstd::utf8::encode_utf8(":memory:"@));
        if components@.len() == 1 {
            assert(path[0] == components@[0]@);
        }
        if memory {
            assert(path =~= name);
        }
    }
    !memory && exists
}

/// A database is created where no table of extensions is, and brought up to date
/// where one is.
pub proof fn databases_are_created_once(extension_tables: i64, r: Preparation)
    requires
        call_ensures(open_or_migrate, (extension_tables,), r),
    ensures
        r is CreateSchema <==> extension_tables == 0,
{
}

/// A file is removed exactly if it is there and its path is not the one that
/// stands for a database in memory.
pub proof fn only_files_are_removed(components: &Vec<Vec<u8>>, exists: bool, r: bool)
    requires
        call_ensures(open_fresh, (components, exists), r),
    ensures
        !exists ==> !r,
        components@.len() != 1 ==> r == exists,
        components@.len() == 1 ==> (r <==> exists && components@[0]@ != vstd::utf8::encode_utf8(
            ":memory:"@,
        )),
{
    let path = crate::sources::path_of(components@);
    let memory = seq![vstd::utf8::encode_utf8(":memory:"@)];
    assert(path.len() == components@.len() && memory.len() == 1);
    if components@.len() == 1 {
        assert(path[0] == components@[0]@);
        if components@[0]@ == memory[0] {
            assert(path =~= memory);
        }
    }
}

/// A database that is newer than this build is refused with nothing run on it,
/// one that is current is left alone, and an older one is brought up step by step
/// and accepted.
pub proof fn databases_are_accepted_unless_newer(v: u32, r: Plan)
    requires
        call_ensures(ensure_schema, (v,), r),
    ensures
        r.outcome is Err <==> v > 3,
        v >= 3 ==> r.steps@.len() == 0,
        v == 2 ==> r.steps@ == seq![crate::migrations::Migration::V2ToV3],
        v < 2 ==> r.steps@ == seq![
            crate::migrations::Migration::V1ToV2,
            crate::migrations::Migration::V2ToV3,
        ],
{
    older_databases_are_upgraded(v);
    reveal_with_fuel(crate::migrations::climbed, 4);
    assert(r@.steps == r.steps@);
    if v == 2 {
        assert(r.steps@ =~= seq![crate::migrations::Migration::V2ToV3]);
    }
    if v < 2 {
        assert(r.steps@ =~= seq![
            crate::migrations::Migration::V1ToV2,
            crate::migrations::Migration::V2ToV3,
        ]);
    }
}

/// The message on a newer database names the version of the database first and
/// then the one that this build knows.
pub proof fn newer_databases_are_named(v: u32, r: Plan)
    requires
        call_ensures(ensure_schema, (v,), r),
        v > SCHEMA_VERSION,
    ensures
        r.outcome is Err,
        crate::report::begins_with(
            r.outcome->Err_0@,
            "DB schema v"@ + crate::text::decimal(v as nat) + " is newer than tool schema v"@
                + crate::text::decimal(SCHEMA_VERSION as nat),
        ),
{
    let start = "DB schema v"@ + crate::text::decimal(v as nat) + " is newer than tool schema v"@
        + crate::text::decimal(SCHEMA_VERSION as nat);
    assert(r@.refusal == Some(start + "; upgrade shim-interface-core"@));
    assert((start + "; upgrade shim-interface-core"@).take(start.len() as int) =~= start);
}

} // verus!
