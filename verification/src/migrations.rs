//! Forward-only schema migrations.
use vstd::prelude::*;
use vstd::string::StringExecFns;

verus! {

/// One migration of a stored database.
#[derive(Clone, Copy, Debug, PartialEq, Eq, Structural)]
pub enum Migration {
    /// From the first schema, tagged 1 or not tagged at all, to the second.
    V1ToV2,
    /// From the second schema to the third.
    V2ToV3,
}

/// What to do with a database: run the steps in order, and report the outcome
/// once they have run.
#[derive(Debug)]
pub struct Plan {
    pub steps: Vec<Migration>,
    pub outcome: Result<(), String>,
}

/// A [`Plan`], by its texts.
pub struct PlanModel {
    pub steps: Seq<Migration>,
    pub refusal: Option<Seq<char>>,
}

impl View for Plan {
    type V = PlanModel;

    open spec fn view(&self) -> PlanModel {
        PlanModel {
            steps: self.steps@,
            refusal: match self.outcome {
                Ok(_) => None,
                Err(m) => Some(m@),
            },
        }
    }
}

/// The message for a target below the version that is stored.
pub open spec fn downwards_text(from: u32, to: u32) -> Seq<char> {
    "cannot migrate downwards ("@ + crate::text::decimal(from as nat) + " -> "@
        + crate::text::decimal(to as nat) + ")"@
}

/// The message for a version that no migration starts from.
pub open spec fn no_path_text(v: u32) -> Seq<char> {
    "no migration path from schema v"@ + crate::text::decimal(v as nat)
        + "; update shim-interface-core"@
}

/// The migration that starts from a version. Databases tagged 0 and 1 are alike.
pub open spec fn migration_from(v: u32) -> Option<Migration> {
    if v <= 1 {
        Some(Migration::V1ToV2)
    } else if v == 2 {
        Some(Migration::V2ToV3)
    } else {
        None
    }
}

impl Migration {
    /// The version that the migration leads to.
    pub open spec fn target(self) -> u32 {
        match self {
            Migration::V1ToV2 => 2,
            Migration::V2ToV3 => 3,
        }
    }
}

/// The way up from a version: one migration after the other, until the target
/// is reached or none starts from where the last one led.
pub open spec fn climbed(v: u32, to: u32) -> PlanModel
    decreases to + 3 - v,
{
    if v >= to {
        PlanModel { steps: Seq::empty(), refusal: None }
    } else {
        match migration_from(v) {
            Some(step) => {
                let rest = climbed(step.target(), to);
                PlanModel { steps: seq![step] + rest.steps, refusal: rest.refusal }
            },
            None => PlanModel { steps: Seq::empty(), refusal: Some(no_path_text(v)) },
        }
    }
}

/// What migrating from one version up to another comes to.
pub open spec fn planned(from: u32, to: u32) -> PlanModel {
    if from > to {
        PlanModel { steps: Seq::empty(), refusal: Some(downwards_text(from, to)) }
    } else {
        climbed(from, to)
    }
}

fn downwards_message(from: u32, to: u32) -> (r: String)
    ensures
        r@ == downwards_text(from, to),
{
    let mut out = "cannot migrate downwards (".to_owned();
    out.append(crate::text::decimal_of(from as u64).as_str());
    out.append(" -> ");
    out.append(crate::text::decimal_of(to as u64).as_str());
    out.append(")");
    out
}

fn no_path_message(v: u32) -> (r: String)
    ensures
        r@ == no_path_text(v),
{
    let mut out = "no migration path from schema v".to_owned();
    out.append(crate::text::decimal_of(v as u64).as_str());
    out.append("; update shim-interface-core");
    out
}

/// Plans the migrations from the version `from`, which the database is tagged
/// with, up to `to`.
///
/// Steps that lead part of the way are run before a missing one is reported.
pub fn apply(from: u32, to: u32) -> (r: Plan)
    ensures
        r@ == planned(from, to),
{
    if from > to {
        return Plan { steps: Vec::new(), outcome: Err(downwards_message(from, to)) };
    }
    let mut steps: Vec<Migration> = Vec::new();
    let mut v: u32 = from;
    assert(steps@ + climbed(v, to).steps =~= climbed(from, to).steps);
    while v < to
        invariant
            from <= to,
            steps@ + climbed(v, to).steps == climbed(from, to).steps,
            climbed(v, to).refusal == climbed(from, to).refusal,
        decreases to + 3 - v,
    {
        let ghost before = steps@;
        let ghost at = v;
        if v == 0 || v == 1 {
            steps.push(Migration::V1ToV2);
            v = 2;
        } else if v == 2 {
            steps.push(Migration::V2ToV3);
            v = 3;
        } else {
            assert(steps@ =~= climbed(from, to).steps);
            return Plan { steps, outcome: Err(no_path_message(v)) };
        }
        assert(steps@ + climbed(v, to).steps =~= before + climbed(at, to).steps);
    }
    assert(steps@ =~= climbed(from, to).steps);
    Plan { steps, outcome: Ok(()) }
}

/// The version of a database once the steps have run.
pub open spec fn version_after(v: u32, steps: Seq<Migration>) -> u32 {
    if steps.len() == 0 {
        v
    } else {
        steps.last().target()
    }
}

/// The steps of a plan fit together: each starts from where the one before it
/// led, the first from the version of the database.
pub open spec fn connected(v: u32, steps: Seq<Migration>) -> bool {
    forall|i: int|
        0 <= i < steps.len() ==> migration_from(version_after(v, steps.take(i))) == Some(
            #[trigger] steps[i],
        )
}

proof fn lemma_climbed(v: u32, to: u32)
    ensures
        connected(v, climbed(v, to).steps),
        version_after(v, climbed(v, to).steps) >= v,
        climbed(v, to).refusal is None <==> version_after(v, climbed(v, to).steps) >= to,
    decreases to + 3 - v,
{
    if v < to && migration_from(v) is Some {
        let step = migration_from(v)->0;
        let rest = climbed(step.target(), to).steps;
        let steps = climbed(v, to).steps;
        lemma_climbed(step.target(), to);
        if rest.len() > 0 {
            assert(steps.last() == rest.last());
        }
        assert forall|i: int| 0 <= i < steps.len() implies migration_from(
            version_after(v, steps.take(i)),
        ) == Some(#[trigger] steps[i]) by {
            if i > 0 {
                assert(steps[i] == rest[i - 1]);
                if i > 1 {
                    assert(steps.take(i).last() == rest.take(i - 1).last());
                }
            }
        }
    }
}

/// The steps of a plan fit together and never lead down, and a plan is refused
/// exactly if its steps end short of the target or the target lies below.
pub proof fn plans_reach_the_target(from: u32, to: u32)
    ensures
        connected(from, planned(from, to).steps),
        version_after(from, planned(from, to).steps) >= from,
        planned(from, to).refusal is None <==> from <= to && version_after(
            from,
            planned(from, to).steps,
        ) >= to,
{
    lemma_climbed(from, to);
}

/// A way up leads through every version between: going from one version to
/// another by way of a third, where it can be reached, runs the same steps.
pub proof fn ways_up_lead_through(from: u32, by: u32, to: u32)
    requires
        from <= by <= to,
        planned(from, by).refusal is None,
        version_after(from, planned(from, by).steps) == by,
    ensures
        planned(from, to).steps == planned(from, by).steps + planned(by, to).steps,
        planned(from, to).refusal is None <==> planned(by, to).refusal is None,
    decreases to + 3 - from,
{
    if from < by {
        let step = migration_from(from)->0;
        lemma_climbed(step.target(), by);
        let rest = climbed(step.target(), by).steps;
        let steps = climbed(from, by).steps;
        if rest.len() > 0 {
            assert(steps.last() == rest.last());
        }
        assert(version_after(step.target(), rest) == by) by {
            if rest.len() == 0 {
                assert(steps.last() == step);
            }
        }
        assert(step.target() <= by) by {
            lemma_climbed(step.target(), by);
        }
        ways_up_lead_through(step.target(), by, to);
        assert(planned(from, to).steps =~= planned(from, by).steps + planned(by, to).steps);
    } else {
        assert(planned(from, by).steps + planned(by, to).steps =~= planned(by, to).steps);
    }
}

/// Going down is refused with nothing run, and staying runs nothing.
pub proof fn there_is_no_way_down(from: u32, to: u32, r: Plan)
    requires
        call_ensures(apply, (from, to), r),
        to <= from,
    ensures
        r.steps@.len() == 0,
        r.outcome is Err <==> to < from,
{
    assert(r@.steps == r.steps@);
}

/// Each migration leads to the next version, and starts from the one before; a
/// database that was never tagged counts as one of the first version.
pub proof fn migrations_lead_one_version_up(v: u32)
    ensures
        1 <= v <= 2 ==> migration_from(v) is Some && migration_from(v)->0.target() == v + 1,
        migration_from(0) == migration_from(1),
        v > 2 ==> migration_from(v) is None,
{
}

/// The message on a way down names the version that is stored first and then the
/// target; that on a missing way names the version it would start from.
pub proof fn refusals_name_the_versions(from: u32, to: u32, r: Plan)
    requires
        call_ensures(apply, (from, to), r),
    ensures
        from > to ==> r.outcome is Err && r.outcome->Err_0@ == "cannot migrate downwards ("@
            + crate::text::decimal(from as nat) + " -> "@ + crate::text::decimal(to as nat) + ")"@,
        3 <= from < to ==> r.outcome is Err && r.outcome->Err_0@
            == "no migration path from schema v"@ + crate::text::decimal(from as nat)
            + "; update shim-interface-core"@,
{
    reveal_with_fuel(climbed, 2);
    assert(r@ == planned(from, to));
}

} // verus!
