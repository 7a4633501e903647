use vstd::prelude::*;

verus! {

/// Which of the three persisted artifacts exist.
#[derive(Debug, Clone, Copy, PartialEq, Eq, Structural)]
pub struct Artifacts {
    pub catalog: bool,
    pub index: bool,
    pub table: bool,
}

/// The build phases to run: each one writes the artifact of its name.
#[derive(Debug, Clone, Copy, PartialEq, Eq, Structural)]
pub struct BuildPlan {
    pub fetch_catalog: bool,
    pub build_index: bool,
    pub build_table: bool,
}

/// The phases owed for the artifacts present: exactly those whose artifact
/// is missing.
pub open spec fn plan_of(a: Artifacts) -> BuildPlan {
    BuildPlan { fetch_catalog: !a.catalog, build_index: !a.index, build_table: !a.table }
}

/// The artifacts present once `p` has run to completion from `a`.
pub open spec fn after_plan(a: Artifacts, p: BuildPlan) -> Artifacts {
    Artifacts {
        catalog: a.catalog || p.fetch_catalog,
        index: a.index || p.build_index,
        table: a.table || p.build_table,
    }
}

/// The plan writes nothing.
pub open spec fn writes_nothing(p: BuildPlan) -> bool {
    !p.fetch_catalog && !p.build_index && !p.build_table
}

/// The build phases to run given the artifacts that are present.
pub fn plan_build(present: Artifacts) -> (r: BuildPlan)
    ensures
        r == plan_of(present),
{
    BuildPlan {
        fetch_catalog: !present.catalog,
        build_index: !present.index,
        build_table: !present.table,
    }
}

/// A second build, run once the first has completed, writes nothing.
pub proof fn lemma_build_idempotent(a: Artifacts)
    ensures
        writes_nothing(plan_of(after_plan(a, plan_of(a)))),
{
}

/// With every artifact present, a build writes nothing.
pub proof fn lemma_build_skipped_when_present(a: Artifacts)
    requires
        a.catalog && a.index && a.table,
    ensures
        writes_nothing(plan_of(a)),
{
}

} // verus!
