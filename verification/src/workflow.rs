//! Which stages a run executes, and what a valid configuration promises.

use vstd::prelude::*;
use vstd::string::*;

use crate::config::{Config, DataBoundary};
use crate::text;
use crate::validate;

verus! {

/// The first place of `name` from `from` on.
pub open spec fn place_from(names: Seq<Seq<char>>, name: Seq<char>, from: int) -> Option<int>
    decreases names.len() - from,
{
    if from < 0 || from >= names.len() {
        None
    } else if names[from] == name {
        Some(from)
    } else {
        place_from(names, name, from + 1)
    }
}

/// What `place_from` finds.
pub proof fn lemma_place_from(names: Seq<Seq<char>>, name: Seq<char>, from: int)
    requires
        0 <= from,
    ensures
        match place_from(names, name, from) {
            Some(i) => from <= i < names.len() && names[i] == name,
            None => forall|j: int| from <= j < names.len() ==> names[j] != name,
        },
    decreases names.len() - from,
{
    if from < names.len() && names[from] != name {
        lemma_place_from(names, name, from + 1);
    }
}

/// The first place of a name in a list.
pub fn place_of(names: &Vec<String>, name: &str) -> (r: Option<usize>)
    ensures
        match r {
            Some(i) => place_from(text::views(names@), name@, 0) == Some(i as int) && i
                < names@.len(),
            None => place_from(text::views(names@), name@, 0) is None,
        },
{
    let mut i: usize = 0;
    while i < names.len()
        invariant
            i <= names@.len(),
            place_from(text::views(names@), name@, 0) == place_from(
                text::views(names@),
                name@,
                i as int,
            ),
        decreases names@.len() - i,
    {
        assert(text::views(names@)[i as int] == names@[i as int]@);
        if text::same(names[i].as_str(), name) {
            return Some(i);
        }
        i = i + 1;
    }
    None
}

/// The workflow that a run uses: the one asked for, else the configured
/// default, else one named `default`, else none.
pub open spec fn chosen_workflow(c: Config, requested: Option<Seq<char>>) -> Option<Seq<char>> {
    match requested {
        Some(name) => Some(name),
        None => match c.settings.default_workflow {
            Some(name) => Some(name@),
            None => if c.workflows.has_name("default"@) {
                Some("default"@)
            } else {
                None
            },
        },
    }
}

/// The stage names of a workflow that is there.
pub open spec fn workflow_stages(c: Config, name: Seq<char>) -> Seq<Seq<char>> {
    text::views(c.workflows.at(name).stages@)
}

/// Whether each stage that a workflow lists is there.
pub open spec fn workflows_known(c: Config) -> bool {
    forall|name: Seq<char>, k: int|
        c.workflows.has_name(name) && 0 <= k < workflow_stages(c, name).len()
            ==> validate::stage_names(c.stages@).contains(
            #[trigger] workflow_stages(c, name)[k],
        )
}

/// The stages of a run, as places in the configuration's stage list.
pub open spec fn run_order(c: Config, requested: Option<Seq<char>>) -> Result<
    Seq<int>,
    Seq<char>,
> {
    match chosen_workflow(c, requested) {
        None => Ok(Seq::new(c.stages@.len(), |i: int| i)),
        Some(name) => if !c.workflows.has_name(name) {
            Err(
                "no workflow named `"@ + name + "` (available: "@ + text::join_spec(
                    c.workflows.names(),
                    ", "@,
                ) + ")"@,
            )
        } else {
            let list = workflow_stages(c, name);
            Ok(
                Seq::new(
                    list.len(),
                    |k: int| place_from(validate::stage_names(c.stages@), list[k], 0)->0,
                ),
            )
        },
    }
}

impl Config {
    fn stage_place(&self, name: &str) -> (r: Option<usize>)
        ensures
            match r {
                Some(i) => place_from(validate::stage_names(self.stages@), name@, 0) == Some(
                    i as int,
                ) && i < self.stages@.len(),
                None => place_from(validate::stage_names(self.stages@), name@, 0) is None,
            },
    {
        let ghost names = validate::stage_names(self.stages@);
        let mut i: usize = 0;
        while i < self.stages.len()
            invariant
                i <= self.stages@.len(),
                names == validate::stage_names(self.stages@),
                place_from(names, name@, 0) == place_from(names, name@, i as int),
            decreases self.stages@.len() - i,
        {
            assert(names[i as int] == self.stages@[i as int].name@);
            if text::same(self.stages[i].name.as_str(), name) {
                return Some(i);
            }
            i = i + 1;
        }
        None
    }

    fn workflow_names(&self) -> (r: Vec<String>)
        ensures
            text::views(r@) == self.workflows.names(),
    {
        let mut names: Vec<String> = Vec::new();
        let mut i: usize = 0;
        while i < self.workflows.entries.len()
            invariant
                i <= self.workflows.entries@.len(),
                names@.len() == i,
                forall|k: int|
                    0 <= k < i ==> (#[trigger] names@[k])@ == self.workflows.entries@[k].0@,
            decreases self.workflows.entries@.len() - i,
        {
            names.push(self.workflows.entries[i].0.clone());
            i = i + 1;
        }
        assert(text::views(names@) =~= self.workflows.names());
        names
    }

    /// Resolve which stages a run executes, in order: an explicitly
    /// requested workflow, else the configured default, else a workflow
    /// named `default`, else every stage in declaration order.
    pub fn resolve_workflow(&self, requested: Option<&str>) -> (r: Result<Vec<usize>, String>)
        requires
            workflows_known(*self),
        ensures
            ({
                let expected = run_order(
                    *self,
                    match requested {
                        Some(n) => Some(n@),
                        None => None,
                    },
                );
                match r {
                    Ok(order) => expected matches Ok(places) && order@.len() == places.len() && (
                    forall|k: int|
                        0 <= k < order@.len() ==> #[trigger] order@[k] == places[k] && order@[k]
                            < self.stages@.len()),
                    Err(e) => expected == Err::<Seq<int>, Seq<char>>(e@),
                }
            }),
    {
        let name: Option<String> = match requested {
            Some(n) => Some(n.to_owned()),
            None => match &self.settings.default_workflow {
                Some(n) => Some(n.clone()),
                None => if self.workflows.contains("default") {
                    Some("default".to_owned())
                } else {
                    None
                },
            },
        };
        let mut order: Vec<usize> = Vec::new();
        match name {
            None => {
                let mut i: usize = 0;
                while i < self.stages.len()
                    invariant
                        i <= self.stages@.len(),
                        order@.len() == i,
                        forall|k: int| 0 <= k < i ==> #[trigger] order@[k] == k,
                    decreases self.stages@.len() - i,
                {
                    order.push(i);
                    i = i + 1;
                }
                Ok(order)
            },
            Some(name) => match self.workflows.get(name.as_str()) {
                None => {
                    let names = self.workflow_names();
                    Err(
                        text::cat5(
                            "no workflow named `",
                            name.as_str(),
                            "` (available: ",
                            text::join(&names, ", ").as_str(),
                            ")",
                        ),
                    )
                },
                Some(workflow) => {
                    let ghost list = workflow_stages(*self, name@);
                    let ghost names = validate::stage_names(self.stages@);
                    let mut k: usize = 0;
                    while k < workflow.stages.len()
                        invariant
                            k <= workflow.stages@.len(),
                            workflows_known(*self),
                            self.workflows.has_name(name@),
                            *workflow == self.workflows.at(name@),
                            list == workflow_stages(*self, name@),
                            names == validate::stage_names(self.stages@),
                            order@.len() == k,
                            forall|j: int|
                                0 <= j < k ==> #[trigger] order@[j] == place_from(
                                    names,
                                    list[j],
                                    0,
                                )->0 && order@[j] < self.stages@.len(),
                        decreases workflow.stages@.len() - k,
                    {
                        assert(list[k as int] == workflow.stages@[k as int]@);
                        match self.stage_place(workflow.stages[k].as_str()) {
                            Some(i) => {
                                order.push(i);
                            },
                            None => {
                                proof {
                                    lemma_place_from(names, list[k as int], 0);
                                    assert(names.contains(list[k as int]));
                                    assert(false);
                                }
                            },
                        }
                        k = k + 1;
                    }
                    Ok(order)
                },
            },
        }
    }
}

// ---------------------------------------------------------------------------
// What a valid configuration promises
// ---------------------------------------------------------------------------

proof fn lemma_listing_clean(c: Config, name: Seq<char>, list: Seq<Seq<char>>, n: int, k: int)
    requires
        0 <= k < n <= list.len(),
        validate::listing_problems(c, name, list, n).len() == 0,
    ensures
        validate::stage_names(c.stages@).contains(list[k]),
        !list.take(k).contains(list[k]),
    decreases n,
{
    if k < n - 1 {
        lemma_listing_clean(c, name, list, n - 1, k);
    }
}

proof fn lemma_workflow_clean(c: Config, n: int, row: int)
    requires
        0 <= row < n <= c.workflows.entries@.len(),
        validate::workflow_problems(c, n).len() == 0,
    ensures
        ({
            let list = text::views(c.workflows.entries@[row].1.stages@);
            &&& list.len() > 0
            &&& validate::listing_problems(
                c,
                c.workflows.entries@[row].0@,
                list,
                list.len() as int,
            ).len() == 0
        }),
    decreases n,
{
    if row < n - 1 {
        lemma_workflow_clean(c, n - 1, row);
    }
}

/// In a valid configuration every stage that a workflow lists is there, so
/// resolving a workflow never meets an unknown stage.
pub proof fn law_valid_workflows_list_known_stages(c: Config, threshold: Option<Seq<char>>)
    requires
        validate::problems(c, threshold).len() == 0,
    ensures
        workflows_known(c),
{
    assert forall|name: Seq<char>, k: int|
        c.workflows.has_name(name) && 0 <= k < workflow_stages(c, name).len() implies
        validate::stage_names(c.stages@).contains(#[trigger] workflow_stages(c, name)[k]) by {
        c.workflows.lemma_row_from(name, 0);
        let row = c.workflows.row(name)->0;
        lemma_workflow_clean(c, c.workflows.entries@.len() as int, row);
        let list = workflow_stages(c, name);
        lemma_listing_clean(c, c.workflows.entries@[row].0@, list, list.len() as int, k);
    }
}

proof fn lemma_fallbacks_clean(c: Config, row: int, n: int, k: int)
    requires
        0 <= k < n,
        validate::fallbacks_of(c, row, n).len() == 0,
    ensures
        validate::fallback_problem(c, row, c.models.entries@[row].1.fallback@[k]@).len() == 0,
    decreases n,
{
    if k < n - 1 {
        lemma_fallbacks_clean(c, row, n - 1, k);
    }
}

proof fn lemma_fallback_rows_clean(c: Config, n: int, row: int)
    requires
        0 <= row < n,
        validate::fallback_problems(c, n).len() == 0,
    ensures
        validate::fallbacks_of(
            c,
            row,
            c.models.entries@[row].1.fallback@.len() as int,
        ).len() == 0,
    decreases n,
{
    if row < n - 1 {
        lemma_fallback_rows_clean(c, n - 1, row);
    }
}

/// In a valid configuration a local model falls back to an external one only
/// where it says that it may.
pub proof fn law_valid_fallbacks_cross_only_with_consent(
    c: Config,
    threshold: Option<Seq<char>>,
    row: int,
    k: int,
)
    requires
        validate::problems(c, threshold).len() == 0,
        0 <= row < c.models.entries@.len(),
        0 <= k < c.models.entries@[row].1.fallback@.len(),
        validate::provider_boundary(c, c.models.entries@[row].1.provider@) == Some(
            DataBoundary::Local,
        ),
        validate::boundary_of(c, c.models.entries@[row].1.fallback@[k]@) == Some(
            DataBoundary::External,
        ),
    ensures
        c.models.entries@[row].1.allow_external_fallback,
{
    lemma_fallback_rows_clean(c, c.models.entries@.len() as int, row);
    lemma_fallbacks_clean(c, row, c.models.entries@[row].1.fallback@.len() as int, k);
}

proof fn lemma_stage_rows_clean(c: Config, n: int, row: int)
    requires
        0 <= row < n,
        validate::stage_problems(c, n).len() == 0,
    ensures
        validate::stage_problem(c, row).len() == 0,
    decreases n,
{
    if row < n - 1 {
        lemma_stage_rows_clean(c, n - 1, row);
    }
}

/// A valid configuration has at least one stage, its stage names differ, and
/// the model of each stage is there.
pub proof fn law_valid_stages_have_models_and_own_names(
    c: Config,
    threshold: Option<Seq<char>>,
    row: int,
)
    requires
        validate::problems(c, threshold).len() == 0,
        0 <= row < c.stages@.len(),
    ensures
        c.models.has_name(c.stages@[row].model@),
        forall|j: int| 0 <= j < row ==> (#[trigger] c.stages@[j]).name@ != c.stages@[row].name@,
{
    lemma_stage_rows_clean(c, c.stages@.len() as int, row);
    let names = validate::stage_names(c.stages@);
    assert forall|j: int| 0 <= j < row implies (#[trigger] c.stages@[j]).name@
        != c.stages@[row].name@ by {
        assert(names.take(row)[j] == c.stages@[j].name@);
    }
}

/// A configuration without stages is not valid.
pub proof fn law_a_valid_configuration_has_a_stage(c: Config, threshold: Option<Seq<char>>)
    requires
        validate::problems(c, threshold).len() == 0,
    ensures
        c.stages@.len() > 0,
{
}

} // verus!
