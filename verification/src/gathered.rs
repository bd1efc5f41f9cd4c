//! What a whole run deploys and gathers.

use vstd::prelude::*;

use crate::config::{ContextView, TargetSpec};
use crate::laws::{
    configured, counts, knows_configured, law_a_run_begins_with_empty_targets,
    law_runs_know_configured_targets, lemma_next_known,
};
use crate::runs::{lemma_run_keeps, runs, state_before, takes};
use crate::steps::{
    context_for, deploys_from, deploys_next, next_known, steps_to, ActionView, EventView,
    FolderView, Part, SetupView, StageView, StateView, Step,
};
use crate::targets::{ArgoCDProjectView, TargetView};

verus! {

/// What the deployments of a folder are called that it asks for from position `from` on: one for
/// each known target that it names.
pub open spec fn owed_from(
    folder: FolderView,
    known: Set<Seq<char>>,
    from: int,
) -> Seq<ContextView>
    decreases folder.metadata.targets.len() - from,
{
    let wanted = folder.metadata.targets;
    if from >= wanted.len() {
        Seq::empty()
    } else if known.contains(wanted[from].name) {
        seq![context_for(folder.path, wanted[from].name, folder.metadata.namespace)->Ok_0]
            + owed_from(folder, known, from + 1)
    } else {
        owed_from(folder, known, from + 1)
    }
}

/// What the deployments are called that the folders among the first `n` events ask for.
pub open spec fn owed(events: Seq<EventView>, known: Set<Seq<char>>, n: int) -> Seq<ContextView>
    decreases n,
{
    if n <= 0 {
        Seq::empty()
    } else {
        match events[n - 1] {
            EventView::Folder(folder) => owed(events, known, n - 1) + owed_from(folder, known, 0),
            _ => owed(events, known, n - 1),
        }
    }
}

/// What the deployments of the first `n` steps are called.
pub open spec fn deployed(steps: Seq<Step>, n: int) -> Seq<ContextView>
    decreases n,
{
    if n <= 0 {
        Seq::empty()
    } else {
        match steps[n - 1].result {
            Ok(ActionView::CopyFolder { vars: _, context }) => deployed(steps, n - 1).push(context),
            _ => deployed(steps, n - 1),
        }
    }
}

/// What the deployments of the folder at hand are called that are still to come.
pub open spec fn still_owed(stage: StageView, known: Set<Seq<char>>) -> Seq<ContextView> {
    match stage {
        StageView::Deploying(d, _) => owed_from(d.folder, known, d.next),
        _ => Seq::empty(),
    }
}

/// The events of one run: it begins once.
pub open spec fn single_run(events: Seq<EventView>) -> bool {
    &&& events.len() > 0
    &&& events[0] is Start
    &&& forall|i: int| 0 < i < events.len() ==> !((#[trigger] events[i]) is Start)
}

/// The run did not end early: it goes on after the step, or has come to its end.
pub open spec fn in_order_so_far(step: Step) -> bool {
    step.state.stage is Idle ==> step.result is Ok && step.result->Ok_0 is Finish
}

/// What is owed of a folder is what is owed of its next known target, and of those after that.
proof fn lemma_owed_from(folder: FolderView, known: Set<Seq<char>>, from: int)
    requires
        0 <= from <= folder.metadata.targets.len(),
    ensures
        ({
            let wanted = folder.metadata.targets;
            let j = next_known(wanted, known, from);
            owed_from(folder, known, from) == if j >= wanted.len() {
                Seq::empty()
            } else {
                seq![context_for(folder.path, wanted[j].name, folder.metadata.namespace)->Ok_0]
                    + owed_from(folder, known, j + 1)
            }
        }),
    decreases folder.metadata.targets.len() - from,
{
    let wanted = folder.metadata.targets;
    if from < wanted.len() && !known.contains(wanted[from].name) {
        lemma_owed_from(folder, known, from + 1);
    }
}

/// A deployment is the next one that is owed, and leaves the others owed.
proof fn lemma_deploys_what_is_owed(
    setup: SetupView,
    targets: Map<Seq<char>, TargetView>,
    folder: FolderView,
    from: int,
    step: Step,
)
    requires
        0 <= from <= folder.metadata.targets.len(),
        deploys_from(setup, targets, folder, from, step),
        in_order_so_far(step),
    ensures
        match step.result {
            Ok(ActionView::CopyFolder { vars: _, context }) => owed_from(folder, targets.dom(), from)
                == seq![context] + still_owed(step.state.stage, targets.dom()),
            _ => {
                &&& step.state.stage is Scanning
                &&& owed_from(folder, targets.dom(), from) == Seq::<ContextView>::empty()
            },
        },
{
    lemma_next_known(folder.metadata.targets, targets.dom(), from);
    lemma_owed_from(folder, targets.dom(), from);
}

/// While folders are looked for and deployed, exactly the configured targets are known.
proof fn lemma_all_configured_are_known(setup: SetupView, state: StateView)
    requires
        knows_configured(setup.config, state),
        state.stage is Scanning || state.stage is Deploying,
    ensures
        state.targets.dom() == configured(setup.config),
{
    let config = setup.config;
    assert forall|t: Seq<char>| configured(config).contains(t) implies state.targets.dom().contains(
        t,
    ) by {
        let names = config.targets.map_values(|t: TargetSpec| t.name);
        let j = choose|j: int| 0 <= j < names.len() && names[j] == t;
        assert(state.targets.contains_key(config.targets[j].name));
    }
    assert(state.targets.dom() =~= configured(config));
}

/// The folder that a step goes on to deploy has the position that the step goes on from.
proof fn lemma_deploys_next_counts(state: StateView, event: EventView)
    requires
        counts(state),
    ensures
        deploys_next(state.stage, event) matches Some((folder, from)) ==> 0 <= from
            <= folder.metadata.targets.len(),
{
}

/// A run deploys what its folders ask for: one deployment for each known target that a folder names,
/// in the order of the folders and of the targets that they name. At every point, what was deployed
/// and what is still owed of the folder at hand is what the folders so far ask for.
pub proof fn law_every_known_target_of_a_folder_is_deployed_to(
    setup: SetupView,
    start: StateView,
    events: Seq<EventView>,
    steps: Seq<Step>,
    n: int,
)
    requires
        runs(setup, start, events, steps),
        single_run(events),
        counts(start),
        knows_configured(setup.config, start),
        0 <= n < steps.len(),
        in_order_so_far(steps[n]),
    ensures
        deployed(steps, n + 1) + still_owed(steps[n].state.stage, configured(setup.config)) == owed(
            events,
            configured(setup.config),
            n + 1,
        ),
        steps[n].state.stage is Resetting ==> deployed(steps, n + 1) == Seq::<ContextView>::empty(),
    decreases n,
{
    let known = configured(setup.config);
    let before = state_before(start, steps, n);
    assert(takes(setup, start, events, steps, n));
    reveal_with_fuel(owed, 2);
    reveal_with_fuel(deployed, 2);
    if n > 0 {
        assert(!(events[n] is Start));
        assert(!(before.stage is Idle));
        law_every_known_target_of_a_folder_is_deployed_to(setup, start, events, steps, n - 1);
        lemma_run_keeps(setup, start, events, steps, n);
        lemma_deploys_next_counts(before, events[n]);
        let sofar = deployed(steps, n);
        if let Some((folder, from)) = deploys_next(before.stage, events[n]) {
            lemma_all_configured_are_known(setup, before);
            lemma_deploys_what_is_owed(setup, before.targets, folder, from, steps[n]);
            let left = still_owed(steps[n].state.stage, known);
            if let Ok(ActionView::CopyFolder { vars: _, context }) = steps[n].result {
                assert(sofar.push(context) + left =~= sofar + (seq![context] + left));
            }
            if events[n] is Folder {
                assert(sofar + Seq::<ContextView>::empty() =~= sofar);
            }
        }
    }
    assert(deployed(steps, n + 1) + still_owed(steps[n].state.stage, known) =~= owed(
        events,
        known,
        n + 1,
    ));
}

/// How many of the deployments go to that target and belong to that project.
pub open spec fn number_for(
    deployments: Seq<ContextView>,
    target: Seq<char>,
    project: Seq<char>,
) -> nat
    decreases deployments.len(),
{
    if deployments.len() == 0 {
        0
    } else {
        let last = deployments.last();
        number_for(deployments.drop_last(), target, project) + if last.target_name == target
            && last.normalized_project == project {
            1nat
        } else {
            0nat
        }
    }
}

/// How many applications are gathered in that project of that target.
pub open spec fn number_gathered(
    targets: Map<Seq<char>, TargetView>,
    target: Seq<char>,
    project: Seq<char>,
) -> nat {
    if targets.contains_key(target) && targets[target].projects.contains_key(project) {
        targets[target].projects[project].applications.len()
    } else {
        0
    }
}

/// Each project that is there holds an application for each of the deployments that belong to it,
/// and there is none without a deployment.
pub open spec fn gathers(
    targets: Map<Seq<char>, TargetView>,
    deployments: Seq<ContextView>,
) -> bool {
    forall|t: Seq<char>, p: Seq<char>|
        #![trigger number_for(deployments, t, p)]
        {
            &&& number_gathered(targets, t, p) == number_for(deployments, t, p)
            &&& targets.contains_key(t) && targets[t].projects.contains_key(p) ==> number_for(
                deployments,
                t,
                p,
            ) > 0
        }
}

/// A deployment adds one application to its project, and none to any other.
proof fn lemma_deploying_gathers(
    setup: SetupView,
    targets: Map<Seq<char>, TargetView>,
    folder: FolderView,
    from: int,
    step: Step,
    sofar: Seq<ContextView>,
)
    requires
        0 <= from <= folder.metadata.targets.len(),
        deploys_from(setup, targets, folder, from, step),
        in_order_so_far(step),
        gathers(targets, sofar),
    ensures
        match step.result {
            Ok(ActionView::CopyFolder { vars: _, context }) => gathers(
                step.state.targets,
                sofar.push(context),
            ),
            _ => step.state.targets == targets,
        },
{
    let wanted = folder.metadata.targets;
    lemma_next_known(wanted, targets.dom(), from);
    if let Ok(ActionView::CopyFolder { vars: _, context }) = step.result {
        let after = step.state.targets;
        let more = sofar.push(context);
        assert(more.drop_last() =~= sofar);
        assert forall|t: Seq<char>, p: Seq<char>|
            #![trigger number_for(more, t, p)]
            {
                &&& number_gathered(after, t, p) == number_for(more, t, p)
                &&& after.contains_key(t) && after[t].projects.contains_key(p) ==> number_for(
                    more,
                    t,
                    p,
                ) > 0
            } by {
            let count = number_for(sofar, t, p);
            assert(number_gathered(targets, t, p) == count);
            assert(targets.contains_key(context.target_name));
            if t != context.target_name || p != context.normalized_project {
                assert(after.contains_key(t) == targets.contains_key(t));
                if targets.contains_key(t) {
                    assert(after[t].projects.contains_key(p) == targets[t].projects.contains_key(p));
                }
            }
        }
    }
}

/// A run gathers as many applications in each project as there are deployments that belong to it,
/// and makes no project without one, whatever earlier runs left. When it writes the results, these
/// are the deployments that all its folders ask for.
pub proof fn law_each_project_gathers_its_deployments(
    setup: SetupView,
    start: StateView,
    events: Seq<EventView>,
    steps: Seq<Step>,
    n: int,
)
    requires
        runs(setup, start, events, steps),
        single_run(events),
        counts(start),
        knows_configured(setup.config, start),
        0 <= n < steps.len(),
        in_order_so_far(steps[n]),
        !(steps[n].state.stage is Resetting),
    ensures
        gathers(steps[n].state.targets, deployed(steps, n + 1)),
        !(steps[n].state.stage is Deploying) ==> gathers(
            steps[n].state.targets,
            owed(events, configured(setup.config), n + 1),
        ),
    decreases n,
{
    let before = state_before(start, steps, n);
    let after = steps[n].state.targets;
    assert(takes(setup, start, events, steps, n));
    reveal_with_fuel(deployed, 2);
    lemma_run_keeps(setup, start, events, steps, n);
    law_runs_know_configured_targets(setup, before, events[n], steps[n]);
    if n == 0 || before.stage is Resetting {
        if n > 0 {
            law_every_known_target_of_a_folder_is_deployed_to(setup, start, events, steps, n - 1);
        }
        assert(deployed(steps, n + 1) =~= Seq::<ContextView>::empty());
        assert forall|t: Seq<char>| #[trigger] after.contains_key(t) implies after[t].projects
            == Map::<Seq<char>, ArgoCDProjectView>::empty() by {
            if n > 0 {
                law_a_run_begins_with_empty_targets(setup, before, events[n], steps[n], t);
            } else {
                assert(configured(setup.config).contains(t));
            }
        }
    } else {
        assert(!(events[n] is Start));
        assert(!(before.stage is Idle));
        law_each_project_gathers_its_deployments(setup, start, events, steps, n - 1);
        lemma_deploys_next_counts(before, events[n]);
        if let Some((folder, from)) = deploys_next(before.stage, events[n]) {
            lemma_deploying_gathers(
                setup,
                before.targets,
                folder,
                from,
                steps[n],
                deployed(steps, n),
            );
        } else {
            assert(after == before.targets);
        }
    }
    law_every_known_target_of_a_folder_is_deployed_to(setup, start, events, steps, n);
    let all = deployed(steps, n + 1);
    assert(all + Seq::<ContextView>::empty() =~= all);
}

/// The step asks for a result to be written, or ends the run.
pub open spec fn writes_results(step: Step) -> bool {
    step.result is Ok && match step.result->Ok_0 {
        ActionView::CreateConfig { .. } => true,
        ActionView::WriteConfig { .. } => true,
        ActionView::WriteProject { .. } => true,
        ActionView::Finish => true,
        _ => false,
    }
}

/// The results are being written, or the run is over.
pub open spec fn is_writing(stage: StageView) -> bool {
    stage is Creating || stage is WritingConfig || stage is WritingProject || stage is Idle
}

/// No result is written before the last folder: from the first one on, a run takes no folder any
/// more, and the targets stay as they are.
pub proof fn law_results_are_written_after_the_last_folder(
    setup: SetupView,
    start: StateView,
    events: Seq<EventView>,
    steps: Seq<Step>,
    n: int,
    m: int,
)
    requires
        runs(setup, start, events, steps),
        single_run(events),
        0 <= n < m < steps.len(),
        writes_results(steps[n]),
    ensures
        !(events[m] is Folder),
        is_writing(steps[m].state.stage),
        steps[m].state.targets == steps[n].state.targets,
    decreases m,
{
    assert(takes(setup, start, events, steps, n));
    assert(takes(setup, start, events, steps, m));
    if m - 1 > n {
        law_results_are_written_after_the_last_folder(setup, start, events, steps, n, m - 1);
    } else {
        assert(is_writing(steps[n].state.stage));
    }
}

/// The parts of a deployment come in order: a folder is copied only when the deployment before is
/// done, values are written after the copy where it holds a chart, and a script is run after the
/// values, or after the copy where it holds no chart. Both are done at the path of the copy.
pub proof fn law_parts_of_a_deployment_come_in_order(
    setup: SetupView,
    state: StateView,
    event: EventView,
    step: Step,
)
    requires
        steps_to(setup, state, event, step),
        step.result is Ok,
    ensures
        match step.result->Ok_0 {
            ActionView::CopyFolder { .. } => deploys_next(state.stage, event) is Some,
            ActionView::WriteValues { path, values: _ } => {
                &&& state.stage matches StageView::Deploying(d, Part::Copying)
                &&& path == d.context.path
                &&& event == (EventView::Copied { has_chart: true })
                &&& step.state.stage == StageView::Deploying(d, Part::WritingValues)
            },
            ActionView::RunScript { path, script } => {
                &&& state.stage matches StageView::Deploying(d, part)
                &&& path == d.context.path
                &&& match part {
                    Part::Copying => event == (EventView::Copied { has_chart: false }),
                    Part::WritingValues => event is Done,
                    Part::RunningScript => false,
                }
                &&& d.folder.metadata.script == Some(script)
                &&& step.state.stage == StageView::Deploying(d, Part::RunningScript)
            },
            _ => true,
        },
{
}

} // verus!
