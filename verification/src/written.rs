//! What a whole run writes, and where.

use vstd::prelude::*;

use crate::asked::{
    is_core_of, law_what_follows_in_a_deployment, law_what_is_written_of_a_target,
};
use crate::config::ContextView;
use crate::filters::yaml_text;
use crate::folder::bargo_values;
use crate::gathered::{in_order_so_far, is_writing, single_run};
use crate::json::JsonView;
use crate::runs::{runs, state_before, takes};
use crate::sorted_map::keys_in_order;
use crate::steps::{
    deploys_next, ActionView, EventView, FolderView, SetupView, StageView, StateView, Step,
};
use crate::targets::TargetView;

verus! {

/// The variables and the context of the last folder that the first `n` steps ask to be copied.
pub open spec fn last_copy(steps: Seq<Step>, n: int) -> Option<(JsonView, ContextView)>
    decreases n,
{
    if n <= 0 {
        None
    } else {
        match steps[n - 1].result {
            Ok(ActionView::CopyFolder { vars, context }) => Some((vars, context)),
            _ => last_copy(steps, n - 1),
        }
    }
}

/// The last folder that is found among the first `n` events.
pub open spec fn last_folder(events: Seq<EventView>, n: int) -> Option<FolderView>
    decreases n,
{
    if n <= 0 {
        None
    } else {
        match events[n - 1] {
            EventView::Folder(folder) => Some(folder),
            _ => last_folder(events, n - 1),
        }
    }
}

/// A deployment that is under way is of the folder that was found last, and has the variables and
/// the context of the copy that was asked for last.
proof fn lemma_last_copy_is_at_hand(
    setup: SetupView,
    start: StateView,
    events: Seq<EventView>,
    steps: Seq<Step>,
    n: int,
)
    requires
        runs(setup, start, events, steps),
        single_run(events),
        0 <= n < steps.len(),
    ensures
        steps[n].state.stage matches StageView::Deploying(d, _) ==> {
            &&& last_copy(steps, n + 1) == Some((d.vars, d.context))
            &&& last_folder(events, n + 1) == Some(d.folder)
        },
    decreases n,
{
    assert(takes(setup, start, events, steps, n));
    if n > 0 {
        lemma_last_copy_is_at_hand(setup, start, events, steps, n - 1);
        assert(!(events[n] is Start));
        let before = state_before(start, steps, n);
        if steps[n].state.stage is Deploying {
            assert(deploys_next(before.stage, events[n]) is Some || before.stage is Deploying);
        }
    }
}

/// Values and scripts belong to the copy that was asked for last. Values are written at the path
/// that the folder was copied to, and are the YAML of the variables that it was copied with and of
/// what its application is called. A script is run at the same path, with or without a chart, and is
/// that of the folder that was found last.
pub proof fn law_values_and_scripts_go_where_the_copy_went(
    setup: SetupView,
    start: StateView,
    events: Seq<EventView>,
    steps: Seq<Step>,
    n: int,
)
    requires
        runs(setup, start, events, steps),
        single_run(events),
        0 <= n < steps.len(),
    ensures
        match steps[n].result {
            Ok(ActionView::WriteValues { path, values }) => {
                &&& last_copy(steps, n) matches Some((vars, context))
                &&& path == context.path
                &&& yaml_text(bargo_values(vars, context)) matches Ok(text)
                &&& is_core_of(values, text)
            },
            Ok(ActionView::RunScript { path, script }) => {
                &&& last_copy(steps, n) matches Some((_, context))
                &&& path == context.path
                &&& last_folder(events, n) matches Some(folder)
                &&& folder.metadata.script == Some(script)
            },
            _ => true,
        },
{
    assert(takes(setup, start, events, steps, n));
    if n > 0 {
        assert(!(events[n] is Start));
        lemma_last_copy_is_at_hand(setup, start, events, steps, n - 1);
        let before = state_before(start, steps, n);
        if let StageView::Deploying(d, part) = before.stage {
            law_what_follows_in_a_deployment(setup, before, events[n], steps[n], d, part);
        }
    }
}

/// The results of the target at position `i`, from its project at position `p` on, in the order of
/// the names of the projects. A result is named by its target and its project.
pub open spec fn projects_owed(
    targets: Map<Seq<char>, TargetView>,
    i: int,
    p: int,
) -> Seq<(Seq<char>, Option<Seq<char>>)> {
    let target = keys_in_order(targets.dom())[i];
    let names = keys_in_order(targets[target].projects.dom());
    Seq::new(
        (if p <= names.len() {
            names.len() - p
        } else {
            0
        }) as nat,
        |k: int| (target, Some(names[p + k])),
    )
}

/// The results of the targets from position `i` on, in the order of their names: for each target its
/// configuration, and then its projects. A configuration is named by its target alone.
pub open spec fn targets_owed(
    targets: Map<Seq<char>, TargetView>,
    i: int,
) -> Seq<(Seq<char>, Option<Seq<char>>)>
    decreases keys_in_order(targets.dom()).len() - i,
{
    let names = keys_in_order(targets.dom());
    if i >= names.len() {
        Seq::empty()
    } else {
        seq![(names[i], None)] + projects_owed(targets, i, 0) + targets_owed(targets, i + 1)
    }
}

/// The results that the first `n` steps ask to be written.
pub open spec fn written(steps: Seq<Step>, n: int) -> Seq<(Seq<char>, Option<Seq<char>>)>
    decreases n,
{
    if n <= 0 {
        Seq::empty()
    } else {
        match steps[n - 1].result {
            Ok(ActionView::WriteConfig { target, .. }) => written(steps, n - 1).push(
                (target, None),
            ),
            Ok(ActionView::WriteProject { target, name, .. }) => written(steps, n - 1).push(
                (target, Some(name)),
            ),
            _ => written(steps, n - 1),
        }
    }
}

/// The results that are still to be written.
pub open spec fn still_to_write(
    targets: Map<Seq<char>, TargetView>,
    stage: StageView,
) -> Seq<(Seq<char>, Option<Seq<char>>)> {
    match stage {
        StageView::Creating(i) => targets_owed(targets, i),
        StageView::WritingConfig(i) => projects_owed(targets, i, 0) + targets_owed(targets, i + 1),
        StageView::WritingProject(i, p) => projects_owed(targets, i, p + 1) + targets_owed(
            targets,
            i + 1,
        ),
        _ => Seq::empty(),
    }
}

/// Positions of targets exist, and so do those of projects.
spec fn at_results(targets: Map<Seq<char>, TargetView>, stage: StageView) -> bool {
    let names = keys_in_order(targets.dom());
    match stage {
        StageView::Creating(i) => 0 <= i < names.len(),
        StageView::WritingConfig(i) => 0 <= i < names.len(),
        StageView::WritingProject(i, p) => 0 <= i < names.len() && 0 <= p < keys_in_order(
            targets[names[i]].projects.dom(),
        ).len(),
        _ => true,
    }
}

proof fn lemma_projects_owed(targets: Map<Seq<char>, TargetView>, i: int, p: int)
    requires
        0 <= p,
    ensures
        ({
            let target = keys_in_order(targets.dom())[i];
            let names = keys_in_order(targets[target].projects.dom());
            if p < names.len() {
                projects_owed(targets, i, p) == seq![(target, Some(names[p]))] + projects_owed(
                    targets,
                    i,
                    p + 1,
                )
            } else {
                projects_owed(targets, i, p).len() == 0
            }
        }),
{
    let target = keys_in_order(targets.dom())[i];
    let names = keys_in_order(targets[target].projects.dom());
    if p < names.len() {
        assert(projects_owed(targets, i, p) =~= seq![(target, Some(names[p]))] + projects_owed(
            targets,
            i,
            p + 1,
        ));
    }
}

/// Before there is no folder left, nothing is written. From then on, what was written and what is
/// still to be written are the results of all targets: the configuration and each project of each
/// target once, target by target and project by project, in the order of their names. When the run
/// is over, all of them were written.
pub proof fn law_every_result_is_written_once(
    setup: SetupView,
    start: StateView,
    events: Seq<EventView>,
    steps: Seq<Step>,
    n: int,
)
    requires
        runs(setup, start, events, steps),
        single_run(events),
        0 <= n < steps.len(),
        in_order_so_far(steps[n]),
    ensures
        ({
            let targets = steps[n].state.targets;
            if is_writing(steps[n].state.stage) {
                written(steps, n + 1) + still_to_write(targets, steps[n].state.stage)
                    == targets_owed(targets, 0)
            } else {
                written(steps, n + 1).len() == 0
            }
        }),
        steps[n].state.stage is Idle ==> written(steps, n + 1) == targets_owed(
            steps[n].state.targets,
            0,
        ),
{
    lemma_results(setup, start, events, steps, n);
    let all = written(steps, n + 1);
    assert(all + Seq::<(Seq<char>, Option<Seq<char>>)>::empty() =~= all);
}

proof fn lemma_results(
    setup: SetupView,
    start: StateView,
    events: Seq<EventView>,
    steps: Seq<Step>,
    n: int,
)
    requires
        runs(setup, start, events, steps),
        single_run(events),
        0 <= n < steps.len(),
        in_order_so_far(steps[n]),
    ensures
        ({
            let targets = steps[n].state.targets;
            &&& at_results(targets, steps[n].state.stage)
            &&& if is_writing(steps[n].state.stage) {
                written(steps, n + 1) + still_to_write(targets, steps[n].state.stage)
                    == targets_owed(targets, 0)
            } else {
                written(steps, n + 1) == Seq::<(Seq<char>, Option<Seq<char>>)>::empty()
            }
        }),
    decreases n,
{
    assert(takes(setup, start, events, steps, n));
    let before = state_before(start, steps, n);
    let after = steps[n].state;
    reveal_with_fuel(written, 2);
    reveal_with_fuel(targets_owed, 2);
    if n == 0 {
        assert(written(steps, 1) =~= Seq::empty());
    } else {
        assert(!(events[n] is Start));
        assert(!(before.stage is Idle));
        lemma_results(setup, start, events, steps, n - 1);
        let targets = before.targets;
        let names = keys_in_order(targets.dom());
        let sofar = written(steps, n);
        if is_writing(before.stage) {
            assert(after.targets == targets);
            match before.stage {
                StageView::Creating(i) => {
                    assert(sofar + targets_owed(targets, i) =~= sofar.push((names[i], None)) + (
                    projects_owed(targets, i, 0) + targets_owed(targets, i + 1)));
                },
                _ => {
                    let i = match before.stage {
                        StageView::WritingConfig(i) => i,
                        StageView::WritingProject(i, _) => i,
                        _ => 0,
                    };
                    let p = match before.stage {
                        StageView::WritingProject(_, p) => p + 1,
                        _ => 0,
                    };
                    law_what_is_written_of_a_target(setup, before, steps[n]);
                    lemma_projects_owed(targets, i, p);
                    let filed = keys_in_order(targets[names[i]].projects.dom());
                    if p < filed.len() {
                        let item = (names[i], Some(filed[p]));
                        let rest = projects_owed(targets, i, p + 1) + targets_owed(targets, i + 1);
                        assert(sofar + (projects_owed(targets, i, p) + targets_owed(targets, i + 1))
                            =~= sofar.push(item) + rest);
                    } else {
                        let rest = targets_owed(targets, i + 1);
                        assert(projects_owed(targets, i, p) + rest =~= rest);
                    }
                },
            }
        } else if events[n] is NoMoreFolders {
            assert(sofar + targets_owed(targets, 0) =~= targets_owed(targets, 0));
        }
    }
}

} // verus!
