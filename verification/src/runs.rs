//! What holds of whole runs, however many steps they take.

use vstd::prelude::*;

use crate::config::{ConfigView, MetadataView, TargetSpec};
use crate::error::ErrorView;
use crate::json::{merged, or_empty_object, JsonView};
use crate::laws::{
    configured, counts, knows_configured, law_runs_know_configured_targets,
    lemma_deploying_keeps_known, lemma_next_known,
};
use crate::steps::{
    application_renders_to, context_for, deploy_rendered, deploys_from, deploys_next, next_known,
    steps_to, target_vars, with_project, ActionView, DeploymentView, EventView, FolderView,
    SetupView, StageView, StateView, Step,
};
use crate::targets::TargetView;
use crate::template::may_render;

verus! {

/// The state that the step at position `i` is taken from.
pub open spec fn state_before(start: StateView, steps: Seq<Step>, i: int) -> StateView {
    if i <= 0 {
        start
    } else {
        steps[i - 1].state
    }
}

/// The step at position `i` is one that can be taken when the event at that position comes.
pub open spec fn takes(
    setup: SetupView,
    start: StateView,
    events: Seq<EventView>,
    steps: Seq<Step>,
    i: int,
) -> bool {
    steps_to(setup, state_before(start, steps, i), events[i], steps[i])
}

/// A processor in the state `start` that is told `events` can take these steps.
pub open spec fn runs(
    setup: SetupView,
    start: StateView,
    events: Seq<EventView>,
    steps: Seq<Step>,
) -> bool {
    &&& events.len() == steps.len()
    &&& forall|i: int| 0 <= i < steps.len() ==> #[trigger] takes(setup, start, events, steps, i)
}

/// No two configured targets have the same name.
pub open spec fn distinct_targets(config: ConfigView) -> bool {
    forall|i: int, j: int|
        0 <= i < j < config.targets.len() ==> (#[trigger] config.targets[i]).name != (
        #[trigger] config.targets[j]).name
}

/// How many of the configured targets are reset at this stage.
pub open spec fn targets_reset(config: ConfigView, stage: StageView) -> int {
    match stage {
        StageView::Idle => 0,
        StageView::Resetting(i) => i,
        _ => config.targets.len() as int,
    }
}

/// The targets that are reset have the variables that the configuration gives them.
pub open spec fn holds_target_vars(config: ConfigView, state: StateView) -> bool {
    forall|j: int|
        0 <= j < targets_reset(config, state.stage) ==> {
            &&& state.targets.contains_key((#[trigger] config.targets[j]).name)
            &&& state.targets[config.targets[j].name].vars == target_vars(config, j)
        }
}

/// Deploying leaves the variables of every target as they are, and lays those that the folder gives
/// for the target over them.
proof fn lemma_deploying_layers_vars(
    setup: SetupView,
    targets: Map<Seq<char>, TargetView>,
    folder: FolderView,
    from: int,
    step: Step,
)
    requires
        0 <= from <= folder.metadata.targets.len(),
        deploys_from(setup, targets, folder, from, step),
    ensures
        forall|t: Seq<char>| #[trigger]
            targets.contains_key(t) ==> step.state.targets[t].vars == targets[t].vars,
        step.result matches Ok(ActionView::CopyFolder { vars, context }) ==> {
            &&& step.state.stage matches StageView::Deploying(d, part)
            &&& part is Copying
            &&& d.folder == folder
            &&& d.vars == vars
            &&& d.context == context
            &&& from < d.next <= folder.metadata.targets.len()
            &&& folder.metadata.targets[d.next - 1].name == context.target_name
            &&& targets.contains_key(context.target_name)
            &&& vars == merged(
                targets[context.target_name].vars,
                or_empty_object(folder.metadata.targets[d.next - 1].vars),
            )
        },
        step.state.stage is Deploying ==> step.result is Ok && step.result->Ok_0 is CopyFolder,
{
    lemma_next_known(folder.metadata.targets, targets.dom(), from);
}

/// The targets keep the variables that the configuration gives them, whatever a run is told.
proof fn lemma_targets_keep_vars(setup: SetupView, state: StateView, event: EventView, step: Step)
    requires
        distinct_targets(setup.config),
        counts(state),
        knows_configured(setup.config, state),
        holds_target_vars(setup.config, state),
        steps_to(setup, state, event, step),
    ensures
        holds_target_vars(setup.config, step.state),
{
    if let Some((folder, from)) = deploys_next(state.stage, event) {
        lemma_deploying_keeps_known(setup, state.targets, folder, from, step);
        lemma_deploying_layers_vars(setup, state.targets, folder, from, step);
        assert(forall|t: Seq<char>|
            state.targets.contains_key(t) == #[trigger] step.state.targets.contains_key(t));
    }
}

/// What a run keeps, up to the step before position `n`.
pub proof fn lemma_run_keeps(
    setup: SetupView,
    start: StateView,
    events: Seq<EventView>,
    steps: Seq<Step>,
    n: int,
)
    requires
        runs(setup, start, events, steps),
        counts(start),
        knows_configured(setup.config, start),
        0 <= n <= steps.len(),
    ensures
        counts(state_before(start, steps, n)),
        knows_configured(setup.config, state_before(start, steps, n)),
        start.stage is Idle && distinct_targets(setup.config) ==> holds_target_vars(
            setup.config,
            state_before(start, steps, n),
        ),
    decreases n,
{
    if n > 0 {
        lemma_run_keeps(setup, start, events, steps, n - 1);
        let before = state_before(start, steps, n - 1);
        assert(takes(setup, start, events, steps, n - 1));
        law_runs_know_configured_targets(setup, before, events[n - 1], steps[n - 1]);
        if start.stage is Idle && distinct_targets(setup.config) {
            lemma_targets_keep_vars(setup, before, events[n - 1], steps[n - 1]);
        }
    }
}

/// At every point of a run, the variables of a deployment are those for all targets, those of the
/// configured target laid over them, and those that the folder gives for the target laid over both.
/// Nothing that was deployed before has any influence. The values for the chart hold the same ones.
pub proof fn law_deployments_layer_their_variables(
    setup: SetupView,
    start: StateView,
    events: Seq<EventView>,
    steps: Seq<Step>,
    n: int,
    c: int,
)
    requires
        distinct_targets(setup.config),
        start.stage is Idle,
        knows_configured(setup.config, start),
        runs(setup, start, events, steps),
        0 <= n < steps.len(),
        steps[n].result is Ok,
        steps[n].result->Ok_0 is CopyFolder,
        0 <= c < setup.config.targets.len(),
        setup.config.targets[c].name == steps[n].result->Ok_0->CopyFolder_context.target_name,
    ensures
        ({
            let config = setup.config;
            let action = steps[n].result->Ok_0;
            let before = state_before(start, steps, n).stage;
            &&& steps[n].state.stage matches StageView::Deploying(d, _)
            &&& deploys_next(before, events[n]) matches Some((folder, _))
            &&& d.folder == folder
            &&& 0 < d.next <= folder.metadata.targets.len()
            &&& folder.metadata.targets[d.next - 1].name == config.targets[c].name
            &&& d.vars == action->CopyFolder_vars
            &&& d.vars == merged(
                merged(or_empty_object(config.vars), or_empty_object(config.targets[c].vars)),
                or_empty_object(folder.metadata.targets[d.next - 1].vars),
            )
        }),
{
    lemma_run_keeps(setup, start, events, steps, n);
    let before = state_before(start, steps, n);
    assert(takes(setup, start, events, steps, n));
    if let Some((folder, from)) = deploys_next(before.stage, events[n]) {
        lemma_deploying_layers_vars(setup, before.targets, folder, from, steps[n]);
    }
}

/// Rendering that template with the same entries always comes to the same.
pub open spec fn renders_one_way(templates: tera::Tera, template: Seq<char>) -> bool {
    forall|
        entries: Map<Seq<char>, JsonView>,
        a: Result<Seq<char>, tera::Error>,
        b: Result<Seq<char>, tera::Error>,
    | #[trigger]
        may_render(templates, template, entries, a) && #[trigger] may_render(
            templates,
            template,
            entries,
            b,
        ) ==> a == b
}

/// Both have come equally far, and hold the same, but for what is left of earlier runs in targets
/// that are still to be reset.
pub open spec fn equally_far(config: ConfigView, a: StateView, b: StateView) -> bool {
    &&& a.stage == b.stage
    &&& match a.stage {
        StageView::Resetting(i) => forall|j: int|
            0 <= j < i ==> a.targets[(#[trigger] config.targets[j]).name]
                == b.targets[config.targets[j].name],
        _ => a.targets == b.targets,
    }
}

/// Where all configured targets are known and agree, and no others are known, the targets are the
/// same.
proof fn lemma_configured_targets_are_all(
    config: ConfigView,
    a: Map<Seq<char>, TargetView>,
    b: Map<Seq<char>, TargetView>,
)
    requires
        forall|t: Seq<char>| #[trigger] a.contains_key(t) ==> configured(config).contains(t),
        forall|t: Seq<char>| #[trigger] b.contains_key(t) ==> configured(config).contains(t),
        forall|j: int|
            0 <= j < config.targets.len() ==> {
                let name = (#[trigger] config.targets[j]).name;
                a.contains_key(name) && b.contains_key(name) && a[name] == b[name]
            },
    ensures
        a == b,
{
    let names = config.targets.map_values(|t: TargetSpec| t.name);
    assert forall|t: Seq<char>| configured(config).contains(t) implies a.contains_key(t)
        && b.contains_key(t) && a[t] == b[t] by {
        let j = choose|j: int| 0 <= j < names.len() && names[j] == t;
        assert(config.targets[j].name == t);
    }
    assert(a =~= b);
}

/// Told the same, processors that have come equally far take the same step.
proof fn lemma_same_step(
    setup: SetupView,
    a: StateView,
    b: StateView,
    event: EventView,
    step: Step,
    other: Step,
)
    requires
        renders_one_way(setup.templates, setup.application_template),
        counts(a),
        counts(b),
        knows_configured(setup.config, a),
        knows_configured(setup.config, b),
        event is Start || equally_far(setup.config, a, b),
        steps_to(setup, a, event, step),
        steps_to(setup, b, event, other),
    ensures
        step.result == other.result,
        equally_far(setup.config, step.state, other.state),
{
    let config = setup.config;
    law_runs_know_configured_targets(setup, a, event, step);
    law_runs_know_configured_targets(setup, b, event, other);
    if step.state.stage is Scanning && (event is Start || a.stage is Resetting) {
        lemma_configured_targets_are_all(config, step.state.targets, other.state.targets);
    }
}

/// A run that is told the same as another one takes the same steps, whatever earlier runs left:
/// nothing is gathered twice. In particular, a second run ends with the applications that the first
/// one ended with. An application template that gives one text now and another one
/// then is left out. The other templates play no part.
pub proof fn law_a_second_run_repeats_the_first(
    setup: SetupView,
    start: StateView,
    later: StateView,
    events: Seq<EventView>,
    steps: Seq<Step>,
    again: Seq<Step>,
    n: int,
)
    requires
        renders_one_way(setup.templates, setup.application_template),
        counts(start),
        counts(later),
        knows_configured(setup.config, start),
        knows_configured(setup.config, later),
        runs(setup, start, events, steps),
        runs(setup, later, events, again),
        events.len() > 0,
        events[0] is Start,
        0 <= n < steps.len(),
    ensures
        again[n].result == steps[n].result,
        again[n].state.stage == steps[n].state.stage,
        !(steps[n].state.stage is Resetting) ==> again[n].state.targets == steps[n].state.targets,
        equally_far(setup.config, steps[n].state, again[n].state),
    decreases n,
{
    if n > 0 {
        law_a_second_run_repeats_the_first(setup, start, later, events, steps, again, n - 1);
    }
    lemma_run_keeps(setup, start, events, steps, n);
    lemma_run_keeps(setup, later, events, again, n);
    assert(takes(setup, start, events, steps, n));
    assert(takes(setup, later, events, again, n));
    lemma_same_step(
        setup,
        state_before(start, steps, n),
        state_before(later, again, n),
        events[n],
        steps[n],
        again[n],
    );
}

/// The folder without the target that it names at position `k`.
pub open spec fn without_target(folder: FolderView, k: int) -> FolderView {
    FolderView {
        metadata: MetadataView {
            targets: folder.metadata.targets.remove(k),
            ..folder.metadata
        },
        ..folder
    }
}

/// Where position `n` lies when position `k` is taken out.
pub open spec fn closed_up(n: int, k: int) -> int {
    if n > k {
        n - 1
    } else {
        n
    }
}

/// Where position `n` lies when position `k` is put in again.
pub open spec fn opened_up(n: int, k: int) -> int {
    if n > k {
        n + 1
    } else {
        n
    }
}

/// The same stage, on the way through the folder without the target at position `k`.
pub open spec fn stage_without(stage: StageView, k: int) -> StageView {
    match stage {
        StageView::Deploying(d, part) => StageView::Deploying(
            DeploymentView {
                folder: without_target(d.folder, k),
                next: closed_up(d.next, k),
                ..d
            },
            part,
        ),
        _ => stage,
    }
}

/// The same step, on the way through the folder without the target at position `k`.
pub open spec fn step_without(step: Step, k: int) -> Step {
    Step {
        state: StateView { stage: stage_without(step.state.stage, k), ..step.state },
        ..step
    }
}

/// The same stage, on the way through `folder`, which has one more target at position `k`.
pub open spec fn stage_with(stage: StageView, folder: FolderView, k: int) -> StageView {
    match stage {
        StageView::Deploying(d, part) => StageView::Deploying(
            DeploymentView { folder, next: opened_up(d.next, k), ..d },
            part,
        ),
        _ => stage,
    }
}

/// The same step, on the way through `folder`, which has one more target at position `k`.
pub open spec fn step_with(step: Step, folder: FolderView, k: int) -> Step {
    Step {
        state: StateView { stage: stage_with(step.state.stage, folder, k), ..step.state },
        ..step
    }
}

/// The next known target is the same one when an unknown target is taken out.
proof fn lemma_next_known_without(
    wanted: Seq<TargetSpec>,
    known: Set<Seq<char>>,
    from: int,
    k: int,
)
    requires
        0 <= from <= wanted.len(),
        0 <= k < wanted.len(),
        !known.contains(wanted[k].name),
    ensures
        next_known(wanted, known, from) != k,
        next_known(wanted.remove(k), known, closed_up(from, k)) == closed_up(
            next_known(wanted, known, from),
            k,
        ),
    decreases wanted.len() - from,
{
    let shorter = wanted.remove(k);
    if from < wanted.len() {
        if from != k {
            assert(shorter[closed_up(from, k)] == wanted[from]);
        }
        if !known.contains(wanted[from].name) {
            lemma_next_known_without(wanted, known, from + 1, k);
        }
    }
}

/// Deploying goes on in the same way when an unknown target is taken out of the folder.
proof fn lemma_deploying_without(
    setup: SetupView,
    targets: Map<Seq<char>, TargetView>,
    folder: FolderView,
    from: int,
    k: int,
)
    requires
        0 <= from <= folder.metadata.targets.len(),
        0 <= k < folder.metadata.targets.len(),
        !targets.contains_key(folder.metadata.targets[k].name),
    ensures
        forall|step: Step| #[trigger]
            deploys_from(setup, targets, folder, from, step) ==> deploys_from(
                setup,
                targets,
                without_target(folder, k),
                closed_up(from, k),
                step_without(step, k),
            ),
        forall|step: Step| #[trigger]
            deploys_from(setup, targets, without_target(folder, k), closed_up(from, k), step)
                ==> deploys_from(setup, targets, folder, from, step_with(step, folder, k)),
{
    let wanted = folder.metadata.targets;
    let shorter = without_target(folder, k);
    lemma_next_known(wanted, targets.dom(), from);
    lemma_next_known_without(wanted, targets.dom(), from, k);
    let j = next_known(wanted, targets.dom(), from);
    if j < wanted.len() {
        assert(shorter.metadata.targets[closed_up(j, k)] == wanted[j]);
        let context = context_for(folder.path, wanted[j].name, folder.metadata.namespace);
        if let Ok(c) = context {
            let filed = with_project(targets, setup.config, wanted[j].name, folder.metadata, c);
            assert(filed == with_project(
                targets,
                setup.config,
                wanted[j].name,
                shorter.metadata,
                c,
            ));
            assert forall|step: Step| #[trigger]
                deploys_from(setup, targets, folder, from, step) implies deploys_from(
                setup,
                targets,
                shorter,
                closed_up(from, k),
                step_without(step, k),
            ) by {
                let rendered = choose|rendered: Result<Seq<char>, ErrorView>|
                    {
                        &&& #[trigger] application_renders_to(
                            setup,
                            folder.metadata.application_options,
                            c,
                            rendered,
                        )
                        &&& step == deploy_rendered(filed, folder, j, c, rendered)
                    };
                assert(application_renders_to(
                    setup,
                    shorter.metadata.application_options,
                    c,
                    rendered,
                ));
                assert(step_without(step, k) == deploy_rendered(
                    filed,
                    shorter,
                    closed_up(j, k),
                    c,
                    rendered,
                ));
            }
            assert forall|step: Step| #[trigger]
                deploys_from(setup, targets, shorter, closed_up(from, k), step) implies deploys_from(
                setup,
                targets,
                folder,
                from,
                step_with(step, folder, k),
            ) by {
                let rendered = choose|rendered: Result<Seq<char>, ErrorView>|
                    {
                        &&& #[trigger] application_renders_to(
                            setup,
                            shorter.metadata.application_options,
                            c,
                            rendered,
                        )
                        &&& step == deploy_rendered(filed, shorter, closed_up(j, k), c, rendered)
                    };
                assert(application_renders_to(
                    setup,
                    folder.metadata.application_options,
                    c,
                    rendered,
                ));
                assert(step_with(step, folder, k) == deploy_rendered(filed, folder, j, c, rendered));
            }
        }
    }
}

/// From the step at position `m` to the one at position `i`, a run does nothing but deploy.
pub open spec fn deploys_throughout(steps: Seq<Step>, m: int, i: int) -> bool {
    forall|l: int| m <= l <= i ==> (#[trigger] steps[l]).state.stage is Deploying
}

/// The same steps, when the folder that came with the event at position `m` has no target at
/// position `k`.
pub open spec fn steps_without(steps: Seq<Step>, m: int, k: int) -> Seq<Step> {
    Seq::new(
        steps.len(),
        |i: int|
            if m <= i && deploys_throughout(steps, m, i) {
                step_without(steps[i], k)
            } else {
                steps[i]
            },
    )
}

/// The same steps, when it is `folder` that came with the event at position `m`, with one more
/// target at position `k`.
pub open spec fn steps_with(steps: Seq<Step>, m: int, folder: FolderView, k: int) -> Seq<Step> {
    Seq::new(
        steps.len(),
        |i: int|
            if m <= i && deploys_throughout(steps, m, i) {
                step_with(steps[i], folder, k)
            } else {
                steps[i]
            },
    )
}

/// While nothing but the folder that came with the event at position `m` is deployed, that folder
/// is at hand, and the same targets are known.
proof fn lemma_folder_stays_at_hand(
    setup: SetupView,
    start: StateView,
    events: Seq<EventView>,
    steps: Seq<Step>,
    m: int,
    folder: FolderView,
    i: int,
)
    requires
        runs(setup, start, events, steps),
        0 <= m <= i < steps.len(),
        events[m] == EventView::Folder(folder),
        deploys_throughout(steps, m, i),
    ensures
        steps[i].state.targets.dom() == state_before(start, steps, m).targets.dom(),
        steps[i].state.stage matches StageView::Deploying(d, _) && d.folder == folder && 0 <= d.next
            <= folder.metadata.targets.len(),
    decreases i,
{
    assert(takes(setup, start, events, steps, i));
    let before = state_before(start, steps, i);
    if i == m {
        lemma_deploying_keeps_known(setup, before.targets, folder, 0, steps[i]);
        lemma_deploying_layers_vars(setup, before.targets, folder, 0, steps[i]);
    } else {
        lemma_folder_stays_at_hand(setup, start, events, steps, m, folder, i - 1);
        assert(steps[i].state.stage is Deploying);
        if let Some((f, from)) = deploys_next(before.stage, events[i]) {
            lemma_deploying_keeps_known(setup, before.targets, folder, from, steps[i]);
            lemma_deploying_layers_vars(setup, before.targets, folder, from, steps[i]);
        }
    }
}

/// An unknown target in a folder changes nothing, also among known ones: without it, a run can take
/// the same steps, ask for the same and gather the same.
pub proof fn law_an_unknown_target_can_be_left_out(
    setup: SetupView,
    start: StateView,
    events: Seq<EventView>,
    steps: Seq<Step>,
    m: int,
    folder: FolderView,
    k: int,
)
    requires
        runs(setup, start, events, steps),
        0 <= m < steps.len(),
        events[m] == EventView::Folder(folder),
        0 <= k < folder.metadata.targets.len(),
        !state_before(start, steps, m).targets.contains_key(folder.metadata.targets[k].name),
    ensures
        runs(
            setup,
            start,
            events.update(m, EventView::Folder(without_target(folder, k))),
            steps_without(steps, m, k),
        ),
        forall|i: int|
            0 <= i < steps.len() ==> {
                &&& (#[trigger] steps_without(steps, m, k)[i]).result == steps[i].result
                &&& steps_without(steps, m, k)[i].state.targets == steps[i].state.targets
            },
{
    let told = events.update(m, EventView::Folder(without_target(folder, k)));
    let other = steps_without(steps, m, k);
    assert forall|i: int| 0 <= i < other.len() implies #[trigger] takes(
        setup,
        start,
        told,
        other,
        i,
    ) by {
        assert(takes(setup, start, events, steps, i));
        let before = state_before(start, steps, i);
        if i == m {
            lemma_deploying_without(setup, before.targets, folder, 0, k);
            assert(deploys_from(setup, before.targets, folder, 0, steps[i]));
        } else if i > m && deploys_throughout(steps, m, i - 1) {
            lemma_folder_stays_at_hand(setup, start, events, steps, m, folder, i - 1);
            assert(before.targets.dom().contains(folder.metadata.targets[k].name)
                == before.targets.contains_key(folder.metadata.targets[k].name));
            lemma_deploying_without(setup, before.targets, folder, before.stage->Deploying_0.next, k);
            if steps[i].state.stage is Deploying {
                assert(deploys_throughout(steps, m, i));
            }
        }
    }
}

/// An unknown target in a folder changes nothing, also among known ones: with it, a run can take
/// the same steps, ask for the same and gather the same.
pub proof fn law_an_unknown_target_can_be_put_in(
    setup: SetupView,
    start: StateView,
    events: Seq<EventView>,
    steps: Seq<Step>,
    m: int,
    folder: FolderView,
    k: int,
)
    requires
        runs(setup, start, events, steps),
        0 <= m < steps.len(),
        0 <= k < folder.metadata.targets.len(),
        events[m] == EventView::Folder(without_target(folder, k)),
        !state_before(start, steps, m).targets.contains_key(folder.metadata.targets[k].name),
    ensures
        runs(
            setup,
            start,
            events.update(m, EventView::Folder(folder)),
            steps_with(steps, m, folder, k),
        ),
        forall|i: int|
            0 <= i < steps.len() ==> {
                &&& (#[trigger] steps_with(steps, m, folder, k)[i]).result == steps[i].result
                &&& steps_with(steps, m, folder, k)[i].state.targets == steps[i].state.targets
            },
{
    let shorter = without_target(folder, k);
    let told = events.update(m, EventView::Folder(folder));
    let other = steps_with(steps, m, folder, k);
    assert forall|i: int| 0 <= i < other.len() implies #[trigger] takes(
        setup,
        start,
        told,
        other,
        i,
    ) by {
        assert(takes(setup, start, events, steps, i));
        let before = state_before(start, steps, i);
        if i == m {
            lemma_deploying_without(setup, before.targets, folder, 0, k);
            assert(closed_up(0, k) == 0);
            assert(deploys_from(setup, before.targets, shorter, 0, steps[i]));
        } else if i > m && deploys_throughout(steps, m, i - 1) {
            lemma_folder_stays_at_hand(setup, start, events, steps, m, shorter, i - 1);
            assert(before.targets.dom().contains(folder.metadata.targets[k].name)
                == before.targets.contains_key(folder.metadata.targets[k].name));
            let next = before.stage->Deploying_0.next;
            lemma_deploying_without(setup, before.targets, folder, opened_up(next, k), k);
            if steps[i].state.stage is Deploying {
                assert(deploys_throughout(steps, m, i));
            }
            assert(closed_up(opened_up(next, k), k) == next);
        }
    }
}

} // verus!
