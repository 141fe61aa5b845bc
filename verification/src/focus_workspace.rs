//! Switching from one workspace to another.

use std::collections::HashMap;
use vstd::prelude::*;

use crate::animation::{AnimationsConfig, SlideDirection};
use crate::container::{Container, IntoContainer, Workspace};
use crate::pending_sync::{PendingSync, PendingSyncView};
use crate::tree::ContainerKind;

verus! {

broadcast use vstd::std_specs::hash::group_hash_axioms;

pub struct WorkspaceConfig {
    pub name: String,
    /// Whether the workspace stays when it is empty and out of sight.
    pub keep_alive: bool,
}

pub struct UserConfig {
    pub animations: AnimationsConfig,
    /// The workspaces in the order in which they are configured.
    pub workspaces: Vec<WorkspaceConfig>,
}

pub struct ActiveWorkspace {
    pub config: WorkspaceConfig,
    /// The monitor that the workspace is on.
    pub monitor: Option<u128>,
    pub has_children: bool,
    /// The windows in the workspace, the last focused first.
    pub focus_order: Vec<Container>,
}

pub struct Monitor {
    /// The workspaces on the monitor, in their order.
    pub workspaces: Vec<u128>,
    /// The workspace that is displayed.
    pub displayed: Option<u128>,
}

pub struct WmState {
    pub workspaces: HashMap<u128, ActiveWorkspace>,
    pub monitors: HashMap<u128, Monitor>,
    /// The container that has focus.
    pub focused: Option<Container>,
    /// The workspace of that container.
    pub focused_workspace: Option<u128>,
    pub pending_sync: PendingSync,
    pub recent_workspace_name: Option<String>,
    /// A window whose workspace is to be followed later on.
    pub pending_follow: Option<u128>,
}

#[derive(Clone, Copy, Debug, PartialEq, Eq, Structural)]
pub enum FocusError {
    /// No workspace is currently focused.
    NoFocusedWorkspace,
    /// The workspace is on no monitor.
    NoMonitor,
    /// No workspace is currently displayed.
    NoDisplayedWorkspace,
}

/// What a target such as the next workspace, or one of a given name, stands
/// for: an active workspace, or the name of one that is not active yet, or
/// neither.
pub struct ResolvedTarget {
    pub name: Option<String>,
    pub workspace: Option<u128>,
}

/// What is left to do to focus a workspace.
pub enum FocusStep {
    /// There is no such workspace, and nothing to do.
    Nothing,
    /// The workspace of this name is activated and its focus asked for again.
    Activate(String),
    /// Focus has moved. An empty workspace is deactivated if there is one, and
    /// then the workspace that was left is remembered by its name.
    Switched { deactivate: Option<u128>, left: String },
}

impl WmState {
    /// Workspaces and monitors know each other.
    pub open spec fn wf(&self) -> bool {
        &&& forall|id: u128, at: int|
            #![trigger self.monitors@[id].workspaces@[at]]
            self.monitors@.contains_key(id) && 0 <= at < self.monitors@[id].workspaces@.len()
                ==> self.workspaces@.contains_key(self.monitors@[id].workspaces@[at])
        &&& forall|id: u128| #[trigger]
            self.workspaces@.contains_key(id) ==> match self.workspaces@[id].monitor {
                Some(monitor) => self.monitors@.contains_key(monitor),
                None => true,
            }
        &&& forall|id: u128| #[trigger]
            self.monitors@.contains_key(id) ==> match self.monitors@[id].displayed {
                Some(workspace) => self.workspaces@.contains_key(workspace),
                None => true,
            }
        &&& match self.focused_workspace {
            Some(workspace) => self.workspaces@.contains_key(workspace),
            None => true,
        }
    }

    /// Gives up following a window. User-initiated workspace focus supersedes
    /// any deferred follow.
    pub fn cancel_pending_follow(&mut self)
        ensures
            old(self).wf() ==> final(self).wf(),
            *final(self) == (WmState { pending_follow: None, ..*old(self) }),
    {
        self.pending_follow = None;
    }

    /// Begins to focus a workspace: gives up following a window and tells the
    /// workspace that has focus so far.
    pub fn begin_focus(&mut self) -> (focused: Result<u128, FocusError>)
        ensures
            old(self).wf() ==> final(self).wf(),
            *final(self) == (WmState { pending_follow: None, ..*old(self) }),
            focused == (match old(self).focused_workspace {
                Some(workspace) => Ok::<u128, FocusError>(workspace),
                None => Err(FocusError::NoFocusedWorkspace),
            }),
    {
        self.cancel_pending_follow();
        match self.focused_workspace {
            Some(workspace) => Ok(workspace),
            None => Err(FocusError::NoFocusedWorkspace),
        }
    }

    /// Ends a switch once no workspace is left to deactivate.
    pub fn finish_focus(&mut self, left: String)
        ensures
            old(self).wf() ==> final(self).wf(),
            final(self).pending_sync@ == (PendingSyncView {
                cursor_jump: true,
                ..old(self).pending_sync@
            }),
            *final(self) == (WmState {
                recent_workspace_name: Some(left),
                pending_sync: final(self).pending_sync,
                ..*old(self)
            }),
    {
        // Save the currently focused workspace as recent.
        self.recent_workspace_name = Some(left);
        self.pending_sync.queue_cursor_jump();
    }
}

/// The place of the first workspace of a given name, from `from` on.
pub open spec fn index_from(
    workspaces: Seq<WorkspaceConfig>,
    name: Seq<char>,
    from: int,
) -> Option<int>
    decreases workspaces.len() - from,
{
    if from < 0 || from >= workspaces.len() {
        None
    } else if workspaces[from].name@ == name {
        Some(from)
    } else {
        index_from(workspaces, name, from + 1)
    }
}

/// The place of a name in the configured order.
pub open spec fn index_of(workspaces: Seq<WorkspaceConfig>, name: Seq<char>) -> Option<int> {
    index_from(workspaces, name, 0)
}

/// Which way the content travels from one workspace to another, ordered as they
/// are configured. A switch that involves a workspace created on the fly has no
/// defensible direction, so it stays a cut, as all do without the animation.
pub open spec fn slide_between(
    animations: AnimationsConfig,
    workspaces: Seq<WorkspaceConfig>,
    from: Seq<char>,
    to: Seq<char>,
) -> Option<SlideDirection> {
    if animations.workspace_switch is None {
        None
    } else {
        match (index_of(workspaces, from), index_of(workspaces, to)) {
            (Some(a), Some(b)) => Some(SlideDirection::spec_between(a, b)),
            _ => None,
        }
    }
}

/// Whether a workspace has served its purpose once `displayed` is displayed.
pub open spec fn is_spent(
    workspaces: Map<u128, ActiveWorkspace>,
    displayed: u128,
    id: u128,
) -> bool {
    !workspaces[id].config.keep_alive && !workspaces[id].has_children && id != displayed
}

/// The first workspace of those listed, from `from` on, that has served its
/// purpose.
pub open spec fn first_spent(
    ids: Seq<u128>,
    workspaces: Map<u128, ActiveWorkspace>,
    displayed: u128,
    from: int,
) -> Option<u128>
    decreases ids.len() - from,
{
    if from < 0 || from >= ids.len() {
        None
    } else if is_spent(workspaces, displayed, ids[from]) {
        Some(ids[from])
    } else {
        first_spent(ids, workspaces, displayed, from + 1)
    }
}

/// Whichever window last had focus in a workspace, or the workspace itself.
pub open spec fn focus_in(workspaces: Map<u128, ActiveWorkspace>, id: u128) -> Container {
    if workspaces[id].focus_order@.len() > 0 {
        workspaces[id].focus_order@[0]
    } else {
        Workspace { id }.container()
    }
}

/// What waits to be carried out after a switch on a monitor from the workspace
/// `displayed` to `target`.
pub open spec fn synced(
    sync: PendingSyncView,
    slide: Option<SlideDirection>,
    monitor: u128,
    displayed: u128,
    target: u128,
) -> PendingSyncView {
    let focusing = PendingSyncView { focus: true, ..sync };
    if displayed == target {
        focusing
    } else {
        PendingSyncView {
            skip_animations: slide is None,
            slide,
            slide_monitor: Some(monitor),
            ..focusing
        }.redrawing(Workspace { id: displayed }.container()).redrawing(
            Workspace { id: target }.container(),
        )
    }
}

fn position_of_name(workspaces: &Vec<WorkspaceConfig>, name: &String) -> (at: Option<usize>)
    ensures
        match at {
            Some(at) => index_of(workspaces@, name@) == Some(at as int),
            None => index_of(workspaces@, name@) is None,
        },
{
    for k in 0..workspaces.len()
        invariant
            index_of(workspaces@, name@) == index_from(workspaces@, name@, k as int),
    {
        if workspaces[k].name == *name {
            return Some(k);
        }
    }
    None
}

fn slide_direction(config: &UserConfig, from: &String, to: &String) -> (slide: Option<
    SlideDirection,
>)
    ensures
        slide == slide_between(config.animations, config.workspaces@, from@, to@),
{
    if config.animations.workspace_switch.is_none() {
        return None;
    }
    match (
        position_of_name(&config.workspaces, from),
        position_of_name(&config.workspaces, to),
    ) {
        (Some(a), Some(b)) => Some(SlideDirection::between(a, b)),
        _ => None,
    }
}

/// The first workspace on a monitor that can be deactivated.
fn spent_workspace(state: &WmState, monitor: u128, displayed: u128) -> (id: Option<u128>)
    requires
        state.wf(),
        state.monitors@.contains_key(monitor),
    ensures
        id == first_spent(
            state.monitors@[monitor].workspaces@,
            state.workspaces@,
            displayed,
            0,
        ),
{
    let ids: &Vec<u128> = match state.monitors.get(&monitor) {
        Some(monitor) => &monitor.workspaces,
        None => return None,
    };
    for k in 0..ids.len()
        invariant
            state.wf(),
            state.monitors@.contains_key(monitor),
            *ids == state.monitors@[monitor].workspaces,
            first_spent(ids@, state.workspaces@, displayed, 0) == first_spent(
                ids@,
                state.workspaces@,
                displayed,
                k as int,
            ),
    {
        let id: u128 = ids[k];
        assert(state.workspaces@.contains_key(state.monitors@[monitor].workspaces@[k as int]));
        if let Some(workspace) = state.workspaces.get(&id) {
            if !workspace.config.keep_alive && !workspace.has_children && id != displayed {
                return Some(id);
            }
        }
    }
    None
}

/// Focuses what a target stands for, starting from the workspace `focused`.
///
/// This target can be a workspace name, the most recently focused workspace,
/// the next workspace, the previous workspace, or the workspace in a given
/// direction from the currently focused workspace.
///
/// The workspace will be activated if it isn't already active.
pub fn focus_workspace(
    target: ResolvedTarget,
    focused: u128,
    state: &mut WmState,
    config: &UserConfig,
) -> (step: Result<FocusStep, FocusError>)
    requires
        old(state).wf(),
        old(state).workspaces@.contains_key(focused),
        target.workspace matches Some(id) ==> old(state).workspaces@.contains_key(id),
    ensures
        final(state).wf(),
        match target.workspace {
            None => {
                &&& *final(state) == *old(state)
                &&& step == Ok::<FocusStep, FocusError>(
                    match target.name {
                        Some(name) => FocusStep::Activate(name),
                        None => FocusStep::Nothing,
                    },
                )
            },
            Some(id) => match old(state).workspaces@[id].monitor {
                None => {
                    &&& *final(state) == *old(state)
                    &&& step == Err::<FocusStep, FocusError>(FocusError::NoMonitor)
                },
                Some(monitor) => match old(state).monitors@[monitor].displayed {
                    None => {
                        &&& *final(state) == *old(state)
                        &&& step == Err::<FocusStep, FocusError>(FocusError::NoDisplayedWorkspace)
                    },
                    Some(displayed) => {
                        &&& step matches Ok(FocusStep::Switched { deactivate, left })
                        &&& left@ == old(state).workspaces@[focused].config.name@
                        &&& deactivate == (if displayed == id {
                            None
                        } else {
                            first_spent(
                                old(state).monitors@[monitor].workspaces@,
                                old(state).workspaces@,
                                id,
                                0,
                            )
                        })
                        &&& final(state).pending_sync@ == synced(
                            old(state).pending_sync@,
                            slide_between(
                                config.animations,
                                config.workspaces@,
                                old(state).workspaces@[displayed].config.name@,
                                old(state).workspaces@[id].config.name@,
                            ),
                            monitor,
                            displayed,
                            id,
                        )
                        &&& final(state).focused == Some(focus_in(old(state).workspaces@, id))
                        &&& old(state).workspaces@[id].focus_order@.len() > 0
                            ==> final(state).focused == Some(
                            old(state).workspaces@[id].focus_order@[0],
                        )
                        &&& old(state).workspaces@[id].focus_order@.len() == 0
                            ==> final(state).focused == Some(
                            (Container { id, kind: ContainerKind::Workspace }),
                        )
                        &&& final(state).focused_workspace == Some(id)
                        &&& final(state).workspaces@ == old(state).workspaces@
                        &&& final(state).monitors@ == old(state).monitors@.insert(
                            monitor,
                            Monitor {
                                displayed: Some(id),
                                ..old(state).monitors@[monitor]
                            },
                        )
                        &&& final(state).recent_workspace_name == old(state).recent_workspace_name
                        &&& final(state).pending_follow == old(state).pending_follow
                    },
                },
            },
        },
{
    let id: u128 = match target.workspace {
        Some(id) => id,
        None => return Ok(
            match target.name {
                Some(name) => FocusStep::Activate(name),
                None => FocusStep::Nothing,
            },
        ),
    };
    // Get the currently displayed workspace on the same monitor that the
    // workspace to focus is on.
    let (monitor, container, name): (u128, Container, String) = match state.workspaces.get(&id) {
        Some(workspace) => match workspace.monitor {
            // Set focus to whichever window last had focus in workspace. If the
            // workspace has no windows, then set focus to the workspace itself.
            Some(monitor) => (
                monitor,
                if workspace.focus_order.len() > 0 {
                    workspace.focus_order[0]
                } else {
                    Workspace { id }.into_container()
                },
                workspace.config.name.clone(),
            ),
            None => return Err(FocusError::NoMonitor),
        },
        None => return Err(FocusError::NoMonitor),
    };
    assert(state.monitors@.contains_key(monitor));
    let displayed: u128 = match state.monitors.get(&monitor) {
        Some(monitor) => match monitor.displayed {
            Some(displayed) => displayed,
            None => return Err(FocusError::NoDisplayedWorkspace),
        },
        None => return Err(FocusError::NoDisplayedWorkspace),
    };
    let left: String = match state.workspaces.get(&focused) {
        Some(workspace) => workspace.config.name.clone(),
        None => return Ok(FocusStep::Nothing),
    };
    let displayed_name: String = match state.workspaces.get(&displayed) {
        Some(workspace) => workspace.config.name.clone(),
        None => return Ok(FocusStep::Nothing),
    };
    state.focused = Some(container);
    state.focused_workspace = Some(id);
    if let Some(shown) = state.monitors.remove(&monitor) {
        state.monitors.insert(monitor, Monitor { workspaces: shown.workspaces, displayed: Some(id) });
    }
    assert(state.monitors@ =~= old(state).monitors@.insert(
        monitor,
        Monitor { displayed: Some(id), ..old(state).monitors@[monitor] },
    ));
    proof {
        assert forall|other: u128, at: int|
            #![trigger state.monitors@[other].workspaces@[at]]
            state.monitors@.contains_key(other) && 0 <= at
                < state.monitors@[other].workspaces@.len() implies state.workspaces@.contains_key(
            state.monitors@[other].workspaces@[at],
        ) by {
            assert(state.monitors@[other].workspaces@ == old(state).monitors@[other].workspaces@);
            assert(old(state).workspaces@.contains_key(
                old(state).monitors@[other].workspaces@[at],
            ));
        }
    }
    state.pending_sync.queue_focus_change();
    // Refocusing the workspace already on screen moves focus without changing
    // what is displayed. Sliding it, redrawing both workspaces and collecting
    // an empty one are all answers to a switch that did not happen.
    let mut deactivate: Option<u128> = None;
    if displayed != id {
        let slide: Option<SlideDirection> = slide_direction(config, &displayed_name, &name);
        // Display the workspace to switch focus to. A switch is not a move, so
        // the move animation is still wrong for it: with no slide configured
        // this stays a hard cut.
        state.pending_sync.set_skip_animations(slide.is_none()).set_workspace_slide(
            slide,
            Some(monitor),
        ).queue_container_to_redraw(Workspace { id: displayed }).queue_container_to_redraw(
            Workspace { id },
        );
        // Get empty workspace to destroy (if one is found). Scoped to the
        // monitor that switched. Searching every monitor lets a switch here
        // collect a stray empty workspace over there, and that deactivation is
        // a second workspace transition.
        deactivate = spent_workspace(state, monitor, id);
    }
    Ok(FocusStep::Switched { deactivate, left })
}

/// Focusing the workspace that is displayed already moves focus and does
/// nothing else.
pub proof fn law_refocusing_only_moves_focus(
    sync: PendingSyncView,
    slide: Option<SlideDirection>,
    monitor: u128,
    target: u128,
)
    ensures
        synced(sync, slide, monitor, target, target) == (PendingSyncView { focus: true, ..sync }),
{
}

/// A switch redraws both workspaces, and no monitor slides but the one that
/// switched. Without a slide it is a cut.
pub proof fn law_a_switch_stays_on_its_monitor(
    sync: PendingSyncView,
    slide: Option<SlideDirection>,
    monitor: u128,
    displayed: u128,
    target: u128,
    other: u128,
)
    requires
        displayed != target,
    ensures
        ({
            let after = synced(sync, slide, monitor, displayed, target);
            &&& after.changes()
            &&& after.redraws.contains_key(displayed)
            &&& after.redraws.contains_key(target)
            &&& after.slide_on(monitor) == slide
            &&& other != monitor ==> after.slide_on(other) is None
            &&& after.skip_animations <==> slide is None
        }),
{
}

/// A workspace is found at the first place that has its name, or not at all.
pub proof fn law_names_are_found_in_order(
    workspaces: Seq<WorkspaceConfig>,
    name: Seq<char>,
    from: int,
)
    requires
        0 <= from,
    ensures
        match index_from(workspaces, name, from) {
            Some(at) => {
                &&& from <= at < workspaces.len()
                &&& workspaces[at].name@ == name
                &&& forall|i: int| from <= i < at ==> (#[trigger] workspaces[i]).name@ != name
            },
            None => forall|i: int|
                from <= i < workspaces.len() ==> (#[trigger] workspaces[i]).name@ != name,
        },
    decreases workspaces.len() - from,
{
    if from < workspaces.len() && workspaces[from].name@ != name {
        law_names_are_found_in_order(workspaces, name, from + 1);
    }
}

/// Switching back slides the opposite way.
pub proof fn law_switching_back_slides_the_other_way(
    animations: AnimationsConfig,
    workspaces: Seq<WorkspaceConfig>,
    a: Seq<char>,
    b: Seq<char>,
)
    requires
        a != b,
    ensures
        match (
            slide_between(animations, workspaces, a, b),
            slide_between(animations, workspaces, b, a),
        ) {
            (Some(there), Some(back)) => back == there.spec_opposite(),
            (None, None) => true,
            _ => false,
        },
{
    law_names_are_found_in_order(workspaces, a, 0);
    law_names_are_found_in_order(workspaces, b, 0);
}

/// The workspace that goes is on the monitor, is empty, need not be kept and is
/// not displayed; none goes only if there is no such workspace.
pub proof fn law_only_spent_workspaces_go(
    ids: Seq<u128>,
    workspaces: Map<u128, ActiveWorkspace>,
    displayed: u128,
    from: int,
)
    requires
        0 <= from,
    ensures
        match first_spent(ids, workspaces, displayed, from) {
            Some(id) => {
                &&& ids.contains(id)
                &&& id != displayed
                &&& !workspaces[id].has_children
                &&& !workspaces[id].config.keep_alive
            },
            None => forall|i: int|
                from <= i < ids.len() ==> !is_spent(workspaces, displayed, #[trigger] ids[i]),
        },
    decreases ids.len() - from,
{
    if from < ids.len() && !is_spent(workspaces, displayed, ids[from]) {
        law_only_spent_workspaces_go(ids, workspaces, displayed, from + 1);
    }
}

/// Whichever window of a workspace had focus last gets it, however many windows
/// there are. The workspace itself gets it only where there are none.
pub proof fn law_the_last_focused_window_gets_focus(
    workspaces: Map<u128, ActiveWorkspace>,
    id: u128,
)
    ensures
        ({
            let order = workspaces[id].focus_order@;
            let focused = focus_in(workspaces, id);
            &&& order.len() > 0 ==> focused == order.first()
            &&& order.len() == 0 ==> focused.id == id && focused.kind is Workspace
            &&& focused == order.first() || order =~= Seq::<Container>::empty()
        }),
{
}

/// A window that gets focus in a workspace is the one that is focused when the
/// workspace is focused next, whatever else the workspace holds.
pub proof fn law_focus_returns_to_where_it_was(
    workspaces: Map<u128, ActiveWorkspace>,
    others: Map<u128, ActiveWorkspace>,
    id: u128,
    window: Container,
    rest: Seq<Container>,
)
    requires
        workspaces[id].focus_order@ == seq![window] + rest,
        others[id].focus_order@ == seq![window],
    ensures
        focus_in(workspaces, id) == window,
        focus_in(others, id) == window,
{
}

/// Content slides only where switching is animated and both workspaces are
/// configured: to the left exactly if the one that is switched to comes later.
pub proof fn law_content_slides_in_the_configured_order(
    animations: AnimationsConfig,
    workspaces: Seq<WorkspaceConfig>,
    a: int,
    b: int,
)
    requires
        0 <= a < workspaces.len(),
        0 <= b < workspaces.len(),
        forall|i: int, j: int|
            0 <= i < j < workspaces.len() ==> (#[trigger] workspaces[i]).name@
                != (#[trigger] workspaces[j]).name@,
    ensures
        ({
            let slide = slide_between(
                animations,
                workspaces,
                workspaces[a].name@,
                workspaces[b].name@,
            );
            &&& slide is None <==> animations.workspace_switch is None
            &&& slide == Some(SlideDirection::Left) <==> animations.workspace_switch is Some && b
                > a
            &&& slide == Some(SlideDirection::Right) <==> animations.workspace_switch is Some && b
                <= a
        }),
{
    law_names_are_found_in_order(workspaces, workspaces[a].name@, 0);
    law_names_are_found_in_order(workspaces, workspaces[b].name@, 0);
}

/// Where several workspaces share a name, the first of them tells the order;
/// and a switch that involves a workspace that is not configured is a cut.
pub proof fn law_unconfigured_workspaces_are_cut_to(
    animations: AnimationsConfig,
    workspaces: Seq<WorkspaceConfig>,
    from: Seq<char>,
    to: Seq<char>,
)
    ensures
        ({
            let slide = slide_between(animations, workspaces, from, to);
            let is_listed = |name: Seq<char>|
                exists|i: int| 0 <= i < workspaces.len() && (#[trigger] workspaces[i]).name@ == name;
            &&& slide is Some <==> animations.workspace_switch is Some && is_listed(from)
                && is_listed(to)
            &&& forall|a: int, b: int|
                #![trigger workspaces[a], workspaces[b]]
                slide is Some && 0 <= a < workspaces.len() && 0 <= b < workspaces.len()
                    && workspaces[a].name@ == from && workspaces[b].name@ == to && (forall|i: int|
                    0 <= i < a ==> (#[trigger] workspaces[i]).name@ != from) && (forall|i: int|
                    0 <= i < b ==> (#[trigger] workspaces[i]).name@ != to) ==> (
                slide->0 is Left <==> b > a)
        }),
{
    law_names_are_found_in_order(workspaces, from, 0);
    law_names_are_found_in_order(workspaces, to, 0);
    let slide = slide_between(animations, workspaces, from, to);
    if slide is Some {
        let first = index_of(workspaces, from)->0;
        let second = index_of(workspaces, to)->0;
        assert(workspaces[first].name@ == from);
        assert(workspaces[second].name@ == to);
        assert forall|a: int, b: int|
            #![trigger workspaces[a], workspaces[b]]
            0 <= a < workspaces.len() && 0 <= b < workspaces.len() && workspaces[a].name@ == from
                && workspaces[b].name@ == to && (forall|i: int|
                0 <= i < a ==> (#[trigger] workspaces[i]).name@ != from) && (forall|i: int|
                0 <= i < b ==> (#[trigger] workspaces[i]).name@ != to) implies (slide->0 is Left
            <==> b > a) by {
            assert(a == first);
            assert(b == second);
        }
    }
}

/// The workspace that goes is the first on the monitor that is empty, need not
/// be kept and is not displayed.
pub proof fn law_the_first_spent_workspace_goes(
    ids: Seq<u128>,
    workspaces: Map<u128, ActiveWorkspace>,
    displayed: u128,
    from: int,
    at: int,
)
    requires
        0 <= from <= at < ids.len(),
        ids[at] != displayed,
        !workspaces[ids[at]].has_children,
        !workspaces[ids[at]].config.keep_alive,
        forall|i: int|
            from <= i < at ==> (#[trigger] ids[i]) == displayed || workspaces[ids[i]].has_children
                || workspaces[ids[i]].config.keep_alive,
    ensures
        first_spent(ids, workspaces, displayed, from) == Some(ids[at]),
    decreases at - from,
{
    if from < at {
        assert(ids[from] == displayed || workspaces[ids[from]].has_children
            || workspaces[ids[from]].config.keep_alive);
        law_the_first_spent_workspace_goes(ids, workspaces, displayed, from + 1, at);
    }
}

/// A switch asks for focus, for both workspaces to be redrawn and for the slide
/// on its monitor, or for a cut, and leaves everything else as it was.
pub proof fn law_a_switch_changes_nothing_else(
    sync: PendingSyncView,
    slide: Option<SlideDirection>,
    monitor: u128,
    displayed: u128,
    target: u128,
    other: u128,
)
    ensures
        ({
            let after = synced(sync, slide, monitor, displayed, target);
            &&& after.focus
            &&& after.reorders == sync.reorders
            &&& after.openings == sync.openings
            &&& after.focused_effect == sync.focused_effect
            &&& after.all_effects == sync.all_effects
            &&& after.cursor_jump == sync.cursor_jump
            &&& displayed == target ==> {
                &&& after.redraws == sync.redraws
                &&& after.slide == sync.slide
                &&& after.slide_monitor == sync.slide_monitor
                &&& after.skip_animations == sync.skip_animations
            }
            &&& displayed != target ==> {
                &&& after.slide == slide
                &&& after.slide_monitor == Some(monitor)
                &&& after.skip_animations <==> slide is None
                &&& after.redraws.contains_key(displayed) && after.redraws[displayed] == (
                Container { id: displayed, kind: ContainerKind::Workspace })
                &&& after.redraws.contains_key(target) && after.redraws[target] == (Container {
                    id: target,
                    kind: ContainerKind::Workspace,
                })
                &&& other != displayed && other != target ==> (after.redraws.contains_key(other)
                    <==> sync.redraws.contains_key(other)) && after.redraws[other]
                    == sync.redraws[other]
            }
        }),
{
}

} // verus!
