//! Changes that wait to be carried out on screen.

use std::collections::HashMap;
use vstd::prelude::*;

use crate::animation::SlideDirection;
use crate::container::{Container, IntoContainer, WindowContainer, Workspace};

verus! {

broadcast use vstd::std_specs::hash::group_hash_axioms;

#[derive(Debug)]
pub struct PendingSync {
    /// Containers (and their descendants) that have a pending redraw.
    containers_to_redraw: HashMap<u128, Container>,
    /// Workspaces where z-order should be updated. Windows that match the
    /// focused window's state should be brought to the front.
    workspaces_to_reorder: Vec<Workspace>,
    /// Newly managed windows that should have an opening animation.
    open_animation_windows: Vec<WindowContainer>,
    /// Whether native focus should be reassigned to the WM's focused
    /// container.
    needs_focus_update: bool,
    /// Whether window effect for the focused window should be updated.
    needs_focused_effect_update: bool,
    /// Whether window effects for all windows should be updated.
    needs_all_effects_update: bool,
    /// Whether to jump the cursor to the focused container (if enabled in user
    /// config).
    needs_cursor_jump: bool,
    /// Whether to skip animations for the current sync.
    skip_animations: bool,
    /// Set when this sync is a workspace switch, to the direction the content
    /// travels. Windows being shown enter from the opposite side; windows being
    /// hidden leave toward it.
    workspace_slide: Option<SlideDirection>,
    /// Monitor whose displayed workspace is changing.
    ///
    /// A switch belongs to one monitor, but the slide is a property of the
    /// whole sync, so without this every window queued for redraw picks up a
    /// slide trigger, including windows on other monitors, which fly off screen
    /// and are dragged back for a switch that never involved them.
    workspace_slide_monitor: Option<u128>,
}

/// What waits to be carried out.
#[verifier::ext_equal]
pub struct PendingSyncView {
    pub redraws: Map<u128, Container>,
    pub reorders: Seq<Workspace>,
    pub openings: Seq<WindowContainer>,
    pub focus: bool,
    pub focused_effect: bool,
    pub all_effects: bool,
    pub cursor_jump: bool,
    pub skip_animations: bool,
    pub slide: Option<SlideDirection>,
    pub slide_monitor: Option<u128>,
}

impl PendingSyncView {
    /// Nothing at all.
    pub open spec fn nothing() -> Self {
        PendingSyncView {
            redraws: Map::empty(),
            reorders: Seq::empty(),
            openings: Seq::empty(),
            focus: false,
            focused_effect: false,
            all_effects: false,
            cursor_jump: false,
            skip_animations: false,
            slide: None,
            slide_monitor: None,
        }
    }

    /// Whether there is anything to carry out. Skipping animations and sliding
    /// only say how, and are not changes by themselves.
    pub open spec fn changes(self) -> bool {
        ||| self.redraws.dom() != Set::<u128>::empty()
        ||| self.reorders.len() > 0
        ||| self.openings.len() > 0
        ||| self.focus
        ||| self.focused_effect
        ||| self.all_effects
        ||| self.cursor_jump
    }

    /// Every queued container is found under its own ID.
    pub open spec fn keyed(self) -> bool {
        forall|id: u128| #[trigger] self.redraws.contains_key(id) ==> self.redraws[id].id == id
    }

    /// With `container` to redraw, in place of what had its ID before.
    pub open spec fn redrawing(self, container: Container) -> Self {
        PendingSyncView { redraws: self.redraws.insert(container.id, container), ..self }
    }

    /// With several containers to redraw, one after the other.
    pub open spec fn redrawing_all(self, containers: Seq<Container>) -> Self
        decreases containers.len(),
    {
        if containers.len() == 0 {
            self
        } else {
            self.redrawing_all(containers.drop_last()).redrawing(containers.last())
        }
    }

    /// The direction in which the windows on a monitor slide.
    pub open spec fn slide_on(self, monitor_id: u128) -> Option<SlideDirection> {
        if self.slide_monitor == Some(monitor_id) {
            self.slide
        } else {
            None
        }
    }
}

impl Default for PendingSync {
    fn default() -> (sync: Self)
        ensures
            sync@ == PendingSyncView::nothing(),
    {
        PendingSync {
            containers_to_redraw: HashMap::new(),
            workspaces_to_reorder: Vec::new(),
            open_animation_windows: Vec::new(),
            needs_focus_update: false,
            needs_focused_effect_update: false,
            needs_all_effects_update: false,
            needs_cursor_jump: false,
            skip_animations: false,
            workspace_slide: None,
            workspace_slide_monitor: None,
        }
    }
}

impl PendingSync {
    pub closed spec fn view(&self) -> PendingSyncView {
        PendingSyncView {
            redraws: self.containers_to_redraw@,
            reorders: self.workspaces_to_reorder@,
            openings: self.open_animation_windows@,
            focus: self.needs_focus_update,
            focused_effect: self.needs_focused_effect_update,
            all_effects: self.needs_all_effects_update,
            cursor_jump: self.needs_cursor_jump,
            skip_animations: self.skip_animations,
            slide: self.workspace_slide,
            slide_monitor: self.workspace_slide_monitor,
        }
    }

    pub fn has_changes(&self) -> (changes: bool)
        ensures
            changes == self@.changes(),
    {
        proof {
            if self@.redraws.is_empty() {
                assert(self@.redraws.dom() =~= Set::<u128>::empty());
            }
        }
        !self.containers_to_redraw.is_empty() || self.workspaces_to_reorder.len() > 0
            || self.open_animation_windows.len() > 0 || self.needs_focus_update
            || self.needs_focused_effect_update || self.needs_all_effects_update
            || self.needs_cursor_jump
    }

    pub fn clear(&mut self) -> (sync: &mut Self)
        ensures
            sync@ == PendingSyncView::nothing(),
            *final(self) == *final(sync),
    {
        self.containers_to_redraw.clear();
        self.workspaces_to_reorder.clear();
        self.open_animation_windows.clear();
        self.needs_focus_update = false;
        self.needs_focused_effect_update = false;
        self.needs_all_effects_update = false;
        self.needs_cursor_jump = false;
        self.skip_animations = false;
        self.workspace_slide = None;
        self.workspace_slide_monitor = None;
        self
    }

    pub fn queue_container_to_redraw<T>(&mut self, container: T) -> (sync: &mut Self) where
        T: IntoContainer,

        ensures
            sync@ == old(self)@.redrawing(container.container()),
            *final(self) == *final(sync),
    {
        let container: Container = container.into_container();
        self.containers_to_redraw.insert(container.id, container);
        self
    }

    pub fn queue_containers_to_redraw<T>(&mut self, containers: Vec<T>) -> (sync: &mut Self) where
        T: IntoContainer,

        ensures
            sync@ == old(self)@.redrawing_all(containers@.map_values(|item: T| item.container())),
            *final(self) == *final(sync),
    {
        let ghost before = self@;
        let ghost queued = containers@.map_values(|item: T| item.container());
        assert(queued.take(0) =~= Seq::<Container>::empty());
        for container in iter: containers
            invariant
                queued == iter.seq().map_values(|item: T| item.container()),
                self@ == before.redrawing_all(queued.take(iter.index())),
        {
            let container: Container = container.into_container();
            assert(queued.take(iter.index() + 1).drop_last() =~= queued.take(iter.index()));
            self.containers_to_redraw.insert(container.id, container);
        }
        assert(queued.take(queued.len() as int) =~= queued);
        self
    }

    pub fn dequeue_container_from_redraw<T>(&mut self, container: T) -> (sync: &mut Self) where
        T: IntoContainer,

        ensures
            sync@ == (PendingSyncView {
                redraws: old(self)@.redraws.remove(container.container().id),
                ..old(self)@
            }),
            *final(self) == *final(sync),
    {
        self.containers_to_redraw.remove(&container.into_container().id);
        self
    }

    pub fn queue_workspace_to_reorder(&mut self, workspace: Workspace) -> (sync: &mut Self)
        ensures
            sync@ == (PendingSyncView {
                reorders: old(self)@.reorders.push(workspace),
                ..old(self)@
            }),
            *final(self) == *final(sync),
    {
        self.workspaces_to_reorder.push(workspace);
        self
    }

    pub fn queue_open_animation_window(&mut self, window: WindowContainer) -> (sync: &mut Self)
        ensures
            sync@ == (PendingSyncView {
                openings: old(self)@.openings.push(window),
                ..old(self)@
            }),
            *final(self) == *final(sync),
    {
        self.open_animation_windows.push(window);
        self
    }

    pub fn queue_focus_change(&mut self) -> (sync: &mut Self)
        ensures
            sync@ == (PendingSyncView { focus: true, ..old(self)@ }),
            *final(self) == *final(sync),
    {
        self.needs_focus_update = true;
        self
    }

    pub fn queue_focused_effect_update(&mut self) -> (sync: &mut Self)
        ensures
            sync@ == (PendingSyncView { focused_effect: true, ..old(self)@ }),
            *final(self) == *final(sync),
    {
        self.needs_focused_effect_update = true;
        self
    }

    pub fn queue_all_effects_update(&mut self) -> (sync: &mut Self)
        ensures
            sync@ == (PendingSyncView { all_effects: true, ..old(self)@ }),
            *final(self) == *final(sync),
    {
        self.needs_all_effects_update = true;
        self
    }

    pub fn queue_cursor_jump(&mut self) -> (sync: &mut Self)
        ensures
            sync@ == (PendingSyncView { cursor_jump: true, ..old(self)@ }),
            *final(self) == *final(sync),
    {
        self.needs_cursor_jump = true;
        self
    }

    pub fn set_skip_animations(&mut self, skip: bool) -> (sync: &mut Self)
        ensures
            sync@ == (PendingSyncView { skip_animations: skip, ..old(self)@ }),
            *final(self) == *final(sync),
    {
        self.skip_animations = skip;
        self
    }

    pub fn should_skip_animations(&self) -> (skip: bool)
        ensures
            skip == self@.skip_animations,
    {
        self.skip_animations
    }

    /// Marks this sync as a workspace switch on `monitor_id`, travelling in
    /// `direction`.
    pub fn set_workspace_slide(
        &mut self,
        direction: Option<SlideDirection>,
        monitor_id: Option<u128>,
    ) -> (sync: &mut Self)
        ensures
            sync@ == (PendingSyncView {
                slide: direction,
                slide_monitor: monitor_id,
                ..old(self)@
            }),
            *final(self) == *final(sync),
    {
        self.workspace_slide = direction;
        self.workspace_slide_monitor = monitor_id;
        self
    }

    /// The direction this switch travels for a window on `monitor_id`, or
    /// `None` if that monitor is not the one switching.
    pub fn workspace_slide_for(&self, monitor_id: u128) -> (direction: Option<SlideDirection>)
        ensures
            direction == self@.slide_on(monitor_id),
    {
        match self.workspace_slide_monitor {
            Some(switching) => if switching == monitor_id {
                self.workspace_slide
            } else {
                None
            },
            None => None,
        }
    }

    pub fn needs_focus_update(&self) -> (needed: bool)
        ensures
            needed == self@.focus,
    {
        self.needs_focus_update
    }

    pub fn needs_focused_effect_update(&self) -> (needed: bool)
        ensures
            needed == self@.focused_effect,
    {
        self.needs_focused_effect_update
    }

    pub fn needs_all_effects_update(&self) -> (needed: bool)
        ensures
            needed == self@.all_effects,
    {
        self.needs_all_effects_update
    }

    pub fn needs_cursor_jump(&self) -> (needed: bool)
        ensures
            needed == self@.cursor_jump,
    {
        self.needs_cursor_jump
    }

    pub fn containers_to_redraw(&self) -> (containers: &HashMap<u128, Container>)
        ensures
            containers@ == self@.redraws,
    {
        &self.containers_to_redraw
    }

    pub fn workspaces_to_reorder(&self) -> (workspaces: &Vec<Workspace>)
        ensures
            workspaces@ == self@.reorders,
    {
        &self.workspaces_to_reorder
    }

    pub fn open_animation_windows(&self) -> (windows: &Vec<WindowContainer>)
        ensures
            windows@ == self@.openings,
    {
        &self.open_animation_windows
    }
}

/// Queueing several containers queues each of them, and what was queued before
/// stays queued.
pub proof fn law_queued_containers_are_redrawn(
    sync: PendingSyncView,
    containers: Seq<Container>,
    id: u128,
)
    ensures
        sync.redrawing_all(containers).redraws.contains_key(id) <==> sync.redraws.contains_key(id)
            || exists|i: int| 0 <= i < containers.len() && #[trigger] containers[i].id == id,
        sync.keyed() ==> sync.redrawing_all(containers).keyed(),
    decreases containers.len(),
{
    if containers.len() > 0 {
        let before = containers.drop_last();
        law_queued_containers_are_redrawn(sync, before, id);
        if exists|i: int| 0 <= i < before.len() && #[trigger] before[i].id == id {
            let i = choose|i: int| 0 <= i < before.len() && #[trigger] before[i].id == id;
            assert(containers[i].id == id);
        }
        if exists|i: int| 0 <= i < containers.len() && #[trigger] containers[i].id == id {
            let i = choose|i: int| 0 <= i < containers.len() && #[trigger] containers[i].id == id;
            if i < before.len() {
                assert(before[i].id == id);
            }
        }
        assert(containers[containers.len() - 1] == containers.last());
    }
}

/// Of the queued containers with one ID the last is redrawn.
pub proof fn law_the_last_of_an_id_is_redrawn(
    sync: PendingSyncView,
    containers: Seq<Container>,
    at: int,
)
    requires
        0 <= at < containers.len(),
        forall|j: int| at < j < containers.len() ==> #[trigger] containers[j].id
            != containers[at].id,
    ensures
        sync.redrawing_all(containers).redraws.contains_key(containers[at].id),
        sync.redrawing_all(containers).redraws[containers[at].id] == containers[at],
    decreases containers.len(),
{
    let before = containers.drop_last();
    if at < before.len() {
        assert(containers[containers.len() - 1].id != containers[at].id);
        assert forall|j: int| at < j < before.len() implies #[trigger] before[j].id
            != before[at].id by {
            assert(containers[j].id != containers[at].id);
        }
        law_the_last_of_an_id_is_redrawn(sync, before, at);
    }
}

/// Dequeueing a container that was not queued before undoes queueing it.
pub proof fn law_dequeueing_undoes_queueing(sync: PendingSyncView, container: Container)
    requires
        !sync.redraws.contains_key(container.id),
    ensures
        (PendingSyncView {
            redraws: sync.redrawing(container).redraws.remove(container.id),
            ..sync.redrawing(container)
        }) == sync,
{
    assert(sync.redrawing(container).redraws.remove(container.id) =~= sync.redraws);
}

/// A slide moves the windows of one monitor only.
pub proof fn law_other_monitors_do_not_slide(sync: PendingSyncView, a: u128, b: u128)
    requires
        sync.slide_on(a) is Some,
        a != b,
    ensures
        sync.slide_on(b) is None,
{
}

/// After clearing there is nothing left to carry out.
pub proof fn law_nothing_is_no_change()
    ensures
        !PendingSyncView::nothing().changes(),
        PendingSyncView::nothing().keyed(),
{
}

/// There is something to carry out exactly while a container waits to be
/// redrawn, a workspace to be reordered, a window to be opened, or focus,
/// effects or the cursor to be updated.
pub proof fn law_anything_that_waits_is_a_change(sync: PendingSyncView)
    ensures
        sync.changes() <==> (exists|id: u128| #[trigger] sync.redraws.contains_key(id))
            || sync.reorders.len() > 0 || sync.openings.len() > 0 || sync.focus
            || sync.focused_effect || sync.all_effects || sync.cursor_jump,
{
    if exists|id: u128| #[trigger] sync.redraws.contains_key(id) {
        let id = choose|id: u128| #[trigger] sync.redraws.contains_key(id);
        assert(sync.redraws.dom().contains(id));
    } else {
        assert(sync.redraws.dom() =~= Set::<u128>::empty());
    }
}

/// After clearing nothing waits, and nothing is said of how to carry it out.
pub proof fn law_nothing_is_empty(id: u128)
    ensures
        ({
            let nothing = PendingSyncView::nothing();
            &&& !nothing.redraws.contains_key(id)
            &&& nothing.reorders.len() == 0
            &&& nothing.openings.len() == 0
            &&& !nothing.focus
            &&& !nothing.focused_effect
            &&& !nothing.all_effects
            &&& !nothing.cursor_jump
            &&& !nothing.skip_animations
            &&& nothing.slide is None
            &&& nothing.slide_monitor is None
        }),
{
}

/// Queueing a container leaves everything else that waits as it was.
pub proof fn law_queueing_changes_one_redraw(
    sync: PendingSyncView,
    container: Container,
    other: u128,
)
    ensures
        ({
            let after = sync.redrawing(container);
            &&& after.redraws.contains_key(container.id)
            &&& after.redraws[container.id] == container
            &&& other != container.id ==> (after.redraws.contains_key(other)
                <==> sync.redraws.contains_key(other)) && after.redraws[other]
                == sync.redraws[other]
            &&& after == (PendingSyncView { redraws: after.redraws, ..sync })
        }),
{
}

/// Queueing several containers leaves all but the redraws as it was, and the
/// redraws of other containers too.
pub proof fn law_queueing_several_changes_only_redraws(
    sync: PendingSyncView,
    containers: Seq<Container>,
    other: u128,
)
    ensures
        ({
            let after = sync.redrawing_all(containers);
            &&& after == (PendingSyncView { redraws: after.redraws, ..sync })
            &&& (forall|i: int| 0 <= i < containers.len() ==> #[trigger] containers[i].id != other)
                ==> after.redraws[other] == sync.redraws[other]
        }),
    decreases containers.len(),
{
    if containers.len() > 0 {
        let before = containers.drop_last();
        law_queueing_several_changes_only_redraws(sync, before, other);
        if forall|i: int| 0 <= i < containers.len() ==> #[trigger] containers[i].id != other {
            assert forall|i: int| 0 <= i < before.len() implies #[trigger] before[i].id
                != other by {
                assert(containers[i].id != other);
            }
            assert(containers[containers.len() - 1].id != other);
        }
    }
}

/// The windows on the monitor that switches slide as the switch does, and those
/// on any other do not.
pub proof fn law_the_switching_monitor_slides(sync: PendingSyncView, monitor: u128)
    ensures
        sync.slide_monitor == Some(monitor) ==> sync.slide_on(monitor) == sync.slide,
        sync.slide_monitor != Some(monitor) ==> sync.slide_on(monitor) is None,
{
}

} // verus!
