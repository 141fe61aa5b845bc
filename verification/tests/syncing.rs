//! Pending changes and workspace switches.

use std::collections::HashMap;

use wm::animation::{AnimationEffectConfig, AnimationsConfig, EasingFunction, SlideDirection};
use wm::container::{Container, WindowContainer, Workspace};
use wm::focus_workspace::{
    focus_workspace, ActiveWorkspace, FocusError, FocusStep, Monitor, ResolvedTarget, UserConfig,
    WmState, WorkspaceConfig,
};
use wm::pending_sync::PendingSync;
use wm::tree::ContainerKind;

#[test]
fn nothing_is_pending_at_first_and_after_clearing() {
    let mut sync = PendingSync::default();
    assert!(!sync.has_changes());
    sync.queue_container_to_redraw(Workspace { id: 1 })
        .queue_workspace_to_reorder(Workspace { id: 1 })
        .queue_open_animation_window(WindowContainer { id: 2, is_tiling: true })
        .queue_focus_change()
        .queue_focused_effect_update()
        .queue_all_effects_update()
        .queue_cursor_jump()
        .set_skip_animations(true)
        .set_workspace_slide(Some(SlideDirection::Left), Some(9));
    assert!(sync.has_changes());
    assert!(sync.needs_focus_update());
    assert!(sync.needs_focused_effect_update());
    assert!(sync.needs_all_effects_update());
    assert!(sync.needs_cursor_jump());
    assert!(sync.should_skip_animations());
    assert_eq!(sync.workspaces_to_reorder(), &vec![Workspace { id: 1 }]);
    assert_eq!(
        sync.open_animation_windows(),
        &vec![WindowContainer { id: 2, is_tiling: true }]
    );

    sync.clear();
    assert!(!sync.has_changes());
    assert!(!sync.should_skip_animations());
    assert_eq!(sync.workspace_slide_for(9), None);
    assert!(sync.containers_to_redraw().is_empty());
}

#[test]
fn each_kind_of_change_counts() {
    let changes: Vec<fn(&mut PendingSync)> = vec![
        |sync| {
            sync.queue_container_to_redraw(Workspace { id: 1 });
        },
        |sync| {
            sync.queue_workspace_to_reorder(Workspace { id: 1 });
        },
        |sync| {
            sync.queue_open_animation_window(WindowContainer { id: 2, is_tiling: false });
        },
        |sync| {
            sync.queue_focus_change();
        },
        |sync| {
            sync.queue_focused_effect_update();
        },
        |sync| {
            sync.queue_all_effects_update();
        },
        |sync| {
            sync.queue_cursor_jump();
        },
    ];
    for change in changes {
        let mut sync = PendingSync::default();
        change(&mut sync);
        assert!(sync.has_changes());
    }
}

#[test]
fn pending_changes_can_be_shown() {
    let mut sync = PendingSync::default();
    sync.queue_focus_change();
    assert!(format!("{sync:?}").contains("needs_focus_update: true"));
}

#[test]
fn how_to_animate_is_no_change() {
    let mut sync = PendingSync::default();
    sync.set_skip_animations(true).set_workspace_slide(Some(SlideDirection::Right), Some(1));
    assert!(!sync.has_changes());
}

#[test]
fn containers_are_queued_by_id() {
    let mut sync = PendingSync::default();
    sync.queue_containers_to_redraw(vec![
        Container { id: 1, kind: ContainerKind::Split },
        Container { id: 2, kind: ContainerKind::Split },
        Container { id: 1, kind: ContainerKind::TilingWindow },
    ]);
    assert_eq!(sync.containers_to_redraw().len(), 2);
    assert_eq!(sync.containers_to_redraw()[&1].kind, ContainerKind::TilingWindow);

    sync.queue_container_to_redraw(WindowContainer { id: 3, is_tiling: false });
    assert_eq!(sync.containers_to_redraw()[&3].kind, ContainerKind::NonTilingWindow);
    sync.dequeue_container_from_redraw(Workspace { id: 3 });
    assert!(!sync.containers_to_redraw().contains_key(&3));
    assert_eq!(sync.containers_to_redraw().len(), 2);
}

#[test]
fn only_the_switching_monitor_slides() {
    let mut sync = PendingSync::default();
    sync.set_workspace_slide(Some(SlideDirection::Left), Some(1));
    assert_eq!(sync.workspace_slide_for(1), Some(SlideDirection::Left));
    assert_eq!(sync.workspace_slide_for(2), None);
    sync.set_workspace_slide(None, Some(1));
    assert_eq!(sync.workspace_slide_for(1), None);
    sync.set_workspace_slide(Some(SlideDirection::Left), None);
    assert_eq!(sync.workspace_slide_for(1), None);
}

const MONITOR: u128 = 100;

fn active(name: &str, has_children: bool) -> ActiveWorkspace {
    ActiveWorkspace {
        config: WorkspaceConfig { name: name.to_string(), keep_alive: false },
        monitor: Some(MONITOR),
        has_children,
        focus_order: Vec::new(),
    }
}

/// One monitor with workspaces "1" to "3" and one that is not configured, the
/// first displayed and focused.
fn state() -> WmState {
    let mut workspaces = HashMap::new();
    workspaces.insert(1, active("1", true));
    workspaces.insert(2, active("2", true));
    workspaces.insert(3, active("3", false));
    workspaces.insert(4, active("scratch", true));
    if let Some(second) = workspaces.get_mut(&2) {
        second.focus_order = vec![
            Container { id: 21, kind: ContainerKind::TilingWindow },
            Container { id: 22, kind: ContainerKind::TilingWindow },
        ];
    }
    let mut monitors = HashMap::new();
    monitors.insert(MONITOR, Monitor { workspaces: vec![1, 2, 3, 4], displayed: Some(1) });
    WmState {
        workspaces,
        monitors,
        focused: None,
        focused_workspace: Some(1),
        pending_sync: PendingSync::default(),
        recent_workspace_name: None,
        pending_follow: Some(7),
    }
}

fn config(slides: bool) -> UserConfig {
    let effect = AnimationEffectConfig { duration_ms: 100, easing: EasingFunction::Linear };
    UserConfig {
        animations: AnimationsConfig {
            window_open: None,
            window_move: None,
            workspace_switch: if slides { Some(effect) } else { None },
        },
        workspaces: ["1", "2", "3"]
            .iter()
            .map(|name| WorkspaceConfig { name: name.to_string(), keep_alive: false })
            .collect(),
    }
}

fn to(workspace: u128) -> ResolvedTarget {
    ResolvedTarget { name: None, workspace: Some(workspace) }
}

/// What a successful switch leaves to do.
fn switched(step: Result<FocusStep, FocusError>) -> (Option<u128>, String) {
    match step {
        Ok(FocusStep::Switched { deactivate, left }) => (deactivate, left),
        _ => panic!("no switch"),
    }
}

#[test]
fn switching_slides_and_collects_the_empty_workspace() {
    let mut state = state();
    let focused = state.begin_focus().unwrap();
    assert_eq!(state.pending_follow, None);

    let (deactivate, left) = switched(focus_workspace(to(2), focused, &mut state, &config(true)));
    assert_eq!(deactivate, Some(3));
    assert_eq!(left, "1");
    assert_eq!(state.focused, Some(Container { id: 21, kind: ContainerKind::TilingWindow }));
    assert_eq!(state.focused_workspace, Some(2));
    assert_eq!(state.monitors[&MONITOR].displayed, Some(2));
    assert_eq!(state.pending_sync.workspace_slide_for(MONITOR), Some(SlideDirection::Left));
    assert!(!state.pending_sync.should_skip_animations());
    assert!(state.pending_sync.needs_focus_update());
    assert!(state.pending_sync.containers_to_redraw().contains_key(&1));
    assert!(state.pending_sync.containers_to_redraw().contains_key(&2));
    assert!(!state.pending_sync.needs_cursor_jump());
    assert_eq!(state.recent_workspace_name, None);

    state.finish_focus(left);
    assert!(state.pending_sync.needs_cursor_jump());
    assert_eq!(state.recent_workspace_name, Some("1".to_string()));
}

#[test]
fn switching_back_slides_the_other_way() {
    let mut state = state();
    switched(focus_workspace(to(2), 1, &mut state, &config(true)));
    state.pending_sync.clear();
    switched(focus_workspace(to(1), 2, &mut state, &config(true)));
    assert_eq!(state.pending_sync.workspace_slide_for(MONITOR), Some(SlideDirection::Right));
}

#[test]
fn an_empty_workspace_takes_focus_itself() {
    let mut state = state();
    let (deactivate, _) = switched(focus_workspace(to(3), 1, &mut state, &config(true)));
    assert_eq!(state.focused, Some(Container { id: 3, kind: ContainerKind::Workspace }));
    // It is displayed now, so it is not collected.
    assert_eq!(deactivate, None);
}

#[test]
fn a_kept_workspace_is_not_collected() {
    let mut state = state();
    if let Some(third) = state.workspaces.get_mut(&3) {
        third.config.keep_alive = true;
    }
    let (deactivate, _) = switched(focus_workspace(to(2), 1, &mut state, &config(true)));
    assert_eq!(deactivate, None);
}

#[test]
fn a_switch_without_a_direction_is_a_cut() {
    let mut state_one = state();
    switched(focus_workspace(to(4), 1, &mut state_one, &config(true)));
    assert_eq!(state_one.pending_sync.workspace_slide_for(MONITOR), None);
    assert!(state_one.pending_sync.should_skip_animations());

    let mut state_two = state();
    switched(focus_workspace(to(2), 1, &mut state_two, &config(false)));
    assert_eq!(state_two.pending_sync.workspace_slide_for(MONITOR), None);
    assert!(state_two.pending_sync.should_skip_animations());
}

#[test]
fn refocusing_only_moves_focus() {
    let mut state = state();
    let (deactivate, left) = switched(focus_workspace(to(1), 1, &mut state, &config(true)));
    assert_eq!(deactivate, None);
    assert_eq!(left, "1");
    assert!(state.pending_sync.needs_focus_update());
    assert!(state.pending_sync.containers_to_redraw().is_empty());
    assert_eq!(state.pending_sync.workspace_slide_for(MONITOR), None);
    assert!(!state.pending_sync.should_skip_animations());
}

#[test]
fn targets_are_activated_or_ignored() {
    let mut state = state();
    let named = ResolvedTarget { name: Some("5".to_string()), workspace: None };
    match focus_workspace(named, 1, &mut state, &config(true)) {
        Ok(FocusStep::Activate(name)) => assert_eq!(name, "5"),
        _ => panic!("no activation"),
    }
    let neither = ResolvedTarget { name: None, workspace: None };
    assert!(matches!(
        focus_workspace(neither, 1, &mut state, &config(true)),
        Ok(FocusStep::Nothing)
    ));
    assert!(!state.pending_sync.has_changes());
}

#[test]
fn switches_that_cannot_be_made_are_errors() {
    let mut state = state();
    if let Some(second) = state.workspaces.get_mut(&2) {
        second.monitor = None;
    }
    assert_eq!(
        focus_workspace(to(2), 1, &mut state, &config(true)).err(),
        Some(FocusError::NoMonitor)
    );
    if let Some(monitor) = state.monitors.get_mut(&MONITOR) {
        monitor.displayed = None;
    }
    assert_eq!(
        focus_workspace(to(3), 1, &mut state, &config(true)).err(),
        Some(FocusError::NoDisplayedWorkspace)
    );
    state.focused_workspace = None;
    state.pending_follow = Some(7);
    assert_eq!(state.begin_focus(), Err(FocusError::NoFocusedWorkspace));
    assert_eq!(state.pending_follow, None);
}
