use pterminal::split::SplitDirection;
use pterminal::workspace::{Workspace, WorkspaceManager};

#[test]
fn new_manager_has_one_workspace() {
    let mgr = WorkspaceManager::new();
    assert_eq!(mgr.workspace_count(), 1);
    assert_eq!(mgr.active_index(), 0);
    assert_eq!(mgr.active_workspace().pane_ids(), vec![0]);
}

#[test]
fn add_and_select_workspace() {
    let mut mgr = WorkspaceManager::new();
    let (ws_id, pane_id) = mgr.add_workspace();
    assert_eq!(mgr.workspace_count(), 2);
    assert_eq!(mgr.active_index(), 1);
    assert_eq!(ws_id, 1);
    assert_eq!(pane_id, 1);

    mgr.select_workspace(0);
    assert_eq!(mgr.active_index(), 0);
}

#[test]
fn close_workspace() {
    let mut mgr = WorkspaceManager::new();
    mgr.add_workspace();
    assert_eq!(mgr.workspace_count(), 2);
    mgr.close_workspace(1);
    assert_eq!(mgr.workspace_count(), 1);
}

#[test]
fn cannot_close_last_workspace() {
    let mut mgr = WorkspaceManager::new();
    mgr.close_workspace(0);
    assert_eq!(mgr.workspace_count(), 1);
}

#[test]
fn workspace_names_and_focus() {
    let mut ws = Workspace::new(12, 40);
    assert_eq!(ws.name, "Workspace 12");
    assert_eq!(ws.active_pane(), 40);
    ws.set_active_pane(41);
    assert_eq!(ws.active_pane(), 40);
    ws.split_tree.split(40, SplitDirection::Vertical, 41);
    ws.set_active_pane(41);
    assert_eq!(ws.active_pane(), 41);
    assert_eq!(Workspace::new(0, 0).name, "Workspace 0");
    assert_eq!(Workspace::new(u64::MAX, 0).name, "Workspace 18446744073709551615");
}

#[test]
fn closing_retargets_the_active_index() {
    let mut mgr = WorkspaceManager::new();
    mgr.add_workspace();
    let (third, pane) = mgr.add_workspace();
    assert_eq!((third, pane), (2, 2));
    assert_eq!(mgr.next_pane_id(), 3);
    assert_eq!(mgr.next_pane_id(), 4);
    assert_eq!(mgr.active_index(), 2);
    mgr.close_workspace(0);
    assert_eq!(mgr.active_index(), 1);
    assert_eq!(mgr.workspaces().iter().map(|w| w.id).collect::<Vec<_>>(), vec![1, 2]);
    mgr.close_workspace(7);
    assert_eq!(mgr.workspace_count(), 2);
    mgr.select_workspace(5);
    assert_eq!(mgr.active_index(), 1);
    mgr.select_workspace(0);
    mgr.close_workspace(2);
    assert_eq!(mgr.active_index(), 0);
    assert_eq!(mgr.active_workspace().id, 1);
}

#[test]
fn dead_panes_are_reaped_from_every_workspace() {
    let mut mgr = WorkspaceManager::new();
    let p1 = mgr.next_pane_id();
    mgr.active_workspace_mut().split_tree.split(0, SplitDirection::Horizontal, p1);
    mgr.active_workspace_mut().set_active_pane(p1);
    let (ws1, p2) = mgr.add_workspace();
    let (ws2, p3) = mgr.add_workspace();
    let p4 = mgr.next_pane_id();
    mgr.active_workspace_mut().split_tree.split(p3, SplitDirection::Vertical, p4);
    assert_eq!((p1, p2, p3, p4), (1, 2, 3, 4));

    assert!(mgr.reap_panes(&[p1, p2]));
    assert_eq!(mgr.workspaces().iter().map(|w| w.id).collect::<Vec<_>>(), vec![0, ws2]);
    assert!(mgr.workspaces().iter().all(|w| !w.split_tree.contains(p1) && !w.split_tree.contains(p2)));
    assert_eq!(mgr.workspaces()[0].pane_ids(), vec![0]);
    assert_eq!(mgr.workspaces()[0].active_pane(), 0);
    assert_eq!(mgr.active_index(), 1);
    assert_eq!(ws1, 1);

    assert!(mgr.reap_panes(&[p3]));
    assert_eq!(mgr.workspaces()[1].pane_ids(), vec![p4]);
    assert_eq!(mgr.workspaces()[1].active_pane(), p4);

    assert!(!mgr.reap_panes(&[0, p4]));
    assert_eq!(mgr.workspace_count(), 1);
    assert_eq!(mgr.workspaces()[0].id, ws2);
    assert_eq!(mgr.active_index(), 0);
    assert!(mgr.reap_panes(&[]));
}
