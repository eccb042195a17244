//! Workspaces: each a named split tree with one pane in focus, kept in an
//! ordered list of which one is active.

use vstd::prelude::*;
use vstd::string::*;
use crate::split::{leaves, lemma_remove, lemma_remove_distinct, remove_result, removed_index, removable, PaneId, SplitNode, SplitTree};
use crate::text::{append_decimal, decimal_digits};

verus! {

pub type WorkspaceId = u64;

#[derive(Debug)]
pub struct Workspace {
    pub id: WorkspaceId,
    pub name: String,
    pub split_tree: SplitTree,
    pub active_pane: PaneId,
}

/// The name that a new workspace gets: `Workspace` and its id.
pub open spec fn workspace_name(id: WorkspaceId) -> Seq<char> {
    "Workspace "@ + decimal_digits(id as nat)
}

impl Workspace {
    /// The pane in focus.
    pub open spec fn active(&self) -> PaneId {
        self.active_pane
    }

    /// The ratios of the tree are in range and the pane in focus is one of
    /// the tree.
    pub open spec fn wf(&self) -> bool {
        self.split_tree.wf() && self.split_tree.panes().contains(self.active())
    }

    /// A workspace of one pane, which is in focus.
    pub fn new(id: WorkspaceId, pane_id: PaneId) -> (w: Self)
        ensures
            w.id == id,
            w.name@ == workspace_name(id),
            w.split_tree.root == SplitNode::Leaf(pane_id),
            w.active() == pane_id,
            w.wf(),
    {
        let mut name = String::from_str("Workspace ");
        append_decimal(&mut name, id);
        let split_tree = SplitTree::new(pane_id);
        assert(split_tree.panes()[0] == pane_id);
        Workspace { id, name, split_tree, active_pane: pane_id }
    }

    pub fn active_pane(&self) -> (p: PaneId)
        ensures
            p == self.active(),
    {
        self.active_pane
    }

    /// Moves the focus to a pane of the tree; any other id is ignored.
    pub fn set_active_pane(&mut self, id: PaneId)
        ensures
            final(self).active() == if old(self).split_tree.panes().contains(id) {
                id
            } else {
                old(self).active()
            },
            final(self).id == old(self).id,
            final(self).name == old(self).name,
            final(self).split_tree == old(self).split_tree,
            old(self).wf() ==> final(self).wf(),
    {
        if self.split_tree.contains(id) {
            self.active_pane = id;
        }
    }

    pub fn pane_ids(&self) -> (ids: Vec<PaneId>)
        ensures
            ids@ == self.split_tree.panes(),
    {
        self.split_tree.pane_ids()
    }
}

#[derive(Debug)]
pub struct WorkspaceManager {
    workspaces: Vec<Workspace>,
    active_index: usize,
    next_workspace_id: WorkspaceId,
    next_pane_id: PaneId,
}

/// The index of the first workspace with the given id; the length of the
/// list where there is none.
pub open spec fn workspace_position(list: Seq<Workspace>, id: WorkspaceId) -> int
    decreases list.len(),
{
    if list.len() == 0 {
        0
    } else if list[0].id == id {
        0
    } else {
        1 + workspace_position(list.drop_first(), id)
    }
}

pub proof fn lemma_workspace_position(list: Seq<Workspace>, id: WorkspaceId, i: int)
    requires
        0 <= i <= list.len(),
        forall|j: int| 0 <= j < i ==> list[j].id != id,
        i < list.len() ==> list[i].id == id,
    ensures
        workspace_position(list, id) == i,
    decreases i,
{
    if i > 0 {
        let t = list.drop_first();
        assert forall|j: int| 0 <= j < i - 1 implies t[j].id != id by {
            assert(t[j] == list[j + 1]);
        }
        lemma_workspace_position(t, id, i - 1);
    }
}

impl WorkspaceManager {
    /// The workspaces in order.
    pub closed spec fn list(&self) -> Seq<Workspace> {
        self.workspaces@
    }

    /// The index of the active workspace.
    pub closed spec fn active(&self) -> int {
        self.active_index as int
    }

    /// The id that the next workspace gets.
    pub closed spec fn upcoming_workspace_id(&self) -> WorkspaceId {
        self.next_workspace_id
    }

    /// The id that the next pane gets.
    pub closed spec fn upcoming_pane_id(&self) -> PaneId {
        self.next_pane_id
    }

    /// There is at least one workspace and the active index names one.
    pub open spec fn wf(&self) -> bool {
        self.list().len() >= 1 && 0 <= self.active() < self.list().len()
    }

    /// One workspace with id 0, holding pane 0.
    pub fn new() -> (m: Self)
        ensures
            m.wf(),
            m.list().len() == 1,
            m.list()[0].id == 0,
            m.list()[0].split_tree.root == SplitNode::Leaf(0),
            m.list()[0].active() == 0,
            m.list()[0].name@ == workspace_name(0),
            m.active() == 0,
            m.upcoming_workspace_id() == 1,
            m.upcoming_pane_id() == 1,
    {
        let ws = Workspace::new(0, 0);
        let mut workspaces: Vec<Workspace> = Vec::new();
        workspaces.push(ws);
        WorkspaceManager { workspaces, active_index: 0, next_workspace_id: 1, next_pane_id: 1 }
    }

    /// Appends a workspace with a fresh id and one fresh pane, and makes it
    /// the active one.
    pub fn add_workspace(&mut self) -> (ids: (WorkspaceId, PaneId))
        requires
            old(self).upcoming_workspace_id() < u64::MAX,
            old(self).upcoming_pane_id() < u64::MAX,
        ensures
            ids.0 == old(self).upcoming_workspace_id(),
            ids.1 == old(self).upcoming_pane_id(),
            final(self).upcoming_workspace_id() == ids.0 + 1,
            final(self).upcoming_pane_id() == ids.1 + 1,
            final(self).list().len() == old(self).list().len() + 1,
            final(self).list().drop_last() == old(self).list(),
            final(self).list().last().id == ids.0,
            final(self).list().last().split_tree.root == SplitNode::Leaf(ids.1),
            final(self).list().last().active() == ids.1,
            final(self).list().last().name@ == workspace_name(ids.0),
            final(self).active() == old(self).list().len(),
            final(self).wf(),
    {
        let ws_id = self.next_workspace_id;
        let pane_id = self.next_pane_id;
        self.next_workspace_id += 1;
        self.next_pane_id += 1;
        let ws = Workspace::new(ws_id, pane_id);
        self.workspaces.push(ws);
        self.active_index = self.workspaces.len() - 1;
        assert(self.workspaces@.drop_last() =~= old(self).workspaces@);
        (ws_id, pane_id)
    }

    /// Closes the first workspace with the given id. The last remaining
    /// workspace is never closed, and an unknown id changes nothing. An
    /// active index that would point past the end moves to the last
    /// workspace.
    pub fn close_workspace(&mut self, id: WorkspaceId)
        requires
            old(self).wf(),
        ensures
            final(self).wf(),
            final(self).upcoming_workspace_id() == old(self).upcoming_workspace_id(),
            final(self).upcoming_pane_id() == old(self).upcoming_pane_id(),
            ({
                let pos = workspace_position(old(self).list(), id);
                if old(self).list().len() > 1 && pos < old(self).list().len() {
                    &&& final(self).list() == old(self).list().remove(pos)
                    &&& final(self).active() == if old(self).active() >= old(self).list().len()
                        - 1 {
                        old(self).list().len() - 2
                    } else {
                        old(self).active()
                    }
                } else {
                    &&& final(self).list() == old(self).list()
                    &&& final(self).active() == old(self).active()
                }
            }),
    {
        if self.workspaces.len() <= 1 {
            return ;
        }
        let mut pos: usize = 0;
        while pos < self.workspaces.len() && self.workspaces[pos].id != id
            invariant
                pos <= self.workspaces@.len(),
                forall|j: int| 0 <= j < pos ==> self.workspaces@[j].id != id,
            decreases self.workspaces@.len() - pos,
        {
            pos += 1;
        }
        proof {
            lemma_workspace_position(self.workspaces@, id, pos as int);
        }
        if pos < self.workspaces.len() {
            self.workspaces.remove(pos);
            if self.active_index >= self.workspaces.len() {
                self.active_index = self.workspaces.len() - 1;
            }
        }
    }

    /// Makes the workspace at `idx` the active one; an index past the end is
    /// ignored.
    pub fn select_workspace(&mut self, idx: usize)
        ensures
            final(self).list() == old(self).list(),
            final(self).upcoming_workspace_id() == old(self).upcoming_workspace_id(),
            final(self).upcoming_pane_id() == old(self).upcoming_pane_id(),
            final(self).active() == if idx < old(self).list().len() {
                idx as int
            } else {
                old(self).active()
            },
            old(self).wf() ==> final(self).wf(),
    {
        if idx < self.workspaces.len() {
            self.active_index = idx;
        }
    }

    pub fn active_workspace(&self) -> (w: &Workspace)
        requires
            self.wf(),
        ensures
            *w == self.list()[self.active()],
    {
        &self.workspaces[self.active_index]
    }

    pub fn workspace_count(&self) -> (n: usize)
        ensures
            n == self.list().len(),
    {
        self.workspaces.len()
    }

    pub fn active_index(&self) -> (i: usize)
        ensures
            i == self.active(),
    {
        self.active_index
    }

    pub fn workspaces(&self) -> (list: &Vec<Workspace>)
        ensures
            list@ == self.list(),
    {
        &self.workspaces
    }

    /// Hands out a fresh pane id.
    pub fn next_pane_id(&mut self) -> (id: PaneId)
        requires
            old(self).upcoming_pane_id() < u64::MAX,
        ensures
            id == old(self).upcoming_pane_id(),
            final(self).upcoming_pane_id() == id + 1,
            final(self).upcoming_workspace_id() == old(self).upcoming_workspace_id(),
            final(self).list() == old(self).list(),
            final(self).active() == old(self).active(),
    {
        let id = self.next_pane_id;
        self.next_pane_id += 1;
        id
    }
}


/// The tree after the first `upto` of the panes `dead` were removed from it,
/// one after the other.
pub open spec fn after_removals(root: SplitNode, dead: Seq<PaneId>, upto: int) -> SplitNode
    decreases upto,
{
    if upto <= 0 {
        root
    } else {
        remove_result(after_removals(root, dead, upto - 1), dead[upto - 1])
    }
}

/// The first pane that is not dead, if there is one.
pub open spec fn first_live(panes: Seq<PaneId>, dead: Seq<PaneId>) -> Option<PaneId>
    decreases panes.len(),
{
    if panes.len() == 0 {
        None
    } else if !dead.contains(panes[0]) {
        Some(panes[0])
    } else {
        first_live(panes.drop_first(), dead)
    }
}

/// The workspace after the dead panes were removed from its tree: the focus
/// moves to the first pane left alive where the pane in focus is dead.
pub open spec fn reaped_workspace(w: Workspace, dead: Seq<PaneId>) -> Workspace {
    let root = after_removals(w.split_tree.root, dead, dead.len() as int);
    Workspace {
        id: w.id,
        name: w.name,
        split_tree: SplitTree { root },
        active_pane: if dead.contains(w.active_pane) {
            match first_live(leaves(root), dead) {
                Some(p) => p,
                None => w.active_pane,
            }
        } else {
            w.active_pane
        },
    }
}

/// The workspaces that have a pane alive, in their order.
pub open spec fn live_workspaces(list: Seq<Workspace>, dead: Seq<PaneId>) -> Seq<Workspace>
    decreases list.len(),
{
    if list.len() == 0 {
        Seq::empty()
    } else {
        let before = live_workspaces(list.drop_last(), dead);
        if all_dead(leaves(list.last().split_tree.root), dead) {
            before
        } else {
            before.push(list.last())
        }
    }
}

/// The workspaces after the dead panes were removed from each: those that
/// have a pane alive, or the last of all where none has.
pub open spec fn reaped_list(list: Seq<Workspace>, dead: Seq<PaneId>) -> Seq<Workspace> {
    let reaped = list.map_values(|w: Workspace| reaped_workspace(w, dead));
    let live = live_workspaces(reaped, dead);
    if live.len() == 0 && list.len() > 0 {
        seq![reaped.last()]
    } else {
        live
    }
}

/// Some pane is dead.
pub open spec fn any_dead(panes: Seq<PaneId>, dead: Seq<PaneId>) -> bool {
    exists|i: int| 0 <= i < panes.len() && dead.contains(#[trigger] panes[i])
}

/// Every pane is dead.
pub open spec fn all_dead(panes: Seq<PaneId>, dead: Seq<PaneId>) -> bool {
    forall|i: int| 0 <= i < panes.len() ==> dead.contains(#[trigger] panes[i])
}

/// Removing panes one after the other from a tree of distinct panes leaves
/// distinct panes of the tree; a removed pane is still there only where it
/// is the last pane of the tree.
pub proof fn lemma_after_removals(root: SplitNode, dead: Seq<PaneId>, upto: int)
    requires
        0 <= upto <= dead.len(),
        leaves(root).no_duplicates(),
    ensures
        leaves(after_removals(root, dead, upto)).no_duplicates(),
        forall|p: PaneId|
            leaves(after_removals(root, dead, upto)).contains(p) ==> leaves(root).contains(p),
        forall|k: int|
            0 <= k < upto && leaves(after_removals(root, dead, upto)).contains(#[trigger] dead[k])
                ==> after_removals(root, dead, upto) is Leaf,
        crate::split::node_wf(root) ==> crate::split::node_wf(after_removals(root, dead, upto)),
    decreases upto,
{
    if upto > 0 {
        lemma_after_removals(root, dead, upto - 1);
        let before = after_removals(root, dead, upto - 1);
        let pane = dead[upto - 1];
        let after = remove_result(before, pane);
        lemma_remove(before, pane);
        if removable(before, pane) {
            let i = removed_index(before, pane);
            lemma_remove_distinct(leaves(before), i);
            let l = leaves(before);
            let r = l.remove(i);
            assert forall|p: PaneId| r.contains(p) implies l.contains(p) by {
                let j = choose|j: int| 0 <= j < r.len() && r[j] == p;
                let j0 = if j < i { j } else { j + 1 };
                assert(l[j0] == p);
            }
            assert forall|k: int| 0 <= k < upto && r.contains(#[trigger] dead[k]) implies after
                is Leaf by {
                if k < upto - 1 {
                    assert(l.contains(dead[k]));
                }
            }
        }
    }
}

fn is_listed(list: &[PaneId], pane: PaneId) -> (b: bool)
    ensures
        b == list@.contains(pane),
{
    let mut i: usize = 0;
    while i < list.len()
        invariant
            i <= list@.len(),
            forall|j: int| 0 <= j < i ==> list@[j] != pane,
        decreases list@.len() - i,
    {
        if list[i] == pane {
            return true;
        }
        i += 1;
    }
    false
}

fn find_first_live(panes: &Vec<PaneId>, dead: &[PaneId]) -> (r: Option<PaneId>)
    ensures
        r == first_live(panes@, dead@),
        r is None <==> all_dead(panes@, dead@),
        r is Some ==> panes@.contains(r->Some_0) && !dead@.contains(r->Some_0),
{
    let mut i: usize = 0;
    assert(panes@.skip(0) =~= panes@);
    proof {
        lemma_first_live(panes@, dead@);
    }
    while i < panes.len()
        invariant
            i <= panes@.len(),
            forall|j: int| 0 <= j < i ==> dead@.contains(#[trigger] panes@[j]),
            first_live(panes@, dead@) == first_live(panes@.skip(i as int), dead@),
        decreases panes@.len() - i,
    {
        assert(panes@.skip(i as int)[0] == panes@[i as int]);
        assert(panes@.skip(i as int).drop_first() =~= panes@.skip(i + 1));
        if !is_listed(dead, panes[i]) {
            return Some(panes[i]);
        }
        i += 1;
    }
    assert(panes@.skip(i as int).len() == 0);
    None
}

impl Workspace {
    /// Removes the dead panes from the tree, one after the other, and moves
    /// the focus to the first pane that is left alive where the pane in focus
    /// is dead. The last pane of a tree stays even if it is dead.
    pub fn remove_dead(&mut self, dead: &[PaneId])
        ensures
            *final(self) == reaped_workspace(*old(self), dead@),
    {
        let mut i: usize = 0;
        while i < dead.len()
            invariant
                i <= dead@.len(),
                self.id == old(self).id,
                self.name == old(self).name,
                self.active_pane == old(self).active_pane,
                self.split_tree.root == after_removals(old(self).split_tree.root, dead@, i as int),
            decreases dead@.len() - i,
        {
            let _ = self.split_tree.remove(dead[i]);
            i += 1;
        }
        if is_listed(dead, self.active_pane) {
            let ids = self.split_tree.pane_ids();
            match find_first_live(&ids, dead) {
                Some(p) => {
                    self.set_active_pane(p);
                },
                None => {},
            }
        }
    }

    /// No pane of the workspace is alive.
    pub fn is_dead(&self, dead: &[PaneId]) -> (b: bool)
        ensures
            b == all_dead(self.split_tree.panes(), dead@),
    {
        let ids = self.split_tree.pane_ids();
        find_first_live(&ids, dead).is_none()
    }
}

/// After dead panes were removed from a workspace with distinct panes, the
/// panes are distinct; a dead pane is left only as the last pane of the
/// tree; the focus is on a pane of the tree, and on a live one where there
/// is any.
pub proof fn lemma_reaped_workspace(w: Workspace, dead: Seq<PaneId>)
    requires
        w.split_tree.panes().no_duplicates(),
        w.split_tree.panes().contains(w.active()),
    ensures
        ({
            let after = reaped_workspace(w, dead);
            &&& after.split_tree.panes().no_duplicates()
            &&& after.split_tree.panes().contains(after.active()) || all_dead(
                after.split_tree.panes(),
                dead,
            )
            &&& !all_dead(after.split_tree.panes(), dead) ==> !dead.contains(after.active())
            &&& forall|p: PaneId|
                after.split_tree.panes().contains(p) && dead.contains(p)
                    ==> after.split_tree.root is Leaf && all_dead(after.split_tree.panes(), dead)
            &&& w.split_tree.wf() ==> after.split_tree.wf()
        }),
{
    let after = reaped_workspace(w, dead);
    let root = w.split_tree.root;
    lemma_after_removals(root, dead, dead.len() as int);
    let panes = after.split_tree.panes();
    lemma_first_live(panes, dead);
    assert forall|p: PaneId| panes.contains(p) && dead.contains(p) implies after.split_tree.root
        is Leaf && all_dead(panes, dead) by {
        let k = choose|k: int| 0 <= k < dead.len() && dead[k] == p;
        assert(panes.contains(dead[k]));
        assert(panes.len() == 1);
        assert(panes[0] == p);
    }
    if !dead.contains(w.active()) {
        lemma_live_pane_stays(root, dead, dead.len() as int, w.active());
    }
}

/// What is left after dead panes were reaped from workspaces with distinct
/// panes: no workspace holds a dead pane, unless nothing is alive at all and
/// the one workspace left is down to its last pane. A workspace in which
/// nothing is alive is gone, unless it is the only one left.
pub proof fn lemma_reaped_list(list: Seq<Workspace>, dead: Seq<PaneId>)
    requires
        list.len() > 0,
        forall|i: int|
            0 <= i < list.len() ==> (#[trigger] list[i]).split_tree.panes().no_duplicates()
                && list[i].split_tree.panes().contains(list[i].active()),
    ensures
        reaped_list(list, dead).len() >= 1,
        reaped_list(list, dead).len() <= list.len(),
        forall|i: int|
            0 <= i < reaped_list(list, dead).len() && any_dead(
                (#[trigger] reaped_list(list, dead)[i]).split_tree.panes(),
                dead,
            ) ==> reaped_list(list, dead).len() == 1 && reaped_list(list, dead)[i].split_tree.root
                is Leaf,
        forall|i: int|
            0 <= i < reaped_list(list, dead).len() && all_dead(
                (#[trigger] reaped_list(list, dead)[i]).split_tree.panes(),
                dead,
            ) ==> reaped_list(list, dead).len() == 1,
{
    let reaped = list.map_values(|w: Workspace| reaped_workspace(w, dead));
    let live = live_workspaces(reaped, dead);
    lemma_live_workspaces(reaped, dead);
    assert forall|i: int| 0 <= i < list.len() implies (forall|p: PaneId|
        (#[trigger] reaped[i]).split_tree.panes().contains(p) && dead.contains(p)
            ==> reaped[i].split_tree.root is Leaf && all_dead(reaped[i].split_tree.panes(), dead)) by {
        lemma_reaped_workspace(list[i], dead);
    }
    let result = reaped_list(list, dead);
    assert forall|i: int|
        0 <= i < result.len() && any_dead((#[trigger] result[i]).split_tree.panes(), dead) implies result.len()
        == 1 && result[i].split_tree.root is Leaf by {
        let panes = result[i].split_tree.panes();
        let k = choose|k: int| 0 <= k < panes.len() && dead.contains(#[trigger] panes[k]);
        let p = panes[k];
        if live.len() == 0 {
            assert(result[i] == reaped[list.len() - 1]);
            assert(reaped[list.len() - 1].split_tree.panes().contains(p));
        } else {
            let j = choose|j: int| 0 <= j < reaped.len() && reaped[j] == live[i];
            assert(!all_dead(live[i].split_tree.panes(), dead));
            assert(reaped[j].split_tree.panes().contains(p));
        }
    }
}

/// The live workspaces are workspaces of the list, none of them all dead,
/// and no more than the list has.
pub proof fn lemma_live_workspaces(list: Seq<Workspace>, dead: Seq<PaneId>)
    ensures
        live_workspaces(list, dead).len() <= list.len(),
        forall|i: int|
            0 <= i < live_workspaces(list, dead).len() ==> !all_dead(
                leaves((#[trigger] live_workspaces(list, dead)[i]).split_tree.root),
                dead,
            ) && list.contains(live_workspaces(list, dead)[i]),
    decreases list.len(),
{
    if list.len() > 0 {
        let head = list.drop_last();
        lemma_live_workspaces(head, dead);
        let live = live_workspaces(list, dead);
        let before = live_workspaces(head, dead);
        assert forall|i: int| 0 <= i < live.len() implies !all_dead(
            leaves((#[trigger] live[i]).split_tree.root),
            dead,
        ) && list.contains(live[i]) by {
            if i < before.len() {
                assert(live[i] == before[i]);
                let j = choose|j: int| 0 <= j < head.len() && head[j] == before[i];
                assert(list[j] == live[i]);
            } else {
                assert(live[i] == list[list.len() - 1]);
            }
        }
    }
}

pub proof fn lemma_first_live(panes: Seq<PaneId>, dead: Seq<PaneId>)
    ensures
        first_live(panes, dead) is None <==> all_dead(panes, dead),
        first_live(panes, dead) is Some ==> panes.contains(first_live(panes, dead)->Some_0)
            && !dead.contains(first_live(panes, dead)->Some_0),
    decreases panes.len(),
{
    if panes.len() > 0 {
        let rest = panes.drop_first();
        lemma_first_live(rest, dead);
        if !dead.contains(panes[0]) {
            assert(!all_dead(panes, dead));
        } else {
            if all_dead(rest, dead) {
                assert forall|i: int| 0 <= i < panes.len() implies dead.contains(
                    #[trigger] panes[i],
                ) by {
                    if i > 0 {
                        assert(rest[i - 1] == panes[i]);
                    }
                }
            }
            if all_dead(panes, dead) {
                assert forall|i: int| 0 <= i < rest.len() implies dead.contains(#[trigger] rest[i]) by {
                    assert(rest[i] == panes[i + 1]);
                }
            }
            if first_live(rest, dead) is Some {
                let p = first_live(rest, dead)->Some_0;
                let i = choose|i: int| 0 <= i < rest.len() && rest[i] == p;
                assert(panes[i + 1] == p);
            }
        }
    }
}

/// A pane that is not among the removed ones stays in the tree.
pub proof fn lemma_live_pane_stays(root: SplitNode, dead: Seq<PaneId>, upto: int, pane: PaneId)
    requires
        0 <= upto <= dead.len(),
        leaves(root).contains(pane),
        !dead.contains(pane),
    ensures
        leaves(after_removals(root, dead, upto)).contains(pane),
    decreases upto,
{
    if upto > 0 {
        lemma_live_pane_stays(root, dead, upto - 1, pane);
        let before = after_removals(root, dead, upto - 1);
        let gone = dead[upto - 1];
        lemma_remove(before, gone);
        if removable(before, gone) {
            let i = removed_index(before, gone);
            let l = leaves(before);
            let j = choose|j: int| 0 <= j < l.len() && l[j] == pane;
            assert(j != i);
            let j1 = if j < i { j } else { j - 1 };
            assert(l.remove(i)[j1] == pane);
        }
    }
}

impl WorkspaceManager {
    /// The active workspace, to be changed in place.
    pub fn active_workspace_mut(&mut self) -> (w: &mut Workspace)
        requires
            old(self).wf(),
        ensures
            *w == old(self).list()[old(self).active()],
            final(self).list() == old(self).list().update(old(self).active(), *final(w)),
            final(self).active() == old(self).active(),
            final(self).upcoming_workspace_id() == old(self).upcoming_workspace_id(),
            final(self).upcoming_pane_id() == old(self).upcoming_pane_id(),
    {
        &mut self.workspaces[self.active_index]
    }
}


impl WorkspaceManager {
    /// Removes dead panes from every workspace and closes the workspaces in
    /// which nothing is left alive; where nothing is alive anywhere, the last
    /// workspace stays. The last of the workspaces that are left becomes the
    /// active one. Returns whether any pane is alive.
    pub fn reap_panes(&mut self, dead: &[PaneId]) -> (alive: bool)
        requires
            old(self).wf(),
        ensures
            final(self).wf(),
            final(self).list() == reaped_list(old(self).list(), dead@),
            final(self).active() == final(self).list().len() - 1,
            alive == !all_dead(final(self).list()[0].split_tree.panes(), dead@),
            final(self).upcoming_workspace_id() == old(self).upcoming_workspace_id(),
            final(self).upcoming_pane_id() == old(self).upcoming_pane_id(),
    {
        let ghost before = self.workspaces@;
        let ghost reaped = before.map_values(|w: Workspace| reaped_workspace(w, dead@));
        let mut i: usize = 0;
        while i < self.workspaces.len()
            invariant
                i <= self.workspaces@.len(),
                self.workspaces@.len() == before.len(),
                self.active_index == old(self).active_index,
                self.next_workspace_id == old(self).next_workspace_id,
                self.next_pane_id == old(self).next_pane_id,
                forall|k: int| 0 <= k < i ==> self.workspaces@[k] == reaped_workspace(before[k], dead@),
                forall|k: int| i <= k < before.len() ==> self.workspaces@[k] == before[k],
            decreases self.workspaces@.len() - i,
        {
            self.workspaces[i].remove_dead(dead);
            i += 1;
        }
        assert(self.workspaces@ =~= reaped);
        let mut live: Vec<Workspace> = Vec::new();
        let mut last: Option<Workspace> = None;
        let ghost mut done: int = 0;
        assert(reaped.take(0) =~= Seq::<Workspace>::empty());
        assert(reaped.skip(0) =~= reaped);
        while self.workspaces.len() > 0
            invariant
                0 <= done <= reaped.len(),
                self.workspaces@ == reaped.skip(done),
                live@ == live_workspaces(reaped.take(done), dead@),
                done > 0 && live@.len() == 0 ==> last == Some(reaped[done - 1]),
                self.active_index == old(self).active_index,
                self.next_workspace_id == old(self).next_workspace_id,
                self.next_pane_id == old(self).next_pane_id,
            decreases self.workspaces@.len(),
        {
            let w = self.workspaces.remove(0);
            proof {
                assert(w == reaped[done]);
                assert(self.workspaces@ =~= reaped.skip(done + 1));
                assert(reaped.take(done + 1).drop_last() =~= reaped.take(done));
                assert(reaped.take(done + 1).last() == w);
            }
            if w.is_dead(dead) {
                last = Some(w);
            } else {
                live.push(w);
                last = None;
            }
            proof {
                done = done + 1;
            }
        }
        assert(reaped.take(done) =~= reaped);
        let alive = live.len() > 0;
        if !alive {
            match last {
                Some(w) => {
                    live.push(w);
                },
                None => {},
            }
        }
        proof {
            lemma_live_workspaces(reaped, dead@);
        }
        self.workspaces = live;
        self.active_index = self.workspaces.len() - 1;
        alive
    }
}

} // verus!
