//! Auto-adopt: the rules by which local strays become remote workspaces and splits.
//!
//! A native split inside a mirror workspace creates a local shell pane, and a
//! workspace born from a focused mirror pane is local too: the session knows nothing
//! about machines. An adopt pass replaces each such stray with its remote equivalent,
//! which is then mirrored back. What is decided here is which panes and workspaces are
//! strays, which host and which remote pane each belongs to, and in what order the
//! pass closes, connects and creates. The requests themselves, and what they come to,
//! are the caller's.
//!
//! If the host of stray panes is unreachable they are left alone: a working local pane
//! beats an error toast. A stray workspace is closed first of all, as that is how
//! instances that run at once settle which of them creates the remote one.

use vstd::prelude::*;

use crate::text;

verus! {

/// A workspace of a session.
pub struct WorkspaceInfo {
    pub workspace_id: String,
    pub label: String,
}

/// A pane of a session.
pub struct PaneInfo {
    pub pane_id: String,
    pub workspace_id: String,
    pub tab_id: String,
    /// The pane's directory is the wrapper sentinel: only wrapper panes and what was
    /// split from them have it.
    pub is_mirror: bool,
    /// The host that the sentinel directory names.
    pub mirror_host: Option<String>,
    pub cwd: Option<String>,
    pub foreground_cwd: Option<String>,
}

/// A host that is mirrored.
pub struct HostConfig {
    pub name: String,
    /// What the labels of its mirrored workspaces start with, before `": "`.
    pub prefix: String,
}

/// The hosts that are mirrored, and which of them is the default.
pub struct MirrorConfig {
    pub hosts: Vec<HostConfig>,
    pub default_host: Option<usize>,
}

/// A remote workspace or pane and the local one that mirrors it.
pub struct StateEntry {
    pub remote_id: String,
    pub local_id: String,
    /// The entry is dead: nothing mirrors the remote object any more.
    pub tombstoned: bool,
}

/// What the mirror of one host owns, in the order of the remote ids.
pub struct HostState {
    pub workspaces: Vec<StateEntry>,
    pub panes: Vec<StateEntry>,
}

/// Some live entry has this local id.
pub open spec fn owns(entries: Seq<StateEntry>, id: Seq<char>) -> bool {
    exists|i: int|
        0 <= i < entries.len() && !(#[trigger] entries[i]).tombstoned && entries[i].local_id@ == id
}

/// Some host's mirror owns the workspace.
pub open spec fn is_mapped(states: Seq<HostState>, id: Seq<char>) -> bool {
    exists|h: int| 0 <= h < states.len() && owns((#[trigger] states[h]).workspaces@, id)
}

/// The label is that of a mirrored workspace: it carries the prefix of a host.
pub open spec fn is_mirror_label(hosts: Seq<HostConfig>, label: Seq<char>) -> bool {
    exists|h: int|
        0 <= h < hosts.len() && ((#[trigger] hosts[h]).prefix@ + ": "@).is_prefix_of(label)
}

/// Pane `i` is the only one of the workspace.
pub open spec fn is_sole_pane(panes: Seq<PaneInfo>, id: Seq<char>, i: int) -> bool {
    &&& 0 <= i < panes.len()
    &&& panes[i].workspace_id@ == id
    &&& forall|j: int|
        0 <= j < panes.len() && j != i ==> (#[trigger] panes[j]).workspace_id@ != id
}

/// The first host of that name.
pub open spec fn host_named(hosts: Seq<HostConfig>, name: Seq<char>) -> Option<nat>
    decreases hosts.len(),
{
    if hosts.len() == 0 {
        None
    } else {
        match host_named(hosts.drop_last(), name) {
            Some(h) => Some(h),
            None => if hosts.last().name@ == name {
                Some((hosts.len() - 1) as nat)
            } else {
                None
            },
        }
    }
}

impl MirrorConfig {
    /// The default host is one of the hosts.
    pub open spec fn wf(self) -> bool {
        self.default_host matches Some(h) ==> h < self.hosts@.len()
    }

    /// The default host.
    pub open spec fn fallback(self) -> Option<nat> {
        match self.default_host {
            Some(h) => Some(h as nat),
            None => None,
        }
    }

    /// The host that a pane belongs to: the one that its directory names, or else the
    /// default.
    pub open spec fn host_of(self, pane: PaneInfo) -> Option<nat> {
        match pane.mirror_host {
            Some(name) => match host_named(self.hosts@, name@) {
                Some(h) => Some(h),
                None => self.fallback(),
            },
            None => self.fallback(),
        }
    }

    /// The workspace is a stray: no mirror owns it or labelled it, and all that is in
    /// it is the wrapper pane `i`. Anything that a user has built in stays untouched.
    pub open spec fn is_stray(
        self,
        states: Seq<HostState>,
        panes: Seq<PaneInfo>,
        ws: WorkspaceInfo,
        i: int,
    ) -> bool {
        &&& !is_mapped(states, ws.workspace_id@)
        &&& !is_mirror_label(self.hosts@, ws.label@)
        &&& is_sole_pane(panes, ws.workspace_id@, i)
        &&& panes[i].is_mirror
    }

    /// The host that is to adopt the workspace, if any is.
    pub open spec fn adopter(
        self,
        states: Seq<HostState>,
        panes: Seq<PaneInfo>,
        ws: WorkspaceInfo,
    ) -> Option<nat> {
        if exists|i: int| self.is_stray(states, panes, ws, i) {
            self.host_of(panes[choose|i: int| self.is_stray(states, panes, ws, i)])
        } else {
            None
        }
    }
}

/// Does some live entry have this local id?
fn has_live(entries: &Vec<StateEntry>, id: &String) -> (b: bool)
    ensures
        b == owns(entries@, id@),
{
    for i in 0..entries.len()
        invariant
            forall|j: int|
                0 <= j < i ==> (#[trigger] entries@[j]).tombstoned || entries@[j].local_id@ != id@,
    {
        if !entries[i].tombstoned && entries[i].local_id == *id {
            return true;
        }
    }
    false
}

/// Does some host's mirror own the workspace?
fn mapped(states: &Vec<HostState>, id: &String) -> (b: bool)
    ensures
        b == is_mapped(states@, id@),
{
    for h in 0..states.len()
        invariant
            forall|j: int| 0 <= j < h ==> !owns((#[trigger] states@[j]).workspaces@, id@),
    {
        if has_live(&states[h].workspaces, id) {
            return true;
        }
    }
    false
}

/// Is the label that of a mirrored workspace?
fn labelled(hosts: &Vec<HostConfig>, label: &String) -> (b: bool)
    ensures
        b == is_mirror_label(hosts@, label@),
{
    for h in 0..hosts.len()
        invariant
            forall|j: int|
                0 <= j < h ==> !((#[trigger] hosts@[j]).prefix@ + ": "@).is_prefix_of(label@),
    {
        let mut start = hosts[h].prefix.clone();
        start.append(": ");
        if text::starts_with(label.as_str(), start.as_str()) {
            return true;
        }
    }
    false
}

/// The only pane of the workspace.
fn sole_pane(panes: &Vec<PaneInfo>, id: &String) -> (r: Option<usize>)
    ensures
        match r {
            Some(i) => is_sole_pane(panes@, id@, i as int),
            None => forall|i: int| !is_sole_pane(panes@, id@, i),
        },
{
    let mut found: Option<usize> = None;
    for i in 0..panes.len()
        invariant
            match found {
                Some(k) => k < i && panes@[k as int].workspace_id@ == id@ && forall|j: int|
                    0 <= j < i && j != k ==> (#[trigger] panes@[j]).workspace_id@ != id@,
                None => forall|j: int| 0 <= j < i ==> (#[trigger] panes@[j]).workspace_id@ != id@,
            },
    {
        if panes[i].workspace_id == *id {
            if let Some(k) = found {
                assert forall|p: int| !is_sole_pane(panes@, id@, p) by {
                    assert(panes@[k as int].workspace_id@ == id@);
                    assert(panes@[i as int].workspace_id@ == id@);
                }
                return None;
            }
            found = Some(i);
        }
    }
    found
}

/// The first host of that name.
fn find_host(hosts: &Vec<HostConfig>, name: &String) -> (r: Option<usize>)
    ensures
        match r {
            Some(h) => host_named(hosts@, name@) == Some(h as nat) && h < hosts@.len(),
            None => host_named(hosts@, name@) is None,
        },
{
    let mut found: Option<usize> = None;
    for h in 0..hosts.len()
        invariant
            match found {
                Some(k) => host_named(hosts@.take(h as int), name@) == Some(k as nat) && k < h,
                None => host_named(hosts@.take(h as int), name@) is None,
            },
    {
        assert(hosts@.take(h as int + 1).drop_last() =~= hosts@.take(h as int));
        if found.is_none() && hosts[h].name == *name {
            found = Some(h);
        }
    }
    assert(hosts@.take(hosts@.len() as int) =~= hosts@);
    found
}

/// The host that a pane belongs to.
fn host_of(config: &MirrorConfig, pane: &PaneInfo) -> (r: Option<usize>)
    requires
        config.wf(),
    ensures
        match r {
            Some(h) => config.host_of(*pane) == Some(h as nat) && h < config.hosts@.len(),
            None => config.host_of(*pane) is None,
        },
{
    if let Some(name) = &pane.mirror_host {
        if let Some(h) = find_host(&config.hosts, name) {
            return Some(h);
        }
    }
    config.default_host
}

/// The host that is to adopt the workspace, if any is.
///
/// Daemon-owned workspaces carry the prefix of their host from birth, so that the
/// label tells them from strays even before any state is saved.
pub fn workspace_adopter(
    config: &MirrorConfig,
    states: &Vec<HostState>,
    panes: &Vec<PaneInfo>,
    ws: &WorkspaceInfo,
) -> (r: Option<usize>)
    requires
        config.wf(),
    ensures
        match r {
            Some(h) => config.adopter(states@, panes@, *ws) == Some(h as nat) && h
                < config.hosts@.len(),
            None => config.adopter(states@, panes@, *ws) is None,
        },
{
    if mapped(states, &ws.workspace_id) {
        return None;
    }
    if labelled(&config.hosts, &ws.label) {
        return None;
    }
    match sole_pane(panes, &ws.workspace_id) {
        Some(i) => {
            proof {
                assert forall|j: int| config.is_stray(states@, panes@, *ws, j) implies j == i by {
                    if j != i {
                        assert(panes@[i as int].workspace_id@ == ws.workspace_id@);
                    }
                }
            }
            if panes[i].is_mirror {
                assert(config.is_stray(states@, panes@, *ws, i as int));
                host_of(config, &panes[i])
            } else {
                None
            }
        },
        None => None,
    }
}

/// What became of a stray workspace.
#[derive(Clone, Copy, Debug, PartialEq, Eq, Structural)]
pub enum WorkspaceOutcome {
    /// Another instance, or the user, closed it first.
    Lost,
    /// It was closed, but its host could not be reached.
    Unreachable,
    /// It was closed, but its host made no workspace for it.
    NotCreated,
    /// It was closed, and its host made a workspace for it.
    Replaced,
}

/// What is to be done next about a stray workspace.
#[derive(Clone, Copy, Debug, PartialEq, Eq, Structural)]
pub enum WorkspaceStage {
    /// Close it locally. A close succeeds exactly once, so whoever wins it is the only
    /// one that creates remotely.
    Close,
    /// Connect to its host.
    Connect,
    /// Create a workspace there.
    Create,
    /// Nothing.
    Done(WorkspaceOutcome),
}

impl WorkspaceStage {
    /// What is to be done after the stage succeeded or failed.
    pub open spec fn next(self, ok: bool) -> WorkspaceStage {
        match self {
            WorkspaceStage::Close => if ok {
                WorkspaceStage::Connect
            } else {
                WorkspaceStage::Done(WorkspaceOutcome::Lost)
            },
            WorkspaceStage::Connect => if ok {
                WorkspaceStage::Create
            } else {
                WorkspaceStage::Done(WorkspaceOutcome::Unreachable)
            },
            WorkspaceStage::Create => WorkspaceStage::Done(
                if ok {
                    WorkspaceOutcome::Replaced
                } else {
                    WorkspaceOutcome::NotCreated
                },
            ),
            WorkspaceStage::Done(outcome) => WorkspaceStage::Done(outcome),
        }
    }

    /// What is to be done after a run of successes and failures.
    pub open spec fn after(self, replies: Seq<bool>) -> WorkspaceStage
        decreases replies.len(),
    {
        if replies.len() == 0 {
            self
        } else {
            self.after(replies.drop_last()).next(replies.last())
        }
    }

    /// What is to be done after the stage succeeded or failed.
    pub fn advance(self, ok: bool) -> (next: WorkspaceStage)
        ensures
            next == self.next(ok),
    {
        match self {
            WorkspaceStage::Close => if ok {
                WorkspaceStage::Connect
            } else {
                WorkspaceStage::Done(WorkspaceOutcome::Lost)
            },
            WorkspaceStage::Connect => if ok {
                WorkspaceStage::Create
            } else {
                WorkspaceStage::Done(WorkspaceOutcome::Unreachable)
            },
            WorkspaceStage::Create => WorkspaceStage::Done(
                if ok {
                    WorkspaceOutcome::Replaced
                } else {
                    WorkspaceOutcome::NotCreated
                },
            ),
            WorkspaceStage::Done(outcome) => WorkspaceStage::Done(outcome),
        }
    }
}

/// The pane is a stray of the host: it sits in a workspace that the host's mirror
/// owns, its directory is the wrapper sentinel, and the mirror does not own it.
pub open spec fn is_stray_pane(state: HostState, pane: PaneInfo) -> bool {
    &&& owns(state.workspaces@, pane.workspace_id@)
    &&& !owns(state.panes@, pane.pane_id@)
    &&& pane.is_mirror
}

/// The strays among the panes, by their index, in order.
pub open spec fn strays(state: HostState, panes: Seq<PaneInfo>) -> Seq<nat>
    decreases panes.len(),
{
    if panes.len() == 0 {
        Seq::empty()
    } else {
        let before = strays(state, panes.drop_last());
        if is_stray_pane(state, panes.last()) {
            before.push((panes.len() - 1) as nat)
        } else {
            before
        }
    }
}

/// Where a pane sits in its layout: the direction in which it was split off, and the
/// panes on the other side of that split.
pub struct Placement {
    pub direction: String,
    pub siblings: Vec<String>,
}

/// The first of the panes that the mirror owns.
pub open spec fn first_owned(entries: Seq<StateEntry>, ids: Seq<String>) -> Option<Seq<char>>
    decreases ids.len(),
{
    if ids.len() == 0 {
        None
    } else {
        match first_owned(entries, ids.drop_last()) {
            Some(id) => Some(id),
            None => if owns(entries, ids.last()@) {
                Some(ids.last()@)
            } else {
                None
            },
        }
    }
}

/// The remote object that a local one mirrors: that of the last live entry.
pub open spec fn remote_of(entries: Seq<StateEntry>, id: Seq<char>) -> Option<Seq<char>>
    decreases entries.len(),
{
    if entries.len() == 0 {
        None
    } else if !entries.last().tombstoned && entries.last().local_id@ == id {
        Some(entries.last().remote_id@)
    } else {
        remote_of(entries.drop_last(), id)
    }
}

/// A stray pane for which the remote pane to split is known.
pub struct Resolved {
    /// The index of the stray.
    pub pane: usize,
    pub direction: String,
    /// The id of the remote pane to split.
    pub source: String,
}

/// What is known of a resolved stray.
pub struct ResolvedView {
    pub pane: nat,
    pub direction: Seq<char>,
    pub source: Seq<char>,
}

impl View for Resolved {
    type V = ResolvedView;

    open spec fn view(&self) -> ResolvedView {
        ResolvedView {
            pane: self.pane as nat,
            direction: self.direction@,
            source: self.source@,
        }
    }
}

/// The stray `pane`, split off as `placed` says: the remote pane to split is that of
/// the first sibling that the mirror owns.
pub open spec fn resolve(
    entries: Seq<StateEntry>,
    pane: nat,
    placed: Option<Placement>,
) -> Option<ResolvedView> {
    match placed {
        Some(p) => match first_owned(entries, p.siblings@) {
            Some(id) => match remote_of(entries, id) {
                Some(source) => Some(ResolvedView { pane, direction: p.direction@, source }),
                None => None,
            },
            None => None,
        },
        None => None,
    }
}

/// The strays among the panes, by their index, in order.
pub fn find_strays(state: &HostState, panes: &Vec<PaneInfo>) -> (found: Vec<usize>)
    ensures
        found@.len() == strays(*state, panes@).len(),
        forall|k: int| 0 <= k < found@.len() ==> #[trigger] found@[k] == strays(*state, panes@)[k],
{
    let mut found: Vec<usize> = Vec::new();
    for i in 0..panes.len()
        invariant
            found@.len() == strays(*state, panes@.take(i as int)).len(),
            forall|k: int|
                0 <= k < found@.len() ==> #[trigger] found@[k] == strays(
                    *state,
                    panes@.take(i as int),
                )[k],
    {
        let ghost before = panes@.take(i as int);
        assert(panes@.take(i as int + 1).drop_last() =~= before);
        assert(panes@.take(i as int + 1).last() == panes@[i as int]);
        let pane = &panes[i];
        if has_live(&state.workspaces, &pane.workspace_id) && !has_live(
            &state.panes,
            &pane.pane_id,
        ) && pane.is_mirror {
            found.push(i);
        }
    }
    assert(panes@.take(panes@.len() as int) =~= panes@);
    found
}

/// The remote object that a local one mirrors.
fn find_remote(entries: &Vec<StateEntry>, id: &String) -> (r: Option<String>)
    ensures
        match r {
            Some(remote) => remote_of(entries@, id@) == Some(remote@),
            None => remote_of(entries@, id@) is None,
        },
{
    let mut i: usize = entries.len();
    assert(entries@.take(i as int) =~= entries@);
    while i > 0
        invariant
            i <= entries@.len(),
            remote_of(entries@, id@) == remote_of(entries@.take(i as int), id@),
        decreases i,
    {
        let ghost s = entries@.take(i as int);
        assert(s.last() == entries@[i - 1]);
        assert(s.drop_last() =~= entries@.take(i - 1));
        i = i - 1;
        if !entries[i].tombstoned && entries[i].local_id == *id {
            return Some(entries[i].remote_id.clone());
        }
    }
    None
}

/// The stray `pane` with the remote pane to split, if its place in the layout leads to
/// one.
pub fn resolve_stray(entries: &Vec<StateEntry>, pane: usize, placed: &Option<Placement>) -> (r:
    Option<Resolved>)
    ensures
        match r {
            Some(resolved) => resolve(entries@, pane as nat, *placed) == Some(resolved@),
            None => resolve(entries@, pane as nat, *placed) is None,
        },
{
    match placed {
        Some(p) => {
            for i in 0..p.siblings.len()
                invariant
                    *placed == Some(*p),
                    first_owned(entries@, p.siblings@.take(i as int)) is None,
            {
                proof {
                    let s = p.siblings@.take(i as int + 1);
                    assert(s.drop_last() =~= p.siblings@.take(i as int));
                    assert(s.last() == p.siblings@[i as int]);
                }
                if has_live(entries, &p.siblings[i]) {
                    proof {
                        lemma_first_owned_prefix(entries@, p.siblings@, i as int + 1);
                    }
                    return match find_remote(entries, &p.siblings[i]) {
                        Some(source) => Some(
                            Resolved { pane, direction: p.direction.clone(), source },
                        ),
                        None => None,
                    };
                }
            }
            assert(p.siblings@.take(p.siblings@.len() as int) =~= p.siblings@);
            None
        },
        None => None,
    }
}

/// Further panes do not change which comes first.
proof fn lemma_first_owned_prefix(entries: Seq<StateEntry>, ids: Seq<String>, k: int)
    requires
        0 <= k <= ids.len(),
        first_owned(entries, ids.take(k)) is Some,
    ensures
        first_owned(entries, ids) == first_owned(entries, ids.take(k)),
    decreases ids.len(),
{
    if k == ids.len() {
        assert(ids.take(k) =~= ids);
    } else {
        assert(ids.drop_last().take(k) =~= ids.take(k));
        lemma_first_owned_prefix(entries, ids.drop_last(), k);
    }
}

/// What became of the stray panes of one host.
#[derive(Clone, Copy, Debug, PartialEq, Eq, Structural)]
pub enum PaneOutcome {
    /// There were none, or none that resolved to a remote pane.
    Nothing,
    /// The host could not be reached, and they were left alone.
    Unreachable,
    /// They were closed, but the host failed to answer a later request.
    Failed,
    /// They were closed, and the host made a split for each.
    Adopted,
}

/// What is to be done next about the stray panes of one host.
#[derive(Clone, Copy, Debug, PartialEq, Eq, Structural)]
pub enum PaneStage {
    /// Find the place of this stray in its layout.
    Locate(usize),
    /// Connect to the host.
    Connect,
    /// Close this resolved stray, now that its host was reached. It is a seconds-old
    /// empty shell: closing it before the splits are made loses nothing and ends the
    /// flash of a phantom local pane.
    Close(usize),
    /// Fetch the panes of the host.
    Fetch,
    /// Split the remote pane that belongs to this resolved stray.
    Split(usize),
    /// Nothing.
    Done(PaneOutcome),
}

/// One pass over the stray panes of one host.
///
/// Every stray is located before any is closed: the layout records exactly how the
/// user split, and closing a stray reshapes it. None is closed before the host was
/// reached.
pub struct PanePass {
    /// What the mirror of the host owns.
    pub entries: Vec<StateEntry>,
    /// The strays, by the index of the pane.
    pub strays: Vec<usize>,
    /// Those for which the remote pane to split is known.
    pub resolved: Vec<Resolved>,
    pub stage: PaneStage,
}

/// The state of a pass.
pub struct PassView {
    pub entries: Seq<StateEntry>,
    pub strays: Seq<nat>,
    pub resolved: Seq<ResolvedView>,
    pub stage: PaneStage,
}

impl View for PanePass {
    type V = PassView;

    open spec fn view(&self) -> PassView {
        PassView {
            entries: self.entries@,
            strays: Seq::new(self.strays@.len(), |k: int| self.strays@[k] as nat),
            resolved: Seq::new(self.resolved@.len(), |k: int| self.resolved@[k]@),
            stage: self.stage,
        }
    }
}

impl PassView {
    /// The pass before anything is done.
    pub open spec fn start(state: HostState, panes: Seq<PaneInfo>) -> PassView {
        PassView {
            entries: state.panes@,
            strays: strays(state, panes),
            resolved: Seq::empty(),
            stage: if strays(state, panes).len() > 0 {
                PaneStage::Locate(0)
            } else {
                PaneStage::Done(PaneOutcome::Nothing)
            },
        }
    }

    /// The stage is about a stray that there is.
    pub open spec fn wf(self) -> bool {
        match self.stage {
            PaneStage::Locate(k) => k < self.strays.len(),
            PaneStage::Connect => self.resolved.len() > 0,
            PaneStage::Close(k) => k < self.resolved.len(),
            PaneStage::Fetch => self.resolved.len() > 0,
            PaneStage::Split(k) => k < self.resolved.len(),
            PaneStage::Done(_) => true,
        }
    }

    /// The pass after the stray to locate was found at `placed`. One that does not
    /// resolve is left alone. Where there is none to locate, nothing changes.
    pub open spec fn located(self, placed: Option<Placement>) -> PassView {
        match self.stage {
            PaneStage::Locate(k) => {
                let resolved = match resolve(self.entries, self.strays[k as int], placed) {
                    Some(r) => self.resolved.push(r),
                    None => self.resolved,
                };
                let stage = if k + 1 < self.strays.len() {
                    PaneStage::Locate((k + 1) as usize)
                } else if resolved.len() > 0 {
                    PaneStage::Connect
                } else {
                    PaneStage::Done(PaneOutcome::Nothing)
                };
                PassView { resolved, stage, ..self }
            },
            _ => self,
        }
    }

    /// What is to be done after a request succeeded or failed. Whether a stray could
    /// be closed does not matter; where there is one to locate, nothing changes.
    pub open spec fn next(self, ok: bool) -> PaneStage {
        match self.stage {
            PaneStage::Locate(k) => PaneStage::Locate(k),
            PaneStage::Connect => if ok {
                PaneStage::Close(0)
            } else {
                PaneStage::Done(PaneOutcome::Unreachable)
            },
            PaneStage::Close(k) => if k + 1 < self.resolved.len() {
                PaneStage::Close((k + 1) as usize)
            } else {
                PaneStage::Fetch
            },
            PaneStage::Fetch => if ok {
                PaneStage::Split(0)
            } else {
                PaneStage::Done(PaneOutcome::Failed)
            },
            PaneStage::Split(k) => if !ok {
                PaneStage::Done(PaneOutcome::Failed)
            } else if k + 1 < self.resolved.len() {
                PaneStage::Split((k + 1) as usize)
            } else {
                PaneStage::Done(PaneOutcome::Adopted)
            },
            PaneStage::Done(outcome) => PaneStage::Done(outcome),
        }
    }

    /// The pass after a request succeeded or failed.
    pub open spec fn replied(self, ok: bool) -> PassView {
        PassView { stage: self.next(ok), ..self }
    }
}

impl PanePass {
    /// A pass over the strays among `panes`.
    pub fn new(state: HostState, panes: &Vec<PaneInfo>) -> (pass: PanePass)
        ensures
            pass@ == PassView::start(state, panes@),
            pass@.wf(),
    {
        let found = find_strays(&state, panes);
        let stage = if found.len() > 0 {
            PaneStage::Locate(0)
        } else {
            PaneStage::Done(PaneOutcome::Nothing)
        };
        let pass = PanePass { entries: state.panes, strays: found, resolved: Vec::new(), stage };
        assert(pass@.strays =~= strays(state, panes@));
        assert(pass@.resolved =~= Seq::empty());
        pass
    }

    /// Records where the stray to locate sits, and whether that leads to a remote pane.
    pub fn located(&mut self, placed: &Option<Placement>) -> (found: bool)
        requires
            old(self)@.wf(),
        ensures
            final(self)@ == old(self)@.located(*placed),
            final(self)@.wf(),
            found == (old(self).stage matches PaneStage::Locate(k) && resolve(
                old(self)@.entries,
                old(self)@.strays[k as int],
                *placed,
            ) is Some),
    {
        let k = match self.stage {
            PaneStage::Locate(k) => k,
            _ => {
                return false;
            },
        };
        let ghost before = self@;
        let found = match resolve_stray(&self.entries, self.strays[k], placed) {
            Some(r) => {
                let ghost view = r@;
                self.resolved.push(r);
                assert(self@.resolved =~= before.resolved.push(view));
                true
            },
            None => false,
        };
        self.stage =
        if self.strays.len() - k > 1 {
            PaneStage::Locate(k + 1)
        } else if self.resolved.len() > 0 {
            PaneStage::Connect
        } else {
            PaneStage::Done(PaneOutcome::Nothing)
        };
        assert(self@.strays =~= before.strays);
        assert(self@.resolved =~= before.located(*placed).resolved);
        found
    }

    /// Records that the request of the stage succeeded or failed.
    pub fn replied(&mut self, ok: bool)
        requires
            old(self)@.wf(),
        ensures
            final(self)@ == old(self)@.replied(ok),
            final(self)@.wf(),
    {
        let count = self.resolved.len();
        self.stage =
        match self.stage {
            PaneStage::Locate(k) => PaneStage::Locate(k),
            PaneStage::Connect => if ok {
                PaneStage::Close(0)
            } else {
                PaneStage::Done(PaneOutcome::Unreachable)
            },
            PaneStage::Close(k) => if count - k > 1 {
                PaneStage::Close(k + 1)
            } else {
                PaneStage::Fetch
            },
            PaneStage::Fetch => if ok {
                PaneStage::Split(0)
            } else {
                PaneStage::Done(PaneOutcome::Failed)
            },
            PaneStage::Split(k) => if !ok {
                PaneStage::Done(PaneOutcome::Failed)
            } else if count - k > 1 {
                PaneStage::Split(k + 1)
            } else {
                PaneStage::Done(PaneOutcome::Adopted)
            },
            PaneStage::Done(outcome) => PaneStage::Done(outcome),
        };
        assert(self@.strays =~= old(self)@.strays);
        assert(self@.resolved =~= old(self)@.resolved);
    }
}

/// The characters of a string that may be absent.
pub open spec fn optional(s: Option<String>) -> Option<Seq<char>> {
    match s {
        Some(s) => Some(s@),
        None => None,
    }
}

/// The directory of a pane: that of its foreground process, or else its own.
pub open spec fn directory(pane: PaneInfo) -> Option<Seq<char>> {
    match pane.foreground_cwd {
        Some(dir) => Some(dir@),
        None => optional(pane.cwd),
    }
}

/// The directory of the first pane with this id.
pub open spec fn directory_of(panes: Seq<PaneInfo>, id: Seq<char>) -> Option<Seq<char>>
    decreases panes.len(),
{
    if panes.len() == 0 {
        None
    } else if panes[0].pane_id@ == id {
        directory(panes[0])
    } else {
        directory_of(panes.skip(1), id)
    }
}

/// The directory in which to open a split of the pane with this id.
pub fn split_directory(panes: &Vec<PaneInfo>, id: &String) -> (dir: Option<String>)
    ensures
        optional(dir) == directory_of(panes@, id@),
{
    let mut i: usize = 0;
    assert(panes@.skip(0) =~= panes@);
    while i < panes.len()
        invariant
            i <= panes@.len(),
            directory_of(panes@, id@) == directory_of(panes@.skip(i as int), id@),
        decreases panes@.len() - i,
    {
        assert(panes@.skip(i as int)[0] == panes@[i as int]);
        assert(panes@.skip(i as int).skip(1) =~= panes@.skip(i as int + 1));
        let pane = &panes[i];
        if pane.pane_id == *id {
            return match &pane.foreground_cwd {
                Some(dir) => Some(dir.clone()),
                None => match &pane.cwd {
                    Some(dir) => Some(dir.clone()),
                    None => None,
                },
            };
        }
        i = i + 1;
    }
    None
}

/// The value of a parameter.
pub enum Value {
    Text(String),
    Flag(bool),
    Null,
}

/// A request to a session: a method and its parameters.
pub struct Request {
    pub method: String,
    pub params: Vec<(String, Value)>,
}

/// What a parameter holds.
pub enum ValueView {
    Text(Seq<char>),
    Flag(bool),
    Null,
}

impl View for Value {
    type V = ValueView;

    open spec fn view(&self) -> ValueView {
        match self {
            Value::Text(s) => ValueView::Text(s@),
            Value::Flag(b) => ValueView::Flag(*b),
            Value::Null => ValueView::Null,
        }
    }
}

/// A text that may be absent, as the value of a parameter.
pub open spec fn text_or_null(text: Option<Seq<char>>) -> ValueView {
    match text {
        Some(s) => ValueView::Text(s),
        None => ValueView::Null,
    }
}

/// What a request asks for.
pub struct RequestView {
    pub method: Seq<char>,
    pub params: Seq<(Seq<char>, ValueView)>,
}

impl View for Request {
    type V = RequestView;

    open spec fn view(&self) -> RequestView {
        RequestView {
            method: self.method@,
            params: Seq::new(
                self.params@.len(),
                |i: int| (self.params@[i].0@, self.params@[i].1@),
            ),
        }
    }
}

/// The request that closes a workspace.
pub fn close_workspace(workspace_id: &String) -> (r: Request)
    ensures
        r@ == (RequestView {
            method: "workspace.close"@,
            params: seq![("workspace_id"@, ValueView::Text(workspace_id@))],
        }),
{
    let params = vec![("workspace_id".to_string(), Value::Text(workspace_id.clone()))];
    let r = Request { method: "workspace.close".to_string(), params };
    assert(r@.params =~= seq![("workspace_id"@, ValueView::Text(workspace_id@))]);
    r
}

/// The request that creates a workspace without focusing it.
pub fn create_workspace() -> (r: Request)
    ensures
        r@ == (RequestView {
            method: "workspace.create"@,
            params: seq![("focus"@, ValueView::Flag(false))],
        }),
{
    let params = vec![("focus".to_string(), Value::Flag(false))];
    let r = Request { method: "workspace.create".to_string(), params };
    assert(r@.params =~= seq![("focus"@, ValueView::Flag(false))]);
    r
}

/// The request that closes a pane.
pub fn close_pane(pane_id: &String) -> (r: Request)
    ensures
        r@ == (RequestView {
            method: "pane.close"@,
            params: seq![("pane_id"@, ValueView::Text(pane_id@))],
        }),
{
    let params = vec![("pane_id".to_string(), Value::Text(pane_id.clone()))];
    let r = Request { method: "pane.close".to_string(), params };
    assert(r@.params =~= seq![("pane_id"@, ValueView::Text(pane_id@))]);
    r
}

/// The request that splits the source pane of a resolved stray, in that pane's
/// directory, without focusing the new pane.
pub fn split_pane(resolved: &Resolved, remote_panes: &Vec<PaneInfo>) -> (r: Request)
    ensures
        r@ == (RequestView {
            method: "pane.split"@,
            params: seq![
                ("target_pane_id"@, ValueView::Text(resolved@.source)),
                ("direction"@, ValueView::Text(resolved@.direction)),
                ("cwd"@, text_or_null(directory_of(remote_panes@, resolved@.source))),
                ("focus"@, ValueView::Flag(false)),
            ],
        }),
{
    let cwd = match split_directory(remote_panes, &resolved.source) {
        Some(dir) => Value::Text(dir),
        None => Value::Null,
    };
    assert(cwd@ == text_or_null(directory_of(remote_panes@, resolved@.source)));
    let params = vec![
        ("target_pane_id".to_string(), Value::Text(resolved.source.clone())),
        ("direction".to_string(), Value::Text(resolved.direction.clone())),
        ("cwd".to_string(), cwd),
        ("focus".to_string(), Value::Flag(false)),
    ];
    let r = Request { method: "pane.split".to_string(), params };
    assert(r@.params =~= seq![
        ("target_pane_id"@, ValueView::Text(resolved@.source)),
        ("direction"@, ValueView::Text(resolved@.direction)),
        ("cwd"@, text_or_null(directory_of(remote_panes@, resolved@.source))),
        ("focus"@, ValueView::Flag(false)),
    ]);
    r
}

} // verus!
