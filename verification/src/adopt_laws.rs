//! What holds of an adopt pass as a whole.

use vstd::prelude::*;

use crate::adopt;
use crate::adopt::{
    HostConfig, HostState, MirrorConfig, PaneInfo, PaneOutcome, PanePass, PaneStage, PassView,
    Placement, Request, Resolved, ResolvedView, StateEntry, Value, ValueView, WorkspaceInfo,
    WorkspaceOutcome, WorkspaceStage,
};

verus! {

/// Only strays are adopted: a workspace that a mirror owns, that carries the prefix of a
/// host, or that holds anything but one wrapper pane, is left alone.
pub proof fn law_only_strays_are_adopted(
    config: MirrorConfig,
    states: Seq<HostState>,
    panes: Seq<PaneInfo>,
    ws: WorkspaceInfo,
)
    ensures
        adopt::is_mapped(states, ws.workspace_id@) ==> config.adopter(states, panes, ws) is None,
        adopt::is_mirror_label(config.hosts@, ws.label@) ==> config.adopter(states, panes, ws) is None,
        config.adopter(states, panes, ws) is Some ==> exists|i: int|
            adopt::is_sole_pane(panes, ws.workspace_id@, i) && (#[trigger] panes[i]).is_mirror,
{
    if config.adopter(states, panes, ws) is Some {
        let i = choose|i: int| config.is_stray(states, panes, ws, i);
        assert(panes[i].is_mirror);
    }
}

/// An entry stands for its local id unless it is dead, and nothing else does.
pub proof fn law_live_entries_own(entries: Seq<StateEntry>, entry: StateEntry, id: Seq<char>)
    ensures
        !adopt::owns(Seq::empty(), id),
        adopt::owns(entries.push(entry), id) <==> adopt::owns(entries, id) || (!entry.tombstoned
            && entry.local_id@ == id),
{
    let more = entries.push(entry);
    if adopt::owns(entries, id) {
        let i = choose|i: int|
            0 <= i < entries.len() && !(#[trigger] entries[i]).tombstoned && entries[i].local_id@
                == id;
        assert(more[i] == entries[i]);
    }
    if !entry.tombstoned && entry.local_id@ == id {
        assert(more[entries.len() as int] == entry);
    }
    if adopt::owns(more, id) {
        let i = choose|i: int|
            0 <= i < more.len() && !(#[trigger] more[i]).tombstoned && more[i].local_id@ == id;
        if i < entries.len() {
            assert(entries[i] == more[i]);
        }
    }
}

/// A workspace is mapped if and only if it is the live local one of an entry for a
/// workspace, of whichever host.
pub proof fn law_mapped_by_any_host(states: Seq<HostState>, id: Seq<char>)
    ensures
        adopt::is_mapped(states, id) <==> exists|h: int, e: int|
            0 <= h < states.len() && 0 <= e < states[h].workspaces@.len()
                && !(#[trigger] states[h].workspaces@[e]).tombstoned
                && states[h].workspaces@[e].local_id@ == id,
{
    if adopt::is_mapped(states, id) {
        let h = choose|h: int|
            0 <= h < states.len() && adopt::owns((#[trigger] states[h]).workspaces@, id);
        let entries = states[h].workspaces@;
        let e = choose|e: int|
            0 <= e < entries.len() && !(#[trigger] entries[e]).tombstoned && entries[e].local_id@
                == id;
        assert(!states[h].workspaces@[e].tombstoned);
    }
    if exists|h: int, e: int|
        0 <= h < states.len() && 0 <= e < states[h].workspaces@.len()
            && !(#[trigger] states[h].workspaces@[e]).tombstoned
            && states[h].workspaces@[e].local_id@ == id {
        let (h, e) = choose|h: int, e: int|
            0 <= h < states.len() && 0 <= e < states[h].workspaces@.len()
                && !(#[trigger] states[h].workspaces@[e]).tombstoned
                && states[h].workspaces@[e].local_id@ == id;
        assert(adopt::owns(states[h].workspaces@, id));
    }
}

/// The label of the workspace that mirrors the one named `name` on the host.
pub open spec fn mirrored_label(host: HostConfig, name: Seq<char>) -> Seq<char> {
    host.prefix@ + seq![':', ' '] + name
}

/// A label is that of a mirrored workspace if and only if it is the prefix of a host, a
/// colon and a space, and anything behind these.
pub proof fn law_mirror_labels(hosts: Seq<HostConfig>, label: Seq<char>)
    ensures
        adopt::is_mirror_label(hosts, label) <==> exists|h: int, name: Seq<char>|
            0 <= h < hosts.len() && label == #[trigger] mirrored_label(hosts[h], name),
{
    reveal_strlit(": ");
    assert(": "@ =~= seq![':', ' ']);
    if adopt::is_mirror_label(hosts, label) {
        let h = choose|h: int|
            0 <= h < hosts.len() && ((#[trigger] hosts[h]).prefix@ + ": "@).is_prefix_of(label);
        let start = hosts[h].prefix@ + seq![':', ' '];
        assert(label =~= mirrored_label(hosts[h], label.skip(start.len() as int)));
    }
    if exists|h: int, name: Seq<char>|
        0 <= h < hosts.len() && label == #[trigger] mirrored_label(hosts[h], name) {
        let (h, name) = choose|h: int, name: Seq<char>|
            0 <= h < hosts.len() && label == #[trigger] mirrored_label(hosts[h], name);
        let start = hosts[h].prefix@ + seq![':', ' '];
        assert(start =~= label.take(start.len() as int));
    }
}

/// The panes of a workspace, of whatever kind.
pub open spec fn panes_in(panes: Seq<PaneInfo>, id: Seq<char>) -> Seq<PaneInfo> {
    panes.filter(|p: PaneInfo| p.workspace_id@ == id)
}

/// The only pane of a workspace is all that it holds, and where two panes are in a
/// workspace it holds more than one.
proof fn lemma_panes_in(panes: Seq<PaneInfo>, id: Seq<char>)
    ensures
        forall|i: int|
            adopt::is_sole_pane(panes, id, i) ==> panes_in(panes, id) == seq![#[trigger] panes[i]],
        panes_in(panes, id).len() == 1 ==> exists|i: int| adopt::is_sole_pane(panes, id, i),
        panes_in(panes, id).len() == 0 ==> forall|i: int|
            0 <= i < panes.len() ==> (#[trigger] panes[i]).workspace_id@ != id,
        (forall|i: int| 0 <= i < panes.len() ==> (#[trigger] panes[i]).workspace_id@ != id)
            ==> panes_in(panes, id).len() == 0,
    decreases panes.len(),
{
    reveal(Seq::filter);
    if panes.len() > 0 {
        let init = panes.drop_last();
        let n = panes.len() - 1;
        lemma_panes_in(init, id);
        assert(panes[n] == panes.last());
        assert forall|i: int| 0 <= i < n implies #[trigger] panes[i] == init[i] by {}
        if panes.last().workspace_id@ == id {
            assert forall|i: int| adopt::is_sole_pane(panes, id, i) implies panes_in(panes, id)
                == seq![#[trigger] panes[i]] by {
                assert(i == n);
                assert forall|j: int| 0 <= j < init.len() implies (#[trigger] init[j]).workspace_id@
                    != id by {
                    assert(panes[j] == init[j]);
                }
                assert(panes_in(panes, id) =~= seq![panes[i]]);
            }
            if panes_in(panes, id).len() == 1 {
                assert forall|j: int| 0 <= j < panes.len() && j != n implies (
                #[trigger] panes[j]).workspace_id@ != id by {
                    assert(panes[j] == init[j]);
                }
                assert(adopt::is_sole_pane(panes, id, n));
            }
        } else {
            assert forall|i: int| adopt::is_sole_pane(panes, id, i) implies panes_in(panes, id)
                == seq![#[trigger] panes[i]] by {
                assert(init[i] == panes[i]);
                assert forall|j: int| 0 <= j < init.len() && j != i implies (
                #[trigger] init[j]).workspace_id@ != id by {
                    assert(panes[j] == init[j]);
                }
                assert(adopt::is_sole_pane(init, id, i));
            }
            if panes_in(panes, id).len() == 1 {
                let i = choose|i: int| adopt::is_sole_pane(init, id, i);
                assert forall|j: int| 0 <= j < panes.len() && j != i implies (
                #[trigger] panes[j]).workspace_id@ != id by {
                    if j < n {
                        assert(panes[j] == init[j]);
                    }
                }
                assert(adopt::is_sole_pane(panes, id, i));
            }
            if panes_in(panes, id).len() == 0 {
                assert forall|i: int| 0 <= i < panes.len() implies (
                #[trigger] panes[i]).workspace_id@ != id by {
                    if i < n {
                        assert(panes[i] == init[i]);
                    }
                }
            }
        }
        if forall|i: int| 0 <= i < panes.len() ==> (#[trigger] panes[i]).workspace_id@ != id {
            assert forall|i: int| 0 <= i < init.len() implies (#[trigger] init[i]).workspace_id@
                != id by {
                assert(panes[i] == init[i]);
            }
        }
    }
}

/// A workspace that is adopted holds exactly one pane, counting panes of every kind, and
/// that pane is a wrapper pane: whatever a user has opened beside it keeps the workspace
/// from being closed. And a workspace that holds just that, that no mirror owns and that
/// carries the prefix of no host, goes to the host of the pane.
pub proof fn law_adopted_workspaces_hold_one_pane(
    config: MirrorConfig,
    states: Seq<HostState>,
    panes: Seq<PaneInfo>,
    ws: WorkspaceInfo,
)
    ensures
        ({
            let inside = panes.filter(|p: PaneInfo| p.workspace_id@ == ws.workspace_id@);
            let host = config.adopter(states, panes, ws);
            &&& host is Some ==> inside.len() == 1 && inside[0].is_mirror
            &&& forall|i: int, j: int|
                0 <= i < j < panes.len() && (#[trigger] panes[i]).workspace_id@ == ws.workspace_id@
                    && (#[trigger] panes[j]).workspace_id@ == ws.workspace_id@ ==> host is None
            &&& inside.len() == 1 && inside[0].is_mirror && !adopt::is_mapped(
                states,
                ws.workspace_id@,
            ) && !adopt::is_mirror_label(config.hosts@, ws.label@) ==> host == config.host_of(
                inside[0],
            )
        }),
{
    let id = ws.workspace_id@;
    let inside = panes_in(panes, id);
    assert(inside == panes.filter(|p: PaneInfo| p.workspace_id@ == ws.workspace_id@));
    lemma_panes_in(panes, id);
    if config.adopter(states, panes, ws) is Some {
        let i = choose|i: int| config.is_stray(states, panes, ws, i);
        assert(inside == seq![panes[i]]);
    }
    if inside.len() == 1 && inside[0].is_mirror && !adopt::is_mapped(states, id)
        && !adopt::is_mirror_label(config.hosts@, ws.label@) {
        let i = choose|i: int| adopt::is_sole_pane(panes, id, i);
        assert(inside == seq![panes[i]]);
        assert(inside[0] == panes[i]);
        law_stray_goes_to_its_host(config, states, panes, ws, i);
    }
}

/// A pane belongs to the first host that its directory names, and to the default host, if
/// there is one, where it names none or none that is known.
pub proof fn law_host_of_pane(config: MirrorConfig, pane: PaneInfo)
    ensures
        forall|h: int|
            pane.mirror_host is Some && 0 <= h < config.hosts@.len()
                && #[trigger] config.hosts@[h].name@ == pane.mirror_host->0@ && (forall|j: int|
                0 <= j < h ==> #[trigger] config.hosts@[j].name@ != pane.mirror_host->0@)
                ==> config.host_of(pane) == Some(h as nat),
        pane.mirror_host is None || (forall|j: int|
            0 <= j < config.hosts@.len() ==> #[trigger] config.hosts@[j].name@
                != pane.mirror_host->0@) ==> match config.default_host {
            Some(h) => config.host_of(pane) == Some(h as nat),
            None => config.host_of(pane) is None,
        },
{
    if let Some(name) = pane.mirror_host {
        law_host_named_is_first(config.hosts@, name@);
        assert forall|h: int|
            0 <= h < config.hosts@.len() && #[trigger] config.hosts@[h].name@ == name@ && (forall|
                j: int,
            |
                0 <= j < h ==> #[trigger] config.hosts@[j].name@ != name@) implies config.host_of(
            pane,
        ) == Some(h as nat) by {
            let k = adopt::host_named(config.hosts@, name@)->0 as int;
            if k < h {
                assert(config.hosts@[k].name@ != name@);
            }
        }
    }
}

/// A stray itself says which host its user meant: it is adopted by the host that the
/// directory of its pane names, and by the default host where that names none.
pub proof fn law_stray_goes_to_its_host(
    config: MirrorConfig,
    states: Seq<HostState>,
    panes: Seq<PaneInfo>,
    ws: WorkspaceInfo,
    i: int,
)
    requires
        config.is_stray(states, panes, ws, i),
    ensures
        config.adopter(states, panes, ws) == config.host_of(panes[i]),
{
    let j = choose|j: int| config.is_stray(states, panes, ws, j);
    if i != j {
        assert(panes[i].workspace_id@ == ws.workspace_id@);
        assert(false);
    }
}

/// The host that a name finds has that name, and none before it has.
pub proof fn law_host_named_is_first(hosts: Seq<HostConfig>, name: Seq<char>)
    ensures
        match adopt::host_named(hosts, name) {
            Some(h) => h < hosts.len() && hosts[h as int].name@ == name && forall|j: int|
                0 <= j < h ==> (#[trigger] hosts[j]).name@ != name,
            None => forall|j: int| 0 <= j < hosts.len() ==> (#[trigger] hosts[j]).name@ != name,
        },
    decreases hosts.len(),
{
    if hosts.len() > 0 {
        let init = hosts.drop_last();
        law_host_named_is_first(init, name);
        match adopt::host_named(init, name) {
            Some(h) => {
                assert(init[h as int] == hosts[h as int]);
                assert forall|j: int| 0 <= j < h implies (#[trigger] hosts[j]).name@ != name by {
                    assert(init[j] == hosts[j]);
                }
            },
            None => {
                assert forall|j: int| 0 <= j < init.len() implies (#[trigger] hosts[j]).name@
                    != name by {
                    assert(init[j] == hosts[j]);
                }
            },
        }
    }
}

/// Closing comes first, and only who wins the close goes on: the host is connected to
/// only after the close succeeded, and a workspace is created there only after the
/// connection did. Whatever fails first decides what became of the stray.
pub proof fn law_only_the_winner_creates(replies: Seq<bool>)
    ensures
        WorkspaceStage::Close.after(replies) == if replies.len() == 0 {
            WorkspaceStage::Close
        } else if !replies[0] {
            WorkspaceStage::Done(WorkspaceOutcome::Lost)
        } else if replies.len() == 1 {
            WorkspaceStage::Connect
        } else if !replies[1] {
            WorkspaceStage::Done(WorkspaceOutcome::Unreachable)
        } else if replies.len() == 2 {
            WorkspaceStage::Create
        } else if !replies[2] {
            WorkspaceStage::Done(WorkspaceOutcome::NotCreated)
        } else {
            WorkspaceStage::Done(WorkspaceOutcome::Replaced)
        },
    decreases replies.len(),
{
    if replies.len() > 0 {
        law_only_the_winner_creates(replies.drop_last());
    }
}

/// The strays of a host are all those panes that sit in one of its mirrored workspaces
/// with the wrapper's directory and are not owned, each once and in order. So a pane that
/// the mirror owns is never one.
pub proof fn law_strays(state: HostState, panes: Seq<PaneInfo>)
    ensures
        forall|k: int|
            0 <= k < adopt::strays(state, panes).len() ==> (#[trigger] adopt::strays(
                state,
                panes,
            )[k]) < panes.len() && adopt::is_stray_pane(
                state,
                panes[adopt::strays(state, panes)[k] as int],
            ),
        forall|j: int, k: int|
            0 <= j < k < adopt::strays(state, panes).len() ==> #[trigger] adopt::strays(
                state,
                panes,
            )[j] < #[trigger] adopt::strays(state, panes)[k],
        forall|i: nat|
            i < panes.len() && adopt::is_stray_pane(state, panes[i as int])
                ==> #[trigger] adopt::strays(state, panes).contains(i),
    decreases panes.len(),
{
    if panes.len() > 0 {
        let init = panes.drop_last();
        law_strays(state, init);
        let before = adopt::strays(state, init);
        let all = adopt::strays(state, panes);
        assert forall|k: int| 0 <= k < all.len() implies (#[trigger] all[k]) < panes.len()
            && adopt::is_stray_pane(state, panes[all[k] as int]) by {
            if k < before.len() {
                assert(all[k] == before[k]);
                assert(init[before[k] as int] == panes[all[k] as int]);
            }
        }
        assert forall|j: int, k: int| 0 <= j < k < all.len() implies #[trigger] all[j]
            < #[trigger] all[k] by {
            assert(all[j] == before[j]);
            if k < before.len() {
                assert(all[k] == before[k]);
            }
        }
        assert forall|i: nat|
            i < panes.len() && adopt::is_stray_pane(
                state,
                panes[i as int],
            ) implies #[trigger] all.contains(i) by {
            if i < init.len() {
                assert(init[i as int] == panes[i as int]);
                assert(before.contains(i));
                let k = choose|k: int| 0 <= k < before.len() && before[k] == i;
                assert(all[k] == i);
            } else {
                assert(all[all.len() - 1] == i);
            }
        }
    }
}

/// A mirror knows the remote pane of exactly those local panes that it owns.
pub proof fn law_owned_panes_have_a_remote(entries: Seq<StateEntry>, id: Seq<char>)
    ensures
        adopt::remote_of(entries, id) is Some <==> adopt::owns(entries, id),
    decreases entries.len(),
{
    if entries.len() > 0 {
        let init = entries.drop_last();
        law_owned_panes_have_a_remote(init, id);
        if adopt::owns(entries, id) && !(!entries.last().tombstoned && entries.last().local_id@
            == id) {
            let i = choose|i: int|
                0 <= i < entries.len() && !(#[trigger] entries[i]).tombstoned
                    && entries[i].local_id@ == id;
            assert(init[i] == entries[i]);
        }
        if adopt::owns(init, id) {
            let i = choose|i: int|
                0 <= i < init.len() && !(#[trigger] init[i]).tombstoned && init[i].local_id@ == id;
            assert(entries[i] == init[i]);
        }
        if !entries.last().tombstoned && entries.last().local_id@ == id {
            assert(entries[entries.len() - 1].local_id@ == id);
        }
    }
}

/// A stray resolves if and only if its place in the layout is known and a pane that the
/// mirror owns is on the other side of the split.
pub proof fn law_strays_resolve_by_an_owned_sibling(
    entries: Seq<StateEntry>,
    pane: nat,
    placed: Option<Placement>,
)
    ensures
        adopt::resolve(entries, pane, placed) is Some <==> (placed matches Some(p) && exists|i: int|
            0 <= i < p.siblings@.len() && adopt::owns(entries, (#[trigger] p.siblings@[i])@)),
{
    if let Some(p) = placed {
        lemma_first_owned(entries, p.siblings@);
        if let Some(id) = adopt::first_owned(entries, p.siblings@) {
            law_owned_panes_have_a_remote(entries, id);
        }
    }
}

/// The first owned pane is owned, and there is one if any is owned.
proof fn lemma_first_owned(entries: Seq<StateEntry>, ids: Seq<String>)
    ensures
        match adopt::first_owned(entries, ids) {
            Some(id) => adopt::owns(entries, id) && exists|i: int|
                0 <= i < ids.len() && (#[trigger] ids[i])@ == id,
            None => forall|i: int| 0 <= i < ids.len() ==> !adopt::owns(entries, (#[trigger] ids[i])@),
        },
    decreases ids.len(),
{
    if ids.len() > 0 {
        let init = ids.drop_last();
        lemma_first_owned(entries, init);
        match adopt::first_owned(entries, init) {
            Some(id) => {
                let i = choose|i: int| 0 <= i < init.len() && (#[trigger] init[i])@ == id;
                assert(ids[i]@ == id);
            },
            None => {
                assert forall|i: int| 0 <= i < init.len() implies !adopt::owns(
                    entries,
                    (#[trigger] ids[i])@,
                ) by {
                    assert(init[i] == ids[i]);
                }
                assert(ids[ids.len() - 1] == ids.last());
            },
        }
    }
}

/// A mirror looks up the remote object of a local one in its last live entry for it.
pub proof fn law_remote_is_that_of_the_last_live_entry(
    entries: Seq<StateEntry>,
    id: Seq<char>,
    e: int,
)
    requires
        0 <= e < entries.len(),
        !entries[e].tombstoned,
        entries[e].local_id@ == id,
        forall|j: int|
            e < j < entries.len() ==> (#[trigger] entries[j]).tombstoned || entries[j].local_id@ != id,
    ensures
        adopt::remote_of(entries, id) == Some(entries[e].remote_id@),
    decreases entries.len(),
{
    if e < entries.len() - 1 {
        let init = entries.drop_last();
        assert(entries[entries.len() - 1] == entries.last());
        assert(init[e] == entries[e]);
        assert forall|j: int| e < j < init.len() implies (#[trigger] init[j]).tombstoned
            || init[j].local_id@ != id by {
            assert(entries[j] == init[j]);
        }
        law_remote_is_that_of_the_last_live_entry(init, id, e);
    }
}

/// The first owned pane is the first of the panes that is owned.
proof fn lemma_first_owned_is(entries: Seq<StateEntry>, ids: Seq<String>, i: int)
    requires
        0 <= i < ids.len(),
        adopt::owns(entries, ids[i]@),
        forall|k: int| 0 <= k < i ==> !adopt::owns(entries, (#[trigger] ids[k])@),
    ensures
        adopt::first_owned(entries, ids) == Some(ids[i]@),
    decreases ids.len(),
{
    let init = ids.drop_last();
    assert forall|k: int| 0 <= k < i implies !adopt::owns(entries, (#[trigger] init[k])@) by {
        assert(ids[k] == init[k]);
    }
    if i < ids.len() - 1 {
        assert(init[i] == ids[i]);
        lemma_first_owned_is(entries, init, i);
    } else {
        lemma_first_owned(entries, init);
        if let Some(id) = adopt::first_owned(entries, init) {
            let k = choose|k: int| 0 <= k < init.len() && (#[trigger] init[k])@ == id;
            assert(!adopt::owns(entries, init[k]@));
        }
    }
}

/// A stray is replaced by a split in the direction in which the user split it off, of the
/// remote pane that the first owned pane on the other side mirrors.
pub proof fn law_resolved_stray_keeps_its_place(
    entries: Seq<StateEntry>,
    pane: nat,
    p: Placement,
    i: int,
    e: int,
)
    requires
        0 <= i < p.siblings@.len(),
        0 <= e < entries.len(),
        !entries[e].tombstoned,
        entries[e].local_id@ == p.siblings@[i]@,
        forall|j: int|
            e < j < entries.len() ==> (#[trigger] entries[j]).tombstoned || entries[j].local_id@
                != p.siblings@[i]@,
        forall|k: int, j: int|
            0 <= k < i && 0 <= j < entries.len() ==> (#[trigger] entries[j]).tombstoned
                || entries[j].local_id@ != (#[trigger] p.siblings@[k])@,
    ensures
        adopt::resolve(entries, pane, Some(p)) is Some,
        ({
            let r = adopt::resolve(entries, pane, Some(p))->0;
            &&& r.pane == pane
            &&& r.direction == p.direction@
            &&& r.source == entries[e].remote_id@
        }),
{
    assert(adopt::owns(entries, p.siblings@[i]@));
    lemma_first_owned_is(entries, p.siblings@, i);
    law_remote_is_that_of_the_last_live_entry(entries, p.siblings@[i]@, e);
}

/// Whatever a stray resolves to, it is the stray itself in the direction of its placement,
/// next to the remote pane of a live entry for one of its siblings, and no sibling before
/// that one is owned.
pub proof fn law_resolution_comes_from_the_placement(
    entries: Seq<StateEntry>,
    pane: nat,
    placed: Option<Placement>,
)
    ensures
        adopt::resolve(entries, pane, placed) matches Some(r) ==> placed is Some && r.pane == pane
            && r.direction == placed->0.direction@ && exists|i: int, e: int|
            0 <= i < placed->0.siblings@.len() && 0 <= e < entries.len()
                && !entries[e].tombstoned && (#[trigger] entries[e]).local_id@ == (
            #[trigger] placed->0.siblings@[i])@ && r.source == entries[e].remote_id@ && (forall|
                k: int,
            |
                0 <= k < i ==> !adopt::owns(entries, (#[trigger] placed->0.siblings@[k])@)),
{
    if let Some(p) = placed {
        lemma_first_owned(entries, p.siblings@);
        if exists|i: int|
            0 <= i < p.siblings@.len() && adopt::owns(entries, (#[trigger] p.siblings@[i])@) {
            let i = lemma_least_owned(entries, p.siblings@);
            lemma_first_owned_is(entries, p.siblings@, i);
            let id = p.siblings@[i]@;
            law_owned_panes_have_a_remote(entries, id);
            let e = lemma_remote_entry(entries, id);
            assert(entries[e].local_id@ == p.siblings@[i]@);
        }
    }
}

/// The index of the first owned pane.
proof fn lemma_least_owned(entries: Seq<StateEntry>, ids: Seq<String>) -> (i: int)
    requires
        exists|i: int| 0 <= i < ids.len() && adopt::owns(entries, (#[trigger] ids[i])@),
    ensures
        0 <= i < ids.len(),
        adopt::owns(entries, ids[i]@),
        forall|k: int| 0 <= k < i ==> !adopt::owns(entries, (#[trigger] ids[k])@),
    decreases ids.len(),
{
    let init = ids.drop_last();
    if exists|i: int| 0 <= i < init.len() && adopt::owns(entries, (#[trigger] init[i])@) {
        let i = lemma_least_owned(entries, init);
        assert(ids[i] == init[i]);
        assert forall|k: int| 0 <= k < i implies !adopt::owns(entries, (#[trigger] ids[k])@) by {
            assert(init[k] == ids[k]);
        }
        i
    } else {
        let n = ids.len() - 1;
        assert forall|k: int| 0 <= k < n implies !adopt::owns(entries, (#[trigger] ids[k])@) by {
            assert(init[k] == ids[k]);
        }
        n
    }
}

/// The entry that the remote object of a local one comes from.
proof fn lemma_remote_entry(entries: Seq<StateEntry>, id: Seq<char>) -> (e: int)
    requires
        adopt::remote_of(entries, id) is Some,
    ensures
        0 <= e < entries.len(),
        !entries[e].tombstoned,
        entries[e].local_id@ == id,
        adopt::remote_of(entries, id) == Some(entries[e].remote_id@),
    decreases entries.len(),
{
    let n = entries.len() - 1;
    if !entries.last().tombstoned && entries.last().local_id@ == id {
        n
    } else {
        let e = lemma_remote_entry(entries.drop_last(), id);
        assert(entries.drop_last()[e] == entries[e]);
        e
    }
}

/// A pane is a stray of a host if and only if the host's mirror owns its workspace, but
/// not the pane itself, and it has the wrapper's directory.
pub proof fn law_stray_panes(state: HostState, panes: Seq<PaneInfo>, i: nat)
    ensures
        adopt::strays(state, panes).contains(i) <==> i < panes.len() && adopt::owns(
            state.workspaces@,
            panes[i as int].workspace_id@,
        ) && !adopt::owns(state.panes@, panes[i as int].pane_id@) && panes[i as int].is_mirror,
{
    law_strays(state, panes);
}

/// A split opens in the directory of the foreground process of the pane that is split, or
/// else in that pane's own; in none where the pane is not known, or has none.
pub proof fn law_split_directory(panes: Seq<PaneInfo>, id: Seq<char>)
    ensures
        forall|i: int|
            0 <= i < panes.len() && (#[trigger] panes[i]).pane_id@ == id && (forall|j: int|
                0 <= j < i ==> (#[trigger] panes[j]).pane_id@ != id) ==> {
                let dir = adopt::text_or_null(adopt::directory_of(panes, id));
                if let Some(d) = panes[i].foreground_cwd {
                    dir == ValueView::Text(d@)
                } else if let Some(d) = panes[i].cwd {
                    dir == ValueView::Text(d@)
                } else {
                    dir == ValueView::Null
                }
            },
        (forall|j: int| 0 <= j < panes.len() ==> (#[trigger] panes[j]).pane_id@ != id)
            ==> adopt::text_or_null(adopt::directory_of(panes, id)) == ValueView::Null,
    decreases panes.len(),
{
    if panes.len() > 0 {
        let rest = panes.skip(1);
        law_split_directory(rest, id);
        assert forall|i: int|
            0 <= i < panes.len() && (#[trigger] panes[i]).pane_id@ == id && (forall|j: int|
                0 <= j < i ==> (#[trigger] panes[j]).pane_id@ != id) implies {
            let dir = adopt::text_or_null(adopt::directory_of(panes, id));
            if let Some(d) = panes[i].foreground_cwd {
                dir == ValueView::Text(d@)
            } else if let Some(d) = panes[i].cwd {
                dir == ValueView::Text(d@)
            } else {
                dir == ValueView::Null
            }
        } by {
            if i > 0 {
                assert(panes[0].pane_id@ != id);
                assert(rest[i - 1] == panes[i]);
                assert forall|j: int| 0 <= j < i - 1 implies (#[trigger] rest[j]).pane_id@ != id by {
                    assert(rest[j] == panes[j + 1]);
                }
            }
        }
        if forall|j: int| 0 <= j < panes.len() ==> (#[trigger] panes[j]).pane_id@ != id {
            assert(panes[0].pane_id@ != id);
            assert forall|j: int| 0 <= j < rest.len() implies (#[trigger] rest[j]).pane_id@ != id by {
                assert(rest[j] == panes[j + 1]);
            }
        }
    }
}

/// What is sent and what a pass holds are seen as they are.
pub proof fn law_requests_and_passes_are_seen_as_they_are(
    request: Request,
    value: Value,
    resolved: Resolved,
    pass: PanePass,
)
    ensures
        match value {
            Value::Text(s) => value@ == ValueView::Text(s@),
            Value::Flag(b) => value@ == ValueView::Flag(b),
            Value::Null => value@ == ValueView::Null,
        },
        request@.method == request.method@,
        request@.params.len() == request.params@.len(),
        forall|i: int|
            0 <= i < request.params@.len() ==> (#[trigger] request@.params[i]).0
                == request.params@[i].0@ && request@.params[i].1 == request.params@[i].1@,
        resolved@.pane == resolved.pane,
        resolved@.direction == resolved.direction@,
        resolved@.source == resolved.source@,
        pass@.stage == pass.stage,
        pass@.entries == pass.entries@,
        pass@.strays.len() == pass.strays@.len(),
        forall|k: int|
            0 <= k < pass.strays@.len() ==> #[trigger] pass@.strays[k] == pass.strays@[k],
        pass@.resolved.len() == pass.resolved@.len(),
        forall|k: int|
            0 <= k < pass.resolved@.len() ==> #[trigger] pass@.resolved[k] == pass.resolved@[k]@,
{
}

/// Something that a pass is told.
pub enum Event {
    Located(Option<Placement>),
    Replied(bool),
}

/// The pass after one event.
pub open spec fn after_event(pass: PassView, event: Event) -> PassView {
    match event {
        Event::Located(placed) => pass.located(placed),
        Event::Replied(ok) => pass.replied(ok),
    }
}

/// The pass after all events.
pub open spec fn after_events(pass: PassView, events: Seq<Event>) -> PassView
    decreases events.len(),
{
    if events.len() == 0 {
        pass
    } else {
        after_event(after_events(pass, events.drop_last()), events.last())
    }
}

/// How far a pass has come.
pub open spec fn rank(stage: PaneStage) -> nat {
    match stage {
        PaneStage::Locate(_) => 0,
        PaneStage::Connect => 1,
        PaneStage::Close(_) => 2,
        PaneStage::Fetch => 3,
        PaneStage::Split(_) => 4,
        PaneStage::Done(_) => 5,
    }
}

/// A pass never goes back, whatever it is told: every stray is located before the host is
/// connected to, none is closed before that, and nothing is split before every resolved
/// one was closed and the panes of the host are known. Once all are located, which strays
/// are resolved is settled.
pub proof fn law_pass_never_goes_back(pass: PassView, events: Seq<Event>)
    requires
        pass.wf(),
    ensures
        after_events(pass, events).wf(),
        rank(after_events(pass, events).stage) >= rank(pass.stage),
        rank(pass.stage) > 0 ==> after_events(pass, events).resolved == pass.resolved,
        after_events(pass, events).strays == pass.strays,
        after_events(pass, events).entries == pass.entries,
    decreases events.len(),
{
    if events.len() > 0 {
        law_pass_never_goes_back(pass, events.drop_last());
    }
}

/// A pass that is done stays as it is.
proof fn lemma_done_stays(pass: PassView, events: Seq<Event>)
    requires
        pass.stage is Done,
    ensures
        after_events(pass, events) == pass,
    decreases events.len(),
{
    if events.len() > 0 {
        lemma_done_stays(pass, events.drop_last());
    }
}

/// If the host is unreachable its strays are left alone: a pass comes to close one only
/// after it was told that the connection succeeded, and one that was told that it failed
/// is over, whatever it is told then.
pub proof fn law_unreachable_host_leaves_strays(pass: PassView, events: Seq<Event>)
    requires
        pass.wf(),
        rank(pass.stage) <= 1,
    ensures
        after_events(pass, events).stage is Close ==> exists|j: int|
            0 <= j < events.len() && after_events(pass, events.take(j)).stage
                == PaneStage::Connect && #[trigger] events[j] == Event::Replied(true),
        pass.stage == PaneStage::Connect ==> after_events(pass.replied(false), events)
            == pass.replied(false),
    decreases events.len(),
{
    if pass.stage == PaneStage::Connect {
        lemma_done_stays(pass.replied(false), events);
    }
    if after_events(pass, events).stage is Close {
        let init = events.drop_last();
        let last = events.len() - 1;
        law_unreachable_host_leaves_strays(pass, init);
        if after_events(pass, init).stage is Close {
            let j = choose|j: int|
                0 <= j < init.len() && after_events(pass, init.take(j)).stage
                    == PaneStage::Connect && #[trigger] init[j] == Event::Replied(true);
            assert(events.take(j) =~= init.take(j));
            assert(events[j] == init[j]);
        } else {
            assert(events.take(last) =~= init);
            assert(events[last] == Event::Replied(true));
        }
    }
}

/// What a pass did not ask for changes nothing: where a stray sits matters only while that
/// stray is to be located, and whether a request succeeded only while none is.
pub proof fn law_pass_takes_only_what_it_asked_for(
    pass: PassView,
    placed: Option<Placement>,
    ok: bool,
)
    ensures
        pass.stage is Locate ==> pass.replied(ok) == pass,
        !(pass.stage is Locate) ==> pass.located(placed) == pass,
{
}

/// Each stray that is located is looked up under its own index in what the mirror owns:
/// one that resolves joins those before it, and one that does not leaves them as they are.
pub proof fn law_located_strays_are_kept_in_order(
    pass: PassView,
    placed: Option<Placement>,
    k: usize,
)
    requires
        pass.stage == PaneStage::Locate(k),
        k < pass.strays.len(),
    ensures
        ({
            let after = pass.located(placed);
            &&& pass.resolved.is_prefix_of(after.resolved)
            &&& match adopt::resolve(pass.entries, pass.strays[k as int], placed) {
                Some(r) => after.resolved.len() == pass.resolved.len() + 1 && after.resolved.last()
                    == r && r.pane == pass.strays[k as int],
                None => after.resolved.len() == pass.resolved.len(),
            }
            &&& k + 1 < pass.strays.len() <= usize::MAX ==> after.stage == PaneStage::Locate(
                (k + 1) as usize,
            )
            &&& k + 1 == pass.strays.len() ==> after.stage == if after.resolved.len() > 0 {
                PaneStage::Connect
            } else {
                PaneStage::Done(PaneOutcome::Nothing)
            }
        }),
{
    let after = pass.located(placed);
    assert(pass.resolved =~= after.resolved.take(pass.resolved.len() as int));
}

/// The strays that resolve at their places, in order.
pub open spec fn resolved_strays(
    entries: Seq<StateEntry>,
    strays: Seq<nat>,
    placements: Seq<Option<Placement>>,
) -> Seq<ResolvedView>
    decreases placements.len(),
{
    if placements.len() == 0 {
        Seq::empty()
    } else {
        let before = resolved_strays(entries, strays, placements.drop_last());
        match adopt::resolve(entries, strays[placements.len() - 1], placements.last()) {
            Some(r) => before.push(r),
            None => before,
        }
    }
}

/// The events that tell a pass where its strays are.
pub open spec fn located_events(placements: Seq<Option<Placement>>) -> Seq<Event> {
    Seq::new(placements.len(), |k: int| Event::Located(placements[k]))
}

/// While it locates, a pass keeps the strays that resolve, in order, and leaves the
/// others alone. When all are located it goes on to connect to the host, and ends if none
/// resolved.
pub proof fn law_pass_resolves_all_first(
    state: HostState,
    panes: Seq<PaneInfo>,
    placements: Seq<Option<Placement>>,
)
    requires
        placements.len() <= adopt::strays(state, panes).len(),
        adopt::strays(state, panes).len() <= usize::MAX,
    ensures
        ({
            let all = adopt::strays(state, panes);
            let resolved = resolved_strays(state.panes@, all, placements);
            let pass = after_events(PassView::start(state, panes), located_events(placements));
            &&& pass.resolved == resolved
            &&& pass.stage == if placements.len() < all.len() {
                PaneStage::Locate(placements.len() as usize)
            } else if resolved.len() > 0 {
                PaneStage::Connect
            } else {
                PaneStage::Done(PaneOutcome::Nothing)
            }
        }),
    decreases placements.len(),
{
    let start = PassView::start(state, panes);
    let events = located_events(placements);
    if placements.len() > 0 {
        let init = placements.drop_last();
        law_pass_resolves_all_first(state, panes, init);
        assert(events.drop_last() =~= located_events(init));
        let before = after_events(start, located_events(init));
        assert(before.strays == adopt::strays(state, panes) && before.entries == state.panes@) by {
            law_pass_never_goes_back(start, located_events(init));
        }
    } else {
        assert(resolved_strays(state.panes@, adopt::strays(state, panes), placements)
            =~= Seq::empty());
    }
}

/// The events that tell a pass that so many requests succeeded.
pub open spec fn successes(n: nat) -> Seq<Event> {
    Seq::new(n, |k: int| Event::Replied(true))
}

/// A pass in which every request succeeds connects, closes each resolved stray once, in
/// order, fetches, and splits once for each of them, in the same order, and is done.
pub proof fn law_pass_closes_then_splits_each(pass: PassView, n: nat)
    requires
        pass.stage == PaneStage::Connect,
        0 < pass.resolved.len() <= usize::MAX,
    ensures
        ({
            let count = pass.resolved.len();
            after_events(pass, successes(n)) == (PassView {
                stage: if n == 0 {
                    PaneStage::Connect
                } else if n <= count {
                    PaneStage::Close((n - 1) as usize)
                } else if n == count + 1 {
                    PaneStage::Fetch
                } else if n < 2 * count + 2 {
                    PaneStage::Split((n - count - 2) as usize)
                } else {
                    PaneStage::Done(PaneOutcome::Adopted)
                },
                ..pass
            })
        }),
    decreases n,
{
    if n > 0 {
        let m = (n - 1) as nat;
        law_pass_closes_then_splits_each(pass, m);
        assert(successes(n).drop_last() =~= successes(m));
    }
}

/// An unreachable host, and a request that fails once it was reached, end the pass at
/// once; a stray that cannot be closed does not.
pub proof fn law_pass_ends_on_failure(pass: PassView)
    ensures
        pass.stage == PaneStage::Connect ==> pass.replied(false).stage == PaneStage::Done(
            PaneOutcome::Unreachable,
        ),
        pass.stage == PaneStage::Fetch || pass.stage is Split ==> pass.replied(false).stage
            == PaneStage::Done(PaneOutcome::Failed),
        pass.stage is Close ==> pass.replied(false) == pass.replied(true),
        pass.stage is Done ==> pass.replied(false) == pass && pass.replied(true) == pass,
{
}

} // verus!
