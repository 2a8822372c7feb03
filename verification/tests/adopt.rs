use pane_mirror::adopt::{
    close_pane, close_workspace, create_workspace, find_strays, resolve_stray, split_directory,
    split_pane, workspace_adopter, HostConfig, HostState, MirrorConfig, PaneInfo, PaneOutcome,
    PanePass, PaneStage, Placement, Request, Resolved, StateEntry, Value, WorkspaceInfo,
    WorkspaceOutcome, WorkspaceStage,
};

fn host(name: &str, prefix: &str) -> HostConfig {
    HostConfig { name: name.to_string(), prefix: prefix.to_string() }
}

fn config(default_host: Option<usize>) -> MirrorConfig {
    MirrorConfig { hosts: vec![host("alpha", "A"), host("beta", "B")], default_host }
}

fn workspace(id: &str, label: &str) -> WorkspaceInfo {
    WorkspaceInfo { workspace_id: id.to_string(), label: label.to_string() }
}

fn pane(id: &str, ws: &str, is_mirror: bool, mirror_host: Option<&str>) -> PaneInfo {
    PaneInfo {
        pane_id: id.to_string(),
        workspace_id: ws.to_string(),
        tab_id: format!("tab-{id}"),
        is_mirror,
        mirror_host: mirror_host.map(str::to_string),
        cwd: None,
        foreground_cwd: None,
    }
}

fn entry(remote: &str, local: &str, tombstoned: bool) -> StateEntry {
    StateEntry { remote_id: remote.to_string(), local_id: local.to_string(), tombstoned }
}

fn no_state() -> HostState {
    HostState { workspaces: vec![], panes: vec![] }
}

fn placement(direction: &str, siblings: &[&str]) -> Option<Placement> {
    Some(Placement {
        direction: direction.to_string(),
        siblings: siblings.iter().map(|s| s.to_string()).collect(),
    })
}

/// The method and the parameters, one behind the other.
fn written(r: &Request) -> String {
    let mut out = r.method.clone();
    for (key, value) in &r.params {
        out.push(' ');
        out.push_str(key);
        out.push('=');
        match value {
            Value::Text(text) => out.push_str(text),
            Value::Flag(flag) => out.push_str(if *flag { "true" } else { "false" }),
            Value::Null => out.push_str("null"),
        }
    }
    out
}

#[test]
fn stray_workspace_goes_to_the_host_that_its_pane_names() {
    let panes = vec![pane("p", "w", true, Some("beta"))];
    let ws = workspace("w", "shell");
    assert_eq!(workspace_adopter(&config(Some(0)), &vec![], &panes, &ws), Some(1));
    assert_eq!(workspace_adopter(&config(None), &vec![], &panes, &ws), Some(1));
}

#[test]
fn stray_workspace_falls_back_to_the_default_host() {
    let ws = workspace("w", "shell");
    let flat = vec![pane("p", "w", true, None)];
    let unknown = vec![pane("p", "w", true, Some("gamma"))];
    assert_eq!(workspace_adopter(&config(Some(0)), &vec![], &flat, &ws), Some(0));
    assert_eq!(workspace_adopter(&config(Some(1)), &vec![], &unknown, &ws), Some(1));
    assert_eq!(workspace_adopter(&config(None), &vec![], &flat, &ws), None);
}

#[test]
fn first_host_of_a_name_is_taken() {
    let mut c = config(None);
    c.hosts.push(host("beta", "C"));
    let panes = vec![pane("p", "w", true, Some("beta"))];
    assert_eq!(workspace_adopter(&c, &vec![], &panes, &workspace("w", "")), Some(1));
}

#[test]
fn only_stray_workspaces_are_adopted() {
    let c = config(Some(0));
    let one = vec![pane("p", "w", true, None)];
    let ws = workspace("w", "shell");
    // owned by some host's mirror
    let owned = HostState { workspaces: vec![entry("r", "w", false)], panes: vec![] };
    assert_eq!(workspace_adopter(&c, &vec![no_state(), owned], &one, &ws), None);
    // a dead entry owns nothing
    let dead = HostState { workspaces: vec![entry("r", "w", true)], panes: vec![] };
    assert_eq!(workspace_adopter(&c, &vec![dead], &one, &ws), Some(0));
    // labelled by a mirror from birth
    assert_eq!(workspace_adopter(&c, &vec![], &one, &workspace("w", "B: api")), None);
    assert_eq!(workspace_adopter(&c, &vec![], &one, &workspace("w", "B:api")), Some(0));
    // something else is in it
    let two = vec![pane("p", "w", true, None), pane("q", "w", true, None)];
    assert_eq!(workspace_adopter(&c, &vec![], &two, &ws), None);
    assert_eq!(workspace_adopter(&c, &vec![], &vec![], &ws), None);
    let shell = vec![pane("p", "w", false, None)];
    assert_eq!(workspace_adopter(&c, &vec![], &shell, &ws), None);
    // panes of other workspaces do not count
    let other = vec![pane("q", "x", false, None), pane("p", "w", true, None)];
    assert_eq!(workspace_adopter(&c, &vec![], &other, &ws), Some(0));
}

#[test]
fn only_the_winner_of_the_close_creates() {
    let close = WorkspaceStage::Close;
    assert_eq!(close.advance(false), WorkspaceStage::Done(WorkspaceOutcome::Lost));
    let connect = close.advance(true);
    assert_eq!(connect, WorkspaceStage::Connect);
    assert_eq!(connect.advance(false), WorkspaceStage::Done(WorkspaceOutcome::Unreachable));
    let create = connect.advance(true);
    assert_eq!(create, WorkspaceStage::Create);
    assert_eq!(create.advance(false), WorkspaceStage::Done(WorkspaceOutcome::NotCreated));
    let done = create.advance(true);
    assert_eq!(done, WorkspaceStage::Done(WorkspaceOutcome::Replaced));
    assert_eq!(done.advance(false), done);
}

fn state() -> HostState {
    HostState {
        workspaces: vec![entry("rw", "w", false), entry("rx", "x", true)],
        panes: vec![
            entry("r1", "p1", false),
            entry("r2", "p2", true),
            entry("r3", "p3", false),
            entry("r4", "p3", false),
        ],
    }
}

#[test]
fn strays_are_recognized_by_conjunction() {
    let panes = vec![
        pane("s1", "w", true, None),
        pane("p1", "w", true, None),
        pane("s2", "w", false, None),
        pane("s3", "x", true, None),
        pane("p2", "w", true, None),
        pane("s4", "y", true, None),
    ];
    // p2's entry is dead, and so is that of the workspace x
    assert_eq!(find_strays(&state(), &panes), vec![0, 4]);
    assert!(find_strays(&no_state(), &panes).is_empty());
}

#[test]
fn strays_resolve_by_the_first_owned_sibling() {
    let entries = state().panes;
    let r = resolve_stray(&entries, 7, &placement("right", &["s", "p2", "p1", "p3"])).unwrap();
    assert_eq!((r.pane, r.direction.as_str(), r.source.as_str()), (7, "right", "r1"));
    // of two live entries the last counts
    let r = resolve_stray(&entries, 0, &placement("down", &["p3"])).unwrap();
    assert_eq!(r.source, "r4");
    assert!(resolve_stray(&entries, 0, &placement("down", &["p2", "s"])).is_none());
    assert!(resolve_stray(&entries, 0, &placement("down", &[])).is_none());
    assert!(resolve_stray(&entries, 0, &None).is_none());
}

#[test]
fn pass_locates_all_then_closes_then_splits() {
    let panes = vec![
        pane("s1", "w", true, None),
        pane("s2", "w", true, None),
        pane("s3", "w", true, None),
    ];
    let mut pass = PanePass::new(state(), &panes);
    assert_eq!(pass.stage, PaneStage::Locate(0));
    // a reply that nobody waits for changes nothing
    pass.replied(true);
    assert_eq!(pass.stage, PaneStage::Locate(0));
    assert!(pass.located(&placement("right", &["p1"])));
    assert_eq!(pass.stage, PaneStage::Locate(1));
    assert!(!pass.located(&None));
    assert_eq!(pass.stage, PaneStage::Locate(2));
    assert!(pass.located(&placement("down", &["p3"])));
    assert_eq!(pass.resolved.iter().map(|r| r.pane).collect::<Vec<_>>(), vec![0, 2]);
    assert_eq!(pass.stage, PaneStage::Connect);
    assert!(!pass.located(&placement("right", &["p1"])));
    assert_eq!(pass.stage, PaneStage::Connect);
    pass.replied(true);
    assert_eq!(pass.stage, PaneStage::Close(0));
    // whether a stray could be closed does not matter
    pass.replied(false);
    assert_eq!(pass.stage, PaneStage::Close(1));
    pass.replied(true);
    assert_eq!(pass.stage, PaneStage::Fetch);
    pass.replied(true);
    assert_eq!(pass.stage, PaneStage::Split(0));
    pass.replied(true);
    assert_eq!(pass.stage, PaneStage::Split(1));
    pass.replied(true);
    assert_eq!(pass.stage, PaneStage::Done(PaneOutcome::Adopted));
    pass.replied(false);
    assert_eq!(pass.stage, PaneStage::Done(PaneOutcome::Adopted));
}

#[test]
fn pass_without_strays_does_nothing() {
    let pass = PanePass::new(state(), &vec![pane("p1", "w", true, None)]);
    assert_eq!(pass.stage, PaneStage::Done(PaneOutcome::Nothing));
    let mut pass = PanePass::new(state(), &vec![pane("s1", "w", true, None)]);
    assert!(!pass.located(&placement("right", &["s9"])));
    assert_eq!(pass.stage, PaneStage::Done(PaneOutcome::Nothing));
}

#[test]
fn pass_ends_on_failure() {
    let start = || {
        let mut pass = PanePass::new(state(), &vec![pane("s1", "w", true, None)]);
        pass.located(&placement("right", &["p1"]));
        pass
    };
    let mut unfetched = start();
    unfetched.replied(true);
    assert_eq!(unfetched.stage, PaneStage::Close(0));
    unfetched.replied(true);
    unfetched.replied(false);
    assert_eq!(unfetched.stage, PaneStage::Done(PaneOutcome::Failed));
    let mut unsplit = start();
    unsplit.replied(true);
    unsplit.replied(true);
    unsplit.replied(true);
    unsplit.replied(false);
    assert_eq!(unsplit.stage, PaneStage::Done(PaneOutcome::Failed));
}

#[test]
fn unreachable_host_leaves_strays_alone() {
    let panes = vec![pane("s1", "w", true, None), pane("s2", "w", true, None)];
    let mut pass = PanePass::new(state(), &panes);
    assert!(pass.located(&placement("right", &["p1"])));
    assert!(pass.located(&placement("down", &["p3"])));
    // nothing was closed so far, and nothing will be
    assert_eq!(pass.stage, PaneStage::Connect);
    pass.replied(false);
    assert_eq!(pass.stage, PaneStage::Done(PaneOutcome::Unreachable));
    pass.replied(true);
    pass.located(&placement("right", &["p1"]));
    assert_eq!(pass.stage, PaneStage::Done(PaneOutcome::Unreachable));
}

#[test]
fn splits_open_in_the_directory_of_their_source() {
    let mut a = pane("r1", "w", false, None);
    a.cwd = Some("/home".to_string());
    a.foreground_cwd = Some("/src".to_string());
    let mut b = pane("r2", "w", false, None);
    b.cwd = Some("/home".to_string());
    let c = pane("r3", "w", false, None);
    let mut again = pane("r1", "w", false, None);
    again.cwd = Some("/other".to_string());
    let panes = vec![a, b, c, again];
    assert_eq!(split_directory(&panes, &"r1".to_string()).as_deref(), Some("/src"));
    assert_eq!(split_directory(&panes, &"r2".to_string()).as_deref(), Some("/home"));
    assert_eq!(split_directory(&panes, &"r3".to_string()), None);
    assert_eq!(split_directory(&panes, &"r9".to_string()), None);
}

#[test]
fn requests_name_what_they_are_about() {
    assert_eq!(written(&close_workspace(&"w".to_string())), "workspace.close workspace_id=w");
    assert_eq!(written(&create_workspace()), "workspace.create focus=false");
    assert_eq!(written(&close_pane(&"p".to_string())), "pane.close pane_id=p");
    let resolved =
        Resolved { pane: 0, direction: "right".to_string(), source: "r1".to_string() };
    assert_eq!(
        written(&split_pane(&resolved, &vec![])),
        "pane.split target_pane_id=r1 direction=right cwd=null focus=false"
    );
    let mut source = pane("r1", "w", false, None);
    source.cwd = Some("/src".to_string());
    assert_eq!(
        written(&split_pane(&resolved, &vec![source])),
        "pane.split target_pane_id=r1 direction=right cwd=/src focus=false"
    );
}
