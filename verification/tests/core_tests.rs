use treesaver::BackendCaps;
use treesaver::Compositor;
use treesaver::Config;
use treesaver::EngineCmd;
use treesaver::FlatCaptureError;
use treesaver::FlatWindow;
use treesaver::FlatWorkspace;
use treesaver::Node;
use treesaver::NodeLayout;
use treesaver::NodeType;
use treesaver::RawNode;
use treesaver::ReplayStep;
use treesaver::RunMode;
use treesaver::SplitAxis;
use treesaver::SpawnAction;
use treesaver::SpawnEvent;
use treesaver::SpawnJob;
use treesaver::SpawnPhase;
use treesaver::SpawnState;
use treesaver::cmd_allowed;
use treesaver::cmdline_from_bytes;
use treesaver::count_app_ids;
use treesaver::count_app_ids_flat;
use treesaver::default_timeout;
use treesaver::escape_quotes;
use treesaver::from_record;
use treesaver::kind_of_name;
use treesaver::layout_of_name;
use treesaver::niri_capture;
use treesaver::niri_clear_plan;
use treesaver::replay_script;
use treesaver::resolve_cmd;
use treesaver::sort_workspaces;
use treesaver::step_allowed;
use treesaver::sway_capture;
use treesaver::sway_clear_plan;
use treesaver::to_record;
use treesaver::tree_rel_path;
use treesaver::u64_to_string;

fn leaf(app_id: &str) -> Node {
    Node { app_id: Some(app_id.to_string()), node_type: NodeType::Con, ..Node::default() }
}

fn sway_caps() -> BackendCaps {
    BackendCaps { supports_splits: true, workspaces_by_index: false, screen_transition: false }
}

fn niri_caps() -> BackendCaps {
    BackendCaps { supports_splits: false, workspaces_by_index: true, screen_transition: true }
}

fn raw(kind: &str, name: Option<&str>, id: u64, nodes: Vec<RawNode>) -> RawNode {
    RawNode {
        id,
        name: name.map(|n| n.to_string()),
        kind: kind.to_string(),
        layout: "none".to_string(),
        app_id: None,
        pid: None,
        cmdline: None,
        fullscreen_mode: None,
        percent_bits: None,
        nodes,
    }
}

fn raw_window(app_id: &str, id: u64) -> RawNode {
    RawNode { app_id: Some(app_id.to_string()), ..raw("con", None, id, vec![]) }
}

#[test]
fn replay_concrete_scenario() {
    // One workspace "1": a horizontal split container with two windows.
    let container = Node {
        node_type: NodeType::Con,
        layout: NodeLayout::SplitH,
        nodes: vec![leaf("term"), leaf("editor")],
        ..Node::default()
    };
    let tree = vec![Node {
        name: Some("1".to_string()),
        node_type: NodeType::Workspace,
        nodes: vec![container],
        ..Node::default()
    }];
    let plan = replay_script(&tree, &None, "gtk-launch", sway_caps());
    assert_eq!(plan.len(), 5);
    assert_eq!(
        plan[0],
        ReplayStep::Run(EngineCmd::FocusWorkspaceName { name: "1".to_string() })
    );
    let term_job = SpawnJob {
        command: "term".to_string(),
        app_id: Some("term".to_string()),
        retry: 1,
        timeout_ms: 5000,
    };
    assert_eq!(plan[1], ReplayStep::Spawn(term_job));
    assert_eq!(
        plan[2],
        ReplayStep::Run(EngineCmd::Split { axis: SplitAxis::Horizontal })
    );
    let editor_job = SpawnJob {
        command: "editor".to_string(),
        app_id: Some("editor".to_string()),
        retry: 1,
        timeout_ms: 5000,
    };
    assert_eq!(plan[3], ReplayStep::Spawn(editor_job));
    assert_eq!(
        plan[4],
        ReplayStep::Run(EngineCmd::FocusWorkspaceName { name: "1".to_string() })
    );

    // Each spawn confirms on the first poll that sees the count rise.
    for step in &plan {
        if let ReplayStep::Spawn(job) = step {
            let mut machine = SpawnState::new();
            assert_eq!(machine.step(job, SpawnEvent::Counted { count: 0 }), SpawnAction::Launch);
            assert_eq!(
                machine.step(job, SpawnEvent::Polled { count: 1, elapsed_ms: 50 }),
                SpawnAction::Idle
            );
            assert_eq!(machine.phase, SpawnPhase::Confirmed);
            assert_eq!(machine.attempts, 1);
        }
    }
}

#[test]
fn spawn_retry_exhausts_after_budget() {
    // The count never rises: a budget of three is spent exactly.
    let job = SpawnJob {
        command: "term".to_string(),
        app_id: Some("term".to_string()),
        retry: 3,
        timeout_ms: 500,
    };
    let mut machine = SpawnState::new();
    let mut launches = 0;
    for _ in 0..3 {
        let act = machine.step(&job, SpawnEvent::Counted { count: 2 });
        if act == SpawnAction::Launch {
            launches += 1;
        }
        assert_eq!(
            machine.step(&job, SpawnEvent::Polled { count: 2, elapsed_ms: 100 }),
            SpawnAction::Sleep
        );
        assert_eq!(
            machine.step(&job, SpawnEvent::Polled { count: 2, elapsed_ms: 600 }),
            SpawnAction::Idle
        );
    }
    assert_eq!(launches, 3);
    assert_eq!(machine.phase, SpawnPhase::Exhausted);
    assert_eq!(machine.attempts, 3);
    // A machine at rest never launches again.
    assert_eq!(machine.step(&job, SpawnEvent::Counted { count: 0 }), SpawnAction::Idle);
    assert_eq!(machine.phase, SpawnPhase::Exhausted);
}

#[test]
fn spawn_zero_budget_never_launches() {
    let job = SpawnJob {
        command: "term".to_string(),
        app_id: Some("term".to_string()),
        retry: 0,
        timeout_ms: 500,
    };
    let mut machine = SpawnState::new();
    assert_eq!(machine.step(&job, SpawnEvent::Counted { count: 0 }), SpawnAction::Idle);
    assert_eq!(machine.phase, SpawnPhase::Exhausted);
    assert_eq!(machine.attempts, 0);
}

#[test]
fn spawn_confirms_on_second_attempt() {
    // The count rises only after the second launch; no third attempt runs.
    let job = SpawnJob {
        command: "editor".to_string(),
        app_id: Some("editor".to_string()),
        retry: 5,
        timeout_ms: 300,
    };
    let mut machine = SpawnState::new();
    assert_eq!(machine.step(&job, SpawnEvent::Counted { count: 1 }), SpawnAction::Launch);
    assert_eq!(
        machine.step(&job, SpawnEvent::Polled { count: 1, elapsed_ms: 400 }),
        SpawnAction::Idle
    );
    assert_eq!(machine.phase, SpawnPhase::Ready);
    assert_eq!(machine.step(&job, SpawnEvent::Counted { count: 1 }), SpawnAction::Launch);
    assert_eq!(
        machine.step(&job, SpawnEvent::Polled { count: 2, elapsed_ms: 80 }),
        SpawnAction::Idle
    );
    assert_eq!(machine.phase, SpawnPhase::Confirmed);
    assert_eq!(machine.attempts, 2);
}

#[test]
fn record_round_trip_folds_to_normal_form() {
    let tree = Node {
        name: Some("1".to_string()),
        node_type: NodeType::Workspace,
        layout: NodeLayout::SplitV,
        nodes: vec![Node {
            app_id: Some("term".to_string()),
            node_type: NodeType::Con,
            fullscreen_mode: Some(0),
            layout: NodeLayout::NoLayout,
            exec_cmd: Some("alacritty -e top".to_string()),
            ..Node::default()
        }],
        ..Node::default()
    };
    let once = from_record(&to_record(&tree));
    // The window's implicit kind folds to the wire default, the empty
    // fullscreen flag is dropped, the missing timeout becomes the global
    // default; names, layouts and commands survive.
    assert_eq!(once.name, Some("1".to_string()));
    assert_eq!(once.node_type, NodeType::Workspace);
    assert_eq!(once.layout, NodeLayout::SplitV);
    assert_eq!(once.timeout_ms, Some(5000));
    assert_eq!(once.nodes.len(), 1);
    let w = &once.nodes[0];
    assert_eq!(w.node_type, NodeType::Unknown);
    assert_eq!(w.fullscreen_mode, None);
    assert_eq!(w.layout, NodeLayout::Unknown);
    assert_eq!(w.exec_cmd, Some("alacritty -e top".to_string()));
    assert_eq!(w.timeout_ms, Some(5000));
    // A second trip through storage changes nothing.
    let twice = from_record(&to_record(&once));
    assert_eq!(twice, once);
}

#[test]
fn unknown_native_values_fold_to_unknown() {
    assert_eq!(kind_of_name("workspace"), NodeType::Workspace);
    assert_eq!(kind_of_name("floating_con"), NodeType::FloatingCon);
    assert_eq!(kind_of_name("holodeck"), NodeType::Unknown);
    assert_eq!(kind_of_name(""), NodeType::Unknown);
    assert_eq!(layout_of_name("splith"), NodeLayout::SplitH);
    assert_eq!(layout_of_name("none"), NodeLayout::NoLayout);
    assert_eq!(layout_of_name("mosaic"), NodeLayout::Unknown);
}

#[test]
fn capture_filters_unnamed_and_scratchpad() {
    let root = raw(
        "root",
        None,
        1,
        vec![raw(
            "output",
            Some("DP-1"),
            2,
            vec![
                raw("workspace", None, 3, vec![raw_window("a", 30)]),
                raw("workspace", Some("__i3_scratch"), 4, vec![raw_window("b", 40)]),
                raw("workspace", Some("web"), 5, vec![raw_window("firefox", 50)]),
            ],
        )],
    );
    let tree = sway_capture(&root);
    assert_eq!(tree.len(), 1);
    assert_eq!(tree[0].name, Some("web".to_string()));
    assert_eq!(tree[0].node_type, NodeType::Workspace);
    assert_eq!(tree[0].nodes.len(), 1);
    assert_eq!(tree[0].nodes[0].app_id, Some("firefox".to_string()));
}

#[test]
fn capture_keeps_recovered_command_only_with_pid() {
    let mut with_pid = raw_window("term", 7);
    with_pid.pid = Some(4242);
    with_pid.cmdline = Some("alacritty".to_string());
    let mut without_pid = raw_window("term", 8);
    without_pid.cmdline = Some("ghost".to_string());
    let root = raw(
        "root",
        None,
        1,
        vec![raw("workspace", Some("w"), 2, vec![with_pid, without_pid])],
    );
    let tree = sway_capture(&root);
    assert_eq!(tree[0].nodes[0].exec_cmd, Some("alacritty".to_string()));
    assert_eq!(tree[0].nodes[1].exec_cmd, None);
}

#[test]
fn flat_capture_builds_one_container_per_workspace() {
    let workspaces = vec![
        FlatWorkspace { id: 11, idx: 2, name: None },
        FlatWorkspace { id: 12, idx: 1, name: Some("mail".to_string()) },
    ];
    let windows = vec![
        FlatWindow { id: 100, app_id: Some("thunderbird".to_string()), workspace_id: Some(1) },
        FlatWindow { id: 101, app_id: Some("term".to_string()), workspace_id: Some(2) },
        FlatWindow { id: 102, app_id: None, workspace_id: None },
    ];
    let tree = niri_capture(workspaces, &windows).unwrap();
    assert_eq!(tree.len(), 2);
    // Sorted by the backend's index: "mail" (idx 1) first, the unnamed
    // workspace named after its position.
    assert_eq!(tree[0].name, Some("mail".to_string()));
    assert_eq!(tree[1].name, Some("1".to_string()));
    for ws in &tree {
        assert_eq!(ws.node_type, NodeType::Workspace);
        assert_eq!(ws.nodes.len(), 1);
        assert_eq!(ws.nodes[0].node_type, NodeType::Con);
        assert_eq!(ws.nodes[0].layout, NodeLayout::SplitH);
    }
    assert_eq!(tree[0].nodes[0].nodes[0].app_id, Some("thunderbird".to_string()));
    assert_eq!(tree[1].nodes[0].nodes[0].app_id, Some("term".to_string()));
}

#[test]
fn flat_capture_rejects_dangling_back_reference() {
    let workspaces = vec![FlatWorkspace { id: 1, idx: 1, name: None }];
    let windows = vec![
        FlatWindow { id: 7, app_id: None, workspace_id: Some(1) },
        FlatWindow { id: 8, app_id: None, workspace_id: Some(2) },
    ];
    assert_eq!(
        niri_capture(workspaces, &windows),
        Err(FlatCaptureError::WorkspaceOutOfBounds { workspace_id: 2 })
    );
    let workspaces = vec![FlatWorkspace { id: 1, idx: 1, name: None }];
    let windows = vec![FlatWindow { id: 9, app_id: None, workspace_id: Some(0) }];
    assert_eq!(
        niri_capture(workspaces, &windows),
        Err(FlatCaptureError::WorkspaceOutOfBounds { workspace_id: 0 })
    );
}

#[test]
fn workspace_sort_is_stable() {
    let sorted = sort_workspaces(vec![
        FlatWorkspace { id: 1, idx: 3, name: Some("c".to_string()) },
        FlatWorkspace { id: 2, idx: 1, name: Some("a".to_string()) },
        FlatWorkspace { id: 3, idx: 3, name: Some("b".to_string()) },
    ]);
    let names: Vec<_> = sorted.iter().map(|w| w.name.clone().unwrap()).collect();
    assert_eq!(names, vec!["a".to_string(), "c".to_string(), "b".to_string()]);
}

#[test]
fn counting_matches_application_identifiers() {
    let root = raw(
        "root",
        None,
        1,
        vec![raw(
            "workspace",
            Some("w"),
            2,
            vec![raw_window("term", 3), raw_window("edit", 4), raw_window("term", 5)],
        )],
    );
    assert_eq!(count_app_ids(&root, "term"), 2);
    assert_eq!(count_app_ids(&root, "edit"), 1);
    assert_eq!(count_app_ids(&root, "nope"), 0);
    let windows = vec![
        FlatWindow { id: 1, app_id: Some("term".to_string()), workspace_id: Some(1) },
        FlatWindow { id: 2, app_id: None, workspace_id: Some(1) },
        FlatWindow { id: 3, app_id: Some("term".to_string()), workspace_id: None },
    ];
    assert_eq!(count_app_ids_flat(&windows, "term"), 2);
    assert_eq!(count_app_ids_flat(&windows, "edit"), 0);
}

#[test]
fn launch_command_resolution_priority() {
    let full = Node {
        desktop_entry: Some("org.gnome.Epiphany".to_string()),
        exec_cmd: Some("epiphany".to_string()),
        app_id: Some("web".to_string()),
        ..Node::default()
    };
    assert_eq!(
        resolve_cmd(&full, "gtk-launch"),
        Some("gtk-launch \"org.gnome.Epiphany\"".to_string())
    );
    let with_exec = Node { desktop_entry: None, ..full };
    assert_eq!(resolve_cmd(&with_exec, "gtk-launch"), Some("epiphany".to_string()));
    let with_app = Node { exec_cmd: None, ..with_exec };
    assert_eq!(resolve_cmd(&with_app, "gtk-launch"), Some("web".to_string()));
    let bare = Node { app_id: None, ..with_app };
    assert_eq!(resolve_cmd(&bare, "gtk-launch"), None);
    let quoted = Node {
        desktop_entry: Some("we\"ird".to_string()),
        ..Node::default()
    };
    assert_eq!(
        resolve_cmd(&quoted, "gtk-launch"),
        Some("gtk-launch \"we\\\"ird\"".to_string())
    );
}

#[test]
fn unlaunchable_window_is_skipped_with_a_note() {
    let tree = vec![Node {
        name: Some("1".to_string()),
        node_type: NodeType::Workspace,
        nodes: vec![Node { node_type: NodeType::Con, ..Node::default() }],
        ..Node::default()
    }];
    let plan = replay_script(&tree, &None, "gtk-launch", sway_caps());
    assert!(plan.contains(&ReplayStep::SkipUnlaunchable));
    assert!(!plan.iter().any(|s| matches!(s, ReplayStep::Spawn(_))));
}

#[test]
fn incompatible_top_node_is_skipped_with_its_position() {
    let tree = vec![
        Node { node_type: NodeType::Output, ..Node::default() },
        Node {
            name: Some("1".to_string()),
            node_type: NodeType::Workspace,
            ..Node::default()
        },
    ];
    let plan = replay_script(&tree, &None, "gtk-launch", sway_caps());
    assert_eq!(plan[0], ReplayStep::SkipIncompatible { index: 0 });
}

#[test]
fn flat_backend_replay_renames_and_focuses_by_index() {
    let tree = vec![Node {
        name: Some("mail".to_string()),
        node_type: NodeType::Workspace,
        nodes: vec![leaf("thunderbird")],
        ..Node::default()
    }];
    let plan = replay_script(&tree, &None, "gtk-launch", niri_caps());
    assert_eq!(
        plan[0],
        ReplayStep::Run(EngineCmd::SetWorkspaceName { index: 1, name: "mail".to_string() })
    );
    assert_eq!(plan[1], ReplayStep::Run(EngineCmd::FocusWorkspaceIndex { index: 1 }));
    assert!(matches!(plan[2], ReplayStep::Spawn(_)));
    assert_eq!(plan[3], ReplayStep::Run(EngineCmd::FocusWorkspaceIndex { index: 1 }));
    assert_eq!(plan[4], ReplayStep::Run(EngineCmd::ScreenTransition { delay_ms: 200 }));
    // The flat backend has no split commands to issue.
    assert!(!plan.iter().any(|s| matches!(s, ReplayStep::Run(EngineCmd::Split { .. }))));
}

#[test]
fn scoped_replay_spawns_only_in_the_named_workspace() {
    let tree = vec![
        Node {
            name: Some("1".to_string()),
            node_type: NodeType::Workspace,
            nodes: vec![leaf("term")],
            ..Node::default()
        },
        Node {
            name: Some("2".to_string()),
            node_type: NodeType::Workspace,
            nodes: vec![leaf("editor")],
            ..Node::default()
        },
    ];
    let plan = replay_script(&tree, &Some("2".to_string()), "gtk-launch", sway_caps());
    let spawned: Vec<_> = plan
        .iter()
        .filter_map(|s| match s {
            ReplayStep::Spawn(j) => Some(j.command.clone()),
            _ => None,
        })
        .collect();
    assert_eq!(spawned, vec!["editor".to_string()]);
    assert!(!plan
        .iter()
        .any(|s| *s == ReplayStep::Run(EngineCmd::FocusWorkspaceName { name: "1".to_string() })));
}

#[test]
fn scoped_clear_kills_only_under_the_named_workspace() {
    let root = raw(
        "root",
        None,
        1,
        vec![
            raw("workspace", Some("1"), 2, vec![raw_window("a", 21)]),
            raw("workspace", Some("2"), 3, vec![raw_window("b", 31), raw_window("c", 32)]),
        ],
    );
    let all = sway_clear_plan(&root, &None);
    assert_eq!(
        all,
        vec![
            EngineCmd::Kill { window: 21 },
            EngineCmd::Kill { window: 31 },
            EngineCmd::Kill { window: 32 },
        ]
    );
    let scoped = sway_clear_plan(&root, &Some("2".to_string()));
    assert_eq!(scoped, vec![EngineCmd::Kill { window: 31 }, EngineCmd::Kill { window: 32 }]);
    let absent = sway_clear_plan(&root, &Some("3".to_string()));
    assert_eq!(absent, Vec::<EngineCmd>::new());
}

#[test]
fn clear_kills_leaf_windows_not_containers() {
    let root = raw(
        "root",
        None,
        1,
        vec![raw(
            "workspace",
            Some("1"),
            2,
            vec![raw("con", None, 10, vec![raw_window("a", 11), raw_window("b", 12)])],
        )],
    );
    let plan = sway_clear_plan(&root, &None);
    assert_eq!(plan, vec![EngineCmd::Kill { window: 11 }, EngineCmd::Kill { window: 12 }]);
}

#[test]
fn flat_clear_freezes_then_closes_everything() {
    let windows = vec![
        FlatWindow { id: 5, app_id: None, workspace_id: Some(1) },
        FlatWindow { id: 6, app_id: None, workspace_id: None },
    ];
    let plan = niri_clear_plan(&windows);
    assert_eq!(
        plan,
        vec![
            EngineCmd::ScreenTransition { delay_ms: 10000 },
            EngineCmd::Kill { window: 5 },
            EngineCmd::Kill { window: 6 },
        ]
    );
}

#[test]
fn dry_run_allows_nothing() {
    let mode = RunMode { dry_run: true, no_kill: false };
    let steps = vec![
        ReplayStep::Run(EngineCmd::FocusWorkspaceName { name: "1".to_string() }),
        ReplayStep::Run(EngineCmd::Kill { window: 3 }),
        ReplayStep::Spawn(SpawnJob {
            command: "term".to_string(),
            app_id: None,
            retry: 1,
            timeout_ms: 5000,
        }),
        ReplayStep::SkipUnlaunchable,
    ];
    for s in &steps {
        assert!(!step_allowed(s, mode));
    }
    assert!(!cmd_allowed(&EngineCmd::Kill { window: 3 }, mode));
}

#[test]
fn no_kill_skips_only_the_destructive_clear() {
    let mode = RunMode { dry_run: false, no_kill: true };
    assert!(!cmd_allowed(&EngineCmd::Kill { window: 3 }, mode));
    assert!(cmd_allowed(&EngineCmd::FocusWorkspaceIndex { index: 1 }, mode));
    assert!(step_allowed(
        &ReplayStep::Spawn(SpawnJob {
            command: "term".to_string(),
            app_id: None,
            retry: 1,
            timeout_ms: 5000,
        }),
        mode
    ));
}

#[test]
fn strings_render_and_escape() {
    assert_eq!(u64_to_string(0), "0");
    assert_eq!(u64_to_string(42), "42");
    assert_eq!(u64_to_string(1234567890123), "1234567890123");
    assert_eq!(escape_quotes("say \"hi\""), "say \\\"hi\\\"");
    assert_eq!(escape_quotes("plain"), "plain");
    assert_eq!(escape_quotes(""), "");
}

#[test]
fn cmdline_joins_nul_separated_arguments() {
    let data = b"/usr/bin/foo\0--flag\0\0value\0".to_vec();
    assert_eq!(cmdline_from_bytes(&data), "/usr/bin/foo --flag value");
    assert_eq!(cmdline_from_bytes(&Vec::new()), "");
    assert_eq!(cmdline_from_bytes(&b"\0\0\0".to_vec()), "");
    assert_eq!(cmdline_from_bytes(&b"solo".to_vec()), "solo");
}

#[test]
fn compositor_names_parse_case_insensitively() {
    assert_eq!(Compositor::parse("sway"), Ok(Compositor::Sway));
    assert_eq!(Compositor::parse("SWAY"), Ok(Compositor::Sway));
    assert_eq!(Compositor::parse("i3"), Ok(Compositor::Sway));
    assert_eq!(Compositor::parse("Niri"), Ok(Compositor::Niri));
    assert!(Compositor::parse("gnome").is_err());
}

#[test]
fn defaults_and_paths() {
    assert_eq!(default_timeout(), Some(5000));
    assert_eq!(Config::default().desktop_exec, "gtk-launch");
    assert_eq!(tree_rel_path(Compositor::Sway, &None), "/default.yaml");
    assert_eq!(
        tree_rel_path(Compositor::Niri, &Some("work".to_string())),
        "niri/work.yaml"
    );
}

#[test]
fn wire_names_spell_the_enumerations() {
    assert_eq!(NodeType::FloatingCon.name(), "floating_con");
    assert_eq!(NodeType::Unknown.name(), "unknown");
    assert_eq!(NodeLayout::NoLayout.name(), "none");
    assert_eq!(NodeLayout::SplitV.name(), "splitv");
    assert_eq!(Compositor::Sway.name(), "sway");
    assert_eq!(Compositor::Niri.name(), "niri");
}

#[test]
fn capture_store_replay_pipeline() {
    // A flat-backend session goes through capture, one storage round
    // trip, and replay planning; the stored fold (window kinds become
    // the wire default) must not stop the windows from being spawned.
    let workspaces = vec![FlatWorkspace { id: 1, idx: 1, name: Some("dev".to_string()) }];
    let windows = vec![
        FlatWindow { id: 100, app_id: Some("term".to_string()), workspace_id: Some(1) },
        FlatWindow { id: 101, app_id: Some("editor".to_string()), workspace_id: Some(1) },
    ];
    let captured = niri_capture(workspaces, &windows).unwrap();
    let loaded: Vec<Node> = captured
        .iter()
        .map(|n| from_record(&to_record(n)))
        .collect();
    assert_eq!(loaded[0].name, Some("dev".to_string()));
    assert_eq!(loaded[0].nodes[0].nodes[0].node_type, NodeType::Unknown);
    let plan = replay_script(&loaded, &None, "gtk-launch", niri_caps());
    let spawned: Vec<_> = plan
        .iter()
        .filter_map(|s| match s {
            ReplayStep::Spawn(j) => Some(j.command.clone()),
            _ => None,
        })
        .collect();
    assert_eq!(spawned, vec!["term".to_string(), "editor".to_string()]);
    assert_eq!(
        plan[0],
        ReplayStep::Run(EngineCmd::SetWorkspaceName { index: 1, name: "dev".to_string() })
    );
}
