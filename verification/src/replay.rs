//! The reconciliation engine: the clear phase and the replay phase as
//! pure planning.
//!
//! Neither phase talks to a compositor here.  Clearing turns the live
//! tree into the list of kill commands it calls for; replay turns a
//! loaded session tree into the ordered steps that rebuild it: workspace
//! naming and focusing, split commands where the backend supports them,
//! and one [`SpawnJob`] per window, to be run through the spawn machine.
//! The caller walks the plan in order, performs each step that the run
//! mode allows, and logs them all; dry modes change what is performed,
//! never what is planned.

use vstd::prelude::*;

use crate::consts::MAX_WAIT_MS;
use crate::models::Node;
use crate::models::NodeLayout;
use crate::models::NodeType;
use crate::models::NodeV;
use crate::models::lemma_tree_view_pointwise;
use crate::models::node_view;
use crate::models::opt_view;
use crate::models::tree_view;
use crate::spawn::SpawnJob;
use crate::spawn::SpawnJobV;
use crate::strings::clone_opt_string;
use crate::strings::escape_quotes;
use crate::strings::escaped;
use crate::strings::str_eq;

verus! {

/// What a backend can do for the engine, beyond spawning and killing:
/// whether it takes structural split commands, whether workspaces are
/// addressed by position instead of name, and whether it takes a screen
/// transition around destructive work.
#[derive(Clone, Copy, Debug, PartialEq, Eq, Structural)]
pub struct BackendCaps {
    pub supports_splits: bool,
    pub workspaces_by_index: bool,
    pub screen_transition: bool,
}

/// The split direction a container asks for.
#[derive(Clone, Copy, Debug, PartialEq, Eq, Structural)]
pub enum SplitAxis {
    Horizontal,
    Vertical,
}

/// One structural command of the engine, with its data; each backend
/// adapter writes these in its own wire form.
#[derive(Debug, PartialEq)]
pub enum EngineCmd {
    /// Name the workspace at a position (backends that number workspaces).
    SetWorkspaceName { index: u64, name: String },
    /// Focus a workspace by name, creating it where the backend does so.
    FocusWorkspaceName { name: String },
    /// Focus a workspace by position.
    FocusWorkspaceIndex { index: u64 },
    /// Split the focused container.
    Split { axis: SplitAxis },
    /// Destroy one live window.
    Kill { window: u64 },
    /// Freeze the screen for a transition of the given length.
    ScreenTransition { delay_ms: u64 },
}

/// The mathematical model of an [`EngineCmd`].
#[verifier::ext_equal]
pub ghost enum EngineCmdV {
    SetWorkspaceName { index: u64, name: Seq<char> },
    FocusWorkspaceName { name: Seq<char> },
    FocusWorkspaceIndex { index: u64 },
    Split { axis: SplitAxis },
    Kill { window: u64 },
    ScreenTransition { delay_ms: u64 },
}

/// Model of one engine command.
pub open spec fn cmd_view(c: EngineCmd) -> EngineCmdV {
    match c {
        EngineCmd::SetWorkspaceName { index, name } => EngineCmdV::SetWorkspaceName {
            index,
            name: name@,
        },
        EngineCmd::FocusWorkspaceName { name } => EngineCmdV::FocusWorkspaceName { name: name@ },
        EngineCmd::FocusWorkspaceIndex { index } => EngineCmdV::FocusWorkspaceIndex { index },
        EngineCmd::Split { axis } => EngineCmdV::Split { axis },
        EngineCmd::Kill { window } => EngineCmdV::Kill { window },
        EngineCmd::ScreenTransition { delay_ms } => EngineCmdV::ScreenTransition { delay_ms },
    }
}

impl View for EngineCmd {
    type V = EngineCmdV;

    open spec fn view(&self) -> EngineCmdV {
        cmd_view(*self)
    }
}

/// Model of a command list.
pub open spec fn cmds_view(t: Seq<EngineCmd>) -> Seq<EngineCmdV> {
    t.map_values(|c: EngineCmd| cmd_view(c))
}

/// One step of a replay plan.
#[derive(Debug, PartialEq)]
pub enum ReplayStep {
    /// Issue a structural command.
    Run(EngineCmd),
    /// Spawn one window through the confirmation machine.
    Spawn(SpawnJob),
    /// A top-level node that is neither root nor workspace: logged and
    /// passed over.
    SkipIncompatible { index: u64 },
    /// A window with no desktop entry, no command and no identifier:
    /// logged and passed over.
    SkipUnlaunchable,
}

/// The mathematical model of a [`ReplayStep`].
#[verifier::ext_equal]
pub ghost enum ReplayStepV {
    Run(EngineCmdV),
    Spawn(SpawnJobV),
    SkipIncompatible { index: u64 },
    SkipUnlaunchable,
}

/// Model of one replay step.
pub open spec fn step_view(s: ReplayStep) -> ReplayStepV {
    match s {
        ReplayStep::Run(c) => ReplayStepV::Run(cmd_view(c)),
        ReplayStep::Spawn(j) => ReplayStepV::Spawn(j@),
        ReplayStep::SkipIncompatible { index } => ReplayStepV::SkipIncompatible { index },
        ReplayStep::SkipUnlaunchable => ReplayStepV::SkipUnlaunchable,
    }
}

impl View for ReplayStep {
    type V = ReplayStepV;

    open spec fn view(&self) -> ReplayStepV {
        step_view(*self)
    }
}

/// Model of a replay plan.
pub open spec fn steps_view(t: Seq<ReplayStep>) -> Seq<ReplayStepV> {
    t.map_values(|s: ReplayStep| step_view(s))
}

/// The launch command a window node resolves to: the desktop entry
/// through the configured launcher, else the recorded command line
/// shell-escaped, else the bare application identifier; nothing, where
/// the node carries none of the three.
pub open spec fn spec_resolve_cmd(n: NodeV, dx: Seq<char>) -> Option<Seq<char>> {
    if n.desktop_entry is Some {
        Some(dx + " \""@ + escaped(n.desktop_entry->0) + "\""@)
    } else if n.exec_cmd is Some {
        Some(escaped(n.exec_cmd->0))
    } else {
        match n.app_id {
            Some(a) => Some(a),
            None => None,
        }
    }
}

/// Resolves the launch command of a window node.
pub fn resolve_cmd(n: &Node, desktop_exec: &str) -> (r: Option<String>)
    ensures
        opt_view(r) == spec_resolve_cmd(n@, desktop_exec@),
{
    match &n.desktop_entry {
        Some(entry) => {
            let escaped_entry = escape_quotes(entry.as_str());
            let mut cmd = String::new();
            cmd.append(desktop_exec);
            cmd.append(" \"");
            cmd.append(escaped_entry.as_str());
            cmd.append("\"");
            Some(cmd)
        },
        None => match &n.exec_cmd {
            Some(x) => Some(escape_quotes(x.as_str())),
            None => match &n.app_id {
                Some(a) => {
                    let mut cmd = String::new();
                    cmd.append(a.as_str());
                    Some(cmd)
                },
                None => None,
            },
        },
    }
}

/// The spawn job a window node schedules for a resolved command: its
/// identifier for confirmation, its attempt budget (one, unless the node
/// says otherwise) and its confirmation window (the global default,
/// unless the node says otherwise).
pub open spec fn spec_job_of(n: NodeV, cmd: Seq<char>) -> SpawnJobV {
    SpawnJobV {
        command: cmd,
        app_id: n.app_id,
        retry: match n.retry {
            Some(r) => r,
            None => 1,
        },
        timeout_ms: match n.timeout_ms {
            Some(t) => t,
            None => MAX_WAIT_MS,
        },
    }
}

/// Builds the spawn job of a window node from its resolved command.
pub fn job_of(n: &Node, cmd: String) -> (j: SpawnJob)
    ensures
        j@ == spec_job_of(n@, cmd@),
{
    SpawnJob {
        command: cmd,
        app_id: clone_opt_string(&n.app_id),
        retry: match n.retry {
            Some(r) => r,
            None => 1,
        },
        timeout_ms: match n.timeout_ms {
            Some(t) => t,
            None => MAX_WAIT_MS,
        },
    }
}

/// Viewing a plan one step longer appends exactly that step's model.
proof fn lemma_steps_view_push(t: Seq<ReplayStep>, s: ReplayStep)
    ensures
        steps_view(t.push(s)) == steps_view(t).push(step_view(s)),
{
    assert(steps_view(t.push(s)) =~= steps_view(t).push(step_view(s)));
}

/// Whether a node is a plain window: a container-like leaf.  A loaded
/// tree writes windows as `Unknown` (their kind is omitted on write), so
/// `Unknown` leaves count as windows too.
pub open spec fn spec_is_window_leaf(n: NodeV) -> bool {
    &&& (n.node_type.spec_is_window() || n.node_type == NodeType::Unknown)
    &&& n.nodes.len() == 0
}

/// The split the layout of a container asks the backend for, where the
/// backend takes split commands at all.
pub open spec fn spec_split_of(layout: NodeLayout, caps: BackendCaps) -> Option<SplitAxis> {
    if caps.supports_splits && layout == NodeLayout::SplitH {
        Some(SplitAxis::Horizontal)
    } else if caps.supports_splits && layout == NodeLayout::SplitV {
        Some(SplitAxis::Vertical)
    } else {
        None
    }
}

/// The steps that replay one window leaf: its spawn job, or a logged
/// pass-over where nothing can be launched.
pub open spec fn spawn_part(n: NodeV, dx: Seq<char>) -> Seq<ReplayStepV> {
    if spec_is_window_leaf(n) {
        match spec_resolve_cmd(n, dx) {
            Some(c) => seq![ReplayStepV::Spawn(spec_job_of(n, c))],
            None => seq![ReplayStepV::SkipUnlaunchable],
        }
    } else {
        Seq::empty()
    }
}

/// The split command emitted after a container's first child, if any.
pub open spec fn split_part(layout: NodeLayout, caps: BackendCaps) -> Seq<ReplayStepV> {
    match spec_split_of(layout, caps) {
        Some(axis) => seq![ReplayStepV::Run(EngineCmdV::Split { axis })],
        None => Seq::empty(),
    }
}

/// The steps that replay one node below the workspace level: spawn it if
/// it is a window leaf, then its children depth-first in recorded order,
/// with the parent's split command right after the first child.
pub open spec fn replay_node_spec(n: NodeV, dx: Seq<char>, caps: BackendCaps) -> Seq<ReplayStepV>
    decreases n,
{
    spawn_part(n, dx) + children_steps(n.nodes, n.layout, dx, caps)
}

/// The steps that replay the children of a container with the given
/// layout.
pub open spec fn children_steps(
    children: Seq<NodeV>,
    layout: NodeLayout,
    dx: Seq<char>,
    caps: BackendCaps,
) -> Seq<ReplayStepV>
    decreases children,
{
    if children.len() == 0 {
        Seq::empty()
    } else {
        children_steps(children.subrange(0, children.len() - 1), layout, dx, caps)
            + replay_node_spec(children[children.len() - 1], dx, caps) + (if children.len() == 1 {
            split_part(layout, caps)
        } else {
            Seq::empty()
        })
    }
}

/// Plans the replay of one node below the workspace level, appending its
/// steps to the plan under construction.
pub fn plan_node(n: &Node, desktop_exec: &str, caps: BackendCaps, out: &mut Vec<ReplayStep>)
    ensures
        steps_view(final(out)@) == steps_view(old(out)@) + replay_node_spec(
            n@,
            desktop_exec@,
            caps,
        ),
    decreases *n,
{
    let is_leaf = (n.node_type.is_window() || matches!(n.node_type, NodeType::Unknown))
        && n.nodes.len() == 0;
    if is_leaf {
        let ghost pre = out@;
        match resolve_cmd(n, desktop_exec) {
            Some(cmd) => {
                let j = job_of(n, cmd);
                out.push(ReplayStep::Spawn(j));
            },
            None => {
                out.push(ReplayStep::SkipUnlaunchable);
            },
        }
        proof {
            lemma_steps_view_push(pre, out@[out@.len() - 1]);
            assert(steps_view(out@) =~= steps_view(old(out)@) + spawn_part(n@, desktop_exec@));
        }
    } else {
        proof {
            assert(steps_view(out@) =~= steps_view(old(out)@) + spawn_part(n@, desktop_exec@));
        }
    }
    let ghost mid = out@;
    let mut i: usize = 0;
    proof {
        lemma_tree_view_pointwise(n.nodes@);
        assert(tree_view(n.nodes@).subrange(0, 0) =~= Seq::<NodeV>::empty());
        assert(steps_view(out@) =~= steps_view(mid) + children_steps(
            tree_view(n.nodes@).subrange(0, 0),
            n@.layout,
            desktop_exec@,
            caps,
        ));
    }
    while i < n.nodes.len()
        invariant
            i <= n.nodes.len(),
            steps_view(out@) == steps_view(mid) + children_steps(
                tree_view(n.nodes@).subrange(0, i as int),
                n@.layout,
                desktop_exec@,
                caps,
            ),
        decreases n.nodes.len() - i,
    {
        plan_node(&n.nodes[i], desktop_exec, caps, out);
        if i == 0 {
            let ghost after_child = out@;
            if caps.supports_splits && matches!(n.layout, NodeLayout::SplitH) {
                out.push(ReplayStep::Run(EngineCmd::Split { axis: SplitAxis::Horizontal }));
            } else if caps.supports_splits && matches!(n.layout, NodeLayout::SplitV) {
                out.push(ReplayStep::Run(EngineCmd::Split { axis: SplitAxis::Vertical }));
            }
            proof {
                if spec_split_of(n@.layout, caps) is Some {
                    lemma_steps_view_push(after_child, out@[out@.len() - 1]);
                }
                assert(steps_view(out@) =~= steps_view(after_child) + split_part(n@.layout, caps));
            }
        }
        proof {
            lemma_tree_view_pointwise(n.nodes@);
            let prefix = tree_view(n.nodes@).subrange(0, i + 1 as int);
            assert(prefix.subrange(0, prefix.len() - 1) =~= tree_view(n.nodes@).subrange(
                0,
                i as int,
            ));
            assert(prefix[prefix.len() - 1] == node_view(n.nodes@[i as int]));
            assert(steps_view(out@) =~= steps_view(mid) + children_steps(
                prefix,
                n@.layout,
                desktop_exec@,
                caps,
            ));
        }
        i = i + 1;
    }
    proof {
        lemma_tree_view_pointwise(n.nodes@);
        assert(tree_view(n.nodes@).subrange(0, n.nodes@.len() as int) =~= tree_view(n.nodes@));
        assert(steps_view(out@) =~= steps_view(old(out)@) + replay_node_spec(
            n@,
            desktop_exec@,
            caps,
        ));
    }
}

/// Whether a top-level node may be replayed at all: only roots and
/// workspaces hold a session's layout.
pub open spec fn spec_top_compatible(n: NodeV) -> bool {
    n.node_type == NodeType::Root || n.node_type == NodeType::Workspace
}

/// Whether a node passes the replay scope: with no scope everything
/// does; with one, only a node carrying exactly that name.
pub open spec fn spec_scope_matches(scope: Option<Seq<char>>, name: Option<Seq<char>>) -> bool {
    match scope {
        Some(w) => name == Some(w),
        None => true,
    }
}

/// The commands that put the workspace at position `i` in place before
/// its windows are spawned: backends that number workspaces rename the
/// position and focus it; backends that name them focus by name, which
/// creates the workspace.
pub open spec fn header_steps(n: NodeV, i: int, caps: BackendCaps) -> Seq<ReplayStepV> {
    (if caps.workspaces_by_index && n.name is Some {
        seq![
            ReplayStepV::Run(
                EngineCmdV::SetWorkspaceName { index: (i + 1) as u64, name: n.name->0 },
            ),
        ]
    } else {
        Seq::empty()
    }) + (if caps.workspaces_by_index {
        seq![ReplayStepV::Run(EngineCmdV::FocusWorkspaceIndex { index: (i + 1) as u64 })]
    } else if n.name is Some {
        seq![ReplayStepV::Run(EngineCmdV::FocusWorkspaceName { name: n.name->0 })]
    } else {
        Seq::empty()
    })
}

/// The steps one top-level node contributes: a logged pass-over for an
/// incompatible kind, nothing outside the scope, and otherwise its
/// workspace header followed by its subtree.
pub open spec fn top_node_steps(
    n: NodeV,
    i: int,
    scope: Option<Seq<char>>,
    dx: Seq<char>,
    caps: BackendCaps,
) -> Seq<ReplayStepV> {
    if !spec_top_compatible(n) {
        seq![ReplayStepV::SkipIncompatible { index: i as u64 }]
    } else if !spec_scope_matches(scope, n.name) {
        Seq::empty()
    } else {
        header_steps(n, i, caps) + replay_node_spec(n, dx, caps)
    }
}

/// The steps of all top-level nodes, in order.
pub open spec fn top_steps(
    tree: Seq<NodeV>,
    scope: Option<Seq<char>>,
    dx: Seq<char>,
    caps: BackendCaps,
) -> Seq<ReplayStepV>
    decreases tree,
{
    if tree.len() == 0 {
        Seq::empty()
    } else {
        top_steps(tree.subrange(0, tree.len() - 1), scope, dx, caps) + top_node_steps(
            tree[tree.len() - 1],
            tree.len() - 1,
            scope,
            dx,
            caps,
        )
    }
}

/// The name of the first workspace the replay focuses, if any: the first
/// top-level node that is compatible, in scope and named.
pub open spec fn first_focused_name(tree: Seq<NodeV>, scope: Option<Seq<char>>) -> Option<
    Seq<char>,
>
    decreases tree.len(),
{
    if tree.len() == 0 {
        None
    } else if spec_top_compatible(tree[0]) && spec_scope_matches(scope, tree[0].name)
        && tree[0].name is Some {
        Some(tree[0].name->0)
    } else {
        first_focused_name(tree.subrange(1, tree.len() as int), scope)
    }
}

/// A prefix without a focused workspace does not change which one is
/// focused first.
proof fn lemma_first_focused_skip(tree: Seq<NodeV>, scope: Option<Seq<char>>, i: int)
    requires
        0 <= i <= tree.len(),
        forall|j: int|
            0 <= j < i ==> !(spec_top_compatible(#[trigger] tree[j]) && spec_scope_matches(
                scope,
                tree[j].name,
            ) && tree[j].name is Some),
    ensures
        first_focused_name(tree, scope) == first_focused_name(
            tree.subrange(i, tree.len() as int),
            scope,
        ),
    decreases i,
{
    if i > 0 {
        let tail = tree.subrange(1, tree.len() as int);
        assert(first_focused_name(tree, scope) == first_focused_name(tail, scope));
        lemma_first_focused_skip(tail, scope, i - 1);
        assert(tail.subrange(i - 1, tail.len() as int) =~= tree.subrange(i, tree.len() as int));
    } else {
        assert(tree.subrange(0, tree.len() as int) =~= tree);
    }
}

/// The steps that close a replay: focus returns to the first workspace,
/// and backends that take one get the closing screen transition.
pub open spec fn trailer_steps(
    tree: Seq<NodeV>,
    scope: Option<Seq<char>>,
    caps: BackendCaps,
) -> Seq<ReplayStepV> {
    (if caps.workspaces_by_index {
        seq![ReplayStepV::Run(EngineCmdV::FocusWorkspaceIndex { index: 1 })]
    } else {
        match first_focused_name(tree, scope) {
            Some(name) => seq![ReplayStepV::Run(EngineCmdV::FocusWorkspaceName { name })],
            None => Seq::empty(),
        }
    }) + (if caps.screen_transition {
        seq![ReplayStepV::Run(EngineCmdV::ScreenTransition { delay_ms: 200 })]
    } else {
        Seq::empty()
    })
}

/// The whole replay plan of a session tree: every top-level node in
/// order, then the closing steps.
pub open spec fn replay_script_spec(
    tree: Seq<NodeV>,
    scope: Option<Seq<char>>,
    dx: Seq<char>,
    caps: BackendCaps,
) -> Seq<ReplayStepV> {
    top_steps(tree, scope, dx, caps) + trailer_steps(tree, scope, caps)
}

/// Whether this top-level node is compatible, in scope and named, so
/// that replay will focus it.
fn is_focused_top(n: &Node, scope: &Option<String>) -> (b: bool)
    ensures
        b == (spec_top_compatible(n@) && spec_scope_matches(opt_view(*scope), n@.name)
            && n@.name is Some),
{
    if !matches!(n.node_type, NodeType::Root | NodeType::Workspace) {
        return false;
    }
    let in_scope = match scope {
        Some(w) => match &n.name {
            Some(nm) => str_eq(nm.as_str(), w.as_str()),
            None => false,
        },
        None => true,
    };
    in_scope && n.name.is_some()
}

/// Finds the name of the first workspace the replay will focus.
fn first_focused(tree: &Vec<Node>, scope: &Option<String>) -> (r: Option<String>)
    ensures
        opt_view(r) == first_focused_name(tree_view(tree@), opt_view(*scope)),
{
    let mut i: usize = 0;
    while i < tree.len()
        invariant
            i <= tree.len(),
            forall|j: int|
                0 <= j < i ==> !(spec_top_compatible(#[trigger] tree_view(tree@)[j])
                    && spec_scope_matches(opt_view(*scope), tree_view(tree@)[j].name) && tree_view(
                    tree@,
                )[j].name is Some),
        decreases tree.len() - i,
    {
        proof {
            lemma_tree_view_pointwise(tree@);
        }
        if is_focused_top(&tree[i], scope) {
            proof {
                lemma_first_focused_skip(tree_view(tree@), opt_view(*scope), i as int);
                let suffix = tree_view(tree@).subrange(i as int, tree_view(tree@).len() as int);
                assert(suffix[0] == tree_view(tree@)[i as int]);
            }
            match &tree[i].name {
                Some(nm) => {
                    return Some(nm.clone());
                },
                None => {
                    proof {
                        assert(false);
                    }
                },
            }
        }
        i = i + 1;
    }
    proof {
        lemma_tree_view_pointwise(tree@);
        lemma_first_focused_skip(tree_view(tree@), opt_view(*scope), tree@.len() as int);
        assert(tree_view(tree@).subrange(tree@.len() as int, tree_view(tree@).len() as int)
            =~= Seq::<NodeV>::empty());
    }
    None
}

/// Plans the replay of a loaded session tree for one backend: the
/// workspace headers, splits and spawn jobs of every compatible top-level
/// node inside the scope, in recorded order, closed by a return of focus
/// to the first workspace.  The plan does not depend on the run mode:
/// a dry run plans, logs and traverses exactly the same steps.
pub fn replay_script(
    tree: &Vec<Node>,
    scope: &Option<String>,
    desktop_exec: &str,
    caps: BackendCaps,
) -> (plan: Vec<ReplayStep>)
    ensures
        steps_view(plan@) == replay_script_spec(
            tree_view(tree@),
            opt_view(*scope),
            desktop_exec@,
            caps,
        ),
{
    let mut out: Vec<ReplayStep> = Vec::new();
    let mut i: usize = 0;
    proof {
        assert(tree_view(tree@).subrange(0, 0) =~= Seq::<NodeV>::empty());
        assert(steps_view(out@) =~= top_steps(
            tree_view(tree@).subrange(0, 0),
            opt_view(*scope),
            desktop_exec@,
            caps,
        ));
    }
    while i < tree.len()
        invariant
            i <= tree.len(),
            steps_view(out@) == top_steps(
                tree_view(tree@).subrange(0, i as int),
                opt_view(*scope),
                desktop_exec@,
                caps,
            ),
        decreases tree.len() - i,
    {
        proof {
            lemma_tree_view_pointwise(tree@);
        }
        let ghost pre = out@;
        let n = &tree[i];
        let compatible = matches!(n.node_type, NodeType::Root | NodeType::Workspace);
        if !compatible {
            out.push(ReplayStep::SkipIncompatible { index: i as u64 });
            proof {
                lemma_steps_view_push(pre, out@[out@.len() - 1]);
                assert(steps_view(out@) =~= steps_view(pre) + top_node_steps(
                    tree_view(tree@)[i as int],
                    i as int,
                    opt_view(*scope),
                    desktop_exec@,
                    caps,
                ));
            }
        } else {
            let in_scope = match scope {
                Some(w) => match &n.name {
                    Some(nm) => str_eq(nm.as_str(), w.as_str()),
                    None => false,
                },
                None => true,
            };
            if in_scope {
                let index: u64 = (i as u64) + 1;
                if caps.workspaces_by_index {
                    match &n.name {
                        Some(nm) => {
                            out.push(
                                ReplayStep::Run(
                                    EngineCmd::SetWorkspaceName { index, name: nm.clone() },
                                ),
                            );
                            proof {
                                lemma_steps_view_push(pre, out@[out@.len() - 1]);
                            }
                        },
                        None => {},
                    }
                    let ghost mid1 = out@;
                    out.push(ReplayStep::Run(EngineCmd::FocusWorkspaceIndex { index }));
                    proof {
                        lemma_steps_view_push(mid1, out@[out@.len() - 1]);
                        assert(steps_view(out@) =~= steps_view(pre) + header_steps(
                            tree_view(tree@)[i as int],
                            i as int,
                            caps,
                        ));
                    }
                } else {
                    match &n.name {
                        Some(nm) => {
                            out.push(
                                ReplayStep::Run(EngineCmd::FocusWorkspaceName { name: nm.clone() }),
                            );
                            proof {
                                lemma_steps_view_push(pre, out@[out@.len() - 1]);
                            }
                        },
                        None => {},
                    }
                    proof {
                        assert(steps_view(out@) =~= steps_view(pre) + header_steps(
                            tree_view(tree@)[i as int],
                            i as int,
                            caps,
                        ));
                    }
                }
                plan_node(n, desktop_exec, caps, &mut out);
                proof {
                    assert(steps_view(out@) =~= steps_view(pre) + top_node_steps(
                        tree_view(tree@)[i as int],
                        i as int,
                        opt_view(*scope),
                        desktop_exec@,
                        caps,
                    ));
                }
            } else {
                proof {
                    assert(steps_view(out@) =~= steps_view(pre) + top_node_steps(
                        tree_view(tree@)[i as int],
                        i as int,
                        opt_view(*scope),
                        desktop_exec@,
                        caps,
                    ));
                }
            }
        }
        proof {
            let prefix = tree_view(tree@).subrange(0, i + 1 as int);
            assert(prefix.subrange(0, prefix.len() - 1) =~= tree_view(tree@).subrange(
                0,
                i as int,
            ));
            assert(prefix[prefix.len() - 1] == tree_view(tree@)[i as int]);
            assert(steps_view(out@) =~= top_steps(
                prefix,
                opt_view(*scope),
                desktop_exec@,
                caps,
            ));
        }
        i = i + 1;
    }
    proof {
        lemma_tree_view_pointwise(tree@);
        assert(tree_view(tree@).subrange(0, tree@.len() as int) =~= tree_view(tree@));
    }
    let ghost after_tops = out@;
    if caps.workspaces_by_index {
        out.push(ReplayStep::Run(EngineCmd::FocusWorkspaceIndex { index: 1 }));
        proof {
            lemma_steps_view_push(after_tops, out@[out@.len() - 1]);
        }
    } else {
        match first_focused(tree, scope) {
            Some(name) => {
                out.push(ReplayStep::Run(EngineCmd::FocusWorkspaceName { name }));
                proof {
                    lemma_steps_view_push(after_tops, out@[out@.len() - 1]);
                }
            },
            None => {},
        }
    }
    let ghost after_focus = out@;
    if caps.screen_transition {
        out.push(ReplayStep::Run(EngineCmd::ScreenTransition { delay_ms: 200 }));
        proof {
            lemma_steps_view_push(after_focus, out@[out@.len() - 1]);
        }
    }
    proof {
        assert(steps_view(out@) =~= replay_script_spec(
            tree_view(tree@),
            opt_view(*scope),
            desktop_exec@,
            caps,
        ));
    }
    out
}

/// Viewing a command list one entry longer appends exactly its model.
proof fn lemma_cmds_view_push(t: Seq<EngineCmd>, c: EngineCmd)
    ensures
        cmds_view(t.push(c)) == cmds_view(t).push(cmd_view(c)),
{
    assert(cmds_view(t.push(c)) =~= cmds_view(t).push(cmd_view(c)));
}

/// Whether a live native node is a window that clearing destroys: a
/// container-like leaf.
pub open spec fn spec_raw_window_leaf(r: crate::sway::RawNodeV) -> bool {
    &&& (crate::sway::spec_kind_of_name(r.kind) == NodeType::Con || crate::sway::spec_kind_of_name(
        r.kind,
    ) == NodeType::FloatingCon)
    &&& r.nodes.len() == 0
}

/// The kill commands for every window under one live node, depth-first
/// in pre-order.
pub open spec fn kill_leaves(r: crate::sway::RawNodeV) -> Seq<EngineCmdV>
    decreases r,
{
    (if spec_raw_window_leaf(r) {
        seq![EngineCmdV::Kill { window: r.id }]
    } else {
        Seq::empty()
    }) + kill_leaves_all(r.nodes)
}

/// The kill commands for the windows under a sequence of sibling nodes.
pub open spec fn kill_leaves_all(t: Seq<crate::sway::RawNodeV>) -> Seq<EngineCmdV>
    decreases t,
{
    if t.len() == 0 {
        Seq::empty()
    } else {
        kill_leaves(t[0]) + kill_leaves_all(t.subrange(1, t.len() as int))
    }
}

/// Killing under one more sibling appends exactly its kills.
proof fn lemma_kill_leaves_all_snoc(t: Seq<crate::sway::RawNodeV>, r: crate::sway::RawNodeV)
    ensures
        kill_leaves_all(t.push(r)) == kill_leaves_all(t) + kill_leaves(r),
    decreases t.len(),
{
    let whole = t.push(r);
    if t.len() == 0 {
        assert(whole[0] == r);
        assert(whole.subrange(1, whole.len() as int) =~= Seq::<crate::sway::RawNodeV>::empty());
        assert(kill_leaves_all(whole) == kill_leaves(whole[0]) + kill_leaves_all(
            whole.subrange(1, whole.len() as int),
        ));
        assert(kill_leaves_all(whole.subrange(1, whole.len() as int)) == Seq::<
            EngineCmdV,
        >::empty());
        assert(kill_leaves_all(whole) =~= kill_leaves_all(t) + kill_leaves(r));
    } else {
        assert(whole[0] == t[0]);
        assert(whole.subrange(1, whole.len() as int) =~= t.subrange(1, t.len() as int).push(r));
        lemma_kill_leaves_all_snoc(t.subrange(1, t.len() as int), r);
        assert(kill_leaves_all(whole) == kill_leaves(t[0]) + (kill_leaves_all(
            t.subrange(1, t.len() as int),
        ) + kill_leaves(r)));
        assert(kill_leaves_all(t) == kill_leaves(t[0]) + kill_leaves_all(
            t.subrange(1, t.len() as int),
        ));
        assert(kill_leaves_all(whole) =~= kill_leaves_all(t) + kill_leaves(r));
    }
}

/// The clear phase of one live node: under every kept workspace that the
/// scope admits, every window is killed; all other workspaces are left
/// untouched.
pub open spec fn clear_from(r: crate::sway::RawNodeV, scope: Option<Seq<char>>) -> Seq<
    EngineCmdV,
>
    decreases r,
{
    (if crate::sway::spec_kept_workspace(r) && spec_scope_matches(scope, r.name) {
        kill_leaves(r)
    } else {
        Seq::empty()
    }) + clear_from_all(r.nodes, scope)
}

/// The clear phase over a sequence of sibling live nodes.
pub open spec fn clear_from_all(t: Seq<crate::sway::RawNodeV>, scope: Option<Seq<char>>) -> Seq<
    EngineCmdV,
>
    decreases t,
{
    if t.len() == 0 {
        Seq::empty()
    } else {
        clear_from(t[0], scope) + clear_from_all(t.subrange(1, t.len() as int), scope)
    }
}

/// Clearing one more sibling appends exactly its commands.
proof fn lemma_clear_from_all_snoc(
    t: Seq<crate::sway::RawNodeV>,
    r: crate::sway::RawNodeV,
    scope: Option<Seq<char>>,
)
    ensures
        clear_from_all(t.push(r), scope) == clear_from_all(t, scope) + clear_from(r, scope),
    decreases t.len(),
{
    let whole = t.push(r);
    if t.len() == 0 {
        assert(whole[0] == r);
        assert(whole.subrange(1, whole.len() as int) =~= Seq::<crate::sway::RawNodeV>::empty());
        assert(clear_from_all(whole, scope) == clear_from(whole[0], scope) + clear_from_all(
            whole.subrange(1, whole.len() as int),
            scope,
        ));
        assert(clear_from_all(whole.subrange(1, whole.len() as int), scope) == Seq::<
            EngineCmdV,
        >::empty());
        assert(clear_from_all(whole, scope) =~= clear_from_all(t, scope) + clear_from(r, scope));
    } else {
        assert(whole[0] == t[0]);
        assert(whole.subrange(1, whole.len() as int) =~= t.subrange(1, t.len() as int).push(r));
        lemma_clear_from_all_snoc(t.subrange(1, t.len() as int), r, scope);
        assert(clear_from_all(whole, scope) == clear_from(t[0], scope) + (clear_from_all(
            t.subrange(1, t.len() as int),
            scope,
        ) + clear_from(r, scope)));
        assert(clear_from_all(t, scope) == clear_from(t[0], scope) + clear_from_all(
            t.subrange(1, t.len() as int),
            scope,
        ));
        assert(clear_from_all(whole, scope) =~= clear_from_all(t, scope) + clear_from(r, scope));
    }
}

fn raw_window_leaf(r: &crate::sway::RawNode) -> (b: bool)
    ensures
        b == spec_raw_window_leaf(r@),
{
    let kind = crate::sway::kind_of_name(r.kind.as_str());
    (matches!(kind, NodeType::Con | NodeType::FloatingCon)) && r.nodes.len() == 0
}

fn kill_into(r: &crate::sway::RawNode, out: &mut Vec<EngineCmd>)
    ensures
        cmds_view(final(out)@) == cmds_view(old(out)@) + kill_leaves(r@),
    decreases *r,
{
    if raw_window_leaf(r) {
        let ghost pre = out@;
        out.push(EngineCmd::Kill { window: r.id });
        proof {
            lemma_cmds_view_push(pre, out@[out@.len() - 1]);
        }
    }
    let ghost mid = out@;
    proof {
        assert(cmds_view(mid) =~= cmds_view(old(out)@) + (if spec_raw_window_leaf(r@) {
            seq![EngineCmdV::Kill { window: r@.id }]
        } else {
            Seq::<EngineCmdV>::empty()
        }));
    }
    let mut i: usize = 0;
    proof {
        crate::sway::lemma_raws_view_pointwise(r.nodes@);
        assert(crate::sway::raws_view(r.nodes@).subrange(0, 0) =~= Seq::<
            crate::sway::RawNodeV,
        >::empty());
    }
    while i < r.nodes.len()
        invariant
            i <= r.nodes.len(),
            cmds_view(out@) == cmds_view(mid) + kill_leaves_all(
                crate::sway::raws_view(r.nodes@).subrange(0, i as int),
            ),
        decreases r.nodes.len() - i,
    {
        proof {
            crate::sway::lemma_raws_view_pointwise(r.nodes@);
        }
        kill_into(&r.nodes[i], out);
        proof {
            let views = crate::sway::raws_view(r.nodes@);
            lemma_kill_leaves_all_snoc(views.subrange(0, i as int), views[i as int]);
            assert(views.subrange(0, i + 1 as int) =~= views.subrange(0, i as int).push(
                views[i as int],
            ));
        }
        i = i + 1;
    }
    proof {
        crate::sway::lemma_raws_view_pointwise(r.nodes@);
        assert(crate::sway::raws_view(r.nodes@).subrange(0, r.nodes@.len() as int)
            =~= crate::sway::raws_view(r.nodes@));
        assert(cmds_view(out@) =~= cmds_view(old(out)@) + kill_leaves(r@));
    }
}

fn clear_into(r: &crate::sway::RawNode, scope: &Option<String>, out: &mut Vec<EngineCmd>)
    ensures
        cmds_view(final(out)@) == cmds_view(old(out)@) + clear_from(r@, opt_view(*scope)),
    decreases *r,
{
    let kept = crate::sway::kept_workspace(r);
    let in_scope = match scope {
        Some(w) => match &r.name {
            Some(nm) => str_eq(nm.as_str(), w.as_str()),
            None => false,
        },
        None => true,
    };
    if kept && in_scope {
        kill_into(r, out);
    }
    let ghost mid = out@;
    proof {
        assert(cmds_view(mid) =~= cmds_view(old(out)@) + (if crate::sway::spec_kept_workspace(r@)
            && spec_scope_matches(opt_view(*scope), r@.name) {
            kill_leaves(r@)
        } else {
            Seq::<EngineCmdV>::empty()
        }));
    }
    let mut i: usize = 0;
    proof {
        crate::sway::lemma_raws_view_pointwise(r.nodes@);
        assert(crate::sway::raws_view(r.nodes@).subrange(0, 0) =~= Seq::<
            crate::sway::RawNodeV,
        >::empty());
    }
    while i < r.nodes.len()
        invariant
            i <= r.nodes.len(),
            cmds_view(out@) == cmds_view(mid) + clear_from_all(
                crate::sway::raws_view(r.nodes@).subrange(0, i as int),
                opt_view(*scope),
            ),
        decreases r.nodes.len() - i,
    {
        proof {
            crate::sway::lemma_raws_view_pointwise(r.nodes@);
        }
        clear_into(&r.nodes[i], scope, out);
        proof {
            let views = crate::sway::raws_view(r.nodes@);
            lemma_clear_from_all_snoc(
                views.subrange(0, i as int),
                views[i as int],
                opt_view(*scope),
            );
            assert(views.subrange(0, i + 1 as int) =~= views.subrange(0, i as int).push(
                views[i as int],
            ));
        }
        i = i + 1;
    }
    proof {
        crate::sway::lemma_raws_view_pointwise(r.nodes@);
        assert(crate::sway::raws_view(r.nodes@).subrange(0, r.nodes@.len() as int)
            =~= crate::sway::raws_view(r.nodes@));
        assert(cmds_view(out@) =~= cmds_view(old(out)@) + clear_from(r@, opt_view(*scope)));
    }
}

/// Plans the clear phase on the rich backend: one kill for every window
/// under every kept workspace the scope admits, in pre-order.
pub fn sway_clear_plan(root: &crate::sway::RawNode, scope: &Option<String>) -> (plan: Vec<
    EngineCmd,
>)
    ensures
        cmds_view(plan@) == clear_from(root@, opt_view(*scope)),
{
    let mut out: Vec<EngineCmd> = Vec::new();
    proof {
        assert(cmds_view(out@) =~= Seq::<EngineCmdV>::empty());
    }
    clear_into(root, scope, &mut out);
    proof {
        assert(cmds_view(out@) =~= clear_from(root@, opt_view(*scope)));
    }
    out
}

/// The clear phase of the flat backend: freeze the screen, then close
/// every reported window; the flat protocol offers no scoping.
pub open spec fn niri_clear_spec(wins: Seq<crate::niri::FlatWindowV>) -> Seq<EngineCmdV> {
    seq![EngineCmdV::ScreenTransition { delay_ms: 10000 }] + Seq::new(
        wins.len(),
        |i: int| EngineCmdV::Kill { window: wins[i].id },
    )
}

/// Plans the clear phase on the flat backend.
pub fn niri_clear_plan(windows: &Vec<crate::niri::FlatWindow>) -> (plan: Vec<EngineCmd>)
    ensures
        cmds_view(plan@) == niri_clear_spec(crate::niri::win_views(windows@)),
{
    let mut out: Vec<EngineCmd> = Vec::new();
    let ghost pre0 = out@;
    out.push(EngineCmd::ScreenTransition { delay_ms: 10000 });
    proof {
        lemma_cmds_view_push(pre0, out@[out@.len() - 1]);
    }
    let mut i: usize = 0;
    while i < windows.len()
        invariant
            i <= windows.len(),
            out@.len() == i + 1,
            cmds_view(out@) == seq![EngineCmdV::ScreenTransition { delay_ms: 10000 }] + Seq::new(
                i as nat,
                |j: int| EngineCmdV::Kill { window: crate::niri::win_views(windows@)[j].id },
            ),
        decreases windows.len() - i,
    {
        let ghost pre = out@;
        out.push(EngineCmd::Kill { window: windows[i].id });
        proof {
            lemma_cmds_view_push(pre, out@[out@.len() - 1]);
            assert(cmds_view(out@) =~= seq![EngineCmdV::ScreenTransition { delay_ms: 10000 }]
                + Seq::new(
                (i + 1) as nat,
                |j: int| EngineCmdV::Kill { window: crate::niri::win_views(windows@)[j].id },
            ));
        }
        i = i + 1;
    }
    proof {
        assert(cmds_view(out@) =~= niri_clear_spec(crate::niri::win_views(windows@)));
    }
    out
}

/// How a run is performed: a dry run performs nothing at all, and
/// `no_kill` skips the destructive clear while replay still runs.
#[derive(Clone, Copy, Debug, PartialEq, Eq, Structural)]
pub struct RunMode {
    pub dry_run: bool,
    pub no_kill: bool,
}

/// Whether a planned command may actually be sent under this mode.
pub open spec fn spec_cmd_allowed(c: EngineCmdV, mode: RunMode) -> bool {
    match c {
        EngineCmdV::Kill { .. } => !mode.dry_run && !mode.no_kill,
        _ => !mode.dry_run,
    }
}

/// Whether a planned replay step may actually be performed under this
/// mode; the logged pass-overs perform nothing in any mode.
pub open spec fn spec_step_allowed(s: ReplayStepV, mode: RunMode) -> bool {
    match s {
        ReplayStepV::Run(c) => spec_cmd_allowed(c, mode),
        ReplayStepV::Spawn(_) => !mode.dry_run,
        _ => false,
    }
}

/// Decides whether a planned command may be sent under this mode.
pub fn cmd_allowed(c: &EngineCmd, mode: RunMode) -> (b: bool)
    ensures
        b == spec_cmd_allowed(c@, mode),
{
    match c {
        EngineCmd::Kill { .. } => !mode.dry_run && !mode.no_kill,
        _ => !mode.dry_run,
    }
}

/// Decides whether a planned replay step may be performed under this
/// mode.
pub fn step_allowed(s: &ReplayStep, mode: RunMode) -> (b: bool)
    ensures
        b == spec_step_allowed(s@, mode),
{
    match s {
        ReplayStep::Run(c) => cmd_allowed(c, mode),
        ReplayStep::Spawn(_) => !mode.dry_run,
        _ => false,
    }
}

/// Dry runs are inert: under a dry run no command and no spawn is
/// allowed at all, whatever the plan holds, while the plan itself —
/// the traversal and everything logged — is the same as in a live run,
/// since no planner takes the mode as an input.
pub proof fn lemma_dry_run_inert(mode: RunMode)
    requires
        mode.dry_run,
    ensures
        forall|s: ReplayStepV| !spec_step_allowed(s, mode),
        forall|c: EngineCmdV| !spec_cmd_allowed(c, mode),
{
}

/// The spawn jobs a plan issues, in order.
pub open spec fn spawns_of(steps: Seq<ReplayStepV>) -> Seq<SpawnJobV>
    decreases steps.len(),
{
    if steps.len() == 0 {
        Seq::empty()
    } else {
        (match steps[0] {
            ReplayStepV::Spawn(j) => seq![j],
            _ => Seq::empty(),
        }) + spawns_of(steps.subrange(1, steps.len() as int))
    }
}

/// The spawns of two plans in a row are the spawns of each in a row.
proof fn lemma_spawns_of_concat(a: Seq<ReplayStepV>, b: Seq<ReplayStepV>)
    ensures
        spawns_of(a + b) == spawns_of(a) + spawns_of(b),
    decreases a.len(),
{
    let whole = a + b;
    if a.len() == 0 {
        assert(whole =~= b);
        assert(spawns_of(a) == Seq::<SpawnJobV>::empty());
        assert(spawns_of(a) + spawns_of(b) =~= spawns_of(b));
    } else {
        assert(whole[0] == a[0]);
        assert(whole.subrange(1, whole.len() as int) =~= a.subrange(1, a.len() as int) + b);
        lemma_spawns_of_concat(a.subrange(1, a.len() as int), b);
        let head: Seq<SpawnJobV> = match a[0] {
            ReplayStepV::Spawn(j) => seq![j],
            _ => Seq::empty(),
        };
        assert(spawns_of(whole) == head + (spawns_of(a.subrange(1, a.len() as int)) + spawns_of(
            b,
        )));
        assert(spawns_of(a) == head + spawns_of(a.subrange(1, a.len() as int)));
        assert(spawns_of(whole) =~= spawns_of(a) + spawns_of(b));
    }
}

/// The spawns of a one-step plan.
proof fn lemma_spawns_of_single(s: ReplayStepV)
    ensures
        spawns_of(seq![s]) == match s {
            ReplayStepV::Spawn(j) => seq![j],
            _ => Seq::<SpawnJobV>::empty(),
        },
{
    let single = seq![s];
    assert(single[0] == s);
    assert(single.subrange(1, 1) =~= Seq::<ReplayStepV>::empty());
    assert(spawns_of(Seq::<ReplayStepV>::empty()) == Seq::<SpawnJobV>::empty());
    assert(spawns_of(single) == (match s {
        ReplayStepV::Spawn(j) => seq![j],
        _ => Seq::<SpawnJobV>::empty(),
    }) + spawns_of(single.subrange(1, 1)));
    assert(spawns_of(single) =~= match s {
        ReplayStepV::Spawn(j) => seq![j],
        _ => Seq::<SpawnJobV>::empty(),
    });
}

/// Workspace headers spawn nothing.
proof fn lemma_header_no_spawns(n: NodeV, i: int, caps: BackendCaps)
    ensures
        spawns_of(header_steps(n, i, caps)) == Seq::<SpawnJobV>::empty(),
{
    let a: Seq<ReplayStepV> = if caps.workspaces_by_index && n.name is Some {
        seq![
            ReplayStepV::Run(
                EngineCmdV::SetWorkspaceName { index: (i + 1) as u64, name: n.name->0 },
            ),
        ]
    } else {
        Seq::empty()
    };
    let b: Seq<ReplayStepV> = if caps.workspaces_by_index {
        seq![ReplayStepV::Run(EngineCmdV::FocusWorkspaceIndex { index: (i + 1) as u64 })]
    } else if n.name is Some {
        seq![ReplayStepV::Run(EngineCmdV::FocusWorkspaceName { name: n.name->0 })]
    } else {
        Seq::empty()
    };
    lemma_spawns_of_concat(a, b);
    if a.len() > 0 {
        lemma_spawns_of_single(a[0]);
        assert(a =~= seq![a[0]]);
    }
    if b.len() > 0 {
        lemma_spawns_of_single(b[0]);
        assert(b =~= seq![b[0]]);
    }
    assert(spawns_of(header_steps(n, i, caps)) =~= Seq::<SpawnJobV>::empty());
}

/// The closing steps spawn nothing.
proof fn lemma_trailer_no_spawns(tree: Seq<NodeV>, scope: Option<Seq<char>>, caps: BackendCaps)
    ensures
        spawns_of(trailer_steps(tree, scope, caps)) == Seq::<SpawnJobV>::empty(),
{
    let a: Seq<ReplayStepV> = if caps.workspaces_by_index {
        seq![ReplayStepV::Run(EngineCmdV::FocusWorkspaceIndex { index: 1 })]
    } else {
        match first_focused_name(tree, scope) {
            Some(name) => seq![ReplayStepV::Run(EngineCmdV::FocusWorkspaceName { name })],
            None => Seq::empty(),
        }
    };
    let b: Seq<ReplayStepV> = if caps.screen_transition {
        seq![ReplayStepV::Run(EngineCmdV::ScreenTransition { delay_ms: 200 })]
    } else {
        Seq::empty()
    };
    lemma_spawns_of_concat(a, b);
    if a.len() > 0 {
        lemma_spawns_of_single(a[0]);
        assert(a =~= seq![a[0]]);
    }
    if b.len() > 0 {
        lemma_spawns_of_single(b[0]);
        assert(b =~= seq![b[0]]);
    }
    assert(spawns_of(trailer_steps(tree, scope, caps)) =~= Seq::<SpawnJobV>::empty());
}

/// The spawn jobs of the workspaces a scope admits: those of every
/// compatible top-level node that carries exactly the scoped name.
pub open spec fn scoped_spawns(
    tree: Seq<NodeV>,
    w: Seq<char>,
    dx: Seq<char>,
    caps: BackendCaps,
) -> Seq<SpawnJobV>
    decreases tree,
{
    if tree.len() == 0 {
        Seq::empty()
    } else {
        scoped_spawns(tree.subrange(0, tree.len() - 1), w, dx, caps) + (if spec_top_compatible(
            tree[tree.len() - 1],
        ) && tree[tree.len() - 1].name == Some(w) {
            spawns_of(replay_node_spec(tree[tree.len() - 1], dx, caps))
        } else {
            Seq::empty()
        })
    }
}

/// Scope restriction: a replay scoped to one workspace name spawns
/// exactly the windows of the top-level workspaces carrying that name,
/// and nothing anywhere else.
pub proof fn lemma_scope_restricts_spawns(
    tree: Seq<NodeV>,
    w: Seq<char>,
    dx: Seq<char>,
    caps: BackendCaps,
)
    ensures
        spawns_of(replay_script_spec(tree, Some(w), dx, caps)) == scoped_spawns(
            tree,
            w,
            dx,
            caps,
        ),
{
    lemma_spawns_of_concat(top_steps(tree, Some(w), dx, caps), trailer_steps(tree, Some(w), caps));
    lemma_trailer_no_spawns(tree, Some(w), caps);
    lemma_top_steps_spawns(tree, w, dx, caps);
    assert(spawns_of(replay_script_spec(tree, Some(w), dx, caps)) =~= scoped_spawns(
        tree,
        w,
        dx,
        caps,
    ));
}

/// The spawns of the scoped top-level steps are the scoped spawns.
proof fn lemma_top_steps_spawns(tree: Seq<NodeV>, w: Seq<char>, dx: Seq<char>, caps: BackendCaps)
    ensures
        spawns_of(top_steps(tree, Some(w), dx, caps)) == scoped_spawns(tree, w, dx, caps),
    decreases tree.len(),
{
    if tree.len() == 0 {
    } else {
        let shorter = tree.subrange(0, tree.len() - 1);
        let last = tree[tree.len() - 1];
        lemma_top_steps_spawns(shorter, w, dx, caps);
        lemma_spawns_of_concat(
            top_steps(shorter, Some(w), dx, caps),
            top_node_steps(last, tree.len() - 1, Some(w), dx, caps),
        );
        if !spec_top_compatible(last) {
            lemma_spawns_of_single(
                ReplayStepV::SkipIncompatible { index: (tree.len() - 1) as u64 },
            );
        } else if !spec_scope_matches(Some(w), last.name) {
        } else {
            lemma_spawns_of_concat(
                header_steps(last, tree.len() - 1, caps),
                replay_node_spec(last, dx, caps),
            );
            lemma_header_no_spawns(last, tree.len() - 1, caps);
        }
        assert(spawns_of(top_steps(tree, Some(w), dx, caps)) =~= scoped_spawns(
            tree,
            w,
            dx,
            caps,
        ));
    }
}

/// Whether any workspace the scope admits stands in this live subtree.
pub open spec fn has_scoped_workspace(r: crate::sway::RawNodeV, w: Seq<char>) -> bool
    decreases r,
{
    (crate::sway::spec_kept_workspace(r) && r.name == Some(w)) || exists|i: int|
        0 <= i < r.nodes.len() && has_scoped_workspace(#[trigger] r.nodes[i], w)
}

/// Scope restriction for the clear phase: where no kept workspace
/// carries the scoped name, a scoped clear kills nothing at all.
pub proof fn lemma_clear_scope_empty(r: crate::sway::RawNodeV, w: Seq<char>)
    requires
        !has_scoped_workspace(r, w),
    ensures
        clear_from(r, Some(w)) == Seq::<EngineCmdV>::empty(),
    decreases r,
{
    lemma_clear_all_scope_empty(r.nodes, w);
    assert(clear_from(r, Some(w)) =~= Seq::<EngineCmdV>::empty());
}

/// Scope restriction, the other way round: a scoped clear issues no
/// kill that the full clear would not issue.
pub proof fn lemma_scoped_clear_subset(r: crate::sway::RawNodeV, w: Seq<char>)
    ensures
        forall|c: EngineCmdV|
            clear_from(r, Some(w)).contains(c) ==> #[trigger] clear_from(r, None).contains(c),
    decreases r,
{
    broadcast use vstd::seq_lib::lemma_seq_concat_contains_all_elements;

    lemma_scoped_clear_subset_all(r.nodes, w);
    let head_scoped: Seq<EngineCmdV> = if crate::sway::spec_kept_workspace(r) && spec_scope_matches(
        Some(w),
        r.name,
    ) {
        kill_leaves(r)
    } else {
        Seq::empty()
    };
    let head_full: Seq<EngineCmdV> = if crate::sway::spec_kept_workspace(r) {
        kill_leaves(r)
    } else {
        Seq::empty()
    };
    assert forall|c: EngineCmdV| clear_from(r, Some(w)).contains(c) implies #[trigger] clear_from(
        r,
        None,
    ).contains(c) by {
        assert(clear_from(r, Some(w)) == head_scoped + clear_from_all(r.nodes, Some(w)));
        assert(clear_from(r, None) == head_full + clear_from_all(r.nodes, None));
        if head_scoped.contains(c) {
            assert(head_full.contains(c));
        }
    }
}

/// The same, over a sequence of sibling live nodes.
proof fn lemma_scoped_clear_subset_all(t: Seq<crate::sway::RawNodeV>, w: Seq<char>)
    ensures
        forall|c: EngineCmdV|
            clear_from_all(t, Some(w)).contains(c) ==> #[trigger] clear_from_all(
                t,
                None,
            ).contains(c),
    decreases t,
{
    broadcast use vstd::seq_lib::lemma_seq_concat_contains_all_elements;

    if t.len() > 0 {
        lemma_scoped_clear_subset(t[0], w);
        lemma_scoped_clear_subset_all(t.subrange(1, t.len() as int), w);
        assert forall|c: EngineCmdV| clear_from_all(t, Some(w)).contains(c) implies
            #[trigger] clear_from_all(t, None).contains(c) by {
            assert(clear_from_all(t, Some(w)) == clear_from(t[0], Some(w)) + clear_from_all(
                t.subrange(1, t.len() as int),
                Some(w),
            ));
            assert(clear_from_all(t, None) == clear_from(t[0], None) + clear_from_all(
                t.subrange(1, t.len() as int),
                None,
            ));
        }
    }
}

/// The same, over a sequence of sibling live nodes.
proof fn lemma_clear_all_scope_empty(t: Seq<crate::sway::RawNodeV>, w: Seq<char>)
    requires
        forall|i: int| 0 <= i < t.len() ==> !has_scoped_workspace(#[trigger] t[i], w),
    ensures
        clear_from_all(t, Some(w)) == Seq::<EngineCmdV>::empty(),
    decreases t,
{
    if t.len() > 0 {
        lemma_clear_scope_empty(t[0], w);
        assert forall|i: int| 0 <= i < t.len() - 1 implies !has_scoped_workspace(
            #[trigger] t.subrange(1, t.len() as int)[i],
            w,
        ) by {
            assert(t.subrange(1, t.len() as int)[i] == t[i + 1]);
        }
        lemma_clear_all_scope_empty(t.subrange(1, t.len() as int), w);
        assert(clear_from_all(t, Some(w)) =~= Seq::<EngineCmdV>::empty());
    }
}

} // verus!
