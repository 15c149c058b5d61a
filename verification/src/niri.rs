//! The flat backend: capture from a compositor that reports only a
//! workspace list and a window list, with no containers and no layouts.
//!
//! The adapter synthesizes what the protocol lacks: workspaces are
//! sorted by the backend's own index, every workspace gets one implicit
//! split container (horizontal, the backend's arrangement), unnamed
//! workspaces are named after their position, and each window hangs off
//! the container of the workspace its back-reference points at.  A
//! back-reference outside the workspace list is a protocol error.

use vstd::prelude::*;
use vstd::multiset::Multiset;

use crate::models::Node;
use crate::models::NodeLayout;
use crate::models::NodeType;
use crate::models::NodeV;
use crate::models::lemma_tree_view_pointwise;
use crate::models::node_view;
use crate::models::opt_view;
use crate::models::tree_view;
use crate::strings::clone_opt_string;
use crate::strings::dec_of;
use crate::strings::str_eq;
use crate::strings::u64_to_string;

verus! {

/// One workspace as the flat protocol reports it, reduced to plain
/// values: its stable id, its positional index on its monitor, and its
/// optional name.
#[derive(Debug, PartialEq)]
pub struct FlatWorkspace {
    pub id: u64,
    pub idx: u8,
    pub name: Option<String>,
}

/// The mathematical model of a [`FlatWorkspace`].
#[verifier::ext_equal]
pub ghost struct FlatWorkspaceV {
    pub id: u64,
    pub idx: u8,
    pub name: Option<Seq<char>>,
}

impl View for FlatWorkspace {
    type V = FlatWorkspaceV;

    open spec fn view(&self) -> FlatWorkspaceV {
        FlatWorkspaceV { id: self.id, idx: self.idx, name: opt_view(self.name) }
    }
}

/// One window as the flat protocol reports it: its id, its application
/// identifier, and the id of the workspace it sits on, if any.
#[derive(Debug, PartialEq)]
pub struct FlatWindow {
    pub id: u64,
    pub app_id: Option<String>,
    pub workspace_id: Option<u64>,
}

/// The mathematical model of a [`FlatWindow`].
#[verifier::ext_equal]
pub ghost struct FlatWindowV {
    pub id: u64,
    pub app_id: Option<Seq<char>>,
    pub workspace_id: Option<u64>,
}

impl View for FlatWindow {
    type V = FlatWindowV;

    open spec fn view(&self) -> FlatWindowV {
        FlatWindowV { id: self.id, app_id: opt_view(self.app_id), workspace_id: self.workspace_id }
    }
}

/// Model of a workspace list.
pub open spec fn ws_views(t: Seq<FlatWorkspace>) -> Seq<FlatWorkspaceV> {
    t.map_values(|w: FlatWorkspace| w@)
}

/// Model of a window list.
pub open spec fn win_views(t: Seq<FlatWindow>) -> Seq<FlatWindowV> {
    t.map_values(|w: FlatWindow| w@)
}

/// Inserts a workspace into an index-sorted sequence, after every entry
/// whose index is not larger, so that entries with equal indices keep
/// their order.
pub open spec fn insert_by_idx(s: Seq<FlatWorkspaceV>, w: FlatWorkspaceV) -> Seq<FlatWorkspaceV>
    decreases s.len(),
{
    if s.len() == 0 {
        seq![w]
    } else if s[s.len() - 1].idx <= w.idx {
        s.push(w)
    } else {
        insert_by_idx(s.subrange(0, s.len() - 1), w).push(s[s.len() - 1])
    }
}

/// The stable sort of a workspace list by the backend's own index:
/// every entry inserted in turn, after its equals.
pub open spec fn sort_by_idx(s: Seq<FlatWorkspaceV>) -> Seq<FlatWorkspaceV>
    decreases s.len(),
{
    if s.len() == 0 {
        Seq::empty()
    } else {
        insert_by_idx(sort_by_idx(s.subrange(0, s.len() - 1)), s[s.len() - 1])
    }
}

/// Where the insertion lands: at the position before which every entry
/// has an index not larger, and from which every entry has a larger one.
proof fn lemma_insert_by_idx_at(s: Seq<FlatWorkspaceV>, w: FlatWorkspaceV, p: int)
    requires
        0 <= p <= s.len(),
        p == 0 || s[p - 1].idx <= w.idx,
        forall|j: int| p <= j < s.len() ==> s[j].idx > w.idx,
    ensures
        insert_by_idx(s, w) == s.subrange(0, p) + seq![w] + s.subrange(p, s.len() as int),
    decreases s.len(),
{
    if p == s.len() {
        if s.len() == 0 {
            assert(insert_by_idx(s, w) =~= s.subrange(0, p) + seq![w] + s.subrange(
                p,
                s.len() as int,
            ));
        } else {
            assert(s[s.len() - 1].idx <= w.idx);
            assert(insert_by_idx(s, w) =~= s.subrange(0, p) + seq![w] + s.subrange(
                p,
                s.len() as int,
            ));
        }
    } else {
        assert(s[s.len() - 1].idx > w.idx);
        let shorter = s.subrange(0, s.len() - 1);
        assert(p == 0 || shorter[p - 1].idx <= w.idx);
        lemma_insert_by_idx_at(shorter, w, p);
        assert(shorter.subrange(0, p) =~= s.subrange(0, p));
        assert(shorter.subrange(p, shorter.len() as int) =~= s.subrange(p, s.len() - 1));
        assert(insert_by_idx(s, w) == (s.subrange(0, p) + seq![w] + s.subrange(p, s.len() - 1))
            .push(s[s.len() - 1]));
        assert(insert_by_idx(s, w) =~= s.subrange(0, p) + seq![w] + s.subrange(
            p,
            s.len() as int,
        ));
    }
}

/// Whether a workspace list is ordered by the backend's own index.
pub open spec fn idx_sorted(s: Seq<FlatWorkspaceV>) -> bool {
    forall|i: int, j: int| 0 <= i <= j < s.len() ==> s[i].idx <= s[j].idx
}

/// Insertion keeps a common bound on every index.
proof fn lemma_insert_idx_bound(s: Seq<FlatWorkspaceV>, w: FlatWorkspaceV, b: u8)
    requires
        forall|m: int| 0 <= m < s.len() ==> s[m].idx <= b,
        w.idx <= b,
    ensures
        forall|k: int|
            0 <= k < insert_by_idx(s, w).len() ==> #[trigger] insert_by_idx(s, w)[k].idx <= b,
    decreases s.len(),
{
    if s.len() > 0 && s[s.len() - 1].idx > w.idx {
        let shorter = s.subrange(0, s.len() - 1);
        lemma_insert_idx_bound(shorter, w, b);
        assert forall|k: int| 0 <= k < insert_by_idx(s, w).len() implies #[trigger] insert_by_idx(
            s,
            w,
        )[k].idx <= b by {
            if k < insert_by_idx(shorter, w).len() {
                assert(insert_by_idx(s, w)[k] == insert_by_idx(shorter, w)[k]);
            } else {
                assert(insert_by_idx(s, w)[k] == s[s.len() - 1]);
            }
        }
    }
}

/// Inserting into an index-sorted list keeps it index-sorted.
proof fn lemma_insert_by_idx_sorted(s: Seq<FlatWorkspaceV>, w: FlatWorkspaceV)
    requires
        idx_sorted(s),
    ensures
        idx_sorted(insert_by_idx(s, w)),
    decreases s.len(),
{
    if s.len() == 0 {
    } else if s[s.len() - 1].idx <= w.idx {
        assert forall|i: int, j: int| 0 <= i <= j < insert_by_idx(s, w).len() implies insert_by_idx(
            s,
            w,
        )[i].idx <= insert_by_idx(s, w)[j].idx by {
            if j < s.len() {
                assert(insert_by_idx(s, w)[i] == s[i] && insert_by_idx(s, w)[j] == s[j]);
            } else if i < s.len() {
                assert(insert_by_idx(s, w)[i] == s[i] && insert_by_idx(s, w)[j] == w);
                assert(s[i].idx <= s[s.len() - 1].idx);
            }
        }
    } else {
        let shorter = s.subrange(0, s.len() - 1);
        assert(idx_sorted(shorter));
        lemma_insert_by_idx_sorted(shorter, w);
        assert(forall|m: int| 0 <= m < shorter.len() ==> shorter[m].idx <= s[s.len() - 1].idx);
        lemma_insert_idx_bound(shorter, w, s[s.len() - 1].idx);
        let inner = insert_by_idx(shorter, w);
        assert forall|i: int, j: int| 0 <= i <= j < insert_by_idx(s, w).len() implies insert_by_idx(
            s,
            w,
        )[i].idx <= insert_by_idx(s, w)[j].idx by {
            if j < inner.len() {
                assert(insert_by_idx(s, w)[i] == inner[i] && insert_by_idx(s, w)[j] == inner[j]);
            } else if i < inner.len() {
                assert(insert_by_idx(s, w)[i] == inner[i]);
                assert(insert_by_idx(s, w)[j] == s[s.len() - 1]);
            }
        }
    }
}

/// The sort's name is earned: its result is ordered by the backend's
/// own index.
pub proof fn lemma_sort_by_idx_sorted(s: Seq<FlatWorkspaceV>)
    ensures
        idx_sorted(sort_by_idx(s)),
    decreases s.len(),
{
    if s.len() > 0 {
        lemma_sort_by_idx_sorted(s.subrange(0, s.len() - 1));
        lemma_insert_by_idx_sorted(sort_by_idx(s.subrange(0, s.len() - 1)), s[s.len() - 1]);
    }
}

/// Insertion adds exactly the inserted workspace to the list's contents.
proof fn lemma_insert_by_idx_multiset(s: Seq<FlatWorkspaceV>, w: FlatWorkspaceV)
    ensures
        insert_by_idx(s, w).to_multiset() == s.to_multiset().insert(w),
    decreases s.len(),
{
    broadcast use vstd::seq_lib::group_to_multiset_ensures;

    if s.len() == 0 {
        assert(seq![w] =~= Seq::<FlatWorkspaceV>::empty().push(w));
        assert(s.to_multiset() =~= Multiset::<FlatWorkspaceV>::empty());
        assert(insert_by_idx(s, w).to_multiset() =~= s.to_multiset().insert(w));
    } else if s[s.len() - 1].idx <= w.idx {
        assert(s.push(w).to_multiset() =~= s.to_multiset().insert(w));
    } else {
        let shorter = s.subrange(0, s.len() - 1);
        lemma_insert_by_idx_multiset(shorter, w);
        assert(insert_by_idx(s, w).to_multiset() =~= insert_by_idx(
            shorter,
            w,
        ).to_multiset().insert(s[s.len() - 1]));
        assert(s =~= shorter.push(s[s.len() - 1]));
        assert(s.to_multiset() =~= shorter.to_multiset().insert(s[s.len() - 1]));
        assert(shorter.to_multiset().insert(w).insert(s[s.len() - 1])
            =~= shorter.to_multiset().insert(s[s.len() - 1]).insert(w));
        assert(insert_by_idx(s, w).to_multiset() =~= s.to_multiset().insert(w));
    }
}

/// The sort keeps the list's contents: its result is a permutation of
/// its input.
pub proof fn lemma_sort_by_idx_permutes(s: Seq<FlatWorkspaceV>)
    ensures
        sort_by_idx(s).to_multiset() == s.to_multiset(),
    decreases s.len(),
{
    broadcast use vstd::seq_lib::group_to_multiset_ensures;

    if s.len() > 0 {
        let shorter = s.subrange(0, s.len() - 1);
        lemma_sort_by_idx_permutes(shorter);
        lemma_insert_by_idx_multiset(sort_by_idx(shorter), s[s.len() - 1]);
        assert(s =~= shorter.push(s[s.len() - 1]));
        assert(s.to_multiset() =~= shorter.to_multiset().insert(s[s.len() - 1]));
        assert(sort_by_idx(s).to_multiset() =~= s.to_multiset());
    }
}

/// Inserts a workspace into an index-sorted vector at its stable place.
fn insert_sorted(out: &mut Vec<FlatWorkspace>, w: FlatWorkspace)
    ensures
        ws_views(final(out)@) == insert_by_idx(ws_views(old(out)@), w@),
{
    let mut p: usize = out.len();
    while p > 0 && out[p - 1].idx > w.idx
        invariant
            p <= out.len(),
            out == old(out),
            forall|j: int| p <= j < out.len() ==> out@[j].idx > w.idx,
        decreases p,
    {
        p = p - 1;
    }
    let ghost before = ws_views(out@);
    out.insert(p, w);
    proof {
        lemma_insert_by_idx_at(before, w@, p as int);
        assert(ws_views(out@) =~= before.subrange(0, p as int) + seq![w@] + before.subrange(
            p as int,
            before.len() as int,
        ));
    }
}

/// Sorts the workspace list by the backend's own index, keeping the
/// reported order among workspaces that share one.
pub fn sort_workspaces(ws: Vec<FlatWorkspace>) -> (r: Vec<FlatWorkspace>)
    ensures
        ws_views(r@) == sort_by_idx(ws_views(ws@)),
{
    let ghost orig = ws_views(ws@);
    let mut rest = ws;
    let mut out: Vec<FlatWorkspace> = Vec::new();
    let ghost mut done: int = 0;
    proof {
        assert(orig.subrange(0, 0) =~= Seq::<FlatWorkspaceV>::empty());
        assert(ws_views(out@) =~= sort_by_idx(orig.subrange(0, 0)));
    }
    while rest.len() > 0
        invariant
            0 <= done <= orig.len(),
            rest@.len() == orig.len() - done,
            forall|j: int| 0 <= j < rest@.len() ==> rest@[j]@ == orig[done + j],
            ws_views(out@) == sort_by_idx(orig.subrange(0, done)),
        decreases rest.len(),
    {
        let w = rest.remove(0);
        proof {
            assert(w@ == orig[done]);
            let prefix = orig.subrange(0, done + 1);
            assert(prefix.subrange(0, prefix.len() - 1) =~= orig.subrange(0, done));
            assert(prefix[prefix.len() - 1] == orig[done]);
        }
        insert_sorted(&mut out, w);
        proof {
            done = done + 1;
        }
    }
    proof {
        assert(orig.subrange(0, orig.len() as int) =~= orig);
    }
    out
}

/// What can go wrong while the flat backend's state is mirrored into a
/// tree.
#[derive(Clone, Copy, Debug, PartialEq, Eq, Structural)]
pub enum FlatCaptureError {
    /// A window's workspace back-reference points outside the workspace
    /// list the compositor reported alongside it.
    WorkspaceOutOfBounds { workspace_id: u64 },
}

/// Whether a window's back-reference cannot be placed among `count`
/// workspaces.
pub open spec fn spec_bad_window(w: FlatWindowV, count: int) -> bool {
    match w.workspace_id {
        Some(id) => id == 0 || id > count,
        None => false,
    }
}

/// The first window whose back-reference cannot be placed, if any.
pub open spec fn first_bad_window(wins: Seq<FlatWindowV>, count: int) -> Option<FlatWindowV>
    decreases wins.len(),
{
    if wins.len() == 0 {
        None
    } else if spec_bad_window(wins[0], count) {
        Some(wins[0])
    } else {
        first_bad_window(wins.subrange(1, wins.len() as int), count)
    }
}

/// A clean prefix does not change which window is the first bad one.
proof fn lemma_first_bad_skip(wins: Seq<FlatWindowV>, count: int, i: int)
    requires
        0 <= i <= wins.len(),
        forall|j: int| 0 <= j < i ==> !spec_bad_window(wins[j], count),
    ensures
        first_bad_window(wins, count) == first_bad_window(
            wins.subrange(i, wins.len() as int),
            count,
        ),
    decreases i,
{
    if i > 0 {
        let tail = wins.subrange(1, wins.len() as int);
        assert(!spec_bad_window(wins[0], count));
        assert(first_bad_window(wins, count) == first_bad_window(tail, count));
        lemma_first_bad_skip(tail, count, i - 1);
        assert(tail.subrange(i - 1, tail.len() as int) =~= wins.subrange(i, wins.len() as int));
    } else {
        assert(wins.subrange(0, wins.len() as int) =~= wins);
    }
}

/// The window node synthesized for one reported window.
pub open spec fn win_node_spec(w: FlatWindowV) -> NodeV {
    NodeV { app_id: w.app_id, node_type: NodeType::Con, ..NodeV::empty() }
}

/// The one implicit container of a workspace: the flat protocol has no
/// layouts, so a horizontal split stands in for them.
pub open spec fn container_spec(children: Seq<NodeV>) -> NodeV {
    NodeV {
        node_type: NodeType::Con,
        layout: NodeLayout::SplitH,
        nodes: children,
        ..NodeV::empty()
    }
}

/// The window nodes of the workspace with the given back-reference id,
/// in reported order.
pub open spec fn windows_for(wins: Seq<FlatWindowV>, id: u64) -> Seq<NodeV>
    decreases wins.len(),
{
    if wins.len() == 0 {
        Seq::empty()
    } else {
        windows_for(wins.subrange(0, wins.len() - 1), id) + (if wins[wins.len() - 1].workspace_id
            == Some(id) {
            seq![win_node_spec(wins[wins.len() - 1])]
        } else {
            Seq::empty()
        })
    }
}

/// The workspace node synthesized for the workspace at position `k` of
/// the sorted list: named after itself or its position, holding one
/// implicit container with its windows.
pub open spec fn flat_ws_node_spec(w: FlatWorkspaceV, k: int, wins: Seq<FlatWindowV>) -> NodeV {
    NodeV {
        name: Some(
            match w.name {
                Some(n) => n,
                None => dec_of(k),
            },
        ),
        node_type: NodeType::Workspace,
        nodes: seq![container_spec(windows_for(wins, (k + 1) as u64))],
        ..NodeV::empty()
    }
}

/// The whole tree the flat backend's capture produces.
pub open spec fn niri_tree_spec(sorted: Seq<FlatWorkspaceV>, wins: Seq<FlatWindowV>) -> Seq<
    NodeV,
> {
    Seq::new(sorted.len(), |k: int| flat_ws_node_spec(sorted[k], k, wins))
}

/// Captures the current session from the flat backend's workspace and
/// window lists: workspaces sorted by their index, each with one
/// implicit split container holding its windows in reported order, and
/// named after its position when the compositor reports no name.  Fails
/// exactly when some window's back-reference points outside the
/// workspace list, naming the first such reference.
pub fn niri_capture(workspaces: Vec<FlatWorkspace>, windows: &Vec<FlatWindow>) -> (r: Result<
    Vec<Node>,
    FlatCaptureError,
>)
    ensures
        match r {
            Ok(t) => {
                &&& first_bad_window(win_views(windows@), workspaces@.len() as int) is None
                &&& tree_view(t@) == niri_tree_spec(
                    sort_by_idx(ws_views(workspaces@)),
                    win_views(windows@),
                )
            },
            Err(e) => {
                &&& first_bad_window(win_views(windows@), workspaces@.len() as int) matches Some(w)
                    && e == (FlatCaptureError::WorkspaceOutOfBounds {
                    workspace_id: w.workspace_id->0,
                })
            },
        },
{
    let ws_count = workspaces.len();
    let mut i: usize = 0;
    while i < windows.len()
        invariant
            i <= windows.len(),
            ws_count == workspaces@.len(),
            forall|j: int|
                0 <= j < i ==> !spec_bad_window(
                    #[trigger] win_views(windows@)[j],
                    ws_count as int,
                ),
        decreases windows.len() - i,
    {
        match windows[i].workspace_id {
            Some(id) => {
                if id == 0 || id > ws_count as u64 {
                    proof {
                        lemma_first_bad_skip(win_views(windows@), ws_count as int, i as int);
                        let suffix = win_views(windows@).subrange(
                            i as int,
                            win_views(windows@).len() as int,
                        );
                        assert(suffix[0] == win_views(windows@)[i as int]);
                        assert(spec_bad_window(suffix[0], ws_count as int));
                    }
                    return Err(FlatCaptureError::WorkspaceOutOfBounds { workspace_id: id });
                }
            },
            None => {},
        }
        i = i + 1;
    }
    proof {
        lemma_first_bad_skip(win_views(windows@), ws_count as int, windows@.len() as int);
        assert(win_views(windows@).subrange(
            windows@.len() as int,
            win_views(windows@).len() as int,
        ) =~= Seq::<FlatWindowV>::empty());
    }
    let ghost orig_ws = ws_views(workspaces@);
    let sorted = sort_workspaces(workspaces);
    let mut out: Vec<Node> = Vec::new();
    let mut k: usize = 0;
    while k < sorted.len()
        invariant
            k <= sorted.len(),
            ws_views(sorted@) == sort_by_idx(orig_ws),
            out@.len() == k,
            forall|j: int|
                0 <= j < k ==> #[trigger] node_view(out@[j]) == flat_ws_node_spec(
                    ws_views(sorted@)[j],
                    j,
                    win_views(windows@),
                ),
        decreases sorted.len() - k,
    {
        let mut children: Vec<Node> = Vec::new();
        let mut i: usize = 0;
        let target: u64 = (k as u64) + 1;
        proof {
            assert(win_views(windows@).subrange(0, 0) =~= Seq::<FlatWindowV>::empty());
        }
        while i < windows.len()
            invariant
                i <= windows.len(),
                target == k + 1,
                tree_view(children@) == windows_for(
                    win_views(windows@).subrange(0, i as int),
                    target,
                ),
            decreases windows.len() - i,
        {
            let ghost pre = children@;
            let keep = match windows[i].workspace_id {
                Some(id) => id == target,
                None => false,
            };
            if keep {
                let n = Node {
                    name: None,
                    app_id: clone_opt_string(&windows[i].app_id),
                    node_type: NodeType::Con,
                    nodes: Vec::new(),
                    fullscreen_mode: None,
                    percent_bits: None,
                    desktop_entry: None,
                    exec_cmd: None,
                    layout: NodeLayout::Unknown,
                    retry: None,
                    timeout_ms: None,
                };
                proof {
                    assert(n@.nodes =~= Seq::<NodeV>::empty());
                    assert(n@ =~= win_node_spec(win_views(windows@)[i as int]));
                }
                children.push(n);
            }
            proof {
                let prefix = win_views(windows@).subrange(0, i + 1 as int);
                assert(prefix.subrange(0, prefix.len() - 1) =~= win_views(windows@).subrange(
                    0,
                    i as int,
                ));
                assert(prefix[prefix.len() - 1] == win_views(windows@)[i as int]);
                if keep {
                    crate::models::lemma_tree_view_snoc(pre, children@[children@.len() - 1]);
                }
                assert(tree_view(children@) =~= windows_for(prefix, target));
            }
            i = i + 1;
        }
        proof {
            assert(win_views(windows@).subrange(0, windows@.len() as int) =~= win_views(
                windows@,
            ));
        }
        let container = Node {
            name: None,
            app_id: None,
            node_type: NodeType::Con,
            nodes: children,
            fullscreen_mode: None,
            percent_bits: None,
            desktop_entry: None,
            exec_cmd: None,
            layout: NodeLayout::SplitH,
            retry: None,
            timeout_ms: None,
        };
        let name: String = match &sorted[k].name {
            Some(n) => n.clone(),
            None => u64_to_string(k as u64),
        };
        let mut inner: Vec<Node> = Vec::new();
        inner.push(container);
        let ws_node = Node {
            name: Some(name),
            app_id: None,
            node_type: NodeType::Workspace,
            nodes: inner,
            fullscreen_mode: None,
            percent_bits: None,
            desktop_entry: None,
            exec_cmd: None,
            layout: NodeLayout::Unknown,
            retry: None,
            timeout_ms: None,
        };
        proof {
            lemma_tree_view_pointwise(ws_node.nodes@);
            assert(node_view(ws_node).nodes =~= seq![
                container_spec(windows_for(win_views(windows@), target)),
            ]);
            assert(node_view(ws_node) =~= flat_ws_node_spec(
                ws_views(sorted@)[k as int],
                k as int,
                win_views(windows@),
            ));
        }
        out.push(ws_node);
        k = k + 1;
    }
    proof {
        lemma_tree_view_pointwise(out@);
        assert(tree_view(out@) =~= niri_tree_spec(ws_views(sorted@), win_views(windows@)));
    }
    Ok(out)
}

/// Every synthesized window node is well-formed: it carries no name.
proof fn lemma_windows_for_wf(wins: Seq<FlatWindowV>, id: u64)
    ensures
        forall|i: int|
            0 <= i < windows_for(wins, id).len() ==> (#[trigger] windows_for(wins, id)[i]).wf(),
    decreases wins.len(),
{
    if wins.len() > 0 {
        let shorter = wins.subrange(0, wins.len() - 1);
        lemma_windows_for_wf(shorter, id);
        assert forall|i: int| 0 <= i < windows_for(wins, id).len() implies (#[trigger] windows_for(
            wins,
            id,
        )[i]).wf() by {
            if i < windows_for(shorter, id).len() {
                assert(windows_for(wins, id)[i] == windows_for(shorter, id)[i]);
            } else {
                assert(windows_for(wins, id)[i] == win_node_spec(wins[wins.len() - 1]));
            }
        }
    }
}

/// Every workspace node the flat capture produces carries a name, and
/// the whole captured tree is well-formed.
pub proof fn lemma_flat_capture_named(sorted: Seq<FlatWorkspaceV>, wins: Seq<FlatWindowV>)
    ensures
        forall|k: int|
            0 <= k < niri_tree_spec(sorted, wins).len() ==> {
                &&& (#[trigger] niri_tree_spec(sorted, wins)[k]).name is Some
                &&& niri_tree_spec(sorted, wins)[k].node_type == NodeType::Workspace
                &&& niri_tree_spec(sorted, wins)[k].wf()
            },
{
    assert forall|k: int| 0 <= k < niri_tree_spec(sorted, wins).len() implies {
        &&& (#[trigger] niri_tree_spec(sorted, wins)[k]).name is Some
        &&& niri_tree_spec(sorted, wins)[k].node_type == NodeType::Workspace
        &&& niri_tree_spec(sorted, wins)[k].wf()
    } by {
        let node = niri_tree_spec(sorted, wins)[k];
        let container = container_spec(windows_for(wins, (k + 1) as u64));
        lemma_windows_for_wf(wins, (k + 1) as u64);
        assert(container.wf());
        assert(node.nodes[0] == container);
        assert(forall|i: int| 0 <= i < node.nodes.len() ==> (#[trigger] node.nodes[i]).wf());
        assert(node.wf());
    }
}

/// Counts the reported windows whose application identifier matches, in
/// the window list handed in.
pub open spec fn spec_count_flat(wins: Seq<FlatWindowV>, id: Seq<char>) -> nat
    decreases wins.len(),
{
    if wins.len() == 0 {
        0nat
    } else {
        spec_count_flat(wins.subrange(0, wins.len() - 1), id) + (if wins[wins.len() - 1].app_id
            == Some(id) {
            1nat
        } else {
            0nat
        })
    }
}

/// Counts the live windows whose application identifier matches, the
/// observable that confirms a spawn on the flat backend.
pub fn count_app_ids_flat(windows: &Vec<FlatWindow>, id: &str) -> (c: usize)
    ensures
        c as nat == spec_count_flat(win_views(windows@), id@),
{
    let mut c: usize = 0;
    let mut i: usize = 0;
    proof {
        assert(win_views(windows@).subrange(0, 0) =~= Seq::<FlatWindowV>::empty());
    }
    while i < windows.len()
        invariant
            i <= windows.len(),
            c <= i,
            c as nat == spec_count_flat(win_views(windows@).subrange(0, i as int), id@),
        decreases windows.len() - i,
    {
        let matches_id = match &windows[i].app_id {
            Some(a) => str_eq(a.as_str(), id),
            None => false,
        };
        if matches_id {
            c = c + 1;
        }
        proof {
            let prefix = win_views(windows@).subrange(0, i + 1 as int);
            assert(prefix.subrange(0, prefix.len() - 1) =~= win_views(windows@).subrange(
                0,
                i as int,
            ));
            assert(prefix[prefix.len() - 1] == win_views(windows@)[i as int]);
        }
        i = i + 1;
    }
    proof {
        assert(win_views(windows@).subrange(0, windows@.len() as int) =~= win_views(windows@));
    }
    c
}

} // verus!
