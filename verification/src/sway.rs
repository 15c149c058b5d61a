//! The rich-tree backend: capture from a compositor that reports a full
//! container tree with explicit kinds and layouts.
//!
//! The live tree arrives as [`RawNode`]s: a plain mirror of what the
//! compositor reports, one entry per native node, with the native kind
//! and layout as their wire names.  Everything decided about that tree —
//! which workspaces are kept, how native kinds and layouts fold onto the
//! portable enumerations, which windows a scoped clear kills — happens
//! here, in verified code.

use vstd::prelude::*;

use crate::models::Node;
use crate::models::NodeLayout;
use crate::models::NodeType;
use crate::models::NodeV;
use crate::models::lemma_tree_view_pointwise;
use crate::models::node_view;
use crate::models::opt_view;
use crate::models::tree_view;
use crate::strings::str_eq;

verus! {

/// The reserved holding workspace some compositors keep off screen; it
/// is compositor bookkeeping, never user layout, and is excluded from
/// capture and clearing.
pub open spec fn scratchpad_name() -> Seq<char> {
    "__i3_scratch"@
}

/// One node of the live tree as the compositor reports it, reduced to
/// plain values: the native kind and layout keep their wire names, and
/// `cmdline` carries the launch command the caller recovered from the
/// process table for `pid`, where that succeeded.
#[derive(Debug, PartialEq)]
pub struct RawNode {
    pub id: u64,
    pub name: Option<String>,
    pub kind: String,
    pub layout: String,
    pub app_id: Option<String>,
    pub pid: Option<i32>,
    pub cmdline: Option<String>,
    pub fullscreen_mode: Option<u8>,
    pub percent_bits: Option<u64>,
    pub nodes: Vec<RawNode>,
}

/// The mathematical model of a [`RawNode`].
#[verifier::ext_equal]
pub ghost struct RawNodeV {
    pub id: u64,
    pub name: Option<Seq<char>>,
    pub kind: Seq<char>,
    pub layout: Seq<char>,
    pub app_id: Option<Seq<char>>,
    pub pid: Option<i32>,
    pub cmdline: Option<Seq<char>>,
    pub fullscreen_mode: Option<u8>,
    pub percent_bits: Option<u64>,
    pub nodes: Seq<RawNodeV>,
}

/// Model of a raw node, children included.
pub open spec fn raw_view(r: RawNode) -> RawNodeV
    decreases r,
{
    RawNodeV {
        id: r.id,
        name: opt_view(r.name),
        kind: r.kind@,
        layout: r.layout@,
        app_id: opt_view(r.app_id),
        pid: r.pid,
        cmdline: opt_view(r.cmdline),
        fullscreen_mode: r.fullscreen_mode,
        percent_bits: r.percent_bits,
        nodes: raws_view(r.nodes@),
    }
}

/// Model of a sequence of sibling raw nodes.
pub open spec fn raws_view(t: Seq<RawNode>) -> Seq<RawNodeV>
    decreases t,
{
    if t.len() == 0 {
        Seq::empty()
    } else {
        seq![raw_view(t[0])] + raws_view(t.subrange(1, t.len() as int))
    }
}

/// `raws_view` maps `raw_view` over the sequence, element by element.
pub broadcast proof fn lemma_raws_view_pointwise(t: Seq<RawNode>)
    ensures
        (#[trigger] raws_view(t)).len() == t.len(),
        forall|i: int| 0 <= i < t.len() ==> #[trigger] raws_view(t)[i] == raw_view(t[i]),
    decreases t.len(),
{
    if t.len() > 0 {
        lemma_raws_view_pointwise(t.subrange(1, t.len() as int));
        assert forall|i: int| 0 <= i < t.len() implies #[trigger] raws_view(t)[i] == raw_view(
            t[i],
        ) by {
            if i > 0 {
                assert(raws_view(t)[i] == raws_view(t.subrange(1, t.len() as int))[i - 1]);
                assert(t.subrange(1, t.len() as int)[i - 1] == t[i]);
            }
        }
    }
}

impl View for RawNode {
    type V = RawNodeV;

    open spec fn view(&self) -> RawNodeV {
        raw_view(*self)
    }
}

/// Which portable kind a native kind name denotes.  Any name outside the
/// recognized enumeration folds to `Unknown`; none is ever rejected.
pub open spec fn spec_kind_of_name(s: Seq<char>) -> NodeType {
    if s == "root"@ {
        NodeType::Root
    } else if s == "output"@ {
        NodeType::Output
    } else if s == "workspace"@ {
        NodeType::Workspace
    } else if s == "con"@ {
        NodeType::Con
    } else if s == "floating_con"@ {
        NodeType::FloatingCon
    } else if s == "dockarea"@ {
        NodeType::Dockarea
    } else {
        NodeType::Unknown
    }
}

/// Which portable layout a native layout name denotes; any other name
/// folds to `Unknown`, never to an error.
pub open spec fn spec_layout_of_name(s: Seq<char>) -> NodeLayout {
    if s == "splith"@ {
        NodeLayout::SplitH
    } else if s == "splitv"@ {
        NodeLayout::SplitV
    } else if s == "stacked"@ {
        NodeLayout::Stacked
    } else if s == "tabbed"@ {
        NodeLayout::Tabbed
    } else if s == "output"@ {
        NodeLayout::Output
    } else if s == "dockarea"@ {
        NodeLayout::Dockarea
    } else if s == "none"@ {
        NodeLayout::NoLayout
    } else {
        NodeLayout::Unknown
    }
}

/// A native kind name outside the recognized enumeration always folds to
/// `Unknown`; folding never fails.
pub proof fn lemma_kind_folds_to_unknown(s: Seq<char>)
    requires
        s != "root"@,
        s != "output"@,
        s != "workspace"@,
        s != "con"@,
        s != "floating_con"@,
        s != "dockarea"@,
    ensures
        spec_kind_of_name(s) == NodeType::Unknown,
{
}

/// A native layout name outside the recognized enumeration always folds
/// to `Unknown`; folding never fails.
pub proof fn lemma_layout_folds_to_unknown(s: Seq<char>)
    requires
        s != "splith"@,
        s != "splitv"@,
        s != "stacked"@,
        s != "tabbed"@,
        s != "output"@,
        s != "dockarea"@,
        s != "none"@,
    ensures
        spec_layout_of_name(s) == NodeLayout::Unknown,
{
}

/// Folds a native kind name onto the portable enumeration.
pub fn kind_of_name(s: &str) -> (r: NodeType)
    ensures
        r == spec_kind_of_name(s@),
{
    if str_eq(s, "root") {
        NodeType::Root
    } else if str_eq(s, "output") {
        NodeType::Output
    } else if str_eq(s, "workspace") {
        NodeType::Workspace
    } else if str_eq(s, "con") {
        NodeType::Con
    } else if str_eq(s, "floating_con") {
        NodeType::FloatingCon
    } else if str_eq(s, "dockarea") {
        NodeType::Dockarea
    } else {
        NodeType::Unknown
    }
}

/// Folds a native layout name onto the portable enumeration.
pub fn layout_of_name(s: &str) -> (r: NodeLayout)
    ensures
        r == spec_layout_of_name(s@),
{
    if str_eq(s, "splith") {
        NodeLayout::SplitH
    } else if str_eq(s, "splitv") {
        NodeLayout::SplitV
    } else if str_eq(s, "stacked") {
        NodeLayout::Stacked
    } else if str_eq(s, "tabbed") {
        NodeLayout::Tabbed
    } else if str_eq(s, "output") {
        NodeLayout::Output
    } else if str_eq(s, "dockarea") {
        NodeLayout::Dockarea
    } else if str_eq(s, "none") {
        NodeLayout::NoLayout
    } else {
        NodeLayout::Unknown
    }
}

/// How one native node maps onto the portable tree: the kind and layout
/// fold onto the enumerations, the name is kept only on workspaces, and
/// the recovered launch command is kept only where a process was known.
pub open spec fn map_raw_spec(r: RawNodeV) -> NodeV
    decreases r,
{
    NodeV {
        name: if spec_kind_of_name(r.kind) == NodeType::Workspace {
            r.name
        } else {
            None
        },
        app_id: r.app_id,
        node_type: spec_kind_of_name(r.kind),
        nodes: map_raw_all(r.nodes),
        fullscreen_mode: r.fullscreen_mode,
        percent_bits: r.percent_bits,
        desktop_entry: None,
        exec_cmd: if r.pid is Some {
            r.cmdline
        } else {
            None
        },
        layout: spec_layout_of_name(r.layout),
        retry: None,
        timeout_ms: None,
    }
}

/// How a sequence of sibling native nodes maps onto the portable tree.
pub open spec fn map_raw_all(t: Seq<RawNodeV>) -> Seq<NodeV>
    decreases t,
{
    if t.len() == 0 {
        Seq::empty()
    } else {
        seq![map_raw_spec(t[0])] + map_raw_all(t.subrange(1, t.len() as int))
    }
}

/// `map_raw_all` maps `map_raw_spec` over the sequence.
pub broadcast proof fn lemma_map_raw_all_pointwise(t: Seq<RawNodeV>)
    ensures
        (#[trigger] map_raw_all(t)).len() == t.len(),
        forall|i: int| 0 <= i < t.len() ==> #[trigger] map_raw_all(t)[i] == map_raw_spec(t[i]),
    decreases t.len(),
{
    if t.len() > 0 {
        lemma_map_raw_all_pointwise(t.subrange(1, t.len() as int));
        assert forall|i: int| 0 <= i < t.len() implies #[trigger] map_raw_all(t)[i]
            == map_raw_spec(t[i]) by {
            if i > 0 {
                assert(map_raw_all(t)[i] == map_raw_all(t.subrange(1, t.len() as int))[i - 1]);
                assert(t.subrange(1, t.len() as int)[i - 1] == t[i]);
            }
        }
    }
}

/// Mirrors one native node into the portable tree.
pub fn map_raw(r: &RawNode) -> (n: Node)
    ensures
        n@ == map_raw_spec(r@),
    decreases *r,
{
    let mut children: Vec<Node> = Vec::new();
    let mut i: usize = 0;
    while i < r.nodes.len()
        invariant
            i <= r.nodes.len(),
            children@.len() == i,
            forall|j: int|
                0 <= j < i ==> #[trigger] node_view(children@[j]) == map_raw_spec(
                    raw_view(r.nodes@[j]),
                ),
        decreases r.nodes.len() - i,
    {
        let child = map_raw(&r.nodes[i]);
        children.push(child);
        i = i + 1;
    }
    let kind = kind_of_name(r.kind.as_str());
    let n = Node {
        name: if kind == NodeType::Workspace {
            crate::strings::clone_opt_string(&r.name)
        } else {
            None
        },
        app_id: crate::strings::clone_opt_string(&r.app_id),
        node_type: kind,
        nodes: children,
        fullscreen_mode: r.fullscreen_mode,
        percent_bits: r.percent_bits,
        desktop_entry: None,
        exec_cmd: if r.pid.is_some() {
            crate::strings::clone_opt_string(&r.cmdline)
        } else {
            None
        },
        layout: layout_of_name(r.layout.as_str()),
        retry: None,
        timeout_ms: None,
    };
    proof {
        lemma_raws_view_pointwise(r.nodes@);
        lemma_map_raw_all_pointwise(raws_view(r.nodes@));
        lemma_tree_view_pointwise(n.nodes@);
        assert(tree_view(n.nodes@) =~= map_raw_all(raws_view(r.nodes@)));
        assert(n@ =~= map_raw_spec(r@));
    }
    n
}

/// Mirroring keeps the tree invariant: a mapped node carries a name
/// only when it is a workspace, and so do all its descendants.
pub proof fn lemma_map_raw_wf(r: RawNodeV)
    ensures
        map_raw_spec(r).wf(),
    decreases r,
{
    lemma_map_raw_all_pointwise(r.nodes);
    assert forall|i: int| 0 <= i < map_raw_spec(r).nodes.len() implies (#[trigger] map_raw_spec(
        r,
    ).nodes[i]).wf() by {
        assert(map_raw_spec(r).nodes[i] == map_raw_spec(r.nodes[i]));
        lemma_map_raw_wf(r.nodes[i]);
    }
}

/// Whether capture keeps this native node as a workspace: it must be a
/// workspace, carry a name, and not be the reserved scratchpad.
pub open spec fn spec_kept_workspace(r: RawNodeV) -> bool {
    &&& spec_kind_of_name(r.kind) == NodeType::Workspace
    &&& r.name is Some
    &&& r.name != Some(scratchpad_name())
}

pub fn kept_workspace(r: &RawNode) -> (b: bool)
    ensures
        b == spec_kept_workspace(r@),
{
    if !matches!(kind_of_name(r.kind.as_str()), NodeType::Workspace) {
        return false;
    }
    match &r.name {
        Some(n) => !str_eq(n.as_str(), "__i3_scratch"),
        None => false,
    }
}

/// Every workspace that capture keeps out of this native node and its
/// descendants, mirrored into the portable tree, in the order the
/// compositor reports them.
pub open spec fn capture_from(r: RawNodeV) -> Seq<NodeV>
    decreases r,
{
    (if spec_kept_workspace(r) {
        seq![map_raw_spec(r)]
    } else {
        Seq::empty()
    }) + capture_from_all(r.nodes)
}

/// The workspaces captured from a sequence of sibling native nodes.
pub open spec fn capture_from_all(t: Seq<RawNodeV>) -> Seq<NodeV>
    decreases t,
{
    if t.len() == 0 {
        Seq::empty()
    } else {
        capture_from(t[0]) + capture_from_all(t.subrange(1, t.len() as int))
    }
}

fn capture_into(r: &RawNode, out: &mut Vec<Node>)
    ensures
        tree_view(final(out)@) == tree_view(old(out)@) + capture_from(r@),
    decreases *r,
{
    if kept_workspace(r) {
        let n = map_raw(r);
        out.push(n);
        proof {
            lemma_tree_view_pointwise(old(out)@);
            lemma_tree_view_pointwise(out@);
            assert(tree_view(out@) =~= tree_view(old(out)@) + seq![map_raw_spec(r@)]);
        }
    }
    let ghost mid = out@;
    let mut i: usize = 0;
    while i < r.nodes.len()
        invariant
            i <= r.nodes.len(),
            tree_view(out@) == tree_view(mid) + capture_from_all(
                raws_view(r.nodes@).subrange(0, i as int),
            ),
        decreases r.nodes.len() - i,
    {
        proof {
            lemma_raws_view_pointwise(r.nodes@);
        }
        capture_into(&r.nodes[i], out);
        proof {
            lemma_capture_from_all_snoc(raws_view(r.nodes@).subrange(0, i as int), raw_view(r.nodes@[i as int]));
            assert(raws_view(r.nodes@).subrange(0, i + 1 as int) =~= raws_view(
                r.nodes@,
            ).subrange(0, i as int).push(raw_view(r.nodes@[i as int])));
        }
        i = i + 1;
    }
    proof {
        lemma_raws_view_pointwise(r.nodes@);
        assert(raws_view(r.nodes@).subrange(0, r.nodes@.len() as int) =~= raws_view(r.nodes@));
        if spec_kept_workspace(r@) {
            assert(tree_view(mid) =~= tree_view(old(out)@) + seq![map_raw_spec(r@)]);
            assert(tree_view(out@) =~= tree_view(old(out)@) + capture_from(r@));
        } else {
            assert(tree_view(out@) =~= tree_view(old(out)@) + capture_from(r@));
        }
    }
}

/// Capturing from one more sibling appends exactly its workspaces.
proof fn lemma_capture_from_all_snoc(t: Seq<RawNodeV>, r: RawNodeV)
    ensures
        capture_from_all(t.push(r)) == capture_from_all(t) + capture_from(r),
    decreases t.len(),
{
    let whole = t.push(r);
    if t.len() == 0 {
        assert(whole[0] == r);
        assert(whole.subrange(1, whole.len() as int) =~= Seq::<RawNodeV>::empty());
        assert(capture_from_all(whole) == capture_from(whole[0]) + capture_from_all(
            whole.subrange(1, whole.len() as int),
        ));
        assert(capture_from_all(whole.subrange(1, whole.len() as int)) == Seq::<NodeV>::empty());
        assert(capture_from_all(whole) =~= capture_from_all(t) + capture_from(r));
    } else {
        assert(whole[0] == t[0]);
        assert(whole.subrange(1, whole.len() as int) =~= t.subrange(1, t.len() as int).push(r));
        lemma_capture_from_all_snoc(t.subrange(1, t.len() as int), r);
        assert(capture_from_all(whole) == capture_from(t[0]) + (capture_from_all(
            t.subrange(1, t.len() as int),
        ) + capture_from(r)));
        assert(capture_from_all(t) == capture_from(t[0]) + capture_from_all(
            t.subrange(1, t.len() as int),
        ));
        assert(capture_from_all(whole) =~= capture_from_all(t) + capture_from(r));
    }
}

/// Captures the current session from the live tree: every named, kept
/// workspace, mirrored with its windows, in the compositor's order.
pub fn sway_capture(root: &RawNode) -> (t: Vec<Node>)
    ensures
        tree_view(t@) == capture_from(root@),
{
    let mut out: Vec<Node> = Vec::new();
    proof {
        assert(tree_view(out@) =~= Seq::<NodeV>::empty());
    }
    capture_into(root, &mut out);
    proof {
        assert(tree_view(out@) =~= capture_from(root@));
    }
    out
}

/// The filtering invariant: no captured workspace is unnamed, none is
/// the reserved scratchpad, and every captured node is a well-formed
/// workspace.
pub proof fn lemma_capture_filters(r: RawNodeV)
    ensures
        forall|i: int|
            0 <= i < capture_from(r).len() ==> {
                &&& (#[trigger] capture_from(r)[i]).name is Some
                &&& capture_from(r)[i].name != Some(scratchpad_name())
                &&& capture_from(r)[i].node_type == NodeType::Workspace
                &&& capture_from(r)[i].wf()
            },
    decreases r,
{
    lemma_capture_filters_all(r.nodes);
    if spec_kept_workspace(r) {
        assert(capture_from(r)[0] == map_raw_spec(r));
    }
    assert forall|i: int| 0 <= i < capture_from(r).len() implies {
        &&& (#[trigger] capture_from(r)[i]).name is Some
        &&& capture_from(r)[i].name != Some(scratchpad_name())
        &&& capture_from(r)[i].node_type == NodeType::Workspace
        &&& capture_from(r)[i].wf()
    } by {
        let head: Seq<NodeV> = if spec_kept_workspace(r) {
            seq![map_raw_spec(r)]
        } else {
            Seq::empty()
        };
        if i >= head.len() {
            assert(capture_from(r)[i] == capture_from_all(r.nodes)[i - head.len()]);
        } else {
            lemma_map_raw_wf(r);
        }
    }
}

/// The filtering invariant over a sequence of sibling native nodes.
proof fn lemma_capture_filters_all(t: Seq<RawNodeV>)
    ensures
        forall|i: int|
            0 <= i < capture_from_all(t).len() ==> {
                &&& (#[trigger] capture_from_all(t)[i]).name is Some
                &&& capture_from_all(t)[i].name != Some(scratchpad_name())
                &&& capture_from_all(t)[i].node_type == NodeType::Workspace
                &&& capture_from_all(t)[i].wf()
            },
    decreases t,
{
    if t.len() > 0 {
        lemma_capture_filters(t[0]);
        lemma_capture_filters_all(t.subrange(1, t.len() as int));
        assert forall|i: int| 0 <= i < capture_from_all(t).len() implies {
            &&& (#[trigger] capture_from_all(t)[i]).name is Some
            &&& capture_from_all(t)[i].name != Some(scratchpad_name())
            &&& capture_from_all(t)[i].node_type == NodeType::Workspace
            &&& capture_from_all(t)[i].wf()
        } by {
            if i >= capture_from(t[0]).len() {
                assert(capture_from_all(t)[i] == capture_from_all(
                    t.subrange(1, t.len() as int),
                )[i - capture_from(t[0]).len()]);
            }
        }
    }
}

/// How many windows under this native node carry the given application
/// identifier (the node itself included).
pub open spec fn spec_count_app_ids(r: RawNodeV, id: Seq<char>) -> nat
    decreases r,
{
    (if r.app_id == Some(id) {
        1nat
    } else {
        0nat
    }) + spec_count_app_ids_all(r.nodes, id)
}

/// The same count over a sequence of sibling native nodes.
pub open spec fn spec_count_app_ids_all(t: Seq<RawNodeV>, id: Seq<char>) -> nat
    decreases t,
{
    if t.len() == 0 {
        0nat
    } else {
        spec_count_app_ids(t[0], id) + spec_count_app_ids_all(t.subrange(1, t.len() as int), id)
    }
}

/// Counting one more sibling adds exactly its count.
proof fn lemma_count_all_snoc(t: Seq<RawNodeV>, r: RawNodeV, id: Seq<char>)
    ensures
        spec_count_app_ids_all(t.push(r), id) == spec_count_app_ids_all(t, id)
            + spec_count_app_ids(r, id),
    decreases t.len(),
{
    let whole = t.push(r);
    if t.len() == 0 {
        assert(whole[0] == r);
        assert(whole.subrange(1, whole.len() as int) =~= Seq::<RawNodeV>::empty());
        assert(spec_count_app_ids_all(whole, id) == spec_count_app_ids(r, id)
            + spec_count_app_ids_all(whole.subrange(1, whole.len() as int), id));
    } else {
        assert(whole[0] == t[0]);
        assert(whole.subrange(1, whole.len() as int) =~= t.subrange(1, t.len() as int).push(r));
        lemma_count_all_snoc(t.subrange(1, t.len() as int), r, id);
        assert(spec_count_app_ids_all(whole, id) == spec_count_app_ids(t[0], id)
            + spec_count_app_ids_all(whole.subrange(1, whole.len() as int), id));
        assert(spec_count_app_ids_all(t, id) == spec_count_app_ids(t[0], id)
            + spec_count_app_ids_all(t.subrange(1, t.len() as int), id));
    }
}

/// Counts the live windows under this native node whose application
/// identifier matches, the observable that confirms a spawn.  A count
/// beyond the range of the result saturates, it never wraps.
pub fn count_app_ids(r: &RawNode, id: &str) -> (c: u64)
    ensures
        c as nat == if spec_count_app_ids(r@, id@) <= u64::MAX as nat {
            spec_count_app_ids(r@, id@)
        } else {
            u64::MAX as nat
        },
    decreases *r,
{
    let mut c: u64 = 0;
    match &r.app_id {
        Some(a) => {
            if str_eq(a.as_str(), id) {
                c = 1;
            }
        },
        None => {},
    }
    let mut i: usize = 0;
    while i < r.nodes.len()
        invariant
            i <= r.nodes.len(),
            c as nat == if (if r@.app_id == Some(id@) {
                1nat
            } else {
                0nat
            }) + spec_count_app_ids_all(raws_view(r.nodes@).subrange(0, i as int), id@)
                <= u64::MAX as nat {
                (if r@.app_id == Some(id@) {
                    1nat
                } else {
                    0nat
                }) + spec_count_app_ids_all(raws_view(r.nodes@).subrange(0, i as int), id@)
            } else {
                u64::MAX as nat
            },
        decreases r.nodes.len() - i,
    {
        proof {
            lemma_raws_view_pointwise(r.nodes@);
        }
        let sub = count_app_ids(&r.nodes[i], id);
        if sub <= u64::MAX - c {
            c = c + sub;
        } else {
            c = u64::MAX;
        }
        proof {
            lemma_count_all_snoc(
                raws_view(r.nodes@).subrange(0, i as int),
                raw_view(r.nodes@[i as int]),
                id@,
            );
            assert(raws_view(r.nodes@).subrange(0, i + 1 as int) =~= raws_view(
                r.nodes@,
            ).subrange(0, i as int).push(raw_view(r.nodes@[i as int])));
        }
        i = i + 1;
    }
    proof {
        lemma_raws_view_pointwise(r.nodes@);
        assert(raws_view(r.nodes@).subrange(0, r.nodes@.len() as int) =~= raws_view(r.nodes@));
    }
    c
}

} // verus!
