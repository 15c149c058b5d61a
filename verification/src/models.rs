//! The portable session tree: one backend-agnostic representation of
//! workspaces, containers and windows, together with its ghost model.

use vstd::prelude::*;

verus! {

/// Structural role of a node in the session tree.
///
/// `Unknown` is the wire default: a native kind outside this enumeration
/// folds to it instead of being rejected, so forward-compatible documents
/// round-trip without loss.
#[derive(Clone, Copy, Debug, PartialEq, Eq, Structural)]
pub enum NodeType {
    Root,
    Output,
    Workspace,
    Con,
    FloatingCon,
    Dockarea,
    Unknown,
}

/// Arrangement policy a container applies to its children.
///
/// Only meaningful on a node with children; `Unknown` is the wire default,
/// as for [`NodeType`].
#[derive(Clone, Copy, Debug, PartialEq, Eq, Structural)]
pub enum NodeLayout {
    SplitH,
    SplitV,
    Stacked,
    Tabbed,
    Output,
    Dockarea,
    NoLayout,
    Unknown,
}

impl Default for NodeType {
    /// The wire default of the structural kind.
    fn default() -> (r: Self)
        ensures
            r == NodeType::Unknown,
    {
        NodeType::Unknown
    }
}

impl Default for NodeLayout {
    /// The wire default of the layout.
    fn default() -> (r: Self)
        ensures
            r == NodeLayout::Unknown,
    {
        NodeLayout::Unknown
    }
}

impl NodeType {
    /// Whether this kind labels a window (a plain container leaf), which
    /// the persisted document leaves implicit.
    pub open spec fn spec_is_window(&self) -> bool {
        *self == NodeType::Con || *self == NodeType::FloatingCon
    }

    #[verifier::when_used_as_spec(spec_is_window)]
    pub fn is_window(&self) -> (r: bool)
        ensures
            r == self.spec_is_window(),
    {
        matches!(self, NodeType::Con | NodeType::FloatingCon)
    }
}

impl NodeLayout {
    /// Whether this layout says nothing, so the persisted document omits it.
    pub open spec fn spec_is_none(&self) -> bool {
        *self == NodeLayout::Unknown || *self == NodeLayout::NoLayout
    }

    #[verifier::when_used_as_spec(spec_is_none)]
    pub fn is_none(&self) -> (r: bool)
        ensures
            r == self.spec_is_none(),
    {
        matches!(self, NodeLayout::Unknown | NodeLayout::NoLayout)
    }
}

impl NodeType {
    /// The kind's wire name, as logs and the stored document spell it.
    pub fn name(&self) -> (r: String)
        ensures
            r@ == self.spec_name(),
    {
        match self {
            NodeType::Root => String::from_str("root"),
            NodeType::Output => String::from_str("output"),
            NodeType::Workspace => String::from_str("workspace"),
            NodeType::Con => String::from_str("con"),
            NodeType::FloatingCon => String::from_str("floating_con"),
            NodeType::Dockarea => String::from_str("dockarea"),
            NodeType::Unknown => String::from_str("unknown"),
        }
    }

    /// The kind's wire name.
    pub open spec fn spec_name(&self) -> Seq<char> {
        match self {
            NodeType::Root => "root"@,
            NodeType::Output => "output"@,
            NodeType::Workspace => "workspace"@,
            NodeType::Con => "con"@,
            NodeType::FloatingCon => "floating_con"@,
            NodeType::Dockarea => "dockarea"@,
            NodeType::Unknown => "unknown"@,
        }
    }
}

impl NodeLayout {
    /// The layout's wire name, as logs and the stored document spell it.
    pub fn name(&self) -> (r: String)
        ensures
            r@ == self.spec_name(),
    {
        match self {
            NodeLayout::SplitH => String::from_str("splith"),
            NodeLayout::SplitV => String::from_str("splitv"),
            NodeLayout::Stacked => String::from_str("stacked"),
            NodeLayout::Tabbed => String::from_str("tabbed"),
            NodeLayout::Output => String::from_str("output"),
            NodeLayout::Dockarea => String::from_str("dockarea"),
            NodeLayout::NoLayout => String::from_str("none"),
            NodeLayout::Unknown => String::from_str("unknown"),
        }
    }

    /// The layout's wire name.
    pub open spec fn spec_name(&self) -> Seq<char> {
        match self {
            NodeLayout::SplitH => "splith"@,
            NodeLayout::SplitV => "splitv"@,
            NodeLayout::Stacked => "stacked"@,
            NodeLayout::Tabbed => "tabbed"@,
            NodeLayout::Output => "output"@,
            NodeLayout::Dockarea => "dockarea"@,
            NodeLayout::NoLayout => "none"@,
            NodeLayout::Unknown => "unknown"@,
        }
    }
}

/// Whether an optional fullscreen flag carries no information, so the
/// persisted document omits it.
pub open spec fn spec_none_or_zero_u8(opt: &Option<u8>) -> bool {
    *opt == Option::<u8>::None || *opt == Some(0u8)
}

#[verifier::when_used_as_spec(spec_none_or_zero_u8)]
pub fn none_or_zero_u8(opt: &Option<u8>) -> (r: bool)
    ensures
        r == spec_none_or_zero_u8(opt),
{
    matches!(opt, None | Some(0))
}

/// One entry of the session tree.
///
/// `percent_bits` carries the native size fraction as the raw bits of the
/// compositor's double-precision value: the tree logic never interprets
/// it, it is only preserved through capture and persistence.
/// `timeout_ms` is the per-node override of the spawn-confirmation wait;
/// a node without one falls back to [`crate::consts::MAX_WAIT_MS`].
#[derive(Debug, PartialEq)]
pub struct Node {
    pub name: Option<String>,
    pub app_id: Option<String>,
    pub node_type: NodeType,
    pub nodes: Vec<Node>,
    pub fullscreen_mode: Option<u8>,
    pub percent_bits: Option<u64>,
    pub desktop_entry: Option<String>,
    pub exec_cmd: Option<String>,
    pub layout: NodeLayout,
    pub retry: Option<u8>,
    pub timeout_ms: Option<u64>,
}

/// The mathematical model of a [`Node`]: the same fields with strings as
/// character sequences and children as a `Seq`.
#[verifier::ext_equal]
pub ghost struct NodeV {
    pub name: Option<Seq<char>>,
    pub app_id: Option<Seq<char>>,
    pub node_type: NodeType,
    pub nodes: Seq<NodeV>,
    pub fullscreen_mode: Option<u8>,
    pub percent_bits: Option<u64>,
    pub desktop_entry: Option<Seq<char>>,
    pub exec_cmd: Option<Seq<char>>,
    pub layout: NodeLayout,
    pub retry: Option<u8>,
    pub timeout_ms: Option<u64>,
}

/// Model of an optional string.
pub open spec fn opt_view(o: Option<String>) -> Option<Seq<char>> {
    match o {
        Some(s) => Some(s@),
        None => None,
    }
}

/// Model of a node, children included.
pub open spec fn node_view(n: Node) -> NodeV
    decreases n,
{
    NodeV {
        name: opt_view(n.name),
        app_id: opt_view(n.app_id),
        node_type: n.node_type,
        nodes: tree_view(n.nodes@),
        fullscreen_mode: n.fullscreen_mode,
        percent_bits: n.percent_bits,
        desktop_entry: opt_view(n.desktop_entry),
        exec_cmd: opt_view(n.exec_cmd),
        layout: n.layout,
        retry: n.retry,
        timeout_ms: n.timeout_ms,
    }
}

/// Model of a sequence of sibling nodes, and of a whole session: the
/// top-level workspace nodes in order.
pub open spec fn tree_view(t: Seq<Node>) -> Seq<NodeV>
    decreases t,
{
    if t.len() == 0 {
        Seq::empty()
    } else {
        seq![node_view(t[0])] + tree_view(t.subrange(1, t.len() as int))
    }
}

/// `tree_view` maps `node_view` over the sequence, element by element.
pub broadcast proof fn lemma_tree_view_pointwise(t: Seq<Node>)
    ensures
        (#[trigger] tree_view(t)).len() == t.len(),
        forall|i: int| 0 <= i < t.len() ==> #[trigger] tree_view(t)[i] == node_view(t[i]),
    decreases t.len(),
{
    if t.len() > 0 {
        lemma_tree_view_pointwise(t.subrange(1, t.len() as int));
        assert forall|i: int| 0 <= i < t.len() implies #[trigger] tree_view(t)[i] == node_view(
            t[i],
        ) by {
            if i > 0 {
                assert(tree_view(t)[i] == tree_view(t.subrange(1, t.len() as int))[i - 1]);
                assert(t.subrange(1, t.len() as int)[i - 1] == t[i]);
            }
        }
    }
}

/// Viewing one more sibling appends exactly its model.
pub broadcast proof fn lemma_tree_view_snoc(t: Seq<Node>, n: Node)
    ensures
        #[trigger] tree_view(t.push(n)) == tree_view(t).push(node_view(n)),
{
    let whole = t.push(n);
    lemma_tree_view_pointwise(whole);
    lemma_tree_view_pointwise(t);
    assert forall|i: int| 0 <= i < whole.len() implies #[trigger] tree_view(whole)[i]
        == tree_view(t).push(node_view(n))[i] by {
        if i < t.len() {
            assert(whole[i] == t[i]);
        } else {
            assert(whole[i] == n);
        }
    }
    assert(tree_view(whole) =~= tree_view(t).push(node_view(n)));
}

impl View for Node {
    type V = NodeV;

    open spec fn view(&self) -> NodeV {
        node_view(*self)
    }
}

impl NodeV {
    /// The model of a node all of whose fields hold their wire defaults.
    pub open spec fn empty() -> NodeV {
        NodeV {
            name: None,
            app_id: None,
            node_type: NodeType::Unknown,
            nodes: Seq::empty(),
            fullscreen_mode: None,
            percent_bits: None,
            desktop_entry: None,
            exec_cmd: None,
            layout: NodeLayout::Unknown,
            retry: None,
            timeout_ms: None,
        }
    }

    /// A node may carry a name only when it is a workspace; this holds
    /// recursively of every node of a well-formed tree.
    pub open spec fn wf(self) -> bool
        decreases self,
    {
        &&& (self.name is Some ==> self.node_type == NodeType::Workspace)
        &&& forall|i: int|
            0 <= i < self.nodes.len() ==> (#[trigger] self.nodes[i]).wf()
    }
}

/// A well-formed node's children are each well-formed.
pub proof fn lemma_wf_children(v: NodeV)
    requires
        v.wf(),
    ensures
        forall|i: int| 0 <= i < v.nodes.len() ==> #[trigger] v.nodes[i].wf(),
{
}

impl Default for Node {
    /// A node all of whose fields hold their wire defaults.
    fn default() -> (r: Self)
        ensures
            r@ == NodeV::empty(),
    {
        let r = Node {
            name: None,
            app_id: None,
            node_type: NodeType::Unknown,
            nodes: Vec::new(),
            fullscreen_mode: None,
            percent_bits: None,
            desktop_entry: None,
            exec_cmd: None,
            layout: NodeLayout::Unknown,
            retry: None,
            timeout_ms: None,
        };
        proof {
            assert(r@.nodes =~= Seq::<NodeV>::empty());
            assert(r@ =~= NodeV::empty());
        }
        r
    }
}

} // verus!
