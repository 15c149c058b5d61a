//! The persisted form of the session tree.
//!
//! A tree is stored as a structured text document of named fields in
//! which every field whose value says nothing is omitted, and every
//! omitted field comes back as its documented default.  [`Record`] is
//! that document, one level above the text encoding: each field is
//! present or absent, and [`to_record`] / [`from_record`] carry the
//! omission and defaulting rules.  Composing the two folds a tree onto
//! its persisted normal form, [`persist_normal`], which is idempotent:
//! storing a loaded tree again changes nothing.

use vstd::prelude::*;

use crate::consts::MAX_WAIT_MS;
use crate::models::Node;
use crate::models::NodeLayout;
use crate::models::NodeType;
use crate::models::NodeV;
use crate::models::lemma_tree_view_pointwise;
use crate::models::node_view;
use crate::models::none_or_zero_u8;
use crate::models::spec_none_or_zero_u8;
use crate::models::opt_view;
use crate::models::tree_view;

verus! {

/// One node of the persisted document: every field optional, in the
/// sense of present or omitted.  An empty `nodes` is what an omitted
/// child list deserializes to, so emptiness itself encodes omission.
#[derive(Debug, PartialEq)]
pub struct Record {
    pub name: Option<String>,
    pub app_id: Option<String>,
    pub node_type: Option<NodeType>,
    pub nodes: Vec<Record>,
    pub fullscreen_mode: Option<u8>,
    pub percent_bits: Option<u64>,
    pub desktop_entry: Option<String>,
    pub exec_cmd: Option<String>,
    pub layout: Option<NodeLayout>,
    pub retry: Option<u8>,
    pub timeout_ms: Option<u64>,
}

/// The mathematical model of a [`Record`].
#[verifier::ext_equal]
pub ghost struct RecordV {
    pub name: Option<Seq<char>>,
    pub app_id: Option<Seq<char>>,
    pub node_type: Option<NodeType>,
    pub nodes: Seq<RecordV>,
    pub fullscreen_mode: Option<u8>,
    pub percent_bits: Option<u64>,
    pub desktop_entry: Option<Seq<char>>,
    pub exec_cmd: Option<Seq<char>>,
    pub layout: Option<NodeLayout>,
    pub retry: Option<u8>,
    pub timeout_ms: Option<u64>,
}

/// Model of a record, children included.
pub open spec fn record_view(r: Record) -> RecordV
    decreases r,
{
    RecordV {
        name: opt_view(r.name),
        app_id: opt_view(r.app_id),
        node_type: r.node_type,
        nodes: records_view(r.nodes@),
        fullscreen_mode: r.fullscreen_mode,
        percent_bits: r.percent_bits,
        desktop_entry: opt_view(r.desktop_entry),
        exec_cmd: opt_view(r.exec_cmd),
        layout: r.layout,
        retry: r.retry,
        timeout_ms: r.timeout_ms,
    }
}

/// Model of a sequence of sibling records.
pub open spec fn records_view(t: Seq<Record>) -> Seq<RecordV>
    decreases t,
{
    if t.len() == 0 {
        Seq::empty()
    } else {
        seq![record_view(t[0])] + records_view(t.subrange(1, t.len() as int))
    }
}

/// `records_view` maps `record_view` over the sequence, element by element.
pub broadcast proof fn lemma_records_view_pointwise(t: Seq<Record>)
    ensures
        (#[trigger] records_view(t)).len() == t.len(),
        forall|i: int| 0 <= i < t.len() ==> #[trigger] records_view(t)[i] == record_view(t[i]),
    decreases t.len(),
{
    if t.len() > 0 {
        lemma_records_view_pointwise(t.subrange(1, t.len() as int));
        assert forall|i: int| 0 <= i < t.len() implies #[trigger] records_view(t)[i]
            == record_view(t[i]) by {
            if i > 0 {
                assert(records_view(t)[i] == records_view(t.subrange(1, t.len() as int))[i - 1]);
                assert(t.subrange(1, t.len() as int)[i - 1] == t[i]);
            }
        }
    }
}

impl View for Record {
    type V = RecordV;

    open spec fn view(&self) -> RecordV {
        record_view(*self)
    }
}

/// How one node is written: each field that says nothing is omitted.
pub open spec fn record_of(v: NodeV) -> RecordV
    decreases v,
{
    RecordV {
        name: v.name,
        app_id: v.app_id,
        node_type: if v.node_type.spec_is_window() {
            None
        } else {
            Some(v.node_type)
        },
        nodes: records_of(v.nodes),
        fullscreen_mode: if spec_none_or_zero_u8(&v.fullscreen_mode) {
            None
        } else {
            v.fullscreen_mode
        },
        percent_bits: v.percent_bits,
        desktop_entry: v.desktop_entry,
        exec_cmd: v.exec_cmd,
        layout: if v.layout.spec_is_none() {
            None
        } else {
            Some(v.layout)
        },
        retry: v.retry,
        timeout_ms: v.timeout_ms,
    }
}

/// How a sequence of sibling nodes is written.
pub open spec fn records_of(t: Seq<NodeV>) -> Seq<RecordV>
    decreases t,
{
    if t.len() == 0 {
        Seq::empty()
    } else {
        seq![record_of(t[0])] + records_of(t.subrange(1, t.len() as int))
    }
}

/// `records_of` maps `record_of` over the sequence, element by element.
pub broadcast proof fn lemma_records_of_pointwise(t: Seq<NodeV>)
    ensures
        (#[trigger] records_of(t)).len() == t.len(),
        forall|i: int| 0 <= i < t.len() ==> #[trigger] records_of(t)[i] == record_of(t[i]),
    decreases t.len(),
{
    if t.len() > 0 {
        lemma_records_of_pointwise(t.subrange(1, t.len() as int));
        assert forall|i: int| 0 <= i < t.len() implies #[trigger] records_of(t)[i] == record_of(
            t[i],
        ) by {
            if i > 0 {
                assert(records_of(t)[i] == records_of(t.subrange(1, t.len() as int))[i - 1]);
                assert(t.subrange(1, t.len() as int)[i - 1] == t[i]);
            }
        }
    }
}

/// How one read record is interpreted: every omitted field takes its
/// documented default — `Unknown` for kind and layout, the global
/// constant for the timeout, nothing for the rest.
pub open spec fn node_of(r: RecordV) -> NodeV
    decreases r,
{
    NodeV {
        name: r.name,
        app_id: r.app_id,
        node_type: match r.node_type {
            Some(t) => t,
            None => NodeType::Unknown,
        },
        nodes: nodes_of(r.nodes),
        fullscreen_mode: r.fullscreen_mode,
        percent_bits: r.percent_bits,
        desktop_entry: r.desktop_entry,
        exec_cmd: r.exec_cmd,
        layout: match r.layout {
            Some(l) => l,
            None => NodeLayout::Unknown,
        },
        retry: r.retry,
        timeout_ms: match r.timeout_ms {
            Some(t) => Some(t),
            None => Some(MAX_WAIT_MS),
        },
    }
}

/// How a sequence of read records is interpreted.
pub open spec fn nodes_of(t: Seq<RecordV>) -> Seq<NodeV>
    decreases t,
{
    if t.len() == 0 {
        Seq::empty()
    } else {
        seq![node_of(t[0])] + nodes_of(t.subrange(1, t.len() as int))
    }
}

/// `nodes_of` maps `node_of` over the sequence, element by element.
pub broadcast proof fn lemma_nodes_of_pointwise(t: Seq<RecordV>)
    ensures
        (#[trigger] nodes_of(t)).len() == t.len(),
        forall|i: int| 0 <= i < t.len() ==> #[trigger] nodes_of(t)[i] == node_of(t[i]),
    decreases t.len(),
{
    if t.len() > 0 {
        lemma_nodes_of_pointwise(t.subrange(1, t.len() as int));
        assert forall|i: int| 0 <= i < t.len() implies #[trigger] nodes_of(t)[i] == node_of(
            t[i],
        ) by {
            if i > 0 {
                assert(nodes_of(t)[i] == nodes_of(t.subrange(1, t.len() as int))[i - 1]);
                assert(t.subrange(1, t.len() as int)[i - 1] == t[i]);
            }
        }
    }
}

/// The persisted normal form of a node: what any tree becomes after one
/// trip through storage.  Window kinds and empty layouts fold to
/// `Unknown`, a zero fullscreen flag is dropped, a missing timeout
/// becomes the global default; everything else is kept as it is.
pub open spec fn persist_normal(v: NodeV) -> NodeV
    decreases v,
{
    NodeV {
        name: v.name,
        app_id: v.app_id,
        node_type: if v.node_type.spec_is_window() {
            NodeType::Unknown
        } else {
            v.node_type
        },
        nodes: persist_normal_all(v.nodes),
        fullscreen_mode: if spec_none_or_zero_u8(&v.fullscreen_mode) {
            None
        } else {
            v.fullscreen_mode
        },
        percent_bits: v.percent_bits,
        desktop_entry: v.desktop_entry,
        exec_cmd: v.exec_cmd,
        layout: if v.layout.spec_is_none() {
            NodeLayout::Unknown
        } else {
            v.layout
        },
        retry: v.retry,
        timeout_ms: match v.timeout_ms {
            Some(t) => Some(t),
            None => Some(MAX_WAIT_MS),
        },
    }
}

/// The persisted normal form of a sequence of sibling nodes.
pub open spec fn persist_normal_all(t: Seq<NodeV>) -> Seq<NodeV>
    decreases t,
{
    if t.len() == 0 {
        Seq::empty()
    } else {
        seq![persist_normal(t[0])] + persist_normal_all(t.subrange(1, t.len() as int))
    }
}

/// `persist_normal_all` maps `persist_normal` over the sequence.
pub broadcast proof fn lemma_persist_normal_all_pointwise(t: Seq<NodeV>)
    ensures
        (#[trigger] persist_normal_all(t)).len() == t.len(),
        forall|i: int|
            0 <= i < t.len() ==> #[trigger] persist_normal_all(t)[i] == persist_normal(t[i]),
    decreases t.len(),
{
    if t.len() > 0 {
        lemma_persist_normal_all_pointwise(t.subrange(1, t.len() as int));
        assert forall|i: int| 0 <= i < t.len() implies #[trigger] persist_normal_all(t)[i]
            == persist_normal(t[i]) by {
            if i > 0 {
                assert(persist_normal_all(t)[i] == persist_normal_all(
                    t.subrange(1, t.len() as int),
                )[i - 1]);
                assert(t.subrange(1, t.len() as int)[i - 1] == t[i]);
            }
        }
    }
}

/// Writing a node and reading it back yields exactly its persisted
/// normal form: the whole round trip through storage is `persist_normal`.
pub broadcast proof fn lemma_round_trip(v: NodeV)
    ensures
        #[trigger] node_of(record_of(v)) == persist_normal(v),
    decreases v,
{
    lemma_records_of_pointwise(v.nodes);
    lemma_nodes_of_pointwise(records_of(v.nodes));
    lemma_persist_normal_all_pointwise(v.nodes);
    assert forall|i: int| 0 <= i < v.nodes.len() implies #[trigger] nodes_of(
        records_of(v.nodes),
    )[i] == persist_normal_all(v.nodes)[i] by {
        lemma_round_trip(v.nodes[i]);
    }
    assert(nodes_of(records_of(v.nodes)) =~= persist_normal_all(v.nodes));
    assert(node_of(record_of(v)) =~= persist_normal(v));
}

/// The normal form is a fixed point: a second trip through storage
/// returns the loaded tree unchanged.
pub broadcast proof fn lemma_persist_normal_idempotent(v: NodeV)
    ensures
        persist_normal(#[trigger] persist_normal(v)) == persist_normal(v),
    decreases v,
{
    lemma_persist_normal_all_pointwise(v.nodes);
    lemma_persist_normal_all_pointwise(persist_normal_all(v.nodes));
    assert forall|i: int| 0 <= i < v.nodes.len() implies #[trigger] persist_normal_all(
        persist_normal_all(v.nodes),
    )[i] == persist_normal_all(v.nodes)[i] by {
        lemma_persist_normal_idempotent(v.nodes[i]);
    }
    assert(persist_normal_all(persist_normal_all(v.nodes)) =~= persist_normal_all(v.nodes));
    assert(persist_normal(persist_normal(v)) =~= persist_normal(v));
}

/// The round trip of a whole session: writing the top-level nodes and
/// reading them back yields their persisted normal forms, in order.
pub proof fn lemma_tree_round_trip(t: Seq<NodeV>)
    ensures
        nodes_of(records_of(t)) == persist_normal_all(t),
{
    lemma_records_of_pointwise(t);
    lemma_nodes_of_pointwise(records_of(t));
    lemma_persist_normal_all_pointwise(t);
    assert forall|i: int| 0 <= i < t.len() implies #[trigger] nodes_of(records_of(t))[i]
        == persist_normal_all(t)[i] by {
        lemma_round_trip(t[i]);
    }
    assert(nodes_of(records_of(t)) =~= persist_normal_all(t));
}

/// Storage preserves well-formedness: the persisted normal form of a
/// well-formed node is well-formed.
pub proof fn lemma_persist_normal_wf(v: NodeV)
    requires
        v.wf(),
    ensures
        persist_normal(v).wf(),
    decreases v,
{
    lemma_persist_normal_all_pointwise(v.nodes);
    crate::models::lemma_wf_children(v);
    assert forall|i: int| 0 <= i < persist_normal(v).nodes.len() implies (#[trigger] persist_normal(
        v,
    ).nodes[i]).wf() by {
        assert(persist_normal(v).nodes[i] == persist_normal(v.nodes[i]));
        assert(v.nodes[i].wf());
        lemma_persist_normal_wf(v.nodes[i]);
    }
    assert(persist_normal(v).wf());
}

/// Turns one node into the record that is written for it.
pub fn to_record(n: &Node) -> (r: Record)
    ensures
        r@ == record_of(n@),
    decreases *n,
{
    let mut children: Vec<Record> = Vec::new();
    let mut i: usize = 0;
    while i < n.nodes.len()
        invariant
            i <= n.nodes.len(),
            children@.len() == i,
            forall|j: int|
                0 <= j < i ==> #[trigger] record_view(children@[j]) == record_of(
                    node_view(n.nodes@[j]),
                ),
        decreases n.nodes.len() - i,
    {
        let child = to_record(&n.nodes[i]);
        children.push(child);
        i = i + 1;
    }
    let r = Record {
        name: crate::strings::clone_opt_string(&n.name),
        app_id: crate::strings::clone_opt_string(&n.app_id),
        node_type: if n.node_type.is_window() {
            None
        } else {
            Some(n.node_type)
        },
        nodes: children,
        fullscreen_mode: if none_or_zero_u8(&n.fullscreen_mode) {
            None
        } else {
            n.fullscreen_mode
        },
        percent_bits: n.percent_bits,
        desktop_entry: crate::strings::clone_opt_string(&n.desktop_entry),
        exec_cmd: crate::strings::clone_opt_string(&n.exec_cmd),
        layout: if n.layout.is_none() {
            None
        } else {
            Some(n.layout)
        },
        retry: n.retry,
        timeout_ms: n.timeout_ms,
    };
    proof {
        lemma_tree_view_pointwise(n.nodes@);
        lemma_records_of_pointwise(tree_view(n.nodes@));
        lemma_records_view_pointwise(r.nodes@);
        assert(records_view(r.nodes@) =~= records_of(tree_view(n.nodes@)));
        assert(r@ =~= record_of(n@));
    }
    r
}

/// Turns one read record into the node it denotes, defaults filled in.
pub fn from_record(r: &Record) -> (n: Node)
    ensures
        n@ == node_of(r@),
    decreases *r,
{
    let mut children: Vec<Node> = Vec::new();
    let mut i: usize = 0;
    while i < r.nodes.len()
        invariant
            i <= r.nodes.len(),
            children@.len() == i,
            forall|j: int|
                0 <= j < i ==> #[trigger] node_view(children@[j]) == node_of(
                    record_view(r.nodes@[j]),
                ),
        decreases r.nodes.len() - i,
    {
        let child = from_record(&r.nodes[i]);
        children.push(child);
        i = i + 1;
    }
    let n = Node {
        name: crate::strings::clone_opt_string(&r.name),
        app_id: crate::strings::clone_opt_string(&r.app_id),
        node_type: match r.node_type {
            Some(t) => t,
            None => NodeType::Unknown,
        },
        nodes: children,
        fullscreen_mode: r.fullscreen_mode,
        percent_bits: r.percent_bits,
        desktop_entry: crate::strings::clone_opt_string(&r.desktop_entry),
        exec_cmd: crate::strings::clone_opt_string(&r.exec_cmd),
        layout: match r.layout {
            Some(l) => l,
            None => NodeLayout::Unknown,
        },
        retry: r.retry,
        timeout_ms: match r.timeout_ms {
            Some(t) => Some(t),
            None => crate::consts::default_timeout(),
        },
    };
    proof {
        lemma_records_view_pointwise(r.nodes@);
        lemma_nodes_of_pointwise(records_view(r.nodes@));
        lemma_tree_view_pointwise(n.nodes@);
        assert(tree_view(n.nodes@) =~= nodes_of(records_view(r.nodes@)));
        assert(n@ =~= node_of(r@));
    }
    n
}

} // verus!
