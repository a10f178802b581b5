//! The three output shapes of a graph, and its structural profile.
use vstd::prelude::*;
use crate::graph::{DocumentGraph, DocumentInfo, nodes_wf, node_ok, root_ok};
use crate::text::copy_strings;
use crate::types::{
    DocumentNode, DocumentType, FlowType, FlatDocument, NodeContent, NodeLocation, NodeType,
    SemanticLocation, StyleMetadata, SCHEMA_VERSION,
};

verus! {

/// A copy of every id, in order.
pub fn copy_ids(v: &Vec<usize>) -> (r: Vec<usize>)
    ensures
        r@ == v@,
{
    let mut out: Vec<usize> = Vec::new();
    let mut i: usize = 0;
    while i < v.len()
        invariant
            i <= v@.len(),
            out@ == v@.subrange(0, i as int),
        decreases v@.len() - i,
    {
        out.push(v[i]);
        assert(out@ =~= v@.subrange(0, i + 1));
        i = i + 1;
    }
    assert(out@ =~= v@);
    out
}

fn copy_opt_string(s: &Option<String>) -> (r: Option<String>)
    ensures
        r == *s,
{
    match s {
        Some(t) => Some(t.clone()),
        None => None,
    }
}

fn copy_style(s: &Option<StyleMetadata>) -> (r: Option<StyleMetadata>)
    ensures
        r == *s,
{
    match s {
        Some(m) => Some(
            StyleMetadata {
                font_class: m.font_class.clone(),
                font_size: m.font_size,
                is_bold: m.is_bold,
                is_italic: m.is_italic,
                font_family: copy_opt_string(&m.font_family),
                color: copy_opt_string(&m.color),
            },
        ),
        None => None,
    }
}

/// Field-by-field copy of a location.
pub fn copy_location(l: &NodeLocation) -> (r: NodeLocation)
    ensures
        r.semantic.path@ == l.semantic.path@,
        r.semantic.depth == l.semantic.depth,
        r.semantic.breadcrumbs@ == l.semantic.breadcrumbs@,
        r.physical == l.physical,
{
    NodeLocation {
        semantic: SemanticLocation {
            path: l.semantic.path.clone(),
            depth: l.semantic.depth,
            breadcrumbs: copy_strings(&l.semantic.breadcrumbs),
        },
        physical: l.physical,
    }
}

/// `a` and `b` agree in every field (vectors by their contents).
pub open spec fn same_node(a: DocumentNode, b: DocumentNode) -> bool {
    &&& a.id == b.id
    &&& a.node_type == b.node_type
    &&& a.location.semantic.path@ == b.location.semantic.path@
    &&& a.location.semantic.depth == b.location.semantic.depth
    &&& a.location.semantic.breadcrumbs@ == b.location.semantic.breadcrumbs@
    &&& a.location.physical == b.location.physical
    &&& a.text_order == b.text_order
    &&& a.content.text@ == b.content.text@
    &&& a.style_info == b.style_info
    &&& a.token_count == b.token_count
    &&& a.parent == b.parent
    &&& a.children@ == b.children@
}

impl DocumentNode {
    /// A field-by-field copy.
    pub fn copied(&self) -> (r: DocumentNode)
        ensures
            same_node(r, *self),
    {
        DocumentNode {
            id: self.id,
            node_type: self.node_type,
            location: copy_location(&self.location),
            text_order: self.text_order,
            content: NodeContent { text: self.content.text.clone() },
            style_info: copy_style(&self.style_info),
            token_count: self.token_count,
            parent: self.parent,
            children: copy_ids(&self.children),
        }
    }
}

/// Mechanically derived statistics of a graph.
#[derive(Debug, Clone)]
pub struct StructuralProfile {
    pub document_type: DocumentType,
    pub flow_type: FlowType,
    pub total_nodes: usize,
    pub total_tokens: usize,
    /// Node counts by type, in the order Document, Section, Paragraph, List,
    /// ListItem.
    pub type_counts: Vec<usize>,
    /// `depth_counts[d]` nodes lie at depth `d`.
    pub depth_counts: Vec<usize>,
    pub max_depth: u32,
}

pub open spec fn type_index(t: NodeType) -> int {
    match t {
        NodeType::Document => 0,
        NodeType::Section => 1,
        NodeType::Paragraph => 2,
        NodeType::List => 3,
        NodeType::ListItem => 4,
    }
}

/// How many of `ns` satisfy: type index `t`.
pub open spec fn count_type(ns: Seq<DocumentNode>, t: int) -> nat
    decreases ns.len(),
{
    if ns.len() == 0 {
        0
    } else {
        count_type(ns.drop_last(), t) + if type_index(ns.last().node_type) == t { 1nat } else { 0nat }
    }
}

/// How many of `ns` lie at depth `d`.
pub open spec fn count_depth(ns: Seq<DocumentNode>, d: int) -> nat
    decreases ns.len(),
{
    if ns.len() == 0 {
        0
    } else {
        count_depth(ns.drop_last(), d) + if ns.last().location.semantic.depth == d { 1nat } else { 0nat }
    }
}

/// The token counts of `ns` added up.
pub open spec fn node_tokens(ns: Seq<DocumentNode>) -> nat
    decreases ns.len(),
{
    if ns.len() == 0 {
        0
    } else {
        node_tokens(ns.drop_last()) + ns.last().token_count as nat
    }
}

proof fn lemma_counts_bound(ns: Seq<DocumentNode>, t: int, d: int)
    ensures
        count_type(ns, t) <= ns.len(),
        count_depth(ns, d) <= ns.len(),
    decreases ns.len(),
{
    if ns.len() > 0 {
        lemma_counts_bound(ns.drop_last(), t, d);
    }
}

/// The structural profile of a node list, or `None` when its token total
/// overflows a machine word.
#[verifier::rlimit(60)]
pub fn compute_profile(nodes: &Vec<DocumentNode>, document_type: DocumentType) -> (r: Option<StructuralProfile>)
    ensures
        r is None <==> node_tokens(nodes@) > usize::MAX,
        r matches Some(p) ==> profile_of(p, nodes@, document_type),
{
    compute_profile_inner(nodes, document_type)
}

/// `p` is the structural profile of the nodes `ns`.
pub open spec fn profile_of(p: StructuralProfile, ns: Seq<DocumentNode>, document_type: DocumentType) -> bool {
    &&& p.document_type == document_type
    &&& p.flow_type == FlowType::Fixed
    &&& p.total_nodes == ns.len()
    &&& p.total_tokens == node_tokens(ns)
    &&& p.type_counts@.len() == 5
    &&& forall|t: int| 0 <= t < 5 ==> #[trigger] p.type_counts@[t] == count_type(ns, t)
    &&& forall|i: int| 0 <= i < ns.len() ==> (#[trigger] ns[i]).location.semantic.depth <= p.max_depth
    &&& p.depth_counts@.len() == p.max_depth + 1
    &&& forall|d: int| 0 <= d <= p.max_depth ==> #[trigger] p.depth_counts@[d] == count_depth(ns, d)
}

fn compute_profile_inner(nodes: &Vec<DocumentNode>, document_type: DocumentType) -> (r: Option<StructuralProfile>)
    ensures
        r is None <==> node_tokens(nodes@) > usize::MAX,
        r matches Some(p) ==> {
            &&& p.document_type == document_type
            &&& p.flow_type == FlowType::Fixed
            &&& p.total_nodes == nodes@.len()
            &&& p.total_tokens == node_tokens(nodes@)
            &&& p.type_counts@.len() == 5
            &&& forall|t: int| 0 <= t < 5 ==> #[trigger] p.type_counts@[t] == count_type(nodes@, t)
            &&& forall|i: int| 0 <= i < nodes@.len() ==> (#[trigger] nodes@[i]).location.semantic.depth <= p.max_depth
            &&& p.depth_counts@.len() == p.max_depth + 1
            &&& forall|d: int| 0 <= d <= p.max_depth ==> #[trigger] p.depth_counts@[d] == count_depth(nodes@, d)
        },
{
    let ghost ns = nodes@;
    let n = nodes.len();
    let mut max_depth: u32 = 0;
    let mut tokens: usize = 0;
    let mut i: usize = 0;
    while i < n
        invariant
            ns == nodes@,
            n == ns.len(),
            i <= n,
            tokens == node_tokens(ns.take(i as int)),
            forall|j: int| 0 <= j < i ==> (#[trigger] ns[j]).location.semantic.depth <= max_depth,
        decreases n - i,
    {
        assert(ns.take(i + 1).drop_last() =~= ns.take(i as int));
        let t = nodes[i].token_count;
        if t > usize::MAX - tokens {
            proof {
                lemma_tokens_prefix(ns, i + 1);
            }
            return None;
        }
        tokens = tokens + t;
        if nodes[i].location.semantic.depth > max_depth {
            max_depth = nodes[i].location.semantic.depth;
        }
        i = i + 1;
    }
    assert(ns.take(n as int) =~= ns);
    let mut type_counts: Vec<usize> = Vec::new();
    let mut t: usize = 0;
    while t < 5
        invariant
            ns == nodes@,
            n == ns.len(),
            t <= 5,
            type_counts@.len() == t,
            forall|u: int| 0 <= u < t ==> #[trigger] type_counts@[u] == count_type(ns, u),
        decreases 5 - t,
    {
        type_counts.push(count_of_type(nodes, t));
        t = t + 1;
    }
    let mut depth_counts: Vec<usize> = Vec::new();
    let mut d: u64 = 0;
    while d <= max_depth as u64
        invariant
            ns == nodes@,
            d <= max_depth + 1,
            depth_counts@.len() == d,
            forall|u: int| 0 <= u < d ==> #[trigger] depth_counts@[u] == count_depth(ns, u),
        decreases max_depth + 1 - d,
    {
        depth_counts.push(count_of_depth(nodes, d as u32));
        d = d + 1;
    }
    Some(StructuralProfile {
        document_type,
        flow_type: FlowType::Fixed,
        total_nodes: n,
        total_tokens: tokens,
        type_counts,
        depth_counts,
        max_depth,
    })
}

proof fn lemma_tokens_prefix(s: Seq<DocumentNode>, i: int)
    requires
        0 <= i <= s.len(),
    ensures
        node_tokens(s.take(i)) <= node_tokens(s),
    decreases s.len() - i,
{
    if i < s.len() {
        lemma_tokens_prefix(s, i + 1);
        assert(s.take(i + 1).drop_last() =~= s.take(i));
    } else {
        assert(s.take(i) =~= s);
    }
}

fn type_index_of(t: NodeType) -> (r: usize)
    ensures
        r == type_index(t),
{
    match t {
        NodeType::Document => 0,
        NodeType::Section => 1,
        NodeType::Paragraph => 2,
        NodeType::List => 3,
        NodeType::ListItem => 4,
    }
}

fn count_of_type(nodes: &Vec<DocumentNode>, t: usize) -> (r: usize)
    ensures
        r == count_type(nodes@, t as int),
{
    let ghost ns = nodes@;
    let mut c: usize = 0;
    let mut i: usize = 0;
    while i < nodes.len()
        invariant
            ns == nodes@,
            i <= ns.len(),
            c == count_type(ns.take(i as int), t as int),
        decreases ns.len() - i,
    {
        assert(ns.take(i + 1).drop_last() =~= ns.take(i as int));
        proof {
            lemma_counts_bound(ns.take(i as int), t as int, 0);
        }
        if type_index_of(nodes[i].node_type) == t {
            c = c + 1;
        }
        i = i + 1;
    }
    assert(ns.take(ns.len() as int) =~= ns);
    c
}

fn count_of_depth(nodes: &Vec<DocumentNode>, d: u32) -> (r: usize)
    ensures
        r == count_depth(nodes@, d as int),
{
    let ghost ns = nodes@;
    let mut c: usize = 0;
    let mut i: usize = 0;
    while i < nodes.len()
        invariant
            ns == nodes@,
            i <= ns.len(),
            c == count_depth(ns.take(i as int), d as int),
        decreases ns.len() - i,
    {
        assert(ns.take(i + 1).drop_last() =~= ns.take(i as int));
        proof {
            lemma_counts_bound(ns.take(i as int), 0, d as int);
        }
        if nodes[i].location.semantic.depth == d {
            c = c + 1;
        }
        i = i + 1;
    }
    assert(ns.take(ns.len() as int) =~= ns);
    c
}

/// The graph in its canonical serialized shape: schema version, nodes in
/// text order (the root first), document information.
#[derive(Debug, Clone)]
pub struct SortedDocumentGraph {
    pub schema_version: String,
    pub nodes: Vec<DocumentNode>,
    pub document_info: DocumentInfo,
}

/// One entry of the sequential shape.
#[derive(Debug, Clone)]
pub struct SequentialSegment {
    pub id: usize,
    pub node_type: NodeType,
    pub text: String,
    pub location: NodeLocation,
    pub style: Option<StyleMetadata>,
    pub tokens: usize,
}

/// The sequential shape: one segment per node in text order.
#[derive(Debug, Clone)]
pub struct SequentialDocument {
    pub format: String,
    pub segments: Vec<SequentialSegment>,
}

/// Nodes sorted by text order with the root (no text order) first.
pub open spec fn in_text_order(ns: Seq<DocumentNode>) -> bool {
    &&& ns.len() > 0 ==> ns[0].text_order is None
    &&& forall|a: int, b: int| 1 <= a < b < ns.len() ==> (#[trigger] ns[a]).text_order is Some
        && (#[trigger] ns[b]).text_order is Some && ns[a].text_order->0 < ns[b].text_order->0
}

/// The nodes of a well-formed graph, already held in id order, are in text
/// order.
pub proof fn lemma_nodes_in_text_order(g: &DocumentGraph)
    requires
        g.wf(),
    ensures
        in_text_order(g.nodes@),
{
    assert forall|a: int, b: int| 1 <= a < b < g.nodes@.len() implies (#[trigger] g.nodes@[a]).text_order is Some
        && (#[trigger] g.nodes@[b]).text_order is Some && g.nodes@[a].text_order->0 < g.nodes@[b].text_order->0 by {
        assert(node_ok(g.nodes@, a));
        assert(node_ok(g.nodes@, b));
    }
}

impl DocumentGraph {
    /// The nodes in text order; for a well-formed graph that is id order.
    pub fn to_sorted_graph(&self) -> (r: SortedDocumentGraph)
        requires
            self.wf(),
        ensures
            r.schema_version@ == SCHEMA_VERSION@,
            r.nodes@.len() == self.nodes@.len(),
            forall|i: int| 0 <= i < r.nodes@.len() ==> same_node(#[trigger] r.nodes@[i], self.nodes@[i]),
            in_text_order(r.nodes@),
    {
        proof {
            lemma_nodes_in_text_order(self);
        }
        let mut nodes: Vec<DocumentNode> = Vec::new();
        let mut i: usize = 0;
        while i < self.nodes.len()
            invariant
                i <= self.nodes@.len(),
                nodes@.len() == i,
                forall|k: int| 0 <= k < i ==> same_node(#[trigger] nodes@[k], self.nodes@[k]),
            decreases self.nodes@.len() - i,
        {
            nodes.push(self.nodes[i].copied());
            i = i + 1;
        }
        let info = DocumentInfo {
            root_id: self.document_info.root_id,
            document_metadata: self.document_info.document_metadata.clone(),
        };
        SortedDocumentGraph { schema_version: String::from_str(SCHEMA_VERSION), nodes, document_info: info }
    }

    /// One segment per node, in text order, numbered from 0.
    pub fn to_sequential_format(&self) -> (r: SequentialDocument)
        requires
            self.wf(),
        ensures
            r.format@ == "sequential"@,
            r.segments@.len() == self.nodes@.len(),
            forall|i: int| 0 <= i < r.segments@.len() ==> {
                let s = #[trigger] r.segments@[i];
                let n = self.nodes@[i];
                &&& s.id == i
                &&& s.node_type == n.node_type
                &&& s.text@ == n.content.text@
                &&& s.location.semantic.path@ == n.location.semantic.path@
                &&& s.location.semantic.depth == n.location.semantic.depth
                &&& s.location.semantic.breadcrumbs@ == n.location.semantic.breadcrumbs@
                &&& s.location.physical == n.location.physical
                &&& s.style == n.style_info
                &&& s.tokens == n.token_count
            },
    {
        let mut segments: Vec<SequentialSegment> = Vec::new();
        let mut i: usize = 0;
        while i < self.nodes.len()
            invariant
                i <= self.nodes@.len(),
                segments@.len() == i,
                forall|k: int| 0 <= k < i ==> {
                    let s = #[trigger] segments@[k];
                    let n = self.nodes@[k];
                    &&& s.id == k
                    &&& s.node_type == n.node_type
                    &&& s.text@ == n.content.text@
                    &&& s.location.semantic.path@ == n.location.semantic.path@
                    &&& s.location.semantic.depth == n.location.semantic.depth
                    &&& s.location.semantic.breadcrumbs@ == n.location.semantic.breadcrumbs@
                    &&& s.location.physical == n.location.physical
                    &&& s.style == n.style_info
                    &&& s.tokens == n.token_count
                },
            decreases self.nodes@.len() - i,
        {
            let n = &self.nodes[i];
            segments.push(SequentialSegment {
                id: i,
                node_type: n.node_type,
                text: n.content.text.clone(),
                location: copy_location(&n.location),
                style: copy_style(&n.style_info),
                tokens: n.token_count,
            });
            i = i + 1;
        }
        SequentialDocument { format: String::from_str("sequential"), segments }
    }

    /// The texts of the leaves (nodes without children), in text order.
    pub fn to_flat_format(&self) -> (r: FlatDocument)
        requires
            self.wf(),
        ensures
            r.format@ == "flat"@,
            r.chunks.deep_view() == leaf_texts(self.nodes@),
            r.chunks@.len() == leaf_count(self.nodes@),
    {
        let ghost ns = self.nodes@;
        let mut chunks: Vec<String> = Vec::new();
        let mut i: usize = 0;
        while i < self.nodes.len()
            invariant
                ns == self.nodes@,
                i <= ns.len(),
                chunks.deep_view() == leaf_texts(ns.take(i as int)),
            decreases ns.len() - i,
        {
            assert(ns.take(i + 1).drop_last() =~= ns.take(i as int));
            assert(ns.take(i + 1).last() == ns[i as int]);
            if self.nodes[i].children.len() == 0 {
                let ghost before = chunks.deep_view();
                chunks.push(self.nodes[i].content.text.clone());
                assert(chunks.deep_view() =~= before.push(ns[i as int].content.text@));
            }
            i = i + 1;
        }
        assert(ns.take(ns.len() as int) =~= ns);
        proof {
            lemma_leaf_texts_len(ns);
        }
        FlatDocument { format: String::from_str("flat"), chunks }
    }
}

/// The texts of the nodes without children, in order.
pub open spec fn leaf_texts(ns: Seq<DocumentNode>) -> Seq<Seq<char>>
    decreases ns.len(),
{
    if ns.len() == 0 {
        Seq::empty()
    } else {
        let t = leaf_texts(ns.drop_last());
        if ns.last().children@.len() == 0 {
            t.push(ns.last().content.text@)
        } else {
            t
        }
    }
}

/// The number of nodes without children.
pub open spec fn leaf_count(ns: Seq<DocumentNode>) -> nat
    decreases ns.len(),
{
    if ns.len() == 0 {
        0
    } else {
        leaf_count(ns.drop_last()) + if ns.last().children@.len() == 0 { 1nat } else { 0nat }
    }
}

proof fn lemma_leaf_texts_len(ns: Seq<DocumentNode>)
    ensures
        leaf_texts(ns).len() == leaf_count(ns),
    decreases ns.len(),
{
    if ns.len() > 0 {
        lemma_leaf_texts_len(ns.drop_last());
    }
}

/// The flat projection of a graph with `k` leaves holds exactly `k`
/// strings.
pub proof fn lemma_projections_keep_count(g: &DocumentGraph, f: FlatDocument)
    requires
        g.wf(),
        f.chunks.deep_view() == leaf_texts(g.nodes@),
    ensures
        f.chunks@.len() == leaf_count(g.nodes@),
{
    lemma_leaf_texts_len(g.nodes@);
    assert(f.chunks.deep_view().len() == f.chunks@.len());
}


} // verus!
