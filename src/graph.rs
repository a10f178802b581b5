//! The document graph and its construction from a sequence of parsed
//! elements.
//!
//! Node ids are positions: the root is node 0 and the element at index `n`
//! becomes node `n + 1`, so that equal inputs give equal graphs.
use vstd::prelude::*;
use crate::text::{
    decimal, decimal_string, push_char, trim_spec, copy_strings, count_char, lemma_count_char_concat,
    lemma_decimal_no_dot,
};
use crate::types::{
    DocumentMetadata, DocumentNode, NodeContent, NodeLocation, NodeType, ParsedElementType,
    ParsedPdfElement, PhysicalLocation, SemanticLocation, node_type_for, node_type_of, style_metadata_of,
    style_of,
};

verus! {

/// The graph: nodes by id, and what is known of the document.
#[derive(Debug, Clone)]
pub struct DocumentGraph {
    pub nodes: Vec<DocumentNode>,
    pub document_info: DocumentInfo,
}

/// Information about the document as a whole.
#[derive(Debug, Clone)]
pub struct DocumentInfo {
    pub root_id: usize,
    pub document_metadata: DocumentMetadata,
}

/// Why a sequence of elements does not make a tree.
#[derive(Debug, Clone, Copy, PartialEq, Eq, Structural)]
pub enum BuildError {
    /// The element at this position has a level that is zero or more than
    /// one below the innermost open section.
    InvalidLevel(usize),
}

/// The path of the `k`-th child (1-based) of a node with path `parent`.
pub open spec fn child_path(parent: Seq<char>, parent_is_root: bool, k: nat) -> Seq<char> {
    if parent_is_root {
        decimal(k)
    } else {
        parent + seq!['.'] + decimal(k)
    }
}

/// The breadcrumbs of a node of the given type under a parent with
/// breadcrumbs `parent`.
pub open spec fn crumbs_under(parent: Seq<String>, t: NodeType, text: String) -> Seq<String> {
    if t == NodeType::Section {
        parent.push(text)
    } else {
        parent
    }
}

pub open spec fn root_ok(ns: Seq<DocumentNode>) -> bool {
    &&& ns.len() >= 1
    &&& ns[0].id == 0
    &&& ns[0].node_type == NodeType::Document
    &&& ns[0].parent is None
    &&& ns[0].text_order is None
    &&& ns[0].location.semantic.depth == 0
    &&& ns[0].location.semantic.path@.len() == 0
}

/// Node `i` is wired to an earlier parent that lists it, one level deeper,
/// in text order `i - 1`, with the breadcrumbs of its parent (and its own
/// text when it is a section).
pub open spec fn node_ok(ns: Seq<DocumentNode>, i: int) -> bool {
    let n = ns[i];
    let p = n.parent->0 as int;
    &&& n.id == i
    &&& n.node_type != NodeType::Document
    &&& n.parent is Some
    &&& 0 <= p < i
    &&& ns[p].children@.contains(i as usize)
    &&& n.location.semantic.depth == ns[p].location.semantic.depth + 1
    &&& n.text_order == Some((i - 1) as usize)
    &&& n.location.semantic.breadcrumbs@ == crumbs_under(
        ns[p].location.semantic.breadcrumbs@,
        n.node_type,
        n.content.text,
    )
}

/// Node `p` lists its children in increasing id (so in element order);
/// every child listed is a later node whose parent is `p`, and its path
/// extends the path of `p` by its 1-based place in the list.
pub open spec fn children_ok(ns: Seq<DocumentNode>, p: int) -> bool {
    &&& forall|a: int, b: int| 0 <= a < b < ns[p].children@.len() ==> #[trigger] ns[p].children@[a] < #[trigger] ns[p].children@[b]
    &&& forall|k: int|
        0 <= k < ns[p].children@.len() ==> {
            let c = #[trigger] ns[p].children@[k] as int;
            &&& p < c < ns.len()
            &&& ns[c].parent == Some(p as usize)
            &&& ns[c].location.semantic.path@ == child_path(
                ns[p].location.semantic.path@,
                p == 0,
                (k + 1) as nat,
            )
        }
}

/// The tree invariants of a node list.
pub open spec fn nodes_wf(ns: Seq<DocumentNode>) -> bool {
    &&& root_ok(ns)
    &&& forall|i: int| 1 <= i < ns.len() ==> #[trigger] node_ok(ns, i)
    &&& forall|p: int| 0 <= p < ns.len() ==> #[trigger] children_ok(ns, p)
}

impl DocumentGraph {
    pub open spec fn wf(&self) -> bool {
        &&& nodes_wf(self.nodes@)
        &&& self.document_info.root_id == 0
    }

    /// The greatest depth of any node (0 for a graph without nodes).
    pub fn max_depth(&self) -> (r: u32)
        ensures
            forall|i: int|
                0 <= i < self.nodes@.len() ==> self.nodes@[i].location.semantic.depth <= r,
            self.nodes@.len() == 0 ==> r == 0,
            self.nodes@.len() > 0 ==> exists|i: int|
                0 <= i < self.nodes@.len() && self.nodes@[i].location.semantic.depth == r,
    {
        let mut best: u32 = 0;
        let mut i: usize = 0;
        while i < self.nodes.len()
            invariant
                i <= self.nodes@.len(),
                forall|j: int| 0 <= j < i ==> self.nodes@[j].location.semantic.depth <= best,
                i > 0 ==> exists|j: int|
                    0 <= j < i && self.nodes@[j].location.semantic.depth == best,
                i == 0 ==> best == 0,
            decreases self.nodes@.len() - i,
        {
            if i == 0 || self.nodes[i].location.semantic.depth > best {
                best = self.nodes[i].location.semantic.depth;
            }
            i = i + 1;
        }
        best
    }
}

/// The stack of open nodes (root first) before element `n` is placed.
pub open spec fn stack_at(elems: Seq<ParsedPdfElement>, n: nat) -> Seq<usize>
    decreases n,
{
    if n == 0 {
        seq![0usize]
    } else {
        let s = stack_at(elems, (n - 1) as nat);
        let e = elems[n - 1];
        let keep = if (e.hierarchy_level as int) < s.len() {
            e.hierarchy_level as int
        } else {
            s.len() as int
        };
        let t = s.subrange(0, keep);
        if e.element_type == ParsedElementType::Section {
            t.push(n as usize)
        } else {
            t
        }
    }
}

/// Element `n` can be placed: its level is at least 1 and at most one
/// below the innermost open section.
pub open spec fn level_ok_at(elems: Seq<ParsedPdfElement>, n: int) -> bool {
    1 <= elems[n].hierarchy_level <= stack_at(elems, n as nat).len()
}

pub open spec fn levels_ok(elems: Seq<ParsedPdfElement>) -> bool {
    forall|n: int| 0 <= n < elems.len() ==> #[trigger] level_ok_at(elems, n)
}

/// The parent node of element `n`.
pub open spec fn parent_at(elems: Seq<ParsedPdfElement>, n: int) -> usize {
    stack_at(elems, n as nat)[elems[n].hierarchy_level - 1]
}

/// Node `node` is what element `e` becomes under parent `parent`.
pub open spec fn node_from(node: DocumentNode, e: ParsedPdfElement, parent: usize) -> bool {
    &&& node.node_type == node_type_of(e.element_type)
    &&& node.content.text@ == trim_spec(e.text@)
    &&& node.location.semantic.depth == e.hierarchy_level
    &&& node.location.physical == Some(
        PhysicalLocation { page: e.page_number, bounding_box: e.bounding_box },
    )
    &&& node.token_count == e.token_count
    &&& node.style_info == Some(style_of(e.style_info))
    &&& node.parent == Some(parent)
}

/// The breadcrumbs of the root: the title, when one is known and non-empty.
pub open spec fn root_crumbs(title: Option<String>) -> Seq<String> {
    match title {
        Some(t) => if t@.len() > 0 {
            seq![t]
        } else {
            seq![]
        },
        None => seq![],
    }
}

/// The text of the root: the title when known and non-empty, else
/// "Document".
pub open spec fn root_text(title: Option<String>) -> Seq<char> {
    match title {
        Some(t) => if t@.len() > 0 {
            t@
        } else {
            "Document"@
        },
        None => "Document"@,
    }
}

pub struct GraphBuilder;

impl GraphBuilder {
    pub fn new() -> (r: GraphBuilder) {
        GraphBuilder
    }

    /// Builds the graph of `elements`, with no document metadata.
    pub fn build_graph(&self, elements: Vec<ParsedPdfElement>) -> (r: Result<
        DocumentGraph,
        BuildError,
    >)
        ensures
            build_post(elements@, None, r),
    {
        let meta = DocumentMetadata::empty();
        build_tree(elements, meta)
    }

    /// Builds the graph of `elements` and records `metadata`; its title, when
    /// known, names the root and heads every breadcrumb trail.
    pub fn build_graph_with_metadata(
        &self,
        elements: Vec<ParsedPdfElement>,
        metadata: DocumentMetadata,
    ) -> (r: Result<DocumentGraph, BuildError>)
        ensures
            build_post(elements@, metadata.title, r),
            r matches Ok(g) ==> g.document_info.document_metadata == metadata,
    {
        build_tree(elements, metadata)
    }
}

/// What building the graph of `elems` under `title` returns.
pub open spec fn build_post(
    elems: Seq<ParsedPdfElement>,
    title: Option<String>,
    r: Result<DocumentGraph, BuildError>,
) -> bool {
    match r {
        Ok(g) => {
            &&& levels_ok(elems)
            &&& g.wf()
            &&& g.nodes@.len() == elems.len() + 1
            &&& g.nodes@[0].content.text@ == root_text(title)
            &&& g.nodes@[0].location.semantic.breadcrumbs@ == root_crumbs(title)
            &&& g.nodes@[0].token_count == 0
            &&& forall|n: int|
                0 <= n < elems.len() ==> #[trigger] node_from(
                    g.nodes@[n + 1],
                    elems[n],
                    parent_at(elems, n),
                )
        },
        Err(BuildError::InvalidLevel(n)) => {
            &&& 0 <= n < elems.len()
            &&& !level_ok_at(elems, n as int)
            &&& forall|m: int| 0 <= m < n ==> #[trigger] level_ok_at(elems, m)
        },
    }
}

/// The stack holds the root first, then sections, each one level deeper
/// than the one before.
pub open spec fn stack_ok(ns: Seq<DocumentNode>, s: Seq<usize>) -> bool {
    &&& s.len() >= 1
    &&& s[0] == 0
    &&& forall|k: int|
        0 <= k < s.len() ==> (#[trigger] s[k] as int) < ns.len()
            && ns[s[k] as int].location.semantic.depth == k
}

#[verifier::rlimit(60)]
fn build_tree(elements: Vec<ParsedPdfElement>, metadata: DocumentMetadata) -> (r: Result<
    DocumentGraph,
    BuildError,
>)
    ensures
        build_post(elements@, metadata.title, r),
        r matches Ok(g) ==> g.document_info.document_metadata == metadata,
{
    let ghost elems = elements@;
    let (root_label, crumbs) = root_label_and_crumbs(&metadata.title);
    let root = DocumentNode {
        id: 0,
        node_type: NodeType::Document,
        location: NodeLocation {
            semantic: SemanticLocation { path: String::new(), depth: 0, breadcrumbs: crumbs },
            physical: None,
        },
        text_order: None,
        content: NodeContent { text: root_label },
        style_info: None,
        token_count: 0,
        parent: None,
        children: Vec::new(),
    };
    let mut nodes: Vec<DocumentNode> = Vec::new();
    nodes.push(root);
    let mut stack: Vec<usize> = Vec::new();
    stack.push(0);
    let mut n: usize = 0;
    assert(stack@ =~= stack_at(elems, 0));
    while n < elements.len()
        invariant
            elems == elements@,
            n <= elems.len(),
            nodes@.len() == n + 1,
            root_ok(nodes@),
            nodes@[0].content.text@ == root_text(metadata.title),
            nodes@[0].location.semantic.breadcrumbs@ == root_crumbs(metadata.title),
            nodes@[0].token_count == 0,
            forall|i: int| 1 <= i < nodes@.len() ==> #[trigger] node_ok(nodes@, i),
            forall|p: int| 0 <= p < nodes@.len() ==> #[trigger] children_ok(nodes@, p),
            stack@ == stack_at(elems, n as nat),
            stack_ok(nodes@, stack@),
            forall|q: int| 0 <= q < nodes@.len() ==> (#[trigger] nodes@[q]).children@.len() <= n,
            forall|m: int| 0 <= m < n ==> #[trigger] level_ok_at(elems, m),
            forall|m: int|
                0 <= m < n ==> #[trigger] node_from(nodes@[m + 1], elems[m], parent_at(elems, m)),
        decreases elems.len() - n,
    {
        let e = &elements[n];
        let level = e.hierarchy_level;
        if level == 0 || level as usize > stack.len() {
            return Err(BuildError::InvalidLevel(n));
        }
        assert(level_ok_at(elems, n as int));
        let ghost old_nodes = nodes@;
        let ghost old_stack = stack@;
        stack.truncate(level as usize);
        let p = stack[level as usize - 1];
        assert(p == parent_at(elems, n as int));
        let id = n + 1;
        let k = nodes[p].children.len();
        let path = if p == 0 {
            decimal_string(k + 1)
        } else {
            let mut s = nodes[p].location.semantic.path.clone();
            push_char(&mut s, '.');
            let d = decimal_string(k + 1);
            s.append(d.as_str());
            s
        };
        let node_type = node_type_for(e.element_type);
        let content = NodeContent::new(e.text.clone());
        let mut crumbs = copy_strings(&nodes[p].location.semantic.breadcrumbs);
        if node_type == NodeType::Section {
            crumbs.push(content.text.clone());
        }
        let node = DocumentNode {
            id,
            node_type,
            location: NodeLocation {
                semantic: SemanticLocation { path, depth: level, breadcrumbs: crumbs },
                physical: Some(PhysicalLocation { page: e.page_number, bounding_box: e.bounding_box }),
            },
            text_order: Some(n),
            content,
            style_info: Some(style_metadata_of(&e.style_info)),
            token_count: e.token_count,
            parent: Some(p),
            children: Vec::new(),
        };
        nodes.push(node);
        nodes[p].children.push(id);
        if e.element_type == ParsedElementType::Section {
            stack.push(id);
        }
        proof {
            let ns = nodes@;
            assert(stack@ =~= stack_at(elems, (n + 1) as nat));
            assert forall|q: int| 0 <= q < ns.len() implies (#[trigger] ns[q]).children@.len() <= n
                + 1 by {
                if q < n + 1 {
                    assert(old_nodes[q].children@.len() <= n);
                }
            }
            assert forall|i: int| 1 <= i < ns.len() implies #[trigger] node_ok(ns, i) by {
                if i < n + 1 {
                    assert(node_ok(old_nodes, i));
                    let q = old_nodes[i].parent->0 as int;
                    assert(old_nodes[q].children@.contains(i as usize));
                    if q == p as int {
                        let j = choose|j: int|
                            0 <= j < old_nodes[q].children@.len()
                                && old_nodes[q].children@[j] == i as usize;
                        assert(ns[q].children@[j] == i as usize);
                    }
                } else {
                    assert(ns[p as int].children@[k as int] == id);
                }
            }
            assert forall|q: int| 0 <= q < ns.len() implies #[trigger] children_ok(ns, q) by {
                if q < n + 1 {
                    assert(children_ok(old_nodes, q));
                    assert forall|j: int| 0 <= j < ns[q].children@.len() implies {
                        let c = #[trigger] ns[q].children@[j] as int;
                        &&& q < c < ns.len()
                        &&& ns[c].parent == Some(q as usize)
                        &&& ns[c].location.semantic.path@ == child_path(
                            ns[q].location.semantic.path@,
                            q == 0,
                            (j + 1) as nat,
                        )
                    } by {
                        if q == p as int && j == k as int {
                            assert(ns[q].children@[j] == id);
                            if p != 0 {
                                assert(ns[id as int].location.semantic.path@ =~= child_path(
                                    ns[q].location.semantic.path@,
                                    false,
                                    (j + 1) as nat,
                                ));
                            }
                        } else {
                            assert(ns[q].children@[j] == old_nodes[q].children@[j]);
                        }
                    }
                }
            }
            assert forall|m: int| 0 <= m < n + 1 implies #[trigger] node_from(
                ns[m + 1],
                elems[m],
                parent_at(elems, m),
            ) by {
                if m < n {
                    assert(node_from(old_nodes[m + 1], elems[m], parent_at(elems, m)));
                }
            }
            assert forall|k2: int| 0 <= k2 < stack@.len() implies (#[trigger] stack@[k2] as int)
                < ns.len() && ns[stack@[k2] as int].location.semantic.depth == k2 by {
                if k2 < level {
                    assert(stack@[k2] == old_stack[k2]);
                }
            }
        }
        n = n + 1;
    }
    proof {
        assert forall|m: int| 0 <= m < elems.len() implies #[trigger] level_ok_at(elems, m) by {}
    }
    Ok(DocumentGraph {
        nodes,
        document_info: DocumentInfo { root_id: 0, document_metadata: metadata },
    })
}

fn root_label_and_crumbs(title: &Option<String>) -> (r: (String, Vec<String>))
    ensures
        r.0@ == root_text(*title),
        r.1@ == root_crumbs(*title),
{
    match title {
        Some(t) => {
            if t.as_str().unicode_len() > 0 {
                let mut v: Vec<String> = Vec::new();
                v.push(t.clone());
                assert(v@ =~= seq![*t]);
                (t.clone(), v)
            } else {
                let d = String::from_str("Document");
                (d, Vec::new())
            }
        },
        None => {
            let d = String::from_str("Document");
            (d, Vec::new())
        },
    }
}


/// Every node but the root has a parent in the graph, and that parent lists
/// it among its children.
pub proof fn lemma_parent_lists_child(g: &DocumentGraph, i: int)
    requires
        g.wf(),
        1 <= i < g.nodes@.len(),
    ensures
        g.nodes@[i].parent is Some,
        (g.nodes@[i].parent->0 as int) < g.nodes@.len(),
        g.nodes@[g.nodes@[i].parent->0 as int].children@.contains(i as usize),
{
    assert(node_ok(g.nodes@, i));
}

/// The root has depth 0, and every other node lies one level below its
/// parent.
pub proof fn lemma_depth_steps(g: &DocumentGraph, i: int)
    requires
        g.wf(),
        0 <= i < g.nodes@.len(),
    ensures
        i == 0 ==> g.nodes@[i].location.semantic.depth == 0,
        i > 0 ==> g.nodes@[i].location.semantic.depth == g.nodes@[g.nodes@[i].parent->0 as int].location.semantic.depth + 1,
{
    if i > 0 {
        assert(node_ok(g.nodes@, i));
    }
}

/// A node's path, split at '.', has as many parts as the node's depth: it
/// holds one dot fewer than the depth.
pub proof fn lemma_path_parts(g: &DocumentGraph, i: int)
    requires
        g.wf(),
        1 <= i < g.nodes@.len(),
    ensures
        count_char(g.nodes@[i].location.semantic.path@, '.') + 1 == g.nodes@[i].location.semantic.depth,
    decreases i,
{
    let ns = g.nodes@;
    assert(node_ok(ns, i));
    let p = ns[i].parent->0 as int;
    assert(ns[p].children@.contains(i as usize));
    let j = choose|j: int| 0 <= j < ns[p].children@.len() && ns[p].children@[j] == i as usize;
    assert(children_ok(ns, p));
    assert(ns[p].children@[j] as int == i);
    let k = (j + 1) as nat;
    lemma_decimal_no_dot(k);
    if p == 0 {
        assert(ns[i].location.semantic.path@ == decimal(k));
    } else {
        lemma_path_parts(g, p);
        let pp = ns[p].location.semantic.path@;
        lemma_count_char_concat(pp, seq!['.'], '.');
        lemma_count_char_concat(pp + seq!['.'], decimal(k), '.');
        assert(count_char(seq!['.'], '.') == 1) by {
            assert(seq!['.'].drop_last() =~= Seq::<char>::empty());
            assert(count_char(Seq::<char>::empty(), '.') == 0);
            assert(seq!['.'].last() == '.');
        }
    }
}

/// Nodes after the root carry text orders that increase strictly with
/// their place in the node list.
pub proof fn lemma_text_order_increasing(g: &DocumentGraph, a: int, b: int)
    requires
        g.wf(),
        1 <= a < b < g.nodes@.len(),
    ensures
        g.nodes@[a].text_order is Some,
        g.nodes@[b].text_order is Some,
        g.nodes@[a].text_order->0 < g.nodes@[b].text_order->0,
{
    assert(node_ok(g.nodes@, a));
    assert(node_ok(g.nodes@, b));
}

/// `a` is a proper ancestor of `d`.
pub open spec fn is_ancestor(ns: Seq<DocumentNode>, a: int, d: int) -> bool
    decreases d,
{
    if 1 <= d < ns.len() && 0 <= (ns[d].parent->0 as int) < d {
        ns[d].parent->0 as int == a || is_ancestor(ns, a, ns[d].parent->0 as int)
    } else {
        false
    }
}

/// The breadcrumbs of every descendant of a section begin with the
/// section's own breadcrumbs, whose last entry is the section's text.
pub proof fn lemma_section_crumbs_prefix(g: &DocumentGraph, s: int, d: int)
    requires
        g.wf(),
        0 <= s < g.nodes@.len(),
        g.nodes@[s].node_type == NodeType::Section,
        is_ancestor(g.nodes@, s, d),
    ensures
        g.nodes@[s].location.semantic.breadcrumbs@.len() > 0,
        g.nodes@[s].location.semantic.breadcrumbs@.last() == g.nodes@[s].content.text,
        g.nodes@[s].location.semantic.breadcrumbs@.len() <= g.nodes@[d].location.semantic.breadcrumbs@.len(),
        g.nodes@[d].location.semantic.breadcrumbs@.subrange(
            0,
            g.nodes@[s].location.semantic.breadcrumbs@.len() as int,
        ) == g.nodes@[s].location.semantic.breadcrumbs@,
    decreases d,
{
    let ns = g.nodes@;
    assert(root_ok(ns));
    assert(s != 0);
    assert(node_ok(ns, s));
    assert(node_ok(ns, d));
    let p = ns[d].parent->0 as int;
    let sc = ns[s].location.semantic.breadcrumbs@;
    let dc = ns[d].location.semantic.breadcrumbs@;
    let pc = ns[p].location.semantic.breadcrumbs@;
    if p != s {
        lemma_section_crumbs_prefix(g, s, p);
    }
    assert(pc.len() <= dc.len());
    assert(dc.subrange(0, pc.len() as int) =~= pc);
    assert(dc.subrange(0, sc.len() as int) =~= pc.subrange(0, sc.len() as int));
}

/// A graph built from no elements holds the root alone, without children.
pub proof fn lemma_empty_input(elems: Seq<ParsedPdfElement>, title: Option<String>, r: Result<DocumentGraph, BuildError>)
    requires
        elems.len() == 0,
        build_post(elems, title, r),
    ensures
        r is Ok,
        r->Ok_0.nodes@.len() == 1,
        r->Ok_0.nodes@[0].node_type == NodeType::Document,
        r->Ok_0.nodes@[0].children@.len() == 0,
{
    match r {
        Ok(g) => {
            assert(children_ok(g.nodes@, 0));
            if g.nodes@[0].children@.len() > 0 {
                assert(g.nodes@[0].children@[0] < 1);
            }
        },
        Err(BuildError::InvalidLevel(n)) => {},
    }
}

/// Elements of level 1 and no section: every element is placed directly
/// under the root, at depth 1.
pub proof fn lemma_flat_input(elems: Seq<ParsedPdfElement>, title: Option<String>, r: Result<DocumentGraph, BuildError>)
    requires
        forall|n: int| 0 <= n < elems.len() ==> (#[trigger] elems[n]).hierarchy_level == 1
            && elems[n].element_type != ParsedElementType::Section,
        build_post(elems, title, r),
    ensures
        r is Ok,
        forall|i: int| 1 <= i < r->Ok_0.nodes@.len() ==> (#[trigger] r->Ok_0.nodes@[i]).location.semantic.depth == 1
            && r->Ok_0.nodes@[i].parent == Some(0usize)
            && r->Ok_0.nodes@[i].node_type != NodeType::Section,
{
    lemma_flat_stack(elems, elems.len());
    match r {
        Ok(g) => {
            assert forall|i: int| 1 <= i < g.nodes@.len() implies (#[trigger] g.nodes@[i]).location.semantic.depth == 1
                && g.nodes@[i].parent == Some(0usize)
                && g.nodes@[i].node_type != NodeType::Section by {
                assert(node_from(g.nodes@[(i - 1) + 1], elems[i - 1], parent_at(elems, i - 1)));
                lemma_flat_stack(elems, (i - 1) as nat);
            }
        },
        Err(BuildError::InvalidLevel(n)) => {
            lemma_flat_stack(elems, n as nat);
        },
    }
}

proof fn lemma_flat_stack(elems: Seq<ParsedPdfElement>, n: nat)
    requires
        n <= elems.len(),
        forall|m: int| 0 <= m < elems.len() ==> (#[trigger] elems[m]).hierarchy_level == 1
            && elems[m].element_type != ParsedElementType::Section,
    ensures
        stack_at(elems, n) == seq![0usize],
    decreases n,
{
    if n > 0 {
        lemma_flat_stack(elems, (n - 1) as nat);
        assert(elems[n - 1].hierarchy_level == 1);
        assert(seq![0usize].subrange(0, 1) =~= seq![0usize]);
    }
}

} // verus!
