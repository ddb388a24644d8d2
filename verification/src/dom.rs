//! In-memory document trees: elements with qualified names, attributes and
//! ordered children, and text nodes. The tree owns its children outright, so
//! detaching a node removes it and its whole subtree from the parent's child
//! list and nothing else.

use vstd::prelude::*;

verus! {

/// Namespace URI shared by all HTML elements.
pub open spec fn html_ns() -> Seq<char> {
    "http://www.w3.org/1999/xhtml"@
}

/// Local name of the reserved marker element: content wrapped in it is
/// extracted and stripped by the pipeline and never reaches the output.
pub open spec fn marker_local() -> Seq<char> {
    "nib:script"@
}

/// Local name given to the synthetic root of a parsed document.
pub open spec fn document_local() -> Seq<char> {
    "#document"@
}

/// Mathematical model of a document node.
#[verifier::ext_equal]
pub ghost enum NodeView {
    Element {
        ns: Seq<char>,
        local: Seq<char>,
        attrs: Seq<(Seq<char>, Seq<char>)>,
        children: Seq<NodeView>,
    },
    Text { content: Seq<char> },
}

/// A node is a marker when it is an element bearing the reserved name.
pub open spec fn is_marker(n: NodeView) -> bool {
    n is Element && n->ns == html_ns() && n->local == marker_local()
}

/// The text content of a node: the concatenation of all descendant text, in
/// document order.
pub open spec fn text_of(n: NodeView) -> Seq<char>
    decreases n, 0int,
{
    match n {
        NodeView::Text { content } => content,
        NodeView::Element { children, .. } => text_of_seq(children),
    }
}

/// Concatenated text content of a sequence of nodes.
pub open spec fn text_of_seq(s: Seq<NodeView>) -> Seq<char>
    decreases s, 0int,
{
    if s.len() == 0 {
        Seq::empty()
    } else {
        text_of(s[0]) + text_of_seq(s.subrange(1, s.len() as int))
    }
}

/// The node with every marker element detached: a marker child is dropped
/// together with its whole subtree, every other child is kept, cleaned, in
/// its original position.
pub open spec fn clean_node(n: NodeView) -> NodeView
    decreases n, 0int,
{
    match n {
        NodeView::Text { content } => NodeView::Text { content },
        NodeView::Element { ns, local, attrs, children } => NodeView::Element {
            ns,
            local,
            attrs,
            children: clean_seq(children),
        },
    }
}

/// A sequence of nodes with markers dropped and the rest cleaned, order kept.
pub open spec fn clean_seq(s: Seq<NodeView>) -> Seq<NodeView>
    decreases s, 0int,
{
    if s.len() == 0 {
        Seq::empty()
    } else if is_marker(s[0]) {
        clean_seq(s.subrange(1, s.len() as int))
    } else {
        seq![clean_node(s[0])] + clean_seq(s.subrange(1, s.len() as int))
    }
}

/// The extraction output of marker removal: the text content of each marker
/// element none of whose ancestors is itself a marker, in document order.
pub open spec fn extracts_of(n: NodeView) -> Seq<Seq<char>>
    decreases n, 0int,
{
    match n {
        NodeView::Text { .. } => Seq::empty(),
        NodeView::Element { children, .. } => extracts_of_seq(children),
    }
}

/// Extraction output of a sequence of nodes.
pub open spec fn extracts_of_seq(s: Seq<NodeView>) -> Seq<Seq<char>>
    decreases s, 0int,
{
    if s.len() == 0 {
        Seq::empty()
    } else if is_marker(s[0]) {
        seq![text_of(s[0])] + extracts_of_seq(s.subrange(1, s.len() as int))
    } else {
        extracts_of(s[0]) + extracts_of_seq(s.subrange(1, s.len() as int))
    }
}

/// How many marker elements the tree rooted at `n` contains, `n` included.
pub open spec fn marker_count(n: NodeView) -> nat
    decreases n, 0int,
{
    (if is_marker(n) {
        1nat
    } else {
        0nat
    }) + (match n {
        NodeView::Text { .. } => 0nat,
        NodeView::Element { children, .. } => marker_count_seq(children),
    })
}

/// Total marker count of a sequence of trees.
pub open spec fn marker_count_seq(s: Seq<NodeView>) -> nat
    decreases s, 0int,
{
    if s.len() == 0 {
        0nat
    } else {
        marker_count(s[0]) + marker_count_seq(s.subrange(1, s.len() as int))
    }
}

/// Marker removal is total: after cleaning, a tree that is not itself a
/// marker element contains no marker element at all.
pub proof fn lemma_clean_removes_all(n: NodeView)
    requires
        !is_marker(n),
    ensures
        marker_count(clean_node(n)) == 0,
    decreases n, 0int,
{
    match n {
        NodeView::Text { .. } => {},
        NodeView::Element { children, .. } => {
            lemma_clean_seq_removes_all(children);
        },
    }
}

proof fn lemma_clean_seq_removes_all(s: Seq<NodeView>)
    ensures
        marker_count_seq(clean_seq(s)) == 0,
    decreases s, 1int,
{
    if s.len() > 0 {
        let rest = s.subrange(1, s.len() as int);
        lemma_clean_seq_removes_all(rest);
        if !is_marker(s[0]) {
            lemma_clean_removes_all(s[0]);
            let cleaned = seq![clean_node(s[0])] + clean_seq(rest);
            assert(cleaned.subrange(1, cleaned.len() as int) =~= clean_seq(rest));
        }
    }
}

/// Marker removal is idempotent: cleaning an already cleaned tree changes
/// nothing.
pub proof fn lemma_clean_idempotent(n: NodeView)
    ensures
        clean_node(clean_node(n)) == clean_node(n),
    decreases n, 0int,
{
    match n {
        NodeView::Text { .. } => {},
        NodeView::Element { children, .. } => {
            lemma_clean_seq_idempotent(children);
        },
    }
}

proof fn lemma_clean_seq_idempotent(s: Seq<NodeView>)
    ensures
        clean_seq(clean_seq(s)) == clean_seq(s),
    decreases s, 1int,
{
    if s.len() > 0 {
        let rest = s.subrange(1, s.len() as int);
        lemma_clean_seq_idempotent(rest);
        if !is_marker(s[0]) {
            lemma_clean_idempotent(s[0]);
            let cleaned = seq![clean_node(s[0])] + clean_seq(rest);
            assert(cleaned.subrange(1, cleaned.len() as int) =~= clean_seq(rest));
            assert(clean_seq(cleaned) =~= clean_seq(s));
        }
    }
}

/// Sibling order is preserved: a parent whose children are `[a, m, b]`, with
/// `m` the only marker among them, keeps exactly `[a, b]` in that order.
pub proof fn lemma_sibling_order(parent: NodeView, a: NodeView, m: NodeView, b: NodeView)
    requires
        parent is Element,
        parent->children == seq![a, m, b],
        is_marker(m),
        !is_marker(a),
        !is_marker(b),
    ensures
        clean_node(parent)->children == seq![clean_node(a), clean_node(b)],
{
    let s = seq![a, m, b];
    let s1 = s.subrange(1, 3);
    let s2 = s1.subrange(1, 2);
    let s3 = s2.subrange(1, 1);
    assert(s1 =~= seq![m, b]);
    assert(s2 =~= seq![b]);
    assert(s3 =~= Seq::<NodeView>::empty());
    assert(clean_seq(s3) =~= Seq::<NodeView>::empty());
    assert(clean_seq(s2) =~= seq![clean_node(b)]);
    assert(clean_seq(s1) =~= seq![clean_node(b)]);
    assert(clean_seq(s) =~= seq![clean_node(a), clean_node(b)]);
}

/// The qualified name of an element: a namespace URI and a local name.
pub struct QName {
    pub ns: String,
    pub local: String,
}

impl QName {
    /// Build a qualified name from its two parts.
    pub fn new(ns: &str, local: &str) -> (q: QName)
        ensures
            q.ns@ == ns@,
            q.local@ == local@,
    {
        QName { ns: String::from_str(ns), local: String::from_str(local) }
    }
}

/// A document node: an element with attributes and owned, ordered children,
/// or a text node.
pub enum DomNode {
    Element { name: QName, attrs: Vec<(String, String)>, children: Vec<DomNode> },
    Text { content: String },
}

impl DomNode {
    /// The model of this node.
    pub open spec fn view_node(&self) -> NodeView
        decreases self, 0int,
    {
        match self {
            DomNode::Text { content } => NodeView::Text { content: content@ },
            DomNode::Element { name, attrs, children } => NodeView::Element {
                ns: name.ns@,
                local: name.local@,
                attrs: attrs@.map_values(|p: (String, String)| (p.0@, p.1@)),
                children: DomNode::view_seq(children@),
            },
        }
    }

    /// The models of a sequence of nodes, in order.
    pub open spec fn view_seq(s: Seq<DomNode>) -> Seq<NodeView>
        decreases s, 0int,
    {
        if s.len() == 0 {
            Seq::empty()
        } else {
            seq![s[0].view_node()] + DomNode::view_seq(s.subrange(1, s.len() as int))
        }
    }
}

impl View for DomNode {
    type V = NodeView;

    open spec fn view(&self) -> NodeView {
        self.view_node()
    }
}

/// Decide whether a node is the reserved marker element.
pub fn is_marker_node(n: &DomNode) -> (r: bool)
    ensures
        r == is_marker(n@),
{
    match n {
        DomNode::Element { name, .. } => {
            let ns = String::from_str("http://www.w3.org/1999/xhtml");
            let local = String::from_str("nib:script");
            name.ns == ns && name.local == local
        },
        DomNode::Text { .. } => false,
    }
}

/// The text content of a node: all descendant text, concatenated in document
/// order.
#[verifier::loop_isolation(false)]
pub fn text_contents(n: &DomNode) -> (r: String)
    ensures
        r@ == text_of(n@),
    decreases n,
{
    let ghost n0 = *n;
    match n {
        DomNode::Text { content } => content.clone(),
        DomNode::Element { children, .. } => {
            let ghost vc = DomNode::view_seq(children@);
            proof {
                lemma_view_seq(children@);
                assert(vc.subrange(0, vc.len() as int) =~= vc);
            }
            let mut out = String::new();
            proof {
                assert(out@ + text_of_seq(vc) =~= text_of_seq(vc));
            }
            let mut j: usize = 0;
            while j < children.len()
                invariant
                    j <= children.len(),
                    vc == DomNode::view_seq(children@),
                    vc.len() == children@.len(),
                    forall|k: int| 0 <= k < children@.len() ==> vc[k] == children@[k]@,
                    out@ + text_of_seq(vc.subrange(j as int, vc.len() as int)) == text_of_seq(vc),
                decreases children.len() - j,
            {
                proof {
                    assert(decreases_to!(n0 => n0->children));
                    assert(decreases_to!(n0->children => n0->children@));
                    assert(decreases_to!(n0->children@ => n0->children@[j as int]));
                    assert(n0->children@[j as int] == children@[j as int]);
                }
                let t = text_contents(&children[j]);
                proof {
                    let suf = vc.subrange(j as int, vc.len() as int);
                    assert(suf[0] == vc[j as int]);
                    assert(suf.subrange(1, suf.len() as int) =~= vc.subrange(
                        j as int + 1,
                        vc.len() as int,
                    ));
                }
                out.append(t.as_str());
                j += 1;
            }
            proof {
                assert(vc.subrange(vc.len() as int, vc.len() as int) =~= Seq::<NodeView>::empty());
                assert(out@ + Seq::<char>::empty() =~= out@);
            }
            out
        },
    }
}

/// Remove every marker element from the tree: each marker none of whose
/// ancestors is itself a marker is detached with its whole subtree, and its
/// text content is delivered as the extraction output, in document order.
/// The relative order of all remaining children is unchanged.
#[verifier::loop_isolation(false)]
#[verifier::rlimit(60)]
pub fn remove_markers(n: DomNode) -> (r: (DomNode, Vec<String>))
    ensures
        r.0@ == clean_node(n@),
        r.1.deep_view() == extracts_of(n@),
    decreases n,
{
    let ghost n0 = n;
    match n {
        DomNode::Text { content } => {
            let texts: Vec<String> = Vec::new();
            proof {
                assert(texts.deep_view() =~= Seq::<Seq<char>>::empty());
            }
            (DomNode::Text { content }, texts)
        },
        DomNode::Element { name, attrs, mut children } => {
            let ghost orig = children@;
            let ghost vc = DomNode::view_seq(orig);
            proof {
                lemma_view_seq(orig);
                assert(orig.len() == children.len());
                assert(orig.subrange(0, orig.len() as int) =~= orig);
                assert(vc.subrange(0, vc.len() as int) =~= vc);
            }
            let mut out: Vec<DomNode> = Vec::new();
            let mut texts: Vec<String> = Vec::new();
            proof {
                assert(DomNode::view_seq(out@) + clean_seq(vc) =~= clean_seq(vc));
                assert(texts.deep_view() =~= Seq::<Seq<char>>::empty());
                assert(texts.deep_view() + extracts_of_seq(vc) =~= extracts_of_seq(vc));
            }
            let mut j: usize = 0;
            while children.len() > 0
                invariant
                    orig.len() <= usize::MAX,
                    j + children.len() == orig.len(),
                    children@ == orig.subrange(j as int, orig.len() as int),
                    vc == DomNode::view_seq(orig),
                    vc.len() == orig.len(),
                    forall|k: int| 0 <= k < orig.len() ==> vc[k] == orig[k]@,
                    DomNode::view_seq(out@) + clean_seq(vc.subrange(j as int, vc.len() as int))
                        == clean_seq(vc),
                    texts.deep_view() + extracts_of_seq(vc.subrange(j as int, vc.len() as int))
                        == extracts_of_seq(vc),
                decreases children.len(),
            {
                let child = children.remove(0);
                let ghost old_out = out@;
                let ghost old_texts = texts.deep_view();
                proof {
                    assert(child == orig[j as int]);
                    let suf = vc.subrange(j as int, vc.len() as int);
                    assert(suf[0] == vc[j as int]);
                    assert(suf.subrange(1, suf.len() as int) =~= vc.subrange(
                        j as int + 1,
                        vc.len() as int,
                    ));
                    assert(children@ =~= orig.subrange(j as int + 1, orig.len() as int));
                }
                if is_marker_node(&child) {
                    let t = text_contents(&child);
                    texts.push(t);
                    proof {
                        assert(texts.deep_view() =~= old_texts + seq![text_of(vc[j as int])]);
                        assert(old_texts + seq![text_of(vc[j as int])] + extracts_of_seq(
                            vc.subrange(j as int + 1, vc.len() as int),
                        ) =~= old_texts + (seq![text_of(vc[j as int])] + extracts_of_seq(
                            vc.subrange(j as int + 1, vc.len() as int),
                        )));
                    }
                } else {
                    proof {
                        assert(decreases_to!(n0 => n0->children));
                        assert(decreases_to!(n0->children => n0->children@));
                        assert(decreases_to!(n0->children@ => n0->children@[j as int]));
                        assert(n0->children@[j as int] == child);
                    }
                    let (c2, mut t2) = remove_markers(child);
                    out.push(c2);
                    texts.append(&mut t2);
                    proof {
                        lemma_view_seq(out@);
                        lemma_view_seq(old_out);
                        assert(DomNode::view_seq(out@) =~= DomNode::view_seq(old_out).push(
                            clean_node(vc[j as int]),
                        ));
                        assert(DomNode::view_seq(old_out).push(clean_node(vc[j as int]))
                            =~= DomNode::view_seq(old_out) + seq![clean_node(vc[j as int])]);
                        assert(DomNode::view_seq(old_out) + seq![clean_node(vc[j as int])]
                            + clean_seq(vc.subrange(j as int + 1, vc.len() as int))
                            =~= DomNode::view_seq(old_out) + (seq![clean_node(vc[j as int])]
                            + clean_seq(vc.subrange(j as int + 1, vc.len() as int))));
                        assert(texts.deep_view() =~= old_texts + extracts_of(vc[j as int]));
                        assert(old_texts + extracts_of(vc[j as int]) + extracts_of_seq(
                            vc.subrange(j as int + 1, vc.len() as int),
                        ) =~= old_texts + (extracts_of(vc[j as int]) + extracts_of_seq(
                            vc.subrange(j as int + 1, vc.len() as int),
                        )));
                    }
                }
                j += 1;
            }
            proof {
                assert(vc.subrange(vc.len() as int, vc.len() as int) =~= Seq::<NodeView>::empty());
                assert(DomNode::view_seq(out@) + Seq::<NodeView>::empty() =~= DomNode::view_seq(out@));
                assert(texts.deep_view() + Seq::<Seq<char>>::empty() =~= texts.deep_view());
            }
            (DomNode::Element { name, attrs, children: out }, texts)
        },
    }
}

/// Search the tree for a marker element.
#[verifier::loop_isolation(false)]
pub fn contains_marker(n: &DomNode) -> (r: bool)
    ensures
        r == (marker_count(n@) != 0),
    decreases n,
{
    let ghost n0 = *n;
    match n {
        DomNode::Text { .. } => false,
        DomNode::Element { children, .. } => {
            if is_marker_node(n) {
                return true;
            }
            let ghost vc = DomNode::view_seq(children@);
            proof {
                lemma_view_seq(children@);
                assert(vc.subrange(0, vc.len() as int) =~= vc);
            }
            let mut j: usize = 0;
            while j < children.len()
                invariant
                    j <= children.len(),
                    !is_marker(n@),
                    vc == DomNode::view_seq(children@),
                    vc.len() == children@.len(),
                    forall|k: int| 0 <= k < children@.len() ==> vc[k] == children@[k]@,
                    marker_count_seq(vc.subrange(j as int, vc.len() as int))
                        == marker_count_seq(vc),
                decreases children.len() - j,
            {
                let ghost suf = vc.subrange(j as int, vc.len() as int);
                proof {
                    assert(suf[0] == vc[j as int]);
                    assert(suf.subrange(1, suf.len() as int) =~= vc.subrange(
                        j as int + 1,
                        vc.len() as int,
                    ));
                }
                proof {
                    assert(decreases_to!(n0 => n0->children));
                    assert(decreases_to!(n0->children => n0->children@));
                    assert(decreases_to!(n0->children@ => n0->children@[j as int]));
                    assert(n0->children@[j as int] == children@[j as int]);
                }
                if contains_marker(&children[j]) {
                    return true;
                }
                j += 1;
            }
            proof {
                assert(vc.subrange(vc.len() as int, vc.len() as int) =~= Seq::<NodeView>::empty());
            }
            false
        },
    }
}

/// The model of a node sequence is the sequence of the models, index by
/// index.
pub proof fn lemma_view_seq(s: Seq<DomNode>)
    ensures
        DomNode::view_seq(s).len() == s.len(),
        forall|k: int| 0 <= k < s.len() ==> DomNode::view_seq(s)[k] == s[k]@,
    decreases s.len(),
{
    if s.len() > 0 {
        let rest = s.subrange(1, s.len() as int);
        lemma_view_seq(rest);
        assert forall|k: int| 0 <= k < s.len() implies DomNode::view_seq(s)[k] == s[k]@ by {
            if k > 0 {
                assert(DomNode::view_seq(s)[k] == DomNode::view_seq(rest)[k - 1]);
                assert(rest[k - 1] == s[k]);
            }
        }
    }
}

} // verus!
