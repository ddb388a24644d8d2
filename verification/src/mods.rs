//! Document modifiers: single transformation units over a document tree,
//! composed into an ordered chain that is applied left to right and stops at
//! the first failure.

use vstd::prelude::*;
use crate::dom::{clean_node, extracts_of, remove_markers, DomNode, NodeView};

verus! {

/// Failure of a document modifier, carrying a human-readable message.
pub struct ModError {
    pub message: String,
}

/// A document transformation unit: given a document tree it produces a new
/// tree or fails. What it produces may depend only on the input tree and the
/// modifier's own construction-time configuration.
pub trait HtmlMod {
    /// The transformation this modifier performs, as a function of the tree.
    spec fn modify_spec(&self, doc: NodeView) -> Result<NodeView, Seq<char>>;

    /// Apply the modifier to an owned document tree.
    fn modify(&self, doc: DomNode) -> (r: Result<DomNode, ModError>)
        ensures
            match r {
                Ok(d) => self.modify_spec(doc@) matches Ok(v) && d@ == v,
                Err(e) => self.modify_spec(doc@) matches Err(m) && e.message@ == m,
            },
    ;
}

/// The modifier that strips the reserved marker element: every marker is
/// detached with its whole subtree, and the text content of each stripped
/// block is extracted before removal.
pub struct ScriptMod {
    /// The URI of the page being modified, fixed at construction.
    pub page_uri: String,
}

impl ScriptMod {
    /// Build the modifier for one page.
    pub fn new(page_uri: String) -> (m: ScriptMod)
        ensures
            m.page_uri@ == page_uri@,
    {
        ScriptMod { page_uri }
    }

    /// Remove every marker element and hand back the cleaned tree together
    /// with the extracted text content of each stripped block, in document
    /// order.
    pub fn extract(&self, doc: DomNode) -> (r: (DomNode, Vec<String>))
        ensures
            r.0@ == clean_node(doc@),
            r.1.deep_view() == extracts_of(doc@),
    {
        remove_markers(doc)
    }
}

impl HtmlMod for ScriptMod {
    open spec fn modify_spec(&self, doc: NodeView) -> Result<NodeView, Seq<char>> {
        Ok(clean_node(doc))
    }

    fn modify(&self, doc: DomNode) -> (r: Result<DomNode, ModError>) {
        let (cleaned, _texts) = remove_markers(doc);
        Ok(cleaned)
    }
}

/// The result of running a modifier chain left to right: each modifier
/// receives the tree produced by its predecessors, and the first failure
/// ends the chain with that failure.
pub open spec fn chain_spec<M: HtmlMod>(mods: Seq<M>, doc: NodeView) -> Result<
    NodeView,
    Seq<char>,
>
    decreases mods.len(),
{
    if mods.len() == 0 {
        Ok(doc)
    } else {
        match mods[0].modify_spec(doc) {
            Ok(d2) => chain_spec(mods.subrange(1, mods.len() as int), d2),
            Err(m) => Err(m),
        }
    }
}

/// Chain short-circuit: when the first modifier fails, the whole chain fails
/// with exactly that modifier's error, whatever the later modifiers are, and
/// no later modifier contributes to the result.
pub proof fn lemma_chain_short_circuit<M: HtmlMod>(mods: Seq<M>, doc: NodeView, msg: Seq<char>)
    requires
        mods.len() >= 1,
        mods[0].modify_spec(doc) == Result::<NodeView, Seq<char>>::Err(msg),
    ensures
        chain_spec(mods, doc) == Result::<NodeView, Seq<char>>::Err(msg),
{
}

/// Apply an ordered modifier chain to a document tree, failing fast at the
/// first modifier that fails.
#[verifier::loop_isolation(false)]
pub fn apply_mods<M: HtmlMod>(mods: &Vec<M>, doc: DomNode) -> (r: Result<DomNode, ModError>)
    ensures
        match r {
            Ok(d) => chain_spec(mods@, doc@) matches Ok(v) && d@ == v,
            Err(e) => chain_spec(mods@, doc@) matches Err(m) && e.message@ == m,
        },
{
    let ghost doc0 = doc@;
    proof {
        assert(mods@.subrange(0, mods@.len() as int) =~= mods@);
    }
    let mut cur = doc;
    let mut i: usize = 0;
    while i < mods.len()
        invariant
            i <= mods.len(),
            chain_spec(mods@.subrange(i as int, mods@.len() as int), cur@) == chain_spec(
                mods@,
                doc0,
            ),
        decreases mods.len() - i,
    {
        let ghost suf = mods@.subrange(i as int, mods@.len() as int);
        proof {
            assert(suf[0] == mods@[i as int]);
            assert(suf.subrange(1, suf.len() as int) =~= mods@.subrange(
                i as int + 1,
                mods@.len() as int,
            ));
        }
        match mods[i].modify(cur) {
            Ok(next) => {
                cur = next;
            },
            Err(e) => {
                return Err(e);
            },
        }
        i += 1;
    }
    proof {
        assert(mods@.subrange(mods@.len() as int, mods@.len() as int) =~= Seq::<M>::empty());
    }
    Ok(cur)
}

} // verus!
