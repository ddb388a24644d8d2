use reqaz::dom::{DomNode, NodeView, QName};
use reqaz::mods::{apply_mods, HtmlMod, ModError, ScriptMod};
use vstd::prelude::Seq;

/// A modifier that always fails, standing in for a broken chain member.
struct FailMod;

impl HtmlMod for FailMod {
    fn modify_spec(&self, _doc: NodeView) -> Result<NodeView, Seq<char>> {
        panic!()
    }

    fn modify(&self, _doc: DomNode) -> Result<DomNode, ModError> {
        Err(ModError { message: "broken".to_string() })
    }
}

/// A modifier that records whether it ever ran.
struct SpyMod(std::rc::Rc<std::cell::Cell<bool>>);

impl HtmlMod for SpyMod {
    fn modify_spec(&self, _doc: NodeView) -> Result<NodeView, Seq<char>> {
        panic!()
    }

    fn modify(&self, doc: DomNode) -> Result<DomNode, ModError> {
        self.0.set(true);
        Ok(doc)
    }
}

enum EitherMod {
    Fail(FailMod),
    Spy(SpyMod),
}

impl HtmlMod for EitherMod {
    fn modify_spec(&self, _doc: NodeView) -> Result<NodeView, Seq<char>> {
        panic!()
    }

    fn modify(&self, doc: DomNode) -> Result<DomNode, ModError> {
        match self {
            EitherMod::Fail(m) => m.modify(doc),
            EitherMod::Spy(m) => m.modify(doc),
        }
    }
}

fn doc() -> DomNode {
    DomNode::Element {
        name: QName { ns: String::new(), local: "#document".to_string() },
        attrs: Vec::new(),
        children: Vec::new(),
    }
}

#[test]
fn first_failure_short_circuits_the_chain() {
    let ran = std::rc::Rc::new(std::cell::Cell::new(false));
    let mods = vec![
        EitherMod::Fail(FailMod),
        EitherMod::Spy(SpyMod(std::rc::Rc::clone(&ran))),
    ];
    let e = match apply_mods(&mods, doc()) {
        Err(e) => e,
        Ok(_) => panic!("the chain must fail"),
    };
    assert_eq!(e.message, "broken");
    assert!(!ran.get(), "a modifier after the failing one must never run");
}

#[test]
fn chain_of_script_mods_succeeds() {
    let mods = vec![ScriptMod::new("/p.html".to_string())];
    assert!(apply_mods(&mods, doc()).is_ok());
}
