//! Serialization of a document tree back to markup text: elements with their
//! attributes and close tags, text with the ampersand, angle-bracket and
//! quote characters escaped.

use vstd::prelude::*;
use vstd::string::StrSliceExecFns;
use vstd::string::StringExecFns;
use crate::dom::{document_local, DomNode, NodeView};

verus! {

/// Relies on String::push: appends exactly the one given character.
#[verifier::external_body]
pub(crate) fn push_char(s: &mut String, c: char)
    ensures
        final(s)@ == old(s)@.push(c),
{
    s.push(c);
}

/// How one character of text content is written out.
pub open spec fn esc_text_char(c: char) -> Seq<char> {
    if c == '&' {
        "&amp;"@
    } else if c == '<' {
        "&lt;"@
    } else if c == '>' {
        "&gt;"@
    } else {
        seq![c]
    }
}

/// Text content with every character written out as markup text.
pub open spec fn esc_text(s: Seq<char>) -> Seq<char>
    decreases s.len(),
{
    if s.len() == 0 {
        Seq::empty()
    } else {
        esc_text_char(s[0]) + esc_text(s.subrange(1, s.len() as int))
    }
}

/// How one character of an attribute value is written out.
pub open spec fn esc_attr_char(c: char) -> Seq<char> {
    if c == '&' {
        "&amp;"@
    } else if c == '"' {
        "&quot;"@
    } else {
        seq![c]
    }
}

/// An attribute value with every character written out.
pub open spec fn esc_attr(s: Seq<char>) -> Seq<char>
    decreases s.len(),
{
    if s.len() == 0 {
        Seq::empty()
    } else {
        esc_attr_char(s[0]) + esc_attr(s.subrange(1, s.len() as int))
    }
}

/// The serialized form of an attribute list: one leading space before each
/// attribute, values quoted and escaped.
pub open spec fn ser_attrs(attrs: Seq<(Seq<char>, Seq<char>)>) -> Seq<char>
    decreases attrs.len(),
{
    if attrs.len() == 0 {
        Seq::empty()
    } else {
        " "@ + attrs[0].0 + "=\""@ + esc_attr(attrs[0].1) + "\""@ + ser_attrs(
            attrs.subrange(1, attrs.len() as int),
        )
    }
}

/// The serialized form of a node. The synthetic document root writes only
/// its children; any other element writes an open tag with its attributes,
/// its serialized children, and a close tag.
pub open spec fn ser_node(n: NodeView) -> Seq<char>
    decreases n, 0int,
{
    match n {
        NodeView::Text { content } => esc_text(content),
        NodeView::Element { local, attrs, children, .. } => if local == document_local() {
            ser_children(children)
        } else {
            "<"@ + local + ser_attrs(attrs) + ">"@ + ser_children(children) + "</"@ + local + ">"@
        },
    }
}

/// The concatenated serialized forms of a sequence of nodes.
pub open spec fn ser_children(s: Seq<NodeView>) -> Seq<char>
    decreases s, 0int,
{
    if s.len() == 0 {
        Seq::empty()
    } else {
        ser_node(s[0]) + ser_children(s.subrange(1, s.len() as int))
    }
}

/// Write out text content, escaped.
#[verifier::loop_isolation(false)]
fn esc_text_exec(s: &str) -> (r: String)
    ensures
        r@ == esc_text(s@),
{
    let n = s.unicode_len();
    let mut out = String::new();
    proof {
        assert(s@.subrange(0, s@.len() as int) =~= s@);
        assert(out@ + esc_text(s@) =~= esc_text(s@));
    }
    let mut i: usize = 0;
    while i < n
        invariant
            i <= n,
            n == s@.len(),
            out@ + esc_text(s@.subrange(i as int, s@.len() as int)) == esc_text(s@),
        decreases n - i,
    {
        let ghost suf = s@.subrange(i as int, s@.len() as int);
        let ghost old_out = out@;
        proof {
            assert(suf[0] == s@[i as int]);
            assert(suf.subrange(1, suf.len() as int) =~= s@.subrange(
                i as int + 1,
                s@.len() as int,
            ));
        }
        let c = s.get_char(i);
        if c == '&' {
            out.append("&amp;");
        } else if c == '<' {
            out.append("&lt;");
        } else if c == '>' {
            out.append("&gt;");
        } else {
            push_char(&mut out, c);
        }
        proof {
            let co = esc_text_char(s@[i as int]);
            let rest = esc_text(s@.subrange(i as int + 1, s@.len() as int));
            assert(out@ =~= old_out + co);
            assert((old_out + co) + rest =~= old_out + (co + rest));
        }
        i += 1;
    }
    proof {
        assert(s@.subrange(s@.len() as int, s@.len() as int) =~= Seq::<char>::empty());
        assert(out@ + Seq::<char>::empty() =~= out@);
    }
    out
}

/// Write out an attribute value, escaped.
#[verifier::loop_isolation(false)]
fn esc_attr_exec(s: &str) -> (r: String)
    ensures
        r@ == esc_attr(s@),
{
    let n = s.unicode_len();
    let mut out = String::new();
    proof {
        assert(s@.subrange(0, s@.len() as int) =~= s@);
        assert(out@ + esc_attr(s@) =~= esc_attr(s@));
    }
    let mut i: usize = 0;
    while i < n
        invariant
            i <= n,
            n == s@.len(),
            out@ + esc_attr(s@.subrange(i as int, s@.len() as int)) == esc_attr(s@),
        decreases n - i,
    {
        let ghost suf = s@.subrange(i as int, s@.len() as int);
        let ghost old_out = out@;
        proof {
            assert(suf[0] == s@[i as int]);
            assert(suf.subrange(1, suf.len() as int) =~= s@.subrange(
                i as int + 1,
                s@.len() as int,
            ));
        }
        let c = s.get_char(i);
        if c == '&' {
            out.append("&amp;");
        } else if c == '"' {
            out.append("&quot;");
        } else {
            push_char(&mut out, c);
        }
        proof {
            let co = esc_attr_char(s@[i as int]);
            let rest = esc_attr(s@.subrange(i as int + 1, s@.len() as int));
            assert(out@ =~= old_out + co);
            assert((old_out + co) + rest =~= old_out + (co + rest));
        }
        i += 1;
    }
    proof {
        assert(s@.subrange(s@.len() as int, s@.len() as int) =~= Seq::<char>::empty());
        assert(out@ + Seq::<char>::empty() =~= out@);
    }
    out
}

/// Serialize a document tree to markup text.
#[verifier::loop_isolation(false)]
#[verifier::rlimit(60)]
pub fn to_html(n: &DomNode) -> (r: String)
    ensures
        r@ == ser_node(n@),
    decreases n,
{
    let ghost n0 = *n;
    match n {
        DomNode::Text { content } => esc_text_exec(content.as_str()),
        DomNode::Element { name, attrs, children } => {
            let ghost av = attrs@.map_values(|p: (String, String)| (p.0@, p.1@));
            let ghost vc = DomNode::view_seq(children@);
            proof {
                crate::dom::lemma_view_seq(children@);
                assert(av.subrange(0, av.len() as int) =~= av);
                assert(vc.subrange(0, vc.len() as int) =~= vc);
            }
            let doc_name = String::from_str("#document");
            let is_doc = name.local == doc_name;
            let mut out = String::new();
            if !is_doc {
                out.append("<");
                out.append(name.local.as_str());
                proof {
                    assert(out@ =~= "<"@ + name.local@);
                }
                let ghost open_prefix = "<"@ + name.local@;
                let mut k: usize = 0;
                while k < attrs.len()
                    invariant
                        k <= attrs.len(),
                        av.len() == attrs@.len(),
                        out@ + ser_attrs(av.subrange(k as int, av.len() as int)) == open_prefix
                            + ser_attrs(av),
                    decreases attrs.len() - k,
                {
                    let ghost suf = av.subrange(k as int, av.len() as int);
                    let ghost old_out = out@;
                    proof {
                        assert(suf[0] == av[k as int]);
                        assert(suf.subrange(1, suf.len() as int) =~= av.subrange(
                            k as int + 1,
                            av.len() as int,
                        ));
                        assert(av[k as int] == (attrs@[k as int].0@, attrs@[k as int].1@));
                    }
                    let a = &attrs[k];
                    out.append(" ");
                    out.append(a.0.as_str());
                    out.append("=\"");
                    let escaped = esc_attr_exec(a.1.as_str());
                    out.append(escaped.as_str());
                    out.append("\"");
                    proof {
                        let step = " "@ + av[k as int].0 + "=\""@ + esc_attr(av[k as int].1)
                            + "\""@;
                        let rest = ser_attrs(av.subrange(k as int + 1, av.len() as int));
                        assert(out@ =~= old_out + step);
                        assert((old_out + step) + rest =~= old_out + (step + rest));
                    }
                    k += 1;
                }
                proof {
                    assert(av.subrange(av.len() as int, av.len() as int) =~= Seq::<(
                        Seq<char>,
                        Seq<char>,
                    )>::empty());
                    assert(out@ + Seq::<char>::empty() =~= out@);
                }
                out.append(">");
            }
            let ghost head = if is_doc {
                Seq::<char>::empty()
            } else {
                "<"@ + name.local@ + ser_attrs(av) + ">"@
            };
            proof {
                assert(out@ =~= head);
            }
            let mut j: usize = 0;
            while j < children.len()
                invariant
                    j <= children.len(),
                    vc.len() == children@.len(),
                    forall|k2: int| 0 <= k2 < children@.len() ==> vc[k2] == children@[k2]@,
                    out@ + ser_children(vc.subrange(j as int, vc.len() as int)) == head
                        + ser_children(vc),
                decreases children.len() - j,
            {
                let ghost suf = vc.subrange(j as int, vc.len() as int);
                let ghost old_out = out@;
                proof {
                    assert(suf[0] == vc[j as int]);
                    assert(suf.subrange(1, suf.len() as int) =~= vc.subrange(
                        j as int + 1,
                        vc.len() as int,
                    ));
                    assert(decreases_to!(n0 => n0->children));
                    assert(decreases_to!(n0->children => n0->children@));
                    assert(decreases_to!(n0->children@ => n0->children@[j as int]));
                    assert(n0->children@[j as int] == children@[j as int]);
                }
                let piece = to_html(&children[j]);
                out.append(piece.as_str());
                proof {
                    let step = ser_node(vc[j as int]);
                    let rest = ser_children(vc.subrange(j as int + 1, vc.len() as int));
                    assert(out@ =~= old_out + step);
                    assert((old_out + step) + rest =~= old_out + (step + rest));
                }
                j += 1;
            }
            proof {
                assert(vc.subrange(vc.len() as int, vc.len() as int) =~= Seq::<NodeView>::empty());
                assert(out@ + Seq::<char>::empty() =~= out@);
            }
            if !is_doc {
                out.append("</");
                out.append(name.local.as_str());
                out.append(">");
                proof {
                    let a1 = head + ser_children(vc);
                    assert((a1 + "</"@) + name.local@ + ">"@ =~= a1 + "</"@ + name.local@ + ">"@);
                }
            }
            out
        },
    }
}

} // verus!
