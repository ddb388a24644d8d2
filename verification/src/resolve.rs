//! Source resolution: a URI path is normalized against a configured root
//! directory, never escaping it, and HTML payloads run through the modifier
//! chain before they are returned.

use vstd::prelude::*;
use vstd::string::StrSliceExecFns;
use vstd::string::StringExecFns;
use crate::dom::{
    clean_node, document_local, extracts_of, is_marker, marker_count, marker_local,
    lemma_clean_removes_all, DomNode,
};
use crate::parse::{parse_html, parsed_doc};
use crate::mods::{apply_mods, chain_spec, HtmlMod};
use crate::ser::{ser_node, to_html};

verus! {

/// Why a resolution call failed.
#[derive(Debug)]
pub enum SourceError {
    /// The resolved path has no backing resource.
    NotFound,
    /// Normalizing the URI path would escape the configured root.
    OutOfRoot,
    /// The backing resource could not be read.
    ReadError,
    /// The payload could not be parsed as a document.
    ParseError,
    /// A modifier in the chain failed; the rest of the chain never ran.
    ModifierError { message: String },
}

/// A URI path split at every slash. The result always holds at least one
/// segment; empty segments stand for leading, trailing or doubled slashes.
pub open spec fn split_path(s: Seq<char>) -> Seq<Seq<char>>
    decreases s.len(),
{
    if s.len() == 0 {
        seq![Seq::empty()]
    } else if s[0] == '/' {
        seq![Seq::<char>::empty()] + split_path(s.subrange(1, s.len() as int))
    } else {
        let r = split_path(s.subrange(1, s.len() as int));
        seq![seq![s[0]] + r[0]] + r.subrange(1, r.len() as int)
    }
}

/// Resolve `.` and `..` segments against a stack of kept segments. Empty
/// and `.` segments vanish; `..` pops the stack, and popping an empty stack
/// means the path escapes the root: no normalization exists.
pub open spec fn norm_from(segs: Seq<Seq<char>>, stack: Seq<Seq<char>>) -> Option<
    Seq<Seq<char>>,
>
    decreases segs.len(),
{
    if segs.len() == 0 {
        Some(stack)
    } else {
        let rest = segs.subrange(1, segs.len() as int);
        if segs[0] == Seq::<char>::empty() || segs[0] == "."@ {
            norm_from(rest, stack)
        } else if segs[0] == ".."@ {
            if stack.len() == 0 {
                None
            } else {
                norm_from(rest, stack.drop_last())
            }
        } else {
            norm_from(rest, stack.push(segs[0]))
        }
    }
}

/// The normalized segments of a URI path, or nothing when the path would
/// escape the root.
pub open spec fn normalize_path(s: Seq<char>) -> Option<Seq<Seq<char>>> {
    norm_from(split_path(s), Seq::empty())
}

/// Segments joined below a root: one slash before each segment.
pub open spec fn join_segs(segs: Seq<Seq<char>>) -> Seq<char>
    decreases segs.len(),
{
    if segs.len() == 0 {
        Seq::empty()
    } else {
        "/"@ + segs[0] + join_segs(segs.subrange(1, segs.len() as int))
    }
}

/// A path designates an HTML resource when it ends in `.html`.
pub open spec fn is_html_path(s: Seq<char>) -> bool {
    s.len() >= 5 && s.subrange(s.len() - 5, s.len() as int) == ".html"@
}

/// Split a URI path at every slash.
#[verifier::loop_isolation(false)]
fn split_segments(path: &str) -> (r: Vec<String>)
    ensures
        r.deep_view() == split_path(path@),
{
    let n = path.unicode_len();
    let mut out: Vec<String> = Vec::new();
    let mut cur = String::new();
    let mut i: usize = 0;
    proof {
        assert(path@.subrange(0, path@.len() as int) =~= path@);
        assert(out.deep_view() =~= Seq::<Seq<char>>::empty());
    }
    while i < n
        invariant
            i <= n,
            n == path@.len(),
            split_path(path@) == out.deep_view() + glue(cur@, split_path(
                path@.subrange(i as int, path@.len() as int),
            )),
        decreases n - i,
    {
        let ghost suf = path@.subrange(i as int, path@.len() as int);
        let ghost old_out = out.deep_view();
        let ghost old_cur = cur@;
        proof {
            assert(suf[0] == path@[i as int]);
            assert(suf.subrange(1, suf.len() as int) =~= path@.subrange(
                i as int + 1,
                path@.len() as int,
            ));
        }
        let c = path.get_char(i);
        if c == '/' {
            out.push(cur);
            cur = String::new();
            proof {
                let tail = split_path(path@.subrange(i as int + 1, path@.len() as int));
                assert(out.deep_view() =~= old_out.push(old_cur));
                assert(glue(old_cur, split_path(suf)) =~= seq![old_cur] + tail);
                assert(glue(cur@, tail) =~= tail);
                assert(old_out + (seq![old_cur] + tail) =~= (old_out.push(old_cur)) + tail);
            }
        } else {
            crate::ser::push_char(&mut cur, c);
            proof {
                let t = split_path(path@.subrange(i as int + 1, path@.len() as int));
                assert(split_path(suf) =~= seq![seq![path@[i as int]] + t[0]] + t.subrange(
                    1,
                    t.len() as int,
                ));
                assert(old_cur + (seq![path@[i as int]] + t[0]) =~= (old_cur.push(
                    path@[i as int],
                )) + t[0]);
                assert(glue(old_cur, split_path(suf)) =~= glue(cur@, t));
            }
        }
        i += 1;
    }
    proof {
        assert(path@.subrange(path@.len() as int, path@.len() as int) =~= Seq::<char>::empty());
        assert(glue(cur@, split_path(Seq::empty())) =~= seq![cur@]);
    }
    out.push(cur);
    proof {
        assert(out.deep_view() =~= split_path(path@));
    }
    out
}

/// A partial first segment glued onto the front of a split tail.
pub open spec fn glue(cur: Seq<char>, segs: Seq<Seq<char>>) -> Seq<Seq<char>> {
    seq![cur + segs[0]] + segs.subrange(1, segs.len() as int)
}

/// Resolve `.` and `..` segments, rejecting a path that escapes the root.
#[verifier::loop_isolation(false)]
fn normalize_segments(segs: Vec<String>) -> (r: Option<Vec<String>>)
    ensures
        match r {
            Some(v) => normalize_path_of(segs.deep_view()) == Some(v.deep_view()),
            None => normalize_path_of(segs.deep_view()) is None,
        },
{
    let ghost sv = segs.deep_view();
    let dot = String::from_str(".");
    let dotdot = String::from_str("..");
    let empty = String::new();
    let mut stack: Vec<String> = Vec::new();
    let mut k: usize = 0;
    proof {
        assert(sv.subrange(0, sv.len() as int) =~= sv);
        assert(stack.deep_view() =~= Seq::<Seq<char>>::empty());
    }
    while k < segs.len()
        invariant
            k <= segs.len(),
            sv.len() == segs@.len(),
            forall|t: int| 0 <= t < segs@.len() ==> sv[t] == segs@[t]@,
            dot@ == "."@,
            dotdot@ == ".."@,
            empty@ == Seq::<char>::empty(),
            norm_from(sv.subrange(k as int, sv.len() as int), stack.deep_view()) == norm_from(
                sv,
                Seq::empty(),
            ),
        decreases segs.len() - k,
    {
        let ghost suf = sv.subrange(k as int, sv.len() as int);
        let ghost old_stack = stack.deep_view();
        proof {
            assert(suf[0] == sv[k as int]);
            assert(suf.subrange(1, suf.len() as int) =~= sv.subrange(
                k as int + 1,
                sv.len() as int,
            ));
        }
        let seg = &segs[k];
        if *seg == empty || *seg == dot {
            // dropped: stands for a doubled slash or a self reference
        } else if *seg == dotdot {
            if stack.len() == 0 {
                return None;
            }
            stack.pop();
            proof {
                assert(stack.deep_view() =~= old_stack.drop_last());
            }
        } else {
            stack.push(seg.clone());
            proof {
                assert(stack.deep_view() =~= old_stack.push(sv[k as int]));
            }
        }
        k += 1;
    }
    proof {
        assert(sv.subrange(sv.len() as int, sv.len() as int) =~= Seq::<Seq<char>>::empty());
    }
    Some(stack)
}

/// The same normalization, named over a segment sequence.
pub open spec fn normalize_path_of(segs: Seq<Seq<char>>) -> Option<Seq<Seq<char>>> {
    norm_from(segs, Seq::empty())
}

/// Join normalized segments below the root.
#[verifier::loop_isolation(false)]
fn join_under(root: &str, segs: &Vec<String>) -> (r: String)
    ensures
        r@ == root@ + join_segs(segs.deep_view()),
{
    let ghost sv = segs.deep_view();
    let mut out = String::from_str(root);
    let mut k: usize = 0;
    proof {
        assert(sv.subrange(0, sv.len() as int) =~= sv);
        assert(out@ + join_segs(sv) =~= root@ + join_segs(sv));
    }
    while k < segs.len()
        invariant
            k <= segs.len(),
            sv.len() == segs@.len(),
            forall|t: int| 0 <= t < segs@.len() ==> sv[t] == segs@[t]@,
            out@ + join_segs(sv.subrange(k as int, sv.len() as int)) == root@ + join_segs(sv),
        decreases segs.len() - k,
    {
        let ghost suf = sv.subrange(k as int, sv.len() as int);
        let ghost old_out = out@;
        proof {
            assert(suf[0] == sv[k as int]);
            assert(suf.subrange(1, suf.len() as int) =~= sv.subrange(
                k as int + 1,
                sv.len() as int,
            ));
        }
        out.append("/");
        out.append(segs[k].as_str());
        proof {
            let step = "/"@ + sv[k as int];
            let rest = join_segs(sv.subrange(k as int + 1, sv.len() as int));
            assert(out@ =~= old_out + step);
            assert((old_out + step) + rest =~= old_out + (step + rest));
        }
        k += 1;
    }
    proof {
        assert(sv.subrange(sv.len() as int, sv.len() as int) =~= Seq::<Seq<char>>::empty());
        assert(out@ + Seq::<char>::empty() =~= out@);
    }
    out
}

/// One resolved source: the identifier it was resolved for and the payload.
pub struct ResolvedSource {
    pub uri: String,
    pub body: Vec<u8>,
}

/// Maps source URIs onto a configured root and runs HTML payloads through
/// an ordered modifier chain. The root, authority and chain are fixed at
/// construction.
pub struct SourceResolver<M: HtmlMod> {
    /// The directory all resolved paths stay within.
    pub root: String,
    /// The configured authority (host and port) of canonical addresses.
    pub authority: String,
    /// The modifier chain, applied to HTML payloads in order.
    pub mods: Vec<M>,
}

impl<M: HtmlMod> SourceResolver<M> {
    /// Build a resolver for a root, an authority and a modifier chain.
    pub fn new(root: String, authority: String, mods: Vec<M>) -> (r: SourceResolver<M>)
        ensures
            r.root@ == root@,
            r.authority@ == authority@,
            r.mods == mods,
    {
        SourceResolver { root, authority, mods }
    }

    /// Map a URI path onto the root. A path whose normalization would fall
    /// outside the root is rejected, never clamped: exactly those paths
    /// fail, and they fail with `OutOfRoot`.
    pub fn local_path(&self, uri_path: &str) -> (r: Result<String, SourceError>)
        ensures
            match normalize_path(uri_path@) {
                Some(segs) => r matches Ok(p) && p@ == self.root@ + join_segs(segs),
                None => r matches Err(e) && e is OutOfRoot,
            },
    {
        let segs = split_segments(uri_path);
        match normalize_segments(segs) {
            Some(v) => Ok(join_under(self.root.as_str(), &v)),
            None => Err(SourceError::OutOfRoot),
        }
    }

    /// Run an HTML payload through the modifier chain: parse it, apply the
    /// chain in order, and serialize the result. The first modifier failure
    /// aborts the chain and surfaces as `ModifierError`.
    pub fn process_html(&self, input: &str) -> (r: Result<String, SourceError>)
        ensures
            match chain_spec(self.mods@, parsed_doc(input@)) {
                Ok(v) => r matches Ok(out) && out@ == ser_node(v),
                Err(m) => r matches Err(e) && (e matches SourceError::ModifierError { message }
                    && message@ == m),
            },
    {
        let doc = parse_html(input);
        match apply_mods(&self.mods, doc) {
            Ok(d2) => Ok(to_html(&d2)),
            Err(e) => Err(SourceError::ModifierError { message: e.message }),
        }
    }
}

/// Strip every marker element from markup text: parse it, remove markers,
/// and serialize what remains. The cleaned document holds no marker at all,
/// and the extracted text of each stripped block comes back beside it.
pub fn strip_markers(input: &str) -> (r: (String, Vec<String>))
    ensures
        r.0@ == ser_node(clean_node(parsed_doc(input@))),
        r.1.deep_view() == extracts_of(parsed_doc(input@)),
        marker_count(clean_node(parsed_doc(input@))) == 0,
{
    let doc = parse_html(input);
    proof {
        reveal_strlit("#document");
        reveal_strlit("nib:script");
        assert(document_local().len() == 9);
        assert(marker_local().len() == 10);
        assert(document_local() != marker_local());
        assert(!is_marker(doc@));
        lemma_clean_removes_all(doc@);
    }
    let (cleaned, texts) = crate::dom::remove_markers(doc);
    (to_html(&cleaned), texts)
}

/// Decide whether a path names an HTML resource.
pub fn path_is_html(path: &str) -> (r: bool)
    ensures
        r == is_html_path(path@),
{
    let n = path.unicode_len();
    if n < 5 {
        return false;
    }
    let tail = path.substring_char(n - 5, n);
    let t = String::from_str(tail);
    let h = String::from_str(".html");
    t == h
}

} // verus!
