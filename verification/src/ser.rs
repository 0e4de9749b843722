//! Rendering of document trees to wire bytes, in a compact form for the
//! wire and a pretty form for human eyes.  Both produce byte-identical
//! content and differ only in the whitespace inserted between tags.

use vstd::prelude::*;
use vstd::string::*;
use vstd::utf8::encode_utf8;

use crate::xml::{
    node_view_parts, render_compact, render_compact_seq, xheight, xheight_child, Node, XNode,
};

verus! {

/// `s` repeated `n` times.
pub open spec fn seq_rep(s: Seq<char>, n: nat) -> Seq<char>
    decreases n,
{
    if n == 0 {
        Seq::<char>::empty()
    } else {
        seq_rep(s, (n - 1) as nat) + s
    }
}

/// The exact text a `Serializer` produces for a node at a nesting level,
/// given the formatter's line separator and indent unit.  An element with
/// children opens, emits a separator, renders each child one level
/// deeper, and closes on its own padded line; an empty leaf self-closes
/// with no space before the slash; any other leaf holds its content
/// inline.  Content on an element with children is not rendered: in this
/// dialect content is meaningful only on leaves.
pub open spec fn render_fmt(t: XNode, sep: Seq<char>, ind: Seq<char>, l: nat) -> Seq<char>
    decreases t,
{
    let pad = seq_rep(ind, l);
    if t.children.len() > 0 {
        pad + seq!['<'] + t.tag + seq!['>'] + sep + render_fmt_seq(
            t.children,
            sep,
            ind,
            (l + 1) as nat,
        ) + pad + seq!['<', '/'] + t.tag + seq!['>'] + sep
    } else if t.content.len() == 0 {
        pad + seq!['<'] + t.tag + seq!['/', '>'] + sep
    } else {
        pad + seq!['<'] + t.tag + seq!['>'] + t.content + seq!['<', '/'] + t.tag + seq!['>'] + sep
    }
}

pub open spec fn render_fmt_seq(cs: Seq<XNode>, sep: Seq<char>, ind: Seq<char>, l: nat) -> Seq<
    char,
>
    decreases cs,
{
    if cs.len() == 0 {
        Seq::<char>::empty()
    } else {
        render_fmt(cs[0], sep, ind, l) + render_fmt_seq(
            cs.subrange(1, cs.len() as int),
            sep,
            ind,
            l,
        )
    }
}

proof fn lemma_render_fmt_seq_snoc(cs: Seq<XNode>, x: XNode, sep: Seq<char>, ind: Seq<char>, l: nat)
    ensures
        render_fmt_seq(cs.push(x), sep, ind, l) =~= render_fmt_seq(cs, sep, ind, l) + render_fmt(
            x,
            sep,
            ind,
            l,
        ),
    decreases cs.len(),
{
    if cs.len() == 0 {
        assert(cs.push(x)[0] == x);
        assert(cs.push(x).subrange(1, 1) =~= Seq::<XNode>::empty());
        assert(render_fmt_seq(cs.push(x).subrange(1, 1), sep, ind, l) =~= Seq::<char>::empty());
        assert(render_fmt_seq(cs.push(x), sep, ind, l) =~= render_fmt(x, sep, ind, l));
    } else {
        let tail = cs.subrange(1, cs.len() as int);
        assert(cs.push(x)[0] == cs[0]);
        assert(cs.push(x).subrange(1, cs.len() as int + 1) =~= tail.push(x));
        lemma_render_fmt_seq_snoc(tail, x, sep, ind, l);
        assert(render_fmt_seq(cs.push(x), sep, ind, l) =~= render_fmt(cs[0], sep, ind, l)
            + render_fmt_seq(tail.push(x), sep, ind, l));
        assert(render_fmt(cs[0], sep, ind, l) + (render_fmt_seq(tail, sep, ind, l) + render_fmt(
            x,
            sep,
            ind,
            l,
        )) =~= render_fmt_seq(cs, sep, ind, l) + render_fmt(x, sep, ind, l));
    }
}

proof fn lemma_seq_rep_empty(l: nat)
    ensures
        seq_rep(Seq::<char>::empty(), l) =~= Seq::<char>::empty(),
    decreases l,
{
    if l > 0 {
        lemma_seq_rep_empty((l - 1) as nat);
    }
}

/// With no separator and no indent the formatted rendering is exactly
/// the canonical compact rendering.
pub proof fn lemma_render_fmt_compact(t: XNode, l: nat)
    ensures
        render_fmt(t, Seq::<char>::empty(), Seq::<char>::empty(), l) == render_compact(t),
    decreases t,
{
    lemma_seq_rep_empty(l);
    if t.children.len() > 0 {
        lemma_render_fmt_compact_seq(t.children, (l + 1) as nat);
        assert(render_fmt(t, Seq::<char>::empty(), Seq::<char>::empty(), l) =~= render_compact(t));
    } else {
        assert(render_fmt(t, Seq::<char>::empty(), Seq::<char>::empty(), l) =~= render_compact(t));
    }
}

proof fn lemma_render_fmt_compact_seq(cs: Seq<XNode>, l: nat)
    ensures
        render_fmt_seq(cs, Seq::<char>::empty(), Seq::<char>::empty(), l) == render_compact_seq(cs),
    decreases cs,
{
    if cs.len() > 0 {
        lemma_render_fmt_compact(cs[0], l);
        lemma_render_fmt_compact_seq(cs.subrange(1, cs.len() as int), l);
        assert(render_fmt_seq(cs, Seq::<char>::empty(), Seq::<char>::empty(), l)
            =~= render_compact_seq(cs));
    } else {
        assert(render_fmt_seq(cs, Seq::<char>::empty(), Seq::<char>::empty(), l)
            =~= render_compact_seq(cs));
    }
}

/// The whitespace policy of a rendering: what separates lines and what
/// one level of indentation looks like.
pub trait Formatter: Sized {
    spec fn sep_spec(&self) -> Seq<char>;

    spec fn indent_spec(&self) -> Seq<char>;

    fn sep(&self) -> (r: &str)
        ensures
            r@ == self.sep_spec(),
    ;

    fn indent(&self) -> (r: &str)
        ensures
            r@ == self.indent_spec(),
    ;
}

/// No whitespace at all: the form that goes on the wire.
pub struct CompactFormatter;

impl Formatter for CompactFormatter {
    open spec fn sep_spec(&self) -> Seq<char> {
        Seq::<char>::empty()
    }

    open spec fn indent_spec(&self) -> Seq<char> {
        Seq::<char>::empty()
    }

    fn sep(&self) -> (r: &str) {
        proof {
            reveal_strlit("");
            assert(""@ =~= Seq::<char>::empty());
        }
        ""
    }

    fn indent(&self) -> (r: &str) {
        proof {
            reveal_strlit("");
            assert(""@ =~= Seq::<char>::empty());
        }
        ""
    }
}

/// One element per line, nested elements indented by a configurable
/// indent string.
pub struct PrettyFormatter {
    indention: String,
}

impl PrettyFormatter {
    pub fn new() -> (r: Self)
        ensures
            r.sep_spec() == seq!['\n'],
            r.indent_spec() == seq![' ', ' '],
    {
        proof {
            reveal_strlit("  ");
            assert("  "@ =~= seq![' ', ' ']);
        }
        Self::with_indent("  ")
    }

    pub fn with_indent(indent: &str) -> (r: Self)
        ensures
            r.sep_spec() == seq!['\n'],
            r.indent_spec() == indent@,
    {
        PrettyFormatter { indention: String::from_str(indent) }
    }
}

impl Formatter for PrettyFormatter {
    open spec fn sep_spec(&self) -> Seq<char> {
        seq!['\n']
    }

    closed spec fn indent_spec(&self) -> Seq<char> {
        self.indention@
    }

    fn sep(&self) -> (r: &str) {
        proof {
            reveal_strlit("\n");
            assert("\n"@ =~= seq!['\n']);
        }
        "\n"
    }

    fn indent(&self) -> (r: &str) {
        self.indention.as_str()
    }
}

/// Writes one node, with its subtree, onto the end of `out`.
fn write_node<F: Formatter>(
    f: &F,
    n: &Node,
    out: &mut String,
    pad: &String,
    Ghost(level): Ghost<nat>,
)
    requires
        pad@ == seq_rep(f.indent_spec(), level),
    ensures
        final(out)@ == old(out)@ + render_fmt(n@, f.sep_spec(), f.indent_spec(), level),
    decreases xheight(n@),
{
    proof {
        node_view_parts(n);
        reveal_strlit("<");
        reveal_strlit(">");
        reveal_strlit("</");
        reveal_strlit("/>");
        assert("<"@ =~= seq!['<']);
        assert(">"@ =~= seq!['>']);
        assert("</"@ =~= seq!['<', '/']);
        assert("/>"@ =~= seq!['/', '>']);
    }
    let ghost base = old(out)@;
    let ghost sep = f.sep_spec();
    let ghost ind = f.indent_spec();
    out.append(pad.as_str());
    out.append("<");
    out.append(n.tag.as_str());
    if n.children.len() > 0 {
        out.append(">");
        out.append(f.sep());
        let ghost head = base + pad@ + seq!['<'] + n@.tag + seq!['>'] + sep;
        proof {
            assert(out@ =~= head);
        }
        let mut child_pad = pad.clone();
        child_pad.append(f.indent());
        proof {
            assert(child_pad@ =~= seq_rep(ind, (level + 1) as nat));
        }
        let count = n.children.len();
        for i in 0..count
            invariant
                count == n.children.len(),
                count == n@.children.len(),
                forall|j: int| 0 <= j < count ==> n@.children[j] == #[trigger] n.children@[j]@,
                sep == f.sep_spec(),
                ind == f.indent_spec(),
                child_pad@ == seq_rep(ind, (level + 1) as nat),
                out@ == head + render_fmt_seq(
                    n@.children.subrange(0, i as int),
                    sep,
                    ind,
                    (level + 1) as nat,
                ),
        {
            proof {
                xheight_child(n@, i as int);
            }
            write_node(f, &n.children[i], out, &child_pad, Ghost((level + 1) as nat));
            proof {
                lemma_render_fmt_seq_snoc(
                    n@.children.subrange(0, i as int),
                    n@.children[i as int],
                    sep,
                    ind,
                    (level + 1) as nat,
                );
                assert(n@.children.subrange(0, i as int).push(n@.children[i as int])
                    =~= n@.children.subrange(0, i + 1));
                assert(out@ =~= head + render_fmt_seq(
                    n@.children.subrange(0, i + 1),
                    sep,
                    ind,
                    (level + 1) as nat,
                ));
            }
        }
        out.append(pad.as_str());
        out.append("</");
        out.append(n.tag.as_str());
        out.append(">");
        out.append(f.sep());
        proof {
            assert(n@.children.subrange(0, count as int) =~= n@.children);
            assert(out@ =~= base + render_fmt(n@, sep, ind, level));
        }
    } else if n.content.is_empty() {
        out.append("/>");
        out.append(f.sep());
        proof {
            assert(out@ =~= base + render_fmt(n@, sep, ind, level));
        }
    } else {
        out.append(">");
        out.append(n.content.as_str());
        out.append("</");
        out.append(n.tag.as_str());
        out.append(">");
        out.append(f.sep());
        proof {
            assert(out@ =~= base + render_fmt(n@, sep, ind, level));
        }
    }
}

/// Renders document trees into a text buffer under a whitespace policy.
pub struct Serializer<F> {
    out: String,
    formatter: F,
}

impl<F: Formatter> Serializer<F> {
    /// The text accumulated so far.
    pub closed spec fn buf(&self) -> Seq<char> {
        self.out@
    }

    pub closed spec fn fmt(&self) -> F {
        self.formatter
    }

    pub fn with_formatter(formatter: F) -> (r: Self)
        ensures
            r.buf() == Seq::<char>::empty(),
            r.fmt() == formatter,
    {
        Serializer { out: String::new(), formatter }
    }

    pub fn serialize_node(&mut self, n: &Node)
        ensures
            final(self).buf() == old(self).buf() + render_fmt(
                n@,
                old(self).fmt().sep_spec(),
                old(self).fmt().indent_spec(),
                0,
            ),
            final(self).fmt() == old(self).fmt(),
    {
        let pad = String::new();
        proof {
            assert(pad@ =~= seq_rep(self.formatter.indent_spec(), 0));
        }
        write_node(&self.formatter, n, &mut self.out, &pad, Ghost(0));
    }

    /// Hands the accumulated text out.
    pub fn finalize(self) -> (r: String)
        ensures
            r@ == self.buf(),
    {
        self.out
    }
}

/// Renders a tree in the compact wire form, as bytes.
pub fn to_vec(node: &Node) -> (r: Vec<u8>)
    ensures
        r@ == encode_utf8(render_compact(node@)),
{
    let mut ser = Serializer::with_formatter(CompactFormatter);
    ser.serialize_node(node);
    let text = ser.finalize();
    proof {
        lemma_render_fmt_compact(node@, 0);
        assert(text@ =~= render_compact(node@));
    }
    text.as_str().as_bytes_vec()
}

/// Renders a tree under the given whitespace policy, as bytes.
pub fn to_vec_formatted<F: Formatter>(formatter: F, node: &Node) -> (r: Vec<u8>)
    ensures
        r@ == encode_utf8(
            render_fmt(node@, formatter.sep_spec(), formatter.indent_spec(), 0),
        ),
{
    let mut ser = Serializer::with_formatter(formatter);
    ser.serialize_node(node);
    let text = ser.finalize();
    text.as_str().as_bytes_vec()
}

} // verus!
