//! The document model of the dialect: a tree of elements, each with a tag
//! name, one text-content slot, and an ordered sequence of children.

use vstd::prelude::*;
use vstd::string::*;

use crate::error::Error;
use crate::text::{int_str, parse_i32_spec, tag_char, ws_char};

verus! {

/// The mathematical model of one element: its tag, its text content and
/// its children, all as sequences.
pub ghost struct XNode {
    pub tag: Seq<char>,
    pub content: Seq<char>,
    pub children: Seq<XNode>,
}

pub const BOINC_GUI_RPC_REQUEST_TAG: &'static str = "boinc_gui_rpc_request";

pub const BOINC_GUI_RPC_REPLY_TAG: &'static str = "boinc_gui_rpc_reply";

pub type Tag = String;

/// The text content of a leaf element.
#[derive(Debug)]
pub struct Content {
    data: String,
}

impl View for Content {
    type V = Seq<char>;

    closed spec fn view(&self) -> Seq<char> {
        self.data@
    }
}


impl Content {
    pub fn is_empty(&self) -> (r: bool)
        ensures
            r == (self@.len() == 0),
    {
        self.data.as_str().is_empty()
    }

    /// The content as a string slice.
    pub fn as_str(&self) -> (r: &str)
        ensures
            r@ == self@,
    {
        self.data.as_str()
    }
}

impl core::default::Default for Content {
    fn default() -> (r: Content)
        ensures
            r@ == Seq::<char>::empty(),
    {
        Content { data: String::new() }
    }
}

/// A value that can fill an element's content slot: strings are taken as
/// they are, integers and booleans render in their canonical decimal form
/// (a boolean as `1` or `0`).
pub trait IntoContent: Sized {
    spec fn content_view(self) -> Seq<char>;

    fn into_content(self) -> (r: Content)
        ensures
            r@ == self.content_view(),
    ;
}

impl IntoContent for &str {
    open spec fn content_view(self) -> Seq<char> {
        self@
    }

    fn into_content(self) -> (r: Content) {
        Content { data: String::from_str(self) }
    }
}

impl IntoContent for String {
    open spec fn content_view(self) -> Seq<char> {
        self@
    }

    fn into_content(self) -> (r: Content) {
        Content { data: self }
    }
}

impl IntoContent for i32 {
    open spec fn content_view(self) -> Seq<char> {
        int_str(self as int)
    }

    fn into_content(self) -> (r: Content) {
        Content { data: crate::text::i32_to_string(self) }
    }
}

impl IntoContent for bool {
    open spec fn content_view(self) -> Seq<char> {
        int_str(if self { 1int } else { 0int })
    }

    fn into_content(self) -> (r: Content) {
        Content { data: crate::text::i32_to_string(if self { 1 } else { 0 }) }
    }
}

/// A value that can be read back out of an element's content slot.
pub trait FromContent: Sized {
    /// Whether the conversion succeeds on this content.
    spec fn content_ok(c: Seq<char>) -> bool;

    /// How a converted value relates to the content it came from.
    spec fn content_val(c: Seq<char>, v: Self) -> bool;

    fn from_content(c: &Content) -> (r: Result<Self, Error>)
        ensures
            match r {
                Ok(v) => Self::content_ok(c@) && Self::content_val(c@, v),
                Err(e) => !Self::content_ok(c@) && e == Error::InvalidFormat,
            },
    ;
}

impl FromContent for i32 {
    open spec fn content_ok(c: Seq<char>) -> bool {
        parse_i32_spec(c) is Some
    }

    open spec fn content_val(c: Seq<char>, v: Self) -> bool {
        parse_i32_spec(c) == Some(v)
    }

    fn from_content(c: &Content) -> (r: Result<Self, Error>) {
        crate::text::parse_i32(c.as_str()).ok_or(Error::InvalidFormat)
    }
}

impl FromContent for bool {
    open spec fn content_ok(c: Seq<char>) -> bool {
        parse_i32_spec(c) is Some
    }

    open spec fn content_val(c: Seq<char>, v: Self) -> bool {
        match parse_i32_spec(c) {
            Some(n) => v == (n != 0),
            None => false,
        }
    }

    fn from_content(c: &Content) -> (r: Result<Self, Error>) {
        match crate::text::parse_i32(c.as_str()) {
            Some(n) => Ok(n != 0),
            None => Err(Error::InvalidFormat),
        }
    }
}

impl FromContent for String {
    open spec fn content_ok(c: Seq<char>) -> bool {
        true
    }

    open spec fn content_val(c: Seq<char>, v: Self) -> bool {
        v@ == c
    }

    fn from_content(c: &Content) -> (r: Result<Self, Error>) {
        Ok(String::from_str(c.as_str()))
    }
}

/// One element of a document tree.
#[derive(Debug)]
pub struct Node {
    pub tag: Tag,
    pub content: Content,
    pub children: Vec<Node>,
}

/// The model of an executable node, recursively over its children.
pub open spec fn node_view(n: Node) -> XNode
    decreases n,
{
    XNode { tag: n.tag@, content: n.content@, children: vec_views(n.children) }
}

pub open spec fn vec_views(v: Vec<Node>) -> Seq<XNode>
    decreases v,
{
    seq_views(v@)
}

pub open spec fn seq_views(s: Seq<Node>) -> Seq<XNode>
    decreases s,
{
    if s.len() == 0 {
        Seq::<XNode>::empty()
    } else {
        seq![node_view(s[0])] + seq_views(s.subrange(1, s.len() as int))
    }
}

proof fn seq_views_parts(s: Seq<Node>)
    ensures
        seq_views(s).len() == s.len(),
        forall|i: int| 0 <= i < s.len() ==> seq_views(s)[i] == node_view(#[trigger] s[i]),
    decreases s.len(),
{
    if s.len() > 0 {
        seq_views_parts(s.subrange(1, s.len() as int));
        assert forall|i: int| 0 <= i < s.len() implies seq_views(s)[i] == node_view(s[i]) by {
            if i > 0 {
                assert(s.subrange(1, s.len() as int)[i - 1] == s[i]);
            }
        }
    }
}

impl View for Node {
    type V = XNode;

    open spec fn view(&self) -> XNode {
        node_view(*self)
    }
}

/// The views of a vector's nodes, element by element.
pub broadcast proof fn vec_views_index(v: Vec<Node>)
    ensures
        (#[trigger] vec_views(v)).len() == v@.len(),
        forall|i: int| 0 <= i < v@.len() ==> vec_views(v)[i] == #[trigger] v@[i]@,
{
    seq_views_parts(v@);
}

/// The view of a node is built field by field from the views of its parts.
pub broadcast proof fn node_view_parts(n: &Node)
    ensures
        (#[trigger] n@).tag == n.tag@,
        n@.content == n.content@,
        n@.children.len() == n.children@.len(),
        forall|i: int| 0 <= i < n.children@.len() ==> n@.children[i] == #[trigger] n.children@[i]@,
{
    seq_views_parts(n.children@);
}

/// The first child carrying the given tag, if any.
pub open spec fn find_in(cs: Seq<XNode>, tag: Seq<char>) -> Option<XNode>
    decreases cs.len(),
{
    if cs.len() == 0 {
        None
    } else if cs[0].tag == tag {
        Some(cs[0])
    } else {
        find_in(cs.subrange(1, cs.len() as int), tag)
    }
}

pub open spec fn find_child_spec(t: XNode, tag: Seq<char>) -> Option<XNode> {
    find_in(t.children, tag)
}

impl Node {
    pub fn new(tag: &str) -> (r: Self)
        ensures
            r@.tag == tag@,
            r@.content == Seq::<char>::empty(),
            r@.children == Seq::<XNode>::empty(),
    {
        let r = Node { tag: String::from_str(tag), content: Content::default(), children: Vec::new() };
        proof {
            assert(r@.children =~= Seq::<XNode>::empty());
        }
        r
    }

    pub fn with_content<C: IntoContent>(self, content: C) -> (r: Self)
        ensures
            r@.tag == self@.tag,
            r@.content == content.content_view(),
            r@.children == self@.children,
    {
        let r = Node { tag: self.tag, content: content.into_content(), children: self.children };
        proof {
            assert(r@.children =~= self@.children);
        }
        r
    }

    pub fn add_child(&mut self, child: Node)
        ensures
            final(self)@.tag == old(self)@.tag,
            final(self)@.content == old(self)@.content,
            final(self)@.children == old(self)@.children.push(child@),
    {
        self.children.push(child);
        proof {
            node_view_parts(old(self));
            node_view_parts(self);
            assert forall|i: int| 0 <= i < self@.children.len() implies self@.children[i] == old(
                self,
            )@.children.push(child@)[i] by {
                assert(self@.children[i] == self.children@[i]@);
                if i < old(self).children@.len() {
                    assert(old(self)@.children[i] == old(self).children@[i]@);
                    assert(self.children@[i] == old(self).children@[i]);
                } else {
                    assert(self.children@[i] == child);
                }
            }
            assert(self@.children =~= old(self)@.children.push(child@));
        }
    }

    pub fn add_new_child(&mut self, tag: &str)
        ensures
            final(self)@.tag == old(self)@.tag,
            final(self)@.content == old(self)@.content,
            final(self)@.children == old(self)@.children.push(
                XNode {
                    tag: tag@,
                    content: Seq::<char>::empty(),
                    children: Seq::<XNode>::empty(),
                },
            ),
    {
        self.add_child(Node::new(tag));
    }

    pub fn add_new_content_child<C: IntoContent>(&mut self, tag: &str, content: C)
        ensures
            final(self)@.tag == old(self)@.tag,
            final(self)@.content == old(self)@.content,
            final(self)@.children == old(self)@.children.push(
                XNode {
                    tag: tag@,
                    content: content.content_view(),
                    children: Seq::<XNode>::empty(),
                },
            ),
    {
        self.add_child(Node::new(tag).with_content(content));
    }

    pub fn find_child(&self, tag: &str) -> (r: Option<&Node>)
        ensures
            match r {
                Some(c) => find_child_spec(self@, tag@) == Some(c@),
                None => find_child_spec(self@, tag@) is None,
            },
    {
        proof {
            node_view_parts(self);
            assert(self@.children.subrange(0, self@.children.len() as int) =~= self@.children);
        }
        let n = self.children.len();
        for i in 0..n
            invariant
                n == self.children.len(),
                n == self@.children.len(),
                forall|j: int| 0 <= j < n ==> self@.children[j] == #[trigger] self.children@[j]@,
                find_in(self@.children.subrange(i as int, n as int), tag@) == find_child_spec(
                    self@,
                    tag@,
                ),
        {
            let ghost suffix = self@.children.subrange(i as int, n as int);
            proof {
                assert(suffix[0] == self@.children[i as int]);
                assert(self@.children[i as int] == self.children@[i as int]@);
                assert(self.children@[i as int]@.tag == self.children@[i as int].tag@);
            }
            if crate::text::str_eq(self.children[i].tag.as_str(), tag) {
                proof {
                    assert(suffix[0].tag == tag@);
                    assert(find_in(suffix, tag@) == Some(suffix[0]));
                }
                return Some(&self.children[i]);
            }
            proof {
                assert(suffix[0].tag != tag@);
                assert(suffix.subrange(1, suffix.len() as int) =~= self@.children.subrange(
                    i + 1,
                    n as int,
                ));
            }
        }
        proof {
            assert(self@.children.subrange(n as int, n as int) =~= Seq::<XNode>::empty());
        }
        None
    }

    /// Reads this element's own content as a value of type `C`.
    pub fn try_into_content<C: FromContent>(&self) -> (r: Result<C, Error>)
        ensures
            match r {
                Ok(v) => C::content_ok(self@.content) && C::content_val(self@.content, v),
                Err(e) => !C::content_ok(self@.content) && e == Error::InvalidFormat,
            },
    {
        C::from_content(&self.content)
    }

    /// Reads the content of the first child named `child_tag`; a missing
    /// child is a conversion failure.
    pub fn try_child_into_content<C: FromContent>(&self, child_tag: &str) -> (r: Result<C, Error>)
        ensures
            match find_child_spec(self@, child_tag@) {
                Some(c) => match r {
                    Ok(v) => C::content_ok(c.content) && C::content_val(c.content, v),
                    Err(e) => !C::content_ok(c.content) && e == Error::InvalidFormat,
                },
                None => r matches Err(e) && e == Error::InvalidFormat,
            },
    {
        match self.find_child(child_tag) {
            Some(c) => c.try_into_content(),
            None => Err(Error::InvalidFormat),
        }
    }
}

/// The root element every request is built under.
pub fn boinc_request_tree() -> (r: Node)
    ensures
        r@.tag == BOINC_GUI_RPC_REQUEST_TAG@,
        r@.content == Seq::<char>::empty(),
        r@.children == Seq::<XNode>::empty(),
{
    Node::new(BOINC_GUI_RPC_REQUEST_TAG)
}

} // verus!

verus! {

/// The height of a tree, used as a termination measure for the functions
/// that walk it.
pub open spec fn xheight(t: XNode) -> nat
    decreases t,
{
    1 + xheight_seq(t.children)
}

pub open spec fn xheight_seq(cs: Seq<XNode>) -> nat
    decreases cs,
{
    if cs.len() == 0 {
        0
    } else {
        let h0 = xheight(cs[0]);
        let hr = xheight_seq(cs.subrange(1, cs.len() as int));
        if h0 >= hr {
            h0
        } else {
            hr
        }
    }
}

pub broadcast proof fn xheight_child(t: XNode, i: int)
    requires
        0 <= i < t.children.len(),
    ensures
        #[trigger] xheight(t.children[i]) < xheight(t),
{
    xheight_seq_ge(t.children, i);
}

proof fn xheight_seq_ge(cs: Seq<XNode>, i: int)
    requires
        0 <= i < cs.len(),
    ensures
        xheight_seq(cs) >= xheight(cs[i]),
    decreases cs.len(),
{
    if i > 0 {
        xheight_seq_ge(cs.subrange(1, cs.len() as int), i - 1);
        assert(cs.subrange(1, cs.len() as int)[i - 1] == cs[i]);
    }
}

/// Characters the dialect allows in a text-content slot: anything but a
/// tag opener or the transport's sentinel byte.
pub open spec fn content_char(c: char) -> bool {
    c != '<' && c as u32 != 3
}

/// A tree the dialect can represent faithfully: named after the rules
/// its renderings obey.  Tags are non-empty names; content never holds a
/// tag opener or the sentinel, is kept trimmed, and sits only on leaves.
pub open spec fn wf(t: XNode) -> bool
    decreases t,
{
    &&& t.tag.len() > 0
    &&& (forall|i: int| 0 <= i < t.tag.len() ==> tag_char(#[trigger] t.tag[i]))
    &&& (forall|i: int| 0 <= i < t.content.len() ==> content_char(#[trigger] t.content[i]))
    &&& (t.content.len() > 0 ==> !ws_char(t.content[0]) && !ws_char(
        t.content[t.content.len() - 1],
    ))
    &&& (t.children.len() > 0 ==> t.content.len() == 0)
    &&& wf_seq(t.children)
}

pub open spec fn wf_seq(cs: Seq<XNode>) -> bool
    decreases cs,
{
    if cs.len() == 0 {
        true
    } else {
        wf(cs[0]) && wf_seq(cs.subrange(1, cs.len() as int))
    }
}

pub broadcast proof fn wf_seq_index(cs: Seq<XNode>, i: int)
    requires
        wf_seq(cs),
        0 <= i < cs.len(),
    ensures
        #[trigger] wf(cs[i]),
    decreases cs.len(),
{
    if i > 0 {
        wf_seq_index(cs.subrange(1, cs.len() as int), i - 1);
        assert(cs.subrange(1, cs.len() as int)[i - 1] == cs[i]);
    }
}

/// `n` spaces.
pub open spec fn space_rep(n: nat) -> Seq<char> {
    Seq::new(n, |i: int| ' ')
}

/// The exact text `pretty_print` produces for a node at a nesting level:
/// an element with children opens on its own line and renders each child
/// indented one level deeper; an empty leaf self-closes with no space
/// before the slash; any other leaf holds its content inline.
pub open spec fn render_tree(t: XNode, w: nat, l: nat) -> Seq<char>
    decreases t,
{
    let ind = space_rep(w * l);
    if t.children.len() > 0 {
        ind + seq!['<'] + t.tag + seq!['>'] + t.content + seq!['\n'] + render_tree_seq(
            t.children,
            w,
            (l + 1) as nat,
        ) + ind + seq!['<', '/'] + t.tag + seq!['>']
    } else if t.content.len() == 0 {
        ind + seq!['<'] + t.tag + seq!['/', '>']
    } else {
        ind + seq!['<'] + t.tag + seq!['>'] + t.content + seq!['<', '/'] + t.tag + seq!['>']
    }
}

pub open spec fn render_tree_seq(cs: Seq<XNode>, w: nat, l: nat) -> Seq<char>
    decreases cs,
{
    if cs.len() == 0 {
        Seq::<char>::empty()
    } else {
        render_tree(cs[0], w, l) + seq!['\n'] + render_tree_seq(
            cs.subrange(1, cs.len() as int),
            w,
            l,
        )
    }
}

proof fn lemma_render_tree_seq_snoc(cs: Seq<XNode>, x: XNode, w: nat, l: nat)
    ensures
        render_tree_seq(cs.push(x), w, l) =~= render_tree_seq(cs, w, l) + render_tree(x, w, l)
            + seq!['\n'],
    decreases cs.len(),
{
    if cs.len() == 0 {
        assert(cs.push(x)[0] == x);
        assert(cs.push(x).subrange(1, 1) =~= Seq::<XNode>::empty());
        assert(render_tree_seq(cs.push(x).subrange(1, 1), w, l) =~= Seq::<char>::empty());
        assert(render_tree_seq(cs.push(x), w, l) =~= render_tree(x, w, l) + seq!['\n']);
    } else {
        let tail = cs.subrange(1, cs.len() as int);
        assert(cs.push(x)[0] == cs[0]);
        assert(cs.push(x).subrange(1, cs.len() as int + 1) =~= tail.push(x));
        lemma_render_tree_seq_snoc(tail, x, w, l);
        assert(render_tree_seq(cs.push(x), w, l) =~= render_tree(cs[0], w, l) + seq!['\n']
            + render_tree_seq(tail.push(x), w, l));
        assert(render_tree(cs[0], w, l) + seq!['\n'] + (render_tree_seq(tail, w, l) + render_tree(
            x,
            w,
            l,
        ) + seq!['\n']) =~= render_tree_seq(cs, w, l) + render_tree(x, w, l) + seq!['\n']);
    }
}

/// Appends `width` spaces to a copy of `pad`.
fn extend_pad(pad: &String, width: usize) -> (r: String)
    ensures
        r@ == pad@ + space_rep(width as nat),
{
    let mut r = pad.clone();
    proof {
        reveal_strlit(" ");
        assert(r@ + space_rep(0) =~= pad@);
    }
    for k in 0..width
        invariant
            r@ == pad@ + space_rep(k as nat),
        decreases width - k,
    {
        r.append(" ");
        proof {
            reveal_strlit(" ");
            assert(" "@ =~= seq![' ']);
            assert(pad@ + space_rep(k as nat) + " "@ =~= pad@ + space_rep((k + 1) as nat));
        }
    }
    r
}

impl Node {
    /// Renders this tree with the given indentation width.
    pub fn pretty_print(&self, indention_width: usize) -> (r: String)
        ensures
            r@ == render_tree(self@, indention_width as nat, 0),
    {
        let pad = String::new();
        proof {
            assert(pad@ =~= space_rep(indention_width as nat * 0));
        }
        self.serialize(indention_width, &pad, Ghost(0))
    }

    fn serialize(&self, width: usize, pad: &String, Ghost(level): Ghost<nat>) -> (r: String)
        requires
            pad@ == space_rep(width as nat * level),
        ensures
            r@ == render_tree(self@, width as nat, level),
        decreases xheight(self@),
    {
        proof {
            node_view_parts(self);
            reveal_strlit("<");
            reveal_strlit(">");
            reveal_strlit("</");
            reveal_strlit("/>");
            reveal_strlit("\n");
            assert("<"@ =~= seq!['<']);
            assert(">"@ =~= seq!['>']);
            assert("</"@ =~= seq!['<', '/']);
            assert("/>"@ =~= seq!['/', '>']);
            assert("\n"@ =~= seq!['\n']);
        }
        let mut txt = String::new();
        txt.append(pad.as_str());
        txt.append("<");
        txt.append(self.tag.as_str());
        if self.children.len() > 0 {
            txt.append(">");
            txt.append(self.content.as_str());
            txt.append("\n");
            let ghost head = pad@ + seq!['<'] + self@.tag + seq!['>'] + self@.content + seq!['\n'];
            proof {
                assert(txt@ =~= head);
            }
            let child_pad = extend_pad(pad, width);
            proof {
                assert(width as nat * level + width as nat == width as nat * (level + 1)) by (nonlinear_arith);
                assert(child_pad@ =~= space_rep(width as nat * (level + 1)));
            }
            let n = self.children.len();
            for i in 0..n
                invariant
                    n == self.children.len(),
                    n == self@.children.len(),
                    forall|j: int| 0 <= j < n ==> self@.children[j] == #[trigger] self.children@[j]@,
                    child_pad@ == space_rep(width as nat * (level + 1)),
                    txt@ == head + render_tree_seq(
                        self@.children.subrange(0, i as int),
                        width as nat,
                        (level + 1) as nat,
                    ),
            {
                proof {
                    xheight_child(self@, i as int);
                    reveal_strlit("\n");
                    assert("\n"@ =~= seq!['\n']);
                }
                let piece = self.children[i].serialize(width, &child_pad, Ghost(level + 1));
                txt.append(piece.as_str());
                txt.append("\n");
                proof {
                    lemma_render_tree_seq_snoc(
                        self@.children.subrange(0, i as int),
                        self@.children[i as int],
                        width as nat,
                        (level + 1) as nat,
                    );
                    assert(self@.children.subrange(0, i as int).push(self@.children[i as int])
                        =~= self@.children.subrange(0, i + 1));
                    assert(txt@ =~= head + render_tree_seq(
                        self@.children.subrange(0, i + 1),
                        width as nat,
                        (level + 1) as nat,
                    ));
                }
            }
            txt.append(pad.as_str());
            txt.append("</");
            txt.append(self.tag.as_str());
            txt.append(">");
            proof {
                assert(self@.children.subrange(0, n as int) =~= self@.children);
                assert(txt@ =~= render_tree(self@, width as nat, level));
            }
        } else if self.content.is_empty() {
            txt.append("/>");
            proof {
                assert(txt@ =~= render_tree(self@, width as nat, level));
            }
        } else {
            txt.append(">");
            txt.append(self.content.as_str());
            txt.append("</");
            txt.append(self.tag.as_str());
            txt.append(">");
            proof {
                assert(txt@ =~= render_tree(self@, width as nat, level));
            }
        }
        txt
    }
}

} // verus!

verus! {

/// The canonical compact rendering of a tree: no whitespace between
/// elements, an empty element self-closed with no space before the
/// slash, content only on leaves.
pub open spec fn render_compact(t: XNode) -> Seq<char>
    decreases t,
{
    if t.children.len() > 0 {
        seq!['<'] + t.tag + seq!['>'] + render_compact_seq(t.children) + seq!['<', '/'] + t.tag
            + seq!['>']
    } else if t.content.len() == 0 {
        seq!['<'] + t.tag + seq!['/', '>']
    } else {
        seq!['<'] + t.tag + seq!['>'] + t.content + seq!['<', '/'] + t.tag + seq!['>']
    }
}

pub open spec fn render_compact_seq(cs: Seq<XNode>) -> Seq<char>
    decreases cs,
{
    if cs.len() == 0 {
        Seq::<char>::empty()
    } else {
        render_compact(cs[0]) + render_compact_seq(cs.subrange(1, cs.len() as int))
    }
}

/// The self-closing rule: an element with no children and empty content
/// renders as `<tag/>` — never as `<tag></tag>`, and with no space
/// before the slash.
pub proof fn lemma_self_closing_rule(t: XNode)
    requires
        t.children.len() == 0,
        t.content.len() == 0,
    ensures
        render_compact(t) == seq!['<'] + t.tag + seq!['/', '>'],
{
}

} // verus!

verus! {

/// A leaf element.
pub open spec fn leaf(tag: Seq<char>, content: Seq<char>) -> XNode {
    XNode { tag, content, children: Seq::<XNode>::empty() }
}

/// An integer field read from a child element, if present and numeric.
pub open spec fn i32_field(t: XNode, tag: Seq<char>) -> Option<i32> {
    match find_child_spec(t, tag) {
        Some(c) => parse_i32_spec(c.content),
        None => None,
    }
}

/// A string field read from a child element; an absent field reads as
/// the empty string, as the dialect's sparse replies require.
pub open spec fn str_field(t: XNode, tag: Seq<char>) -> Seq<char> {
    match find_child_spec(t, tag) {
        Some(c) => c.content,
        None => Seq::<char>::empty(),
    }
}

/// The children carrying the given tag, in document order.
pub open spec fn filter_tag(cs: Seq<XNode>, tag: Seq<char>) -> Seq<XNode>
    decreases cs.len(),
{
    if cs.len() == 0 {
        Seq::<XNode>::empty()
    } else if cs[0].tag == tag {
        seq![cs[0]] + filter_tag(cs.subrange(1, cs.len() as int), tag)
    } else {
        filter_tag(cs.subrange(1, cs.len() as int), tag)
    }
}

proof fn lemma_filter_tag_snoc(cs: Seq<XNode>, x: XNode, tag: Seq<char>)
    ensures
        filter_tag(cs.push(x), tag) =~= filter_tag(cs, tag) + (if x.tag == tag {
            seq![x]
        } else {
            Seq::<XNode>::empty()
        }),
    decreases cs.len(),
{
    if cs.len() == 0 {
        assert(cs.push(x)[0] == x);
        assert(cs.push(x).subrange(1, 1) =~= Seq::<XNode>::empty());
        assert(filter_tag(cs.push(x).subrange(1, 1), tag) =~= Seq::<XNode>::empty());
    } else {
        assert(cs.push(x)[0] == cs[0]);
        assert(cs.push(x).subrange(1, cs.len() as int + 1) =~= cs.subrange(
            1,
            cs.len() as int,
        ).push(x));
        lemma_filter_tag_snoc(cs.subrange(1, cs.len() as int), x, tag);
    }
}

impl Node {
    /// Reads the string field named `tag`: the content of the first such
    /// child, or the empty string when there is none.
    pub fn str_child(&self, tag: &str) -> (r: String)
        ensures
            r@ == str_field(self@, tag@),
    {
        match self.find_child(tag) {
            Some(c) => String::from_str(c.content.as_str()),
            None => String::new(),
        }
    }

    /// All children named `tag`, in document order.
    pub fn find_children<'a>(&'a self, tag: &str) -> (r: Vec<&'a Node>)
        ensures
            r@.len() == filter_tag(self@.children, tag@).len(),
            forall|i: int|
                0 <= i < r@.len() ==> #[trigger] r@[i]@ == filter_tag(self@.children, tag@)[i],
    {
        proof {
            node_view_parts(self);
            assert(self@.children.subrange(0, 0) =~= Seq::<XNode>::empty());
        }
        let mut r: Vec<&Node> = Vec::new();
        let count = self.children.len();
        for i in 0..count
            invariant
                count == self.children.len(),
                count == self@.children.len(),
                forall|j: int| 0 <= j < count ==> self@.children[j] == #[trigger] self.children@[j]@,
                r@.len() == filter_tag(self@.children.subrange(0, i as int), tag@).len(),
                forall|j: int|
                    0 <= j < r@.len() ==> #[trigger] r@[j]@ == filter_tag(
                        self@.children.subrange(0, i as int),
                        tag@,
                    )[j],
        {
            proof {
                lemma_filter_tag_snoc(
                    self@.children.subrange(0, i as int),
                    self@.children[i as int],
                    tag@,
                );
                assert(self@.children.subrange(0, i as int).push(self@.children[i as int])
                    =~= self@.children.subrange(0, i + 1));
                assert(self@.children[i as int] == self.children@[i as int]@);
                assert(self.children@[i as int]@.tag == self.children@[i as int].tag@);
            }
            if crate::text::str_eq(self.children[i].tag.as_str(), tag) {
                r.push(&self.children[i]);
            }
        }
        proof {
            assert(self@.children.subrange(0, count as int) =~= self@.children);
        }
        r
    }
}

} // verus!

verus! {

/// Text free of the transport sentinel character.
pub open spec fn no_sentinel(s: Seq<char>) -> bool {
    forall|i: int| 0 <= i < s.len() ==> (#[trigger] s[i]) as u32 != 3
}

/// Sentinel safety: the rendering of a well-formed tree never contains
/// the transport's sentinel, so sentinel framing cannot be cut short by
/// a payload.  Callers of the framing rely on this, not on any escaping
/// in the transport.
pub proof fn lemma_render_no_sentinel(t: XNode)
    requires
        wf(t),
    ensures
        no_sentinel(render_compact(t)),
    decreases t, 0nat,
{
    let s = render_compact(t);
    assert(('<' as u32) != 3 && ('>' as u32) != 3 && ('/' as u32) != 3);
    assert(forall|i: int| 0 <= i < t.tag.len() ==> (#[trigger] t.tag[i]) as u32 != 3) by {
        assert forall|i: int| 0 <= i < t.tag.len() implies (#[trigger] t.tag[i]) as u32 != 3 by {
            assert(tag_char(t.tag[i]));
        }
    }
    if t.children.len() > 0 {
        lemma_render_seq_no_sentinel(t.children);
        assert forall|i: int| 0 <= i < s.len() implies (#[trigger] s[i]) as u32 != 3 by {
            let body = render_compact_seq(t.children);
            assert(s == seq!['<'] + t.tag + seq!['>'] + body + seq!['<', '/'] + t.tag + seq!['>']);
        }
    } else if t.content.len() == 0 {
        assert forall|i: int| 0 <= i < s.len() implies (#[trigger] s[i]) as u32 != 3 by {
            assert(s == seq!['<'] + t.tag + seq!['/', '>']);
        }
    } else {
        assert(forall|i: int| 0 <= i < t.content.len() ==> (#[trigger] t.content[i]) as u32 != 3)
            by {
            assert forall|i: int| 0 <= i < t.content.len() implies (#[trigger] t.content[i]) as u32
                != 3 by {
                assert(content_char(t.content[i]));
            }
        }
        assert forall|i: int| 0 <= i < s.len() implies (#[trigger] s[i]) as u32 != 3 by {
            assert(s == seq!['<'] + t.tag + seq!['>'] + t.content + seq!['<', '/'] + t.tag + seq![
                '>',
            ]);
        }
    }
}

proof fn lemma_render_seq_no_sentinel(cs: Seq<XNode>)
    requires
        wf_seq(cs),
    ensures
        no_sentinel(render_compact_seq(cs)),
    decreases cs, 1nat,
{
    if cs.len() > 0 {
        let tail = cs.subrange(1, cs.len() as int);
        wf_seq_index(cs, 0);
        lemma_render_no_sentinel(cs[0]);
        lemma_render_seq_no_sentinel(tail);
        assert forall|i: int| 0 <= i < render_compact_seq(cs).len() implies (
        #[trigger] render_compact_seq(cs)[i]) as u32 != 3 by {
            assert(render_compact_seq(cs) == render_compact(cs[0]) + render_compact_seq(tail));
        }
    }
}

} // verus!
