//! Parsing the dialect's markup into a document tree.
//!
//! The grammar is the small one the daemon actually speaks: nested
//! elements, text content, CDATA sections, self-closing tags, and
//! skippable processing instructions and comments.  No attributes, no
//! namespaces, no entity references.

use vstd::prelude::*;
use vstd::string::*;
use vstd::utf8::{decode_utf8, valid_utf8};

use crate::error::Error;
use crate::text::{tag_char, ws_char};
use crate::xml::{
    node_view_parts, render_compact, render_compact_seq, wf, wf_seq, wf_seq_index, Content,
    IntoContent, Node, XNode,
};

verus! {

/// Leading whitespace of a suffix.
pub open spec fn ws_len(s: Seq<char>) -> nat
    decreases s.len(),
{
    if s.len() == 0 || !ws_char(s[0]) {
        0
    } else {
        1 + ws_len(s.subrange(1, s.len() as int))
    }
}

/// Leading run of name characters.
pub open spec fn tag_len(s: Seq<char>) -> nat
    decreases s.len(),
{
    if s.len() == 0 || !tag_char(s[0]) {
        0
    } else {
        1 + tag_len(s.subrange(1, s.len() as int))
    }
}

/// Leading run of text, up to the next tag opener.
pub open spec fn text_len(s: Seq<char>) -> nat
    decreases s.len(),
{
    if s.len() == 0 || s[0] == '<' {
        0
    } else {
        1 + text_len(s.subrange(1, s.len() as int))
    }
}

pub proof fn lemma_tag_len_le(s: Seq<char>)
    ensures
        tag_len(s) <= s.len(),
    decreases s.len(),
{
    if s.len() > 0 && tag_char(s[0]) {
        lemma_tag_len_le(s.subrange(1, s.len() as int));
    }
}

pub proof fn lemma_text_len_le(s: Seq<char>)
    ensures
        text_len(s) <= s.len(),
    decreases s.len(),
{
    if s.len() > 0 && s[0] != '<' {
        lemma_text_len_le(s.subrange(1, s.len() as int));
    }
}

/// Whether `s` begins with `p`.
pub open spec fn starts(s: Seq<char>, p: Seq<char>) -> bool {
    s.len() >= p.len() && s.subrange(0, p.len() as int) == p
}

/// The first position where `p` occurs in `s`.
pub open spec fn find_sub(s: Seq<char>, p: Seq<char>) -> Option<int>
    decreases s.len(),
{
    if s.len() == 0 || s.len() < p.len() {
        None
    } else if starts(s, p) {
        Some(0)
    } else {
        match find_sub(s.subrange(1, s.len() as int), p) {
            Some(i) => Some(1 + i),
            None => None,
        }
    }
}

pub proof fn lemma_find_sub_bounds(s: Seq<char>, p: Seq<char>)
    ensures
        match find_sub(s, p) {
            Some(i) => 0 <= i && i + p.len() <= s.len(),
            None => true,
        },
    decreases s.len(),
{
    if s.len() > 0 && s.len() >= p.len() && !starts(s, p) {
        lemma_find_sub_bounds(s.subrange(1, s.len() as int), p);
    }
}

/// `s` without leading whitespace.
pub open spec fn trim_front(s: Seq<char>) -> Seq<char> {
    s.subrange(ws_len(s) as int, s.len() as int)
}

/// `s` without trailing whitespace.
pub open spec fn trim_back(s: Seq<char>) -> Seq<char>
    decreases s.len(),
{
    if s.len() == 0 || !ws_char(s.last()) {
        s
    } else {
        trim_back(s.drop_last())
    }
}

/// `s` with whitespace stripped from both ends, as text content is.
pub open spec fn trim_spec(s: Seq<char>) -> Seq<char> {
    trim_back(trim_front(s))
}

pub open spec fn cdata_open() -> Seq<char> {
    seq!['<', '!', '[', 'C', 'D', 'A', 'T', 'A', '[']
}

pub open spec fn cdata_close() -> Seq<char> {
    seq![']', ']', '>']
}

pub open spec fn pi_open() -> Seq<char> {
    seq!['<', '?']
}

pub open spec fn pi_close() -> Seq<char> {
    seq!['?', '>']
}

pub open spec fn comment_open() -> Seq<char> {
    seq!['<', '!', '-', '-']
}

pub open spec fn comment_close() -> Seq<char> {
    seq!['-', '-', '>']
}

/// Clamps a consumed-count into a range that keeps the parser's
/// termination measure decreasing; on every reachable path the count is
/// already in range and the clamp changes nothing.
pub open spec fn clip(k: int, n: int) -> int {
    if k < 1 {
        1
    } else if k > n {
        n
    } else {
        k
    }
}

/// What parsing the inside of an element yields: the last text or CDATA
/// item (text trimmed, CDATA raw), the children in document order, the
/// name of the closing tag that ended it, and how many characters were
/// consumed, closing tag included.
pub ghost struct InnerParse {
    pub content: Option<Seq<char>>,
    pub children: Seq<XNode>,
    pub close: Seq<char>,
    pub used: int,
}

/// Parses one element at the head of `s`: `<tag/>`, or `<tag>` followed
/// by items and a matching closing tag.
pub open spec fn parse_elem(s: Seq<char>) -> Option<(XNode, int)>
    decreases s.len(), 0nat,
{
    if s.len() < 3 || s[0] != '<' {
        None
    } else {
        let tl = tag_len(s.subrange(1, s.len() as int)) as int;
        if tl == 0 {
            None
        } else if 1 + tl + 1 < s.len() && s[1 + tl] == '/' && s[1 + tl + 1] == '>' {
            Some(
                (
                    XNode {
                        tag: s.subrange(1, 1 + tl),
                        content: Seq::<char>::empty(),
                        children: Seq::<XNode>::empty(),
                    },
                    1 + tl + 2,
                ),
            )
        } else if 1 + tl < s.len() && s[1 + tl] == '>' {
            match parse_inner(s.subrange(1 + tl + 1, s.len() as int)) {
                Some(r) => if r.close == s.subrange(1, 1 + tl) {
                    Some(
                        (
                            XNode {
                                tag: s.subrange(1, 1 + tl),
                                content: match r.content {
                                    Some(c) => c,
                                    None => Seq::<char>::empty(),
                                },
                                children: r.children,
                            },
                            1 + tl + 1 + r.used,
                        ),
                    )
                } else {
                    None
                },
                None => None,
            }
        } else {
            None
        }
    }
}

/// Parses the items inside an element until its closing tag: text runs
/// (trimmed, the last one winning), CDATA sections (raw, the last one
/// winning), child elements, and skipped processing instructions and
/// comments.
pub open spec fn parse_inner(s: Seq<char>) -> Option<InnerParse>
    decreases s.len(), 1nat,
{
    let n = s.len() as int;
    if s.len() == 0 {
        None
    } else if s[0] == '<' {
        if s.len() >= 2 && s[1] == '/' {
            let tl = tag_len(s.subrange(2, n)) as int;
            if tl > 0 && 2 + tl < n && s[2 + tl] == '>' {
                Some(
                    InnerParse {
                        content: None,
                        children: Seq::<XNode>::empty(),
                        close: s.subrange(2, 2 + tl),
                        used: 2 + tl + 1,
                    },
                )
            } else {
                None
            }
        } else if starts(s, cdata_open()) {
            match find_sub(s.subrange(9, n), cdata_close()) {
                Some(e) => {
                    let raw = s.subrange(9, 9 + e);
                    match parse_inner(s.subrange(clip(9 + e + 3, n), n)) {
                        Some(r) => Some(
                            InnerParse {
                                content: match r.content {
                                    Some(c) => Some(c),
                                    None => Some(raw),
                                },
                                children: r.children,
                                close: r.close,
                                used: 9 + e + 3 + r.used,
                            },
                        ),
                        None => None,
                    }
                },
                None => None,
            }
        } else if starts(s, comment_open()) {
            match find_sub(s.subrange(4, n), comment_close()) {
                Some(e) => {
                    match parse_inner(s.subrange(clip(4 + e + 3, n), n)) {
                        Some(r) => Some(
                            InnerParse {
                                content: r.content,
                                children: r.children,
                                close: r.close,
                                used: 4 + e + 3 + r.used,
                            },
                        ),
                        None => None,
                    }
                },
                None => None,
            }
        } else if starts(s, pi_open()) {
            match find_sub(s.subrange(2, n), pi_close()) {
                Some(e) => {
                    match parse_inner(s.subrange(clip(2 + e + 2, n), n)) {
                        Some(r) => Some(
                            InnerParse {
                                content: r.content,
                                children: r.children,
                                close: r.close,
                                used: 2 + e + 2 + r.used,
                            },
                        ),
                        None => None,
                    }
                },
                None => None,
            }
        } else {
            match parse_elem(s) {
                Some((child, k)) => match parse_inner(s.subrange(clip(k, n), n)) {
                    Some(r) => Some(
                        InnerParse {
                            content: r.content,
                            children: seq![child] + r.children,
                            close: r.close,
                            used: k + r.used,
                        },
                    ),
                    None => None,
                },
                None => None,
            }
        }
    } else {
        let tl = text_len(s) as int;
        let raw = s.subrange(0, tl);
        match parse_inner(s.subrange(clip(tl, n), n)) {
            Some(r) => Some(
                InnerParse {
                    content: match r.content {
                        Some(c) => Some(c),
                        None => Some(trim_spec(raw)),
                    },
                    children: r.children,
                    close: r.close,
                    used: tl + r.used,
                },
            ),
            None => None,
        }
    }
}

/// Consumed counts stay within the suffix they were parsed from, so the
/// clamp in the definitions never actually changes a count.
pub proof fn lemma_parse_elem_bounds(s: Seq<char>)
    ensures
        match parse_elem(s) {
            Some((t, k)) => 3 <= k <= s.len(),
            None => true,
        },
    decreases s.len(), 0nat,
{
    let n = s.len() as int;
    if s.len() >= 3 && s[0] == '<' {
        let tl = tag_len(s.subrange(1, n)) as int;
        lemma_tag_len_le(s.subrange(1, n));
        if tl > 0 && !(1 + tl + 1 < n && s[1 + tl] == '/' && s[1 + tl + 1] == '>') && 1 + tl < n
            && s[1 + tl] == '>' {
            lemma_parse_inner_bounds(s.subrange(1 + tl + 1, n));
        }
    }
}

pub proof fn lemma_parse_inner_bounds(s: Seq<char>)
    ensures
        match parse_inner(s) {
            Some(r) => 1 <= r.used <= s.len(),
            None => true,
        },
    decreases s.len(), 1nat,
{
    let n = s.len() as int;
    if s.len() == 0 {
    } else if s[0] == '<' {
        if s.len() >= 2 && s[1] == '/' {
            lemma_tag_len_le(s.subrange(2, n));
        } else if starts(s, cdata_open()) {
            match find_sub(s.subrange(9, n), cdata_close()) {
                Some(e) => {
                    lemma_find_sub_bounds(s.subrange(9, n), cdata_close());
                    lemma_parse_inner_bounds(s.subrange(clip(9 + e + 3, n), n));
                },
                None => {},
            }
        } else if starts(s, comment_open()) {
            match find_sub(s.subrange(4, n), comment_close()) {
                Some(e) => {
                    lemma_find_sub_bounds(s.subrange(4, n), comment_close());
                    lemma_parse_inner_bounds(s.subrange(clip(4 + e + 3, n), n));
                },
                None => {},
            }
        } else if starts(s, pi_open()) {
            match find_sub(s.subrange(2, n), pi_close()) {
                Some(e) => {
                    lemma_find_sub_bounds(s.subrange(2, n), pi_close());
                    lemma_parse_inner_bounds(s.subrange(clip(2 + e + 2, n), n));
                },
                None => {},
            }
        } else {
            match parse_elem(s) {
                Some((child, k)) => {
                    lemma_parse_elem_bounds(s);
                    lemma_parse_inner_bounds(s.subrange(clip(k, n), n));
                },
                None => {},
            }
        }
    } else {
        let tl = text_len(s) as int;
        lemma_text_len_le(s);
        lemma_parse_inner_bounds(s.subrange(clip(tl, n), n));
    }
}

/// Walks the items of a whole document: whitespace, processing
/// instructions and comments are skipped, exactly one element must
/// remain, and anything else is an error.
pub open spec fn parse_doc(s: Seq<char>, found: Option<XNode>) -> Option<XNode>
    decreases s.len(),
{
    let n = s.len() as int;
    if s.len() == 0 {
        found
    } else if ws_char(s[0]) {
        parse_doc(s.subrange(clip(ws_len(s) as int, n), n), found)
    } else if s[0] == '<' {
        if starts(s, comment_open()) {
            match find_sub(s.subrange(4, n), comment_close()) {
                Some(e) => parse_doc(s.subrange(clip(4 + e + 3, n), n), found),
                None => None,
            }
        } else if starts(s, pi_open()) {
            match find_sub(s.subrange(2, n), pi_close()) {
                Some(e) => parse_doc(s.subrange(clip(2 + e + 2, n), n), found),
                None => None,
            }
        } else {
            match parse_elem(s) {
                Some((t, k)) => if found is Some {
                    None
                } else {
                    parse_doc(s.subrange(clip(k, n), n), Some(t))
                },
                None => None,
            }
        }
    } else {
        None
    }
}

/// What parsing a whole document yields: its single root element.
pub open spec fn parse_root(s: Seq<char>) -> Option<XNode> {
    parse_doc(s, None)
}

} // verus!

verus! {

/// Scanning a name runs to exactly its end when what follows cannot
/// continue it.
proof fn lemma_tag_len_exact(t: Seq<char>, r: Seq<char>)
    requires
        forall|i: int| 0 <= i < t.len() ==> tag_char(#[trigger] t[i]),
        r.len() > 0,
        !tag_char(r[0]),
    ensures
        tag_len(t + r) == t.len(),
    decreases t.len(),
{
    if t.len() == 0 {
        assert(t + r =~= r);
    } else {
        assert((t + r)[0] == t[0]);
        assert((t + r).subrange(1, (t + r).len() as int) =~= t.subrange(1, t.len() as int) + r);
        lemma_tag_len_exact(t.subrange(1, t.len() as int), r);
    }
}

/// Scanning text runs to exactly the next tag opener.
proof fn lemma_text_len_exact(c: Seq<char>, r: Seq<char>)
    requires
        forall|i: int| 0 <= i < c.len() ==> #[trigger] c[i] != '<',
        r.len() > 0,
        r[0] == '<',
    ensures
        text_len(c + r) == c.len(),
    decreases c.len(),
{
    if c.len() == 0 {
        assert(c + r =~= r);
    } else {
        assert((c + r)[0] == c[0]);
        assert((c + r).subrange(1, (c + r).len() as int) =~= c.subrange(1, c.len() as int) + r);
        lemma_text_len_exact(c.subrange(1, c.len() as int), r);
    }
}

/// Trimming changes nothing on text that is already trimmed.
proof fn lemma_trim_id(c: Seq<char>)
    requires
        c.len() > 0 ==> !ws_char(c[0]) && !ws_char(c[c.len() - 1]),
    ensures
        trim_spec(c) == c,
{
    assert(trim_front(c) =~= c);
    if c.len() > 0 {
        assert(!ws_char(c.last()));
    }
    assert(trim_back(c) == c);
}

/// A closing tag at the head of an element's inside ends it with no
/// content and no children.
proof fn lemma_parse_inner_close(tag: Seq<char>, rest: Seq<char>)
    requires
        tag.len() > 0,
        forall|i: int| 0 <= i < tag.len() ==> tag_char(#[trigger] tag[i]),
    ensures
        parse_inner(seq!['<', '/'] + tag + seq!['>'] + rest) == Some(
            InnerParse {
                content: None,
                children: Seq::<XNode>::empty(),
                close: tag,
                used: tag.len() as int + 3,
            },
        ),
{
    let s = seq!['<', '/'] + tag + seq!['>'] + rest;
    let n = s.len() as int;
    assert(s.len() == tag.len() + 3 + rest.len());
    assert(s[0] == '<');
    assert(s[1] == '/');
    assert(s.subrange(2, n) =~= tag + (seq!['>'] + rest));
    assert(!tag_char('>'));
    lemma_tag_len_exact(tag, seq!['>'] + rest);
    let tl = tag_len(s.subrange(2, n)) as int;
    assert(tl == tag.len());
    assert(s[2 + tl] == (seq!['>'] + rest)[0]);
    assert(s[2 + tl] == '>');
    assert(s.subrange(2, 2 + tl) =~= tag);
}

/// The character classes that tell the head of a rendered element apart
/// from every other branch of the parser.
proof fn lemma_tag_char_facts()
    ensures
        !tag_char('/'),
        !tag_char('>'),
        !tag_char('!'),
        !tag_char('?'),
        !ws_char('<'),
{
    assert(!tag_char('/'));
    assert(!tag_char('>'));
    assert(!tag_char('!'));
    assert(!tag_char('?'));
    assert(!ws_char('<'));
}

/// Parsing a compact rendering followed by anything consumes exactly the
/// rendering and yields back the very tree it came from.
#[verifier::rlimit(100)]
proof fn lemma_parse_elem_render(t: XNode, rest: Seq<char>)
    requires
        wf(t),
    ensures
        parse_elem(render_compact(t) + rest) == Some(
            (t, render_compact(t).len() as int),
        ),
    decreases t, 0nat,
{
    lemma_tag_char_facts();
    let s = render_compact(t) + rest;
    let n = s.len() as int;
    let tag = t.tag;
    if t.children.len() == 0 && t.content.len() == 0 {
        assert(render_compact(t) == seq!['<'] + tag + seq!['/', '>']);
        assert(s =~= seq!['<'] + tag + (seq!['/', '>'] + rest));
        assert(s[0] == '<');
        assert(s.subrange(1, n) =~= tag + (seq!['/', '>'] + rest));
        lemma_tag_len_exact(tag, seq!['/', '>'] + rest);
        let tl = tag_len(s.subrange(1, n)) as int;
        assert(tl == tag.len());
        assert(s[1 + tl] == '/');
        assert(s[1 + tl + 1] == '>');
        assert(s.subrange(1, 1 + tl) =~= tag);
        assert(t.content =~= Seq::<char>::empty());
        assert(t.children =~= Seq::<XNode>::empty());
        assert(parse_elem(s) == Some((t, 1 + tl + 2)));
    } else if t.children.len() == 0 {
        let c = t.content;
        let close = seq!['<', '/'] + tag + seq!['>'];
        assert(render_compact(t) == seq!['<'] + tag + seq!['>'] + c + close);
        assert(s =~= seq!['<'] + tag + (seq!['>'] + (c + (close + rest))));
        assert(s[0] == '<');
        assert(s.subrange(1, n) =~= tag + (seq!['>'] + (c + (close + rest))));
        lemma_tag_len_exact(tag, seq!['>'] + (c + (close + rest)));
        let tl = tag_len(s.subrange(1, n)) as int;
        assert(tl == tag.len());
        assert(s[1 + tl] == '>');
        assert(s[1 + tl] != '/');
        let inner = s.subrange(1 + tl + 1, n);
        assert(inner =~= c + (close + rest));
        // the inside starts with a text run: exactly the content
        assert(c[0] != '<');
        assert(inner[0] != '<');
        assert(inner.len() > 0);
        assert(close + rest =~= seq!['<', '/'] + tag + seq!['>'] + rest);
        assert((close + rest)[0] == '<');
        lemma_text_len_exact(c, close + rest);
        let txl = text_len(inner) as int;
        assert(txl == c.len());
        assert(inner.subrange(0, txl) =~= c);
        lemma_trim_id(c);
        let im = inner.len() as int;
        assert(1 <= txl <= im);
        assert(clip(txl, im) == txl);
        assert(inner.subrange(txl, im) =~= close + rest);
        lemma_parse_inner_close(tag, rest);
        assert(parse_inner(inner.subrange(clip(txl, im), im)) == Some(
            InnerParse {
                content: None,
                children: Seq::<XNode>::empty(),
                close: tag,
                used: tag.len() as int + 3,
            },
        ));
        assert(parse_inner(inner) == Some(
            InnerParse {
                content: Some(c),
                children: Seq::<XNode>::empty(),
                close: tag,
                used: c.len() as int + tag.len() + 3,
            },
        ));
        assert(s.subrange(1, 1 + tl) =~= tag);
        assert(t.children =~= Seq::<XNode>::empty());
        assert(parse_elem(s) == Some((t, 1 + tl + 1 + c.len() + tag.len() + 3)));
        assert(render_compact(t).len() == 1 + tag.len() + 1 + c.len() + 2 + tag.len() + 1);
    } else {
        let close = seq!['<', '/'] + tag + seq!['>'];
        let body = render_compact_seq(t.children);
        assert(render_compact(t) == seq!['<'] + tag + seq!['>'] + body + close);
        assert(s =~= seq!['<'] + tag + (seq!['>'] + (body + (close + rest))));
        assert(s[0] == '<');
        assert(s.subrange(1, n) =~= tag + (seq!['>'] + (body + (close + rest))));
        lemma_tag_len_exact(tag, seq!['>'] + (body + (close + rest)));
        let tl = tag_len(s.subrange(1, n)) as int;
        assert(tl == tag.len());
        assert(s[1 + tl] == '>');
        assert(s[1 + tl] != '/');
        let inner = s.subrange(1 + tl + 1, n);
        assert(inner =~= body + (close + rest));
        lemma_parse_inner_children(t.children, tag, rest);
        assert(body + close + rest =~= body + (close + rest));
        assert(parse_inner(inner) == Some(
            InnerParse {
                content: None,
                children: t.children,
                close: tag,
                used: body.len() as int + tag.len() + 3,
            },
        ));
        assert(s.subrange(1, 1 + tl) =~= tag);
        assert(t.content =~= Seq::<char>::empty());
        assert(parse_elem(s) == Some((t, 1 + tl + 1 + body.len() + tag.len() + 3)));
        assert(render_compact(t).len() == 1 + tag.len() + 1 + body.len() + 2 + tag.len() + 1);
    }
}

/// Parsing the renderings of a sibling sequence, then a closing tag,
/// collects exactly those siblings.
#[verifier::rlimit(100)]
proof fn lemma_parse_inner_children(cs: Seq<XNode>, tag: Seq<char>, rest: Seq<char>)
    requires
        wf_seq(cs),
        tag.len() > 0,
        forall|i: int| 0 <= i < tag.len() ==> tag_char(#[trigger] tag[i]),
    ensures
        parse_inner(render_compact_seq(cs) + (seq!['<', '/'] + tag + seq!['>']) + rest) == Some(
            InnerParse {
                content: None,
                children: cs,
                close: tag,
                used: render_compact_seq(cs).len() as int + tag.len() + 3,
            },
        ),
    decreases cs, 1nat,
{
    lemma_tag_char_facts();
    let close = seq!['<', '/'] + tag + seq!['>'];
    let s = render_compact_seq(cs) + close + rest;
    let n = s.len() as int;
    if cs.len() == 0 {
        assert(cs =~= Seq::<XNode>::empty());
        assert(render_compact_seq(cs) =~= Seq::<char>::empty());
        assert(s =~= seq!['<', '/'] + tag + seq!['>'] + rest);
        lemma_parse_inner_close(tag, rest);
    } else {
        let head = cs[0];
        let tail = cs.subrange(1, cs.len() as int);
        wf_seq_index(cs, 0);
        let rc = render_compact(head);
        let rcs_tail = render_compact_seq(tail);
        assert(render_compact_seq(cs) == rc + rcs_tail);
        let rest2 = rcs_tail + close + rest;
        assert(s =~= rc + rest2);
        // the head of a rendering can only be a child element
        assert(rc.len() >= 4) by {
            if head.children.len() == 0 && head.content.len() == 0 {
            } else if head.children.len() == 0 {
            } else {
            }
        }
        assert(rc[0] == '<');
        assert(rc[1] == head.tag[0]);
        assert(tag_char(s[1]));
        assert(s[0] == '<');
        assert(s[1] != '/');
        assert(s.len() >= 9 ==> s.subrange(0, 9)[1] == s[1]);
        assert(!starts(s, cdata_open()));
        assert(s.len() >= 4 ==> s.subrange(0, 4)[1] == s[1]);
        assert(!starts(s, comment_open()));
        assert(s.len() >= 2 ==> s.subrange(0, 2)[1] == s[1]);
        assert(!starts(s, pi_open()));
        lemma_parse_elem_render(head, rest2);
        assert(parse_elem(s) == Some((head, rc.len() as int)));
        let k = rc.len() as int;
        assert(1 <= k <= n);
        assert(clip(k, n) == k);
        assert(s.subrange(k, n) =~= rcs_tail + close + rest);
        lemma_parse_inner_children(tail, tag, rest);
        assert(parse_inner(s.subrange(clip(k, n), n)) == Some(
            InnerParse {
                content: None,
                children: tail,
                close: tag,
                used: rcs_tail.len() as int + tag.len() + 3,
            },
        ));
        assert(seq![head] + tail =~= cs);
        assert(parse_inner(s) == Some(
            InnerParse {
                content: None,
                children: cs,
                close: tag,
                used: k + rcs_tail.len() + tag.len() + 3,
            },
        ));
    }
}

/// Round trip at the document level: parsing the compact rendering of a
/// well-formed tree yields that tree back, exactly.
pub proof fn lemma_parse_render_roundtrip(t: XNode)
    requires
        wf(t),
    ensures
        parse_root(render_compact(t)) == Some(t),
{
    lemma_tag_char_facts();
    let s = render_compact(t);
    let n = s.len() as int;
    assert(s.len() >= 4) by {
        if t.children.len() == 0 && t.content.len() == 0 {
        } else if t.children.len() == 0 {
        } else {
        }
    }
    assert(s[0] == '<');
    assert(s[1] == t.tag[0]);
    assert(tag_char(s[1]));
    assert(!ws_char(s[0]));
    assert(s.len() >= 4 ==> s.subrange(0, 4)[1] == s[1]);
    assert(!starts(s, comment_open()));
    assert(s.len() >= 2 ==> s.subrange(0, 2)[1] == s[1]);
    assert(!starts(s, pi_open()));
    lemma_parse_elem_render(t, Seq::<char>::empty());
    assert(s + Seq::<char>::empty() =~= s);
    assert(parse_elem(s) == Some((t, n)));
    assert(clip(n, n) == n);
    assert(s.subrange(n, n) =~= Seq::<char>::empty());
    assert(parse_doc(s.subrange(clip(n, n), n), Some(t)) == Some(t));
}

} // verus!

verus! {

/// The unparsed suffix of `s` from position `pos`.
pub open spec fn sfx(s: Seq<char>, pos: int) -> Seq<char> {
    s.subrange(pos, s.len() as int)
}

/// Stepping one character into a suffix.
proof fn lemma_sfx_step(s: Seq<char>, pos: int)
    requires
        0 <= pos < s.len(),
    ensures
        sfx(s, pos).subrange(1, sfx(s, pos).len() as int) =~= sfx(s, pos + 1),
        sfx(s, pos)[0] == s[pos],
        sfx(s, pos).len() == s.len() - pos,
{
}

fn scan_ws(s: &str, pos: usize) -> (r: usize)
    requires
        pos <= s@.len(),
    ensures
        pos <= r <= s@.len(),
        r - pos == ws_len(sfx(s@, pos as int)),
{
    let len = s.unicode_len();
    let mut j = pos;
    while j < len && crate::text::is_ws_char(s.get_char(j))
        invariant
            pos <= j <= len,
            len == s@.len(),
            ws_len(sfx(s@, pos as int)) == (j - pos) + ws_len(sfx(s@, j as int)),
        decreases len - j,
    {
        proof {
            lemma_sfx_step(s@, j as int);
        }
        j += 1;
    }
    proof {
        if j == len {
            assert(sfx(s@, j as int).len() == 0);
        } else {
            lemma_sfx_step(s@, j as int);
        }
        assert(ws_len(sfx(s@, j as int)) == 0);
    }
    j
}

fn scan_tag(s: &str, pos: usize) -> (r: usize)
    requires
        pos <= s@.len(),
    ensures
        pos <= r <= s@.len(),
        r - pos == tag_len(sfx(s@, pos as int)),
{
    let len = s.unicode_len();
    let mut j = pos;
    while j < len && crate::text::is_tag_char(s.get_char(j))
        invariant
            pos <= j <= len,
            len == s@.len(),
            tag_len(sfx(s@, pos as int)) == (j - pos) + tag_len(sfx(s@, j as int)),
        decreases len - j,
    {
        proof {
            lemma_sfx_step(s@, j as int);
        }
        j += 1;
    }
    proof {
        if j == len {
            assert(sfx(s@, j as int).len() == 0);
        } else {
            lemma_sfx_step(s@, j as int);
        }
        assert(tag_len(sfx(s@, j as int)) == 0);
    }
    j
}

fn scan_text(s: &str, pos: usize) -> (r: usize)
    requires
        pos <= s@.len(),
    ensures
        pos <= r <= s@.len(),
        r - pos == text_len(sfx(s@, pos as int)),
{
    let len = s.unicode_len();
    let mut j = pos;
    while j < len && s.get_char(j) != '<'
        invariant
            pos <= j <= len,
            len == s@.len(),
            text_len(sfx(s@, pos as int)) == (j - pos) + text_len(sfx(s@, j as int)),
        decreases len - j,
    {
        proof {
            lemma_sfx_step(s@, j as int);
        }
        j += 1;
    }
    proof {
        if j == len {
            assert(sfx(s@, j as int).len() == 0);
        } else {
            lemma_sfx_step(s@, j as int);
        }
        assert(text_len(sfx(s@, j as int)) == 0);
    }
    j
}

/// Whether the pattern `p` sits at position `pos` of `s`.
pub(crate) fn starts_at(s: &str, pos: usize, p: &str) -> (r: bool)
    requires
        pos <= s@.len(),
    ensures
        r == starts(sfx(s@, pos as int), p@),
{
    let len = s.unicode_len();
    let plen = p.unicode_len();
    if len - pos < plen {
        return false;
    }
    let ghost piece = sfx(s@, pos as int).subrange(0, p@.len() as int);
    for i in 0..plen
        invariant
            pos + plen <= len,
            len == s@.len(),
            plen == p@.len(),
            piece == sfx(s@, pos as int).subrange(0, p@.len() as int),
            forall|k: int| 0 <= k < i ==> piece[k] == p@[k],
    {
        proof {
            assert(piece[i as int] == s@[pos + i]);
        }
        if s.get_char(pos + i) != p.get_char(i) {
            proof {
                assert(piece[i as int] != p@[i as int]);
                assert(piece != p@);
            }
            return false;
        }
    }
    proof {
        assert(piece =~= p@);
    }
    true
}

/// Finds the next occurrence of `p` at or after `pos`.
pub(crate) fn find_from(s: &str, pos: usize, p: &str) -> (r: Option<usize>)
    requires
        pos <= s@.len(),
        p@.len() > 0,
    ensures
        match r {
            Some(j) => pos <= j && pos + p@.len() <= s@.len() && j + p@.len() <= s@.len()
                && find_sub(sfx(s@, pos as int), p@) == Some(j - pos),
            None => find_sub(sfx(s@, pos as int), p@) is None,
        },
{
    let len = s.unicode_len();
    let plen = p.unicode_len();
    let mut j = pos;
    loop
        invariant
            pos <= j <= len,
            len == s@.len(),
            plen == p@.len(),
            plen > 0,
            (match find_sub(sfx(s@, j as int), p@) {
                Some(i) => find_sub(sfx(s@, pos as int), p@) == Some((j - pos) + i),
                None => find_sub(sfx(s@, pos as int), p@) is None,
            }),
        decreases len - j,
    {
        if len - j < plen {
            proof {
                assert(sfx(s@, j as int).len() < p@.len());
                assert(find_sub(sfx(s@, j as int), p@) is None);
            }
            return None;
        }
        if starts_at(s, j, p) {
            proof {
                assert(sfx(s@, j as int).len() > 0);
                assert(find_sub(sfx(s@, j as int), p@) == Some(0int));
            }
            return Some(j);
        }
        proof {
            lemma_sfx_step(s@, j as int);
        }
        j += 1;
    }
}

/// Copies `s[from..to]` with surrounding whitespace stripped.
fn trim_substring(s: &str, from: usize, to: usize) -> (r: String)
    requires
        from <= to <= s@.len(),
    ensures
        r@ == trim_spec(s@.subrange(from as int, to as int)),
{
    let ghost piece = s@.subrange(from as int, to as int);
    let mut a = from;
    while a < to && crate::text::is_ws_char(s.get_char(a))
        invariant
            from <= a <= to <= s@.len(),
            piece == s@.subrange(from as int, to as int),
            ws_len(piece) == (a - from) + ws_len(s@.subrange(a as int, to as int)),
        decreases to - a,
    {
        proof {
            let part = s@.subrange(a as int, to as int);
            assert(part[0] == s@[a as int]);
            assert(part.subrange(1, part.len() as int) =~= s@.subrange(a + 1, to as int));
        }
        a += 1;
    }
    proof {
        let part = s@.subrange(a as int, to as int);
        if a < to {
            assert(part[0] == s@[a as int]);
        }
        assert(ws_len(part) == 0);
        assert(trim_front(piece) =~= s@.subrange(a as int, to as int));
    }
    let mut b = to;
    while b > a && crate::text::is_ws_char(s.get_char(b - 1))
        invariant
            a <= b <= to <= s@.len(),
            trim_back(s@.subrange(a as int, to as int)) == trim_back(
                s@.subrange(a as int, b as int),
            ),
        decreases b,
    {
        proof {
            let part = s@.subrange(a as int, b as int);
            assert(part.last() == s@[b - 1]);
            assert(part.drop_last() =~= s@.subrange(a as int, b - 1));
        }
        b -= 1;
    }
    proof {
        let part = s@.subrange(a as int, b as int);
        if b > a {
            assert(part.last() == s@[b - 1]);
        }
        assert(trim_back(part) == part);
    }
    String::from_str(s.substring_char(a, b))
}

} // verus!

verus! {

pub open spec fn opt_view(o: Option<String>) -> Option<Seq<char>> {
    match o {
        Some(s) => Some(s@),
        None => None,
    }
}

/// Parses one element starting at `pos`.
#[verifier::rlimit(100)]
fn p_elem(s: &str, pos: usize) -> (r: Result<(Node, usize), Error>)
    requires
        pos <= s@.len(),
    ensures
        match r {
            Ok(p) => parse_elem(sfx(s@, pos as int)) == Some((p.0@, p.1 as int)) && 3 <= p.1
                && pos + p.1 <= s@.len(),
            Err(e) => parse_elem(sfx(s@, pos as int)) is None && e is InvalidXml,
        },
    decreases s@.len() - pos, 0nat,
{
    let ghost suf = sfx(s@, pos as int);
    proof {
        assert(suf.len() == s@.len() - pos);
    }
    let len = s.unicode_len();
    if len - pos < 3 || s.get_char(pos) != '<' {
        proof {
            if len - pos >= 3 {
                lemma_sfx_step(s@, pos as int);
            }
        }
        return Err(Error::InvalidXml(String::from_str("The markup holds no element here.")));
    }
    proof {
        lemma_sfx_step(s@, pos as int);
    }
    let tstart = pos + 1;
    let tend = scan_tag(s, tstart);
    let ghost tl = tend - tstart;
    proof {
        assert(suf.subrange(1, suf.len() as int) =~= sfx(s@, tstart as int));
        assert(tag_len(suf.subrange(1, suf.len() as int)) == tl);
    }
    if tend == tstart {
        return Err(Error::InvalidXml(String::from_str("An element's tag name is missing.")));
    }
    let tag_slice = s.substring_char(tstart, tend);
    proof {
        assert(tag_slice@ =~= suf.subrange(1, 1 + tl));
    }
    if len - tend > 1 && s.get_char(tend) == '/' {
        if s.get_char(tend + 1) == '>' {
            proof {
                assert(suf[1 + tl] == s@[tend as int]);
                assert(suf[1 + tl + 1] == s@[tend + 1]);
            }
            let node = Node::new(tag_slice);
            let used = tend - pos + 2;
            proof {
                assert(node@ == XNode {
                    tag: suf.subrange(1, 1 + tl),
                    content: Seq::<char>::empty(),
                    children: Seq::<XNode>::empty(),
                });
                assert(parse_elem(suf) == Some((node@, used as int)));
            }
            return Ok((node, used));
        }
    }
    if tend < len && s.get_char(tend) == '>' {
        proof {
            assert(suf[1 + tl] == s@[tend as int]);
            if tend + 1 < len {
                assert(suf[1 + tl + 1] == s@[tend + 1]);
            }
        }
        match p_inner(s, tend + 1) {
            Ok((content, children, close, used_in)) => {
                proof {
                    assert(suf.subrange(1 + tl + 1, suf.len() as int) =~= sfx(s@, tend + 1));
                }
                if crate::text::str_eq(close.as_str(), tag_slice) {
                    let node = Node {
                        tag: String::from_str(tag_slice),
                        content: match content {
                            Some(c) => c.into_content(),
                            None => Content::default(),
                        },
                        children,
                    };
                    let used = tend + 1 - pos + used_in;
                    proof {
                        crate::xml::node_view_parts(&node);
                        assert(parse_elem(suf) == Some((node@, used as int)));
                        lemma_parse_elem_bounds(suf);
                    }
                    return Ok((node, used));
                } else {
                    return Err(
                        Error::InvalidXml(
                            String::from_str("A closing tag does not match its opening tag."),
                        ),
                    );
                }
            },
            Err(e) => {
                proof {
                    assert(suf.subrange(1 + tl + 1, suf.len() as int) =~= sfx(s@, tend + 1));
                }
                return Err(e);
            },
        }
    }
    proof {
        if tend < len {
            assert(suf[1 + tl] == s@[tend as int]);
        }
        if tend + 1 < len {
            assert(suf[1 + tl + 1] == s@[tend + 1]);
        }
        assert(parse_elem(suf) is None);
    }
    Err(Error::InvalidXml(String::from_str("An element's opening tag is malformed.")))
}

/// Parses the items inside an element up to and including its closing
/// tag, starting at `pos`.
#[verifier::rlimit(100)]
fn p_inner(s: &str, pos: usize) -> (r: Result<(Option<String>, Vec<Node>, String, usize), Error>)
    requires
        pos <= s@.len(),
    ensures
        match r {
            Ok(p) => parse_inner(sfx(s@, pos as int)) == Some(
                InnerParse {
                    content: opt_view(p.0),
                    children: crate::xml::vec_views(p.1),
                    close: p.2@,
                    used: p.3 as int,
                },
            ) && 1 <= p.3 && pos + p.3 <= s@.len(),
            Err(e) => parse_inner(sfx(s@, pos as int)) is None && e is InvalidXml,
        },
    decreases s@.len() - pos, 1nat,
{
    let ghost suf = sfx(s@, pos as int);
    let ghost n = suf.len() as int;
    proof {
        assert(n == s@.len() - pos);
        broadcast use crate::xml::vec_views_index;
        reveal_strlit("<![CDATA[");
        reveal_strlit("]]>");
        reveal_strlit("<!--");
        reveal_strlit("-->");
        reveal_strlit("<?");
        reveal_strlit("?>");
        assert("<![CDATA["@ =~= cdata_open());
        assert("]]>"@ =~= cdata_close());
        assert("<!--"@ =~= comment_open());
        assert("-->"@ =~= comment_close());
        assert("<?"@ =~= pi_open());
        assert("?>"@ =~= pi_close());
    }
    let len = s.unicode_len();
    if pos == len {
        return Err(
            Error::InvalidXml(String::from_str("The markup ends inside an unclosed element.")),
        );
    }
    proof {
        lemma_sfx_step(s@, pos as int);
    }
    let c0 = s.get_char(pos);
    if c0 == '<' {
        if len - pos > 1 && s.get_char(pos + 1) == '/' {
            proof {
                assert(suf[1] == s@[pos + 1]);
            }
            let tend = scan_tag(s, pos + 2);
            let ghost tl = tend - (pos + 2);
            proof {
                assert(suf.subrange(2, n) =~= sfx(s@, pos + 2));
                assert(tag_len(suf.subrange(2, n)) == tl);
            }
            if tend == pos + 2 {
                return Err(
                    Error::InvalidXml(String::from_str("A closing tag's name is missing.")),
                );
            }
            if tend < len && s.get_char(tend) == '>' {
                proof {
                    assert(suf[2 + tl] == s@[tend as int]);
                }
                let close = String::from_str(s.substring_char(pos + 2, tend));
                let children: Vec<Node> = Vec::new();
                let used = tend + 1 - pos;
                proof {
                    assert(close@ =~= suf.subrange(2, 2 + tl));
                    assert(crate::xml::vec_views(children) =~= Seq::<XNode>::empty());
                    assert(parse_inner(suf) == Some(
                        InnerParse {
                            content: None,
                            children: crate::xml::vec_views(children),
                            close: close@,
                            used: used as int,
                        },
                    ));
                }
                return Ok((None, children, close, used));
            }
            proof {
                if tend < len {
                    assert(suf[2 + tl] == s@[tend as int]);
                }
            }
            return Err(Error::InvalidXml(String::from_str("A closing tag is malformed.")));
        } else if starts_at(s, pos, "<![CDATA[") {
            match find_from(s, pos + 9, "]]>") {
                Some(j) => {
                    let ghost e = j - (pos + 9);
                    proof {
                        assert(suf.subrange(9, n) =~= sfx(s@, pos + 9));
                        assert(find_sub(suf.subrange(9, n), cdata_close()) == Some(e));
                        assert(clip(9 + e + 3, n) == 9 + e + 3);
                        assert(suf.subrange(9 + e + 3, n) =~= sfx(s@, j + 3));
                    }
                    let raw = String::from_str(s.substring_char(pos + 9, j));
                    proof {
                        assert(raw@ =~= suf.subrange(9, 9 + e));
                    }
                    match p_inner(s, j + 3) {
                        Ok((content, children, close, used_in)) => {
                            let used = j + 3 - pos + used_in;
                            let combined = match content {
                                Some(c) => Some(c),
                                None => Some(raw),
                            };
                            proof {
                                assert(parse_inner(suf) == Some(
                                    InnerParse {
                                        content: opt_view(combined),
                                        children: crate::xml::vec_views(children),
                                        close: close@,
                                        used: used as int,
                                    },
                                ));
                            }
                            return Ok((combined, children, close, used));
                        },
                        Err(e2) => {
                            return Err(e2);
                        },
                    }
                },
                None => {
                    proof {
                        assert(suf.subrange(9, n) =~= sfx(s@, pos + 9));
                    }
                    return Err(
                        Error::InvalidXml(String::from_str("A CDATA section is unterminated.")),
                    );
                },
            }
        } else if starts_at(s, pos, "<!--") {
            match find_from(s, pos + 4, "-->") {
                Some(j) => {
                    let ghost e = j - (pos + 4);
                    proof {
                        assert(suf.subrange(4, n) =~= sfx(s@, pos + 4));
                        assert(find_sub(suf.subrange(4, n), comment_close()) == Some(e));
                        assert(clip(4 + e + 3, n) == 4 + e + 3);
                        assert(suf.subrange(4 + e + 3, n) =~= sfx(s@, j + 3));
                    }
                    match p_inner(s, j + 3) {
                        Ok((content, children, close, used_in)) => {
                            let used = j + 3 - pos + used_in;
                            return Ok((content, children, close, used));
                        },
                        Err(e2) => {
                            return Err(e2);
                        },
                    }
                },
                None => {
                    proof {
                        assert(suf.subrange(4, n) =~= sfx(s@, pos + 4));
                    }
                    return Err(Error::InvalidXml(String::from_str("A comment is unterminated.")));
                },
            }
        } else if starts_at(s, pos, "<?") {
            match find_from(s, pos + 2, "?>") {
                Some(j) => {
                    let ghost e = j - (pos + 2);
                    proof {
                        assert(suf.subrange(2, n) =~= sfx(s@, pos + 2));
                        assert(find_sub(suf.subrange(2, n), pi_close()) == Some(e));
                        assert(clip(2 + e + 2, n) == 2 + e + 2);
                        assert(suf.subrange(2 + e + 2, n) =~= sfx(s@, j + 2));
                    }
                    match p_inner(s, j + 2) {
                        Ok((content, children, close, used_in)) => {
                            let used = j + 2 - pos + used_in;
                            return Ok((content, children, close, used));
                        },
                        Err(e2) => {
                            return Err(e2);
                        },
                    }
                },
                None => {
                    proof {
                        assert(suf.subrange(2, n) =~= sfx(s@, pos + 2));
                    }
                    return Err(
                        Error::InvalidXml(
                            String::from_str("A processing instruction is unterminated."),
                        ),
                    );
                },
            }
        } else {
            match p_elem(s, pos) {
                Ok((child, k)) => {
                    proof {
                        assert(clip(k as int, n) == k as int);
                        assert(suf.subrange(k as int, n) =~= sfx(s@, pos + k));
                    }
                    match p_inner(s, pos + k) {
                        Ok((content, mut children, close, used_in)) => {
                            let ghost before = children;
                            children.insert(0, child);
                            let used = k + used_in;
                            proof {
                                crate::xml::vec_views_index(children);
                                crate::xml::vec_views_index(before);
                                assert(children@ == before@.insert(0, child));
                                assert(children@ =~= seq![child] + before@);
                                assert forall|i: int| 0 <= i < children@.len() implies
                                    crate::xml::vec_views(children)[i] == (seq![child@]
                                    + crate::xml::vec_views(before))[i] by {
                                    assert(crate::xml::vec_views(children)[i] == children@[i]@);
                                    if i == 0 {
                                        assert(children@[0] == child);
                                    } else {
                                        assert(children@[i] == before@[i - 1]);
                                        assert(crate::xml::vec_views(before)[i - 1] == before@[i
                                            - 1]@);
                                    }
                                }
                                assert(crate::xml::vec_views(children) =~= seq![child@]
                                    + crate::xml::vec_views(before));
                                assert(parse_inner(suf) == Some(
                                    InnerParse {
                                        content: opt_view(content),
                                        children: crate::xml::vec_views(children),
                                        close: close@,
                                        used: used as int,
                                    },
                                ));
                            }
                            return Ok((content, children, close, used));
                        },
                        Err(e2) => {
                            return Err(e2);
                        },
                    }
                },
                Err(e2) => {
                    return Err(e2);
                },
            }
        }
    } else {
        let tend = scan_text(s, pos);
        let ghost tl = tend - pos;
        proof {
            assert(text_len(suf) == tl);
            assert(tl >= 1);
            assert(clip(tl as int, n) == tl as int);
            assert(suf.subrange(tl as int, n) =~= sfx(s@, tend as int));
            assert(suf.subrange(0, tl as int) =~= s@.subrange(pos as int, tend as int));
        }
        let trimmed = trim_substring(s, pos, tend);
        match p_inner(s, tend) {
            Ok((content, children, close, used_in)) => {
                let used = tend - pos + used_in;
                let combined = match content {
                    Some(c) => Some(c),
                    None => Some(trimmed),
                };
                proof {
                    assert(parse_inner(suf) == Some(
                        InnerParse {
                            content: opt_view(combined),
                            children: crate::xml::vec_views(children),
                            close: close@,
                            used: used as int,
                        },
                    ));
                }
                return Ok((combined, children, close, used));
            },
            Err(e2) => {
                return Err(e2);
            },
        }
    }
}

} // verus!

verus! {

pub open spec fn opt_node_view(o: Option<Node>) -> Option<XNode> {
    match o {
        Some(nd) => Some(nd@),
        None => None,
    }
}

/// Parses a whole document held in a string: exactly one root element,
/// with whitespace, comments and processing instructions around it.
#[verifier::rlimit(100)]
pub fn parse_str(s: &str) -> (r: Result<Node, Error>)
    ensures
        match r {
            Ok(node) => parse_root(s@) == Some(node@),
            Err(e) => parse_root(s@) is None && e is InvalidXml,
        },
{
    proof {
        reveal_strlit("<!--");
        reveal_strlit("-->");
        reveal_strlit("<?");
        reveal_strlit("?>");
        assert("<!--"@ =~= comment_open());
        assert("-->"@ =~= comment_close());
        assert("<?"@ =~= pi_open());
        assert("?>"@ =~= pi_close());
        assert(sfx(s@, 0) =~= s@);
    }
    let len = s.unicode_len();
    let mut pos: usize = 0;
    let mut found: Option<Node> = None;
    while pos < len
        invariant
            pos <= len,
            len == s@.len(),
            parse_root(s@) == parse_doc(sfx(s@, pos as int), opt_node_view(found)),
        decreases len - pos,
    {
        let ghost suf = sfx(s@, pos as int);
        let ghost n = suf.len() as int;
        proof {
            reveal_strlit("<!--");
            reveal_strlit("-->");
            reveal_strlit("<?");
            reveal_strlit("?>");
            assert("<!--"@ =~= comment_open());
            assert("-->"@ =~= comment_close());
            assert("<?"@ =~= pi_open());
            assert("?>"@ =~= pi_close());
            lemma_sfx_step(s@, pos as int);
        }
        let c0 = s.get_char(pos);
        if crate::text::is_ws_char(c0) {
            let j = scan_ws(s, pos);
            proof {
                assert(ws_len(suf) == j - pos);
                assert(j - pos >= 1);
                assert(clip((j - pos) as int, n) == j - pos);
                assert(suf.subrange((j - pos) as int, n) =~= sfx(s@, j as int));
            }
            pos = j;
        } else if starts_at(s, pos, "<!--") {
            match find_from(s, pos + 4, "-->") {
                Some(j) => {
                    let ghost e = j - (pos + 4);
                    proof {
                        assert(suf.subrange(4, n) =~= sfx(s@, pos + 4));
                        assert(find_sub(suf.subrange(4, n), comment_close()) == Some(e));
                        assert(clip(4 + e + 3, n) == 4 + e + 3);
                        assert(suf.subrange(4 + e + 3, n) =~= sfx(s@, j + 3));
                    }
                    pos = j + 3;
                },
                None => {
                    proof {
                        assert(suf.subrange(4, n) =~= sfx(s@, pos + 4));
                    }
                    return Err(Error::InvalidXml(String::from_str("A comment is unterminated.")));
                },
            }
        } else if starts_at(s, pos, "<?") {
            match find_from(s, pos + 2, "?>") {
                Some(j) => {
                    let ghost e = j - (pos + 2);
                    proof {
                        assert(suf.subrange(2, n) =~= sfx(s@, pos + 2));
                        assert(find_sub(suf.subrange(2, n), pi_close()) == Some(e));
                        assert(clip(2 + e + 2, n) == 2 + e + 2);
                        assert(suf.subrange(2 + e + 2, n) =~= sfx(s@, j + 2));
                    }
                    pos = j + 2;
                },
                None => {
                    proof {
                        assert(suf.subrange(2, n) =~= sfx(s@, pos + 2));
                    }
                    return Err(
                        Error::InvalidXml(
                            String::from_str("A processing instruction is unterminated."),
                        ),
                    );
                },
            }
        } else if c0 == '<' {
            match p_elem(s, pos) {
                Ok((node, k)) => {
                    if found.is_some() {
                        return Err(
                            Error::InvalidXml(
                                String::from_str("The markup contains more than one root element."),
                            ),
                        );
                    }
                    proof {
                        assert(clip(k as int, n) == k as int);
                        assert(suf.subrange(k as int, n) =~= sfx(s@, pos + k));
                    }
                    found = Some(node);
                    pos = pos + k;
                },
                Err(e) => {
                    return Err(e);
                },
            }
        } else {
            return Err(
                Error::InvalidXml(
                    String::from_str("The markup contains stray text at the root level."),
                ),
            );
        }
    }
    proof {
        assert(sfx(s@, pos as int).len() == 0);
    }
    match found {
        Some(node) => Ok(node),
        None => Err(
            Error::InvalidXml(String::from_str("The markup contains no root element.")),
        ),
    }
}

/// Relies on std's `str::from_utf8`: it accepts exactly the valid UTF-8
/// byte strings and decodes them, as vstd's UTF-8 model states.
#[verifier::external_body]
pub(crate) fn bytes_to_string(v: &[u8]) -> (r: Option<String>)
    ensures
        match r {
            Some(s) => valid_utf8(v@) && s@ == decode_utf8(v@),
            None => !valid_utf8(v@),
        },
{
    std::str::from_utf8(v).ok().map(|s| s.to_string())
}

/// Parses a whole document held in bytes, which must be UTF-8.
pub fn parse(xml: &[u8]) -> (r: Result<Node, Error>)
    ensures
        match r {
            Ok(node) => valid_utf8(xml@) && parse_root(decode_utf8(xml@)) == Some(node@),
            Err(e) => match e {
                Error::UnsupportedEncoding => !valid_utf8(xml@),
                Error::InvalidXml(_) => valid_utf8(xml@) && parse_root(decode_utf8(xml@)) is None,
                _ => false,
            },
        },
{
    match bytes_to_string(xml) {
        Some(text) => parse_str(text.as_str()),
        None => Err(Error::UnsupportedEncoding),
    }
}

} // verus!
