//! Typed records carried by commands and replies.

use vstd::prelude::*;
use vstd::string::*;

use crate::error::Error;
use crate::text::{int_str, lemma_parse_int_roundtrip, parse_i32_spec};
use crate::xml::{filter_tag, find_in, i32_field, leaf, str_field, Node, XNode};

verus! {

/// A daemon or client version number.
#[derive(Clone, Copy, Debug, PartialEq, Eq, Structural)]
pub struct Version {
    pub major: i32,
    pub minor: i32,
    pub release: i32,
}

impl core::default::Default for Version {
    /// The client version this library speaks for by default.
    fn default() -> (r: Version)
        ensures
            r == (Version { major: 7, minor: 22, release: 0 }),
    {
        Version { major: 7, minor: 22, release: 0 }
    }
}

/// The child elements a version encodes to, in order.
pub open spec fn version_children(v: Version) -> Seq<XNode> {
    seq![
        leaf("major"@, int_str(v.major as int)),
        leaf("minor"@, int_str(v.minor as int)),
        leaf("release"@, int_str(v.release as int)),
    ]
}

/// The version a reply element decodes to: all three fields must be
/// present and numeric.
pub open spec fn version_of_node(t: XNode) -> Option<Version> {
    match i32_field(t, "major"@) {
        Some(major) => match i32_field(t, "minor"@) {
            Some(minor) => match i32_field(t, "release"@) {
                Some(release) => Some(Version { major, minor, release }),
                None => None,
            },
            None => None,
        },
        None => None,
    }
}

impl TryFrom<&Node> for Version {
    type Error = Error;

    fn try_from(node: &Node) -> (r: Result<Version, Error>) {
        let major = match node.try_child_into_content::<i32>("major") {
            Ok(v) => v,
            Err(e) => {
                return Err(e);
            },
        };
        let minor = match node.try_child_into_content::<i32>("minor") {
            Ok(v) => v,
            Err(e) => {
                return Err(e);
            },
        };
        let release = match node.try_child_into_content::<i32>("release") {
            Ok(v) => v,
            Err(e) => {
                return Err(e);
            },
        };
        Ok(Version { major, minor, release })
    }
}

impl vstd::std_specs::convert::TryFromSpecImpl<&Node> for Version {
    open spec fn obeys_try_from_spec() -> bool {
        true
    }

    open spec fn try_from_spec(node: &Node) -> Result<Version, Error> {
        match version_of_node(node@) {
            Some(v) => Ok(v),
            None => Err(Error::InvalidFormat),
        }
    }
}

/// Round trip at the record level: a version's encoded children decode
/// back to the very same version, whatever element they sit under.
pub proof fn lemma_version_roundtrip(v: Version, t: XNode)
    requires
        t.children == version_children(v),
    ensures
        version_of_node(t) == Some(v),
{
    reveal_strlit("major");
    reveal_strlit("minor");
    reveal_strlit("release");
    assert("major"@[1] != "minor"@[1]);
    assert("major"@.len() != "release"@.len());
    assert("minor"@.len() != "release"@.len());
    let cs = t.children;
    lemma_parse_int_roundtrip(v.major);
    lemma_parse_int_roundtrip(v.minor);
    lemma_parse_int_roundtrip(v.release);
    assert(cs[0].tag == "major"@);
    assert(find_in(cs, "major"@) == Some(cs[0]));
    let cs1 = cs.subrange(1, 3);
    let cs2 = cs.subrange(2, 3);
    assert(cs1[0] == cs[1]);
    assert(cs1.subrange(1, 2) =~= cs2);
    assert(find_in(cs, "minor"@) == find_in(cs1, "minor"@));
    assert(find_in(cs1, "minor"@) == Some(cs[1]));
    assert(find_in(cs, "release"@) == find_in(cs1, "release"@));
    assert(find_in(cs1, "release"@) == find_in(cs2, "release"@));
    assert(find_in(cs2, "release"@) == Some(cs[2]));
}

/// One of a project's user-visible links.
#[derive(Clone, Debug)]
pub struct GuiUrl {
    pub name: String,
    pub description: String,
    pub url: String,
}

impl core::default::Default for GuiUrl {
    fn default() -> (r: GuiUrl)
        ensures
            r.name@ == Seq::<char>::empty(),
            r.description@ == Seq::<char>::empty(),
            r.url@ == Seq::<char>::empty(),
    {
        GuiUrl { name: String::new(), description: String::new(), url: String::new() }
    }
}

impl GuiUrl {
    /// How a decoded link relates to the element it came from: each
    /// field reads its child's content, an absent child reading empty.
    pub open spec fn matches(t: XNode, g: GuiUrl) -> bool {
        &&& g.name@ == str_field(t, "name"@)
        &&& g.description@ == str_field(t, "description"@)
        &&& g.url@ == str_field(t, "url"@)
    }

    pub fn from_node(n: &Node) -> (r: GuiUrl)
        ensures
            GuiUrl::matches(n@, r),
    {
        GuiUrl {
            name: n.str_child("name"),
            description: n.str_child("description"),
            url: n.str_child("url"),
        }
    }
}

/// A project's links, collected from its repeated `gui_url` children;
/// children under any other tag are ignored.
#[derive(Debug)]
pub struct GuiUrls(pub Vec<GuiUrl>);

impl GuiUrls {
    pub fn from_node(n: &Node) -> (r: GuiUrls)
        ensures
            r.0@.len() == filter_tag(n@.children, "gui_url"@).len(),
            forall|i: int|
                0 <= i < r.0@.len() ==> GuiUrl::matches(
                    filter_tag(n@.children, "gui_url"@)[i],
                    #[trigger] r.0@[i],
                ),
    {
        let items = n.find_children("gui_url");
        let mut out: Vec<GuiUrl> = Vec::new();
        let count = items.len();
        for i in 0..count
            invariant
                count == items.len(),
                count == filter_tag(n@.children, "gui_url"@).len(),
                forall|j: int|
                    0 <= j < count ==> #[trigger] items@[j]@ == filter_tag(
                        n@.children,
                        "gui_url"@,
                    )[j],
                out@.len() == i,
                forall|j: int|
                    0 <= j < i ==> GuiUrl::matches(
                        filter_tag(n@.children, "gui_url"@)[j],
                        #[trigger] out@[j],
                    ),
        {
            out.push(GuiUrl::from_node(items[i]));
        }
        GuiUrls(out)
    }
}

} // verus!
