//! The command-execution engine and the commands built on it.
//!
//! Each command encodes a typed request into the document model and
//! decodes its reply out of it.  The engine runs the single-shot
//! decode with its three-way error classification: a reply that decodes
//! as the expected shape always wins; only on failure do the narrower
//! marker shapes get a chance, and the original decode failure is kept
//! as the fallback explanation.

use vstd::prelude::*;
use vstd::string::*;

use crate::defs::{FileTransferOp, ProjectOp, TaskOp};
use crate::error::Error;
use crate::parse::{parse_root, parse_str};
use crate::rpc::xml_serde::SerializeInto;
use crate::types::{version_children, version_of_node, Version};
use crate::xml::{find_child_spec, leaf, node_view_parts, Node, XNode};

verus! {

/// A reply payload under the throwaway synthetic root that decoding
/// wraps around it, so that a payload of zero, one or many top-level
/// elements never needs special-casing.
pub open spec fn wrapped(p: Seq<char>) -> Seq<char> {
    "<root>"@ + p + "</root>"@
}

/// The element tree a reply payload decodes to, if it parses at all.
pub open spec fn root_of(p: Seq<char>) -> Option<XNode> {
    parse_root(wrapped(p))
}

/// Parses a reply payload under the synthetic root.
pub fn decode_reply_node(payload: &str) -> (r: Result<Node, Error>)
    ensures
        match r {
            Ok(n) => root_of(payload@) == Some(n@),
            Err(e) => root_of(payload@) is None && e is InvalidXml,
        },
{
    let mut text = String::from_str("<root>");
    text.append(payload);
    text.append("</root>");
    proof {
        assert(text@ =~= wrapped(payload@));
    }
    parse_str(text.as_str())
}

/// A marker reply: a single child element with the given tag and
/// nothing below it.
pub open spec fn marker_spec(t: XNode, tag: Seq<char>) -> bool {
    t.children.len() == 1 && t.children[0].tag == tag && t.children[0].children.len() == 0
}

/// An explicit error message reported by the daemon.
pub open spec fn error_marker(t: XNode) -> Option<Seq<char>> {
    if marker_spec(t, "error"@) {
        Some(t.children[0].content)
    } else {
        None
    }
}

pub open spec fn unauthorized_marker(t: XNode) -> bool {
    marker_spec(t, "unauthorized"@)
}

pub open spec fn success_marker(t: XNode) -> bool {
    marker_spec(t, "success"@)
}

fn is_marker(root: &Node, tag: &str) -> (r: bool)
    ensures
        r == marker_spec(root@, tag@),
{
    proof {
        node_view_parts(root);
    }
    if root.children.len() == 1 {
        let c = &root.children[0];
        proof {
            node_view_parts(c);
            assert(root@.children[0] == root.children@[0]@);
        }
        crate::text::str_eq(c.tag.as_str(), tag) && c.children.len() == 0
    } else {
        false
    }
}

fn error_message(root: &Node) -> (r: Option<String>)
    ensures
        match r {
            Some(m) => error_marker(root@) == Some(m@),
            None => error_marker(root@) is None,
        },
{
    proof {
        node_view_parts(root);
    }
    if is_marker(root, "error") {
        let c = &root.children[0];
        proof {
            node_view_parts(c);
            assert(root@.children[0] == root.children@[0]@);
        }
        Some(String::from_str(c.content.as_str()))
    } else {
        None
    }
}

/// How a classified failure relates to the reply it came from: a daemon
/// error message wins, then the unauthorized marker, and otherwise the
/// original decode failure is kept.
pub open spec fn failure_classified(root: XNode, e: Error) -> bool {
    match e {
        Error::Client(m) => error_marker(root) == Some(m@),
        Error::Unauthorized => error_marker(root) is None && unauthorized_marker(root),
        Error::InvalidFormat => error_marker(root) is None && !unauthorized_marker(root),
        Error::Deserialization(_) => error_marker(root) is None && !unauthorized_marker(root),
        _ => false,
    }
}

/// A typed reply shape that can be read out of the decoded tree.
pub trait FromNode: Sized {
    /// Whether the shape accepts this tree.
    spec fn node_ok(t: XNode) -> bool;

    /// How an accepted value relates to the tree it came from.
    spec fn node_val(t: XNode, v: Self) -> bool;

    fn from_node(n: &Node) -> (r: Result<Self, Error>)
        ensures
            match r {
                Ok(v) => Self::node_ok(n@) && Self::node_val(n@, v),
                Err(e) => !Self::node_ok(n@) && (e is InvalidFormat || e is Deserialization),
            },
    ;
}

/// Runs the single-shot decode of one reply payload: parse it, try the
/// expected shape, and on failure reclassify through the marker shapes.
pub fn decode_reply<T: FromNode>(payload: &str) -> (r: Result<T, Error>)
    ensures
        match root_of(payload@) {
            Some(root) => match r {
                Ok(v) => T::node_ok(root) && T::node_val(root, v),
                Err(e) => !T::node_ok(root) && failure_classified(root, e),
            },
            None => r matches Err(e) && e is InvalidXml,
        },
{
    let root = match decode_reply_node(payload) {
        Ok(n) => n,
        Err(e) => {
            return Err(e);
        },
    };
    match T::from_node(&root) {
        Ok(v) => Ok(v),
        Err(orig) => match error_message(&root) {
            Some(m) => Err(Error::Client(m)),
            None => if is_marker(&root, "unauthorized") {
                Err(Error::Unauthorized)
            } else {
                Err(orig)
            },
        },
    }
}

/// Decodes a reply that only carries the generic success marker.
pub fn parse_unit_response(payload: &str) -> (r: Result<(), Error>)
    ensures
        match root_of(payload@) {
            Some(root) => match r {
                Ok(u) => success_marker(root),
                Err(e) => !success_marker(root) && failure_classified(root, e),
            },
            None => r matches Err(e) && e is InvalidXml,
        },
{
    match decode_reply::<SuccessReply>(payload) {
        Ok(_) => Ok(()),
        Err(e) => Err(e),
    }
}

struct SuccessReply {}

impl FromNode for SuccessReply {
    closed spec fn node_ok(t: XNode) -> bool {
        success_marker(t)
    }

    closed spec fn node_val(t: XNode, v: Self) -> bool {
        true
    }

    fn from_node(n: &Node) -> (r: Result<Self, Error>) {
        if is_marker(n, "success") {
            Ok(SuccessReply {  })
        } else {
            Err(Error::Deserialization(String::from_str("The reply is not a success marker.")))
        }
    }
}

// ----- AuthorizeCommand -----

pub uninterp spec fn md5_hex_of(s: Seq<char>) -> Seq<char>;

/// Relies on `md5::compute` and its digest's lowercase-hex rendering:
/// the digest depends on the input alone, and its sixteen bytes render
/// as thirty-two hex characters.
#[verifier::external_body]
fn md5_hex(input: &str) -> (r: String)
    ensures
        r@ == md5_hex_of(input@),
        r@.len() == 32,
{
    format!("{:x}", md5::compute(input))
}

struct Auth1Reply {
    nonce: String,
}

impl FromNode for Auth1Reply {
    closed spec fn node_ok(t: XNode) -> bool {
        find_child_spec(t, "nonce"@) is Some
    }

    closed spec fn node_val(t: XNode, v: Self) -> bool {
        match find_child_spec(t, "nonce"@) {
            Some(c) => v.nonce@ == c.content,
            None => false,
        }
    }

    fn from_node(n: &Node) -> (r: Result<Self, Error>) {
        match n.find_child("nonce") {
            Some(c) => Ok(Auth1Reply { nonce: String::from_str(c.content.as_str()) }),
            None => Err(
                Error::Deserialization(String::from_str("The reply carries no nonce field.")),
            ),
        }
    }
}

struct Auth2Reply {
    authorized: bool,
}

impl FromNode for Auth2Reply {
    closed spec fn node_ok(t: XNode) -> bool {
        true
    }

    closed spec fn node_val(t: XNode, v: Self) -> bool {
        v.authorized == (find_child_spec(t, "authorized"@) is Some)
    }

    fn from_node(n: &Node) -> (r: Result<Self, Error>) {
        match n.find_child("authorized") {
            Some(_) => Ok(Auth2Reply { authorized: true }),
            None => Ok(Auth2Reply { authorized: false }),
        }
    }
}

/// The two-message challenge-response authentication handshake.
///
/// The first message asks the daemon for a nonce; the second sends the
/// hex digest of the nonce followed by the password.  The caller that
/// owns the socket runs the two exchanges and hands each reply payload
/// back; nothing here retries.
pub struct AuthorizeCommand {
    password: String,
}

impl AuthorizeCommand {
    /// The secret this command authenticates with.
    pub closed spec fn secret(&self) -> Seq<char> {
        self.password@
    }

    pub fn new(password: &str) -> (r: Self)
        ensures
            r.secret() == password@,
    {
        AuthorizeCommand { password: String::from_str(password) }
    }

    /// The first message: an empty `auth1` element.
    pub fn begin_request(&self) -> (r: Node)
        ensures
            r@ == leaf("auth1"@, Seq::<char>::empty()),
    {
        Node::new("auth1")
    }

    /// Reads the server-issued nonce out of the first reply.
    pub fn parse_nonce(&self, payload: &str) -> (r: Result<String, Error>)
        ensures
            match root_of(payload@) {
                Some(root) => match r {
                    Ok(s) => find_child_spec(root, "nonce"@) matches Some(c) && s@ == c.content,
                    Err(e) => find_child_spec(root, "nonce"@) is None && failure_classified(
                        root,
                        e,
                    ),
                },
                None => r matches Err(e) && e is InvalidXml,
            },
    {
        match decode_reply::<Auth1Reply>(payload) {
            Ok(rep) => Ok(rep.nonce),
            Err(e) => Err(e),
        }
    }

    /// The second message: an `auth2` element carrying the hex digest of
    /// the nonce followed by the password.
    pub fn complete_request(&self, nonce: &str) -> (r: Node)
        ensures
            r@.tag == "auth2"@,
            r@.content == Seq::<char>::empty(),
            r@.children == seq![leaf("nonce_hash"@, md5_hex_of(nonce@ + self.secret()))],
    {
        let mut input = String::from_str(nonce);
        input.append(self.password.as_str());
        let digest = md5_hex(input.as_str());
        let mut node = Node::new("auth2");
        node.add_new_content_child("nonce_hash", digest);
        proof {
            assert(node@.children =~= seq![leaf("nonce_hash"@, md5_hex_of(nonce@ + self.secret()))]);
        }
        node
    }

    /// Reads the outcome of the handshake out of the second reply: the
    /// presence of the `authorized` marker means success; its absence is
    /// an authentication failure, and by protocol design nothing
    /// distinguishes a wrong password from a daemon that needed none.
    pub fn parse_outcome(&self, payload: &str) -> (r: Result<(), Error>)
        ensures
            match root_of(payload@) {
                Some(root) => match r {
                    Ok(u) => find_child_spec(root, "authorized"@) is Some,
                    Err(e) => find_child_spec(root, "authorized"@) is None && e
                        == Error::Unauthorized,
                },
                None => r matches Err(e) && e is InvalidXml,
            },
    {
        match decode_reply::<Auth2Reply>(payload) {
            Ok(rep) => {
                if rep.authorized {
                    Ok(())
                } else {
                    Err(Error::Unauthorized)
                }
            },
            Err(e) => Err(e),
        }
    }
}

// ----- ExchangeVersionsCommand -----

/// The version a reply to `exchange_versions` carries.
pub open spec fn server_version_reply(t: XNode) -> Option<Version> {
    match find_child_spec(t, "server_version"@) {
        Some(sv) => version_of_node(sv),
        None => None,
    }
}

/// Exchanges client and daemon version numbers.
pub struct ExchangeVersionsCommand {
    version: Version,
}

impl ExchangeVersionsCommand {
    /// The client version sent along.
    pub closed spec fn client_version(&self) -> Version {
        self.version
    }

    pub fn new(version: Version) -> (r: Self)
        ensures
            r.client_version() == version,
    {
        ExchangeVersionsCommand { version }
    }

    /// The request: an `exchange_versions` element carrying the client
    /// version's fields.
    pub fn request_tree(&self) -> (r: Node)
        ensures
            r@.tag == "exchange_versions"@,
            r@.content == Seq::<char>::empty(),
            r@.children == version_children(self.client_version()),
    {
        let node = Node::new("exchange_versions");
        self.version.serialize_into(node)
    }

    /// Reads the daemon's version out of the reply.
    pub fn parse_response(&self, payload: &str) -> (r: Result<Version, Error>)
        ensures
            match root_of(payload@) {
                Some(root) => match r {
                    Ok(v) => server_version_reply(root) == Some(v),
                    Err(e) => server_version_reply(root) is None && failure_classified(root, e),
                },
                None => r matches Err(e) && e is InvalidXml,
            },
    {
        match decode_reply::<ExchangeVersionsCommand>(payload) {
            Ok(rep) => Ok(rep.version),
            Err(e) => Err(e),
        }
    }
}

impl FromNode for ExchangeVersionsCommand {
    closed spec fn node_ok(t: XNode) -> bool {
        server_version_reply(t) is Some
    }

    closed spec fn node_val(t: XNode, v: Self) -> bool {
        server_version_reply(t) == Some(v.version)
    }

    fn from_node(n: &Node) -> (r: Result<Self, Error>) {
        match n.find_child("server_version") {
            Some(sv) => match Version::try_from(sv) {
                Ok(version) => Ok(ExchangeVersionsCommand { version }),
                Err(e) => Err(
                    Error::Deserialization(
                        String::from_str("The reply's server version is malformed."),
                    ),
                ),
            },
            None => Err(
                Error::Deserialization(String::from_str("The reply carries no server version.")),
            ),
        }
    }
}

} // verus!

verus! {

// ----- FileTransferOpCommand -----

pub open spec fn file_transfer_op_tag(op: FileTransferOp) -> Seq<char> {
    match op {
        FileTransferOp::Abort => "abort_file_transfer"@,
        FileTransferOp::Retry => "retry_file_transfer"@,
    }
}

/// An operation on one file transfer, named by the active case's verb.
pub struct FileTransferOpCommand {
    project_url: String,
    filename: String,
    op: FileTransferOp,
}

impl FileTransferOpCommand {
    pub closed spec fn spec_url(&self) -> Seq<char> {
        self.project_url@
    }

    pub closed spec fn spec_filename(&self) -> Seq<char> {
        self.filename@
    }

    pub closed spec fn spec_op(&self) -> FileTransferOp {
        self.op
    }

    pub fn new(project_url: String, filename: String, op: FileTransferOp) -> (r: Self)
        ensures
            r.spec_url() == project_url@,
            r.spec_filename() == filename@,
            r.spec_op() == op,
    {
        FileTransferOpCommand { project_url, filename, op }
    }

    pub fn request_tree(&self) -> (r: Node)
        ensures
            r@ == (XNode {
                tag: file_transfer_op_tag(self.spec_op()),
                content: Seq::<char>::empty(),
                children: seq![
                    leaf("project_url"@, self.spec_url()),
                    leaf("filename"@, self.spec_filename()),
                ],
            }),
    {
        let tag: &str = match self.op {
            FileTransferOp::Abort => "abort_file_transfer",
            FileTransferOp::Retry => "retry_file_transfer",
        };
        let mut node = Node::new(tag);
        node.add_new_content_child("project_url", self.project_url.as_str());
        node.add_new_content_child("filename", self.filename.as_str());
        proof {
            assert(node@.children =~= seq![
                leaf("project_url"@, self.spec_url()),
                leaf("filename"@, self.spec_filename()),
            ]);
        }
        node
    }

    pub fn parse_response(&self, payload: &str) -> (r: Result<(), Error>)
        ensures
            match root_of(payload@) {
                Some(root) => match r {
                    Ok(u) => success_marker(root),
                    Err(e) => !success_marker(root) && failure_classified(root, e),
                },
                None => r matches Err(e) && e is InvalidXml,
            },
    {
        parse_unit_response(payload)
    }
}

// ----- ProjectOpCommand -----

pub open spec fn project_op_tag(op: ProjectOp) -> Seq<char> {
    match op {
        ProjectOp::Allowmorework => "project_allowmorework"@,
        ProjectOp::Detach => "project_detach"@,
        ProjectOp::DetachWhenDone => "project_detach_when_done"@,
        ProjectOp::DontDetachWhenDone => "project_dont_detach_when_done"@,
        ProjectOp::Nomorework => "project_nomorework"@,
        ProjectOp::Reset => "project_reset"@,
        ProjectOp::Resume => "project_resume"@,
        ProjectOp::Suspend => "project_suspend"@,
        ProjectOp::Update => "project_update"@,
    }
}

/// An operation on one attached project, named by the active case's verb.
pub struct ProjectOpCommand {
    project_url: String,
    op: ProjectOp,
}

impl ProjectOpCommand {
    pub closed spec fn spec_url(&self) -> Seq<char> {
        self.project_url@
    }

    pub closed spec fn spec_op(&self) -> ProjectOp {
        self.op
    }

    pub fn new(project_url: String, op: ProjectOp) -> (r: Self)
        ensures
            r.spec_url() == project_url@,
            r.spec_op() == op,
    {
        ProjectOpCommand { project_url, op }
    }

    pub fn request_tree(&self) -> (r: Node)
        ensures
            r@ == (XNode {
                tag: project_op_tag(self.spec_op()),
                content: Seq::<char>::empty(),
                children: seq![leaf("project_url"@, self.spec_url())],
            }),
    {
        let tag: &str = match self.op {
            ProjectOp::Allowmorework => "project_allowmorework",
            ProjectOp::Detach => "project_detach",
            ProjectOp::DetachWhenDone => "project_detach_when_done",
            ProjectOp::DontDetachWhenDone => "project_dont_detach_when_done",
            ProjectOp::Nomorework => "project_nomorework",
            ProjectOp::Reset => "project_reset",
            ProjectOp::Resume => "project_resume",
            ProjectOp::Suspend => "project_suspend",
            ProjectOp::Update => "project_update",
        };
        let mut node = Node::new(tag);
        node.add_new_content_child("project_url", self.project_url.as_str());
        proof {
            assert(node@.children =~= seq![leaf("project_url"@, self.spec_url())]);
        }
        node
    }

    pub fn parse_response(&self, payload: &str) -> (r: Result<(), Error>)
        ensures
            match root_of(payload@) {
                Some(root) => match r {
                    Ok(u) => success_marker(root),
                    Err(e) => !success_marker(root) && failure_classified(root, e),
                },
                None => r matches Err(e) && e is InvalidXml,
            },
    {
        parse_unit_response(payload)
    }
}

// ----- TaskOpCommand -----

pub open spec fn task_op_tag(op: TaskOp) -> Seq<char> {
    match op {
        TaskOp::Abort => "abort_result"@,
        TaskOp::Resume => "resume_result"@,
        TaskOp::Suspend => "suspend_result"@,
    }
}

/// An operation on one task, named by the active case's verb.
pub struct TaskOpCommand {
    project_url: String,
    name: String,
    op: TaskOp,
}

impl TaskOpCommand {
    pub closed spec fn spec_url(&self) -> Seq<char> {
        self.project_url@
    }

    pub closed spec fn spec_name(&self) -> Seq<char> {
        self.name@
    }

    pub closed spec fn spec_op(&self) -> TaskOp {
        self.op
    }

    pub fn new(project_url: String, name: String, op: TaskOp) -> (r: Self)
        ensures
            r.spec_url() == project_url@,
            r.spec_name() == name@,
            r.spec_op() == op,
    {
        TaskOpCommand { project_url, name, op }
    }

    pub fn request_tree(&self) -> (r: Node)
        ensures
            r@ == (XNode {
                tag: task_op_tag(self.spec_op()),
                content: Seq::<char>::empty(),
                children: seq![
                    leaf("project_url"@, self.spec_url()),
                    leaf("name"@, self.spec_name()),
                ],
            }),
    {
        let tag: &str = match self.op {
            TaskOp::Abort => "abort_result",
            TaskOp::Resume => "resume_result",
            TaskOp::Suspend => "suspend_result",
        };
        let mut node = Node::new(tag);
        node.add_new_content_child("project_url", self.project_url.as_str());
        node.add_new_content_child("name", self.name.as_str());
        proof {
            assert(node@.children =~= seq![
                leaf("project_url"@, self.spec_url()),
                leaf("name"@, self.spec_name()),
            ]);
        }
        node
    }

    pub fn parse_response(&self, payload: &str) -> (r: Result<(), Error>)
        ensures
            match root_of(payload@) {
                Some(root) => match r {
                    Ok(u) => success_marker(root),
                    Err(e) => !success_marker(root) && failure_classified(root, e),
                },
                None => r matches Err(e) && e is InvalidXml,
            },
    {
        parse_unit_response(payload)
    }
}

// ----- Commands that take no arguments and expect only success -----

/// Retries deferred network communication.
#[derive(Default)]
pub struct NetworkAvailableCommand {}

impl NetworkAvailableCommand {
    pub fn request_tree(&self) -> (r: Node)
        ensures
            r@ == leaf("network_available"@, Seq::<char>::empty()),
    {
        Node::new("network_available")
    }

    pub fn parse_response(&self, payload: &str) -> (r: Result<(), Error>)
        ensures
            match root_of(payload@) {
                Some(root) => match r {
                    Ok(u) => success_marker(root),
                    Err(e) => !success_marker(root) && failure_classified(root, e),
                },
                None => r matches Err(e) && e is InvalidXml,
            },
    {
        parse_unit_response(payload)
    }
}

/// Tells the daemon to reread its configuration file.
#[derive(Default)]
pub struct ReadCCConfigCommand {}

impl ReadCCConfigCommand {
    pub fn request_tree(&self) -> (r: Node)
        ensures
            r@ == leaf("read_cc_config"@, Seq::<char>::empty()),
    {
        Node::new("read_cc_config")
    }

    pub fn parse_response(&self, payload: &str) -> (r: Result<(), Error>)
        ensures
            match root_of(payload@) {
                Some(root) => match r {
                    Ok(u) => success_marker(root),
                    Err(e) => !success_marker(root) && failure_classified(root, e),
                },
                None => r matches Err(e) && e is InvalidXml,
            },
    {
        parse_unit_response(payload)
    }
}

/// Tells the daemon to reread the global preferences override file.
#[derive(Default)]
pub struct ReadGlobalPreferencesOverrideCommand {}

impl ReadGlobalPreferencesOverrideCommand {
    pub fn request_tree(&self) -> (r: Node)
        ensures
            r@ == leaf("read_global_prefs_override"@, Seq::<char>::empty()),
    {
        Node::new("read_global_prefs_override")
    }

    pub fn parse_response(&self, payload: &str) -> (r: Result<(), Error>)
        ensures
            match root_of(payload@) {
                Some(root) => match r {
                    Ok(u) => success_marker(root),
                    Err(e) => !success_marker(root) && failure_classified(root, e),
                },
                None => r matches Err(e) && e is InvalidXml,
            },
    {
        parse_unit_response(payload)
    }
}

/// Runs the daemon's benchmarks.
#[derive(Default)]
pub struct RunBenchmarksCommand {}

impl RunBenchmarksCommand {
    pub fn request_tree(&self) -> (r: Node)
        ensures
            r@ == leaf("run_benchmarks"@, Seq::<char>::empty()),
    {
        Node::new("run_benchmarks")
    }

    pub fn parse_response(&self, payload: &str) -> (r: Result<(), Error>)
        ensures
            match root_of(payload@) {
                Some(root) => match r {
                    Ok(u) => success_marker(root),
                    Err(e) => !success_marker(root) && failure_classified(root, e),
                },
                None => r matches Err(e) && e is InvalidXml,
            },
    {
        parse_unit_response(payload)
    }
}

/// Tells the daemon to exit.
#[derive(Default)]
pub struct QuitCommand {}

impl QuitCommand {
    pub fn request_tree(&self) -> (r: Node)
        ensures
            r@ == leaf("quit"@, Seq::<char>::empty()),
    {
        Node::new("quit")
    }

    pub fn parse_response(&self, payload: &str) -> (r: Result<(), Error>)
        ensures
            match root_of(payload@) {
                Some(root) => match r {
                    Ok(u) => success_marker(root),
                    Err(e) => !success_marker(root) && failure_classified(root, e),
                },
                None => r matches Err(e) && e is InvalidXml,
            },
    {
        parse_unit_response(payload)
    }
}

// ----- GetDiskUsageSummaryCommand -----

/// Asks for the disk-usage summary.  The decoded reply is handed out as
/// its element tree: its fields are fractional quantities that callers
/// read with their own numeric types.
#[derive(Default)]
pub struct GetDiskUsageSummaryCommand {}

impl GetDiskUsageSummaryCommand {
    pub fn request_tree(&self) -> (r: Node)
        ensures
            r@ == leaf("get_disk_usage"@, Seq::<char>::empty()),
    {
        Node::new("get_disk_usage")
    }

    pub fn parse_response(&self, payload: &str) -> (r: Result<Node, Error>)
        ensures
            match root_of(payload@) {
                Some(root) => match r {
                    Ok(n) => n@ == root && find_child_spec(root, "disk_usage_summary"@) is Some,
                    Err(e) => find_child_spec(root, "disk_usage_summary"@) is None
                        && failure_classified(root, e),
                },
                None => r matches Err(e) && e is InvalidXml,
            },
    {
        let root = match decode_reply_node(payload) {
            Ok(n) => n,
            Err(e) => {
                return Err(e);
            },
        };
        let present = root.find_child("disk_usage_summary").is_some();
        if present {
            Ok(root)
        } else {
            match error_message(&root) {
                Some(m) => Err(Error::Client(m)),
                None => if is_marker(&root, "unauthorized") {
                    Err(Error::Unauthorized)
                } else {
                    Err(
                        Error::Deserialization(
                            String::from_str("The reply carries no disk usage summary."),
                        ),
                    )
                },
            }
        }
    }
}

} // verus!

verus! {

/// Round trip through the whole codec, for the version record: render a
/// `server_version` element compactly, wrap it in the reply envelope,
/// strip the envelope back off, decode under the synthetic root, and
/// the very same version comes out.  Together with the renderer's and
/// parser's contracts this covers every layer a reply passes through.
pub proof fn lemma_version_reply_roundtrip(v: Version)
    ensures
        ({
            let sv = XNode {
                tag: "server_version"@,
                content: Seq::<char>::empty(),
                children: version_children(v),
            };
            let payload = crate::xml::render_compact(sv);
            &&& crate::rpc::connection::unwrap_reply_spec(
                crate::rpc::connection::reply_opening() + payload
                    + crate::rpc::connection::reply_closing(),
            ) == Some(payload)
            &&& root_of(payload) matches Some(root) && server_version_reply(root) == Some(v)
        }),
{
    let sv = XNode {
        tag: "server_version"@,
        content: Seq::<char>::empty(),
        children: version_children(v),
    };
    let payload = crate::xml::render_compact(sv);
    crate::rpc::connection::lemma_unwrap_wrap_reply(payload);
    let wrap = XNode { tag: "root"@, content: Seq::<char>::empty(), children: seq![sv] };
    reveal_strlit("<root>");
    reveal_strlit("</root>");
    reveal_strlit("root");
    reveal_strlit("server_version");
    reveal_strlit("major");
    reveal_strlit("minor");
    reveal_strlit("release");
    assert(crate::xml::render_compact_seq(seq![sv]) =~= payload) by {
        assert(seq![sv].subrange(1, 1) =~= Seq::<XNode>::empty());
        assert(crate::xml::render_compact_seq(seq![sv].subrange(1, 1)) =~= Seq::<char>::empty());
    }
    assert(wrapped(payload) =~= crate::xml::render_compact(wrap)) by {
        assert("<root>"@ =~= seq!['<'] + "root"@ + seq!['>']);
        assert("</root>"@ =~= seq!['<', '/'] + "root"@ + seq!['>']);
    }
    assert(crate::xml::wf(wrap)) by {
        lemma_version_children_wf(v);
        assert(forall|i: int| 0 <= i < "root"@.len() ==> crate::text::tag_char(
            #[trigger] "root"@[i],
        ));
        assert(forall|i: int| 0 <= i < "server_version"@.len() ==> crate::text::tag_char(
            #[trigger] "server_version"@[i],
        ));
        assert(seq![sv].subrange(1, 1) =~= Seq::<XNode>::empty());
        assert(crate::xml::wf_seq(seq![sv].subrange(1, 1)));
        assert(crate::xml::wf(sv));
        assert(crate::xml::wf_seq(seq![sv]));
    }
    crate::parse::lemma_parse_render_roundtrip(wrap);
    assert(root_of(payload) == Some(wrap));
    assert(wrap.children[0] == sv);
    assert(find_child_spec(wrap, "server_version"@) == Some(sv));
    crate::types::lemma_version_roundtrip(v, sv);
}

/// The three children a version encodes to are well-formed leaves: their
/// tags are names and their contents are decimal renderings, which hold
/// neither markup nor whitespace nor the transport sentinel.
proof fn lemma_version_children_wf(v: Version)
    ensures
        crate::xml::wf_seq(version_children(v)),
{
    reveal_strlit("major");
    reveal_strlit("minor");
    reveal_strlit("release");
    let cs = version_children(v);
    lemma_int_str_wf(v.major);
    lemma_int_str_wf(v.minor);
    lemma_int_str_wf(v.release);
    assert(forall|i: int| 0 <= i < "major"@.len() ==> crate::text::tag_char(
        #[trigger] "major"@[i],
    ));
    assert(forall|i: int| 0 <= i < "minor"@.len() ==> crate::text::tag_char(
        #[trigger] "minor"@[i],
    ));
    assert(forall|i: int| 0 <= i < "release"@.len() ==> crate::text::tag_char(
        #[trigger] "release"@[i],
    ));
    assert(crate::xml::wf(cs[0]));
    assert(crate::xml::wf(cs[1]));
    assert(crate::xml::wf(cs[2]));
    assert(cs.subrange(1, 3)[0] == cs[1]);
    assert(cs.subrange(2, 3)[0] == cs[2]);
    assert(cs.subrange(1, 3).subrange(1, 2) =~= cs.subrange(2, 3));
    assert(cs.subrange(2, 3).subrange(1, 1) =~= Seq::<XNode>::empty());
    assert(crate::xml::wf_seq(cs.subrange(2, 3)));
    assert(crate::xml::wf_seq(cs.subrange(1, 3)));
}

/// A decimal rendering is fit to sit in a content slot: digits and at
/// most a leading minus sign, no whitespace at either end.
proof fn lemma_int_str_wf(v: i32)
    ensures
        forall|i: int| 0 <= i < crate::text::int_str(v as int).len()
            ==> crate::xml::content_char(#[trigger] crate::text::int_str(v as int)[i]),
        crate::text::int_str(v as int).len() > 0,
        !crate::text::ws_char(crate::text::int_str(v as int)[0]),
        !crate::text::ws_char(
            crate::text::int_str(v as int)[crate::text::int_str(v as int).len() - 1],
        ),
{
    let s = crate::text::int_str(v as int);
    crate::text::lemma_dec_str_wf(if v < 0 {
        (-(v as int)) as nat
    } else {
        v as nat
    });
    if v < 0 {
        let d = crate::text::dec_str((-(v as int)) as nat);
        assert(s == seq!['-'] + d);
        assert(crate::xml::content_char('-'));
        assert(!crate::text::ws_char('-'));
        assert(forall|i: int| 0 <= i < s.len() ==> crate::xml::content_char(#[trigger] s[i])) by {
            assert forall|i: int| 0 <= i < s.len() implies crate::xml::content_char(s[i]) by {
                if i > 0 {
                    assert(s[i] == d[i - 1]);
                }
            }
        }
        assert(s[s.len() - 1] == d[d.len() - 1]);
    }
}

} // verus!
