//! Forwarding queries to other nodes.
//!
//! Workers answer internal queries in the shape of public ones, with a flag that keeps
//! them from routing the query on.
use crate::chars::{begins_with, starts_with};
use crate::cluster::node::NodeInfo;
use crate::outside::urls::{url_parts, url_parts_of};
use crate::text::{
    chars_of, concat2, concat3, decimal, decimal_string, opt_text, text_eq,
    text_of_chars,
};
use vstd::prelude::*;
use vstd::slice::slice_subrange;
use vstd::string::*;

verus! {

#[derive(Clone, Debug)]
pub struct InternalQueryRequest {
    pub tenant_id: u64,
    pub query: String,
    pub dialect: Option<String>,
    /// True when this request is sent from node to node. Workers honor this by disabling
    /// further routing; they just execute locally.
    pub disable_route: bool,
}

/// Why a query could not be forwarded.
#[derive(Clone, Debug)]
pub enum RemoteError {
    AllReplicasFailed { last: String },
    Transport(String),
    Status { status: u16, body: String },
    Decode(String),
}

impl RemoteError {
    /// The error as text.
    pub open spec fn text(self) -> Seq<char> {
        match self {
            RemoteError::AllReplicasFailed { last } => "all replicas failed: last="@ + last@,
            RemoteError::Transport(s) => "transport: "@ + s@,
            RemoteError::Status { status, body } => "status "@ + decimal(status as nat) + ": "@
                + body@,
            RemoteError::Decode(s) => "decode: "@ + s@,
        }
    }

    pub fn to_string(&self) -> (r: String)
        ensures
            r@ == self.text(),
    {
        match self {
            RemoteError::AllReplicasFailed { last } => concat2(
                "all replicas failed: last=",
                last.as_str(),
            ),
            RemoteError::Transport(s) => concat2("transport: ", s.as_str()),
            RemoteError::Status { status, body } => {
                let mut t = String::from_str("status ");
                t.append(decimal_string(*status as u64).as_str());
                t.append(": ");
                t.append(body.as_str());
                t
            },
            RemoteError::Decode(s) => concat2("decode: ", s.as_str()),
        }
    }
}

/// The host leads to an instance-metadata service or another link-local address.
pub open spec fn is_forbidden_host(host: Seq<char>) -> bool {
    ||| host == "169.254.169.254"@
    ||| host == "metadata.google.internal"@
    ||| host == "metadata"@
    ||| host == "fd00:ec2::254"@
    ||| host == "[fd00:ec2::254]"@
    ||| host == "fe80::a9fe:a9fe"@
    ||| begins_with(host, "169.254."@)
    ||| begins_with(host, "fe80:"@)
    ||| begins_with(host, "[fe80:"@)
}

/// Whether queries may be sent to a URL with this scheme and host: `http` or `https`, to a
/// host that is not forbidden. Loopback and private addresses are fine: clusters live
/// there.
pub open spec fn is_allowed(parts: Option<(Seq<char>, Option<Seq<char>>)>) -> bool {
    match parts {
        Some((scheme, Some(host))) => (scheme == "http"@ || scheme == "https"@)
            && !is_forbidden_host(host),
        _ => false,
    }
}

fn begins(s: &str, prefix: &str) -> (r: bool)
    ensures
        r == begins_with(s@, prefix@),
{
    starts_with(chars_of(s).as_slice(), chars_of(prefix).as_slice())
}

/// Whether the host is forbidden.
fn host_is_forbidden(host: &str) -> (r: bool)
    ensures
        r == is_forbidden_host(host@),
{
    text_eq(host, "169.254.169.254") || text_eq(host, "metadata.google.internal") || text_eq(
        host,
        "metadata",
    ) || text_eq(host, "fd00:ec2::254") || text_eq(host, "[fd00:ec2::254]") || text_eq(
        host,
        "fe80::a9fe:a9fe",
    ) || begins(host, "169.254.") || begins(host, "fe80:") || begins(host, "[fe80:")
}

/// Whether queries may be sent to a URL with this scheme and host.
pub fn is_target_allowed(scheme: &str, host: &Option<String>) -> (r: bool)
    ensures
        r == is_allowed(Some((scheme@, opt_text(*host)))),
{
    if !text_eq(scheme, "http") && !text_eq(scheme, "https") {
        return false;
    }
    match host {
        Some(h) => !host_is_forbidden(h.as_str()),
        None => false,
    }
}

/// Vets a registered peer endpoint before a query is forwarded to it.
pub fn is_endpoint_allowed(endpoint: &str) -> (r: bool)
    ensures
        r == is_allowed(url_parts_of(endpoint@)),
{
    match url_parts(endpoint) {
        Some((scheme, host)) => is_target_allowed(scheme.as_str(), &host),
        None => false,
    }
}

/// The error for an endpoint that is not allowed.
pub fn blocked_endpoint(endpoint: &str) -> (r: RemoteError)
    ensures
        r matches RemoteError::Transport(s) && s@ == "endpoint blocked: "@ + endpoint@
            + " resolves to a forbidden host"@,
{
    RemoteError::Transport(
        concat3("endpoint blocked: ", endpoint, " resolves to a forbidden host"),
    )
}

/// The text without slashes at its end.
pub open spec fn without_slashes(s: Seq<char>) -> Seq<char>
    decreases s.len(),
{
    if s.len() > 0 && s.last() == '/' {
        without_slashes(s.drop_last())
    } else {
        s
    }
}

/// The address for internal queries at an endpoint.
pub fn internal_query_url(endpoint: &str) -> (r: String)
    ensures
        r@ == without_slashes(endpoint@) + "/v1/internal/query"@,
{
    let all = chars_of(endpoint);
    let mut n: usize = all.len();
    assert(all@.take(n as int) =~= all@);
    while n > 0 && all[n - 1] == '/'
        invariant
            n <= all@.len(),
            without_slashes(all@) == without_slashes(all@.take(n as int)),
        decreases n,
    {
        assert(all@.take(n as int).last() == all@[n - 1]);
        assert(all@.take(n as int).drop_last() =~= all@.take(n - 1));
        n = n - 1;
    }
    proof {
        if n > 0 {
            assert(all@.take(n as int).last() == all@[n - 1]);
        }
        assert(without_slashes(all@) == all@.take(n as int));
    }
    let mut url = text_of_chars(slice_subrange(all.as_slice(), 0, n));
    assert(url@ =~= without_slashes(endpoint@));
    url.append("/v1/internal/query");
    url
}

/// Whether an answer can be read: any status but success is an error, which carries the
/// text of the answer.
pub fn check_status(status: u16, body: &str) -> (r: Result<(), RemoteError>)
    ensures
        if 200 <= status < 300 {
            r is Ok
        } else {
            r matches Err(RemoteError::Status { status: s, body: b }) && s == status && b@ == body@
        },
{
    if 200 <= status && status < 300 {
        Ok(())
    } else {
        Err(RemoteError::Status { status, body: String::from_str(body) })
    }
}

/// Forwards a query to the first target that answers.
pub struct Forwarding {
    targets: Vec<NodeInfo>,
    next: usize,
    last_error: String,
}

/// The content of a forwarding: the endpoints to try and what the last one said.
#[verifier::ext_equal]
pub ghost struct ForwardView {
    pub endpoints: Seq<Seq<char>>,
    pub last_error: Seq<char>,
}

/// The endpoints of nodes.
pub open spec fn endpoints_of(nodes: Seq<NodeInfo>) -> Seq<Seq<char>> {
    Seq::new(nodes.len(), |i: int| nodes[i].endpoint@)
}

impl Forwarding {
    pub closed spec fn view(&self) -> ForwardView {
        ForwardView {
            endpoints: endpoints_of(self.targets@).skip(self.next as int),
            last_error: self.last_error@,
        }
    }

    #[verifier::type_invariant]
    spec fn inv(&self) -> bool {
        self.next <= self.targets@.len()
    }

    pub fn new(targets: Vec<NodeInfo>) -> (r: Self)
        ensures
            r@ == (ForwardView {
                endpoints: endpoints_of(targets@),
                last_error: "no targets"@,
            }),
    {
        let r = Forwarding { targets, next: 0, last_error: String::from_str("no targets") };
        assert(r@.endpoints =~= endpoints_of(targets@));
        r
    }

    /// The endpoint to try next.
    pub fn target(&self) -> (r: Option<&str>)
        ensures
            match r {
                Some(e) => self@.endpoints.len() > 0 && e@ == self@.endpoints[0],
                None => self@.endpoints.len() == 0,
            },
    {
        proof {
            use_type_invariant(self);
        }
        if self.next < self.targets.len() {
            Some(self.targets[self.next].endpoint.as_str())
        } else {
            None
        }
    }

    /// Takes note that the target failed, and goes on to the next.
    pub fn failed(&mut self, e: &RemoteError)
        requires
            old(self)@.endpoints.len() > 0,
        ensures
            final(self)@ == (ForwardView {
                endpoints: old(self)@.endpoints.drop_first(),
                last_error: e.text(),
            }),
    {
        proof {
            use_type_invariant(&*self);
        }
        let ghost before = self@.endpoints;
        let text = e.to_string();
        let n: usize = self.targets.len();
        assert(self.next < n);
        self.next = self.next + 1;
        self.last_error = text;
        assert(self@.endpoints =~= before.drop_first());
    }

    /// The error when no target is left.
    pub fn give_up(self) -> (r: RemoteError)
        ensures
            r matches RemoteError::AllReplicasFailed { last } && last@ == self@.last_error,
    {
        RemoteError::AllReplicasFailed { last: self.last_error }
    }
}

} // verus!
