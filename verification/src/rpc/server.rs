//! Which methods are served where, and how requests are named.

use vstd::prelude::*;
use vstd::string::StringExecFns;

use crate::net::addr::SocketAddr;

verus! {

/// A group of RPC methods.
#[derive(Clone, Copy, Debug, PartialEq, Eq, Structural)]
pub enum Api {
    /// The description of the methods that are served.
    OpenApi,
    /// Control of the node.
    NodePrivate,
    /// Queries to the node.
    Node,
    /// The wallet.
    Wallet,
}

/// Whether the methods of a group act on behalf of the owner of the node.
pub open spec fn is_private(api: Api) -> bool {
    api == Api::NodePrivate || api == Api::Wallet
}

/// The groups that the description of all methods covers.
pub fn openapi() -> (parts: Vec<Api>)
    ensures
        parts@ == seq![Api::OpenApi, Api::NodePrivate, Api::Node, Api::Wallet],
{
    vec![Api::OpenApi, Api::NodePrivate, Api::Node, Api::Wallet]
}

/// The groups that the description of the public methods covers.
pub fn public_openapi() -> (parts: Vec<Api>)
    ensures
        parts@ == seq![Api::OpenApi, Api::Node],
{
    vec![Api::OpenApi, Api::Node]
}

/// The groups that the description of the private methods covers.
pub fn private_openapi() -> (parts: Vec<Api>)
    ensures
        parts@ == seq![Api::OpenApi, Api::NodePrivate, Api::Wallet],
{
    vec![Api::OpenApi, Api::NodePrivate, Api::Wallet]
}

/// Serves the node, and what is private if that is enabled.
#[derive(Clone, Copy, Debug)]
pub struct RpcServerImpl<const ENABLE_PRIVATE_API: bool>;

impl<const ENABLE_PRIVATE_API: bool> RpcServerImpl<ENABLE_PRIVATE_API> {
    /// The groups that the description of the served methods covers.
    pub fn openapi_schema(&self) -> (parts: Vec<Api>)
        ensures
            parts@ == if ENABLE_PRIVATE_API {
                seq![Api::OpenApi, Api::NodePrivate, Api::Node, Api::Wallet]
            } else {
                seq![Api::OpenApi, Api::Node]
            },
    {
        if ENABLE_PRIVATE_API {
            openapi()
        } else {
            public_openapi()
        }
    }
}

/// Serves only what is private.
#[derive(Clone, Copy, Debug)]
pub struct PrivateOnlyRpcServerImpl;

impl PrivateOnlyRpcServerImpl {
    /// The groups that the description of the served methods covers.
    pub fn openapi_schema(&self) -> (parts: Vec<Api>)
        ensures
            parts@ == seq![Api::OpenApi, Api::NodePrivate, Api::Wallet],
    {
        private_openapi()
    }
}

/// A server: the groups that it serves, in the order in which they are added,
/// and those that its description covers.
#[derive(Debug)]
pub struct ServerPlan {
    pub serves: Vec<Api>,
    pub describes: Vec<Api>,
}

pub struct ServerView {
    pub serves: Seq<Api>,
    pub describes: Seq<Api>,
}

impl ServerPlan {
    pub open spec fn view(self) -> ServerView {
        ServerView { serves: self.serves@, describes: self.describes@ }
    }
}

/// The servers of a node.
#[derive(Debug)]
pub struct Servers {
    /// The server on the public address.
    pub public: ServerPlan,
    /// The server on the private address, if that is another one.
    pub private: Option<ServerPlan>,
}

/// The one server of a node whose addresses are the same.
pub open spec fn single_server() -> ServerView {
    ServerView {
        serves: seq![Api::OpenApi, Api::NodePrivate, Api::Node, Api::Wallet],
        describes: seq![Api::OpenApi, Api::NodePrivate, Api::Node, Api::Wallet],
    }
}

/// The public one of two servers.
pub open spec fn public_server() -> ServerView {
    ServerView {
        serves: seq![Api::OpenApi, Api::Node],
        describes: seq![Api::OpenApi, Api::Node],
    }
}

/// The private one of two servers.
pub open spec fn private_server() -> ServerView {
    ServerView {
        serves: seq![Api::OpenApi, Api::NodePrivate, Api::Wallet],
        describes: seq![Api::OpenApi, Api::NodePrivate, Api::Wallet],
    }
}

/// Plan the servers of a node: two of them, unless both addresses are the same.
pub fn plan_servers(private_rpc_url: &String, rpc_url: &String) -> (servers: Servers)
    ensures
        if private_rpc_url@ == rpc_url@ {
            servers.public@ == single_server() && servers.private is None
        } else {
            &&& servers.public@ == public_server()
            &&& servers.private matches Some(private) && private@ == private_server()
        },
{
    if *private_rpc_url == *rpc_url {
        Servers {
            public: ServerPlan {
                serves: vec![Api::OpenApi, Api::NodePrivate, Api::Node, Api::Wallet],
                describes: RpcServerImpl::<true>.openapi_schema(),
            },
            private: None,
        }
    } else {
        Servers {
            public: ServerPlan {
                serves: vec![Api::OpenApi, Api::Node],
                describes: RpcServerImpl::<false>.openapi_schema(),
            },
            private: Some(
                ServerPlan {
                    serves: vec![Api::OpenApi, Api::NodePrivate, Api::Wallet],
                    describes: PrivateOnlyRpcServerImpl.openapi_schema(),
                },
            ),
        }
    }
}

/// The addresses that a node is served on.
#[derive(Clone, Copy, Debug, PartialEq, Eq, Structural)]
pub struct ServerAddresses {
    pub _rpc_addr: SocketAddr,
    pub _private_rpc_addr: SocketAddr,
}

/// The addresses of the servers that started: without a private server, what is
/// private is served on the public address.
pub fn server_addresses(rpc_addr: SocketAddr, private_rpc_addr: Option<SocketAddr>) -> (addresses:
    ServerAddresses)
    ensures
        addresses._rpc_addr == rpc_addr,
        addresses._private_rpc_addr == match private_rpc_addr {
            Some(private_rpc_addr) => private_rpc_addr,
            None => rpc_addr,
        },
{
    let _private_rpc_addr = match private_rpc_addr {
        Some(private_rpc_addr) => private_rpc_addr,
        None => rpc_addr,
    };
    ServerAddresses { _rpc_addr: rpc_addr, _private_rpc_addr }
}

/// Every server describes exactly what it serves, and serves no group twice.
pub proof fn law_servers_describe_what_they_serve()
    ensures
        single_server().serves == single_server().describes,
        public_server().serves == public_server().describes,
        private_server().serves == private_server().describes,
        single_server().serves.no_duplicates(),
        public_server().serves.no_duplicates(),
        private_server().serves.no_duplicates(),
{
}

/// A public server beside a private one serves nothing private, and the two
/// together serve what a single server does.
pub proof fn law_public_server_serves_nothing_private(api: Api)
    ensures
        public_server().serves.contains(api) ==> !is_private(api),
        single_server().serves.contains(api) <==> public_server().serves.contains(api)
            || private_server().serves.contains(api),
        is_private(api) ==> private_server().serves.contains(api),
{
    let single = single_server().serves;
    let public = public_server().serves;
    let private = private_server().serves;
    assert(single[0] == Api::OpenApi && single[1] == Api::NodePrivate && single[2] == Api::Node
        && single[3] == Api::Wallet);
    assert(public[0] == Api::OpenApi && public[1] == Api::Node);
    assert(private[0] == Api::OpenApi && private[1] == Api::NodePrivate && private[2]
        == Api::Wallet);
}

/// The code of every error that a method reports.
pub const ERROR_CODE: i32 = -1;

/// What a method reports of a failure.
#[derive(Debug)]
pub struct RpcError {
    pub code: i32,
    pub message: String,
}

pub fn custom_err_msg(err_msg: String) -> (error: RpcError)
    ensures
        error.code == -1,
        error.message == err_msg,
{
    RpcError { code: ERROR_CODE, message: err_msg }
}

/// The header that carries the name of a request.
pub const REQUEST_ID_HEADER: &'static str = "x-request-id";

/// Whether a character may stand in a header value.
pub open spec fn header_char(c: char) -> bool {
    c == '\t' || (c as u32 >= 32 && c as u32 != 127)
}

/// Whether a character is a lower case hexadecimal digit.
pub open spec fn hex_char(c: char) -> bool {
    48 <= c as u32 <= 57 || 97 <= c as u32 <= 102
}

/// Whether a digit is one of those that open the variant of a UUID.
pub open spec fn variant_char(c: char) -> bool {
    c == '8' || c == '9' || c == 'a' || c == 'b'
}

/// Calls `uuid::Uuid::new_v4` and formats the UUID with `as_simple`. Claims that
/// the text has 32 lower case hexadecimal digits, of which the thirteenth is the
/// version and the seventeenth holds the variant. The other digits are left to
/// chance.
#[verifier::external_body]
fn new_uuid() -> (id: String)
    ensures
        id@.len() == 32,
        forall|i: int| 0 <= i < 32 ==> hex_char(#[trigger] id@[i]),
        id@[12] == '4',
        variant_char(id@[16]),
{
    uuid::Uuid::new_v4().as_simple().to_string()
}

/// Calls `http::HeaderValue::from_str`, and claims that it takes exactly the
/// texts without control characters other than the tab. A character outside of
/// ASCII is encoded in bytes that a header value may hold.
#[verifier::external_body]
fn is_header_value(text: &str) -> (valid: bool)
    ensures
        valid == (forall|i: int| 0 <= i < text@.len() ==> header_char(#[trigger] text@[i])),
{
    http::HeaderValue::from_str(text).is_ok()
}

/// The name of a request with a given UUID, unless no header can carry it. The
/// prefix makes names easier to tell from other identifiers.
pub fn request_id(uuid: &String) -> (id: Option<String>)
    ensures
        match id {
            Some(id) => id@ == "req_"@ + uuid@ && forall|i: int|
                0 <= i < uuid@.len() ==> header_char(#[trigger] uuid@[i]),
            None => exists|i: int| 0 <= i < uuid@.len() && !header_char(#[trigger] uuid@[i]),
        },
{
    let mut id = "req_".to_string();
    id.append(uuid.as_str());
    proof {
        reveal_strlit("req_");
    }
    let ghost text = id@;
    assert(text == "req_"@ + uuid@);
    if !is_header_value(id.as_str()) {
        proof {
            let k = choose|k: int| 0 <= k < text.len() && !header_char(#[trigger] text[k]);
            assert(text[0] == 'r' && text[1] == 'e' && text[2] == 'q' && text[3] == '_');
            assert(k >= 4);
            assert(text[k] == uuid@[k - 4]);
        }
        return None;
    }
    proof {
        assert forall|i: int| 0 <= i < uuid@.len() implies header_char(#[trigger] uuid@[i]) by {
            assert(text[i + 4] == uuid@[i]);
        }
    }
    Some(id)
}

/// A name for a request: there is always one.
pub fn make_request_id() -> (id: Option<String>)
    ensures
        id matches Some(id) && {
            &&& id@.len() == 36
            &&& id@.take(4) == "req_"@
            &&& forall|i: int| 4 <= i < 36 ==> hex_char(#[trigger] id@[i])
            &&& id@[16] == '4'
            &&& variant_char(id@[20])
        },
{
    let uuid = new_uuid();
    proof {
        reveal_strlit("req_");
        assert forall|i: int| 0 <= i < uuid@.len() implies header_char(#[trigger] uuid@[i]) by {
            assert(hex_char(uuid@[i]));
        }
    }
    let id = request_id(&uuid);
    proof {
        let text = id->Some_0@;
        assert(text.take(4) =~= "req_"@);
        assert forall|i: int| 4 <= i < 36 implies hex_char(#[trigger] text[i]) by {
            assert(text[i] == uuid@[i - 4]);
        }
        assert(text[16] == uuid@[12] && text[20] == uuid@[16]);
    }
    id
}

/// Whether a signed transaction is to be broadcast: only if that was asked for.
pub fn broadcasts(broadcast: Option<bool>) -> (broadcasts: bool)
    ensures
        broadcasts == (broadcast == Some(true)),
{
    match broadcast {
        Some(true) => true,
        _ => false,
    }
}

/// The groups of methods that are served where: all of them on one server, or what
/// concerns the node on the public one, and control and wallet on the private one.
pub proof fn law_methods_are_served_where_they_belong(api: Api)
    ensures
        single_server().serves.contains(api),
        public_server().serves.contains(api) <==> api == Api::OpenApi || api == Api::Node,
        private_server().serves.contains(api) <==> api != Api::Node,
        is_private(api) <==> api == Api::NodePrivate || api == Api::Wallet,
{
    let single = single_server().serves;
    let public = public_server().serves;
    let private = private_server().serves;
    assert(single[0] == Api::OpenApi && single[1] == Api::NodePrivate && single[2] == Api::Node
        && single[3] == Api::Wallet);
    assert(public[0] == Api::OpenApi && public[1] == Api::Node);
    assert(private[0] == Api::OpenApi && private[1] == Api::NodePrivate && private[2]
        == Api::Wallet);
}

} // verus!
