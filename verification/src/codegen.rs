//! Code generation: the client functions, the server trait and the typed
//! method handles of a service.
//!
//! The generator writes Rust source text for a service description. Each
//! contract states the text that is written, character for character.

use vstd::prelude::*;

use crate::table::{lookup, with_entry, Table};

verus! {

/// How a method of a service is called.
#[derive(Debug, Clone, Copy, PartialEq, Eq, Structural)]
pub enum CallType {
    /// Single node, two-way.
    RpcCall,
    /// Single node, one-way.
    Unicast,
    /// Fan-out, one-way.
    Multicast,
    /// Fan-out, two-way.
    QuorumCall,
    /// Fan-out, two-way, replies tagged with the position of their node.
    OrderedQuorumCall,
    /// Fan-out, streaming.
    Correctable,
}

/// A method of a service description.
#[derive(Debug)]
pub struct Method {
    /// The name in Rust, in snake case.
    pub name: String,
    /// The name in the `.proto` file.
    pub proto_name: String,
    /// The Rust type of the request.
    pub input_type: String,
    /// The Rust type of the response.
    pub output_type: String,
}

/// What a [`Method`] says.
pub struct MethodView {
    pub name: Seq<char>,
    pub proto_name: Seq<char>,
    pub input_type: Seq<char>,
    pub output_type: Seq<char>,
}

impl View for Method {
    type V = MethodView;

    open spec fn view(&self) -> MethodView {
        MethodView {
            name: self.name@,
            proto_name: self.proto_name@,
            input_type: self.input_type@,
            output_type: self.output_type@,
        }
    }
}

/// A service description.
#[derive(Debug)]
pub struct Service {
    /// The name in Rust.
    pub name: String,
    /// The name in the `.proto` file.
    pub proto_name: String,
    /// The package of the `.proto` file.
    pub package: String,
    /// The methods, in the order of the `.proto` file.
    pub methods: Vec<Method>,
}

/// What a [`Service`] says.
pub struct ServiceView {
    pub name: Seq<char>,
    pub proto_name: Seq<char>,
    pub package: Seq<char>,
    pub methods: Seq<MethodView>,
}

impl View for Service {
    type V = ServiceView;

    open spec fn view(&self) -> ServiceView {
        ServiceView {
            name: self.name@,
            proto_name: self.proto_name@,
            package: self.package@,
            methods: self.methods@.map_values(|m: Method| m@),
        }
    }
}

// ── Names ─────────────────────────────────────────────────────────────────────

/// Whether a character has the Unicode property `Uppercase`.
pub uninterp spec fn char_is_uppercase(c: char) -> bool;

/// `char::is_uppercase` tells whether the character has the Unicode property
/// `Uppercase`. Of the ASCII characters these are the letters `A` to `Z`.
pub assume_specification[ char::is_uppercase ](c: char) -> (r: bool)
    ensures
        r == char_is_uppercase(c),
        c as int <= 0x7f ==> r == ('A' <= c && c <= 'Z'),
;

/// The ASCII letters `A` to `Z` become `a` to `z`; every other character
/// stays as it is.
pub open spec fn ascii_lower(c: char) -> char {
    if 'A' <= c && c <= 'Z' {
        (c as int + 32) as char
    } else {
        c
    }
}

fn to_ascii_lower(c: char) -> (r: char)
    ensures
        r == ascii_lower(c),
{
    if 'A' <= c && c <= 'Z' {
        let code: u8 = c as u8;
        (code + 32) as char
    } else {
        c
    }
}

/// `s` in snake case: every character in ASCII lower case, and an underscore
/// before each uppercase character but the first of the text.
pub open spec fn snake_case(s: Seq<char>) -> Seq<char>
    decreases s.len(),
{
    if s.len() == 0 {
        seq![]
    } else {
        let before = snake_case(s.drop_last());
        let marked = if char_is_uppercase(s.last()) && s.len() > 1 {
            before.push('_')
        } else {
            before
        };
        marked.push(ascii_lower(s.last()))
    }
}

/// Convert PascalCase to snake_case, e.g. `MyService` to `my_service`.
pub fn to_snake_case(s: &str) -> (r: String)
    ensures
        r@ == snake_case(s@),
{
    let mut result = String::new();
    let mut first = true;
    for ch in it: s.chars()
        invariant
            it.seq() == s@,
            first == (it.index() == 0),
            result@ == snake_case(it.seq().take(it.index() as int)),
    {
        let ghost seen = it.seq().take(it.index() as int);
        let ghost now = it.seq().take(it.index() as int + 1);
        assert(now.drop_last() =~= seen);
        if ch.is_uppercase() && !first {
            result.push('_');
        }
        result.push(to_ascii_lower(ch));
        first = false;
    }
    assert(s@.take(s@.len() as int) =~= s@);
    result
}

// ── Handle impls ──────────────────────────────────────────────────────────────

/// The `RpcCallMethod` impl of a handle.
pub open spec fn rpc_call_impl_text(
    handle: Seq<char>,
    req: Seq<char>,
    resp: Seq<char>,
    path: Seq<char>,
) -> Seq<char> {
    "impl ::quorums::RpcCallMethod for "@ + handle + " {\n"@
        + "    type Req = "@ + req + ";\n"@
        + "    type Resp = "@ + resp + ";\n"@
        + "    const PATH: &'static str = \""@ + path + "\";\n"@
        + "}\n"@
}

/// Writes the `RpcCallMethod` impl of a handle.
pub fn emit_rpc_call_impl(out: &mut String, handle: &str, req: &str, resp: &str, path: &str)
    ensures
        final(out)@ == old(out)@ + rpc_call_impl_text(handle@, req@, resp@, path@),
{
    let mut text = "impl ::quorums::RpcCallMethod for ".to_string();
    text.append(handle);
    text.append(" {\n");
    text.append("    type Req = ");
    text.append(req);
    text.append(";\n");
    text.append("    type Resp = ");
    text.append(resp);
    text.append(";\n");
    text.append("    const PATH: &'static str = \"");
    text.append(path);
    text.append("\";\n");
    text.append("}\n");
    out.append(text.as_str());
}

/// The `UnicastMethod` impl of a handle.
pub open spec fn unicast_impl_text(
    handle: Seq<char>,
    req: Seq<char>,
    path: Seq<char>,
) -> Seq<char> {
    "impl ::quorums::UnicastMethod for "@ + handle + " {\n"@
        + "    type Req = "@ + req + ";\n"@
        + "    const PATH: &'static str = \""@ + path + "\";\n"@
        + "}\n"@
}

/// Writes the `UnicastMethod` impl of a handle.
pub fn emit_unicast_impl(out: &mut String, handle: &str, req: &str, path: &str)
    ensures
        final(out)@ == old(out)@ + unicast_impl_text(handle@, req@, path@),
{
    let mut text = "impl ::quorums::UnicastMethod for ".to_string();
    text.append(handle);
    text.append(" {\n");
    text.append("    type Req = ");
    text.append(req);
    text.append(";\n");
    text.append("    const PATH: &'static str = \"");
    text.append(path);
    text.append("\";\n");
    text.append("}\n");
    out.append(text.as_str());
}

/// The `MulticastMethod` impl of a handle.
pub open spec fn multicast_impl_text(
    handle: Seq<char>,
    req: Seq<char>,
    path: Seq<char>,
) -> Seq<char> {
    "impl ::quorums::MulticastMethod for "@ + handle + " {\n"@
        + "    type Req = "@ + req + ";\n"@
        + "    const PATH: &'static str = \""@ + path + "\";\n"@
        + "}\n"@
}

/// Writes the `MulticastMethod` impl of a handle.
pub fn emit_multicast_impl(out: &mut String, handle: &str, req: &str, path: &str)
    ensures
        final(out)@ == old(out)@ + multicast_impl_text(handle@, req@, path@),
{
    let mut text = "impl ::quorums::MulticastMethod for ".to_string();
    text.append(handle);
    text.append(" {\n");
    text.append("    type Req = ");
    text.append(req);
    text.append(";\n");
    text.append("    const PATH: &'static str = \"");
    text.append(path);
    text.append("\";\n");
    text.append("}\n");
    out.append(text.as_str());
}

/// The `QuorumCallMethod` impl of a handle.
pub open spec fn qc_impl_text(
    handle: Seq<char>,
    req: Seq<char>,
    resp: Seq<char>,
    path: Seq<char>,
) -> Seq<char> {
    "impl ::quorums::QuorumCallMethod for "@ + handle + " {\n"@
        + "    type Req = "@ + req + ";\n"@
        + "    type Resp = "@ + resp + ";\n"@
        + "    const PATH: &'static str = \""@ + path + "\";\n"@
        + "}\n"@
}

/// Writes the `QuorumCallMethod` impl of a handle.
pub fn emit_qc_impl(out: &mut String, handle: &str, req: &str, resp: &str, path: &str)
    ensures
        final(out)@ == old(out)@ + qc_impl_text(handle@, req@, resp@, path@),
{
    let mut text = "impl ::quorums::QuorumCallMethod for ".to_string();
    text.append(handle);
    text.append(" {\n");
    text.append("    type Req = ");
    text.append(req);
    text.append(";\n");
    text.append("    type Resp = ");
    text.append(resp);
    text.append(";\n");
    text.append("    const PATH: &'static str = \"");
    text.append(path);
    text.append("\";\n");
    text.append("}\n");
    out.append(text.as_str());
}

/// The `OrderedQuorumCallMethod` impl of a handle.
pub open spec fn oqc_impl_text(
    handle: Seq<char>,
    req: Seq<char>,
    resp: Seq<char>,
    path: Seq<char>,
) -> Seq<char> {
    "impl ::quorums::OrderedQuorumCallMethod for "@ + handle + " {\n"@
        + "    type Req = "@ + req + ";\n"@
        + "    type Resp = "@ + resp + ";\n"@
        + "    const PATH: &'static str = \""@ + path + "\";\n"@
        + "}\n"@
}

/// Writes the `OrderedQuorumCallMethod` impl of a handle.
pub fn emit_oqc_impl(out: &mut String, handle: &str, req: &str, resp: &str, path: &str)
    ensures
        final(out)@ == old(out)@ + oqc_impl_text(handle@, req@, resp@, path@),
{
    let mut text = "impl ::quorums::OrderedQuorumCallMethod for ".to_string();
    text.append(handle);
    text.append(" {\n");
    text.append("    type Req = ");
    text.append(req);
    text.append(";\n");
    text.append("    type Resp = ");
    text.append(resp);
    text.append(";\n");
    text.append("    const PATH: &'static str = \"");
    text.append(path);
    text.append("\";\n");
    text.append("}\n");
    out.append(text.as_str());
}

/// The `CorrectableMethod` impl of a handle.
pub open spec fn correctable_impl_text(
    handle: Seq<char>,
    req: Seq<char>,
    resp: Seq<char>,
    path: Seq<char>,
) -> Seq<char> {
    "impl ::quorums::CorrectableMethod for "@ + handle + " {\n"@
        + "    type Req = "@ + req + ";\n"@
        + "    type Resp = "@ + resp + ";\n"@
        + "    const PATH: &'static str = \""@ + path + "\";\n"@
        + "}\n"@
}

/// Writes the `CorrectableMethod` impl of a handle.
pub fn emit_correctable_impl(out: &mut String, handle: &str, req: &str, resp: &str, path: &str)
    ensures
        final(out)@ == old(out)@ + correctable_impl_text(handle@, req@, resp@, path@),
{
    let mut text = "impl ::quorums::CorrectableMethod for ".to_string();
    text.append(handle);
    text.append(" {\n");
    text.append("    type Req = ");
    text.append(req);
    text.append(";\n");
    text.append("    type Resp = ");
    text.append(resp);
    text.append(";\n");
    text.append("    const PATH: &'static str = \"");
    text.append(path);
    text.append("\";\n");
    text.append("}\n");
    out.append(text.as_str());
}

// ── Client functions ──────────────────────────────────────────────────────────

/// The client function of a method called with `rpc_call`.
pub open spec fn client_fn_rpc_text(
    fn_name: Seq<char>,
    req_ty: Seq<char>,
    resp_ty: Seq<char>,
    handle: Seq<char>,
) -> Seq<char> {
    "    pub async fn "@ + fn_name + "(ctx: &::quorums::node::NodeContext, req: &"@ + req_ty + ")\n"@
        + "        -> ::core::result::Result<"@ + resp_ty + ", ::quorums::Error>\n"@
        + "    {\n"@
        + "        ::quorums::call_types::rpc_call(ctx, req, super::"@ + handle + ").await\n"@
        + "    }\n"@
}

/// Writes the client function of a method called with `rpc_call`.
pub fn client_fn_rpc(out: &mut String, fn_name: &str, req_ty: &str, resp_ty: &str, handle: &str)
    ensures
        final(out)@ == old(out)@ + client_fn_rpc_text(fn_name@, req_ty@, resp_ty@, handle@),
{
    let mut text = "    pub async fn ".to_string();
    text.append(fn_name);
    text.append("(ctx: &::quorums::node::NodeContext, req: &");
    text.append(req_ty);
    text.append(")\n");
    text.append("        -> ::core::result::Result<");
    text.append(resp_ty);
    text.append(", ::quorums::Error>\n");
    text.append("    {\n");
    text.append("        ::quorums::call_types::rpc_call(ctx, req, super::");
    text.append(handle);
    text.append(").await\n");
    text.append("    }\n");
    out.append(text.as_str());
}

/// The client function of a method called with `unicast`.
pub open spec fn client_fn_unicast_text(
    fn_name: Seq<char>,
    req_ty: Seq<char>,
    handle: Seq<char>,
) -> Seq<char> {
    "    pub async fn "@ + fn_name + "(ctx: &::quorums::node::NodeContext, req: &"@ + req_ty + ")\n"@
        + "        -> ::core::result::Result<(), ::quorums::Error>\n"@
        + "    {\n"@
        + "        ::quorums::call_types::unicast(ctx, req, super::"@ + handle + ").await\n"@
        + "    }\n"@
}

/// Writes the client function of a method called with `unicast`.
pub fn client_fn_unicast(out: &mut String, fn_name: &str, req_ty: &str, handle: &str)
    ensures
        final(out)@ == old(out)@ + client_fn_unicast_text(fn_name@, req_ty@, handle@),
{
    let mut text = "    pub async fn ".to_string();
    text.append(fn_name);
    text.append("(ctx: &::quorums::node::NodeContext, req: &");
    text.append(req_ty);
    text.append(")\n");
    text.append("        -> ::core::result::Result<(), ::quorums::Error>\n");
    text.append("    {\n");
    text.append("        ::quorums::call_types::unicast(ctx, req, super::");
    text.append(handle);
    text.append(").await\n");
    text.append("    }\n");
    out.append(text.as_str());
}

/// The client function of a method called with `multicast`.
pub open spec fn client_fn_multicast_text(
    fn_name: Seq<char>,
    req_ty: Seq<char>,
    handle: Seq<char>,
) -> Seq<char> {
    "    pub async fn "@ + fn_name + "(ctx: &::quorums::config::ConfigContext, req: &"@ + req_ty + ")\n"@
        + "        -> ::core::result::Result<(), ::quorums::Error>\n"@
        + "    {\n"@
        + "        ::quorums::call_types::multicast(ctx, req, super::"@ + handle + ").await\n"@
        + "    }\n"@
}

/// Writes the client function of a method called with `multicast`.
pub fn client_fn_multicast(out: &mut String, fn_name: &str, req_ty: &str, handle: &str)
    ensures
        final(out)@ == old(out)@ + client_fn_multicast_text(fn_name@, req_ty@, handle@),
{
    let mut text = "    pub async fn ".to_string();
    text.append(fn_name);
    text.append("(ctx: &::quorums::config::ConfigContext, req: &");
    text.append(req_ty);
    text.append(")\n");
    text.append("        -> ::core::result::Result<(), ::quorums::Error>\n");
    text.append("    {\n");
    text.append("        ::quorums::call_types::multicast(ctx, req, super::");
    text.append(handle);
    text.append(").await\n");
    text.append("    }\n");
    out.append(text.as_str());
}

/// The client function of a method called with `quorum_call`.
pub open spec fn client_fn_qc_text(
    fn_name: Seq<char>,
    req_ty: Seq<char>,
    resp_ty: Seq<char>,
    handle: Seq<char>,
) -> Seq<char> {
    "    pub async fn "@ + fn_name + "(ctx: &::quorums::config::ConfigContext, req: &"@ + req_ty + ")\n"@
        + "        -> ::core::result::Result<::quorums::Responses<"@ + resp_ty + ">, ::quorums::Error>\n"@
        + "    {\n"@
        + "        ::quorums::call_types::quorum_call(ctx, req, super::"@ + handle + ").await\n"@
        + "    }\n"@
}

/// Writes the client function of a method called with `quorum_call`.
pub fn client_fn_qc(out: &mut String, fn_name: &str, req_ty: &str, resp_ty: &str, handle: &str)
    ensures
        final(out)@ == old(out)@ + client_fn_qc_text(fn_name@, req_ty@, resp_ty@, handle@),
{
    let mut text = "    pub async fn ".to_string();
    text.append(fn_name);
    text.append("(ctx: &::quorums::config::ConfigContext, req: &");
    text.append(req_ty);
    text.append(")\n");
    text.append("        -> ::core::result::Result<::quorums::Responses<");
    text.append(resp_ty);
    text.append(">, ::quorums::Error>\n");
    text.append("    {\n");
    text.append("        ::quorums::call_types::quorum_call(ctx, req, super::");
    text.append(handle);
    text.append(").await\n");
    text.append("    }\n");
    out.append(text.as_str());
}

/// The client function of a method called with `ordered_quorum_call`.
pub open spec fn client_fn_oqc_text(
    fn_name: Seq<char>,
    req_ty: Seq<char>,
    resp_ty: Seq<char>,
    handle: Seq<char>,
) -> Seq<char> {
    "    pub async fn "@ + fn_name + "(ctx: &::quorums::config::ConfigContext, req: &"@ + req_ty + ")\n"@
        + "        -> ::core::result::Result<::quorums::OrderedResponses<"@ + resp_ty + ">, ::quorums::Error>\n"@
        + "    {\n"@
        + "        ::quorums::call_types::ordered_quorum_call(ctx, req, super::"@ + handle + ").await\n"@
        + "    }\n"@
}

/// Writes the client function of a method called with `ordered_quorum_call`.
pub fn client_fn_oqc(out: &mut String, fn_name: &str, req_ty: &str, resp_ty: &str, handle: &str)
    ensures
        final(out)@ == old(out)@ + client_fn_oqc_text(fn_name@, req_ty@, resp_ty@, handle@),
{
    let mut text = "    pub async fn ".to_string();
    text.append(fn_name);
    text.append("(ctx: &::quorums::config::ConfigContext, req: &");
    text.append(req_ty);
    text.append(")\n");
    text.append("        -> ::core::result::Result<::quorums::OrderedResponses<");
    text.append(resp_ty);
    text.append(">, ::quorums::Error>\n");
    text.append("    {\n");
    text.append("        ::quorums::call_types::ordered_quorum_call(ctx, req, super::");
    text.append(handle);
    text.append(").await\n");
    text.append("    }\n");
    out.append(text.as_str());
}

/// The client function of a method called with `correctable_call`.
pub open spec fn client_fn_correctable_text(
    fn_name: Seq<char>,
    req_ty: Seq<char>,
    resp_ty: Seq<char>,
    handle: Seq<char>,
) -> Seq<char> {
    "    pub async fn "@ + fn_name + "(ctx: &::quorums::config::ConfigContext, req: &"@ + req_ty + ")\n"@
        + "        -> ::core::result::Result<::quorums::Correctable<"@ + resp_ty + ">, ::quorums::Error>\n"@
        + "    {\n"@
        + "        ::quorums::call_types::correctable_call(ctx, req, super::"@ + handle + ").await\n"@
        + "    }\n"@
}

/// Writes the client function of a method called with `correctable_call`.
pub fn client_fn_correctable(
    out: &mut String,
    fn_name: &str,
    req_ty: &str,
    resp_ty: &str,
    handle: &str,
)
    ensures
        final(out)@ == old(out)@ + client_fn_correctable_text(fn_name@, req_ty@, resp_ty@, handle@),
{
    let mut text = "    pub async fn ".to_string();
    text.append(fn_name);
    text.append("(ctx: &::quorums::config::ConfigContext, req: &");
    text.append(req_ty);
    text.append(")\n");
    text.append("        -> ::core::result::Result<::quorums::Correctable<");
    text.append(resp_ty);
    text.append(">, ::quorums::Error>\n");
    text.append("    {\n");
    text.append("        ::quorums::call_types::correctable_call(ctx, req, super::");
    text.append(handle);
    text.append(").await\n");
    text.append("    }\n");
    out.append(text.as_str());
}

// ── Server trait functions ────────────────────────────────────────────────────

/// The server trait function of a method that answers.
pub open spec fn server_trait_fn_twoway_text(
    fn_name: Seq<char>,
    req_ty: Seq<char>,
    resp_ty: Seq<char>,
) -> Seq<char> {
    "        fn "@ + fn_name + "(&self, ctx: ::quorums::server::ServerCtx, req: "@ + req_ty + ")\n"@
        + "            -> impl ::std::future::Future<Output = ::core::result::Result<::core::option::Option<"@ + resp_ty + ">, ::tonic::Status>> + Send;\n"@
}

/// Writes the server trait function of a method that answers.
pub fn server_trait_fn_twoway(out: &mut String, fn_name: &str, req_ty: &str, resp_ty: &str)
    ensures
        final(out)@ == old(out)@ + server_trait_fn_twoway_text(fn_name@, req_ty@, resp_ty@),
{
    let mut text = "        fn ".to_string();
    text.append(fn_name);
    text.append("(&self, ctx: ::quorums::server::ServerCtx, req: ");
    text.append(req_ty);
    text.append(")\n");
    text.append("            -> impl ::std::future::Future<Output = ::core::result::Result<::core::option::Option<");
    text.append(resp_ty);
    text.append(">, ::tonic::Status>> + Send;\n");
    out.append(text.as_str());
}

/// The server trait function of a method that does not answer.
pub open spec fn server_trait_fn_oneway_text(fn_name: Seq<char>, req_ty: Seq<char>) -> Seq<char> {
    "        fn "@ + fn_name + "(&self, ctx: ::quorums::server::ServerCtx, req: "@ + req_ty + ")\n"@
        + "            -> impl ::std::future::Future<Output = ::core::result::Result<::core::option::Option<()>, ::tonic::Status>> + Send;\n"@
}

/// Writes the server trait function of a method that does not answer.
pub fn server_trait_fn_oneway(out: &mut String, fn_name: &str, req_ty: &str)
    ensures
        final(out)@ == old(out)@ + server_trait_fn_oneway_text(fn_name@, req_ty@),
{
    let mut text = "        fn ".to_string();
    text.append(fn_name);
    text.append("(&self, ctx: ::quorums::server::ServerCtx, req: ");
    text.append(req_ty);
    text.append(")\n");
    text.append("            -> impl ::std::future::Future<Output = ::core::result::Result<::core::option::Option<()>, ::tonic::Status>> + Send;\n");
    out.append(text.as_str());
}

/// The server trait function of a method that streams its answers.
pub open spec fn server_trait_fn_correctable_text(
    fn_name: Seq<char>,
    req_ty: Seq<char>,
) -> Seq<char> {
    "        fn "@ + fn_name + "(&self, ctx: ::quorums::server::ServerCtx, req: "@ + req_ty + ")\n"@
        + "            -> impl ::std::future::Future<Output = ::core::result::Result<(), ::tonic::Status>> + Send;\n"@
}

/// Writes the server trait function of a method that streams its answers.
pub fn server_trait_fn_correctable(out: &mut String, fn_name: &str, req_ty: &str)
    ensures
        final(out)@ == old(out)@ + server_trait_fn_correctable_text(fn_name@, req_ty@),
{
    let mut text = "        fn ".to_string();
    text.append(fn_name);
    text.append("(&self, ctx: ::quorums::server::ServerCtx, req: ");
    text.append(req_ty);
    text.append(")\n");
    text.append("            -> impl ::std::future::Future<Output = ::core::result::Result<(), ::tonic::Status>> + Send;\n");
    out.append(text.as_str());
}

// ── Handles ───────────────────────────────────────────────────────────────────

/// The trait impls of a handle. A handle for a fan-out call also serves the
/// single-node calls with the same protocol.
pub open spec fn handle_impls_text(
    handle: Seq<char>,
    call_type: CallType,
    req: Seq<char>,
    resp: Seq<char>,
    path: Seq<char>,
) -> Seq<char> {
    match call_type {
        CallType::RpcCall => rpc_call_impl_text(handle, req, resp, path),
        CallType::Unicast => unicast_impl_text(handle, req, path),
        CallType::Multicast => multicast_impl_text(handle, req, path) + unicast_impl_text(
            handle,
            req,
            path,
        ),
        CallType::QuorumCall => qc_impl_text(handle, req, resp, path) + oqc_impl_text(
            handle,
            req,
            resp,
            path,
        ) + rpc_call_impl_text(handle, req, resp, path),
        CallType::OrderedQuorumCall => oqc_impl_text(handle, req, resp, path) + qc_impl_text(
            handle,
            req,
            resp,
            path,
        ) + rpc_call_impl_text(handle, req, resp, path),
        CallType::Correctable => correctable_impl_text(handle, req, resp, path),
    }
}

/// The zero-sized struct of a handle, and its trait impls.
pub open spec fn handle_text(
    handle: Seq<char>,
    call_type: CallType,
    req: Seq<char>,
    resp: Seq<char>,
    path: Seq<char>,
) -> Seq<char> {
    "/// Typed method handle for `"@ + path + "`.\n"@ + "#[derive(Clone, Copy)]\n"@
        + "pub struct "@ + handle + ";\n"@ + handle_impls_text(handle, call_type, req, resp, path)
}

/// Writes the zero-sized struct of a handle, and its trait impls.
pub fn emit_handle(
    out: &mut String,
    handle_name: &str,
    call_type: &CallType,
    req_ty: &str,
    resp_ty: &str,
    path: &str,
)
    ensures
        final(out)@ == old(out)@ + handle_text(
            handle_name@,
            *call_type,
            req_ty@,
            resp_ty@,
            path@,
        ),
{
    let mut text = "/// Typed method handle for `".to_string();
    text.append(path);
    text.append("`.\n");
    text.append("#[derive(Clone, Copy)]\n");
    text.append("pub struct ");
    text.append(handle_name);
    text.append(";\n");
    let mut impls = String::new();
    match call_type {
        CallType::RpcCall => {
            emit_rpc_call_impl(&mut impls, handle_name, req_ty, resp_ty, path);
        },
        CallType::Unicast => {
            emit_unicast_impl(&mut impls, handle_name, req_ty, path);
        },
        CallType::Multicast => {
            emit_multicast_impl(&mut impls, handle_name, req_ty, path);
            emit_unicast_impl(&mut impls, handle_name, req_ty, path);
        },
        CallType::QuorumCall => {
            emit_qc_impl(&mut impls, handle_name, req_ty, resp_ty, path);
            emit_oqc_impl(&mut impls, handle_name, req_ty, resp_ty, path);
            emit_rpc_call_impl(&mut impls, handle_name, req_ty, resp_ty, path);
        },
        CallType::OrderedQuorumCall => {
            emit_oqc_impl(&mut impls, handle_name, req_ty, resp_ty, path);
            emit_qc_impl(&mut impls, handle_name, req_ty, resp_ty, path);
            emit_rpc_call_impl(&mut impls, handle_name, req_ty, resp_ty, path);
        },
        CallType::Correctable => {
            emit_correctable_impl(&mut impls, handle_name, req_ty, resp_ty, path);
        },
    }
    assert(impls@ =~= handle_impls_text(handle_name@, *call_type, req_ty@, resp_ty@, path@));
    text.append(impls.as_str());
    out.append(text.as_str());
}

// ── Registration ──────────────────────────────────────────────────────────────

/// The name of the `Server` method that registers a handler.
pub open spec fn register_fn(streaming: bool) -> Seq<char> {
    if streaming {
        "register_streaming_handler"@
    } else {
        "register_handler"@
    }
}

/// The block that registers one method of a service.
pub open spec fn register_handler_text(
    path: Seq<char>,
    fn_name: Seq<char>,
    req_bare: Seq<char>,
    streaming: bool,
) -> Seq<char> {
    "        {\n"@ + "            let s = ::std::sync::Arc::clone(&svc);\n"@
        + "            server."@ + register_fn(streaming) + "(\""@ + path
        + "\", move |ctx, req: super::"@ + req_bare + "| {\n"@
        + "                let s = ::std::sync::Arc::clone(&s);\n"@
        + "                async move { s."@ + fn_name + "(ctx, req).await }\n"@
        + "            });\n"@ + "        }\n"@
}

/// Writes the block that registers one method of a service.
pub fn register_handler(
    out: &mut String,
    path: &str,
    fn_name: &str,
    req_bare: &str,
    streaming: bool,
)
    ensures
        final(out)@ == old(out)@ + register_handler_text(path@, fn_name@, req_bare@, streaming),
{
    let mut text = "        {\n".to_string();
    text.append("            let s = ::std::sync::Arc::clone(&svc);\n");
    text.append("            server.");
    text.append(
        if streaming {
            "register_streaming_handler"
        } else {
            "register_handler"
        },
    );
    text.append("(\"");
    text.append(path);
    text.append("\", move |ctx, req: super::");
    text.append(req_bare);
    text.append("| {\n");
    text.append("                let s = ::std::sync::Arc::clone(&s);\n");
    text.append("                async move { s.");
    text.append(fn_name);
    text.append("(ctx, req).await }\n");
    text.append("            });\n");
    text.append("        }\n");
    out.append(text.as_str());
}

// ── Services ──────────────────────────────────────────────────────────────────

/// The full path of a method, e.g. `/storage.Storage/Read`.
pub open spec fn full_path_text(service: ServiceView, method: MethodView) -> Seq<char> {
    "/"@ + service.package + "."@ + service.proto_name + "/"@ + method.proto_name
}

/// The name of the handle of a method, e.g. `StorageReadMethod`.
pub open spec fn handle_name_text(service: ServiceView, method: MethodView) -> Seq<char> {
    service.name + method.proto_name + "Method"@
}

/// The annotations of methods: how the method with a full path is called.
pub type Annotations = Seq<(Seq<char>, CallType)>;

/// How a method of a service is called, if it is annotated.
pub open spec fn call_type_of(
    annotations: Annotations,
    service: ServiceView,
    method: MethodView,
) -> Option<CallType> {
    lookup(annotations, full_path_text(service, method))
}

/// The comment in place of a method without annotation.
pub open spec fn skipped_text(
    annotations: Annotations,
    service: ServiceView,
    method: MethodView,
) -> Seq<char> {
    if call_type_of(annotations, service, method) is None {
        "// [quorums] no annotation for "@ + full_path_text(service, method) + " — skipped\n"@
    } else {
        seq![]
    }
}

/// The handle of a method, if it is annotated.
pub open spec fn method_handle_text(
    annotations: Annotations,
    service: ServiceView,
    method: MethodView,
) -> Seq<char> {
    match call_type_of(annotations, service, method) {
        None => seq![],
        Some(call_type) => handle_text(
            handle_name_text(service, method),
            call_type,
            method.input_type,
            method.output_type,
            full_path_text(service, method),
        ),
    }
}

/// The client function of a method, if it is annotated.
pub open spec fn method_client_text(
    annotations: Annotations,
    service: ServiceView,
    method: MethodView,
) -> Seq<char> {
    let name = method.name;
    let req = "super::"@ + method.input_type;
    let resp = "super::"@ + method.output_type;
    let handle = handle_name_text(service, method);
    match call_type_of(annotations, service, method) {
        None => seq![],
        Some(CallType::RpcCall) => client_fn_rpc_text(name, req, resp, handle),
        Some(CallType::Unicast) => client_fn_unicast_text(name, req, handle),
        Some(CallType::Multicast) => client_fn_multicast_text(name, req, handle),
        Some(CallType::QuorumCall) => client_fn_qc_text(name, req, resp, handle),
        Some(CallType::OrderedQuorumCall) => client_fn_oqc_text(name, req, resp, handle),
        Some(CallType::Correctable) => client_fn_correctable_text(name, req, resp, handle),
    }
}

/// The server trait function of a method, if it is annotated.
pub open spec fn method_server_text(
    annotations: Annotations,
    service: ServiceView,
    method: MethodView,
) -> Seq<char> {
    let name = method.name;
    let req = "super::"@ + method.input_type;
    let resp = "super::"@ + method.output_type;
    match call_type_of(annotations, service, method) {
        None => seq![],
        Some(CallType::RpcCall) => server_trait_fn_twoway_text(name, req, resp),
        Some(CallType::Unicast) => server_trait_fn_oneway_text(name, req),
        Some(CallType::Multicast) => server_trait_fn_oneway_text(name, req),
        Some(CallType::QuorumCall) => server_trait_fn_twoway_text(name, req, resp),
        Some(CallType::OrderedQuorumCall) => server_trait_fn_twoway_text(name, req, resp),
        Some(CallType::Correctable) => server_trait_fn_correctable_text(name, req),
    }
}

/// The registration of a method, if it is annotated.
pub open spec fn method_register_text(
    annotations: Annotations,
    service: ServiceView,
    method: MethodView,
) -> Seq<char> {
    match call_type_of(annotations, service, method) {
        None => seq![],
        Some(call_type) => register_handler_text(
            full_path_text(service, method),
            method.name,
            method.input_type,
            call_type is Correctable,
        ),
    }
}

/// What each method contributes, one after the other.
pub open spec fn gather(
    methods: Seq<MethodView>,
    text: spec_fn(MethodView) -> Seq<char>,
) -> Seq<char>
    decreases methods.len(),
{
    if methods.len() == 0 {
        seq![]
    } else {
        gather(methods.drop_last(), text) + text(methods.last())
    }
}

/// Whether some method of the service is annotated.
pub open spec fn any_annotated(annotations: Annotations, service: ServiceView) -> bool {
    exists|i: int|
        0 <= i < service.methods.len() && call_type_of(
            annotations,
            service,
            #[trigger] service.methods[i],
        ) is Some
}

/// The handles, the client module and the server module of a service.
pub open spec fn service_text(
    name: Seq<char>,
    handles: Seq<char>,
    client_fns: Seq<char>,
    server_trait_fns: Seq<char>,
    register_calls: Seq<char>,
) -> Seq<char> {
    handles + "\n"@
        + "pub mod "@ + snake_case(name) + "_client {\n"@
        + "    //! Generated gorums client for `"@ + name + "`.\n"@
        + client_fns
        + "}\n"@ + "\n"@
        + "pub mod "@ + snake_case(name) + "_server {\n"@
        + "    //! Generated gorums server trait for `"@ + name + "`.\n"@
        + "    pub trait "@ + name
        + "Server: ::core::marker::Send + ::core::marker::Sync + 'static {\n"@
        + server_trait_fns
        + "    }\n"@ + "\n"@
        + "    pub fn register_"@ + snake_case(name) + "<S: "@ + name + "Server>(\n"@
        + "        server: &mut ::quorums::server::Server,\n"@
        + "        svc: ::std::sync::Arc<S>,\n"@
        + "    ) {\n"@
        + register_calls
        + "    }\n"@ + "}\n"@
}

/// Everything that is generated for a service: a comment for each method
/// without annotation, then the code, if there is any to generate.
pub open spec fn generated_text(annotations: Annotations, service: ServiceView) -> Seq<char> {
    gather(service.methods, |m: MethodView| skipped_text(annotations, service, m)) + if any_annotated(
        annotations,
        service,
    ) {
        service_text(
            service.name,
            gather(service.methods, |m: MethodView| method_handle_text(annotations, service, m)),
            gather(service.methods, |m: MethodView| method_client_text(annotations, service, m)),
            gather(service.methods, |m: MethodView| method_server_text(annotations, service, m)),
            gather(service.methods, |m: MethodView| method_register_text(annotations, service, m)),
        )
    } else {
        seq![]
    }
}

fn emit_service(
    out: &mut String,
    name: &str,
    handles: &str,
    client_fns: &str,
    server_trait_fns: &str,
    register_calls: &str,
)
    ensures
        final(out)@ == old(out)@ + service_text(
            name@,
            handles@,
            client_fns@,
            server_trait_fns@,
            register_calls@,
        ),
{
    let module_base = to_snake_case(name);
    let mut text = handles.to_string();
    text.append("\n");
    text.append("pub mod ");
    text.append(module_base.as_str());
    text.append("_client {\n");
    text.append("    //! Generated gorums client for `");
    text.append(name);
    text.append("`.\n");
    text.append(client_fns);
    text.append("}\n");
    text.append("\n");
    text.append("pub mod ");
    text.append(module_base.as_str());
    text.append("_server {\n");
    text.append("    //! Generated gorums server trait for `");
    text.append(name);
    text.append("`.\n");
    text.append("    pub trait ");
    text.append(name);
    text.append("Server: ::core::marker::Send + ::core::marker::Sync + 'static {\n");
    text.append(server_trait_fns);
    text.append("    }\n");
    text.append("\n");
    text.append("    pub fn register_");
    text.append(module_base.as_str());
    text.append("<S: ");
    text.append(name);
    text.append("Server>(\n");
    text.append("        server: &mut ::quorums::server::Server,\n");
    text.append("        svc: ::std::sync::Arc<S>,\n");
    text.append("    ) {\n");
    text.append(register_calls);
    text.append("    }\n");
    text.append("}\n");
    out.append(text.as_str());
}

/// The service generator: the annotations of the methods that it knows.
#[derive(Debug)]
pub struct GorumsGenerator {
    pub methods: Table<CallType>,
}

impl GorumsGenerator {
    /// A generator without annotations.
    pub fn new() -> (r: Self)
        ensures
            r.methods@ == Annotations::empty(),
    {
        GorumsGenerator { methods: Table::new() }
    }

    /// Annotates the method with the given full path.
    pub fn method(&mut self, path: String, call_type: CallType)
        ensures
            final(self).methods@ == with_entry(old(self).methods@, path@, call_type),
    {
        self.methods.insert(path, call_type);
    }

    /// Appends the code for `service` to `buf`.
    pub fn generate(&self, service: Service, buf: &mut String)
        ensures
            final(buf)@ == old(buf)@ + generated_text(self.methods@, service@),
    {
        let ghost annotations = self.methods@;
        let ghost svc = service@;
        let ghost skipped_of = |m: MethodView| skipped_text(annotations, svc, m);
        let ghost handle_of = |m: MethodView| method_handle_text(annotations, svc, m);
        let ghost client_of = |m: MethodView| method_client_text(annotations, svc, m);
        let ghost server_of = |m: MethodView| method_server_text(annotations, svc, m);
        let ghost register_of = |m: MethodView| method_register_text(annotations, svc, m);
        let mut skipped = String::new();
        let mut handles = String::new();
        let mut client_fns = String::new();
        let mut server_trait_fns = String::new();
        let mut register_calls = String::new();
        let mut annotated = false;

        for i in 0..service.methods.len()
            invariant
                svc == service@,
                annotations == self.methods@,
                skipped_of == (|m: MethodView| skipped_text(annotations, svc, m)),
                handle_of == (|m: MethodView| method_handle_text(annotations, svc, m)),
                client_of == (|m: MethodView| method_client_text(annotations, svc, m)),
                server_of == (|m: MethodView| method_server_text(annotations, svc, m)),
                register_of == (|m: MethodView| method_register_text(annotations, svc, m)),
                skipped@ == gather(svc.methods.take(i as int), skipped_of),
                handles@ == gather(svc.methods.take(i as int), handle_of),
                client_fns@ == gather(svc.methods.take(i as int), client_of),
                server_trait_fns@ == gather(svc.methods.take(i as int), server_of),
                register_calls@ == gather(svc.methods.take(i as int), register_of),
                annotated == exists|j: int|
                    0 <= j < i && call_type_of(
                        annotations,
                        svc,
                        #[trigger] svc.methods[j],
                    ) is Some,
        {
            let method = &service.methods[i];
            let ghost m = method@;
            assert(svc.methods[i as int] == m);
            assert(svc.methods.take(i + 1).drop_last() =~= svc.methods.take(i as int));
            assert(svc.methods.take(i + 1).last() == m);

            let mut full_path = "/".to_string();
            full_path.append(service.package.as_str());
            full_path.append(".");
            full_path.append(service.proto_name.as_str());
            full_path.append("/");
            full_path.append(method.proto_name.as_str());
            let path = full_path.as_str();

            match self.methods.get(path) {
                None => {
                    let mut comment = "// [quorums] no annotation for ".to_string();
                    comment.append(path);
                    comment.append(" — skipped\n");
                    skipped.append(comment.as_str());
                    assert(handles@ =~= handles@ + handle_of(m));
                    assert(client_fns@ =~= client_fns@ + client_of(m));
                    assert(server_trait_fns@ =~= server_trait_fns@ + server_of(m));
                    assert(register_calls@ =~= register_calls@ + register_of(m));
                },
                Some(call_type) => {
                    annotated = true;
                    let fn_name = method.name.as_str();
                    let req_bare = method.input_type.as_str();
                    let resp_bare = method.output_type.as_str();
                    let req = "super::".to_string().concat(req_bare);
                    let resp = "super::".to_string().concat(resp_bare);
                    let (req_ty, resp_ty) = (req.as_str(), resp.as_str());
                    let mut handle_name = service.name.clone();
                    handle_name.append(method.proto_name.as_str());
                    handle_name.append("Method");
                    let handle = handle_name.as_str();

                    assert(skipped@ =~= skipped@ + skipped_of(m));
                    emit_handle(&mut handles, handle, call_type, req_bare, resp_bare, path);
                    match call_type {
                        CallType::RpcCall => {
                            client_fn_rpc(&mut client_fns, fn_name, req_ty, resp_ty, handle);
                            server_trait_fn_twoway(&mut server_trait_fns, fn_name, req_ty, resp_ty);
                            register_handler(&mut register_calls, path, fn_name, req_bare, false);
                        },
                        CallType::Unicast => {
                            client_fn_unicast(&mut client_fns, fn_name, req_ty, handle);
                            server_trait_fn_oneway(&mut server_trait_fns, fn_name, req_ty);
                            register_handler(&mut register_calls, path, fn_name, req_bare, false);
                        },
                        CallType::Multicast => {
                            client_fn_multicast(&mut client_fns, fn_name, req_ty, handle);
                            server_trait_fn_oneway(&mut server_trait_fns, fn_name, req_ty);
                            register_handler(&mut register_calls, path, fn_name, req_bare, false);
                        },
                        CallType::QuorumCall => {
                            client_fn_qc(&mut client_fns, fn_name, req_ty, resp_ty, handle);
                            server_trait_fn_twoway(&mut server_trait_fns, fn_name, req_ty, resp_ty);
                            register_handler(&mut register_calls, path, fn_name, req_bare, false);
                        },
                        CallType::OrderedQuorumCall => {
                            client_fn_oqc(&mut client_fns, fn_name, req_ty, resp_ty, handle);
                            server_trait_fn_twoway(&mut server_trait_fns, fn_name, req_ty, resp_ty);
                            register_handler(&mut register_calls, path, fn_name, req_bare, false);
                        },
                        CallType::Correctable => {
                            client_fn_correctable(
                                &mut client_fns,
                                fn_name,
                                req_ty,
                                resp_ty,
                                handle,
                            );
                            server_trait_fn_correctable(&mut server_trait_fns, fn_name, req_ty);
                            register_handler(&mut register_calls, path, fn_name, req_bare, true);
                        },
                    }
                },
            }
        }
        assert(svc.methods.take(svc.methods.len() as int) =~= svc.methods);

        let mut text = skipped;
        let ghost before = text@;
        if annotated {
            emit_service(
                &mut text,
                service.name.as_str(),
                handles.as_str(),
                client_fns.as_str(),
                server_trait_fns.as_str(),
                register_calls.as_str(),
            );
        } else {
            assert(text@ =~= before + Seq::<char>::empty());
        }
        buf.append(text.as_str());
    }
}

// ── Laws ──────────────────────────────────────────────────────────────────────

/// For a service without annotated methods nothing is generated but one
/// comment for each method.
pub proof fn lemma_unannotated_service(annotations: Annotations, service: ServiceView)
    requires
        !any_annotated(annotations, service),
    ensures
        generated_text(annotations, service) == gather(
            service.methods,
            |m: MethodView|
                "// [quorums] no annotation for "@ + full_path_text(service, m)
                    + " — skipped\n"@,
        ),
{
    let skipped_of = |m: MethodView| skipped_text(annotations, service, m);
    let comment_of = |m: MethodView|
        "// [quorums] no annotation for "@ + full_path_text(service, m) + " — skipped\n"@;
    assert forall|i: int| 0 <= i < service.methods.len() implies skipped_of(
        #[trigger] service.methods[i],
    ) == comment_of(service.methods[i]) by {
        assert(call_type_of(annotations, service, service.methods[i]) is None);
    }
    lemma_gather_same(service.methods, skipped_of, comment_of);
    assert(generated_text(annotations, service) =~= gather(service.methods, skipped_of));
}

/// Where two texts agree on every method, so do what the methods contribute.
proof fn lemma_gather_same(
    methods: Seq<MethodView>,
    a: spec_fn(MethodView) -> Seq<char>,
    b: spec_fn(MethodView) -> Seq<char>,
)
    requires
        forall|i: int|
            0 <= i < methods.len() ==> a(#[trigger] methods[i]) == b(methods[i]),
    ensures
        gather(methods, a) == gather(methods, b),
    decreases methods.len(),
{
    if methods.len() > 0 {
        let shorter = methods.drop_last();
        assert forall|i: int| 0 <= i < shorter.len() implies a(#[trigger] shorter[i]) == b(
            shorter[i],
        ) by {
            assert(shorter[i] == methods[i]);
        }
        lemma_gather_same(shorter, a, b);
        assert(methods.last() == methods[methods.len() - 1]);
    }
}

/// A name in which nothing is upper case is its own snake case.
pub proof fn lemma_snake_case_of_lower(s: Seq<char>)
    requires
        forall|i: int|
            0 <= i < s.len() ==> !char_is_uppercase(#[trigger] s[i]) && !('A' <= s[i] && s[i]
                <= 'Z'),
    ensures
        snake_case(s) == s,
    decreases s.len(),
{
    if s.len() > 0 {
        let before = s.drop_last();
        assert forall|i: int| 0 <= i < before.len() implies !char_is_uppercase(#[trigger] before[i])
            && !('A' <= before[i] && before[i] <= 'Z') by {
            assert(s[i] == before[i]);
        }
        lemma_snake_case_of_lower(before);
        assert(s[s.len() - 1] == s.last());
        assert(snake_case(s) =~= s);
    } else {
        assert(snake_case(s) =~= s);
    }
}

/// The methods of a service contribute independently: what the first methods
/// contribute is followed by what the others do.
pub proof fn lemma_gather_split(
    first: Seq<MethodView>,
    rest: Seq<MethodView>,
    text: spec_fn(MethodView) -> Seq<char>,
)
    ensures
        gather(first + rest, text) == gather(first, text) + gather(rest, text),
    decreases rest.len(),
{
    if rest.len() == 0 {
        assert(first + rest =~= first);
        assert(gather(first, text) + gather(rest, text) =~= gather(first, text));
    } else {
        lemma_gather_split(first, rest.drop_last(), text);
        assert((first + rest).drop_last() =~= first + rest.drop_last());
        assert((first + rest).last() == rest.last());
        assert(gather(first + rest, text) =~= gather(first, text) + gather(rest, text));
    }
}

/// Every method contributes once, between those before it and those after it.
pub proof fn lemma_method_contributes_once(
    methods: Seq<MethodView>,
    i: int,
    text: spec_fn(MethodView) -> Seq<char>,
)
    requires
        0 <= i < methods.len(),
    ensures
        gather(methods, text) == gather(methods.take(i), text) + text(methods[i]) + gather(
            methods.skip(i + 1),
            text,
        ),
{
    lemma_gather_split(methods.take(i + 1), methods.skip(i + 1), text);
    assert(methods.take(i + 1) + methods.skip(i + 1) =~= methods);
    assert(methods.take(i + 1).drop_last() =~= methods.take(i));
    assert(methods.take(i + 1).last() == methods[i]);
}

/// An annotated method gets no comment; any other method gets a comment and
/// nothing else.
pub proof fn lemma_annotation_decides(
    annotations: Annotations,
    service: ServiceView,
    method: MethodView,
)
    ensures
        call_type_of(annotations, service, method) is Some ==> skipped_text(
            annotations,
            service,
            method,
        ) == Seq::<char>::empty(),
        call_type_of(annotations, service, method) is None ==> {
            &&& method_handle_text(annotations, service, method) == Seq::<char>::empty()
            &&& method_client_text(annotations, service, method) == Seq::<char>::empty()
            &&& method_server_text(annotations, service, method) == Seq::<char>::empty()
            &&& method_register_text(annotations, service, method) == Seq::<char>::empty()
        },
{
}

} // verus!
