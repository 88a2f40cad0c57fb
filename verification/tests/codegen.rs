//! Generated code.

use quorums::codegen::{
    client_fn_correctable, client_fn_multicast, client_fn_oqc, client_fn_qc, client_fn_rpc,
    client_fn_unicast, emit_correctable_impl, emit_handle, emit_multicast_impl, emit_oqc_impl,
    emit_qc_impl, emit_rpc_call_impl, emit_unicast_impl, register_handler,
    server_trait_fn_correctable, server_trait_fn_oneway, server_trait_fn_twoway, to_snake_case,
    CallType, GorumsGenerator, Method, Service,
};

fn method(name: &str, proto_name: &str) -> Method {
    Method {
        name: name.to_string(),
        proto_name: proto_name.to_string(),
        input_type: format!("{proto_name}Req"),
        output_type: format!("{proto_name}Resp"),
    }
}

fn service(methods: Vec<Method>) -> Service {
    Service {
        name: "KvStore".to_string(),
        proto_name: "KvStore".to_string(),
        package: "kv".to_string(),
        methods,
    }
}

#[test]
fn snake_case_of_names() {
    assert_eq!(to_snake_case("Storage"), "storage");
    assert_eq!(to_snake_case("MyService"), "my_service");
    assert_eq!(to_snake_case(""), "");
    assert_eq!(to_snake_case("ABC"), "a_b_c");
    assert_eq!(to_snake_case("already_snake1"), "already_snake1");
    assert_eq!(to_snake_case("xÉy"), "x_Éy");
    assert_eq!(to_snake_case("Éy"), "Éy");
}

#[test]
fn a_whole_service() {
    let mut generator = GorumsGenerator::new();
    generator.method("/kv.KvStore/Get".to_string(), CallType::Unicast);
    generator.method("/kv.KvStore/Get".to_string(), CallType::RpcCall);
    generator.method("/kv.KvStore/Watch".to_string(), CallType::Correctable);
    let mut code = "// head\n".to_string();
    generator.generate(
        service(vec![method("get", "Get"), method("skip", "Skip"), method("watch", "Watch")]),
        &mut code,
    );
    let expected = r#"// head
// [quorums] no annotation for /kv.KvStore/Skip — skipped
/// Typed method handle for `/kv.KvStore/Get`.
#[derive(Clone, Copy)]
pub struct KvStoreGetMethod;
impl ::quorums::RpcCallMethod for KvStoreGetMethod {
    type Req = GetReq;
    type Resp = GetResp;
    const PATH: &'static str = "/kv.KvStore/Get";
}
/// Typed method handle for `/kv.KvStore/Watch`.
#[derive(Clone, Copy)]
pub struct KvStoreWatchMethod;
impl ::quorums::CorrectableMethod for KvStoreWatchMethod {
    type Req = WatchReq;
    type Resp = WatchResp;
    const PATH: &'static str = "/kv.KvStore/Watch";
}

pub mod kv_store_client {
    //! Generated gorums client for `KvStore`.
    pub async fn get(ctx: &::quorums::node::NodeContext, req: &super::GetReq)
        -> ::core::result::Result<super::GetResp, ::quorums::Error>
    {
        ::quorums::call_types::rpc_call(ctx, req, super::KvStoreGetMethod).await
    }
    pub async fn watch(ctx: &::quorums::config::ConfigContext, req: &super::WatchReq)
        -> ::core::result::Result<::quorums::Correctable<super::WatchResp>, ::quorums::Error>
    {
        ::quorums::call_types::correctable_call(ctx, req, super::KvStoreWatchMethod).await
    }
}

pub mod kv_store_server {
    //! Generated gorums server trait for `KvStore`.
    pub trait KvStoreServer: ::core::marker::Send + ::core::marker::Sync + 'static {
        fn get(&self, ctx: ::quorums::server::ServerCtx, req: super::GetReq)
            -> impl ::std::future::Future<Output = ::core::result::Result<::core::option::Option<super::GetResp>, ::tonic::Status>> + Send;
        fn watch(&self, ctx: ::quorums::server::ServerCtx, req: super::WatchReq)
            -> impl ::std::future::Future<Output = ::core::result::Result<(), ::tonic::Status>> + Send;
    }

    pub fn register_kv_store<S: KvStoreServer>(
        server: &mut ::quorums::server::Server,
        svc: ::std::sync::Arc<S>,
    ) {
        {
            let s = ::std::sync::Arc::clone(&svc);
            server.register_handler("/kv.KvStore/Get", move |ctx, req: super::GetReq| {
                let s = ::std::sync::Arc::clone(&s);
                async move { s.get(ctx, req).await }
            });
        }
        {
            let s = ::std::sync::Arc::clone(&svc);
            server.register_streaming_handler("/kv.KvStore/Watch", move |ctx, req: super::WatchReq| {
                let s = ::std::sync::Arc::clone(&s);
                async move { s.watch(ctx, req).await }
            });
        }
    }
}
"#;
    assert_eq!(code, expected);
}

#[test]
fn a_service_without_annotations() {
    let mut code = String::new();
    GorumsGenerator::new()
        .generate(service(vec![method("a", "A"), method("b", "B")]), &mut code);
    assert_eq!(
        code,
        "// [quorums] no annotation for /kv.KvStore/A — skipped\n\
         // [quorums] no annotation for /kv.KvStore/B — skipped\n"
    );
}

/// The traits that the handle of a call type implements, in order.
fn traits_of(call_type: CallType) -> Vec<String> {
    let mut code = String::new();
    emit_handle(&mut code, "H", &call_type, "Req", "Resp", "/p");
    assert!(code.starts_with(
        "/// Typed method handle for `/p`.\n#[derive(Clone, Copy)]\npub struct H;\n"
    ));
    code.lines()
        .filter_map(|l| l.strip_prefix("impl ::quorums::"))
        .map(|l| l.strip_suffix(" for H {").unwrap().to_string())
        .collect()
}

#[test]
fn handles_serve_their_sibling_calls() {
    assert_eq!(traits_of(CallType::RpcCall), ["RpcCallMethod"]);
    assert_eq!(traits_of(CallType::Unicast), ["UnicastMethod"]);
    assert_eq!(traits_of(CallType::Multicast), ["MulticastMethod", "UnicastMethod"]);
    assert_eq!(
        traits_of(CallType::QuorumCall),
        ["QuorumCallMethod", "OrderedQuorumCallMethod", "RpcCallMethod"]
    );
    assert_eq!(
        traits_of(CallType::OrderedQuorumCall),
        ["OrderedQuorumCallMethod", "QuorumCallMethod", "RpcCallMethod"]
    );
    assert_eq!(traits_of(CallType::Correctable), ["CorrectableMethod"]);
}

#[test]
fn impls_of_a_handle() {
    let one_way = |name: &str| {
        format!("impl ::quorums::{name} for H {{\n    type Req = Q;\n    const PATH: &'static str = \"/p\";\n}}\n")
    };
    let two_way = |name: &str| {
        format!("impl ::quorums::{name} for H {{\n    type Req = Q;\n    type Resp = R;\n    const PATH: &'static str = \"/p\";\n}}\n")
    };
    let mut code = String::new();
    emit_unicast_impl(&mut code, "H", "Q", "/p");
    emit_multicast_impl(&mut code, "H", "Q", "/p");
    emit_rpc_call_impl(&mut code, "H", "Q", "R", "/p");
    emit_qc_impl(&mut code, "H", "Q", "R", "/p");
    emit_oqc_impl(&mut code, "H", "Q", "R", "/p");
    emit_correctable_impl(&mut code, "H", "Q", "R", "/p");
    let expected = [
        one_way("UnicastMethod"),
        one_way("MulticastMethod"),
        two_way("RpcCallMethod"),
        two_way("QuorumCallMethod"),
        two_way("OrderedQuorumCallMethod"),
        two_way("CorrectableMethod"),
    ];
    assert_eq!(code, expected.concat());
}

#[test]
fn client_functions() {
    let function = |ctx: &str, result: &str, call: &str| {
        format!(
            "    pub async fn f(ctx: &::quorums::{ctx}, req: &Q)\n        -> ::core::result::Result<{result}, ::quorums::Error>\n    {{\n        ::quorums::call_types::{call}(ctx, req, super::H).await\n    }}\n"
        )
    };
    let mut code = String::new();
    client_fn_rpc(&mut code, "f", "Q", "R", "H");
    client_fn_unicast(&mut code, "f", "Q", "H");
    client_fn_multicast(&mut code, "f", "Q", "H");
    client_fn_qc(&mut code, "f", "Q", "R", "H");
    client_fn_oqc(&mut code, "f", "Q", "R", "H");
    client_fn_correctable(&mut code, "f", "Q", "R", "H");
    let expected = [
        function("node::NodeContext", "R", "rpc_call"),
        function("node::NodeContext", "()", "unicast"),
        function("config::ConfigContext", "()", "multicast"),
        function("config::ConfigContext", "::quorums::Responses<R>", "quorum_call"),
        function(
            "config::ConfigContext",
            "::quorums::OrderedResponses<R>",
            "ordered_quorum_call",
        ),
        function("config::ConfigContext", "::quorums::Correctable<R>", "correctable_call"),
    ];
    assert_eq!(code, expected.concat());
}

#[test]
fn server_functions_and_registration() {
    let function = |result: &str| {
        format!(
            "        fn f(&self, ctx: ::quorums::server::ServerCtx, req: Q)\n            -> impl ::std::future::Future<Output = ::core::result::Result<{result}, ::tonic::Status>> + Send;\n"
        )
    };
    let mut code = String::new();
    server_trait_fn_twoway(&mut code, "f", "Q", "R");
    server_trait_fn_oneway(&mut code, "f", "Q");
    server_trait_fn_correctable(&mut code, "f", "Q");
    let expected =
        [function("::core::option::Option<R>"), function("::core::option::Option<()>"), function("()")];
    assert_eq!(code, expected.concat());
    for (streaming, name) in [(false, "register_handler"), (true, "register_streaming_handler")] {
        let mut code = String::new();
        register_handler(&mut code, "/p", "f", "Q", streaming);
        assert!(code.contains(&format!(
            "            server.{name}(\"/p\", move |ctx, req: super::Q| {{\n"
        )));
    }
}
