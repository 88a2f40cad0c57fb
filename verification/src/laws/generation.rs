//! Laws of the code generator: what is generated for a service, told by the
//! properties of the ways in which a method can be called.

use vstd::prelude::*;

use crate::codegen::{
    any_annotated, call_type_of, char_is_uppercase, full_path_text, gather, generated_text,
    method_client_text, method_handle_text, method_register_text, method_server_text,
    service_text, skipped_text, snake_case, to_snake_case, CallType, GorumsGenerator, MethodView,
    Service,
};
use crate::table::{distinct_keys, lemma_with_entry, Table};

verus! {

// ── Names ─────────────────────────────────────────────────────────────────────

/// What the character at a position of a name becomes: it goes to ASCII lower
/// case, behind an underscore if it is upper case and not the first.
pub open spec fn snake_piece(name: Seq<char>, i: int) -> Seq<char> {
    let lower = if 'A' <= name[i] && name[i] <= 'Z' {
        (name[i] as int + 32) as char
    } else {
        name[i]
    };
    if i > 0 && char_is_uppercase(name[i]) {
        seq!['_', lower]
    } else {
        seq![lower]
    }
}

/// A name in snake case, put together of its characters.
pub open spec fn snake(name: Seq<char>) -> Seq<char> {
    Seq::new(name.len(), |i: int| snake_piece(name, i)).flatten()
}

proof fn lemma_snake(name: Seq<char>)
    ensures
        snake_case(name) == snake(name),
    decreases name.len(),
{
    let pieces = Seq::new(name.len(), |i: int| snake_piece(name, i));
    if name.len() == 0 {
        assert(snake_case(name) =~= snake(name));
    } else {
        let before = name.drop_last();
        let n = before.len() as int;
        let old_pieces = Seq::new(before.len(), |i: int| snake_piece(before, i));
        lemma_snake(before);
        assert(pieces =~= old_pieces.push(snake_piece(name, n)));
        old_pieces.lemma_flatten_push(snake_piece(name, n));
        assert(name[n] == name.last());
        assert(snake_case(name) =~= snake_case(before) + snake_piece(name, n));
    }
}

/// A name goes to snake case character by character: in ASCII lower case, and
/// with an underscore before each upper case character but the first.
pub proof fn law_snake_case(name: &str, r: String)
    requires
        call_ensures(to_snake_case, (name,), r),
    ensures
        r@ == Seq::new(name@.len(), |i: int| snake_piece(name@, i)).flatten(),
{
    lemma_snake(name@);
}

/// The path of a method: package, service and method, as in the `.proto` file.
pub open spec fn path_of(service: Service, i: int) -> Seq<char> {
    "/"@ + service.package@ + "."@ + service.proto_name@ + "/"@ + service.methods@[i].proto_name@
}

/// The name of the handle of a method.
pub open spec fn handle_of(service: Service, i: int) -> Seq<char> {
    service.name@ + service.methods@[i].proto_name@ + "Method"@
}

// ── Ways to call a method ─────────────────────────────────────────────────────

/// Whether the call goes to a single node.
pub open spec fn to_one_node(call_type: CallType) -> bool {
    call_type is RpcCall || call_type is Unicast
}

/// Whether the caller gets an answer.
pub open spec fn is_answered(call_type: CallType) -> bool {
    !(call_type is Unicast || call_type is Multicast)
}

/// The type of the context that the caller brings, in its place.
pub open spec fn context_text(call_type: CallType) -> Seq<char> {
    if to_one_node(call_type) {
        "(ctx: &::quorums::node::NodeContext, req: &"@
    } else {
        "(ctx: &::quorums::config::ConfigContext, req: &"@
    }
}

/// The result that the caller gets.
pub open spec fn result_text(call_type: CallType, resp: Seq<char>) -> Seq<char> {
    match call_type {
        CallType::RpcCall => "        -> ::core::result::Result<"@ + resp + ", ::quorums::Error>\n"@,
        CallType::QuorumCall => "        -> ::core::result::Result<::quorums::Responses<"@ + resp
            + ">, ::quorums::Error>\n"@,
        CallType::OrderedQuorumCall => "        -> ::core::result::Result<::quorums::OrderedResponses<"@
            + resp + ">, ::quorums::Error>\n"@,
        CallType::Correctable => "        -> ::core::result::Result<::quorums::Correctable<"@ + resp
            + ">, ::quorums::Error>\n"@,
        _ => "        -> ::core::result::Result<(), ::quorums::Error>\n"@,
    }
}

/// The call that the client function makes.
pub open spec fn call_text(call_type: CallType) -> Seq<char> {
    match call_type {
        CallType::RpcCall => "        ::quorums::call_types::rpc_call(ctx, req, super::"@,
        CallType::Unicast => "        ::quorums::call_types::unicast(ctx, req, super::"@,
        CallType::Multicast => "        ::quorums::call_types::multicast(ctx, req, super::"@,
        CallType::QuorumCall => "        ::quorums::call_types::quorum_call(ctx, req, super::"@,
        CallType::OrderedQuorumCall => "        ::quorums::call_types::ordered_quorum_call(ctx, req, super::"@,
        CallType::Correctable => "        ::quorums::call_types::correctable_call(ctx, req, super::"@,
    }
}

/// The client function of a method.
pub open spec fn client_fn(service: Service, i: int, call_type: CallType) -> Seq<char> {
    let method = service.methods@[i];
    "    pub async fn "@ + method.name@ + context_text(call_type) + ("super::"@
        + method.input_type@) + ")\n"@ + result_text(call_type, "super::"@ + method.output_type@)
        + "    {\n"@ + call_text(call_type) + handle_of(service, i) + ").await\n"@ + "    }\n"@
}

/// What the server hands back for a method.
pub open spec fn reply_text(call_type: CallType, resp: Seq<char>) -> Seq<char> {
    if call_type is Correctable {
        "            -> impl ::std::future::Future<Output = ::core::result::Result<(), ::tonic::Status>> + Send;\n"@
    } else if is_answered(call_type) {
        "            -> impl ::std::future::Future<Output = ::core::result::Result<::core::option::Option<"@
            + resp + ">, ::tonic::Status>> + Send;\n"@
    } else {
        "            -> impl ::std::future::Future<Output = ::core::result::Result<::core::option::Option<()>, ::tonic::Status>> + Send;\n"@
    }
}

/// The function of a method in the server trait.
pub open spec fn server_fn(service: Service, i: int, call_type: CallType) -> Seq<char> {
    let method = service.methods@[i];
    "        fn "@ + method.name@ + "(&self, ctx: ::quorums::server::ServerCtx, req: "@
        + ("super::"@ + method.input_type@) + ")\n"@ + reply_text(
        call_type,
        "super::"@ + method.output_type@,
    )
}

/// The registration of a method: as a streaming one exactly if it is
/// correctable.
pub open spec fn registration(service: Service, i: int, call_type: CallType) -> Seq<char> {
    let method = service.methods@[i];
    "        {\n"@ + "            let s = ::std::sync::Arc::clone(&svc);\n"@ + "            server."@
        + (if call_type is Correctable {
        "register_streaming_handler"@
    } else {
        "register_handler"@
    }) + "(\""@ + path_of(service, i) + "\", move |ctx, req: super::"@ + method.input_type@
        + "| {\n"@ + "                let s = ::std::sync::Arc::clone(&s);\n"@
        + "                async move { s."@ + method.name@ + "(ctx, req).await }\n"@
        + "            });\n"@ + "        }\n"@
}

/// The head of the impl of the trait for a way to call.
pub open spec fn impl_head(call_type: CallType) -> Seq<char> {
    match call_type {
        CallType::RpcCall => "impl ::quorums::RpcCallMethod for "@,
        CallType::Unicast => "impl ::quorums::UnicastMethod for "@,
        CallType::Multicast => "impl ::quorums::MulticastMethod for "@,
        CallType::QuorumCall => "impl ::quorums::QuorumCallMethod for "@,
        CallType::OrderedQuorumCall => "impl ::quorums::OrderedQuorumCallMethod for "@,
        CallType::Correctable => "impl ::quorums::CorrectableMethod for "@,
    }
}

/// The impl of the trait for a way to call, of the handle of a method: the
/// response is named exactly where there is one.
pub open spec fn handle_impl(service: Service, i: int, call_type: CallType) -> Seq<char> {
    let method = service.methods@[i];
    let request = impl_head(call_type) + handle_of(service, i) + " {\n"@ + "    type Req = "@
        + method.input_type@ + ";\n"@;
    let response = if is_answered(call_type) {
        request + "    type Resp = "@ + method.output_type@ + ";\n"@
    } else {
        request
    };
    response + "    const PATH: &'static str = \""@ + path_of(service, i) + "\";\n"@ + "}\n"@
}

/// The ways in which a method can be called that is annotated with one: both
/// kinds of quorum call serve for each other and for a plain call to one node,
/// and a multicast for a unicast.
pub open spec fn served_by(call_type: CallType) -> Seq<CallType> {
    match call_type {
        CallType::Multicast => seq![CallType::Multicast, CallType::Unicast],
        CallType::QuorumCall => seq![
            CallType::QuorumCall,
            CallType::OrderedQuorumCall,
            CallType::RpcCall,
        ],
        CallType::OrderedQuorumCall => seq![
            CallType::OrderedQuorumCall,
            CallType::QuorumCall,
            CallType::RpcCall,
        ],
        _ => seq![call_type],
    }
}

/// The handle of a method, with an impl for each way to call it.
pub open spec fn handle_decl(service: Service, i: int, call_type: CallType) -> Seq<char> {
    "/// Typed method handle for `"@ + path_of(service, i) + "`.\n"@ + "#[derive(Clone, Copy)]\n"@
        + "pub struct "@ + handle_of(service, i) + ";\n"@ + served_by(call_type).map_values(
        |by: CallType| handle_impl(service, i, by),
    ).flatten()
}

// ── Services ──────────────────────────────────────────────────────────────────

/// What each annotated method contributes, in order.
pub open spec fn of_annotated(
    found: Seq<Option<&CallType>>,
    piece: spec_fn(int, CallType) -> Seq<char>,
) -> Seq<char> {
    Seq::new(
        found.len(),
        |i: int|
            match found[i] {
                Some(call_type) => piece(i, *call_type),
                None => Seq::<char>::empty(),
            },
    ).flatten()
}

/// A comment for each method without annotation, in order.
pub open spec fn comments(service: Service, found: Seq<Option<&CallType>>) -> Seq<char> {
    Seq::new(
        found.len(),
        |i: int|
            match found[i] {
                Some(_) => Seq::<char>::empty(),
                None => "// [quorums] no annotation for "@ + path_of(service, i)
                    + " — skipped\n"@,
            },
    ).flatten()
}

/// The module with the client functions.
pub open spec fn client_module(name: Seq<char>, client_fns: Seq<char>) -> Seq<char> {
    "pub mod "@ + snake(name) + "_client {\n"@ + "    //! Generated gorums client for `"@ + name
        + "`.\n"@ + client_fns + "}\n"@
}

/// The server trait.
pub open spec fn server_trait(name: Seq<char>, server_fns: Seq<char>) -> Seq<char> {
    "    pub trait "@ + name + "Server: ::core::marker::Send + ::core::marker::Sync + 'static {\n"@
        + server_fns + "    }\n"@
}

/// The function that registers a server.
pub open spec fn register_fn(name: Seq<char>, registrations: Seq<char>) -> Seq<char> {
    "    pub fn register_"@ + snake(name) + "<S: "@ + name + "Server>(\n"@
        + "        server: &mut ::quorums::server::Server,\n"@
        + "        svc: ::std::sync::Arc<S>,\n"@ + "    ) {\n"@ + registrations + "    }\n"@
}

/// The module with the server trait and the registration of a server.
pub open spec fn server_module(
    name: Seq<char>,
    server_fns: Seq<char>,
    registrations: Seq<char>,
) -> Seq<char> {
    "pub mod "@ + snake(name) + "_server {\n"@ + "    //! Generated gorums server trait for `"@
        + name + "`.\n"@ + server_trait(name, server_fns) + "\n"@ + register_fn(
        name,
        registrations,
    ) + "}\n"@
}

/// The code for a service with annotated methods.
pub open spec fn service_code(service: Service, found: Seq<Option<&CallType>>) -> Seq<char> {
    of_annotated(found, |i: int, call_type: CallType| handle_decl(service, i, call_type)) + "\n"@
        + client_module(
        service.name@,
        of_annotated(found, |i: int, call_type: CallType| client_fn(service, i, call_type)),
    ) + "\n"@ + server_module(
        service.name@,
        of_annotated(found, |i: int, call_type: CallType| server_fn(service, i, call_type)),
        of_annotated(found, |i: int, call_type: CallType| registration(service, i, call_type)),
    )
}

/// Whether `found` are the annotations that the generator has for the methods
/// of a service, by their paths.
pub open spec fn annotations_found(
    generator: GorumsGenerator,
    service: Service,
    paths: Seq<&str>,
    found: Seq<Option<&CallType>>,
) -> bool {
    &&& paths.len() == service.methods@.len()
    &&& found.len() == service.methods@.len()
    &&& forall|i: int| 0 <= i < paths.len() ==> (#[trigger] paths[i])@ == path_of(service, i)
    &&& forall|i: int|
        0 <= i < paths.len() ==> call_ensures(
            Table::<CallType>::get,
            (&generator.methods, #[trigger] paths[i]),
            found[i],
        )
}

proof fn lemma_gather_is_flatten(
    methods: Seq<MethodView>,
    text: spec_fn(MethodView) -> Seq<char>,
    pieces: Seq<Seq<char>>,
)
    requires
        pieces.len() == methods.len(),
        forall|i: int| 0 <= i < methods.len() ==> text(methods[i]) == #[trigger] pieces[i],
    ensures
        gather(methods, text) == pieces.flatten(),
    decreases methods.len(),
{
    if methods.len() > 0 {
        let n = methods.len() - 1;
        let old_pieces = pieces.drop_last();
        assert forall|i: int| 0 <= i < n implies text(methods.drop_last()[i])
            == #[trigger] old_pieces[i] by {
            assert(old_pieces[i] == pieces[i]);
        }
        lemma_gather_is_flatten(methods.drop_last(), text, old_pieces);
        assert(pieces[n] == text(methods.last()));
        assert(pieces =~= old_pieces.push(pieces[n]));
        old_pieces.lemma_flatten_push(pieces[n]);
    } else {
        assert(gather(methods, text) =~= pieces.flatten());
    }
}

proof fn lemma_method_texts(
    annotations: Seq<(Seq<char>, CallType)>,
    service: Service,
    i: int,
    call_type: CallType,
)
    requires
        0 <= i < service.methods@.len(),
        call_type_of(annotations, service@, service.methods@[i]@) == Some(call_type),
    ensures
        method_client_text(annotations, service@, service.methods@[i]@) == client_fn(
            service,
            i,
            call_type,
        ),
        method_server_text(annotations, service@, service.methods@[i]@) == server_fn(
            service,
            i,
            call_type,
        ),
        method_register_text(annotations, service@, service.methods@[i]@) == registration(
            service,
            i,
            call_type,
        ),
{
    let method = service.methods@[i]@;
    assert(method_client_text(annotations, service@, method) =~= client_fn(service, i, call_type));
    assert(method_server_text(annotations, service@, method) =~= server_fn(service, i, call_type));
    assert(method_register_text(annotations, service@, method) =~= registration(
        service,
        i,
        call_type,
    ));
}

proof fn lemma_handle_decl(
    annotations: Seq<(Seq<char>, CallType)>,
    service: Service,
    i: int,
    call_type: CallType,
)
    requires
        0 <= i < service.methods@.len(),
        call_type_of(annotations, service@, service.methods@[i]@) == Some(call_type),
    ensures
        method_handle_text(annotations, service@, service.methods@[i]@) == handle_decl(
            service,
            i,
            call_type,
        ),
{
    let by = served_by(call_type);
    let impl_of = |by: CallType| handle_impl(service, i, by);
    let impls = by.map_values(impl_of);
    reveal_with_fuel(Seq::flatten, 4);
    if by.len() == 1 {
        assert(impls =~= seq![impl_of(by[0])]);
        assert(impls.flatten() =~= impl_of(by[0]));
    } else if by.len() == 2 {
        assert(impls.drop_first() =~= seq![impl_of(by[1])]);
        assert(impls.flatten() =~= impl_of(by[0]) + impl_of(by[1]));
    } else {
        assert(impls.drop_first() =~= seq![impl_of(by[1]), impl_of(by[2])]);
        assert(impls.drop_first().drop_first() =~= seq![impl_of(by[2])]);
        assert(impls.flatten() =~= impl_of(by[0]) + impl_of(by[1]) + impl_of(by[2]));
    }
    assert(method_handle_text(annotations, service@, service.methods@[i]@) =~= handle_decl(
        service,
        i,
        call_type,
    ));
}

proof fn lemma_of_annotated(
    methods: Seq<MethodView>,
    found: Seq<Option<&CallType>>,
    text: spec_fn(MethodView) -> Seq<char>,
    piece: spec_fn(int, CallType) -> Seq<char>,
)
    requires
        found.len() == methods.len(),
        forall|i: int|
            0 <= i < found.len() ==> match #[trigger] found[i] {
                Some(call_type) => text(methods[i]) == piece(i, *call_type),
                None => text(methods[i]) == Seq::<char>::empty(),
            },
    ensures
        gather(methods, text) == of_annotated(found, piece),
{
    let pieces = Seq::new(
        found.len(),
        |i: int|
            match found[i] {
                Some(call_type) => piece(i, *call_type),
                None => Seq::<char>::empty(),
            },
    );
    assert forall|i: int| 0 <= i < methods.len() implies text(methods[i]) == #[trigger] pieces[i] by {
        assert(found[i] is Some || found[i] is None);
    }
    lemma_gather_is_flatten(methods, text, pieces);
}

proof fn lemma_comments(
    service: Service,
    found: Seq<Option<&CallType>>,
    text: spec_fn(MethodView) -> Seq<char>,
)
    requires
        found.len() == service.methods@.len(),
        forall|i: int|
            0 <= i < found.len() ==> match #[trigger] found[i] {
                Some(_) => text(service.methods@[i]@) == Seq::<char>::empty(),
                None => text(service.methods@[i]@) == "// [quorums] no annotation for "@ + path_of(
                    service,
                    i,
                ) + " — skipped\n"@,
            },
    ensures
        gather(service@.methods, text) == comments(service, found),
{
    let pieces = Seq::new(
        found.len(),
        |i: int|
            match found[i] {
                Some(_) => Seq::<char>::empty(),
                None => "// [quorums] no annotation for "@ + path_of(service, i)
                    + " — skipped\n"@,
            },
    );
    let methods = service@.methods;
    assert forall|i: int| 0 <= i < methods.len() implies text(methods[i]) == #[trigger] pieces[i] by {
        assert(found[i] is Some || found[i] is None);
    }
    lemma_gather_is_flatten(methods, text, pieces);
}

proof fn lemma_generated(
    annotations: Seq<(Seq<char>, CallType)>,
    service: Service,
    found: Seq<Option<&CallType>>,
)
    requires
        found.len() == service.methods@.len(),
        forall|i: int|
            0 <= i < found.len() ==> match #[trigger] found[i] {
                Some(call_type) => call_type_of(annotations, service@, service.methods@[i]@)
                    == Some(*call_type),
                None => call_type_of(annotations, service@, service.methods@[i]@) is None,
            },
    ensures
        gather(service@.methods, |m: MethodView| skipped_text(annotations, service@, m))
            == comments(service, found),
        gather(service@.methods, |m: MethodView| method_handle_text(annotations, service@, m))
            == of_annotated(
            found,
            |i: int, call_type: CallType| handle_decl(service, i, call_type),
        ),
        gather(service@.methods, |m: MethodView| method_client_text(annotations, service@, m))
            == of_annotated(
            found,
            |i: int, call_type: CallType| client_fn(service, i, call_type),
        ),
        gather(service@.methods, |m: MethodView| method_server_text(annotations, service@, m))
            == of_annotated(
            found,
            |i: int, call_type: CallType| server_fn(service, i, call_type),
        ),
        gather(service@.methods, |m: MethodView| method_register_text(annotations, service@, m))
            == of_annotated(
            found,
            |i: int, call_type: CallType| registration(service, i, call_type),
        ),
{
    let svc = service@;
    assert forall|i: int| 0 <= i < found.len() && (#[trigger] found[i]) is Some implies {
        let call_type = *found[i]->0;
        &&& method_handle_text(annotations, svc, svc.methods[i]) == handle_decl(
            service,
            i,
            call_type,
        )
        &&& method_client_text(annotations, svc, svc.methods[i]) == client_fn(service, i, call_type)
        &&& method_server_text(annotations, svc, svc.methods[i]) == server_fn(service, i, call_type)
        &&& method_register_text(annotations, svc, svc.methods[i]) == registration(
            service,
            i,
            call_type,
        )
    } by {
        lemma_method_texts(annotations, service, i, *found[i]->0);
        lemma_handle_decl(annotations, service, i, *found[i]->0);
    }
    lemma_comments(service, found, |m: MethodView| skipped_text(annotations, svc, m));
    lemma_of_annotated(
        svc.methods,
        found,
        |m: MethodView| method_handle_text(annotations, svc, m),
        |i: int, call_type: CallType| handle_decl(service, i, call_type),
    );
    lemma_of_annotated(
        svc.methods,
        found,
        |m: MethodView| method_client_text(annotations, svc, m),
        |i: int, call_type: CallType| client_fn(service, i, call_type),
    );
    lemma_of_annotated(
        svc.methods,
        found,
        |m: MethodView| method_server_text(annotations, svc, m),
        |i: int, call_type: CallType| server_fn(service, i, call_type),
    );
    lemma_of_annotated(
        svc.methods,
        found,
        |m: MethodView| method_register_text(annotations, svc, m),
        |i: int, call_type: CallType| registration(service, i, call_type),
    );
}

proof fn lemma_regroup(a: Seq<char>, b: Seq<char>, c: Seq<char>)
    ensures
        a + (b + c) == a + b + c,
{
    assert(a + (b + c) =~= a + b + c);
}

proof fn lemma_service_text(
    name: Seq<char>,
    handles: Seq<char>,
    client_fns: Seq<char>,
    server_fns: Seq<char>,
    registrations: Seq<char>,
)
    ensures
        service_text(name, handles, client_fns, server_fns, registrations) == handles + "\n"@
            + client_module(name, client_fns) + "\n"@ + server_module(
            name,
            server_fns,
            registrations,
        ),
{
    lemma_snake(name);
    let a = handles + "\n"@;
    let client = "pub mod "@ + snake(name) + "_client {\n"@
        + "    //! Generated gorums client for `"@ + name + "`.\n"@ + client_fns + "}\n"@;
    let b = a + "pub mod "@ + snake(name) + "_client {\n"@
        + "    //! Generated gorums client for `"@ + name + "`.\n"@ + client_fns + "}\n"@;
    assert(b =~= a + client);
    let c = b + "\n"@;
    let head = "pub mod "@ + snake(name) + "_server {\n"@
        + "    //! Generated gorums server trait for `"@ + name + "`.\n"@;
    let d = c + "pub mod "@ + snake(name) + "_server {\n"@
        + "    //! Generated gorums server trait for `"@ + name + "`.\n"@;
    assert(d =~= c + head);
    let e = d + "    pub trait "@ + name
        + "Server: ::core::marker::Send + ::core::marker::Sync + 'static {\n"@ + server_fns
        + "    }\n"@;
    assert(e =~= d + server_trait(name, server_fns));
    let f = e + "\n"@;
    let g = f + "    pub fn register_"@ + snake(name) + "<S: "@ + name + "Server>(\n"@
        + "        server: &mut ::quorums::server::Server,\n"@
        + "        svc: ::std::sync::Arc<S>,\n"@ + "    ) {\n"@ + registrations + "    }\n"@;
    assert(g =~= f + register_fn(name, registrations));
    assert(service_text(name, handles, client_fns, server_fns, registrations) == g + "}\n"@);
    lemma_regroup(c, head, server_trait(name, server_fns));
    lemma_regroup(c, head + server_trait(name, server_fns), "\n"@);
    lemma_regroup(
        c,
        head + server_trait(name, server_fns) + "\n"@,
        register_fn(name, registrations),
    );
    lemma_regroup(
        c,
        head + server_trait(name, server_fns) + "\n"@ + register_fn(name, registrations),
        "}\n"@,
    );
}

/// The code for a service is what its annotations call for: a comment for each
/// method without annotation; then, if there is a method with one, a handle, a
/// client function, a function of the server trait and a registration for each
/// annotated method, each in the form of its way to be called. It is appended
/// to what was there.
pub proof fn law_generated_code(
    generator: GorumsGenerator,
    service: Service,
    buf: &mut String,
    paths: Seq<&str>,
    found: Seq<Option<&CallType>>,
)
    requires
        call_ensures(GorumsGenerator::generate, (&generator, service, buf), ()),
        annotations_found(generator, service, paths, found),
    ensures
        (exists|i: int| 0 <= i < found.len() && (#[trigger] found[i]) is Some) ==> final(buf)@
            == old(buf)@ + (comments(service, found) + service_code(service, found)),
        (forall|i: int| 0 <= i < found.len() ==> (#[trigger] found[i]) is None) ==> final(buf)@
            == old(buf)@ + comments(service, found),
{
    let annotations = generator.methods@;
    let svc = service@;
    assert forall|i: int| 0 <= i < found.len() implies match #[trigger] found[i] {
        Some(call_type) => call_type_of(annotations, svc, service.methods@[i]@) == Some(*call_type),
        None => call_type_of(annotations, svc, service.methods@[i]@) is None,
    } by {
        assert(paths[i]@ == path_of(service, i));
        assert(full_path_text(svc, svc.methods[i]) == path_of(service, i));
    }
    lemma_generated(annotations, service, found);
    lemma_snake(service.name@);
    if exists|i: int| 0 <= i < found.len() && (#[trigger] found[i]) is Some {
        let i = choose|i: int| 0 <= i < found.len() && (#[trigger] found[i]) is Some;
        assert(call_type_of(annotations, svc, svc.methods[i]) is Some);
        assert(any_annotated(annotations, svc));
        let handles = of_annotated(
            found,
            |i: int, call_type: CallType| handle_decl(service, i, call_type),
        );
        let clients = of_annotated(
            found,
            |i: int, call_type: CallType| client_fn(service, i, call_type),
        );
        let servers = of_annotated(
            found,
            |i: int, call_type: CallType| server_fn(service, i, call_type),
        );
        let calls = of_annotated(
            found,
            |i: int, call_type: CallType| registration(service, i, call_type),
        );
        assert(generated_text(annotations, svc) == comments(service, found) + service_text(
            svc.name,
            handles,
            clients,
            servers,
            calls,
        ));
        lemma_service_text(svc.name, handles, clients, servers, calls);
    }
    if forall|i: int| 0 <= i < found.len() ==> (#[trigger] found[i]) is None {
        assert(!any_annotated(annotations, svc)) by {
            if any_annotated(annotations, svc) {
                let i = choose|i: int|
                    0 <= i < svc.methods.len() && call_type_of(
                        annotations,
                        svc,
                        #[trigger] svc.methods[i],
                    ) is Some;
                assert(found[i] is None);
            }
        }
        assert(generated_text(annotations, svc) =~= comments(service, found));
    }
}

/// Whether a text occurs in another.
pub open spec fn occurs_in(part: Seq<char>, whole: Seq<char>) -> bool {
    exists|before: Seq<char>, after: Seq<char>| whole == #[trigger] (before + part + after)
}

proof fn lemma_occurs_in_sum(part: Seq<char>, a: Seq<char>, b: Seq<char>)
    requires
        occurs_in(part, a) || occurs_in(part, b),
    ensures
        occurs_in(part, a + b),
{
    if occurs_in(part, a) {
        let (before, after) = choose|before: Seq<char>, after: Seq<char>|
            a == #[trigger] (before + part + after);
        assert(a + b =~= before + part + (after + b));
    } else {
        let (before, after) = choose|before: Seq<char>, after: Seq<char>|
            b == #[trigger] (before + part + after);
        assert(a + b =~= (a + before) + part + after);
    }
}

proof fn lemma_occurs_in_itself(part: Seq<char>)
    ensures
        occurs_in(part, part),
{
    assert(part =~= Seq::<char>::empty() + part + Seq::<char>::empty());
}

proof fn lemma_occurs_in_flatten(pieces: Seq<Seq<char>>, i: int)
    requires
        0 <= i < pieces.len(),
    ensures
        occurs_in(pieces[i], pieces.flatten()),
    decreases pieces.len(),
{
    if i == 0 {
        lemma_occurs_in_itself(pieces[0]);
    } else {
        lemma_occurs_in_flatten(pieces.drop_first(), i - 1);
    }
    lemma_occurs_in_sum(pieces[i], pieces.first(), pieces.drop_first().flatten());
}

/// The client function of an annotated method makes the call of its own kind,
/// with the context and the result of that kind: it occurs in the code with
/// exactly this head, result and call.
pub proof fn law_client_makes_its_call(
    generator: GorumsGenerator,
    service: Service,
    buf: &mut String,
    paths: Seq<&str>,
    found: Seq<Option<&CallType>>,
    i: int,
)
    requires
        call_ensures(GorumsGenerator::generate, (&generator, service, buf), ()),
        annotations_found(generator, service, paths, found),
        0 <= i < found.len(),
    ensures
        found[i] matches Some(call_type) ==> occurs_in(
            "    pub async fn "@ + service.methods@[i].name@ + context_text(*call_type) + ("super::"@
                + service.methods@[i].input_type@) + ")\n"@ + result_text(
                *call_type,
                "super::"@ + service.methods@[i].output_type@,
            ) + "    {\n"@ + call_text(*call_type) + handle_of(service, i) + ").await\n"@
                + "    }\n"@,
            final(buf)@,
        ),
{
    if let Some(call_type) = found[i] {
        law_generated_code(generator, service, buf, paths, found);
        let part = client_fn(service, i, *call_type);
        let pieces = Seq::new(
            found.len(),
            |j: int|
                match found[j] {
                    Some(call_type) => (|k: int, by: CallType| client_fn(service, k, by))(
                        j,
                        *call_type,
                    ),
                    None => Seq::<char>::empty(),
                },
        );
        let name = service.name@;
        let handles = of_annotated(
            found,
            |i: int, call_type: CallType| handle_decl(service, i, call_type),
        );
        let clients = of_annotated(
            found,
            |i: int, call_type: CallType| client_fn(service, i, call_type),
        );
        let server = server_module(
            name,
            of_annotated(found, |i: int, call_type: CallType| server_fn(service, i, call_type)),
            of_annotated(found, |i: int, call_type: CallType| registration(service, i, call_type)),
        );
        assert(pieces[i] == part);
        lemma_occurs_in_flatten(pieces, i);
        assert(pieces.flatten() == clients);
        let head = "pub mod "@ + snake(name) + "_client {\n"@
            + "    //! Generated gorums client for `"@ + name + "`.\n"@;
        lemma_occurs_in_sum(part, head, clients);
        lemma_occurs_in_sum(part, head + clients, "}\n"@);
        lemma_occurs_in_sum(part, handles + "\n"@, client_module(name, clients));
        lemma_occurs_in_sum(part, handles + "\n"@ + client_module(name, clients), "\n"@);
        lemma_occurs_in_sum(part, handles + "\n"@ + client_module(name, clients) + "\n"@, server);
        lemma_occurs_in_sum(part, comments(service, found), service_code(service, found));
        lemma_occurs_in_sum(
            part,
            old(buf)@,
            comments(service, found) + service_code(service, found),
        );
    }
}

/// Calls of different kinds are written differently.
pub proof fn law_calls_differ(a: CallType, b: CallType)
    requires
        a != b,
    ensures
        call_text(a) != call_text(b),
        impl_head(a) != impl_head(b),
{
    reveal_strlit("        ::quorums::call_types::rpc_call(ctx, req, super::");
    reveal_strlit("        ::quorums::call_types::unicast(ctx, req, super::");
    reveal_strlit("        ::quorums::call_types::multicast(ctx, req, super::");
    reveal_strlit("        ::quorums::call_types::quorum_call(ctx, req, super::");
    reveal_strlit("        ::quorums::call_types::ordered_quorum_call(ctx, req, super::");
    reveal_strlit("        ::quorums::call_types::correctable_call(ctx, req, super::");
    reveal_strlit("impl ::quorums::RpcCallMethod for ");
    reveal_strlit("impl ::quorums::UnicastMethod for ");
    reveal_strlit("impl ::quorums::MulticastMethod for ");
    reveal_strlit("impl ::quorums::QuorumCallMethod for ");
    reveal_strlit("impl ::quorums::OrderedQuorumCallMethod for ");
    reveal_strlit("impl ::quorums::CorrectableMethod for ");
    assert(call_text(a).len() != call_text(b).len());
    assert(impl_head(a)[16] != impl_head(b)[16]);
}

/// A generator uses the annotation that a path was given last, and forgets
/// none of the others; a new one has none.
pub proof fn law_annotations_are_kept(
    fresh: GorumsGenerator,
    generator: &mut GorumsGenerator,
    path: String,
    call_type: CallType,
    other: &str,
    at_first: Option<&CallType>,
    before: Option<&CallType>,
    after: Option<&CallType>,
)
    requires
        call_ensures(GorumsGenerator::new, (), fresh),
        call_ensures(Table::<CallType>::get, (&fresh.methods, other), at_first),
        distinct_keys(old(generator).methods@),
        call_ensures(Table::<CallType>::get, (&old(generator).methods, other), before),
        call_ensures(GorumsGenerator::method, (generator, path, call_type), ()),
        call_ensures(Table::<CallType>::get, (&final(generator).methods, other), after),
    ensures
        at_first is None,
        after == if other@ == path@ {
            Some(&call_type)
        } else {
            before
        },
{
    lemma_with_entry(old(generator).methods@, path@, call_type);
}

} // verus!
