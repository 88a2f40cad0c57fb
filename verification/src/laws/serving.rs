//! Laws of the server: its interceptors and handlers, the messages that answer
//! a request, and the order of a stream.

use vstd::prelude::*;

use tokio::sync::{mpsc, OwnedMutexGuard};

use crate::channel::{receive_step, Inbound};
use crate::error::Error;
use crate::health::HealthCheckResponse;
use crate::interceptor::{run, run_server, CallInfo, ChainRun, ChainStep, ServerCallInfo};
use crate::laws::connection::{delivered, law_receive_step};
use crate::message::{Message, MessageView};
use crate::ordering::{stream_loop, LoopAction, LoopEvent};
use crate::record::queued;
use crate::router::Router;
use crate::server::{
    end_stream, failure_message, failure_of, handler_reply, health_check, pushed, reply_message,
    reply_view, request_of, response_views, stream_done_message, stream_end_views, Dispatch, Handler, Locked,
    Released, Responder, ResponseSender, Server, ServerCtx,
};
use crate::status::{plain_status, status_display, Status, CODE_UNAVAILABLE};
use crate::table::{
    distinct_keys, entries_view, lemma_lookup_first, lemma_lookup_none, lemma_with_entry,
};

verus! {

// ── Interceptors ──────────────────────────────────────────────────────────────

/// A chain starts with its first interceptor; an empty one lets every call
/// pass.
pub proof fn law_chain_starts<I, E>(
    chain: Vec<I>,
    client: ChainRun,
    server: ChainRun,
    client_step: ChainStep<E>,
    server_step: ChainStep<E>,
)
    requires
        call_ensures(run::<I>, (&chain,), client),
        call_ensures(ChainRun::step::<E>, (&client,), client_step),
        call_ensures(run_server::<I>, (&chain,), server),
        call_ensures(ChainRun::step::<E>, (&server,), server_step),
    ensures
        chain@.len() > 0 ==> client_step == ChainStep::<E>::Invoke(0),
        chain@.len() == 0 ==> client_step == ChainStep::Done(Ok::<(), E>(())),
        client.len == chain@.len() && client.passed == 0,
        server == client && server_step == client_step,
{
    if chain@.len() == 0 {
        assert(client_step == ChainStep::Done(Ok::<(), E>(())));
    }
}

/// An interceptor that fails ends the chain with its error; after one that
/// lets the call pass, the next one has its turn, and after the last one the
/// call passes.
pub proof fn law_chain_goes_on<E>(
    chain: &mut ChainRun,
    outcome: Result<(), E>,
    step: ChainStep<E>,
)
    requires
        old(chain).passed < old(chain).len,
        call_ensures(ChainRun::on_verdict::<E>, (chain, outcome), step),
    ensures
        outcome matches Err(e) ==> step == ChainStep::Done(Err::<(), E>(e)),
        outcome is Ok && old(chain).passed + 1 < old(chain).len ==> step == ChainStep::<E>::Invoke(
            (old(chain).passed + 1) as usize,
        ),
        outcome is Ok && old(chain).passed + 1 == old(chain).len ==> (step matches ChainStep::Done(
            r,
        ) && r is Ok),
        outcome is Ok ==> final(chain).passed == old(chain).passed + 1,
        final(chain).len == old(chain).len,
{
}

/// Each interceptor runs once, in order: where two invocations follow each
/// other the second is of the interceptor after the first.
pub proof fn law_chain_in_order<E>(
    chain: &mut ChainRun,
    first: Result<(), E>,
    step: ChainStep<E>,
    next: &mut ChainRun,
    second: Result<(), E>,
    next_step: ChainStep<E>,
    i: usize,
    j: usize,
)
    requires
        old(chain).passed < old(chain).len,
        call_ensures(ChainRun::on_verdict::<E>, (chain, first), step),
        step == ChainStep::<E>::Invoke(i),
        *old(next) == *final(chain),
        call_ensures(ChainRun::on_verdict::<E>, (next, second), next_step),
        next_step == ChainStep::<E>::Invoke(j),
    ensures
        first is Ok && second is Ok,
        i == old(chain).passed + 1,
        j == i + 1,
        j < old(chain).len,
{
}

/// What interceptors are told is copied as it is.
pub proof fn law_call_infos_are_copied(
    info: CallInfo,
    copy: CallInfo,
    server_info: ServerCallInfo,
    server_copy: ServerCallInfo,
)
    requires
        call_ensures(<CallInfo as Clone>::clone, (&info,), copy),
        call_ensures(<ServerCallInfo as Clone>::clone, (&server_info,), server_copy),
    ensures
        copy.method@ == info.method@,
        copy.node_ids@ == info.node_ids@,
        copy.metadata@.len() == info.metadata@.len(),
        forall|i: int|
            0 <= i < info.metadata@.len() ==> (#[trigger] copy.metadata@[i]).0@
                == info.metadata@[i].0@ && copy.metadata@[i].1 == info.metadata@[i].1,
        server_copy == server_info,
{
    let a = info.metadata@;
    let b = copy.metadata@;
    assert(entries_view(a).len() == a.len() && entries_view(b).len() == b.len());
    assert forall|i: int| 0 <= i < a.len() implies (#[trigger] b[i]).0@ == a[i].0@ && b[i].1
        == a[i].1 by {
        assert(entries_view(a)[i] == (a[i].0@, a[i].1));
        assert(entries_view(b)[i] == (b[i].0@, b[i].1));
    }
}

// ── Messages ──────────────────────────────────────────────────────────────────

/// Whether a message answers the request with this number and method, with
/// this status, text and payload. Responses carry no metadata.
pub open spec fn responds(
    msg: Message,
    seq: u64,
    method: Seq<char>,
    code: int,
    text: Seq<char>,
    payload: Seq<u8>,
) -> bool {
    &&& msg.message_seq_no == seq
    &&& msg.method@ == method
    &&& msg.status_code == code
    &&& msg.status_message@ == text
    &&& msg.payload@ == payload
    &&& msg.metadata@.len() == 0
}

/// A reply has status 0 and the payload; a failure has the code and the
/// message of its status and no payload; the mark of the end of a stream has
/// a status that is no code. Each has the number and the method of the
/// request.
pub proof fn law_response_messages(
    seq: u64,
    method: &str,
    payload: Vec<u8>,
    status: Status,
    code: i32,
    text: &str,
    reply: Message,
    failure: Message,
    done: Message,
)
    requires
        call_ensures(reply_message, (seq, method, payload), reply),
        call_ensures(Status::code, (&status,), code),
        call_ensures(Status::message, (&status,), text),
        call_ensures(failure_message, (seq, method, &status), failure),
        call_ensures(stream_done_message, (seq, method), done),
    ensures
        responds(reply, seq, method@, 0, Seq::<char>::empty(), payload@),
        responds(failure, seq, method@, code as int, text@, Seq::<u8>::empty()),
        responds(done, seq, method@, 0xFFFF_FFFEint, Seq::<char>::empty(), Seq::<u8>::empty()),
        0 <= code <= 16,
{
}

/// A handler that answers sends a reply, one that fails sends its status, and
/// one that does neither sends nothing.
pub proof fn law_handler_reply(
    wire: Message,
    outcome: Result<Option<Vec<u8>>, Status>,
    r: Option<Message>,
)
    requires
        call_ensures(handler_reply, (&wire, outcome), r),
    ensures
        r is None <==> (outcome matches Ok(answer) && answer is None),
        outcome matches Ok(Some(payload)) ==> (r matches Some(msg) && responds(
            msg,
            wire.message_seq_no,
            wire.method@,
            0,
            Seq::<char>::empty(),
            payload@,
        )),
        forall|status: Status, code: i32, text: &str|
            #![trigger call_ensures(Status::code, (&status,), code), call_ensures(Status::message, (&status,), text)]
            outcome == Err::<Option<Vec<u8>>, Status>(status) && call_ensures(
                Status::code,
                (&status,),
                code,
            ) && call_ensures(Status::message, (&status,), text) ==> (r matches Some(msg)
                && responds(
                msg,
                wire.message_seq_no,
                wire.method@,
                code as int,
                text@,
                Seq::<u8>::empty(),
            )),
{
}

/// A failure reaches the client as it is: the error that the caller gets has
/// the code and the message of the status of the server.
pub proof fn law_failure_reaches_caller(
    seq: u64,
    method: &str,
    status: Status,
    code: i32,
    text: &str,
    failure: Message,
    router: &mut Router,
    more: bool,
)
    requires
        call_ensures(Status::code, (&status,), code),
        call_ensures(Status::message, (&status,), text),
        call_ensures(failure_message, (seq, method, &status), failure),
        call_ensures(receive_step, (Inbound::Message(failure), router), more),
        code != 0,
    ensures
        more,
        exists|got: Status|
            {
                &&& got@.code == code
                &&& got@.message == text@
                &&& #[trigger] delivered(
                    *old(router),
                    *final(router),
                    seq,
                    Err(Error::Transport(got)),
                )
            },
{
    law_receive_step(Inbound::Message(failure), router, more, seq);
}

/// A reply reaches the caller of its request as it is, and the mark of the end
/// of a stream closes that stream.
pub proof fn law_reply_reaches_caller(
    seq: u64,
    method: &str,
    payload: Vec<u8>,
    reply: Message,
    router: &mut Router,
    more: bool,
    done: Message,
    closing: &mut Router,
    closed: bool,
)
    requires
        call_ensures(reply_message, (seq, method, payload), reply),
        call_ensures(receive_step, (Inbound::Message(reply), router), more),
        call_ensures(stream_done_message, (seq, method), done),
        call_ensures(receive_step, (Inbound::Message(done), closing), closed),
    ensures
        more,
        delivered(*old(router), *final(router), seq, Ok(reply)),
        reply.payload@ == payload@,
        closed,
        final(closing)@ == old(closing)@.remove(seq),
{
    law_receive_step(Inbound::Message(reply), router, more, seq);
}

/// After the handler of a stream has returned, the client gets its status if
/// it failed, and then, always and last, the mark of the end of the stream.
pub proof fn law_end_stream(
    out: &mut Responder,
    seq: u64,
    method: &str,
    outcome: Result<(), Status>,
    i: int,
)
    requires
        call_ensures(end_stream, (out, seq, method, outcome), ()),
    ensures
        final(out).sender() == old(out).sender(),
        final(out).sent().len() == old(out).sent().len() + if outcome is Err {
            2int
        } else {
            1int
        },
        final(out).sent().last() matches Ok(done) && responds(
            done,
            seq,
            method@,
            0xFFFF_FFFEint,
            Seq::<char>::empty(),
            Seq::<u8>::empty(),
        ),
        outcome matches Err(status) ==> (final(out).sent()[old(out).sent().len() as int] matches Ok(
            failure,
        ) && responds(
            failure,
            seq,
            method@,
            (status@.code as u32) as int,
            status@.message,
            Seq::<u8>::empty(),
        )),
        0 <= i < old(out).sent().len() ==> match old(out).sent()[i] {
            Ok(before) => final(out).sent()[i] matches Ok(after) && after@ == before@,
            Err(_) => final(out).sent()[i] is Err,
        },
{
    let before = old(out).sent();
    let after = final(out).sent();
    let ends = stream_end_views(seq, method@, failure_of(outcome)).map_values(
        |m: MessageView| Some(m),
    );
    let old_views = response_views(before);
    let views = response_views(after);
    assert(views == old_views + ends);
    assert(views.len() == after.len() && old_views.len() == before.len());
    let last = after.len() - 1;
    assert(views[last] == ends.last());
    assert(views[last] == match after[last] {
        Ok(msg) => Some(msg@),
        Err(_) => None,
    });
    if outcome is Err {
        let n = before.len() as int;
        assert(views[n] == ends[0]);
        assert(views[n] == match after[n] {
            Ok(msg) => Some(msg@),
            Err(_) => None,
        });
    }
    if 0 <= i < before.len() {
        assert(views[i] == old_views[i]);
    }
}

// ── Contexts of handlers ──────────────────────────────────────────────────────

/// The context of a request holds the ordering lock, the response channel, and
/// the number, the method and the metadata of the request; releasing it gives
/// up the lock and nothing else.
pub proof fn law_handler_context(
    guard: OwnedMutexGuard<()>,
    out: Responder,
    wire: Message,
    ctx: ServerCtx<Locked>,
    released: ServerCtx<Released>,
)
    requires
        call_ensures(ServerCtx::<Locked>::new, (guard, out, &wire), ctx),
        call_ensures(ServerCtx::<Locked>::release, (ctx,), released),
    ensures
        ctx.lock() == Some(guard),
        released.lock() is None,
        ctx.response_tx() == out.sender() && released.response_tx() == out.sender(),
        ctx.responses() == out.sent() && released.responses() == out.sent(),
        ctx.seq_no() == wire.message_seq_no && released.seq_no() == wire.message_seq_no,
        ctx.method_path() == wire.method@ && released.method_path() == wire.method@,
        released.entries() == ctx.entries(),
        ctx.entries().len() == wire.metadata@.len(),
        forall|i: int|
            0 <= i < ctx.entries().len() ==> (#[trigger] ctx.entries()[i]).0@
                == wire.metadata@[i].0 && ctx.entries()[i].1 == wire.metadata@[i].1,
{
    let entries = ctx.entries();
    assert(entries_view(entries).len() == entries.len());
    assert forall|i: int| 0 <= i < entries.len() implies (#[trigger] entries[i]).0@
        == wire.metadata@[i].0 && entries[i].1 == wire.metadata@[i].1 by {
        assert(entries_view(entries)[i] == (entries[i].0@, entries[i].1));
    }
}

/// A handler finds the first value under a key, and nothing under a key that
/// was not sent.
pub proof fn law_metadata_get<S>(
    ctx: ServerCtx<S>,
    all: &[(String, String)],
    key: &str,
    r: Option<&str>,
)
    requires
        call_ensures(ServerCtx::<S>::metadata, (&ctx,), all),
        call_ensures(ServerCtx::<S>::metadata_get, (&ctx, key), r),
    ensures
        r is None <==> forall|i: int| 0 <= i < all@.len() ==> (#[trigger] all@[i]).0@ != key@,
        r matches Some(value) ==> exists|i: int|
            {
                &&& 0 <= i < all@.len()
                &&& (#[trigger] all@[i]).0@ == key@
                &&& all@[i].1@ == value@
                &&& forall|j: int| 0 <= j < i ==> (#[trigger] all@[j]).0@ != key@
            },
{
    let entries = entries_view(all@);
    assert forall|i: int| 0 <= i < all@.len() implies #[trigger] entries[i] == (
        all@[i].0@,
        all@[i].1,
    ) by {}
    if forall|i: int| 0 <= i < all@.len() ==> (#[trigger] all@[i]).0@ != key@ {
        assert forall|i: int| 0 <= i < entries.len() implies (#[trigger] entries[i]).0 != key@ by {
            assert(all@[i].0@ != key@);
        }
        lemma_lookup_none(entries, key@);
    } else {
        let i = lemma_first_entry(all@, key@);
        assert forall|j: int| 0 <= j < i implies (#[trigger] entries[j]).0 != key@ by {
            assert(all@[j].0@ != key@);
        }
        lemma_lookup_first(entries, key@, i);
    }
}

proof fn lemma_first_entry(entries: Seq<(String, String)>, key: Seq<char>) -> (i: int)
    requires
        exists|i: int| 0 <= i < entries.len() && (#[trigger] entries[i]).0@ == key,
    ensures
        0 <= i < entries.len(),
        entries[i].0@ == key,
        forall|j: int| 0 <= j < i ==> (#[trigger] entries[j]).0@ != key,
    decreases entries.len(),
{
    if exists|i: int| 0 <= i < entries.len() - 1 && (#[trigger] entries[i]).0@ == key {
        let before = entries.drop_last();
        let i = choose|i: int| 0 <= i < entries.len() - 1 && (#[trigger] entries[i]).0@ == key;
        assert(before[i].0@ == key);
        let first = lemma_first_entry(before, key);
        assert forall|j: int| 0 <= j < first implies (#[trigger] entries[j]).0@ != key by {
            assert(before[j] == entries[j]);
        }
        first
    } else {
        entries.len() - 1
    }
}

/// Whether a message was put into a response channel; `taken` is whether the
/// channel took it.
pub open spec fn was_pushed(tx: ResponseSender, msg: Message, taken: bool) -> bool {
    exists|sent: Result<(), mpsc::error::SendError<Result<Message, Status>>>| #[trigger]
        queued(tx, Ok(msg), sent) && (taken <==> sent is Ok)
}

/// A handler that sends a payload pushes one reply to its own request, behind
/// those before it; it fails, as unavailable, exactly if the stream does not
/// take it. Nothing else in its context changes.
pub proof fn law_handler_sends<S>(
    ctx: &mut ServerCtx<S>,
    payload: Vec<u8>,
    r: Result<(), Status>,
)
    requires
        call_ensures(ServerCtx::<S>::send, (ctx, payload), r),
    ensures
        final(ctx).responses().len() == old(ctx).responses().len() + 1,
        final(ctx).responses().drop_last() == old(ctx).responses(),
        final(ctx).responses().last() matches Ok(msg) && responds(
            msg,
            old(ctx).seq_no(),
            old(ctx).method_path(),
            0,
            Seq::<char>::empty(),
            payload@,
        ) && was_pushed(old(ctx).response_tx(), msg, r is Ok),
        r matches Err(status) ==> status@.code == 14 && status@.message == "stream closed"@
            && status@.text == status_display(14, "stream closed"@),
        final(ctx).lock() == old(ctx).lock(),
        final(ctx).response_tx() == old(ctx).response_tx(),
        final(ctx).seq_no() == old(ctx).seq_no(),
        final(ctx).method_path() == old(ctx).method_path(),
        final(ctx).entries() == old(ctx).entries(),
{
    let (msg, sent) = choose|
        msg: Message,
        sent: Result<(), mpsc::error::SendError<Result<Message, Status>>>,
    |
        {
            &&& msg@ == reply_view(
                old(ctx).seq_no(),
                old(ctx).method_path(),
                payload@,
            )
            &&& #[trigger] pushed(old(ctx).response_tx(), msg, sent)
            &&& final(ctx).responses() == old(ctx).responses().push(Ok(msg))
            &&& match sent {
                Ok(_) => r is Ok,
                Err(_) => r matches Err(status) && status@ == plain_status(
                    CODE_UNAVAILABLE,
                    "stream closed"@,
                ),
            }
        };
    assert(final(ctx).responses().drop_last() =~= old(ctx).responses());
    assert(final(ctx).responses().last() == Ok::<Message, Status>(msg));
    assert(responds(
        msg,
        old(ctx).seq_no(),
        old(ctx).method_path(),
        0,
        Seq::<char>::empty(),
        payload@,
    ));
    assert(queued(old(ctx).response_tx(), Ok(msg), sent) && (r is Ok <==> sent is Ok));
    assert(was_pushed(old(ctx).response_tx(), msg, r is Ok));
}

// ── Handlers ──────────────────────────────────────────────────────────────────

/// A new server answers health checks and nothing else, and has no
/// interceptors.
pub proof fn law_new_server<'a, H, I>(
    server: Server<H, I>,
    default: Server<H, I>,
    wire: Message,
    r: Dispatch<'a, H>,
    r_default: Dispatch<'a, H>,
    health: HealthCheckResponse,
)
    requires
        call_ensures(Server::<H, I>::new, (), server),
        call_ensures(<Server<H, I> as Default>::default, (), default),
        call_ensures(Server::<H, I>::dispatch, (&server, &wire, Ok::<(), Status>(())), r),
        call_ensures(Server::<H, I>::dispatch, (&default, &wire, Ok::<(), Status>(())), r_default),
        call_ensures(health_check, (), health),
    ensures
        wire.method@ == "/_gorums/health"@ ==> (r matches Dispatch::Invoke(h) && *h is Health) && (
        r_default matches Dispatch::Invoke(h) && *h is Health),
        wire.method@ != "/_gorums/health"@ ==> r is Ignore && r_default is Ignore,
        server.interceptors@.len() == 0 && default.interceptors@.len() == 0,
        health.ok,
{
    if wire.method@ == "/_gorums/health"@ {
        lemma_lookup_first(server.handlers@, wire.method@, 0);
        lemma_lookup_first(default.handlers@, wire.method@, 0);
    } else {
        lemma_lookup_none(server.handlers@, wire.method@);
        lemma_lookup_none(default.handlers@, wire.method@);
    }
}

/// A message goes to the handler that was registered last for its method;
/// registering one leaves the messages of every other method alone.
pub proof fn law_registered_handler_is_invoked<'a, H, I>(
    server: &mut Server<H, I>,
    method: String,
    handler: H,
    wire: Message,
    before: Dispatch<'a, H>,
    after: Dispatch<'a, H>,
)
    requires
        distinct_keys(old(server).handlers@),
        call_ensures(
            Server::<H, I>::dispatch,
            (&*old(server), &wire, Ok::<(), Status>(())),
            before,
        ),
        call_ensures(Server::<H, I>::register_handler, (server, method, handler), ()),
        call_ensures(
            Server::<H, I>::dispatch,
            (&*final(server), &wire, Ok::<(), Status>(())),
            after,
        ),
    ensures
        wire.method@ == method@ ==> (after matches Dispatch::Invoke(h) && *h == Handler::Unary(
            handler,
        )),
        wire.method@ != method@ ==> after == before,
        final(server).interceptors == old(server).interceptors,
{
    lemma_with_entry(old(server).handlers@, method@, Handler::Unary(handler));
}

/// The same holds of streaming handlers.
pub proof fn law_registered_streaming_handler_is_invoked<'a, H, I>(
    server: &mut Server<H, I>,
    method: String,
    handler: H,
    wire: Message,
    before: Dispatch<'a, H>,
    after: Dispatch<'a, H>,
)
    requires
        distinct_keys(old(server).handlers@),
        call_ensures(
            Server::<H, I>::dispatch,
            (&*old(server), &wire, Ok::<(), Status>(())),
            before,
        ),
        call_ensures(Server::<H, I>::register_streaming_handler, (server, method, handler), ()),
        call_ensures(
            Server::<H, I>::dispatch,
            (&*final(server), &wire, Ok::<(), Status>(())),
            after,
        ),
    ensures
        wire.method@ == method@ ==> (after matches Dispatch::Invoke(h) && *h
            == Handler::Streaming(handler)),
        wire.method@ != method@ ==> after == before,
        final(server).interceptors == old(server).interceptors,
{
    lemma_with_entry(old(server).handlers@, method@, Handler::Streaming(handler));
}

/// A call that an interceptor rejects is answered with its status, whatever
/// handlers there are; interceptors are told the method and the peer, and are
/// kept in the order in which they were added.
pub proof fn law_rejected_call_is_answered<'a, H, I>(
    server: Server<H, I>,
    wire: Message,
    status: Status,
    code: i32,
    text: &str,
    r: Dispatch<'a, H>,
    peer: Option<String>,
    info: ServerCallInfo,
    interceptor: I,
    more: Server<H, I>,
)
    requires
        call_ensures(Status::code, (&status,), code),
        call_ensures(Status::message, (&status,), text),
        call_ensures(Server::<H, I>::dispatch, (&server, &wire, Err::<(), Status>(status)), r),
        call_ensures(Server::<H, I>::call_info, (&server, &wire, peer), info),
        call_ensures(Server::<H, I>::with_interceptor, (server, interceptor), more),
    ensures
        r matches Dispatch::Reply(msg) && responds(
            msg,
            wire.message_seq_no,
            wire.method@,
            code as int,
            text@,
            Seq::<u8>::empty(),
        ),
        info.method@ == wire.method@ && info.peer_addr == peer,
        more.interceptors@ == server.interceptors@.push(interceptor),
        more.handlers == server.handlers,
{
}

/// The handler of a message gets its payload as it decodes, and is not invoked
/// where it does not.
pub proof fn law_request_of<T, F: FnOnce(&Vec<u8>) -> Result<T, prost::DecodeError>>(
    wire: Message,
    decode: F,
    r: Option<T>,
)
    requires
        call_ensures(request_of::<T, F>, (&wire, decode), r),
    ensures
        exists|d: Result<T, prost::DecodeError>|
            {
                &&& #[trigger] call_ensures(decode, (&wire.payload,), d)
                &&& r is Some <==> d is Ok
                &&& d matches Ok(request) ==> r == Some(request)
            },
{
}

// ── The loop of a stream ──────────────────────────────────────────────────────

/// Whether an event is how an action of the loop of a stream can end.
pub open spec fn ends_action(action: LoopAction, event: LoopEvent) -> bool {
    match action {
        LoopAction::Lock => event is Locked,
        LoopAction::Receive => event is Received || event is Ended,
        LoopAction::Dispatch => event is Dispatched,
        LoopAction::Stop => false,
    }
}

/// The loop of a stream takes each message under the lock, and takes the lock
/// anew for each: before every message that is received the lock was taken,
/// every message that is received is dispatched next, and after each dispatch
/// the lock is taken before anything else happens. The loop ends only with the
/// stream.
pub proof fn law_lock_before_each_message(
    events: Seq<LoopEvent>,
    actions: Seq<LoopAction>,
    i: int,
)
    requires
        actions.len() == events.len(),
        events.len() > 0 ==> events[0] is Started,
        forall|k: int|
            0 <= k < events.len() ==> call_ensures(
                stream_loop,
                (#[trigger] events[k],),
                actions[k],
            ),
        forall|k: int|
            0 < k < events.len() ==> ends_action(actions[k - 1], #[trigger] events[k]),
        0 <= i < events.len(),
    ensures
        events[i] is Received ==> i > 0 && events[i - 1] is Locked,
        events[i] is Received ==> actions[i] is Dispatch && (i + 1 < events.len() ==> events[i + 1]
            is Dispatched),
        events[i] is Dispatched ==> i > 0 && events[i - 1] is Received && actions[i] is Lock && (i + 1
            < events.len() ==> events[i + 1] is Locked),
        events[i] is Locked ==> actions[i] is Receive && i > 0 && (events[i - 1] is Started
            || events[i - 1] is Dispatched),
        events[i] is Ended ==> i == events.len() - 1 && i > 0 && events[i - 1] is Locked,
        actions[i] is Stop <==> events[i] is Ended,
{
    assert(call_ensures(stream_loop, (events[i],), actions[i]));
    if i > 0 {
        assert(call_ensures(stream_loop, (events[i - 1],), actions[i - 1]));
        assert(ends_action(actions[i - 1], events[i]));
    }
    if i + 1 < events.len() {
        assert(ends_action(actions[i], events[i + 1]));
    }
}

} // verus!
