//! Interceptors: what runs before a call is dispatched or a handler is
//! invoked.
//!
//! Interceptors run in registration order, each with a copy of the same
//! information. The first one that fails ends the chain.

use vstd::prelude::*;

use crate::message::{clone_entries, MetadataView};
use crate::table::entries_view;

verus! {

/// Metadata about an outgoing call, passed to each interceptor in the chain.
#[derive(Debug)]
pub struct CallInfo {
    /// Full gRPC method path, e.g. `/storage.Storage/Read`.
    pub method: String,
    /// IDs of the nodes this call is being dispatched to. Single-node calls
    /// have exactly one entry, fan-out calls one entry per node in the
    /// configuration.
    pub node_ids: Vec<u32>,
    /// Per-call metadata attached to the context of the call.
    pub metadata: Vec<(String, String)>,
}

/// What a [`CallInfo`] says.
pub struct CallInfoView {
    pub method: Seq<char>,
    pub node_ids: Seq<u32>,
    pub metadata: MetadataView,
}

impl View for CallInfo {
    type V = CallInfoView;

    open spec fn view(&self) -> CallInfoView {
        CallInfoView {
            method: self.method@,
            node_ids: self.node_ids@,
            metadata: entries_view(self.metadata@),
        }
    }
}

impl Clone for CallInfo {
    fn clone(&self) -> (r: Self)
        ensures
            r@ == self@,
    {
        let node_ids = self.node_ids.clone();
        assert(node_ids@ =~= self.node_ids@);
        CallInfo {
            method: self.method.clone(),
            node_ids,
            metadata: clone_entries(&self.metadata),
        }
    }
}

/// Metadata about an incoming call, passed to each server interceptor.
#[derive(Debug)]
pub struct ServerCallInfo {
    /// Full gRPC method path, e.g. `/storage.Storage/Read`.
    pub method: String,
    /// Remote address of the connecting client, if available.
    pub peer_addr: Option<String>,
}

impl Clone for ServerCallInfo {
    fn clone(&self) -> (r: Self)
        ensures
            r == *self,
    {
        let peer_addr = match &self.peer_addr {
            Some(addr) => Some(addr.clone()),
            None => None,
        };
        ServerCallInfo { method: self.method.clone(), peer_addr }
    }
}

/// What to do next with a chain of interceptors.
pub enum ChainStep<E> {
    /// Invoke the interceptor with this index.
    Invoke(usize),
    /// The chain is over.
    Done(Result<(), E>),
}

/// A chain of interceptors on its way.
#[derive(Debug)]
pub struct ChainRun {
    /// The number of interceptors in the chain.
    pub len: usize,
    /// The number of interceptors that let the call pass so far.
    pub passed: usize,
}

/// The step of a chain of `len` interceptors of which the first `passed` let
/// the call pass.
pub open spec fn chain_step<E>(len: nat, passed: nat) -> ChainStep<E> {
    if passed < len {
        ChainStep::Invoke(passed as usize)
    } else {
        ChainStep::Done(Ok(()))
    }
}

/// Starts a chain of client interceptors.
pub fn run<I>(chain: &Vec<I>) -> (r: ChainRun)
    ensures
        r.len == chain@.len(),
        r.passed == 0,
{
    ChainRun { len: chain.len(), passed: 0 }
}

/// Starts a chain of server interceptors.
pub fn run_server<I>(chain: &Vec<I>) -> (r: ChainRun)
    ensures
        r.len == chain@.len(),
        r.passed == 0,
{
    ChainRun { len: chain.len(), passed: 0 }
}

/// A chain before and after it took the result of the interceptor that was
/// invoked: an error ends the chain, and otherwise the next interceptor has
/// its turn.
pub open spec fn chain_stepped<E>(
    before: ChainRun,
    verdict: Result<(), E>,
    after: ChainRun,
    step: ChainStep<E>,
) -> bool {
    &&& after.len == before.len
    &&& match verdict {
        Err(e) => {
            &&& step == ChainStep::Done(Err::<(), E>(e))
            &&& after.passed == before.passed
        },
        Ok(_) => {
            &&& after.passed == before.passed + 1
            &&& step == chain_step::<E>(before.len as nat, (before.passed + 1) as nat)
        },
    }
}

impl ChainRun {
    /// The step that is to be taken now.
    pub fn step<E>(&self) -> (r: ChainStep<E>)
        ensures
            r == chain_step::<E>(self.len as nat, self.passed as nat),
    {
        if self.passed < self.len {
            ChainStep::Invoke(self.passed)
        } else {
            ChainStep::Done(Ok(()))
        }
    }

    /// Takes the result of the interceptor that was invoked: an error ends
    /// the chain, and otherwise the next interceptor has its turn.
    pub fn on_verdict<E>(&mut self, verdict: Result<(), E>) -> (r: ChainStep<E>)
        requires
            old(self).passed < old(self).len,
        ensures
            chain_stepped(*old(self), verdict, *final(self), r),
    {
        match verdict {
            Err(e) => ChainStep::Done(Err(e)),
            Ok(()) => {
                self.passed = self.passed + 1;
                self.step()
            },
        }
    }
}

/// The result of a chain whose interceptors return these results, one for each
/// interceptor, as [`ChainRun`] steps through it.
pub open spec fn chain_result<E>(verdicts: Seq<Result<(), E>>, passed: nat) -> Result<(), E>
    decreases verdicts.len() - passed,
{
    match chain_step::<E>(verdicts.len(), passed) {
        ChainStep::Done(r) => r,
        ChainStep::Invoke(i) => match verdicts[passed as int] {
            Err(e) => Err(e),
            Ok(_) => if passed < verdicts.len() {
                chain_result(verdicts, passed + 1)
            } else {
                Ok(())
            },
        },
    }
}

/// A chain lets a call pass exactly if every interceptor does.
pub proof fn lemma_chain_passes<E>(verdicts: Seq<Result<(), E>>, passed: nat)
    requires
        passed <= verdicts.len(),
    ensures
        chain_result(verdicts, passed) is Ok <==> forall|i: int|
            passed <= i < verdicts.len() ==> (#[trigger] verdicts[i]) is Ok,
    decreases verdicts.len() - passed,
{
    if passed < verdicts.len() {
        lemma_chain_passes(verdicts, passed + 1);
        assert(verdicts[passed as int] is Err ==> !(verdicts[passed as int] is Ok));
    }
}

/// Where an interceptor fails and those before it do not, the chain fails
/// with its error, whatever the others would say.
pub proof fn lemma_first_error_wins<E>(
    verdicts: Seq<Result<(), E>>,
    passed: nat,
    i: int,
    error: E,
)
    requires
        passed <= i < verdicts.len(),
        verdicts[i] == Err::<(), E>(error),
        forall|j: int| passed <= j < i ==> (#[trigger] verdicts[j]) is Ok,
    ensures
        chain_result(verdicts, passed) == Err::<(), E>(error),
    decreases verdicts.len() - passed,
{
    if passed < i {
        assert(verdicts[passed as int] is Ok);
        lemma_first_error_wins(verdicts, passed + 1, i, error);
    }
}

/// The result of a chain is what its interceptors call for: where the chain
/// invokes them one after the other until it is done after `n` of them, those
/// were the first `n`, each once and in order. None is left where the chain
/// lets the call pass.
pub proof fn lemma_chain_follows_verdicts<E>(
    states: Seq<ChainRun>,
    verdicts: Seq<Result<(), E>>,
    steps: Seq<ChainStep<E>>,
    result: Result<(), E>,
)
    requires
        0 < steps.len() <= verdicts.len(),
        states.len() == steps.len() + 1,
        states[0].len == verdicts.len(),
        states[0].passed == 0,
        forall|i: int|
            0 <= i < steps.len() ==> chain_stepped(
                states[i],
                verdicts[i],
                states[i + 1],
                #[trigger] steps[i],
            ),
        forall|i: int| 0 <= i < steps.len() - 1 ==> (#[trigger] steps[i]) is Invoke,
        steps.last() == ChainStep::Done(result),
    ensures
        result == chain_result(verdicts, 0),
        forall|i: int|
            0 <= i < steps.len() - 1 ==> (#[trigger] steps[i]) == ChainStep::<E>::Invoke(
                (i + 1) as usize,
            ),
        result is Ok ==> steps.len() == verdicts.len(),
{
    let n = steps.len() - 1;
    lemma_chain_position(states, verdicts, steps, n);
    assert(chain_stepped(states[n], verdicts[n], states[n + 1], steps[n]));
    assert forall|i: int| 0 <= i < n implies (#[trigger] verdicts[i]) is Ok && steps[i]
        == ChainStep::<E>::Invoke((i + 1) as usize) by {
        lemma_chain_position(states, verdicts, steps, i);
        assert(steps[i] is Invoke);
    }
    match verdicts[n] {
        Err(e) => {
            lemma_first_error_wins(verdicts, 0, n, e);
        },
        Ok(_) => {
            lemma_chain_passes(verdicts, 0);
            assert forall|i: int| 0 <= i < verdicts.len() implies (#[trigger] verdicts[i]) is Ok by {
                assert(i <= n);
            }
            assert(chain_result(verdicts, 0)->Ok_0 == ());
        },
    }
}

proof fn lemma_chain_position<E>(
    states: Seq<ChainRun>,
    verdicts: Seq<Result<(), E>>,
    steps: Seq<ChainStep<E>>,
    i: int,
)
    requires
        0 <= i < steps.len() <= verdicts.len(),
        states.len() == steps.len() + 1,
        states[0].passed == 0,
        forall|i: int|
            0 <= i < steps.len() ==> chain_stepped(
                states[i],
                verdicts[i],
                states[i + 1],
                #[trigger] steps[i],
            ),
        forall|i: int| 0 <= i < steps.len() - 1 ==> (#[trigger] steps[i]) is Invoke,
    ensures
        states[i].passed == i,
        states[i].len == states[0].len,
    decreases i,
{
    if i > 0 {
        lemma_chain_position(states, verdicts, steps, i - 1);
        assert(steps[i - 1] is Invoke);
        assert(chain_stepped(states[i - 1], verdicts[i - 1], states[i], steps[i - 1]));
    }
}

} // verus!
