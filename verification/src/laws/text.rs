//! Laws of numbers, prefixes, statuses and errors as text.

use vstd::prelude::*;
use vstd::string::to_string_from_display_ensures;

use crate::error::{Error, NodeError, QuorumCallError};
use crate::node::Node;
use crate::status::{status_display, Status};
use crate::text::{decimal, push_decimal, same_text, starts_with};

verus! {

// ── Numbers ───────────────────────────────────────────────────────────────────

/// The number that a text of digits stands for.
pub open spec fn number_of(text: Seq<char>) -> int {
    text.fold_left(0int, |n: int, c: char| n * 10 + (c as int - '0' as int))
}

/// Whether a text is a number in decimal: digits, without leading zeros.
pub open spec fn is_number(text: Seq<char>) -> bool {
    &&& text.len() > 0
    &&& forall|i: int| 0 <= i < text.len() ==> '0' <= #[trigger] text[i] && text[i] <= '9'
    &&& text.len() > 1 ==> text[0] != '0'
}

proof fn lemma_number_push(text: Seq<char>, c: char)
    ensures
        number_of(text.push(c)) == number_of(text) * 10 + (c as int - '0' as int),
{
    assert(text.push(c).drop_last() =~= text);
}

/// A number in decimal reads back as the number.
pub proof fn lemma_decimal_reads_back(n: nat)
    ensures
        is_number(decimal(n)),
        number_of(decimal(n)) == n,
        n > 0 ==> decimal(n)[0] != '0',
    decreases n,
{
    if n < 10 {
        let none = Seq::<char>::empty();
        lemma_number_push(none, decimal(n)[0]);
        assert(none.push(decimal(n)[0]) =~= decimal(n));
        assert(number_of(none) == 0);
    } else {
        let before = decimal(n / 10);
        lemma_decimal_reads_back(n / 10);
        lemma_number_push(before, decimal(n).last());
        assert(decimal(n).drop_last() =~= before);
        assert(decimal(n)[0] == before[0]);
    }
}

/// A number is appended in decimal: digits without leading zeros, that read
/// back as the number.
pub proof fn law_push_decimal(out: &mut String, n: u64)
    requires
        call_ensures(push_decimal, (out, n), ()),
    ensures
        final(out)@.len() > old(out)@.len(),
        final(out)@.take(old(out)@.len() as int) == old(out)@,
        is_number(final(out)@.skip(old(out)@.len() as int)),
        number_of(final(out)@.skip(old(out)@.len() as int)) == n,
{
    lemma_decimal_reads_back(n as nat);
    assert(final(out)@.skip(old(out)@.len() as int) =~= decimal(n as nat));
    assert(final(out)@.take(old(out)@.len() as int) =~= old(out)@);
}

// ── Comparing texts ───────────────────────────────────────────────────────────

/// A text starts with another exactly if it is the other followed by some
/// text.
pub proof fn law_starts_with(s: &str, prefix: &str, r: bool)
    requires
        call_ensures(starts_with, (s, prefix), r),
    ensures
        r <==> exists|rest: Seq<char>| s@ == #[trigger] (prefix@ + rest),
{
    if r {
        let n = prefix@.len() as int;
        assert(s@ =~= prefix@ + s@.skip(n));
    }
    if exists|rest: Seq<char>| s@ == #[trigger] (prefix@ + rest) {
        let rest = choose|rest: Seq<char>| s@ == #[trigger] (prefix@ + rest);
        assert(s@.take(prefix@.len() as int) =~= prefix@);
    }
}

/// Texts are the same exactly if their characters are.
pub proof fn law_same_text(a: &str, b: &str, r: bool)
    requires
        call_ensures(same_text, (a, b), r),
    ensures
        r <==> a@.len() == b@.len() && forall|i: int| 0 <= i < a@.len() ==> a@[i] == b@[i],
{
    if a@.len() == b@.len() && (forall|i: int| 0 <= i < a@.len() ==> a@[i] == b@[i]) {
        assert(a@ =~= b@);
    }
}

// ── Statuses ──────────────────────────────────────────────────────────────────

/// A status keeps the number and the message that it was made of, but for a
/// number that is no code from 0 to 16: that is read as 2. It prints as tonic
/// prints that code and message; a status as it was received prints the text
/// that it came with.
pub proof fn law_status(
    number: i32,
    message: String,
    text: String,
    made: Status,
    received: Status,
    made_code: i32,
    made_message: &str,
    made_text: String,
    received_code: i32,
    received_message: &str,
    received_text: String,
)
    requires
        call_ensures(Status::new, (number, message), made),
        call_ensures(Status::code, (&made,), made_code),
        call_ensures(Status::message, (&made,), made_message),
        call_ensures(Status::to_string, (&made,), made_text),
        call_ensures(Status::received, (number, message, text), received),
        call_ensures(Status::code, (&received,), received_code),
        call_ensures(Status::message, (&received,), received_message),
        call_ensures(Status::to_string, (&received,), received_text),
    ensures
        0 <= number <= 16 ==> made_code == number && received_code == number,
        !(0 <= number <= 16) ==> made_code == 2 && received_code == 2,
        made_message@ == message@,
        received_message@ == message@,
        made_text@ == status_display(made_code, message@),
        received_text@ == text@,
{
}

/// A failure inside has code 13, and a peer that cannot be reached code 14.
pub proof fn law_status_kinds(
    message: &str,
    internal: Status,
    unavailable: Status,
    copy: Status,
    internal_code: i32,
    internal_message: &str,
    internal_text: String,
    unavailable_code: i32,
    unavailable_message: &str,
    unavailable_text: String,
)
    requires
        call_ensures(Status::internal, (message,), internal),
        call_ensures(Status::code, (&internal,), internal_code),
        call_ensures(Status::message, (&internal,), internal_message),
        call_ensures(Status::to_string, (&internal,), internal_text),
        call_ensures(Status::unavailable, (message,), unavailable),
        call_ensures(Status::code, (&unavailable,), unavailable_code),
        call_ensures(Status::message, (&unavailable,), unavailable_message),
        call_ensures(Status::to_string, (&unavailable,), unavailable_text),
        call_ensures(<Status as Clone>::clone, (&internal,), copy),
    ensures
        internal_code == 13 && internal_message@ == message@,
        internal_text@ == status_display(13, message@),
        unavailable_code == 14 && unavailable_message@ == message@,
        unavailable_text@ == status_display(14, message@),
        copy == internal,
{
}

// ── Errors ────────────────────────────────────────────────────────────────────

/// The error of a node prints the node and how its status prints.
pub proof fn law_node_error_text(e: NodeError, cause: String, r: String, copy: NodeError)
    requires
        call_ensures(Status::to_string, (&e.cause,), cause),
        call_ensures(NodeError::to_string, (&e,), r),
        call_ensures(<NodeError as Clone>::clone, (&e,), copy),
    ensures
        r@ == "node "@ + decimal(e.node_id as nat) + ": "@ + cause@,
        copy == e,
{
}

/// A failed quorum call prints its cause and how many nodes had an error.
pub proof fn law_quorum_call_error_text(e: QuorumCallError, r: String)
    requires
        call_ensures(QuorumCallError::to_string, (&e,), r),
    ensures
        e.cause is Incomplete ==> r@ == "quorum call error: "@ + "incomplete"@ + " ("@ + decimal(
            e.node_errors@.len(),
        ) + " node errors)"@,
        e.cause is SendFailure ==> r@ == "quorum call error: "@ + "send failure"@ + " ("@
            + decimal(e.node_errors@.len()) + " node errors)"@,
{
}

/// Each error prints what it is; one that holds another or a status prints
/// how that prints.
pub proof fn law_error_text(e: Error, r: String)
    requires
        call_ensures(Error::to_string, (&e,), r),
    ensures
        forall|inner: QuorumCallError, text: String|
            e == Error::QuorumCall(inner) && #[trigger] call_ensures(
                QuorumCallError::to_string,
                (&inner,),
                text,
            ) ==> r@ == text@,
        e is NodeClosed ==> r@ == "node closed"@,
        e is StreamDown ==> r@ == "stream down"@,
        e matches Error::Codec(text) ==> r@ == "codec error: "@ + text@,
        e is Cancelled ==> r@ == "cancelled"@,
        forall|status: Status, text: String|
            e == Error::Transport(status) && #[trigger] call_ensures(
                Status::to_string,
                (&status,),
                text,
            ) ==> r@ == "transport error: "@ + text@,
{
}

/// Errors are made of what went wrong: a status, a failed quorum call, or a
/// payload that could not be decoded, which is kept as it prints.
pub proof fn law_error_from(
    status: Status,
    of_status: Error,
    call: QuorumCallError,
    of_call: Error,
    decode: prost::DecodeError,
    of_decode: Error,
)
    requires
        call_ensures(<Error as From<Status>>::from, (status,), of_status),
        call_ensures(<Error as From<QuorumCallError>>::from, (call,), of_call),
        call_ensures(<Error as From<prost::DecodeError>>::from, (decode,), of_decode),
    ensures
        of_status == Error::Transport(status),
        of_call == Error::QuorumCall(call),
        of_decode matches Error::Codec(text) && to_string_from_display_ensures::<
            prost::DecodeError,
        >(&decode, text),
{
}

/// A copy of an error is the same error; of a failed quorum call it has the
/// same cause and the same node errors.
pub proof fn law_error_clone(e: Error, copy: Error)
    requires
        call_ensures(<Error as Clone>::clone, (&e,), copy),
    ensures
        !(e is QuorumCall) ==> copy == e,
        e matches Error::QuorumCall(a) ==> (copy matches Error::QuorumCall(b) && a.cause == b.cause
            && a.node_errors@.len() == b.node_errors@.len() && forall|i: int|
            0 <= i < a.node_errors@.len() ==> {
                &&& (#[trigger] a.node_errors@[i]).node_id == b.node_errors@[i].node_id
                &&& a.node_errors@[i].cause@ == b.node_errors@[i].cause@
            }),
{
    if let Error::QuorumCall(a) = e {
        if let Error::QuorumCall(b) = copy {
            assert(a@.node_errors.len() == a.node_errors@.len());
            assert(b@.node_errors.len() == b.node_errors@.len());
            assert forall|i: int| 0 <= i < a.node_errors@.len() implies {
                &&& (#[trigger] a.node_errors@[i]).node_id == b.node_errors@[i].node_id
                &&& a.node_errors@[i].cause@ == b.node_errors@[i].cause@
            } by {
                assert(a@.node_errors[i] == b@.node_errors[i]);
                assert(a@.node_errors[i] == a.node_errors@[i]@);
                assert(b@.node_errors[i] == b.node_errors@[i]@);
            }
        }
    }
}

/// A node prints its ID and its address.
pub proof fn law_node_text<S>(node: Node<S>, r: String)
    requires
        call_ensures(Node::<S>::debug_text, (&node,), r),
    ensures
        r@ == "Node(id="@ + decimal(node.inner.id as nat) + ", addr="@ + node.inner.addr@ + ")"@,
{
}

} // verus!
