//! What is answered to virtual calls and to sent transactions.
use vstd::prelude::*;
use crate::eth::EthHandler;
use crate::eth_types::{fails_with, Action, CallRequest, Eip155Transaction, ExecutionOutcome, RpcError, RpcErrorModel};
use crate::eth_types::{SignedCall, Space};
use crate::primitive::{h160_short_text, h160_text, random_address, short_address, u256_less, u256_text, zero_bytes};
use crate::primitive::{law_u256_value_is_unique, H160, H256, U256};
use crate::text::{concat, contains_text, decimal, ends_in, hex, join_text, joined, law_joined_text_contains_its_parts};
use crate::text::{lemma_contains_middle, lemma_contains_transitive, lemma_ends_in_last, utf8};

verus! {

/// The greatest amount of gas that a call may use: what it asks for, within the
/// limit.
pub open spec fn call_gas(asked: Option<U256>, max_gas: u64) -> nat {
    match asked {
        Some(gas) => if gas.value() < max_gas {
            gas.value()
        } else {
            max_gas as nat
        },
        None => max_gas as nat,
    }
}

/// The value of the number, or the default.
pub open spec fn value_or(n: Option<U256>, default: nat) -> nat {
    match n {
        Some(n) => n.value(),
        None => default,
    }
}

/// The transaction of a call request: what the request leaves open has its default.
pub open spec fn is_call_of(r: SignedCall, chain_id: u32, max_gas: u64, request: CallRequest) -> bool {
    let tx = r.transaction;
    &&& r.space == Space::Ethereum
    &&& request.from matches Some(from) ==> r.from == from
    &&& tx.nonce.value() == value_or(request.nonce, 0)
    &&& tx.action == (match request.to {
        Some(address) => Action::Call(address),
        None => Action::Create,
    })
    &&& tx.gas.value() == call_gas(request.gas, max_gas)
    &&& tx.gas_price.value() == value_or(request.gas_price, 1)
    &&& tx.value.value() == value_or(request.value, 0)
    &&& tx.chain_id == Some(chain_id)
    &&& tx.data@ == (match request.data {
        Some(data) => data@,
        None => Seq::empty(),
    })
}

/// The transaction of a call request, sent by its sender or else by some random
/// address.
pub fn sign_call(chain_id: u32, max_gas: u64, request: CallRequest) -> (r: SignedCall)
    ensures
        is_call_of(r, chain_id, max_gas, request),
{
    let from = match request.from {
        Some(from) => from,
        None => random_address(),
    };
    sign_call_from(chain_id, max_gas, request, from)
}

/// The transaction of a call request, sent by `from`.
pub fn sign_call_from(chain_id: u32, max_gas: u64, request: CallRequest, from: H160) -> (r: SignedCall)
    ensures
        r.from == from,
        is_call_of(r, chain_id, max_gas, (CallRequest { from: Some(from), ..request })),
{
    let limit = U256::from_u64(max_gas);
    let gas = match request.gas {
        Some(gas) => if u256_less(gas, limit) {
            gas
        } else {
            limit
        },
        None => limit,
    };
    let action = match request.to {
        Some(address) => Action::Call(address),
        None => Action::Create,
    };
    let data = match request.data {
        Some(data) => data,
        None => Vec::new(),
    };
    let transaction = Eip155Transaction {
        nonce: request.nonce.unwrap_or(U256::zero()),
        action,
        gas,
        gas_price: request.gas_price.unwrap_or(U256::from_u64(1)),
        value: request.value.unwrap_or(U256::zero()),
        chain_id: Some(chain_id),
        data,
    };
    SignedCall { transaction, from, space: Space::Ethereum }
}

/// A call error with a text for its data.
pub open spec fn call_error(message: Seq<char>, data: Seq<char>) -> RpcErrorModel {
    RpcErrorModel::CallExecution { message, data: vstd::utf8::encode_utf8(data) }
}

pub open spec fn old_nonce_text(expected: U256, got: U256) -> Seq<char> {
    "nonce is too old expected "@ + decimal(expected.value()) + " got "@ + decimal(got.value())
}

pub open spec fn invalid_recipient_text(recipient: H160) -> Seq<char> {
    "invalid recipient address "@ + (seq!['0', 'x'] + hex(recipient.0@))
}

/// One error of a sub-call as text: where it happened and what it was.
pub open spec fn sub_error_text(error: (H160, String)) -> Seq<char> {
    short_address(error.0.0@) + ": "@ + error.1@
}

/// The errors of the sub-calls as texts.
pub open spec fn sub_error_texts(errors: Seq<(H160, String)>) -> Seq<Seq<char>> {
    errors.map_values(|e: (H160, String)| sub_error_text(e))
}

/// What an estimation says of a reverted transaction: the reason, if one is known,
/// and the innermost error, if there is one.
pub open spec fn reverted_text(revert_reason: Seq<char>, errors: Seq<(H160, String)>) -> Seq<char> {
    "Estimation isn't accurate: transaction is reverted"@ + (if revert_reason.len() > 0 {
        ": "@ + revert_reason + "."@
    } else {
        "."@
    }) + (if errors.len() > 0 {
        " Innermost error is at "@ + sub_error_text(errors[0]) + "."@
    } else {
        Seq::empty()
    })
}

/// The error that a call is answered with; none where it finished.
pub open spec fn call_failure(outcome: ExecutionOutcome) -> Option<RpcErrorModel> {
    match outcome {
        ExecutionOutcome::OldNonce { expected, got } => Some(
            call_error("Transaction can not be executed"@, old_nonce_text(expected, got)),
        ),
        ExecutionOutcome::InvalidRecipientAddress(recipient) => Some(
            call_error("Transaction can not be executed"@, invalid_recipient_text(recipient)),
        ),
        ExecutionOutcome::NotExecutedToReconsiderPacking(text) => Some(
            call_error("Transaction can not be executed"@, text@),
        ),
        ExecutionOutcome::Reverted { output, revert_reason, errors } => Some(
            RpcErrorModel::CallExecution { message: "execution reverted: "@ + revert_reason@, data: output@ },
        ),
        ExecutionOutcome::ExecutionError(text) => Some(call_error("Transaction execution failed"@, text@)),
        ExecutionOutcome::Finished { output, estimated_gas_limit } => None,
    }
}

/// The error that an estimation is answered with, where the execution already
/// decides it.
pub open spec fn estimate_failure(outcome: ExecutionOutcome) -> Option<RpcErrorModel> {
    let not_executed = "Can not estimate: transaction can not be executed"@;
    match outcome {
        ExecutionOutcome::OldNonce { expected, got } => Some(call_error(not_executed, old_nonce_text(expected, got))),
        ExecutionOutcome::InvalidRecipientAddress(recipient) => Some(
            call_error(not_executed, invalid_recipient_text(recipient)),
        ),
        ExecutionOutcome::NotExecutedToReconsiderPacking(text) => Some(call_error(not_executed, text@)),
        ExecutionOutcome::Reverted { output, revert_reason, errors } => Some(
            call_error(reverted_text(revert_reason@, errors@), joined(sub_error_texts(errors@), "\n"@)),
        ),
        ExecutionOutcome::ExecutionError(text) => Some(
            call_error(
                "Can not estimate: transaction execution failed, all gas will be charged (execution error: "@ + text@
                    + ")"@,
                text@,
            ),
        ),
        ExecutionOutcome::Finished { output, estimated_gas_limit } => None,
    }
}

/// The gas that a finished execution is estimated to need.
pub open spec fn estimated_gas(outcome: ExecutionOutcome) -> nat {
    match outcome {
        ExecutionOutcome::Finished { output, estimated_gas_limit } => value_or(estimated_gas_limit, 0),
        _ => 0,
    }
}

/// A call never gets more gas than the limit.
pub proof fn law_call_gas_is_limited(asked: Option<U256>, max_gas: u64)
    ensures
        call_gas(asked, max_gas) <= max_gas,
{
}

/// A call gets what it asks for as far as the limit goes, and the limit where it asks
/// for nothing or for more.
pub proof fn law_call_gas_is_what_is_asked_within_the_limit(asked: U256, max_gas: u64)
    ensures
        asked.value() <= max_gas ==> call_gas(Some(asked), max_gas) == asked.value(),
        asked.value() >= max_gas ==> call_gas(Some(asked), max_gas) == max_gas,
        call_gas(None, max_gas) == max_gas,
{
}

/// What a call request gives goes into the transaction as it is; two calls of the same
/// request differ at most in the sender, and only where the request names none.
pub proof fn law_call_takes_the_request_over(
    r1: SignedCall,
    r2: SignedCall,
    chain_id: u32,
    max_gas: u64,
    request: CallRequest,
)
    requires
        is_call_of(r1, chain_id, max_gas, request),
        is_call_of(r2, chain_id, max_gas, request),
    ensures
        request.from matches Some(from) ==> r1.from == from,
        request.to matches Some(to) ==> r1.transaction.action == Action::Call(to),
        request.to is None ==> r1.transaction.action == Action::Create,
        request.value matches Some(value) ==> r1.transaction.value == value,
        request.value is None ==> r1.transaction.value.value() == 0,
        request.nonce matches Some(nonce) ==> r1.transaction.nonce == nonce,
        request.nonce is None ==> r1.transaction.nonce.value() == 0,
        request.gas_price matches Some(price) ==> r1.transaction.gas_price == price,
        request.gas_price is None ==> r1.transaction.gas_price.value() == 1,
        request.data matches Some(data) ==> r1.transaction.data@ == data@,
        request.data is None ==> r1.transaction.data@.len() == 0,
        r1.transaction.gas.value() <= max_gas,
        r1.transaction.chain_id == Some(chain_id),
        r1.space == Space::Ethereum,
        r1.transaction.nonce == r2.transaction.nonce,
        r1.transaction.gas == r2.transaction.gas,
        r1.transaction.gas_price == r2.transaction.gas_price,
        r1.transaction.value == r2.transaction.value,
        r1.transaction.action == r2.transaction.action,
        r1.transaction.data@ == r2.transaction.data@,
{
    if let Some(value) = request.value {
        law_u256_value_is_unique(r1.transaction.value, value);
    }
    if let Some(nonce) = request.nonce {
        law_u256_value_is_unique(r1.transaction.nonce, nonce);
    }
    if let Some(price) = request.gas_price {
        law_u256_value_is_unique(r1.transaction.gas_price, price);
    }
    law_u256_value_is_unique(r1.transaction.nonce, r2.transaction.nonce);
    law_u256_value_is_unique(r1.transaction.gas, r2.transaction.gas);
    law_u256_value_is_unique(r1.transaction.gas_price, r2.transaction.gas_price);
    law_u256_value_is_unique(r1.transaction.value, r2.transaction.value);
}

/// A call fails exactly where its execution did not finish, and the gas estimated of a
/// finished one is what the execution reports, or nothing where it reports none.
pub proof fn law_only_finished_executions_succeed(outcome: ExecutionOutcome)
    ensures
        call_failure(outcome) is None <==> outcome is Finished,
        estimate_failure(outcome) is None <==> outcome is Finished,
        outcome matches ExecutionOutcome::Finished { output, estimated_gas_limit } ==> (match estimated_gas_limit {
            Some(gas) => estimated_gas(outcome) == gas.value(),
            None => estimated_gas(outcome) == 0,
        }),
{
}

/// The details of a failed call and of a failed estimation of the same execution are
/// the same, unless the execution was reverted: there the call gives the output.
pub proof fn law_call_and_estimate_give_the_same_details(outcome: ExecutionOutcome)
    requires
        call_failure(outcome) is Some,
    ensures
        call_failure(outcome)->0 is CallExecution,
        estimate_failure(outcome)->0 is CallExecution,
        !(outcome is Reverted) ==> call_failure(outcome)->0->CallExecution_data
            == estimate_failure(outcome)->0->CallExecution_data,
        outcome matches ExecutionOutcome::Reverted { output, revert_reason, errors } ==> call_failure(
            outcome,
        )->0->CallExecution_data == output@,
{
}

/// The answer to a reverted call names the reason.
pub proof fn law_reverted_call_names_the_reason(outcome: ExecutionOutcome)
    requires
        outcome is Reverted,
    ensures
        contains_text(call_failure(outcome)->0->CallExecution_message, outcome->revert_reason@),
{
    let reason = outcome->revert_reason@;
    let head = "execution reverted: "@;
    lemma_contains_middle(head, reason, Seq::empty());
    assert(head + reason + Seq::<char>::empty() =~= head + reason);
}

/// The answer to the estimation of a reverted transaction names the reason and the
/// innermost error, whatever the other is, and its details hold every error, in order.
pub proof fn law_reverted_estimation_names_reason_and_errors(
    revert_reason: Seq<char>,
    other_reason: Seq<char>,
    errors: Seq<(H160, String)>,
    i: int,
)
    requires
        0 <= i < errors.len(),
    ensures
        contains_text(reverted_text(revert_reason, errors), revert_reason),
        contains_text(reverted_text(revert_reason, Seq::empty()), revert_reason),
        contains_text(reverted_text(revert_reason, errors), sub_error_text(errors[0])),
        sub_error_texts(errors).len() == errors.len(),
        sub_error_texts(errors)[i] == sub_error_text(errors[i]),
        contains_text(joined(sub_error_texts(errors), "\n"@), sub_error_text(errors[i])),
        contains_text(sub_error_text(errors[i]), errors[i].1@),
        contains_text(sub_error_text(errors[i]), short_address(errors[i].0.0@)),
        reverted_text(revert_reason, errors).len() - reverted_text(revert_reason, Seq::empty()).len() == reverted_text(
            other_reason,
            errors,
        ).len() - reverted_text(other_reason, Seq::empty()).len(),
        reverted_text(revert_reason, errors).take(
            reverted_text(revert_reason, Seq::empty()).len() as int,
        ) == reverted_text(revert_reason, Seq::empty()),
{
    let none = Seq::<char>::empty();
    let base = "Estimation isn't accurate: transaction is reverted"@;
    let no_errors = Seq::<(H160, String)>::empty();
    let tail = " Innermost error is at "@ + sub_error_text(errors[0]) + "."@;
    if revert_reason.len() > 0 {
        lemma_contains_middle(base + ": "@, revert_reason, "."@);
        let whole = base + ": "@ + revert_reason + "."@;
        assert(reverted_text(revert_reason, no_errors) =~= whole);
        lemma_contains_transitive(none, whole, tail, revert_reason);
        assert(none + whole + tail =~= reverted_text(revert_reason, errors));
    } else {
        assert(revert_reason =~= none);
        let text = reverted_text(revert_reason, errors);
        let bare = reverted_text(revert_reason, no_errors);
        lemma_contains_middle(none, revert_reason, text);
        lemma_contains_middle(none, revert_reason, bare);
        assert(none + revert_reason + text =~= text);
        assert(none + revert_reason + bare =~= bare);
    }
    let head = reverted_text(revert_reason, no_errors) + " Innermost error is at "@;
    lemma_contains_middle(head, sub_error_text(errors[0]), "."@);
    assert(head + sub_error_text(errors[0]) + "."@ =~= reverted_text(revert_reason, errors));
    law_joined_text_contains_its_parts(sub_error_texts(errors), "\n"@, i);
    lemma_contains_middle(short_address(errors[i].0.0@) + ": "@, errors[i].1@, none);
    assert(short_address(errors[i].0.0@) + ": "@ + errors[i].1@ + none =~= sub_error_text(errors[i]));
    lemma_contains_middle(none, short_address(errors[i].0.0@), ": "@ + errors[i].1@);
    assert(none + short_address(errors[i].0.0@) + (": "@ + errors[i].1@) =~= sub_error_text(errors[i]));
    assert(reverted_text(revert_reason, errors).take(
        reverted_text(revert_reason, no_errors).len() as int,
    ) =~= reverted_text(revert_reason, no_errors));
    assert(reverted_text(other_reason, errors).len() == reverted_text(other_reason, no_errors).len() + tail.len());
    assert(reverted_text(revert_reason, errors).len() == reverted_text(revert_reason, no_errors).len() + tail.len());
}

/// The details of a failure are what the execution said: the two nonces, the expected
/// one first, the recipient in full, or its words.
pub proof fn law_failure_details_are_what_the_execution_said(outcome: ExecutionOutcome)
    requires
        call_failure(outcome) is Some,
    ensures
        match outcome {
            ExecutionOutcome::OldNonce { expected, got } => exists|text: Seq<char>|
                call_failure(outcome)->0->CallExecution_data == #[trigger] vstd::utf8::encode_utf8(text)
                    && contains_text(text, " expected "@ + decimal(expected.value()) + " got "@) && ends_in(
                    text,
                    decimal(got.value()),
                ),
            ExecutionOutcome::InvalidRecipientAddress(recipient) => exists|text: Seq<char>|
                call_failure(outcome)->0->CallExecution_data == #[trigger] vstd::utf8::encode_utf8(text) && ends_in(
                    text,
                    hex(recipient.0@),
                ),
            ExecutionOutcome::NotExecutedToReconsiderPacking(text) => call_failure(outcome)->0->CallExecution_data
                == vstd::utf8::encode_utf8(text@),
            ExecutionOutcome::ExecutionError(text) => {
                &&& call_failure(outcome)->0->CallExecution_data == vstd::utf8::encode_utf8(text@)
                &&& contains_text(estimate_failure(outcome)->0->CallExecution_message, text@)
            },
            _ => true,
        },
{
    match outcome {
        ExecutionOutcome::OldNonce { expected, got } => {
            let text = old_nonce_text(expected, got);
            let middle = " expected "@ + decimal(expected.value()) + " got "@;
            reveal_strlit("nonce is too old expected ");
            reveal_strlit("nonce is too old");
            reveal_strlit(" expected ");
            assert("nonce is too old expected "@ =~= "nonce is too old"@ + " expected "@);
            lemma_contains_middle("nonce is too old"@, middle, decimal(got.value()));
            assert("nonce is too old"@ + middle + decimal(got.value()) =~= text);
            lemma_ends_in_last("nonce is too old"@ + middle, decimal(got.value()));
            assert(call_failure(outcome)->0->CallExecution_data == vstd::utf8::encode_utf8(text));
        },
        ExecutionOutcome::InvalidRecipientAddress(recipient) => {
            let text = invalid_recipient_text(recipient);
            let before = "invalid recipient address "@ + seq!['0', 'x'];
            lemma_ends_in_last(before, hex(recipient.0@));
            assert(before + hex(recipient.0@) =~= text);
            assert(call_failure(outcome)->0->CallExecution_data == vstd::utf8::encode_utf8(text));
        },
        ExecutionOutcome::ExecutionError(text) => {
            lemma_contains_middle(
                "Can not estimate: transaction execution failed, all gas will be charged (execution error: "@,
                text@,
                ")"@,
            );
        },
        _ => {},
    }
}

/// Executions that were refused for whatever reason are answered with one message, and
/// failed ones with another; so for estimations.
pub proof fn law_refused_and_failed_executions_are_told_apart(
    expected: U256,
    got: U256,
    recipient: H160,
    reason: String,
    failure: String,
)
    ensures
        ({
            let nonce = ExecutionOutcome::OldNonce { expected, got };
            let address = ExecutionOutcome::InvalidRecipientAddress(recipient);
            let packing = ExecutionOutcome::NotExecutedToReconsiderPacking(reason);
            let failed = ExecutionOutcome::ExecutionError(failure);
            &&& call_failure(nonce)->0->CallExecution_message == call_failure(packing)->0->CallExecution_message
            &&& call_failure(address)->0->CallExecution_message == call_failure(packing)->0->CallExecution_message
            &&& call_failure(failed)->0->CallExecution_message != call_failure(packing)->0->CallExecution_message
            &&& estimate_failure(nonce)->0->CallExecution_message == estimate_failure(packing)->0->CallExecution_message
            &&& estimate_failure(address)->0->CallExecution_message
                == estimate_failure(packing)->0->CallExecution_message
            &&& estimate_failure(failed)->0->CallExecution_message
                != estimate_failure(packing)->0->CallExecution_message
        }),
{
    reveal_strlit("Transaction can not be executed");
    reveal_strlit("Transaction execution failed");
    reveal_strlit("Can not estimate: transaction can not be executed");
    reveal_strlit("Can not estimate: transaction execution failed, all gas will be charged (execution error: ");
    assert("Transaction can not be executed"@.len() != "Transaction execution failed"@.len());
}

/// Gas is estimated of no execution that a call would be answered with an error
/// for, and the other way round.
pub proof fn law_call_and_estimate_fail_together(outcome: ExecutionOutcome)
    ensures
        call_failure(outcome) is Some <==> estimate_failure(outcome) is Some,
{
}

/// The error for an estimation too close to the limit.
pub open spec fn gas_too_high(gas: nat) -> RpcErrorModel {
    call_error(
        "Gas too high. Most likely there are problems within the contract code. gas "@ + decimal(gas),
        "gas "@ + decimal(gas),
    )
}

/// What a call is answered with.
pub open spec fn is_call_answer(r: Result<Vec<u8>, RpcError>, outcome: ExecutionOutcome) -> bool {
    match call_failure(outcome) {
        Some(e) => fails_with(r, e),
        None => r is Ok && r->Ok_0@ == outcome->Finished_output@,
    }
}

/// What an estimation is answered with: an estimate that reaches the limit is an error.
pub open spec fn is_estimate(r: Result<U256, RpcError>, limit: u64, outcome: ExecutionOutcome) -> bool {
    match estimate_failure(outcome) {
        Some(e) => fails_with(r, e),
        None => if estimated_gas(outcome) >= limit {
            fails_with(r, gas_too_high(estimated_gas(outcome)))
        } else {
            r is Ok && r->Ok_0.value() == estimated_gas(outcome)
        },
    }
}

/// A call succeeds exactly where its execution finished, with the output of the
/// execution.
pub proof fn law_call_gives_the_output(r: Result<Vec<u8>, RpcError>, outcome: ExecutionOutcome)
    requires
        is_call_answer(r, outcome),
    ensures
        r is Ok <==> outcome is Finished,
        r matches Ok(output) ==> output@ == outcome->Finished_output@,
        outcome is Reverted ==> (r->Err_0@ matches RpcErrorModel::CallExecution { message, data } && data
            == outcome->Reverted_output@),
{
}

/// The gas that the execution reports is the estimate where it is below the limit; where
/// it is not, the error names it.
pub proof fn law_estimate_is_the_reported_gas_below_the_limit(
    r: Result<U256, RpcError>,
    limit: u64,
    output: Vec<u8>,
    gas: U256,
)
    requires
        is_estimate(r, limit, (ExecutionOutcome::Finished { output, estimated_gas_limit: Some(gas) })),
    ensures
        r is Ok <==> gas.value() < limit,
        r matches Ok(estimate) ==> estimate == gas,
        r matches Err(e) ==> (e@ matches RpcErrorModel::CallExecution { message, data } && ends_in(
            message,
            decimal(gas.value()),
        ) && exists|text: Seq<char>|
            data == #[trigger] vstd::utf8::encode_utf8(text) && ends_in(text, decimal(gas.value()))),
{
    if let Ok(estimate) = r {
        law_u256_value_is_unique(estimate, gas);
    }
    lemma_ends_in_last(
        "Gas too high. Most likely there are problems within the contract code. gas "@,
        decimal(gas.value()),
    );
    lemma_ends_in_last("gas "@, decimal(gas.value()));
    if let Err(e) = r {
        assert(e@->CallExecution_data == vstd::utf8::encode_utf8("gas "@ + decimal(gas.value())));
    }
}

/// No gas is estimated of an execution that did not finish, and a higher limit refuses
/// no estimate that a lower one allows.
pub proof fn law_estimates_stay_below_the_limit(
    r: Result<U256, RpcError>,
    s: Result<U256, RpcError>,
    limit: u64,
    higher: u64,
    outcome: ExecutionOutcome,
)
    requires
        is_estimate(r, limit, outcome),
        is_estimate(s, higher, outcome),
        limit <= higher,
    ensures
        r is Ok ==> outcome is Finished && r->Ok_0.value() < limit,
        r is Ok ==> s is Ok && s->Ok_0 == r->Ok_0,
{
    if r is Ok {
        law_u256_value_is_unique(s->Ok_0, r->Ok_0);
    }
}

fn call_execution_error(message: String, data: &str) -> (r: RpcError)
    ensures
        r@ == call_error(message@, data@),
{
    RpcError::CallExecution { message, data: utf8(data) }
}

fn old_nonce(expected: U256, got: U256) -> (r: String)
    ensures
        r@ == old_nonce_text(expected, got),
{
    let mut text = concat("nonce is too old expected ", u256_text(expected).as_str());
    text.append(" got ");
    text.append(u256_text(got).as_str());
    text
}

fn invalid_recipient(recipient: H160) -> (r: String)
    ensures
        r@ == invalid_recipient_text(recipient),
{
    concat("invalid recipient address ", h160_text(recipient).as_str())
}

fn sub_errors(errors: &Vec<(H160, String)>) -> (r: Vec<String>)
    ensures
        r@.map_values(|s: String| s@) == sub_error_texts(errors@),
{
    let mut texts: Vec<String> = Vec::new();
    let mut i: usize = 0;
    while i < errors.len()
        invariant
            i <= errors@.len(),
            texts@.len() == i,
            forall|j: int| 0 <= j < i ==> (#[trigger] texts@[j])@ == sub_error_text(errors@[j]),
        decreases errors@.len() - i,
    {
        let mut text = concat(h160_short_text(errors[i].0).as_str(), ": ");
        text.append(errors[i].1.as_str());
        texts.push(text);
        i = i + 1;
    }
    assert(texts@.map_values(|s: String| s@) =~= sub_error_texts(errors@));
    texts
}

fn reverted(revert_reason: &str, errors: &Vec<(H160, String)>, texts: &Vec<String>) -> (r: String)
    requires
        texts@.map_values(|s: String| s@) == sub_error_texts(errors@),
    ensures
        r@ == reverted_text(revert_reason@, errors@),
{
    assert(texts@.map_values(|s: String| s@).len() == sub_error_texts(errors@).len());
    let mut text = String::new();
    text.append("Estimation isn't accurate: transaction is reverted");
    assert(text@ =~= "Estimation isn't accurate: transaction is reverted"@);
    let reason = if !revert_reason.is_empty() {
        let mut reason = concat(": ", revert_reason);
        reason.append(".");
        reason
    } else {
        ".".to_owned()
    };
    text.append(reason.as_str());
    let ghost so_far = text@;
    if texts.len() > 0 {
        assert(texts@[0]@ == sub_error_texts(errors@)[0]) by {
            assert(texts@.map_values(|s: String| s@)[0] == texts@[0]@);
        }
        let mut innermost = concat(" Innermost error is at ", texts[0].as_str());
        innermost.append(".");
        text.append(innermost.as_str());
    } else {
        assert(so_far =~= so_far + Seq::<char>::empty());
    }
    text
}

/// What came of handing a transaction to the pool.
#[derive(Debug, PartialEq, Eq)]
pub struct SendAnswer {
    pub result: Result<H256, RpcError>,
    /// Whether the accepted transactions are to be sent on.
    pub relay: bool,
}

/// What is answered where the pool accepted and refused so many transactions.
pub open spec fn is_send_answer(r: SendAnswer, signed: Seq<H256>, failed: Seq<String>) -> bool {
    if signed.len() + failed.len() > 1 {
        r.result is Ok && r.result->Ok_0.0@ == zero_bytes(32) && !r.relay
    } else if signed.len() + failed.len() == 0 {
        &&& fails_with(r.result, RpcErrorModel::InvalidParams { param: "tx"@, details: "tx already exist"@ })
        &&& !r.relay
    } else if signed.len() == 0 {
        &&& fails_with(r.result, RpcErrorModel::InvalidParams { param: "tx"@, details: failed[0]@ })
        &&& !r.relay
    } else {
        r.result == Ok::<H256, RpcError>(signed[0]) && r.relay
    }
}

/// Exactly an accepted transaction that came alone is relayed, and then answered with
/// its hash; a refused one that came alone is answered with its error. Several are
/// answered with the zero hash, and none of them is relayed.
pub proof fn law_only_the_accepted_transaction_is_relayed(r: SendAnswer, signed: Seq<H256>, failed: Seq<String>)
    requires
        is_send_answer(r, signed, failed),
    ensures
        r.relay <==> signed.len() == 1 && failed.len() == 0,
        r.relay ==> r.result == Ok::<H256, RpcError>(signed[0]),
        r.result is Err <==> signed.len() == 0 && failed.len() <= 1,
        r.result is Ok && !r.relay ==> forall|i: int| 0 <= i < 32 ==> (#[trigger] r.result->Ok_0.0@[i]) == 0,
        r.result matches Err(e) ==> e@ is InvalidParams && e@->param == "tx"@,
        signed.len() == 0 && failed.len() == 1 ==> (r.result->Err_0@ matches RpcErrorModel::InvalidParams {
            param,
            details,
        } && details == failed[0]@),
{
}

/// What of a raw transaction is checked before it goes on.
#[derive(Clone, Copy, Debug, PartialEq, Eq)]
pub struct RawTransaction {
    pub space: Space,
    /// Whether the public key of the sender can be recovered from the signature.
    pub recovers_public_key: bool,
}

impl EthHandler {
    /// The transaction that a virtual call executes.
    pub fn exec_transaction(&self, chain_id: u32, request: CallRequest) -> (r: SignedCall)
        ensures
            is_call_of(r, chain_id, self.config.max_gas_call_request, request),
    {
        sign_call(chain_id, self.config.max_gas_call_request, request)
    }

    /// What a call is answered with.
    pub fn call(&self, outcome: ExecutionOutcome) -> (r: Result<Vec<u8>, RpcError>)
        ensures
            is_call_answer(r, outcome),
    {
        match outcome {
            ExecutionOutcome::OldNonce { expected, got } => Err(
                call_execution_error(
                    "Transaction can not be executed".to_owned(),
                    old_nonce(expected, got).as_str(),
                ),
            ),
            ExecutionOutcome::InvalidRecipientAddress(recipient) => Err(
                call_execution_error(
                    "Transaction can not be executed".to_owned(),
                    invalid_recipient(recipient).as_str(),
                ),
            ),
            ExecutionOutcome::NotExecutedToReconsiderPacking(text) => Err(
                call_execution_error("Transaction can not be executed".to_owned(), text.as_str()),
            ),
            ExecutionOutcome::Reverted { output, revert_reason, errors } => Err(
                RpcError::CallExecution {
                    message: concat("execution reverted: ", revert_reason.as_str()),
                    data: output,
                },
            ),
            ExecutionOutcome::ExecutionError(text) => Err(
                call_execution_error("Transaction execution failed".to_owned(), text.as_str()),
            ),
            ExecutionOutcome::Finished { output, estimated_gas_limit } => Ok(output),
        }
    }

    /// What an estimation of gas is answered with. In case of unlimited full gas
    /// charge at some VM call, or of infinite loops, the estimated gas is very close
    /// to the limit: that is an error too.
    pub fn estimate_gas(&self, outcome: ExecutionOutcome) -> (r: Result<U256, RpcError>)
        ensures
            is_estimate(r, self.config.too_much_gas_used, outcome),
    {
        let estimated_gas_limit = match outcome {
            ExecutionOutcome::OldNonce { expected, got } => {
                return Err(
                    call_execution_error(
                        "Can not estimate: transaction can not be executed".to_owned(),
                        old_nonce(expected, got).as_str(),
                    ),
                );
            },
            ExecutionOutcome::InvalidRecipientAddress(recipient) => {
                return Err(
                    call_execution_error(
                        "Can not estimate: transaction can not be executed".to_owned(),
                        invalid_recipient(recipient).as_str(),
                    ),
                );
            },
            ExecutionOutcome::NotExecutedToReconsiderPacking(text) => {
                return Err(
                    call_execution_error(
                        "Can not estimate: transaction can not be executed".to_owned(),
                        text.as_str(),
                    ),
                );
            },
            ExecutionOutcome::Reverted { output, revert_reason, errors } => {
                let texts = sub_errors(&errors);
                let message = reverted(revert_reason.as_str(), &errors, &texts);
                let data = join_text(&texts, "\n");
                return Err(call_execution_error(message, data.as_str()));
            },
            ExecutionOutcome::ExecutionError(text) => {
                let mut message = concat(
                    "Can not estimate: transaction execution failed, all gas will be charged (execution error: ",
                    text.as_str(),
                );
                message.append(")");
                return Err(call_execution_error(message, text.as_str()));
            },
            ExecutionOutcome::Finished { output, estimated_gas_limit } => estimated_gas_limit,
        };
        let gas = match estimated_gas_limit {
            Some(gas) => gas,
            None => U256::zero(),
        };
        if !u256_less(gas, U256::from_u64(self.config.too_much_gas_used)) {
            let number = u256_text(gas);
            let message = concat(
                "Gas too high. Most likely there are problems within the contract code. gas ",
                number.as_str(),
            );
            let data = concat("gas ", number.as_str());
            return Err(call_execution_error(message, data.as_str()));
        }
        Ok(gas)
    }

    /// Whether a transaction may be sent now: not while the node catches up.
    pub fn check_sending(&self, catch_up_mode: bool) -> (r: Result<(), RpcError>)
        ensures
            r is Ok <==> !catch_up_mode,
            r is Err ==> fails_with(r, RpcErrorModel::RequestRejectedInCatchUpMode),
    {
        if catch_up_mode {
            Err(RpcError::RequestRejectedInCatchUpMode)
        } else {
            Ok(())
        }
    }

    /// What is answered once the pool was handed one transaction: `signed_trans` are
    /// the hashes of the accepted ones, `failed_trans` the errors of the others.
    pub fn send_transaction_with_signature(&self, signed_trans: &Vec<H256>, failed_trans: &Vec<String>) -> (r: SendAnswer)
        ensures
            is_send_answer(r, signed_trans@, failed_trans@),
    {
        if signed_trans.len() > 1 || failed_trans.len() > 1 || (signed_trans.len() == 1 && failed_trans.len() == 1) {
            SendAnswer { result: Ok(H256::zero()), relay: false }
        } else if signed_trans.len() == 0 && failed_trans.len() == 0 {
            SendAnswer {
                result: Err(
                    RpcError::InvalidParams { param: "tx".to_owned(), details: "tx already exist".to_owned() },
                ),
                relay: false,
            }
        } else if signed_trans.len() == 0 {
            SendAnswer {
                result: Err(RpcError::InvalidParams { param: "tx".to_owned(), details: failed_trans[0].clone() }),
                relay: false,
            }
        } else {
            SendAnswer { result: Ok(signed_trans[0]), relay: true }
        }
    }

    /// Whether a raw transaction goes on to the pool: `decoded` is what its bytes
    /// were decoded to, or why they were not.
    pub fn check_raw_transaction(&self, decoded: Result<RawTransaction, String>) -> (r: Result<(), RpcError>)
        ensures
            match decoded {
                Err(text) => fails_with(r, RpcErrorModel::InvalidParams { param: "raw"@, details: text@ }),
                Ok(tx) => if tx.space != Space::Ethereum {
                    fails_with(
                        r,
                        RpcErrorModel::InvalidParams { param: "tx"@, details: "Incorrect transaction space"@ },
                    )
                } else if !tx.recovers_public_key {
                    fails_with(
                        r,
                        RpcErrorModel::InvalidParams {
                            param: "tx"@,
                            details: "Can not recover pubkey for Ethereum like tx"@,
                        },
                    )
                } else {
                    r is Ok
                },
            },
    {
        match decoded {
            Err(text) => Err(RpcError::InvalidParams { param: "raw".to_owned(), details: text }),
            Ok(tx) => {
                if tx.space != Space::Ethereum {
                    return Err(
                        RpcError::InvalidParams {
                            param: "tx".to_owned(),
                            details: "Incorrect transaction space".to_owned(),
                        },
                    );
                }
                if !tx.recovers_public_key {
                    return Err(
                        RpcError::InvalidParams {
                            param: "tx".to_owned(),
                            details: "Can not recover pubkey for Ethereum like tx".to_owned(),
                        },
                    );
                }
                Ok(())
            },
        }
    }
}

} // verus!
