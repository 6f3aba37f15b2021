use lvmt_state::eth::{EthHandler, RpcImplConfiguration};
use lvmt_state::eth_calls::{sign_call, sign_call_from, RawTransaction};
use lvmt_state::eth_types::{Action, CallRequest, ExecutionOutcome, RpcError, Space};
use lvmt_state::primitive::{H160, H256, U256};

fn number(n: u64) -> U256 {
    U256([n, 0, 0, 0])
}

fn handler() -> EthHandler {
    EthHandler::new(RpcImplConfiguration {
        get_logs_filter_max_limit: None,
        max_gas_call_request: 100,
        too_much_gas_used: 80,
    })
}

fn empty_request() -> CallRequest {
    CallRequest { from: None, to: None, gas_price: None, gas: None, value: None, data: None, nonce: None }
}

fn error(message: &str, data: &str) -> RpcError {
    RpcError::CallExecution { message: message.to_string(), data: data.as_bytes().to_vec() }
}

fn address() -> H160 {
    let mut bytes = [0x11u8; 20];
    bytes[0] = 0xab;
    bytes[19] = 0x0f;
    H160(bytes)
}

fn reverted(reason: &str, errors: Vec<(H160, String)>) -> ExecutionOutcome {
    ExecutionOutcome::Reverted { output: vec![8, 9], revert_reason: reason.to_string(), errors }
}

#[test]
fn what_a_request_leaves_open_has_its_default() {
    let call = sign_call_from(71, 100, empty_request(), address());
    assert_eq!(call.from, address());
    assert_eq!(call.space, Space::Ethereum);
    assert_eq!(call.transaction.nonce, number(0));
    assert_eq!(call.transaction.action, Action::Create);
    assert_eq!(call.transaction.gas, number(100));
    assert_eq!(call.transaction.gas_price, number(1));
    assert_eq!(call.transaction.value, number(0));
    assert_eq!(call.transaction.chain_id, Some(71));
    assert_eq!(call.transaction.data, Vec::<u8>::new());
}

#[test]
fn a_request_is_taken_over() {
    let request = CallRequest {
        from: Some(address()),
        to: Some(H160([3; 20])),
        gas_price: Some(number(4)),
        gas: Some(number(5)),
        value: Some(number(6)),
        data: Some(vec![7]),
        nonce: Some(number(8)),
    };
    let call = handler().exec_transaction(71, request);
    assert_eq!(call.from, address());
    assert_eq!(call.transaction.action, Action::Call(H160([3; 20])));
    assert_eq!(call.transaction.gas_price, number(4));
    assert_eq!(call.transaction.gas, number(5));
    assert_eq!(call.transaction.value, number(6));
    assert_eq!(call.transaction.data, vec![7]);
    assert_eq!(call.transaction.nonce, number(8));
}

#[test]
fn the_gas_of_a_call_is_limited() {
    let request = CallRequest { gas: Some(U256([0, 1, 0, 0])), ..empty_request() };
    assert_eq!(sign_call(71, 100, request).transaction.gas, number(100));
    let request = CallRequest { gas: Some(number(99)), ..empty_request() };
    assert_eq!(sign_call(71, 100, request).transaction.gas, number(99));
}

#[test]
fn a_request_without_a_sender_gets_some_address() {
    let a = sign_call(71, 100, empty_request()).from;
    let b = sign_call(71, 100, empty_request()).from;
    assert_ne!(a, b);
}

#[test]
fn a_finished_call_gives_its_output() {
    let outcome = ExecutionOutcome::Finished { output: vec![1, 2], estimated_gas_limit: None };
    assert_eq!(handler().call(outcome), Ok(vec![1, 2]));
}

#[test]
fn a_call_with_an_old_nonce() {
    let outcome = ExecutionOutcome::OldNonce { expected: number(12), got: U256([0, 1, 0, 0]) };
    assert_eq!(
        handler().call(outcome),
        Err(error("Transaction can not be executed", "nonce is too old expected 12 got 18446744073709551616"))
    );
}

#[test]
fn a_call_to_an_invalid_recipient() {
    assert_eq!(
        handler().call(ExecutionOutcome::InvalidRecipientAddress(address())),
        Err(error(
            "Transaction can not be executed",
            "invalid recipient address 0xab1111111111111111111111111111111111110f"
        ))
    );
}

#[test]
fn a_call_that_is_put_off_or_fails() {
    assert_eq!(
        handler().call(ExecutionOutcome::NotExecutedToReconsiderPacking("NotEnoughBaseGas".to_string())),
        Err(error("Transaction can not be executed", "NotEnoughBaseGas"))
    );
    assert_eq!(
        handler().call(ExecutionOutcome::ExecutionError("OutOfGas".to_string())),
        Err(error("Transaction execution failed", "OutOfGas"))
    );
}

#[test]
fn a_reverted_call_gives_its_reason_and_output() {
    assert_eq!(
        handler().call(reverted("no money", vec![])),
        Err(RpcError::CallExecution { message: "execution reverted: no money".to_string(), data: vec![8, 9] })
    );
}

#[test]
fn an_estimation_below_the_threshold() {
    let outcome = ExecutionOutcome::Finished { output: vec![], estimated_gas_limit: Some(number(79)) };
    assert_eq!(handler().estimate_gas(outcome), Ok(number(79)));
    let outcome = ExecutionOutcome::Finished { output: vec![], estimated_gas_limit: None };
    assert_eq!(handler().estimate_gas(outcome), Ok(number(0)));
}

#[test]
fn an_estimation_that_is_too_high() {
    let outcome = ExecutionOutcome::Finished { output: vec![], estimated_gas_limit: Some(number(80)) };
    assert_eq!(
        handler().estimate_gas(outcome),
        Err(error(
            "Gas too high. Most likely there are problems within the contract code. gas 80",
            "gas 80"
        ))
    );
}

#[test]
fn an_estimation_of_what_is_not_executed() {
    let message = "Can not estimate: transaction can not be executed";
    assert_eq!(
        handler().estimate_gas(ExecutionOutcome::OldNonce { expected: number(1), got: number(0) }),
        Err(error(message, "nonce is too old expected 1 got 0"))
    );
    assert_eq!(
        handler().estimate_gas(ExecutionOutcome::InvalidRecipientAddress(H160([0; 20]))),
        Err(error(message, "invalid recipient address 0x0000000000000000000000000000000000000000"))
    );
    assert_eq!(
        handler().estimate_gas(ExecutionOutcome::NotExecutedToReconsiderPacking("x".to_string())),
        Err(error(message, "x"))
    );
    assert_eq!(
        handler().estimate_gas(ExecutionOutcome::ExecutionError("OutOfGas".to_string())),
        Err(error(
            "Can not estimate: transaction execution failed, all gas will be charged (execution error: OutOfGas)",
            "OutOfGas"
        ))
    );
}

#[test]
fn an_estimation_of_a_reverted_transaction() {
    assert_eq!(
        handler().estimate_gas(reverted("", vec![])),
        Err(error("Estimation isn't accurate: transaction is reverted.", ""))
    );
    let errors = vec![(address(), "Reverted".to_string()), (H160([0x22; 20]), "Outer".to_string())];
    assert_eq!(
        handler().estimate_gas(reverted("no money", errors)),
        Err(error(
            "Estimation isn't accurate: transaction is reverted: no money. \
             Innermost error is at 0xab11\u{2026}110f: Reverted.",
            "0xab11\u{2026}110f: Reverted\n0x2222\u{2026}2222: Outer"
        ))
    );
}

#[test]
fn nothing_is_sent_while_catching_up() {
    assert_eq!(handler().check_sending(true), Err(RpcError::RequestRejectedInCatchUpMode));
    assert_eq!(handler().check_sending(false), Ok(()));
}

#[test]
fn an_accepted_transaction_is_relayed() {
    let answer = handler().send_transaction_with_signature(&vec![H256([4; 32])], &vec![]);
    assert_eq!(answer.result, Ok(H256([4; 32])));
    assert!(answer.relay);
}

#[test]
fn a_refused_transaction_is_answered_with_its_error() {
    let answer = handler().send_transaction_with_signature(&vec![], &vec!["too cheap".to_string()]);
    assert_eq!(
        answer.result,
        Err(RpcError::InvalidParams { param: "tx".to_string(), details: "too cheap".to_string() })
    );
    assert!(!answer.relay);
}

#[test]
fn an_ignored_transaction_is_known_already() {
    let answer = handler().send_transaction_with_signature(&vec![], &vec![]);
    assert_eq!(
        answer.result,
        Err(RpcError::InvalidParams { param: "tx".to_string(), details: "tx already exist".to_string() })
    );
}

#[test]
fn too_many_results_are_answered_with_zero() {
    let answer = handler().send_transaction_with_signature(&vec![H256([4; 32])], &vec!["x".to_string()]);
    assert_eq!(answer.result, Ok(H256([0; 32])));
    assert!(!answer.relay);
}

#[test]
fn raw_transactions_are_checked() {
    let refused = |param: &str, details: &str| {
        Err(RpcError::InvalidParams { param: param.to_string(), details: details.to_string() })
    };
    let tx = RawTransaction { space: Space::Ethereum, recovers_public_key: true };
    assert_eq!(handler().check_raw_transaction(Ok(tx)), Ok(()));
    assert_eq!(handler().check_raw_transaction(Err("bad".to_string())), refused("raw", "bad"));
    let native = RawTransaction { space: Space::Native, recovers_public_key: false };
    assert_eq!(
        handler().check_raw_transaction(Ok(native)),
        refused("tx", "Incorrect transaction space")
    );
    let unsigned = RawTransaction { space: Space::Ethereum, recovers_public_key: false };
    assert_eq!(
        handler().check_raw_transaction(Ok(unsigned)),
        refused("tx", "Can not recover pubkey for Ethereum like tx")
    );
}
