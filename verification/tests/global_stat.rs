use lvmt_state::global_stat::{DbError, GlobalParam, GlobalStat, InitCheck, TOTAL_GLOBAL_PARAMS};
use lvmt_state::primitive::U256;

fn number(n: u64) -> U256 {
    U256([n, 0, 0, 0])
}

fn encoded(value: U256) -> Option<Vec<u8>> {
    Some(rlp::encode(&ethereum_types::U256(value.0)))
}

#[test]
fn there_are_fourteen_variables_in_order() {
    let all = GlobalParam::all();
    assert_eq!(all.len(), TOTAL_GLOBAL_PARAMS);
    assert_eq!(all.len(), 14);
    for (place, param) in all.iter().enumerate() {
        assert_eq!(param.id(), place);
    }
    assert_eq!(GlobalParam::InterestRate.id(), 0);
    assert_eq!(GlobalParam::BaseFeeProp.id(), 13);
}

#[test]
fn new_variables_have_their_initial_values() {
    let stat = GlobalStat::new(|p: GlobalParam| number(100 + p.id() as u64));
    assert_eq!(stat.get(GlobalParam::TotalIssued), number(102));
    assert_eq!(*stat.refr(GlobalParam::BaseFeeProp), number(113));
}

#[test]
fn one_variable_is_changed_alone() {
    let mut stat = GlobalStat::new(|_| number(1));
    *stat.val(GlobalParam::TotalStaking) = number(50);
    assert_eq!(stat.get(GlobalParam::TotalStaking), number(50));
    assert_eq!(stat.get(GlobalParam::TotalStorage), number(1));
}

#[test]
fn raw_values_are_decoded_and_converted() {
    let raw = vec![Some(vec![0x05]), None, Some(vec![0x82, 0x01, 0x00])];
    let stat = GlobalStat::loaded(&raw, |_, v: U256| number(v.0[0] + 1)).unwrap();
    assert_eq!(stat.get(GlobalParam::InterestRate), number(6));
    assert_eq!(stat.get(GlobalParam::AccumulateInterestRate), number(1));
    assert_eq!(stat.get(GlobalParam::TotalIssued), number(257));
    assert_eq!(stat.get(GlobalParam::TotalStaking), number(0));
}

#[test]
fn a_malformed_raw_value_is_an_error() {
    let raw = vec![Some(vec![0x05]), Some(vec![0x82, 0x01])];
    match GlobalStat::loaded(&raw, |_, v: U256| v) {
        Err(DbError::Decoder(e)) => assert_eq!(e, rlp::DecoderError::RlpInconsistentLengthAndData),
        Ok(_) => panic!("loaded"),
    }
    assert!(GlobalStat::loaded(&vec![Some(vec![])], |_, v: U256| v).is_err());
}

#[test]
fn numbers_are_placed_in_order() {
    let stat = GlobalStat::from_numbers(&vec![number(3), number(4)], |p: GlobalParam, v: U256| {
        number(v.0[0] * 10 + p.id() as u64)
    });
    assert_eq!(stat.get(GlobalParam::InterestRate), number(30));
    assert_eq!(stat.get(GlobalParam::AccumulateInterestRate), number(41));
    assert_eq!(stat.get(GlobalParam::TotalIssued), number(0));
}

#[test]
fn what_was_committed_is_loaded_again() {
    let stat = GlobalStat::new(|p: GlobalParam| U256([p.id() as u64 * 77, 0, 0, p.id() as u64]));
    let flip = |_: GlobalParam, v: U256| U256([v.0[3], v.0[1], v.0[2], v.0[0]]);
    let written = stat.commit(flip);
    assert_eq!(written[2].0, GlobalParam::TotalIssued);
    assert_eq!(written[2].1, U256([2, 0, 0, 154]));
    let raw: Vec<Option<Vec<u8>>> = written.iter().map(|(_, v)| encoded(*v)).collect();
    let loaded = GlobalStat::loaded(&raw, flip).unwrap();
    for param in GlobalParam::all() {
        assert_eq!(loaded.get(param), stat.get(param));
    }
}

#[test]
fn an_empty_database_is_not_initialized() {
    let reads: Vec<Result<U256, i32>> = (0..14).map(|_| Ok(number(0))).collect();
    assert!(matches!(GlobalStat::assert_non_inited(reads), InitCheck::NonInited));
}

#[test]
fn the_first_value_that_is_not_zero_is_told() {
    let mut reads: Vec<Result<U256, i32>> = (0..14).map(|_| Ok(number(0))).collect();
    reads[4] = Ok(number(1));
    reads[6] = Err(3);
    assert!(matches!(
        GlobalStat::assert_non_inited(reads),
        InitCheck::Inited(GlobalParam::TotalStorage)
    ));
    let mut reads: Vec<Result<U256, i32>> = (0..14).map(|_| Ok(number(0))).collect();
    reads[2] = Err(3);
    reads[4] = Ok(number(1));
    assert!(matches!(GlobalStat::assert_non_inited(reads), InitCheck::Failed(3)));
}

fn loaded_number(bytes: Vec<u8>) -> Option<U256> {
    let stat = GlobalStat::loaded(&vec![Some(bytes)], |_, v: U256| v).ok()?;
    Some(stat.get(GlobalParam::InterestRate))
}

#[test]
fn accepted_raw_values() {
    assert_eq!(loaded_number(vec![0x80]), Some(number(0)));
    assert_eq!(loaded_number(vec![0x7f]), Some(number(0x7f)));
    assert_eq!(loaded_number(vec![0x81, 0x80]), Some(number(0x80)));
    assert_eq!(loaded_number(vec![0x05, 0xff, 0xff]), Some(number(5)));
    assert_eq!(loaded_number(vec![0x81, 0x80, 0x00]), Some(number(0x80)));
    assert_eq!(loaded_number(vec![0xb8, 0x01, 0x05]), Some(number(5)));
    assert_eq!(loaded_number(vec![0xb8, 0x02, 0x01, 0x02, 0x03]), Some(number(0x0102)));
    let mut greatest = vec![0xa0];
    greatest.extend_from_slice(&[0xff; 32]);
    assert_eq!(loaded_number(greatest), Some(U256([u64::MAX; 4])));
}

#[test]
fn refused_raw_values() {
    assert_eq!(loaded_number(vec![]), None);
    assert_eq!(loaded_number(vec![0x00]), None);
    assert_eq!(loaded_number(vec![0x81]), None);
    assert_eq!(loaded_number(vec![0x81, 0x7f]), None);
    assert_eq!(loaded_number(vec![0x82, 0x00, 0x01]), None);
    assert_eq!(loaded_number(vec![0x83, 0x01, 0x02]), None);
    assert_eq!(loaded_number(vec![0xb8]), None);
    assert_eq!(loaded_number(vec![0xb8, 0x00]), None);
    assert_eq!(loaded_number(vec![0xb8, 0x02, 0x01]), None);
    assert_eq!(loaded_number(vec![0xb9, 0x00, 0x01, 0x05]), None);
    assert_eq!(loaded_number(vec![0xbf, 0xff, 0xff, 0xff, 0xff, 0xff, 0xff, 0xff, 0xff, 0x01]), None);
    assert_eq!(loaded_number(vec![0xc0]), None);
    let mut too_long = vec![0xa1];
    too_long.extend_from_slice(&[0xff; 33]);
    assert_eq!(loaded_number(too_long), None);
}

#[test]
fn a_lossy_conversion_loads_what_it_keeps() {
    let stat = GlobalStat::new(|p: GlobalParam| number(p.id() as u64 * 10));
    let written = stat.commit(|_, v: U256| number(v.0[0] / 10));
    let raw: Vec<Option<Vec<u8>>> = written.iter().map(|(_, v)| encoded(*v)).collect();
    let loaded = GlobalStat::loaded(&raw, |_, v: U256| number(v.0[0] * 10)).unwrap();
    for param in GlobalParam::all() {
        assert_eq!(loaded.get(param), stat.get(param));
    }
}
