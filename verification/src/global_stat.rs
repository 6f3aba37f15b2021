//! Specially-treated global variables during execution.
use vstd::prelude::*;
use crate::primitive::{big_endian, law_u256_value_is_unique, U256};

verus! {

pub const TOTAL_GLOBAL_PARAMS: usize = 14;

/// The global variables, in the order of their places.
#[derive(Clone, Copy, Debug, PartialEq, Eq)]
pub enum GlobalParam {
    InterestRate,
    AccumulateInterestRate,
    TotalIssued,
    TotalStaking,
    TotalStorage,
    TotalEvmToken,
    UsedStoragePoints,
    ConvertedStoragePoints,
    TotalPosStaking,
    DistributablePoSInterest,
    LastDistributeBlock,
    PowBaseReward,
    TotalBurnt1559,
    BaseFeeProp,
}

/// The variable at a place.
pub open spec fn param_at(place: int) -> GlobalParam {
    if place == 0 {
        GlobalParam::InterestRate
    } else if place == 1 {
        GlobalParam::AccumulateInterestRate
    } else if place == 2 {
        GlobalParam::TotalIssued
    } else if place == 3 {
        GlobalParam::TotalStaking
    } else if place == 4 {
        GlobalParam::TotalStorage
    } else if place == 5 {
        GlobalParam::TotalEvmToken
    } else if place == 6 {
        GlobalParam::UsedStoragePoints
    } else if place == 7 {
        GlobalParam::ConvertedStoragePoints
    } else if place == 8 {
        GlobalParam::TotalPosStaking
    } else if place == 9 {
        GlobalParam::DistributablePoSInterest
    } else if place == 10 {
        GlobalParam::LastDistributeBlock
    } else if place == 11 {
        GlobalParam::PowBaseReward
    } else if place == 12 {
        GlobalParam::TotalBurnt1559
    } else {
        GlobalParam::BaseFeeProp
    }
}

/// The place of a variable.
pub open spec fn place_of(param: GlobalParam) -> int {
    match param {
        GlobalParam::InterestRate => 0,
        GlobalParam::AccumulateInterestRate => 1,
        GlobalParam::TotalIssued => 2,
        GlobalParam::TotalStaking => 3,
        GlobalParam::TotalStorage => 4,
        GlobalParam::TotalEvmToken => 5,
        GlobalParam::UsedStoragePoints => 6,
        GlobalParam::ConvertedStoragePoints => 7,
        GlobalParam::TotalPosStaking => 8,
        GlobalParam::DistributablePoSInterest => 9,
        GlobalParam::LastDistributeBlock => 10,
        GlobalParam::PowBaseReward => 11,
        GlobalParam::TotalBurnt1559 => 12,
        GlobalParam::BaseFeeProp => 13,
    }
}

/// Each variable has one place, and each place one variable.
pub proof fn law_places_and_variables_match(param: GlobalParam, place: int)
    requires
        0 <= place < TOTAL_GLOBAL_PARAMS,
    ensures
        0 <= place_of(param) < TOTAL_GLOBAL_PARAMS,
        param_at(place_of(param)) == param,
        place_of(param_at(place)) == place,
{
}

impl GlobalParam {
    /// The place of the variable.
    pub fn id(self) -> (r: usize)
        ensures
            r == place_of(self),
            r < TOTAL_GLOBAL_PARAMS,
            param_at(r as int) == self,
            forall|i: int| 0 <= i < TOTAL_GLOBAL_PARAMS && #[trigger] param_at(i) == self ==> i == r,
    {
        match self {
            GlobalParam::InterestRate => 0,
            GlobalParam::AccumulateInterestRate => 1,
            GlobalParam::TotalIssued => 2,
            GlobalParam::TotalStaking => 3,
            GlobalParam::TotalStorage => 4,
            GlobalParam::TotalEvmToken => 5,
            GlobalParam::UsedStoragePoints => 6,
            GlobalParam::ConvertedStoragePoints => 7,
            GlobalParam::TotalPosStaking => 8,
            GlobalParam::DistributablePoSInterest => 9,
            GlobalParam::LastDistributeBlock => 10,
            GlobalParam::PowBaseReward => 11,
            GlobalParam::TotalBurnt1559 => 12,
            GlobalParam::BaseFeeProp => 13,
        }
    }

    /// The variables in the order of their places.
    pub fn all() -> (r: Vec<GlobalParam>)
        ensures
            r@.len() == TOTAL_GLOBAL_PARAMS,
            forall|i: int| 0 <= i < TOTAL_GLOBAL_PARAMS ==> #[trigger] r@[i] == param_at(i),
    {
        vec![
            GlobalParam::InterestRate,
            GlobalParam::AccumulateInterestRate,
            GlobalParam::TotalIssued,
            GlobalParam::TotalStaking,
            GlobalParam::TotalStorage,
            GlobalParam::TotalEvmToken,
            GlobalParam::UsedStoragePoints,
            GlobalParam::ConvertedStoragePoints,
            GlobalParam::TotalPosStaking,
            GlobalParam::DistributablePoSInterest,
            GlobalParam::LastDistributeBlock,
            GlobalParam::PowBaseReward,
            GlobalParam::TotalBurnt1559,
            GlobalParam::BaseFeeProp,
        ]
    }
}

/// `rlp::DecoderError`: why a decoding failed.
#[verifier::external_type_specification]
#[verifier::external_body]
pub struct ExDecoderError(rlp::DecoderError);

/// What the RLP item at the beginning of the bytes holds, if it is data and not
/// cut off. A byte below 0x80 holds itself. Up to 0xb7 the first byte tells the
/// length, and a byte below 0x80 may not stand there alone. Up to 0xbf it tells how
/// many bytes the length takes, which does not begin with zero. What follows the
/// item does not matter.
pub open spec fn rlp_payload(bytes: Seq<u8>) -> Option<Seq<u8>> {
    if bytes.len() == 0 || bytes[0] > 0xbf {
        None
    } else if bytes[0] < 0x80 {
        Some(bytes.take(1))
    } else if bytes[0] <= 0xb7 {
        let end = 1 + (bytes[0] - 0x80);
        if bytes.len() < end || (end == 2 && bytes[1] < 0x80) {
            None
        } else {
            Some(bytes.subrange(1, end))
        }
    } else {
        let start = 1 + (bytes[0] - 0xb7);
        let end = start + big_endian(bytes.subrange(1, start));
        if bytes.len() < start || bytes[1] == 0 || bytes.len() < end {
            None
        } else {
            Some(bytes.subrange(start, end))
        }
    }
}

/// The number that the RLP item at the beginning of the bytes stands for, most
/// significant byte first: at most 32 bytes, without leading zeros.
pub open spec fn rlp_number(bytes: Seq<u8>) -> Option<nat> {
    match rlp_payload(bytes) {
        Some(payload) => if payload.len() > 32 || (payload.len() > 0 && payload[0] == 0) {
            None
        } else {
            Some(big_endian(payload))
        },
        None => None,
    }
}

/// The bytes are the RLP encoding of the number: one byte below 0x80 for itself,
/// else 0x80 plus the length and the big-endian bytes without leading zeros.
pub open spec fn is_rlp_of(bytes: Seq<u8>, n: nat) -> bool {
    if bytes.len() == 1 {
        (bytes[0] == 0x80 && n == 0) || (0 < bytes[0] < 0x80 && n == bytes[0])
    } else {
        &&& 2 <= bytes.len() <= 33
        &&& bytes[0] == 0x7f + bytes.len()
        &&& bytes[1] != 0
        &&& n >= 0x80
        &&& n == big_endian(bytes.skip(1))
    }
}

/// The number of a successful decoding.
pub open spec fn decoded(result: Result<U256, rlp::DecoderError>) -> Option<nat> {
    match result {
        Ok(v) => Some(v.value()),
        Err(_) => None,
    }
}

/// The encoding of a number is decoded to that number.
pub proof fn law_encoding_is_decoded(bytes: Seq<u8>, n: nat)
    requires
        is_rlp_of(bytes, n),
    ensures
        rlp_number(bytes) == Some(n),
{
    if bytes.len() == 1 {
        if bytes[0] == 0x80 {
            assert(bytes.subrange(1, 1) =~= Seq::<u8>::empty());
        } else {
            reveal_with_fuel(crate::keys::number, 2);
            assert(bytes.take(1).drop_last() =~= Seq::<u8>::empty());
        }
    } else {
        let payload = bytes.subrange(1, bytes.len() as int);
        assert(payload =~= bytes.skip(1));
        if payload.len() == 1 {
            reveal_with_fuel(crate::keys::number, 2);
            assert(payload.drop_last() =~= Seq::<u8>::empty());
        }
    }
}

/// `rlp::decode` to `ethereum_types::U256`: the number that the RLP item at the
/// beginning of the bytes stands for, and an error where there is none. Which error
/// comes is not said.
#[verifier::external_body]
pub(crate) fn rlp_decode_u256(bytes: &Vec<u8>) -> (r: Result<U256, rlp::DecoderError>)
    ensures
        decoded(r) == rlp_number(bytes@),
{
    rlp::decode::<ethereum_types::U256>(bytes).map(|v| U256(v.0))
}

/// Why the variables could not be loaded.
#[derive(Debug)]
pub enum DbError {
    Decoder(rlp::DecoderError),
}

/// What stands in the database before the first initialization.
#[derive(Debug)]
pub enum InitCheck<E> {
    /// All variables are zero.
    NonInited,
    /// A read failed.
    Failed(E),
    /// A variable is not zero.
    Inited(GlobalParam),
}

/// The number that a raw database value stands for: absent values are zero.
pub open spec fn raw_number(raw: Option<Vec<u8>>) -> Option<nat> {
    match raw {
        Some(bytes) => rlp_number(bytes@),
        None => Some(0),
    }
}

/// The raw database value is the encoding of the number; zero may be absent.
pub open spec fn holds_number(raw: Option<Vec<u8>>, n: nat) -> bool {
    match raw {
        Some(bytes) => is_rlp_of(bytes@, n),
        None => n == 0,
    }
}

/// The variables come from the raw values: each is what the conversion makes of
/// the number that its raw value stands for, and those without a raw value are
/// zero.
pub open spec fn loads<F: Fn(GlobalParam, U256) -> U256>(raw: Seq<Option<Vec<u8>>>, convert: F, stat: Seq<U256>) -> bool {
    &&& stat.len() == TOTAL_GLOBAL_PARAMS
    &&& forall|i: int|
        0 <= i < raw.len() ==> converted(convert, param_at(i), raw_number(raw[i])->0, #[trigger] stat[i])
    &&& forall|i: int| raw.len() <= i < TOTAL_GLOBAL_PARAMS ==> (#[trigger] stat[i]).value() == 0
}

/// The writes hold, place by place, what the conversion makes of the variables.
pub open spec fn writes<F: Fn(GlobalParam, U256) -> U256>(
    stat: Seq<U256>,
    convert: F,
    written: Seq<(GlobalParam, U256)>,
) -> bool {
    &&& written.len() == TOTAL_GLOBAL_PARAMS
    &&& forall|i: int|
        0 <= i < TOTAL_GLOBAL_PARAMS ==> (#[trigger] written[i]).0 == param_at(i) && call_ensures(
            convert,
            (param_at(i), stat[i]),
            written[i].1,
        )
}

/// What a database holds by name after the writes.
pub open spec fn stored_by_name(written: Seq<(GlobalParam, U256)>) -> Map<GlobalParam, U256>
    decreases written.len(),
{
    if written.len() == 0 {
        Map::empty()
    } else {
        stored_by_name(written.drop_last()).insert(written.last().0, written.last().1)
    }
}

proof fn lemma_stored_by_name(written: Seq<(GlobalParam, U256)>, i: int)
    requires
        0 <= i < written.len(),
        forall|j: int| i < j < written.len() ==> (#[trigger] written[j]).0 != written[i].0,
    ensures
        stored_by_name(written).contains_key(written[i].0),
        stored_by_name(written)[written[i].0] == written[i].1,
    decreases written.len(),
{
    if i < written.len() - 1 {
        let rest = written.drop_last();
        assert(written[written.len() - 1].0 != written[i].0);
        assert forall|j: int| i < j < rest.len() implies (#[trigger] rest[j]).0 != rest[i].0 by {
            assert(rest[j] == written[j]);
        }
        lemma_stored_by_name(rest, i);
    }
}

/// Each variable is written once, under its own name, with what the conversion makes
/// of its value; so a database read by name holds that value for every variable.
pub proof fn law_each_variable_is_written_once_under_its_name<F: Fn(GlobalParam, U256) -> U256>(
    stat: Seq<U256>,
    convert: F,
    written: Seq<(GlobalParam, U256)>,
    param: GlobalParam,
)
    requires
        writes(stat, convert, written),
    ensures
        exists|i: int| 0 <= i < written.len() && (#[trigger] written[i]).0 == param,
        forall|i: int, j: int|
            0 <= i < written.len() && 0 <= j < written.len() && (#[trigger] written[i]).0 == param && (
            #[trigger] written[j]).0 == param ==> i == j,
        stored_by_name(written).contains_key(param),
        call_ensures(convert, (param, stat[place_of(param)]), stored_by_name(written)[param]),
{
    let place = place_of(param);
    law_places_and_variables_match(param, place);
    assert(written[place].0 == param);
    assert forall|i: int| 0 <= i < written.len() && (#[trigger] written[i]).0 == param implies i == place by {
        law_places_and_variables_match(param, i);
    }
    lemma_stored_by_name(written, place);
}

/// `out` is what the conversion makes of the number.
pub open spec fn converted<F: Fn(GlobalParam, U256) -> U256>(convert: F, param: GlobalParam, n: nat, out: U256) -> bool {
    exists|v: U256| v.value() == n && #[trigger] call_ensures(convert, (param, v), out)
}

/// Manages specially-treated global variables during execution: a number for each
/// place.
#[derive(Clone, Copy, Debug)]
pub struct GlobalStat([U256; 14]);

impl View for GlobalStat {
    type V = Seq<U256>;

    closed spec fn view(&self) -> Seq<U256> {
        self.0@
    }
}

impl GlobalStat {
    /// There is a number for each place.
    pub proof fn law_one_number_for_each_place(&self)
        ensures
            self@.len() == TOTAL_GLOBAL_PARAMS,
    {
    }

    /// After a write through `val` the variable at the place has the written value,
    /// and the others are as they were.
    pub proof fn law_written_value_is_read_back(&self, after: &GlobalStat, i: int, written: U256)
        requires
            0 <= i < TOTAL_GLOBAL_PARAMS,
            after@ == self@.update(i, written),
        ensures
            after@[i] == written,
            forall|j: int| 0 <= j < TOTAL_GLOBAL_PARAMS && j != i ==> #[trigger] after@[j] == self@[j],
    {
        self.law_one_number_for_each_place();
    }

    /// Global statistical variables with their initialization values.
    pub fn new<F: Fn(GlobalParam) -> U256>(init_vm_value: F) -> (r: GlobalStat)
        requires
            forall|p: GlobalParam| call_requires(init_vm_value, (p,)),
        ensures
            r@.len() == TOTAL_GLOBAL_PARAMS,
            forall|i: int|
                0 <= i < TOTAL_GLOBAL_PARAMS ==> call_ensures(init_vm_value, (param_at(i),), #[trigger] r@[i]),
    {
        let params = GlobalParam::all();
        let mut ans: [U256; 14] = [U256::zero(); 14];
        let mut i: usize = 0;
        while i < 14
            invariant
                i <= 14,
                params@.len() == 14,
                forall|j: int| 0 <= j < 14 ==> #[trigger] params@[j] == param_at(j),
                forall|p: GlobalParam| call_requires(init_vm_value, (p,)),
                forall|j: int| 0 <= j < i ==> call_ensures(init_vm_value, (param_at(j),), #[trigger] ans@[j]),
            decreases 14 - i,
        {
            let value = init_vm_value(params[i]);
            ans[i] = value;
            i = i + 1;
        }
        GlobalStat(ans)
    }

    /// The variables from the numbers loaded for them, in the order of their
    /// places. A place without a number stays zero.
    pub fn from_numbers<F: Fn(GlobalParam, U256) -> U256>(numbers: &Vec<U256>, into_vm_value: F) -> (r: GlobalStat)
        requires
            numbers@.len() <= TOTAL_GLOBAL_PARAMS,
            forall|p: GlobalParam, v: U256| call_requires(into_vm_value, (p, v)),
        ensures
            r@.len() == TOTAL_GLOBAL_PARAMS,
            forall|i: int|
                0 <= i < numbers@.len() ==> call_ensures(into_vm_value, (param_at(i), numbers@[i]), #[trigger] r@[i]),
            forall|i: int| numbers@.len() <= i < TOTAL_GLOBAL_PARAMS ==> (#[trigger] r@[i]).value() == 0,
    {
        let params = GlobalParam::all();
        let mut ans: [U256; 14] = [U256::zero(); 14];
        let mut i: usize = 0;
        while i < numbers.len()
            invariant
                i <= numbers@.len() <= 14,
                params@.len() == 14,
                forall|j: int| 0 <= j < 14 ==> #[trigger] params@[j] == param_at(j),
                forall|p: GlobalParam, v: U256| call_requires(into_vm_value, (p, v)),
                forall|j: int|
                    0 <= j < i ==> call_ensures(into_vm_value, (param_at(j), numbers@[j]), #[trigger] ans@[j]),
                forall|j: int| i <= j < 14 ==> (#[trigger] ans@[j]).value() == 0,
            decreases numbers@.len() - i,
        {
            let value = into_vm_value(params[i], numbers[i]);
            ans[i] = value;
            i = i + 1;
        }
        GlobalStat(ans)
    }

    /// The variables from their raw values in the database, in the order of their
    /// places. An absent value is zero, and a place without a raw value stays zero.
    pub fn loaded<F: Fn(GlobalParam, U256) -> U256>(raw_values: &Vec<Option<Vec<u8>>>, into_vm_value: F) -> (r: Result<
        GlobalStat,
        DbError,
    >)
        requires
            raw_values@.len() <= TOTAL_GLOBAL_PARAMS,
            forall|p: GlobalParam, v: U256| call_requires(into_vm_value, (p, v)),
        ensures
            r is Ok <==> forall|i: int| 0 <= i < raw_values@.len() ==> raw_number(#[trigger] raw_values@[i]) is Some,
            r matches Ok(stat) ==> loads(raw_values@, into_vm_value, stat@),
    {
        let mut numbers: Vec<U256> = Vec::new();
        let mut i: usize = 0;
        while i < raw_values.len()
            invariant
                i <= raw_values@.len() <= 14,
                numbers@.len() == i,
                forall|j: int| 0 <= j < i ==> raw_number(raw_values@[j]) == Some((#[trigger] numbers@[j]).value()),
            decreases raw_values@.len() - i,
        {
            let number = match &raw_values[i] {
                Some(bytes) => match rlp_decode_u256(bytes) {
                    Ok(v) => v,
                    Err(e) => {
                        assert(raw_number(raw_values@[i as int]) is None);
                        return Err(DbError::Decoder(e));
                    },
                },
                None => U256::zero(),
            };
            numbers.push(number);
            i = i + 1;
        }
        let stat = GlobalStat::from_numbers(&numbers, into_vm_value);
        proof {
            assert forall|j: int| 0 <= j < raw_values@.len() implies raw_number(#[trigger] raw_values@[j]) is Some by {
                assert(raw_number(raw_values@[j]) == Some(numbers@[j].value()));
            }
            assert forall|j: int| 0 <= j < raw_values@.len() implies converted(
                into_vm_value,
                param_at(j),
                raw_number(raw_values@[j])->0,
                #[trigger] stat@[j],
            ) by {
                assert(call_ensures(into_vm_value, (param_at(j), numbers@[j]), stat@[j]));
            }
        }
        Ok(stat)
    }

    /// Checks, on the values read from the database in the order of their places,
    /// that the variables have never been initialized: then all of them are zero.
    /// What is wrong with the first value that is not zero is told.
    pub fn assert_non_inited<E>(reads: Vec<Result<U256, E>>) -> (r: InitCheck<E>)
        requires
            reads@.len() == TOTAL_GLOBAL_PARAMS,
        ensures
            match r {
                InitCheck::NonInited => forall|i: int|
                    0 <= i < reads@.len() ==> (#[trigger] reads@[i] matches Ok(v) && v.value() == 0),
                InitCheck::Failed(e) => exists|i: int|
                    first_not_zero(reads@, i) && #[trigger] reads@[i] == Err::<U256, E>(e),
                InitCheck::Inited(param) => exists|i: int|
                    first_not_zero(reads@, i) && #[trigger] reads@[i] is Ok && param == param_at(i),
            },
    {
        let params = GlobalParam::all();
        let ghost all = reads@;
        let mut left = reads;
        let mut i: usize = 0;
        while left.len() > 0
            invariant
                i <= 14,
                all == reads@,
                all.len() == 14,
                left@ == all.skip(i as int),
                params@.len() == 14,
                forall|j: int| 0 <= j < 14 ==> #[trigger] params@[j] == param_at(j),
                forall|j: int| 0 <= j < i ==> (#[trigger] all[j] matches Ok(v) && v.value() == 0),
            decreases left@.len(),
        {
            assert(left@[0] == all[i as int]);
            let read = left.remove(0);
            assert(left@ =~= all.skip(i + 1));
            match read {
                Ok(v) => {
                    if !v.is_zero() {
                        assert(first_not_zero(all, i as int));
                        return InitCheck::Inited(params[i]);
                    }
                },
                Err(e) => {
                    assert(first_not_zero(all, i as int));
                    return InitCheck::Failed(e);
                },
            }
            i = i + 1;
        }
        InitCheck::NonInited
    }

    /// The values to write to the database, in the order of their places.
    pub fn commit<F: Fn(GlobalParam, U256) -> U256>(&self, from_vm_value: F) -> (r: Vec<(GlobalParam, U256)>)
        requires
            forall|p: GlobalParam, v: U256| call_requires(from_vm_value, (p, v)),
        ensures
            writes(self@, from_vm_value, r@),
    {
        let params = GlobalParam::all();
        let mut written: Vec<(GlobalParam, U256)> = Vec::new();
        let mut i: usize = 0;
        while i < 14
            invariant
                i <= 14,
                written@.len() == i,
                params@.len() == 14,
                forall|j: int| 0 <= j < 14 ==> #[trigger] params@[j] == param_at(j),
                forall|p: GlobalParam, v: U256| call_requires(from_vm_value, (p, v)),
                forall|j: int|
                    0 <= j < i ==> (#[trigger] written@[j]).0 == param_at(j) && call_ensures(
                        from_vm_value,
                        (param_at(j), self@[j]),
                        written@[j].1,
                    ),
            decreases 14 - i,
        {
            let value = from_vm_value(params[i], self.0[i]);
            written.push((params[i], value));
            i = i + 1;
        }
        written
    }

    /// The owned value of a variable.
    pub fn get(&self, param: GlobalParam) -> (r: U256)
        ensures
            r == self@[place_of(param)],
            forall|i: int| 0 <= i < TOTAL_GLOBAL_PARAMS && #[trigger] param_at(i) == param ==> r == self@[i],
    {
        self.0[param.id()]
    }

    /// The immutable reference of a variable.
    pub fn refr(&self, param: GlobalParam) -> (r: &U256)
        ensures
            *r == self@[place_of(param)],
            forall|i: int| 0 <= i < TOTAL_GLOBAL_PARAMS && #[trigger] param_at(i) == param ==> *r == self@[i],
    {
        &self.0[param.id()]
    }

    /// The mutable reference of a variable.
    pub fn val(&mut self, param: GlobalParam) -> (r: &mut U256)
        ensures
            *r == old(self)@[place_of(param)],
            final(self)@ == old(self)@.update(place_of(param), *final(r)),
            forall|i: int|
                0 <= i < TOTAL_GLOBAL_PARAMS && #[trigger] param_at(i) == param ==> *r == old(self)@[i] && final(self)@
                    == old(self)@.update(i, *final(r)),
    {
        let id: usize = param.id();
        &mut self.0[id]
    }
}

/// A variable that is loaded is what the conversion makes of the number in its own
/// raw value, and of zero where that is absent.
pub proof fn law_each_variable_is_loaded_from_its_raw_value<F: Fn(GlobalParam, U256) -> U256>(
    raw: Seq<Option<Vec<u8>>>,
    convert: F,
    stat: Seq<U256>,
    param: GlobalParam,
    n: U256,
)
    requires
        loads(raw, convert, stat),
        place_of(param) < raw.len() <= TOTAL_GLOBAL_PARAMS,
        holds_number(raw[place_of(param)], n.value()),
    ensures
        call_ensures(convert, (param, n), stat[place_of(param)]),
{
    let place = place_of(param);
    law_places_and_variables_match(param, place);
    if let Some(bytes) = raw[place] {
        law_encoding_is_decoded(bytes@, n.value());
    }
    assert(converted(convert, param_at(place), n.value(), stat[place]));
    let v = choose|v: U256|
        v.value() == n.value() && #[trigger] call_ensures(convert, (param_at(place), v), stat[place]);
    law_u256_value_is_unique(v, n);
}

/// What was committed is loaded again through a database that is read by name: where
/// the raw value of each variable is the encoding of what the database holds under its
/// name, and converting that back gives the committed value, the loaded variables are
/// those that were committed.
pub proof fn law_database_gives_back_what_was_committed<
    F: Fn(GlobalParam, U256) -> U256,
    G: Fn(GlobalParam, U256) -> U256,
>(
    stat: GlobalStat,
    from_vm_value: F,
    written: Seq<(GlobalParam, U256)>,
    raw_values: Seq<Option<Vec<u8>>>,
    into_vm_value: G,
    loaded: GlobalStat,
    param: GlobalParam,
)
    requires
        writes(stat@, from_vm_value, written),
        raw_values.len() == TOTAL_GLOBAL_PARAMS,
        holds_number(raw_values[place_of(param)], stored_by_name(written)[param].value()),
        forall|w: U256, x: U256| #[trigger]
            call_ensures(from_vm_value, (param, stat@[place_of(param)]), w) && #[trigger] call_ensures(
                into_vm_value,
                (param, w),
                x,
            ) ==> x == stat@[place_of(param)],
        loads(raw_values, into_vm_value, loaded@),
    ensures
        loaded@[place_of(param)] == stat@[place_of(param)],
{
    law_each_variable_is_written_once_under_its_name(stat@, from_vm_value, written, param);
    law_each_variable_is_loaded_from_its_raw_value(
        raw_values,
        into_vm_value,
        loaded@,
        param,
        stored_by_name(written)[param],
    );
}

/// A variable whose raw value was not read at all is zero.
pub proof fn law_variables_without_a_raw_value_are_zero<F: Fn(GlobalParam, U256) -> U256>(
    raw: Seq<Option<Vec<u8>>>,
    convert: F,
    stat: Seq<U256>,
    param: GlobalParam,
)
    requires
        loads(raw, convert, stat),
        raw.len() <= place_of(param),
    ensures
        stat[place_of(param)].value() == 0,
{
    law_places_and_variables_match(param, place_of(param));
}

/// There is at most one first read that is not zero, and none exactly where all reads
/// are zero. All before it are zero.
pub proof fn law_first_read_that_is_not_zero<E>(reads: Seq<Result<U256, E>>, i: int, j: int)
    ensures
        first_not_zero(reads, i) && first_not_zero(reads, j) ==> i == j,
        first_not_zero(reads, i) && 0 <= j < i ==> (reads[j] matches Ok(v) && v.value() == 0),
        (exists|k: int| first_not_zero(reads, k)) <==> (exists|k: int|
            0 <= k < reads.len() && !(#[trigger] reads[k] matches Ok(v) && v.value() == 0)),
{
    if first_not_zero(reads, i) && first_not_zero(reads, j) {
        if i < j {
            assert(reads[i] is Ok);
        } else if j < i {
            assert(reads[j] is Ok);
        }
    }
    if exists|k: int| 0 <= k < reads.len() && !(#[trigger] reads[k] matches Ok(v) && v.value() == 0) {
        let k = choose|k: int| 0 <= k < reads.len() && !(#[trigger] reads[k] matches Ok(v) && v.value() == 0);
        lemma_some_first_not_zero(reads, 0, k);
    }
    if exists|k: int| first_not_zero(reads, k) {
        let k = choose|k: int| first_not_zero(reads, k);
        assert(!(reads[k] matches Ok(v) && v.value() == 0));
    }
}

proof fn lemma_some_first_not_zero<E>(reads: Seq<Result<U256, E>>, from: int, k: int)
    requires
        0 <= from <= k < reads.len(),
        forall|j: int| 0 <= j < from ==> (#[trigger] reads[j] matches Ok(v) && v.value() == 0),
        !(reads[k] matches Ok(v) && v.value() == 0),
    ensures
        exists|i: int| first_not_zero(reads, i),
    decreases k - from,
{
    if reads[from] matches Ok(v) && v.value() == 0 {
        lemma_some_first_not_zero(reads, from + 1, k);
    } else {
        assert(first_not_zero(reads, from));
    }
}

/// The encoding of a number with anything behind it is decoded to that number, and
/// cut off anywhere it is refused.
pub proof fn law_encodings_are_self_delimiting(bytes: Seq<u8>, n: nat, behind: Seq<u8>, cut: int)
    requires
        is_rlp_of(bytes, n),
        0 <= cut < bytes.len(),
    ensures
        rlp_number(bytes + behind) == Some(n),
        rlp_number(bytes.take(cut)) is None,
{
    law_encoding_is_decoded(bytes, n);
    let more = bytes + behind;
    assert(more[0] == bytes[0]);
    if bytes.len() == 1 {
        assert(more.take(1) =~= bytes.take(1));
        assert(more.subrange(1, 1) =~= bytes.subrange(1, 1));
    } else {
        assert(more[1] == bytes[1]);
        assert(more.subrange(1, bytes.len() as int) =~= bytes.subrange(1, bytes.len() as int));
    }
}

/// The read at the place is the first one that is not zero.
pub open spec fn first_not_zero<E>(reads: Seq<Result<U256, E>>, i: int) -> bool {
    &&& 0 <= i < reads.len()
    &&& forall|j: int| 0 <= j < i ==> (#[trigger] reads[j] matches Ok(v) && v.value() == 0)
    &&& !(reads[i] matches Ok(v) && v.value() == 0)
}

/// What was committed is loaded again: where each raw value is the encoding of
/// what was written for its place, and converting it back gives the committed value,
/// the loaded variables are those that were committed.
pub proof fn law_loaded_is_what_was_committed<F: Fn(GlobalParam, U256) -> U256, G: Fn(GlobalParam, U256) -> U256>(
    stat: GlobalStat,
    from_vm_value: F,
    written: Seq<(GlobalParam, U256)>,
    raw_values: Seq<Option<Vec<u8>>>,
    into_vm_value: G,
    loaded: GlobalStat,
)
    requires
        stat@.len() == TOTAL_GLOBAL_PARAMS,
        writes(stat@, from_vm_value, written),
        raw_values.len() == TOTAL_GLOBAL_PARAMS,
        forall|i: int| 0 <= i < TOTAL_GLOBAL_PARAMS ==> holds_number(raw_values[i], (#[trigger] written[i]).1.value()),
        forall|i: int, w: U256, x: U256|
            0 <= i < TOTAL_GLOBAL_PARAMS && #[trigger] call_ensures(from_vm_value, (param_at(i), stat@[i]), w)
                && #[trigger] call_ensures(into_vm_value, (param_at(i), w), x) ==> x == stat@[i],
        loads(raw_values, into_vm_value, loaded@),
    ensures
        loaded@ == stat@,
{
    assert forall|i: int| 0 <= i < TOTAL_GLOBAL_PARAMS implies #[trigger] loaded@[i] == stat@[i] by {
        let w = written[i].1;
        assert(holds_number(raw_values[i], w.value()));
        if let Some(bytes) = raw_values[i] {
            law_encoding_is_decoded(bytes@, w.value());
        }
        assert(converted(into_vm_value, param_at(i), w.value(), loaded@[i]));
        let v = choose|v: U256|
            v.value() == w.value() && #[trigger] call_ensures(into_vm_value, (param_at(i), v), loaded@[i]);
        law_u256_value_is_unique(v, w);
        assert(call_ensures(from_vm_value, (param_at(i), stat@[i]), w));
    }
    assert(loaded@ =~= stat@);
}

} // verus!
