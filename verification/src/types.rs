use vstd::prelude::*;
use crate::conversion::{fiat_micro, fiat_value};
use crate::dates::MAX_TIMESTAMP;
use crate::parse::{dec_value, is_dec_numeral, parse_u128};

verus! {

/// A 160-bit account address, held as plain integers: the high 32 bits and
/// the low 128 bits.
#[derive(Clone, Copy, PartialEq, Eq, Structural, Debug)]
pub struct Address {
    pub hi: u32,
    pub lo: u128,
}

/// Why fetching or normalizing a record failed. Any one failure aborts the
/// whole run; no partial ledger is built.
#[derive(Clone, Copy, PartialEq, Eq, Structural, Debug)]
pub enum FetchError {
    /// A raw record field (timestamp or amount) was not a numeral the ledger
    /// accepts: the payload is malformed.
    MalformedRecord,
    /// No price is stored for the record's date.
    PriceUnavailable,
    /// A record's value is too large for the ledger's arithmetic.
    AmountOverflow,
}

/// Balance computation left the unsigned 128-bit range: an underflow below
/// zero or an overflow above the maximum. Fatal, never clamped.
#[derive(Clone, Copy, PartialEq, Eq, Structural, Debug)]
pub struct ArithmeticError;

/// One dated, priced ledger entry, constructed exactly once at
/// normalization time and never mutated.
#[derive(Debug)]
pub struct Reward {
    /// Block height the event happened at.
    pub block: u64,
    /// Free-form identifier: a transaction hash, a validator index, or empty.
    pub id: String,
    /// The event's date: a Unix timestamp in seconds, at most
    /// `MAX_TIMESTAMP`.
    pub date: u64,
    /// The amount in wei. Credits and debits are told apart by the event
    /// kind, never by a sign.
    pub amount: u128,
    /// Fiat price of one whole native unit at `date`, in micro-fiat.
    pub price: u64,
    /// `amount` converted to fiat at `price`, in micro-fiat; fixed at
    /// construction.
    pub fiat: u64,
}

impl Reward {
    /// Internal consistency: the date is a valid calendar timestamp and the
    /// fiat value is the one derived from amount and price.
    pub open spec fn wf(&self) -> bool {
        &&& self.date <= MAX_TIMESTAMP
        &&& self.fiat == fiat_micro(self.amount as int, self.price as int)
    }

    /// Builds one priced ledger entry from a raw record's fields and the
    /// resolved price for its date. The timestamp arrives as the raw
    /// record's text; a non-numeral or out-of-range timestamp is a malformed
    /// payload, and an amount whose fiat value cannot be represented is an
    /// overflow. Construction is the only place the fiat value is computed.
    pub fn new(block: u64, id: String, timestamp: &str, amount: u128, price: u64) -> (r: Result<
        Reward,
        FetchError,
    >)
        ensures
            r is Ok <==> is_dec_numeral(timestamp@) && dec_value(timestamp@) <= MAX_TIMESTAMP
                && fiat_micro(amount as int, price as int) <= u64::MAX,
            r matches Ok(rw) ==> {
                &&& rw.block == block
                &&& rw.id@ == id@
                &&& rw.date == dec_value(timestamp@)
                &&& rw.amount == amount
                &&& rw.price == price
                &&& rw.wf()
            },
            r matches Err(e) ==> e == (if is_dec_numeral(timestamp@) && dec_value(timestamp@)
                <= MAX_TIMESTAMP {
                FetchError::AmountOverflow
            } else {
                FetchError::MalformedRecord
            }),
    {
        let date = match parse_u128(timestamp) {
            Some(v) => {
                if v > MAX_TIMESTAMP as u128 {
                    return Err(FetchError::MalformedRecord);
                }
                v as u64
            }
            None => {
                return Err(FetchError::MalformedRecord);
            }
        };
        match fiat_value(amount, price) {
            Some(fiat) => Ok(Reward { block, id, date, amount, price, fiat }),
            None => Err(FetchError::AmountOverflow),
        }
    }
}

/// The mathematical value of a ledger entry: its fields, with the
/// identifier as a character sequence.
#[verifier::ext_equal]
pub struct RewardV {
    pub block: u64,
    pub id: Seq<char>,
    pub date: u64,
    pub amount: u128,
    pub price: u64,
    pub fiat: u64,
}

impl View for Reward {
    type V = RewardV;

    open spec fn view(&self) -> RewardV {
        RewardV {
            block: self.block,
            id: self.id@,
            date: self.date,
            amount: self.amount,
            price: self.price,
            fiat: self.fiat,
        }
    }
}

impl Clone for Reward {
    /// A clone is the same entry.
    fn clone(&self) -> (res: Self)
        ensures
            res == *self,
    {
        Reward {
            block: self.block,
            id: self.id.clone(),
            date: self.date,
            amount: self.amount,
            price: self.price,
            fiat: self.fiat,
        }
    }
}

/// One reconciled reward event: the kind tags whether the wrapped entry is a
/// credit or, for `Outgoing`, a debit that additionally burned a fee.
#[derive(Debug)]
pub enum RewardEvent {
    /// A beacon-chain withdrawal credited to a tracked address.
    Withdrawal { reward: Reward },
    /// A block production reward.
    ProducedBlock { reward: Reward },
    /// An execution-layer tip paid by a normal transaction.
    MevReward { reward: Reward },
    /// An execution-layer tip paid by an internal transaction.
    MevRewardInternal { reward: Reward },
    /// A transfer out of a tracked address; `fee` is the gas cost in wei.
    Outgoing { reward: Reward, fee: u128 },
}

/// The mathematical value of a reward event.
#[verifier::ext_equal]
pub enum RewardEventV {
    Withdrawal { reward: RewardV },
    ProducedBlock { reward: RewardV },
    MevReward { reward: RewardV },
    MevRewardInternal { reward: RewardV },
    Outgoing { reward: RewardV, fee: u128 },
}

impl View for RewardEvent {
    type V = RewardEventV;

    open spec fn view(&self) -> RewardEventV {
        match self {
            RewardEvent::Withdrawal { reward } => RewardEventV::Withdrawal { reward: reward@ },
            RewardEvent::ProducedBlock { reward } => RewardEventV::ProducedBlock {
                reward: reward@,
            },
            RewardEvent::MevReward { reward } => RewardEventV::MevReward { reward: reward@ },
            RewardEvent::MevRewardInternal { reward } => RewardEventV::MevRewardInternal {
                reward: reward@,
            },
            RewardEvent::Outgoing { reward, fee } => RewardEventV::Outgoing {
                reward: reward@,
                fee: *fee,
            },
        }
    }
}

impl Clone for RewardEvent {
    /// A clone is the same event.
    fn clone(&self) -> (res: Self)
        ensures
            res == *self,
    {
        match self {
            RewardEvent::Withdrawal { reward } => RewardEvent::Withdrawal { reward: reward.clone() },
            RewardEvent::ProducedBlock { reward } => RewardEvent::ProducedBlock {
                reward: reward.clone(),
            },
            RewardEvent::MevReward { reward } => RewardEvent::MevReward { reward: reward.clone() },
            RewardEvent::MevRewardInternal { reward } => RewardEvent::MevRewardInternal {
                reward: reward.clone(),
            },
            RewardEvent::Outgoing { reward, fee } => RewardEvent::Outgoing {
                reward: reward.clone(),
                fee: *fee,
            },
        }
    }
}

impl RewardEvent {
    /// The entry every kind wraps.
    pub open spec fn spec_reward(&self) -> Reward {
        match self {
            RewardEvent::Withdrawal { reward } => *reward,
            RewardEvent::ProducedBlock { reward } => *reward,
            RewardEvent::MevReward { reward } => *reward,
            RewardEvent::MevRewardInternal { reward } => *reward,
            RewardEvent::Outgoing { reward, .. } => *reward,
        }
    }

    /// The date the event is ordered by.
    pub open spec fn spec_date(&self) -> u64 {
        self.spec_reward().date
    }

    /// Whether this kind credits the balance; only `Outgoing` debits it.
    pub open spec fn is_credit(&self) -> bool {
        !(self matches RewardEvent::Outgoing { .. })
    }

    /// Internal consistency of the wrapped entry.
    pub open spec fn wf(&self) -> bool {
        self.spec_reward().wf()
    }

    /// The entry every kind wraps.
    pub fn reward(&self) -> (r: &Reward)
        ensures
            *r == self.spec_reward(),
    {
        match self {
            RewardEvent::Withdrawal { reward } => reward,
            RewardEvent::ProducedBlock { reward } => reward,
            RewardEvent::MevReward { reward } => reward,
            RewardEvent::MevRewardInternal { reward } => reward,
            RewardEvent::Outgoing { reward, .. } => reward,
        }
    }

    /// The date the event is ordered by.
    pub fn date(&self) -> (d: u64)
        ensures
            d == self.spec_date(),
    {
        self.reward().date
    }

    /// The label the report prints for this kind of event.
    pub open spec fn spec_kind_label(&self) -> Seq<char> {
        match self {
            RewardEvent::Withdrawal { .. } => "Withdrawal"@,
            RewardEvent::ProducedBlock { .. } => "Block"@,
            RewardEvent::MevReward { .. } => "MevReward"@,
            RewardEvent::MevRewardInternal { .. } => "MevRewardInternal"@,
            RewardEvent::Outgoing { .. } => "Fee"@,
        }
    }

    /// The label the report prints for this kind of event.
    pub fn kind_label(&self) -> (s: &'static str)
        ensures
            s@ == self.spec_kind_label(),
    {
        match self {
            RewardEvent::Withdrawal { .. } => "Withdrawal",
            RewardEvent::ProducedBlock { .. } => "Block",
            RewardEvent::MevReward { .. } => "MevReward",
            RewardEvent::MevRewardInternal { .. } => "MevRewardInternal",
            RewardEvent::Outgoing { .. } => "Fee",
        }
    }

    /// The fee an `Outgoing` event burned, if this is one.
    pub fn fee(&self) -> (r: Option<u128>)
        ensures
            r == (match self {
                RewardEvent::Outgoing { fee, .. } => Some(*fee),
                _ => None::<u128>,
            }),
    {
        match self {
            RewardEvent::Outgoing { fee, .. } => Some(*fee),
            _ => None,
        }
    }
}

/// A produced block as the block explorer reports it: the reward arrives as
/// a decimal wei numeral and the timestamp as decimal seconds.
pub struct RawBlock {
    pub block_number: u64,
    pub time_stamp: String,
    pub block_reward: String,
}

/// A normal transaction as the block explorer reports it. `from` or `to` may
/// be absent (a genesis record or a contract creation), and the gas price
/// may be absent; the ledger treats records it cannot read as malformed.
pub struct RawTransaction {
    pub block_number: u64,
    pub hash: String,
    pub time_stamp: String,
    pub from: Option<Address>,
    pub to: Option<Address>,
    pub value: u128,
    pub gas_used: u128,
    pub gas_price: Option<u128>,
}

/// An internal transaction credited to a tracked address.
pub struct RawInternalTransaction {
    pub block_number: u64,
    pub hash: String,
    pub time_stamp: String,
    pub value: u128,
}

/// A beacon-chain withdrawal; the amount arrives as a decimal Gwei numeral.
pub struct RawWithdrawal {
    pub block_number: u64,
    pub validator_index: u64,
    pub timestamp: String,
    pub amount: String,
}

} // verus!
