//! A single ledger transaction.

use vstd::prelude::*;
use vstd::string::StringExecFns;

use crate::ident;
use crate::timefmt;

verus! {

/// Mathematical value of a [`Record`].
pub ghost struct RecordV {
    pub id: u128,
    pub recipient: Seq<char>,
    pub amount: i32,
    pub time: i64,
}

/// A storable record: its timestamp lies in the range the canonical text
/// form covers.
pub open spec fn record_wf(r: RecordV) -> bool {
    timefmt::time_in_range(r.time)
}

/// One transaction: a recipient, a signed amount, a creation time, and a
/// unique identifier.  Equality is by identifier alone, and the identifier
/// never changes once the record exists.
pub struct Record {
    transaction_id: u128,
    recipient: String,
    transaction_amount: i32,
    transaction_time: i64,
}

impl View for Record {
    type V = RecordV;

    closed spec fn view(&self) -> RecordV {
        RecordV {
            id: self.transaction_id,
            recipient: self.recipient@,
            amount: self.transaction_amount,
            time: self.transaction_time,
        }
    }
}

impl Record {
    /// A record with every field given.
    pub fn from_parts(id: u128, name: &str, amount: i32, time: i64) -> (r: Record)
        requires
            timefmt::time_in_range(time),
        ensures
            r@ == (RecordV { id, recipient: name@, amount, time }),
            record_wf(r@),
    {
        Record {
            transaction_id: id,
            recipient: String::from_str(name),
            transaction_amount: amount,
            transaction_time: time,
        }
    }

    /// A fresh record: a random identifier and the clock's current time,
    /// clamped into the storable range.
    pub fn new(name: &str, amount: i32) -> (r: Record)
        ensures
            r@.recipient == name@,
            r@.amount == amount,
            record_wf(r@),
    {
        let now = timefmt::now_timestamp();
        let time: i64 = if now < 0 {
            0
        } else if now > timefmt::MAX_TIMESTAMP {
            timefmt::MAX_TIMESTAMP
        } else {
            now
        };
        Record {
            transaction_id: ident::fresh_id(),
            recipient: String::from_str(name),
            transaction_amount: amount,
            transaction_time: time,
        }
    }

    /// The recipient's name.
    pub fn name(&self) -> (r: &str)
        ensures
            r@ == self@.recipient,
    {
        self.recipient.as_str()
    }

    /// The transaction amount.
    pub fn amount(&self) -> (r: i32)
        ensures
            r == self@.amount,
    {
        self.transaction_amount
    }

    /// The creation time, in seconds since the Unix epoch.
    pub fn time(&self) -> (r: i64)
        ensures
            r == self@.time,
    {
        self.transaction_time
    }

    /// The unique identifier.
    pub fn id(&self) -> (r: u128)
        ensures
            r == self@.id,
    {
        self.transaction_id
    }

    /// A fresh record holding the same value.
    pub fn duplicate(&self) -> (r: Record)
        ensures
            r@ == self@,
    {
        Record {
            transaction_id: self.transaction_id,
            recipient: self.recipient.clone(),
            transaction_amount: self.transaction_amount,
            transaction_time: self.transaction_time,
        }
    }
}

impl PartialEq for Record {
    fn eq(&self, other: &Record) -> bool {
        self.transaction_id == other.transaction_id
    }
}

impl vstd::std_specs::cmp::PartialEqSpecImpl for Record {
    open spec fn obeys_eq_spec() -> bool {
        true
    }

    open spec fn eq_spec(&self, other: &Record) -> bool {
        self@.id == other@.id
    }
}

} // verus!
