//! The ledger: an append-only ordered sequence of records, and the
//! per-recipient aggregation over it.

use vstd::prelude::*;
use vstd::string::StringExecFns;

use crate::record::{record_wf, Record, RecordV};
use crate::text;

verus! {

/// The most records a ledger holds; any per-recipient sum of that many `i32`
/// amounts still fits in an `i64`.
pub const LEDGER_CAP: usize = 0xFFFF_FFFE;

/// A well-formed ledger: bounded in length, every record storable.
pub open spec fn ledger_wf(l: Seq<RecordV>) -> bool {
    &&& l.len() <= LEDGER_CAP
    &&& forall|i: int| 0 <= i < l.len() ==> record_wf(#[trigger] l[i])
}

/// The sum of all amounts paid to `name`, over the whole of `l`.
pub open spec fn sum_for(l: Seq<RecordV>, name: Seq<char>) -> int
    decreases l.len(),
{
    if l.len() == 0 {
        0
    } else {
        sum_for(l.drop_last(), name) + if l.last().recipient == name {
            l.last().amount as int
        } else {
            0
        }
    }
}

/// The distinct recipients of `l`, each at its first appearance, in order.
pub open spec fn seen_recipients(l: Seq<RecordV>) -> Seq<Seq<char>>
    decreases l.len(),
{
    if l.len() == 0 {
        Seq::empty()
    } else {
        let prior = seen_recipients(l.drop_last());
        if prior.contains(l.last().recipient) {
            prior
        } else {
            prior.push(l.last().recipient)
        }
    }
}

/// The aggregation: one entry per distinct recipient, in first-seen order,
/// carrying that recipient's total.
pub open spec fn totals_of(l: Seq<RecordV>) -> Seq<(Seq<char>, int)> {
    seen_recipients(l).map_values(|n: Seq<char>| (n, sum_for(l, n)))
}

/// The mathematical value of an aggregation result.
pub open spec fn pairs_view(s: Seq<(String, i64)>) -> Seq<(Seq<char>, int)> {
    s.map_values(|p: (String, i64)| (p.0@, p.1 as int))
}

/// Two ledgers agree record for record on identity.
pub open spec fn same_identities(a: Seq<RecordV>, b: Seq<RecordV>) -> bool {
    a.len() == b.len() && forall|i: int| 0 <= i < a.len() ==> a[i].id == b[i].id
}

proof fn lemma_sum_for_bound(l: Seq<RecordV>, name: Seq<char>)
    ensures
        -(l.len() * 0x8000_0000) <= sum_for(l, name) <= l.len() * 0x8000_0000,
    decreases l.len(),
{
    if l.len() > 0 {
        lemma_sum_for_bound(l.drop_last(), name);
    }
}

proof fn lemma_seen_distinct(l: Seq<RecordV>)
    ensures
        forall|i: int, j: int|
            0 <= i < j < seen_recipients(l).len() ==> seen_recipients(l)[i]
                != seen_recipients(l)[j],
    decreases l.len(),
{
    if l.len() > 0 {
        lemma_seen_distinct(l.drop_last());
        let prior = seen_recipients(l.drop_last());
        let s = seen_recipients(l);
        if !prior.contains(l.last().recipient) {
            assert forall|i: int, j: int| 0 <= i < j < s.len() implies s[i] != s[j] by {
                if j == prior.len() && s[i] == s[j] {
                    assert(prior[i] == l.last().recipient);
                    assert(prior.contains(l.last().recipient));
                }
            }
        }
    }
}

proof fn lemma_unseen_sum_zero(l: Seq<RecordV>, name: Seq<char>)
    requires
        !seen_recipients(l).contains(name),
    ensures
        sum_for(l, name) == 0,
    decreases l.len(),
{
    if l.len() > 0 {
        let prior = seen_recipients(l.drop_last());
        let s = seen_recipients(l);
        assert forall|m: int| 0 <= m < prior.len() implies prior[m] != name by {
            assert(s[m] == prior[m]);
        }
        assert(!prior.contains(name));
        if l.last().recipient == name {
            if prior.contains(name) {
            } else {
                assert(s.last() == name);
                assert(s.contains(name));
            }
        }
        lemma_unseen_sum_zero(l.drop_last(), name);
    }
}

/// Law: the aggregation carries an entry for a recipient exactly when some
/// record in the ledger pays that recipient.
pub proof fn lemma_totals_cover_recipients(l: Seq<RecordV>, name: Seq<char>)
    ensures
        seen_recipients(l).contains(name) <==> exists|i: int|
            0 <= i < l.len() && l[i].recipient == name,
    decreases l.len(),
{
    if l.len() > 0 {
        let prior = seen_recipients(l.drop_last());
        let s = seen_recipients(l);
        lemma_totals_cover_recipients(l.drop_last(), name);
        if s.contains(name) {
            let k = choose|k: int| 0 <= k < s.len() && s[k] == name;
            if k < prior.len() {
                assert(prior[k] == name);
                assert(prior.contains(name));
            } else {
                assert(l.last().recipient == name);
                assert(l[l.len() - 1].recipient == name);
            }
            if prior.contains(name) {
                let i = choose|i: int|
                    0 <= i < l.drop_last().len() && l.drop_last()[i].recipient == name;
                assert(l[i].recipient == name);
            }
        }
        if exists|i: int| 0 <= i < l.len() && l[i].recipient == name {
            let i = choose|i: int| 0 <= i < l.len() && l[i].recipient == name;
            if i < l.len() - 1 {
                assert(l.drop_last()[i].recipient == name);
                assert(exists|j: int|
                    0 <= j < l.drop_last().len() && l.drop_last()[j].recipient == name);
                let k = choose|k: int| 0 <= k < prior.len() && prior[k] == name;
                assert(s[k] == name);
                assert(s.contains(name));
            } else {
                if prior.contains(l.last().recipient) {
                    let k = choose|k: int|
                        0 <= k < prior.len() && prior[k] == l.last().recipient;
                    assert(s[k] == name);
                    assert(s.contains(name));
                } else {
                    assert(s[s.len() - 1] == name);
                    assert(s.contains(name));
                }
            }
        }
    }
}

/// Finds the first aggregation entry carrying `name`, if any.
fn find_name(acc: &Vec<(String, i64)>, name: &str) -> (r: Option<usize>)
    ensures
        match r {
            Some(k) => k < acc@.len() && acc@[k as int].0@ == name@,
            None => forall|m: int| 0 <= m < acc@.len() ==> acc@[m].0@ != name@,
        },
{
    let mut k: usize = 0;
    while k < acc.len()
        invariant
            k <= acc@.len(),
            forall|m: int| 0 <= m < k ==> acc@[m].0@ != name@,
        decreases acc@.len() - k,
    {
        if text::str_eq(acc[k].0.as_str(), name) {
            return Some(k);
        }
        k = k + 1;
    }
    None
}

/// The ordered, append-only collection of records.  It is the sole owner of
/// its records; callers get snapshots.
pub struct Ledger {
    records: Vec<Record>,
}

impl View for Ledger {
    type V = Seq<RecordV>;

    closed spec fn view(&self) -> Seq<RecordV> {
        self.records@.map_values(|r: Record| r@)
    }
}

impl Ledger {
    /// The empty ledger.
    pub fn new() -> (r: Ledger)
        ensures
            r@ == Seq::<RecordV>::empty(),
            ledger_wf(r@),
    {
        let r = Ledger { records: Vec::new() };
        proof {
            assert(r@ =~= Seq::<RecordV>::empty());
        }
        r
    }

    /// How many records the ledger holds.
    pub fn len(&self) -> (n: usize)
        ensures
            n == self@.len(),
    {
        self.records.len()
    }

    /// Appends a fresh record paying `amount` to `name`, stamped with a new
    /// identifier and the current clock.
    pub fn add_entry(&mut self, name: &str, amount: i32)
        requires
            old(self)@.len() < LEDGER_CAP,
            ledger_wf(old(self)@),
        ensures
            final(self)@.len() == old(self)@.len() + 1,
            final(self)@.drop_last() == old(self)@,
            final(self)@.last().recipient == name@,
            final(self)@.last().amount == amount,
            ledger_wf(final(self)@),
    {
        let rec = Record::new(name, amount);
        let ghost prior = self@;
        self.records.push(rec);
        proof {
            assert(self@ =~= prior.push(rec@));
            assert(self@.drop_last() =~= prior);
        }
    }

    /// Appends the given record unchanged.
    pub fn add_record(&mut self, rec: Record)
        requires
            old(self)@.len() < LEDGER_CAP,
            ledger_wf(old(self)@),
            record_wf(rec@),
        ensures
            final(self)@ == old(self)@.push(rec@),
            ledger_wf(final(self)@),
    {
        let ghost prior = self@;
        self.records.push(rec);
        proof {
            assert(self@ =~= prior.push(rec@));
        }
    }

    /// A snapshot of all records, in append order.
    pub fn entries(&self) -> (r: Vec<Record>)
        ensures
            r@.map_values(|x: Record| x@) == self@,
    {
        let mut out: Vec<Record> = Vec::new();
        let mut i: usize = 0;
        while i < self.records.len()
            invariant
                i <= self@.len(),
                self@.len() == self.records@.len(),
                out@.len() == i,
                forall|m: int| 0 <= m < i ==> out@[m]@ == self@[m],
            decreases self@.len() - i,
        {
            out.push(self.records[i].duplicate());
            i = i + 1;
        }
        proof {
            assert(out@.map_values(|x: Record| x@) =~= self@);
        }
        out
    }

    /// The per-recipient totals, one entry per distinct recipient in
    /// first-seen order.  An empty ledger yields the empty aggregation.
    pub fn totals(&self) -> (r: Vec<(String, i64)>)
        requires
            ledger_wf(self@),
        ensures
            pairs_view(r@) == totals_of(self@),
    {
        let ghost l = self@;
        let mut acc: Vec<(String, i64)> = Vec::new();
        let mut j: usize = 0;
        while j < self.records.len()
            invariant
                l == self@,
                ledger_wf(l),
                l.len() == self.records@.len(),
                j <= l.len(),
                acc@.len() == seen_recipients(l.take(j as int)).len(),
                forall|m: int|
                    0 <= m < acc@.len() ==> #[trigger] acc@[m].0@ == seen_recipients(
                        l.take(j as int),
                    )[m] && acc@[m].1 as int == sum_for(
                        l.take(j as int),
                        seen_recipients(l.take(j as int))[m],
                    ),
            decreases l.len() - j,
        {
            let rec = &self.records[j];
            let ghost pre = l.take(j as int);
            let ghost post = l.take(j as int + 1);
            proof {
                assert(rec@ == l[j as int]);
                assert(post.drop_last() =~= pre);
                assert(post.last() == l[j as int]);
                assert(pre.len() == j as int);
                lemma_seen_distinct(pre);
            }
            match find_name(&acc, rec.name()) {
                Some(k) => {
                    proof {
                        assert(seen_recipients(pre)[k as int] == l[j as int].recipient);
                        assert(seen_recipients(pre).contains(l[j as int].recipient));
                        assert(seen_recipients(post) == seen_recipients(pre));
                        lemma_sum_for_bound(pre, seen_recipients(pre)[k as int]);
                    }
                    let add = rec.amount() as i64;
                    let cur = acc[k].1;
                    let ghost acc0 = acc@;
                    acc[k].1 = cur + add;
                    proof {
                        assert forall|m: int| 0 <= m < acc@.len() implies #[trigger] acc@[m].0@
                            == seen_recipients(post)[m] && acc@[m].1 as int == sum_for(
                            post,
                            seen_recipients(post)[m],
                        ) by {
                            let name_m = seen_recipients(pre)[m];
                            assert(acc0[m].0@ == seen_recipients(pre)[m]);
                            assert(acc0[m].1 as int == sum_for(pre, name_m));
                            if m == k as int {
                                assert(acc@[m].0 == acc0[m].0);
                                assert(acc@[m].1 == cur + add);
                                assert(sum_for(post, name_m) == sum_for(pre, name_m) + l[j
                                    as int].amount as int);
                            } else {
                                assert(acc@[m] == acc0[m]);
                                assert(name_m != seen_recipients(pre)[k as int]);
                                assert(sum_for(post, name_m) == sum_for(pre, name_m));
                            }
                        }
                    }
                },
                None => {
                    proof {
                        assert forall|m: int|
                            0 <= m < seen_recipients(pre).len() implies seen_recipients(pre)[m]
                            != l[j as int].recipient by {
                            assert(acc@[m].0@ == seen_recipients(pre)[m]);
                        }
                        assert(!seen_recipients(pre).contains(l[j as int].recipient));
                        assert(seen_recipients(post) == seen_recipients(pre).push(
                            l[j as int].recipient,
                        ));
                        lemma_unseen_sum_zero(pre, l[j as int].recipient);
                    }
                    let name = String::from_str(rec.name());
                    let amt = rec.amount() as i64;
                    let ghost acc0 = acc@;
                    acc.push((name, amt));
                    proof {
                        assert forall|m: int| 0 <= m < acc@.len() implies #[trigger] acc@[m].0@
                            == seen_recipients(post)[m] && acc@[m].1 as int == sum_for(
                            post,
                            seen_recipients(post)[m],
                        ) by {
                            if m < acc@.len() - 1 {
                                let name_m = seen_recipients(pre)[m];
                                assert(acc@[m] == acc0[m]);
                                assert(acc0[m].0@ == seen_recipients(pre)[m]);
                                assert(acc0[m].1 as int == sum_for(pre, name_m));
                                assert(name_m != l[j as int].recipient);
                                assert(sum_for(post, name_m) == sum_for(pre, name_m));
                            } else {
                                assert(seen_recipients(post)[m] == l[j as int].recipient);
                                assert(sum_for(post, l[j as int].recipient) == l[j
                                    as int].amount as int);
                            }
                        }
                    }
                },
            }
            j = j + 1;
        }
        proof {
            assert(l.take(l.len() as int) =~= l);
            assert(pairs_view(acc@) =~= totals_of(l));
        }
        acc
    }

    /// The total paid to one recipient over the whole ledger.
    pub fn total(&self, name: &str) -> (r: i64)
        requires
            ledger_wf(self@),
        ensures
            r as int == sum_for(self@, name@),
    {
        let ghost l = self@;
        let mut sum: i64 = 0;
        let mut j: usize = 0;
        while j < self.records.len()
            invariant
                l == self@,
                ledger_wf(l),
                l.len() == self.records@.len(),
                j <= l.len(),
                sum as int == sum_for(l.take(j as int), name@),
            decreases l.len() - j,
        {
            let rec = &self.records[j];
            proof {
                assert(rec@ == l[j as int]);
                assert(l.take(j as int + 1).drop_last() =~= l.take(j as int));
                lemma_sum_for_bound(l.take(j as int), name@);
                assert(l.take(j as int).len() == j as int);
            }
            if text::str_eq(rec.name(), name) {
                sum = sum + rec.amount() as i64;
            }
            j = j + 1;
        }
        proof {
            assert(l.take(l.len() as int) =~= l);
        }
        sum
    }
}

impl PartialEq for Ledger {
    fn eq(&self, other: &Ledger) -> bool {
        if self.records.len() != other.records.len() {
            return false;
        }
        let mut i: usize = 0;
        while i < self.records.len()
            invariant
                self.records@.len() == other.records@.len(),
                i <= self.records@.len(),
                forall|m: int| 0 <= m < i ==> self@[m].id == other@[m].id,
            decreases self.records@.len() - i,
        {
            let same = self.records[i] == other.records[i];
            if !same {
                proof {
                    assert(self@[i as int].id != other@[i as int].id);
                }
                return false;
            }
            i = i + 1;
        }
        true
    }
}

impl vstd::std_specs::cmp::PartialEqSpecImpl for Ledger {
    open spec fn obeys_eq_spec() -> bool {
        true
    }

    open spec fn eq_spec(&self, other: &Ledger) -> bool {
        same_identities(self@, other@)
    }
}

} // verus!
