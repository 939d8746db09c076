//! The stake of the voters, the threshold that follows from it, and why two
//! quorums always share a voter.

use vstd::prelude::*;
use crate::certificate::{has_key, keys_distinct, total_weight, VoteRecord};
use crate::election::{ElectionError, VoteToken};
use crate::signature_key::EncodedPublicKey;

verus! {

/// One voter's stake.
#[derive(Debug)]
pub struct StakeEntry {
    /// The voter.
    pub key: EncodedPublicKey,
    /// The weight of the voter's vote. It is not zero.
    pub stake: u64,
}

/// The model of a [`StakeEntry`].
pub ghost struct StakeRecord {
    pub key: Seq<u8>,
    pub stake: nat,
}

impl View for StakeEntry {
    type V = StakeRecord;

    open spec fn view(&self) -> StakeRecord {
        StakeRecord { key: self.key@, stake: self.stake as nat }
    }
}

/// The stake that the voters among `keys` hold together.
pub open spec fn stake_in(table: Seq<StakeRecord>, keys: Set<Seq<u8>>) -> nat
    decreases table.len(),
{
    if table.len() == 0 {
        0
    } else {
        stake_in(table.drop_last(), keys) + if keys.contains(table.last().key) {
            table.last().stake
        } else {
            0
        }
    }
}

/// The stake of all voters together.
pub open spec fn total_stake(table: Seq<StakeRecord>) -> nat {
    stake_in(table, Set::full())
}

/// The stake of one voter; zero for a stranger.
pub open spec fn stake_of(table: Seq<StakeRecord>, key: Seq<u8>) -> nat {
    stake_in(table, set![key])
}

/// The stake that a certificate needs where the voters hold `total`
/// together: more than two thirds of it.
pub open spec fn threshold_for(total: nat) -> nat {
    2 * total / 3 + 1
}

/// Whether no voter has two entries and none has no stake.
pub open spec fn table_well_formed(table: Seq<StakeRecord>) -> bool {
    &&& forall|i: int, j: int|
        0 <= i < j < table.len() ==> #[trigger] table[i].key != #[trigger] table[j].key
    &&& forall|i: int| 0 <= i < table.len() ==> (#[trigger] table[i]).stake >= 1
}

/// The stake of one voter is the stake of the entry under the voter's key,
/// where one is there.
pub proof fn lemma_stake_of_entry(table: Seq<StakeRecord>, i: int)
    requires
        table_well_formed(table),
        0 <= i < table.len(),
    ensures
        stake_of(table, table[i].key) == table[i].stake,
    decreases table.len(),
{
    let key = table[i].key;
    let rest = table.drop_last();
    if i == table.len() - 1 {
        assert forall|j: int| 0 <= j < rest.len() implies (#[trigger] rest[j]).key != key by {
            assert(table[j].key != table[i].key);
        }
        lemma_stake_of_stranger(rest, key);
    } else {
        assert(table[i].key != table[table.len() - 1].key);
        assert(rest[i] == table[i]);
        lemma_stake_of_entry(rest, i);
    }
}

/// A voter without an entry holds no stake.
pub proof fn lemma_stake_of_stranger(table: Seq<StakeRecord>, key: Seq<u8>)
    requires
        forall|j: int| 0 <= j < table.len() ==> (#[trigger] table[j]).key != key,
    ensures
        stake_of(table, key) == 0,
    decreases table.len(),
{
    if table.len() > 0 {
        let rest = table.drop_last();
        assert forall|j: int| 0 <= j < rest.len() implies (#[trigger] rest[j]).key != key by {
            assert(rest[j] == table[j]);
        }
        lemma_stake_of_stranger(rest, key);
        assert(table.last() == table[table.len() - 1]);
    }
}

/// One more entry adds its stake to the total.
pub proof fn lemma_total_stake_push(table: Seq<StakeRecord>, record: StakeRecord)
    ensures
        total_stake(table.push(record)) == total_stake(table) + record.stake,
{
    assert(table.push(record).drop_last() =~= table);
}

/// The stake of the voters, one entry for each.
#[derive(Debug)]
pub struct StakeTable {
    entries: Vec<StakeEntry>,
    total: u64,
}

impl View for StakeTable {
    type V = Seq<StakeRecord>;

    closed spec fn view(&self) -> Seq<StakeRecord> {
        Seq::new(self.entries@.len(), |i: int| self.entries@[i]@)
    }
}

impl StakeTable {
    #[verifier::type_invariant]
    spec fn sound(self) -> bool {
        &&& table_well_formed(self@)
        &&& self.total == total_stake(self@)
    }

    /// A table without voters.
    pub fn new() -> (table: Self)
        ensures
            table@ == Seq::<StakeRecord>::empty(),
    {
        let table = StakeTable { entries: Vec::new(), total: 0 };
        assert(table@ =~= Seq::<StakeRecord>::empty());
        table
    }

    /// The number of voters. No voter has two entries and none has no stake.
    pub fn len(&self) -> (n: usize)
        ensures
            n == self@.len(),
            table_well_formed(self@),
    {
        proof {
            use_type_invariant(self);
        }
        self.entries.len()
    }

    /// The entry at a place.
    pub fn get(&self, index: usize) -> (entry: &StakeEntry)
        requires
            index < self@.len(),
        ensures
            entry@ == self@[index as int],
    {
        &self.entries[index]
    }

    /// The stake of all voters together.
    pub fn total_stake(&self) -> (total: u64)
        ensures
            total == total_stake(self@),
    {
        proof {
            use_type_invariant(self);
        }
        self.total
    }

    /// The stake that a certificate needs: the floor of two thirds of the
    /// total, and one.
    pub fn threshold(&self) -> (threshold: u64)
        ensures
            threshold == threshold_for(total_stake(self@)),
            threshold >= 1,
    {
        proof {
            use_type_invariant(self);
        }
        let third = self.total / 3;
        let rest = self.total % 3;
        assert(2 * (self.total as int) / 3 == 2 * (third as int) + 2 * (rest as int) / 3) by {
            assert(self.total == 3 * third + rest);
        }
        2 * third + (2 * rest) / 3 + 1
    }

    /// The place of the entry of a voter, if the voter has one.
    pub fn position(&self, key: &EncodedPublicKey) -> (found: Option<usize>)
        ensures
            found matches Some(i) ==> i < self@.len() && self@[i as int].key == key@,
            found is None ==> forall|j: int| 0 <= j < self@.len() ==> (#[trigger] self@[j]).key != key@,
    {
        let mut i: usize = 0;
        while i < self.entries.len()
            invariant
                i <= self.entries@.len(),
                forall|j: int| 0 <= j < i ==> (#[trigger] self@[j]).key != key@,
            decreases self.entries@.len() - i,
        {
            if self.entries[i].key.same_as(key) {
                assert(self@[i as int].key == key@);
                return Some(i);
            }
            i += 1;
        }
        None
    }

    /// The stake of one voter; zero for a stranger.
    pub fn stake_of(&self, key: &EncodedPublicKey) -> (stake: u64)
        ensures
            stake == stake_of(self@, key@),
    {
        proof {
            use_type_invariant(self);
        }
        match self.position(key) {
            Some(i) => {
                proof {
                    lemma_stake_of_entry(self@, i as int);
                }
                self.entries[i].stake
            },
            None => {
                proof {
                    lemma_stake_of_stranger(self@, key@);
                }
                0
            },
        }
    }

    /// Gives a voter an entry. A voter that has one keeps it, and a voter
    /// without stake gets none: the answer is then `Ok(false)`. Where the
    /// total would no longer fit, nothing changes and the answer is a math
    /// error.
    pub fn insert(&mut self, key: EncodedPublicKey, stake: u64) -> (inserted: Result<bool, ElectionError>)
        ensures
            inserted == if stake == 0 || stake_of(old(self)@, key@) > 0 {
                Ok::<bool, ElectionError>(false)
            } else if total_stake(old(self)@) + stake > u64::MAX {
                Err::<bool, ElectionError>(ElectionError::MathError)
            } else {
                Ok::<bool, ElectionError>(true)
            },
            inserted == Ok::<bool, ElectionError>(true) ==> final(self)@ == old(self)@.push(
                StakeRecord { key: key@, stake: stake as nat },
            ),
            inserted != Ok::<bool, ElectionError>(true) ==> final(self)@ == old(self)@,
    {
        proof {
            use_type_invariant(&*self);
        }
        let ghost before = self@;
        if stake == 0 {
            return Ok(false);
        }
        match self.position(&key) {
            Some(i) => {
                proof {
                    lemma_stake_of_entry(before, i as int);
                }
                return Ok(false);
            },
            None => {
                proof {
                    lemma_stake_of_stranger(before, key@);
                }
            },
        }
        let total = match self.total.checked_add(stake) {
            Some(total) => total,
            None => {
                return Err(ElectionError::MathError);
            },
        };
        let ghost record = StakeRecord { key: key@, stake: stake as nat };
        let mut taken = StakeTable::new();
        core::mem::swap(&mut taken, self);
        let mut entries = taken.entries;
        entries.push(StakeEntry { key, stake });
        proof {
            assert(Seq::new(entries@.len(), |i: int| entries@[i]@) =~= before.push(record));
            lemma_total_stake_push(before, record);
        }
        *self = StakeTable { entries, total };
        Ok(true)
    }
}

impl Clone for StakeTable {
    /// A copy with the same entries in the same order.
    fn clone(&self) -> (copy: Self)
        ensures
            copy@ == self@,
    {
        proof {
            use_type_invariant(self);
        }
        let mut entries: Vec<StakeEntry> = Vec::new();
        let mut i: usize = 0;
        while i < self.entries.len()
            invariant
                i <= self.entries@.len(),
                entries@.len() == i,
                forall|j: int| 0 <= j < i ==> (#[trigger] entries@[j])@ == self.entries@[j]@,
            decreases self.entries@.len() - i,
        {
            let entry = &self.entries[i];
            entries.push(StakeEntry { key: entry.key.clone(), stake: entry.stake });
            i += 1;
        }
        assert(Seq::new(entries@.len(), |i: int| entries@[i]@) =~= self@);
        StakeTable { entries, total: self.total }
    }
}

/// The voters of a set of votes.
pub open spec fn voters<T>(records: Seq<VoteRecord<T>>) -> Set<Seq<u8>> {
    Set::new(|key: Seq<u8>| has_key(records, key))
}

/// Two sets of voters hold together what their union and what they share hold.
pub proof fn lemma_stake_in_union(table: Seq<StakeRecord>, a: Set<Seq<u8>>, b: Set<Seq<u8>>)
    ensures
        stake_in(table, a) + stake_in(table, b) == stake_in(table, a.union(b)) + stake_in(
            table,
            a.intersect(b),
        ),
    decreases table.len(),
{
    if table.len() > 0 {
        lemma_stake_in_union(table.drop_last(), a, b);
    }
}

/// More voters hold no less stake.
pub proof fn lemma_stake_in_subset(table: Seq<StakeRecord>, a: Set<Seq<u8>>, b: Set<Seq<u8>>)
    requires
        a.subset_of(b),
    ensures
        stake_in(table, a) <= stake_in(table, b),
    decreases table.len(),
{
    if table.len() > 0 {
        lemma_stake_in_subset(table.drop_last(), a, b);
    }
}

/// Voters that hold stake together are not all strangers.
pub proof fn lemma_stake_in_witness(table: Seq<StakeRecord>, keys: Set<Seq<u8>>) -> (key: Seq<u8>)
    requires
        stake_in(table, keys) > 0,
    ensures
        keys.contains(key),
        stake_of(table, key) > 0,
    decreases table.len(),
{
    if keys.contains(table.last().key) && table.last().stake > 0 {
        let key = table.last().key;
        lemma_stake_in_subset(table.drop_last(), Set::empty(), set![key]);
        key
    } else {
        let key = lemma_stake_in_witness(table.drop_last(), keys);
        key
    }
}

/// A set of votes, one for each voter, each of no more weight than the
/// voter's stake, weighs no more than the stake of its voters.
pub proof fn lemma_weight_within_stake<T: VoteToken>(table: Seq<StakeRecord>, records: Seq<VoteRecord<T>>)
    requires
        keys_distinct(records),
        forall|i: int|
            0 <= i < records.len() ==> (#[trigger] records[i]).token.weight() <= stake_of(
                table,
                records[i].key,
            ),
    ensures
        total_weight(records) <= stake_in(table, voters(records)),
    decreases records.len(),
{
    if records.len() > 0 {
        let rest = records.drop_last();
        let last = records.last();
        assert forall|i: int| 0 <= i < rest.len() implies (#[trigger] rest[i]).token.weight() <= stake_of(
            table,
            rest[i].key,
        ) by {
            assert(rest[i] == records[i]);
        }
        lemma_weight_within_stake(table, rest);
        let one = set![last.key];
        assert(voters(rest).intersect(one) =~= Set::<Seq<u8>>::empty()) by {
            if has_key(rest, last.key) {
                let i = choose|i: int| 0 <= i < rest.len() && #[trigger] rest[i].key == last.key;
                assert(records[i].key == records[records.len() - 1].key);
            }
        }
        assert(voters(rest).union(one) =~= voters(records)) by {
            assert forall|key: Seq<u8>| voters(rest).union(one).contains(key) implies voters(
                records,
            ).contains(key) by {
                if key == last.key {
                    assert(records[records.len() - 1].key == key);
                } else {
                    let i = choose|i: int| 0 <= i < rest.len() && #[trigger] rest[i].key == key;
                    assert(records[i].key == key);
                }
            }
            assert forall|key: Seq<u8>| voters(records).contains(key) implies voters(rest).union(
                one,
            ).contains(key) by {
                let i = choose|i: int| 0 <= i < records.len() && #[trigger] records[i].key == key;
                if i < rest.len() {
                    assert(rest[i].key == key);
                }
            }
        }
        lemma_stake_in_union(table, voters(rest), one);
        lemma_stake_in_empty(table);
    }
}

/// Strangers hold no stake.
pub proof fn lemma_stake_in_empty(table: Seq<StakeRecord>)
    ensures
        stake_in(table, Set::empty()) == 0,
    decreases table.len(),
{
    if table.len() > 0 {
        lemma_stake_in_empty(table.drop_last());
    }
}

/// Two quorums share a voter outside any set of voters that holds less than
/// a third of the stake.
///
/// A quorum here is a set of votes, one for each voter, each of no more
/// weight than the voter's stake, that together weigh at least the
/// threshold for the total stake.
pub proof fn lemma_quorums_intersect<T: VoteToken>(
    table: Seq<StakeRecord>,
    first: Seq<VoteRecord<T>>,
    second: Seq<VoteRecord<T>>,
    faulty: Set<Seq<u8>>,
) -> (key: Seq<u8>)
    requires
        keys_distinct(first),
        keys_distinct(second),
        forall|i: int|
            0 <= i < first.len() ==> (#[trigger] first[i]).token.weight() <= stake_of(table, first[i].key),
        forall|i: int|
            0 <= i < second.len() ==> (#[trigger] second[i]).token.weight() <= stake_of(
                table,
                second[i].key,
            ),
        total_weight(first) >= threshold_for(total_stake(table)),
        total_weight(second) >= threshold_for(total_stake(table)),
        3 * stake_in(table, faulty) < total_stake(table),
    ensures
        has_key(first, key),
        has_key(second, key),
        !faulty.contains(key),
{
    let a = voters(first);
    let b = voters(second);
    let shared = a.intersect(b);
    lemma_weight_within_stake(table, first);
    lemma_weight_within_stake(table, second);
    lemma_stake_in_union(table, a, b);
    lemma_stake_in_subset(table, a.union(b), Set::full());
    let honest = shared.difference(faulty);
    lemma_stake_in_union(table, honest, shared.intersect(faulty));
    assert(honest.union(shared.intersect(faulty)) =~= shared);
    assert(honest.intersect(shared.intersect(faulty)) =~= Set::<Seq<u8>>::empty());
    lemma_stake_in_empty(table);
    lemma_stake_in_subset(table, shared.intersect(faulty), faulty);
    lemma_stake_in_witness(table, honest)
}

} // verus!
