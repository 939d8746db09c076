//! An election with a fixed committee: each member has a fixed stake, the
//! members lead the views in turn, and a member's token carries its stake.

use vstd::prelude::*;
use core::marker::PhantomData;
use crate::bytes::{le_bytes_u64, le_value_u64, lemma_le_u64_bytes, lemma_le_u64_value, read_u64, write_u64};
use crate::data::ViewNumber;
use crate::election::{Checked, ElectionConfig, ElectionError, Membership, TestableElection, VoteToken};
use crate::signature_key::SignatureKey;
use crate::safety::weights_within_stake;
use crate::stake::{lemma_stake_of_entry, stake_of, table_well_formed, threshold_for, total_stake, StakeRecord, StakeTable};

verus! {

/// How a fixed committee is set up.
#[derive(Clone, Copy, Debug, PartialEq, Eq, Structural)]
pub struct StaticElectionConfig {
    /// The number of keys, from the first on, that make the committee. Zero
    /// asks for one, as a committee has a member.
    pub num_nodes: u64,
}

impl Default for StaticElectionConfig {
    fn default() -> (config: Self)
        ensures
            config.num_nodes == 0,
    {
        StaticElectionConfig { num_nodes: 0 }
    }
}

impl ElectionConfig for StaticElectionConfig {
}

/// The token of a member of a fixed committee: the member's stake. A token
/// never weighs nothing: one that carries no stake weighs one.
#[derive(Clone, Copy, Debug, PartialEq, Eq, Hash)]
pub struct StaticVoteToken {
    count: u64,
}

impl StaticVoteToken {
    /// The stake that the token carries.
    pub closed spec fn stake(self) -> nat {
        self.count as nat
    }

    /// A token that carries `count`. There is none that carries nothing.
    pub fn new(count: u64) -> (token: Option<Self>)
        ensures
            token is Some == (count > 0),
            token matches Some(t) ==> t.stake() == count && t.weight() == count,
    {
        if count == 0 {
            None
        } else {
            Some(StaticVoteToken { count })
        }
    }
}

impl VoteToken for StaticVoteToken {
    closed spec fn weight(&self) -> nat {
        if self.count == 0 {
            1
        } else {
            self.count as nat
        }
    }

    /// The stake as eight little-endian bytes.
    closed spec fn encoding(&self) -> Seq<u8> {
        le_bytes_u64(self.count)
    }

    closed spec fn decoding(bytes: Seq<u8>) -> Option<StaticVoteToken> {
        if bytes.len() == 8 {
            Some(StaticVoteToken { count: le_value_u64(bytes) })
        } else {
            None
        }
    }

    fn vote_count(&self) -> (count: u64) {
        if self.count == 0 {
            1
        } else {
            self.count
        }
    }

    fn to_bytes(&self) -> (bytes: Vec<u8>) {
        write_u64(self.count)
    }

    fn from_bytes(bytes: &[u8]) -> (token: Option<Self>) {
        if bytes.len() != 8 {
            return None;
        }
        Some(StaticVoteToken { count: read_u64(bytes) })
    }

    proof fn lemma_clone_is_exact(token: Self, copy: Self) {
    }

    proof fn lemma_decoding_inverts_encoding(token: Self) {
        lemma_le_u64_value(token.count);
    }

    proof fn lemma_encoding_inverts_decoding(bytes: Seq<u8>) {
        lemma_le_u64_bytes(bytes);
    }
}

/// The token that carries `stake`.
pub closed spec fn token_of(stake: nat) -> StaticVoteToken {
    StaticVoteToken { count: stake as u64 }
}

/// The number of keys, from the first on, that make a committee of
/// `num_nodes` out of `keys` keys: so many as are asked for and are there,
/// and one at least.
pub open spec fn seats(num_nodes: u64, keys: nat) -> nat {
    if num_nodes == 0 {
        1
    } else if num_nodes < keys {
        num_nodes as nat
    } else {
        keys
    }
}

/// The stake table of the first `n` of `keys`, each with a stake of one. A
/// key that occurs again is passed over.
pub open spec fn seated<K: SignatureKey>(keys: Seq<K>, n: nat) -> Seq<StakeRecord>
    decreases n,
{
    if n == 0 {
        Seq::empty()
    } else {
        let before = seated(keys, (n - 1) as nat);
        let key = keys[n - 1].encoding();
        if stake_of(before, key) > 0 {
            before
        } else {
            before.push(StakeRecord { key, stake: 1 })
        }
    }
}

/// A committee of fewer of the same keys is within the committee of more:
/// its stake table is the front of the other's.
pub proof fn lemma_smaller_committee_is_within<K: SignatureKey>(keys: Seq<K>, fewer: nat, more: nat)
    requires
        fewer <= more,
    ensures
        seated(keys, fewer).len() <= seated(keys, more).len(),
        seated(keys, more).take(seated(keys, fewer).len() as int) == seated(keys, fewer),
    decreases more,
{
    if fewer < more {
        lemma_smaller_committee_is_within(keys, fewer, (more - 1) as nat);
        let before = seated(keys, (more - 1) as nat);
        assert(seated(keys, more).take(seated(keys, fewer).len() as int) =~= before.take(
            seated(keys, fewer).len() as int,
        ));
    } else {
        assert(seated(keys, more).take(seated(keys, fewer).len() as int) =~= seated(keys, fewer));
    }
}

/// An election with a fixed committee.
///
/// The members lead the views in turn, in the order of the stake table. A
/// member's token carries the member's stake, and is valid for the member in
/// every view. The threshold is the floor of two thirds of all stake, and one.
pub struct StaticCommittee<K: SignatureKey> {
    table: StakeTable,
    scheme: PhantomData<K>,
}

impl<K: SignatureKey> StaticCommittee<K> {
    #[verifier::type_invariant]
    spec fn seated(self) -> bool {
        &&& self.table@.len() >= 1
        &&& forall|i: int| 0 <= i < self.table@.len() ==> K::decoding((#[trigger] self.table@[i]).key) is Some
    }

    /// The stake of the members.
    pub closed spec fn stakes(&self) -> Seq<StakeRecord> {
        self.table@
    }

    /// The stake of the members.
    pub fn stake_table(&self) -> (table: &StakeTable)
        ensures
            table@ == self.stakes(),
            table@.len() >= 1,
    {
        proof {
            use_type_invariant(self);
        }
        &self.table
    }

    /// The election over the voters of a stake table. There is none over an
    /// empty table, nor over one with a key that does not read as a key of
    /// the scheme.
    pub fn from_stake_table(table: StakeTable) -> (committee: Option<Self>)
        ensures
            committee is Some == (table@.len() >= 1 && forall|i: int|
                0 <= i < table@.len() ==> K::decoding((#[trigger] table@[i]).key) is Some),
            committee matches Some(c) ==> c.stakes() == table@,
    {
        let n = table.len();
        if n == 0 {
            return None;
        }
        let mut i: usize = 0;
        while i < n
            invariant
                i <= n,
                n == table@.len(),
                forall|j: int| 0 <= j < i ==> K::decoding((#[trigger] table@[j]).key) is Some,
            decreases n - i,
        {
            if K::from_bytes(&table.get(i).key).is_none() {
                return None;
            }
            i += 1;
        }
        Some(StaticCommittee { table, scheme: PhantomData })
    }
}

impl<K: SignatureKey> Membership for StaticCommittee<K> {
    type SignatureKey = K;

    type VoteTokenType = StaticVoteToken;

    type ElectionConfigType = StaticElectionConfig;

    type StateType = ();

    type StakeTable = StakeTable;

    closed spec fn leader(&self, view_number: ViewNumber) -> K {
        K::decoding(self.table@[(view_number as int) % (self.table@.len() as int)].key).unwrap()
    }

    closed spec fn committee(&self, view_number: ViewNumber) -> Set<K> {
        Set::new(|key: K| stake_of(self.table@, key.encoding()) > 0)
    }

    closed spec fn vote_token(&self, view_number: ViewNumber, priv_key: K::PrivateKey) -> Result<
        Option<StaticVoteToken>,
        ElectionError,
    > {
        let stake = stake_of(self.table@, K::public_of(&priv_key).encoding());
        if stake > 0 {
            Ok(Some(token_of(stake)))
        } else {
            Ok(None)
        }
    }

    closed spec fn validated_token(
        &self,
        view_number: ViewNumber,
        pub_key: K,
        token: Checked<StaticVoteToken>,
    ) -> Result<Checked<StaticVoteToken>, ElectionError> {
        match token {
            Checked::Inval(t) => Ok(Checked::Inval(t)),
            Checked::Valid(t) | Checked::Unchecked(t) => {
                if t.count >= 1 && t.stake() == stake_of(self.table@, pub_key.encoding()) {
                    Ok(Checked::Valid(t))
                } else {
                    Ok(Checked::Inval(t))
                }
            },
        }
    }

    closed spec fn success_threshold(&self) -> nat {
        threshold_for(total_stake(self.table@))
    }

    open spec fn default_config(num_nodes: u64) -> StaticElectionConfig {
        StaticElectionConfig { num_nodes }
    }

    /// The committee is that of the first keys, so many as the
    /// configuration asks for, each with a stake of one.
    open spec fn elects(keys: Seq<K>, config: StaticElectionConfig, election: Self) -> bool {
        election.stakes() == seated(keys, seats(config.num_nodes, keys.len()))
    }

    /// The table is that of the committee, whatever the view and the state.
    open spec fn stake_table_at(&self, view_number: ViewNumber, state: (), table: StakeTable) -> bool {
        table@ == self.stakes()
    }

    fn default_election_config(num_nodes: u64) -> (config: StaticElectionConfig) {
        StaticElectionConfig { num_nodes }
    }

    /// The committee of the first `config.num_nodes` of `keys`, each with a
    /// stake of one. A key that occurs again is passed over.
    fn create_election(keys: Vec<K>, config: StaticElectionConfig) -> (election: Self) {
        let wanted: usize = if config.num_nodes == 0 {
            1
        } else if config.num_nodes < keys.len() as u64 {
            config.num_nodes as usize
        } else {
            keys.len()
        };
        let mut table = StakeTable::new();
        let mut i: usize = 0;
        while i < wanted
            invariant
                i <= wanted <= keys@.len(),
                table@.len() <= i,
                i >= 1 ==> table@.len() >= 1,
                total_stake(table@) == table@.len(),
                table@ == seated(keys@, i as nat),
                forall|j: int| 0 <= j < table@.len() ==> K::decoding((#[trigger] table@[j]).key) is Some,
            decreases wanted - i,
        {
            let bytes = keys[i].to_bytes();
            proof {
                K::lemma_decoding_inverts_encoding(keys@[i as int]);
                if i == 0 {
                    crate::stake::lemma_stake_of_stranger(table@, bytes@);
                }
                crate::stake::lemma_total_stake_push(
                    table@,
                    StakeRecord { key: bytes@, stake: 1 },
                );
            }
            let _ = table.insert(bytes, 1);
            i += 1;
        }
        StaticCommittee { table, scheme: PhantomData }
    }

    fn get_stake_table(&self, view_number: ViewNumber, state: &()) -> (table: StakeTable) {
        self.table.clone()
    }

    fn get_leader(&self, view_number: ViewNumber) -> (leader: K) {
        proof {
            use_type_invariant(self);
        }
        let n = self.table.len();
        let index = (view_number % (n as u64)) as usize;
        match K::from_bytes(&self.table.get(index).key) {
            Some(key) => key,
            None => vstd::pervasive::unreached(),
        }
    }

    fn get_committee(&self, view_number: ViewNumber) -> (members: Vec<K>) {
        proof {
            use_type_invariant(self);
        }
        let n = self.table.len();
        let mut members: Vec<K> = Vec::new();
        let mut i: usize = 0;
        while i < n
            invariant
                i <= n,
                n == self.table@.len(),
                table_well_formed(self.table@),
                forall|j: int| 0 <= j < n ==> K::decoding((#[trigger] self.table@[j]).key) is Some,
                members@.len() == i,
                forall|j: int|
                    0 <= j < i ==> Some(#[trigger] members@[j]) == K::decoding(self.table@[j].key),
            decreases n - i,
        {
            match K::from_bytes(&self.table.get(i).key) {
                Some(key) => {
                    members.push(key);
                },
                None => vstd::pervasive::unreached(),
            }
            i += 1;
        }
        proof {
            assert forall|a: int, b: int| 0 <= a < members@.len() && 0 <= b < members@.len() && a
                != b implies members@[a] != members@[b] by {
                K::lemma_encoding_inverts_decoding(self.table@[a].key);
                K::lemma_encoding_inverts_decoding(self.table@[b].key);
                if a < b {
                    assert(self.table@[a].key != self.table@[b].key);
                } else {
                    assert(self.table@[b].key != self.table@[a].key);
                }
            }
            assert forall|key: K| members@.to_set().contains(key) <==> self.committee(view_number).contains(
                key,
            ) by {
                if members@.to_set().contains(key) {
                    let j = choose|j: int| 0 <= j < members@.len() && members@[j] == key;
                    K::lemma_encoding_inverts_decoding(self.table@[j].key);
                    lemma_stake_of_entry(self.table@, j);
                    assert(self.table@[j].stake >= 1);
                }
                if self.committee(view_number).contains(key) {
                    if forall|j: int| 0 <= j < self.table@.len() ==> (#[trigger] self.table@[j]).key
                        != key.encoding() {
                        crate::stake::lemma_stake_of_stranger(self.table@, key.encoding());
                    }
                    let j = choose|j: int| 0 <= j < self.table@.len() && (#[trigger] self.table@[j]).key
                        == key.encoding();
                    K::lemma_decoding_inverts_encoding(key);
                    assert(members@[j] == key);
                }
            }
            assert(members@.to_set() =~= self.committee(view_number));
        }
        members
    }

    fn make_vote_token(&self, view_number: ViewNumber, priv_key: &K::PrivateKey) -> (token: Result<
        Option<StaticVoteToken>,
        ElectionError,
    >) {
        let key = K::from_private(priv_key).to_bytes();
        let stake = self.table.stake_of(&key);
        if stake > 0 {
            Ok(Some(StaticVoteToken { count: stake }))
        } else {
            Ok(None)
        }
    }

    fn validate_vote_token(&self, view_number: ViewNumber, pub_key: K, token: Checked<StaticVoteToken>) -> (checked:
        Result<Checked<StaticVoteToken>, ElectionError>) {
        match token {
            Checked::Inval(t) => Ok(Checked::Inval(t)),
            Checked::Valid(t) | Checked::Unchecked(t) => {
                if t.count >= 1 && t.count == self.table.stake_of(&pub_key.to_bytes()) {
                    Ok(Checked::Valid(t))
                } else {
                    Ok(Checked::Inval(t))
                }
            },
        }
    }

    fn threshold(&self) -> (threshold: u64) {
        self.table.threshold()
    }
}

/// In a fixed committee the leader of a view depends on the view and the
/// stake table alone: two committees over the same table have the same
/// leader in every view.
pub proof fn lemma_leader_depends_on_stakes<K: SignatureKey>(
    first: &StaticCommittee<K>,
    second: &StaticCommittee<K>,
    view_number: ViewNumber,
)
    requires
        first.stakes() == second.stakes(),
    ensures
        first.leader(view_number) == second.leader(view_number),
{
}

/// In a fixed committee of at least one member whose keys all read, the
/// leader of a view is the member whose entry stands at the view's place in
/// the table, counted round and round.
pub proof fn lemma_leader_takes_turns<K: SignatureKey>(committee: &StaticCommittee<K>, view_number: ViewNumber)
    requires
        committee.stakes().len() >= 1,
        forall|i: int|
            0 <= i < committee.stakes().len() ==> K::decoding((#[trigger] committee.stakes()[i]).key) is Some,
    ensures
        committee.leader(view_number).encoding() == committee.stakes()[(view_number as int) % (
        committee.stakes().len() as int)].key,
{
    let index = (view_number as int) % (committee.stakes().len() as int);
    K::lemma_encoding_inverts_decoding(committee.stakes()[index].key);
}

/// A fixed committee gives a vote the weight of the voter's stake, and asks
/// for the floor of two thirds of all stake, and one.
pub proof fn lemma_static_committee_weighs_by_stake<K: SignatureKey>(
    committee: &StaticCommittee<K>,
    view_number: ViewNumber,
)
    ensures
        weights_within_stake(committee, committee.stakes(), view_number),
        committee.success_threshold() == threshold_for(total_stake(committee.stakes())),
        forall|key: K, token: StaticVoteToken|
            (#[trigger] committee.validated_token(view_number, key, Checked::Unchecked(token)) matches Ok(
                Checked::Valid(_),
            )) <==> token.stake() >= 1 && token.stake() == stake_of(committee.stakes(), key.encoding()),
{
}

impl<K: SignatureKey> TestableElection for StaticCommittee<K> {
    /// A token with a stake of one.
    fn generate_test_vote_token() -> (token: StaticVoteToken)
        ensures
            token.stake() == 1,
            token.weight() == 1,
    {
        StaticVoteToken { count: 1 }
    }
}

} // verus!
