use either::Either;
use hotshot_consensus::certificate::{DACertificate, QuorumCertificate, SignatureMap, SignedCertificate};
use hotshot_consensus::data::{Commitment, VoteData, GENESIS_VIEW};
use hotshot_consensus::election::{Checked, ElectionError, Membership, TestableElection, VoteToken};
use hotshot_consensus::exchange::{sign_vote, CommitteeExchange, CommitteeExchangeType, ConsensusExchange, QuorumExchange, QuorumExchangeType};
use hotshot_consensus::message::ConsensusMessage;
use hotshot_consensus::signature_key::{bytes_eq, EncodedPublicKey, EncodedSignature, SignatureKey};
use hotshot_consensus::stake::StakeTable;
use hotshot_consensus::static_committee::{StaticCommittee, StaticElectionConfig, StaticVoteToken};
use hotshot_consensus::vote::{QuorumVote, VoteAccumulator};

/// A toy scheme: the public key is the private key times an odd constant,
/// and a signature is a keyed checksum of the data.
#[derive(Clone, Debug, PartialEq, Eq)]
struct TestKey(u64);

const SPREAD: u64 = 0x9E37_79B9_7F4A_7C15;
const GATHER: u64 = 0xF1DE_83E1_9937_733D;

fn checksum(secret: u64, data: &[u8]) -> u64 {
    let mut sum = secret ^ 0xCBF2_9CE4_8422_2325;
    for byte in data {
        sum = (sum ^ (*byte as u64)).wrapping_mul(0x0000_0100_0000_01B3);
    }
    sum
}

impl SignatureKey for TestKey {
    type PrivateKey = u64;

    fn encoding(&self) -> vstd::seq::Seq<u8> {
        unreachable!()
    }

    fn decoding(_: vstd::seq::Seq<u8>) -> Option<Self> {
        unreachable!()
    }

    fn accepts(&self, _: vstd::seq::Seq<u8>, _: vstd::seq::Seq<u8>) -> bool {
        unreachable!()
    }

    fn public_of(_: &u64) -> Self {
        unreachable!()
    }

    fn signs(_: &u64, _: vstd::seq::Seq<u8>, _: vstd::seq::Seq<u8>) -> bool {
        unreachable!()
    }

    fn lemma_decoding_inverts_encoding(_: Self) {
    }

    fn lemma_encoding_inverts_decoding(_: vstd::seq::Seq<u8>) {
    }

    fn lemma_signature_verifies(_: u64, _: vstd::seq::Seq<u8>, _: vstd::seq::Seq<u8>) {
    }

    fn sign(private_key: &u64, data: &[u8]) -> EncodedSignature {
        EncodedSignature(checksum(*private_key, data).to_le_bytes().to_vec())
    }

    fn validate(&self, signature: &EncodedSignature, data: &[u8]) -> bool {
        let secret = self.0.wrapping_mul(GATHER);
        signature.0 == checksum(secret, data).to_le_bytes().to_vec()
    }

    fn from_private(private_key: &u64) -> Self {
        TestKey(private_key.wrapping_mul(SPREAD))
    }

    fn from_bytes(bytes: &EncodedPublicKey) -> Option<Self> {
        if bytes.0.len() == 8 {
            let mut raw = [0u8; 8];
            raw.copy_from_slice(&bytes.0);
            Some(TestKey(u64::from_le_bytes(raw)))
        } else {
            None
        }
    }

    fn to_bytes(&self) -> EncodedPublicKey {
        EncodedPublicKey(self.0.to_le_bytes().to_vec())
    }
}

type Committee = StaticCommittee<TestKey>;

fn secret(node: u64) -> u64 {
    1000 + node
}

fn key(node: u64) -> TestKey {
    TestKey::from_private(&secret(node))
}

fn keys(n: u64) -> Vec<TestKey> {
    (0..n).map(key).collect()
}

fn commitment(seed: u8) -> Commitment {
    Commitment { bytes: [seed; 32] }
}

fn quorum(node: u64, n: u64) -> QuorumExchange<Committee, ()> {
    QuorumExchange::create(keys(n), StaticElectionConfig { num_nodes: n }, (), key(node), secret(node))
}

fn committee(node: u64, n: u64, size: u64) -> CommitteeExchange<Committee, ()> {
    CommitteeExchange::create(keys(n), StaticElectionConfig { num_nodes: size }, (), key(node), secret(node))
}

fn token(exchange: &QuorumExchange<Committee, ()>, view: u64) -> StaticVoteToken {
    exchange.make_vote_token(view).unwrap().unwrap()
}

#[test]
fn the_toy_scheme_is_a_scheme() {
    assert_eq!(SPREAD.wrapping_mul(GATHER), 1);
    let k = key(3);
    assert_eq!(TestKey::from_bytes(&k.to_bytes()), Some(k.clone()));
    let signature = TestKey::sign(&secret(3), b"data");
    assert!(k.validate(&signature, b"data"));
    assert!(!k.validate(&signature, b"datb"));
    assert!(!key(4).validate(&signature, b"data"));
}

#[test]
fn bytes_eq_compares_content() {
    assert!(bytes_eq(&[], &[]));
    assert!(bytes_eq(&[1, 2, 3], &[1, 2, 3]));
    assert!(!bytes_eq(&[1, 2, 3], &[1, 2, 4]));
    assert!(!bytes_eq(&[1, 2, 3], &[1, 2]));
    assert!(EncodedPublicKey(vec![7]).same_as(&EncodedPublicKey(vec![7])));
    assert!(!EncodedSignature(vec![7]).same_as(&EncodedSignature(vec![8])));
    assert_eq!(EncodedPublicKey(vec![1, 2]).clone(), EncodedPublicKey(vec![1, 2]));
}

#[test]
fn threshold_is_two_thirds_of_the_stake_and_one() {
    let expected = [(1u64, 1u64), (2, 2), (3, 3), (4, 3), (5, 4), (6, 5), (7, 5), (10, 7), (100, 67)];
    for (nodes, threshold) in expected {
        assert_eq!(quorum(0, nodes).threshold(), threshold);
    }
}

#[test]
fn threshold_of_a_weighted_table() {
    let mut table = StakeTable::new();
    assert_eq!(table.threshold(), 1);
    assert_eq!(table.insert(key(0).to_bytes(), 10), Ok(true));
    assert_eq!(table.insert(key(1).to_bytes(), 20), Ok(true));
    assert_eq!(table.insert(key(2).to_bytes(), 70), Ok(true));
    assert_eq!(table.total_stake(), 100);
    assert_eq!(table.threshold(), 67);
    assert_eq!(table.stake_of(&key(1).to_bytes()), 20);
    assert_eq!(table.stake_of(&key(9).to_bytes()), 0);
    assert_eq!(table.len(), 3);
    assert_eq!(table.get(2).stake, 70);
}

#[test]
fn stake_table_finds_and_copies_entries() {
    let mut table = StakeTable::new();
    table.insert(key(0).to_bytes(), 10).unwrap();
    table.insert(key(1).to_bytes(), 20).unwrap();
    assert_eq!(table.position(&key(1).to_bytes()), Some(1));
    assert_eq!(table.position(&key(2).to_bytes()), None);
    let copy = table.clone();
    table.insert(key(2).to_bytes(), 30).unwrap();
    assert_eq!(copy.len(), 2);
    assert_eq!(copy.total_stake(), 30);
    assert_eq!(copy.get(1).key, key(1).to_bytes());
    assert_eq!(table.total_stake(), 60);
}

#[test]
fn threshold_of_the_largest_stake_fits() {
    let mut table = StakeTable::new();
    assert_eq!(table.insert(key(0).to_bytes(), u64::MAX), Ok(true));
    assert_eq!(table.threshold(), 12297829382473034411);
}

#[test]
fn stake_table_refuses_what_does_not_fit() {
    let mut table = StakeTable::new();
    assert_eq!(table.insert(key(0).to_bytes(), 0), Ok(false));
    assert_eq!(table.insert(key(0).to_bytes(), u64::MAX - 1), Ok(true));
    // the same voter again
    assert_eq!(table.insert(key(0).to_bytes(), 1), Ok(false));
    // one more would still fit, two would not
    assert_eq!(table.insert(key(1).to_bytes(), 2), Err(ElectionError::MathError));
    assert_eq!(table.total_stake(), u64::MAX - 1);
    assert_eq!(table.len(), 1);
    assert_eq!(table.insert(key(1).to_bytes(), 1), Ok(true));
    assert_eq!(table.total_stake(), u64::MAX);
}

#[test]
fn leaders_take_turns() {
    let exchange = quorum(2, 5);
    for view in 0..12u64 {
        assert_eq!(exchange.get_leader(view), key(view % 5));
        assert_eq!(exchange.is_leader(view), view % 5 == 2);
    }
    assert_eq!(exchange.get_leader(u64::MAX), key(u64::MAX % 5));
}

#[test]
fn leader_is_the_same_whoever_asks() {
    for view in [0u64, 1, 7, 1 << 40] {
        let first = quorum(0, 7).get_leader(view);
        for node in 1..7 {
            assert_eq!(quorum(node, 7).get_leader(view), first);
        }
    }
}

#[test]
fn committee_holds_each_member_once() {
    let exchange = quorum(0, 4);
    assert_eq!(exchange.membership().get_committee(9), keys(4));
    let mut doubled = keys(3);
    doubled.extend(keys(3));
    let committee = Committee::create_election(doubled, StaticElectionConfig { num_nodes: 6 });
    assert_eq!(committee.get_committee(0), keys(3));
    assert_eq!(committee.threshold(), 3);
}

#[test]
fn committee_is_the_first_keys() {
    let da = committee(0, 5, 2);
    assert_eq!(da.membership().get_committee(1), keys(2));
    assert_eq!(da.threshold(), 2);
    assert!(da.make_vote_token(3).unwrap().is_some());
    let outsider = committee(4, 5, 2);
    assert_eq!(outsider.make_vote_token(3), Ok(None));
    let least = Committee::create_election(keys(5), Committee::default_election_config(0));
    assert_eq!(least.get_committee(0), keys(1));
    assert_eq!(StaticElectionConfig::default().num_nodes, 0);
}

#[test]
fn committee_over_a_stake_table() {
    let mut table = StakeTable::new();
    table.insert(key(0).to_bytes(), 5).unwrap();
    table.insert(key(1).to_bytes(), 1).unwrap();
    let committee = Committee::from_stake_table(table).unwrap();
    assert_eq!(committee.threshold(), 5);
    assert_eq!(committee.make_vote_token(1, &secret(0)).unwrap().unwrap().vote_count(), 5);
    assert_eq!(committee.make_vote_token(1, &secret(1)).unwrap().unwrap().vote_count(), 1);
    assert_eq!(committee.get_stake_table(0, &()).total_stake(), 6);
    assert_eq!(committee.stake_table().len(), 2);
    assert!(Committee::from_stake_table(StakeTable::new()).is_none());
    let mut unreadable = StakeTable::new();
    unreadable.insert(EncodedPublicKey(vec![1, 2, 3]), 1).unwrap();
    assert!(Committee::from_stake_table(unreadable).is_none());
}

#[test]
fn tokens_carry_the_stake_and_are_the_same_each_time() {
    let exchange = quorum(1, 5);
    let first = token(&exchange, 4);
    let second = token(&exchange, 4);
    assert_eq!(first, second);
    assert_eq!(first.vote_count(), 1);
    assert_eq!(StaticVoteToken::new(0), None);
    assert_eq!(StaticVoteToken::new(3).unwrap().vote_count(), 3);
    assert_eq!(Committee::generate_test_vote_token().vote_count(), 1);
}

#[test]
fn token_validation_tells_members_from_strangers() {
    let exchange = quorum(0, 3);
    let membership = exchange.membership();
    let good = token(&exchange, 1);
    assert!(matches!(membership.validate_vote_token(1, key(2), Checked::Unchecked(good)), Ok(Checked::Valid(_))));
    assert!(matches!(membership.validate_vote_token(1, key(2), Checked::Valid(good)), Ok(Checked::Valid(_))));
    assert!(matches!(membership.validate_vote_token(1, key(2), Checked::Inval(good)), Ok(Checked::Inval(_))));
    assert!(matches!(membership.validate_vote_token(1, key(7), Checked::Unchecked(good)), Ok(Checked::Inval(_))));
    let heavy = StaticVoteToken::new(2).unwrap();
    assert!(matches!(membership.validate_vote_token(1, key(2), Checked::Unchecked(heavy)), Ok(Checked::Inval(_))));
    assert!(Checked::Valid(1u8).is_valid());
    assert!(!Checked::Unchecked(1u8).is_valid());
    assert_eq!(Checked::Inval(5u8).into_item(), 5);
}

#[test]
fn signed_votes_are_valid_votes() {
    let exchange = quorum(1, 5);
    let c = commitment(9);
    let t = token(&exchange, 6);
    let (k, s) = exchange.sign_yes_vote(c);
    assert_eq!(k, key(1).to_bytes());
    assert!(exchange.is_valid_vote(&k, &s, VoteData::Yes(c), 6, Checked::Unchecked(t)));
    // the signature is over the yes vote and nothing else
    assert!(!exchange.is_valid_vote(&k, &s, VoteData::No(c), 6, Checked::Unchecked(t)));
    assert!(!exchange.is_valid_vote(&k, &s, VoteData::DA(c), 6, Checked::Unchecked(t)));
    assert!(!exchange.is_valid_vote(&k, &s, VoteData::Yes(commitment(8)), 6, Checked::Unchecked(t)));
    // nor is it another member's
    assert!(!exchange.is_valid_vote(&key(2).to_bytes(), &s, VoteData::Yes(c), 6, Checked::Unchecked(t)));
    // a key that does not read
    assert!(!exchange.is_valid_vote(&EncodedPublicKey(vec![1]), &s, VoteData::Yes(c), 6, Checked::Unchecked(t)));
    // a token that was found invalid
    assert!(!exchange.is_valid_vote(&k, &s, VoteData::Yes(c), 6, Checked::Inval(t)));
    // a token of the wrong weight
    let heavy = StaticVoteToken::new(5).unwrap();
    assert!(!exchange.is_valid_vote(&k, &s, VoteData::Yes(c), 6, Checked::Unchecked(heavy)));
    let (_, no) = exchange.sign_no_vote(c);
    assert!(exchange.is_valid_vote(&k, &no, VoteData::No(c), 6, Checked::Unchecked(t)));
    let (_, timeout) = exchange.sign_timeout_vote(6);
    assert!(exchange.is_valid_vote(&k, &timeout, VoteData::Timeout(6), 6, Checked::Unchecked(t)));
    assert!(!exchange.is_valid_vote(&k, &timeout, VoteData::Timeout(7), 6, Checked::Unchecked(t)));
}

#[test]
fn sign_vote_signs_the_canonical_bytes() {
    let data = VoteData::Timeout(12);
    let (k, s) = sign_vote(&key(0), &secret(0), data);
    assert_eq!(k, key(0).to_bytes());
    assert_eq!(s, TestKey::sign(&secret(0), &data.as_bytes()));
}

#[test]
fn proposals_are_signed_over_the_commitment() {
    let c = commitment(77);
    let exchange = quorum(3, 5);
    let signature = exchange.sign_validating_or_commitment_proposal(&c);
    assert_eq!(signature, TestKey::sign(&secret(3), &c.bytes));
    assert!(exchange.public_key().validate(&signature, &c.bytes));
    let da = committee(1, 5, 3);
    assert_eq!(da.sign_da_proposal(&c), TestKey::sign(&secret(1), &c.bytes));
    let (k, s) = da.sign_da_vote(c);
    assert_eq!(k, key(1).to_bytes());
    assert_eq!(s, TestKey::sign(&secret(1), &VoteData::DA(c).as_bytes()));
}

#[test]
fn messages_carry_what_they_were_made_of() {
    let exchange = quorum(2, 5);
    let justify = commitment(1);
    let leaf = commitment(2);
    let t = token(&exchange, 9);
    match exchange.create_yes_message(justify, leaf, 9, t) {
        ConsensusMessage::Vote(QuorumVote::Yes(vote)) => {
            assert_eq!(vote.justify_qc_commitment, justify);
            assert_eq!(vote.leaf_commitment, leaf);
            assert_eq!(vote.current_view, 9);
            assert_eq!(vote.vote_token, t);
            assert_eq!(vote.signature, exchange.sign_yes_vote(leaf));
        }
        other => panic!("not a yes vote: {:?}", other),
    }
    match exchange.create_no_message(justify, leaf, 9, t) {
        ConsensusMessage::Vote(QuorumVote::No(vote)) => {
            assert_eq!(vote.justify_qc_commitment, justify);
            assert_eq!(vote.leaf_commitment, leaf);
            assert_eq!(vote.current_view, 9);
            assert_eq!(vote.signature, exchange.sign_no_vote(leaf));
        }
        other => panic!("not a no vote: {:?}", other),
    }
    let mut qc: QuorumCertificate<StaticVoteToken> = QuorumCertificate::genesis();
    qc.set_leaf_commitment(leaf);
    match exchange.create_timeout_message(qc, 9, t) {
        ConsensusMessage::Vote(QuorumVote::Timeout(vote)) => {
            assert_eq!(vote.justify_qc.leaf_commitment(), leaf);
            assert!(vote.justify_qc.is_genesis());
            assert_eq!(vote.current_view, 9);
            assert_eq!(vote.signature, exchange.sign_timeout_vote(9));
            assert_eq!(QuorumVote::Timeout(vote).current_view(), 9);
        }
        other => panic!("not a timeout vote: {:?}", other),
    }
    let da = committee(0, 5, 3);
    let t = da.make_vote_token(9).unwrap().unwrap();
    match da.create_da_message(justify, leaf, 9, t) {
        ConsensusMessage::DAVote(vote) => {
            assert_eq!(vote.justify_qc_commitment, justify);
            assert_eq!(vote.block_commitment, leaf);
            assert_eq!(vote.current_view, 9);
            assert_eq!(vote.vote_token, t);
            assert_eq!(vote.signature, da.sign_da_vote(leaf));
        }
        other => panic!("not a DA vote: {:?}", other),
    }
}

#[test]
fn accumulator_counts_each_voter_once() {
    let c = commitment(5);
    let accumulator: VoteAccumulator<StaticVoteToken> = VoteAccumulator::new(7, VoteData::Yes(c), 3);
    assert_eq!(accumulator.stake_casted(), 0);
    assert_eq!(accumulator.success_threshold(), 3);
    assert_eq!(accumulator.view_number(), 7);
    assert_eq!(accumulator.data(), VoteData::Yes(c));
    let one = StaticVoteToken::new(1).unwrap();
    let accumulator = match accumulator.append(EncodedPublicKey(vec![1]), EncodedSignature(vec![1]), one, c) {
        Either::Left(accumulator) => accumulator,
        Either::Right(_) => panic!("one vote is no certificate"),
    };
    assert_eq!(accumulator.stake_casted(), 1);
    assert_eq!(accumulator.len(), 1);
    assert!(accumulator.contains_key(&EncodedPublicKey(vec![1])));
    // the same voter again, with another signature
    let accumulator = match accumulator.append(EncodedPublicKey(vec![1]), EncodedSignature(vec![2]), one, c) {
        Either::Left(accumulator) => accumulator,
        Either::Right(_) => panic!("a voter was counted twice"),
    };
    assert_eq!(accumulator.stake_casted(), 1);
    assert_eq!(accumulator.len(), 1);
    let accumulator = match accumulator.append(EncodedPublicKey(vec![2]), EncodedSignature(vec![3]), one, c) {
        Either::Left(accumulator) => accumulator,
        Either::Right(_) => panic!("two votes are no certificate"),
    };
    assert_eq!(accumulator.stake_casted(), 2);
    match accumulator.append(EncodedPublicKey(vec![3]), EncodedSignature(vec![4]), one, c) {
        Either::Left(_) => panic!("three votes are a certificate"),
        Either::Right(signatures) => {
            assert_eq!(signatures.len(), 3);
            assert_eq!(signatures.get(0).key, EncodedPublicKey(vec![1]));
            assert_eq!(signatures.get(0).signature, EncodedSignature(vec![1]));
            assert_eq!(signatures.get(2).key, EncodedPublicKey(vec![3]));
            assert!(signatures.contains_key(&EncodedPublicKey(vec![2])));
            assert!(!signatures.contains_key(&EncodedPublicKey(vec![4])));
        }
    }
}

#[test]
fn accumulator_leaves_out_votes_on_something_else() {
    let c = commitment(5);
    let one = StaticVoteToken::new(1).unwrap();
    let accumulator: VoteAccumulator<StaticVoteToken> = VoteAccumulator::new(7, VoteData::Yes(c), 1);
    let accumulator = match accumulator.append(EncodedPublicKey(vec![1]), EncodedSignature(vec![1]), one, commitment(6)) {
        Either::Left(accumulator) => accumulator,
        Either::Right(_) => panic!("a vote on another leaf was counted"),
    };
    assert_eq!(accumulator.stake_casted(), 0);
    let accumulator = match accumulator.append_timeout(EncodedPublicKey(vec![1]), EncodedSignature(vec![1]), one, 7) {
        Either::Left(accumulator) => accumulator,
        Either::Right(_) => panic!("a timeout was counted as a yes"),
    };
    assert_eq!(accumulator.len(), 0);
    assert!(accumulator.append(EncodedPublicKey(vec![1]), EncodedSignature(vec![1]), one, c).is_right());
    let timeouts: VoteAccumulator<StaticVoteToken> = VoteAccumulator::new(7, VoteData::Timeout(7), 1);
    let timeouts = match timeouts.append(EncodedPublicKey(vec![1]), EncodedSignature(vec![1]), one, c) {
        Either::Left(accumulator) => accumulator,
        Either::Right(_) => panic!("a yes was counted as a timeout"),
    };
    let timeouts = match timeouts.append_timeout(EncodedPublicKey(vec![1]), EncodedSignature(vec![1]), one, 8) {
        Either::Left(accumulator) => accumulator,
        Either::Right(_) => panic!("a timeout of another view was counted"),
    };
    assert!(timeouts.append_timeout(EncodedPublicKey(vec![1]), EncodedSignature(vec![1]), one, 7).is_right());
}

#[test]
fn accumulator_weighs_votes_and_survives_the_largest_stake() {
    let c = commitment(5);
    let heavy = StaticVoteToken::new(u64::MAX).unwrap();
    let accumulator: VoteAccumulator<StaticVoteToken> = VoteAccumulator::new(1, VoteData::DA(c), u64::MAX);
    let accumulator = match accumulator.append(EncodedPublicKey(vec![1]), EncodedSignature(vec![]), StaticVoteToken::new(u64::MAX - 1).unwrap(), c) {
        Either::Left(accumulator) => accumulator,
        Either::Right(_) => panic!("below the threshold"),
    };
    assert_eq!(accumulator.stake_casted(), u64::MAX - 1);
    // the sum no longer fits in 64 bits: it is above the threshold all the same
    assert!(accumulator.append(EncodedPublicKey(vec![2]), EncodedSignature(vec![]), heavy, c).is_right());
}

#[test]
fn test_double_vote_attempt_is_left_out() {
    // view 7, five nodes, threshold four
    let leader = quorum(3, 5);
    let leaf = commitment(70);
    let other = commitment(71);
    let mut accumulator = VoteAccumulator::new(7, VoteData::Yes(leaf), leader.threshold());
    for node in [0u64, 1] {
        let voter = quorum(node, 5);
        let (k, s) = voter.sign_yes_vote(leaf);
        accumulator = match leader.accumulate_vote(&k, &s, leaf, token(&voter, 7), 7, accumulator) {
            Either::Left(accumulator) => accumulator,
            Either::Right(_) => panic!("two votes are no certificate"),
        };
    }
    assert_eq!(accumulator.stake_casted(), 2);
    // node 1 votes again in view 7, for another leaf
    let cheat = quorum(1, 5);
    let (k, s) = cheat.sign_yes_vote(other);
    accumulator = match leader.accumulate_vote(&k, &s, other, token(&cheat, 7), 7, accumulator) {
        Either::Left(accumulator) => accumulator,
        Either::Right(_) => panic!("a second vote made a certificate"),
    };
    assert_eq!(accumulator.stake_casted(), 2);
    assert_eq!(accumulator.len(), 2);
    // and again for the first leaf
    let (k, s) = cheat.sign_yes_vote(leaf);
    accumulator = match leader.accumulate_vote(&k, &s, leaf, token(&cheat, 7), 7, accumulator) {
        Either::Left(accumulator) => accumulator,
        Either::Right(_) => panic!("a second vote made a certificate"),
    };
    assert_eq!(accumulator.stake_casted(), 2);
    // the honest rest completes the certificate, which is for the first leaf
    let mut certificate = None;
    for node in [2u64, 3] {
        let voter = quorum(node, 5);
        let (k, s) = voter.sign_yes_vote(leaf);
        match leader.accumulate_vote(&k, &s, leaf, token(&voter, 7), 7, accumulator) {
            Either::Left(next) => accumulator = next,
            Either::Right(qc) => {
                certificate = Some(qc);
                break;
            }
        }
    }
    let certificate = certificate.unwrap();
    assert_eq!(certificate.leaf_commitment(), leaf);
    assert_eq!(certificate.view_number(), 7);
    assert_eq!(certificate.signatures().len(), 4);
    assert!(leader.is_valid_cert(&certificate, leaf));
    assert!(!leader.is_valid_cert(&certificate, other));
}

#[test]
fn exchange_leaves_out_votes_that_do_not_count() {
    let leader = quorum(0, 4);
    let leaf = commitment(3);
    let voter = quorum(1, 4);
    let (k, s) = voter.sign_yes_vote(leaf);
    let t = token(&voter, 2);
    let fresh = || VoteAccumulator::new(2, VoteData::Yes(leaf), leader.threshold());
    // a vote for another view than the accumulator gathers
    assert_eq!(leader.accumulate_vote(&k, &s, leaf, t, 3, fresh()).left().unwrap().len(), 0);
    // a signature over something else
    let (_, wrong) = voter.sign_no_vote(leaf);
    assert_eq!(leader.accumulate_vote(&k, &wrong, leaf, t, 2, fresh()).left().unwrap().len(), 0);
    // a stranger
    let stranger = quorum(9, 4);
    let (sk, ss) = stranger.sign_yes_vote(leaf);
    assert_eq!(leader.accumulate_vote(&sk, &ss, leaf, t, 2, fresh()).left().unwrap().len(), 0);
    // an accumulator for refusals takes no acceptance
    let refusals = VoteAccumulator::new(2, VoteData::No(leaf), leader.threshold());
    assert_eq!(leader.accumulate_vote(&k, &s, leaf, t, 2, refusals).left().unwrap().len(), 0);
    // the vote as it should be
    assert_eq!(leader.accumulate_vote(&k, &s, leaf, t, 2, fresh()).left().unwrap().len(), 1);
}

fn certificate_of(nodes: &[u64], n: u64, view: u64, leaf: Commitment) -> QuorumCertificate<StaticVoteToken> {
    let mut signatures = SignatureMap::new();
    for node in nodes {
        let voter = quorum(*node, n);
        let (k, s) = voter.sign_yes_vote(leaf);
        assert!(signatures.insert(k, s, token(&voter, view)));
    }
    QuorumCertificate::from_signatures_and_commitment(view, signatures, leaf)
}

#[test]
fn certificate_needs_the_threshold() {
    let leaf = commitment(4);
    let checker = quorum(0, 5);
    assert!(checker.is_valid_cert(&certificate_of(&[0, 1, 2, 3], 5, 9, leaf), leaf));
    assert!(checker.is_valid_cert(&certificate_of(&[4, 3, 2, 1, 0], 5, 9, leaf), leaf));
    assert!(!checker.is_valid_cert(&certificate_of(&[0, 1, 2], 5, 9, leaf), leaf));
    assert!(!checker.is_valid_cert(&certificate_of(&[], 5, 9, leaf), leaf));
}

#[test]
fn certificate_needs_every_signature_to_verify() {
    let leaf = commitment(4);
    let checker = quorum(0, 5);
    // five votes, one of them forged: the other four would have been enough
    let mut signatures = SignatureMap::new();
    for node in 0..4u64 {
        let voter = quorum(node, 5);
        let (k, s) = voter.sign_yes_vote(leaf);
        signatures.insert(k, s, token(&voter, 9));
    }
    signatures.insert(key(4).to_bytes(), EncodedSignature(vec![0; 8]), token(&checker, 9));
    let certificate = QuorumCertificate::from_signatures_and_commitment(9, signatures, leaf);
    assert!(!checker.is_valid_cert(&certificate, leaf));
    // votes of strangers weigh nothing and spoil the certificate
    let mut signatures = SignatureMap::new();
    for node in [0u64, 1, 2, 3, 8] {
        let voter = quorum(node, 5);
        let (k, s) = voter.sign_yes_vote(leaf);
        signatures.insert(k, s, StaticVoteToken::new(1).unwrap());
    }
    let certificate = QuorumCertificate::from_signatures_and_commitment(9, signatures, leaf);
    assert!(!checker.is_valid_cert(&certificate, leaf));
}

#[test]
fn certificate_is_for_one_commitment_and_one_kind_of_vote() {
    let leaf = commitment(4);
    let checker = quorum(0, 5);
    let certificate = certificate_of(&[0, 1, 2, 3], 5, 9, leaf);
    assert!(!checker.is_valid_cert(&certificate, commitment(5)));
    let mut moved = certificate.clone();
    moved.set_leaf_commitment(commitment(5));
    assert!(!checker.is_valid_cert(&moved, commitment(5)));
    // yes votes make no DA certificate
    let da = committee(0, 5, 5);
    let as_da = DACertificate::from_signatures_and_commitment(9, certificate.signatures(), leaf);
    assert!(!da.is_valid_cert(&as_da, leaf));
    // DA votes do
    let mut signatures = SignatureMap::new();
    for node in 0..4u64 {
        let voter = committee(node, 5, 5);
        let (k, s) = voter.sign_da_vote(leaf);
        signatures.insert(k, s, voter.make_vote_token(9).unwrap().unwrap());
    }
    let dac = DACertificate::from_signatures_and_commitment(9, signatures, leaf);
    assert!(da.is_valid_cert(&dac, leaf));
    assert_eq!(dac.leaf_commitment(), leaf);
    assert_eq!(dac.view_number(), 9);
    assert!(!dac.is_genesis());
}

#[test]
fn genesis_certificate_is_valid_in_the_genesis_view_alone() {
    let checker = quorum(0, 5);
    let mut genesis: QuorumCertificate<StaticVoteToken> = QuorumCertificate::genesis();
    assert!(genesis.is_genesis());
    assert_eq!(genesis.view_number(), GENESIS_VIEW);
    assert_eq!(genesis.leaf_commitment(), Commitment { bytes: [0; 32] });
    assert_eq!(genesis.signatures().len(), 0);
    assert!(checker.is_valid_cert(&genesis, commitment(1)));
    genesis.view_number = 1;
    assert!(!checker.is_valid_cert(&genesis, commitment(1)));
    let da: DACertificate<StaticVoteToken> = DACertificate::genesis();
    assert!(da.is_genesis());
    assert!(committee(0, 5, 3).is_valid_cert(&da, commitment(1)));
}

#[test]
fn signature_map_keeps_the_first_vote_of_a_voter() {
    let mut signatures: SignatureMap<u8> = SignatureMap::new();
    assert_eq!(signatures.len(), 0);
    assert!(signatures.insert(EncodedPublicKey(vec![1]), EncodedSignature(vec![10]), 1));
    assert!(!signatures.insert(EncodedPublicKey(vec![1]), EncodedSignature(vec![11]), 2));
    assert!(signatures.insert(EncodedPublicKey(vec![2]), EncodedSignature(vec![12]), 3));
    assert_eq!(signatures.len(), 2);
    assert_eq!(signatures.get(0).signature, EncodedSignature(vec![10]));
    assert_eq!(signatures.get(0).token, 1);
    assert_eq!(signatures.get(1).token, 3);
}

#[test]
fn exchange_hands_out_what_it_was_made_with() {
    let exchange: QuorumExchange<Committee, u32> =
        QuorumExchange::create(keys(3), StaticElectionConfig { num_nodes: 3 }, 17u32, key(1), secret(1));
    assert_eq!(*exchange.network(), 17);
    assert_eq!(*exchange.public_key(), key(1));
    assert_eq!(exchange.membership().threshold(), 3);
    let da: CommitteeExchange<Committee, &str> =
        CommitteeExchange::create(keys(3), StaticElectionConfig { num_nodes: 2 }, "net", key(0), secret(0));
    assert_eq!(*da.network(), "net");
    assert_eq!(*da.public_key(), key(0));
    assert_eq!(da.get_leader(3), key(1));
    assert!(da.is_leader(2));
}
