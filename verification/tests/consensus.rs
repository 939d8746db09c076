use either::Either;
use hotshot_consensus::certificate::{DACertificate, QuorumCertificate, SignedCertificate};
use hotshot_consensus::consensus::{diagnose_vote, vote_message, Action, BlockInfo, Consensus, ConsensusError, Event};
use hotshot_consensus::election::{Checked, ElectionError, Membership};
use hotshot_consensus::data::{Commitment, Leaf, ValidatingProposal, VoteData, GENESIS_VIEW};
use hotshot_consensus::exchange::{CommitteeExchange, CommitteeExchangeType, ConsensusExchange, QuorumExchange, QuorumExchangeType};
use hotshot_consensus::message::ConsensusMessage;
use hotshot_consensus::signature_key::{EncodedPublicKey, EncodedSignature, SignatureKey};
use hotshot_consensus::static_committee::{StaticCommittee, StaticElectionConfig, StaticVoteToken};
use hotshot_consensus::vote::{QuorumVote, VoteAccumulator};

/// A toy scheme: the public key is the private key times an odd constant,
/// and a signature is a keyed checksum of the data.
#[derive(Clone, Debug, PartialEq, Eq)]
struct TestKey(u64);

const SPREAD: u64 = 0x9E37_79B9_7F4A_7C15;
const GATHER: u64 = 0xF1DE_83E1_9937_733D;

fn checksum(secret: u64, data: &[u8]) -> u64 {
    let mut sum = secret ^ 0xCBF2_9CE4_8422_2325;
    for byte in data {
        sum = (sum ^ (*byte as u64)).wrapping_mul(0x0000_0100_0000_01B3);
    }
    sum
}

impl SignatureKey for TestKey {
    type PrivateKey = u64;

    fn encoding(&self) -> vstd::seq::Seq<u8> {
        unreachable!()
    }

    fn decoding(_: vstd::seq::Seq<u8>) -> Option<Self> {
        unreachable!()
    }

    fn accepts(&self, _: vstd::seq::Seq<u8>, _: vstd::seq::Seq<u8>) -> bool {
        unreachable!()
    }

    fn public_of(_: &u64) -> Self {
        unreachable!()
    }

    fn signs(_: &u64, _: vstd::seq::Seq<u8>, _: vstd::seq::Seq<u8>) -> bool {
        unreachable!()
    }

    fn lemma_decoding_inverts_encoding(_: Self) {
    }

    fn lemma_encoding_inverts_decoding(_: vstd::seq::Seq<u8>) {
    }

    fn lemma_signature_verifies(_: u64, _: vstd::seq::Seq<u8>, _: vstd::seq::Seq<u8>) {
    }

    fn sign(private_key: &u64, data: &[u8]) -> EncodedSignature {
        EncodedSignature(checksum(*private_key, data).to_le_bytes().to_vec())
    }

    fn validate(&self, signature: &EncodedSignature, data: &[u8]) -> bool {
        let secret = self.0.wrapping_mul(GATHER);
        signature.0 == checksum(secret, data).to_le_bytes().to_vec()
    }

    fn from_private(private_key: &u64) -> Self {
        TestKey(private_key.wrapping_mul(SPREAD))
    }

    fn from_bytes(bytes: &EncodedPublicKey) -> Option<Self> {
        if bytes.0.len() == 8 {
            let mut raw = [0u8; 8];
            raw.copy_from_slice(&bytes.0);
            Some(TestKey(u64::from_le_bytes(raw)))
        } else {
            None
        }
    }

    fn to_bytes(&self) -> EncodedPublicKey {
        EncodedPublicKey(self.0.to_le_bytes().to_vec())
    }
}

type Committee = StaticCommittee<TestKey>;
type Token = StaticVoteToken;

const NODES: u64 = 5;
const DA_NODES: u64 = 3;
const TRANSACTIONS_PER_ROUND: u64 = 7;

fn secret(node: u64) -> u64 {
    1000 + node
}

fn key(node: u64) -> TestKey {
    TestKey::from_private(&secret(node))
}

fn keys(n: u64) -> Vec<TestKey> {
    (0..n).map(key).collect()
}

fn digest(kind: u8, words: &[u64], parts: &[&Commitment]) -> Commitment {
    let mut bytes = vec![kind];
    for word in words {
        bytes.extend_from_slice(&word.to_le_bytes());
    }
    for part in parts {
        bytes.extend_from_slice(&part.bytes);
    }
    let mut out = [0u8; 32];
    for (i, chunk) in out.chunks_mut(8).enumerate() {
        chunk.copy_from_slice(&checksum(i as u64, &bytes).to_le_bytes());
    }
    Commitment { bytes: out }
}

fn block(view: u64) -> BlockInfo {
    BlockInfo { commitment: digest(1, &[view], &[]), size: TRANSACTIONS_PER_ROUND }
}

fn leaf_commitment(view: u64, parent: &Commitment, block: &Commitment) -> Commitment {
    digest(2, &[view], &[parent, block])
}

fn certificate_commitment(qc: &QuorumCertificate<Token>) -> Commitment {
    digest(3, &[qc.view_number], &[&qc.leaf_commitment])
}

fn genesis_leaf() -> Leaf<Token> {
    let parent = Commitment { bytes: [0; 32] };
    let block = digest(1, &[0], &[]);
    let commitment = leaf_commitment(GENESIS_VIEW, &parent, &block);
    let mut justify_qc = QuorumCertificate::genesis();
    justify_qc.set_leaf_commitment(commitment);
    Leaf {
        commitment,
        view_number: GENESIS_VIEW,
        parent_commitment: parent,
        justify_qc,
        block_commitment: block,
        block_size: 0,
        proposer_key: key(0).to_bytes(),
    }
}

struct Node {
    id: u64,
    quorum: QuorumExchange<Committee, ()>,
    da: CommitteeExchange<Committee, ()>,
    consensus: Consensus<Token>,
    /// Each decide: the views of the leaves, newest first.
    decides: Vec<Vec<u64>>,
    decided_blocks: Vec<Commitment>,
    transactions: u64,
    replica_timeouts: Vec<u64>,
    next_leader_timeouts: Vec<u64>,
    errors: Vec<ConsensusError>,
    timers: Vec<u64>,
    /// The votes on leaves that the node cast: view, and what on.
    votes: Vec<(u64, VoteData)>,
    timeout_certificates: Vec<u64>,
    /// The views that the node kept when it was last looked at: current,
    /// last voted, last proposed, anchor, locked, highest certificate.
    views: [u64; 6],
}

impl Node {
    fn new(id: u64) -> Node {
        Node {
            id,
            quorum: QuorumExchange::create(keys(NODES), StaticElectionConfig { num_nodes: NODES }, (), key(id), secret(id)),
            da: CommitteeExchange::create(keys(NODES), StaticElectionConfig { num_nodes: DA_NODES }, (), key(id), secret(id)),
            consensus: Consensus::new(genesis_leaf()),
            decides: Vec::new(),
            decided_blocks: Vec::new(),
            transactions: 0,
            replica_timeouts: Vec::new(),
            next_leader_timeouts: Vec::new(),
            errors: Vec::new(),
            timers: Vec::new(),
            votes: Vec::new(),
            timeout_certificates: Vec::new(),
            views: [0; 6],
        }
    }

    /// No view that the node keeps has fallen since it was last looked at.
    fn look(&mut self) {
        let now = [
            self.consensus.current_view(),
            self.consensus.last_voted_view(),
            self.consensus.last_proposed_view(),
            self.consensus.anchor_view(),
            self.consensus.locked_view(),
            self.consensus.highest_qc().view_number,
        ];
        for (before, after) in self.views.iter().zip(now.iter()) {
            assert!(before <= after, "node {}: {:?} then {:?}", self.id, self.views, now);
        }
        assert!(now[3] <= now[4], "the lock is below the anchor");
        assert!(now[1] <= now[0], "voted in a view that is to come");
        self.views = now;
    }

    fn yes_views(&self) -> Vec<u64> {
        self.votes.iter().filter(|(_, data)| matches!(data, VoteData::Yes(_))).map(|(view, _)| *view).collect()
    }
}

/// What a node asks the network to carry.
enum Wire {
    Proposal { view_number: u64, parent_commitment: Commitment, justify_qc: QuorumCertificate<Token>, block: BlockInfo },
    Vote { recipient: EncodedPublicKey, vote: QuorumVote<Token> },
}

struct Cluster {
    nodes: Vec<Node>,
    /// Nodes whose messages are lost.
    silenced: Vec<u64>,
    /// Nodes that are away: nothing reaches them and nothing happens to them.
    paused: Vec<u64>,
    /// Views in which the data-availability committee signs nothing.
    withheld: Vec<u64>,
    /// The leaves that were proposed, by view.
    proposed: Vec<Leaf<Token>>,
}

impl Cluster {
    fn new() -> Cluster {
        Cluster {
            nodes: (0..NODES).map(Node::new).collect(),
            silenced: Vec::new(),
            paused: Vec::new(),
            withheld: Vec::new(),
            proposed: Vec::new(),
        }
    }

    fn active(&self, node: u64) -> bool {
        !self.paused.contains(&node)
    }

    fn heard(&self, node: u64) -> bool {
        !self.paused.contains(&node) && !self.silenced.contains(&node)
    }

    /// Performs what a handler asked for, as far as it stays with the node,
    /// and hands back what goes on the wire.
    fn perform(&mut self, node: usize, actions: Vec<Action<Token>>) -> Vec<Wire> {
        self.nodes[node].look();
        let mut wires = Vec::new();
        for action in actions {
            match action {
                Action::StartTimer { view_number } => self.nodes[node].timers.push(view_number),
                Action::Propose { view_number, parent_commitment, justify_qc, block } => {
                    wires.push(Wire::Proposal { view_number, parent_commitment, justify_qc, block });
                }
                Action::BroadcastTimeoutCertificate { certificate } => {
                    // whoever receives the certificate finds a quorum in it
                    for other in &self.nodes {
                        assert!(other.quorum.is_valid_timeout_cert(&certificate));
                    }
                    let mut moved = hotshot_consensus::certificate::TimeoutCertificate {
                        view_number: certificate.view_number + 1,
                        signatures: certificate.signatures,
                    };
                    assert!(!self.nodes[node].quorum.is_valid_timeout_cert(&moved));
                    moved.view_number -= 1;
                    self.nodes[node].timeout_certificates.push(moved.view_number);
                }
                Action::Emit { event } => match event {
                    Event::Decide { leaf_chain, qc, block_size } => {
                        assert!(!leaf_chain.is_empty());
                        assert_eq!(qc.leaf_commitment, leaf_chain[0].commitment);
                        assert_eq!(qc.view_number, leaf_chain[0].view_number);
                        assert_eq!(block_size, leaf_chain[0].block_size);
                        let me = &mut self.nodes[node];
                        me.decides.push(leaf_chain.iter().map(|leaf| leaf.view_number).collect());
                        for leaf in leaf_chain.iter().rev() {
                            me.decided_blocks.push(leaf.block_commitment);
                            me.transactions += leaf.block_size;
                        }
                    }
                    Event::ReplicaViewTimeout { view_number } => self.nodes[node].replica_timeouts.push(view_number),
                    Event::NextLeaderViewTimeout { view_number } => self.nodes[node].next_leader_timeouts.push(view_number),
                    Event::Error { kind } => self.nodes[node].errors.push(kind),
                },
                vote => {
                    if let Action::Vote { data, view_number, .. } = &vote {
                        self.nodes[node].votes.push((*view_number, *data));
                    }
                    if let Some(outgoing) = vote_message(&self.nodes[node].quorum, vote).unwrap() {
                        match outgoing.message {
                            ConsensusMessage::Vote(vote) => wires.push(Wire::Vote { recipient: outgoing.recipient, vote }),
                            other => panic!("not a vote of the quorum: {:?}", other),
                        }
                    }
                }
            }
        }
        wires
    }

    /// Carries what a node put on the wire. Votes go to their recipient at
    /// once; a proposal goes through the data-availability committee and
    /// then to all.
    fn carry(&mut self, sender: usize, wires: Vec<Wire>) {
        if !self.heard(sender as u64) {
            return;
        }
        for wire in wires {
            match wire {
                Wire::Vote { recipient, vote } => {
                    let to = (0..NODES).find(|n| key(*n).to_bytes() == recipient).unwrap() as usize;
                    if self.active(to as u64) {
                        let node = &mut self.nodes[to];
                        let actions = node.consensus.receive_vote(&node.quorum, vote);
                        let more = self.perform(to, actions);
                        self.carry(to, more);
                    }
                }
                Wire::Proposal { view_number, parent_commitment, justify_qc, block } => {
                    if !self.withheld.contains(&view_number) {
                        let certificate = self.certify_available(sender, view_number, &justify_qc, block);
                        for to in 0..NODES as usize {
                            if self.active(to as u64) {
                                let node = &mut self.nodes[to];
                                node.consensus.receive_da_cert(&node.da, &certificate);
                            }
                        }
                    }
                    let leaf = Leaf {
                        commitment: leaf_commitment(view_number, &parent_commitment, &block.commitment),
                        view_number,
                        parent_commitment,
                        justify_qc,
                        block_commitment: block.commitment,
                        block_size: block.size,
                        proposer_key: key(sender as u64).to_bytes(),
                    };
                    self.proposed.push(leaf.clone());
                    // the proposal reaches every node before the votes on it travel
                    let mut votes = Vec::new();
                    for to in 0..NODES as usize {
                        if self.active(to as u64) {
                            votes.push((to, self.receive(to, leaf.clone())));
                        }
                    }
                    for (voter, wires) in votes {
                        self.carry(voter, wires);
                    }
                }
            }
        }
    }

    /// The data-availability committee votes on a block and the leader gathers the votes.
    fn certify_available(&mut self, leader: usize, view: u64, justify_qc: &QuorumCertificate<Token>, block: BlockInfo) -> DACertificate<Token> {
        let justify = certificate_commitment(justify_qc);
        let gatherer = &self.nodes[leader].da;
        let mut accumulator = VoteAccumulator::new(view, VoteData::DA(block.commitment), gatherer.threshold());
        for member in 0..DA_NODES as usize {
            let voter = &self.nodes[member].da;
            let token = voter.make_vote_token(view).unwrap().unwrap();
            let vote = match voter.create_da_message(justify, block.commitment, view, token) {
                ConsensusMessage::DAVote(vote) => vote,
                other => panic!("not a DA vote: {:?}", other),
            };
            match gatherer.accumulate_vote(&vote.signature.0, &vote.signature.1, vote.block_commitment, vote.vote_token, vote.current_view, accumulator) {
                Either::Left(next) => accumulator = next,
                Either::Right(certificate) => return certificate,
            }
        }
        panic!("the committee did not reach the threshold")
    }

    /// A proposal reaches a node. What the node puts on the wire comes back.
    fn receive(&mut self, to: usize, leaf: Leaf<Token>) -> Vec<Wire> {
        let node = &mut self.nodes[to];
        let justify = certificate_commitment(&leaf.justify_qc);
        let signature = node.quorum.sign_validating_or_commitment_proposal(&leaf.commitment);
        let actions = node.consensus.receive_proposal(&node.quorum, ValidatingProposal { leaf, signature }, justify);
        self.perform(to, actions)
    }

    /// A proposal reaches a node, and the vote of the node its recipient.
    fn deliver(&mut self, to: usize, leaf: Leaf<Token>) {
        let wires = self.receive(to, leaf);
        self.carry(to, wires);
    }

    /// All nodes enter a view; its leader proposes and the others vote.
    fn run_view(&mut self, view: u64) {
        let mut wires = Vec::new();
        for node in 0..NODES as usize {
            if self.active(node as u64) {
                let me = &mut self.nodes[node];
                let actions = me.consensus.enter(&me.quorum, view, Some(block(view)));
                wires.push((node, self.perform(node, actions)));
            }
        }
        for (node, wires) in wires {
            self.carry(node, wires);
        }
    }

    /// The timers of all nodes fire.
    fn fire_timers(&mut self) {
        let mut wires = Vec::new();
        for node in 0..NODES as usize {
            if self.active(node as u64) {
                let me = &mut self.nodes[node];
                let actions = me.consensus.timer_fire(&me.quorum);
                wires.push((node, self.perform(node, actions)));
            }
        }
        for (node, wires) in wires {
            self.carry(node, wires);
        }
    }
}

#[test]
fn test_happy_path_five_nodes_ten_rounds() {
    let mut cluster = Cluster::new();
    // Three views to fill the pipeline, then ten rounds that each decide a
    // leaf. The votes of the last view stay out, so that every node has
    // seen the same.
    for view in 1..=12 {
        cluster.run_view(view);
    }
    let mut last = Vec::new();
    for node in 0..NODES as usize {
        let me = &mut cluster.nodes[node];
        let actions = me.consensus.enter(&me.quorum, 13, Some(block(13)));
        last.push((node, cluster.perform(node, actions)));
    }
    for (node, wires) in last {
        let proposals = wires.into_iter().filter(|wire| matches!(wire, Wire::Proposal { .. })).collect::<Vec<_>>();
        cluster.silenced = (0..NODES).filter(|n| *n != node as u64).collect();
        cluster.carry(node, proposals);
        cluster.silenced.clear();
    }
    // what one node decided, every node decided
    for node in &cluster.nodes {
        assert_eq!(node.decided_blocks, cluster.nodes[0].decided_blocks);
        assert_eq!(node.consensus.anchor_leaf(), cluster.nodes[0].consensus.anchor_leaf());
    }
    for node in &cluster.nodes {
        assert_eq!(node.decides.len(), 10, "node {}", node.id);
        for (round, decide) in node.decides.iter().enumerate() {
            assert_eq!(decide, &vec![round as u64 + 1]);
        }
        assert_eq!(node.transactions, 10 * TRANSACTIONS_PER_ROUND);
        assert_eq!(node.decided_blocks, (1..=10).map(|view| block(view).commitment).collect::<Vec<_>>());
        assert_eq!(node.consensus.anchor_view(), 10);
        assert_eq!(node.consensus.current_view(), 13);
        assert!(node.errors.is_empty());
        assert!(node.replica_timeouts.is_empty());
        assert!(!node.consensus.is_halted());
        assert_eq!(node.timers, (1..=13).collect::<Vec<u64>>());
    }
}

#[test]
fn test_every_node_votes_once_in_each_view() {
    let mut cluster = Cluster::new();
    for view in 1..=8 {
        cluster.run_view(view);
    }
    for node in &cluster.nodes {
        assert_eq!(node.yes_views(), (1..=8).collect::<Vec<u64>>());
        assert_eq!(node.consensus.last_voted_view(), 8);
    }
    // the proposals of views gone by come again, and one of the current view
    for leaf in cluster.proposed.clone() {
        for node in 0..NODES as usize {
            cluster.deliver(node, leaf.clone());
        }
    }
    for node in &cluster.nodes {
        assert_eq!(node.yes_views(), (1..=8).collect::<Vec<u64>>());
    }
}

#[test]
fn test_second_proposal_in_a_view_gets_no_vote() {
    let mut cluster = Cluster::new();
    for view in 1..=3 {
        cluster.run_view(view);
    }
    // the leader of view 3 proposes again, another block on the same parent
    let first = cluster.proposed[2].clone();
    let other = BlockInfo { commitment: digest(9, &[3], &[]), size: 1 };
    let second = Leaf {
        commitment: leaf_commitment(3, &first.parent_commitment, &other.commitment),
        block_commitment: other.commitment,
        block_size: other.size,
        ..first.clone()
    };
    assert_ne!(second.commitment, first.commitment);
    for node in 0..NODES as usize {
        let before = cluster.nodes[node].votes.len();
        cluster.deliver(node, second.clone());
        assert_eq!(cluster.nodes[node].votes.len(), before);
        // the leaf is known all the same
        assert!(cluster.nodes[node].consensus.leaf(&second.commitment).is_some());
        assert_eq!(cluster.nodes[node].consensus.last_voted_view(), 3);
    }
}

#[test]
fn test_single_view_timeout_then_recovery() {
    let mut cluster = Cluster::new();
    cluster.run_view(1);
    cluster.run_view(2);
    // the leader of view 3 is node 3
    assert!(cluster.nodes[3].quorum.is_leader(3));
    cluster.silenced = vec![3];
    cluster.run_view(3);
    cluster.fire_timers();
    cluster.silenced.clear();
    let timed_out = cluster.nodes.iter().filter(|node| node.replica_timeouts == vec![3]).count();
    assert!(timed_out as u64 >= cluster.nodes[0].quorum.threshold());
    // the leader of view 4 gathered the timeouts of the four that were heard
    assert_eq!(cluster.nodes[4].timeout_certificates, vec![3]);
    assert_eq!(cluster.nodes[4].next_leader_timeouts, vec![3]);
    for node in &cluster.nodes {
        assert_eq!(node.consensus.current_view(), 4);
    }
    for view in 4..=9 {
        cluster.run_view(view);
    }
    // view 4 produced a certificate: the leaf of view 5 stands on it
    let fifth = cluster.proposed.iter().find(|leaf| leaf.view_number == 5).unwrap();
    assert_eq!(fifth.justify_qc.view_number, 4);
    assert!(cluster.nodes[0].quorum.is_valid_cert(&fifth.justify_qc, fifth.parent_commitment));
    for node in &cluster.nodes {
        let decided = node.decides.iter().flatten().copied().collect::<Vec<u64>>();
        assert!(!decided.is_empty(), "node {}", node.id);
        assert!(!decided.contains(&3));
        assert!(decided.contains(&4));
        assert!(node.errors.is_empty());
        assert!(node.yes_views().contains(&4));
        assert!(!node.yes_views().contains(&3));
    }
    // the leaf of view 2 was never certified for the others and is passed over
    assert_eq!(cluster.nodes[0].decides[0], vec![4, 1]);
}

#[test]
fn test_da_withhold() {
    let mut cluster = Cluster::new();
    for view in 1..=4 {
        cluster.run_view(view);
    }
    cluster.withheld = vec![5];
    cluster.run_view(5);
    for node in &cluster.nodes {
        // every node voted in view 5, and voted no
        let fifth = node.votes.iter().filter(|(view, _)| *view == 5).collect::<Vec<_>>();
        assert_eq!(fifth.len(), 1);
        assert!(matches!(fifth[0].1, VoteData::No(_)));
        assert!(!node.yes_views().contains(&5));
    }
    // no certificate formed: the leader of view 6 knows none above view 4
    assert_eq!(cluster.nodes[1].consensus.highest_qc().view_number, 4);
    assert_eq!(cluster.nodes[1].consensus.accumulator_count(), 0);
    cluster.fire_timers();
    assert_eq!(cluster.nodes[1].timeout_certificates, vec![5]);
    for node in &cluster.nodes {
        assert_eq!(node.replica_timeouts, vec![5]);
        assert_eq!(node.consensus.current_view(), 6);
    }
    for view in 6..=12 {
        cluster.run_view(view);
    }
    for node in &cluster.nodes {
        let decided = node.decides.iter().flatten().copied().collect::<Vec<u64>>();
        assert!(decided.contains(&6));
        assert!(!decided.contains(&5));
        assert!(!node.decided_blocks.contains(&block(5).commitment));
        assert!(node.decided_blocks.contains(&block(6).commitment));
    }
}

#[test]
fn test_catch_up() {
    let mut cluster = Cluster::new();
    for view in 1..=4 {
        cluster.run_view(view);
    }
    let away = 4usize;
    assert_eq!(cluster.nodes[away].decides, vec![vec![1]]);
    cluster.paused = vec![away as u64];
    for view in 5..=7 {
        cluster.run_view(view);
    }
    cluster.paused.clear();
    let votes_before = cluster.nodes[away].votes.len();
    // the node comes back in view 8 and the proposal of that view reaches
    // it, and so do the votes on it, as the node leads view 9
    cluster.run_view(8);
    assert_eq!(cluster.nodes[away].errors, vec![ConsensusError::ChainGap]);
    assert_eq!(cluster.nodes[away].decides, vec![vec![1]]);
    assert_eq!(cluster.nodes[away].consensus.pending_count(), 1);
    assert_eq!(cluster.nodes[away].consensus.highest_qc().view_number, 8);
    // it asks for the leaves that it lacks, from the newest back
    for view in [7u64, 6, 5] {
        let leaf = cluster.proposed.iter().find(|leaf| leaf.view_number == view).unwrap().clone();
        cluster.deliver(away, leaf);
    }
    let node = &cluster.nodes[away];
    assert_eq!(node.errors, vec![ConsensusError::ChainGap; 3]);
    assert_eq!(node.decides, vec![vec![1], vec![6, 5, 4, 3, 2]]);
    assert!(node.decides[1].len() >= 3);
    assert_eq!(node.consensus.anchor_view(), 6);
    assert_eq!(node.consensus.pending_count(), 0);
    assert_eq!(node.consensus.leaf_count(), 3);
    // it cast no vote for what happened while it was away
    assert_eq!(node.votes.len(), votes_before);
    assert_eq!(node.yes_views(), vec![1, 2, 3, 4]);
    // and is with the others from the next view on
    cluster.run_view(9);
    cluster.run_view(10);
    let node = &cluster.nodes[away];
    assert_eq!(node.yes_views(), vec![1, 2, 3, 4, 9, 10]);
    assert_eq!(node.consensus.anchor_view(), cluster.nodes[0].consensus.anchor_view());
    assert_eq!(node.decided_blocks, cluster.nodes[0].decided_blocks);
}

#[test]
fn test_double_vote_attempt_at_the_next_leader() {
    let mut cluster = Cluster::new();
    for view in 1..=6 {
        cluster.run_view(view);
    }
    // view 7: the leader of view 8 is node 3; it has two of the votes
    let leader = 3usize;
    for node in 0..NODES as usize {
        let me = &mut cluster.nodes[node];
        let actions = me.consensus.enter(&me.quorum, 7, Some(block(7)));
        cluster.perform(node, actions);
    }
    let parent = cluster.proposed[5].commitment;
    let leaf = leaf_commitment(7, &parent, &block(7).commitment);
    let other = leaf_commitment(7, &parent, &block(70).commitment);
    let justify = Commitment { bytes: [1; 32] };
    let vote = |cluster: &Cluster, node: usize, on: Commitment| -> QuorumVote<Token> {
        let voter = &cluster.nodes[node].quorum;
        match voter.create_yes_message(justify, on, 7, voter.make_vote_token(7).unwrap().unwrap()) {
            ConsensusMessage::Vote(vote) => vote,
            other => panic!("not a vote: {:?}", other),
        }
    };
    for node in [0usize, 1] {
        let v = vote(&cluster, node, leaf);
        let me = &mut cluster.nodes[leader];
        assert!(me.consensus.receive_vote(&me.quorum, v).is_empty());
    }
    assert_eq!(cluster.nodes[leader].consensus.accumulator_count(), 1);
    // node 1 votes for another leaf of view 7: that is another accumulator,
    // and the vote does nothing for the first leaf
    let v = vote(&cluster, 1, other);
    let me = &mut cluster.nodes[leader];
    assert!(me.consensus.receive_vote(&me.quorum, v).is_empty());
    assert_eq!(me.consensus.accumulator_count(), 2);
    // node 1 votes for the first leaf again: it is not counted again
    let v = vote(&cluster, 1, leaf);
    let me = &mut cluster.nodes[leader];
    assert!(me.consensus.receive_vote(&me.quorum, v).is_empty());
    // one more honest vote is three: below the threshold of four
    let v = vote(&cluster, 2, leaf);
    let me = &mut cluster.nodes[leader];
    assert!(me.consensus.receive_vote(&me.quorum, v).is_empty());
    assert_eq!(me.consensus.highest_qc().view_number, 5);
    // the fourth voter completes the certificate for the first leaf
    let v = vote(&cluster, 3, leaf);
    let me = &mut cluster.nodes[leader];
    me.consensus.receive_vote(&me.quorum, v);
    assert_eq!(me.consensus.highest_qc().view_number, 7);
    assert_eq!(me.consensus.highest_qc().leaf_commitment, leaf);
    // the stray accumulator is still there and the used one is gone
    assert_eq!(me.consensus.accumulator_count(), 1);
    // votes that come late are ignored
    let v = vote(&cluster, 4, leaf);
    let me = &mut cluster.nodes[leader];
    assert!(me.consensus.receive_vote(&me.quorum, v).is_empty());
    assert_eq!(me.consensus.accumulator_count(), 1);
}

#[test]
fn test_votes_go_to_the_next_leader_alone() {
    let mut cluster = Cluster::new();
    cluster.run_view(1);
    let voter = &cluster.nodes[0].quorum;
    let token = voter.make_vote_token(2).unwrap().unwrap();
    let vote = match voter.create_yes_message(Commitment { bytes: [0; 32] }, Commitment { bytes: [5; 32] }, 2, token) {
        ConsensusMessage::Vote(vote) => vote,
        other => panic!("not a vote: {:?}", other),
    };
    // node 1 does not lead view 3
    let me = &mut cluster.nodes[1];
    assert!(me.consensus.receive_vote(&me.quorum, vote).is_empty());
    assert_eq!(me.consensus.accumulator_count(), 0);
    // refusals are not gathered, not even by the next leader
    let voter = &cluster.nodes[0].quorum;
    let refusal = match voter.create_no_message(Commitment { bytes: [0; 32] }, Commitment { bytes: [5; 32] }, 2, token) {
        ConsensusMessage::Vote(vote) => vote,
        other => panic!("not a vote: {:?}", other),
    };
    let me = &mut cluster.nodes[3];
    assert!(me.consensus.receive_vote(&me.quorum, refusal).is_empty());
    assert_eq!(me.consensus.accumulator_count(), 0);
    // a vote that does not verify leaves nothing behind
    let voter = &cluster.nodes[0].quorum;
    let mut forged = match voter.create_yes_message(Commitment { bytes: [0; 32] }, Commitment { bytes: [5; 32] }, 2, token) {
        ConsensusMessage::Vote(QuorumVote::Yes(vote)) => vote,
        other => panic!("not a vote: {:?}", other),
    };
    forged.signature.1 = EncodedSignature(vec![0; 8]);
    let me = &mut cluster.nodes[3];
    let actions = me.consensus.receive_vote(&me.quorum, QuorumVote::Yes(forged));
    assert_eq!(actions.len(), 1);
    assert!(matches!(actions[0], Action::Emit { event: Event::Error { kind: ConsensusError::InvalidSignature } }));
    assert_eq!(me.consensus.accumulator_count(), 0);
}

#[test]
fn test_votes_that_are_left_out_are_reported() {
    let mut cluster = Cluster::new();
    cluster.run_view(1);
    let leaf = Commitment { bytes: [5; 32] };
    let justify = Commitment { bytes: [0; 32] };
    let yes = |cluster: &Cluster, node: usize| {
        let voter = &cluster.nodes[node].quorum;
        match voter.create_yes_message(justify, leaf, 2, voter.make_vote_token(2).unwrap().unwrap()) {
            ConsensusMessage::Vote(QuorumVote::Yes(vote)) => vote,
            other => panic!("not a vote: {:?}", other),
        }
    };
    // a token of the wrong weight
    let mut heavy = yes(&cluster, 0);
    heavy.vote_token = StaticVoteToken::new(3).unwrap();
    let me = &mut cluster.nodes[3];
    let actions = me.consensus.receive_vote(&me.quorum, QuorumVote::Yes(heavy));
    assert!(matches!(actions[..], [Action::Emit { event: Event::Error { kind: ConsensusError::InvalidToken } }]));
    // a key that does not read
    let mut unreadable = yes(&cluster, 0);
    unreadable.signature.0 = EncodedPublicKey(vec![1, 2, 3]);
    let me = &mut cluster.nodes[3];
    let actions = me.consensus.receive_vote(&me.quorum, QuorumVote::Yes(unreadable));
    assert!(matches!(actions[..], [Action::Emit { event: Event::Error { kind: ConsensusError::InvalidSignature } }]));
    // a timeout vote signed over another view
    let voter = &cluster.nodes[0].quorum;
    let token = voter.make_vote_token(2).unwrap().unwrap();
    let mut timeout = match voter.create_timeout_message(QuorumCertificate::genesis(), 2, token) {
        ConsensusMessage::Vote(QuorumVote::Timeout(vote)) => vote,
        other => panic!("not a vote: {:?}", other),
    };
    timeout.signature = voter.sign_timeout_vote(3);
    let me = &mut cluster.nodes[3];
    let actions = me.consensus.receive_vote(&me.quorum, QuorumVote::Timeout(timeout));
    assert!(matches!(actions[..], [Action::Emit { event: Event::Error { kind: ConsensusError::InvalidSignature } }]));
    assert_eq!(me.consensus.accumulator_count(), 0);
    // a good vote, and the same vote again: nothing is wrong with it, and it counts once
    let me = &mut cluster.nodes[3];
    let first = yes(&cluster, 0);
    let second = yes(&cluster, 0);
    let me = &mut cluster.nodes[3];
    assert!(me.consensus.receive_vote(&me.quorum, QuorumVote::Yes(first)).is_empty());
    assert!(me.consensus.receive_vote(&me.quorum, QuorumVote::Yes(second)).is_empty());
    assert_eq!(me.consensus.accumulator_count(), 1);
}

#[test]
fn test_new_node_starts_at_the_anchor() {
    let genesis = genesis_leaf();
    let consensus: Consensus<Token> = Consensus::new(genesis.clone());
    assert!(!consensus.is_halted());
    assert_eq!(consensus.current_view(), GENESIS_VIEW);
    assert_eq!(consensus.last_voted_view(), GENESIS_VIEW);
    assert_eq!(consensus.last_proposed_view(), GENESIS_VIEW);
    assert_eq!(consensus.anchor_view(), GENESIS_VIEW);
    assert_eq!(consensus.locked_view(), GENESIS_VIEW);
    assert_eq!(consensus.anchor_leaf(), genesis.commitment);
    assert_eq!(consensus.leaf_count(), 1);
    assert!(consensus.highest_qc().is_genesis());
    assert_eq!(consensus.highest_qc().leaf_commitment(), genesis.commitment);
    assert_eq!(consensus.leaf(&genesis.commitment).unwrap().view_number, GENESIS_VIEW);
    assert!(consensus.leaf(&Commitment { bytes: [9; 32] }).is_none());
}

#[test]
fn test_entering_a_view() {
    let mut cluster = Cluster::new();
    // node 1 leads view 1
    let me = &mut cluster.nodes[1];
    let actions = me.consensus.enter(&me.quorum, 1, Some(block(1)));
    assert_eq!(actions.len(), 2);
    assert!(matches!(actions[0], Action::StartTimer { view_number: 1 }));
    match &actions[1] {
        Action::Propose { view_number, parent_commitment, justify_qc, block: carried } => {
            assert_eq!(*view_number, 1);
            assert_eq!(*parent_commitment, genesis_leaf().commitment);
            assert!(justify_qc.is_genesis());
            assert_eq!(*carried, block(1));
        }
        other => panic!("not a proposal: {:?}", other),
    }
    assert_eq!(me.consensus.last_proposed_view(), 1);
    // it does not propose twice in a view
    let again = me.consensus.enter(&me.quorum, 1, Some(block(1)));
    assert_eq!(again.len(), 1);
    // views do not go back
    let back = me.consensus.enter(&me.quorum, 0, None);
    assert!(back.is_empty());
    assert_eq!(me.consensus.current_view(), 1);
    // the others start the timer and wait
    let me = &mut cluster.nodes[2];
    let actions = me.consensus.enter(&me.quorum, 1, Some(block(1)));
    assert_eq!(actions.len(), 1);
    assert!(matches!(actions[0], Action::StartTimer { view_number: 1 }));
    assert_eq!(me.consensus.last_proposed_view(), 0);
    // without a new block the leader proposes the block of the certified leaf again
    let me = &mut cluster.nodes[1];
    let actions = me.consensus.enter(&me.quorum, 6, None);
    match &actions[1] {
        Action::Propose { view_number, block: carried, .. } => {
            assert_eq!(*view_number, 6);
            assert_eq!(carried.commitment, genesis_leaf().block_commitment);
            assert_eq!(carried.size, 0);
        }
        other => panic!("not a proposal: {:?}", other),
    }
}

#[test]
fn test_timer_fire_in_the_last_view() {
    let mut cluster = Cluster::new();
    let me = &mut cluster.nodes[0];
    me.consensus.enter(&me.quorum, u64::MAX, None);
    let actions = me.consensus.timer_fire(&me.quorum);
    assert_eq!(actions.len(), 1);
    assert!(matches!(actions[0], Action::Emit { event: Event::ReplicaViewTimeout { view_number: u64::MAX } }));
    assert_eq!(me.consensus.current_view(), u64::MAX);
}

#[test]
fn test_timer_fire_sends_a_timeout_vote_to_the_next_leader() {
    let mut cluster = Cluster::new();
    cluster.run_view(1);
    let me = &mut cluster.nodes[0];
    let actions = me.consensus.timer_fire(&me.quorum);
    assert_eq!(actions.len(), 2);
    match &actions[0] {
        Action::TimeoutVote { recipient, view_number, justify_qc } => {
            assert_eq!(*recipient, key(2).to_bytes());
            assert_eq!(*view_number, 1);
            assert!(justify_qc.is_genesis());
        }
        other => panic!("not a timeout vote: {:?}", other),
    }
    assert!(matches!(actions[1], Action::Emit { event: Event::ReplicaViewTimeout { view_number: 1 } }));
    assert_eq!(me.consensus.current_view(), 2);
    // the leader of the next view tells its client so
    let me = &mut cluster.nodes[2];
    let actions = me.consensus.timer_fire(&me.quorum);
    assert_eq!(actions.len(), 3);
    assert!(matches!(actions[2], Action::Emit { event: Event::NextLeaderViewTimeout { view_number: 1 } }));
}

#[test]
fn test_failures_halt_the_node_where_they_are_fatal() {
    let mut cluster = Cluster::new();
    cluster.run_view(1);
    let me = &mut cluster.nodes[0];
    let actions = me.consensus.fail(ConsensusError::NetworkTransient);
    assert!(matches!(actions[0], Action::Emit { event: Event::Error { kind: ConsensusError::NetworkTransient } }));
    assert!(!me.consensus.is_halted());
    let actions = me.consensus.fail(ConsensusError::StorageFailure);
    assert!(matches!(actions[0], Action::Emit { event: Event::Error { kind: ConsensusError::StorageFailure } }));
    assert!(me.consensus.is_halted());
    // a halted node does nothing
    assert!(me.consensus.fail(ConsensusError::StorageFailure).is_empty());
    assert!(me.consensus.enter(&me.quorum, 2, None).is_empty());
    assert!(me.consensus.timer_fire(&me.quorum).is_empty());
    assert_eq!(me.consensus.current_view(), 1);
    let me = &mut cluster.nodes[1];
    me.consensus.fail(ConsensusError::SafetyViolationDetected);
    assert!(me.consensus.is_halted());
    // no decide comes from a halted node
    for view in 2..=8 {
        cluster.run_view(view);
    }
    assert!(cluster.nodes[0].decides.is_empty());
    assert!(cluster.nodes[1].decides.is_empty());
}

#[test]
fn test_proposals_that_are_not_looked_at() {
    let mut cluster = Cluster::new();
    for view in 1..=4 {
        cluster.run_view(view);
    }
    let count = cluster.nodes[1].consensus.leaf_count();
    let good = cluster.proposed[3].clone();
    // a certificate that is not for the parent
    let mut stray = Leaf { commitment: Commitment { bytes: [7; 32] }, view_number: 5, ..good.clone() };
    stray.parent_commitment = Commitment { bytes: [8; 32] };
    cluster.deliver(1, stray);
    // a certificate without a quorum
    let mut thin = Leaf { commitment: Commitment { bytes: [7; 32] }, view_number: 5, ..good.clone() };
    thin.justify_qc = QuorumCertificate::from_signatures_and_commitment(3, hotshot_consensus::certificate::SignatureMap::new(), thin.parent_commitment);
    cluster.deliver(1, thin);
    // a certificate that claims another view than that of the leaf it is for
    let mut dated = Leaf { commitment: Commitment { bytes: [7; 32] }, view_number: 5, ..good.clone() };
    dated.justify_qc.view_number = 2;
    cluster.deliver(1, dated);
    // a leaf of no higher view than its parent
    let low = Leaf { commitment: Commitment { bytes: [7; 32] }, view_number: 3, ..good.clone() };
    cluster.deliver(1, low);
    // a leaf at or below the anchor
    assert_eq!(cluster.nodes[1].consensus.anchor_view(), 1);
    let old = Leaf { commitment: Commitment { bytes: [7; 32] }, view_number: 1, ..good.clone() };
    cluster.deliver(1, old);
    assert_eq!(cluster.nodes[1].consensus.leaf_count(), count);
    assert!(cluster.nodes[1].errors.is_empty());
    assert_eq!(cluster.nodes[1].yes_views(), vec![1, 2, 3, 4]);
}

#[test]
fn test_waiting_leaves_are_bounded() {
    let mut cluster = Cluster::new();
    for view in 1..=2 {
        cluster.run_view(view);
    }
    let good = cluster.proposed[1].clone();
    // a valid certificate, for a leaf that the node has never seen
    let unknown = Commitment { bytes: [42; 32] };
    let mut signatures = hotshot_consensus::certificate::SignatureMap::new();
    for voter in 0..4usize {
        let quorum = &cluster.nodes[voter].quorum;
        let (k, s) = quorum.sign_yes_vote(unknown);
        signatures.insert(k, s, quorum.make_vote_token(2).unwrap().unwrap());
    }
    let justify_qc = QuorumCertificate::from_signatures_and_commitment(2, signatures, unknown);
    for i in 0..100u64 {
        let orphan = Leaf {
            commitment: digest(8, &[i], &[]),
            view_number: 3,
            parent_commitment: unknown,
            justify_qc: justify_qc.clone(),
            ..good.clone()
        };
        cluster.deliver(0, orphan);
    }
    assert_eq!(cluster.nodes[0].errors, vec![ConsensusError::ChainGap; 100]);
    assert_eq!(cluster.nodes[0].consensus.leaf_count(), 3);
    assert_eq!(cluster.nodes[0].consensus.pending_count(), 64);
}

/// A certificate for a leaf, signed by four of the five.
fn forged_certificate(cluster: &Cluster, view: u64, leaf: Commitment) -> QuorumCertificate<Token> {
    let mut signatures = hotshot_consensus::certificate::SignatureMap::new();
    for voter in 0..4usize {
        let quorum = &cluster.nodes[voter].quorum;
        let (k, s) = quorum.sign_yes_vote(leaf);
        signatures.insert(k, s, quorum.make_vote_token(view).unwrap().unwrap());
    }
    QuorumCertificate::from_signatures_and_commitment(view, signatures, leaf)
}

fn leaf_on(parent: &Leaf<Token>, justify_qc: QuorumCertificate<Token>, view: u64, seed: u64) -> Leaf<Token> {
    let block = digest(7, &[seed], &[]);
    Leaf {
        commitment: leaf_commitment(view, &parent.commitment, &block),
        view_number: view,
        parent_commitment: parent.commitment,
        justify_qc,
        block_commitment: block,
        block_size: 1,
        proposer_key: key(0).to_bytes(),
    }
}

#[test]
fn test_conflicting_decision_halts_the_node() {
    let mut cluster = Cluster::new();
    cluster.run_view(1);
    let watched = 1usize;
    // another leaf of view 1 is known before anything is decided
    let genesis = genesis_leaf();
    let rival = leaf_on(&genesis, genesis.justify_qc.clone(), 1, 100);
    cluster.deliver(watched, rival.clone());
    for view in 2..=4 {
        cluster.run_view(view);
    }
    assert_eq!(cluster.nodes[watched].consensus.anchor_view(), 1);
    assert_ne!(cluster.nodes[watched].consensus.anchor_leaf(), rival.commitment);
    assert!(cluster.nodes[watched].consensus.leaf(&rival.commitment).is_some());
    // four of five sign a chain on the rival: three leaves in a row, and one to carry the last certificate
    let fifth = leaf_on(&rival, forged_certificate(&cluster, 1, rival.commitment), 5, 105);
    let sixth = leaf_on(&fifth, forged_certificate(&cluster, 5, fifth.commitment), 6, 106);
    let seventh = leaf_on(&sixth, forged_certificate(&cluster, 6, sixth.commitment), 7, 107);
    let eighth = leaf_on(&seventh, forged_certificate(&cluster, 7, seventh.commitment), 8, 108);
    for leaf in [fifth, sixth, seventh] {
        cluster.deliver(watched, leaf);
        assert!(!cluster.nodes[watched].consensus.is_halted());
    }
    let decided = cluster.nodes[watched].decides.len();
    cluster.deliver(watched, eighth);
    let node = &cluster.nodes[watched];
    assert!(node.consensus.is_halted());
    assert_eq!(node.errors, vec![ConsensusError::SafetyViolationDetected]);
    assert_eq!(node.decides.len(), decided);
    assert_eq!(node.consensus.anchor_view(), 1);
}

#[test]
fn test_lock_follows_the_certificates() {
    let mut cluster = Cluster::new();
    for view in 1..=6 {
        cluster.run_view(view);
        for node in &cluster.nodes {
            let highest = node.consensus.highest_qc().view_number;
            // the lock is on the parent of the certified leaf, the anchor on its grandparent
            assert_eq!(node.consensus.locked_view(), highest.saturating_sub(1));
            assert_eq!(node.consensus.anchor_view(), highest.saturating_sub(2));
            if highest >= 1 {
                let certified = node.consensus.leaf(&node.consensus.highest_qc().leaf_commitment).unwrap();
                assert_eq!(node.consensus.locked_leaf(), certified.parent_commitment);
            }
        }
    }
}

#[test]
fn test_proposal_must_come_from_the_leader() {
    let mut cluster = Cluster::new();
    cluster.run_view(1);
    let leaf = cluster.proposed[0].clone();
    let leader = &cluster.nodes[1].quorum;
    let checker = &cluster.nodes[3].quorum;
    let good = ValidatingProposal { signature: leader.sign_validating_or_commitment_proposal(&leaf.commitment), leaf: leaf.clone() };
    assert!(checker.is_valid_proposal(&good));
    // signed by another node
    let other = &cluster.nodes[2].quorum;
    let stolen = ValidatingProposal { signature: other.sign_validating_or_commitment_proposal(&leaf.commitment), leaf: leaf.clone() };
    assert!(!checker.is_valid_proposal(&stolen));
    // signed by the leader over another leaf
    let moved = ValidatingProposal { signature: leader.sign_validating_or_commitment_proposal(&Commitment { bytes: [1; 32] }), leaf: leaf.clone() };
    assert!(!checker.is_valid_proposal(&moved));
    // a leaf that names another proposer
    let mut renamed = leaf.clone();
    renamed.proposer_key = key(2).to_bytes();
    let named = ValidatingProposal { signature: leader.sign_validating_or_commitment_proposal(&renamed.commitment), leaf: renamed };
    assert!(!checker.is_valid_proposal(&named));
    // a leaf of a view that another node leads
    let mut later = leaf.clone();
    later.view_number = 2;
    let late = ValidatingProposal { signature: leader.sign_validating_or_commitment_proposal(&later.commitment), leaf: later };
    assert!(!checker.is_valid_proposal(&late));
}

/// An election that cannot answer.
struct Stubborn;

impl Membership for Stubborn {
    type SignatureKey = TestKey;
    type VoteTokenType = Token;
    type ElectionConfigType = StaticElectionConfig;
    type StateType = ();
    type StakeTable = ();

    fn leader(&self, _: u64) -> TestKey {
        unreachable!()
    }

    fn committee(&self, _: u64) -> vstd::set::Set<TestKey> {
        unreachable!()
    }

    fn vote_token(&self, _: u64, _: u64) -> Result<Option<Token>, ElectionError> {
        unreachable!()
    }

    fn validated_token(
        &self,
        _: u64,
        _: TestKey,
        _: Checked<Token>,
    ) -> Result<Checked<Token>, ElectionError> {
        unreachable!()
    }

    fn success_threshold(&self) -> vstd::prelude::nat {
        unreachable!()
    }

    fn default_config(_: u64) -> StaticElectionConfig {
        unreachable!()
    }

    fn elects(_: vstd::seq::Seq<TestKey>, _: StaticElectionConfig, _: Self) -> bool {
        unreachable!()
    }

    fn stake_table_at(&self, _: u64, _: (), _: ()) -> bool {
        unreachable!()
    }

    fn default_election_config(num_nodes: u64) -> StaticElectionConfig {
        StaticElectionConfig { num_nodes }
    }

    fn create_election(_: Vec<TestKey>, _: StaticElectionConfig) -> Self {
        Stubborn
    }

    fn get_stake_table(&self, _: u64, _: &()) {}

    fn get_leader(&self, _: u64) -> TestKey {
        key(0)
    }

    fn get_committee(&self, _: u64) -> Vec<TestKey> {
        vec![key(0)]
    }

    fn make_vote_token(&self, _: u64, _: &u64) -> Result<Option<Token>, ElectionError> {
        Err(ElectionError::StubError)
    }

    fn validate_vote_token(
        &self,
        _: u64,
        _: TestKey,
        _: Checked<Token>,
    ) -> Result<Checked<Token>, ElectionError> {
        Err(ElectionError::StubError)
    }

    fn threshold(&self) -> u64 {
        1
    }
}

#[test]
fn test_an_election_that_cannot_answer() {
    let exchange: QuorumExchange<Stubborn, ()> =
        QuorumExchange::create(keys(1), StaticElectionConfig { num_nodes: 1 }, (), key(0), secret(0));
    assert_eq!(exchange.make_vote_token(1), Err(ElectionError::StubError));
    // no vote can be cast
    let leaf = Commitment { bytes: [1; 32] };
    let action = Action::Vote {
        recipient: key(0).to_bytes(),
        data: VoteData::Yes(leaf),
        view_number: 1,
        justify_qc_commitment: leaf,
    };
    assert!(matches!(vote_message(&exchange, action), Err(ElectionError::StubError)));
    let action: Action<Token> = Action::StartTimer { view_number: 1 };
    assert!(matches!(vote_message(&exchange, action), Ok(None)));
    // and no vote counts
    let (k, s) = exchange.sign_yes_vote(leaf);
    let token = StaticVoteToken::new(1).unwrap();
    assert_eq!(
        diagnose_vote(exchange.membership(), &k, &s, VoteData::Yes(leaf), 1, token),
        Some(ConsensusError::ElectionError(ElectionError::StubError))
    );
    assert_eq!(
        diagnose_vote(exchange.membership(), &k, &EncodedSignature(vec![]), VoteData::Yes(leaf), 1, token),
        Some(ConsensusError::InvalidSignature)
    );
    let mut consensus: Consensus<Token> = Consensus::new(genesis_leaf());
    let vote = hotshot_consensus::vote::YesOrNoVote {
        justify_qc_commitment: leaf,
        signature: (k, s),
        leaf_commitment: leaf,
        current_view: 1,
        vote_token: token,
    };
    let actions = consensus.receive_vote(&exchange, QuorumVote::Yes(vote));
    assert!(matches!(
        actions[..],
        [Action::Emit { event: Event::Error { kind: ConsensusError::ElectionError(ElectionError::StubError) } }]
    ));
    assert_eq!(consensus.accumulator_count(), 0);
}

#[test]
fn test_lock_follows_the_proposal_when_a_higher_certificate_is_known() {
    let mut cluster = Cluster::new();
    for view in 1..=3 {
        cluster.run_view(view);
    }
    // node 0 leads view 10 and gathers the votes of view 9, on a leaf that it never sees
    let watched = 0usize;
    assert!(cluster.nodes[watched].quorum.is_leader(10));
    let unseen = Commitment { bytes: [99; 32] };
    for voter in 1..5usize {
        let quorum = &cluster.nodes[voter].quorum;
        let token = quorum.make_vote_token(9).unwrap().unwrap();
        let vote = match quorum.create_yes_message(Commitment { bytes: [0; 32] }, unseen, 9, token) {
            ConsensusMessage::Vote(vote) => vote,
            other => panic!("not a vote: {:?}", other),
        };
        let me = &mut cluster.nodes[watched];
        me.consensus.receive_vote(&me.quorum, vote);
    }
    let me = &cluster.nodes[watched];
    assert_eq!(me.consensus.highest_qc().view_number, 9);
    assert_eq!(me.consensus.locked_view(), 1);
    // the proposal of view 4 comes in: the node votes, and locks the leaf of view 2
    let before = me.votes.len();
    cluster.run_view(4);
    let me = &cluster.nodes[watched];
    assert_eq!(me.votes.len(), before + 1);
    assert_eq!(me.consensus.highest_qc().view_number, 9);
    assert_eq!(me.consensus.locked_view(), 2);
    assert_eq!(me.consensus.locked_leaf(), cluster.proposed[1].commitment);
}
