use hotshot_consensus::certificate::{QuorumCertificate, SignatureMap, SignedCertificate};
use hotshot_consensus::chain::Chain;
use hotshot_consensus::data::{Commitment, Leaf};
use hotshot_consensus::signature_key::EncodedPublicKey;
use hotshot_consensus::static_committee::StaticVoteToken;

type Token = StaticVoteToken;

fn name(id: u8) -> Commitment {
    Commitment { bytes: [id; 32] }
}

/// A leaf with a certificate for its parent, of the parent's view.
fn leaf(id: u8, view: u64, parent: u8, parent_view: u64) -> Leaf<Token> {
    Leaf {
        commitment: name(id),
        view_number: view,
        parent_commitment: name(parent),
        justify_qc: QuorumCertificate::from_signatures_and_commitment(parent_view, SignatureMap::new(), name(parent)),
        block_commitment: name(id.wrapping_add(100)),
        block_size: id as u64,
        proposer_key: EncodedPublicKey(vec![id]),
    }
}

/// 1 <- 2 <- 3 <- 5, and 4 on 2 beside 3.
fn sample() -> Chain<Token> {
    let mut chain = Chain::new();
    assert!(chain.insert(leaf(1, 10, 0, 9)));
    assert!(chain.insert(leaf(2, 11, 1, 10)));
    assert!(chain.insert(leaf(3, 12, 2, 11)));
    assert!(chain.insert(leaf(4, 13, 2, 11)));
    assert!(chain.insert(leaf(5, 14, 3, 12)));
    chain
}

fn views(path: &[Leaf<Token>]) -> Vec<u64> {
    path.iter().map(|leaf| leaf.view_number).collect()
}

#[test]
fn chain_keeps_one_leaf_for_a_commitment() {
    let mut chain = sample();
    assert_eq!(chain.len(), 5);
    assert!(!chain.insert(leaf(3, 99, 1, 10)));
    assert_eq!(chain.len(), 5);
    assert_eq!(chain.get(&name(3)).unwrap().view_number, 12);
    assert!(chain.get(&name(9)).is_none());
    assert_eq!(chain.at(4).commitment, name(5));
}

#[test]
fn chain_link_reads_what_the_walks_need() {
    let chain = sample();
    let link = chain.link(&name(5)).unwrap();
    assert_eq!(link.commitment, name(5));
    assert_eq!(link.view_number, 14);
    assert_eq!(link.parent_commitment, name(3));
    assert_eq!(link.certified_commitment, name(3));
    assert_eq!(link.certified_view, 12);
    assert_eq!(link.block_commitment, name(105));
    assert_eq!(link.block_size, 5);
    assert!(chain.link(&name(0)).is_none());
}

#[test]
fn lineage_walks_down_to_the_floor() {
    let chain = sample();
    assert_eq!(views(&chain.lineage(name(5), 10)), vec![14, 12, 11]);
    assert_eq!(chain.lineage_end(name(5), 10), name(1));
    assert_eq!(views(&chain.lineage(name(5), 12)), vec![14]);
    assert_eq!(chain.lineage_end(name(5), 12), name(3));
    assert_eq!(views(&chain.lineage(name(4), 0)), vec![13, 11, 10]);
    // the walk ends at the parent that is not known
    assert_eq!(chain.lineage_end(name(4), 0), name(0));
    // a walk from a leaf at the floor or below, or from an unknown leaf, passes nothing
    assert!(chain.lineage(name(5), 14).is_empty());
    assert_eq!(chain.lineage_end(name(5), 14), name(5));
    assert!(chain.lineage(name(9), 0).is_empty());
    assert_eq!(chain.lineage_end(name(9), 0), name(9));
}

#[test]
fn lineage_stops_where_a_link_does_not_hold() {
    let mut chain = sample();
    // a leaf of no higher view than its parent
    chain.insert(leaf(6, 14, 5, 14));
    assert_eq!(views(&chain.lineage(name(6), 0)), vec![14]);
    assert_eq!(chain.lineage_end(name(6), 0), name(5));
    // a certificate of another view than the parent's
    chain.insert(leaf(7, 20, 5, 13));
    assert_eq!(views(&chain.lineage(name(7), 0)), vec![20]);
    assert_eq!(chain.lineage_end(name(7), 0), name(5));
    // a certificate for another leaf than the parent
    let mut odd = leaf(8, 21, 5, 14);
    odd.justify_qc.set_leaf_commitment(name(4));
    chain.insert(odd);
    assert_eq!(views(&chain.lineage(name(8), 0)), vec![21]);
    assert_eq!(chain.lineage_end(name(8), 0), name(5));
}

#[test]
fn prune_forgets_what_is_below_the_floor() {
    let mut chain = sample();
    chain.prune(12);
    assert_eq!(chain.len(), 3);
    assert_eq!(chain.at(0).commitment, name(3));
    assert_eq!(chain.at(1).commitment, name(4));
    assert_eq!(chain.at(2).commitment, name(5));
    assert!(chain.get(&name(2)).is_none());
    chain.prune(0);
    assert_eq!(chain.len(), 3);
    chain.prune(u64::MAX);
    assert_eq!(chain.len(), 0);
}

#[test]
fn take_removes_one_leaf() {
    let mut chain = sample();
    let taken = chain.take(1);
    assert_eq!(taken.commitment, name(2));
    assert_eq!(chain.len(), 4);
    assert_eq!(chain.at(1).commitment, name(3));
    assert!(chain.get(&name(2)).is_none());
    // what was taken can come in again
    assert!(chain.insert(taken));
    assert_eq!(chain.at(4).commitment, name(2));
}
