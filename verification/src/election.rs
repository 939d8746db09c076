//! The election: who leads a view, who may vote in it, and with what weight.

use vstd::prelude::*;
use crate::data::ViewNumber;
use crate::signature_key::SignatureKey;

verus! {

/// Error for election problems.
#[derive(Clone, Copy, Debug, PartialEq, Eq, Structural)]
pub enum ElectionError {
    /// The election could not answer.
    StubError,
    /// Arithmetic on stake went out of range.
    MathError,
}

/// For items that will always have the same validity outcome on a successful
/// check: the outcome is kept with the item, and an item that could not be
/// checked yet can be checked again later.
#[derive(Debug)]
pub enum Checked<T> {
    /// This item has been checked, and is valid.
    Valid(T),
    /// This item has been checked, and is not valid.
    Inval(T),
    /// This item has not been checked.
    Unchecked(T),
}

impl<T> Checked<T> {
    /// The item, whatever is known of it.
    pub open spec fn item(self) -> T {
        match self {
            Checked::Valid(t) => t,
            Checked::Inval(t) => t,
            Checked::Unchecked(t) => t,
        }
    }

    /// Takes the item out, whatever is known of it.
    pub fn into_item(self) -> (t: T)
        ensures
            t == self.item(),
    {
        match self {
            Checked::Valid(t) => t,
            Checked::Inval(t) => t,
            Checked::Unchecked(t) => t,
        }
    }

    /// Whether the item was checked and found valid.
    pub fn is_valid(&self) -> (valid: bool)
        ensures
            valid == (*self is Valid),
    {
        match self {
            Checked::Valid(_) => true,
            _ => false,
        }
    }
}

/// Proof of this entity's right to vote, and of the weight of those votes.
///
/// A token can be cloned and written as bytes, and comes back from either
/// as it was.
pub trait VoteToken: Clone + Sized {
    /// The weight that this token claims.
    spec fn weight(&self) -> nat;

    /// The canonical bytes of this token.
    spec fn encoding(&self) -> Seq<u8>;

    /// The token that a byte string stands for, if it stands for one.
    spec fn decoding(bytes: Seq<u8>) -> Option<Self>;

    /// The count, which validation will confirm. It is never zero.
    fn vote_count(&self) -> (count: u64)
        ensures
            count == self.weight(),
            count >= 1,
    ;

    /// Writes this token as its canonical bytes.
    fn to_bytes(&self) -> (bytes: Vec<u8>)
        ensures
            bytes@ == self.encoding(),
    ;

    /// Reads a token back from its canonical bytes. Anything else is refused.
    fn from_bytes(bytes: &[u8]) -> (token: Option<Self>)
        ensures
            token == Self::decoding(bytes@),
    ;

    /// A clone of a token is that token.
    proof fn lemma_clone_is_exact(token: Self, copy: Self)
        requires
            cloned(token, copy),
        ensures
            copy == token,
    ;

    /// Reading back what was written gives the token that was written.
    proof fn lemma_decoding_inverts_encoding(token: Self)
        ensures
            Self::decoding(token.encoding()) == Some(token),
    ;

    /// A token has one canonical form: what reads as a token is what that
    /// token writes.
    proof fn lemma_encoding_inverts_decoding(bytes: Seq<u8>)
        requires
            Self::decoding(bytes) is Some,
        ensures
            Self::decoding(bytes).unwrap().encoding() == bytes,
    ;
}

/// Election config.
pub trait ElectionConfig: Default + Clone + Sync + Send {
}

/// The members of a committee and the rules by which one of them leads a
/// view and each of them votes in it.
///
/// The spec functions name what the executable methods answer. An answer
/// depends on the membership and the arguments alone: asked twice, a
/// membership answers the same.
pub trait Membership: Sized {
    /// The keys that members sign with.
    type SignatureKey: SignatureKey;

    /// The tokens that members vote with.
    type VoteTokenType: VoteToken;

    /// How an election is configured.
    type ElectionConfigType: ElectionConfig;

    /// The committed state that stake is read from.
    type StateType;

    /// The stake of the members.
    type StakeTable;

    /// The leader of a view.
    spec fn leader(&self, view_number: ViewNumber) -> Self::SignatureKey;

    /// The members that may vote in a view.
    spec fn committee(&self, view_number: ViewNumber) -> Set<Self::SignatureKey>;

    /// The token that the holder of `priv_key` gets for a view.
    spec fn vote_token(
        &self,
        view_number: ViewNumber,
        priv_key: <Self::SignatureKey as SignatureKey>::PrivateKey,
    ) -> Result<Option<Self::VoteTokenType>, ElectionError>;

    /// The outcome of checking the token that `pub_key` claims for a view.
    spec fn validated_token(
        &self,
        view_number: ViewNumber,
        pub_key: Self::SignatureKey,
        token: Checked<Self::VoteTokenType>,
    ) -> Result<Checked<Self::VoteTokenType>, ElectionError>;

    /// The stake that a certificate needs.
    spec fn success_threshold(&self) -> nat;

    /// The configuration for an election among so many nodes where nothing
    /// more is said.
    spec fn default_config(num_nodes: u64) -> Self::ElectionConfigType;

    /// Whether `election` is an election among `keys` as `config` asks for.
    spec fn elects(keys: Seq<Self::SignatureKey>, config: Self::ElectionConfigType, election: Self) -> bool;

    /// Whether `table` holds the stake of the members in a view as `state` has it.
    spec fn stake_table_at(
        &self,
        view_number: ViewNumber,
        state: Self::StateType,
        table: Self::StakeTable,
    ) -> bool;

    /// Generate a default election configuration.
    fn default_election_config(num_nodes: u64) -> (config: Self::ElectionConfigType)
        ensures
            config == Self::default_config(num_nodes),
    ;

    /// Create an election. A committee has a member: there is a key at least.
    fn create_election(keys: Vec<Self::SignatureKey>, config: Self::ElectionConfigType) -> (election: Self)
        requires
            keys@.len() >= 1,
        ensures
            Self::elects(keys@, config, election),
    ;

    /// Returns the table from the current committed state.
    fn get_stake_table(&self, view_number: ViewNumber, state: &Self::StateType) -> (table: Self::StakeTable)
        ensures
            self.stake_table_at(view_number, *state, table),
    ;

    /// The single leader of a view.
    fn get_leader(&self, view_number: ViewNumber) -> (leader: Self::SignatureKey)
        ensures
            leader == self.leader(view_number),
    ;

    /// The members that may vote in a view, each once.
    fn get_committee(&self, view_number: ViewNumber) -> (members: Vec<Self::SignatureKey>)
        ensures
            members@.no_duplicates(),
            members@.to_set() == self.committee(view_number),
    ;

    /// Attempts to generate a vote token for self.
    ///
    /// Returns `None` if the number of seats would be zero.
    fn make_vote_token(
        &self,
        view_number: ViewNumber,
        priv_key: &<Self::SignatureKey as SignatureKey>::PrivateKey,
    ) -> (token: Result<Option<Self::VoteTokenType>, ElectionError>)
        ensures
            token == self.vote_token(view_number, *priv_key),
    ;

    /// Checks the claims of a received vote token.
    fn validate_vote_token(
        &self,
        view_number: ViewNumber,
        pub_key: Self::SignatureKey,
        token: Checked<Self::VoteTokenType>,
    ) -> (checked: Result<Checked<Self::VoteTokenType>, ElectionError>)
        ensures
            checked == self.validated_token(view_number, pub_key, token),
    ;

    /// Returns the threshold for a specific `Membership` implementation. It is never zero.
    fn threshold(&self) -> (threshold: u64)
        ensures
            threshold == self.success_threshold(),
            threshold >= 1,
    ;
}

/// Testable implementation of a [`Membership`]. Will expose a method to
/// generate a vote token used for testing.
pub trait TestableElection: Membership {
    /// Generate a vote token used for testing.
    fn generate_test_vote_token() -> Self::VoteTokenType;
}

} // verus!
