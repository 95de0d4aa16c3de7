//! Vote records and the aggregation of one chunk of them.
use crate::literal::{float_literal, is_float_literal};
use crate::voters::{distinct, texts};
use vstd::prelude::*;

verus! {

broadcast use vstd::seq_lib::group_seq_properties;

/// The number of records per chunk that callers are advised to submit.
pub const DEFAULT_CHUNK_SIZE: usize = 100000;

/// One vote: a balance written as a decimal literal, an approval flag
/// (positive means approval) and the voter's identifier.
pub struct VoteData {
    pub balance: String,
    pub approved: i32,
    pub voter: String,
}

/// What a chunk of valid records comes to: the balance texts of the approving
/// records and of the rejecting ones, each in input order, and the distinct
/// voter identifiers.
pub struct ChunkBuckets {
    pub approved: Vec<String>,
    pub rejected: Vec<String>,
    pub voters: Vec<String>,
}

/// A record whose balance is not a floating-point literal.
pub struct BalanceParseError {
    pub voter: String,
    pub balance: String,
}

/// The aggregator; `chunk_size` is advisory and never consulted.
pub struct WasmVoteProcessor {
    pub chunk_size: usize,
}

pub open spec fn approves(v: VoteData) -> bool {
    v.approved > 0
}

pub open spec fn valid_record(v: VoteData) -> bool {
    float_literal(v.balance@)
}

pub open spec fn all_valid(votes: Seq<VoteData>) -> bool {
    forall|i: int| 0 <= i < votes.len() ==> valid_record(#[trigger] votes[i])
}

/// `i` is the position of the first record whose balance is not a literal.
pub open spec fn first_invalid(votes: Seq<VoteData>, i: int) -> bool {
    &&& 0 <= i < votes.len()
    &&& !valid_record(votes[i])
    &&& forall|j: int| 0 <= j < i ==> valid_record(#[trigger] votes[j])
}

/// The balances of the records, in order.
pub open spec fn balances(votes: Seq<VoteData>) -> Seq<Seq<char>> {
    votes.map_values(|v: VoteData| v.balance@)
}

/// Selects the approving records (`approve`) or the others.
pub open spec fn routed_to(approve: bool) -> spec_fn(VoteData) -> bool {
    |v: VoteData| approves(v) == approve
}

/// The balances of the approving records (`approve`) or of the others, in order.
pub open spec fn bucket(votes: Seq<VoteData>, approve: bool) -> Seq<Seq<char>> {
    balances(votes.filter(routed_to(approve)))
}

/// The voter of each record, in order.
pub open spec fn voter_list(votes: Seq<VoteData>) -> Seq<Seq<char>> {
    votes.map_values(|v: VoteData| v.voter@)
}

/// The identifiers of the voters of the records.
pub open spec fn voter_ids(votes: Seq<VoteData>) -> Set<Seq<char>> {
    voter_list(votes).to_set()
}

impl BalanceParseError {
    /// The text reported for this error; it names the voter and quotes the
    /// rejected balance.
    pub fn message(&self) -> (r: String)
        ensures
            r@ == "Balance parse error for voter "@ + self.voter@ + ": invalid float literal \""@
                + self.balance@ + "\""@,
    {
        let mut r = String::from_str("Balance parse error for voter ");
        r.append(self.voter.as_str());
        r.append(": invalid float literal \"");
        r.append(self.balance.as_str());
        r.append("\"");
        r
    }
}

impl WasmVoteProcessor {
    pub fn new() -> (r: WasmVoteProcessor)
        ensures
            r.chunk_size == DEFAULT_CHUNK_SIZE,
    {
        WasmVoteProcessor { chunk_size: DEFAULT_CHUNK_SIZE }
    }

    /// Aggregates one chunk. It fails, naming the first record whose balance
    /// is not a literal, if there is one; otherwise it routes each balance to
    /// the bucket that the record's flag selects and collects the distinct
    /// voters.
    pub fn aggregate(&self, votes: &Vec<VoteData>) -> (r: Result<ChunkBuckets, BalanceParseError>)
        ensures
            r is Ok <==> all_valid(votes@),
            r matches Ok(b) ==> {
                &&& texts(b.approved@) == bucket(votes@, true)
                &&& texts(b.rejected@) == bucket(votes@, false)
                &&& texts(b.voters@).no_duplicates()
                &&& texts(b.voters@).to_set() == voter_ids(votes@)
            },
            r matches Err(e) ==> exists|i: int|
                first_invalid(votes@, i) && e.voter@ == votes@[i].voter@ && e.balance@
                    == votes@[i].balance@,
    {
        let mut approved: Vec<String> = Vec::new();
        let mut rejected: Vec<String> = Vec::new();
        let mut all_voters: Vec<String> = Vec::new();
        let mut i: usize = 0;
        while i < votes.len()
            invariant
                i <= votes.len(),
                forall|j: int| 0 <= j < i ==> valid_record(#[trigger] votes@[j]),
                texts(approved@) == bucket(votes@.take(i as int), true),
                texts(rejected@) == bucket(votes@.take(i as int), false),
                texts(all_voters@) == voter_list(votes@.take(i as int)),
            decreases votes.len() - i,
        {
            let vote = &votes[i];
            if !is_float_literal(vote.balance.as_str()) {
                assert(first_invalid(votes@, i as int));
                return Err(
                    BalanceParseError { voter: vote.voter.clone(), balance: vote.balance.clone() },
                );
            }
            let ghost pre = votes@.take(i as int);
            assert(votes@.take(i + 1) =~= pre.push(*vote));
            let ghost pa = pre.filter(routed_to(true));
            let ghost pr = pre.filter(routed_to(false));
            proof {
                pre.lemma_filter_push(*vote, routed_to(true));
                pre.lemma_filter_push(*vote, routed_to(false));
            }
            if vote.approved > 0 {
                assert(pre.push(*vote).filter(routed_to(true)) == pa.push(*vote));
                assert(pre.push(*vote).filter(routed_to(false)) == pr);
                assert(balances(pa.push(*vote)) =~= balances(pa).push(vote.balance@));
                assert(texts(approved@.push(vote.balance)) =~= texts(approved@).push(vote.balance@));
                approved.push(vote.balance.clone());
            } else {
                assert(pre.push(*vote).filter(routed_to(true)) == pa);
                assert(pre.push(*vote).filter(routed_to(false)) == pr.push(*vote));
                assert(balances(pr.push(*vote)) =~= balances(pr).push(vote.balance@));
                assert(texts(rejected@.push(vote.balance)) =~= texts(rejected@).push(vote.balance@));
                rejected.push(vote.balance.clone());
            }
            assert(texts(all_voters@.push(vote.voter)) =~= texts(all_voters@).push(vote.voter@));
            assert(voter_list(pre.push(*vote)) =~= voter_list(pre).push(vote.voter@));
            all_voters.push(vote.voter.clone());
            i = i + 1;
        }
        assert(votes@.take(votes.len() as int) =~= votes@);
        let voters = distinct(all_voters);
        Ok(ChunkBuckets { approved, rejected, voters })
    }
}

/// Record `i` adds its balance to the bucket that its flag selects, at the
/// end, and leaves the other bucket as it was.
pub proof fn lemma_routing(votes: Seq<VoteData>, i: int)
    requires
        0 <= i < votes.len(),
    ensures
        bucket(votes.take(i + 1), approves(votes[i])) == bucket(votes.take(i), approves(
            votes[i],
        )).push(votes[i].balance@),
        bucket(votes.take(i + 1), !approves(votes[i])) == bucket(votes.take(i), !approves(
            votes[i],
        )),
{
    let pre = votes.take(i);
    let v = votes[i];
    let a = approves(v);
    assert(votes.take(i + 1) =~= pre.push(v));
    pre.lemma_filter_push(v, routed_to(a));
    pre.lemma_filter_push(v, routed_to(!a));
    assert(balances(pre.filter(routed_to(a)).push(v)) =~= balances(pre.filter(routed_to(a))).push(
        v.balance@,
    ));
}

/// Every balance lands in exactly one bucket: together the two buckets hold
/// each record's balance once.
pub proof fn lemma_conservation(votes: Seq<VoteData>)
    ensures
        bucket(votes, true).to_multiset().add(bucket(votes, false).to_multiset()) == balances(
            votes,
        ).to_multiset(),
        bucket(votes, true).len() + bucket(votes, false).len() == votes.len(),
    decreases votes.len(),
{
    broadcast use vstd::seq_lib::group_to_multiset_ensures;

    if votes.len() == 0 {
        assert(bucket(votes, true) =~= Seq::empty());
        assert(bucket(votes, false) =~= Seq::empty());
        assert(balances(votes) =~= Seq::empty());
        assert(bucket(votes, true).to_multiset().add(bucket(votes, false).to_multiset())
            =~= balances(votes).to_multiset());
    } else {
        let pre = votes.drop_last();
        let v = votes.last();
        lemma_conservation(pre);
        lemma_routing(votes, votes.len() - 1);
        assert(votes.take(votes.len() - 1) =~= pre);
        assert(votes.take(votes.len() as int) =~= votes);
        assert(votes =~= pre.push(v));
        assert(balances(pre.push(v)) =~= balances(pre).push(v.balance@));
        let a = approves(v);
        assert(bucket(votes, a) == bucket(pre, a).push(v.balance@));
        assert(bucket(votes, !a) == bucket(pre, !a));
        if a {
            assert(bucket(votes, true).to_multiset().add(bucket(votes, false).to_multiset())
                =~= balances(votes).to_multiset());
        } else {
            assert(bucket(votes, true).to_multiset().add(bucket(votes, false).to_multiset())
                =~= balances(votes).to_multiset());
        }
    }
}

/// The set of voters does not depend on the order of the records.
pub proof fn lemma_voters_order_free(a: Seq<VoteData>, b: Seq<VoteData>)
    requires
        a.to_multiset() == b.to_multiset(),
    ensures
        voter_ids(a) == voter_ids(b),
{
    broadcast use vstd::seq_lib::group_to_multiset_ensures;

    assert forall|x: Seq<char>| voter_ids(a).contains(x) implies voter_ids(b).contains(x) by {
        let i = choose|i: int| 0 <= i < a.len() && #[trigger] voter_list(a)[i] == x;
        assert(a.contains(a[i]));
        assert(b.to_multiset().count(a[i]) > 0);
        let j = choose|j: int| 0 <= j < b.len() && b[j] == a[i];
        assert(#[trigger] voter_list(b)[j] == x);
    }
    assert forall|x: Seq<char>| voter_ids(b).contains(x) implies voter_ids(a).contains(x) by {
        let j = choose|j: int| 0 <= j < b.len() && #[trigger] voter_list(b)[j] == x;
        assert(b.contains(b[j]));
        assert(a.to_multiset().count(b[j]) > 0);
        let i = choose|i: int| 0 <= i < a.len() && a[i] == b[j];
        assert(#[trigger] voter_list(a)[i] == x);
    }
    assert(voter_ids(a) =~= voter_ids(b));
}

} // verus!
