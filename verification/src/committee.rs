//! The committee: the validators that may sign at a round, with their stakes,
//! and the stake that a quorum takes.

use crate::types::{Address, Field};
use vstd::prelude::*;

verus! {

/// A validator and its stake.
#[derive(Clone, Copy, Debug, PartialEq, Eq, Hash, Structural)]
pub struct Member {
    pub address: Address,
    pub stake: u64,
}

/// The stake of all of `members` together.
pub open spec fn total_stake_of(members: Seq<Member>) -> nat
    decreases members.len(),
{
    if members.len() == 0 {
        0
    } else {
        total_stake_of(members.drop_last()) + members.last().stake as nat
    }
}

/// The stake of those of `members` whose address is in `authors`.
pub open spec fn combined_stake_of(members: Seq<Member>, authors: Set<Address>) -> nat
    decreases members.len(),
{
    if members.len() == 0 {
        0
    } else {
        combined_stake_of(members.drop_last(), authors) + if authors.contains(
            members.last().address,
        ) {
            members.last().stake as nat
        } else {
            0
        }
    }
}

/// The least stake that is more than two thirds of `total`.
pub open spec fn quorum_threshold_of(total: nat) -> nat {
    total * 2 / 3 + 1
}

/// The threshold is the least stake that is more than two thirds of the
/// total.
pub proof fn lemma_quorum_threshold(total: nat)
    ensures
        3 * quorum_threshold_of(total) > 2 * total,
        3 * (quorum_threshold_of(total) - 1) <= 2 * total,
{
}

/// No address is listed twice.
pub open spec fn distinct_addresses(members: Seq<Member>) -> bool {
    forall|i: int, j: int|
        0 <= i < members.len() && 0 <= j < members.len() && i != j ==> members[i].address
            != members[j].address
}

/// Whether `address` is listed in `members`.
pub open spec fn is_member_of(members: Seq<Member>, address: Address) -> bool {
    exists|i: int| 0 <= i < members.len() && (#[trigger] members[i]).address == address
}

/// The round after `round`; the last round has no successor and stays.
pub open spec fn next_round_of(round: u64) -> u64 {
    if round < u64::MAX {
        (round + 1) as u64
    } else {
        round
    }
}

/// The stake of a subset is at most the stake of all.
pub proof fn lemma_combined_stake_bounded(members: Seq<Member>, authors: Set<Address>)
    ensures
        combined_stake_of(members, authors) <= total_stake_of(members),
    decreases members.len(),
{
    if members.len() > 0 {
        lemma_combined_stake_bounded(members.drop_last(), authors);
    }
}

/// The stake of a prefix is at most the stake of all.
pub proof fn lemma_total_stake_prefix(members: Seq<Member>, n: int)
    requires
        0 <= n <= members.len(),
    ensures
        total_stake_of(members.take(n)) <= total_stake_of(members),
    decreases members.len(),
{
    if n == members.len() {
        assert(members.take(n) =~= members);
    } else {
        assert(members.drop_last().take(n) =~= members.take(n));
        lemma_total_stake_prefix(members.drop_last(), n);
    }
}

/// More authors never have less stake.
pub proof fn lemma_combined_stake_monotone(
    members: Seq<Member>,
    fewer: Set<Address>,
    more: Set<Address>,
)
    requires
        fewer.subset_of(more),
    ensures
        combined_stake_of(members, fewer) <= combined_stake_of(members, more),
    decreases members.len(),
{
    if members.len() > 0 {
        lemma_combined_stake_monotone(members.drop_last(), fewer, more);
    }
}

/// The validators of a round.
#[derive(Debug, PartialEq, Eq)]
pub struct Committee {
    id: Field,
    round: u64,
    members: Vec<Member>,
}

/// A committee: the id that it is known by, its round, and its members in the
/// order given at construction.
#[verifier::ext_equal]
pub struct CommitteeView {
    pub id: Field,
    pub round: u64,
    pub members: Seq<Member>,
}

impl CommitteeView {
    /// The stake that a quorum takes.
    pub open spec fn quorum_threshold(self) -> nat {
        quorum_threshold_of(total_stake_of(self.members))
    }

    /// Whether `authors` together hold a quorum of the stake.
    pub open spec fn quorum_reached(self, authors: Set<Address>) -> bool {
        combined_stake_of(self.members, authors) >= self.quorum_threshold()
    }

    /// Whether `address` is a member.
    pub open spec fn has_member(self, address: Address) -> bool {
        is_member_of(self.members, address)
    }

    /// A committee lists no address twice, and its total stake is a `u64`.
    pub open spec fn wf(self) -> bool {
        &&& distinct_addresses(self.members)
        &&& total_stake_of(self.members) <= u64::MAX
    }

    /// The same committee at the next round.
    pub open spec fn next(self) -> CommitteeView {
        CommitteeView { id: self.id, round: next_round_of(self.round), members: self.members }
    }
}

impl View for Committee {
    type V = CommitteeView;

    closed spec fn view(&self) -> CommitteeView {
        CommitteeView { id: self.id, round: self.round, members: self.members@ }
    }
}

impl Committee {
    /// The round that the committee stands for.
    pub open spec fn spec_round(&self) -> u64 {
        self@.round
    }

    /// The members, in the order given at construction.
    pub open spec fn members(&self) -> Seq<Member> {
        self@.members
    }

    /// The stake that a quorum takes.
    pub open spec fn spec_quorum_threshold(&self) -> nat {
        self@.quorum_threshold()
    }

    /// Whether `authors` together hold a quorum of the stake.
    pub open spec fn quorum_reached(&self, authors: Set<Address>) -> bool {
        self@.quorum_reached(authors)
    }

    /// Whether `address` is a member.
    pub open spec fn has_member(&self, address: Address) -> bool {
        self@.has_member(address)
    }

    /// A committee lists no address twice, and its total stake is a `u64`.
    pub open spec fn wf(&self) -> bool {
        self@.wf()
    }

    /// Makes the committee of `round` from `members`, known by `id`. `None`
    /// where an address is listed twice or the stakes add up to more than a
    /// `u64` holds.
    pub fn new(id: Field, round: u64, members: Vec<Member>) -> (committee: Option<Committee>)
        ensures
            committee is Some <==> distinct_addresses(members@) && total_stake_of(members@)
                <= u64::MAX,
            committee is Some ==> committee->0.wf() && committee->0@ == (CommitteeView {
                id,
                round,
                members: members@,
            }),
    {
        let mut total: u64 = 0;
        let mut i: usize = 0;
        while i < members.len()
            invariant
                0 <= i <= members.len(),
                total == total_stake_of(members@.take(i as int)),
                distinct_addresses(members@.take(i as int)),
            decreases members.len() - i,
        {
            let member: Member = members[i];
            proof {
                assert(members@.take(i + 1).drop_last() =~= members@.take(i as int));
                lemma_total_stake_prefix(members@, i + 1);
            }
            if member.stake > u64::MAX - total {
                return None;
            }
            let mut j: usize = 0;
            while j < i
                invariant
                    0 <= j <= i < members.len(),
                    member == members@[i as int],
                    forall|k: int| 0 <= k < j ==> members@[k].address != member.address,
                decreases i - j,
            {
                if members[j].address == member.address {
                    proof {
                        if distinct_addresses(members@) {
                            assert(members@[j as int].address != members@[i as int].address);
                        }
                    }
                    return None;
                }
                j += 1;
            }
            total = total + member.stake;
            i += 1;
        }
        proof {
            assert(members@.take(members@.len() as int) =~= members@);
        }
        Some(Committee { id, round, members })
    }

    /// The id that the committee is known by.
    pub fn id(&self) -> (id: Field)
        ensures
            id == self@.id,
    {
        self.id
    }

    /// The round that the committee stands for.
    pub fn round(&self) -> (round: u64)
        ensures
            round == self.spec_round(),
    {
        self.round
    }

    /// The number of members.
    pub fn num_members(&self) -> (count: usize)
        ensures
            count == self.members().len(),
    {
        self.members.len()
    }

    /// The member at `index`, in the order given at construction.
    pub fn member(&self, index: usize) -> (member: Option<Member>)
        ensures
            member == if index < self.members().len() {
                Some(self.members()[index as int])
            } else {
                None
            },
    {
        if index < self.members.len() {
            Some(self.members[index])
        } else {
            None
        }
    }

    /// Whether `address` is a member.
    pub fn is_committee_member(&self, address: Address) -> (member: bool)
        ensures
            member == self.has_member(address),
    {
        let mut i: usize = 0;
        while i < self.members.len()
            invariant
                0 <= i <= self.members.len(),
                forall|k: int| 0 <= k < i ==> self.members@[k].address != address,
            decreases self.members.len() - i,
        {
            if self.members[i].address == address {
                return true;
            }
            i += 1;
        }
        false
    }

    /// The stake of all members together.
    pub fn total_stake(&self) -> (total: u64)
        requires
            self.wf(),
        ensures
            total == total_stake_of(self.members()),
    {
        let mut total: u64 = 0;
        let mut i: usize = 0;
        while i < self.members.len()
            invariant
                0 <= i <= self.members.len(),
                self.wf(),
                total == total_stake_of(self.members@.take(i as int)),
            decreases self.members.len() - i,
        {
            proof {
                assert(self.members@.take(i + 1).drop_last() =~= self.members@.take(i as int));
                lemma_total_stake_prefix(self.members@, i + 1);
            }
            total = total + self.members[i].stake;
            i += 1;
        }
        proof {
            assert(self.members@.take(self.members@.len() as int) =~= self.members@);
        }
        total
    }

    /// The stake that a quorum takes: the least that is more than two thirds
    /// of the total.
    pub fn quorum_threshold(&self) -> (threshold: u64)
        requires
            self.wf(),
        ensures
            threshold == self.spec_quorum_threshold(),
    {
        let total: u64 = self.total_stake();
        let third: u64 = total / 3;
        let rest: u64 = total % 3;
        // total * 2 / 3 == third * 2 + rest * 2 / 3, without leaving `u64`.
        let carry: u64 = if rest == 2 { 1 } else { 0 };
        assert(total as nat * 2 / 3 == third * 2 + carry) by (nonlinear_arith)
            requires
                third == total / 3,
                rest == total % 3,
                carry == if rest == 2 { 1int } else { 0int },
        ;
        third * 2 + carry + 1
    }

    /// Whether the members among `authors` hold a quorum of the stake. An
    /// address that is listed more than once counts once; a stranger counts
    /// nothing.
    pub fn is_quorum_threshold_reached(&self, authors: &Vec<Address>) -> (reached: bool)
        requires
            self.wf(),
        ensures
            reached == self.quorum_reached(authors@.to_set()),
    {
        let threshold: u64 = self.quorum_threshold();
        let mut stake: u64 = 0;
        let mut i: usize = 0;
        while i < self.members.len()
            invariant
                0 <= i <= self.members.len(),
                self.wf(),
                stake == combined_stake_of(self.members@.take(i as int), authors@.to_set()),
            decreases self.members.len() - i,
        {
            let member: Member = self.members[i];
            proof {
                assert(self.members@.take(i + 1).drop_last() =~= self.members@.take(i as int));
                lemma_combined_stake_bounded(self.members@.take(i + 1), authors@.to_set());
                lemma_total_stake_prefix(self.members@, i + 1);
            }
            if contains_address(authors, member.address) {
                stake = stake + member.stake;
            }
            i += 1;
        }
        proof {
            assert(self.members@.take(self.members@.len() as int) =~= self.members@);
        }
        stake >= threshold
    }

    /// The committee of the next round, with the same members.
    pub fn to_next_round(&self) -> (next: Committee)
        requires
            self.wf(),
        ensures
            next.wf(),
            next@ == self@.next(),
    {
        let round: u64 = if self.round < u64::MAX {
            self.round + 1
        } else {
            self.round
        };
        let members = self.members.clone();
        assert(members@ =~= self.members@);
        Committee { id: self.id, round, members }
    }

    /// A copy of the committee.
    pub fn duplicate(&self) -> (copy: Committee)
        ensures
            copy@ == self@,
    {
        let members = self.members.clone();
        assert(members@ =~= self.members@);
        Committee { id: self.id, round: self.round, members }
    }
}

/// Whether `address` occurs in `addresses`.
pub fn contains_address(addresses: &Vec<Address>, address: Address) -> (found: bool)
    ensures
        found == addresses@.to_set().contains(address),
{
    let mut i: usize = 0;
    while i < addresses.len()
        invariant
            0 <= i <= addresses.len(),
            forall|k: int| 0 <= k < i ==> addresses@[k] != address,
        decreases addresses.len() - i,
    {
        if addresses[i] == address {
            assert(addresses@.contains(address));
            return true;
        }
        i += 1;
    }
    assert(!addresses@.contains(address));
    false
}

} // verus!
