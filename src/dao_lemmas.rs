use vstd::prelude::*;
use crate::invocation::InvocationModel;
use crate::dao::{DaoCall, DaoError, DaoModel, ProposalStatus, is_vote_cast, is_vote_on};

verus! {

/// A club that was just created has exactly one member, its creator, who is
/// also its admin.
pub proof fn lemma_new_club_has_only_creator(
    s: DaoModel,
    env: InvocationModel,
    creator: Seq<char>,
    id: Seq<char>,
    name: Seq<char>,
    description: Seq<char>,
)
    requires
        s.create_club_step(env, creator, id, name, description).1 is Ok,
    ensures
        ({
            let t = s.create_club_step(env, creator, id, name, description).0;
            &&& t.has_club(id)
            &&& t.club(id).members == seq![creator]
            &&& t.club(id).admin == creator
        }),
{
    let t = s.create_club_step(env, creator, id, name, description).0;
    let last = s.clubs.len() as int;
    assert(t.clubs[last].id == id);
    let k = t.club_index(id);
    assert(k == last) by {
        if k != last {
            assert(s.clubs[k].id == id);
        }
    }
}

/// Creating a club under an id that was just registered fails and leaves the
/// store, and so the first club, unchanged; when the second caller is the
/// authorised administrator the failure is `ClubAlreadyExists`.
pub proof fn lemma_create_club_twice(
    s: DaoModel,
    env1: InvocationModel,
    creator1: Seq<char>,
    id: Seq<char>,
    name1: Seq<char>,
    description1: Seq<char>,
    env2: InvocationModel,
    creator2: Seq<char>,
    name2: Seq<char>,
    description2: Seq<char>,
)
    requires
        s.create_club_step(env1, creator1, id, name1, description1).1 is Ok,
    ensures
        ({
            let s1 = s.create_club_step(env1, creator1, id, name1, description1).0;
            let (s2, r2) = s1.create_club_step(env2, creator2, id, name2, description2);
            &&& r2 is Err
            &&& s2 == s1
            &&& env2.authorizes(creator2) && s1.admin == Some(creator2) ==> r2 == Err::<(), DaoError>(
                DaoError::ClubAlreadyExists,
            )
        }),
{
    let s1 = s.create_club_step(env1, creator1, id, name1, description1).0;
    assert(s1.clubs[s.clubs.len() as int].id == id);
}

/// Joining a club twice with the same identity fails the second time and
/// leaves the roster as the first join left it; when the second invocation is
/// authorised the failure is `AlreadyMember`.
pub proof fn lemma_join_club_twice(
    s: DaoModel,
    env1: InvocationModel,
    env2: InvocationModel,
    student: Seq<char>,
    club_id: Seq<char>,
)
    requires
        s.wf(),
        s.join_club_step(env1, student, club_id).1 is Ok,
    ensures
        ({
            let s1 = s.join_club_step(env1, student, club_id).0;
            let (s2, r2) = s1.join_club_step(env2, student, club_id);
            &&& r2 is Err
            &&& s2 == s1
            &&& s2.club(club_id).members.len() == s1.club(club_id).members.len()
            &&& env2.authorizes(student) ==> r2 == Err::<(), DaoError>(DaoError::AlreadyMember)
        }),
{
    let s1 = s.join_club_step(env1, student, club_id).0;
    let k = s.club_index(club_id);
    assert(s1.clubs[k].id == club_id);
    assert(s1.has_club(club_id));
    let k1 = s1.club_index(club_id);
    assert(k1 == k) by {
        if k1 != k {
            assert(s.clubs[k1].id == club_id);
            if k1 < k {
                assert(s.clubs[k1].id != s.clubs[k].id);
            } else {
                assert(s.clubs[k].id != s.clubs[k1].id);
            }
        }
    }
    let ms = s1.club(club_id).members;
    assert(ms[ms.len() - 1] == student);
}


/// Every proposal present in `a` is still present in `b`, at the same place,
/// and neither of its counts went down.
pub open spec fn tallies_grow(a: DaoModel, b: DaoModel) -> bool {
    forall|i: int| 0 <= i < a.proposals.len() ==> {
        &&& i < b.proposals.len()
        &&& (#[trigger] b.proposals[i]).id == a.proposals[i].id
        &&& a.proposals[i].votes_for <= b.proposals[i].votes_for
        &&& a.proposals[i].votes_against <= b.proposals[i].votes_against
    }
}

/// One call other than `initialize` keeps the vote bookkeeping consistent and
/// never lowers a count.
pub proof fn lemma_call_keeps_tallies(s: DaoModel, env: InvocationModel, call: DaoCall)
    requires
        s.tallies_consistent(),
        !(call is Initialize),
        s.proposal_counter < u32::MAX,
        s.votes.len() < u32::MAX,
    ensures
        s.apply(env, call).tallies_consistent(),
        tallies_grow(s, s.apply(env, call)),
        s.apply(env, call).votes.len() <= s.votes.len() + 1,
        s.apply(env, call).proposal_counter <= s.proposal_counter + 1,
{
    let t = s.apply(env, call);
    match call {
        DaoCall::CreateProposal { creator, club_id, title, description, amount, recipient, duration_days } => {
            if s.create_proposal_step(env, creator, club_id, title, description, amount, recipient, duration_days).1 is Ok {
                let id = (s.proposal_counter + 1) as u32;
                assert(!s.has_proposal(id)) by {
                    if s.has_proposal(id) {
                        let k = choose|k: int| 0 <= k < s.proposals.len() && s.proposals[k].id == id;
                        assert(s.proposals[k].id <= s.proposal_counter);
                    }
                }
                assert(t.proposals == s.proposals.push(t.proposals.last()));
                assert(t.votes == s.votes);
                let pred = is_vote_on(id);
                assert forall|j: int| 0 <= j < s.votes.len() implies !pred(#[trigger] s.votes[j]) by {
                    assert(s.votes[j].proposal_id <= s.proposal_counter);
                }
                s.votes.lemma_all_neg_filter_empty(pred);
                let pf = is_vote_cast(id, true);
                let pa = is_vote_cast(id, false);
                assert forall|j: int| 0 <= j < s.votes.len() implies !pf(#[trigger] s.votes[j]) && !pa(s.votes[j]) by {
                    assert(s.votes[j].proposal_id <= s.proposal_counter);
                }
                s.votes.lemma_all_neg_filter_empty(pf);
                s.votes.lemma_all_neg_filter_empty(pa);
                assert forall|i: int| 0 <= i < t.proposals.len() implies {
                    &&& (#[trigger] t.proposals[i]).votes_for == t.votes_cast(t.proposals[i].id, true)
                    &&& t.proposals[i].votes_against == t.votes_cast(t.proposals[i].id, false)
                } by {
                    if i < s.proposals.len() {
                        assert(t.proposals[i] == s.proposals[i]);
                    }
                }
                assert forall|i: int| 0 <= i < t.proposals.len() implies
                    (#[trigger] t.proposals[i]).votes_for + t.proposals[i].votes_against == t.votes_on(t.proposals[i].id) by {
                    if i < s.proposals.len() {
                        assert(t.proposals[i] == s.proposals[i]);
                    }
                }
                assert forall|i: int, j: int| 0 <= i < j < t.proposals.len() implies t.proposals[i].id != t.proposals[j].id by {
                    if j == s.proposals.len() as int {
                        assert(s.proposals[i].id <= s.proposal_counter);
                    }
                }
            }
        },
        DaoCall::Vote { voter, proposal_id, support } => {
            if s.vote_step(env, voter, proposal_id, support).1 is Ok {
                let k = s.proposal_index(proposal_id);
                let p = s.proposals[k];
                assert(p.id == proposal_id);
                let rec = t.votes.last();
                assert(t.votes == s.votes.push(rec));
                assert(rec.proposal_id == proposal_id);
                s.votes.lemma_filter_len(is_vote_on(proposal_id));
                assert(p.votes_for + p.votes_against == s.votes_on(proposal_id));
                assert forall|i: int| 0 <= i < t.proposals.len() implies {
                    &&& (#[trigger] t.proposals[i]).votes_for == t.votes_cast(t.proposals[i].id, true)
                    &&& t.proposals[i].votes_against == t.votes_cast(t.proposals[i].id, false)
                } by {
                    let id = s.proposals[i].id;
                    s.votes.lemma_filter_len_push(is_vote_cast(id, true), rec);
                    s.votes.lemma_filter_len_push(is_vote_cast(id, false), rec);
                    assert(s.proposals[i].votes_for == s.votes_cast(id, true));
                    if i != k {
                        if i < k {
                            assert(s.proposals[i].id != s.proposals[k].id);
                        } else {
                            assert(s.proposals[k].id != s.proposals[i].id);
                        }
                    }
                }
                assert forall|i: int| 0 <= i < t.proposals.len() implies
                    (#[trigger] t.proposals[i]).votes_for + t.proposals[i].votes_against == t.votes_on(t.proposals[i].id) by {
                    let id = s.proposals[i].id;
                    s.votes.lemma_filter_len_push(is_vote_on(id), rec);
                    if i != k {
                        if i < k {
                            assert(s.proposals[i].id != s.proposals[k].id);
                        } else {
                            assert(s.proposals[k].id != s.proposals[i].id);
                        }
                    }
                }
                assert forall|i: int, j: int| 0 <= i < j < t.proposals.len() implies t.proposals[i].id != t.proposals[j].id by {
                    assert(t.proposals[i].id == s.proposals[i].id);
                    assert(t.proposals[j].id == s.proposals[j].id);
                }
                assert forall|i: int| 0 <= i < t.proposals.len() implies (#[trigger] t.proposals[i]).id <= t.proposal_counter by {
                    assert(t.proposals[i].id == s.proposals[i].id);
                }
                assert forall|j: int| 0 <= j < t.votes.len() implies (#[trigger] t.votes[j]).proposal_id <= t.proposal_counter by {
                    if j < s.votes.len() {
                        assert(t.votes[j] == s.votes[j]);
                    }
                }
            }
        },
        _ => {},
    }
}

/// Along any sequence of calls that does not re-initialise the store, the
/// vote bookkeeping stays consistent (each proposal's two counts add up to the
/// vote records cast on it, and each count equals the records cast that way),
/// and no proposal's count ever goes down.
pub proof fn lemma_tallies_never_decrease(s: DaoModel, calls: Seq<(InvocationModel, DaoCall)>)
    requires
        s.tallies_consistent(),
        forall|k: int| 0 <= k < calls.len() ==> !((#[trigger] calls[k]).1 is Initialize),
        s.proposal_counter + calls.len() < u32::MAX,
        s.votes.len() + calls.len() < u32::MAX,
    ensures
        s.run(calls).tallies_consistent(),
        tallies_grow(s, s.run(calls)),
        s.run(calls).proposal_counter <= s.proposal_counter + calls.len(),
        s.run(calls).votes.len() <= s.votes.len() + calls.len(),
    decreases calls.len(),
{
    if calls.len() > 0 {
        let front = calls.drop_last();
        assert forall|k: int| 0 <= k < front.len() implies !((#[trigger] front[k]).1 is Initialize) by {
            assert(front[k] == calls[k]);
        }
        lemma_tallies_never_decrease(s, front);
        let m = s.run(front);
        assert(!(calls[calls.len() - 1].1 is Initialize));
        lemma_call_keeps_tallies(m, calls.last().0, calls.last().1);
    }
}

/// A successful vote sets the proposal's status by the thresholds over the
/// club's roster size `n`: approved exactly when the votes in favour exceed
/// half of `n` (rounded down), otherwise rejected exactly when the votes
/// against reach that half, otherwise unchanged. So an active proposal is
/// approved on the first vote that lifts the votes in favour above half, and
/// rejected on the first that lifts the votes against to half, and not before.
pub proof fn lemma_vote_thresholds(s: DaoModel, env: InvocationModel, voter: Seq<char>, proposal_id: u32, support: bool)
    requires
        s.wf(),
        s.vote_step(env, voter, proposal_id, support).1 is Ok,
        support ==> s.proposal(proposal_id).votes_for < u32::MAX,
        !support ==> s.proposal(proposal_id).votes_against < u32::MAX,
    ensures
        ({
            let t = s.vote_step(env, voter, proposal_id, support).0;
            let p = t.proposal(proposal_id);
            let n = t.club(p.club_id).members.len();
            &&& t.has_proposal(proposal_id)
            &&& p.votes_for > n / 2 ==> p.status == ProposalStatus::Approved
            &&& p.votes_for <= n / 2 && p.votes_against >= n / 2 ==> p.status == ProposalStatus::Rejected
            &&& p.votes_for <= n / 2 && p.votes_against < n / 2 ==> p.status == s.proposal(proposal_id).status
            &&& p.votes_for == s.proposal(proposal_id).votes_for + (if support { 1int } else { 0int })
            &&& p.votes_against == s.proposal(proposal_id).votes_against + (if support { 0int } else { 1int })
        }),
{
    let t = s.vote_step(env, voter, proposal_id, support).0;
    let k = s.proposal_index(proposal_id);
    assert(t.proposals[k].id == proposal_id);
    let k1 = t.proposal_index(proposal_id);
    assert(k1 == k) by {
        if k1 != k {
            assert(s.proposals[k1].id == proposal_id);
            if k1 < k {
                assert(s.proposals[k1].id != s.proposals[k].id);
            } else {
                assert(s.proposals[k].id != s.proposals[k1].id);
            }
        }
    }
    assert(t.clubs == s.clubs);
}

/// Once the clock has passed a proposal's end time, an authorised vote on it
/// fails with `VotingEnded` and changes nothing, whoever votes and however
/// they voted before.
pub proof fn lemma_vote_after_end_fails(s: DaoModel, env: InvocationModel, voter: Seq<char>, proposal_id: u32, support: bool)
    requires
        env.authorizes(voter),
        s.has_proposal(proposal_id),
        env.timestamp > s.proposal(proposal_id).end_time,
    ensures
        s.vote_step(env, voter, proposal_id, support) == (s, Err::<(), DaoError>(DaoError::VotingEnded)),
{
}

/// A vote cast exactly at a proposal's end time still counts.
pub proof fn lemma_vote_at_end_time_counts(s: DaoModel, env: InvocationModel, voter: Seq<char>, proposal_id: u32, support: bool)
    requires
        s.wf(),
        env.authorizes(voter),
        s.has_proposal(proposal_id),
        env.timestamp == s.proposal(proposal_id).end_time,
        !s.has_voted(proposal_id, voter),
        s.club(s.proposal(proposal_id).club_id).has_member(voter),
    ensures
        s.vote_step(env, voter, proposal_id, support).1 is Ok,
{
    let k = s.proposal_index(proposal_id);
    assert(s.has_club(s.proposals[k].club_id));
}

/// A voter who is not on the club's roster at the time of the vote is
/// rejected with `NotMember`, whatever the roster was when the proposal was made.
pub proof fn lemma_vote_by_non_member_fails(s: DaoModel, env: InvocationModel, voter: Seq<char>, proposal_id: u32, support: bool)
    requires
        s.wf(),
        env.authorizes(voter),
        s.has_proposal(proposal_id),
        env.timestamp <= s.proposal(proposal_id).end_time,
        !s.has_voted(proposal_id, voter),
        !s.club(s.proposal(proposal_id).club_id).has_member(voter),
    ensures
        s.vote_step(env, voter, proposal_id, support) == (s, Err::<(), DaoError>(DaoError::NotMember)),
{
    let k = s.proposal_index(proposal_id);
    assert(s.has_club(s.proposals[k].club_id));
}

} // verus!
