use campus_dao::dao::{CampusDAO, Club, DaoError, DataKey, ProposalStatus, VoteRecord, SECONDS_PER_DAY};
use campus_dao::invocation::Invocation;

fn s(x: &str) -> String {
    x.to_string()
}

fn as_(who: &str, t: u64) -> Invocation {
    Invocation::new(t, vec![s(who)])
}

fn dao_with_club() -> CampusDAO {
    let mut dao = CampusDAO::new();
    dao.initialize(s("A")).unwrap();
    dao.create_club(&as_("A", 100), s("A"), s("c1"), s("Chess"), s("desc")).unwrap();
    dao
}

#[test]
fn scenario_chess_club_proposal_approved() {
    let mut dao = CampusDAO::new();
    assert_eq!(dao.initialize(s("A")), Ok(()));
    assert_eq!(dao.create_club(&as_("A", 1000), s("A"), s("c1"), s("Chess"), s("desc")), Ok(()));
    assert_eq!(dao.get_club_count(), 1);
    assert_eq!(dao.join_club(&as_("B", 1001), s("B"), s("c1")), Ok(()));
    assert_eq!(dao.get_club(s("c1")).unwrap().members, vec![s("A"), s("B")]);
    let id = dao
        .create_proposal(&as_("A", 1002), s("A"), s("c1"), s("Buy boards"), s("desc"), None, None, 7)
        .unwrap();
    assert_eq!(id, 1);
    let p = dao.get_proposal(1).unwrap();
    assert_eq!(p.created_at, 1002);
    assert_eq!(p.end_time, p.created_at + 604800);
    assert_eq!(dao.vote(&as_("A", 1003), s("A"), 1, true), Ok(()));
    let p = dao.get_proposal(1).unwrap();
    assert_eq!(p.votes_for, 1);
    assert_eq!(p.status, ProposalStatus::Active);
    assert_eq!(dao.vote(&as_("B", 1004), s("B"), 1, true), Ok(()));
    let p = dao.get_proposal(1).unwrap();
    assert_eq!(p.votes_for, 2);
    assert_eq!(p.status, ProposalStatus::Approved);
}

#[test]
fn create_club_sole_member_is_creator() {
    let dao = dao_with_club();
    let c = dao.get_club(s("c1")).unwrap();
    assert_eq!(c.members, vec![s("A")]);
    assert_eq!(c.admin, s("A"));
    assert_eq!(c.id, s("c1"));
    assert_eq!(c.name, s("Chess"));
    assert_eq!(c.description, s("desc"));
    assert_eq!(c.created_at, 100);
}

#[test]
fn create_club_twice_conflicts() {
    let mut dao = dao_with_club();
    let r = dao.create_club(&as_("A", 200), s("A"), s("c1"), s("Other"), s("other"));
    assert_eq!(r, Err(DaoError::ClubAlreadyExists));
    let c = dao.get_club(s("c1")).unwrap();
    assert_eq!(c.name, s("Chess"));
    assert_eq!(c.created_at, 100);
    assert_eq!(dao.get_club_count(), 1);
}

#[test]
fn create_club_by_non_admin_fails() {
    let mut dao = dao_with_club();
    let r = dao.create_club(&as_("B", 200), s("B"), s("c2"), s("Go"), s("d"));
    assert_eq!(r, Err(DaoError::NotAdmin));
    assert!(dao.get_club(s("c2")).is_none());
}

#[test]
fn create_club_before_initialize_fails() {
    let mut dao = CampusDAO::new();
    let r = dao.create_club(&as_("A", 1), s("A"), s("c1"), s("Chess"), s("d"));
    assert_eq!(r, Err(DaoError::NotAdmin));
    assert_eq!(dao.get_club_count(), 0);
}

#[test]
fn unauthorized_caller_is_rejected() {
    let mut dao = dao_with_club();
    let r = dao.create_club(&as_("B", 200), s("A"), s("c2"), s("Go"), s("d"));
    assert_eq!(r, Err(DaoError::Unauthorized));
    assert_eq!(dao.join_club(&as_("A", 200), s("B"), s("c1")), Err(DaoError::Unauthorized));
    assert_eq!(dao.get_club(s("c1")).unwrap().members.len(), 1);
}

#[test]
fn join_club_twice_conflicts() {
    let mut dao = dao_with_club();
    assert_eq!(dao.join_club(&as_("B", 200), s("B"), s("c1")), Ok(()));
    let len = dao.get_club(s("c1")).unwrap().members.len();
    assert_eq!(dao.join_club(&as_("B", 201), s("B"), s("c1")), Err(DaoError::AlreadyMember));
    assert_eq!(dao.get_club(s("c1")).unwrap().members.len(), len);
}

#[test]
fn join_missing_club_fails() {
    let mut dao = dao_with_club();
    assert_eq!(dao.join_club(&as_("B", 200), s("B"), s("nope")), Err(DaoError::ClubNotFound));
}

#[test]
fn get_missing_records_are_absent() {
    let dao = CampusDAO::new();
    assert!(dao.get_club(s("c1")).is_none());
    assert!(dao.get_proposal(1).is_none());
    assert_eq!(dao.get_club_count(), 0);
}

#[test]
fn create_proposal_requires_membership() {
    let mut dao = dao_with_club();
    let r = dao.create_proposal(&as_("B", 200), s("B"), s("c1"), s("t"), s("d"), None, None, 1);
    assert_eq!(r, Err(DaoError::NotMember));
    let r = dao.create_proposal(&as_("A", 200), s("A"), s("zz"), s("t"), s("d"), None, None, 1);
    assert_eq!(r, Err(DaoError::ClubNotFound));
    assert!(dao.get_proposal(1).is_none());
}

#[test]
fn proposal_ids_increase_from_one() {
    let mut dao = dao_with_club();
    let a = dao.create_proposal(&as_("A", 10), s("A"), s("c1"), s("t1"), s("d"), Some(50), Some(s("R")), 2);
    let b = dao.create_proposal(&as_("A", 20), s("A"), s("c1"), s("t2"), s("d"), None, None, 0);
    assert_eq!(a, Ok(1));
    assert_eq!(b, Ok(2));
    let p = dao.get_proposal(1).unwrap();
    assert_eq!(p.amount, Some(50));
    assert_eq!(p.recipient, Some(s("R")));
    assert_eq!(p.end_time, 10 + 2 * SECONDS_PER_DAY);
    assert_eq!(p.creator, s("A"));
    assert_eq!(p.club_id, s("c1"));
    assert_eq!(p.title, s("t1"));
    assert_eq!(p.votes_for + p.votes_against, 0);
    assert_eq!(dao.get_proposal(2).unwrap().end_time, 20);
}

fn club_of(n: usize) -> CampusDAO {
    let mut dao = dao_with_club();
    for i in 1..n {
        let who = format!("M{}", i);
        dao.join_club(&as_(&who, 100), who.clone(), s("c1")).unwrap();
    }
    dao.create_proposal(&as_("A", 100), s("A"), s("c1"), s("t"), s("d"), None, None, 1).unwrap();
    dao
}

fn voter(i: usize) -> String {
    if i == 0 { s("A") } else { format!("M{}", i) }
}

#[test]
fn five_members_approve_on_third_vote() {
    let mut dao = club_of(5);
    for i in 0..2 {
        dao.vote(&as_(&voter(i), 200), voter(i), 1, true).unwrap();
        assert_eq!(dao.get_proposal(1).unwrap().status, ProposalStatus::Active);
    }
    dao.vote(&as_(&voter(2), 200), voter(2), 1, true).unwrap();
    let p = dao.get_proposal(1).unwrap();
    assert_eq!(p.votes_for, 3);
    assert_eq!(p.status, ProposalStatus::Approved);
}

#[test]
fn four_members_reject_on_second_against_vote() {
    let mut dao = club_of(4);
    dao.vote(&as_(&voter(0), 200), voter(0), 1, false).unwrap();
    assert_eq!(dao.get_proposal(1).unwrap().status, ProposalStatus::Active);
    dao.vote(&as_(&voter(1), 200), voter(1), 1, false).unwrap();
    let p = dao.get_proposal(1).unwrap();
    assert_eq!(p.votes_against, 2);
    assert_eq!(p.status, ProposalStatus::Rejected);
}

#[test]
fn counts_keep_growing_after_decision() {
    let mut dao = club_of(4);
    dao.vote(&as_(&voter(0), 200), voter(0), 1, false).unwrap();
    dao.vote(&as_(&voter(1), 200), voter(1), 1, false).unwrap();
    dao.vote(&as_(&voter(2), 200), voter(2), 1, true).unwrap();
    let p = dao.get_proposal(1).unwrap();
    assert_eq!((p.votes_for, p.votes_against), (1, 2));
    assert_eq!(p.status, ProposalStatus::Rejected);
}

#[test]
fn double_vote_is_rejected() {
    let mut dao = club_of(5);
    dao.vote(&as_("A", 200), s("A"), 1, true).unwrap();
    assert_eq!(dao.vote(&as_("A", 201), s("A"), 1, false), Err(DaoError::AlreadyVoted));
    let p = dao.get_proposal(1).unwrap();
    assert_eq!((p.votes_for, p.votes_against), (1, 0));
}

#[test]
fn vote_on_missing_proposal_fails() {
    let mut dao = club_of(2);
    assert_eq!(dao.vote(&as_("A", 200), s("A"), 9, true), Err(DaoError::ProposalNotFound));
}

#[test]
fn vote_after_end_time_fails() {
    let mut dao = club_of(3);
    let end = dao.get_proposal(1).unwrap().end_time;
    assert_eq!(end, 100 + 86400);
    assert_eq!(dao.vote(&as_("A", end + 1), s("A"), 1, true), Err(DaoError::VotingEnded));
    assert_eq!(dao.vote(&as_("X", end + 1), s("X"), 1, true), Err(DaoError::VotingEnded));
    assert_eq!(dao.vote(&as_("A", end), s("A"), 1, true), Ok(()));
    assert_eq!(dao.vote(&as_("A", end + 5), s("A"), 1, true), Err(DaoError::VotingEnded));
}

#[test]
fn non_member_vote_is_rejected() {
    let mut dao = club_of(2);
    assert_eq!(dao.vote(&as_("X", 200), s("X"), 1, true), Err(DaoError::NotMember));
    dao.join_club(&as_("X", 201), s("X"), s("c1")).unwrap();
    assert_eq!(dao.vote(&as_("X", 202), s("X"), 1, true), Ok(()));
}

#[test]
fn reinitialize_resets_counters_only() {
    let mut dao = dao_with_club();
    dao.initialize(s("Z")).unwrap();
    assert_eq!(dao.get_club_count(), 0);
    assert!(dao.get_club(s("c1")).is_some());
    assert_eq!(
        dao.create_club(&as_("A", 300), s("A"), s("c2"), s("x"), s("y")),
        Err(DaoError::NotAdmin)
    );
    assert_eq!(dao.create_club(&as_("Z", 300), s("Z"), s("c2"), s("x"), s("y")), Ok(()));
    assert_eq!(dao.get_club_count(), 1);
}

#[test]
fn vote_records_match_tallies() {
    let mut dao = club_of(5);
    dao.vote(&as_("A", 200), s("A"), 1, true).unwrap();
    dao.vote(&as_("M1", 200), s("M1"), 1, false).unwrap();
    dao.vote(&as_("M2", 200), s("M2"), 1, true).unwrap();
    let recorded = (0..5)
        .filter(|i| dao.has(&DataKey::Vote(1, voter(*i))))
        .count() as u32;
    let p = dao.get_proposal(1).unwrap();
    assert_eq!(recorded, p.votes_for + p.votes_against);
    assert_eq!((p.votes_for, p.votes_against), (2, 1));
}

#[test]
fn keyed_lookup_follows_records() {
    let mut dao = CampusDAO::new();
    assert!(!dao.has(&DataKey::Admin));
    assert!(!dao.has(&DataKey::ClubCounter));
    dao.initialize(s("A")).unwrap();
    assert!(dao.has(&DataKey::Admin));
    assert!(dao.has(&DataKey::ProposalCounter));
    assert!(!dao.has(&DataKey::Club(s("c1"))));
    dao.create_club(&as_("A", 1), s("A"), s("c1"), s("n"), s("d")).unwrap();
    assert!(dao.has(&DataKey::Club(s("c1"))));
    assert!(!dao.has(&DataKey::Member(s("c1"), s("A"))));
    assert!(!dao.has(&DataKey::Proposal(1)));
}

#[test]
fn error_codes() {
    assert_eq!(DaoError::NotAdmin.contract_code(), Some(2001));
    assert_eq!(DaoError::ClubAlreadyExists.contract_code(), Some(2002));
    assert_eq!(DaoError::ClubNotFound.contract_code(), Some(2003));
    assert_eq!(DaoError::AlreadyMember.contract_code(), Some(2004));
    assert_eq!(DaoError::NotMember.contract_code(), Some(2005));
    assert_eq!(DaoError::ProposalNotFound.contract_code(), Some(2006));
    assert_eq!(DaoError::VotingEnded.contract_code(), Some(2007));
    assert_eq!(DaoError::AlreadyVoted.contract_code(), Some(2008));
    assert_eq!(DaoError::Unauthorized.contract_code(), None);
}

fn club(id: &str, admin: &str, members: &[&str]) -> Club {
    Club {
        id: s(id),
        name: s("n"),
        description: s("d"),
        admin: s(admin),
        members: members.iter().map(|m| s(m)).collect(),
        created_at: 0,
    }
}

#[test]
fn restore_checks_records() {
    let ok = CampusDAO::restore(Some(s("A")), vec![club("c1", "A", &["A", "B"])], vec![], vec![], 1, 0);
    let mut dao = ok.unwrap();
    assert_eq!(dao.join_club(&as_("B", 1), s("B"), s("c1")), Err(DaoError::AlreadyMember));
    assert!(CampusDAO::restore(None, vec![club("c1", "A", &["B", "A"])], vec![], vec![], 0, 0).is_none());
    assert!(CampusDAO::restore(None, vec![club("c1", "A", &["A", "A"])], vec![], vec![], 0, 0).is_none());
    assert!(CampusDAO::restore(None, vec![club("c1", "A", &[])], vec![], vec![], 0, 0).is_none());
    let twice = vec![club("c1", "A", &["A"]), club("c1", "B", &["B"])];
    assert!(CampusDAO::restore(None, twice, vec![], vec![], 0, 0).is_none());
}

#[test]
fn restore_rejects_orphan_proposal() {
    let mut dao = club_of(1);
    let p = dao.get_proposal(1).unwrap();
    assert!(CampusDAO::restore(Some(s("A")), vec![], vec![p.clone()], vec![], 0, 1).is_none());
    let c = dao.get_club(s("c1")).unwrap();
    let restored = CampusDAO::restore(
        Some(s("A")),
        vec![c],
        vec![p],
        vec![VoteRecord { proposal_id: 1, voter: s("A"), support: true }],
        1,
        1,
    );
    dao = restored.unwrap();
    assert_eq!(dao.vote(&as_("A", 200), s("A"), 1, true), Err(DaoError::AlreadyVoted));
}

#[test]
fn rejection_turns_into_approval() {
    let mut dao = club_of(3);
    dao.vote(&as_(&voter(0), 200), voter(0), 1, false).unwrap();
    assert_eq!(dao.get_proposal(1).unwrap().status, ProposalStatus::Rejected);
    dao.vote(&as_(&voter(1), 200), voter(1), 1, true).unwrap();
    dao.vote(&as_(&voter(2), 200), voter(2), 1, true).unwrap();
    let p = dao.get_proposal(1).unwrap();
    assert_eq!((p.votes_for, p.votes_against), (2, 1));
    assert_eq!(p.status, ProposalStatus::Approved);
}

#[test]
fn approval_survives_roster_growth() {
    let mut dao = club_of(1);
    dao.vote(&as_("A", 200), s("A"), 1, true).unwrap();
    assert_eq!(dao.get_proposal(1).unwrap().status, ProposalStatus::Approved);
    for i in 1..4 {
        dao.join_club(&as_(&voter(i), 201), voter(i), s("c1")).unwrap();
    }
    dao.vote(&as_(&voter(1), 202), voter(1), 1, false).unwrap();
    assert_eq!(dao.get_proposal(1).unwrap().status, ProposalStatus::Approved);
    dao.vote(&as_(&voter(2), 202), voter(2), 1, false).unwrap();
    let p = dao.get_proposal(1).unwrap();
    assert_eq!((p.votes_for, p.votes_against), (1, 2));
    assert_eq!(p.status, ProposalStatus::Rejected);
}

#[test]
fn five_members_rejected_then_approved() {
    let mut dao = club_of(5);
    dao.vote(&as_(&voter(0), 200), voter(0), 1, false).unwrap();
    dao.vote(&as_(&voter(1), 200), voter(1), 1, false).unwrap();
    assert_eq!(dao.get_proposal(1).unwrap().status, ProposalStatus::Rejected);
    for i in 2..5 {
        dao.vote(&as_(&voter(i), 200), voter(i), 1, true).unwrap();
    }
    let p = dao.get_proposal(1).unwrap();
    assert_eq!((p.votes_for, p.votes_against), (3, 2));
    assert_eq!(p.status, ProposalStatus::Approved);
}

#[test]
fn proposal_counter_follows_creations() {
    let mut dao = club_of(1);
    assert_eq!(dao.get_proposal_count(), 1);
    dao.initialize(s("A")).unwrap();
    assert_eq!(dao.get_proposal_count(), 0);
}
