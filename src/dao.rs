use vstd::prelude::*;
use crate::invocation::{Address, Invocation, InvocationModel, contains_address, copy_addresses, opt_view};

verus! {

/// Seconds in one day, the unit of a proposal's voting window.
pub const SECONDS_PER_DAY: u64 = 86400;

/// Failures of the governance operations.
#[derive(Clone, Copy, Debug, PartialEq, Eq, Structural)]
pub enum DaoError {
    /// The invocation does not carry authorisation for the acting party.
    Unauthorized,
    /// Only the administrator may create clubs.
    NotAdmin,
    /// A club with this id is already registered.
    ClubAlreadyExists,
    /// No club with this id.
    ClubNotFound,
    /// The caller is already on the club's roster.
    AlreadyMember,
    /// The caller is not on the club's roster.
    NotMember,
    /// No proposal with this id.
    ProposalNotFound,
    /// The proposal's voting window has passed.
    VotingEnded,
    /// The caller has already voted on this proposal.
    AlreadyVoted,
}

impl DaoError {
    /// The contract error number reported to the host; an authorisation
    /// failure is reported by the host itself and has none.
    pub fn contract_code(&self) -> (r: Option<u32>)
        ensures
            r == match *self {
                DaoError::Unauthorized => None,
                DaoError::NotAdmin => Some(2001u32),
                DaoError::ClubAlreadyExists => Some(2002u32),
                DaoError::ClubNotFound => Some(2003u32),
                DaoError::AlreadyMember => Some(2004u32),
                DaoError::NotMember => Some(2005u32),
                DaoError::ProposalNotFound => Some(2006u32),
                DaoError::VotingEnded => Some(2007u32),
                DaoError::AlreadyVoted => Some(2008u32),
            },
    {
        match self {
            DaoError::Unauthorized => None,
            DaoError::NotAdmin => Some(2001),
            DaoError::ClubAlreadyExists => Some(2002),
            DaoError::ClubNotFound => Some(2003),
            DaoError::AlreadyMember => Some(2004),
            DaoError::NotMember => Some(2005),
            DaoError::ProposalNotFound => Some(2006),
            DaoError::VotingEnded => Some(2007),
            DaoError::AlreadyVoted => Some(2008),
        }
    }
}

/// Where a proposal stands. `Executed` is declared for a later execution step
/// and no operation of this engine reaches it.
#[derive(Clone, Copy, Debug, PartialEq, Eq, Structural)]
pub enum ProposalStatus {
    Active,
    Approved,
    Rejected,
    Executed,
}

/// The keys of the governance store, one variant per kind of record.
#[derive(Clone, Debug)]
pub enum DataKey {
    Admin,
    Club(String),
    Member(String, String),
    Proposal(u32),
    Vote(u32, String),
    ClubCounter,
    ProposalCounter,
}

/// A club: its roster starts with its creator and never holds one identity twice.
#[derive(Clone, Debug)]
pub struct Club {
    pub id: String,
    pub name: String,
    pub description: String,
    pub admin: Address,
    pub members: Vec<Address>,
    pub created_at: u64,
}

/// Mathematical view of a [`Club`].
pub struct ClubModel {
    pub id: Seq<char>,
    pub name: Seq<char>,
    pub description: Seq<char>,
    pub admin: Seq<char>,
    pub members: Seq<Seq<char>>,
    pub created_at: u64,
}

impl ClubModel {
    pub open spec fn has_member(self, who: Seq<char>) -> bool {
        self.members.contains(who)
    }
}

impl View for Club {
    type V = ClubModel;

    open spec fn view(&self) -> ClubModel {
        ClubModel {
            id: self.id@,
            name: self.name@,
            description: self.description@,
            admin: self.admin@,
            members: self.members@.map_values(|s: String| s@),
            created_at: self.created_at,
        }
    }
}

/// A club-scoped, time-bounded request put to the club's members.
#[derive(Clone, Debug)]
pub struct Proposal {
    pub id: u32,
    pub club_id: String,
    pub title: String,
    pub description: String,
    pub creator: Address,
    pub amount: Option<i128>,
    pub recipient: Option<Address>,
    pub votes_for: u32,
    pub votes_against: u32,
    pub status: ProposalStatus,
    pub created_at: u64,
    pub end_time: u64,
}

/// Mathematical view of a [`Proposal`].
pub struct ProposalModel {
    pub id: u32,
    pub club_id: Seq<char>,
    pub title: Seq<char>,
    pub description: Seq<char>,
    pub creator: Seq<char>,
    pub amount: Option<i128>,
    pub recipient: Option<Seq<char>>,
    pub votes_for: u32,
    pub votes_against: u32,
    pub status: ProposalStatus,
    pub created_at: u64,
    pub end_time: u64,
}

impl View for Proposal {
    type V = ProposalModel;

    open spec fn view(&self) -> ProposalModel {
        ProposalModel {
            id: self.id,
            club_id: self.club_id@,
            title: self.title@,
            description: self.description@,
            creator: self.creator@,
            amount: self.amount,
            recipient: opt_view(self.recipient),
            votes_for: self.votes_for,
            votes_against: self.votes_against,
            status: self.status,
            created_at: self.created_at,
            end_time: self.end_time,
        }
    }
}

/// One voter's recorded vote on one proposal; its presence guards against a second vote.
pub struct VoteRecord {
    pub proposal_id: u32,
    pub voter: Address,
    pub support: bool,
}

/// Mathematical view of a [`VoteRecord`].
pub struct VoteModel {
    pub proposal_id: u32,
    pub voter: Seq<char>,
    pub support: bool,
}

impl View for VoteRecord {
    type V = VoteModel;

    open spec fn view(&self) -> VoteModel {
        VoteModel { proposal_id: self.proposal_id, voter: self.voter@, support: self.support }
    }
}

/// Status of a proposal after a vote, with `n` members on the club's roster.
/// Both thresholds are applied on every vote: more than half (rounded down) in
/// favour approves, otherwise at least half against rejects, otherwise the
/// status stays as it was.
pub open spec fn status_after(status: ProposalStatus, votes_for: u32, votes_against: u32, n: nat) -> ProposalStatus {
    if votes_for > n / 2 {
        ProposalStatus::Approved
    } else if votes_against >= n / 2 {
        ProposalStatus::Rejected
    } else {
        status
    }
}

/// Selects the vote records cast on proposal `id`.
pub open spec fn is_vote_on(id: u32) -> spec_fn(VoteModel) -> bool {
    |v: VoteModel| v.proposal_id == id
}

/// Selects the vote records cast on proposal `id` with the given `support`.
pub open spec fn is_vote_cast(id: u32, support: bool) -> spec_fn(VoteModel) -> bool {
    |v: VoteModel| v.proposal_id == id && v.support == support
}

/// One call of a mutating operation, with its arguments in view form.
pub enum DaoCall {
    Initialize { admin: Seq<char> },
    CreateClub { creator: Seq<char>, id: Seq<char>, name: Seq<char>, description: Seq<char> },
    JoinClub { student: Seq<char>, club_id: Seq<char> },
    CreateProposal {
        creator: Seq<char>,
        club_id: Seq<char>,
        title: Seq<char>,
        description: Seq<char>,
        amount: Option<i128>,
        recipient: Option<Seq<char>>,
        duration_days: u64,
    },
    Vote { voter: Seq<char>, proposal_id: u32, support: bool },
}

/// Mathematical view of the whole governance store.
pub struct DaoModel {
    pub admin: Option<Seq<char>>,
    pub clubs: Seq<ClubModel>,
    pub proposals: Seq<ProposalModel>,
    pub votes: Seq<VoteModel>,
    pub club_counter: u32,
    pub proposal_counter: u32,
}

impl DaoModel {
    pub open spec fn has_club(self, id: Seq<char>) -> bool {
        exists|i: int| 0 <= i < self.clubs.len() && self.clubs[i].id == id
    }

    pub open spec fn club_index(self, id: Seq<char>) -> int {
        choose|i: int| 0 <= i < self.clubs.len() && self.clubs[i].id == id
    }

    /// The club registered under `id` (meaningful where `has_club(id)`).
    pub open spec fn club(self, id: Seq<char>) -> ClubModel {
        self.clubs[self.club_index(id)]
    }

    pub open spec fn has_proposal(self, id: u32) -> bool {
        exists|i: int| 0 <= i < self.proposals.len() && self.proposals[i].id == id
    }

    pub open spec fn proposal_index(self, id: u32) -> int {
        choose|i: int| 0 <= i < self.proposals.len() && self.proposals[i].id == id
    }

    /// The proposal stored under `id` (meaningful where `has_proposal(id)`).
    pub open spec fn proposal(self, id: u32) -> ProposalModel {
        self.proposals[self.proposal_index(id)]
    }

    pub open spec fn has_voted(self, id: u32, voter: Seq<char>) -> bool {
        exists|i: int| 0 <= i < self.votes.len() && self.votes[i].proposal_id == id && self.votes[i].voter == voter
    }

    /// Invariant of the store: ids are unique, every roster is non-empty, starts
    /// with the club's admin and holds no identity twice, and every proposal
    /// belongs to a registered club.
    pub open spec fn wf(self) -> bool {
        &&& forall|i: int, j: int| 0 <= i < j < self.clubs.len() ==> self.clubs[i].id != self.clubs[j].id
        &&& forall|i: int, j: int| 0 <= i < j < self.proposals.len() ==> self.proposals[i].id != self.proposals[j].id
        &&& forall|i: int| 0 <= i < self.clubs.len() ==> {
            &&& (#[trigger] self.clubs[i]).members.len() > 0
            &&& self.clubs[i].members[0] == self.clubs[i].admin
            &&& self.clubs[i].members.no_duplicates()
        }
        &&& forall|i: int| 0 <= i < self.proposals.len() ==> self.has_club((#[trigger] self.proposals[i]).club_id)
    }

    /// The store after `initialize(admin)`: the administrator is set and both
    /// counters are zero; clubs, proposals and vote records are kept.
    pub open spec fn initialize_step(self, admin: Seq<char>) -> DaoModel {
        DaoModel { admin: Some(admin), club_counter: 0, proposal_counter: 0, ..self }
    }

    /// Number of vote records cast on proposal `id`.
    pub open spec fn votes_on(self, id: u32) -> nat {
        self.votes.filter(is_vote_on(id)).len()
    }

    /// Number of vote records cast on proposal `id` with the given `support`.
    pub open spec fn votes_cast(self, id: u32, support: bool) -> nat {
        self.votes.filter(is_vote_cast(id, support)).len()
    }

    /// The vote bookkeeping is consistent: proposal ids are unique and were all
    /// handed out by the counter, every vote record names such an id, each
    /// proposal's count in favour (against) is the number of records cast on it
    /// in favour (against), and its two counts add up to the records cast on it.
    pub open spec fn tallies_consistent(self) -> bool {
        &&& forall|i: int, j: int| 0 <= i < j < self.proposals.len() ==> self.proposals[i].id != self.proposals[j].id
        &&& forall|i: int| 0 <= i < self.proposals.len() ==> (#[trigger] self.proposals[i]).id <= self.proposal_counter
        &&& forall|j: int| 0 <= j < self.votes.len() ==> (#[trigger] self.votes[j]).proposal_id <= self.proposal_counter
        &&& forall|i: int| 0 <= i < self.proposals.len() ==>
            (#[trigger] self.proposals[i]).votes_for + self.proposals[i].votes_against == self.votes_on(self.proposals[i].id)
        &&& forall|i: int| 0 <= i < self.proposals.len() ==> {
            &&& (#[trigger] self.proposals[i]).votes_for == self.votes_cast(self.proposals[i].id, true)
            &&& self.proposals[i].votes_against == self.votes_cast(self.proposals[i].id, false)
        }
    }

    /// The store after one call made in the invocation `env`.
    pub open spec fn apply(self, env: InvocationModel, call: DaoCall) -> DaoModel {
        match call {
            DaoCall::Initialize { admin } => self.initialize_step(admin),
            DaoCall::CreateClub { creator, id, name, description } => self.create_club_step(env, creator, id, name, description).0,
            DaoCall::JoinClub { student, club_id } => self.join_club_step(env, student, club_id).0,
            DaoCall::CreateProposal { creator, club_id, title, description, amount, recipient, duration_days } =>
                self.create_proposal_step(env, creator, club_id, title, description, amount, recipient, duration_days).0,
            DaoCall::Vote { voter, proposal_id, support } => self.vote_step(env, voter, proposal_id, support).0,
        }
    }

    /// The store after a sequence of calls, each in its own invocation.
    pub open spec fn run(self, calls: Seq<(InvocationModel, DaoCall)>) -> DaoModel
        decreases calls.len(),
    {
        if calls.len() == 0 {
            self
        } else {
            self.run(calls.drop_last()).apply(calls.last().0, calls.last().1)
        }
    }

    /// What `create_club` does to the store, and what it returns.
    pub open spec fn create_club_step(
        self,
        env: InvocationModel,
        creator: Seq<char>,
        id: Seq<char>,
        name: Seq<char>,
        description: Seq<char>,
    ) -> (DaoModel, Result<(), DaoError>) {
        if !env.authorizes(creator) {
            (self, Err(DaoError::Unauthorized))
        } else if self.admin != Some(creator) {
            (self, Err(DaoError::NotAdmin))
        } else if self.has_club(id) {
            (self, Err(DaoError::ClubAlreadyExists))
        } else {
            let club = ClubModel {
                id,
                name,
                description,
                admin: creator,
                members: seq![creator],
                created_at: env.timestamp,
            };
            (DaoModel { clubs: self.clubs.push(club), club_counter: (self.club_counter + 1) as u32, ..self }, Ok(()))
        }
    }

    /// What `join_club` does to the store, and what it returns.
    pub open spec fn join_club_step(self, env: InvocationModel, student: Seq<char>, club_id: Seq<char>) -> (DaoModel, Result<(), DaoError>) {
        if !env.authorizes(student) {
            (self, Err(DaoError::Unauthorized))
        } else if !self.has_club(club_id) {
            (self, Err(DaoError::ClubNotFound))
        } else if self.club(club_id).has_member(student) {
            (self, Err(DaoError::AlreadyMember))
        } else {
            let c = self.club(club_id);
            let joined = ClubModel { members: c.members.push(student), ..c };
            (DaoModel { clubs: self.clubs.update(self.club_index(club_id), joined), ..self }, Ok(()))
        }
    }

    /// What `create_proposal` does to the store, and what it returns. The new
    /// proposal replaces one stored under the same id, if any.
    pub open spec fn create_proposal_step(
        self,
        env: InvocationModel,
        creator: Seq<char>,
        club_id: Seq<char>,
        title: Seq<char>,
        description: Seq<char>,
        amount: Option<i128>,
        recipient: Option<Seq<char>>,
        duration_days: u64,
    ) -> (DaoModel, Result<u32, DaoError>) {
        if !env.authorizes(creator) {
            (self, Err(DaoError::Unauthorized))
        } else if !self.has_club(club_id) {
            (self, Err(DaoError::ClubNotFound))
        } else if !self.club(club_id).has_member(creator) {
            (self, Err(DaoError::NotMember))
        } else {
            let id = (self.proposal_counter + 1) as u32;
            let p = ProposalModel {
                id,
                club_id,
                title,
                description,
                creator,
                amount,
                recipient,
                votes_for: 0,
                votes_against: 0,
                status: ProposalStatus::Active,
                created_at: env.timestamp,
                end_time: (env.timestamp + duration_days * SECONDS_PER_DAY) as u64,
            };
            let proposals = if self.has_proposal(id) {
                self.proposals.update(self.proposal_index(id), p)
            } else {
                self.proposals.push(p)
            };
            (DaoModel { proposals, proposal_counter: id, ..self }, Ok(id))
        }
    }

    /// A vote by `voter` on proposal `proposal_id` passes every check: the
    /// invocation is authorised, the proposal exists and is open, the voter has
    /// not voted on it and is on its club's roster.
    pub open spec fn vote_admits(self, env: InvocationModel, voter: Seq<char>, proposal_id: u32) -> bool {
        &&& env.authorizes(voter)
        &&& self.has_proposal(proposal_id)
        &&& env.timestamp <= self.proposal(proposal_id).end_time
        &&& !self.has_voted(proposal_id, voter)
        &&& self.has_club(self.proposal(proposal_id).club_id)
        &&& self.club(self.proposal(proposal_id).club_id).has_member(voter)
    }

    /// What `vote` does to the store, and what it returns.
    pub open spec fn vote_step(self, env: InvocationModel, voter: Seq<char>, proposal_id: u32, support: bool) -> (DaoModel, Result<(), DaoError>) {
        if !env.authorizes(voter) {
            (self, Err(DaoError::Unauthorized))
        } else if !self.has_proposal(proposal_id) {
            (self, Err(DaoError::ProposalNotFound))
        } else if env.timestamp > self.proposal(proposal_id).end_time {
            (self, Err(DaoError::VotingEnded))
        } else if self.has_voted(proposal_id, voter) {
            (self, Err(DaoError::AlreadyVoted))
        } else if !self.has_club(self.proposal(proposal_id).club_id) {
            (self, Err(DaoError::ClubNotFound))
        } else if !self.club(self.proposal(proposal_id).club_id).has_member(voter) {
            (self, Err(DaoError::NotMember))
        } else {
            let p = self.proposal(proposal_id);
            let n = self.club(p.club_id).members.len();
            let votes_for = if support { (p.votes_for + 1) as u32 } else { p.votes_for };
            let votes_against = if support { p.votes_against } else { (p.votes_against + 1) as u32 };
            let voted = ProposalModel {
                votes_for,
                votes_against,
                status: status_after(p.status, votes_for, votes_against, n),
                ..p
            };
            let record = VoteModel { proposal_id, voter, support };
            (DaoModel {
                proposals: self.proposals.update(self.proposal_index(proposal_id), voted),
                votes: self.votes.push(record),
                ..self
            }, Ok(()))
        }
    }
}


/// The governance store: administrator, clubs, proposals, vote records and counters.
pub struct CampusDAO {
    admin: Option<Address>,
    clubs: Vec<Club>,
    proposals: Vec<Proposal>,
    votes: Vec<VoteRecord>,
    club_counter: u32,
    proposal_counter: u32,
}

impl View for CampusDAO {
    type V = DaoModel;

    closed spec fn view(&self) -> DaoModel {
        DaoModel {
            admin: opt_view(self.admin),
            clubs: self.clubs@.map_values(|c: Club| c@),
            proposals: self.proposals@.map_values(|p: Proposal| p@),
            votes: self.votes@.map_values(|v: VoteRecord| v@),
            club_counter: self.club_counter,
            proposal_counter: self.proposal_counter,
        }
    }
}

impl Club {
    /// A copy of the club with the same view.
    pub fn duplicate(&self) -> (r: Club)
        ensures
            r@ == self@,
    {
        Club {
            id: self.id.clone(),
            name: self.name.clone(),
            description: self.description.clone(),
            admin: self.admin.clone(),
            members: copy_addresses(&self.members),
            created_at: self.created_at,
        }
    }
}

impl Proposal {
    /// A copy of the proposal with the same view.
    pub fn duplicate(&self) -> (r: Proposal)
        ensures
            r@ == self@,
    {
        let recipient = match &self.recipient {
            Some(a) => Some(a.clone()),
            None => None,
        };
        Proposal {
            id: self.id,
            club_id: self.club_id.clone(),
            title: self.title.clone(),
            description: self.description.clone(),
            creator: self.creator.clone(),
            amount: self.amount,
            recipient,
            votes_for: self.votes_for,
            votes_against: self.votes_against,
            status: self.status,
            created_at: self.created_at,
            end_time: self.end_time,
        }
    }
}

impl CampusDAO {
    /// Position of the club registered under `id`.
    fn find_club(&self, id: &String) -> (r: Option<usize>)
        requires
            self@.wf(),
        ensures
            r is Some <==> self@.has_club(id@),
            r is Some ==> r->0 == self@.club_index(id@) && r->0 < self@.clubs.len(),
    {
        let ghost m = self@;
        let mut i: usize = 0;
        while i < self.clubs.len()
            invariant
                m == self@,
                m.wf(),
                i <= m.clubs.len(),
                forall|j: int| 0 <= j < i ==> m.clubs[j].id != id@,
            decreases m.clubs.len() - i,
        {
            if self.clubs[i].id == *id {
                assert(m.clubs[i as int].id == id@);
                let ghost k = m.club_index(id@);
                assert(m.clubs[k].id == id@);
                assert(k == i as int) by {
                    if k < i as int {
                        assert(m.clubs[k].id != m.clubs[i as int].id);
                    } else if k > i as int {
                        assert(m.clubs[i as int].id != m.clubs[k].id);
                    }
                }
                return Some(i);
            }
            i += 1;
        }
        None
    }

    /// Position of the proposal stored under `id`.
    fn find_proposal(&self, id: u32) -> (r: Option<usize>)
        requires
            self@.wf(),
        ensures
            r is Some <==> self@.has_proposal(id),
            r is Some ==> r->0 == self@.proposal_index(id) && r->0 < self@.proposals.len(),
    {
        let ghost m = self@;
        let mut i: usize = 0;
        while i < self.proposals.len()
            invariant
                m == self@,
                m.wf(),
                i <= m.proposals.len(),
                forall|j: int| 0 <= j < i ==> m.proposals[j].id != id,
            decreases m.proposals.len() - i,
        {
            if self.proposals[i].id == id {
                assert(m.proposals[i as int].id == id);
                let ghost k = m.proposal_index(id);
                assert(m.proposals[k].id == id);
                assert(k == i as int) by {
                    if k < i as int {
                        assert(m.proposals[k].id != m.proposals[i as int].id);
                    } else if k > i as int {
                        assert(m.proposals[i as int].id != m.proposals[k].id);
                    }
                }
                return Some(i);
            }
            i += 1;
        }
        None
    }

    /// Whether a vote record exists for (`id`, `voter`).
    fn find_vote(&self, id: u32, voter: &Address) -> (r: bool)
        ensures
            r == self@.has_voted(id, voter@),
    {
        let ghost m = self@;
        let mut i: usize = 0;
        while i < self.votes.len()
            invariant
                m == self@,
                i <= m.votes.len(),
                forall|j: int| 0 <= j < i ==> !(m.votes[j].proposal_id == id && m.votes[j].voter == voter@),
            decreases m.votes.len() - i,
        {
            if self.votes[i].proposal_id == id && self.votes[i].voter == *voter {
                assert(m.votes[i as int].proposal_id == id && m.votes[i as int].voter == voter@);
                return true;
            }
            i += 1;
        }
        false
    }
}


impl CampusDAO {
    /// An empty store, before `initialize`.
    pub fn new() -> (r: CampusDAO)
        ensures
            r@.wf(),
            r@.admin is None,
            r@.clubs.len() == 0,
            r@.proposals.len() == 0,
            r@.votes.len() == 0,
            r@.club_counter == 0,
            r@.proposal_counter == 0,
            r@.tallies_consistent(),
    {
        let r = CampusDAO {
            admin: None,
            clubs: Vec::new(),
            proposals: Vec::new(),
            votes: Vec::new(),
            club_counter: 0,
            proposal_counter: 0,
        };
        assert(r@.clubs =~= Seq::<ClubModel>::empty());
        assert(r@.proposals =~= Seq::<ProposalModel>::empty());
        assert(r@.votes =~= Seq::<VoteModel>::empty());
        r
    }

    /// Sets the administrator and zeroes both counters. Calling it again
    /// overwrites the administrator and the counters; stored records stay.
    pub fn initialize(&mut self, admin: Address) -> (r: Result<(), DaoError>)
        requires
            old(self)@.wf(),
        ensures
            final(self)@ == old(self)@.initialize_step(admin@),
            final(self)@.wf(),
            r is Ok,
    {
        self.admin = Some(admin);
        self.club_counter = 0;
        self.proposal_counter = 0;
        Ok(())
    }

    /// Registers a club under `id`, created by the administrator, with the
    /// creator as its admin and sole member.
    pub fn create_club(
        &mut self,
        env: &Invocation,
        creator: Address,
        id: String,
        name: String,
        description: String,
    ) -> (r: Result<(), DaoError>)
        requires
            old(self)@.wf(),
            env@.authorizes(creator@) && old(self)@.admin == Some(creator@) && !old(self)@.has_club(id@)
                ==> old(self)@.club_counter < u32::MAX,
        ensures
            (final(self)@, r) == old(self)@.create_club_step(env@, creator@, id@, name@, description@),
            final(self)@.wf(),
    {
        if !env.is_authorized(&creator) {
            return Err(DaoError::Unauthorized);
        }
        let is_admin = match &self.admin {
            Some(a) => *a == creator,
            None => false,
        };
        if !is_admin {
            return Err(DaoError::NotAdmin);
        }
        if self.find_club(&id).is_some() {
            return Err(DaoError::ClubAlreadyExists);
        }
        let ghost m = self@;
        let mut members: Vec<Address> = Vec::new();
        members.push(creator.clone());
        let club = Club { id, name, description, admin: creator, members, created_at: env.timestamp };
        assert(club@.members =~= seq![creator@]);
        self.clubs.push(club);
        self.club_counter = self.club_counter + 1;
        let ghost goal = m.create_club_step(env@, creator@, club@.id, club@.name, club@.description).0;
        assert(self@.clubs =~= goal.clubs);
        assert(self@.proposals =~= goal.proposals);
        assert(self@.votes =~= goal.votes);
        proof {
            let n = self@;
            assert forall|i: int| 0 <= i < n.proposals.len() implies n.has_club(#[trigger] n.proposals[i].club_id) by {
                let k = choose|k: int| 0 <= k < m.clubs.len() && m.clubs[k].id == m.proposals[i].club_id;
                assert(n.clubs[k] == m.clubs[k]);
            }
            assert(seq![creator@].no_duplicates());
        }
        Ok(())
    }

    /// Appends `student` to the roster of the club `club_id`.
    pub fn join_club(&mut self, env: &Invocation, student: Address, club_id: String) -> (r: Result<(), DaoError>)
        requires
            old(self)@.wf(),
        ensures
            (final(self)@, r) == old(self)@.join_club_step(env@, student@, club_id@),
            final(self)@.wf(),
    {
        if !env.is_authorized(&student) {
            return Err(DaoError::Unauthorized);
        }
        let idx = match self.find_club(&club_id) {
            Some(i) => i,
            None => return Err(DaoError::ClubNotFound),
        };
        if contains_address(&self.clubs[idx].members, &student) {
            return Err(DaoError::AlreadyMember);
        }
        let ghost m = self@;
        let ghost goal = m.join_club_step(env@, student@, club_id@).0;
        let mut club = self.clubs.remove(idx);
        club.members.push(student);
        self.clubs.insert(idx, club);
        assert(club@.members =~= m.clubs[idx as int].members.push(student@));
        assert(self@.clubs =~= goal.clubs);
        assert(self@.proposals =~= goal.proposals);
        assert(self@.votes =~= goal.votes);
        proof {
            let n = self@;
            assert forall|i: int| 0 <= i < n.clubs.len() implies (#[trigger] n.clubs[i]).members.no_duplicates() by {
                if i == idx as int {
                    let ms = m.clubs[i].members;
                    assert forall|a: int, b: int| 0 <= a < ms.len() + 1 && 0 <= b < ms.len() + 1 && a != b
                        implies ms.push(student@)[a] != ms.push(student@)[b] by {
                        if a == ms.len() as int {
                            assert(ms[b] != student@);
                        } else if b == ms.len() as int {
                            assert(ms[a] != student@);
                        }
                    }
                }
            }
            assert forall|i: int| 0 <= i < n.proposals.len() implies n.has_club(#[trigger] n.proposals[i].club_id) by {
                let k = choose|k: int| 0 <= k < m.clubs.len() && m.clubs[k].id == m.proposals[i].club_id;
                assert(n.clubs[k].id == m.clubs[k].id);
            }
        }
        Ok(())
    }
}


impl CampusDAO {
    /// Opens a proposal in the club `club_id`, created by one of its members.
    /// Returns the new proposal's id, one more than the last one handed out.
    pub fn create_proposal(
        &mut self,
        env: &Invocation,
        creator: Address,
        club_id: String,
        title: String,
        description: String,
        amount: Option<i128>,
        recipient: Option<Address>,
        duration_days: u64,
    ) -> (r: Result<u32, DaoError>)
        requires
            old(self)@.wf(),
            env@.authorizes(creator@) && old(self)@.has_club(club_id@) && old(self)@.club(club_id@).has_member(creator@)
                ==> {
                &&& old(self)@.proposal_counter < u32::MAX
                &&& env.timestamp + duration_days * SECONDS_PER_DAY <= u64::MAX
            },
        ensures
            (final(self)@, r) == old(self)@.create_proposal_step(
                env@,
                creator@,
                club_id@,
                title@,
                description@,
                amount,
                opt_view(recipient),
                duration_days,
            ),
            final(self)@.wf(),
    {
        if !env.is_authorized(&creator) {
            return Err(DaoError::Unauthorized);
        }
        let cidx = match self.find_club(&club_id) {
            Some(i) => i,
            None => return Err(DaoError::ClubNotFound),
        };
        if !contains_address(&self.clubs[cidx].members, &creator) {
            return Err(DaoError::NotMember);
        }
        let ghost m = self@;
        let ghost goal = m.create_proposal_step(
            env@, creator@, club_id@, title@, description@, amount, opt_view(recipient), duration_days,
        ).0;
        let id: u32 = self.proposal_counter + 1;
        let existing = self.find_proposal(id);
        let proposal = Proposal {
            id,
            club_id,
            title,
            description,
            creator,
            amount,
            recipient,
            votes_for: 0,
            votes_against: 0,
            status: ProposalStatus::Active,
            created_at: env.timestamp,
            end_time: env.timestamp + duration_days * SECONDS_PER_DAY,
        };
        match existing {
            Some(pidx) => {
                self.proposals.set(pidx, proposal);
            },
            None => {
                self.proposals.push(proposal);
            },
        }
        self.proposal_counter = id;
        assert(self@.clubs =~= goal.clubs);
        assert(self@.proposals =~= goal.proposals);
        assert(self@.votes =~= goal.votes);
        proof {
            let n = self@;
            assert forall|i: int, j: int| 0 <= i < j < n.proposals.len() implies n.proposals[i].id != n.proposals[j].id by {
                if existing is None {
                    if j == m.proposals.len() as int {
                        assert(m.proposals[i].id != id);
                    }
                } else {
                    let pidx = existing->0 as int;
                    if i == pidx {
                        assert(m.proposals[j].id != m.proposals[pidx].id);
                    } else if j == pidx {
                        assert(m.proposals[i].id != m.proposals[pidx].id);
                    }
                }
            }
            assert forall|i: int| 0 <= i < n.proposals.len() implies n.has_club(#[trigger] n.proposals[i].club_id) by {
                if n.proposals[i].id == id {
                    assert(n.clubs[cidx as int].id == club_id@);
                } else {
                    assert(n.proposals[i] == m.proposals[i]);
                }
            }
        }
        Ok(id)
    }

    /// Records `voter`'s vote on proposal `proposal_id` and re-applies both
    /// thresholds against the club's current roster size.
    pub fn vote(&mut self, env: &Invocation, voter: Address, proposal_id: u32, support: bool) -> (r: Result<(), DaoError>)
        requires
            old(self)@.wf(),
            old(self)@.vote_admits(env@, voter@, proposal_id) ==> {
                &&& support ==> old(self)@.proposal(proposal_id).votes_for < u32::MAX
                &&& !support ==> old(self)@.proposal(proposal_id).votes_against < u32::MAX
            },
        ensures
            (final(self)@, r) == old(self)@.vote_step(env@, voter@, proposal_id, support),
            final(self)@.wf(),
    {
        if !env.is_authorized(&voter) {
            return Err(DaoError::Unauthorized);
        }
        let pidx = match self.find_proposal(proposal_id) {
            Some(i) => i,
            None => return Err(DaoError::ProposalNotFound),
        };
        if env.timestamp > self.proposals[pidx].end_time {
            return Err(DaoError::VotingEnded);
        }
        if self.find_vote(proposal_id, &voter) {
            return Err(DaoError::AlreadyVoted);
        }
        let cidx = match self.find_club(&self.proposals[pidx].club_id) {
            Some(i) => i,
            None => return Err(DaoError::ClubNotFound),
        };
        if !contains_address(&self.clubs[cidx].members, &voter) {
            return Err(DaoError::NotMember);
        }
        let ghost m = self@;
        let ghost goal = m.vote_step(env@, voter@, proposal_id, support).0;
        let total_members: usize = self.clubs[cidx].members.len();
        let mut proposal = self.proposals[pidx].duplicate();
        if support {
            proposal.votes_for = proposal.votes_for + 1;
        } else {
            proposal.votes_against = proposal.votes_against + 1;
        }
        if proposal.votes_for as usize > total_members / 2 {
            proposal.status = ProposalStatus::Approved;
        } else if proposal.votes_against as usize >= total_members / 2 {
            proposal.status = ProposalStatus::Rejected;
        }
        self.proposals.set(pidx, proposal);
        self.votes.push(VoteRecord { proposal_id, voter, support });
        assert(self@.clubs =~= goal.clubs);
        assert(self@.proposals =~= goal.proposals);
        assert(self@.votes =~= goal.votes);
        proof {
            let n = self@;
            assert forall|i: int, j: int| 0 <= i < j < n.proposals.len() implies n.proposals[i].id != n.proposals[j].id by {
                assert(n.proposals[i].id == m.proposals[i].id);
                assert(n.proposals[j].id == m.proposals[j].id);
            }
            assert forall|i: int| 0 <= i < n.proposals.len() implies n.has_club(#[trigger] n.proposals[i].club_id) by {
                assert(n.proposals[i].club_id == m.proposals[i].club_id);
            }
        }
        Ok(())
    }

    /// The proposal stored under `proposal_id`, if any.
    pub fn get_proposal(&self, proposal_id: u32) -> (r: Option<Proposal>)
        requires
            self@.wf(),
        ensures
            r is Some <==> self@.has_proposal(proposal_id),
            r is Some ==> r->0@ == self@.proposal(proposal_id),
    {
        match self.find_proposal(proposal_id) {
            Some(i) => Some(self.proposals[i].duplicate()),
            None => None,
        }
    }

    /// The club registered under `club_id`, if any.
    pub fn get_club(&self, club_id: String) -> (r: Option<Club>)
        requires
            self@.wf(),
        ensures
            r is Some <==> self@.has_club(club_id@),
            r is Some ==> r->0@ == self@.club(club_id@),
    {
        match self.find_club(&club_id) {
            Some(i) => Some(self.clubs[i].duplicate()),
            None => None,
        }
    }

    /// The id handed to the last proposal created since `initialize`; zero before any.
    pub fn get_proposal_count(&self) -> (r: u32)
        ensures
            r == self@.proposal_counter,
    {
        self.proposal_counter
    }

    /// How many clubs were created since the last `initialize`.
    pub fn get_club_count(&self) -> (r: u32)
        ensures
            r == self@.club_counter,
    {
        self.club_counter
    }
}


/// Whether no identity occurs twice in `list`.
fn addresses_distinct(list: &Vec<Address>) -> (r: bool)
    ensures
        r == list@.map_values(|s: String| s@).no_duplicates(),
{
    let ghost ids = list@.map_values(|s: String| s@);
    let n = list.len();
    let mut i: usize = 0;
    while i < n
        invariant
            n == list@.len(),
            ids == list@.map_values(|s: String| s@),
            i <= n,
            forall|a: int, b: int| 0 <= a < i && a < b < n ==> ids[a] != ids[b],
        decreases n - i,
    {
        let mut j: usize = i + 1;
        while j < n
            invariant
                n == list@.len(),
                ids == list@.map_values(|s: String| s@),
                i < n,
                i + 1 <= j <= n,
                forall|a: int, b: int| 0 <= a < i && a < b < n ==> ids[a] != ids[b],
                forall|b: int| i < b < j ==> ids[i as int] != ids[b],
            decreases n - j,
        {
            if list[i] == list[j] {
                assert(ids[i as int] == ids[j as int]);
                return false;
            }
            j += 1;
        }
        i += 1;
    }
    proof {
        assert forall|a: int, b: int| 0 <= a < ids.len() && 0 <= b < ids.len() && a != b implies ids[a] != ids[b] by {
            if b < a {
                assert(ids[b] != ids[a]);
            }
        }
    }
    true
}

impl CampusDAO {
    /// Whether a club is registered under `id`, without relying on the invariant.
    fn holds_club(&self, id: &String) -> (r: bool)
        ensures
            r == self@.has_club(id@),
    {
        let ghost m = self@;
        let mut i: usize = 0;
        while i < self.clubs.len()
            invariant
                m == self@,
                i <= m.clubs.len(),
                forall|j: int| 0 <= j < i ==> m.clubs[j].id != id@,
            decreases m.clubs.len() - i,
        {
            if self.clubs[i].id == *id {
                assert(m.clubs[i as int].id == id@);
                return true;
            }
            i += 1;
        }
        false
    }

    /// Whether the store meets its invariant.
    fn check_wf(&self) -> (r: bool)
        ensures
            r == self@.wf(),
    {
        let ghost m = self@;
        let nc = self.clubs.len();
        let mut i: usize = 0;
        while i < nc
            invariant
                m == self@,
                nc == m.clubs.len(),
                i <= nc,
                forall|a: int, b: int| 0 <= a < i && a < b < nc ==> m.clubs[a].id != m.clubs[b].id,
                forall|a: int| 0 <= a < i ==> {
                    &&& (#[trigger] m.clubs[a]).members.len() > 0
                    &&& m.clubs[a].members[0] == m.clubs[a].admin
                    &&& m.clubs[a].members.no_duplicates()
                },
            decreases nc - i,
        {
            let club = &self.clubs[i];
            if club.members.len() == 0 || club.members[0] != club.admin || !addresses_distinct(&club.members) {
                assert(m.clubs[i as int] == club@);
                return false;
            }
            let mut j: usize = i + 1;
            while j < nc
                invariant
                    m == self@,
                    nc == m.clubs.len(),
                    i < nc,
                    i + 1 <= j <= nc,
                    forall|b: int| i < b < j ==> m.clubs[i as int].id != m.clubs[b].id,
                decreases nc - j,
            {
                if self.clubs[i].id == self.clubs[j].id {
                    assert(m.clubs[i as int].id == m.clubs[j as int].id);
                    return false;
                }
                j += 1;
            }
            i += 1;
        }
        let np = self.proposals.len();
        let mut i: usize = 0;
        while i < np
            invariant
                m == self@,
                np == m.proposals.len(),
                i <= np,
                forall|a: int, b: int| 0 <= a < i && a < b < np ==> m.proposals[a].id != m.proposals[b].id,
                forall|a: int| 0 <= a < i ==> m.has_club((#[trigger] m.proposals[a]).club_id),
            decreases np - i,
        {
            if !self.holds_club(&self.proposals[i].club_id) {
                return false;
            }
            let mut j: usize = i + 1;
            while j < np
                invariant
                    m == self@,
                    np == m.proposals.len(),
                    i < np,
                    i + 1 <= j <= np,
                    forall|b: int| i < b < j ==> m.proposals[i as int].id != m.proposals[b].id,
                decreases np - j,
            {
                if self.proposals[i].id == self.proposals[j].id {
                    assert(m.proposals[i as int].id == m.proposals[j as int].id);
                    return false;
                }
                j += 1;
            }
            i += 1;
        }
        true
    }

    /// Rebuilds a store from persisted records; `None` where they break the
    /// store's invariant.
    pub fn restore(
        admin: Option<Address>,
        clubs: Vec<Club>,
        proposals: Vec<Proposal>,
        votes: Vec<VoteRecord>,
        club_counter: u32,
        proposal_counter: u32,
    ) -> (r: Option<CampusDAO>)
        ensures
            ({
                let m = DaoModel {
                    admin: opt_view(admin),
                    clubs: clubs@.map_values(|c: Club| c@),
                    proposals: proposals@.map_values(|p: Proposal| p@),
                    votes: votes@.map_values(|v: VoteRecord| v@),
                    club_counter,
                    proposal_counter,
                };
                &&& r is Some <==> m.wf()
                &&& r is Some ==> r->0@ == m
            }),
    {
        let dao = CampusDAO { admin, clubs, proposals, votes, club_counter, proposal_counter };
        if dao.check_wf() {
            Some(dao)
        } else {
            None
        }
    }
}


impl DaoModel {
    /// Whether a record is stored under `key`. The counters are stored from
    /// `initialize` on; no operation stores a `Member` record.
    pub open spec fn holds(self, key: DataKey) -> bool {
        match key {
            DataKey::Admin => self.admin is Some,
            DataKey::Club(id) => self.has_club(id@),
            DataKey::Member(_, _) => false,
            DataKey::Proposal(id) => self.has_proposal(id),
            DataKey::Vote(id, voter) => self.has_voted(id, voter@),
            DataKey::ClubCounter => self.admin is Some,
            DataKey::ProposalCounter => self.admin is Some,
        }
    }
}

impl CampusDAO {
    /// Whether a record is stored under `key`.
    pub fn has(&self, key: &DataKey) -> (r: bool)
        requires
            self@.wf(),
        ensures
            r == self@.holds(*key),
    {
        match key {
            DataKey::Admin => self.admin.is_some(),
            DataKey::Club(id) => self.find_club(id).is_some(),
            DataKey::Member(_, _) => false,
            DataKey::Proposal(id) => self.find_proposal(*id).is_some(),
            DataKey::Vote(id, voter) => self.find_vote(*id, voter),
            DataKey::ClubCounter => self.admin.is_some(),
            DataKey::ProposalCounter => self.admin.is_some(),
        }
    }
}

} // verus!
