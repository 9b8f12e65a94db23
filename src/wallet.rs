use vstd::prelude::*;
use crate::invocation::{Address, Invocation, contains_address, copy_addresses, opt_view};

verus! {

/// Failures of the reward-wallet operations.
#[derive(Clone, Copy, Debug, PartialEq, Eq, Structural)]
pub enum WalletError {
    /// The invocation does not carry authorisation for the acting party.
    Unauthorized,
    /// The student is already registered.
    AlreadyRegistered,
    /// Only the administrator may create events.
    NotAdmin,
    /// No event with this id.
    EventNotFound,
    /// The event no longer accepts attendance.
    EventNotActive,
    /// The student already attended this event.
    AlreadyParticipated,
    /// The event has as many participants as it allows.
    EventFull,
    /// A transfer amount must be positive.
    InvalidAmount,
    /// The sender holds fewer points than the amount.
    InsufficientBalance,
}

impl WalletError {
    /// The contract error number reported to the host; an authorisation
    /// failure is reported by the host itself and has none.
    pub fn contract_code(&self) -> (r: Option<u32>)
        ensures
            r == match *self {
                WalletError::Unauthorized => None,
                WalletError::AlreadyRegistered => Some(1001u32),
                WalletError::NotAdmin => Some(1002u32),
                WalletError::EventNotFound => Some(1003u32),
                WalletError::EventNotActive => Some(1004u32),
                WalletError::AlreadyParticipated => Some(1005u32),
                WalletError::EventFull => Some(1006u32),
                WalletError::InvalidAmount => Some(1007u32),
                WalletError::InsufficientBalance => Some(1008u32),
            },
    {
        match self {
            WalletError::Unauthorized => None,
            WalletError::AlreadyRegistered => Some(1001),
            WalletError::NotAdmin => Some(1002),
            WalletError::EventNotFound => Some(1003),
            WalletError::EventNotActive => Some(1004),
            WalletError::AlreadyParticipated => Some(1005),
            WalletError::EventFull => Some(1006),
            WalletError::InvalidAmount => Some(1007),
            WalletError::InsufficientBalance => Some(1008),
        }
    }
}

/// The keys of the wallet store, one variant per kind of record.
#[derive(Clone, Debug)]
pub enum DataKey {
    Admin,
    Balance(Address),
    Student(Address),
    Event(String),
}

/// A registered student.
#[derive(Clone, Debug)]
pub struct Student {
    pub address: Address,
    pub name: String,
    pub student_id: String,
    pub department: String,
    pub joined_at: u64,
}

/// Mathematical view of a [`Student`].
pub struct StudentModel {
    pub address: Seq<char>,
    pub name: Seq<char>,
    pub student_id: Seq<char>,
    pub department: Seq<char>,
    pub joined_at: u64,
}

impl View for Student {
    type V = StudentModel;

    open spec fn view(&self) -> StudentModel {
        StudentModel {
            address: self.address@,
            name: self.name@,
            student_id: self.student_id@,
            department: self.department@,
            joined_at: self.joined_at,
        }
    }
}

/// An event whose attendees each earn `reward_amount` points, up to
/// `max_participants` attendees.
#[derive(Clone, Debug)]
pub struct Event {
    pub id: String,
    pub name: String,
    pub description: String,
    pub reward_amount: i128,
    pub organizer: Address,
    pub max_participants: u32,
    pub participants: Vec<Address>,
    pub is_active: bool,
}

/// Mathematical view of an [`Event`].
pub struct EventModel {
    pub id: Seq<char>,
    pub name: Seq<char>,
    pub description: Seq<char>,
    pub reward_amount: i128,
    pub organizer: Seq<char>,
    pub max_participants: u32,
    pub participants: Seq<Seq<char>>,
    pub is_active: bool,
}

impl View for Event {
    type V = EventModel;

    open spec fn view(&self) -> EventModel {
        EventModel {
            id: self.id@,
            name: self.name@,
            description: self.description@,
            reward_amount: self.reward_amount,
            organizer: self.organizer@,
            max_participants: self.max_participants,
            participants: self.participants@.map_values(|s: String| s@),
            is_active: self.is_active,
        }
    }
}

/// A stored point balance.
pub struct BalanceEntry {
    pub owner: Address,
    pub amount: i128,
}

/// Mathematical view of the wallet store.
pub struct WalletModel {
    pub admin: Option<Seq<char>>,
    pub students: Seq<StudentModel>,
    pub events: Seq<EventModel>,
    pub balances: Seq<(Seq<char>, i128)>,
}

impl WalletModel {
    pub open spec fn has_student(self, who: Seq<char>) -> bool {
        exists|i: int| 0 <= i < self.students.len() && self.students[i].address == who
    }

    pub open spec fn student(self, who: Seq<char>) -> StudentModel {
        self.students[choose|i: int| 0 <= i < self.students.len() && self.students[i].address == who]
    }

    pub open spec fn has_event(self, id: Seq<char>) -> bool {
        exists|i: int| 0 <= i < self.events.len() && self.events[i].id == id
    }

    pub open spec fn event_index(self, id: Seq<char>) -> int {
        choose|i: int| 0 <= i < self.events.len() && self.events[i].id == id
    }

    /// The event stored under `id` (meaningful where `has_event(id)`).
    pub open spec fn event(self, id: Seq<char>) -> EventModel {
        self.events[self.event_index(id)]
    }

    pub open spec fn has_balance(self, who: Seq<char>) -> bool {
        exists|i: int| 0 <= i < self.balances.len() && self.balances[i].0 == who
    }

    pub open spec fn balance_index(self, who: Seq<char>) -> int {
        choose|i: int| 0 <= i < self.balances.len() && self.balances[i].0 == who
    }

    /// The points held by `who`; zero where nothing is stored.
    pub open spec fn balance(self, who: Seq<char>) -> i128 {
        if self.has_balance(who) {
            self.balances[self.balance_index(who)].1
        } else {
            0
        }
    }

    /// Invariant of the store: every key is stored at most once.
    pub open spec fn wf(self) -> bool {
        &&& forall|i: int, j: int| 0 <= i < j < self.students.len() ==> self.students[i].address != self.students[j].address
        &&& forall|i: int, j: int| 0 <= i < j < self.events.len() ==> self.events[i].id != self.events[j].id
        &&& forall|i: int, j: int| 0 <= i < j < self.balances.len() ==> self.balances[i].0 != self.balances[j].0
    }
}

/// The reward-wallet store: administrator, students, events and balances.
pub struct CampusWallet {
    admin: Option<Address>,
    students: Vec<Student>,
    events: Vec<Event>,
    balances: Vec<BalanceEntry>,
}

impl View for CampusWallet {
    type V = WalletModel;

    closed spec fn view(&self) -> WalletModel {
        WalletModel {
            admin: opt_view(self.admin),
            students: self.students@.map_values(|s: Student| s@),
            events: self.events@.map_values(|e: Event| e@),
            balances: self.balances@.map_values(|b: BalanceEntry| (b.owner@, b.amount)),
        }
    }
}


impl CampusWallet {
    /// Position of the balance stored for `who`.
    fn find_balance(&self, who: &Address) -> (r: Option<usize>)
        requires
            self@.wf(),
        ensures
            r is Some <==> self@.has_balance(who@),
            r is Some ==> r->0 == self@.balance_index(who@) && r->0 < self@.balances.len(),
    {
        let ghost m = self@;
        let mut i: usize = 0;
        while i < self.balances.len()
            invariant
                m == self@,
                m.wf(),
                i <= m.balances.len(),
                forall|j: int| 0 <= j < i ==> m.balances[j].0 != who@,
            decreases m.balances.len() - i,
        {
            if self.balances[i].owner == *who {
                assert(m.balances[i as int].0 == who@);
                let ghost k = m.balance_index(who@);
                assert(k == i as int) by {
                    if k < i as int {
                        assert(m.balances[k].0 != m.balances[i as int].0);
                    } else if k > i as int {
                        assert(m.balances[i as int].0 != m.balances[k].0);
                    }
                }
                return Some(i);
            }
            i += 1;
        }
        None
    }

    /// Position of the event stored under `id`.
    fn find_event(&self, id: &String) -> (r: Option<usize>)
        requires
            self@.wf(),
        ensures
            r is Some <==> self@.has_event(id@),
            r is Some ==> r->0 == self@.event_index(id@) && r->0 < self@.events.len(),
    {
        let ghost m = self@;
        let mut i: usize = 0;
        while i < self.events.len()
            invariant
                m == self@,
                m.wf(),
                i <= m.events.len(),
                forall|j: int| 0 <= j < i ==> m.events[j].id != id@,
            decreases m.events.len() - i,
        {
            if self.events[i].id == *id {
                assert(m.events[i as int].id == id@);
                let ghost k = m.event_index(id@);
                assert(k == i as int) by {
                    if k < i as int {
                        assert(m.events[k].id != m.events[i as int].id);
                    } else if k > i as int {
                        assert(m.events[i as int].id != m.events[k].id);
                    }
                }
                return Some(i);
            }
            i += 1;
        }
        None
    }

    /// Position of the student registered under `who`.
    fn find_student(&self, who: &Address) -> (r: Option<usize>)
        requires
            self@.wf(),
        ensures
            r is Some <==> self@.has_student(who@),
            r is Some ==> r->0 < self@.students.len() && self@.student(who@) == self@.students[r->0 as int],
    {
        let ghost m = self@;
        let mut i: usize = 0;
        while i < self.students.len()
            invariant
                m == self@,
                m.wf(),
                i <= m.students.len(),
                forall|j: int| 0 <= j < i ==> m.students[j].address != who@,
            decreases m.students.len() - i,
        {
            if self.students[i].address == *who {
                assert(m.students[i as int].address == who@);
                let ghost k = choose|k: int| 0 <= k < m.students.len() && m.students[k].address == who@;
                assert(k == i as int) by {
                    if k < i as int {
                        assert(m.students[k].address != m.students[i as int].address);
                    } else if k > i as int {
                        assert(m.students[i as int].address != m.students[k].address);
                    }
                }
                return Some(i);
            }
            i += 1;
        }
        None
    }

    /// The points held by `who`, zero where nothing is stored.
    fn balance_of(&self, who: &Address) -> (r: i128)
        requires
            self@.wf(),
        ensures
            r == self@.balance(who@),
    {
        match self.find_balance(who) {
            Some(i) => self.balances[i].amount,
            None => 0,
        }
    }

    /// Stores `amount` as the balance of `who`, replacing what was stored.
    fn set_balance(&mut self, who: &Address, amount: i128)
        requires
            old(self)@.wf(),
        ensures
            final(self)@.wf(),
            final(self)@.admin == old(self)@.admin,
            final(self)@.students == old(self)@.students,
            final(self)@.events == old(self)@.events,
            forall|x: Seq<char>| #[trigger] final(self)@.balance(x) == if x == who@ { amount } else { old(self)@.balance(x) },
    {
        let ghost m = self@;
        let found = self.find_balance(who);
        match found {
            Some(i) => {
                self.balances.set(i, BalanceEntry { owner: who.clone(), amount });
            },
            None => {
                self.balances.push(BalanceEntry { owner: who.clone(), amount });
            },
        }
        let ghost n = self@;
        assert(n.students =~= m.students);
        assert(n.events =~= m.events);
        proof {
            let k: int = if found is Some { found->0 as int } else { m.balances.len() as int };
            assert(n.balances[k].0 == who@);
            assert forall|i: int, j: int| 0 <= i < j < n.balances.len() implies n.balances[i].0 != n.balances[j].0 by {
                if i == k {
                    if found is None { } else { assert(m.balances[j].0 != m.balances[k].0); }
                } else if j == k {
                    if found is None { assert(!m.has_balance(who@) && m.balances[i].0 == n.balances[i].0); }
                    else { assert(m.balances[i].0 != m.balances[k].0); }
                } else {
                    assert(n.balances[i] == m.balances[i] && n.balances[j] == m.balances[j]);
                }
            }
            assert forall|x: Seq<char>| #[trigger] n.balance(x) == if x == who@ { amount } else { m.balance(x) } by {
                if x == who@ {
                    assert(n.has_balance(x));
                    let t = n.balance_index(x);
                    assert(t == k) by {
                        if t < k { assert(n.balances[t].0 != n.balances[k].0); }
                        else if t > k { assert(n.balances[k].0 != n.balances[t].0); }
                    }
                } else {
                    if m.has_balance(x) {
                        let t = m.balance_index(x);
                        assert(t != k);
                        assert(n.balances[t] == m.balances[t]);
                        assert(n.has_balance(x));
                        let u = n.balance_index(x);
                        assert(u == t) by {
                            if u < t { assert(n.balances[u].0 != n.balances[t].0); }
                            else if u > t { assert(n.balances[t].0 != n.balances[u].0); }
                        }
                    } else {
                        assert(!n.has_balance(x)) by {
                            if n.has_balance(x) {
                                let u = n.balance_index(x);
                                assert(u != k);
                                assert(m.balances[u].0 == x);
                            }
                        }
                    }
                }
            }
        }
    }
}


impl CampusWallet {
    /// An empty store, before `initialize`.
    pub fn new() -> (r: CampusWallet)
        ensures
            r@.wf(),
            r@.admin is None,
            r@.students.len() == 0,
            r@.events.len() == 0,
            forall|x: Seq<char>| r@.balance(x) == 0,
    {
        CampusWallet { admin: None, students: Vec::new(), events: Vec::new(), balances: Vec::new() }
    }

    /// Sets the administrator; stored records stay.
    pub fn initialize(&mut self, admin: Address) -> (r: Result<(), WalletError>)
        requires
            old(self)@.wf(),
        ensures
            r is Ok,
            final(self)@ == (WalletModel { admin: Some(admin@), ..old(self)@ }),
            final(self)@.wf(),
    {
        self.admin = Some(admin);
        Ok(())
    }

    /// Registers `student` with a zero balance.
    pub fn register_student(
        &mut self,
        env: &Invocation,
        student: Address,
        name: String,
        student_id: String,
        department: String,
    ) -> (r: Result<(), WalletError>)
        requires
            old(self)@.wf(),
        ensures
            final(self)@.wf(),
            !env@.authorizes(student@) ==> r == Err::<(), WalletError>(WalletError::Unauthorized),
            env@.authorizes(student@) && old(self)@.has_student(student@) ==> r == Err::<(), WalletError>(
                WalletError::AlreadyRegistered,
            ),
            r is Err ==> final(self)@ == old(self)@,
            env@.authorizes(student@) && !old(self)@.has_student(student@) ==> {
                &&& r is Ok
                &&& final(self)@.admin == old(self)@.admin
                &&& final(self)@.events == old(self)@.events
                &&& final(self)@.students == old(self)@.students.push(
                    StudentModel {
                        address: student@,
                        name: name@,
                        student_id: student_id@,
                        department: department@,
                        joined_at: env.timestamp,
                    },
                )
                &&& forall|x: Seq<char>| #[trigger] final(self)@.balance(x) == if x == student@ { 0 } else { old(self)@.balance(x) }
            },
    {
        if !env.is_authorized(&student) {
            return Err(WalletError::Unauthorized);
        }
        if self.find_student(&student).is_some() {
            return Err(WalletError::AlreadyRegistered);
        }
        let ghost m = self@;
        self.set_balance(&student, 0);
        let ghost b = self@;
        self.students.push(Student { address: student, name, student_id, department, joined_at: env.timestamp });
        let ghost n = self@;
        assert(n.events =~= m.events);
        assert(n.balances =~= b.balances);
        assert(n.students =~= m.students.push(n.students.last()));
        proof {
            assert forall|x: Seq<char>| #[trigger] n.balance(x) == b.balance(x) by {
                assert(n.has_balance(x) == b.has_balance(x));
            }
            assert forall|i: int, j: int| 0 <= i < j < n.students.len() implies n.students[i].address != n.students[j].address by {
                if j == m.students.len() as int {
                    assert(n.students[i] == m.students[i]);
                }
            }
        }
        Ok(())
    }

    /// Stores an event under `id`, replacing any event stored there, with no
    /// participants yet.
    pub fn create_event(
        &mut self,
        env: &Invocation,
        organizer: Address,
        id: String,
        name: String,
        description: String,
        reward_amount: i128,
        max_participants: u32,
    ) -> (r: Result<(), WalletError>)
        requires
            old(self)@.wf(),
        ensures
            final(self)@.wf(),
            !env@.authorizes(organizer@) ==> r == Err::<(), WalletError>(WalletError::Unauthorized),
            env@.authorizes(organizer@) && old(self)@.admin != Some(organizer@) ==> r == Err::<(), WalletError>(
                WalletError::NotAdmin,
            ),
            r is Err ==> final(self)@ == old(self)@,
            env@.authorizes(organizer@) && old(self)@.admin == Some(organizer@) ==> {
                &&& r is Ok
                &&& final(self)@.admin == old(self)@.admin
                &&& final(self)@.students == old(self)@.students
                &&& final(self)@.balances == old(self)@.balances
                &&& final(self)@.has_event(id@)
                &&& final(self)@.event(id@) == (EventModel {
                    id: id@,
                    name: name@,
                    description: description@,
                    reward_amount,
                    organizer: organizer@,
                    max_participants,
                    participants: Seq::empty(),
                    is_active: true,
                })
                &&& forall|x: Seq<char>| x != id@ ==> (#[trigger] final(self)@.has_event(x)) == old(self)@.has_event(x)
                    && (final(self)@.has_event(x) ==> final(self)@.event(x) == old(self)@.event(x))
            },
    {
        if !env.is_authorized(&organizer) {
            return Err(WalletError::Unauthorized);
        }
        let is_admin = match &self.admin {
            Some(a) => *a == organizer,
            None => false,
        };
        if !is_admin {
            return Err(WalletError::NotAdmin);
        }
        let ghost m = self@;
        let found = self.find_event(&id);
        let event = Event {
            id,
            name,
            description,
            reward_amount,
            organizer,
            max_participants,
            participants: Vec::new(),
            is_active: true,
        };
        assert(event@.participants =~= Seq::<Seq<char>>::empty());
        match found {
            Some(i) => {
                self.events.set(i, event);
            },
            None => {
                self.events.push(event);
            },
        }
        let ghost n = self@;
        assert(n.students =~= m.students);
        assert(n.balances =~= m.balances);
        proof {
            let k: int = if found is Some { found->0 as int } else { m.events.len() as int };
            assert(n.events[k].id == id@);
            assert forall|i: int, j: int| 0 <= i < j < n.events.len() implies n.events[i].id != n.events[j].id by {
                if i == k {
                    if found is Some { assert(m.events[j].id != m.events[k].id); }
                } else if j == k {
                    if found is None { assert(n.events[i] == m.events[i]); }
                    else { assert(m.events[i].id != m.events[k].id); }
                } else {
                    assert(n.events[i] == m.events[i] && n.events[j] == m.events[j]);
                }
            }
            let t = n.event_index(id@);
            assert(t == k) by {
                if t < k { assert(n.events[t].id != n.events[k].id); }
                else if t > k { assert(n.events[k].id != n.events[t].id); }
            }
            assert forall|x: Seq<char>| x != id@ implies (#[trigger] n.has_event(x)) == m.has_event(x)
                && (n.has_event(x) ==> n.event(x) == m.event(x)) by {
                if m.has_event(x) {
                    let a = m.event_index(x);
                    assert(a != k);
                    assert(n.events[a] == m.events[a]);
                    let u = n.event_index(x);
                    assert(u == a) by {
                        if u < a { assert(n.events[u].id != n.events[a].id); }
                        else if u > a { assert(n.events[a].id != n.events[u].id); }
                    }
                }
                if n.has_event(x) {
                    let u = n.event_index(x);
                    assert(u != k);
                    assert(m.events[u].id == x);
                }
            }
        }
        Ok(())
    }
}


impl CampusWallet {
    /// Records `student`'s attendance at event `event_id` and credits the
    /// event's reward to the student's balance.
    pub fn attend_event(&mut self, env: &Invocation, student: Address, event_id: String) -> (r: Result<(), WalletError>)
        requires
            old(self)@.wf(),
            env@.authorizes(student@) && old(self)@.has_event(event_id@) && old(self)@.event(event_id@).is_active
                && !old(self)@.event(event_id@).participants.contains(student@)
                && old(self)@.event(event_id@).participants.len() < old(self)@.event(event_id@).max_participants
                ==> i128::MIN <= old(self)@.balance(student@) + old(self)@.event(event_id@).reward_amount <= i128::MAX,
        ensures
            final(self)@.wf(),
            r is Err ==> final(self)@ == old(self)@,
            r == if !env@.authorizes(student@) {
                Err(WalletError::Unauthorized)
            } else if !old(self)@.has_event(event_id@) {
                Err(WalletError::EventNotFound)
            } else if !old(self)@.event(event_id@).is_active {
                Err(WalletError::EventNotActive)
            } else if old(self)@.event(event_id@).participants.contains(student@) {
                Err(WalletError::AlreadyParticipated)
            } else if old(self)@.event(event_id@).participants.len() >= old(self)@.event(event_id@).max_participants {
                Err(WalletError::EventFull)
            } else {
                Ok(())
            },
            r is Ok ==> {
                let e = old(self)@.event(event_id@);
                &&& final(self)@.admin == old(self)@.admin
                &&& final(self)@.students == old(self)@.students
                &&& final(self)@.events == old(self)@.events.update(
                    old(self)@.event_index(event_id@),
                    EventModel { participants: e.participants.push(student@), ..e },
                )
                &&& forall|x: Seq<char>| #[trigger] final(self)@.balance(x) == if x == student@ {
                    (old(self)@.balance(student@) + e.reward_amount) as i128
                } else {
                    old(self)@.balance(x)
                }
            },
    {
        if !env.is_authorized(&student) {
            return Err(WalletError::Unauthorized);
        }
        let idx = match self.find_event(&event_id) {
            Some(i) => i,
            None => return Err(WalletError::EventNotFound),
        };
        if !self.events[idx].is_active {
            return Err(WalletError::EventNotActive);
        }
        if contains_address(&self.events[idx].participants, &student) {
            return Err(WalletError::AlreadyParticipated);
        }
        if self.events[idx].participants.len() >= self.events[idx].max_participants as usize {
            return Err(WalletError::EventFull);
        }
        let ghost m = self@;
        let current = self.balance_of(&student);
        let reward = self.events[idx].reward_amount;
        self.set_balance(&student, current + reward);
        let ghost b = self@;
        let mut event = self.events.remove(idx);
        event.participants.push(student);
        self.events.insert(idx, event);
        let ghost n = self@;
        let ghost e = m.event(event_id@);
        assert(event@.participants =~= e.participants.push(student@));
        assert(n.events =~= m.events.update(idx as int, EventModel { participants: e.participants.push(student@), ..e }));
        assert(n.students =~= m.students);
        assert(n.balances =~= b.balances);
        proof {
            assert forall|x: Seq<char>| #[trigger] n.balance(x) == b.balance(x) by {
                assert(n.has_balance(x) == b.has_balance(x));
            }
            assert forall|i: int, j: int| 0 <= i < j < n.events.len() implies n.events[i].id != n.events[j].id by {
                assert(n.events[i].id == m.events[i].id);
                assert(n.events[j].id == m.events[j].id);
            }
        }
        Ok(())
    }

    /// Moves `amount` points from `from` to `to`. The receiver's new balance is
    /// computed from the balance read before the sender is debited.
    pub fn transfer(&mut self, env: &Invocation, from: Address, to: Address, amount: i128) -> (r: Result<(), WalletError>)
        requires
            old(self)@.wf(),
            env@.authorizes(from@) && amount > 0 && old(self)@.balance(from@) >= amount ==> old(self)@.balance(to@)
                + amount <= i128::MAX,
        ensures
            final(self)@.wf(),
            r is Err ==> final(self)@ == old(self)@,
            r == if !env@.authorizes(from@) {
                Err(WalletError::Unauthorized)
            } else if amount <= 0 {
                Err(WalletError::InvalidAmount)
            } else if old(self)@.balance(from@) < amount {
                Err(WalletError::InsufficientBalance)
            } else {
                Ok(())
            },
            r is Ok ==> {
                &&& final(self)@.admin == old(self)@.admin
                &&& final(self)@.students == old(self)@.students
                &&& final(self)@.events == old(self)@.events
                &&& forall|x: Seq<char>| #[trigger] final(self)@.balance(x) == if x == to@ {
                    (old(self)@.balance(to@) + amount) as i128
                } else if x == from@ {
                    (old(self)@.balance(from@) - amount) as i128
                } else {
                    old(self)@.balance(x)
                }
            },
    {
        if !env.is_authorized(&from) {
            return Err(WalletError::Unauthorized);
        }
        if amount <= 0 {
            return Err(WalletError::InvalidAmount);
        }
        let from_balance = self.balance_of(&from);
        if from_balance < amount {
            return Err(WalletError::InsufficientBalance);
        }
        let to_balance = self.balance_of(&to);
        self.set_balance(&from, from_balance - amount);
        self.set_balance(&to, to_balance + amount);
        Ok(())
    }

    /// The points held by `student`; zero where nothing is stored.
    pub fn get_balance(&self, student: Address) -> (r: Result<i128, WalletError>)
        requires
            self@.wf(),
        ensures
            r == Ok::<i128, WalletError>(self@.balance(student@)),
    {
        Ok(self.balance_of(&student))
    }

    /// The record of `student`, if registered.
    pub fn get_student(&self, student: Address) -> (r: Option<Student>)
        requires
            self@.wf(),
        ensures
            r is Some <==> self@.has_student(student@),
            r is Some ==> r->0@ == self@.student(student@),
    {
        match self.find_student(&student) {
            Some(i) => {
                let s = &self.students[i];
                Some(
                    Student {
                        address: s.address.clone(),
                        name: s.name.clone(),
                        student_id: s.student_id.clone(),
                        department: s.department.clone(),
                        joined_at: s.joined_at,
                    },
                )
            },
            None => None,
        }
    }
}


impl CampusWallet {
    /// Whether the store meets its invariant.
    fn check_wf(&self) -> (r: bool)
        ensures
            r == self@.wf(),
    {
        let ghost m = self@;
        let n = self.students.len();
        let mut i: usize = 0;
        while i < n
            invariant
                m == self@,
                n == m.students.len(),
                i <= n,
                forall|a: int, b: int| 0 <= a < i && a < b < n ==> m.students[a].address != m.students[b].address,
            decreases n - i,
        {
            let mut j: usize = i + 1;
            while j < n
                invariant
                    m == self@,
                    n == m.students.len(),
                    i < n,
                    i + 1 <= j <= n,
                    forall|b: int| i < b < j ==> m.students[i as int].address != m.students[b].address,
                decreases n - j,
            {
                if self.students[i].address == self.students[j].address {
                    assert(m.students[i as int].address == m.students[j as int].address);
                    return false;
                }
                j += 1;
            }
            i += 1;
        }
        let n = self.events.len();
        let mut i: usize = 0;
        while i < n
            invariant
                m == self@,
                n == m.events.len(),
                i <= n,
                forall|a: int, b: int| 0 <= a < i && a < b < n ==> m.events[a].id != m.events[b].id,
            decreases n - i,
        {
            let mut j: usize = i + 1;
            while j < n
                invariant
                    m == self@,
                    n == m.events.len(),
                    i < n,
                    i + 1 <= j <= n,
                    forall|b: int| i < b < j ==> m.events[i as int].id != m.events[b].id,
                decreases n - j,
            {
                if self.events[i].id == self.events[j].id {
                    assert(m.events[i as int].id == m.events[j as int].id);
                    return false;
                }
                j += 1;
            }
            i += 1;
        }
        let n = self.balances.len();
        let mut i: usize = 0;
        while i < n
            invariant
                m == self@,
                n == m.balances.len(),
                i <= n,
                forall|a: int, b: int| 0 <= a < i && a < b < n ==> m.balances[a].0 != m.balances[b].0,
            decreases n - i,
        {
            let mut j: usize = i + 1;
            while j < n
                invariant
                    m == self@,
                    n == m.balances.len(),
                    i < n,
                    i + 1 <= j <= n,
                    forall|b: int| i < b < j ==> m.balances[i as int].0 != m.balances[b].0,
                decreases n - j,
            {
                if self.balances[i].owner == self.balances[j].owner {
                    assert(m.balances[i as int].0 == m.balances[j as int].0);
                    return false;
                }
                j += 1;
            }
            i += 1;
        }
        true
    }

    /// Rebuilds a store from persisted records; `None` where a key is stored twice.
    pub fn restore(
        admin: Option<Address>,
        students: Vec<Student>,
        events: Vec<Event>,
        balances: Vec<BalanceEntry>,
    ) -> (r: Option<CampusWallet>)
        ensures
            ({
                let m = WalletModel {
                    admin: opt_view(admin),
                    students: students@.map_values(|s: Student| s@),
                    events: events@.map_values(|e: Event| e@),
                    balances: balances@.map_values(|b: BalanceEntry| (b.owner@, b.amount)),
                };
                &&& r is Some <==> m.wf()
                &&& r is Some ==> r->0@ == m
            }),
    {
        let w = CampusWallet { admin, students, events, balances };
        if w.check_wf() {
            Some(w)
        } else {
            None
        }
    }

    /// The event stored under `id`, if any.
    pub fn get_event(&self, id: String) -> (r: Option<Event>)
        requires
            self@.wf(),
        ensures
            r is Some <==> self@.has_event(id@),
            r is Some ==> r->0@ == self@.event(id@),
    {
        match self.find_event(&id) {
            Some(i) => {
                let e = &self.events[i];
                Some(
                    Event {
                        id: e.id.clone(),
                        name: e.name.clone(),
                        description: e.description.clone(),
                        reward_amount: e.reward_amount,
                        organizer: e.organizer.clone(),
                        max_participants: e.max_participants,
                        participants: copy_addresses(&e.participants),
                        is_active: e.is_active,
                    },
                )
            },
            None => None,
        }
    }
}


impl WalletModel {
    /// Whether a record is stored under `key`.
    pub open spec fn holds(self, key: DataKey) -> bool {
        match key {
            DataKey::Admin => self.admin is Some,
            DataKey::Balance(who) => self.has_balance(who@),
            DataKey::Student(who) => self.has_student(who@),
            DataKey::Event(id) => self.has_event(id@),
        }
    }
}

impl CampusWallet {
    /// Whether a record is stored under `key`.
    pub fn has(&self, key: &DataKey) -> (r: bool)
        requires
            self@.wf(),
        ensures
            r == self@.holds(*key),
    {
        match key {
            DataKey::Admin => self.admin.is_some(),
            DataKey::Balance(who) => self.find_balance(who).is_some(),
            DataKey::Student(who) => self.find_student(who).is_some(),
            DataKey::Event(id) => self.find_event(id).is_some(),
        }
    }
}

} // verus!
