use campus_dao::invocation::Invocation;
use campus_dao::wallet::{BalanceEntry, CampusWallet, DataKey, Event, WalletError};

fn s(x: &str) -> String {
    x.to_string()
}

fn as_(who: &str, t: u64) -> Invocation {
    Invocation::new(t, vec![s(who)])
}

fn wallet_with_event(reward: i128, max: u32) -> CampusWallet {
    let mut w = CampusWallet::new();
    w.initialize(s("ADM")).unwrap();
    w.create_event(&as_("ADM", 10), s("ADM"), s("e1"), s("Hack"), s("night"), reward, max).unwrap();
    w
}

#[test]
fn register_student_starts_at_zero() {
    let mut w = CampusWallet::new();
    w.initialize(s("ADM")).unwrap();
    assert_eq!(w.register_student(&as_("S", 5), s("S"), s("Sam"), s("42"), s("CS")), Ok(()));
    let st = w.get_student(s("S")).unwrap();
    assert_eq!(st.name, s("Sam"));
    assert_eq!(st.student_id, s("42"));
    assert_eq!(st.department, s("CS"));
    assert_eq!(st.joined_at, 5);
    assert_eq!(w.get_balance(s("S")), Ok(0));
    assert_eq!(
        w.register_student(&as_("S", 6), s("S"), s("Sam"), s("42"), s("CS")),
        Err(WalletError::AlreadyRegistered)
    );
    assert!(w.get_student(s("T")).is_none());
}

#[test]
fn register_without_authorisation_fails() {
    let mut w = CampusWallet::new();
    let r = w.register_student(&as_("X", 5), s("S"), s("Sam"), s("42"), s("CS"));
    assert_eq!(r, Err(WalletError::Unauthorized));
    assert!(w.get_student(s("S")).is_none());
}

#[test]
fn only_admin_creates_events() {
    let mut w = wallet_with_event(10, 2);
    let r = w.create_event(&as_("S", 10), s("S"), s("e2"), s("x"), s("y"), 5, 1);
    assert_eq!(r, Err(WalletError::NotAdmin));
    assert_eq!(w.attend_event(&as_("S", 11), s("S"), s("e2")), Err(WalletError::EventNotFound));
}

#[test]
fn attending_credits_reward() {
    let mut w = wallet_with_event(25, 2);
    assert_eq!(w.attend_event(&as_("S", 11), s("S"), s("e1")), Ok(()));
    assert_eq!(w.get_balance(s("S")), Ok(25));
    assert_eq!(w.attend_event(&as_("S", 12), s("S"), s("e1")), Err(WalletError::AlreadyParticipated));
    assert_eq!(w.get_balance(s("S")), Ok(25));
}

#[test]
fn full_event_rejects_attendance() {
    let mut w = wallet_with_event(5, 1);
    w.attend_event(&as_("S", 11), s("S"), s("e1")).unwrap();
    assert_eq!(w.attend_event(&as_("T", 11), s("T"), s("e1")), Err(WalletError::EventFull));
    assert_eq!(w.get_balance(s("T")), Ok(0));
}

#[test]
fn transfer_moves_points() {
    let mut w = wallet_with_event(30, 5);
    w.attend_event(&as_("S", 11), s("S"), s("e1")).unwrap();
    assert_eq!(w.transfer(&as_("S", 12), s("S"), s("T"), 12), Ok(()));
    assert_eq!(w.get_balance(s("S")), Ok(18));
    assert_eq!(w.get_balance(s("T")), Ok(12));
    assert_eq!(w.transfer(&as_("S", 13), s("S"), s("T"), 19), Err(WalletError::InsufficientBalance));
    assert_eq!(w.transfer(&as_("S", 13), s("S"), s("T"), 0), Err(WalletError::InvalidAmount));
    assert_eq!(w.transfer(&as_("S", 13), s("S"), s("T"), -3), Err(WalletError::InvalidAmount));
    assert_eq!(w.transfer(&as_("T", 13), s("S"), s("T"), 1), Err(WalletError::Unauthorized));
    assert_eq!(w.get_balance(s("S")), Ok(18));
}

#[test]
fn transfer_to_self_credits_from_earlier_read() {
    let mut w = wallet_with_event(10, 5);
    w.attend_event(&as_("S", 11), s("S"), s("e1")).unwrap();
    assert_eq!(w.transfer(&as_("S", 12), s("S"), s("S"), 4), Ok(()));
    assert_eq!(w.get_balance(s("S")), Ok(14));
}

#[test]
fn registering_resets_balance() {
    let mut w = wallet_with_event(10, 5);
    w.attend_event(&as_("S", 11), s("S"), s("e1")).unwrap();
    w.register_student(&as_("S", 12), s("S"), s("Sam"), s("1"), s("EE")).unwrap();
    assert_eq!(w.get_balance(s("S")), Ok(0));
}

#[test]
fn recreating_event_replaces_it() {
    let mut w = wallet_with_event(10, 1);
    w.attend_event(&as_("S", 11), s("S"), s("e1")).unwrap();
    w.create_event(&as_("ADM", 12), s("ADM"), s("e1"), s("Hack2"), s("again"), 3, 1).unwrap();
    assert_eq!(w.attend_event(&as_("S", 13), s("S"), s("e1")), Ok(()));
    assert_eq!(w.get_balance(s("S")), Ok(13));
}

#[test]
fn wallet_error_codes() {
    assert_eq!(WalletError::AlreadyRegistered.contract_code(), Some(1001));
    assert_eq!(WalletError::NotAdmin.contract_code(), Some(1002));
    assert_eq!(WalletError::EventNotFound.contract_code(), Some(1003));
    assert_eq!(WalletError::EventNotActive.contract_code(), Some(1004));
    assert_eq!(WalletError::AlreadyParticipated.contract_code(), Some(1005));
    assert_eq!(WalletError::EventFull.contract_code(), Some(1006));
    assert_eq!(WalletError::InvalidAmount.contract_code(), Some(1007));
    assert_eq!(WalletError::InsufficientBalance.contract_code(), Some(1008));
    assert_eq!(WalletError::Unauthorized.contract_code(), None);
}

#[test]
fn event_lookup_and_keys() {
    let mut w = wallet_with_event(7, 3);
    w.attend_event(&as_("S", 11), s("S"), s("e1")).unwrap();
    let e = w.get_event(s("e1")).unwrap();
    assert_eq!(e.participants, vec![s("S")]);
    assert_eq!(e.reward_amount, 7);
    assert_eq!(e.max_participants, 3);
    assert!(e.is_active);
    assert!(w.get_event(s("e2")).is_none());
    assert!(w.has(&DataKey::Event(s("e1"))));
    assert!(w.has(&DataKey::Balance(s("S"))));
    assert!(!w.has(&DataKey::Student(s("S"))));
    assert!(w.has(&DataKey::Admin));
}

#[test]
fn restore_rejects_repeated_keys() {
    let b = |o: &str, a: i128| BalanceEntry { owner: s(o), amount: a };
    let w = CampusWallet::restore(None, vec![], vec![], vec![b("S", 5), b("T", 1)]).unwrap();
    assert_eq!(w.get_balance(s("S")), Ok(5));
    assert_eq!(w.get_balance(s("U")), Ok(0));
    assert!(CampusWallet::restore(None, vec![], vec![], vec![b("S", 5), b("S", 1)]).is_none());
}

#[test]
fn inactive_event_rejects_attendance() {
    let ev = Event {
        id: s("e1"),
        name: s("n"),
        description: s("d"),
        reward_amount: 1,
        organizer: s("ADM"),
        max_participants: 9,
        participants: vec![],
        is_active: false,
    };
    let mut w = CampusWallet::restore(Some(s("ADM")), vec![], vec![ev], vec![]).unwrap();
    assert_eq!(w.attend_event(&as_("S", 1), s("S"), s("e1")), Err(WalletError::EventNotActive));
}
