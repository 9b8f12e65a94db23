use vstd::prelude::*;

verus! {

/// An identity that may act on the stores (an account's public key in text form).
pub type Address = String;

/// What the host tells the engine about the current invocation: the ledger
/// clock, read once, and the identities whose authorisation the invocation carries.
pub struct Invocation {
    pub timestamp: u64,
    pub signers: Vec<Address>,
}

/// Mathematical view of an [`Invocation`].
pub struct InvocationModel {
    pub timestamp: u64,
    pub signers: Seq<Seq<char>>,
}

impl InvocationModel {
    /// The invocation carries proof of control for `who`.
    pub open spec fn authorizes(self, who: Seq<char>) -> bool {
        self.signers.contains(who)
    }
}

impl View for Invocation {
    type V = InvocationModel;

    open spec fn view(&self) -> InvocationModel {
        InvocationModel {
            timestamp: self.timestamp,
            signers: self.signers@.map_values(|s: String| s@),
        }
    }
}

/// View of an optional identity.
pub open spec fn opt_view(a: Option<String>) -> Option<Seq<char>> {
    match a {
        Some(s) => Some(s@),
        None => None,
    }
}

/// Linear search of `who` in a list of identities.
pub fn contains_address(list: &Vec<Address>, who: &Address) -> (r: bool)
    ensures
        r == list@.map_values(|s: String| s@).contains(who@),
{
    let ghost ids = list@.map_values(|s: String| s@);
    let mut i: usize = 0;
    while i < list.len()
        invariant
            i <= list@.len(),
            ids == list@.map_values(|s: String| s@),
            forall|j: int| 0 <= j < i ==> ids[j] != who@,
        decreases list@.len() - i,
    {
        if list[i] == *who {
            assert(ids[i as int] == who@);
            return true;
        }
        i += 1;
    }
    proof {
        if ids.contains(who@) {
            let k = choose|k: int| 0 <= k < ids.len() && ids[k] == who@;
            assert(ids[k] != who@);
        }
    }
    false
}

/// A copy of a list of identities, element by element.
pub fn copy_addresses(list: &Vec<Address>) -> (r: Vec<Address>)
    ensures
        r@.map_values(|s: String| s@) == list@.map_values(|s: String| s@),
{
    let mut out: Vec<Address> = Vec::new();
    let mut i: usize = 0;
    while i < list.len()
        invariant
            i <= list@.len(),
            out@.len() == i,
            forall|j: int| 0 <= j < i ==> out@[j]@ == list@[j]@,
        decreases list@.len() - i,
    {
        out.push(list[i].clone());
        i += 1;
    }
    assert(out@.map_values(|s: String| s@) =~= list@.map_values(|s: String| s@));
    out
}

impl Invocation {
    /// Builds the context of an invocation at `timestamp` authorised by `signers`.
    pub fn new(timestamp: u64, signers: Vec<Address>) -> (r: Invocation)
        ensures
            r.timestamp == timestamp,
            r.signers@ == signers@,
    {
        Invocation { timestamp, signers }
    }

    /// Whether the invocation carries proof of control for `who`.
    pub fn is_authorized(&self, who: &Address) -> (r: bool)
        ensures
            r == self@.authorizes(who@),
    {
        contains_address(&self.signers, who)
    }
}

} // verus!
