use vstd::prelude::*;

verus! {

/// A ceremony participant, tagged by role and identified by an opaque
/// identity string. Two participants are the same participant exactly when
/// both the role and the identity agree.
pub enum Participant {
    Contributor(String),
    Verifier(String),
}

impl Participant {
    /// True of participants in the contributor role.
    pub open spec fn is_contributor(&self) -> bool {
        self is Contributor
    }

    /// True of participants in the verifier role.
    pub open spec fn is_verifier(&self) -> bool {
        self is Verifier
    }

    /// The identity string, as a sequence of characters.
    pub open spec fn name(&self) -> Seq<char> {
        match self {
            Participant::Contributor(id) => id@,
            Participant::Verifier(id) => id@,
        }
    }

    /// The full identity: role together with the identity string. Membership
    /// in every queue and round set is decided by this key.
    pub open spec fn key(&self) -> (bool, Seq<char>) {
        (self.is_contributor(), self.name())
    }
}

impl Clone for Participant {
    /// The copy carries the same role and the same identity.
    fn clone(&self) -> (r: Self)
        ensures
            r == *self,
    {
        match self {
            Participant::Contributor(id) => Participant::Contributor(id.clone()),
            Participant::Verifier(id) => Participant::Verifier(id.clone()),
        }
    }
}

impl PartialEq for Participant {
    fn eq(&self, other: &Self) -> (r: bool) {
        match (self, other) {
            (Participant::Contributor(a), Participant::Contributor(b)) => *a == *b,
            (Participant::Verifier(a), Participant::Verifier(b)) => *a == *b,
            _ => false,
        }
    }
}

impl vstd::std_specs::cmp::PartialEqSpecImpl for Participant {
    open spec fn obeys_eq_spec() -> bool {
        true
    }

    open spec fn eq_spec(&self, other: &Self) -> bool {
        self.key() == other.key()
    }
}

} // verus!
