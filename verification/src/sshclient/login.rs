//! The choice of an identity: the identities that the agent lists are tried
//! in the order in which it lists them, until one is accepted.

use vstd::prelude::*;

verus! {

/// The index of the first identity that the host accepts, where
/// `accepted[i]` says whether it accepts the identity at `i`.
pub open spec fn first_accepted(accepted: Seq<bool>) -> Option<int>
    decreases accepted.len(),
{
    if accepted.len() == 0 {
        None
    } else if accepted[0] {
        Some(0)
    } else {
        match first_accepted(accepted.drop_first()) {
            Some(index) => Some(index + 1),
            None => None,
        }
    }
}

/// The identities of an agent that are still to be tried.
#[derive(Clone, Copy, Debug, PartialEq, Eq, Structural)]
pub struct Login {
    identities: usize,
    refused: usize,
}

/// The mathematical model of a [`Login`]: how many identities the agent
/// lists, and how many of them, from the first on, were refused.
pub struct LoginView {
    pub identities: int,
    pub refused: int,
}

impl View for Login {
    type V = LoginView;

    closed spec fn view(&self) -> LoginView {
        LoginView { identities: self.identities as int, refused: self.refused as int }
    }
}

impl Login {
    /// A login with the given number of identities, none of them tried.
    pub fn new(identities: usize) -> (r: Login)
        ensures
            r@ == (LoginView { identities: identities as int, refused: 0 }),
    {
        Login { identities, refused: 0 }
    }

    /// The identity to try now: the first that was not refused. Nothing,
    /// once every identity was refused.
    pub fn current(&self) -> (r: Option<usize>)
        ensures
            r == (if self@.refused < self@.identities {
                Some(self@.refused as usize)
            } else {
                None
            }),
    {
        if self.refused < self.identities {
            Some(self.refused)
        } else {
            None
        }
    }

    /// Takes note that the identity tried was refused.
    pub fn refuse(&mut self)
        ensures
            final(self)@ == (LoginView {
                refused: if old(self)@.refused < old(self)@.identities {
                    old(self)@.refused + 1
                } else {
                    old(self)@.refused
                },
                ..old(self)@
            }),
    {
        if self.refused < self.identities {
            self.refused = self.refused + 1;
        }
    }
}

/// The identities are tried in listed order and the first one accepted
/// ends the login: as long as the identities tried were refused, the one to
/// try next is the one after them, and once the host has refused them all
/// there is none left.
pub proof fn lemma_listed_order(accepted: Seq<bool>, tried: int)
    requires
        0 <= tried <= accepted.len(),
        forall|i: int| 0 <= i < tried ==> !accepted[i],
    ensures
        tried < accepted.len() && accepted[tried] ==> first_accepted(accepted) == Some(tried),
        tried == accepted.len() ==> first_accepted(accepted) is None,
        first_accepted(accepted) matches Some(index) ==> tried <= index < accepted.len()
            && accepted[index],
    decreases accepted.len(),
{
    if accepted.len() > 0 {
        let rest = accepted.drop_first();
        if tried > 0 {
            assert forall|i: int| 0 <= i < tried - 1 implies !rest[i] by {
                assert(rest[i] == accepted[i + 1]);
            }
            lemma_listed_order(rest, tried - 1);
            if tried < accepted.len() {
                assert(rest[tried - 1] == accepted[tried]);
            }
            match first_accepted(rest) {
                Some(index) => {
                    assert(rest[index] == accepted[index + 1]);
                },
                None => {},
            }
        } else if !accepted[0] {
            lemma_listed_order(rest, 0);
            match first_accepted(rest) {
                Some(index) => {
                    assert(rest[index] == accepted[index + 1]);
                },
                None => {},
            }
        }
    }
}

} // verus!
