//! Lending i2c-dev access to the TOH I²C bus to one D-Bus client at a time.
//!
//! Access is lent to root only, and only the client that borrowed it may return it. A loan
//! whose borrower has left the bus has expired: the access can be lent again, and where the
//! expired loan asked for power down, a refused borrower gets the power switched off.
//!
//! The decisions are made here; the D-Bus calls, the power switching and the opening of the
//! device are done by the caller, which hands in what they told.

use crate::strmap::{compare_keys, KeyOrder};
use vstd::prelude::*;

verus! {

/// Lent out i2c-dev access.
#[derive(Debug)]
pub struct Loan {
    /// D-Bus unique name of the client that borrowed the access.
    pub owner: String,
    /// Whether to power down when the access is returned.
    pub power_down: bool,
}

/// Mathematical form of a [`Loan`].
pub struct LoanModel {
    pub owner: Seq<char>,
    pub power_down: bool,
}

impl Loan {
    /// The mathematical form of the loan.
    pub open spec fn model(&self) -> LoanModel {
        LoanModel { owner: self.owner@, power_down: self.power_down }
    }
}

/// Why access was not lent.
#[derive(Debug, Clone, Copy, PartialEq, Eq)]
pub enum BorrowRefusal {
    /// Access is lent to a client that is still on the bus.
    AlreadyBorrowed,
}

/// Why access was not taken back.
#[derive(Debug, Clone, Copy, PartialEq, Eq)]
pub enum ReturnRefusal {
    /// The request had no sender.
    NoSender,
    /// There is no loan of the sender to return.
    NoLoan,
}

/// What to do with a borrow request of a client, once it is known who the client runs as.
#[derive(Debug, Clone, Copy, PartialEq, Eq)]
pub enum LendDecision {
    /// Power up, open the device and lend it.
    Grant,
    /// Refuse access, first switching power off where `power_off` is set.
    Deny { power_off: bool },
}

/// The loan state after a return request of `sender` (`None` where the request had no sender)
/// under the loan `loan`, and the answer: whether to power down, or why nothing was returned.
/// A request of a client other than the borrower is answered as if there were no loan.
pub open spec fn return_outcome(loan: Option<LoanModel>, sender: Option<Seq<char>>) -> (
    Option<LoanModel>,
    Result<bool, ReturnRefusal>,
) {
    match loan {
        None => (None, Err(ReturnRefusal::NoLoan)),
        Some(l) => match sender {
            None => (Some(l), Err(ReturnRefusal::NoSender)),
            Some(s) => if s == l.owner {
                (None, Ok(l.power_down))
            } else {
                (Some(l), Err(ReturnRefusal::NoLoan))
            },
        },
    }
}

/// What to do with a borrow request of a client running as the user `uid`, where
/// `pending_power_down` tells whether an expired loan asked for power down: only root is
/// granted access.
pub open spec fn lend_decision_spec(uid: u32, pending_power_down: bool) -> LendDecision {
    if uid == 0 {
        LendDecision::Grant
    } else {
        LendDecision::Deny { power_off: pending_power_down }
    }
}

/// Decides on a borrow request of a client running as the user `uid`; `pending_power_down`
/// tells whether an expired loan asked for power down.
pub fn lend_decision(uid: u32, pending_power_down: bool) -> (res: LendDecision)
    ensures
        res == lend_decision_spec(uid, pending_power_down),
{
    if uid == 0 {
        LendDecision::Grant
    } else {
        LendDecision::Deny { power_off: pending_power_down }
    }
}

/// The i2c-dev access loan of the daemon: at most one at a time.
#[derive(Debug)]
pub struct Loans {
    pub loan: Option<Loan>,
}

impl Loans {
    /// The current loan, if any.
    pub open spec fn model(&self) -> Option<LoanModel> {
        match self.loan {
            Some(l) => Some(l.model()),
            None => None,
        }
    }

    /// No access lent.
    pub fn new() -> (res: Self)
        ensures
            res.model() is None,
    {
        Loans { loan: None }
    }

    /// The D-Bus unique name of the borrower, if access is lent.
    pub fn holder(&self) -> (res: Option<&str>)
        ensures
            match self.model() {
                Some(l) => res matches Some(h) && h@ == l.owner,
                None => res is None,
            },
    {
        match &self.loan {
            Some(l) => Some(l.owner.as_str()),
            None => None,
        }
    }

    /// First step of a borrow request: `holder_present` tells whether the borrower of the current
    /// loan, if any, is still on the bus. A loan whose borrower is there refuses the request and
    /// stays; one whose borrower is gone has expired and is dropped. The result tells whether
    /// the dropped loan asked for power down.
    pub fn check_held(&mut self, holder_present: bool) -> (res: Result<bool, BorrowRefusal>)
        ensures
            match old(self).model() {
                None => res == Ok::<bool, BorrowRefusal>(false) && final(self).model() is None,
                Some(l) => if holder_present {
                    res == Err::<bool, BorrowRefusal>(BorrowRefusal::AlreadyBorrowed)
                        && final(self).model() == Some(l)
                } else {
                    res == Ok::<bool, BorrowRefusal>(l.power_down) && final(self).model() is None
                },
            },
    {
        match &self.loan {
            None => Ok(false),
            Some(l) => {
                if holder_present {
                    Err(BorrowRefusal::AlreadyBorrowed)
                } else {
                    let power_down = l.power_down;
                    self.loan = None;
                    Ok(power_down)
                }
            },
        }
    }

    /// Records that access was lent to the client `owner`, to power down on return where
    /// `power_down` is set.
    pub fn lend(&mut self, owner: String, power_down: bool)
        ensures
            final(self).model() == Some(LoanModel { owner: owner@, power_down }),
    {
        self.loan = Some(Loan { owner, power_down });
    }

    /// A return request of `sender` (`None` where the request had no sender): where `sender`
    /// borrowed the access, the loan ends and the result tells whether to power down.
    pub fn give_back(&mut self, sender: Option<&str>) -> (res: Result<bool, ReturnRefusal>)
        ensures
            (final(self).model(), res) == return_outcome(
                old(self).model(),
                match sender {
                    Some(s) => Some(s@),
                    None => None,
                },
            ),
    {
        match &self.loan {
            None => Err(ReturnRefusal::NoLoan),
            Some(l) => match sender {
                None => Err(ReturnRefusal::NoSender),
                Some(s) => {
                    if compare_keys(s, l.owner.as_str()) == KeyOrder::Equal {
                        let power_down = l.power_down;
                        self.loan = None;
                        Ok(power_down)
                    } else {
                        Err(ReturnRefusal::NoLoan)
                    }
                },
            },
        }
    }
}

/// Only root is lent access: a client running as any other user is refused.
pub proof fn lemma_only_root_borrows(uid: u32, pending_power_down: bool)
    ensures
        (lend_decision_spec(uid, pending_power_down) == LendDecision::Grant) == (uid == 0),
{
}

/// Only the borrower may return access: a return request of anyone else, or without sender,
/// is refused and leaves the loan as it was; the borrower's ends the loan and tells whether to
/// power down.
pub proof fn lemma_only_borrower_returns(l: LoanModel, sender: Option<Seq<char>>)
    ensures
        return_outcome(Some(l), sender).1 is Ok <==> sender == Some(l.owner),
        sender != Some(l.owner) ==> return_outcome(Some(l), sender).0 == Some(l),
        sender == Some(l.owner) ==> return_outcome(Some(l), sender) == (
            None::<LoanModel>,
            Ok::<bool, ReturnRefusal>(l.power_down),
        ),
{
}

/// Access lent with a power-down flag and returned by its borrower ends the loan and powers
/// down exactly when the flag is set.
pub proof fn lemma_lend_then_return(owner: Seq<char>, power_down: bool)
    ensures
        return_outcome(Some(LoanModel { owner, power_down }), Some(owner)) == (
            None::<LoanModel>,
            Ok::<bool, ReturnRefusal>(power_down),
        ),
{
}

} // verus!
