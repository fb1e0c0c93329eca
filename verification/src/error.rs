//! The errors that the contract answers a refused request with.

use vstd::prelude::*;

verus! {

/// Why a request was refused. A refused request changes nothing.
#[derive(Debug, Clone, PartialEq, Eq)]
pub enum CustomError {
    /// An error of the chain's standard library (an invalid address), with
    /// its message.
    Std(String),
    Unauthorized {},
    InvalidInput {},
    UnacceptableToken {},
    NoReward {},
    NotEnoughReward {},
    NotEnoughStake {},
    NotCreatedUnstaking {},
    StillLocked {},
    Disabled {},
    Map2ListFailed {},
}

/// The mathematical view of a [`CustomError`].
pub enum ErrorView {
    Std(Seq<char>),
    Unauthorized,
    InvalidInput,
    UnacceptableToken,
    NoReward,
    NotEnoughReward,
    NotEnoughStake,
    NotCreatedUnstaking,
    StillLocked,
    Disabled,
    Map2ListFailed,
}

impl View for CustomError {
    type V = ErrorView;

    open spec fn view(&self) -> ErrorView {
        match self {
            CustomError::Std(m) => ErrorView::Std(m@),
            CustomError::Unauthorized {} => ErrorView::Unauthorized,
            CustomError::InvalidInput {} => ErrorView::InvalidInput,
            CustomError::UnacceptableToken {} => ErrorView::UnacceptableToken,
            CustomError::NoReward {} => ErrorView::NoReward,
            CustomError::NotEnoughReward {} => ErrorView::NotEnoughReward,
            CustomError::NotEnoughStake {} => ErrorView::NotEnoughStake,
            CustomError::NotCreatedUnstaking {} => ErrorView::NotCreatedUnstaking,
            CustomError::StillLocked {} => ErrorView::StillLocked,
            CustomError::Disabled {} => ErrorView::Disabled,
            CustomError::Map2ListFailed {} => ErrorView::Map2ListFailed,
        }
    }
}

} // verus!
