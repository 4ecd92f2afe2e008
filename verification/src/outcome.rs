//! What a statement comes to before anything is changed.
use vstd::prelude::*;
use vstd::string::*;

verus! {

/// Whether a statement has anything to do.
pub enum Check {
    /// There is nothing to do, and this is the answer.
    Done(String),
    /// The statement goes ahead; this text goes to the write-ahead log first.
    Go(String),
}

/// What a [`Check`] says.
pub enum CheckView {
    Done(Seq<char>),
    Go(Seq<char>),
}

impl View for Check {
    type V = CheckView;

    open spec fn view(&self) -> CheckView {
        match self {
            Check::Done(m) => CheckView::Done(m@),
            Check::Go(l) => CheckView::Go(l@),
        }
    }
}

/// The check or the error of a result.
pub open spec fn checked(r: Result<Check, String>) -> Result<CheckView, Seq<char>> {
    match r {
        Ok(c) => Ok(c@),
        Err(e) => Err(e@),
    }
}

/// The text or the error of a result.
pub open spec fn answered(r: Result<String, String>) -> Result<Seq<char>, Seq<char>> {
    match r {
        Ok(m) => Ok(m@),
        Err(e) => Err(e@),
    }
}

} // verus!
