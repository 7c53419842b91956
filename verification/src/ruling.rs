use vstd::prelude::*;
use crate::time::Date;

verus! {

/// A published rules clarification for an oracle card.
#[derive(Debug, PartialEq, Eq, Hash)]
pub struct Ruling {
    pub published_at: Date,
    pub comment: String,
}

impl Clone for Ruling {
    fn clone(&self) -> (res: Ruling)
        ensures
            res.published_at == self.published_at,
            res.comment@ == self.comment@,
    {
        Ruling { published_at: self.published_at, comment: self.comment.clone() }
    }
}

} // verus!
