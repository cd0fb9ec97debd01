//! A record of one view subscription, as bookkeeping metadata.

use vstd::prelude::*;

verus! {

/// One registered view subscription. Timestamps are seconds since the
/// Unix epoch; the wall clock that produces them lives outside the library.
#[derive(Debug)]
pub struct Subscription {
    pub id: i32,
    pub name: String,
    pub topic: String,
    pub status: String,
    pub created_at: i64,
    pub updated_at: i64,
}

impl Subscription {
    /// Builds a subscription record from its fields.
    pub fn new(
        id: i32,
        name: String,
        topic: String,
        status: String,
        created_at: i64,
        updated_at: i64,
    ) -> (r: Self)
        ensures
            r.id == id,
            r.name@ == name@,
            r.topic@ == topic@,
            r.status@ == status@,
            r.created_at == created_at,
            r.updated_at == updated_at,
    {
        Subscription { id, name, topic, status, created_at, updated_at }
    }
}

} // verus!
