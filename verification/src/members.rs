use vstd::prelude::*;

verus! {

/// The fields of a member before the store has assigned it an identity.
#[derive(Debug, Clone)]
pub struct NewMember {
    pub name: String,
    pub email: String,
    pub privilege: bool,
    pub borrowed: i32,
}

/// A member record. `borrowed` counts the loans currently open for the
/// member; the loan lifecycle engine is the only writer of that counter once
/// the member exists.
#[derive(Debug, Clone)]
pub struct Member {
    pub member_id: u128,
    pub name: String,
    pub email: String,
    pub borrowed: i32,
    pub privilege: bool,
}

} // verus!
