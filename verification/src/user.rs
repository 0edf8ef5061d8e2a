//! The user as the read operations return it.

use vstd::prelude::*;

use crate::types::UserGroup;

verus! {

/// A user in full: everything a profile read returns.
#[derive(Debug, PartialEq)]
pub struct Full {
    pub username: String,
    pub group: UserGroup,
    pub registered: i64,
}

/// Mathematical form of [`Full`].
#[verifier::ext_equal]
pub struct FullModel {
    pub username: Seq<char>,
    pub group: UserGroup,
    pub registered: i64,
}

impl DeepView for Full {
    type V = FullModel;

    open spec fn deep_view(&self) -> FullModel {
        FullModel { username: self.username@, group: self.group, registered: self.registered }
    }
}

/// A user reduced to its username, as referenced from package objects.
#[derive(Debug, PartialEq)]
pub struct Short {
    pub username: String,
}

/// Mathematical form of [`Short`].
#[verifier::ext_equal]
pub struct ShortModel {
    pub username: Seq<char>,
}

impl DeepView for Short {
    type V = ShortModel;

    open spec fn deep_view(&self) -> ShortModel {
        ShortModel { username: self.username@ }
    }
}

impl Clone for Short {
    fn clone(&self) -> (r: Self)
        ensures
            r == *self,
    {
        Short { username: self.username.clone() }
    }
}

} // verus!
