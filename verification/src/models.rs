//! Plain data models shared between the engine and its callers.

use vstd::prelude::*;

verus! {

/// A chat-group member as handed in by the transport layer. The engine
/// derives the stored display names from the optional fields.
#[derive(Debug, Clone)]
pub struct GroupMember {
    pub uid: String,
    pub uin: u32,
    pub member_name: Option<String>,
    pub member_card: Option<String>,
}

impl GroupMember {
    /// Account-level display name; empty when the transport supplied none.
    pub open spec fn nickname_view(&self) -> Seq<char> {
        match self.member_name {
            Some(s) => s@,
            None => Seq::empty(),
        }
    }

    /// Group display name; falls back to the account-level name.
    pub open spec fn group_nickname_view(&self) -> Seq<char> {
        match self.member_card {
            Some(s) => s@,
            None => self.nickname_view(),
        }
    }

    pub fn nickname(&self) -> (r: &str)
        ensures
            r@ == self.nickname_view(),
    {
        match &self.member_name {
            Some(s) => s.as_str(),
            None => {
                proof {
                    reveal_strlit("");
                    assert(""@ =~= Seq::<char>::empty());
                }
                ""
            },
        }
    }

    pub fn group_nickname(&self) -> (r: &str)
        ensures
            r@ == self.group_nickname_view(),
    {
        match &self.member_card {
            Some(s) => s.as_str(),
            None => self.nickname(),
        }
    }
}

/// Response from service operations: a human-readable message and whether
/// the operation succeeded.
#[derive(Debug, Clone)]
pub struct ServiceResponse {
    pub message: String,
    pub ok: bool,
}

impl ServiceResponse {
    pub fn ok(msg: String) -> (r: Self)
        ensures
            r.message@ == msg@,
            r.ok == true,
    {
        ServiceResponse { message: msg, ok: true }
    }

    pub fn err(msg: String) -> (r: Self)
        ensures
            r.message@ == msg@,
            r.ok == false,
    {
        ServiceResponse { message: msg, ok: false }
    }
}

/// Login request body accepted by the HTTP adapter, which deserializes into
/// its own copy of this type.
pub struct LoginRequest {
    pub uin: u32,
    pub password: String,
}

/// Password-reset request body accepted by the HTTP adapter.
pub struct ResetPasswordRequest {
    pub qq_uin: u32,
    pub new_password: String,
}

} // verus!
