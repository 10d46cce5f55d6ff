//! The credentials that the store keeps.
use vstd::prelude::*;

verus! {

/// The kind of a credential.
#[derive(Clone, Copy, Debug, PartialEq, Eq, Structural)]
pub enum PublicKeyCredentialType {
    PublicKey,
}

/// How far a credential is protected.
#[derive(Clone, Copy, Debug, PartialEq, Eq, Structural)]
pub enum CredentialProtectionPolicy {
    UserVerificationOptional,
    UserVerificationOptionalWithCredentialIdList,
    UserVerificationRequired,
}

/// A credential as the authenticator stores it. The private key is held as its 32 raw bytes.
#[derive(Clone, Debug, PartialEq, Eq)]
pub struct PublicKeyCredentialSource {
    pub key_type: PublicKeyCredentialType,
    pub credential_id: Vec<u8>,
    pub private_key: [u8; 32],
    pub rp_id: String,
    pub user_handle: Vec<u8>,
    pub user_display_name: Option<String>,
    pub cred_protect_policy: Option<CredentialProtectionPolicy>,
    pub creation_order: u64,
    pub user_name: Option<String>,
    pub user_icon: Option<String>,
}

/// What a credential says, field by field.
#[verifier::ext_equal]
pub struct CredentialView {
    pub key_type: PublicKeyCredentialType,
    pub credential_id: Seq<u8>,
    pub private_key: Seq<u8>,
    pub rp_id: Seq<char>,
    pub user_handle: Seq<u8>,
    pub user_display_name: Option<Seq<char>>,
    pub cred_protect_policy: Option<CredentialProtectionPolicy>,
    pub creation_order: u64,
    pub user_name: Option<Seq<char>>,
    pub user_icon: Option<Seq<char>>,
}

/// The text of an optional string.
pub open spec fn text_view(text: Option<String>) -> Option<Seq<char>> {
    match text {
        Some(s) => Some(s@),
        None => None,
    }
}

impl View for PublicKeyCredentialSource {
    type V = CredentialView;

    open spec fn view(&self) -> CredentialView {
        CredentialView {
            key_type: self.key_type,
            credential_id: self.credential_id@,
            private_key: self.private_key@,
            rp_id: self.rp_id@,
            user_handle: self.user_handle@,
            user_display_name: text_view(self.user_display_name),
            cred_protect_policy: self.cred_protect_policy,
            creation_order: self.creation_order,
            user_name: text_view(self.user_name),
            user_icon: text_view(self.user_icon),
        }
    }
}

impl CredentialView {
    /// Whether a relying party may find the credential without naming its ID.
    pub open spec fn discoverable(self) -> bool {
        match self.cred_protect_policy {
            None => true,
            Some(CredentialProtectionPolicy::UserVerificationOptional) => true,
            Some(_) => false,
        }
    }

    /// Whether the credential may only be used after the user was verified.
    pub open spec fn user_verification_required(self) -> bool {
        self.cred_protect_policy == Some(CredentialProtectionPolicy::UserVerificationRequired)
    }

    /// Whether two credentials belong to the same account: the same user at the same relying party.
    pub open spec fn same_account(self, other: CredentialView) -> bool {
        self.rp_id == other.rp_id && self.user_handle == other.user_handle
    }
}

impl PublicKeyCredentialSource {
    /// Whether a relying party may find the credential without naming its ID.
    pub fn is_discoverable(&self) -> (discoverable: bool)
        ensures
            discoverable == self@.discoverable(),
    {
        match self.cred_protect_policy {
            None => true,
            Some(CredentialProtectionPolicy::UserVerificationOptional) => true,
            Some(_) => false,
        }
    }

    /// Whether the credential may only be used after the user was verified.
    pub fn requires_user_verification(&self) -> (required: bool)
        ensures
            required == self@.user_verification_required(),
    {
        match self.cred_protect_policy {
            Some(CredentialProtectionPolicy::UserVerificationRequired) => true,
            _ => false,
        }
    }
}

} // verus!
