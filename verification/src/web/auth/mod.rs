//! Authentication and authorisation.

pub mod authenticator;
pub mod jwks;
pub mod permission_expr;
pub mod token;
pub mod user;

use vstd::prelude::*;

verus! {

/// The claim that names the token issuer.
pub const CLAIM_ISS: &'static str = "iss";

/// The claim that names who the token is for.
pub const CLAIM_AUD: &'static str = "aud";

/// The claim that identifies the user.
pub const CLAIM_SUB: &'static str = "sub";

/// The claim that identifies the tenant of the user.
pub const CLAIM_TENANT: &'static str = "tenant";

/// The claim that holds the full name of the user.
pub const CLAIM_NAME: &'static str = "name";

/// The claim that holds the email address of the user.
pub const CLAIM_EMAIL: &'static str = "email";

/// The claim that lists the permissions granted to the user.
pub const CLAIM_PERMISSIONS: &'static str = "permissions";

/// The claim that names the language of the user.
pub const CLAIM_LOCALE: &'static str = "locale";

/// The claim that names who acts on behalf of the user.
pub const CLAIM_ACT: &'static str = "act";

/// The language of a user of whom no other is known.
pub const DEFAULT_LOCALE: &'static str = "en-US";

} // verus!
