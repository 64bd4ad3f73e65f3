//! The official Universe registry on GitHub: repository coordinates, the
//! token needed for authenticated access and the content paths read.

use crate::text::{push_str, string_of};
use vstd::prelude::*;

verus! {

/// The repository that holds the registry.
pub const UNIVERSE_REPO_NAME: &'static str = "packages";

/// The owner of the registry repository.
pub const UNIVERSE_REPO_OWNER: &'static str = "typst";

/// Why the registry cannot be used with authentication.
pub enum RegistryError {
    /// No Universe token has been stored.
    MissingToken,
}

impl RegistryError {
    /// The message that reports the error.
    pub fn message(&self) -> (s: String)
        ensures
            s@ == "You need to set up the token first. Run `typship login universe`."@,
    {
        String::from_str("You need to set up the token first. Run `typship login universe`.")
    }
}

/// The token for authenticated registry access, if one is stored.
pub fn universe_token(stored: Option<String>) -> (r: Result<String, RegistryError>)
    ensures
        match stored {
            Some(t) => r matches Ok(u) && u@ == t@,
            None => r matches Err(RegistryError::MissingToken),
        },
{
    match stored {
        Some(t) => Ok(t),
        None => Err(RegistryError::MissingToken),
    }
}

/// The registry directory that lists the preview packages.
pub open spec fn packages_path_text() -> Seq<char> {
    "packages/preview"@
}

/// The registry directory that lists the preview packages.
pub fn packages_path() -> (r: String)
    ensures
        r@ == packages_path_text(),
{
    String::from_str("packages/preview")
}

/// The registry directory that lists the versions of a preview package.
pub fn package_versions_path(package_name: &str) -> (r: String)
    ensures
        r@ == "packages/preview/"@ + package_name@,
{
    let mut v: Vec<char> = Vec::new();
    push_str(&mut v, "packages/preview/");
    push_str(&mut v, package_name);
    string_of(&v)
}

/// Whether `login` asks for a new token: always without a stored token,
/// else only when the user agrees to overwrite it.
pub fn login_asks_token(has_token: bool, overwrite_confirmed: bool) -> (r: bool)
    ensures
        r == (!has_token || overwrite_confirmed),
{
    !has_token || overwrite_confirmed
}

} // verus!
