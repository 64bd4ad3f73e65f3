//! The caching proxy for the Universe registry: which archive names it
//! serves, where it fetches them, and how failures are answered.

use crate::text::{chars_of, ends_with_chars, has_suffix, push_str, string_of};
use vstd::prelude::*;

verus! {

/// Declares `std::io::Error` to the verifier; its contents stay opaque.
#[verifier::external_type_specification]
#[verifier::external_body]
pub struct ExIoError(std::io::Error);

/// Why a proxy request fails.
pub enum TypshipError {
    /// The requested archive name is not served.
    InvalidFileName(String),
    /// Reading or writing the cache failed.
    Io(std::io::Error),
    /// Fetching or storing failed in a way the client is not told about.
    Internal,
}

impl From<std::io::Error> for TypshipError {
    fn from(e: std::io::Error) -> (r: Self) {
        TypshipError::Io(e)
    }
}

impl vstd::std_specs::convert::FromSpecImpl<std::io::Error> for TypshipError {
    open spec fn obeys_from_spec() -> bool {
        true
    }

    open spec fn from_spec(v: std::io::Error) -> Self {
        TypshipError::Io(v)
    }
}

impl From<String> for TypshipError {
    fn from(e: String) -> (r: Self) {
        TypshipError::InvalidFileName(e)
    }
}

impl vstd::std_specs::convert::FromSpecImpl<String> for TypshipError {
    open spec fn obeys_from_spec() -> bool {
        true
    }

    open spec fn from_spec(v: String) -> Self {
        TypshipError::InvalidFileName(v)
    }
}

/// What `char::is_alphanumeric` answers: the character is Unicode
/// `Alphabetic` or `Numeric`.
pub uninterp spec fn alphanumeric(c: char) -> bool;

/// ASCII letters and digits.
pub open spec fn ascii_alphanumeric(c: char) -> bool {
    ('a' <= c && c <= 'z') || ('A' <= c && c <= 'Z') || ('0' <= c && c <= '9')
}

/// `char::is_alphanumeric`. Its result is named `alphanumeric`; beside that
/// the contract states the ASCII case (letters and digits are, other ASCII
/// characters are not). The Unicode tables beyond ASCII are left unsaid.
#[verifier::external_body]
fn is_alphanumeric(c: char) -> (r: bool)
    ensures
        r == alphanumeric(c),
        c < '\u{80}' ==> (r == ascii_alphanumeric(c)),
{
    c.is_alphanumeric()
}

/// A character the proxy accepts in an archive name.
pub open spec fn name_char_allowed(c: char) -> bool {
    alphanumeric(c) || c == '-' || c == '.'
}

/// The proxy serves the archive name: it ends with `.tar.gz` and has only
/// alphanumeric characters, `-` and `.`.
pub open spec fn file_name_allowed(name: Seq<char>) -> bool {
    &&& has_suffix(name, ".tar.gz"@)
    &&& forall|i: int| 0 <= i < name.len() ==> name_char_allowed(#[trigger] name[i])
}

/// Accepts an archive name the proxy serves, refuses any other.
pub fn check_file_name(file_name: String) -> (r: Result<String, TypshipError>)
    ensures
        match r {
            Ok(n) => n@ == file_name@ && file_name_allowed(file_name@),
            Err(TypshipError::InvalidFileName(n)) => n@ == file_name@ && !file_name_allowed(file_name@),
            Err(_) => false,
        },
{
    let chars = chars_of(file_name.as_str());
    let suffix = chars_of(".tar.gz");
    if !ends_with_chars(&chars, &suffix) {
        return Err(TypshipError::InvalidFileName(file_name));
    }
    let mut i: usize = 0;
    while i < chars.len()
        invariant
            chars@ == file_name@,
            i <= chars.len(),
            forall|k: int| 0 <= k < i ==> name_char_allowed(#[trigger] chars@[k]),
        decreases chars.len() - i,
    {
        let c = chars[i];
        if !(is_alphanumeric(c) || c == '-' || c == '.') {
            assert(!name_char_allowed(chars@[i as int]));
            return Err(TypshipError::InvalidFileName(file_name));
        }
        i = i + 1;
    }
    Ok(file_name)
}

/// `<registry>/preview/<file_name>`.
pub open spec fn upstream_url_text(registry: Seq<char>, file_name: Seq<char>) -> Seq<char> {
    registry + "/preview/"@ + file_name
}

/// Where the proxy fetches an archive it has not cached.
pub fn upstream_url(registry: &str, file_name: &str) -> (r: String)
    ensures
        r@ == upstream_url_text(registry@, file_name@),
{
    let mut v: Vec<char> = Vec::new();
    push_str(&mut v, registry);
    push_str(&mut v, "/preview/");
    push_str(&mut v, file_name);
    string_of(&v)
}

/// An error, reported to the client only as an internal error.
pub fn log_error<T, E>(r: Result<T, E>) -> (out: Result<T, TypshipError>)
    ensures
        match r {
            Ok(v) => out matches Ok(w) && w == v,
            Err(_) => out matches Err(TypshipError::Internal),
        },
{
    match r {
        Ok(v) => Ok(v),
        Err(_) => Err(TypshipError::Internal),
    }
}

/// A missing value, reported to the client only as an internal error.
pub fn with_log<T>(o: Option<T>) -> (out: Result<T, TypshipError>)
    ensures
        match o {
            Some(v) => out matches Ok(w) && w == v,
            None => out matches Err(TypshipError::Internal),
        },
{
    match o {
        Some(v) => Ok(v),
        None => Err(TypshipError::Internal),
    }
}

impl TypshipError {
    /// The HTTP status and body that answer the error: 400 with the name
    /// for a refused archive name, 500 with the I/O error's `Display` text
    /// (`to_string`), 500 with "internal error".
    pub fn into_response(self) -> (r: (u16, String))
        ensures
            match self {
                TypshipError::InvalidFileName(n) => r.0 == 400 && r.1@ == n@,
                TypshipError::Io(e) => r.0 == 500 && vstd::string::to_string_from_display_ensures::<
                    std::io::Error,
                >(&e, r.1),
                TypshipError::Internal => r.0 == 500 && r.1@ == "internal error"@,
            },
    {
        match self {
            TypshipError::InvalidFileName(n) => (400, n),
            TypshipError::Io(e) => (500, e.to_string()),
            TypshipError::Internal => (500, String::from_str("internal error")),
        }
    }
}

} // verus!
