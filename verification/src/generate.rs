//! The `generate` command: the release workflow that lets CI publish the
//! package.

use crate::text::{
    char_views, chars_of, lemma_split_on_cut, lemma_split_on_free, push_str, replace_all, replace_chars,
    split_chars, split_on, string_of,
};
use vstd::prelude::*;

verus! {

/// Arguments of `generate`.
pub struct GenerateArgs {
    /// The destination typst/packages repository.
    pub source: Option<String>,
    /// The fork of typst/packages to push to.
    pub push_to_fork: Option<String>,
    /// Where the package goes in the source repository.
    pub destination: Option<String>,
}

/// The path of the URL that `url::Url::parse` makes of a text (`Url::path`),
/// or `None` where the text does not parse as an absolute URL.
pub uninterp spec fn parsed_url_path(s: Seq<char>) -> Option<Seq<char>>;

/// Parses `s` with `url::Url::parse` and returns the URL's path
/// (`Url::path`). The contract names the result `parsed_url_path` and says
/// nothing more of URL syntax.
#[verifier::external_body]
fn url_path(s: &str) -> (r: Option<String>)
    ensures
        match r {
            Some(p) => parsed_url_path(s@) == Some(p@),
            None => parsed_url_path(s@) is None,
        },
{
    match url::Url::parse(s) {
        Ok(u) => Some(u.path().to_string()),
        Err(_) => None,
    }
}

/// The text `format!("{:?}", s)` gives for a `str`: quoted and escaped.
pub uninterp spec fn debug_quoted(s: Seq<char>) -> Seq<char>;

/// Formats `s` with `str`'s `Debug` implementation (`format!("{:?}", s)`);
/// the contract names the result `debug_quoted` and says nothing of the
/// escaping rules.
#[verifier::external_body]
fn debug_str(s: &str) -> (r: String)
    ensures
        r@ == debug_quoted(s@),
{
    format!("{:?}", s)
}

/// The fork named by the `origin` remote URL: the first segment of the URL
/// path (`typst` when there is none) followed by `/packages`; `None` when
/// the remote is not an absolute URL.
pub open spec fn fork_of_remote(remote: Seq<char>) -> Option<Seq<char>> {
    match parsed_url_path(remote) {
        Some(path) => {
            let parts = split_on(path, '/');
            let owner = if parts.len() > 1 {
                parts[1]
            } else {
                "typst"@
            };
            Some(owner + "/packages"@)
        },
        None => None,
    }
}

/// The fork of a remote whose URL path is `/owner/...` (or `/owner`) is
/// `owner/packages`; one whose URL path has no second segment gives
/// `typst/packages`; a remote that is not a URL gives none.
pub proof fn lemma_fork_of_remote_owner(remote: Seq<char>, owner: Seq<char>, rest: Seq<char>)
    requires
        !owner.contains('/'),
    ensures
        parsed_url_path(remote) == Some(seq!['/'] + owner + seq!['/'] + rest) ==> fork_of_remote(
            remote,
        ) == Some(owner + "/packages"@),
        parsed_url_path(remote) == Some(seq!['/'] + owner) ==> fork_of_remote(remote) == Some(
            owner + "/packages"@,
        ),
        parsed_url_path(remote) == Some(owner) ==> fork_of_remote(remote) == Some(
            "typst/packages"@,
        ),
        parsed_url_path(remote) is None ==> fork_of_remote(remote) is None,
{
    let empty = Seq::<char>::empty();
    lemma_split_on_free(empty, '/');
    lemma_split_on_free(owner, '/');
    lemma_split_on_cut(owner, '/', rest);
    lemma_split_on_cut(empty, '/', owner + seq!['/'] + rest);
    assert(empty + seq!['/'] + (owner + seq!['/'] + rest) =~= seq!['/'] + owner + seq!['/'] + rest);
    lemma_split_on_cut(empty, '/', owner);
    assert(empty + seq!['/'] + owner =~= seq!['/'] + owner);
    reveal_strlit("typst");
    reveal_strlit("/packages");
    reveal_strlit("typst/packages");
    assert("typst"@ + "/packages"@ =~= "typst/packages"@);
}

/// The fork given on the command line, else the one named by the remote,
/// else `typst/packages`.
pub open spec fn fork_of(arg: Option<Seq<char>>, remote: Option<Seq<char>>) -> Seq<char> {
    match arg {
        Some(f) => f,
        None => match remote {
            Some(r) => match fork_of_remote(r) {
                Some(f) => f,
                None => "typst/packages"@,
            },
            None => "typst/packages"@,
        },
    }
}

/// The workflow text: the template with the quoted markers replaced by the
/// quoted source, destination and fork.
pub open spec fn workflow_text(template: Seq<char>, source: Seq<char>, destination: Seq<char>, fork: Seq<char>) -> Seq<char> {
    replace_all(
        replace_all(
            replace_all(template, "\"<<source>>\""@, debug_quoted(source)),
            "\"<<destination>>\""@,
            debug_quoted(destination),
        ),
        "\"<<push-to-fork>>\""@,
        debug_quoted(fork),
    )
}

/// The view of an optional string.
pub open spec fn opt_view(s: Option<String>) -> Option<Seq<char>> {
    match s {
        Some(x) => Some(x@),
        None => None,
    }
}

/// The given value, or `default`.
pub open spec fn or_default(s: Option<Seq<char>>, default: Seq<char>) -> Seq<char> {
    match s {
        Some(x) => x,
        None => default,
    }
}

/// The fork that the `origin` remote URL names.
pub fn fork_from_remote(remote: &str) -> (r: Option<String>)
    ensures
        opt_view(r) == fork_of_remote(remote@),
{
    match url_path(remote) {
        Some(path) => {
            let parts = split_chars(&chars_of(path.as_str()), '/');
            let mut v = if parts.len() > 1 {
                parts[1].clone()
            } else {
                chars_of("typst")
            };
            assert(parts.len() > 1 ==> char_views(parts@)[1] == parts@[1]@);
            push_str(&mut v, "/packages");
            Some(string_of(&v))
        },
        None => None,
    }
}

/// Replaces every occurrence of the quoted marker by the quoted value.
fn fill_marker(text: &Vec<char>, marker: &str, value: &str) -> (r: Vec<char>)
    requires
        marker@.len() > 0,
    ensures
        r@ == replace_all(text@, marker@, debug_quoted(value@)),
{
    let pat = chars_of(marker);
    let rep = chars_of(debug_str(value).as_str());
    replace_chars(text, &pat, &rep)
}

/// The release workflow for the arguments: `remote` is the `origin` remote
/// URL where `git` gave one, and `template` the workflow template.
pub fn generate(args: &GenerateArgs, remote: Option<String>, template: &str) -> (r: String)
    ensures
        r@ == workflow_text(
            template@,
            or_default(opt_view(args.source), "typst/packages"@),
            or_default(opt_view(args.destination), "packages/preview"@),
            fork_of(opt_view(args.push_to_fork), opt_view(remote)),
        ),
{
    let source = match &args.source {
        Some(s) => s.clone(),
        None => String::from_str("typst/packages"),
    };
    let push_to_fork = match &args.push_to_fork {
        Some(f) => f.clone(),
        None => {
            let from_remote = match &remote {
                Some(url) => fork_from_remote(url.as_str()),
                None => None,
            };
            match from_remote {
                Some(f) => f,
                None => String::from_str("typst/packages"),
            }
        },
    };
    let destination = match &args.destination {
        Some(d) => d.clone(),
        None => String::from_str("packages/preview"),
    };
    proof {
        reveal_strlit("\"<<source>>\"");
        reveal_strlit("\"<<destination>>\"");
        reveal_strlit("\"<<push-to-fork>>\"");
    }
    let text = chars_of(template);
    let text = fill_marker(&text, "\"<<source>>\"", source.as_str());
    let text = fill_marker(&text, "\"<<destination>>\"", destination.as_str());
    let text = fill_marker(&text, "\"<<push-to-fork>>\"", push_to_fork.as_str());
    string_of(&text)
}

} // verus!
