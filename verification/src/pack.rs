//! Packages of the Universe registry: where a package archive is fetched from.

use crate::pkgspec::{version_text, PackageSpec};
use crate::text::{push_all, push_str, string_of};
use vstd::prelude::*;

verus! {

/// The default Typst registry.
pub open spec fn default_registry() -> Seq<char> {
    "https://packages.typst.org"@
}

/// Builds `UniversePack`s for one registry.
pub struct UniversePackBuilder {
    /// The registry.
    pub registry: String,
}

impl UniversePackBuilder {
    /// A builder for the registry at `registry`.
    pub fn new(registry: String) -> (r: Self)
        ensures
            r.registry@ == registry@,
    {
        Self { registry }
    }

    /// The package `specifier` in this builder's registry.
    pub fn build(self, specifier: PackageSpec) -> (r: UniversePack)
        ensures
            r.registry@ == self.registry@,
            r.specifier.tuple() == specifier.tuple(),
    {
        UniversePack { registry: self.registry, specifier }
    }
}

/// A package in a Universe registry.
pub struct UniversePack {
    /// The registry.
    pub registry: String,
    /// The package specifier.
    pub specifier: PackageSpec,
}

/// `<registry>/preview/<name>-<version>.tar.gz`.
pub open spec fn archive_url_text(registry: Seq<char>, name: Seq<char>, version: (u32, u32, u32)) -> Seq<char> {
    registry + "/preview/"@ + name + seq!['-'] + version_text(version) + ".tar.gz"@
}

impl UniversePack {
    /// The package `specifier` in the default registry.
    pub fn new(specifier: PackageSpec) -> (r: Self)
        ensures
            r.registry@ == default_registry(),
            r.specifier.tuple() == specifier.tuple(),
    {
        Self { registry: String::from_str("https://packages.typst.org"), specifier }
    }

    /// Where the package archive is downloaded from; only packages of the
    /// `preview` namespace are served.
    pub fn archive_url(&self) -> (r: String)
        requires
            self.specifier.namespace@ == "preview"@,
        ensures
            r@ == archive_url_text(
                self.registry@,
                self.specifier.name@,
                self.specifier.version.triple(),
            ),
    {
        let mut v: Vec<char> = Vec::new();
        push_str(&mut v, self.registry.as_str());
        push_str(&mut v, "/preview/");
        push_str(&mut v, self.specifier.name.as_str());
        v.push('-');
        push_all(&mut v, &self.specifier.version.text_chars());
        push_str(&mut v, ".tar.gz");
        string_of(&v)
    }
}

} // verus!
