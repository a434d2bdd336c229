//! The package manager's data model: package.json, the lockfile, resolved
//! graphs and audit entries, as plain values.

use vstd::prelude::*;
use crate::smap::StrMap;
use crate::text::{owned, push_str};

verus! {

/// The fields of package.json that the package manager reads.
pub struct PackageJson {
    pub name: Option<String>,
    pub version: Option<String>,
    pub dependencies: StrMap<String>,
    pub dev_dependencies: StrMap<String>,
    pub peer_dependencies: StrMap<String>,
    pub optional_dependencies: StrMap<String>,
    pub bundled_dependencies: Vec<String>,
    pub scripts: StrMap<String>,
    pub overrides: StrMap<String>,
}

/// One resolved package in vertz.lock.
pub struct LockfileEntry {
    pub name: String,
    pub range: String,
    pub version: String,
    pub resolved: String,
    pub integrity: String,
    pub dependencies: StrMap<String>,
    pub bin: StrMap<String>,
    pub scripts: StrMap<String>,
    pub optional: bool,
    pub overridden: bool,
}

/// vertz.lock: entries keyed by `name@range`.
pub struct Lockfile {
    pub entries: StrMap<LockfileEntry>,
}

/// The lockfile key of a dependency: `name@range`.
pub open spec fn spec_key_of(name: Seq<char>, range: Seq<char>) -> Seq<char> {
    name + "@"@ + range
}

impl Default for Lockfile {
    fn default() -> (l: Self)
        ensures
            l.entries.size() == 0,
    {
        Lockfile { entries: StrMap::new() }
    }
}

impl Lockfile {
    /// The lockfile key of a dependency: `name@range`.
    pub fn spec_key(name: &str, range: &str) -> (k: String)
        ensures
            k@ == spec_key_of(name@, range@),
    {
        let mut k = owned(name);
        push_str(&mut k, "@");
        push_str(&mut k, range);
        k
    }
}

/// One package of a resolved dependency graph.
pub struct ResolvedPackage {
    pub name: String,
    pub version: String,
    pub tarball_url: String,
    pub integrity: String,
    pub dependencies: StrMap<String>,
    pub bin: StrMap<String>,
    /// Parents it is nested under in node_modules (empty when hoisted).
    pub nest_path: Vec<String>,
}

/// A resolved dependency graph: packages keyed by `name@version`, and the
/// lifecycle scripts of packages keyed by `name@version`.
pub struct ResolvedGraph {
    pub packages: StrMap<ResolvedPackage>,
    pub scripts: StrMap<StrMap<String>>,
}

impl Default for ResolvedGraph {
    fn default() -> (g: Self)
        ensures
            g.packages.size() == 0,
            g.scripts.size() == 0,
    {
        ResolvedGraph { packages: StrMap::new(), scripts: StrMap::new() }
    }
}

/// Advisory severity.
#[derive(Debug, Clone, Copy, PartialEq, Eq, Structural)]
pub enum Severity {
    Low,
    Moderate,
    High,
    Critical,
}

/// The lowercase name of a severity.
pub open spec fn severity_name(s: Severity) -> Seq<char> {
    match s {
        Severity::Low => "low"@,
        Severity::Moderate => "moderate"@,
        Severity::High => "high"@,
        Severity::Critical => "critical"@,
    }
}

/// The place of a severity when listing: critical first.
pub open spec fn severity_rank(s: Severity) -> nat {
    match s {
        Severity::Critical => 0,
        Severity::High => 1,
        Severity::Moderate => 2,
        Severity::Low => 3,
    }
}

/// The severity a name stands for.
pub open spec fn severity_of(name: Seq<char>) -> Option<Severity> {
    if name == "low"@ {
        Some(Severity::Low)
    } else if name == "moderate"@ {
        Some(Severity::Moderate)
    } else if name == "high"@ {
        Some(Severity::High)
    } else if name == "critical"@ {
        Some(Severity::Critical)
    } else {
        None
    }
}

impl Severity {
    /// The severity a name (`low`, `moderate`, `high`, `critical`) stands for.
    pub fn parse(name: &str) -> (r: Option<Severity>)
        ensures
            r == severity_of(name@),
    {
        if crate::text::str_eq(name, "low") {
            Some(Severity::Low)
        } else if crate::text::str_eq(name, "moderate") {
            Some(Severity::Moderate)
        } else if crate::text::str_eq(name, "high") {
            Some(Severity::High)
        } else if crate::text::str_eq(name, "critical") {
            Some(Severity::Critical)
        } else {
            None
        }
    }

    /// The place of the severity when listing: critical 0 up to low 3.
    pub fn rank(&self) -> (r: u8)
        ensures
            r == severity_rank(*self),
    {
        match self {
            Severity::Critical => 0,
            Severity::High => 1,
            Severity::Moderate => 2,
            Severity::Low => 3,
        }
    }

    /// Whether the severity is at least the threshold.
    pub fn at_or_above(&self, threshold: Severity) -> (b: bool)
        ensures
            b == (severity_rank(*self) <= severity_rank(threshold)),
    {
        self.rank() <= threshold.rank()
    }

    /// The lowercase name of the severity.
    pub fn as_str(&self) -> (r: &'static str)
        ensures
            r@ == severity_name(*self),
    {
        match self {
            Severity::Low => "low",
            Severity::Moderate => "moderate",
            Severity::High => "high",
            Severity::Critical => "critical",
        }
    }
}

/// One vulnerability found by `vertz audit`.
pub struct AuditEntry {
    pub name: String,
    pub version: String,
    pub severity: Severity,
    pub title: String,
    pub url: String,
    pub patched: String,
    pub id: u64,
    /// The direct dependency that pulls the package in, if it is transitive.
    pub parent: Option<String>,
}

} // verus!
