use vstd::prelude::*;

verus! {

#[verifier::external_type_specification]
#[verifier::external_body]
pub struct ExSemverError(semver::Error);

/// A semantic version: `major.minor.patch`, with optional pre-release and build
/// metadata (empty when absent).
#[derive(Debug, Clone, PartialEq, Eq)]
pub struct Version {
    pub major: u64,
    pub minor: u64,
    pub patch: u64,
    pub pre: String,
    pub build: String,
}

impl View for Version {
    type V = (u64, u64, u64, Seq<char>, Seq<char>);

    open spec fn view(&self) -> (u64, u64, u64, Seq<char>, Seq<char>) {
        (self.major, self.minor, self.patch, self.pre@, self.build@)
    }
}

/// What `semver::Version::parse` gives for a text: its parts, or `None` when the
/// text is not a semantic version.
pub uninterp spec fn semver_parse(text: Seq<char>) -> Option<(u64, u64, u64, Seq<char>, Seq<char>)>;

/// `semver::Version::parse`: reads a semantic version. Its result is claimed to
/// depend on the text alone; which texts are versions is not stated.
#[verifier::external_body]
fn semver_version_parse(text: &str) -> (v: Result<Version, semver::Error>)
    ensures
        match v {
            Ok(version) => semver_parse(text@) == Some(version@),
            Err(_) => semver_parse(text@) is None,
        },
{
    match semver::Version::parse(text) {
        Ok(v) => Ok(
            Version {
                major: v.major,
                minor: v.minor,
                patch: v.patch,
                pre: v.pre.as_str().to_string(),
                build: v.build.as_str().to_string(),
            },
        ),
        Err(e) => Err(e),
    }
}

/// Why a manifest could not be made.
#[derive(Debug, Clone, PartialEq, Eq)]
pub enum ManifestError {
    /// The text is not a semantic version.
    InvalidVersion(String),
}

impl Version {
    /// The version `major.minor.patch`, with no pre-release or build metadata.
    pub fn new(major: u64, minor: u64, patch: u64) -> (v: Version)
        ensures
            v@ == (major, minor, patch, Seq::<char>::empty(), Seq::<char>::empty()),
    {
        Version { major, minor, patch, pre: String::new(), build: String::new() }
    }

    /// Reads a semantic version.
    pub fn parse(text: &str) -> (v: Result<Version, ManifestError>)
        ensures
            match v {
                Ok(version) => semver_parse(text@) == Some(version@),
                Err(e) => semver_parse(text@) is None && (e matches ManifestError::InvalidVersion(
                    t,
                ) && t@ == text@),
            },
    {
        match semver_version_parse(text) {
            Ok(version) => Ok(version),
            Err(_) => Err(ManifestError::InvalidVersion(text.to_owned())),
        }
    }
}

/// Which revision of a git dependency to use.
#[derive(Debug, Clone, PartialEq, Eq)]
pub enum GitReference {
    Tag(String),
    Branch(String),
    Rev(String),
}

/// Where a dependency comes from: a git repository and a revision of it.
#[derive(Debug, Clone, PartialEq, Eq)]
pub struct DependencySpec {
    pub git: String,
    pub reference: GitReference,
}

/// The `[package]` table of a project manifest.
#[derive(Debug, Clone, PartialEq, Eq)]
pub struct Package {
    pub name: String,
    pub version: Version,
    /// The version of the mond tool the project was made with.
    pub mond_version: Version,
}

/// A project manifest: the package and its dependencies, by name.
#[derive(Debug, Clone, PartialEq, Eq)]
pub struct MondManifest {
    pub package: Package,
    pub dependencies: Vec<(String, DependencySpec)>,
}

/// Whether `m` is the manifest of a new project called `name`, made with the
/// tool whose version the text `tool_version` gives: version 0.1.0, no
/// dependencies.
pub open spec fn is_new_manifest(m: MondManifest, name: Seq<char>, tool_version: Seq<char>) -> bool {
    &&& m.package.name@ == name
    &&& m.package.version@ == (0u64, 1u64, 0u64, Seq::<char>::empty(), Seq::<char>::empty())
    &&& semver_parse(tool_version) == Some(m.package.mond_version@)
    &&& m.dependencies@.len() == 0
}

impl MondManifest {
    /// The manifest of a new project called `name`, made with the tool of
    /// version `tool_version`.
    fn new(name: String, tool_version: &str) -> (m: Self)
        requires
            semver_parse(tool_version@) is Some,
        ensures
            is_new_manifest(m, name@, tool_version@),
    {
        let mond_version = match Version::parse(tool_version) {
            Ok(v) => v,
            Err(_) => {
                proof {
                    assert(false);
                }
                Version::new(0, 0, 0)
            },
        };
        MondManifest {
            package: Package { name, version: Version::new(0, 1, 0), mond_version },
            dependencies: Vec::new(),
        }
    }
}

/// The manifest of a new project called `name`, made with the tool of version
/// `tool_version`; an error when that is not a semantic version.
pub fn create_new_manifest(name: String, tool_version: &str) -> (m: Result<MondManifest, ManifestError>)
    ensures
        match m {
            Ok(manifest) => is_new_manifest(manifest, name@, tool_version@),
            Err(e) => semver_parse(tool_version@) is None && (e matches ManifestError::InvalidVersion(
                t,
            ) && t@ == tool_version@),
        },
{
    match Version::parse(tool_version) {
        Ok(_) => Ok(MondManifest::new(name, tool_version)),
        Err(e) => Err(e),
    }
}

} // verus!
