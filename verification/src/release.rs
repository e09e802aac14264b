//! Versions of a release, their bumps, and the release checklist.

use vstd::prelude::*;
use crate::clock::{has_shape, date_shape, utc_today};
use crate::text::{decimal, owned, push_str, spec_decimal, strs};

verus! {

/// A semantic version: numbers, then pre-release and build texts (empty
/// when absent).
#[derive(Debug, Clone)]
pub struct SemVersion {
    pub major: u64,
    pub minor: u64,
    pub patch: u64,
    pub pre: String,
    pub build: String,
}

/// What `semver::Version::parse` gives for a text: its numbers and the
/// texts of its pre-release and build parts, or `None` when the text is no
/// semantic version.
pub uninterp spec fn spec_semver_parse(text: Seq<char>) -> Option<(u64, u64, u64, Seq<char>, Seq<char>)>;

/// `semver::Version::parse`, taken apart into plain values; the error is
/// given as its message.
#[verifier::external_body]
fn semver_parse(text: &str) -> (r: Result<(u64, u64, u64, String, String), String>)
    ensures
        match r {
            Ok(v) => spec_semver_parse(text@) == Some((v.0, v.1, v.2, v.3@, v.4@)),
            Err(_) => spec_semver_parse(text@) is None,
        },
{
    match semver::Version::parse(text) {
        Ok(v) => Ok((v.major, v.minor, v.patch, v.pre.as_str().to_string(), v.build.as_str().to_string())),
        Err(e) => Err(e.to_string()),
    }
}

/// The text of a version, as `semver` writes it:
/// `major.minor.patch`, then `-pre` and `+build` when present.
pub open spec fn version_text(v: SemVersion) -> Seq<char> {
    spec_decimal(v.major as nat) + "."@ + spec_decimal(v.minor as nat) + "."@ + spec_decimal(v.patch as nat)
        + (if v.pre@.len() > 0 { "-"@ + v.pre@ } else { Seq::empty() })
        + (if v.build@.len() > 0 { "+"@ + v.build@ } else { Seq::empty() })
}

/// Decimal text of a `u64`.
fn decimal_u64(n: u64) -> (s: String)
    ensures
        s@ == spec_decimal(n as nat),
{
    crate::text::decimal_u64(n)
}

impl SemVersion {
    /// The version `major.minor.patch`.
    pub fn new(major: u64, minor: u64, patch: u64) -> (v: SemVersion)
        ensures
            v.major == major && v.minor == minor && v.patch == patch,
            v.pre@.len() == 0 && v.build@.len() == 0,
    {
        SemVersion { major, minor, patch, pre: String::new(), build: String::new() }
    }

    /// A version read from its text.
    pub fn parse(text: &str) -> (r: Result<SemVersion, crate::types::OcError>)
        ensures
            match spec_semver_parse(text@) {
                Some(p) => r matches Ok(v) && v.major == p.0 && v.minor == p.1 && v.patch == p.2 && v.pre@ == p.3 && v.build@ == p.4,
                None => r matches Err(crate::types::OcError::InvalidVersion { value }) && value@ == text@,
            },
    {
        match semver_parse(text) {
            Ok((major, minor, patch, pre, build)) => Ok(SemVersion { major, minor, patch, pre, build }),
            Err(_) => Err(crate::types::OcError::InvalidVersion { value: owned(text) }),
        }
    }

    /// The text of the version (see [`version_text`]).
    pub fn to_text(&self) -> (s: String)
        ensures
            s@ == version_text(*self),
    {
        let mut s = decimal_u64(self.major);
        push_str(&mut s, ".");
        push_str(&mut s, decimal_u64(self.minor).as_str());
        push_str(&mut s, ".");
        push_str(&mut s, decimal_u64(self.patch).as_str());
        if !self.pre.as_str().is_empty() {
            push_str(&mut s, "-");
            push_str(&mut s, self.pre.as_str());
        } else {
            assert(s@ + Seq::<char>::empty() =~= s@);
        }
        let ghost s1 = s@;
        if !self.build.as_str().is_empty() {
            push_str(&mut s, "+");
            push_str(&mut s, self.build.as_str());
        } else {
            assert(s@ + Seq::<char>::empty() =~= s@);
        }
        s
    }
}

/// A version with its build information.
#[derive(Debug, Clone)]
pub struct VersionInfo {
    pub version: SemVersion,
    pub git_hash: Option<String>,
    pub build_date: String,
}

impl VersionInfo {
    /// The version of a text, built today (the current UTC date, written
    /// `YYYY-MM-DD`).
    pub fn new(version: &str) -> (r: Result<VersionInfo, crate::types::OcError>)
        ensures
            match spec_semver_parse(version@) {
                Some(p) => r matches Ok(i) && i.version.major == p.0 && i.version.minor == p.1 && i.version.patch == p.2
                    && i.version.pre@ == p.3 && i.version.build@ == p.4 && i.git_hash is None
                    && has_shape(i.build_date@, date_shape()),
                None => r is Err,
            },
    {
        match SemVersion::parse(version) {
            Ok(v) => Ok(VersionInfo { version: v, git_hash: None, build_date: utc_today() }),
            Err(e) => Err(e),
        }
    }

    /// The same version with a git hash.
    pub fn with_git_hash(self, hash: &str) -> (r: VersionInfo)
        ensures
            r.git_hash matches Some(h) && h@ == hash@,
            r.version == self.version,
            r.build_date == self.build_date,
    {
        VersionInfo { version: self.version, git_hash: Some(owned(hash)), build_date: self.build_date }
    }

    /// The version, followed by the first seven characters of the git hash
    /// in parentheses when there is one.
    pub fn display_string(&self) -> (s: String)
        ensures
            s@ == match self.git_hash {
                Some(h) => version_text(self.version) + " ("@ + h@.subrange(0, if h@.len() < 7 { h@.len() as int } else { 7 }) + ")"@,
                None => version_text(self.version),
            },
    {
        let mut s = self.version.to_text();
        match &self.git_hash {
            Some(h) => {
                let c = crate::text::chars_of(h.as_str());
                let n = if c.len() < 7 { c.len() } else { 7 };
                push_str(&mut s, " (");
                push_str(&mut s, crate::text::string_of(&crate::text::slice_to_vec(&c, 0, n)).as_str());
                push_str(&mut s, ")");
            },
            None => {},
        }
        s
    }

    /// Whether the version is a pre-release.
    pub fn is_prerelease(&self) -> (r: bool)
        ensures
            r == (self.version.pre@.len() > 0),
    {
        !self.version.pre.as_str().is_empty()
    }
}

/// Which part of a version a bump raises.
#[derive(Debug, Clone, Copy, PartialEq, Eq, Structural)]
pub enum BumpType {
    Major,
    Minor,
    Patch,
}

/// Raises versions.
pub struct VersionBumper;

impl VersionBumper {
    /// The next version: the bumped part raised by one, the parts below it
    /// reset, pre-release and build dropped.
    pub fn bump(version: &SemVersion, bump_type: BumpType) -> (v: SemVersion)
        requires
            bump_type == BumpType::Major ==> version.major < u64::MAX,
            bump_type == BumpType::Minor ==> version.minor < u64::MAX,
            bump_type == BumpType::Patch ==> version.patch < u64::MAX,
        ensures
            v.pre@.len() == 0 && v.build@.len() == 0,
            (v.major as int, v.minor as int, v.patch as int)
                == bumped((version.major as int, version.minor as int, version.patch as int), bump_type),
    {
        match bump_type {
            BumpType::Major => SemVersion::new(version.major + 1, 0, 0),
            BumpType::Minor => SemVersion::new(version.major, version.minor + 1, 0),
            BumpType::Patch => SemVersion::new(version.major, version.minor, version.patch + 1),
        }
    }
}

/// The steps of a release and whether each is done.
#[derive(Debug, Clone)]
pub struct ReleaseChecklist {
    items: Vec<(String, bool)>,
}

/// The steps of a release.
pub open spec fn release_steps() -> Seq<Seq<char>> {
    seq!["Tests passing"@, "Changelog updated"@, "Version bumped"@, "Documentation updated"@, "Git tagged"@]
}

impl ReleaseChecklist {
    /// The steps, in order, with whether each is done.
    pub closed spec fn view_items(&self) -> Seq<(Seq<char>, bool)> {
        self.items@.map_values(|x: (String, bool)| (x.0@, x.1))
    }

    /// The five steps of a release, none done.
    pub fn new() -> (c: ReleaseChecklist)
        ensures
            c.view_items().len() == 5,
            forall|k: int| 0 <= k < 5 ==> (#[trigger] c.view_items()[k]) == (release_steps()[k], false),
    {
        let mut items: Vec<(String, bool)> = Vec::new();
        items.push((owned("Tests passing"), false));
        items.push((owned("Changelog updated"), false));
        items.push((owned("Version bumped"), false));
        items.push((owned("Documentation updated"), false));
        items.push((owned("Git tagged"), false));
        let c = ReleaseChecklist { items };
        assert(c.view_items() =~= seq![("Tests passing"@, false), ("Changelog updated"@, false), ("Version bumped"@, false),
            ("Documentation updated"@, false), ("Git tagged"@, false)]);
        c
    }

    /// Marks step `index` done; an index past the steps changes nothing.
    pub fn check(&mut self, index: usize)
        ensures
            final(self).view_items() == if index < old(self).view_items().len() {
                old(self).view_items().update(index as int, (old(self).view_items()[index as int].0, true))
            } else {
                old(self).view_items()
            },
    {
        if index < self.items.len() {
            let ghost v0 = self.view_items();
            let name = owned(self.items[index].0.as_str());
            self.items.set(index, (name, true));
            assert(self.view_items() =~= v0.update(index as int, (v0[index as int].0, true)));
        }
    }

    /// Whether every step is done.
    pub fn is_complete(&self) -> (r: bool)
        ensures
            r == forall|k: int| 0 <= k < self.view_items().len() ==> (#[trigger] self.view_items()[k]).1,
    {
        let mut i: usize = 0;
        while i < self.items.len()
            invariant
                i <= self.items@.len(),
                forall|k: int| 0 <= k < i ==> (#[trigger] self.view_items()[k]).1,
            decreases self.items@.len() - i,
        {
            if !self.items[i].1 {
                assert(!self.view_items()[i as int].1);
                return false;
            }
            i = i + 1;
        }
        true
    }
}

impl Default for ReleaseChecklist {
    fn default() -> (c: ReleaseChecklist)
        ensures
            c.view_items().len() == 5,
            forall|k: int| 0 <= k < 5 ==> (#[trigger] c.view_items()[k]) == (release_steps()[k], false),
    {
        ReleaseChecklist::new()
    }
}

/// The numbers of a version after a bump: the bumped number grows by one
/// and the ones after it go back to zero.
pub open spec fn bumped(v: (int, int, int), t: BumpType) -> (int, int, int) {
    match t {
        BumpType::Major => (v.0 + 1, 0, 0),
        BumpType::Minor => (v.0, v.1 + 1, 0),
        BumpType::Patch => (v.0, v.1, v.2 + 1),
    }
}

/// Precedence of version numbers: major, then minor, then patch.
pub open spec fn numbers_lt(a: (int, int, int), b: (int, int, int)) -> bool {
    a.0 < b.0 || (a.0 == b.0 && (a.1 < b.1 || (a.1 == b.1 && a.2 < b.2)))
}

/// A bump always gives a later version: every bump of valid (non-negative)
/// version numbers yields numbers of higher precedence.
pub proof fn law_bump_increases(v: (int, int, int), t: BumpType)
    requires
        v.0 >= 0 && v.1 >= 0 && v.2 >= 0,
    ensures
        numbers_lt(v, bumped(v, t)),
{
}

} // verus!
