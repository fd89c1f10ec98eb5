//! Turning what was found on the host into installations: where to look,
//! which of the places looked at hold an installation, and what it is.

use crate::jvm::{views, Jvm, JvmView};
use crate::platform::{OperatingSystem, OsFamily, Unavailable};
use crate::release::{
    canonical_architecture, canonicalize_architecture, parse_release, release_of, ReleaseInfo,
    ReleaseView,
};
use crate::select::{ranked, sort_jvms};
use crate::text::{
    chars_of, has_prefix, same_text, split_bounds, split_on, starts_with_text,
    strip_quotes, texts, without_quotes,
};
use vstd::prelude::*;
use vstd::string::*;

verus! {

/// A place that was looked at and may hold an installation.
#[derive(Debug, PartialEq, Eq)]
pub struct Candidate {
    /// The name of the directory.
    pub name: String,
    /// The home directory that an installation in this place has.
    pub home: String,
    /// Whether the place is a directory.
    pub is_directory: bool,
    /// Whether the place is a symbolic link.
    pub is_symlink: bool,
    /// The bytes of the release descriptor, where there is a readable one.
    pub release: Option<Vec<u8>>,
    /// The display name of the application bundle, empty where the bundle
    /// gives none; `None` where there is no readable bundle description.
    pub bundle_name: Option<String>,
}

/// The content of a `Candidate`.
pub struct CandidateView {
    pub name: Seq<char>,
    pub home: Seq<char>,
    pub is_directory: bool,
    pub is_symlink: bool,
    pub release: Option<Seq<u8>>,
    pub bundle_name: Option<Seq<char>>,
}

impl View for Candidate {
    type V = CandidateView;

    open spec fn view(&self) -> CandidateView {
        CandidateView {
            name: self.name@,
            home: self.home@,
            is_directory: self.is_directory,
            is_symlink: self.is_symlink,
            release: match self.release {
                Some(bytes) => Some(bytes@),
                None => None,
            },
            bundle_name: match self.bundle_name {
                Some(text) => Some(text@),
                None => None,
            },
        }
    }
}

/// The views of a list of candidates, in order.
pub open spec fn candidate_views(candidates: Seq<Candidate>) -> Seq<CandidateView> {
    candidates.map_values(|c: Candidate| c@)
}

/// The directory in which a Linux distribution keeps its installations,
/// for the distributions that are known.
pub open spec fn default_root(distribution: Seq<char>) -> Option<Seq<char>> {
    if distribution == "ubuntu"@ || distribution == "debian"@ || distribution == "rhel"@
        || distribution == "centos"@ || distribution == "fedora"@ {
        Some("/usr/lib/jvm"@)
    } else {
        None
    }
}

/// The directories to scan: the registered ones first, then the default of
/// the system. A Linux distribution without a known default is served from
/// the registered directories alone, and not at all where there are none.
pub open spec fn roots_of(family: OsFamily, name: Seq<char>, extra: Seq<Seq<char>>) -> Result<
    Seq<Seq<char>>,
    Unavailable,
> {
    match family {
        OsFamily::Darwin => Ok(extra.push("/Library/Java/JavaVirtualMachines"@)),
        OsFamily::Linux => match default_root(name) {
            Some(root) => Ok(extra.push(root)),
            None => if extra.len() == 0 {
                Err(Unavailable::UnknownDefaultPath)
            } else {
                Ok(extra)
            },
        },
        OsFamily::Windows => Ok(extra),
    }
}

/// The default directory of a Linux distribution, if it is a known one.
pub fn default_root_of(distribution: &str) -> (r: Option<String>)
    ensures
        match default_root(distribution@) {
            Some(root) => r.is_some() && r.unwrap()@ == root,
            None => r.is_none(),
        },
{
    if same_text(distribution, "ubuntu") || same_text(distribution, "debian") || same_text(
        distribution,
        "rhel",
    ) || same_text(distribution, "centos") || same_text(distribution, "fedora") {
        Some(String::from_str("/usr/lib/jvm"))
    } else {
        None
    }
}

/// The directories to scan on this host, given the registered ones.
pub fn search_roots(os: &OperatingSystem, extra: &Vec<String>) -> (r: Result<
    Vec<String>,
    Unavailable,
>)
    ensures
        match roots_of(os.family, os.name@, texts(extra@)) {
            Ok(roots) => r.is_ok() && texts(r.unwrap()@) == roots,
            Err(e) => r == Err::<Vec<String>, Unavailable>(e),
        },
{
    let mut roots: Vec<String> = Vec::new();
    let mut i: usize = 0;
    while i < extra.len()
        invariant
            i <= extra.len(),
            texts(roots@) =~= texts(extra@).take(i as int),
        decreases extra.len() - i,
    {
        let ghost before = texts(roots@);
        let root = extra[i].clone();
        roots.push(root);
        assert(texts(roots@) =~= before.push(extra@[i as int]@));
        assert(texts(extra@).take(i + 1) =~= texts(extra@).take(i as int).push(extra@[i as int]@));
        i += 1;
    }
    assert(texts(extra@).take(extra.len() as int) =~= texts(extra@));
    let ghost copied = texts(roots@);
    match os.family {
        OsFamily::Darwin => {
            roots.push(String::from_str("/Library/Java/JavaVirtualMachines"));
            assert(texts(roots@) =~= copied.push("/Library/Java/JavaVirtualMachines"@));
            Ok(roots)
        },
        OsFamily::Linux => match default_root_of(os.name.as_str()) {
            Some(root) => {
                let ghost text = root@;
                roots.push(root);
                assert(texts(roots@) =~= copied.push(text));
                Ok(roots)
            },
            None => if roots.len() == 0 {
                Err(Unavailable::UnknownDefaultPath)
            } else {
                Ok(roots)
            },
        },
        OsFamily::Windows => Ok(roots),
    }
}

/// The installation that a directory name alone describes, for a name of
/// the form `<prefix>-java-<version>-<vendor>-<arch>`: at least three
/// parts between hyphens, the second of them `java`. The third part is the
/// version and the fifth the architecture, empty where the name ends
/// before it.
pub open spec fn from_directory_name(name: Seq<char>, home: Seq<char>) -> Option<JvmView> {
    let parts = split_on(name, '-');
    if parts.len() < 3 || parts[1] != "java"@ {
        None
    } else {
        Some(
            JvmView {
                version: parts[2],
                name: name,
                architecture: canonical_architecture(
                    if parts.len() >= 5 {
                        parts[4]
                    } else {
                        Seq::<char>::empty()
                    },
                ),
                path: home,
            },
        )
    }
}

/// Reads an installation off the name of its directory, where the name
/// follows the convention.
pub fn jvm_from_directory_name(name: &str, home: &str) -> (r: Option<Jvm>)
    ensures
        match from_directory_name(name@, home@) {
            Some(jvm) => r.is_some() && r.unwrap()@ == jvm,
            None => r.is_none(),
        },
{
    let chars = chars_of(name);
    let bounds = split_bounds(&chars, '-');
    if bounds.len() < 3 {
        return None;
    }
    let second = bounds[1];
    if !same_text(name.substring_char(second.0, second.1), "java") {
        return None;
    }
    let third = bounds[2];
    let architecture = if bounds.len() >= 5 {
        let fifth = bounds[4];
        canonicalize_architecture(name.substring_char(fifth.0, fifth.1))
    } else {
        let none = String::new();
        canonicalize_architecture(none.as_str())
    };
    Some(
        Jvm {
            version: String::from_str(name.substring_char(third.0, third.1)),
            name: String::from_str(name),
            architecture,
            path: String::from_str(home),
        },
    )
}

/// The name under which an installation found through the registry is
/// shown: its implementor and its version.
pub open spec fn registry_name(info: ReleaseView) -> Seq<char> {
    info.implementor + " - "@ + info.version
}

/// The installation in a candidate place, or `None` where the place holds
/// none that can be read.
///
/// On Darwin a place counts if it is a directory with a readable bundle
/// description and a readable release descriptor. On Linux it must be a
/// directory and no symbolic link; it is described by its release
/// descriptor, or, without a readable one, by its name. On Windows it must
/// be a directory with a readable release descriptor.
pub open spec fn jvm_of(family: OsFamily, c: CandidateView) -> Option<JvmView> {
    let info = match c.release {
        Some(content) => release_of(content),
        None => None,
    };
    if !c.is_directory {
        None
    } else {
        match family {
            OsFamily::Darwin => match (c.bundle_name, info) {
                (Some(bundle), Some(info)) => Some(
                    JvmView {
                        version: info.version,
                        name: without_quotes(bundle),
                        architecture: info.architecture,
                        path: c.home,
                    },
                ),
                _ => None,
            },
            OsFamily::Linux => if c.is_symlink {
                None
            } else {
                match info {
                    Some(info) => Some(
                        JvmView {
                            version: info.version,
                            name: c.name,
                            architecture: info.architecture,
                            path: c.home,
                        },
                    ),
                    None => from_directory_name(c.name, c.home),
                }
            },
            OsFamily::Windows => match info {
                Some(info) => Some(
                    JvmView {
                        version: info.version,
                        name: registry_name(info),
                        architecture: info.architecture,
                        path: c.home,
                    },
                ),
                None => None,
            },
        }
    }
}

/// The installations in a list of candidate places, in the order of the
/// places; a place that holds none is passed over.
pub open spec fn located(family: OsFamily, candidates: Seq<CandidateView>) -> Seq<JvmView>
    decreases candidates.len(),
{
    if candidates.len() == 0 {
        Seq::<JvmView>::empty()
    } else {
        let front = located(family, candidates.drop_last());
        match jvm_of(family, candidates.last()) {
            Some(jvm) => front.push(jvm),
            None => front,
        }
    }
}

fn release_info_of(c: &Candidate) -> (r: Option<ReleaseInfo>)
    ensures
        match c@.release {
            Some(content) => match release_of(content) {
                Some(info) => r.is_some() && r.unwrap()@ == info,
                None => r.is_none(),
            },
            None => r.is_none(),
        },
{
    match &c.release {
        Some(bytes) => match parse_release(bytes.as_slice()) {
            Ok(info) => Some(info),
            Err(_) => None,
        },
        None => None,
    }
}

/// Builds the installation that a release descriptor found through the
/// registry describes, `None` where the descriptor cannot be read.
pub fn process_release_file(jvm_path: &String, release: &[u8]) -> (r: Option<Jvm>)
    ensures
        match release_of(release@) {
            Some(info) => r.is_some() && r.unwrap()@ == (JvmView {
                version: info.version,
                name: registry_name(info),
                architecture: info.architecture,
                path: jvm_path@,
            }),
            None => r.is_none(),
        },
{
    match parse_release(release) {
        Ok(info) => Some(registry_jvm(info, jvm_path.as_str())),
        Err(_) => None,
    }
}

fn registry_jvm(info: ReleaseInfo, home: &str) -> (r: Jvm)
    ensures
        r@ == (JvmView {
            version: info@.version,
            name: registry_name(info@),
            architecture: info@.architecture,
            path: home@,
        }),
{
    let mut name = info.implementor;
    name.append(" - ");
    name.append(info.version.as_str());
    Jvm { version: info.version, name, architecture: info.architecture, path: String::from_str(home) }
}

/// The installation in one candidate place.
pub fn candidate_jvm(family: OsFamily, c: &Candidate) -> (r: Option<Jvm>)
    ensures
        match jvm_of(family, c@) {
            Some(jvm) => r.is_some() && r.unwrap()@ == jvm,
            None => r.is_none(),
        },
{
    if !c.is_directory {
        return None;
    }
    match family {
        OsFamily::Darwin => match &c.bundle_name {
            Some(bundle) => match release_info_of(c) {
                Some(info) => Some(
                    Jvm {
                        version: info.version,
                        name: strip_quotes(bundle.as_str()),
                        architecture: info.architecture,
                        path: c.home.clone(),
                    },
                ),
                None => None,
            },
            None => None,
        },
        OsFamily::Linux => {
            if c.is_symlink {
                return None;
            }
            match release_info_of(c) {
                Some(info) => Some(
                    Jvm {
                        version: info.version,
                        name: c.name.clone(),
                        architecture: info.architecture,
                        path: c.home.clone(),
                    },
                ),
                None => jvm_from_directory_name(c.name.as_str(), c.home.as_str()),
            }
        },
        OsFamily::Windows => match release_info_of(c) {
            Some(info) => Some(registry_jvm(info, c.home.as_str())),
            None => None,
        },
    }
}

/// Gathers the installations in the candidate places and puts them in
/// listing order, best first. A place that holds no readable installation
/// is passed over; the rest are still looked at.
pub fn collate_jvms(os: &OperatingSystem, candidates: &Vec<Candidate>) -> (jvms: Vec<Jvm>)
    ensures
        views(jvms@) == ranked(located(os.family, candidate_views(candidates@)), os.architecture@),
{
    let mut found: Vec<Jvm> = Vec::new();
    let mut i: usize = 0;
    assert(candidate_views(candidates@).take(0) =~= Seq::<CandidateView>::empty());
    assert(views(found@) =~= Seq::<JvmView>::empty());
    while i < candidates.len()
        invariant
            i <= candidates.len(),
            views(found@) == located(os.family, candidate_views(candidates@).take(i as int)),
        decreases candidates.len() - i,
    {
        let ghost upto = candidate_views(candidates@).take(i + 1);
        assert(upto.drop_last() =~= candidate_views(candidates@).take(i as int));
        assert(upto.last() == candidates@[i as int]@);
        match candidate_jvm(os.family, &candidates[i]) {
            Some(jvm) => {
                let ghost before = views(found@);
                let ghost view = jvm@;
                found.push(jvm);
                assert(views(found@) =~= before.push(view));
            },
            None => {},
        }
        i += 1;
    }
    assert(candidate_views(candidates@).take(candidates.len() as int) =~= candidate_views(
        candidates@,
    ));
    sort_jvms(&found, &os.architecture)
}

/// Whether a registry key names a JDK: its name begins with `JDK`.
pub fn is_jdk_key(name: &str) -> (r: bool)
    ensures
        r == has_prefix(name@, "JDK"@),
{
    starts_with_text(name, "JDK")
}

/// The install path that the registry gives for an installation: the path
/// of its OpenJ9 entry, else that of its HotSpot entry, else its legacy
/// `JavaHome`, else nothing; without one trailing backslash.
pub open spec fn registry_path(
    java_home: Option<Seq<char>>,
    hotspot: Option<Seq<char>>,
    openj9: Option<Seq<char>>,
) -> Seq<char> {
    let raw = match (openj9, hotspot, java_home) {
        (Some(path), _, _) => path,
        (None, Some(path), _) => path,
        (None, None, Some(path)) => path,
        (None, None, None) => Seq::<char>::empty(),
    };
    if raw.len() > 0 && raw.last() == '\\' {
        raw.drop_last()
    } else {
        raw
    }
}

fn without_trailing_separator(path: &str) -> (r: String)
    ensures
        r@ == (if path@.len() > 0 && path@.last() == '\\' {
            path@.drop_last()
        } else {
            path@
        }),
{
    let n: usize = path.unicode_len();
    if n > 0 && path.get_char(n - 1) == '\\' {
        let kept = path.substring_char(0, n - 1);
        assert(kept@ =~= path@.drop_last());
        String::from_str(kept)
    } else {
        String::from_str(path)
    }
}

/// Resolves the install path of an installation from the values that the
/// registry holds for it.
pub fn install_path(java_home: Option<&str>, hotspot: Option<&str>, openj9: Option<&str>) -> (r:
    String)
    ensures
        r@ == registry_path(
            match java_home {
                Some(path) => Some(path@),
                None => None,
            },
            match hotspot {
                Some(path) => Some(path@),
                None => None,
            },
            match openj9 {
                Some(path) => Some(path@),
                None => None,
            },
        ),
{
    match (openj9, hotspot, java_home) {
        (Some(path), _, _) => without_trailing_separator(path),
        (None, Some(path), _) => without_trailing_separator(path),
        (None, None, Some(path)) => without_trailing_separator(path),
        (None, None, None) => String::new(),
    }
}

proof fn lemma_located_concat(family: OsFamily, a: Seq<CandidateView>, b: Seq<CandidateView>)
    ensures
        located(family, a + b) == located(family, a) + located(family, b),
    decreases b.len(),
{
    if b.len() == 0 {
        assert(a + b =~= a);
        assert(located(family, a) + located(family, b) =~= located(family, a));
    } else {
        lemma_located_concat(family, a, b.drop_last());
        assert((a + b).drop_last() =~= a + b.drop_last());
        assert((a + b).last() == b.last());
        match jvm_of(family, b.last()) {
            Some(jvm) => {
                assert((located(family, a) + located(family, b.drop_last())).push(jvm) =~= located(
                    family,
                    a,
                ) + located(family, b.drop_last()).push(jvm));
            },
            None => {},
        }
    }
}

/// A place without a readable release descriptor holds no installation,
/// unless it is a Linux directory whose name follows the naming
/// convention.
pub proof fn law_unreadable_holds_nothing(family: OsFamily, c: CandidateView)
    requires
        match c.release {
            Some(content) => release_of(content).is_none(),
            None => true,
        },
        family == OsFamily::Linux ==> from_directory_name(c.name, c.home).is_none(),
    ensures
        jvm_of(family, c).is_none(),
{
}

/// A place that holds no installation changes nothing for the others: the
/// places before and after it are located as if it had not been there.
pub proof fn law_skipped_place_is_ignored(
    family: OsFamily,
    before: Seq<CandidateView>,
    c: CandidateView,
    after: Seq<CandidateView>,
)
    requires
        jvm_of(family, c).is_none(),
    ensures
        located(family, before + seq![c] + after) == located(family, before + after),
{
    lemma_located_concat(family, before + seq![c], after);
    lemma_located_concat(family, before, seq![c]);
    lemma_located_concat(family, before, after);
    assert(seq![c].drop_last() =~= Seq::<CandidateView>::empty());
    assert(seq![c].last() == c);
    assert(located(family, Seq::<CandidateView>::empty()) =~= Seq::<JvmView>::empty());
    assert(located(family, seq![c]) =~= Seq::<JvmView>::empty());
    assert(located(family, before) + Seq::<JvmView>::empty() =~= located(family, before));
}

} // verus!
