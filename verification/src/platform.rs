//! Identifying the host: its family, its name and its native architecture,
//! from what the kernel or the system configuration reports.

use crate::release::{entry, field_of, field_text, first_value, parsed_properties, read_entries};
use crate::text::{
    chars_of, eq_ignoring_case, same_ignoring_case, split_bounds, split_on, trim_string, trimmed,
};
use vstd::prelude::*;
use vstd::string::*;

verus! {

/// The kind of system, which decides how installations are looked for.
#[derive(Clone, Copy, Debug, PartialEq, Eq, Structural)]
pub enum OsFamily {
    Darwin,
    Linux,
    Windows,
}

/// Why the host cannot be served.
#[derive(Clone, Copy, Debug, PartialEq, Eq, Structural)]
pub enum Unavailable {
    /// The system is none of the supported families.
    UnsupportedSystem,
    /// The processor architecture is not a known one.
    UnknownArchitecture,
    /// A source that identifies the host was missing or could not be read.
    UnreadableIdentity,
    /// No directory is known in which this system keeps its installations,
    /// and none was registered.
    UnknownDefaultPath,
}

/// What the kernel says of the host.
#[derive(Debug, PartialEq, Eq)]
pub struct Kernel {
    pub family: OsFamily,
    /// The native architecture, in its canonical spelling.
    pub architecture: String,
}

/// The host, as it is known for the whole run.
#[derive(Debug, PartialEq, Eq)]
pub struct OperatingSystem {
    pub family: OsFamily,
    /// The distribution id on Linux, a product name elsewhere.
    pub name: String,
    /// The native architecture, in its canonical spelling.
    pub architecture: String,
}

/// The family that a kernel name stands for.
pub open spec fn posix_family(os: Seq<char>) -> Option<OsFamily> {
    if same_ignoring_case(os, "Darwin"@) {
        Some(OsFamily::Darwin)
    } else if same_ignoring_case(os, "Linux"@) {
        Some(OsFamily::Linux)
    } else {
        None
    }
}

/// The native architecture of a Darwin host, where the token is known:
/// `arm` stands for `aarch64`, `i386` and `x86_64` for `x86_64`.
pub open spec fn darwin_architecture(arch: Seq<char>) -> Option<Seq<char>> {
    if same_ignoring_case(arch, "arm"@) {
        Some("aarch64"@)
    } else if same_ignoring_case(arch, "i386"@) || same_ignoring_case(arch, "x86_64"@) {
        Some("x86_64"@)
    } else {
        None
    }
}

/// The native architecture of a Linux host, where the token is known.
pub open spec fn linux_architecture(arch: Seq<char>) -> Option<Seq<char>> {
    if same_ignoring_case(arch, "x86_64"@) {
        Some("x86_64"@)
    } else if same_ignoring_case(arch, "i386"@) || same_ignoring_case(arch, "i586"@)
        || same_ignoring_case(arch, "i686"@) {
        Some("x86"@)
    } else if same_ignoring_case(arch, "aarch64"@) {
        Some("aarch64"@)
    } else if same_ignoring_case(arch, "arm64"@) {
        Some("arm64"@)
    } else {
        None
    }
}

/// The native architecture of a Windows host, where the token is known.
pub open spec fn windows_architecture(arch: Seq<char>) -> Option<Seq<char>> {
    if same_ignoring_case(arch, "amd64"@) {
        Some("x86_64"@)
    } else if same_ignoring_case(arch, "x86"@) {
        Some("x86"@)
    } else if same_ignoring_case(arch, "arm64"@) {
        Some("arm64"@)
    } else {
        None
    }
}

/// What a kernel name and an architecture token say of the host. A
/// system that is neither Darwin nor Linux is not supported; on either, an
/// architecture token that is not known is an error.
pub open spec fn kernel_of(os: Seq<char>, arch: Seq<char>) -> Result<
    (OsFamily, Seq<char>),
    Unavailable,
> {
    match posix_family(os) {
        Some(family) => {
            let known = if family == OsFamily::Linux {
                linux_architecture(arch)
            } else {
                darwin_architecture(arch)
            };
            match known {
                Some(native) => Ok((family, native)),
                None => Err(Unavailable::UnknownArchitecture),
            }
        },
        None => Err(Unavailable::UnsupportedSystem),
    }
}

/// The two fields of the line `<kernel name> <processor>`, each without a
/// line ending; `None` for a line without a space, which has no second
/// field.
pub open spec fn tokens_of(output: Seq<char>) -> Option<(Seq<char>, Seq<char>)> {
    let parts = split_on(output, ' ');
    if parts.len() < 2 {
        None
    } else {
        Some((trimmed(parts[0]), trimmed(parts[1])))
    }
}

/// What the line `<kernel name> <processor>` says of the host.
pub open spec fn probed(output: Seq<char>) -> Result<(OsFamily, Seq<char>), Unavailable> {
    match tokens_of(output) {
        Some((os, arch)) => kernel_of(os, arch),
        None => Err(Unavailable::UnreadableIdentity),
    }
}

/// A host is identified only where both its system and its architecture
/// are known: an unknown system is unsupported whatever the architecture,
/// and on a known system an unknown architecture token is an error, on
/// Darwin as on Linux.
pub proof fn law_unknown_host_is_unavailable(os: Seq<char>, arch: Seq<char>)
    ensures
        posix_family(os).is_none() ==> kernel_of(os, arch) == Err::<
            (OsFamily, Seq<char>),
            Unavailable,
        >(Unavailable::UnsupportedSystem),
        posix_family(os) == Some(OsFamily::Linux) && linux_architecture(arch).is_none()
            ==> kernel_of(os, arch) == Err::<(OsFamily, Seq<char>), Unavailable>(
            Unavailable::UnknownArchitecture,
        ),
        posix_family(os) == Some(OsFamily::Darwin) && darwin_architecture(arch).is_none()
            ==> kernel_of(os, arch) == Err::<(OsFamily, Seq<char>), Unavailable>(
            Unavailable::UnknownArchitecture,
        ),
        kernel_of(os, arch).is_ok() ==> posix_family(os).is_some() && (linux_architecture(
            arch,
        ).is_some() || darwin_architecture(arch).is_some()),
{
}

/// Whether a result of probing says what `expected` says.
pub open spec fn kernel_is(
    r: Result<Kernel, Unavailable>,
    expected: Result<(OsFamily, Seq<char>), Unavailable>,
) -> bool {
    match expected {
        Ok((family, native)) => r.is_ok() && r.unwrap().family == family
            && r.unwrap().architecture@ == native,
        Err(e) => r == Err::<Kernel, Unavailable>(e),
    }
}

/// Decides family and native architecture from a kernel name and an
/// architecture token. An unknown system or architecture is an error, never
/// a guess.
pub fn identify_kernel(os: &str, arch: &str) -> (r: Result<Kernel, Unavailable>)
    ensures
        kernel_is(r, kernel_of(os@, arch@)),
{
    if eq_ignoring_case(os, "Darwin") {
        if eq_ignoring_case(arch, "arm") {
            Ok(Kernel { family: OsFamily::Darwin, architecture: String::from_str("aarch64") })
        } else if eq_ignoring_case(arch, "i386") || eq_ignoring_case(arch, "x86_64") {
            Ok(Kernel { family: OsFamily::Darwin, architecture: String::from_str("x86_64") })
        } else {
            Err(Unavailable::UnknownArchitecture)
        }
    } else if eq_ignoring_case(os, "Linux") {
        if eq_ignoring_case(arch, "x86_64") {
            Ok(Kernel { family: OsFamily::Linux, architecture: String::from_str("x86_64") })
        } else if eq_ignoring_case(arch, "i386") || eq_ignoring_case(arch, "i586")
            || eq_ignoring_case(arch, "i686") {
            Ok(Kernel { family: OsFamily::Linux, architecture: String::from_str("x86") })
        } else if eq_ignoring_case(arch, "aarch64") {
            Ok(Kernel { family: OsFamily::Linux, architecture: String::from_str("aarch64") })
        } else if eq_ignoring_case(arch, "arm64") {
            Ok(Kernel { family: OsFamily::Linux, architecture: String::from_str("arm64") })
        } else {
            Err(Unavailable::UnknownArchitecture)
        }
    } else {
        Err(Unavailable::UnsupportedSystem)
    }
}

/// The kernel name and the processor token of the line that the kernel
/// reports, `<kernel name> <processor>`.
pub fn kernel_tokens(output: &str) -> (r: Option<(String, String)>)
    ensures
        match tokens_of(output@) {
            Some((os, arch)) => r.is_some() && r.unwrap().0@ == os && r.unwrap().1@ == arch,
            None => r.is_none(),
        },
{
    let chars = chars_of(output);
    let bounds = split_bounds(&chars, ' ');
    if bounds.len() < 2 {
        return None;
    }
    let first = bounds[0];
    let second = bounds[1];
    let os = trim_string(output.substring_char(first.0, first.1));
    let arch = trim_string(output.substring_char(second.0, second.1));
    Some((String::from_str(os), String::from_str(arch)))
}

/// Reads the line that the kernel reports, `<kernel name> <processor>`.
pub fn probe_kernel(output: &str) -> (r: Result<Kernel, Unavailable>)
    ensures
        kernel_is(r, probed(output@)),
{
    match kernel_tokens(output) {
        Some((os, arch)) => identify_kernel(os.as_str(), arch.as_str()),
        None => Err(Unavailable::UnreadableIdentity),
    }
}

/// Describes a Windows host from its product name and the processor
/// architecture that the system configuration reports.
pub fn windows_host(product_name: &str, arch: &str) -> (r: Result<OperatingSystem, Unavailable>)
    ensures
        match windows_architecture(arch@) {
            Some(native) => r.is_ok() && r.unwrap().family == OsFamily::Windows
                && r.unwrap().name@ == product_name@ && r.unwrap().architecture@ == native,
            None => r == Err::<OperatingSystem, Unavailable>(Unavailable::UnknownArchitecture),
        },
{
    let native = if eq_ignoring_case(arch, "amd64") {
        String::from_str("x86_64")
    } else if eq_ignoring_case(arch, "x86") {
        String::from_str("x86")
    } else if eq_ignoring_case(arch, "arm64") {
        String::from_str("arm64")
    } else {
        return Err(Unavailable::UnknownArchitecture);
    };
    Ok(
        OperatingSystem {
            family: OsFamily::Windows,
            name: String::from_str(product_name),
            architecture: native,
        },
    )
}

/// The name of a host of the given family: `macOS` on Darwin; on Linux the
/// `ID` of the system's release description, `None` where that description
/// is missing or cannot be read. A Windows host has the product name that
/// its configuration gives, which is not to be had from here.
pub open spec fn host_name(family: OsFamily, os_release: Option<Seq<u8>>) -> Option<Seq<char>> {
    match family {
        OsFamily::Darwin => Some("macOS"@),
        OsFamily::Linux => match os_release {
            Some(content) => match parsed_properties(content) {
                Some(map) => Some(field_text(entry(map, "ID"@))),
                None => None,
            },
            None => None,
        },
        OsFamily::Windows => None,
    }
}

/// The name of a Linux distribution, from the entries of the system's
/// release description.
pub fn distribution_id(entries: &Vec<(String, String)>) -> (r: String)
    ensures
        r@ == field_text(first_value(entries@, "ID"@)),
{
    field_of(entries, "ID")
}

/// Completes what the kernel said with the host's name. `os_release` holds
/// the bytes of the system's release description, where it could be read;
/// only a Linux host needs it.
pub fn describe_host(kernel: Kernel, os_release: Option<&[u8]>) -> (r: Result<
    OperatingSystem,
    Unavailable,
>)
    ensures
        match host_name(
            kernel.family,
            match os_release {
                Some(content) => Some(content@),
                None => None,
            },
        ) {
            Some(name) => r.is_ok() && r.unwrap().family == kernel.family && r.unwrap().name@
                == name && r.unwrap().architecture@ == kernel.architecture@,
            None => r == Err::<OperatingSystem, Unavailable>(Unavailable::UnreadableIdentity),
        },
{
    match kernel.family {
        OsFamily::Darwin => Ok(
            OperatingSystem {
                family: OsFamily::Darwin,
                name: String::from_str("macOS"),
                architecture: kernel.architecture,
            },
        ),
        OsFamily::Linux => match os_release {
            Some(content) => match read_entries(content) {
                Some(entries) => Ok(
                    OperatingSystem {
                        family: OsFamily::Linux,
                        name: distribution_id(&entries),
                        architecture: kernel.architecture,
                    },
                ),
                None => Err(Unavailable::UnreadableIdentity),
            },
            None => Err(Unavailable::UnreadableIdentity),
        },
        OsFamily::Windows => Err(Unavailable::UnreadableIdentity),
    }
}

} // verus!
