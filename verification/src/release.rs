//! Reading a release descriptor: the `key=value` file in which an
//! installation states its version, architecture and implementor.

use crate::text::{same_text, strip_quotes, without_quotes};
use vstd::prelude::*;
use vstd::string::*;

verus! {

/// The error of `java_properties::read`, carried through unread.
#[verifier::external_type_specification]
#[verifier::external_body]
pub struct ExPropertiesError(java_properties::PropertiesError);

/// What `java_properties::read` makes of the bytes of a properties file:
/// the value of each key, or `None` where it rejects the file.
pub uninterp spec fn parsed_properties(content: Seq<u8>) -> Option<Map<Seq<char>, Seq<char>>>;

/// The value that a map holds for a key, if any.
pub open spec fn entry(map: Map<Seq<char>, Seq<char>>, key: Seq<char>) -> Option<Seq<char>> {
    if map.contains_key(key) {
        Some(map[key])
    } else {
        None
    }
}

/// The value of the first pair with the given key, if any.
pub open spec fn first_value(pairs: Seq<(String, String)>, key: Seq<char>) -> Option<Seq<char>>
    decreases pairs.len(),
{
    if pairs.len() == 0 {
        None
    } else if pairs[0].0@ == key {
        Some(pairs[0].1@)
    } else {
        first_value(pairs.skip(1), key)
    }
}

/// Calls `java_properties::read` on the bytes of a properties file and
/// hands out the entries of the map it returns, in no particular order.
///
/// Not proved: that the call returns for every input, and the same for the
/// same bytes, so that `parsed_properties` names its result; that the
/// entries handed out hold each key of the map once, with its value; and
/// that an error is returned exactly where the call rejects the file.
#[verifier::external_body]
fn read_properties(content: &[u8]) -> (r: Result<
    Vec<(String, String)>,
    java_properties::PropertiesError,
>)
    ensures
        match r {
            Ok(pairs) => parsed_properties(content@).is_some() && forall|key: Seq<char>|
                #[trigger] first_value(pairs@, key) == entry(
                    parsed_properties(content@).unwrap(),
                    key,
                ),
            Err(_) => parsed_properties(content@).is_none(),
        },
{
    match java_properties::read(content) {
        Ok(map) => Ok(map.into_iter().collect()),
        Err(e) => Err(e),
    }
}

/// The entries of a properties file, in no particular order, or `None`
/// where the bytes are no well-formed properties file.
pub fn read_entries(content: &[u8]) -> (r: Option<Vec<(String, String)>>)
    ensures
        match parsed_properties(content@) {
            Some(map) => r.is_some() && forall|key: Seq<char>|
                #[trigger] first_value(r.unwrap()@, key) == entry(map, key),
            None => r.is_none(),
        },
{
    match read_properties(content) {
        Ok(pairs) => Some(pairs),
        Err(_) => None,
    }
}

/// Why a release descriptor could not be read.
#[derive(Clone, Copy, Debug, PartialEq, Eq, Structural)]
pub enum ParseError {
    /// The bytes are no well-formed properties file.
    Malformed,
}

/// What a release descriptor says of an installation.
#[derive(Debug, PartialEq, Eq)]
pub struct ReleaseInfo {
    /// The version, as written; empty where the descriptor has none.
    pub version: String,
    /// The architecture, in its canonical spelling; empty where the
    /// descriptor has none.
    pub architecture: String,
    /// The implementor; empty where the descriptor has none.
    pub implementor: String,
}

/// The text of a `ReleaseInfo`'s fields.
pub struct ReleaseView {
    pub version: Seq<char>,
    pub architecture: Seq<char>,
    pub implementor: Seq<char>,
}

impl View for ReleaseInfo {
    type V = ReleaseView;

    open spec fn view(&self) -> ReleaseView {
        ReleaseView {
            version: self.version@,
            architecture: self.architecture@,
            implementor: self.implementor@,
        }
    }
}

/// The canonical spelling of an architecture: `amd64` is `x86_64`; `i386`,
/// `i586` and `i686` are `x86`; every other token stands for itself, so
/// that `arm64` and `aarch64` stay apart.
pub open spec fn canonical_architecture(token: Seq<char>) -> Seq<char> {
    if token == "amd64"@ {
        "x86_64"@
    } else if token == "i386"@ || token == "i586"@ || token == "i686"@ {
        "x86"@
    } else {
        token
    }
}

/// The canonical spelling of an architecture token.
pub fn canonicalize_architecture(token: &str) -> (r: String)
    ensures
        r@ == canonical_architecture(token@),
{
    if same_text(token, "amd64") {
        String::from_str("x86_64")
    } else if same_text(token, "i386") || same_text(token, "i586") || same_text(token, "i686") {
        String::from_str("x86")
    } else {
        String::from_str(token)
    }
}

/// A field of a descriptor as it is used: empty where the key is missing,
/// and without double quotes.
pub open spec fn field_text(value: Option<Seq<char>>) -> Seq<char> {
    match value {
        Some(text) => without_quotes(text),
        None => Seq::<char>::empty(),
    }
}

/// What a descriptor says, given the values of its three keys.
pub open spec fn release_fields(
    version: Option<Seq<char>>,
    architecture: Option<Seq<char>>,
    implementor: Option<Seq<char>>,
) -> ReleaseView {
    ReleaseView {
        version: field_text(version),
        architecture: canonical_architecture(field_text(architecture)),
        implementor: field_text(implementor),
    }
}

/// The field under `key` among the entries of a descriptor.
pub fn field_of(pairs: &Vec<(String, String)>, key: &str) -> (r: String)
    ensures
        r@ == field_text(first_value(pairs@, key@)),
{
    let mut i: usize = 0;
    assert(pairs@.skip(0) =~= pairs@);
    while i < pairs.len()
        invariant
            i <= pairs.len(),
            first_value(pairs@, key@) == first_value(pairs@.skip(i as int), key@),
        decreases pairs.len() - i,
    {
        assert(pairs@.skip(i as int)[0] == pairs@[i as int]);
        if same_text(pairs[i].0.as_str(), key) {
            return strip_quotes(pairs[i].1.as_str());
        }
        assert(pairs@.skip(i as int).skip(1) =~= pairs@.skip(i + 1));
        i += 1;
    }
    String::new()
}

/// What the entries of a descriptor say of the installation.
pub fn release_info(pairs: &Vec<(String, String)>) -> (r: ReleaseInfo)
    ensures
        r@ == release_fields(
            first_value(pairs@, "JAVA_VERSION"@),
            first_value(pairs@, "OS_ARCH"@),
            first_value(pairs@, "IMPLEMENTOR"@),
        ),
{
    let architecture = field_of(pairs, "OS_ARCH");
    ReleaseInfo {
        version: field_of(pairs, "JAVA_VERSION"),
        architecture: canonicalize_architecture(architecture.as_str()),
        implementor: field_of(pairs, "IMPLEMENTOR"),
    }
}

/// What a descriptor with the given bytes says, if it can be read.
pub open spec fn release_of(content: Seq<u8>) -> Option<ReleaseView> {
    match parsed_properties(content) {
        Some(map) => Some(
            release_fields(
                entry(map, "JAVA_VERSION"@),
                entry(map, "OS_ARCH"@),
                entry(map, "IMPLEMENTOR"@),
            ),
        ),
        None => None,
    }
}

/// Reads a release descriptor. A missing key gives an empty field; only a
/// file that is no properties file at all is an error.
pub fn parse_release(content: &[u8]) -> (r: Result<ReleaseInfo, ParseError>)
    ensures
        match release_of(content@) {
            Some(info) => r.is_ok() && r.unwrap()@ == info,
            None => r == Err::<ReleaseInfo, ParseError>(ParseError::Malformed),
        },
{
    match read_entries(content) {
        Some(pairs) => Ok(release_info(&pairs)),
        None => Err(ParseError::Malformed),
    }
}

} // verus!
