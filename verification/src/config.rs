//! The registered search locations: an ordered list of directories that
//! are scanned besides the system's own.

use crate::text::{same_text, texts};
use vstd::prelude::*;
use vstd::string::*;

verus! {

/// The locations that the user has registered, in the order of
/// registration.
#[derive(Debug, PartialEq, Eq)]
pub struct Config {
    pub paths: Vec<String>,
}

impl Default for Config {
    fn default() -> (r: Self)
        ensures
            r.paths@.len() == 0,
    {
        Config { paths: Vec::new() }
    }
}

/// The list after a location was registered: a new location goes to the
/// end, a known one changes nothing.
pub open spec fn registered(paths: Seq<Seq<char>>, location: Seq<char>) -> Seq<Seq<char>> {
    if paths.contains(location) {
        paths
    } else {
        paths.push(location)
    }
}

/// The list without the first occurrence of a location.
pub open spec fn unregistered(paths: Seq<Seq<char>>, location: Seq<char>) -> Seq<Seq<char>>
    decreases paths.len(),
{
    if paths.len() == 0 {
        paths
    } else if paths[0] == location {
        paths.skip(1)
    } else {
        seq![paths[0]] + unregistered(paths.skip(1), location)
    }
}

/// The index of the first occurrence of a location in the list.
pub fn position_of(paths: &Vec<String>, location: &str) -> (r: Option<usize>)
    ensures
        match r {
            Some(i) => i < paths.len() && paths@[i as int]@ == location@ && forall|k: int|
                0 <= k < i ==> (#[trigger] paths@[k])@ != location@,
            None => forall|k: int| 0 <= k < paths.len() ==> (#[trigger] paths@[k])@ != location@,
        },
{
    let mut i: usize = 0;
    while i < paths.len()
        invariant
            i <= paths.len(),
            forall|k: int| 0 <= k < i ==> (#[trigger] paths@[k])@ != location@,
        decreases paths.len() - i,
    {
        if same_text(paths[i].as_str(), location) {
            return Some(i);
        }
        i += 1;
    }
    None
}

proof fn lemma_unregistered_at(paths: Seq<Seq<char>>, location: Seq<char>, i: int)
    requires
        0 <= i < paths.len(),
        paths[i] == location,
        forall|k: int| 0 <= k < i ==> #[trigger] paths[k] != location,
    ensures
        unregistered(paths, location) == paths.remove(i),
    decreases i,
{
    if i == 0 {
        assert(paths.remove(0) =~= paths.skip(1));
    } else {
        let rest = paths.skip(1);
        assert forall|k: int| 0 <= k < i - 1 implies #[trigger] rest[k] != location by {
            assert(rest[k] == paths[k + 1]);
        }
        lemma_unregistered_at(rest, location, i - 1);
        assert(seq![paths[0]] + rest.remove(i - 1) =~= paths.remove(i));
    }
}

proof fn lemma_unregistered_absent(paths: Seq<Seq<char>>, location: Seq<char>)
    requires
        forall|k: int| 0 <= k < paths.len() ==> #[trigger] paths[k] != location,
    ensures
        unregistered(paths, location) == paths,
    decreases paths.len(),
{
    if paths.len() > 0 {
        let rest = paths.skip(1);
        assert forall|k: int| 0 <= k < rest.len() implies #[trigger] rest[k] != location by {
            assert(rest[k] == paths[k + 1]);
        }
        lemma_unregistered_absent(rest, location);
        assert(seq![paths[0]] + rest =~= paths);
    }
}

/// Registering never enters a location twice: a list without repetition
/// stays without, and registering what was just registered changes
/// nothing.
pub proof fn law_register_once(paths: Seq<Seq<char>>, location: Seq<char>)
    ensures
        paths.no_duplicates() ==> registered(paths, location).no_duplicates(),
        registered(registered(paths, location), location) == registered(paths, location),
        registered(paths, location).contains(location),
{
    let after = registered(paths, location);
    if !paths.contains(location) {
        assert(after[paths.len() as int] == location);
        if paths.no_duplicates() {
            assert forall|i: int, j: int| 0 <= i < after.len() && 0 <= j < after.len() && i
                != j implies after[i] != after[j] by {
                if i < paths.len() && j < paths.len() {
                } else if i < paths.len() {
                    assert(paths.contains(paths[i]));
                } else {
                    assert(paths.contains(paths[j]));
                }
            }
        }
    }
}

impl Config {
    /// Registers a location, unless it is registered already. Says whether
    /// the list has changed.
    pub fn register_location(&mut self, location: &str) -> (changed: bool)
        ensures
            texts(final(self).paths@) == registered(texts(old(self).paths@), location@),
            changed == !texts(old(self).paths@).contains(location@),
    {
        let ghost before = texts(self.paths@);
        match position_of(&self.paths, location) {
            Some(i) => {
                assert(before[i as int] == location@);
                false
            },
            None => {
                assert(!before.contains(location@)) by {
                    if before.contains(location@) {
                        let k = choose|k: int| 0 <= k < before.len() && before[k] == location@;
                        assert(self.paths@[k]@ == location@);
                    }
                }
                self.paths.push(String::from_str(location));
                assert(texts(self.paths@) =~= before.push(location@));
                true
            },
        }
    }

    /// Removes the first registration of a location, if there is one.
    pub fn remove_location(&mut self, location: &str)
        ensures
            texts(final(self).paths@) == unregistered(texts(old(self).paths@), location@),
    {
        let ghost before = texts(self.paths@);
        match position_of(&self.paths, location) {
            Some(i) => {
                proof {
                    assert forall|k: int| 0 <= k < i implies #[trigger] before[k] != location@ by {
                        assert(before[k] == self.paths@[k]@);
                    }
                    lemma_unregistered_at(before, location@, i as int);
                }
                let _ = self.paths.remove(i);
                assert(texts(self.paths@) =~= before.remove(i as int));
            },
            None => {
                proof {
                    assert forall|k: int| 0 <= k < before.len() implies #[trigger] before[k]
                        != location@ by {
                        assert(before[k] == self.paths@[k]@);
                    }
                    lemma_unregistered_absent(before, location@);
                }
            },
        }
    }
}

} // verus!
