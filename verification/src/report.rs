//! What a run ends with: its outcome, and the lines that show the
//! selection.

use crate::jvm::{views, Jvm, JvmView};
use crate::platform::Unavailable;
use crate::text::texts;
use vstd::prelude::*;
use vstd::string::*;

verus! {

/// How a run ends. The four outcomes are told apart so that each can have
/// an exit status of its own.
#[derive(Clone, Copy, Debug, PartialEq, Eq, Structural)]
pub enum Outcome {
    /// At least one installation was selected.
    Found,
    /// Nothing was selected, and that is no failure.
    NothingFound,
    /// Nothing was selected, and the caller asked for that to fail.
    NothingFoundFailure,
    /// The host cannot be served.
    HostUnavailable,
}

/// The outcome of a run, from the number of installations selected, or
/// `None` where the host could not be served, and from whether the caller
/// wants an empty selection to fail.
pub open spec fn outcome(selected: Option<nat>, strict: bool) -> Outcome {
    match selected {
        None => Outcome::HostUnavailable,
        Some(count) => if count > 0 {
            Outcome::Found
        } else if strict {
            Outcome::NothingFoundFailure
        } else {
            Outcome::NothingFound
        },
    }
}

/// The number of installations in a selection, `None` for a host that
/// could not be served.
pub open spec fn selected_count(selection: Result<Vec<Jvm>, Unavailable>) -> Option<nat> {
    match selection {
        Ok(jvms) => Some(jvms@.len()),
        Err(_) => None,
    }
}

/// Decides how a run ends.
pub fn outcome_of(selection: &Result<Vec<Jvm>, Unavailable>, strict: bool) -> (r: Outcome)
    ensures
        r == outcome(selected_count(*selection), strict),
{
    match selection {
        Ok(jvms) => if jvms.len() > 0 {
            Outcome::Found
        } else if strict {
            Outcome::NothingFoundFailure
        } else {
            Outcome::NothingFound
        },
        Err(_) => Outcome::HostUnavailable,
    }
}

/// A host that cannot be served never ends like a selection, empty or
/// not, whatever the caller asked for.
pub proof fn law_unavailable_is_distinct(count: nat, strict: bool, other_strict: bool)
    ensures
        outcome(None, strict) == Outcome::HostUnavailable,
        outcome(Some(count), other_strict) != Outcome::HostUnavailable,
{
}

/// The line that shows one installation in full.
pub open spec fn detail_text(jvm: JvmView) -> Seq<char> {
    jvm.version + " ("@ + jvm.architecture + ") \""@ + jvm.name + "\" - "@ + jvm.path
}

/// The lines that show a selection: in full, one line for each
/// installation; else the path of the best one alone.
pub open spec fn report_lines(selection: Seq<JvmView>, detailed: bool) -> Seq<Seq<char>> {
    if detailed {
        selection.map_values(|jvm: JvmView| detail_text(jvm))
    } else if selection.len() > 0 {
        seq![selection[0].path]
    } else {
        Seq::<Seq<char>>::empty()
    }
}

/// Shows one installation in full: version, architecture, name and path.
pub fn detail_line(jvm: &Jvm) -> (r: String)
    ensures
        r@ == detail_text(jvm@),
{
    let mut line = jvm.version.clone();
    line.append(" (");
    line.append(jvm.architecture.as_str());
    line.append(") \"");
    line.append(jvm.name.as_str());
    line.append("\" - ");
    line.append(jvm.path.as_str());
    line
}

/// Shows a selection.
pub fn report(selection: &Vec<Jvm>, detailed: bool) -> (lines: Vec<String>)
    ensures
        texts(lines@) == report_lines(views(selection@), detailed),
{
    let mut lines: Vec<String> = Vec::new();
    if detailed {
        let mut i: usize = 0;
        while i < selection.len()
            invariant
                i <= selection.len(),
                texts(lines@) =~= report_lines(views(selection@), true).take(i as int),
            decreases selection.len() - i,
        {
            let ghost before = texts(lines@);
            let line = detail_line(&selection[i]);
            let ghost text = line@;
            lines.push(line);
            assert(texts(lines@) =~= before.push(text));
            i += 1;
        }
        assert(report_lines(views(selection@), true).take(selection.len() as int) =~= report_lines(
            views(selection@),
            true,
        ));
    } else if selection.len() > 0 {
        lines.push(selection[0].path.clone());
        assert(texts(lines@) =~= seq![selection@[0]@.path]);
    } else {
        assert(texts(lines@) =~= Seq::<Seq<char>>::empty());
    }
    lines
}

} // verus!
