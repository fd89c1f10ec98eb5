//! Filtering the discovered installations and ordering the survivors,
//! best first.

use crate::jvm::{text_of, views, Jvm, JvmView};
use crate::version::{
    compare_version_values, cut_index, dotted, has_components, is_legacy, key_order,
    lemma_cut_granularity, lemma_cut_index_bounds, lemma_cut_stable, lemma_dotted_take,
    lemma_key_of_cut, lemma_key_order_antisymmetric, lemma_key_order_reflexive,
    lemma_key_order_transitive, lemma_key_order_zero, lemma_split_len, ordering_of, separators,
    truncate_to_granularity, truncated_to, version_key, version_order,
};
use std::cmp::Ordering;
use vstd::prelude::*;
use vstd::string::*;

verus! {

/// Whether a filter on a text field lets a value through: an absent filter
/// lets everything through, a present one only the very same text.
pub open spec fn text_passes(filter: Option<Seq<char>>, value: Seq<char>) -> bool {
    match filter {
        Some(wanted) => value == wanted,
        None => true,
    }
}

/// Whether the installation has the wanted architecture, where one is
/// wanted.
pub fn filter_arch(arch: &Option<String>, jvm: &Jvm) -> (r: bool)
    ensures
        r == text_passes(text_of(*arch), jvm@.architecture),
{
    match arch {
        Some(wanted) => jvm.architecture == *wanted,
        None => true,
    }
}

/// Whether the installation has the wanted name, where one is wanted.
pub fn filter_name(name: &Option<String>, jvm: &Jvm) -> (r: bool)
    ensures
        r == text_passes(text_of(*name), jvm@.name),
{
    match name {
        Some(wanted) => jvm.name == *wanted,
        None => true,
    }
}

/// The installation's version at the granularity of the query.
pub fn get_compare_version(jvm: &Jvm, version: &String) -> (r: String)
    ensures
        r@ == truncated_to(jvm@.version, version@),
{
    truncate_to_granularity(jvm.version.as_str(), version.as_str())
}

/// Whether a query asks for a minimum: it ends in `+`.
pub open spec fn is_minimum_query(query: Seq<char>) -> bool {
    query.len() > 0 && query.last() == '+'
}

/// Whether an installed version answers a query. A query that ends in `+`
/// asks for its bound or anything newer, any other for that very version;
/// either way the installed version is first reduced to the granularity of
/// what it is held against.
pub open spec fn version_matches(query: Seq<char>, installed: Seq<char>) -> bool {
    if is_minimum_query(query) {
        let bound = query.drop_last();
        version_order(truncated_to(installed, bound), bound) >= 0
    } else {
        version_order(query, truncated_to(installed, query)) == 0
    }
}

/// The bound of a minimum query, or `None` where the query asks for an
/// exact version.
pub fn minimum_bound(query: &str) -> (r: Option<String>)
    ensures
        is_minimum_query(query@) ==> r.is_some() && r.unwrap()@ == query@.drop_last(),
        !is_minimum_query(query@) ==> r.is_none(),
{
    let n: usize = query.unicode_len();
    if n > 0 && query.get_char(n - 1) == '+' {
        let bound = query.substring_char(0, n - 1);
        assert(bound@ =~= query@.drop_last());
        Some(String::from_str(bound))
    } else {
        None
    }
}

/// Whether the installation answers the version query, where there is one.
pub fn filter_ver(ver: &Option<String>, jvm: &Jvm) -> (r: bool)
    ensures
        r == match *ver {
            Some(query) => version_matches(query@, jvm@.version),
            None => true,
        },
{
    match ver {
        Some(query) => {
            match minimum_bound(query.as_str()) {
                Some(bound) => {
                    let installed = get_compare_version(jvm, &bound);
                    match compare_version_values(&installed, &bound) {
                        Ordering::Less => false,
                        _ => true,
                    }
                },
                None => {
                    let installed = get_compare_version(jvm, query);
                    match compare_version_values(query, &installed) {
                        Ordering::Equal => true,
                        _ => false,
                    }
                },
            }
        },
        None => true,
    }
}

/// The sign of the order in which two installations are listed: the newer
/// version first; of two with versions that compare as equal, the one
/// built for the host's architecture first.
pub open spec fn boosted_order(a: JvmView, b: JvmView, native: Seq<char>) -> int {
    let by_version = version_order(b.version, a.version);
    if by_version != 0 {
        by_version
    } else if a.architecture == native && b.architecture != native {
        -1
    } else if b.architecture == native && a.architecture != native {
        1
    } else {
        0
    }
}

/// Orders two installations for listing: `Less` where `a` is listed first.
pub fn compare_boosting_architecture(a: &Jvm, b: &Jvm, default_arch: &String) -> (r: Ordering)
    ensures
        r == ordering_of(boosted_order(a@, b@, default_arch@)),
{
    let version_test = compare_version_values(&b.version, &a.version);
    match version_test {
        Ordering::Equal => {
            let a_native = a.architecture == *default_arch;
            let b_native = b.architecture == *default_arch;
            if a_native && !b_native {
                Ordering::Less
            } else if b_native && !a_native {
                Ordering::Greater
            } else {
                Ordering::Equal
            }
        },
        _ => version_test,
    }
}

/// What answers an exact query answers the same query as a minimum.
pub proof fn law_exact_match_meets_minimum(query: Seq<char>, installed: Seq<char>)
    requires
        !is_minimum_query(query),
        version_matches(query, installed),
    ensures
        version_matches(query.push('+'), installed),
{
    let bound = query.push('+').drop_last();
    assert(bound =~= query);
    lemma_key_order_antisymmetric(
        version_key(truncated_to(installed, query)),
        version_key(query),
    );
}

/// A version in the modern form answers the query made of its own leading
/// components, however few: a coarse query matches a finer version.
pub proof fn law_leading_components_match(installed: Seq<char>, dots: nat)
    requires
        !is_legacy(installed),
        !is_minimum_query(installed.take(cut_index(dotted(installed), dots))),
    ensures
        version_matches(installed.take(cut_index(dotted(installed), dots)), installed),
{
    let text = dotted(installed);
    let cut = cut_index(text, dots);
    let query = installed.take(cut);
    lemma_cut_index_bounds(text, dots);
    lemma_dotted_take(installed, cut);
    lemma_cut_stable(text, dots);
    assert(truncated_to(installed, query) == query);
    lemma_key_order_reflexive(version_key(query));
}

/// Between versions in the modern form, an exact query is answered
/// exactly where its components are the leading components of the
/// installed version, number for number, the installed version having at
/// least as many.
pub proof fn law_exact_match_is_prefix(query: Seq<char>, installed: Seq<char>)
    requires
        !is_legacy(installed),
        !is_legacy(query),
        !is_minimum_query(query),
        has_components(dotted(installed), separators(query)),
    ensures
        version_key(query).len() == separators(query) + 1,
        version_matches(query, installed) <==> version_key(query) == version_key(installed).take(
            separators(query) as int + 1,
        ),
{
    lemma_key_of_cut(installed, separators(query));
    lemma_split_len(dotted(query));
    lemma_key_order_zero(version_key(query), version_key(truncated_to(installed, query)));
}

/// Between versions in the modern form, a minimum query is answered
/// exactly where the leading components of the installed version, as many
/// as the bound has, do not come before the bound.
pub proof fn law_minimum_match_is_order(bound: Seq<char>, installed: Seq<char>)
    requires
        !is_legacy(installed),
        !is_legacy(bound),
        has_components(dotted(installed), separators(bound)),
    ensures
        version_matches(bound.push('+'), installed) <==> key_order(
            version_key(installed).take(separators(bound) as int + 1),
            version_key(bound),
        ) >= 0,
{
    assert(bound.push('+').drop_last() =~= bound);
    lemma_key_of_cut(installed, separators(bound));
}

/// An exact query that is finer than the installed version is never
/// answered.
pub proof fn law_finer_query_never_matches(query: Seq<char>, installed: Seq<char>)
    requires
        !is_legacy(installed),
        !is_legacy(query),
        !is_minimum_query(query),
        separators(installed) < separators(query),
    ensures
        !version_matches(query, installed),
{
    let text = dotted(installed);
    let cut = cut_index(text, separators(query));
    let kept = installed.take(cut);
    lemma_cut_index_bounds(text, separators(query));
    lemma_cut_granularity(text, separators(query));
    lemma_dotted_take(installed, cut);
    assert(!is_legacy(kept));
    lemma_split_len(dotted(kept));
    lemma_split_len(dotted(query));
    lemma_key_order_zero(version_key(query), version_key(kept));
}

/// Whether `a` is listed strictly before `b`.
pub fn ranks_before(a: &Jvm, b: &Jvm, native: &String) -> (r: bool)
    ensures
        r == (boosted_order(a@, b@, native@) < 0),
{
    match compare_boosting_architecture(a, b, native) {
        Ordering::Less => true,
        _ => false,
    }
}

/// Where a newcomer goes into a list: in front of the first entry that it
/// is listed strictly before, and so behind every entry of its own rank.
pub open spec fn insertion_point(list: Seq<JvmView>, x: JvmView, native: Seq<char>) -> int
    decreases list.len(),
{
    if list.len() == 0 {
        0
    } else if boosted_order(x, list[0], native) < 0 {
        0
    } else {
        1 + insertion_point(list.skip(1), x, native)
    }
}

/// The installations in listing order, best first. Entries of the same
/// rank keep the order in which they were found.
pub open spec fn ranked(jvms: Seq<JvmView>, native: Seq<char>) -> Seq<JvmView>
    decreases jvms.len(),
{
    if jvms.len() == 0 {
        jvms
    } else {
        let front = ranked(jvms.drop_last(), native);
        front.insert(insertion_point(front, jvms.last(), native), jvms.last())
    }
}

/// Whether a list is in listing order.
pub open spec fn is_ranked(list: Seq<JvmView>, native: Seq<char>) -> bool {
    forall|i: int, j: int|
        0 <= i < j < list.len() ==> boosted_order(#[trigger] list[i], #[trigger] list[j], native)
            <= 0
}

/// Whether an installation passes all three filters.
pub open spec fn passes(
    jvm: JvmView,
    arch: Option<Seq<char>>,
    version: Option<Seq<char>>,
    name: Option<Seq<char>>,
) -> bool {
    &&& text_passes(arch, jvm.architecture)
    &&& match version {
        Some(query) => version_matches(query, jvm.version),
        None => true,
    }
    &&& text_passes(name, jvm.name)
}

/// The installations that pass the filters, in listing order.
pub open spec fn selected(
    jvms: Seq<JvmView>,
    arch: Option<Seq<char>>,
    version: Option<Seq<char>>,
    name: Option<Seq<char>>,
    native: Seq<char>,
) -> Seq<JvmView> {
    ranked(jvms.filter(|j: JvmView| passes(j, arch, version, name)), native)
}

pub proof fn lemma_insertion_point(list: Seq<JvmView>, x: JvmView, native: Seq<char>)
    ensures
        0 <= insertion_point(list, x, native) <= list.len(),
        forall|k: int|
            0 <= k < insertion_point(list, x, native) ==> boosted_order(
                x,
                #[trigger] list[k],
                native,
            ) >= 0,
        insertion_point(list, x, native) < list.len() ==> boosted_order(
            x,
            list[insertion_point(list, x, native)],
            native,
        ) < 0,
    decreases list.len(),
{
    if list.len() > 0 && boosted_order(x, list[0], native) >= 0 {
        let rest = list.skip(1);
        lemma_insertion_point(rest, x, native);
        let p = insertion_point(rest, x, native);
        assert forall|k: int| 0 <= k < p + 1 implies boosted_order(x, #[trigger] list[k], native)
            >= 0 by {
            if k > 0 {
                assert(list[k] == rest[k - 1]);
            }
        }
        if p < rest.len() {
            assert(list[p + 1] == rest[p]);
        }
    }
}

/// Listing two installations in the other order negates the sign.
pub proof fn law_boosted_order_inverse(a: JvmView, b: JvmView, native: Seq<char>)
    ensures
        boosted_order(a, b, native) == -boosted_order(b, a, native),
        -1 <= boosted_order(a, b, native) <= 1,
{
    lemma_key_order_antisymmetric(version_key(b.version), version_key(a.version));
    lemma_key_order_antisymmetric(version_key(a.version), version_key(b.version));
}

/// The listing order is transitive, and strict where one step is.
pub proof fn law_boosted_order_transitive(a: JvmView, b: JvmView, c: JvmView, native: Seq<char>)
    requires
        boosted_order(a, b, native) <= 0,
        boosted_order(b, c, native) <= 0,
    ensures
        boosted_order(a, c, native) <= 0,
        boosted_order(a, b, native) < 0 || boosted_order(b, c, native) < 0 ==> boosted_order(
            a,
            c,
            native,
        ) < 0,
{
    let ka = version_key(a.version);
    let kb = version_key(b.version);
    let kc = version_key(c.version);
    lemma_key_order_antisymmetric(kb, ka);
    lemma_key_order_antisymmetric(kc, kb);
    lemma_key_order_antisymmetric(kc, ka);
    lemma_key_order_transitive(kc, kb, ka);
}

/// A difference of version always decides the listing order: the
/// architecture is looked at only where the versions compare as equal.
pub proof fn law_version_dominates(a: JvmView, b: JvmView, native: Seq<char>)
    requires
        version_order(a.version, b.version) != 0,
    ensures
        boosted_order(a, b, native) == -version_order(a.version, b.version),
{
    lemma_key_order_antisymmetric(version_key(b.version), version_key(a.version));
}

/// `ranked` gives a list in listing order.
pub proof fn law_ranked_is_ranked(jvms: Seq<JvmView>, native: Seq<char>)
    ensures
        is_ranked(ranked(jvms, native), native),
        ranked(jvms, native).len() == jvms.len(),
    decreases jvms.len(),
{
    if jvms.len() > 0 {
        let front = ranked(jvms.drop_last(), native);
        let x = jvms.last();
        law_ranked_is_ranked(jvms.drop_last(), native);
        lemma_insertion_point(front, x, native);
        let p = insertion_point(front, x, native);
        let out = front.insert(p, x);
        front.insert_ensures(p, x);
        assert forall|i: int, j: int| 0 <= i < j < out.len() implies boosted_order(
            #[trigger] out[i],
            #[trigger] out[j],
            native,
        ) <= 0 by {
            if j < p {
                assert(out[i] == front[i] && out[j] == front[j]);
            } else if j == p {
                assert(out[i] == front[i]);
                law_boosted_order_inverse(front[i], x, native);
            } else if i == p {
                assert(out[j] == front[j - 1]);
                if j - 1 > p {
                    law_boosted_order_transitive(x, front[p], front[j - 1], native);
                }
            } else if i < p {
                assert(out[i] == front[i] && out[j] == front[j - 1]);
            } else {
                assert(out[i] == front[i - 1] && out[j] == front[j - 1]);
            }
        }
    }
}

/// `ranked` keeps every installation, each as often as it was found.
pub proof fn law_ranked_is_permutation(jvms: Seq<JvmView>, native: Seq<char>)
    ensures
        ranked(jvms, native).to_multiset() == jvms.to_multiset(),
    decreases jvms.len(),
{
    broadcast use vstd::seq_lib::group_to_multiset_ensures;

    if jvms.len() > 0 {
        let front = ranked(jvms.drop_last(), native);
        let x = jvms.last();
        law_ranked_is_permutation(jvms.drop_last(), native);
        law_ranked_is_ranked(jvms.drop_last(), native);
        lemma_insertion_point(front, x, native);
        let p = insertion_point(front, x, native);
        let out = front.insert(p, x);
        front.insert_ensures(p, x);
        assert(out.remove(p) =~= front);
        assert(out[p] == x);
        assert(front.to_multiset() == out.to_multiset().remove(x));
        assert(out.contains(x));
        assert(out.to_multiset() =~= front.to_multiset().insert(x));
        assert(jvms =~= jvms.drop_last().push(x));
        assert(jvms.to_multiset() =~= jvms.drop_last().to_multiset().insert(x));
    } else {
        assert(ranked(jvms, native) =~= jvms);
    }
}

proof fn lemma_filter_none(list: Seq<JvmView>, pred: spec_fn(JvmView) -> bool)
    requires
        forall|k: int| 0 <= k < list.len() ==> !pred(#[trigger] list[k]),
    ensures
        list.filter(pred) == Seq::<JvmView>::empty(),
    decreases list.len(),
{
    reveal(Seq::filter);
    if list.len() > 0 {
        lemma_filter_none(list.drop_last(), pred);
    } else {
        assert(list =~= Seq::<JvmView>::empty());
    }
}

/// Listing is stable: the installations of any one rank stand in the list
/// in the order in which they were found.
pub proof fn law_ranked_is_stable(jvms: Seq<JvmView>, native: Seq<char>, like: JvmView)
    ensures
        ranked(jvms, native).filter(|x: JvmView| boosted_order(x, like, native) == 0)
            == jvms.filter(|x: JvmView| boosted_order(x, like, native) == 0),
    decreases jvms.len(),
{
    let pred = |x: JvmView| boosted_order(x, like, native) == 0;
    reveal(Seq::filter);
    if jvms.len() > 0 {
        let front = ranked(jvms.drop_last(), native);
        let x = jvms.last();
        law_ranked_is_stable(jvms.drop_last(), native, like);
        law_ranked_is_ranked(jvms.drop_last(), native);
        lemma_insertion_point(front, x, native);
        let p = insertion_point(front, x, native);
        let head = front.subrange(0, p);
        let tail = front.subrange(p, front.len() as int);
        assert(front =~= head + tail);
        assert(front.insert(p, x) =~= head.push(x) + tail);
        Seq::filter_distributes_over_add(head, tail, pred);
        Seq::filter_distributes_over_add(head.push(x), tail, pred);
        assert(head.push(x).drop_last() =~= head);
        if pred(x) {
            assert forall|k: int| 0 <= k < tail.len() implies !pred(#[trigger] tail[k]) by {
                let y = tail[k];
                assert(y == front[p + k]);
                if k > 0 {
                    law_boosted_order_transitive(x, front[p], y, native);
                }
                if pred(y) {
                    law_boosted_order_inverse(x, like, native);
                    law_boosted_order_transitive(y, like, x, native);
                    law_boosted_order_inverse(x, y, native);
                }
            }
            lemma_filter_none(tail, pred);
            assert(head.filter(pred).push(x) + Seq::<JvmView>::empty() =~= (head.filter(pred)
                + Seq::<JvmView>::empty()).push(x));
        }
    }
}

/// Puts the installations in listing order, best first.
pub fn sort_jvms(jvms: &Vec<Jvm>, native: &String) -> (out: Vec<Jvm>)
    ensures
        views(out@) == ranked(views(jvms@), native@),
{
    let mut out: Vec<Jvm> = Vec::new();
    let mut i: usize = 0;
    assert(views(jvms@).take(0) =~= Seq::<JvmView>::empty());
    assert(views(out@) =~= Seq::<JvmView>::empty());
    while i < jvms.len()
        invariant
            i <= jvms.len(),
            out.len() == i,
            views(out@) == ranked(views(jvms@).take(i as int), native@),
        decreases jvms.len() - i,
    {
        let x = jvms[i].clone();
        let ghost front = views(out@);
        let mut p: usize = 0;
        assert(front.skip(0) =~= front);
        while p < out.len() && !ranks_before(&x, &out[p], native)
            invariant
                p <= out.len(),
                front == views(out@),
                insertion_point(front, x@, native@) == p + insertion_point(
                    front.skip(p as int),
                    x@,
                    native@,
                ),
            decreases out.len() - p,
        {
            assert(front.skip(p as int)[0] == out@[p as int]@);
            assert(front.skip(p as int).skip(1) =~= front.skip(p + 1));
            p += 1;
        }
        proof {
            if p < out.len() {
                assert(front.skip(p as int)[0] == out@[p as int]@);
            }
            let upto = views(jvms@).take(i + 1);
            assert(upto.drop_last() =~= views(jvms@).take(i as int));
            assert(upto.last() == x@);
        }
        out.insert(p, x);
        assert(views(out@) =~= front.insert(p as int, x@));
        i += 1;
    }
    assert(views(jvms@).take(jvms.len() as int) =~= views(jvms@));
    out
}

/// The installations that pass every filter that is given, best first.
/// An empty result is a result like any other.
pub fn select_jvms(
    jvms: &Vec<Jvm>,
    arch: &Option<String>,
    version: &Option<String>,
    name: &Option<String>,
    native: &String,
) -> (out: Vec<Jvm>)
    ensures
        views(out@) == selected(
            views(jvms@),
            text_of(*arch),
            text_of(*version),
            text_of(*name),
            native@,
        ),
{
    let ghost pred = |j: JvmView| passes(j, text_of(*arch), text_of(*version), text_of(*name));
    let mut kept: Vec<Jvm> = Vec::new();
    let mut i: usize = 0;
    proof {
        reveal(Seq::filter);
        assert(views(jvms@).take(0) =~= Seq::<JvmView>::empty());
        assert(views(kept@) =~= Seq::<JvmView>::empty());
    }
    while i < jvms.len()
        invariant
            i <= jvms.len(),
            pred == |j: JvmView| passes(j, text_of(*arch), text_of(*version), text_of(*name)),
            views(kept@) == views(jvms@).take(i as int).filter(pred),
        decreases jvms.len() - i,
    {
        let jvm = &jvms[i];
        proof {
            reveal(Seq::filter);
            let upto = views(jvms@).take(i + 1);
            assert(upto.drop_last() =~= views(jvms@).take(i as int));
            assert(upto.last() == jvm@);
        }
        if filter_arch(arch, jvm) && filter_ver(version, jvm) && filter_name(name, jvm) {
            let ghost before = views(kept@);
            kept.push(jvm.clone());
            assert(views(kept@) =~= before.push(jvm@));
        }
        i += 1;
    }
    assert(views(jvms@).take(jvms.len() as int) =~= views(jvms@));
    sort_jvms(&kept, native)
}

/// Without any filter every installation is selected.
pub proof fn law_no_filter_keeps_all(jvms: Seq<JvmView>, native: Seq<char>)
    ensures
        selected(jvms, None, None, None, native) == ranked(jvms, native),
{
    let pred = |j: JvmView| passes(j, None, None, None);
    lemma_filter_all(jvms, pred);
}

proof fn lemma_filter_all(jvms: Seq<JvmView>, pred: spec_fn(JvmView) -> bool)
    requires
        forall|j: JvmView| #[trigger] pred(j),
    ensures
        jvms.filter(pred) == jvms,
    decreases jvms.len(),
{
    reveal(Seq::filter);
    if jvms.len() > 0 {
        lemma_filter_all(jvms.drop_last(), pred);
        assert(jvms.drop_last().push(jvms.last()) =~= jvms);
    }
}

} // verus!
