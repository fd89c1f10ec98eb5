//! Version strings: normalisation of the legacy `1.x` form, the key a version
//! is ordered by, the order itself, and truncation to a query's granularity.

use crate::text::{bounds_match, chars_of, split_bounds, split_on};
use std::cmp::Ordering;
use vstd::prelude::*;
use vstd::string::*;

verus! {

/// The rank of a component that is not an integer: below every integer a
/// component can hold.
pub const UNKNOWN_RANK: i64 = -2147483649;

pub open spec fn is_digit(c: char) -> bool {
    '0' <= c && c <= '9'
}

pub open spec fn all_digits(s: Seq<char>) -> bool {
    forall|i: int| 0 <= i < s.len() ==> is_digit(#[trigger] s[i])
}

/// The number that a run of decimal digits denotes.
pub open spec fn decimal_value(s: Seq<char>) -> int
    decreases s.len(),
{
    if s.len() == 0 {
        0
    } else {
        decimal_value(s.drop_last()) * 10 + (s.last() as int - '0' as int)
    }
}

/// The integer that one component denotes: an optional sign, then one or
/// more decimal digits, with a value that fits in 32 signed bits. Anything
/// else denotes no integer.
pub open spec fn component_number(s: Seq<char>) -> Option<int> {
    let signed = s.len() > 0 && (s[0] == '-' || s[0] == '+');
    let digits = if signed {
        s.skip(1)
    } else {
        s
    };
    let value = if s.len() > 0 && s[0] == '-' {
        -decimal_value(digits)
    } else {
        decimal_value(digits)
    };
    if digits.len() > 0 && all_digits(digits) && -0x8000_0000 <= value <= 0x7fff_ffff {
        Some(value)
    } else {
        None
    }
}

/// What a component is ordered by: its number, or `UNKNOWN_RANK`.
pub open spec fn component_rank(s: Seq<char>) -> int {
    match component_number(s) {
        Some(value) => value,
        None => UNKNOWN_RANK as int,
    }
}

/// Whether a version is written in the legacy form, with a leading `1.`.
pub open spec fn is_legacy(v: Seq<char>) -> bool {
    v.len() >= 2 && v[0] == '1' && v[1] == '.'
}

pub open spec fn strip_legacy(v: Seq<char>) -> Seq<char> {
    if is_legacy(v) {
        v.skip(2)
    } else {
        v
    }
}

/// Underscores, which introduce a legacy patch number, read as dots.
pub open spec fn dotted(v: Seq<char>) -> Seq<char> {
    v.map_values(
        |c: char|
            if c == '_' {
                '.'
            } else {
                c
            },
    )
}

/// The modern spelling of a version: no leading `1.`, no underscores.
pub open spec fn normalized(v: Seq<char>) -> Seq<char> {
    dotted(strip_legacy(v))
}

/// The key a version is ordered by: the rank of each dot-delimited
/// component of its modern spelling.
pub open spec fn version_key(v: Seq<char>) -> Seq<int> {
    split_on(normalized(v), '.').map_values(|c: Seq<char>| component_rank(c))
}

/// The sign of the lexicographic comparison of two keys: -1 where `a` comes
/// first, 0 where they are the same key, 1 where `b` comes first. The first
/// differing component decides; a key that ends while the other goes on
/// comes first.
pub open spec fn key_order(a: Seq<int>, b: Seq<int>) -> int
    decreases a.len(),
{
    if a.len() == 0 {
        if b.len() == 0 {
            0
        } else {
            -1
        }
    } else if b.len() == 0 {
        1
    } else if a[0] < b[0] {
        -1
    } else if a[0] > b[0] {
        1
    } else {
        key_order(a.skip(1), b.skip(1))
    }
}

/// The sign of the comparison of two version strings.
pub open spec fn version_order(v1: Seq<char>, v2: Seq<char>) -> int {
    key_order(version_key(v1), version_key(v2))
}

pub open spec fn ordering_of(sign: int) -> Ordering {
    if sign < 0 {
        Ordering::Less
    } else if sign == 0 {
        Ordering::Equal
    } else {
        Ordering::Greater
    }
}

pub open spec fn ranks(key: Seq<i64>) -> Seq<int> {
    key.map_values(|x: i64| x as int)
}

proof fn lemma_decimal_prefix(s: Seq<char>, k: int)
    requires
        all_digits(s),
        0 <= k <= s.len(),
    ensures
        0 <= decimal_value(s.take(k)) <= decimal_value(s),
    decreases s.len(),
{
    if k == s.len() {
        assert(s.take(k) =~= s);
        if s.len() > 0 {
            lemma_decimal_prefix(s.drop_last(), k - 1);
            assert(is_digit(s[s.len() - 1]));
        }
    } else {
        lemma_decimal_prefix(s.drop_last(), k);
        assert(s.drop_last().take(k) =~= s.take(k));
        assert(is_digit(s[s.len() - 1]));
    }
}

/// The rank of the component that stands in `chars` from `from` up to `to`.
pub fn rank_of(chars: &Vec<char>, from: usize, to: usize) -> (rank: i64)
    requires
        from <= to <= chars.len(),
    ensures
        rank as int == component_rank(chars@.subrange(from as int, to as int)),
{
    let ghost s = chars@.subrange(from as int, to as int);
    let mut negative = false;
    let mut first: usize = from;
    if from < to && (chars[from] == '-' || chars[from] == '+') {
        negative = chars[from] == '-';
        first = from + 1;
    }
    let ghost digits = chars@.subrange(first as int, to as int);
    assert(s.len() == 0 || s[0] == chars@[from as int]);
    assert(digits =~= if first == from {
        s
    } else {
        s.skip(1)
    });
    let ghost signed = s.len() > 0 && (s[0] == '-' || s[0] == '+');
    if first == to {
        return UNKNOWN_RANK;
    }
    let mut acc: i64 = 0;
    let mut i: usize = first;
    while i < to
        invariant
            first <= i <= to <= chars.len(),
            digits == chars@.subrange(first as int, to as int),
            s == chars@.subrange(from as int, to as int),
            signed == (s.len() > 0 && (s[0] == '-' || s[0] == '+')),
            digits == (if signed {
                s.skip(1)
            } else {
                s
            }),
            negative == (s.len() > 0 && s[0] == '-'),
            all_digits(digits.take(i - first)),
            acc as int == decimal_value(digits.take(i - first)),
            0 <= acc <= 0x8000_0000,
        decreases to - i,
    {
        let c = chars[i];
        assert(digits[i - first] == c);
        if !('0' <= c && c <= '9') {
            return UNKNOWN_RANK;
        }
        let d: i64 = (c as u32 - '0' as u32) as i64;
        assert(digits.take(i + 1 - first).drop_last() =~= digits.take(i - first));
        acc = acc * 10 + d;
        assert(digits.take(i + 1 - first).last() == c);
        assert(acc as int == decimal_value(digits.take(i + 1 - first)));
        if acc > 0x8000_0000 {
            proof {
                if all_digits(digits) {
                    lemma_decimal_prefix(digits, i + 1 - first);
                }
            }
            return UNKNOWN_RANK;
        }
        i += 1;
    }
    assert(digits.take(to - first) =~= digits);
    if negative {
        -acc
    } else if acc <= 0x7fff_ffff {
        acc
    } else {
        UNKNOWN_RANK
    }
}

/// The key of a version string, computed.
pub fn key_of(v: &str) -> (key: Vec<i64>)
    ensures
        ranks(key@) == version_key(v@),
{
    let raw = chars_of(v);
    let skip: usize = if starts_legacy(&raw) {
        2
    } else {
        0
    };
    let norm = dotted_from(&raw, skip);
    assert(norm@ == normalized(v@)) by {
        assert(raw@.skip(0) =~= raw@);
    }
    let bounds = split_bounds(&norm, '.');
    let mut key: Vec<i64> = Vec::new();
    let mut k: usize = 0;
    while k < bounds.len()
        invariant
            k <= bounds.len(),
            norm@ == normalized(v@),
            bounds_match(norm@, '.', bounds@),
            key@.len() == k,
            ranks(key@) == version_key(v@).take(k as int),
        decreases bounds.len() - k,
    {
        let b = bounds[k];
        assert(norm@.subrange(b.0 as int, b.1 as int) == split_on(norm@, '.')[k as int]);
        let ghost old_key = key@;
        key.push(rank_of(&norm, b.0, b.1));
        assert(version_key(v@).len() == bounds.len());
        assert(version_key(v@)[k as int] == component_rank(split_on(normalized(v@), '.')[k as int]));
        assert(key@.len() == k + 1);
        assert(key@ =~= old_key.push(key@[k as int]));
        assert(ranks(key@) =~= ranks(old_key).push(key@[k as int] as int));
        assert(ranks(key@) =~= version_key(v@).take(k + 1));
        k += 1;
    }
    assert(version_key(v@).take(bounds.len() as int) =~= version_key(v@));
    key
}

/// The sign of the comparison of two computed keys.
pub fn compare_keys(a: &Vec<i64>, b: &Vec<i64>) -> (sign: i8)
    ensures
        sign as int == key_order(ranks(a@), ranks(b@)),
{
    let mut i: usize = 0;
    assert(ranks(a@).skip(0) =~= ranks(a@));
    assert(ranks(b@).skip(0) =~= ranks(b@));
    while i < a.len() && i < b.len()
        invariant
            i <= a.len(),
            i <= b.len(),
            key_order(ranks(a@), ranks(b@)) == key_order(
                ranks(a@).skip(i as int),
                ranks(b@).skip(i as int),
            ),
        decreases a.len() - i,
    {
        let ghost ra = ranks(a@).skip(i as int);
        let ghost rb = ranks(b@).skip(i as int);
        assert(ra[0] == a@[i as int] as int);
        assert(rb[0] == b@[i as int] as int);
        if a[i] < b[i] {
            return -1;
        }
        if a[i] > b[i] {
            return 1;
        }
        assert(ra.skip(1) =~= ranks(a@).skip(i + 1));
        assert(rb.skip(1) =~= ranks(b@).skip(i + 1));
        i += 1;
    }
    if i < b.len() {
        -1
    } else if i < a.len() {
        1
    } else {
        0
    }
}

/// Compares two version strings by their keys: the legacy and the modern
/// spelling of a version compare as equal, the first differing component
/// decides, and a component that is no integer ranks below every integer.
pub fn compare_version_values(version1: &String, version2: &String) -> (r: Ordering)
    ensures
        r == ordering_of(version_order(version1@, version2@)),
{
    let key1 = key_of(version1.as_str());
    let key2 = key_of(version2.as_str());
    let sign = compare_keys(&key1, &key2);
    if sign < 0 {
        Ordering::Less
    } else if sign == 0 {
        Ordering::Equal
    } else {
        Ordering::Greater
    }
}

/// The number of dots in a text.
pub open spec fn dot_count(v: Seq<char>) -> nat
    decreases v.len(),
{
    if v.len() == 0 {
        0
    } else if v.last() == '.' {
        dot_count(v.drop_last()) + 1
    } else {
        dot_count(v.drop_last())
    }
}

/// The number of separators in a version string, each dot and each
/// underscore being one: one less than its granularity.
pub open spec fn separators(v: Seq<char>) -> nat {
    dot_count(dotted(v))
}

/// How many characters of the dotted text `v` its first `dots + 1`
/// components take up, the dots between them included. The cut falls in
/// front of the dot that ends the last of them; a text that has no more
/// components is taken whole, but for a dot at its very end.
pub open spec fn cut_index(v: Seq<char>, dots: nat) -> int
    decreases v.len(),
{
    if v.len() == 0 {
        0
    } else if v[0] == '.' {
        if dots == 0 || v.len() == 1 {
            0
        } else {
            1 + cut_index(v.skip(1), (dots - 1) as nat)
        }
    } else {
        1 + cut_index(v.skip(1), dots)
    }
}

/// The installed version as it is measured against a query: without its
/// legacy prefix where the query is written in the modern form.
pub open spec fn aligned(installed: Seq<char>, query: Seq<char>) -> Seq<char> {
    if is_legacy(installed) && !is_legacy(query) {
        installed.skip(2)
    } else {
        installed
    }
}

/// The installed version reduced to as many components as the query has.
/// Components are told apart as they are in comparing, an underscore
/// separating like a dot; the characters kept are those of the installed
/// version.
pub open spec fn truncated_to(installed: Seq<char>, query: Seq<char>) -> Seq<char> {
    let v = aligned(installed, query);
    v.take(cut_index(dotted(v), separators(query)))
}

pub proof fn lemma_cut_index_bounds(v: Seq<char>, dots: nat)
    ensures
        0 <= cut_index(v, dots) <= v.len(),
    decreases v.len(),
{
    if v.len() > 0 {
        if v[0] == '.' {
            if dots > 0 && v.len() > 1 {
                lemma_cut_index_bounds(v.skip(1), (dots - 1) as nat);
            }
        } else {
            lemma_cut_index_bounds(v.skip(1), dots);
        }
    }
}

/// Whether `chars` begins with `1.`.
pub fn starts_legacy(chars: &Vec<char>) -> (r: bool)
    ensures
        r == is_legacy(chars@),
{
    chars.len() >= 2 && chars[0] == '1' && chars[1] == '.'
}

/// The characters from `from` on, each underscore turned into a dot.
pub fn dotted_from(chars: &Vec<char>, from: usize) -> (r: Vec<char>)
    requires
        from <= chars.len(),
    ensures
        r@ == dotted(chars@.skip(from as int)),
{
    let ghost goal = dotted(chars@.skip(from as int));
    let mut out: Vec<char> = Vec::new();
    let mut i: usize = from;
    while i < chars.len()
        invariant
            from <= i <= chars.len(),
            goal == dotted(chars@.skip(from as int)),
            out@ == goal.take(i - from),
        decreases chars.len() - i,
    {
        let c = chars[i];
        out.push(
            if c == '_' {
                '.'
            } else {
                c
            },
        );
        assert(goal.take(i + 1 - from) =~= goal.take(i - from).push(goal[i - from]));
        i += 1;
    }
    assert(goal.take(chars.len() - from) =~= goal);
    out
}

/// The number of dots in `chars`.
pub fn count_dots(chars: &Vec<char>) -> (n: usize)
    ensures
        n == dot_count(chars@),
{
    let mut n: usize = 0;
    let mut i: usize = 0;
    while i < chars.len()
        invariant
            i <= chars.len(),
            n <= i,
            n == dot_count(chars@.take(i as int)),
        decreases chars.len() - i,
    {
        assert(chars@.take(i + 1).drop_last() =~= chars@.take(i as int));
        if chars[i] == '.' {
            n += 1;
        }
        i += 1;
    }
    assert(chars@.take(chars.len() as int) =~= chars@);
    n
}

/// Where the first `dots + 1` components of a dotted text end.
pub fn cut_of(text: &Vec<char>, dots: usize) -> (cut: usize)
    ensures
        cut == cut_index(text@, dots as nat),
        cut <= text.len(),
{
    let mut left: usize = dots;
    let mut i: usize = 0;
    let mut found = false;
    assert(text@.skip(0) =~= text@);
    while i < text.len() && !found
        invariant
            i <= text.len(),
            !found ==> cut_index(text@, dots as nat) == i + cut_index(
                text@.skip(i as int),
                left as nat,
            ),
            found ==> cut_index(text@, dots as nat) == i,
        decreases text.len() - i + (if found { 0int } else { 1int }),
    {
        let ghost rest = text@.skip(i as int);
        assert(rest[0] == text@[i as int]);
        assert(rest.skip(1) =~= text@.skip(i + 1));
        if text[i] == '.' {
            if left == 0 || i + 1 == text.len() {
                found = true;
            } else {
                left -= 1;
                i += 1;
            }
        } else {
            i += 1;
        }
    }
    assert(cut_index(text@, dots as nat) == i) by {
        if !found {
            assert(text@.skip(i as int).len() == 0);
        }
    }
    i
}

/// Reduces an installed version to the granularity of a query, so that a
/// coarse query can be held against a finer installed version.
pub fn truncate_to_granularity(installed: &str, query: &str) -> (r: String)
    ensures
        r@ == truncated_to(installed@, query@),
{
    let chars = chars_of(installed);
    let wanted = chars_of(query);
    let from: usize = if starts_legacy(&chars) && !starts_legacy(&wanted) {
        2
    } else {
        0
    };
    assert(wanted@.skip(0) =~= wanted@);
    let dots = count_dots(&dotted_from(&wanted, 0));
    let text = dotted_from(&chars, from);
    let cut = cut_of(&text, dots);
    let ghost v = aligned(installed@, query@);
    assert(v =~= chars@.skip(from as int));
    let kept = installed.substring_char(from, from + cut);
    assert(kept@ =~= v.take(cut as int));
    String::from_str(kept)
}

/// The comparison of a key with itself is 0.
pub proof fn lemma_key_order_reflexive(a: Seq<int>)
    ensures
        key_order(a, a) == 0,
    decreases a.len(),
{
    if a.len() > 0 {
        lemma_key_order_reflexive(a.skip(1));
    }
}

/// Two keys compare as 0 exactly when they are the same key.
pub proof fn lemma_key_order_zero(a: Seq<int>, b: Seq<int>)
    ensures
        key_order(a, b) == 0 <==> a == b,
    decreases a.len(),
{
    if a.len() > 0 && b.len() > 0 {
        lemma_key_order_zero(a.skip(1), b.skip(1));
        if a[0] == b[0] && a.skip(1) == b.skip(1) {
            assert(a =~= seq![a[0]] + a.skip(1));
            assert(b =~= seq![b[0]] + b.skip(1));
        }
    } else if a.len() == 0 && b.len() == 0 {
        assert(a =~= b);
    }
}

/// Exchanging the two keys negates the sign of their comparison.
pub proof fn lemma_key_order_antisymmetric(a: Seq<int>, b: Seq<int>)
    ensures
        key_order(a, b) == -key_order(b, a),
        -1 <= key_order(a, b) <= 1,
    decreases a.len(),
{
    if a.len() > 0 && b.len() > 0 {
        lemma_key_order_antisymmetric(a.skip(1), b.skip(1));
    }
}

/// The comparison of keys is transitive, and strict where one step is.
pub proof fn lemma_key_order_transitive(a: Seq<int>, b: Seq<int>, c: Seq<int>)
    requires
        key_order(a, b) <= 0,
        key_order(b, c) <= 0,
    ensures
        key_order(a, c) <= 0,
        key_order(a, b) < 0 || key_order(b, c) < 0 ==> key_order(a, c) < 0,
    decreases a.len(),
{
    if a.len() > 0 && b.len() > 0 && c.len() > 0 {
        if a[0] == b[0] && b[0] == c[0] {
            lemma_key_order_transitive(a.skip(1), b.skip(1), c.skip(1));
        }
    }
}

/// The first component in which two keys differ decides their order.
pub proof fn law_first_difference_decides(a: Seq<int>, b: Seq<int>, k: int)
    requires
        0 <= k < a.len(),
        k < b.len(),
        forall|i: int| 0 <= i < k ==> a[i] == b[i],
        a[k] != b[k],
    ensures
        key_order(a, b) == (if a[k] < b[k] {
            -1int
        } else {
            1int
        }),
    decreases k,
{
    if k > 0 {
        let x = a.skip(1);
        let y = b.skip(1);
        assert forall|i: int| 0 <= i < k - 1 implies x[i] == y[i] by {
            assert(x[i] == a[i + 1] && y[i] == b[i + 1]);
        }
        law_first_difference_decides(x, y, k - 1);
    }
}

/// A key that ends where another with the same components goes on comes
/// first.
pub proof fn law_shorter_key_comes_first(a: Seq<int>, b: Seq<int>)
    requires
        a.len() < b.len(),
        forall|i: int| 0 <= i < a.len() ==> a[i] == b[i],
    ensures
        key_order(a, b) == -1,
    decreases a.len(),
{
    if a.len() > 0 {
        let x = a.skip(1);
        let y = b.skip(1);
        assert forall|i: int| 0 <= i < x.len() implies x[i] == y[i] by {
            assert(x[i] == a[i + 1] && y[i] == b[i + 1]);
        }
        law_shorter_key_comes_first(x, y);
    }
}

pub open spec fn reversed(o: Ordering) -> Ordering {
    match o {
        Ordering::Less => Ordering::Greater,
        Ordering::Equal => Ordering::Equal,
        Ordering::Greater => Ordering::Less,
    }
}

/// Every version string compares as equal to itself.
pub proof fn law_compare_reflexive(v: Seq<char>)
    ensures
        ordering_of(version_order(v, v)) == Ordering::Equal,
{
    lemma_key_order_reflexive(version_key(v));
}

/// Comparing two version strings in the other direction gives the reverse
/// result.
pub proof fn law_compare_inverse(v1: Seq<char>, v2: Seq<char>)
    ensures
        ordering_of(version_order(v1, v2)) == reversed(ordering_of(version_order(v2, v1))),
{
    lemma_key_order_antisymmetric(version_key(v1), version_key(v2));
}

/// The comparison of version strings is transitive: what is not after a
/// second version, which is not after a third, is not after the third, and
/// is before it where one of the two steps is strict.
pub proof fn law_compare_transitive(v1: Seq<char>, v2: Seq<char>, v3: Seq<char>)
    requires
        ordering_of(version_order(v1, v2)) != Ordering::Greater,
        ordering_of(version_order(v2, v3)) != Ordering::Greater,
    ensures
        ordering_of(version_order(v1, v3)) != Ordering::Greater,
        ordering_of(version_order(v1, v2)) == Ordering::Less || ordering_of(version_order(v2, v3))
            == Ordering::Less ==> ordering_of(version_order(v1, v3)) == Ordering::Less,
{
    lemma_key_order_transitive(version_key(v1), version_key(v2), version_key(v3));
}

/// Two version strings compare as equal exactly when they have the same
/// key: the same integers, component by component.
pub proof fn law_compare_equal_keys(v1: Seq<char>, v2: Seq<char>)
    ensures
        ordering_of(version_order(v1, v2)) == Ordering::Equal <==> version_key(v1) == version_key(
            v2,
        ),
{
    lemma_key_order_zero(version_key(v1), version_key(v2));
}

/// A version in the modern form compares as equal to its legacy spelling,
/// the same text behind a leading `1.`.
pub proof fn law_legacy_equivalent(v: Seq<char>)
    requires
        !is_legacy(v),
    ensures
        ordering_of(version_order(seq!['1', '.'] + v, v)) == Ordering::Equal,
{
    let legacy = seq!['1', '.'] + v;
    assert(is_legacy(legacy));
    assert(legacy.skip(2) =~= v);
    lemma_key_order_reflexive(version_key(v));
}

proof fn lemma_dot_count_front(v: Seq<char>)
    requires
        v.len() > 0,
    ensures
        dot_count(v) == dot_count(v.skip(1)) + (if v[0] == '.' {
            1nat
        } else {
            0nat
        }),
    decreases v.len(),
{
    if v.len() == 1 {
        assert(v.skip(1) =~= Seq::<char>::empty());
        assert(v.drop_last() =~= Seq::<char>::empty());
    } else {
        lemma_dot_count_front(v.drop_last());
        assert(v.drop_last().skip(1) =~= v.skip(1).drop_last());
    }
}

/// Whether a text ends in a dot.
pub open spec fn ends_in_dot(v: Seq<char>) -> bool {
    v.len() > 0 && v.last() == '.'
}

/// Keeping the first components of a dotted text leaves as many dots as
/// were asked for; a text with no more dots than that keeps its own, but
/// for one at its very end.
pub proof fn lemma_cut_granularity(v: Seq<char>, dots: nat)
    ensures
        dot_count(v.take(cut_index(v, dots))) == (if dot_count(v) > dots {
            dots
        } else if ends_in_dot(v) {
            (dot_count(v) - 1) as nat
        } else {
            dot_count(v)
        }),
    decreases v.len(),
{
    lemma_cut_index_bounds(v, dots);
    if v.len() == 0 {
        assert(v.take(0) =~= v);
    } else {
        lemma_dot_count_front(v);
        if v[0] == '.' && (dots == 0 || v.len() == 1) {
            assert(v.take(0) =~= Seq::<char>::empty());
            if v.len() == 1 {
                assert(v.skip(1) =~= Seq::<char>::empty());
            }
        } else {
            let left = if v[0] == '.' {
                (dots - 1) as nat
            } else {
                dots
            };
            let rest = v.skip(1);
            lemma_cut_granularity(rest, left);
            lemma_cut_index_bounds(rest, left);
            let kept = v.take(cut_index(v, dots));
            lemma_dot_count_front(kept);
            assert(kept.skip(1) =~= rest.take(cut_index(rest, left)));
            if rest.len() > 0 {
                assert(rest.last() == v.last());
            }
        }
    }
}

/// A dotted text with no more dots than are kept, and none at its end, is
/// kept whole.
pub proof fn lemma_cut_whole(v: Seq<char>, dots: nat)
    requires
        dot_count(v) <= dots,
        !ends_in_dot(v),
    ensures
        cut_index(v, dots) == v.len(),
    decreases v.len(),
{
    if v.len() > 0 {
        lemma_dot_count_front(v);
        let rest = v.skip(1);
        if rest.len() > 0 {
            assert(rest.last() == v.last());
        }
        if v[0] == '.' {
            lemma_cut_whole(rest, (dots - 1) as nat);
        } else {
            lemma_cut_whole(rest, dots);
        }
    }
}

/// Cutting at the granularity of what a cut has kept cuts at the same
/// place.
pub proof fn lemma_cut_stable(v: Seq<char>, dots: nat)
    ensures
        cut_index(v, dot_count(v.take(cut_index(v, dots)))) == cut_index(v, dots),
    decreases v.len(),
{
    lemma_cut_index_bounds(v, dots);
    if v.len() > 0 {
        if v[0] == '.' && (dots == 0 || v.len() == 1) {
            assert(v.take(0) =~= Seq::<char>::empty());
        } else {
            let left = if v[0] == '.' {
                (dots - 1) as nat
            } else {
                dots
            };
            let rest = v.skip(1);
            lemma_cut_stable(rest, left);
            lemma_cut_index_bounds(rest, left);
            let kept = v.take(cut_index(v, dots));
            lemma_dot_count_front(kept);
            assert(kept.skip(1) =~= rest.take(cut_index(rest, left)));
        }
    }
}

/// Reading underscores as dots and taking the beginning of a text can be
/// done in either order.
pub proof fn lemma_dotted_take(v: Seq<char>, n: int)
    requires
        0 <= n <= v.len(),
    ensures
        dotted(v.take(n)) == dotted(v).take(n),
{
    assert(dotted(v.take(n)) =~= dotted(v).take(n));
}

/// A text has one component more than it has dots.
pub proof fn lemma_split_len(w: Seq<char>)
    ensures
        split_on(w, '.').len() == dot_count(w) + 1,
    decreases w.len(),
{
    if w.len() > 0 {
        lemma_split_len(w.drop_last());
    }
}

/// The components of a text, read from its first character on.
pub open spec fn split_from_front(w: Seq<char>) -> Seq<Seq<char>>
    recommends
        w.len() > 0,
{
    let rest = split_on(w.skip(1), '.');
    if w[0] == '.' {
        seq![Seq::<char>::empty()] + rest
    } else {
        rest.update(0, seq![w[0]] + rest[0])
    }
}

proof fn lemma_split_front(w: Seq<char>)
    requires
        w.len() > 0,
    ensures
        split_on(w, '.') == split_from_front(w),
    decreases w.len(),
{
    let rest = w.skip(1);
    if w.len() == 1 {
        assert(rest =~= Seq::<char>::empty());
        assert(w.drop_last() =~= Seq::<char>::empty());
        assert(split_on(Seq::<char>::empty(), '.') =~~= seq![Seq::<char>::empty()]);
        assert(split_on(w, '.') =~~= split_from_front(w));
    } else {
        let shorter = w.drop_last();
        lemma_split_front(shorter);
        assert(rest.drop_last() =~= shorter.skip(1));
        assert(rest.last() == w.last());
        assert(shorter[0] == w[0]);
        let inner = split_on(shorter.skip(1), '.');
        crate::text::law_split_has_a_piece(shorter.skip(1), '.');
        assert(split_on(w, '.') =~~= split_from_front(w));
    }
}

/// Whether a dotted text has more than `dots + 1` components, or just as
/// many with no dot at its end.
pub open spec fn has_components(w: Seq<char>, dots: nat) -> bool {
    dot_count(w) > dots || (dot_count(w) == dots && !ends_in_dot(w))
}

/// What a cut keeps of a dotted text are its first components.
pub proof fn lemma_split_cut(w: Seq<char>, dots: nat)
    requires
        has_components(w, dots),
    ensures
        split_on(w.take(cut_index(w, dots)), '.') == split_on(w, '.').take(dots as int + 1),
    decreases w.len(),
{
    lemma_cut_index_bounds(w, dots);
    lemma_split_len(w);
    if w.len() == 0 {
        assert(w.take(0) =~= w);
        assert(split_on(w, '.').take(1) =~~= split_on(w, '.'));
    } else {
        lemma_dot_count_front(w);
        lemma_split_front(w);
        let rest = w.skip(1);
        lemma_split_len(rest);
        if rest.len() > 0 {
            assert(rest.last() == w.last());
        } else {
            assert(rest =~= Seq::<char>::empty());
        }
        if w[0] == '.' && dots == 0 {
            assert(w.take(0) =~= Seq::<char>::empty());
            assert(split_on(Seq::<char>::empty(), '.') =~~= seq![Seq::<char>::empty()]);
            assert(split_on(w, '.').take(1) =~~= seq![Seq::<char>::empty()]);
        } else {
            let left = if w[0] == '.' {
                (dots - 1) as nat
            } else {
                dots
            };
            lemma_split_cut(rest, left);
            lemma_cut_index_bounds(rest, left);
            let kept = w.take(cut_index(w, dots));
            lemma_split_front(kept);
            assert(kept.skip(1) =~= rest.take(cut_index(rest, left)));
            assert(kept[0] == w[0]);
            assert(split_on(kept, '.') =~~= split_on(w, '.').take(dots as int + 1));
        }
    }
}

/// The key of what a cut keeps of a version in the modern form is the
/// beginning of the version's key.
pub proof fn lemma_key_of_cut(v: Seq<char>, dots: nat)
    requires
        !is_legacy(v),
        has_components(dotted(v), dots),
    ensures
        version_key(v.take(cut_index(dotted(v), dots))) == version_key(v).take(dots as int + 1),
        version_key(v).len() == separators(v) + 1,
{
    let w = dotted(v);
    let cut = cut_index(w, dots);
    lemma_cut_index_bounds(w, dots);
    lemma_dotted_take(v, cut);
    lemma_split_cut(w, dots);
    lemma_split_len(w);
    assert(!is_legacy(v.take(cut)));
    assert(version_key(v.take(cut)) =~= version_key(v).take(dots as int + 1));
}

/// An installed version reduced for a query is the beginning of the
/// installed version as it was aligned with the query, and has the
/// granularity of the query wherever the installed version is finer, and
/// never a finer one.
pub proof fn law_truncation_granularity(installed: Seq<char>, query: Seq<char>)
    ensures
        truncated_to(installed, query).is_prefix_of(aligned(installed, query)),
        separators(truncated_to(installed, query)) <= separators(query),
        separators(aligned(installed, query)) > separators(query) ==> separators(
            truncated_to(installed, query),
        ) == separators(query),
{
    let v = aligned(installed, query);
    lemma_cut_granularity(dotted(v), separators(query));
    lemma_cut_index_bounds(dotted(v), separators(query));
    lemma_dotted_take(v, cut_index(dotted(v), separators(query)));
}

/// Reducing a reduced version for the same query changes nothing more,
/// where the reduced version does not end in a separator and is not
/// aligned anew: it is in the modern form, or the query is in the legacy
/// form too.
pub proof fn law_truncation_idempotent(installed: Seq<char>, query: Seq<char>)
    requires
        is_legacy(query) || !is_legacy(truncated_to(installed, query)),
        !ends_in_dot(dotted(truncated_to(installed, query))),
    ensures
        truncated_to(truncated_to(installed, query), query) == truncated_to(installed, query),
{
    let v = aligned(installed, query);
    let text = dotted(v);
    let cut = cut_index(text, separators(query));
    let kept = v.take(cut);
    lemma_cut_index_bounds(text, separators(query));
    lemma_cut_granularity(text, separators(query));
    lemma_dotted_take(v, cut);
    lemma_cut_whole(dotted(kept), separators(query));
    assert(kept.take(kept.len() as int) =~= kept);
}

} // verus!
