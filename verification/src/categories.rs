use vstd::prelude::*;
use vstd::relations::{sorted_by, total_ordering};

use crate::text::{chars_of, decimal, push_decimal};

verus! {

/// The name given to the `n`-th category entered without a name.
pub open spec fn unnamed_name(n: nat) -> Seq<char> {
    "Unnamed category "@ + decimal(n)
}

/// The name of the `n`-th category entered without a name: `Unnamed category n`.
pub fn unnamed_category(n: u64) -> (name: String)
    ensures
        name@ == unnamed_name(n as nat),
{
    let mut name = String::from_str("Unnamed category ");
    push_decimal(&mut name, n);
    name
}

/// The categories after an amount is assigned to `name`: a name that is there
/// already names the same category, a new name adds a category at the end.
pub open spec fn register(categories: Seq<Seq<char>>, name: Seq<char>) -> Seq<Seq<char>> {
    if categories.contains(name) {
        categories
    } else {
        categories.push(name)
    }
}

/// Records that an amount goes to the category `name`.
pub fn register_category(categories: &mut Vec<String>, name: &String)
    ensures
        final(categories).deep_view() == register(old(categories).deep_view(), name@),
{
    let ghost old_names = categories.deep_view();
    let mut i: usize = 0;
    while i < categories.len()
        invariant
            categories.deep_view() == old_names,
            i <= categories@.len(),
            forall|k: int| 0 <= k < i ==> #[trigger] old_names[k] != name@,
        decreases categories@.len() - i,
    {
        if categories[i] == *name {
            assert(old_names[i as int] == name@);
            return;
        }
        i = i + 1;
    }
    categories.push(name.clone());
    assert(categories.deep_view() =~= old_names.push(name@));
}

/// `a` comes no later than `b` in character order: at the first position where
/// they differ `a` has the smaller character, or `a` is a prefix of `b`.
/// On text this is the order of `String`'s `Ord`, since UTF-8 keeps the order
/// of code points.
pub open spec fn lex_le(a: Seq<char>, b: Seq<char>) -> bool
    decreases a.len(),
{
    if a.len() == 0 {
        true
    } else if b.len() == 0 {
        false
    } else if a[0] != b[0] {
        (a[0] as int) < (b[0] as int)
    } else {
        lex_le(a.drop_first(), b.drop_first())
    }
}

/// `a` comes no later than `b` when shorter texts come first and texts of one
/// length are in character order: on numerals without leading zeros this is
/// the order of their numbers.
pub open spec fn shortlex_le(a: Seq<char>, b: Seq<char>) -> bool {
    a.len() < b.len() || (a.len() == b.len() && lex_le(a, b))
}

/// The name of the category that takes what is left of the receipt.
pub open spec fn other_name() -> Seq<char> {
    "Other"@
}

/// The start of every name of a category that was entered without a name.
pub open spec fn unnamed_prefix() -> Seq<char> {
    "Unnamed category "@
}

/// Whether `c` is one of the decimal digits `0` to `9`.
pub open spec fn is_digit(c: char) -> bool {
    '0' as int <= c as int <= '9' as int
}

/// Whether `d` is the decimal numeral of a positive number: digits only,
/// at least one, and no leading zero.
pub open spec fn is_positive_numeral(d: Seq<char>) -> bool {
    &&& d.len() > 0
    &&& d[0] != '0'
    &&& forall|i: int| 0 <= i < d.len() ==> is_digit(#[trigger] d[i])
}

/// Whether `name` has the form of the names given to categories entered
/// without a name: `Unnamed category ` followed by a positive numeral.
pub open spec fn is_unnamed_name(name: Seq<char>) -> bool {
    unnamed_prefix().is_prefix_of(name) && is_positive_numeral(
        name.skip(unnamed_prefix().len() as int),
    )
}

/// Where a category goes in the table: 2 for `Other`, 1 for a category
/// entered without a name, 0 for every other (named) category.
pub open spec fn group(name: Seq<char>) -> int {
    if name == other_name() {
        2
    } else if is_unnamed_name(name) {
        1
    } else {
        0
    }
}

/// The order of the rows of the table: named categories first, in character
/// order; then the categories entered without a name, in the order of their
/// numbers; `Other` last.
pub open spec fn category_le(a: Seq<char>, b: Seq<char>) -> bool {
    if group(a) != group(b) {
        group(a) < group(b)
    } else if group(a) == 1 {
        shortlex_le(a, b)
    } else {
        lex_le(a, b)
    }
}

/// `category_le` as a relation.
pub open spec fn category_order() -> spec_fn(Seq<char>, Seq<char>) -> bool {
    |a: Seq<char>, b: Seq<char>| category_le(a, b)
}

proof fn lemma_lex_reflexive(a: Seq<char>)
    ensures
        lex_le(a, a),
    decreases a.len(),
{
    if a.len() > 0 {
        lemma_lex_reflexive(a.drop_first());
    }
}

proof fn lemma_lex_antisymmetric(a: Seq<char>, b: Seq<char>)
    requires
        lex_le(a, b),
        lex_le(b, a),
    ensures
        a == b,
    decreases a.len(),
{
    if a.len() > 0 && b.len() > 0 {
        lemma_lex_antisymmetric(a.drop_first(), b.drop_first());
        assert(a =~= seq![a[0]] + a.drop_first());
        assert(b =~= seq![b[0]] + b.drop_first());
    }
}

proof fn lemma_lex_transitive(a: Seq<char>, b: Seq<char>, c: Seq<char>)
    requires
        lex_le(a, b),
        lex_le(b, c),
    ensures
        lex_le(a, c),
    decreases a.len(),
{
    if a.len() > 0 && b.len() > 0 && c.len() > 0 && a[0] == b[0] && b[0] == c[0] {
        lemma_lex_transitive(a.drop_first(), b.drop_first(), c.drop_first());
    }
}

proof fn lemma_lex_total(a: Seq<char>, b: Seq<char>)
    ensures
        lex_le(a, b) || lex_le(b, a),
    decreases a.len(),
{
    if a.len() > 0 && b.len() > 0 {
        if a[0] == b[0] {
            lemma_lex_total(a.drop_first(), b.drop_first());
        } else {
            assert((a[0] as int) != (b[0] as int));
        }
    }
}

/// The order of the table's rows is a total order on names.
pub proof fn lemma_category_order_total()
    ensures
        total_ordering(category_order()),
{
    let r = category_order();
    assert forall|a: Seq<char>| #[trigger] r(a, a) by {
        lemma_lex_reflexive(a);
    }
    assert forall|a: Seq<char>, b: Seq<char>| #[trigger] r(a, b) && #[trigger] r(b, a) implies a
        == b by {
        lemma_lex_antisymmetric(a, b);
    }
    assert forall|a: Seq<char>, b: Seq<char>, c: Seq<char>|
        #[trigger] r(a, b) && #[trigger] r(b, c) implies r(a, c) by {
        if group(a) == group(b) && group(b) == group(c) {
            if group(a) != 1 || (a.len() == b.len() && b.len() == c.len()) {
                lemma_lex_transitive(a, b, c);
            }
        }
    }
    assert forall|a: Seq<char>, b: Seq<char>| #[trigger] r(a, b) || #[trigger] r(b, a) by {
        lemma_lex_total(a, b);
    }
}

/// Decides `lex_le` on two character sequences.
fn lex_le_chars(a: &Vec<char>, b: &Vec<char>) -> (le: bool)
    ensures
        le == lex_le(a@, b@),
{
    let mut i: usize = 0;
    assert(a@.skip(0) =~= a@ && b@.skip(0) =~= b@);
    loop
        invariant
            i <= a@.len(),
            i <= b@.len(),
            lex_le(a@, b@) == lex_le(a@.skip(i as int), b@.skip(i as int)),
        decreases a@.len() - i,
    {
        if i == a.len() {
            return true;
        }
        if i == b.len() {
            return false;
        }
        if a[i] != b[i] {
            return a[i] < b[i];
        }
        assert(a@.skip(i as int).drop_first() =~= a@.skip(i + 1));
        assert(b@.skip(i as int).drop_first() =~= b@.skip(i + 1));
        i = i + 1;
    }
}

/// Whether `p` is a prefix of `s`.
fn starts_with_chars(s: &Vec<char>, p: &Vec<char>) -> (b: bool)
    ensures
        b == p@.is_prefix_of(s@),
{
    if p.len() > s.len() {
        return false;
    }
    let mut i: usize = 0;
    while i < p.len()
        invariant
            p@.len() <= s@.len(),
            i <= p@.len(),
            forall|j: int| 0 <= j < i ==> p@[j] == s@[j],
        decreases p@.len() - i,
    {
        if p[i] != s[i] {
            assert(p@[i as int] != s@.subrange(0, p@.len() as int)[i as int]);
            return false;
        }
        i = i + 1;
    }
    assert(p@ =~= s@.subrange(0, p@.len() as int));
    true
}

/// Whether two character sequences are equal.
fn same_chars(a: &Vec<char>, b: &Vec<char>) -> (eq: bool)
    ensures
        eq == (a@ == b@),
{
    if a.len() != b.len() {
        return false;
    }
    let eq = starts_with_chars(a, b);
    assert(a@.subrange(0, a@.len() as int) =~= a@);
    eq
}

/// Whether the characters of `d` from position `start` on form a positive numeral.
fn is_positive_numeral_from(d: &Vec<char>, start: usize) -> (b: bool)
    requires
        start <= d@.len(),
    ensures
        b == is_positive_numeral(d@.skip(start as int)),
{
    let n = d.len();
    if start == n || d[start] == '0' {
        return false;
    }
    let mut i: usize = start;
    while i < n
        invariant
            start <= i <= n,
            n == d@.len(),
            forall|k: int| start <= k < i ==> is_digit(#[trigger] d@[k]),
        decreases n - i,
    {
        if d[i] < '0' || d[i] > '9' {
            assert(d@.skip(start as int)[i - start] == d@[i as int]);
            return false;
        }
        i = i + 1;
    }
    assert forall|k: int| 0 <= k < d@.skip(start as int).len() implies is_digit(
        #[trigger] d@.skip(start as int)[k],
    ) by {
        assert(d@.skip(start as int)[k] == d@[start + k]);
    }
    true
}

/// The table group of the name whose characters are `name`.
fn group_of(name: &Vec<char>) -> (g: u8)
    ensures
        g == group(name@),
{
    let other = chars_of("Other");
    if same_chars(name, &other) {
        return 2;
    }
    let prefix = chars_of("Unnamed category ");
    if starts_with_chars(name, &prefix) && is_positive_numeral_from(name, prefix.len()) {
        1
    } else {
        0
    }
}

/// Decides `category_le` on two names.
pub fn category_precedes(a: &String, b: &String) -> (le: bool)
    ensures
        le == category_le(a@, b@),
{
    let ca = chars_of(a.as_str());
    let cb = chars_of(b.as_str());
    let ga = group_of(&ca);
    let gb = group_of(&cb);
    if ga != gb {
        ga < gb
    } else if ga == 1 {
        ca.len() < cb.len() || (ca.len() == cb.len() && lex_le_chars(&ca, &cb))
    } else {
        lex_le_chars(&ca, &cb)
    }
}

/// The rows of the table: the given categories sorted by `category_le`, that
/// is named categories in character order, then the categories entered
/// without a name (`Unnamed category n`) in the order of their numbers, then
/// `Other`. A typed name of another form counts as named.
pub fn ordered_category_list(categories: &Vec<String>) -> (ordered: Vec<String>)
    ensures
        ordered.deep_view() == categories.deep_view().sort_by(category_order()),
        sorted_by(ordered.deep_view(), category_order()),
        ordered.deep_view().to_multiset() == categories.deep_view().to_multiset(),
{
    let ghost leq = category_order();
    let ghost input = categories.deep_view();
    proof {
        lemma_category_order_total();
    }
    let mut ordered: Vec<String> = Vec::new();
    let n = categories.len();
    let mut i: usize = 0;
    assert(input.take(0) =~= Seq::<Seq<char>>::empty());
    assert(ordered.deep_view() =~= Seq::<Seq<char>>::empty());
    while i < n
        invariant
            n == categories@.len(),
            i <= n,
            input == categories.deep_view(),
            leq == category_order(),
            total_ordering(leq),
            sorted_by(ordered.deep_view(), leq),
            ordered.deep_view().to_multiset() == input.take(i as int).to_multiset(),
        decreases n - i,
    {
        let item = categories[i].clone();
        let ghost before = ordered.deep_view();
        let mut p: usize = 0;
        while p < ordered.len() && category_precedes(&ordered[p], &item)
            invariant
                p <= ordered@.len(),
                before == ordered.deep_view(),
                forall|k: int| 0 <= k < p ==> category_le(#[trigger] before[k], item@),
            decreases ordered@.len() - p,
        {
            p = p + 1;
        }
        ordered.insert(p, item);
        let ghost after = ordered.deep_view();
        assert(after =~= before.insert(p as int, item@));
        assert(input.take(i + 1) =~= input.take(i as int).push(item@));
        proof {
            vstd::seq_lib::to_multiset_insert(before, p as int, item@);
            vstd::seq_lib::to_multiset_build(input.take(i as int), item@);
        }
        assert(input.take(i + 1).to_multiset() == input.take(i as int).to_multiset().insert(
            item@,
        ));
        assert(sorted_by(after, leq)) by {
            if p < before.len() {
                assert(!leq(before[p as int], item@));
                assert(leq(item@, before[p as int]));
            }
            assert forall|x: int, y: int| 0 <= x < y < after.len() implies #[trigger] leq(
                after[x],
                after[y],
            ) by {
                if y == p {
                } else if x == p {
                    if y > p + 1 {
                        assert(leq(before[p as int], before[y - 1]));
                    }
                } else if x < p && y > p {
                    assert(leq(before[x], before[y - 1]));
                }
                else if x > p {
                    assert(leq(before[x - 1], before[y - 1]));
                } else {
                    assert(leq(before[x], before[y]));
                }
            }
        }
        i = i + 1;
    }
    assert(input.take(n as int) =~= input);
    proof {
        input.lemma_sort_by_ensures(leq);
        vstd::seq_lib::lemma_sorted_unique(ordered.deep_view(), input.sort_by(leq), leq);
    }
    ordered
}

} // verus!
