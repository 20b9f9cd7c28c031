use vstd::prelude::*;

use vstd::relations::sorted_by;

use crate::categories::{
    category_le, category_order, group, is_digit, is_positive_numeral, is_unnamed_name,
    lemma_category_order_total, lex_le, other_name, register, shortlex_le, unnamed_name,
    unnamed_prefix,
};
use crate::session::{
    next, retry_prompt, total_prompt, ActionModel, Currency, EventModel, PhaseModel, SessionModel,
};
use crate::text::{decimal, digit_char, is_entry_of, is_white_space, join_words, words, EntryLine};

verus! {

/// A numeral has at least one digit.
proof fn lemma_decimal_len_pos(n: nat)
    ensures
        decimal(n).len() >= 1,
    decreases n,
{
    if n >= 10 {
        lemma_decimal_len_pos(n / 10);
    }
}

/// A larger number never has fewer digits.
proof fn lemma_decimal_len_monotone(n: nat, m: nat)
    requires
        n <= m,
    ensures
        decimal(n).len() <= decimal(m).len(),
    decreases m,
{
    if m >= 10 {
        if n < 10 {
            lemma_decimal_len_pos(m);
        } else {
            lemma_decimal_len_monotone(n / 10, m / 10);
        }
    }
}

/// Appending one character to each of two texts of one length.
proof fn lemma_lex_push(a: Seq<char>, b: Seq<char>, x: char, y: char)
    requires
        a.len() == b.len(),
    ensures
        lex_le(a.push(x), b.push(y)) == if a == b {
            (x as int) <= (y as int)
        } else {
            lex_le(a, b)
        },
    decreases a.len(),
{
    if a.len() == 0 {
        assert(a =~= b);
        assert(a.push(x).drop_first() =~= Seq::<char>::empty());
        assert(b.push(y).drop_first() =~= Seq::<char>::empty());
        assert(lex_le(a.push(x).drop_first(), b.push(y).drop_first()));
        if x != y {
            assert((x as int) != (y as int));
        }
    } else {
        assert(a.push(x).drop_first() =~= a.drop_first().push(x));
        assert(b.push(y).drop_first() =~= b.drop_first().push(y));
        lemma_lex_push(a.drop_first(), b.drop_first(), x, y);
        assert(a.push(x)[0] == a[0]);
        assert(b.push(y)[0] == b[0]);
        assert(a =~= seq![a[0]] + a.drop_first());
        assert(b =~= seq![b[0]] + b.drop_first());
        if a == b {
            assert(a.drop_first() == b.drop_first());
        }
    }
}

/// The digit character of `d` is the `d`-th after `'0'`.
proof fn lemma_digit_char(d: int)
    requires
        0 <= d < 10,
    ensures
        digit_char(d) as int == '0' as int + d,
{
}

/// Numerals of one length are in character order exactly when their numbers are in order.
proof fn lemma_decimal_lex(n: nat, m: nat)
    requires
        decimal(n).len() == decimal(m).len(),
    ensures
        lex_le(decimal(n), decimal(m)) <==> n <= m,
        decimal(n) == decimal(m) <==> n == m,
    decreases n,
{
    if n < 10 && m < 10 {
        let a = decimal(n);
        let b = decimal(m);
        lemma_digit_char(n as int);
        lemma_digit_char(m as int);
        assert(a.drop_first() =~= Seq::<char>::empty());
        assert(b.drop_first() =~= Seq::<char>::empty());
        assert(lex_le(a.drop_first(), b.drop_first()));
        if a == b {
            assert(a[0] == b[0]);
        }
    } else if n < 10 {
        lemma_decimal_len_pos(m / 10);
    } else if m < 10 {
        lemma_decimal_len_pos(n / 10);
    } else {
        lemma_decimal_lex(n / 10, m / 10);
        lemma_lex_push(
            decimal(n / 10),
            decimal(m / 10),
            digit_char((n % 10) as int),
            digit_char((m % 10) as int),
        );
        if decimal(n) == decimal(m) {
            assert(decimal(n).drop_last() == decimal(m).drop_last());
            assert(decimal(n).last() == decimal(m).last());
            assert(decimal(n / 10) =~= decimal(n).drop_last());
            assert(decimal(m / 10) =~= decimal(m).drop_last());
        }
    }
}

/// Shorter numerals first, then character order, is the order of the numbers.
proof fn lemma_decimal_shortlex(n: nat, m: nat)
    ensures
        shortlex_le(decimal(n), decimal(m)) <==> n <= m,
{
    if decimal(n).len() == decimal(m).len() {
        lemma_decimal_lex(n, m);
    } else if n <= m {
        lemma_decimal_len_monotone(n, m);
    } else {
        lemma_decimal_len_monotone(m, n);
    }
}

/// A common beginning does not change the character order.
proof fn lemma_lex_common_prefix(p: Seq<char>, x: Seq<char>, y: Seq<char>)
    ensures
        lex_le(p + x, p + y) == lex_le(x, y),
    decreases p.len(),
{
    if p.len() == 0 {
        assert(p + x =~= x);
        assert(p + y =~= y);
    } else {
        assert((p + x).drop_first() =~= p.drop_first() + x);
        assert((p + y).drop_first() =~= p.drop_first() + y);
        lemma_lex_common_prefix(p.drop_first(), x, y);
    }
}

/// The numeral of a positive number is a positive numeral.
proof fn lemma_decimal_positive_numeral(n: nat)
    requires
        n >= 1,
    ensures
        is_positive_numeral(decimal(n)),
    decreases n,
{
    lemma_decimal_digits(n);
    if n >= 10 {
        lemma_decimal_positive_numeral(n / 10);
        lemma_decimal_len_pos(n / 10);
        assert(decimal(n)[0] == decimal(n / 10)[0]);
    }
}

/// A numeral is made of digits.
proof fn lemma_decimal_digits(n: nat)
    ensures
        forall|i: int| 0 <= i < decimal(n).len() ==> is_digit(#[trigger] decimal(n)[i]),
    decreases n,
{
    lemma_digit_char((n % 10) as int);
    if n >= 10 {
        lemma_decimal_digits(n / 10);
        assert forall|i: int| 0 <= i < decimal(n).len() implies is_digit(
            #[trigger] decimal(n)[i],
        ) by {
            if i < decimal(n / 10).len() {
                assert(decimal(n)[i] == decimal(n / 10)[i]);
            }
        }
    }
}

/// Every name made for an entry without a name is in the group of unnamed
/// categories; the counter starts at one, so `n` is positive.
pub proof fn law_unnamed_names_are_unnamed(n: nat)
    requires
        n >= 1,
    ensures
        group(unnamed_name(n)) == 1,
{
    reveal_strlit("Unnamed category ");
    reveal_strlit("Other");
    let name = unnamed_name(n);
    assert(unnamed_prefix() =~= name.subrange(0, 17));
    assert(name.skip(17) =~= decimal(n));
    lemma_decimal_positive_numeral(n);
    assert(name.len() != "Other"@.len());
}

/// Unnamed categories come in the order of their numbers: the row of
/// `Unnamed category n` comes no later than that of `Unnamed category m`
/// exactly when `n <= m` (numbers from one on, as the counter gives them).
pub proof fn law_unnamed_in_numerical_order(n: nat, m: nat)
    requires
        n >= 1,
        m >= 1,
    ensures
        category_le(unnamed_name(n), unnamed_name(m)) <==> n <= m,
{
    law_unnamed_names_are_unnamed(n);
    law_unnamed_names_are_unnamed(m);
    lemma_lex_common_prefix("Unnamed category "@, decimal(n), decimal(m));
    lemma_decimal_shortlex(n, m);
}

/// Two unnamed entries with different numbers never share a category.
pub proof fn law_unnamed_names_distinct(n: nat, m: nat)
    ensures
        unnamed_name(n) == unnamed_name(m) <==> n == m,
{
    if unnamed_name(n) == unnamed_name(m) {
        let p = "Unnamed category "@;
        assert(decimal(n) =~= unnamed_name(n).skip(p.len() as int));
        assert(decimal(m) =~= unnamed_name(m).skip(p.len() as int));
        lemma_decimal_lex(n, m);
    }
}

/// The table does not depend on the order in which the categories are kept:
/// two lists of the same categories give the same rows in the same order.
pub proof fn law_table_ignores_storage_order(a: Seq<Seq<char>>, b: Seq<Seq<char>>)
    requires
        a.to_multiset() == b.to_multiset(),
    ensures
        a.sort_by(category_order()) == b.sort_by(category_order()),
{
    lemma_category_order_total();
    a.lemma_sort_by_ensures(category_order());
    b.lemma_sort_by_ensures(category_order());
    vstd::seq_lib::lemma_sorted_unique(
        a.sort_by(category_order()),
        b.sort_by(category_order()),
        category_order(),
    );
}

/// The table of distinct categories has one row for each category and no
/// other; named categories come first, then unnamed ones, and `Other`, when
/// there, is the last row.
pub proof fn law_table_rows(categories: Seq<Seq<char>>)
    requires
        categories.no_duplicates(),
    ensures
        ({
            let rows = categories.sort_by(category_order());
            &&& rows.len() == categories.len()
            &&& rows.no_duplicates()
            &&& forall|x: Seq<char>| rows.contains(x) <==> categories.contains(x)
            &&& forall|i: int, j: int|
                0 <= i < j < rows.len() ==> group(#[trigger] rows[i]) <= group(#[trigger] rows[j])
            &&& categories.contains(other_name()) ==> rows.last() == other_name()
        }),
{
    broadcast use vstd::seq_lib::group_to_multiset_ensures;

    let rows = categories.sort_by(category_order());
    lemma_category_order_total();
    categories.lemma_sort_by_ensures(category_order());
    assert(sorted_by(rows, category_order()));
    assert(rows.len() == categories.len()) by {
        assert(rows.to_multiset().len() == categories.to_multiset().len());
    }
    assert forall|x: Seq<char>| rows.contains(x) <==> categories.contains(x) by {
        assert(rows.contains(x) <==> rows.to_multiset().count(x) > 0);
        assert(categories.contains(x) <==> categories.to_multiset().count(x) > 0);
    }
    categories.lemma_multiset_has_no_duplicates();
    rows.lemma_multiset_has_no_duplicates_conv();
    assert forall|i: int, j: int| 0 <= i < j < rows.len() implies group(#[trigger] rows[i])
        <= group(#[trigger] rows[j]) by {
        assert(category_order()(rows[i], rows[j]));
    }
    if categories.contains(other_name()) {
        let k = choose|k: int| 0 <= k < rows.len() && rows[k] == other_name();
        assert(rows.contains(other_name()));
        if k != rows.len() - 1 {
            let last = rows.last();
            assert(category_order()(rows[k], rows[rows.len() - 1]));
            assert(group(last) == 2);
            assert(last == other_name());
        }
    }
}

/// Several entries into one category make one category: assigning to a name
/// that is there already changes nothing, the name is there afterwards, and
/// no name is there twice.
pub proof fn law_register_idempotent(categories: Seq<Seq<char>>, name: Seq<char>)
    ensures
        register(register(categories, name), name) == register(categories, name),
        register(categories, name).contains(name),
        categories.is_prefix_of(register(categories, name)),
        categories.no_duplicates() ==> register(categories, name).no_duplicates(),
{
    let r = register(categories, name);
    if !categories.contains(name) {
        assert(r[categories.len() as int] == name);
    }
    assert(categories =~= r.subrange(0, categories.len() as int));
}


/// A word: a nonempty text without white space.
pub open spec fn is_word(w: Seq<char>) -> bool {
    w.len() > 0 && forall|i: int| 0 <= i < w.len() ==> !is_white_space(#[trigger] w[i])
}

/// A word after white space, or at the start, is one more word.
proof fn lemma_words_append_word(t: Seq<char>, w: Seq<char>)
    requires
        is_word(w),
        t.len() == 0 || is_white_space(t.last()),
    ensures
        words(t + w) == words(t).push(w),
    decreases w.len(),
{
    let c = w.last();
    assert(!is_white_space(w[w.len() - 1]));
    if w.len() == 1 {
        assert((t + w).drop_last() =~= t);
        assert(seq![c] =~= w);
        if t.len() > 0 {
            assert((t + w)[(t + w).len() - 2] == t.last());
        }
    } else {
        let w2 = w.drop_last();
        assert(!is_white_space(w[w.len() - 2]));
        assert(is_word(w2));
        lemma_words_append_word(t, w2);
        assert((t + w).drop_last() =~= t + w2);
        assert((t + w)[(t + w).len() - 2] == w[w.len() - 2]);
        assert(w2.push(c) =~= w);
        assert(words(t).push(w2).update(words(t).len() as int, w2.push(c)) =~= words(t).push(w));
    }
}

/// Words joined by single spaces are read back as the same words.
pub proof fn law_words_of_joined(ws: Seq<Seq<char>>)
    requires
        forall|i: int| 0 <= i < ws.len() ==> is_word(#[trigger] ws[i]),
    ensures
        words(join_words(ws)) == ws,
    decreases ws.len(),
{
    if ws.len() == 1 {
        assert(is_word(ws[0]));
        lemma_words_append_word(Seq::empty(), ws[0]);
        assert(Seq::<char>::empty() + ws[0] =~= ws[0]);
        assert(Seq::<Seq<char>>::empty().push(ws[0]) =~= ws);
    } else if ws.len() > 1 {
        let front = ws.drop_last();
        assert forall|i: int| 0 <= i < front.len() implies is_word(#[trigger] front[i]) by {
            assert(front[i] == ws[i]);
        }
        law_words_of_joined(front);
        let pre = join_words(front);
        let t = pre + seq![' '];
        assert(is_word(ws[ws.len() - 1]));
        lemma_words_append_word(t, ws.last());
        assert(t.drop_last() =~= pre);
        assert(is_white_space(t.last()));
        assert(front.push(ws.last()) =~= ws);
    }
}

/// A line typed as the words of a category name, then the subtotal, is read
/// as an entry of that name (its words joined by single spaces) and that subtotal.
pub proof fn law_entry_line_splits(name_words: Seq<Seq<char>>, subtotal: Seq<char>)
    requires
        forall|i: int| 0 <= i < name_words.len() ==> is_word(#[trigger] name_words[i]),
        is_word(subtotal),
    ensures
        forall|entry: EntryLine|
            is_entry_of(join_words(name_words.push(subtotal)), entry) ==> (entry matches
                EntryLine::Entry { name, subtotal: text } && name@ == join_words(name_words)
                && text@ == subtotal),
{
    let ws = name_words.push(subtotal);
    assert forall|i: int| 0 <= i < ws.len() implies is_word(#[trigger] ws[i]) by {
        if i < name_words.len() {
            assert(ws[i] == name_words[i]);
        }
    }
    law_words_of_joined(ws);
    assert(ws.drop_last() =~= name_words);
}

/// Every step keeps the categories that are there and adds at most one,
/// and no category is ever there twice.
pub proof fn law_categories_only_grow(s: SessionModel, e: EventModel)
    ensures
        ({
            let t = next(s, e).0;
            &&& s.categories.is_prefix_of(t.categories)
            &&& t.categories.len() <= s.categories.len() + 1
            &&& s.categories.no_duplicates() ==> t.categories.no_duplicates()
        }),
{
    assert(s.categories =~= s.categories.subrange(0, s.categories.len() as int));
    law_register_idempotent(s.categories, other_name());
    if let PhaseModel::AwaitCheck { name } = s.phase {
        law_register_idempotent(s.categories, name);
        law_register_idempotent(s.categories, unnamed_name(((s.unnamed_count + 1) as u64) as nat));
    }
}

/// The count of entries without a name never goes down; it goes up by one
/// only when an amount is assigned to `Unnamed category n`, n the new count.
pub proof fn law_unnamed_numbering(s: SessionModel, e: EventModel)
    ensures
        ({
            let (t, action) = next(s, e);
            ||| t.unnamed_count == s.unnamed_count
            ||| t.unnamed_count == s.unnamed_count + 1 && action == (ActionModel::Assign {
                category: unnamed_name(t.unnamed_count as nat),
            })
        }),
{
}

/// A subtotal that is not a number, or that is more than what remains, is
/// reported and changes nothing: the categories and the count of unnamed
/// entries stay, and after the report the next line is asked for.
pub proof fn law_rejected_subtotal(s: SessionModel, parsed: bool, exceeds: bool)
    requires
        s.phase is AwaitCheck,
        !parsed || exceeds,
    ensures
        ({
            let (t, action) = next(s, EventModel::SubtotalChecked { parsed, exceeds });
            &&& t.categories == s.categories
            &&& t.unnamed_count == s.unnamed_count
            &&& action is Report
            &&& next(t, EventModel::Done) == (t.with_phase(PhaseModel::AwaitLine), ActionModel::AskSubtotal)
        }),
{
}

/// The program asks for exactly the totals that the command line did not
/// give, the domestic one first, and asks again, for the same total, after
/// every line that holds no number.
pub proof fn law_missing_totals_are_asked_for(
    s: SessionModel,
    domestic_given: bool,
    foreign_given: bool,
)
    requires
        s.phase is Starting,
    ensures
        ({
            let (t, action) = next(s, EventModel::Started { domestic_given, foreign_given });
            let domestic = ActionModel::AskTotal {
                currency: Currency::Domestic,
                prompt: total_prompt(Currency::Domestic),
            };
            let foreign = ActionModel::AskTotal {
                currency: Currency::Foreign,
                prompt: total_prompt(Currency::Foreign),
            };
            &&& !domestic_given ==> action == domestic
            &&& domestic_given && !foreign_given ==> action == foreign
            &&& domestic_given && foreign_given ==> action == ActionModel::AskSubtotal
            &&& t.phase is AwaitTotal ==> next(t, EventModel::TotalRead { valid: false }) == (
            t,
            ActionModel::AskTotal { currency: t.phase->currency, prompt: retry_prompt() },
            )
            &&& !domestic_given && !foreign_given ==> next(
                t,
                EventModel::TotalRead { valid: true },
            ).1 == foreign
        }),
{
}

/// An entry into a named category that is there already adds no category.
pub proof fn law_repeated_name_adds_nothing(s: SessionModel, name: Seq<char>)
    requires
        s.phase == (PhaseModel::AwaitCheck { name }),
        name.len() > 0,
        s.categories.contains(name),
    ensures
        ({
            let (t, action) = next(s, EventModel::SubtotalChecked { parsed: true, exceeds: false });
            &&& t.categories == s.categories
            &&& action == (ActionModel::Assign { category: name })
        }),
{
}

/// A line without words gives all that remains to `Other`, and the table
/// that follows has `Other` as its last row.
pub proof fn law_blank_line_goes_to_other(s: SessionModel, line: Seq<char>)
    requires
        s.phase is AwaitLine,
        words(line).len() == 0,
        s.categories.no_duplicates(),
    ensures
        ({
            let (t, action) = next(s, EventModel::LineRead { line });
            let (u, table) = next(t, EventModel::Done);
            &&& action == (ActionModel::AssignRemainder { category: other_name() })
            &&& u.phase is AwaitTable
            &&& table matches ActionModel::PrintTable { categories } && categories.last()
                == other_name()
        }),
{
    law_register_idempotent(s.categories, other_name());
    law_table_rows(register(s.categories, other_name()));
}

/// The table is printed only at the end of the input: after a line without
/// words gave the remainder to `Other`, or after an assignment that left no
/// money; then the program ends, and a finished session stays finished.
pub proof fn law_table_only_at_end(s: SessionModel, e: EventModel)
    ensures
        next(s, e).1 is PrintTable ==> (s.phase is AwaitRemainder && e is Done) || (
        s.phase is AwaitAssigned && e == (EventModel::Assigned { all_assigned: true })),
        s.phase is AwaitTable && e is Done ==> next(s, e) == (
        s.with_phase(PhaseModel::Finished),
        ActionModel::Exit,
        ),
        s.phase is Finished ==> next(s, e) == (s, ActionModel::Exit),
{
}

/// Among named categories the table follows the first character in which two
/// names differ: the name with the smaller character there comes first.
pub proof fn law_named_rows_by_first_difference(a: Seq<char>, b: Seq<char>, i: int)
    requires
        a != other_name() && !is_unnamed_name(a),
        b != other_name() && !is_unnamed_name(b),
        0 <= i < a.len(),
        i < b.len(),
        a.take(i) == b.take(i),
        (a[i] as int) < (b[i] as int),
    ensures
        category_le(a, b),
        !category_le(b, a),
{
    lemma_lex_first_difference(a, b, i);
}

/// The character order, decided at the first difference.
proof fn lemma_lex_first_difference(a: Seq<char>, b: Seq<char>, i: int)
    requires
        0 <= i < a.len(),
        i < b.len(),
        a.take(i) == b.take(i),
        (a[i] as int) < (b[i] as int),
    ensures
        lex_le(a, b),
        !lex_le(b, a),
    decreases i,
{
    if i > 0 {
        assert(a[0] == a.take(i)[0]);
        assert(b[0] == b.take(i)[0]);
        assert(a.drop_first().take(i - 1) =~= a.take(i).drop_first());
        assert(b.drop_first().take(i - 1) =~= b.take(i).drop_first());
        lemma_lex_first_difference(a.drop_first(), b.drop_first(), i - 1);
    }
}

/// Among named categories a name comes before every longer name that it begins.
pub proof fn law_named_rows_prefix_first(a: Seq<char>, b: Seq<char>)
    requires
        a != other_name() && !is_unnamed_name(a),
        b != other_name() && !is_unnamed_name(b),
        a.len() < b.len(),
        a == b.take(a.len() as int),
    ensures
        category_le(a, b),
        !category_le(b, a),
{
    lemma_lex_proper_prefix(a, b);
}

/// A proper prefix comes first in character order.
proof fn lemma_lex_proper_prefix(a: Seq<char>, b: Seq<char>)
    requires
        a.len() < b.len(),
        a == b.take(a.len() as int),
    ensures
        lex_le(a, b),
        !lex_le(b, a),
    decreases a.len(),
{
    if a.len() > 0 {
        assert(a[0] == b[0]);
        assert(a.drop_first() =~= b.drop_first().take(a.len() - 1));
        lemma_lex_proper_prefix(a.drop_first(), b.drop_first());
    }
}

/// A text that ends in a non-white character has at least one word.
proof fn lemma_words_nonempty(s: Seq<char>)
    requires
        s.len() > 0,
        !is_white_space(s.last()),
    ensures
        words(s).len() > 0,
    decreases s.len(),
{
    if s.len() >= 2 && !is_white_space(s[s.len() - 2]) {
        lemma_words_nonempty(s.drop_last());
    }
}

/// Every word of a text is a word: nonempty and free of white space.
pub proof fn law_words_are_words(s: Seq<char>)
    ensures
        forall|i: int| 0 <= i < words(s).len() ==> is_word(#[trigger] words(s)[i]),
    decreases s.len(),
{
    if s.len() > 0 {
        law_words_are_words(s.drop_last());
        let before = words(s.drop_last());
        let c = s.last();
        if !is_white_space(c) && s.len() >= 2 && !is_white_space(s[s.len() - 2]) {
            assert(s.drop_last().last() == s[s.len() - 2]);
            lemma_words_nonempty(s.drop_last());
            let w = before.last().push(c);
            assert(is_word(before[before.len() - 1]));
            assert forall|j: int| 0 <= j < w.len() implies !is_white_space(#[trigger] w[j]) by {
                if j < before.last().len() {
                    assert(w[j] == before[before.len() - 1][j]);
                }
            }
            assert(is_word(w));
            assert(words(s) == before.update(before.len() - 1, w));
            assert forall|i: int| 0 <= i < words(s).len() implies is_word(#[trigger] words(s)[i]) by {
                if i != before.len() - 1 {
                    assert(is_word(before[i]));
                }
            }
        } else if !is_white_space(c) {
            assert(words(s) == before.push(seq![c]));
            assert(is_word(seq![c]));
            assert forall|i: int| 0 <= i < words(s).len() implies is_word(#[trigger] words(s)[i]) by {
                if i < before.len() {
                    assert(is_word(before[i]));
                }
            }
        }
    }
}

/// White space at the end of a line, such as its newline, adds no word.
pub proof fn law_trailing_white_space_adds_no_word(line: Seq<char>, c: char)
    requires
        is_white_space(c),
    ensures
        words(line.push(c)) == words(line),
{
    assert(line.push(c).drop_last() =~= line);
}

/// The entry of a line depends only on its words: lines with the same words,
/// however they are spaced or ended, give the same entry.
pub proof fn law_entry_depends_only_on_words(l1: Seq<char>, l2: Seq<char>, entry: EntryLine)
    requires
        words(l1) == words(l2),
    ensures
        is_entry_of(l1, entry) <==> is_entry_of(l2, entry),
{
}

/// The name of an entry is made of exactly the words of the line but the
/// last, and the subtotal is the last word.
pub proof fn law_entry_name_is_all_words_but_last(line: Seq<char>, entry: EntryLine)
    requires
        is_entry_of(line, entry),
        entry is Entry,
    ensures
        words(entry->name@) == words(line).drop_last(),
        entry->subtotal@ == words(line).last(),
        is_word(entry->subtotal@),
{
    let ws = words(line);
    law_words_are_words(line);
    assert forall|i: int| 0 <= i < ws.drop_last().len() implies is_word(
        #[trigger] ws.drop_last()[i],
    ) by {
        assert(ws.drop_last()[i] == ws[i]);
    }
    law_words_of_joined(ws.drop_last());
    assert(is_word(ws[ws.len() - 1]));
}

/// What the session does with a line depends only on its words; a line with
/// words is checked for its last word and named by the words before it.
pub proof fn law_line_read_depends_on_words(s: SessionModel, l1: Seq<char>, l2: Seq<char>)
    requires
        s.phase is AwaitLine,
        words(l1) == words(l2),
    ensures
        next(s, EventModel::LineRead { line: l1 }) == next(s, EventModel::LineRead { line: l2 }),
        words(l1).len() > 0 ==> ({
            let (t, action) = next(s, EventModel::LineRead { line: l1 });
            &&& t.phase is AwaitCheck
            &&& words(t.phase->name) == words(l1).drop_last()
            &&& action == (ActionModel::CheckSubtotal { text: words(l1).last() })
            &&& t.categories == s.categories
            &&& t.unnamed_count == s.unnamed_count
        }),
{
    if words(l1).len() > 0 {
        let ws = words(l1);
        law_words_are_words(l1);
        assert forall|i: int| 0 <= i < ws.drop_last().len() implies is_word(
            #[trigger] ws.drop_last()[i],
        ) by {
            assert(ws.drop_last()[i] == ws[i]);
        }
        law_words_of_joined(ws.drop_last());
    }
}

/// Every category that an amount goes to is kept for the table.
pub proof fn law_assigned_category_is_kept(s: SessionModel, e: EventModel)
    ensures
        ({
            let (t, action) = next(s, e);
            &&& action is Assign ==> t.categories.contains(action->Assign_category)
            &&& action is AssignRemainder ==> t.categories.contains(
                action->AssignRemainder_category,
            )
        }),
{
    law_register_idempotent(s.categories, other_name());
    if let PhaseModel::AwaitCheck { name } = s.phase {
        law_register_idempotent(s.categories, name);
        law_register_idempotent(s.categories, unnamed_name(((s.unnamed_count + 1) as u64) as nat));
    }
}

/// The table has a row for every category that got money, and no other row.
pub proof fn law_table_has_every_category(s: SessionModel, e: EventModel)
    ensures
        ({
            let (t, action) = next(s, e);
            action is PrintTable ==> t.categories == s.categories && forall|c: Seq<char>|
                #![trigger action->categories.contains(c)]
                action->categories.contains(c) <==> s.categories.contains(c)
        }),
{
    broadcast use vstd::seq_lib::group_to_multiset_ensures;

    lemma_category_order_total();
    s.categories.lemma_sort_by_ensures(category_order());
    let rows = s.categories.sort_by(category_order());
    assert forall|c: Seq<char>| rows.contains(c) <==> s.categories.contains(c) by {
        assert(rows.contains(c) <==> rows.to_multiset().count(c) > 0);
        assert(s.categories.contains(c) <==> s.categories.to_multiset().count(c) > 0);
    }
}

/// An accepted entry without a name goes to the next unnamed category: the
/// count of such entries goes up by one and the entry is assigned to
/// `Unnamed category n`, n the new count, whatever named categories there are.
pub proof fn law_unnamed_entry_gets_next_number(s: SessionModel)
    requires
        s.phase is AwaitCheck,
        s.phase->name.len() == 0,
        s.unnamed_count < u64::MAX,
    ensures
        ({
            let (t, action) = next(s, EventModel::SubtotalChecked { parsed: true, exceeds: false });
            &&& t.unnamed_count == s.unnamed_count + 1
            &&& action == (ActionModel::Assign { category: unnamed_name((s.unnamed_count + 1) as nat) })
            &&& t.categories.contains(unnamed_name((s.unnamed_count + 1) as nat))
        }),
{
    law_register_idempotent(s.categories, unnamed_name((s.unnamed_count + 1) as nat));
}

/// An entry with a name never changes the count of unnamed entries, and goes
/// to the category of that name.
pub proof fn law_named_entry_keeps_count(s: SessionModel, e: EventModel)
    requires
        s.phase is AwaitCheck,
        s.phase->name.len() > 0,
    ensures
        next(s, e).0.unnamed_count == s.unnamed_count,
        e == (EventModel::SubtotalChecked { parsed: true, exceeds: false }) ==> next(s, e).1 == (
        ActionModel::Assign { category: s.phase->name }),
{
}

/// The session always waits for the total that it asked for last, so a line
/// that holds no number is answered by asking again for that same total.
pub proof fn law_waits_for_the_total_asked(s: SessionModel, e: EventModel)
    ensures
        ({
            let (t, action) = next(s, e);
            action is AskTotal ==> {
                &&& t.phase is AwaitTotal
                &&& t.phase->currency == action->currency
                &&& next(t, EventModel::TotalRead { valid: false }) == (
                t,
                ActionModel::AskTotal { currency: action->currency, prompt: retry_prompt() },
                )
            }
        }),
{
}

/// When neither total is given, the domestic total is asked for first and the
/// foreign one next; once a total is read, it is not asked for again.
pub proof fn law_domestic_then_foreign(s: SessionModel, foreign_given: bool)
    requires
        s.phase == (PhaseModel::AwaitTotal { currency: Currency::Domestic, foreign_given }),
    ensures
        ({
            let (t, action) = next(s, EventModel::TotalRead { valid: true });
            &&& !foreign_given ==> t.phase is AwaitTotal && t.phase->currency == Currency::Foreign
                && action == (ActionModel::AskTotal {
                currency: Currency::Foreign,
                prompt: total_prompt(Currency::Foreign),
            })
            &&& foreign_given ==> t.phase is AwaitLine && action is AskSubtotal
        }),
{
}

} // verus!
