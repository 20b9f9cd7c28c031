use vstd::prelude::*;

verus! {

broadcast use vstd::string::group_string_axioms;

/// Whether `c` has the Unicode `White_Space` property, the set of characters
/// that separate the words of an entry line.
pub open spec fn is_white_space(c: char) -> bool {
    let u = c as u32;
    ||| 0x09 <= u <= 0x0D
    ||| u == 0x20
    ||| u == 0x85
    ||| u == 0xA0
    ||| u == 0x1680
    ||| 0x2000 <= u <= 0x200A
    ||| u == 0x2028
    ||| u == 0x2029
    ||| u == 0x202F
    ||| u == 0x205F
    ||| u == 0x3000
}

/// Decides whether `c` separates words, as `char::is_whitespace` does.
pub fn white_space(c: char) -> (b: bool)
    ensures
        b == is_white_space(c),
{
    let u = c as u32;
    (0x09 <= u && u <= 0x0D) || u == 0x20 || u == 0x85 || u == 0xA0 || u == 0x1680 || (0x2000
        <= u && u <= 0x200A) || u == 0x2028 || u == 0x2029 || u == 0x202F || u == 0x205F || u
        == 0x3000
}

/// The characters of `s`, in order.
pub fn chars_of(s: &str) -> (v: Vec<char>)
    ensures
        v@ == s@,
{
    let mut v: Vec<char> = Vec::new();
    for c in it: s.chars()
        invariant
            it.seq() == s@,
            v@ == it.seq().take(it.index() as int),
    {
        v.push(c);
    }
    v
}

/// The words of `s`: its maximal runs of non-white-space characters, in order.
/// Read left to right, a non-white character extends the current word when it
/// follows another non-white character, and starts a new word otherwise.
pub open spec fn words(s: Seq<char>) -> Seq<Seq<char>>
    decreases s.len(),
{
    if s.len() == 0 {
        Seq::empty()
    } else {
        let before = words(s.drop_last());
        let c = s.last();
        if is_white_space(c) {
            before
        } else if s.len() >= 2 && !is_white_space(s[s.len() - 2]) {
            before.update(before.len() - 1, before.last().push(c))
        } else {
            before.push(seq![c])
        }
    }
}

/// The words of `ws` written one after another with one space between two of them.
pub open spec fn join_words(ws: Seq<Seq<char>>) -> Seq<char>
    decreases ws.len(),
{
    if ws.len() == 0 {
        Seq::empty()
    } else if ws.len() == 1 {
        ws[0]
    } else {
        join_words(ws.drop_last()) + seq![' '] + ws.last()
    }
}

/// Where each word of `s.take(i)` starts and ends, as char positions of `s`.
spec fn spans_of_words(s: Seq<char>, i: int, spans: Seq<(usize, usize)>) -> bool {
    &&& spans.len() == words(s.take(i)).len()
    &&& forall|k: int|
        #![trigger spans[k]]
        0 <= k < spans.len() ==> {
            &&& spans[k].0 < spans[k].1 <= i
            &&& s.subrange(spans[k].0 as int, spans[k].1 as int) == words(s.take(i))[k]
        }
    &&& (0 < i && !is_white_space(s[i - 1])) ==> spans.len() > 0 && spans.last().1 == i
}

/// The positions of the words of `s`.
fn word_spans(s: &Vec<char>) -> (spans: Vec<(usize, usize)>)
    ensures
        spans_of_words(s@, s@.len() as int, spans@),
{
    let mut spans: Vec<(usize, usize)> = Vec::new();
    let n = s.len();
    let mut i: usize = 0;
    assert(s@.take(0) =~= Seq::<char>::empty());
    while i < n
        invariant
            n == s@.len(),
            i <= n,
            spans_of_words(s@, i as int, spans@),
        decreases n - i,
    {
        let c = s[i];
        let ghost before = words(s@.take(i as int));
        assert(s@.take(i + 1).drop_last() =~= s@.take(i as int));
        assert(s@.take(i + 1).last() == c);
        if white_space(c) {
            assert(words(s@.take(i + 1)) == before);
        } else if i > 0 && !white_space(s[i - 1]) {
            assert(s@.take(i + 1)[i - 1] == s@[i - 1]);
            let k = spans.len() - 1;
            let start = spans[k].0;
            assert(s@.subrange(start as int, i + 1) =~= s@.subrange(start as int, i as int).push(c));
            spans.set(k, (start, i + 1));
            assert(words(s@.take(i + 1)) == before.update(before.len() - 1, before.last().push(c)));
        } else {
            if i > 0 {
                assert(s@.take(i + 1)[i - 1] == s@[i - 1]);
            }
            assert(s@.subrange(i as int, i + 1) =~= seq![c]);
            spans.push((i, i + 1));
            assert(words(s@.take(i + 1)) == before.push(seq![c]));
        }
        i = i + 1;
    }
    assert(s@.take(n as int) =~= s@);
    spans
}


/// One line of category input, read as words.
pub enum EntryLine {
    /// The line holds no word at all.
    Blank,
    /// The last word of the line is the subtotal; the words before it,
    /// joined by single spaces, name the category (empty when there are none).
    Entry { name: String, subtotal: String },
}

/// What `parse_entry_line` makes of a line whose characters are `line`.
pub open spec fn is_entry_of(line: Seq<char>, entry: EntryLine) -> bool {
    let ws = words(line);
    match entry {
        EntryLine::Blank => ws.len() == 0,
        EntryLine::Entry { name, subtotal } => {
            &&& ws.len() > 0
            &&& name@ == join_words(ws.drop_last())
            &&& subtotal@ == ws.last()
        },
    }
}

/// Splits a line of category input into its words: a line without words is
/// `Blank`; otherwise its last word is the subtotal and the words before it,
/// joined by single spaces, are the category name.
pub fn parse_entry_line(line: &str) -> (entry: EntryLine)
    ensures
        is_entry_of(line@, entry),
{
    let chars = chars_of(line);
    let spans = word_spans(&chars);
    let n = spans.len();
    assert(line@.take(line@.len() as int) =~= line@);
    if n == 0 {
        return EntryLine::Blank;
    }
    let ghost ws = words(line@);
    let mut name = String::new();
    let mut k: usize = 0;
    proof {
        reveal_strlit(" ");
        assert(ws.take(0) =~= Seq::<Seq<char>>::empty());
    }
    while k < n - 1
        invariant
            n == spans@.len(),
            n == ws.len(),
            chars@ == line@,
            ws == words(line@),
            spans_of_words(line@, line@.len() as int, spans@),
            line@.take(line@.len() as int) == line@,
            k <= n - 1,
            " "@ == seq![' '],
            name@ == join_words(ws.take(k as int)),
        decreases n - 1 - k,
    {
        let (a, b) = spans[k];
        let word = line.substring_char(a, b);
        assert(word@ == ws[k as int]);
        assert(ws.take(k + 1).drop_last() =~= ws.take(k as int));
        if k > 0 {
            name.append(" ");
        } else {
            assert(name@ =~= Seq::<char>::empty());
        }
        name.append(word);
        assert(name@ =~= join_words(ws.take(k + 1)));
        k = k + 1;
    }
    assert(ws.take((n - 1) as int) =~= ws.drop_last());
    let (a, b) = spans[n - 1];
    let subtotal = String::from_str(line.substring_char(a, b));
    EntryLine::Entry { name, subtotal }
}


/// The decimal digit character for `d`, for `0 <= d < 10`.
pub open spec fn digit_char(d: int) -> char {
    if d == 0 {
        '0'
    } else if d == 1 {
        '1'
    } else if d == 2 {
        '2'
    } else if d == 3 {
        '3'
    } else if d == 4 {
        '4'
    } else if d == 5 {
        '5'
    } else if d == 6 {
        '6'
    } else if d == 7 {
        '7'
    } else if d == 8 {
        '8'
    } else {
        '9'
    }
}

/// The decimal numeral of `n`, without leading zeros.
pub open spec fn decimal(n: nat) -> Seq<char>
    decreases n,
{
    if n < 10 {
        seq![digit_char(n as int)]
    } else {
        decimal(n / 10).push(digit_char((n % 10) as int))
    }
}

/// The one-character text of the digit `d`.
fn digit_text(d: u64) -> (t: &'static str)
    requires
        d < 10,
    ensures
        t@ == seq![digit_char(d as int)],
{
    if d == 0 {
        proof {
            reveal_strlit("0");
        }
        "0"
    } else if d == 1 {
        proof {
            reveal_strlit("1");
        }
        "1"
    } else if d == 2 {
        proof {
            reveal_strlit("2");
        }
        "2"
    } else if d == 3 {
        proof {
            reveal_strlit("3");
        }
        "3"
    } else if d == 4 {
        proof {
            reveal_strlit("4");
        }
        "4"
    } else if d == 5 {
        proof {
            reveal_strlit("5");
        }
        "5"
    } else if d == 6 {
        proof {
            reveal_strlit("6");
        }
        "6"
    } else if d == 7 {
        proof {
            reveal_strlit("7");
        }
        "7"
    } else if d == 8 {
        proof {
            reveal_strlit("8");
        }
        "8"
    } else {
        proof {
            reveal_strlit("9");
        }
        "9"
    }
}

/// Appends the decimal numeral of `n` to `out`.
pub fn push_decimal(out: &mut String, n: u64)
    ensures
        final(out)@ == old(out)@ + decimal(n as nat),
    decreases n,
{
    if n >= 10 {
        push_decimal(out, n / 10);
    }
    out.append(digit_text(n % 10));
    assert(out@ =~= old(out)@ + decimal(n as nat)) by {
        if n >= 10 {
            assert(decimal(n as nat) == decimal((n / 10) as nat).push(digit_char((n % 10) as int)));
        }
    }
}

} // verus!
