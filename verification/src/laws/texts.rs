//! Laws of texts: their letters, their order, and the numbers, lines and words
//! in them.

use vstd::prelude::*;

use crate::text;

verus! {

/// The lower case of a text has a letter for each of its letters: the small
/// one for a capital of the ASCII alphabet, else the same.
pub proof fn lower_case_is_letter_by_letter(s: Seq<char>, i: int)
    requires
        0 <= i < s.len(),
    ensures
        text::lower(s).len() == s.len(),
        'A' <= s[i] <= 'Z' ==> text::lower(s)[i] as u32 == s[i] as u32 + 32,
        !('A' <= s[i] <= 'Z') ==> text::lower(s)[i] == s[i],
{
}

/// All of the text is white space.
pub open spec fn is_blank(s: Seq<char>) -> bool {
    forall|i: int| 0 <= i < s.len() ==> text::is_space(#[trigger] s[i])
}

proof fn blank_start(blank: Seq<char>, rest: Seq<char>)
    requires
        is_blank(blank),
    ensures
        text::trim_start(blank + rest) == text::trim_start(rest),
    decreases blank.len(),
{
    let s = blank + rest;
    if blank.len() > 0 {
        assert(s[0] == blank[0]);
        assert(s.drop_first() =~= blank.drop_first() + rest);
        assert forall|i: int| 0 <= i < blank.drop_first().len() implies text::is_space(
            #[trigger] blank.drop_first()[i],
        ) by {
            assert(blank[i + 1] == blank.drop_first()[i]);
        }
        blank_start(blank.drop_first(), rest);
    } else {
        assert(s =~= rest);
    }
}

proof fn blank_end(rest: Seq<char>, blank: Seq<char>)
    requires
        is_blank(blank),
    ensures
        text::trim_end(rest + blank) == text::trim_end(rest),
    decreases blank.len(),
{
    let s = rest + blank;
    if blank.len() > 0 {
        assert(s.last() == blank[blank.len() - 1]);
        assert(s.drop_last() =~= rest + blank.drop_last());
        assert forall|i: int| 0 <= i < blank.drop_last().len() implies text::is_space(
            #[trigger] blank.drop_last()[i],
        ) by {
            assert(blank[i] == blank.drop_last()[i]);
        }
        blank_end(rest, blank.drop_last());
    } else {
        assert(s =~= rest);
    }
}

/// Trimming takes the white space around a text away, and nothing else.
pub proof fn trimming_takes_white_space_away(
    before: Seq<char>,
    inner: Seq<char>,
    after: Seq<char>,
)
    requires
        is_blank(before),
        is_blank(after),
        inner.len() > 0,
        !text::is_space(inner[0]),
        !text::is_space(inner.last()),
    ensures
        text::trim(before + inner + after) == inner,
{
    let rest = inner + after;
    assert(before + inner + after =~= before + rest);
    blank_start(before, rest);
    assert(rest[0] == inner[0]);
    blank_end(inner, after);
}

/// Of a text that is all white space nothing is left.
pub proof fn nothing_is_left_of_white_space(s: Seq<char>)
    requires
        is_blank(s),
    ensures
        text::trim(s).len() == 0,
{
    blank_start(s, Seq::empty());
    assert(s + Seq::<char>::empty() =~= s);
}

/// A text is below another exactly where it has the lower letter at the first
/// place at which they differ, or ends there.
pub proof fn the_first_letter_that_differs_decides(a: Seq<char>, b: Seq<char>, k: int)
    requires
        0 <= k <= a.len(),
        k <= b.len(),
        forall|i: int| 0 <= i < k ==> a[i] == b[i],
        k < a.len() && k < b.len() ==> a[k] != b[k],
    ensures
        k < a.len() && k < b.len() ==> (text::less(a, b) <==> a[k] < b[k]),
        k == a.len() ==> (text::less(a, b) <==> k < b.len()),
        k == b.len() ==> !text::less(a, b),
    decreases k,
{
    if k > 0 {
        let x = a.drop_first();
        let y = b.drop_first();
        assert forall|i: int| 0 <= i < k - 1 implies x[i] == y[i] by {
            assert(a[i + 1] == b[i + 1]);
        }
        assert(a[0] == b[0]);
        the_first_letter_that_differs_decides(x, y, k - 1);
    }
}

/// One more digit makes a number ten times as great, and adds the digit.
pub proof fn digits_have_their_places(s: Seq<char>, d: int)
    requires
        0 <= d < 10,
    ensures
        text::decimal_value(s.push((('0' as u8) + d) as char)) == 10 * text::decimal_value(s) + d,
        text::decimal_value(Seq::<char>::empty()) == 0,
        text::all_digits(s) ==> text::all_digits(s.push((('0' as u8) + d) as char)),
{
    let c = (('0' as u8) + d) as char;
    assert(s.push(c).drop_last() =~= s);
}

/// A text of digits stands for its number, with `-` before them for the number
/// below zero, and with `+` for the same; nothing else stands for a number.
pub proof fn signs_turn_numbers(digits: Seq<char>)
    requires
        digits.len() > 0,
        text::all_digits(digits),
        text::decimal_value(digits) <= i64::MAX,
    ensures
        text::integer_value(digits) == Some(text::decimal_value(digits) as int),
        text::integer_value(seq!['+'] + digits) == Some(text::decimal_value(digits) as int),
        text::integer_value(seq!['-'] + digits) == Some(-(text::decimal_value(digits) as int)),
{
    assert(text::is_digit(digits[0]));
    let plus = seq!['+'] + digits;
    let minus = seq!['-'] + digits;
    assert(plus.drop_first() =~= digits);
    assert(minus.drop_first() =~= digits);
    assert(plus[0] == '+');
    assert(minus[0] == '-');
}

/// A text with anything but digits after its sign stands for no number.
pub proof fn other_texts_are_no_numbers(s: Seq<char>, i: int)
    requires
        0 <= i < s.len(),
        !('0' <= s[i] <= '9'),
        i == 0 ==> s[i] != '+' && s[i] != '-',
    ensures
        text::integer_value(s) is None,
        text::integer_value(Seq::<char>::empty()) is None,
{
    let d = if text::has_sign(s) {
        s.drop_first()
    } else {
        s
    };
    if text::has_sign(s) {
        assert(d[i - 1] == s[i]);
        assert(!text::is_digit(d[i - 1]));
    } else {
        assert(!text::is_digit(d[i]));
    }
    assert(!text::all_digits(d));
}

/// The first word of a text stands behind the white space at its start and
/// ends before the next.
pub proof fn words_are_parted_by_white_space(
    before: Seq<char>,
    word: Seq<char>,
    after: Seq<char>,
)
    requires
        is_blank(before),
        word.len() > 0,
        forall|i: int| 0 <= i < word.len() ==> !text::is_space(#[trigger] word[i]),
        after.len() > 0 ==> text::is_space(after[0]),
    ensures
        text::next_word(before + word + after) == Some((word, after)),
        text::next_word(before) is None,
{
    let rest = word + after;
    assert(before + word + after =~= before + rest);
    blank_start(before, rest);
    assert(rest[0] == word[0]);
    assert(text::trim_start(rest) == rest);
    word_ends(word, after);
    assert(rest.take(word.len() as int) =~= word);
    assert(rest.skip(word.len() as int) =~= after);
    blank_start(before, Seq::empty());
    assert(before + Seq::<char>::empty() =~= before);
}

proof fn word_ends(word: Seq<char>, after: Seq<char>)
    requires
        forall|i: int| 0 <= i < word.len() ==> !text::is_space(#[trigger] word[i]),
        after.len() > 0 ==> text::is_space(after[0]),
    ensures
        text::word_end(word + after) == word.len(),
    decreases word.len(),
{
    let s = word + after;
    if word.len() > 0 {
        assert(s[0] == word[0]);
        assert(s.drop_first() =~= word.drop_first() + after);
        assert forall|i: int| 0 <= i < word.drop_first().len() implies !text::is_space(
            #[trigger] word.drop_first()[i],
        ) by {
            assert(word[i + 1] == word.drop_first()[i]);
        }
        word_ends(word.drop_first(), after);
    } else if after.len() > 0 {
        assert(s[0] == after[0]);
    }
}

/// A line ends at the first line feed, without the carriage return before it,
/// and the next begins behind it; a last line need not end.
pub proof fn lines_end_at_line_feeds(line: Seq<char>, rest: Seq<char>)
    requires
        forall|i: int| 0 <= i < line.len() ==> line[i] != '\n',
    ensures
        text::lines(line + seq!['\n'] + rest) == seq![
            if line.len() > 0 && line.last() == '\r' {
                line.drop_last()
            } else {
                line
            },
        ] + text::lines(rest),
        line.len() > 0 ==> text::lines(line) == seq![line],
        text::lines(Seq::<char>::empty()) == Seq::<Seq<char>>::empty(),
{
    let s = line + seq!['\n'] + rest;
    let n = line.len() as int;
    assert(s[n] == '\n');
    assert forall|j: int| 0 <= j < n implies s[j] != '\n' by {
        assert(s[j] == line[j]);
    }
    text::find_char_unique(s, '\n', n);
    assert(s.take(n) =~= line);
    assert(s.skip(n + 1) =~= rest);
    text::split_pieces(rest, '\n');
    let pieces = text::split(s, '\n');
    let others = text::split(rest, '\n');
    assert(pieces =~= seq![line] + others);
    assert(pieces.last() == others.last());
    assert(pieces.drop_last() =~= seq![line] + others.drop_last());
    assert(text::lines(s) =~= seq![text::without_return(line)] + text::lines(rest));
    text::find_char_bounds(line, '\n');
    assert(text::split(line, '\n') =~= seq![line]);
    let e = Seq::<char>::empty();
    text::find_char_bounds(e, '\n');
    assert(text::split(e, '\n') =~= seq![e]);
    assert(text::lines(e) =~= Seq::<Seq<char>>::empty());
    if line.len() > 0 {
        assert(text::lines(line) =~= seq![line]);
    }
}

proof fn digits_of(n: nat)
    ensures
        text::all_digits(text::decimal(n)),
        text::decimal(n).len() > 0,
        text::decimal(n).len() == 1 || text::decimal(n)[0] != '0',
        n > 0 ==> text::decimal(n)[0] != '0',
    decreases n,
{
    let s = text::decimal(n);
    if n >= 10 {
        digits_of(n / 10);
        let front = text::decimal(n / 10);
        assert(s[0] == front[0]);
        assert forall|i: int| 0 <= i < s.len() implies text::is_digit(#[trigger] s[i]) by {
            if i < front.len() {
                assert(text::is_digit(front[i]));
            }
        }
    }
}

/// A number is written in digits, without leading zeros, which stand for it;
/// one below zero has a `-` before them.
pub proof fn numbers_are_written_in_digits(n: nat, z: int)
    ensures
        text::all_digits(text::decimal(n)),
        text::decimal(n).len() > 0,
        text::decimal(n).len() == 1 || text::decimal(n)[0] != '0',
        text::decimal_value(text::decimal(n)) == n,
        z >= 0 ==> text::signed_decimal(z) == text::decimal(z as nat),
        z < 0 ==> text::signed_decimal(z) == seq!['-'] + text::decimal((-z) as nat),
{
    digits_of(n);
    text::decimal_value_of_decimal(n);
    reveal_strlit("-");
    assert("-"@ =~= seq!['-']);
}

/// A text begins and ends with what stands there, and holds what stands
/// anywhere in it.
pub proof fn parts_of_a_text(a: Seq<char>, b: Seq<char>, c: Seq<char>)
    ensures
        text::starts_with(a + b, a),
        text::ends_with(a + b, b),
        text::starts_with(c, a) ==> exists|rest: Seq<char>| c == #[trigger] (a + rest),
        text::ends_with(c, a) ==> exists|rest: Seq<char>| c == #[trigger] (rest + a),
        text::contains_text(c, b) ==> exists|front: Seq<char>, rest: Seq<char>|
            c == #[trigger] (front + b + rest),
{
    assert((a + b).take(a.len() as int) =~= a);
    assert((a + b).skip((a + b).len() - b.len()) =~= b);
    if text::starts_with(c, a) {
        assert(c =~= a + c.skip(a.len() as int));
    }
    if text::ends_with(c, a) {
        assert(c =~= c.take(c.len() - a.len()) + a);
    }
    if text::contains_text(c, b) {
        held_text(c, b);
    }
}

proof fn held_text(c: Seq<char>, b: Seq<char>)
    requires
        text::contains_text(c, b),
    ensures
        exists|front: Seq<char>, rest: Seq<char>| c == #[trigger] (front + b + rest),
    decreases c.len(),
{
    let none = Seq::<char>::empty();
    if text::starts_with(c, b) {
        assert(c =~= none + b + c.skip(b.len() as int));
    } else if c.len() > 0 {
        held_text(c.drop_first(), b);
        let (front, rest) = choose|front: Seq<char>, rest: Seq<char>|
            c.drop_first() == #[trigger] (front + b + rest);
        assert(c =~= seq![c[0]] + c.drop_first());
        assert(c =~= (seq![c[0]] + front) + b + rest);
    }
}

/// A text is cut at the first place where the letter stands, and not at all
/// where it does not.
pub proof fn texts_are_cut_at_the_first(a: Seq<char>, c: char, b: Seq<char>)
    requires
        !a.contains(c),
    ensures
        text::cut(a + seq![c] + b, c) == Some((a, b)),
        text::cut(a, c) is None,
{
    let s = a + seq![c] + b;
    let n = a.len() as int;
    assert(s[n] == c);
    assert forall|j: int| 0 <= j < n implies s[j] != c by {
        assert(s[j] == a[j]);
        assert(a.contains(a[j]));
    }
    text::find_char_unique(s, c, n);
    assert(s.take(n) =~= a);
    assert(s.skip(n + 1) =~= b);
    text::find_char_bounds(a, c);
}

} // verus!
