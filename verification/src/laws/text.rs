//! What holds of text: case, whitespace, words, lines and numbers.

use vstd::prelude::*;

use crate::text::{
    decimal, digit, digits_value, find, is_space, lines, lower, occurs, pad_right, parse_number,
    same_fold, starts_with, strip_cr, trim, trim_end, trim_end_char, trim_newlines, trim_start,
    word_len, words,
};

verus! {

// ---------------------------------------------------------------------------
// Case
// ---------------------------------------------------------------------------

/// Whether two characters are the same, or the same ASCII letter in two cases.
pub open spec fn same_letter(a: char, b: char) -> bool {
    ||| a == b
    ||| 0x41 <= a as int <= 0x5a && b as int == a as int + 0x20
    ||| 0x41 <= b as int <= 0x5a && a as int == b as int + 0x20
}

/// Texts are the same up to case exactly if they are as long and have the same
/// letters, and lower case is the same up to case and has no capital letter.
pub proof fn folding_ignores_letter_case_only(a: Seq<char>, b: Seq<char>)
    ensures
        same_fold(a, b) <==> a.len() == b.len() && forall|i: int|
            0 <= i < a.len() ==> #[trigger] same_letter(a[i], b[i]),
        lower(a).len() == a.len(),
        forall|i: int|
            0 <= i < a.len() ==> same_letter(#[trigger] lower(a)[i], a[i]) && !(0x41
                <= lower(a)[i] as int <= 0x5a),
{
    assert forall|x: char, y: char| (crate::text::lower_char(x) == crate::text::lower_char(y))
        == #[trigger] same_letter(x, y) by {}
    if same_fold(a, b) {
        assert(lower(a).len() == lower(b).len());
        assert forall|i: int| 0 <= i < a.len() implies #[trigger] same_letter(a[i], b[i]) by {
            assert(lower(a)[i] == lower(b)[i]);
        }
    }
    if a.len() == b.len() && (forall|i: int|
        0 <= i < a.len() ==> #[trigger] same_letter(a[i], b[i])) {
        assert forall|i: int| 0 <= i < a.len() implies lower(a)[i] == lower(b)[i] by {
            assert(same_letter(a[i], b[i]));
        }
        assert(lower(a) =~= lower(b));
    }
}

// ---------------------------------------------------------------------------
// Whitespace
// ---------------------------------------------------------------------------

/// Whether all of a text is whitespace.
pub open spec fn all_space(s: Seq<char>) -> bool {
    forall|i: int| 0 <= i < s.len() ==> is_space(#[trigger] s[i])
}

/// Among the ASCII characters, whitespace is the space and the characters from
/// the tab to the carriage return; no other character of Latin-1 is, but the
/// next line and the no-break space.
pub proof fn whitespace_is_standard(c: char)
    ensures
        (c as int) < 0x100 ==> (is_space(c) <==> 9 <= c as int <= 13 || c as int == 0x20 || c as int
            == 0x85 || c as int == 0xa0),
        0x100 <= c as int ==> (is_space(c) <==> c as int == 0x1680 || 0x2000 <= c as int <= 0x200a
            || c as int == 0x2028 || c as int == 0x2029 || c as int == 0x202f || c as int == 0x205f
            || c as int == 0x3000),
{
}

proof fn lemma_trim_end(s: Seq<char>)
    ensures
        trim_end(s).len() <= s.len(),
        trim_end(s) == s.take(trim_end(s).len() as int),
        all_space(s.skip(trim_end(s).len() as int)),
        trim_end(s).len() > 0 ==> !is_space(trim_end(s).last()),
    decreases s.len(),
{
    let n = trim_end(s).len() as int;
    if s.len() > 0 && is_space(s.last()) {
        lemma_trim_end(s.drop_last());
        assert(s.drop_last().take(n) =~= s.take(n));
        assert forall|i: int| 0 <= i < s.skip(n).len() implies is_space(#[trigger] s.skip(n)[i]) by {
            if i < s.len() - 1 - n {
                assert(s.drop_last().skip(n)[i] == s.skip(n)[i]);
            } else {
                assert(s.skip(n)[i] == s.last());
            }
        }
    } else {
        assert(s.take(n) =~= s);
    }
}

proof fn lemma_trim_start(s: Seq<char>)
    ensures
        trim_start(s).len() <= s.len(),
        trim_start(s) == s.skip(s.len() - trim_start(s).len()),
        all_space(s.take(s.len() - trim_start(s).len())),
        trim_start(s).len() > 0 ==> !is_space(trim_start(s)[0]),
    decreases s.len(),
{
    if s.len() > 0 && is_space(s[0]) {
        let r = s.skip(1);
        lemma_trim_start(r);
        let n = s.len() - trim_start(s).len();
        assert(r.skip(n - 1) =~= s.skip(n));
        assert forall|i: int| 0 <= i < n implies is_space(#[trigger] s.take(n)[i]) by {
            if i > 0 {
                assert(r.take(n - 1)[i - 1] == s.take(n)[i]);
            }
        }
    } else {
        assert(s.skip(0) =~= s);
    }
}

/// Text without whitespace at its ends, between whitespace, is what trimming
/// leaves of the whole.
pub proof fn trimming_removes_outer_whitespace(a: Seq<char>, s: Seq<char>, b: Seq<char>)
    requires
        all_space(a),
        all_space(b),
        s.len() > 0 ==> !is_space(s[0]) && !is_space(s.last()),
    ensures
        trim(a + s + b) == s,
{
    let whole = a + s + b;
    let t = trim_start(whole);
    lemma_trim_start(whole);
    lemma_trim_end(t);
    let k = whole.len() - t.len();
    let n = trim(whole).len() as int;
    if s.len() == 0 {
        if n > 0 {
            assert(!is_space(t[0]));
            assert(t[0] == whole[k]);
            if k < a.len() {
                assert(is_space(a[k]));
            } else {
                assert(whole[k] == b[k - a.len()]);
            }
        }
        assert(t.len() == 0) by {
            if t.len() > 0 {
                assert(t[0] == whole[k]);
                if k < a.len() {
                    assert(is_space(a[k]));
                } else {
                    assert(whole[k] == b[k - a.len()]);
                }
            }
        }
        assert(trim(whole) =~= s);
    } else {
        assert(k == a.len()) by {
            if k < a.len() {
                assert(t.len() > 0);
                assert(t[0] == whole[k]);
                assert(is_space(a[k]));
            } else if k > a.len() {
                assert(whole.take(k)[a.len() as int] == s[0]);
            }
        }
        assert(t =~= s + b);
        assert(n == s.len()) by {
            if n < s.len() {
                let rest = t.skip(n);
                assert(rest[s.len() - 1 - n] == s.last());
                assert(is_space(rest[s.len() - 1 - n]));
            } else if n > s.len() {
                assert(trim_end(t).last() == t[n - 1]);
                assert(t[n - 1] == b[n - 1 - s.len()]);
            }
        }
        assert(trim(whole) =~= s);
    }
}

/// Whether a text is made of carriage returns and line feeds only.
pub open spec fn all_line_ends(s: Seq<char>) -> bool {
    forall|i: int| 0 <= i < s.len() ==> (#[trigger] s[i]) == '\r' || s[i] == '\n'
}

/// A line loses its line end, however it is written, and nothing else.
pub proof fn line_ends_are_removed(s: Seq<char>, end: Seq<char>)
    requires
        all_line_ends(end),
        s.len() > 0 ==> s.last() != '\r' && s.last() != '\n',
    ensures
        trim_newlines(s + end) == s,
    decreases end.len(),
{
    let whole = s + end;
    if end.len() == 0 {
        assert(whole =~= s);
    } else {
        assert(whole.last() == end.last());
        assert(end.last() == '\r' || end.last() == '\n');
        assert(whole.drop_last() =~= s + end.drop_last());
        assert forall|i: int| 0 <= i < end.drop_last().len() implies (#[trigger] end.drop_last()[i])
            == '\r' || end.drop_last()[i] == '\n' by {
            assert(end[i] == end.drop_last()[i]);
        }
        line_ends_are_removed(s, end.drop_last());
    }
}

/// Any number of a character at the end of a text is removed.
pub proof fn trailing_characters_are_removed(s: Seq<char>, c: char, n: nat)
    requires
        s.len() > 0 ==> s.last() != c,
    ensures
        trim_end_char(s + Seq::new(n, |i: int| c), c) == s,
    decreases n,
{
    let whole = s + Seq::new(n, |i: int| c);
    if n == 0 {
        assert(whole =~= s);
    } else {
        assert(whole.drop_last() =~= s + Seq::new((n - 1) as nat, |i: int| c));
        trailing_characters_are_removed(s, c, (n - 1) as nat);
    }
}

// ---------------------------------------------------------------------------
// Searching
// ---------------------------------------------------------------------------

/// A text occurs in another exactly if it stands there between two others.
pub proof fn occurring_is_standing_between(p: Seq<char>, s: Seq<char>)
    ensures
        occurs(p, s) <==> exists|a: Seq<char>, b: Seq<char>| #[trigger] (a + p + b) == s,
        starts_with(s, p) <==> exists|b: Seq<char>| #[trigger] (p + b) == s,
{
    if occurs(p, s) {
        let i = choose|i: int|
            0 <= i && i + p.len() <= s.len() && #[trigger] starts_with(s.skip(i), p);
        assert(s.skip(i).take(p.len() as int) == p);
        assert(s.take(i) + p + s.skip(i + p.len()) =~= s) by {
            assert forall|k: int| 0 <= k < p.len() implies s[i + k] == p[k] by {
                assert(s.skip(i).take(p.len() as int)[k] == p[k]);
            }
        }
    }
    if exists|a: Seq<char>, b: Seq<char>| #[trigger] (a + p + b) == s {
        let (a, b) = choose|a: Seq<char>, b: Seq<char>| #[trigger] (a + p + b) == s;
        let i = a.len() as int;
        assert(s.skip(i).take(p.len() as int) =~= p);
        assert(starts_with(s.skip(i), p));
    }
    if starts_with(s, p) {
        assert(p + s.skip(p.len() as int) =~= s) by {
            assert forall|k: int| 0 <= k < p.len() implies s[k] == p[k] by {
                assert(s.take(p.len() as int)[k] == p[k]);
            }
        }
    }
    if exists|b: Seq<char>| #[trigger] (p + b) == s {
        let b = choose|b: Seq<char>| #[trigger] (p + b) == s;
        assert(s.take(p.len() as int) =~= p);
    }
}

// ---------------------------------------------------------------------------
// Words
// ---------------------------------------------------------------------------

/// Whether a text is one word: not empty and without whitespace.
pub open spec fn is_word(w: Seq<char>) -> bool {
    w.len() > 0 && forall|i: int| 0 <= i < w.len() ==> !is_space(#[trigger] w[i])
}

proof fn lemma_trim_start_is(a: Seq<char>, s: Seq<char>)
    requires
        all_space(a),
        s.len() > 0 ==> !is_space(s[0]),
    ensures
        trim_start(a + s) == s,
{
    let whole = a + s;
    let t = trim_start(whole);
    lemma_trim_start(whole);
    let k = whole.len() - t.len();
    assert(k == a.len()) by {
        if k < a.len() {
            assert(t[0] == whole[k]);
            assert(is_space(a[k]));
        } else if k > a.len() {
            assert(whole.take(k)[a.len() as int] == s[0]);
        }
    }
    assert(t =~= s);
}

/// A text of whitespace has no words. A word that whitespace, the start or the
/// end delimits is the first one, and the words of what follows come after it.
pub proof fn words_stand_between_whitespace(
    before: Seq<char>,
    word: Seq<char>,
    space: Seq<char>,
    rest: Seq<char>,
)
    requires
        all_space(before),
        is_word(word),
        all_space(space),
        space.len() > 0,
    ensures
        words(before) == Seq::<Seq<char>>::empty(),
        words(before + word) == seq![word],
        words(before + word + space + rest) == seq![word] + words(rest),
{
    assert(before + Seq::<char>::empty() =~= before);
    lemma_trim_start_is(before, Seq::empty());
    assert(words(before) =~= Seq::<Seq<char>>::empty());
    // One word and nothing more.
    lemma_trim_start_is(before, word);
    crate::text::lemma_word_len(word);
    assert(word_len(word) == word.len()) by {
        if word_len(word) < word.len() {
            assert(is_space(word[word_len(word)]));
        }
    }
    let none = word.skip(word.len() as int);
    assert(none =~= Seq::<char>::empty());
    assert(trim_start(none).len() == 0);
    assert(words(none) =~= Seq::<Seq<char>>::empty());
    assert(word.take(word.len() as int) =~= word);
    assert(words(before + word) =~= seq![word]);
    // A word and what follows it.
    let tail = word + space + rest;
    assert(before + word + space + rest =~= before + tail);
    assert(tail[0] == word[0]);
    lemma_trim_start_is(before, tail);
    crate::text::lemma_word_len(tail);
    let n = word.len() as int;
    assert(word_len(tail) == n) by {
        if word_len(tail) < n {
            assert(tail[word_len(tail)] == word[word_len(tail)]);
        } else if word_len(tail) > n {
            assert(tail[n] == space[0]);
        }
    }
    assert(tail.take(n) =~= word);
    assert(tail.skip(n) =~= space + rest);
    assert(words(space + rest) == words(rest)) by {
        lemma_words_skip(space, rest);
    }
}

proof fn lemma_words_skip(space: Seq<char>, rest: Seq<char>)
    requires
        all_space(space),
    ensures
        words(space + rest) == words(rest),
    decreases space.len(),
{
    if space.len() == 0 {
        assert(space + rest =~= rest);
    } else {
        let r = space.skip(1);
        assert((space + rest).skip(1) =~= r + rest);
        assert((space + rest)[0] == space[0]);
        assert forall|i: int| 0 <= i < r.len() implies is_space(#[trigger] r[i]) by {
            assert(r[i] == space[i + 1]);
        }
        lemma_words_skip(r, rest);
        assert(trim_start(space + rest) == trim_start(r + rest));
    }
}

// ---------------------------------------------------------------------------
// Lines
// ---------------------------------------------------------------------------

/// A line ends at a line feed, which it loses together with one carriage return
/// before it, and the lines of what follows come after it. Text without a line
/// feed is one line, and no text is none.
pub proof fn lines_end_at_line_feeds(line: Seq<char>, rest: Seq<char>)
    requires
        !line.contains('\n'),
    ensures
        lines(Seq::<char>::empty()) == Seq::<Seq<char>>::empty(),
        line.len() > 0 ==> lines(line) == seq![line],
        lines(line + seq!['\r', '\n'] + rest) == seq![line] + lines(rest),
        line.len() == 0 || line.last() != '\r' ==> lines(line + seq!['\n'] + rest) == seq![line]
            + lines(rest),
{
    crate::text::lemma_find(line, '\n');
    let n = line.len() as int;
    let a = line + seq!['\r', '\n'] + rest;
    assert(a[n + 1] == '\n');
    assert forall|j: int| 0 <= j < n + 1 implies a[j] != '\n' by {
        if j < n {
            assert(a[j] == line[j]);
            assert(line.contains(line[j]));
        }
    }
    crate::text::lemma_find_is(a, '\n', n + 1);
    assert(a.take(n + 1).last() == '\r');
    assert(strip_cr(a.take(n + 1)) =~= line);
    assert(a.skip(n + 2) =~= rest);
    let b = line + seq!['\n'] + rest;
    assert(b[n] == '\n');
    assert forall|j: int| 0 <= j < n implies b[j] != '\n' by {
        assert(b[j] == line[j]);
        assert(line.contains(line[j]));
    }
    crate::text::lemma_find_is(b, '\n', n);
    assert(b.take(n) =~= line);
    assert(b.skip(n + 1) =~= rest);
}

// ---------------------------------------------------------------------------
// Numbers
// ---------------------------------------------------------------------------

/// The character of the digit `d`, in lower or upper case.
pub open spec fn numeral_char(d: nat, upper: bool) -> char {
    if d < 10 {
        (0x30 + d) as char
    } else if upper {
        (0x41 + (d - 10)) as char
    } else {
        (0x61 + (d - 10)) as char
    }
}

/// `n` written with `radix` digits, in lower or upper case, without leading
/// zeros.
pub open spec fn numeral(n: nat, radix: nat, upper: bool) -> Seq<char>
    decreases n,
{
    if n < radix || radix < 2 {
        seq![numeral_char(n, upper)]
    } else {
        proof {
            assert(n / radix < n) by (nonlinear_arith)
                requires
                    n >= radix,
                    radix >= 2,
            ;
        }
        numeral(n / radix, radix, upper).push(numeral_char(n % radix, upper))
    }
}

pub(crate) proof fn lemma_numeral_char(d: nat, radix: nat, upper: bool)
    requires
        d < radix <= 36,
    ensures
        digit(numeral_char(d, upper), radix) == Some(d),
        numeral_char(d, upper) != '+',
        numeral_char(d, upper) != ';',
        numeral_char(d, upper) != '\r',
        numeral_char(d, upper) != '\n',
        !is_space(numeral_char(d, upper)),
{
}

pub(crate) proof fn lemma_numeral(n: nat, radix: nat, upper: bool)
    requires
        2 <= radix <= 36,
    ensures
        numeral(n, radix, upper).len() > 0,
        digits_value(numeral(n, radix, upper), radix) == Some(n),
        forall|i: int|
            0 <= i < numeral(n, radix, upper).len() ==> {
                let c = #[trigger] numeral(n, radix, upper)[i];
                c != '+' && c != ';' && c != '\r' && c != '\n' && !is_space(c)
            },
    decreases n,
{
    let s = numeral(n, radix, upper);
    if n < radix {
        lemma_numeral_char(n, radix, upper);
        assert(s.drop_last() =~= Seq::<char>::empty());
        assert(0 * radix == 0) by (nonlinear_arith);
        assert(s.last() == numeral_char(n, upper));
        assert(digits_value(s.drop_last(), radix) == Some(0nat));
    } else {
        assert(n / radix < n && n % radix < radix && (n / radix) * radix + n % radix == n)
            by (nonlinear_arith)
            requires
                n >= radix,
                radix >= 2,
        ;
        lemma_numeral(n / radix, radix, upper);
        lemma_numeral_char(n % radix, radix, upper);
        assert(s.drop_last() =~= numeral(n / radix, radix, upper));
    }
}

/// A number that is written with digits of any base up to thirty-six, in either
/// case, with or without a plus sign, reads back if it is not above the limit;
/// above the limit it is none.
pub proof fn numbers_read_back(n: nat, radix: nat, upper: bool, max: nat)
    requires
        2 <= radix <= 36,
    ensures
        parse_number(numeral(n, radix, upper), radix, max) == if n <= max {
            Some(n)
        } else {
            None
        },
        parse_number(seq!['+'] + numeral(n, radix, upper), radix, max) == if n <= max {
            Some(n)
        } else {
            None
        },
{
    let s = numeral(n, radix, upper);
    lemma_numeral(n, radix, upper);
    assert(s[0] != '+');
    let t = seq!['+'] + s;
    assert(t[0] == '+');
    assert(t.skip(1) =~= s);
}

/// The value of the digit that a character is, by its code: thirty-six if it is
/// none.
pub open spec fn digit_value(c: char) -> nat {
    let code = c as int;
    if 0x30 <= code <= 0x39 {
        (code - 0x30) as nat
    } else if 0x41 <= code <= 0x5a {
        (code - 0x41 + 10) as nat
    } else if 0x61 <= code <= 0x7a {
        (code - 0x61 + 10) as nat
    } else {
        36
    }
}

/// A further digit makes a number the base times as large, plus the digit; a
/// further character that is no digit makes it no number, and so does a digit
/// that lifts it above the limit. No digits are no number.
pub proof fn digits_count_by_place(s: Seq<char>, c: char, radix: nat, max: nat)
    requires
        2 <= radix <= 36,
        s.len() > 0,
        s != seq!['+'],
    ensures
        parse_number(s.push(c), radix, max) == match parse_number(s, radix, max) {
            Some(v) => if digit_value(c) < radix && v * radix + digit_value(c) <= max {
                Some((v * radix + digit_value(c)) as nat)
            } else {
                None
            },
            None => None,
        },
        parse_number(seq![c], radix, max) == if digit_value(c) < radix && digit_value(c) <= max {
            Some(digit_value(c))
        } else {
            None
        },
        parse_number(Seq::<char>::empty(), radix, max) is None,
        parse_number(seq!['+'], radix, max) is None,
{
    let t = s.push(c);
    assert(t[0] == s[0]);
    assert(digit(c, radix) == if digit_value(c) < radix {
        Some(digit_value(c))
    } else {
        None
    });
    let body = if s[0] == '+' {
        s.skip(1)
    } else {
        s
    };
    let longer = if s[0] == '+' {
        t.skip(1)
    } else {
        t
    };
    assert(longer =~= body.push(c));
    assert(longer.drop_last() =~= body);
    if body.len() == 0 {
        assert(s =~= seq!['+']);
    }
    match digits_value(body, radix) {
        Some(v) => {
            assert(v <= v * radix) by (nonlinear_arith)
                requires
                    radix >= 1,
            ;
        },
        None => {},
    }
    let one = seq![c];
    assert(one.drop_last() =~= Seq::<char>::empty());
    assert(0 * radix == 0) by (nonlinear_arith);
    assert(digits_value(one.drop_last(), radix) == Some(0nat));
    assert(one.last() == c);
    let plus = seq!['+'];
    assert(plus.skip(1) =~= Seq::<char>::empty());
    if c == '+' {
        assert(one =~= plus);
    }
}

/// Decimal text is the digits of the number, the last of which is what is left
/// over tens.
pub proof fn decimal_counts_by_tens(n: nat)
    ensures
        decimal(n) == numeral(n, 10, false),
        n < 10 ==> decimal(n).len() == 1 && decimal(n)[0] as int == 0x30 + n,
        n >= 10 ==> decimal(n).drop_last() == decimal(n / 10) && decimal(n).last() as int == 0x30
            + n % 10,
    decreases n,
{
    if n >= 10 {
        decimal_counts_by_tens(n / 10);
        assert(decimal(n).drop_last() =~= decimal(n / 10));
    }
    assert(decimal(n) =~= numeral(n, 10, false));
}

// ---------------------------------------------------------------------------
// Padding
// ---------------------------------------------------------------------------

/// Padded text is the text and then spaces, and as wide as asked for; text that
/// is as wide already is left as it is.
pub proof fn padding_fills_with_spaces(s: Seq<char>, width: int)
    ensures
        pad_right(s, width).len() == if s.len() < width {
            width as nat
        } else {
            s.len()
        },
        pad_right(s, width).take(s.len() as int) == s,
        forall|i: int|
            s.len() <= i < pad_right(s, width).len() ==> (#[trigger] pad_right(s, width)[i]) == ' ',
{
    assert(pad_right(s, width).take(s.len() as int) =~= s);
}

/// A character is found at the end of what stands before it.
pub proof fn searching_finds_the_first(a: Seq<char>, c: char, b: Seq<char>)
    requires
        !a.contains(c),
    ensures
        find(a + seq![c] + b, c) == Some(a.len() as int),
        find(a, c) is None,
        crate::text::rfind(b + seq![c] + a, c) == Some(b.len() as int),
        crate::text::rfind(a, c) is None,
{
    let s = a + seq![c] + b;
    assert forall|j: int| 0 <= j < a.len() implies s[j] != c by {
        assert(a.contains(a[j]));
    }
    crate::text::lemma_find_is(s, c, a.len() as int);
    crate::text::lemma_find(a, c);
    let t = b + seq![c] + a;
    assert forall|j: int| b.len() < j < t.len() implies t[j] != c by {
        assert(t[j] == a[j - b.len() - 1]);
        assert(a.contains(a[j - b.len() - 1]));
    }
    crate::text::lemma_rfind_is(t, c, b.len() as int);
    crate::text::lemma_rfind(a, c);
}

} // verus!
