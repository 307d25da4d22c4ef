//! Text: white space, lines, splitting, and numbers in decimal and hexadecimal notation.
use vstd::prelude::*;

use vstd::arithmetic::div_mod::lemma_div_denominator;
use vstd::arithmetic::power::{lemma_pow0, lemma_pow1, lemma_pow_adds, lemma_pow_positive, pow};

verus! {

/// `String::push` of std appends one character.
pub assume_specification[ String::push ](s: &mut String, c: char)
    ensures
        final(s)@ == old(s)@.push(c),
;

/// Whether a character has the Unicode property White_Space.
pub open spec fn is_space(c: char) -> bool {
    ||| '\u{9}' <= c <= '\u{d}'
    ||| c == ' '
    ||| c == '\u{85}'
    ||| c == '\u{a0}'
    ||| c == '\u{1680}'
    ||| '\u{2000}' <= c <= '\u{200a}'
    ||| c == '\u{2028}'
    ||| c == '\u{2029}'
    ||| c == '\u{202f}'
    ||| c == '\u{205f}'
    ||| c == '\u{3000}'
}

/// Whether a character has the Unicode property White_Space.
pub fn is_white_space(c: char) -> (r: bool)
    ensures
        r == is_space(c),
{
    ('\u{9}' <= c && c <= '\u{d}') || c == ' ' || c == '\u{85}' || c == '\u{a0}' || c == '\u{1680}'
        || ('\u{2000}' <= c && c <= '\u{200a}') || c == '\u{2028}' || c == '\u{2029}' || c
        == '\u{202f}' || c == '\u{205f}' || c == '\u{3000}'
}

/// The characters of a string.
pub fn characters(s: &str) -> (r: Vec<char>)
    ensures
        r@ == s@,
{
    let mut out: Vec<char> = Vec::new();
    for c in it: s.chars()
        invariant
            out@ == it.seq().take(it.index() as int),
            it.seq() == s@,
    {
        out.push(c);
    }
    out
}

/// The string of some characters.
pub fn string_of(characters: &[char]) -> (r: String)
    ensures
        r@ == characters@,
{
    let mut out: String = String::new();
    let mut i: usize = 0;
    while i < characters.len()
        invariant
            i <= characters@.len(),
            out@ == characters@.take(i as int),
        decreases characters@.len() - i,
    {
        out.push(characters[i]);
        i = i + 1;
        assert(characters@.take(i as int) =~= characters@.take(i - 1).push(characters@[i - 1]));
    }
    assert(characters@.take(i as int) =~= characters@);
    out
}

/// Whether the characters are those of `text`.
pub fn spells(characters: &[char], text: &str) -> (r: bool)
    ensures
        r == (characters@ == text@),
{
    let expected: Vec<char> = self::characters(text);
    if characters.len() != expected.len() {
        return false;
    }
    let mut i: usize = 0;
    while i < characters.len()
        invariant
            i <= characters@.len(),
            characters@.len() == expected@.len(),
            expected@ == text@,
            forall|j: int| 0 <= j < i ==> characters@[j] == expected@[j],
        decreases characters@.len() - i,
    {
        if characters[i] != expected[i] {
            return false;
        }
        i = i + 1;
    }
    assert(characters@ =~= expected@);
    true
}

/// The text without the white space in front.
pub open spec fn trim_start(s: Seq<char>) -> Seq<char>
    decreases s.len(),
{
    if s.len() > 0 && is_space(s[0]) {
        trim_start(s.drop_first())
    } else {
        s
    }
}

/// The text without the white space at its end.
pub open spec fn trim_end(s: Seq<char>) -> Seq<char>
    decreases s.len(),
{
    if s.len() > 0 && is_space(s.last()) {
        trim_end(s.drop_last())
    } else {
        s
    }
}

/// The text without the white space around it.
pub open spec fn trimmed(s: Seq<char>) -> Seq<char> {
    trim_end(trim_start(s))
}

/// Whether a text consists of white space only.
pub open spec fn all_space(s: Seq<char>) -> bool {
    forall|i: int| 0 <= i < s.len() ==> is_space(#[trigger] s[i])
}

/// Law: trimming takes white space away, nothing else, and leaves none at either end.
pub proof fn trimming_takes_the_white_space_around(s: Seq<char>)
    ensures
        ({
            let t = trimmed(s);
            &&& t.len() > 0 ==> !is_space(t[0]) && !is_space(t.last())
            &&& exists|front: Seq<char>, back: Seq<char>|
                all_space(front) && all_space(back) && s == #[trigger] (front + t + back)
        }),
{
    let front = lemma_trim_start_parts(s);
    let middle = trim_start(s);
    let back = lemma_trim_end_parts(middle);
    let t = trimmed(s);
    assert(s =~= front + t + back);
    if t.len() > 0 {
        assert(t[0] == middle[0]);
    }
}

/// Law: white space around a text that has none at its own ends is trimmed, however much it is.
pub proof fn surrounding_white_space_does_not_matter(
    front: Seq<char>,
    t: Seq<char>,
    back: Seq<char>,
)
    requires
        all_space(front),
        all_space(back),
        t.len() > 0 ==> !is_space(t[0]) && !is_space(t.last()),
    ensures
        trimmed(front + t + back) == t,
{
    lemma_trim_start_of(front, t + back);
    assert(front + t + back =~= front + (t + back));
    if t.len() == 0 {
        assert(t + back =~= back);
        lemma_trim_start_of(back, Seq::empty());
        assert(back + Seq::<char>::empty() =~= back);
        assert(t =~= Seq::empty());
    } else {
        assert((t + back)[0] == t[0]);
        lemma_trim_end_of(t, back);
    }
}

proof fn lemma_trim_start_parts(s: Seq<char>) -> (front: Seq<char>)
    ensures
        all_space(front),
        s == front + trim_start(s),
        trim_start(s).len() > 0 ==> !is_space(trim_start(s)[0]),
    decreases s.len(),
{
    if s.len() > 0 && is_space(s[0]) {
        let rest = lemma_trim_start_parts(s.drop_first());
        let front = seq![s[0]] + rest;
        assert(s =~= seq![s[0]] + s.drop_first());
        assert(s =~= front + trim_start(s.drop_first()));
        front
    } else {
        assert(s =~= Seq::<char>::empty() + s);
        Seq::empty()
    }
}

proof fn lemma_trim_end_parts(s: Seq<char>) -> (back: Seq<char>)
    ensures
        all_space(back),
        s == trim_end(s) + back,
        trim_end(s).len() > 0 ==> !is_space(trim_end(s).last()),
    decreases s.len(),
{
    if s.len() > 0 && is_space(s.last()) {
        let rest = lemma_trim_end_parts(s.drop_last());
        let back = rest.push(s.last());
        assert(s =~= s.drop_last().push(s.last()));
        assert(s =~= trim_end(s.drop_last()) + back);
        back
    } else {
        assert(s =~= s + Seq::<char>::empty());
        Seq::empty()
    }
}

/// White space in front of a text is skipped.
pub proof fn lemma_trim_start_of(front: Seq<char>, s: Seq<char>)
    requires
        all_space(front),
    ensures
        trim_start(front + s) == trim_start(s),
    decreases front.len(),
{
    if front.len() == 0 {
        assert(front + s =~= s);
    } else {
        assert((front + s)[0] == front[0]);
        assert((front + s).drop_first() =~= front.drop_first() + s);
        lemma_trim_start_of(front.drop_first(), s);
    }
}

/// White space behind a text is skipped.
pub proof fn lemma_trim_end_of(s: Seq<char>, back: Seq<char>)
    requires
        all_space(back),
    ensures
        trim_end(s + back) == trim_end(s),
    decreases back.len(),
{
    if back.len() == 0 {
        assert(s + back =~= s);
    } else {
        assert((s + back).last() == back.last());
        assert((s + back).drop_last() =~= s + back.drop_last());
        lemma_trim_end_of(s, back.drop_last());
    }
}

/// The characters without the white space around them.
pub fn trim<'a>(characters: &'a [char]) -> (r: &'a [char])
    ensures
        r@ == trimmed(characters@),
{
    let mut start: usize = 0;
    assert(characters@.skip(0) =~= characters@);
    while start < characters.len() && is_white_space(characters[start])
        invariant
            start <= characters@.len(),
            trim_start(characters@) == trim_start(characters@.skip(start as int)),
        decreases characters@.len() - start,
    {
        assert(characters@.skip(start as int).drop_first() =~= characters@.skip(start + 1));
        start = start + 1;
    }
    let ghost front = characters@.skip(start as int);
    assert(trim_start(characters@) == front);
    let mut end: usize = characters.len();
    assert(characters@.subrange(start as int, end as int) =~= front);
    while start < end && is_white_space(characters[end - 1])
        invariant
            start <= end <= characters@.len(),
            trim_end(front) == trim_end(characters@.subrange(start as int, end as int)),
        decreases end - start,
    {
        assert(characters@.subrange(start as int, end as int).drop_last() =~= characters@.subrange(
            start as int,
            end - 1,
        ));
        end = end - 1;
    }
    &characters[start..end]
}

/// The text in front of the first `separator` and the text behind it, if there is one.
pub open spec fn split_once(s: Seq<char>, separator: char) -> Option<(Seq<char>, Seq<char>)>
    decreases s.len(),
{
    if s.len() == 0 {
        None
    } else if s[0] == separator {
        Some((Seq::empty(), s.drop_first()))
    } else {
        match split_once(s.drop_first(), separator) {
            Some((before, behind)) => Some((seq![s[0]] + before, behind)),
            None => None,
        }
    }
}

/// The first `separator` stands between the two parts of a split.
pub proof fn lemma_split_once(s: Seq<char>, separator: char)
    ensures
        split_once(s, separator) is None <==> !s.contains(separator),
        split_once(s, separator) matches Some((before, behind)) ==> {
            &&& s == before.push(separator) + behind
            &&& !before.contains(separator)
            &&& before.len() + 1 + behind.len() == s.len()
        },
    decreases s.len(),
{
    if s.len() > 0 {
        let rest = s.drop_first();
        lemma_split_once(rest, separator);
        assert(s =~= seq![s[0]] + rest);
        if s[0] == separator {
            assert(s =~= Seq::empty().push(separator) + rest);
        } else {
            assert(s.contains(separator) ==> rest.contains(separator)) by {
                if s.contains(separator) {
                    let i = choose|i: int| 0 <= i < s.len() && s[i] == separator;
                    assert(rest[i - 1] == separator);
                }
            }
            assert(rest.contains(separator) ==> s.contains(separator)) by {
                if rest.contains(separator) {
                    let i = choose|i: int| 0 <= i < rest.len() && rest[i] == separator;
                    assert(s[i + 1] == separator);
                }
            }
            match split_once(rest, separator) {
                Some((before, behind)) => {
                    assert(s =~= (seq![s[0]] + before).push(separator) + behind);
                    assert(!(seq![s[0]] + before).contains(separator)) by {
                        if (seq![s[0]] + before).contains(separator) {
                            let i = choose|i: int|
                                0 <= i < 1 + before.len() && (seq![s[0]] + before)[i] == separator;
                            assert(before[i - 1] == separator);
                        }
                    }
                },
                None => {},
            }
        }
    }
}

/// A text splits in one way only.
pub proof fn lemma_split_once_unique(
    s: Seq<char>,
    separator: char,
    before: Seq<char>,
    behind: Seq<char>,
)
    requires
        s == before.push(separator) + behind,
        !before.contains(separator),
    ensures
        split_once(s, separator) == Some((before, behind)),
    decreases s.len(),
{
    if before.len() == 0 {
        assert(s[0] == separator);
        assert(s.drop_first() =~= behind);
        assert(before =~= Seq::empty());
    } else {
        let shorter = before.drop_first();
        assert(s[0] == before[0]);
        assert(before.contains(before[0]));
        assert(s.drop_first() =~= shorter.push(separator) + behind);
        assert(!shorter.contains(separator)) by {
            if shorter.contains(separator) {
                let i = choose|i: int| 0 <= i < shorter.len() && shorter[i] == separator;
                assert(before[i + 1] == separator);
            }
        }
        lemma_split_once_unique(s.drop_first(), separator, shorter, behind);
        assert(before =~= seq![s[0]] + shorter);
    }
}

/// Splits at the first `separator`.
pub fn split_at_first<'a>(characters: &'a [char], separator: char) -> (r: Option<
    (&'a [char], &'a [char]),
>)
    ensures
        match r {
            Some((before, behind)) => split_once(characters@, separator) == Some(
                (before@, behind@),
            ),
            None => split_once(characters@, separator) is None,
        },
{
    let mut i: usize = 0;
    while i < characters.len()
        invariant
            i <= characters.len(),
            forall|j: int| 0 <= j < i ==> characters@[j] != separator,
        decreases characters.len() - i,
    {
        if characters[i] == separator {
            let before: &'a [char] = &characters[0..i];
            let behind: &'a [char] = &characters[i + 1..characters.len()];
            proof {
                assert(characters@ =~= before@.push(separator) + behind@);
                lemma_split_once_unique(characters@, separator, before@, behind@);
            }
            return Some((before, behind));
        }
        i = i + 1;
    }
    proof {
        lemma_split_once(characters@, separator);
    }
    None
}

/// A line without the carriage return of its line ending.
pub open spec fn without_return(line: Seq<char>) -> Seq<char> {
    if line.len() > 0 && line.last() == '\r' {
        line.drop_last()
    } else {
        line
    }
}

/// The lines of a text: each ends with a line feed, with or without a carriage return in front,
/// and the last one may go without.
pub open spec fn lines(s: Seq<char>) -> Seq<Seq<char>>
    decreases s.len(),
{
    match split_once(s, '\n') {
        Some((line, rest)) => {
            proof {
                lemma_split_once(s, '\n');
            }
            seq![without_return(line)] + lines(rest)
        },
        None => if s.len() == 0 {
            Seq::empty()
        } else {
            seq![s]
        },
    }
}

/// Law: a line ends at the first line feed, and a carriage return right in front of it belongs to
/// the ending.
pub proof fn lines_end_at_line_feeds(line: Seq<char>, rest: Seq<char>)
    requires
        !line.contains('\n'),
    ensures
        lines(line + seq!['\r', '\n'] + rest) == seq![line] + lines(rest),
        line.len() == 0 || line.last() != '\r' ==> lines(line.push('\n') + rest) == seq![line]
            + lines(rest),
{
    let with_return = line.push('\r');
    assert(!with_return.contains('\n')) by {
        if with_return.contains('\n') {
            let i = choose|i: int| 0 <= i < with_return.len() && with_return[i] == '\n';
            assert(line[i] == '\n');
        }
    }
    let text = line + seq!['\r', '\n'] + rest;
    assert(text =~= with_return.push('\n') + rest);
    lemma_split_once_unique(text, '\n', with_return, rest);
    assert(with_return.drop_last() =~= line);
    lemma_split_once_unique(line.push('\n') + rest, '\n', line, rest);
}

/// Law: a text without a line feed is one line, and an empty text has none.
pub proof fn the_last_line_needs_no_line_feed(line: Seq<char>)
    requires
        !line.contains('\n'),
    ensures
        lines(line) == if line.len() == 0 {
            Seq::empty()
        } else {
            seq![line]
        },
{
    lemma_split_once(line, '\n');
}

/// Law: a text that starts on a new line adds its lines to those in front of it.
pub proof fn lines_add_up(front: Seq<char>, behind: Seq<char>)
    requires
        front.len() == 0 || front.last() == '\n',
    ensures
        lines(front + behind) == lines(front) + lines(behind),
    decreases front.len(),
{
    lemma_split_once(front, '\n');
    if front.len() == 0 {
        assert(front + behind =~= behind);
        assert(lines(front) + lines(behind) =~= lines(behind));
    } else {
        assert(front.contains(front.last()));
        let (line, rest) = split_once(front, '\n')->0;
        assert(front + behind =~= line.push('\n') + (rest + behind));
        lemma_split_once_unique(front + behind, '\n', line, rest + behind);
        if rest.len() > 0 {
            assert(rest.last() == front.last());
        }
        lines_add_up(rest, behind);
        assert(lines(front) + lines(behind) =~= seq![without_return(line)] + (lines(rest)
            + lines(behind)));
    }
}

/// Whether `part` stands somewhere in `whole`.
pub open spec fn is_part(whole: Seq<char>, part: Seq<char>) -> bool {
    exists|at: int|
        0 <= at && at + part.len() <= whole.len() && #[trigger] whole.subrange(
            at,
            at + part.len(),
        ) == part
}

/// What is put behind a text does not hide its parts.
pub proof fn lemma_part_stays(whole: Seq<char>, part: Seq<char>, more: Seq<char>)
    requires
        is_part(whole, part),
    ensures
        is_part(whole + more, part),
{
    let at = choose|at: int|
        0 <= at && at + part.len() <= whole.len() && #[trigger] whole.subrange(
            at,
            at + part.len(),
        ) == part;
    assert((whole + more).subrange(at, at + part.len()) =~= whole.subrange(at, at + part.len()));
}

/// Three texts behind another one are a part of the whole.
pub proof fn lemma_part_of_three(
    front: Seq<char>,
    first: Seq<char>,
    second: Seq<char>,
    third: Seq<char>,
)
    ensures
        is_part(front + first + second + third, first + second + third),
{
    let whole = front + first + second + third;
    let part = first + second + third;
    let at = front.len() as int;
    assert(whole.subrange(at, at + part.len()) =~= part);
}

/// The digit of a value below sixteen.
pub open spec fn digit(value: nat) -> char {
    if value < 10 {
        (48 + value) as char
    } else {
        (87 + value) as char
    }
}

/// The decimal notation of a number.
pub open spec fn decimal(n: nat) -> Seq<char>
    decreases n,
{
    if n < 10 {
        seq![digit(n)]
    } else {
        decimal(n / 10).push(digit(n % 10))
    }
}

/// The hexadecimal notation of a number, in lower case.
pub open spec fn hexadecimal(n: nat) -> Seq<char>
    decreases n,
{
    if n < 16 {
        seq![digit(n)]
    } else {
        hexadecimal(n / 16).push(digit(n % 16))
    }
}

/// Two hexadecimal digits.
pub open spec fn hex_byte(b: u8) -> Seq<char> {
    seq![digit((b / 16) as nat), digit((b % 16) as nat)]
}

fn digit_of(value: u8) -> (r: char)
    requires
        value < 16,
    ensures
        r == digit(value as nat),
{
    if value < 10 {
        (48 + value) as char
    } else {
        (87 + value) as char
    }
}

/// Appends a number in decimal notation.
pub fn push_decimal(out: &mut String, n: u128)
    ensures
        final(out)@ == old(out)@ + decimal(n as nat),
    decreases n,
{
    let ghost start = out@;
    if n >= 10 {
        push_decimal(out, n / 10);
    }
    out.push(digit_of((n % 10) as u8));
    assert(out@ =~= start + decimal(n as nat));
}

/// Appends a number in hexadecimal notation.
pub fn push_hexadecimal(out: &mut String, n: u64)
    ensures
        final(out)@ == old(out)@ + hexadecimal(n as nat),
    decreases n,
{
    let ghost start = out@;
    if n >= 16 {
        push_hexadecimal(out, n / 16);
    }
    out.push(digit_of((n % 16) as u8));
    assert(out@ =~= start + hexadecimal(n as nat));
}

/// Appends two hexadecimal digits.
pub fn push_hex_byte(out: &mut String, b: u8)
    ensures
        final(out)@ == old(out)@ + hex_byte(b),
{
    let ghost start = out@;
    out.push(digit_of(b / 16));
    out.push(digit_of(b % 16));
    assert(out@ =~= start + hex_byte(b));
}

/// The decimal notation of a number consists of digits.
pub proof fn lemma_decimal_digits(n: nat)
    ensures
        decimal(n).len() > 0,
        forall|i: int| 0 <= i < decimal(n).len() ==> '0' <= #[trigger] decimal(n)[i] <= '9',
    decreases n,
{
    if n >= 10 {
        lemma_decimal_digits(n / 10);
    }
}

/// Law: different numbers have different decimal notations.
pub proof fn decimal_is_unique(a: nat, b: nat)
    requires
        decimal(a) == decimal(b),
    ensures
        a == b,
    decreases a,
{
    lemma_decimal_digits(a / 10);
    lemma_decimal_digits(b / 10);
    assert(decimal(a).last() == digit(a % 10));
    assert(decimal(b).last() == digit(b % 10));
    if a >= 10 && b >= 10 {
        assert(decimal(a).drop_last() =~= decimal(a / 10));
        assert(decimal(b).drop_last() =~= decimal(b / 10));
        decimal_is_unique(a / 10, b / 10);
    } else if a >= 10 {
        assert(decimal(a).len() > 1);
    } else if b >= 10 {
        assert(decimal(b).len() > 1);
    }
}

/// Law: the digits of the decimal notation are those of the number to the base ten, the lowest
/// last, and the first one is not zero but for the number zero.
pub proof fn decimal_digits_are_those_of_the_number(n: nat, i: nat)
    requires
        i < decimal(n).len(),
    ensures
        decimal(n)[decimal(n).len() - 1 - i] as int == '0' as int + (n as int / pow(10, i)) % 10,
        n < pow(10, decimal(n).len()),
        decimal(n)[0] == '0' ==> n == 0 && decimal(n).len() == 1,
    decreases n,
{
    lemma_pow0(10);
    lemma_pow1(10);
    if n >= 10 {
        let high = decimal(n / 10);
        lemma_decimal_digits(n / 10);
        lemma_pow_adds(10, 1, high.len());
        if i == 0 {
            decimal_digits_are_those_of_the_number(n / 10, 0);
        } else {
            let above = (i - 1) as nat;
            decimal_digits_are_those_of_the_number(n / 10, above);
            lemma_pow_adds(10, 1, above);
            lemma_pow_positive(10, above);
            lemma_div_denominator(n as int, 10, pow(10, above));
        }
        assert(decimal(n)[0] == high[0]);
    }
}

/// Law: the digits of the hexadecimal notation are those of the number to the base sixteen, the
/// lowest last, letters standing for those from ten on, and the first one is not zero but for the
/// number zero.
pub proof fn hexadecimal_digits_are_those_of_the_number(n: nat, i: nat)
    requires
        i < hexadecimal(n).len(),
    ensures
        ({
            let value = (n as int / pow(16, i)) % 16;
            let shown = hexadecimal(n)[hexadecimal(n).len() - 1 - i];
            if value < 10 {
                shown as int == '0' as int + value
            } else {
                shown as int == 'a' as int + value - 10
            }
        }),
        n < pow(16, hexadecimal(n).len()),
        hexadecimal(n)[0] == '0' ==> n == 0 && hexadecimal(n).len() == 1,
    decreases n,
{
    lemma_pow0(16);
    lemma_pow1(16);
    if n >= 16 {
        let high = hexadecimal(n / 16);
        lemma_hexadecimal_len(n / 16);
        lemma_pow_adds(16, 1, high.len());
        if i == 0 {
            hexadecimal_digits_are_those_of_the_number(n / 16, 0);
        } else {
            let above = (i - 1) as nat;
            hexadecimal_digits_are_those_of_the_number(n / 16, above);
            lemma_pow_adds(16, 1, above);
            lemma_pow_positive(16, above);
            lemma_div_denominator(n as int, 16, pow(16, above));
        }
        assert(hexadecimal(n)[0] == high[0]);
    }
}

proof fn lemma_hexadecimal_len(n: nat)
    ensures
        hexadecimal(n).len() > 0,
    decreases n,
{
    if n >= 16 {
        lemma_hexadecimal_len(n / 16);
    }
}

} // verus!
