//! Text built from pieces: numbers in decimal and words laid end to end.

use vstd::prelude::*;

verus! {

/// One decimal digit.
pub open spec fn digit_char(d: nat) -> char {
    if d == 0 {
        '0'
    } else if d == 1 {
        '1'
    } else if d == 2 {
        '2'
    } else if d == 3 {
        '3'
    } else if d == 4 {
        '4'
    } else if d == 5 {
        '5'
    } else if d == 6 {
        '6'
    } else if d == 7 {
        '7'
    } else if d == 8 {
        '8'
    } else {
        '9'
    }
}

/// A number in decimal, without leading zeros.
pub open spec fn decimal(n: nat) -> Seq<char>
    decreases n,
{
    if n < 10 {
        seq![digit_char(n)]
    } else {
        decimal(n / 10).push(digit_char(n % 10))
    }
}

fn digit_text(d: u64) -> (r: &'static str)
    requires
        d < 10,
    ensures
        r@ == seq![digit_char(d as nat)],
{
    proof {
        reveal_strlit("0");
        reveal_strlit("1");
        reveal_strlit("2");
        reveal_strlit("3");
        reveal_strlit("4");
        reveal_strlit("5");
        reveal_strlit("6");
        reveal_strlit("7");
        reveal_strlit("8");
        reveal_strlit("9");
    }
    let r: &'static str = if d == 0 {
        "0"
    } else if d == 1 {
        "1"
    } else if d == 2 {
        "2"
    } else if d == 3 {
        "3"
    } else if d == 4 {
        "4"
    } else if d == 5 {
        "5"
    } else if d == 6 {
        "6"
    } else if d == 7 {
        "7"
    } else if d == 8 {
        "8"
    } else {
        "9"
    };
    assert(r@ =~= seq![digit_char(d as nat)]);
    r
}

/// Write `n` in decimal at the end of `out`.
pub fn push_decimal(out: &mut String, n: u64)
    ensures
        final(out)@ == old(out)@ + decimal(n as nat),
    decreases n,
{
    if n < 10 {
        out.append(digit_text(n));
    } else {
        push_decimal(out, n / 10);
        out.append(digit_text(n % 10));
        assert(out@ =~= old(out)@ + decimal(n as nat));
    }
}

/// A number that may be negative.
pub open spec fn signed(n: int) -> Seq<char> {
    if n < 0 {
        "-"@ + decimal((-n) as nat)
    } else {
        decimal(n as nat)
    }
}

/// Write a number that may be negative at the end of `out`.
pub fn push_signed(out: &mut String, n: i64)
    ensures
        final(out)@ == old(out)@ + signed(n as int),
{
    if n < 0 {
        let ghost before = out@;
        out.append("-");
        // The magnitude of the least number fits only without a sign.
        let magnitude: u64 = (-(n + 1)) as u64 + 1;
        push_decimal(out, magnitude);
        assert(out@ =~= before + ("-"@ + decimal(magnitude as nat)));
    } else {
        push_decimal(out, n as u64);
    }
}

/// `n` in decimal.
pub fn decimal_text(n: u64) -> (r: String)
    ensures
        r@ == decimal(n as nat),
{
    let mut r = String::new();
    push_decimal(&mut r, n);
    assert(r@ =~= decimal(n as nat));
    r
}

/// `before`, then `n` in decimal, then `after`.
pub fn around_number(before: &str, n: u64, after: &str) -> (r: String)
    ensures
        r@ == before@ + decimal(n as nat) + after@,
{
    let mut r = String::new();
    r.append(before);
    push_decimal(&mut r, n);
    r.append(after);
    assert(r@ =~= before@ + decimal(n as nat) + after@);
    r
}

/// A literal as owned text.
pub fn owned(s: &str) -> (r: String)
    ensures
        r@ == s@,
{
    let mut r = String::new();
    r.append(s);
    assert(r@ =~= s@);
    r
}

/// The words with `sep` between them.
pub open spec fn joined(words: Seq<Seq<char>>, sep: Seq<char>) -> Seq<char>
    decreases words.len(),
{
    if words.len() == 0 {
        Seq::empty()
    } else if words.len() == 1 {
        words[0]
    } else {
        joined(words.drop_last(), sep) + sep + words.last()
    }
}

/// The views of a list of texts.
pub open spec fn texts(words: Seq<String>) -> Seq<Seq<char>> {
    words.map_values(|w: String| w@)
}

/// The first `n` words with `sep` between them.
pub fn join_first(words: &Vec<String>, n: usize, sep: &str) -> (r: String)
    requires
        n <= words@.len(),
    ensures
        r@ == joined(texts(words@.take(n as int)), sep@),
{
    let mut out = String::new();
    assert(out@ =~= joined(texts(words@.take(0)), sep@));
    for i in 0..n
        invariant
            n <= words@.len(),
            out@ == joined(texts(words@.take(i as int)), sep@),
    {
        let ghost done = texts(words@.take(i as int));
        let ghost next = texts(words@.take(i + 1));
        assert(next.drop_last() =~= done);
        assert(next.last() == words@[i as int]@);
        if i > 0 {
            out.append(sep);
        }
        out.append(words[i].as_str());
        if i == 0 {
            assert(out@ =~= next[0]);
        }
    }
    out
}

/// The number that digits spell; `None` if anything among them is no digit.
pub open spec fn digits_value(digits: Seq<char>) -> Option<nat>
    decreases digits.len(),
{
    if digits.len() == 0 {
        Some(0)
    } else {
        let c = digits.last();
        match digits_value(digits.drop_last()) {
            Some(n) if '0' <= c <= '9' => Some((n * 10 + (c as int - '0' as int)) as nat),
            _ => None,
        }
    }
}

/// Begins with a sign.
pub open spec fn is_signed(text: Seq<char>) -> bool {
    text.len() > 0 && (text[0] == '-' || text[0] == '+')
}

/// The number a text spells: digits, at least one, after a sign or none, as long
/// as the number fits.
pub open spec fn number_in(text: Seq<char>) -> Option<i32> {
    let digits = if is_signed(text) {
        text.skip(1)
    } else {
        text
    };
    match digits_value(digits) {
        Some(n) if digits.len() > 0 => {
            let value = if text[0] == '-' {
                -(n as int)
            } else {
                n as int
            };
            if i32::MIN <= value <= i32::MAX {
                Some(value as i32)
            } else {
                None
            }
        },
        _ => None,
    }
}

/// Read a number that may be negative.
pub fn read_number(text: &str) -> (r: Option<i32>)
    ensures
        r == number_in(text@),
{
    let n: usize = text.unicode_len();
    if n == 0 {
        return None;
    }
    let first = text.get_char(0);
    let negative = first == '-';
    let start: usize = if negative || first == '+' {
        1
    } else {
        0
    };
    if start == n {
        return None;
    }
    let ghost digits = text@.skip(start as int);
    assert(start == 0 ==> digits =~= text@);
    assert(digits.take(0) =~= Seq::empty());
    // Larger than any number that fits.
    let limit: u64 = 0x1_0000_0000;
    let mut value: u64 = 0;
    for i in start..n
        invariant
            n == text@.len(),
            start <= 1,
            start < n,
            limit == 0x1_0000_0000,
            digits == text@.skip(start as int),
            digits == (if is_signed(text@) {
                text@.skip(1)
            } else {
                text@
            }),
            value <= limit,
            digits_value(digits.take(i - start)) matches Some(v) && (if value < limit {
                v == value
            } else {
                v >= limit
            }),
    {
        let ghost k = i - start;
        assert(digits.take(k + 1).drop_last() =~= digits.take(k));
        let c = text.get_char(i);
        assert(digits.take(k + 1).last() == c);
        if c < '0' || c > '9' {
            proof {
                lemma_no_digits(digits, k + 1);
            }
            return None;
        }
        let more: u64 = value * 10 + (c as u32 - '0' as u32) as u64;
        value = if more < limit {
            more
        } else {
            limit
        };
    }
    assert(digits.take(n - start) =~= digits);
    if negative {
        if value > 0x8000_0000 {
            return None;
        }
        Some((-(value as i64)) as i32)
    } else {
        if value > 0x7fff_ffff {
            return None;
        }
        Some(value as i32)
    }
}

proof fn lemma_no_digits(digits: Seq<char>, k: int)
    requires
        0 <= k <= digits.len(),
        digits_value(digits.take(k)) is None,
    ensures
        digits_value(digits) is None,
    decreases digits.len() - k,
{
    if k == digits.len() {
        assert(digits.take(k) =~= digits);
    } else {
        assert(digits.take(k + 1).drop_last() =~= digits.take(k));
        lemma_no_digits(digits, k + 1);
    }
}

/// A text without the white space at its ends, as `str::trim` has it.
pub uninterp spec fn trimmed(text: Seq<char>) -> Seq<char>;

/// `str::trim` takes the white space off both ends of a text. What counts as
/// white space is left to it; all that is claimed is that the result depends on
/// the text alone.
#[verifier::external_body]
pub(crate) fn trim(text: &str) -> (r: &str)
    ensures
        r@ == trimmed(text@),
{
    text.trim()
}

/// A number is spelled so that reading it gives it back: its digits are decimal,
/// the last is what is left over of the tens, and none leads that could be left
/// out.
pub proof fn law_numbers_read_back(n: nat)
    ensures
        digits_value(decimal(n)) == Some(n),
        forall|i: int| 0 <= i < decimal(n).len() ==> '0' <= #[trigger] decimal(n)[i] <= '9',
        decimal(n).len() >= 1,
        decimal(n).last() as int == '0' as int + n % 10,
        decimal(n).len() == 1 <==> n < 10,
        n >= 10 ==> decimal(n)[0] != '0' && decimal(n).drop_last() == decimal(n / 10),
        n > 0 ==> decimal(n)[0] != '0',
    decreases n,
{
    if n >= 10 {
        law_numbers_read_back(n / 10);
        assert(decimal(n).drop_last() =~= decimal(n / 10));
    } else {
        assert(decimal(n).drop_last() =~= Seq::empty());
        assert(digits_value(decimal(n).drop_last()) == Some(0nat));
    }
}

/// A number that may be negative reads back too, with a `+` before it as well.
pub proof fn law_signed_numbers_read_back(n: i32)
    ensures
        number_in(signed(n as int)) == Some(n),
        n >= 0 ==> number_in(seq!['+'] + signed(n as int)) == Some(n),
        n < 0 <==> signed(n as int)[0] == '-',
{
    reveal_strlit("-");
    let m: nat = if n < 0 {
        (-(n as int)) as nat
    } else {
        n as nat
    };
    law_numbers_read_back(m);
    assert('0' <= decimal(m)[0] <= '9');
    let text = signed(n as int);
    if n < 0 {
        assert(text.skip(1) =~= decimal(m));
    } else {
        assert((seq!['+'] + text).skip(1) =~= decimal(m));
    }
}

/// Digits spell a number exactly if they are nothing but digits.
pub proof fn law_only_digits_spell_a_number(text: Seq<char>)
    ensures
        digits_value(text) is Some <==> forall|i: int|
            0 <= i < text.len() ==> '0' <= #[trigger] text[i] <= '9',
    decreases text.len(),
{
    if text.len() > 0 {
        let init = text.drop_last();
        law_only_digits_spell_a_number(init);
        if digits_value(init) is None {
            let k = choose|i: int|
                0 <= i < init.len() && !('0' <= #[trigger] init[i] <= '9');
            assert(text[k] == init[k]);
        }
        if digits_value(text) is Some {
            assert forall|i: int| 0 <= i < text.len() implies '0' <= #[trigger] text[i]
                <= '9' by {
                if i < init.len() {
                    assert(init[i] == text[i]);
                }
            }
        }
        assert(text[text.len() - 1] == text.last());
    }
}

/// A text without a digit, or with anything but digits after its sign, is no
/// number, nor is one that does not fit.
pub proof fn law_other_texts_are_no_numbers(text: Seq<char>)
    ensures
        text.len() == 0 ==> number_in(text) is None,
        is_signed(text) && text.len() == 1 ==> number_in(text) is None,
        number_in(text) is Some ==> forall|i: int|
            1 <= i < text.len() ==> '0' <= #[trigger] text[i] <= '9',
        number_in(text) is Some ==> ('0' <= text[0] <= '9' || text[0] == '-' || text[0] == '+'),
        number_in(text) is Some && text[0] == '-' ==> digits_value(text.skip(1)) == Some(
            (-(number_in(text)->Some_0 as int)) as nat,
        ) && number_in(text)->Some_0 <= 0,
        number_in(text) is Some && text[0] == '+' ==> digits_value(text.skip(1)) == Some(
            number_in(text)->Some_0 as nat,
        ) && number_in(text)->Some_0 >= 0,
{
    law_only_digits_spell_a_number(text);
    law_only_digits_spell_a_number(text.skip(1));
    if number_in(text) is Some && is_signed(text) {
        assert forall|i: int| 1 <= i < text.len() implies '0' <= #[trigger] text[i] <= '9' by {
            assert(text.skip(1)[i - 1] == text[i]);
        }
    }
}

/// Words are joined in order with the separator between each two, and only
/// there.
pub proof fn law_words_are_joined_in_order(
    word: Seq<char>,
    rest: Seq<Seq<char>>,
    sep: Seq<char>,
)
    ensures
        joined(seq![word], sep) == word,
        rest.len() > 0 ==> joined(seq![word] + rest, sep) == word + sep + joined(rest, sep),
    decreases rest.len(),
{
    assert(joined(seq![word], sep) =~= word);
    if rest.len() == 1 {
        assert((seq![word] + rest).drop_last() =~= seq![word]);
        assert((seq![word] + rest).last() == rest[0]);
        assert(joined(seq![word] + rest, sep) =~= word + sep + joined(rest, sep));
    } else if rest.len() > 1 {
        law_words_are_joined_in_order(word, rest.drop_last(), sep);
        assert((seq![word] + rest).drop_last() =~= seq![word] + rest.drop_last());
        assert(joined(seq![word] + rest, sep) =~= word + sep + joined(rest, sep));
    }
}

/// A list of texts is seen text by text, in order.
pub proof fn law_texts_are_seen_in_order(words: Seq<String>, i: int)
    requires
        0 <= i < words.len(),
    ensures
        texts(words).len() == words.len(),
        texts(words)[i] == words[i]@,
{
}

/// Digits that spell a number that fits are that number, after a `-` its negative;
/// a further digit counts ten times what came before, and more.
pub proof fn law_digits_that_fit_are_numbers(text: Seq<char>, n: nat, c: char)
    requires
        text.len() > 0,
        digits_value(text) == Some(n),
    ensures
        n <= i32::MAX ==> number_in(text) == Some(n as i32),
        n > i32::MAX ==> number_in(text) is None,
        n <= 0x8000_0000 ==> number_in(seq!['-'] + text) == Some((-(n as int)) as i32),
        n > 0x8000_0000 ==> number_in(seq!['-'] + text) is None,
        '0' <= c <= '9' ==> digits_value(text.push(c)) == Some(
            (10 * n + (c as int - '0' as int)) as nat,
        ),
{
    law_only_digits_spell_a_number(text);
    assert('0' <= text[0] <= '9');
    assert((seq!['-'] + text).skip(1) =~= text);
    assert(text.push(c).drop_last() =~= text);
}

} // verus!
