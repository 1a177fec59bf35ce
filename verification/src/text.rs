//! Text that the tool reads and writes: numbers in decimal, the names of
//! backup directories, and the answer to a yes/no question.

use vstd::prelude::*;

verus! {

/// The character that stands for the digit `d`.
pub open spec fn digit_char(d: nat) -> char {
    (48 + d) as char
}

/// `n` in decimal, without leading zeros.
pub open spec fn decimal(n: nat) -> Seq<char>
    decreases n,
{
    if n < 10 {
        seq![digit_char(n)]
    } else {
        decimal(n / 10).push(digit_char(n % 10))
    }
}

/// `n` in decimal, with a minus sign in front where it is negative.
pub open spec fn signed_decimal(n: int) -> Seq<char> {
    if n < 0 {
        "-"@ + decimal((-n) as nat)
    } else {
        decimal(n as nat)
    }
}

fn digit_str(d: u8) -> (text: &'static str)
    requires
        d < 10,
    ensures
        text@ == seq![digit_char(d as nat)],
{
    proof {
        reveal_strlit("0");
        reveal_strlit("1");
        reveal_strlit("2");
        reveal_strlit("3");
        reveal_strlit("4");
        reveal_strlit("5");
        reveal_strlit("6");
        reveal_strlit("7");
        reveal_strlit("8");
        reveal_strlit("9");
    }
    match d {
        0 => "0",
        1 => "1",
        2 => "2",
        3 => "3",
        4 => "4",
        5 => "5",
        6 => "6",
        7 => "7",
        8 => "8",
        _ => "9",
    }
}

/// Appends `n` in decimal to `out`.
pub fn push_decimal(out: &mut String, n: u128)
    ensures
        final(out)@ == old(out)@ + decimal(n as nat),
    decreases n,
{
    if n < 10 {
        out.append(digit_str(n as u8));
    } else {
        push_decimal(out, n / 10);
        out.append(digit_str((n % 10) as u8));
    }
}

/// Appends `n` in decimal to `out`.
pub fn push_signed_decimal(out: &mut String, n: i32)
    ensures
        final(out)@ == old(out)@ + signed_decimal(n as int),
{
    if n < 0 {
        out.append("-");
        push_decimal(out, (-(n as i64)) as u128);
    } else {
        push_decimal(out, n as u128);
    }
}

/// `n` in decimal, as a string of its own.
pub fn decimal_string(n: u128) -> (text: String)
    ensures
        text@ == decimal(n as nat),
{
    let mut text = String::new();
    push_decimal(&mut text, n);
    text
}

/// Three texts one after the other.
pub fn surround(before: &str, middle: &str, behind: &str) -> (whole: String)
    ensures
        whole@ == before@ + middle@ + behind@,
{
    let mut whole = before.to_owned();
    whole.append(middle);
    whole.append(behind);
    whole
}

/// Whether two texts are the same.
pub fn same_text(a: &str, b: &str) -> (yes: bool)
    ensures
        yes == (a@ == b@),
{
    let a = a.to_owned();
    let b = b.to_owned();
    a == b
}

/// The text of a string, if there is one.
pub open spec fn text_of(s: Option<String>) -> Option<Seq<char>> {
    match s {
        Some(s) => Some(s@),
        None => None,
    }
}

/// Every byte of `s` is an ASCII digit.
pub open spec fn all_digits(s: Seq<u8>) -> bool {
    forall|i: int| 0 <= i < s.len() ==> 48 <= #[trigger] s[i] <= 57
}

/// The number that a string of digits stands for.
pub open spec fn digits_value(s: Seq<u8>) -> int
    decreases s.len(),
{
    if s.len() == 0 {
        0
    } else {
        10 * digits_value(s.drop_last()) + (s.last() - 48)
    }
}

/// `name` without the plus sign that it may start with.
pub open spec fn without_plus(name: Seq<u8>) -> Seq<u8> {
    if name.len() > 0 && name[0] == 43 {
        name.drop_first()
    } else {
        name
    }
}

/// `name` is a `u64` in decimal: digits, at least one, after an optional plus
/// sign, whose value fits.
pub open spec fn names_u64(name: Seq<u8>) -> bool {
    let digits = without_plus(name);
    digits.len() > 0 && all_digits(digits) && digits_value(digits) <= u64::MAX
}

proof fn lemma_value_grows(s: Seq<u8>, i: int)
    requires
        all_digits(s),
        0 <= i <= s.len(),
    ensures
        0 <= digits_value(s.take(i)) <= digits_value(s),
    decreases s.len(),
{
    if i == s.len() {
        assert(s.take(i) == s);
        if s.len() > 0 {
            assert(s.drop_last() == s.take(i - 1));
            lemma_value_grows(s.drop_last(), 0);
        }
    } else {
        assert(s.drop_last().take(i) == s.take(i));
        lemma_value_grows(s.drop_last(), i);
    }
}

/// Whether `name` is a `u64` in decimal, which is what a backup directory is
/// called after the second in which it was made.
pub fn is_backup_name(name: &[u8]) -> (yes: bool)
    ensures
        yes == names_u64(name@),
{
    let start: usize = if name.len() > 0 && name[0] == 43 {
        1
    } else {
        0
    };
    let ghost digits = without_plus(name@);
    assert(digits == name@.skip(start as int));
    if start == name.len() {
        return false;
    }
    let mut value: u64 = 0;
    let mut i: usize = start;
    assert(digits.take(0) == Seq::<u8>::empty());
    while i < name.len()
        invariant
            start <= i <= name.len(),
            digits == without_plus(name@),
            digits == name@.skip(start as int),
            forall|k: int| 0 <= k < i - start ==> 48 <= #[trigger] digits[k] <= 57,
            value == digits_value(digits.take(i - start)),
        decreases name.len() - i,
    {
        let byte: u8 = name[i];
        assert(digits[i - start] == byte);
        if byte < 48 || byte > 57 {
            return false;
        }
        let digit: u64 = (byte - 48) as u64;
        let ghost longer = digits.take(i - start + 1);
        assert(longer.drop_last() == digits.take(i - start));
        if value > (u64::MAX - digit) / 10 {
            proof {
                if all_digits(digits) {
                    lemma_value_grows(digits, i - start + 1);
                }
            }
            return false;
        }
        value = value * 10 + digit;
        i += 1;
    }
    assert(digits.take(i - start) == digits);
    true
}

proof fn lemma_decimal(n: nat)
    ensures
        decimal(n).len() > 0,
        forall|i: int| 0 <= i < decimal(n).len() ==> '0' <= #[trigger] decimal(n)[i] <= '9',
        digits_value(Seq::new(decimal(n).len(), |i: int| decimal(n)[i] as u8)) == n,
    decreases n,
{
    let bytes = Seq::new(decimal(n).len(), |i: int| decimal(n)[i] as u8);
    if n < 10 {
        assert(bytes.drop_last() == Seq::<u8>::empty());
        assert(digits_value(bytes.drop_last()) == 0);
    } else {
        lemma_decimal(n / 10);
        let front = Seq::new(decimal(n / 10).len(), |i: int| decimal(n / 10)[i] as u8);
        assert(bytes.drop_last() == front);
    }
}

/// The decimal form of a number, in bytes, is made of digits.
pub proof fn lemma_decimal_bytes(n: nat)
    ensures
        vstd::utf8::encode_utf8(decimal(n)).len() > 0,
        all_digits(vstd::utf8::encode_utf8(decimal(n))),
        digits_value(vstd::utf8::encode_utf8(decimal(n))) == n,
{
    lemma_decimal(n);
    let text = decimal(n);
    assert(vstd::utf8::is_ascii_chars(text));
    vstd::utf8::is_ascii_chars_encode_utf8(text);
    assert(vstd::utf8::encode_utf8(text) == Seq::new(text.len(), |i: int| text[i] as u8));
}

/// The decimal form of every `u64` is a backup name, and the number that it
/// stands for is that `u64`.
pub proof fn law_decimal_is_backup_name(n: u64)
    ensures
        names_u64(vstd::utf8::encode_utf8(decimal(n as nat))),
        digits_value(vstd::utf8::encode_utf8(decimal(n as nat))) == n,
{
    lemma_decimal_bytes(n as nat);
    let bytes = vstd::utf8::encode_utf8(decimal(n as nat));
    assert(48 <= bytes[0] <= 57);
    assert(without_plus(bytes) == bytes);
}

/// The characters that Unicode calls white space.
pub open spec fn is_blank(c: char) -> bool {
    ||| '\u{9}' <= c <= '\u{d}'
    ||| c == ' '
    ||| c == '\u{85}'
    ||| c == '\u{a0}'
    ||| c == '\u{1680}'
    ||| '\u{2000}' <= c <= '\u{200a}'
    ||| c == '\u{2028}'
    ||| c == '\u{2029}'
    ||| c == '\u{202f}'
    ||| c == '\u{205f}'
    ||| c == '\u{3000}'
}

/// The answer is a `y` in either case, with nothing but white space round it.
pub open spec fn confirms(answer: Seq<char>) -> bool {
    exists|i: int|
        0 <= i < answer.len() && (#[trigger] answer[i] == 'y' || answer[i] == 'Y') && only_blank_but(
            answer,
            i,
        )
}

/// Every character of `answer` but the one at `i` is white space.
pub open spec fn only_blank_but(answer: Seq<char>, i: int) -> bool {
    forall|j: int| 0 <= j < answer.len() && j != i ==> is_blank(#[trigger] answer[j])
}

fn blank(c: char) -> (yes: bool)
    ensures
        yes == is_blank(c),
{
    ('\u{9}' <= c && c <= '\u{d}') || c == ' ' || c == '\u{85}' || c == '\u{a0}' || c
        == '\u{1680}' || ('\u{2000}' <= c && c <= '\u{200a}') || c == '\u{2028}' || c == '\u{2029}'
        || c == '\u{202f}' || c == '\u{205f}' || c == '\u{3000}'
}

/// Whether the answer to a yes/no question is yes.
pub fn is_confirmation(answer: &str) -> (yes: bool)
    ensures
        yes == confirms(answer@),
{
    let n: usize = answer.unicode_len();
    let mut found: Option<usize> = None;
    let mut i: usize = 0;
    while i < n
        invariant
            n == answer@.len(),
            i <= n,
            found matches Some(k) ==> k < i && (answer@[k as int] == 'y' || answer@[k as int]
                == 'Y'),
            forall|j: int|
                0 <= j < i && found != Some(j as usize) ==> is_blank(#[trigger] answer@[j]),
        decreases n - i,
    {
        let c: char = answer.get_char(i);
        if !blank(c) {
            if found.is_some() || (c != 'y' && c != 'Y') {
                proof {
                    assert(!is_blank(answer@[i as int]));
                    if confirms(answer@) {
                        let k = choose|k: int|
                            0 <= k < answer@.len() && (#[trigger] answer@[k] == 'y' || answer@[k]
                                == 'Y') && only_blank_but(answer@, k);
                        assert(k == i);
                        if let Some(first) = found {
                            assert(!is_blank(answer@[first as int]));
                        }
                    }
                }
                return false;
            }
            found = Some(i);
        }
        i += 1;
    }
    proof {
        match found {
            Some(k) => {
                assert(only_blank_but(answer@, k as int));
            },
            None => {
                assert(forall|k: int| 0 <= k < answer@.len() ==> is_blank(#[trigger] answer@[k]));
            },
        }
    }
    found.is_some()
}

/// A number below ten is one digit, and every other number is written as its
/// tenth part with its last digit behind it. So the first digit of a longer
/// number is never zero.
pub proof fn law_decimal_is_written_digit_by_digit(n: nat, d: nat)
    requires
        d < 10,
    ensures
        decimal(d).len() == 1,
        decimal(d)[0] as int == 48 + d,
        n > 0 ==> decimal(10 * n + d).len() == decimal(n).len() + 1,
        n > 0 ==> decimal(10 * n + d).last() as int == 48 + d,
        n > 0 ==> decimal(10 * n + d).drop_last() == decimal(n),
{
    if n > 0 {
        assert((10 * n + d) / 10 == n && (10 * n + d) % 10 == d);
        assert(decimal(10 * n + d) == decimal(n).push(digit_char(d)));
        assert(decimal(10 * n + d).drop_last() =~= decimal(n));
    }
}

/// A number that is not negative is written as it is, and a negative one as its
/// opposite behind a minus sign.
pub proof fn law_sign_comes_first(n: nat)
    ensures
        signed_decimal(n as int) == decimal(n),
        n > 0 ==> signed_decimal(-n) == seq!['-'] + decimal(n),
{
    reveal_strlit("-");
    assert("-"@ =~= seq!['-']);
}

/// The number that digits stand for: none stand for zero, and one more digit
/// makes ten times the number, and the digit.
pub proof fn law_digits_count_tens(s: Seq<u8>, digit: u8)
    ensures
        digits_value(Seq::<u8>::empty()) == 0,
        digits_value(s.push(digit)) == 10 * digits_value(s) + digit as int - 48,
{
    assert(s.push(digit).drop_last() =~= s);
}

/// A backup's name is a number that fits in 64 bits: nothing but the bytes from
/// 48 to 57, at least one of them, behind at most one byte 43.
pub proof fn law_backup_name_is_a_number(digits: Seq<u8>)
    ensures
        names_u64(seq![43u8] + digits) <==> digits.len() > 0 && (forall|i: int|
            0 <= i < digits.len() ==> 48 <= #[trigger] digits[i] <= 57) && digits_value(digits)
            <= 0xffff_ffff_ffff_ffff,
        digits.len() == 0 || digits[0] != 43 ==> (names_u64(digits) <==> names_u64(
            seq![43u8] + digits,
        )),
{
    assert((seq![43u8] + digits).drop_first() =~= digits);
    assert(without_plus(seq![43u8] + digits) == digits);
}

/// White space is what Unicode calls so, and nothing else.
pub proof fn law_blanks_are_white_space(c: char)
    ensures
        is_blank(c) <==> {
            let n = c as int;
            ||| 0x9 <= n <= 0xd
            ||| n == 0x20
            ||| n == 0x85
            ||| n == 0xa0
            ||| n == 0x1680
            ||| 0x2000 <= n <= 0x200a
            ||| n == 0x2028
            ||| n == 0x2029
            ||| n == 0x202f
            ||| n == 0x205f
            ||| n == 0x3000
        },
{
}

/// An answer is a yes exactly if it is white space, then one `y` or `Y`, and then
/// white space.
pub proof fn law_yes_is_one_letter(before: Seq<char>, letter: char, behind: Seq<char>)
    requires
        !is_blank(letter),
        forall|i: int| 0 <= i < before.len() ==> is_blank(#[trigger] before[i]),
    ensures
        confirms(before + seq![letter] + behind) <==> (letter == 'y' || letter == 'Y') && (forall|
            i: int,
        |
            0 <= i < behind.len() ==> is_blank(#[trigger] behind[i])),
        !confirms(before),
{
    let answer = before + seq![letter] + behind;
    let n = before.len() as int;
    assert(answer[n] == letter);
    if confirms(answer) {
        let k = choose|k: int|
            0 <= k < answer.len() && (#[trigger] answer[k] == 'y' || answer[k] == 'Y')
                && only_blank_but(answer, k);
        assert(k == n);
        assert forall|i: int| 0 <= i < behind.len() implies is_blank(#[trigger] behind[i]) by {
            assert(answer[n + 1 + i] == behind[i]);
        }
    }
    if (letter == 'y' || letter == 'Y') && (forall|i: int|
        0 <= i < behind.len() ==> is_blank(#[trigger] behind[i])) {
        assert forall|j: int| 0 <= j < answer.len() && j != n implies is_blank(
            #[trigger] answer[j],
        ) by {
            if j < n {
                assert(answer[j] == before[j]);
            } else {
                assert(answer[j] == behind[j - n - 1]);
            }
        }
        assert(only_blank_but(answer, n));
    }
    if confirms(before) {
        let k = choose|k: int|
            0 <= k < before.len() && (#[trigger] before[k] == 'y' || before[k] == 'Y')
                && only_blank_but(before, k);
        assert(is_blank(before[k]));
    }
}

/// A string that may be missing is taken as its text, if it is there.
pub proof fn law_missing_text_stays_missing(s: String)
    ensures
        text_of(Some(s)) == Some(s@),
        text_of(None) == None::<Seq<char>>,
{
}

} // verus!
