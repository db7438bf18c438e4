//! What numerals and blank texts are.

use vstd::prelude::*;

use crate::text::{decimal, hex, is_blank, is_white_space, signed_decimal, trimmed_text};

verus! {

/// The numeral of a digit is that digit; to put a digit behind a number's numeral is to multiply
/// the number by ten and add the digit. No numeral of another number starts with a zero.
pub proof fn law_decimal_numerals(n: nat, d: nat)
    requires
        d < 10,
    ensures
        decimal(d).len() == 1,
        decimal(d)[0] as int == '0' as int + d,
        n > 0 ==> decimal(10 * n + d) == decimal(n) + decimal(d),
        n > 0 ==> decimal(n)[0] != '0',
{
    if n > 0 {
        assert((10 * n + d) / 10 == n);
        assert((10 * n + d) % 10 == d);
        assert(decimal(10 * n + d) =~= decimal(n) + decimal(d));
        lemma_no_leading_zero(n);
    }
}

proof fn lemma_no_leading_zero(n: nat)
    requires
        n > 0,
    ensures
        decimal(n).len() > 0,
        decimal(n)[0] != '0',
    decreases n,
{
    if n >= 10 {
        lemma_no_leading_zero(n / 10);
        assert(decimal(n)[0] == decimal(n / 10)[0]);
    }
}

/// A number that is not negative has its decimal numeral, and its negative has the same behind a
/// minus sign.
pub proof fn law_signed_numerals(n: nat)
    ensures
        signed_decimal(n as int) == decimal(n),
        n > 0 ==> signed_decimal(-n) == seq!['-'] + decimal(n),
{
}

/// The hexadecimal numeral of one digit is that digit in lower case; to put a digit behind a
/// numeral is to multiply the number by sixteen and add the digit.
pub proof fn law_hex_numerals(n: nat, width: nat, d: nat)
    requires
        d < 16,
    ensures
        hex(n, 0).len() == 0,
        hex(d, 1).len() == 1,
        d < 10 ==> hex(d, 1)[0] as int == '0' as int + d,
        d >= 10 ==> hex(d, 1)[0] as int == 'a' as int + (d - 10),
        hex(16 * n + d, width + 1) == hex(n, width) + hex(d, 1),
{
    assert((16 * n + d) / 16 == n);
    assert((16 * n + d) % 16 == d);
    assert(d / 16 == 0 && d % 16 == d);
    reveal_with_fuel(hex, 2);
    assert(hex(16 * n + d, width + 1) =~= hex(n, width) + hex(d, 1));
}

/// A text is blank exactly where nothing is left of it without the white space at its ends; what
/// is left otherwise neither starts nor ends with white space, and only white space was taken.
pub proof fn law_trimmed_text(s: Seq<char>)
    ensures
        is_blank(s) <==> trimmed_text(s).len() == 0,
        trimmed_text(s).len() > 0 ==> !is_white_space(trimmed_text(s)[0])
            && !is_white_space(trimmed_text(s)[trimmed_text(s).len() - 1]),
        exists|front: Seq<char>, back: Seq<char>| #[trigger]
            is_blank(front) && #[trigger] is_blank(back) && s == front + trimmed_text(s) + back,
    decreases s.len(),
{
    crate::text::lemma_trimmed_text(s);
    let none = Seq::<char>::empty();
    if s.len() == 0 {
        assert(is_blank(none) && is_blank(none) && s =~= none + trimmed_text(s) + none);
    } else if is_white_space(s[0]) {
        law_trimmed_text(s.drop_first());
        let t = trimmed_text(s.drop_first());
        let (front, back) = choose|front: Seq<char>, back: Seq<char>| #[trigger]
            is_blank(front) && #[trigger] is_blank(back) && s.drop_first() == front + t + back;
        let longer = seq![s[0]] + front;
        assert(s.drop_first() == front + t + back);
        assert(s =~= seq![s[0]] + (front + t + back));
        assert(is_blank(longer));
        assert(s =~= longer + t + back);
    } else if is_white_space(s.last()) {
        law_trimmed_text(s.drop_last());
        let t = trimmed_text(s.drop_last());
        let (front, back) = choose|front: Seq<char>, back: Seq<char>| #[trigger]
            is_blank(front) && #[trigger] is_blank(back) && s.drop_last() == front + t + back;
        let longer = back.push(s.last());
        assert(s.drop_last() == front + t + back);
        assert(s =~= (front + t + back).push(s.last()));
        assert(is_blank(longer));
        assert(s =~= front + t + longer);
    } else {
        assert(is_blank(none) && is_blank(none) && s =~= none + trimmed_text(s) + none);
    }
}

/// The white space: tab, line feed, vertical tab, form feed, carriage return, space, next line,
/// no-break space, ogham space, the general punctuation spaces, line and paragraph separator,
/// narrow no-break space, mathematical space and ideographic space.
pub proof fn law_white_space(c: char)
    ensures
        is_white_space(c) <==> {
            let n = c as int;
            ||| n == 9 || n == 10 || n == 11 || n == 12 || n == 13 || n == 32
            ||| n == 133 || n == 160 || n == 5760
            ||| 8192 <= n && n <= 8202
            ||| n == 8232 || n == 8233 || n == 8239 || n == 8287 || n == 12288
        },
{
}

} // verus!
