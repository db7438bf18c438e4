//! Text: strings as character sequences, white space, numerals.

use vstd::prelude::*;
use vstd::utf8::{decode_utf8, valid_utf8};

verus! {

/// The standard library's `String::push` appends the character to the string.
pub assume_specification[ String::push ](s: &mut String, c: char)
    ensures
        final(s)@ == old(s)@.push(c),
;

/// What `String::from_utf8_lossy` makes of bytes that are not UTF-8.
pub uninterp spec fn repaired_utf8(bytes: Seq<u8>) -> Seq<char>;

/// The text that `bytes` stand for: their UTF-8 decoding, or a repaired text where they have none.
pub open spec fn lossy_text(bytes: Seq<u8>) -> Seq<char> {
    if valid_utf8(bytes) {
        decode_utf8(bytes)
    } else {
        repaired_utf8(bytes)
    }
}

/// Calls the standard library's `String::from_utf8_lossy`. It decodes valid UTF-8 unchanged;
/// of other bytes it makes a text that is fixed by the bytes, which gets a name here and of
/// which nothing else is claimed.
#[verifier::external_body]
pub(crate) fn from_utf8_lossy(bytes: &[u8]) -> (s: String)
    ensures
        valid_utf8(bytes@) ==> s@ == decode_utf8(bytes@),
        !valid_utf8(bytes@) ==> s@ == repaired_utf8(bytes@),
{
    String::from_utf8_lossy(bytes).into_owned()
}

/// What the standard library's `Debug` makes of a text: the text in quotes, with escapes.
pub uninterp spec fn debug_text(s: Seq<char>) -> Seq<char>;

/// Formats `s` with the standard library's `Debug`. The result is fixed by the text; it gets a
/// name here, and nothing else is claimed of it.
#[verifier::external_body]
pub(crate) fn debug_of(s: &str) -> (res: String)
    ensures
        res@ == debug_text(s@),
{
    format!("{s:?}")
}

/// The characters of Unicode's `White_Space` property.
pub open spec fn is_white_space(c: char) -> bool {
    ||| 0x9 <= c as u32 <= 0xd
    ||| c as u32 == 0x20
    ||| c as u32 == 0x85
    ||| c as u32 == 0xa0
    ||| c as u32 == 0x1680
    ||| 0x2000 <= c as u32 <= 0x200a
    ||| c as u32 == 0x2028
    ||| c as u32 == 0x2029
    ||| c as u32 == 0x202f
    ||| c as u32 == 0x205f
    ||| c as u32 == 0x3000
}

/// `s` holds nothing but white space.
pub open spec fn is_blank(s: Seq<char>) -> bool {
    forall|i: int| 0 <= i < s.len() ==> is_white_space(#[trigger] s[i])
}

/// `s` without the white space at its two ends.
pub open spec fn trimmed_text(s: Seq<char>) -> Seq<char>
    decreases s.len(),
{
    if s.len() == 0 {
        s
    } else if is_white_space(s[0]) {
        trimmed_text(s.drop_first())
    } else if is_white_space(s.last()) {
        trimmed_text(s.drop_last())
    } else {
        s
    }
}

/// The standard library's `str::trim` takes the white space off the two ends of the text.
pub assume_specification[ str::trim ](s: &str) -> (t: &str)
    ensures
        t@ == trimmed_text(s@),
;

/// Nothing is left of a text without the white space at its ends exactly where it is blank.
pub proof fn lemma_trimmed_text(s: Seq<char>)
    ensures
        trimmed_text(s).len() == 0 <==> is_blank(s),
    decreases s.len(),
{
    if s.len() > 0 {
        assert(s.last() == s[s.len() - 1]);
        if is_white_space(s[0]) {
            lemma_trimmed_text(s.drop_first());
            if is_blank(s.drop_first()) {
                assert forall|i: int| 0 <= i < s.len() implies is_white_space(#[trigger] s[i]) by {
                    if i > 0 {
                        assert(s.drop_first()[i - 1] == s[i]);
                    }
                }
            }
            if is_blank(s) {
                assert forall|i: int| 0 <= i < s.drop_first().len() implies is_white_space(
                    #[trigger] s.drop_first()[i],
                ) by {
                    assert(s.drop_first()[i] == s[i + 1]);
                }
            }
        } else if is_white_space(s.last()) {
            lemma_trimmed_text(s.drop_last());
            assert(!is_white_space(s.drop_last()[0]));
        }
    }
}

/// Whether `a` and `b` are the same text.
pub fn text_eq(a: &str, b: &str) -> (same: bool)
    ensures
        same == (a@ == b@),
{
    a.to_owned() == b.to_owned()
}

/// The characters of `s`.
pub fn to_chars(s: &str) -> (v: Vec<char>)
    ensures
        v@ == s@,
{
    let mut v: Vec<char> = Vec::new();
    for c in it: s.chars()
        invariant
            it.seq() == s@,
            v@ == s@.take(it.index() as int),
    {
        v.push(c);
    }
    assert(s@.take(s@.len() as int) =~= s@);
    v
}

/// The text `v[from..to]`.
pub fn from_chars(v: &Vec<char>, from: usize, to: usize) -> (s: String)
    requires
        from <= to <= v@.len(),
    ensures
        s@ == v@.subrange(from as int, to as int),
{
    let mut s = String::new();
    let mut i: usize = from;
    while i < to
        invariant
            from <= i <= to <= v@.len(),
            s@ == v@.subrange(from as int, i as int),
        decreases to - i,
    {
        s.push(v[i]);
        i += 1;
    }
    s
}

/// The decimal digit `d`.
pub open spec fn digit(d: nat) -> char {
    (0x30 + d) as char
}

/// The decimal numeral of `n`, without leading zeros.
pub open spec fn decimal(n: nat) -> Seq<char>
    decreases n,
{
    if n < 10 {
        seq![digit(n)]
    } else {
        decimal(n / 10).push(digit(n % 10))
    }
}

/// The decimal numeral of `n`, with a minus sign where `n` is negative.
pub open spec fn signed_decimal(n: int) -> Seq<char> {
    if n < 0 {
        seq!['-'] + decimal((-n) as nat)
    } else {
        decimal(n as nat)
    }
}

/// Appends the decimal numeral of `n`.
pub fn push_decimal(out: &mut String, n: u64)
    ensures
        final(out)@ == old(out)@ + decimal(n as nat),
    decreases n,
{
    if n >= 10 {
        push_decimal(out, n / 10);
    }
    let d: u8 = (n % 10) as u8;
    out.push((0x30 + d) as char);
    assert(out@ =~= old(out)@ + decimal(n as nat));
}

/// Appends the decimal numeral of `n`, with a minus sign where `n` is negative.
pub fn push_signed_decimal(out: &mut String, n: i64)
    ensures
        final(out)@ == old(out)@ + signed_decimal(n as int),
{
    if n < 0 {
        out.push('-');
        push_decimal(out, (-(n as i128)) as u64);
    } else {
        push_decimal(out, n as u64);
    }
    assert(out@ =~= old(out)@ + signed_decimal(n as int));
}

/// The lower-case hexadecimal digit `d`.
pub open spec fn hex_digit(d: nat) -> char {
    if d < 10 {
        (0x30 + d) as char
    } else {
        (0x57 + d) as char
    }
}

/// The `width` low hexadecimal digits of `n`, most significant first, in lower case.
pub open spec fn hex(n: nat, width: nat) -> Seq<char>
    decreases width,
{
    if width == 0 {
        Seq::empty()
    } else {
        hex(n / 16, (width - 1) as nat).push(hex_digit(n % 16))
    }
}

/// Appends the `width` low hexadecimal digits of `n`.
pub fn push_hex(out: &mut String, n: u64, width: u32)
    ensures
        final(out)@ == old(out)@ + hex(n as nat, width as nat),
    decreases width,
{
    if width > 0 {
        push_hex(out, n / 16, width - 1);
        let d: u8 = (n % 16) as u8;
        if d < 10 {
            out.push((0x30 + d) as char);
        } else {
            out.push((0x57 + d) as char);
        }
    }
    assert(out@ =~= old(out)@ + hex(n as nat, width as nat));
}

} // verus!
