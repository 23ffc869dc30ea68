//! Operations on text, stated over sequences of characters.

use vstd::prelude::*;
use vstd::string::*;

verus! {

/// `c` has the Unicode property `White_Space`.
pub open spec fn char_is_whitespace(c: char) -> bool {
    let code = c as u32;
    ||| 0x9 <= code <= 0xd
    ||| code == 0x20
    ||| code == 0x85
    ||| code == 0xa0
    ||| code == 0x1680
    ||| 0x2000 <= code <= 0x200a
    ||| code == 0x2028
    ||| code == 0x2029
    ||| code == 0x202f
    ||| code == 0x205f
    ||| code == 0x3000
}

/// `char::is_whitespace`: whether the character has the Unicode property `White_Space`.
#[verifier::external_body]
pub(crate) fn is_whitespace(c: char) -> (r: bool)
    ensures
        r == char_is_whitespace(c),
{
    c.is_whitespace()
}

/// `String::push` appends one character.
pub assume_specification[ std::string::String::push ](s: &mut std::string::String, c: char)
    ensures
        final(s)@ == old(s)@.push(c),
;

/// Whether two texts are the same.
pub fn same_text(a: &str, b: &str) -> (r: bool)
    ensures
        r == (a@ == b@),
{
    let n = a.unicode_len();
    if n != b.unicode_len() {
        return false;
    }
    let mut i: usize = 0;
    while i < n
        invariant
            i <= n,
            n == a@.len(),
            n == b@.len(),
            forall|j: int| 0 <= j < i ==> a@[j] == b@[j],
        decreases n - i,
    {
        if a.get_char(i) != b.get_char(i) {
            assert(a@[i as int] != b@[i as int]);
            return false;
        }
        i += 1;
    }
    assert(a@ =~= b@);
    true
}

/// `parts`, one after the other.
pub fn concat3(a: &str, b: &str, c: &str) -> (r: String)
    ensures
        r@ == a@ + b@ + c@,
{
    let mut out = String::new();
    out.append(a);
    out.append(b);
    out.append(c);
    assert(out@ =~= a@ + b@ + c@);
    out
}

/// The part of `s` before the first `c`, or all of `s` where there is none.
pub open spec fn before_first(s: Seq<char>, c: char) -> Seq<char> {
    match s.index_of_first(c) {
        Some(i) => s.take(i),
        None => s,
    }
}

/// The part of `s` after the last `c`, or all of `s` where there is none.
pub open spec fn after_last(s: Seq<char>, c: char) -> Seq<char> {
    match s.index_of_last(c) {
        Some(i) => s.skip(i + 1),
        None => s,
    }
}

/// The part of `s` before the first `c`, or all of `s` where there is none.
pub fn text_before_first<'a>(s: &'a str, c: char) -> (r: &'a str)
    ensures
        r@ == before_first(s@, c),
{
    let n = s.unicode_len();
    proof {
        s@.index_of_first_ensures(c);
    }
    let mut i: usize = 0;
    while i < n
        invariant
            i <= n,
            n == s@.len(),
            forall|j: int| 0 <= j < i ==> s@[j] != c,
        decreases n - i,
    {
        if s.get_char(i) == c {
            proof {
                s@.index_of_first_ensures(c);
                assert(s@.contains(c)) by {
                    assert(s@[i as int] == c);
                }
                assert(s@.index_of_first(c) == Some(i as int));
                assert(s@.take(i as int) =~= s@.subrange(0, i as int));
            }
            return s.substring_char(0, i);
        }
        i += 1;
    }
    s
}

/// The part of `s` after the last `c`, or all of `s` where there is none.
pub fn text_after_last<'a>(s: &'a str, c: char) -> (r: &'a str)
    ensures
        r@ == after_last(s@, c),
{
    let n = s.unicode_len();
    proof {
        s@.index_of_last_ensures(c);
    }
    let mut i: usize = n;
    while i > 0
        invariant
            i <= n,
            n == s@.len(),
            forall|j: int| i <= j < n ==> s@[j] != c,
        decreases i,
    {
        i -= 1;
        if s.get_char(i) == c {
            proof {
                s@.index_of_last_ensures(c);
                assert(s@.contains(c)) by {
                    assert(s@[i as int] == c);
                }
                assert(s@.index_of_last(c) == Some(i as int));
                assert(s@.skip(i + 1) =~= s@.subrange(i + 1, n as int));
            }
            return s.substring_char(i + 1, n);
        }
    }
    s
}

/// Whether `s` ends with `suffix`.
pub fn ends_with(s: &str, suffix: &str) -> (r: bool)
    ensures
        r == suffix@.is_suffix_of(s@),
{
    let n = s.unicode_len();
    let m = suffix.unicode_len();
    if m > n {
        return false;
    }
    let tail = s.substring_char(n - m, n);
    same_text(tail, suffix)
}

/// The decimal digit `d`.
pub open spec fn digit(d: nat) -> char {
    (48 + d) as char
}

/// `n` in decimal, without leading zeros.
pub open spec fn decimal(n: nat) -> Seq<char>
    decreases n,
{
    if n < 10 {
        seq![digit(n)]
    } else {
        decimal(n / 10).push(digit(n % 10))
    }
}

/// `n` in decimal, without leading zeros.
pub fn decimal_text(n: usize) -> (r: String)
    ensures
        r@ == decimal(n as nat),
    decreases n,
{
    let last: u8 = 48 + (n % 10) as u8;
    if n < 10 {
        let mut out = String::new();
        out.push(last as char);
        assert(out@ =~= seq![digit(n as nat)]);
        out
    } else {
        let mut out = decimal_text(n / 10);
        out.push(last as char);
        out
    }
}

/// `s` without its leading white space.
pub open spec fn trim_start(s: Seq<char>) -> Seq<char>
    decreases s.len(),
{
    if s.len() > 0 && char_is_whitespace(s[0]) {
        trim_start(s.drop_first())
    } else {
        s
    }
}

/// `s` without its trailing white space.
pub open spec fn trim_end(s: Seq<char>) -> Seq<char>
    decreases s.len(),
{
    if s.len() > 0 && char_is_whitespace(s.last()) {
        trim_end(s.drop_last())
    } else {
        s
    }
}

/// `s` without its trailing NUL characters.
pub open spec fn trim_nuls(s: Seq<char>) -> Seq<char>
    decreases s.len(),
{
    if s.len() > 0 && s.last() == '\0' {
        trim_nuls(s.drop_last())
    } else {
        s
    }
}

/// `s` without white space at either end, and then without trailing NUL characters.
pub open spec fn cleaned(s: Seq<char>) -> Seq<char> {
    trim_nuls(trim_end(trim_start(s)))
}

/// `s` without white space at either end, and then without trailing NUL characters.
pub fn clean_text(s: &str) -> (r: String)
    ensures
        r@ == cleaned(s@),
{
    let n = s.unicode_len();
    let mut from: usize = 0;
    assert(s@.subrange(0, n as int) =~= s@);
    while from < n && is_whitespace(s.get_char(from))
        invariant
            from <= n,
            n == s@.len(),
            trim_start(s@) == trim_start(s@.subrange(from as int, n as int)),
        decreases n - from,
    {
        assert(s@.subrange(from as int, n as int).drop_first() =~= s@.subrange(from + 1, n as int));
        from += 1;
    }
    assert(trim_start(s@) == s@.subrange(from as int, n as int));
    let mut to: usize = n;
    while to > from && is_whitespace(s.get_char(to - 1))
        invariant
            from <= to <= n,
            n == s@.len(),
            trim_end(trim_start(s@)) == trim_end(s@.subrange(from as int, to as int)),
        decreases to,
    {
        assert(s@.subrange(from as int, to as int).drop_last() =~= s@.subrange(from as int, to - 1));
        to -= 1;
    }
    assert(trim_end(trim_start(s@)) == s@.subrange(from as int, to as int));
    while to > from && s.get_char(to - 1) == '\0'
        invariant
            from <= to <= n,
            n == s@.len(),
            cleaned(s@) == trim_nuls(s@.subrange(from as int, to as int)),
        decreases to,
    {
        assert(s@.subrange(from as int, to as int).drop_last() =~= s@.subrange(from as int, to - 1));
        to -= 1;
    }
    s.substring_char(from, to).to_owned()
}

/// `c` with an ASCII capital letter made small.
pub open spec fn small(c: char) -> char {
    if 'A' <= c && c <= 'Z' {
        ((c as u32) + 32) as char
    } else {
        c
    }
}

/// `s` with its ASCII capital letters made small.
pub fn lowercase(s: &str) -> (r: String)
    ensures
        r@ == s@.map_values(|c: char| small(c)),
{
    let n = s.unicode_len();
    let mut out = String::new();
    let mut i: usize = 0;
    assert(out@ =~= s@.take(0).map_values(|c: char| small(c)));
    while i < n
        invariant
            i <= n,
            n == s@.len(),
            out@ == s@.take(i as int).map_values(|c: char| small(c)),
        decreases n - i,
    {
        let c = s.get_char(i);
        if 'A' <= c && c <= 'Z' {
            let code: u8 = c as u8;
            out.push((code + 32) as char);
        } else {
            out.push(c);
        }
        assert(s@.take(i + 1).map_values(|c: char| small(c)) =~= s@.take(i as int).map_values(
            |c: char| small(c),
        ).push(small(c)));
        i += 1;
    }
    assert(s@.take(n as int) =~= s@);
    out
}

/// The hexadecimal digit `d`.
pub open spec fn hex_digit(d: nat) -> char {
    if d < 10 {
        (48 + d) as char
    } else {
        (87 + d) as char
    }
}

/// `bytes` in hexadecimal, two digits for each.
pub open spec fn hex(bytes: Seq<u8>) -> Seq<char>
    decreases bytes.len(),
{
    if bytes.len() == 0 {
        Seq::empty()
    } else {
        hex(bytes.drop_last()).push(hex_digit(bytes.last() as nat / 16)).push(hex_digit(bytes.last() as nat % 16))
    }
}

/// The hexadecimal digit `d`.
fn hex_char(d: u8) -> (r: char)
    requires
        d < 16,
    ensures
        r == hex_digit(d as nat),
{
    if d < 10 {
        (48 + d) as char
    } else {
        (87 + d) as char
    }
}

/// `0x`, and `bytes` in hexadecimal.
pub fn hex_text(bytes: &Vec<u8>) -> (r: String)
    ensures
        r@ == "0x"@ + hex(bytes@),
{
    let mut out = String::new();
    out.append("0x");
    let mut i: usize = 0;
    assert(out@ =~= "0x"@ + hex(bytes@.take(0)));
    while i < bytes.len()
        invariant
            i <= bytes@.len(),
            out@ == "0x"@ + hex(bytes@.take(i as int)),
        decreases bytes@.len() - i,
    {
        let byte: u8 = bytes[i];
        assert(bytes@.take(i + 1).drop_last() =~= bytes@.take(i as int));
        assert(bytes@.take(i + 1).last() == byte);
        out.push(hex_char(byte / 16));
        out.push(hex_char(byte % 16));
        assert(out@ =~= "0x"@ + hex(bytes@.take(i + 1)));
        i += 1;
    }
    assert(bytes@.take(i as int) =~= bytes@);
    out
}

/// The part before the first `c` stands at the start, holds no `c`, and is followed by `c`; where there is no `c`
/// it is all there is.
pub proof fn the_part_before_holds_no_separator(s: Seq<char>, c: char)
    ensures
        !before_first(s, c).contains(c),
        !s.contains(c) ==> before_first(s, c) == s,
        s.contains(c) ==> {
            let part = before_first(s, c);
            &&& part.len() < s.len()
            &&& s.take(part.len() as int) == part
            &&& s[part.len() as int] == c
        },
{
    s.index_of_first_ensures(c);
    if let Some(i) = s.index_of_first(c) {
        assert(s.take(i).len() == i);
        if s.take(i).contains(c) {
            let k = s.take(i).index_of(c);
            assert(s[k] == c);
        }
    }
}

/// The part after the last `c` stands at the end, holds no `c`, and follows `c`; where there is no `c` it is all
/// there is.
pub proof fn the_part_after_holds_no_separator(s: Seq<char>, c: char)
    ensures
        !after_last(s, c).contains(c),
        !s.contains(c) ==> after_last(s, c) == s,
        s.contains(c) ==> {
            let part = after_last(s, c);
            &&& part.len() < s.len()
            &&& s.skip(s.len() - part.len()) == part
            &&& s[s.len() - part.len() - 1] == c
        },
{
    s.index_of_last_ensures(c);
    if let Some(i) = s.index_of_last(c) {
        assert(s.skip(i + 1).len() == s.len() - i - 1);
        if s.skip(i + 1).contains(c) {
            let k = s.skip(i + 1).index_of(c);
            assert(s[i + 1 + k] == c);
        }
    }
}

/// A number below ten is one digit; any other is the number without its last digit, and that digit.
pub proof fn numbers_are_spelled_digit_by_digit(tens: nat, ones: nat)
    requires
        ones < 10,
    ensures
        decimal(ones).len() == 1,
        decimal(ones)[0] as nat == '0' as nat + ones,
        tens > 0 ==> {
            let text = decimal(10 * tens + ones);
            &&& text.drop_last() == decimal(tens)
            &&& text.last() as nat == '0' as nat + ones
        },
{
    if tens > 0 {
        let n = 10 * tens + ones;
        assert(n / 10 == tens && n % 10 == ones);
        assert(decimal(n) == decimal(tens).push(digit(ones)));
        assert(decimal(n).drop_last() =~= decimal(tens));
    }
}

/// Numbers are spelled with digits alone, without a leading zero.
pub proof fn numbers_have_no_leading_zero(n: nat, i: int)
    ensures
        decimal(n).len() > 0,
        n > 0 ==> decimal(n)[0] != '0',
        0 <= i < decimal(n).len() ==> '0' <= decimal(n)[i] && decimal(n)[i] <= '9',
    decreases n,
{
    if n >= 10 {
        numbers_have_no_leading_zero(n / 10, i);
        numbers_have_no_leading_zero(n / 10, 0);
        let d = n % 10;
        assert(digit(d) as nat == 48 + d);
    } else {
        assert(digit(n) as nat == 48 + n);
    }
}

/// Every byte is two hexadecimal digits, the upper half first, in small letters.
pub proof fn bytes_are_two_digits_each(bytes: Seq<u8>, i: int)
    ensures
        hex(bytes).len() == 2 * bytes.len(),
        0 <= i < bytes.len() ==> {
            &&& hex(bytes)[2 * i] == "0123456789abcdef"@[bytes[i] as int / 16]
            &&& hex(bytes)[2 * i + 1] == "0123456789abcdef"@[bytes[i] as int % 16]
        },
    decreases bytes.len(),
{
    reveal_strlit("0123456789abcdef");
    if bytes.len() > 0 {
        let rest = bytes.drop_last();
        bytes_are_two_digits_each(rest, i);
        if 0 <= i < rest.len() {
            assert(rest[i] == bytes[i]);
            assert(hex(bytes)[2 * i] == hex(rest)[2 * i]);
            assert(hex(bytes)[2 * i + 1] == hex(rest)[2 * i + 1]);
        } else if i == rest.len() {
            let b = bytes.last() as nat;
            let upper = b / 16;
            let lower = b % 16;
            assert(upper < 16 && lower < 16);
            assert(hex(bytes)[2 * i] == hex_digit(upper));
            assert(hex(bytes)[2 * i + 1] == hex_digit(lower));
            hex_digits_are_in_the_list(upper);
            hex_digits_are_in_the_list(lower);
        }
    }
}

/// A hexadecimal digit is the one at its place in the list of all of them.
proof fn hex_digits_are_in_the_list(d: nat)
    requires
        d < 16,
    ensures
        hex_digit(d) == "0123456789abcdef"@[d as int],
{
    reveal_strlit("0123456789abcdef");
    let list = "0123456789abcdef"@;
    assert(list[0] == '0' && list[1] == '1' && list[2] == '2' && list[3] == '3');
    assert(list[4] == '4' && list[5] == '5' && list[6] == '6' && list[7] == '7');
    assert(list[8] == '8' && list[9] == '9' && list[10] == 'a' && list[11] == 'b');
    assert(list[12] == 'c' && list[13] == 'd' && list[14] == 'e' && list[15] == 'f');
    assert(hex_digit(0) == '0' && hex_digit(1) == '1' && hex_digit(2) == '2' && hex_digit(3) == '3');
    assert(hex_digit(4) == '4' && hex_digit(5) == '5' && hex_digit(6) == '6' && hex_digit(7) == '7');
    assert(hex_digit(8) == '8' && hex_digit(9) == '9' && hex_digit(10) == 'a' && hex_digit(11) == 'b');
    assert(hex_digit(12) == 'c' && hex_digit(13) == 'd' && hex_digit(14) == 'e' && hex_digit(15) == 'f');
}

/// Only capital letters from `A` to `Z` are changed, each to its small letter, so a text in small letters stays
/// as it is.
pub proof fn capital_letters_are_made_small(c: char)
    ensures
        'A' <= c && c <= 'Z' ==> small(c) as nat == c as nat + 32 && 'a' <= small(c) && small(c) <= 'z',
        !('A' <= c && c <= 'Z') ==> small(c) == c,
        small(small(c)) == small(c),
{
}

/// What is cut from the start is white space, and what is left does not start with it.
proof fn the_start_is_trimmed(s: Seq<char>)
    ensures
        trim_start(s).len() <= s.len(),
        s.skip(s.len() - trim_start(s).len()) == trim_start(s),
        forall|i: int| 0 <= i < s.len() - trim_start(s).len() ==> char_is_whitespace(#[trigger] s[i]),
        trim_start(s).len() > 0 ==> !char_is_whitespace(trim_start(s)[0]),
    decreases s.len(),
{
    if s.len() > 0 && char_is_whitespace(s[0]) {
        let rest = s.drop_first();
        the_start_is_trimmed(rest);
        let n = trim_start(s).len();
        assert(s.skip(s.len() - n) =~= rest.skip(rest.len() - n));
        assert forall|i: int| 0 <= i < s.len() - n implies char_is_whitespace(#[trigger] s[i]) by {
            if i > 0 {
                assert(rest[i - 1] == s[i]);
            }
        }
    } else {
        assert(s.skip(0) =~= s);
    }
}

/// What is cut from the end is white space, and what is left does not end with it.
proof fn the_end_is_trimmed(s: Seq<char>)
    ensures
        trim_end(s).len() <= s.len(),
        s.take(trim_end(s).len() as int) == trim_end(s),
        forall|i: int| trim_end(s).len() <= i < s.len() ==> char_is_whitespace(#[trigger] s[i]),
        trim_end(s).len() > 0 ==> !char_is_whitespace(trim_end(s).last()),
    decreases s.len(),
{
    if s.len() > 0 && char_is_whitespace(s.last()) {
        let rest = s.drop_last();
        the_end_is_trimmed(rest);
        let n = trim_end(s).len();
        assert(s.take(n as int) =~= rest.take(n as int));
        assert forall|i: int| n <= i < s.len() implies char_is_whitespace(#[trigger] s[i]) by {
            if i < rest.len() {
                assert(rest[i] == s[i]);
            }
        }
    } else {
        assert(s.take(s.len() as int) =~= s);
    }
}

/// What is cut are NUL characters, and what is left does not end with one.
proof fn nuls_are_trimmed(s: Seq<char>)
    ensures
        trim_nuls(s).len() <= s.len(),
        s.take(trim_nuls(s).len() as int) == trim_nuls(s),
        forall|i: int| trim_nuls(s).len() <= i < s.len() ==> #[trigger] s[i] == '\0',
        trim_nuls(s).len() > 0 ==> trim_nuls(s).last() != '\0',
    decreases s.len(),
{
    if s.len() > 0 && s.last() == '\0' {
        let rest = s.drop_last();
        nuls_are_trimmed(rest);
        let n = trim_nuls(s).len();
        assert(s.take(n as int) =~= rest.take(n as int));
        assert forall|i: int| n <= i < s.len() implies #[trigger] s[i] == '\0' by {
            if i < rest.len() {
                assert(rest[i] == s[i]);
            }
        }
    } else {
        assert(s.take(s.len() as int) =~= s);
    }
}

/// A cleaned text is a part of the text, from the first character that is not white space on. What is cut before
/// it is white space, what is cut behind it are NUL characters and then white space, and it does not end with a
/// NUL character. A text without white space and NUL characters stays as it is.
pub proof fn only_blanks_are_cleaned_away(s: Seq<char>)
    ensures
        exists|from: int, to: int, end: int| #[trigger] is_cut(s, from, to, end) && cleaned(s) == s.subrange(from, to),
        cleaned(s).len() > 0 ==> !char_is_whitespace(cleaned(s)[0]) && cleaned(s).last() != '\0',
        (forall|i: int| 0 <= i < s.len() ==> !char_is_whitespace(#[trigger] s[i]) && s[i] != '\0') ==> cleaned(s) == s,
{
    let a = trim_start(s);
    let b = trim_end(a);
    let c = trim_nuls(b);
    the_start_is_trimmed(s);
    the_end_is_trimmed(a);
    nuls_are_trimmed(b);
    let from = s.len() - a.len();
    let to = from + c.len();
    let end = from + b.len();
    assert forall|i: int| end <= i < s.len() implies char_is_whitespace(#[trigger] s[i]) by {
        assert(a[i - from] == s[i]);
    }
    assert forall|i: int| to <= i < end implies #[trigger] s[i] == '\0' by {
        assert(a[i - from] == s[i]);
        assert(b[i - from] == a[i - from]);
    }
    assert(c =~= s.subrange(from, to));
    assert(is_cut(s, from, to, end));
    if c.len() > 0 {
        assert(c[0] == b[0] && b[0] == a[0]);
    }
    if forall|i: int| 0 <= i < s.len() ==> !char_is_whitespace(#[trigger] s[i]) && s[i] != '\0' {
        if from > 0 {
            assert(char_is_whitespace(s[0]));
        }
        if end < s.len() {
            assert(char_is_whitespace(s[end]));
        }
        if to < end {
            assert(s[to] == '\0');
        }
        assert(s.subrange(0, s.len() as int) =~= s);
    }
}

/// Before `from` there is white space alone, from `to` to `end` there are NUL characters alone, and from `end` on
/// white space alone.
pub open spec fn is_cut(s: Seq<char>, from: int, to: int, end: int) -> bool {
    &&& 0 <= from <= to <= end <= s.len()
    &&& forall|i: int| 0 <= i < from ==> char_is_whitespace(#[trigger] s[i])
    &&& forall|i: int| to <= i < end ==> #[trigger] s[i] == '\0'
    &&& forall|i: int| end <= i < s.len() ==> char_is_whitespace(#[trigger] s[i])
}

} // verus!
