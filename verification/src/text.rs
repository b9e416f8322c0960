//! Text that ends up on command lines and in environment variables.

use vstd::prelude::*;
use vstd::string::*;
use vstd::utf8::*;

verus! {

/// `String::push`: appends one character.
pub assume_specification[ String::push ](s: &mut String, c: char)
    ensures
        final(s)@ == old(s)@.push(c),
;

/// What `str::to_uppercase` makes of a text.
pub uninterp spec fn uppercase(text: Seq<char>) -> Seq<char>;

/// The upper-case form of an ASCII letter; any other character stays as it is.
pub open spec fn ascii_uppercase(c: char) -> char {
    if 'a' <= c <= 'z' {
        ((c as u32) - 32) as char
    } else {
        c
    }
}

/// `str::to_uppercase`: the upper-case equivalent of the text, by the rules of Unicode. On ASCII
/// text only the letters change.
#[verifier::external_body]
pub(crate) fn to_uppercase(text: &str) -> (r: String)
    ensures
        r@ == uppercase(text@),
        is_ascii_chars(text@) ==> r@ == text@.map_values(|c: char| ascii_uppercase(c)),
{
    text.to_uppercase()
}

/// `std::str::from_utf8`: the text that the bytes encode, if they are valid UTF-8.
#[verifier::external_body]
pub(crate) fn text_of_utf8(bytes: &[u8]) -> (r: Option<&str>)
    ensures
        r is Some == valid_utf8(bytes@),
        r is Some ==> encode_utf8(r->0@) == bytes@,
{
    std::str::from_utf8(bytes).ok()
}

/// What is shown of a path, where `String::from_utf8_lossy` makes text of its bytes.
pub uninterp spec fn shown(bytes: Seq<u8>) -> Seq<char>;

/// `String::from_utf8_lossy`: the text that the bytes encode, where what is not valid UTF-8 is
/// replaced.
#[verifier::external_body]
pub(crate) fn show(bytes: &[u8]) -> (r: String)
    ensures
        r@ == shown(bytes@),
        valid_utf8(bytes@) ==> encode_utf8(r@) == bytes@,
{
    String::from_utf8_lossy(bytes).into_owned()
}

/// An optional text.
pub open spec fn optional_text(text: Option<String>) -> Option<Seq<char>> {
    match text {
        Some(t) => Some(t@),
        None => None,
    }
}

/// Two texts with the same encoding are the same text.
pub proof fn lemma_encoding_is_injective(a: Seq<char>, b: Seq<char>)
    requires
        encode_utf8(a) == encode_utf8(b),
    ensures
        a == b,
{
    encode_utf8_decode_utf8(a);
    encode_utf8_decode_utf8(b);
}

/// Tells whether two slices hold the same bytes.
pub(crate) fn same_bytes(a: &[u8], b: &[u8]) -> (same: bool)
    ensures
        same == (a@ == b@),
{
    if a.len() != b.len() {
        return false;
    }
    let mut i: usize = 0;
    while i < a.len()
        invariant
            i <= a.len() == b.len(),
            forall|j: int| 0 <= j < i ==> #[trigger] a@[j] == b@[j],
        decreases a.len() - i,
    {
        if a[i] != b[i] {
            return false;
        }
        i += 1;
    }
    assert(a@ =~= b@);
    true
}

/// Tells whether two texts are the same.
pub(crate) fn same_text(a: &str, b: &str) -> (same: bool)
    ensures
        same == (a@ == b@),
{
    let same = same_bytes(a.as_bytes(), b.as_bytes());
    proof {
        if same {
            lemma_encoding_is_injective(a@, b@);
        }
    }
    same
}

/// One text behind the other.
pub(crate) fn concat(a: &str, b: &str) -> (r: String)
    ensures
        r@ == a@ + b@,
{
    let mut r = a.to_owned();
    r.append(b);
    r
}

/// Three texts, one behind the other.
pub(crate) fn concat3(a: &str, b: &str, c: &str) -> (r: String)
    ensures
        r@ == a@ + b@ + c@,
{
    let mut r = a.to_owned();
    r.append(b);
    r.append(c);
    r
}

/// The text with each dash turned into an underscore.
pub open spec fn underscored(text: Seq<char>) -> Seq<char> {
    text.map_values(
        |c: char|
            if c == '-' {
                '_'
            } else {
                c
            },
    )
}

/// Turns each dash into an underscore.
pub fn dashes_to_underscores(text: &str) -> (r: String)
    ensures
        r@ == underscored(text@),
{
    let mut r = String::new();
    for c in it: text.chars()
        invariant
            it.seq() == text@,
            r@ == underscored(text@.take(it.index())),
    {
        let mapped = if c == '-' {
            '_'
        } else {
            c
        };
        r.push(mapped);
        assert(text@.take(it.index() + 1) =~= text@.take(it.index()).push(c));
        assert(underscored(text@.take(it.index() + 1)) =~= underscored(text@.take(it.index())).push(
            mapped,
        ));
    }
    assert(text@.take(text@.len() as int) =~= text@);
    r
}

/// The texts of a list.
pub open spec fn texts(list: Seq<String>) -> Seq<Seq<char>> {
    list.map_values(|s: String| s@)
}

/// The parts in a row, with the separator between each two of them.
pub open spec fn joined(parts: Seq<Seq<char>>, separator: Seq<char>) -> Seq<char>
    decreases parts.len(),
{
    if parts.len() == 0 {
        Seq::empty()
    } else if parts.len() == 1 {
        parts[0]
    } else {
        joined(parts.drop_last(), separator) + separator + parts.last()
    }
}

/// Joins the parts, with the separator between each two of them.
pub fn join(parts: &Vec<String>, separator: &str) -> (r: String)
    ensures
        r@ == joined(texts(parts@), separator@),
{
    let mut r = String::new();
    let mut i: usize = 0;
    while i < parts.len()
        invariant
            i <= parts.len(),
            r@ == joined(texts(parts@.take(i as int)), separator@),
        decreases parts.len() - i,
    {
        if i > 0 {
            r.append(separator);
        }
        r.append(parts[i].as_str());
        proof {
            let more = texts(parts@.take(i + 1));
            assert(more.drop_last() =~= texts(parts@.take(i as int)));
            assert(more.last() == parts@[i as int]@);
            if i == 0 {
                assert(r@ =~= more[0]);
            }
        }
        i += 1;
    }
    assert(parts@.take(parts.len() as int) =~= parts@);
    r
}

/// The character of a digit below sixteen.
pub open spec fn digit(d: nat) -> char {
    if d < 10 {
        (48 + d) as char
    } else {
        (87 + d) as char
    }
}

fn digit_char(d: u64) -> (c: char)
    requires
        d < 16,
    ensures
        c == digit(d as nat),
{
    if d < 10 {
        (48u8 + d as u8) as char
    } else {
        (87u8 + d as u8) as char
    }
}

/// The decimal numeral of a number, without leading zeros.
pub open spec fn decimal(n: nat) -> Seq<char>
    decreases n,
{
    if n < 10 {
        seq![digit(n)]
    } else {
        decimal(n / 10).push(digit(n % 10))
    }
}

/// Writes a number in decimal.
pub fn to_decimal(n: u64) -> (r: String)
    ensures
        r@ == decimal(n as nat),
    decreases n,
{
    if n < 10 {
        let mut r = String::new();
        r.push(digit_char(n));
        assert(r@ =~= seq![digit(n as nat)]);
        r
    } else {
        let mut r = to_decimal(n / 10);
        r.push(digit_char(n % 10));
        r
    }
}

/// The last `width` digits of a number's hexadecimal numeral, with leading zeros.
pub open spec fn hexadecimal(n: nat, width: nat) -> Seq<char>
    decreases width,
{
    if width == 0 {
        Seq::empty()
    } else {
        hexadecimal(n / 16, (width - 1) as nat).push(digit(n % 16))
    }
}

/// Writes the last `width` hexadecimal digits of a number, in lower case and with leading zeros.
pub fn to_hexadecimal(n: u64, width: usize) -> (r: String)
    ensures
        r@ == hexadecimal(n as nat, width as nat),
    decreases width,
{
    if width == 0 {
        String::new()
    } else {
        let mut r = to_hexadecimal(n / 16, width - 1);
        r.push(digit_char(n % 16));
        r
    }
}

/// Sixteen to the power of `width`.
pub open spec fn power_of_sixteen(width: nat) -> nat
    decreases width,
{
    if width == 0 {
        1
    } else {
        16 * power_of_sixteen((width - 1) as nat)
    }
}

proof fn lemma_digits_differ(c: nat, d: nat)
    requires
        c < 16,
        d < 16,
        digit(c) == digit(d),
    ensures
        c == d,
{
    assert(digit(c) as int == if c < 10 {
        48 + c
    } else {
        87 + c
    });
    assert(digit(d) as int == if d < 10 {
        48 + d
    } else {
        87 + d
    });
}

/// Numbers that fit into `width` hexadecimal digits have different numerals of that width.
pub proof fn law_hexadecimal_tells_apart(a: nat, b: nat, width: nat)
    requires
        a < power_of_sixteen(width),
        b < power_of_sixteen(width),
        hexadecimal(a, width) == hexadecimal(b, width),
    ensures
        a == b,
    decreases width,
{
    if width > 0 {
        let x = hexadecimal(a, width);
        let y = hexadecimal(b, width);
        assert(x.drop_last() =~= hexadecimal(a / 16, (width - 1) as nat));
        assert(y.drop_last() =~= hexadecimal(b / 16, (width - 1) as nat));
        assert(x.last() == digit(a % 16) && y.last() == digit(b % 16));
        lemma_digits_differ(a % 16, b % 16);
        law_hexadecimal_tells_apart(a / 16, b / 16, (width - 1) as nat);
    }
}

/// Different 64-bit numbers have different numerals of sixteen hexadecimal digits.
pub proof fn law_hash_is_spelled_out(a: u64, b: u64)
    requires
        hexadecimal(a as nat, 16) == hexadecimal(b as nat, 16),
    ensures
        a == b,
{
    assert(power_of_sixteen(16) == 0x1_0000_0000_0000_0000) by {
        reveal_with_fuel(power_of_sixteen, 17);
    }
    law_hexadecimal_tells_apart(a as nat, b as nat, 16);
}

/// Different numbers have different decimal numerals.
pub proof fn law_decimal_tells_apart(a: nat, b: nat)
    requires
        decimal(a) == decimal(b),
    ensures
        a == b,
    decreases a,
{
    let x = decimal(a);
    let y = decimal(b);
    assert(x.len() > 0 && y.len() > 0);
    if a < 10 && b < 10 {
        assert(x[0] == digit(a) && y[0] == digit(b));
        lemma_digits_differ(a, b);
    } else if a >= 10 && b >= 10 {
        assert(x.drop_last() =~= decimal(a / 10));
        assert(y.drop_last() =~= decimal(b / 10));
        assert(x.last() == digit(a % 10) && y.last() == digit(b % 10));
        lemma_digits_differ(a % 10, b % 10);
        law_decimal_tells_apart(a / 10, b / 10);
    } else if a >= 10 {
        lemma_decimal_is_nonempty(a / 10);
    } else {
        lemma_decimal_is_nonempty(b / 10);
    }
}

proof fn lemma_decimal_is_nonempty(n: nat)
    ensures
        decimal(n).len() > 0,
{
}

/// The text of an option, or the empty text.
pub open spec fn text_or_empty(text: Option<String>) -> Seq<char> {
    match text {
        Some(t) => t@,
        None => Seq::empty(),
    }
}

/// A copy of the text, or an empty one where there is none.
pub(crate) fn or_empty(text: &Option<String>) -> (r: String)
    ensures
        r@ == text_or_empty(*text),
{
    match text {
        Some(t) => t.clone(),
        None => String::new(),
    }
}

/// The number that a digit stands for. Capital letters are no digits.
pub open spec fn digit_value(c: char) -> int {
    if '0' <= c <= '9' {
        c as int - '0' as int
    } else if 'a' <= c <= 'f' {
        c as int - 'a' as int + 10
    } else {
        -1
    }
}

/// The number that a decimal numeral is read as.
pub open spec fn decimal_value(numeral: Seq<char>) -> int
    decreases numeral.len(),
{
    if numeral.len() == 0 {
        0
    } else {
        10 * decimal_value(numeral.drop_last()) + digit_value(numeral.last())
    }
}

/// The number that a hexadecimal numeral is read as.
pub open spec fn hexadecimal_value(numeral: Seq<char>) -> int
    decreases numeral.len(),
{
    if numeral.len() == 0 {
        0
    } else {
        16 * hexadecimal_value(numeral.drop_last()) + digit_value(numeral.last())
    }
}

proof fn lemma_digit_value(d: nat)
    requires
        d < 16,
    ensures
        digit_value(digit(d)) == d,
        d < 10 ==> '0' <= digit(d) <= '9',
        d > 0 ==> digit(d) != '0',
{
    assert(digit(d) as int == if d < 10 {
        48 + d
    } else {
        87 + d
    });
}

/// A number that is written in decimal is read back. Its numeral holds digits only, at least one,
/// and starts with a zero only where it is nothing else.
pub proof fn law_decimal_is_read_back(n: nat)
    ensures
        decimal_value(decimal(n)) == n,
        decimal(n).len() > 0,
        forall|i: int| 0 <= i < decimal(n).len() ==> '0' <= #[trigger] decimal(n)[i] <= '9',
        decimal(n)[0] == '0' ==> decimal(n).len() == 1,
    decreases n,
{
    let s = decimal(n);
    if n < 10 {
        lemma_digit_value(n);
        assert(s.drop_last() =~= Seq::empty());
        assert(decimal_value(s.drop_last()) == 0);
    } else {
        law_decimal_is_read_back(n / 10);
        lemma_digit_value(n % 10);
        assert(s.drop_last() =~= decimal(n / 10));
        if s[0] == '0' {
            let t = decimal(n / 10);
            assert(t[0] == '0');
            assert(t.drop_last() =~= Seq::empty());
            assert(decimal_value(t.drop_last()) == 0);
            assert(decimal_value(t) == digit_value(t.last()));
            assert(t.last() == '0');
        }
    }
}

/// A number that fits is read back from its hexadecimal numeral, which has as many digits as were
/// asked for, and no capital letters.
pub proof fn law_hexadecimal_is_read_back(n: nat, width: nat)
    ensures
        hexadecimal(n, width).len() == width,
        n < power_of_sixteen(width) ==> hexadecimal_value(hexadecimal(n, width)) == n,
        forall|i: int|
            0 <= i < width ==> 0 <= digit_value(#[trigger] hexadecimal(n, width)[i]) < 16,
    decreases width,
{
    if width > 0 {
        let s = hexadecimal(n, width);
        law_hexadecimal_is_read_back(n / 16, (width - 1) as nat);
        lemma_digit_value(n % 16);
        assert(s.drop_last() =~= hexadecimal(n / 16, (width - 1) as nat));
    }
}

/// Dashes become underscores, and nothing else changes.
pub proof fn law_only_dashes_change(text: Seq<char>, i: int)
    requires
        0 <= i < text.len(),
    ensures
        underscored(text).len() == text.len(),
        text[i] == '-' ==> underscored(text)[i] == '_',
        text[i] != '-' ==> underscored(text)[i] == text[i],
        !underscored(text).contains('-'),
{
}

/// One more part comes behind all the others, with a separator before it, unless it is the first.
pub proof fn law_joined_grows(parts: Seq<Seq<char>>, part: Seq<char>, separator: Seq<char>)
    ensures
        joined(Seq::empty(), separator).len() == 0,
        joined(seq![part], separator) == part,
        parts.len() > 0 ==> joined(parts.push(part), separator) == joined(parts, separator)
            + separator + part,
{
    let more = parts.push(part);
    assert(more.drop_last() =~= parts);
    assert(seq![part].len() == 1);
}

/// The number of characters of all parts together.
pub open spec fn total_len(parts: Seq<Seq<char>>) -> nat
    decreases parts.len(),
{
    if parts.len() == 0 {
        0
    } else {
        total_len(parts.drop_last()) + parts.last().len()
    }
}

/// Joined parts are as long as all parts and the separators between them.
pub proof fn law_joined_len(parts: Seq<Seq<char>>, separator: Seq<char>)
    requires
        parts.len() > 0,
    ensures
        joined(parts, separator).len() == total_len(parts) + (parts.len() - 1) * separator.len(),
    decreases parts.len(),
{
    if parts.len() == 1 {
        assert(parts.drop_last() =~= Seq::empty());
        assert(total_len(parts.drop_last()) == 0);
    } else {
        law_joined_len(parts.drop_last(), separator);
        law_joined_grows(parts.drop_last(), parts.last(), separator);
        assert(parts.drop_last().push(parts.last()) =~= parts);
        assert((parts.len() - 1) * separator.len() == (parts.len() - 2) * separator.len()
            + separator.len()) by (nonlinear_arith);
    }
}

/// Each part stands in the joined text, behind the parts before it and as many separators.
pub proof fn law_joined_holds_each_part(parts: Seq<Seq<char>>, separator: Seq<char>, k: int)
    requires
        0 <= k < parts.len(),
    ensures
        ({
            let at = total_len(parts.take(k)) + k * separator.len();
            let whole = joined(parts, separator);
            &&& 0 <= at
            &&& at + parts[k].len() <= whole.len()
            &&& whole.subrange(at, at + parts[k].len()) == parts[k]
            &&& k > 0 ==> whole.subrange(at - separator.len(), at) == separator
        }),
    decreases parts.len(),
{
    let at = total_len(parts.take(k)) + k * separator.len();
    let whole = joined(parts, separator);
    let fewer = parts.drop_last();
    assert(fewer.push(parts.last()) =~= parts);
    assert(k * separator.len() >= 0) by (nonlinear_arith)
        requires
            k >= 0,
    ;
    if k < parts.len() - 1 {
        law_joined_holds_each_part(fewer, separator, k);
        law_joined_grows(fewer, parts.last(), separator);
        assert(fewer.take(k) =~= parts.take(k));
        let shorter = joined(fewer, separator);
        assert(whole == shorter + separator + parts.last());
        assert(whole.subrange(at, at + parts[k].len()) =~= shorter.subrange(
            at,
            at + parts[k].len(),
        ));
        if k > 0 {
            lemma_offset(k, separator.len());
            assert(whole.subrange(at - separator.len(), at) =~= shorter.subrange(
                at - separator.len(),
                at,
            ));
        }
    } else if k == 0 {
        assert(parts.take(0) =~= Seq::empty());
        assert(parts =~= seq![parts[0]]);
        law_joined_grows(Seq::empty(), parts[0], separator);
        assert(whole.subrange(0, parts[0].len() as int) =~= parts[0]);
    } else {
        law_joined_grows(fewer, parts.last(), separator);
        law_joined_len(fewer, separator);
        assert(parts.take(k) =~= fewer);
        lemma_offset(k, separator.len());
        let shorter = joined(fewer, separator);
        assert(at == shorter.len() + separator.len());
        assert(whole.subrange(at, at + parts[k].len()) =~= parts[k]);
        assert(whole.subrange(at - separator.len(), at) =~= separator);
    }
}

proof fn lemma_offset(k: int, n: nat)
    requires
        k > 0,
    ensures
        k * n == (k - 1) * n + n,
        (k - 1) * n >= 0,
{
    assert(k * n == (k - 1) * n + n) by (nonlinear_arith);
    assert((k - 1) * n >= 0) by (nonlinear_arith)
        requires
            k > 0,
    ;
}

/// A text that is there is taken as it is, and one that is not there is empty.
pub proof fn law_optional_texts(text: String, list: Seq<String>, k: int)
    requires
        0 <= k < list.len(),
    ensures
        text_or_empty(Some(text)) == text@,
        text_or_empty(None).len() == 0,
        optional_text(Some(text)) == Some(text@),
        optional_text(None) is None,
        texts(list).len() == list.len(),
        texts(list)[k] == list[k]@,
{
}

} // verus!
