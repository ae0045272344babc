//! Text: character classes, trimming, decimal numerals and the order of strings.

use vstd::prelude::*;

verus! {

/// `String::push` of std appends the given char to the end of the string.
pub assume_specification[ String::push ](s: &mut String, ch: char)
    ensures
        final(s)@ == old(s)@.push(ch),
;

// --- Characters ---

pub open spec fn is_digit(c: char) -> bool {
    '0' <= c <= '9'
}

/// An ASCII letter or an ASCII digit.
pub open spec fn is_alphanumeric(c: char) -> bool {
    is_digit(c) || 'a' <= c <= 'z' || 'A' <= c <= 'Z'
}

/// An ASCII upper-case letter becomes its lower-case letter; any other char stays.
pub open spec fn lower(c: char) -> char {
    if 'A' <= c <= 'Z' {
        (c as u8 + 32) as u8 as char
    } else {
        c
    }
}

/// The chars with Unicode's `White_Space` property.
pub open spec fn is_white(c: char) -> bool {
    ||| 0x09 <= c as u32 <= 0x0d
    ||| c as u32 == 0x20
    ||| c as u32 == 0x85
    ||| c as u32 == 0xa0
    ||| c as u32 == 0x1680
    ||| 0x2000 <= c as u32 <= 0x200a
    ||| c as u32 == 0x2028
    ||| c as u32 == 0x2029
    ||| c as u32 == 0x202f
    ||| c as u32 == 0x205f
    ||| c as u32 == 0x3000
}

/// No char of the text is anything but white space.
pub open spec fn is_blank(s: Seq<char>) -> bool {
    forall|i: int| 0 <= i < s.len() ==> is_white(#[trigger] s[i])
}

pub fn digit_char(c: char) -> (r: bool)
    ensures
        r == is_digit(c),
{
    '0' <= c && c <= '9'
}

pub fn alphanumeric_char(c: char) -> (r: bool)
    ensures
        r == is_alphanumeric(c),
{
    digit_char(c) || ('a' <= c && c <= 'z') || ('A' <= c && c <= 'Z')
}

pub fn lower_char(c: char) -> (r: char)
    ensures
        r == lower(c),
{
    if 'A' <= c && c <= 'Z' {
        (c as u8 + 32) as char
    } else {
        c
    }
}

pub fn white_char(c: char) -> (r: bool)
    ensures
        r == is_white(c),
{
    let n: u32 = c as u32;
    (0x09 <= n && n <= 0x0d) || n == 0x20 || n == 0x85 || n == 0xa0 || n == 0x1680 || (0x2000 <= n
        && n <= 0x200a) || n == 0x2028 || n == 0x2029 || n == 0x202f || n == 0x205f || n == 0x3000
}

// --- Strings and their chars ---

/// The chars of `s`, in order.
pub fn chars_of(s: &str) -> (r: Vec<char>)
    ensures
        r@ == s@,
{
    let mut r: Vec<char> = Vec::new();
    for c in it: s.chars()
        invariant
            it.seq() == s@,
            r@ == s@.take(it.index()),
    {
        r.push(c);
        assert(s@.take(it.index() + 1) =~= s@.take(it.index()).push(c));
    }
    assert(s@.take(s@.len() as int) =~= s@);
    r
}

/// The string of the chars of `cs` from `from` up to `to`.
pub fn string_between(cs: &Vec<char>, from: usize, to: usize) -> (r: String)
    requires
        from <= to <= cs@.len(),
    ensures
        r@ == cs@.subrange(from as int, to as int),
{
    let mut r = String::new();
    let mut i: usize = from;
    while i < to
        invariant
            from <= i <= to <= cs@.len(),
            r@ == cs@.subrange(from as int, i as int),
        decreases to - i,
    {
        r.push(cs[i]);
        i = i + 1;
        assert(cs@.subrange(from as int, i as int) =~= cs@.subrange(from as int, i - 1).push(
            cs@[i - 1],
        ));
    }
    r
}

/// Whether the two texts hold the same chars.
pub fn same_text(a: &str, b: &str) -> (r: bool)
    ensures
        r == (a@ == b@),
{
    a.to_owned() == b.to_owned()
}

// --- Trimming ---

/// The text without the white space at its two ends.
pub open spec fn trimmed(s: Seq<char>) -> Seq<char>
    decreases s.len(),
{
    if s.len() == 0 {
        s
    } else if is_white(s.first()) {
        trimmed(s.drop_first())
    } else if is_white(s.last()) {
        trimmed(s.drop_last())
    } else {
        s
    }
}

/// A text trims to nothing exactly when it is blank.
pub proof fn lemma_trimmed_empty(s: Seq<char>)
    ensures
        trimmed(s).len() == 0 <==> is_blank(s),
    decreases s.len(),
{
    if s.len() == 0 {
    } else if is_white(s.first()) {
        lemma_trimmed_empty(s.drop_first());
        if is_blank(s.drop_first()) {
            assert forall|i: int| 0 <= i < s.len() implies is_white(#[trigger] s[i]) by {
                if i > 0 {
                    assert(s.drop_first()[i - 1] == s[i]);
                }
            }
        }
    } else {
        assert(!is_white(s[0]));
        if is_white(s.last()) {
            lemma_trimmed_empty(s.drop_last());
            if s.len() > 1 {
                assert(s.drop_last()[0] == s[0]);
            }
        }
    }
}

/// A trimmed text neither begins nor ends with white space, and trimming it again
/// changes nothing.
pub proof fn lemma_trimmed_twice(s: Seq<char>)
    ensures
        trimmed(trimmed(s)) == trimmed(s),
        trimmed(s).len() > 0 ==> !is_white(trimmed(s).first()) && !is_white(trimmed(s).last()),
    decreases s.len(),
{
    if s.len() > 0 {
        if is_white(s.first()) {
            lemma_trimmed_twice(s.drop_first());
        } else if is_white(s.last()) {
            lemma_trimmed_twice(s.drop_last());
        }
    }
}

/// Whether `s` holds nothing but white space.
pub fn blank(s: &str) -> (r: bool)
    ensures
        r == is_blank(s@),
{
    let cs = chars_of(s);
    let mut i: usize = 0;
    while i < cs.len()
        invariant
            i <= cs@.len(),
            cs@ == s@,
            forall|j: int| 0 <= j < i ==> is_white(#[trigger] s@[j]),
        decreases cs@.len() - i,
    {
        if !white_char(cs[i]) {
            return false;
        }
        i = i + 1;
    }
    true
}

/// `s` without the white space at its two ends.
pub fn trim(s: &str) -> (r: String)
    ensures
        r@ == trimmed(s@),
{
    let cs = chars_of(s);
    let mut from: usize = 0;
    let mut to: usize = cs.len();
    assert(cs@.subrange(0, cs@.len() as int) =~= s@);
    while from < to && white_char(cs[from])
        invariant
            from <= to <= cs@.len(),
            trimmed(cs@.subrange(from as int, to as int)) == trimmed(s@),
        decreases to - from,
    {
        assert(cs@.subrange(from as int, to as int).drop_first() =~= cs@.subrange(
            from + 1,
            to as int,
        ));
        from = from + 1;
    }
    while from < to && white_char(cs[to - 1])
        invariant
            from <= to <= cs@.len(),
            from < to ==> !is_white(cs@[from as int]),
            trimmed(cs@.subrange(from as int, to as int)) == trimmed(s@),
        decreases to - from,
    {
        assert(cs@.subrange(from as int, to as int).drop_last() =~= cs@.subrange(
            from as int,
            to - 1,
        ));
        to = to - 1;
    }
    string_between(&cs, from, to)
}

// --- Decimal numerals ---

/// The numeral of one decimal digit.
pub open spec fn digit_numeral(d: nat) -> char {
    (48 + d) as u8 as char
}

/// The decimal numeral of `n`, without leading zeros.
pub open spec fn decimal(n: nat) -> Seq<char>
    decreases n,
{
    if n < 10 {
        seq![digit_numeral(n)]
    } else {
        decimal(n / 10).push(digit_numeral(n % 10))
    }
}

/// Whether every char of `s` is a decimal digit.
pub open spec fn all_digits(s: Seq<char>) -> bool {
    forall|i: int| 0 <= i < s.len() ==> is_digit(#[trigger] s[i])
}

/// The number that the digits of `s` write.
pub open spec fn digits_value(s: Seq<char>) -> nat
    decreases s.len(),
{
    if s.len() == 0 {
        0
    } else {
        digits_value(s.drop_last()) * 10 + (s.last() as u32 - 48) as nat
    }
}

/// A numeral with an optional plus sign, as an unsigned number of 64 bits: nothing
/// if there is no digit, if a char is no digit, or if the number does not fit.
pub open spec fn parsed_u64(s: Seq<char>) -> Option<u64> {
    let digits = if s.len() > 0 && s[0] == '+' {
        s.drop_first()
    } else {
        s
    };
    if digits.len() > 0 && all_digits(digits) && digits_value(digits) <= u64::MAX {
        Some(digits_value(digits) as u64)
    } else {
        None
    }
}

/// A numeral is made of digits, has at least one, and reads back as its number.
pub proof fn lemma_decimal(n: nat)
    ensures
        decimal(n).len() > 0,
        all_digits(decimal(n)),
        digits_value(decimal(n)) == n,
    decreases n,
{
    assert(forall|d: nat| d < 10 ==> is_digit(#[trigger] digit_numeral(d)) && digit_numeral(
        d,
    ) as u32 == 48 + d);
    if n < 10 {
        assert(decimal(n).drop_last() =~= Seq::<char>::empty());
        assert(decimal(n).last() == digit_numeral(n));
        assert(digits_value(Seq::<char>::empty()) == 0);
    } else {
        lemma_decimal(n / 10);
        assert(decimal(n).drop_last() =~= decimal(n / 10));
        assert(decimal(n).last() == digit_numeral(n % 10));
    }
}

/// Reading the numeral of a number gives the number back.
pub proof fn lemma_decimal_parses(n: u64)
    ensures
        parsed_u64(decimal(n as nat)) == Some(n),
{
    lemma_decimal(n as nat);
    assert(is_digit(decimal(n as nat)[0]));
}

proof fn lemma_digits_value_prefix(s: Seq<char>, k: int)
    requires
        0 <= k <= s.len(),
        all_digits(s),
    ensures
        digits_value(s.take(k)) <= digits_value(s),
    decreases s.len() - k,
{
    if k < s.len() {
        lemma_digits_value_prefix(s, k + 1);
        assert(s.take(k + 1).drop_last() =~= s.take(k));
        assert(is_digit(s[k]));
        assert(s.take(k + 1).last() == s[k]);
    } else {
        assert(s.take(k) =~= s);
    }
}

/// The decimal numeral of `n`.
pub fn numeral(n: u64) -> (r: String)
    ensures
        r@ == decimal(n as nat),
    decreases n,
{
    let digit: u8 = 48 + (n % 10) as u8;
    let mut r = if n < 10 {
        String::new()
    } else {
        numeral(n / 10)
    };
    r.push(digit as char);
    r
}

/// The unsigned number of 64 bits that `s` writes, if it writes one.
pub fn parse_u64(s: &str) -> (r: Option<u64>)
    ensures
        r == parsed_u64(s@),
{
    let cs = chars_of(s);
    let from: usize = if cs.len() > 0 && cs[0] == '+' {
        1
    } else {
        0
    };
    let ghost digits = s@.skip(from as int);
    assert(from == 0 ==> digits =~= s@);
    assert(from == 1 ==> digits =~= s@.drop_first());
    if from == cs.len() {
        return None;
    }
    let mut value: u64 = 0;
    let mut i: usize = from;
    while i < cs.len()
        invariant
            from <= i <= cs@.len(),
            from < cs@.len(),
            cs@ == s@,
            digits == s@.skip(from as int),
            parsed_u64(s@) == if all_digits(digits) && digits_value(digits) <= u64::MAX {
                Some(digits_value(digits) as u64)
            } else {
                None::<u64>
            },
            forall|j: int| 0 <= j < i - from ==> is_digit(#[trigger] digits[j]),
            value == digits_value(digits.take(i - from)),
        decreases cs@.len() - i,
    {
        let c = cs[i];
        assert(digits[i - from] == c);
        if !digit_char(c) {
            return None;
        }
        let d: u64 = (c as u32 - 48) as u64;
        assert(digits.take(i - from + 1).drop_last() =~= digits.take(i - from));
        assert(digits_value(digits.take(i - from + 1)) == value * 10 + d);
        if value > (u64::MAX - d) / 10 {
            proof {
                if all_digits(digits) {
                    lemma_digits_value_prefix(digits, i - from + 1);
                }
            }
            return None;
        }
        value = value * 10 + d;
        i = i + 1;
    }
    assert(digits.take(cs@.len() - from) =~= digits);
    Some(value)
}

// --- The order of strings ---

/// `a` comes before `b`, or is `b`, in the order that compares char by char.
pub open spec fn text_le(a: Seq<char>, b: Seq<char>) -> bool
    decreases a.len(),
{
    if a.len() == 0 {
        true
    } else if b.len() == 0 {
        false
    } else if a[0] == b[0] {
        text_le(a.drop_first(), b.drop_first())
    } else {
        a[0] < b[0]
    }
}

pub proof fn lemma_text_le_total(a: Seq<char>, b: Seq<char>)
    ensures
        text_le(a, b) || text_le(b, a),
        text_le(a, b) && text_le(b, a) <==> a == b,
    decreases a.len(),
{
    if a.len() > 0 && b.len() > 0 {
        lemma_text_le_total(a.drop_first(), b.drop_first());
        if a[0] == b[0] {
            if a.drop_first() == b.drop_first() {
                assert(a =~= seq![a[0]] + a.drop_first());
                assert(b =~= seq![b[0]] + b.drop_first());
            }
        }
    } else if a.len() == 0 && b.len() == 0 {
        assert(a =~= b);
    }
}

pub proof fn lemma_text_le_transitive(a: Seq<char>, b: Seq<char>, c: Seq<char>)
    requires
        text_le(a, b),
        text_le(b, c),
    ensures
        text_le(a, c),
    decreases a.len(),
{
    if a.len() > 0 && b.len() > 0 && c.len() > 0 && a[0] == b[0] && b[0] == c[0] {
        lemma_text_le_transitive(a.drop_first(), b.drop_first(), c.drop_first());
    }
}

/// Whether `a` comes before `b`, or is `b`, in the order of strings.
pub fn text_at_most(a: &str, b: &str) -> (r: bool)
    ensures
        r == text_le(a@, b@),
{
    let xs = chars_of(a);
    let ys = chars_of(b);
    let mut i: usize = 0;
    assert(a@.skip(0) =~= a@);
    assert(b@.skip(0) =~= b@);
    while i < xs.len() && i < ys.len()
        invariant
            i <= xs@.len(),
            i <= ys@.len(),
            xs@ == a@,
            ys@ == b@,
            text_le(a@, b@) == text_le(a@.skip(i as int), b@.skip(i as int)),
        decreases xs@.len() - i,
    {
        if xs[i] != ys[i] {
            return xs[i] < ys[i];
        }
        assert(a@.skip(i as int).drop_first() =~= a@.skip(i + 1));
        assert(b@.skip(i as int).drop_first() =~= b@.skip(i + 1));
        i = i + 1;
    }
    i == xs.len()
}

// --- Prefixes and suffixes ---

/// What follows `prefix` in `s`, if `s` begins with it.
pub open spec fn after_prefix(s: Seq<char>, prefix: Seq<char>) -> Option<Seq<char>> {
    if prefix.is_prefix_of(s) {
        Some(s.skip(prefix.len() as int))
    } else {
        None
    }
}

/// What follows `prefix` in `s`, if `s` begins with it.
pub fn strip_prefix(s: &str, prefix: &str) -> (r: Option<String>)
    ensures
        r.deep_view() == after_prefix(s@, prefix@),
{
    let cs = chars_of(s);
    let ps = chars_of(prefix);
    if ps.len() > cs.len() {
        return None;
    }
    let mut i: usize = 0;
    while i < ps.len()
        invariant
            i <= ps@.len() <= cs@.len(),
            cs@ == s@,
            ps@ == prefix@,
            forall|j: int| 0 <= j < i ==> s@[j] == prefix@[j],
        decreases ps@.len() - i,
    {
        if cs[i] != ps[i] {
            assert(s@.subrange(0, prefix@.len() as int)[i as int] == s@[i as int]);
            return None;
        }
        i = i + 1;
    }
    assert(prefix@ =~= s@.subrange(0, prefix@.len() as int));
    assert(s@.skip(prefix@.len() as int) =~= s@.subrange(prefix@.len() as int, s@.len() as int));
    Some(string_between(&cs, ps.len(), cs.len()))
}

/// What stands before `suffix` in `s`, if `s` ends with it.
pub open spec fn before_suffix(s: Seq<char>, suffix: Seq<char>) -> Option<Seq<char>> {
    if suffix.is_suffix_of(s) {
        Some(s.take(s.len() - suffix.len()))
    } else {
        None
    }
}

/// What stands before `suffix` in `s`, if `s` ends with it.
pub fn strip_suffix(s: &str, suffix: &str) -> (r: Option<String>)
    ensures
        r.deep_view() == before_suffix(s@, suffix@),
{
    let cs = chars_of(s);
    let ss = chars_of(suffix);
    if ss.len() > cs.len() {
        return None;
    }
    let len: usize = cs.len();
    let from: usize = len - ss.len();
    let mut i: usize = 0;
    while i < ss.len()
        invariant
            i <= ss@.len() <= cs@.len(),
            len == cs@.len(),
            from == len - ss@.len(),
            cs@ == s@,
            ss@ == suffix@,
            forall|j: int| 0 <= j < i ==> s@[from + j] == suffix@[j],
        decreases ss@.len() - i,
    {
        if cs[from + i] != ss[i] {
            assert(s@.subrange(from as int, s@.len() as int)[i as int] == s@[from + i]);
            return None;
        }
        i = i + 1;
    }
    assert(suffix@ =~= s@.subrange(from as int, s@.len() as int));
    assert(s@.take(from as int) =~= s@.subrange(0, from as int));
    Some(string_between(&cs, 0, from))
}

// --- Laws of characters ---

/// The white space: tab to carriage return, space, next line, no-break space, and the
/// spaces and separators of other scripts.
pub proof fn lemma_white_char(c: char, r: bool)
    requires
        call_ensures(white_char, (c,), r),
    ensures
        r <==> (9 <= c as u32 <= 13 || c == ' ' || c as u32 == 133 || c as u32 == 160 || c as u32
            == 5760 || 8192 <= c as u32 <= 8202 || c as u32 == 8232 || c as u32 == 8233 || c as u32
            == 8239 || c as u32 == 8287 || c as u32 == 12288),
        r == is_white(c),
{
}

/// Letters and digits are those of ASCII; a capital is lowered by the distance between
/// the two alphabets, and nothing else changes.
pub proof fn lemma_letters(c: char, letter: bool, digit: bool, low: char)
    requires
        call_ensures(alphanumeric_char, (c,), letter),
        call_ensures(digit_char, (c,), digit),
        call_ensures(lower_char, (c,), low),
    ensures
        digit <==> 48 <= c as u32 <= 57,
        letter <==> digit || 97 <= c as u32 <= 122 || 65 <= c as u32 <= 90,
        65 <= c as u32 <= 90 ==> low as u32 == c as u32 + 32,
        !(65 <= c as u32 <= 90) ==> low == c,
{
}

// --- Laws of prefixes, suffixes and order ---

/// What is left behind a prefix gives the text back with the prefix in front.
pub proof fn lemma_after_prefix(s: Seq<char>, prefix: Seq<char>)
    ensures
        after_prefix(s, prefix) matches Some(rest) ==> s == prefix + rest,
{
    if after_prefix(s, prefix) is Some {
        assert(s =~= prefix + after_prefix(s, prefix)->0);
    }
}

/// A text with a prefix put in front has the text behind that prefix.
pub proof fn lemma_after_prefix_of(prefix: Seq<char>, rest: Seq<char>)
    ensures
        after_prefix(prefix + rest, prefix) == Some(rest),
{
    assert((prefix + rest).take(prefix.len() as int) =~= prefix);
    assert((prefix + rest).skip(prefix.len() as int) =~= rest);
}

/// What is left before a suffix gives the text back with the suffix behind it.
pub proof fn lemma_before_suffix(s: Seq<char>, suffix: Seq<char>)
    ensures
        before_suffix(s, suffix) matches Some(rest) ==> s == rest + suffix,
{
    if before_suffix(s, suffix) is Some {
        assert(s =~= before_suffix(s, suffix)->0 + suffix);
    }
}

/// A text with a suffix put behind it has the text before that suffix.
pub proof fn lemma_before_suffix_of(rest: Seq<char>, suffix: Seq<char>)
    ensures
        before_suffix(rest + suffix, suffix) == Some(rest),
{
    let all = rest + suffix;
    assert(all.take(rest.len() as int) =~= rest);
    assert(all.skip(rest.len() as int) =~= suffix);
}

/// Of two texts that part after the same beginning, the one that goes on with the
/// smaller char comes first; one that ends there comes before one that goes on.
pub proof fn lemma_text_le_decides(
    same: Seq<char>,
    a: char,
    b: char,
    s: Seq<char>,
    t: Seq<char>,
)
    ensures
        text_le(same, same + t),
        a < b ==> text_le(same.push(a) + s, same.push(b) + t),
        a < b ==> !text_le(same.push(b) + t, same.push(a) + s),
        !text_le(same.push(a) + s, same),
    decreases same.len(),
{
    let x = same.push(a) + s;
    let y = same.push(b) + t;
    if same.len() > 0 {
        let rest = same.drop_first();
        lemma_text_le_decides(rest, a, b, s, t);
        assert(x.drop_first() =~= rest.push(a) + s);
        assert(y.drop_first() =~= rest.push(b) + t);
        assert((same + t).drop_first() =~= rest + t);
    } else {
        assert(x[0] == a && y[0] == b);
    }
}

// --- Laws of trimming and of numbers ---

/// What is left of a text once it is trimmed, by the places where it is cut.
pub proof fn lemma_trimmed_range(s: Seq<char>) -> (range: (int, int))
    ensures
        0 <= range.0 <= range.1 <= s.len(),
        trimmed(s) == s.subrange(range.0, range.1),
        forall|i: int| 0 <= i < range.0 ==> is_white(#[trigger] s[i]),
        forall|i: int| range.1 <= i < s.len() ==> is_white(#[trigger] s[i]),
        range.0 < range.1 ==> !is_white(s[range.0]) && !is_white(s[range.1 - 1]),
    decreases s.len(),
{
    if s.len() == 0 {
        assert(s.subrange(0, 0) =~= s);
        (0, 0)
    } else if is_white(s.first()) {
        let rest = s.drop_first();
        let inner = lemma_trimmed_range(rest);
        let range = (inner.0 + 1, inner.1 + 1);
        assert(rest.subrange(inner.0, inner.1) =~= s.subrange(range.0, range.1));
        assert forall|i: int| 0 <= i < range.0 implies is_white(#[trigger] s[i]) by {
            if i > 0 {
                assert(rest[i - 1] == s[i]);
            }
        }
        assert forall|i: int| range.1 <= i < s.len() implies is_white(#[trigger] s[i]) by {
            assert(rest[i - 1] == s[i]);
        }
        range
    } else if is_white(s.last()) {
        let rest = s.drop_last();
        let range = lemma_trimmed_range(rest);
        assert(rest.subrange(range.0, range.1) =~= s.subrange(range.0, range.1));
        assert forall|i: int| 0 <= i < range.0 implies is_white(#[trigger] s[i]) by {
            assert(rest[i] == s[i]);
        }
        assert forall|i: int| range.1 <= i < s.len() implies is_white(#[trigger] s[i]) by {
            if i < rest.len() {
                assert(rest[i] == s[i]);
            }
        }
        range
    } else {
        assert(s.subrange(0, s.len() as int) =~= s);
        (0, s.len() as int)
    }
}

/// Trimming cuts a text at two places: all before the first and from the second on is
/// white space, and what is left neither begins nor ends with any.
pub proof fn lemma_trim(s: &str, r: String) -> (range: (int, int))
    requires
        call_ensures(trim, (s,), r),
    ensures
        0 <= range.0 <= range.1 <= s@.len(),
        r@ == s@.subrange(range.0, range.1),
        forall|i: int| 0 <= i < range.0 ==> is_white(#[trigger] s@[i]),
        forall|i: int| range.1 <= i < s@.len() ==> is_white(#[trigger] s@[i]),
        range.0 < range.1 ==> !is_white(s@[range.0]) && !is_white(s@[range.1 - 1]),
{
    lemma_trimmed_range(s@)
}

/// A text is blank if and only if none of its chars is anything but white space.
pub proof fn lemma_blank(s: &str, r: bool)
    requires
        call_ensures(blank, (s,), r),
    ensures
        !r <==> exists|i: int| 0 <= i < s@.len() && !is_white(#[trigger] s@[i]),
{
}

/// Each further digit makes a number ten times as large and adds itself; nothing but a
/// digit can follow, and a number that does not fit is none, however it goes on. A plus
/// sign may stand first.
pub proof fn lemma_parse_goes_on(s: Seq<char>, c: char)
    ensures
        parsed_u64(Seq::empty()) is None,
        parsed_u64(seq!['+']) is None,
        (s.len() == 0 || s == seq!['+']) && '0' <= c <= '9' ==> parsed_u64(s.push(c)) == Some(
            (c as u32 - 48) as u64,
        ),
        '0' <= c <= '9' ==> (parsed_u64(s) matches Some(n) ==> parsed_u64(s.push(c)) == (if 10 * n
            + (c as u32 - 48) <= u64::MAX {
            Some((10 * n + (c as u32 - 48)) as u64)
        } else {
            None
        })),
        parsed_u64(s.push(c)) is Some ==> '0' <= c <= '9' && (s.len() == 0 || s == seq!['+']
            || parsed_u64(s) is Some),
{
    let t = s.push(c);
    let digits = if s.len() > 0 && s[0] == '+' {
        s.drop_first()
    } else {
        s
    };
    assert(seq!['+'].drop_first() =~= Seq::<char>::empty());
    assert(t.last() == c);
    if s.len() == 0 {
        assert(t =~= seq![c]);
        assert(t.drop_first() =~= Seq::<char>::empty());
        assert(t.drop_last() =~= Seq::<char>::empty());
        assert(digits_value(Seq::<char>::empty()) == 0);
        assert(t[0] == c);
    } else {
        let after = digits.push(c);
        assert(t[0] == s[0]);
        if s[0] == '+' {
            assert(t.drop_first() =~= after);
        }
        assert(after.drop_last() =~= digits);
        assert(after[digits.len() as int] == c);
        assert(digits_value(after) == digits_value(digits) * 10 + (c as u32 - 48) as nat);
        if digits.len() == 0 {
            assert(s =~= seq!['+']);
            assert(digits_value(digits) == 0);
        }
        if all_digits(after) {
            assert forall|i: int| 0 <= i < digits.len() implies is_digit(#[trigger] digits[i]) by {
                assert(after[i] == digits[i]);
            }
            assert(is_digit(after[digits.len() as int]));
        }
        if all_digits(digits) && is_digit(c) {
            assert forall|i: int| 0 <= i < after.len() implies is_digit(#[trigger] after[i]) by {
                if i < digits.len() {
                    assert(after[i] == digits[i]);
                }
            }
        }
    }
}

/// A numeral has no sign and no leading zero.
pub proof fn lemma_decimal_is_short(n: nat)
    ensures
        forall|i: int| 0 <= i < decimal(n).len() ==> '0' <= #[trigger] decimal(n)[i] <= '9',
        n > 0 ==> decimal(n)[0] != '0',
        decimal(0) == seq!['0'],
    decreases n,
{
    lemma_decimal(n);
    assert forall|i: int| 0 <= i < decimal(n).len() implies '0' <= #[trigger] decimal(n)[i]
        <= '9' by {
        assert(is_digit(decimal(n)[i]));
    }
    if n >= 10 {
        lemma_decimal_is_short(n / 10);
        lemma_decimal(n / 10);
        assert(decimal(n)[0] == decimal(n / 10)[0]);
    }
    assert(decimal(0) =~= seq!['0']);
}

/// A number below ten is written as its digit; any other as a tenth of it, followed by
/// the digit that is left over.
pub proof fn lemma_numeral_goes_on(n: u64, written: String, tenth: String)
    requires
        call_ensures(numeral, (n,), written),
        call_ensures(numeral, ((n / 10) as u64,), tenth),
    ensures
        n < 10 ==> written@.len() == 1 && written@[0] as u32 == 48 + n,
        n >= 10 ==> written@.len() == tenth@.len() + 1 && written@.drop_last() == tenth@
            && written@.last() as u32 == 48 + n % 10,
{
    assert(forall|d: nat| d < 10 ==> (#[trigger] digit_numeral(d)) as u32 == 48 + d);
    if n >= 10 {
        assert(decimal(n as nat).drop_last() =~= decimal((n / 10) as nat));
        assert(decimal(n as nat).last() == digit_numeral((n % 10) as nat));
    }
}

/// What is written of a number reads back as the number.
pub proof fn lemma_numeral_reads_back(n: u64, written: String, text: &str, read: Option<u64>)
    requires
        call_ensures(numeral, (n,), written),
        call_ensures(parse_u64, (text,), read),
        text@ == written@,
    ensures
        read == Some(n),
{
    lemma_decimal_parses(n);
}

/// How the number that a text reads as goes on with one more char.
pub proof fn lemma_parse_u64(
    text: &str,
    longer: &str,
    c: char,
    read: Option<u64>,
    longer_read: Option<u64>,
)
    requires
        call_ensures(parse_u64, (text,), read),
        call_ensures(parse_u64, (longer,), longer_read),
        longer@ == text@.push(c),
    ensures
        text@.len() == 0 || text@ == seq!['+'] ==> read is None && longer_read == (if '0' <= c
            <= '9' {
            Some((c as u32 - 48) as u64)
        } else {
            None
        }),
        read matches Some(n) ==> longer_read == (if '0' <= c <= '9' && 10 * n + (c as u32 - 48)
            <= u64::MAX {
            Some((10 * n + (c as u32 - 48)) as u64)
        } else {
            None
        }),
        text@.len() > 0 && text@ != seq!['+'] && read is None ==> longer_read is None,
{
    lemma_parse_goes_on(text@, c);
    if text@.len() == 0 {
        assert(text@ =~= Seq::<char>::empty());
    }
}

/// A prefix or a suffix is cut off exactly where the text has it, and what is left makes
/// the text up again.
pub proof fn lemma_strip(
    s: &str,
    part: &str,
    behind: Option<String>,
    before: Option<String>,
)
    requires
        call_ensures(strip_prefix, (s, part), behind),
        call_ensures(strip_suffix, (s, part), before),
    ensures
        behind matches Some(rest) ==> s@ == part@ + rest@,
        before matches Some(rest) ==> s@ == rest@ + part@,
        behind is None ==> forall|rest: Seq<char>| s@ != #[trigger] (part@ + rest),
        before is None ==> forall|rest: Seq<char>| s@ != #[trigger] (rest + part@),
{
    lemma_after_prefix(s@, part@);
    lemma_before_suffix(s@, part@);
    assert forall|rest: Seq<char>| behind is None implies s@ != #[trigger] (part@ + rest) by {
        lemma_after_prefix_of(part@, rest);
    }
    assert forall|rest: Seq<char>| before is None implies s@ != #[trigger] (rest + part@) by {
        lemma_before_suffix_of(rest, part@);
    }
}

/// Texts are the same where they are as long and no place tells them apart.
pub proof fn lemma_same_text(a: &str, b: &str, same: bool)
    requires
        call_ensures(same_text, (a, b), same),
    ensures
        same <==> a@.len() == b@.len() && forall|i: int|
            0 <= i < a@.len() ==> #[trigger] a@[i] == b@[i],
{
    if a@.len() == b@.len() && (forall|i: int| 0 <= i < a@.len() ==> #[trigger] a@[i] == b@[i]) {
        assert(a@ =~= b@);
    }
}

/// The chars of a text, and a text of some of them.
pub proof fn lemma_chars(s: &str, cs: Vec<char>, of: &Vec<char>, from: usize, to: usize, r: String)
    requires
        call_ensures(chars_of, (s,), cs),
        call_ensures(string_between, (of, from, to), r),
        from <= to <= of@.len(),
    ensures
        cs@ == s@,
        r@.len() == to - from,
        forall|i: int| 0 <= i < r@.len() ==> #[trigger] r@[i] == of@[from + i],
{
}

/// `k` is where two texts part: they are the same up to there, and there the first ends
/// or has the smaller char.
pub open spec fn parts_at(a: Seq<char>, b: Seq<char>, k: int) -> bool {
    &&& 0 <= k <= a.len()
    &&& k <= b.len()
    &&& forall|i: int| 0 <= i < k ==> #[trigger] a[i] == b[i]
    &&& k == a.len() || (k < b.len() && a[k] < b[k])
}

proof fn lemma_text_le_parts(a: Seq<char>, b: Seq<char>)
    ensures
        text_le(a, b) <==> exists|k: int| #[trigger] parts_at(a, b, k),
    decreases a.len(),
{
    if a.len() == 0 {
        assert(parts_at(a, b, 0));
    } else if b.len() > 0 {
        let x = a.drop_first();
        let y = b.drop_first();
        lemma_text_le_parts(x, y);
        if a[0] < b[0] {
            assert(parts_at(a, b, 0));
        } else if a[0] == b[0] {
            if text_le(a, b) {
                let k = choose|k: int| #[trigger] parts_at(x, y, k);
                assert forall|i: int| 0 <= i < k + 1 implies #[trigger] a[i] == b[i] by {
                    if i > 0 {
                        assert(x[i - 1] == y[i - 1]);
                    }
                }
                assert(k < x.len() ==> x[k] == a[k + 1]);
                assert(k < y.len() ==> y[k] == b[k + 1]);
                assert(parts_at(a, b, k + 1));
            }
            if exists|k: int| #[trigger] parts_at(a, b, k) {
                let k = choose|k: int| #[trigger] parts_at(a, b, k);
                assert(k > 0);
                assert forall|i: int| 0 <= i < k - 1 implies #[trigger] x[i] == y[i] by {
                    assert(a[i + 1] == b[i + 1]);
                }
                assert(parts_at(x, y, k - 1));
            }
        } else if exists|k: int| #[trigger] parts_at(a, b, k) {
            let k = choose|k: int| #[trigger] parts_at(a, b, k);
            assert(k > 0 ==> a[0] == b[0]);
        }
    }
}

/// Texts are ordered by the first place at which they part.
pub proof fn lemma_text_at_most(a: &str, b: &str, r: bool)
    requires
        call_ensures(text_at_most, (a, b), r),
    ensures
        r <==> exists|k: int| #[trigger] parts_at(a@, b@, k),
{
    lemma_text_le_parts(a@, b@);
}

}
