//! Text as sequences of characters: the searches, cuts and number formats
//! that the rest of the library states its contracts over.

use vstd::prelude::*;
use vstd::string::*;

verus! {

/// `str == str`: two texts are equal when they hold the same characters.
pub assume_specification[ <str as PartialEq<str>>::eq ](a: &str, b: &str) -> (equal: bool)
    ensures
        equal == (a@ == b@),
;

/// `String::push`: appends one character.
pub assume_specification[ String::push ](s: &mut String, c: char)
    ensures
        final(s)@ == old(s)@.push(c),
;

/// What std's `{:?}` writes for a text: the text in quotation marks, with
/// escapes.
pub uninterp spec fn quoted_text(s: Seq<char>) -> Seq<char>;

/// `format!` with `{:?}` on a text.
#[verifier::external_body]
pub(crate) fn quoted(s: &str) -> (r: String)
    ensures
        r@ == quoted_text(s@),
{
    format!("{:?}", s)
}

/// The characters of each of a list of texts.
pub open spec fn texts(list: Seq<String>) -> Seq<Seq<char>> {
    list.map_values(|t: String| t@)
}

/// The characters of a text that may be absent.
pub open spec fn opt_text(t: Option<String>) -> Option<Seq<char>> {
    match t {
        Some(s) => Some(s@),
        None => None,
    }
}

/// Whether two texts are the same.
pub fn same(a: &str, b: &str) -> (r: bool)
    ensures
        r == (a@ == b@),
{
    *a == *b
}

/// A copy of a list of texts.
pub fn clone_texts(list: &Vec<String>) -> (r: Vec<String>)
    ensures
        r@ == list@,
{
    let mut r: Vec<String> = Vec::new();
    for i in 0..list.len()
        invariant
            r@ == list@.take(i as int),
    {
        r.push(list[i].clone());
        assert(list@.take(i + 1) =~= list@.take(i as int).push(list@[i as int]));
    }
    assert(list@.take(list@.len() as int) =~= list@);
    r
}

/// A copy of a text that may be absent.
pub fn clone_opt(t: &Option<String>) -> (r: Option<String>)
    ensures
        r == *t,
{
    match t {
        Some(s) => Some(s.clone()),
        None => None,
    }
}

/// Two texts, one after the other.
pub fn join2(a: &str, b: &str) -> (r: String)
    ensures
        r@ == a@ + b@,
{
    let mut r = a.to_owned();
    r.append(b);
    r
}

/// Three texts, one after the other.
pub fn join3(a: &str, b: &str, c: &str) -> (r: String)
    ensures
        r@ == a@ + b@ + c@,
{
    let mut r = a.to_owned();
    r.append(b);
    r.append(c);
    r
}

/// Some texts with a separator between each two.
pub open spec fn joined(list: Seq<Seq<char>>, sep: Seq<char>) -> Seq<char>
    decreases list.len(),
{
    if list.len() == 0 {
        Seq::empty()
    } else if list.len() == 1 {
        list[0]
    } else {
        joined(list.drop_last(), sep) + sep + list.last()
    }
}

/// Joins texts, with a separator between each two.
pub fn join(list: &Vec<String>, sep: &str) -> (r: String)
    ensures
        r@ == joined(texts(list@), sep@),
{
    let mut r = String::new();
    for i in 0..list.len()
        invariant
            r@ == joined(texts(list@.take(i as int)), sep@),
    {
        if i > 0 {
            r.append(sep);
        }
        r.append(&list[i]);
        proof {
            let shown = texts(list@.take(i + 1));
            assert(shown.drop_last() =~= texts(list@.take(i as int)));
            assert(shown.last() == list@[i as int]@);
            assert(i == 0 ==> r@ =~= list@[0]@);
        }
    }
    assert(list@.take(list@.len() as int) =~= list@);
    r
}

/// The characters of a text, as a vector.
pub fn chars_of(s: &str) -> (v: Vec<char>)
    ensures
        v@ == s@,
{
    let mut v: Vec<char> = Vec::new();
    for c in it: s.chars()
        invariant
            v@ == s@.take(it.index() as int),
            it.seq() == s@,
    {
        v.push(c);
        assert(s@.take(it.index() as int).push(c) =~= s@.take(it.index() + 1));
    }
    assert(s@.take(s@.len() as int) =~= s@);
    v
}

/// Whether a text begins with another.
pub fn starts_with(s: &str, prefix: &str) -> (r: bool)
    ensures
        r == prefix@.is_prefix_of(s@),
{
    let n = prefix.unicode_len();
    if n > s.unicode_len() {
        return false;
    }
    let head = s.substring_char(0, n);
    assert(head@ =~= s@.take(n as int));
    same(head, prefix)
}

/// Whether a text ends with another.
pub fn ends_with(s: &str, suffix: &str) -> (r: bool)
    ensures
        r == suffix@.is_suffix_of(s@),
{
    let n = suffix.unicode_len();
    let len = s.unicode_len();
    if n > len {
        return false;
    }
    let tail = s.substring_char(len - n, len);
    assert(tail@ =~= s@.skip(len - n));
    same(tail, suffix)
}

/// What follows a prefix, if the text has that prefix.
pub open spec fn after_prefix(s: Seq<char>, prefix: Seq<char>) -> Option<Seq<char>> {
    if prefix.is_prefix_of(s) {
        Some(s.skip(prefix.len() as int))
    } else {
        None
    }
}

/// Cuts a prefix off, if the text has it.
pub fn strip_prefix<'a>(s: &'a str, prefix: &str) -> (r: Option<&'a str>)
    ensures
        match r {
            Some(t) => after_prefix(s@, prefix@) == Some(t@),
            None => after_prefix(s@, prefix@) is None,
        },
{
    if starts_with(s, prefix) {
        let n = prefix.unicode_len();
        let len = s.unicode_len();
        let t = s.substring_char(n, len);
        assert(t@ =~= s@.skip(n as int));
        Some(t)
    } else {
        None
    }
}

/// Whether a text occurs inside another.
pub open spec fn occurs_in(needle: Seq<char>, s: Seq<char>) -> bool {
    exists|i: int|
        0 <= i <= s.len() - needle.len() && #[trigger] s.subrange(i, i + needle.len()) == needle
}

/// Whether a text occurs inside another.
pub fn contains(s: &str, needle: &str) -> (r: bool)
    ensures
        r == occurs_in(needle@, s@),
{
    let n = needle.unicode_len();
    let len = s.unicode_len();
    if n > len {
        return false;
    }
    let mut i: usize = 0;
    while i <= len - n
        invariant
            n == needle@.len(),
            len == s@.len(),
            n <= len,
            i <= len - n + 1,
            forall|j: int|
                0 <= j < i ==> #[trigger] s@.subrange(j, j + needle@.len()) != needle@,
        decreases len - n + 1 - i,
    {
        let part = s.substring_char(i, i + n);
        if same(part, needle) {
            assert(s@.subrange(i as int, i + needle@.len()) == needle@);
            return true;
        }
        if i == len - n {
            return false;
        }
        i = i + 1;
    }
    false
}

/// The part of a text before the first character that is `a` or `b`: all of
/// it, if there is none.
pub open spec fn until_either(s: Seq<char>, a: char, b: char) -> Seq<char>
    decreases s.len(),
{
    if s.len() == 0 || s[0] == a || s[0] == b {
        Seq::empty()
    } else {
        seq![s[0]] + until_either(s.drop_first(), a, b)
    }
}

proof fn lemma_until_either(s: Seq<char>, a: char, b: char, n: int)
    requires
        0 <= n <= s.len(),
        forall|i: int| 0 <= i < n ==> s[i] != a && s[i] != b,
        n < s.len() ==> s[n] == a || s[n] == b,
    ensures
        until_either(s, a, b) == s.take(n),
    decreases n,
{
    if n > 0 {
        assert forall|i: int| 0 <= i < n - 1 implies s.drop_first()[i] != a && s.drop_first()[i]
            != b by {
            assert(s.drop_first()[i] == s[i + 1]);
        }
        lemma_until_either(s.drop_first(), a, b, n - 1);
        assert(s.take(n) =~= seq![s[0]] + s.drop_first().take(n - 1));
    } else {
        assert(s.take(0) =~= Seq::empty());
    }
}

/// The part of a text before the first character that is `a` or `b`.
pub fn cut_at_either<'a>(s: &'a str, a: char, b: char) -> (r: &'a str)
    ensures
        r@ == until_either(s@, a, b),
{
    let cs = chars_of(s);
    let mut n: usize = 0;
    while n < cs.len() && cs[n] != a && cs[n] != b
        invariant
            cs@ == s@,
            n <= cs@.len(),
            forall|i: int| 0 <= i < n ==> s@[i] != a && s@[i] != b,
        decreases cs@.len() - n,
    {
        n = n + 1;
    }
    proof {
        lemma_until_either(s@, a, b, n as int);
    }
    s.substring_char(0, n)
}

/// Whether a text holds a character.
pub fn has_char(s: &str, c: char) -> (r: bool)
    ensures
        r == s@.contains(c),
{
    let cs = chars_of(s);
    for i in 0..cs.len()
        invariant
            cs@ == s@,
            forall|j: int| 0 <= j < i ==> s@[j] != c,
    {
        if cs[i] == c {
            assert(s@[i as int] == c);
            return true;
        }
    }
    false
}

/// The pieces of a text between the occurrences of a separator: one more
/// piece than there are separators.
pub open spec fn pieces(s: Seq<char>, sep: char) -> Seq<Seq<char>>
    decreases s.len(),
{
    let head = until_either(s, sep, sep);
    if head.len() >= s.len() {
        seq![s]
    } else {
        seq![head] + pieces(s.skip(head.len() as int + 1), sep)
    }
}

/// Splits a text at each occurrence of a separator.
pub fn split_at_each(s: &str, sep: char) -> (r: Vec<String>)
    ensures
        texts(r@) == pieces(s@, sep),
{
    let len = s.unicode_len();
    let mut r: Vec<String> = Vec::new();
    let mut from: usize = 0;
    assert(s@.skip(0) =~= s@);
    assert(texts(r@) + pieces(s@, sep) =~= pieces(s@, sep));
    loop
        invariant
            len == s@.len(),
            from <= len,
            texts(r@) + pieces(s@.skip(from as int), sep) == pieces(s@, sep),
        decreases len - from,
    {
        let rest = s.substring_char(from, len);
        assert(rest@ =~= s@.skip(from as int));
        let head = cut_at_either(rest, sep, sep);
        let n = head.unicode_len();
        let ghost before = texts(r@);
        if n >= len - from {
            r.push(rest.to_owned());
            assert(texts(r@) =~= before.push(rest@));
            assert(pieces(rest@, sep) == seq![rest@]);
            assert(before + seq![rest@] =~= before.push(rest@));
            return r;
        }
        r.push(head.to_owned());
        proof {
            assert(texts(r@) =~= before.push(head@));
            assert(rest@.skip(n as int + 1) =~= s@.skip(from + n + 1));
            let more = pieces(s@.skip(from + n + 1), sep);
            assert(before + (seq![head@] + more) =~= before.push(head@) + more);
        }
        from = from + n + 1;
    }
}

/// A character that Unicode counts as white space.
pub open spec fn is_white_space(c: char) -> bool {
    ||| '\u{9}' <= c <= '\u{d}'
    ||| c == ' '
    ||| c == '\u{85}'
    ||| c == '\u{a0}'
    ||| c == '\u{1680}'
    ||| '\u{2000}' <= c <= '\u{200a}'
    ||| c == '\u{2028}'
    ||| c == '\u{2029}'
    ||| c == '\u{202f}'
    ||| c == '\u{205f}'
    ||| c == '\u{3000}'
}

fn white_space(c: char) -> (r: bool)
    ensures
        r == is_white_space(c),
{
    ('\u{9}' <= c && c <= '\u{d}') || c == ' ' || c == '\u{85}' || c == '\u{a0}' || c == '\u{1680}'
        || ('\u{2000}' <= c && c <= '\u{200a}') || c == '\u{2028}' || c == '\u{2029}' || c
        == '\u{202f}' || c == '\u{205f}' || c == '\u{3000}'
}

/// A text without the white space at its start.
pub open spec fn trimmed_start(s: Seq<char>) -> Seq<char>
    decreases s.len(),
{
    if s.len() > 0 && is_white_space(s[0]) {
        trimmed_start(s.drop_first())
    } else {
        s
    }
}

/// A text without the white space at its end.
pub open spec fn trimmed_end(s: Seq<char>) -> Seq<char>
    decreases s.len(),
{
    if s.len() > 0 && is_white_space(s.last()) {
        trimmed_end(s.drop_last())
    } else {
        s
    }
}

/// A text without the white space around it.
pub open spec fn trimmed(s: Seq<char>) -> Seq<char> {
    trimmed_end(trimmed_start(s))
}

proof fn lemma_trimmed_start(s: Seq<char>, n: int)
    requires
        0 <= n <= s.len(),
        forall|i: int| 0 <= i < n ==> is_white_space(s[i]),
        n < s.len() ==> !is_white_space(s[n]),
    ensures
        trimmed_start(s) == s.skip(n),
    decreases n,
{
    if n > 0 {
        assert forall|i: int| 0 <= i < n - 1 implies is_white_space(s.drop_first()[i]) by {
            assert(s.drop_first()[i] == s[i + 1]);
        }
        lemma_trimmed_start(s.drop_first(), n - 1);
        assert(s.drop_first().skip(n - 1) =~= s.skip(n));
    } else {
        assert(s.skip(0) =~= s);
    }
}

proof fn lemma_trimmed_end(s: Seq<char>, n: int)
    requires
        0 <= n <= s.len(),
        forall|i: int| n <= i < s.len() ==> is_white_space(s[i]),
        n > 0 ==> !is_white_space(s[n - 1]),
    ensures
        trimmed_end(s) == s.take(n),
    decreases s.len() - n,
{
    if n < s.len() {
        lemma_trimmed_end(s.drop_last(), n);
        assert(s.drop_last().take(n) =~= s.take(n));
    } else {
        assert(s.take(n) =~= s);
    }
}

/// Cuts the white space off both ends.
pub fn trim<'a>(s: &'a str) -> (r: &'a str)
    ensures
        r@ == trimmed(s@),
{
    let cs = chars_of(s);
    let len = cs.len();
    let mut from: usize = 0;
    while from < len && white_space(cs[from])
        invariant
            cs@ == s@,
            len == s@.len(),
            from <= len,
            forall|i: int| 0 <= i < from ==> is_white_space(s@[i]),
        decreases len - from,
    {
        from = from + 1;
    }
    let mut to: usize = len;
    while from < to && white_space(cs[to - 1])
        invariant
            cs@ == s@,
            len == s@.len(),
            from <= to <= len,
            forall|i: int| to <= i < len ==> is_white_space(s@[i]),
        decreases to,
    {
        to = to - 1;
    }
    proof {
        lemma_trimmed_start(s@, from as int);
        let rest = s@.skip(from as int);
        assert forall|i: int| to - from <= i < rest.len() implies is_white_space(rest[i]) by {
            assert(rest[i] == s@[from + i]);
        }
        if to > from {
            assert(rest[to - from - 1] == s@[to - 1]);
        }
        lemma_trimmed_end(rest, to - from);
        assert(rest.take(to - from) =~= s@.subrange(from as int, to as int));
    }
    s.substring_char(from, to)
}

/// A text with no white space at either end is left as it is.
pub proof fn lemma_trimmed_unchanged(s: Seq<char>)
    requires
        s.len() > 0 ==> !is_white_space(s[0]) && !is_white_space(s.last()),
    ensures
        trimmed(s) == s,
{
}

/// White space around a text makes no difference to what is left of it.
pub proof fn lemma_trimmed_padded(before: Seq<char>, s: Seq<char>, after: Seq<char>)
    requires
        forall|i: int| 0 <= i < before.len() ==> is_white_space(before[i]),
        forall|i: int| 0 <= i < after.len() ==> is_white_space(after[i]),
    ensures
        trimmed(before + s + after) == trimmed(s),
    decreases before.len() + after.len(),
{
    if before.len() > 0 {
        let all = before + s + after;
        assert(all.drop_first() =~= before.drop_first() + s + after);
        assert(all[0] == before[0]);
        lemma_trimmed_padded(before.drop_first(), s, after);
    } else if after.len() > 0 {
        let rest = s + after.drop_last();
        lemma_trimmed_padded(before, s, after.drop_last());
        assert(before + s + after.drop_last() =~= rest);
        assert(before + s + after =~= rest.push(after.last()));
        lemma_trimmed_start_push(rest, after.last());
        let start = trimmed_start(rest);
        if trimmed_start(rest.push(after.last())).len() > 0 {
            assert(start.push(after.last()).drop_last() =~= start);
        }
    } else {
        assert(before + s + after =~= s);
    }
}

proof fn lemma_trimmed_start_push(s: Seq<char>, c: char)
    requires
        is_white_space(c),
    ensures
        trimmed_start(s.push(c)) == trimmed_start(s).push(c) || (trimmed_start(s.push(c)).len() == 0
            && trimmed_start(s).len() == 0),
    decreases s.len(),
{
    reveal_with_fuel(trimmed_start, 2);
    if s.len() == 0 {
        assert(s.push(c).drop_first() =~= Seq::empty());
    } else {
        assert(s.push(c)[0] == s[0]);
        if is_white_space(s[0]) {
            assert(s.push(c).drop_first() =~= s.drop_first().push(c));
            lemma_trimmed_start_push(s.drop_first(), c);
        }
    }
}

/// A text without the slashes at its end.
pub open spec fn without_end_slashes(s: Seq<char>) -> Seq<char>
    decreases s.len(),
{
    if s.len() > 0 && s.last() == '/' {
        without_end_slashes(s.drop_last())
    } else {
        s
    }
}

/// Cuts every slash off the end.
pub fn trim_end_slashes<'a>(s: &'a str) -> (r: &'a str)
    ensures
        r@ == without_end_slashes(s@),
{
    let cs = chars_of(s);
    let mut to: usize = cs.len();
    assert(s@.take(s@.len() as int) =~= s@);
    while to > 0 && cs[to - 1] == '/'
        invariant
            cs@ == s@,
            to <= s@.len(),
            without_end_slashes(s@) == without_end_slashes(s@.take(to as int)),
        decreases to,
    {
        assert(s@.take(to as int).drop_last() =~= s@.take(to - 1));
        to = to - 1;
    }
    assert(to > 0 ==> s@.take(to as int).last() == s@[to - 1]);
    s.substring_char(0, to)
}

/// An ASCII letter in lower case, any other character unchanged.
pub open spec fn ascii_lower(c: char) -> char {
    if 'A' <= c <= 'Z' {
        (c as u32 + 32) as char
    } else {
        c
    }
}

/// Whether two texts are equal but for the case of their ASCII letters.
pub open spec fn same_but_ascii_case(a: Seq<char>, b: Seq<char>) -> bool {
    &&& a.len() == b.len()
    &&& forall|i: int| 0 <= i < a.len() ==> #[trigger] ascii_lower(a[i]) == ascii_lower(b[i])
}

fn lower(c: char) -> (r: char)
    ensures
        r == ascii_lower(c),
{
    if 'A' <= c && c <= 'Z' {
        (c as u8 + 32) as char
    } else {
        c
    }
}

/// Compares two texts, taking ASCII letters of either case as equal.
pub fn eq_ignore_ascii_case(a: &str, b: &str) -> (r: bool)
    ensures
        r == same_but_ascii_case(a@, b@),
{
    let x = chars_of(a);
    let y = chars_of(b);
    if x.len() != y.len() {
        return false;
    }
    for i in 0..x.len()
        invariant
            x@ == a@,
            y@ == b@,
            x@.len() == y@.len(),
            forall|j: int| 0 <= j < i ==> #[trigger] ascii_lower(a@[j]) == ascii_lower(b@[j]),
    {
        if lower(x[i]) != lower(y[i]) {
            assert(ascii_lower(a@[i as int]) != ascii_lower(b@[i as int]));
            return false;
        }
    }
    true
}

/// The digit for a number below sixteen, in lower case.
pub open spec fn digit_char(d: int) -> char {
    if d < 10 {
        ('0' as u32 + d) as char
    } else {
        ('a' as u32 + d - 10) as char
    }
}

/// Different numbers below sixteen have different digits.
pub proof fn lemma_digits_differ(a: int, b: int)
    requires
        0 <= a < 16,
        0 <= b < 16,
        digit_char(a) == digit_char(b),
    ensures
        a == b,
{
}

fn digit(d: u8) -> (c: char)
    requires
        d < 16,
    ensures
        c == digit_char(d as int),
{
    if d < 10 {
        (48 + d) as char
    } else {
        (87 + d) as char
    }
}

/// A number written in a base of at most sixteen, without leading zeros.
pub open spec fn in_base(n: nat, base: nat) -> Seq<char>
    decreases n,
{
    if base < 2 || n < base {
        seq![digit_char(n as int)]
    } else {
        proof {
            assert(n / base < n) by (nonlinear_arith)
                requires
                    n >= base,
                    base >= 2,
            ;
        }
        in_base(n / base, base).push(digit_char((n % base) as int))
    }
}

/// A number written in decimal.
pub open spec fn decimal(n: nat) -> Seq<char> {
    in_base(n, 10)
}

/// A whole number in decimal digits, with a minus sign before a negative one.
pub open spec fn decimal_int(n: int) -> Seq<char> {
    if n < 0 {
        "-"@ + decimal((-n) as nat)
    } else {
        decimal(n as nat)
    }
}

/// Writes a whole number in decimal digits.
pub fn write_int(n: i64) -> (r: String)
    ensures
        r@ == decimal_int(n as int),
{
    if n < 0 {
        let size: i128 = -(n as i128);
        let digits = write_decimal(size as u64);
        join2("-", &digits)
    } else {
        write_decimal(n as u64)
    }
}

fn write_in_base(n: u64, base: u64) -> (r: String)
    requires
        2 <= base <= 16,
    ensures
        r@ == in_base(n as nat, base as nat),
    decreases n,
{
    if n < base {
        let mut s = String::new();
        s.push(digit(n as u8));
        assert(s@ =~= seq![digit_char(n as int)]);
        s
    } else {
        assert(n / base < n) by (nonlinear_arith)
            requires
                n >= base,
                base >= 2,
        ;
        let mut s = write_in_base(n / base, base);
        s.push(digit((n % base) as u8));
        s
    }
}

/// Writes a number in decimal.
pub fn write_decimal(n: u64) -> (r: String)
    ensures
        r@ == decimal(n as nat),
{
    write_in_base(n, 10)
}

/// Writes a number in lower-case hexadecimal.
pub fn write_hex(n: u64) -> (r: String)
    ensures
        r@ == in_base(n as nat, 16),
{
    write_in_base(n, 16)
}

/// Whether a character is a decimal digit.
pub open spec fn is_digit(c: char) -> bool {
    '0' <= c <= '9'
}

/// The number that a row of decimal digits stands for.
pub open spec fn digits_value(s: Seq<char>) -> int
    decreases s.len(),
{
    if s.len() == 0 {
        0
    } else {
        digits_value(s.drop_last()) * 10 + (s.last() as int - '0' as int)
    }
}

/// Whether a text is one or more decimal digits.
pub open spec fn all_digits(s: Seq<char>) -> bool {
    s.len() > 0 && forall|i: int| 0 <= i < s.len() ==> is_digit(#[trigger] s[i])
}

/// The whole number that a text writes in decimal, with an optional sign,
/// whatever its size.
pub open spec fn written_int(s: Seq<char>) -> Option<int> {
    if all_digits(s) {
        Some(digits_value(s))
    } else if s.len() > 0 && (s[0] == '+' || s[0] == '-') && all_digits(s.skip(1)) {
        Some(if s[0] == '+' { digits_value(s.skip(1)) } else { -digits_value(s.skip(1)) })
    } else {
        None
    }
}

/// The number of type `i64` that a text writes in decimal, if it is one.
pub open spec fn written_i64(s: Seq<char>) -> Option<i64> {
    match written_int(s) {
        Some(n) if i64::MIN <= n <= i64::MAX => Some(n as i64),
        _ => None,
    }
}

proof fn lemma_digits_value_grows(s: Seq<char>, n: int)
    requires
        0 <= n <= s.len(),
        forall|i: int| 0 <= i < s.len() ==> is_digit(#[trigger] s[i]),
    ensures
        0 <= digits_value(s.take(n)) <= digits_value(s),
    decreases s.len(),
{
    if s.len() == 0 {
        assert(s.take(n) =~= s);
    } else if n == s.len() {
        assert(s.take(n) =~= s);
        lemma_digits_value_grows(s.drop_last(), n - 1);
        assert(s.drop_last().take(n - 1) =~= s.drop_last());
        assert(is_digit(s[n - 1]));
    } else {
        lemma_digits_value_grows(s.drop_last(), n);
        assert(s.drop_last().take(n) =~= s.take(n));
        assert(is_digit(s[s.len() - 1]));
    }
}

/// The value of a row of digits, up to the magnitude that `i64` can hold.
fn read_digits(cs: &Vec<char>, from: usize) -> (r: Option<i128>)
    requires
        from <= cs@.len(),
    ensures
        match r {
            Some(n) => {
                &&& all_digits(cs@.skip(from as int))
                &&& n == digits_value(cs@.skip(from as int))
                &&& 0 <= n <= 0x8000_0000_0000_0000
            },
            None => !all_digits(cs@.skip(from as int)) || digits_value(cs@.skip(from as int))
                > 0x8000_0000_0000_0000,
        },
{
    let ghost s = cs@.skip(from as int);
    if from == cs.len() {
        return None;
    }
    let mut n: i128 = 0;
    let mut over = false;
    let mut i: usize = from;
    assert(s.take(0) =~= Seq::empty());
    while i < cs.len()
        invariant
            s == cs@.skip(from as int),
            from <= i <= cs@.len(),
            forall|j: int| 0 <= j < i - from ==> is_digit(#[trigger] s[j]),
            !over ==> n == digits_value(s.take(i - from)) && 0 <= n <= 0x8000_0000_0000_0000,
            over ==> digits_value(s.take(i - from)) > 0x8000_0000_0000_0000,
        decreases cs@.len() - i,
    {
        let c = cs[i];
        assert(c == s[i - from]);
        if !('0' <= c && c <= '9') {
            assert(!is_digit(s[i - from]));
            return None;
        }
        proof {
            assert(s.take(i - from + 1).drop_last() =~= s.take(i - from));
            assert(s.take(i - from + 1).last() == c);
        }
        if !over {
            n = n * 10 + (c as u8 - 48) as i128;
            if n > 0x8000_0000_0000_0000 {
                over = true;
            }
        }
        i = i + 1;
    }
    assert(s.take(s.len() as int) =~= s);
    if over {
        None
    } else {
        Some(n)
    }
}

/// Reads a whole number in decimal, with an optional sign.
pub fn parse_i64(s: &str) -> (r: Option<i64>)
    ensures
        r == written_i64(s@),
{
    let cs = chars_of(s);
    if cs.len() == 0 {
        return None;
    }
    let c = cs[0];
    assert(cs@.skip(0) =~= cs@);
    if c == '+' || c == '-' {
        assert(!is_digit(s@[0]));
        match read_digits(&cs, 1) {
            Some(n) => {
                if c == '-' {
                    Some((-n) as i64)
                } else if n <= 0x7fff_ffff_ffff_ffff {
                    Some(n as i64)
                } else {
                    None
                }
            },
            None => None,
        }
    } else {
        match read_digits(&cs, 0) {
            Some(n) => {
                if n <= 0x7fff_ffff_ffff_ffff {
                    Some(n as i64)
                } else {
                    None
                }
            },
            None => None,
        }
    }
}

/// The order of texts: by their first different characters, and a text before
/// those that it is the beginning of.
pub open spec fn text_before(a: Seq<char>, b: Seq<char>) -> bool
    decreases a.len(),
{
    if b.len() == 0 {
        false
    } else if a.len() == 0 {
        true
    } else if a[0] != b[0] {
        a[0] < b[0]
    } else {
        text_before(a.drop_first(), b.drop_first())
    }
}

/// Whether each of some texts comes before all that follow it. None then
/// occurs twice.
pub open spec fn ascending(list: Seq<Seq<char>>) -> bool {
    forall|i: int, j: int|
        0 <= i < j < list.len() ==> text_before(#[trigger] list[i], #[trigger] list[j])
}

proof fn lemma_text_before_total(a: Seq<char>, b: Seq<char>)
    ensures
        text_before(a, b) || text_before(b, a) || a == b,
    decreases a.len(),
{
    if a.len() > 0 && b.len() > 0 && a[0] == b[0] {
        lemma_text_before_total(a.drop_first(), b.drop_first());
        if a.drop_first() == b.drop_first() {
            assert(a =~= seq![a[0]] + a.drop_first());
            assert(b =~= seq![b[0]] + b.drop_first());
        }
    } else if a.len() == 0 && b.len() == 0 {
        assert(a =~= b);
    }
}

proof fn lemma_text_before_transitive(a: Seq<char>, b: Seq<char>, c: Seq<char>)
    requires
        text_before(a, b),
        text_before(b, c),
    ensures
        text_before(a, c),
    decreases a.len(),
{
    if a.len() > 0 && a[0] == b[0] && b[0] == c[0] {
        lemma_text_before_transitive(a.drop_first(), b.drop_first(), c.drop_first());
    }
}

fn comes_before(a: &str, b: &str) -> (r: bool)
    ensures
        r == text_before(a@, b@),
{
    let x = chars_of(a);
    let y = chars_of(b);
    let mut i: usize = 0;
    assert(x@.skip(0) =~= x@);
    assert(y@.skip(0) =~= y@);
    while i < x.len() && i < y.len() && x[i] == y[i]
        invariant
            x@ == a@,
            y@ == b@,
            i <= x@.len(),
            i <= y@.len(),
            text_before(x@.skip(i as int), y@.skip(i as int)) == text_before(a@, b@),
        decreases x@.len() - i,
    {
        proof {
            let p = x@.skip(i as int);
            let q = y@.skip(i as int);
            assert(p[0] == x@[i as int] && q[0] == y@[i as int]);
            assert(p.drop_first() =~= x@.skip(i + 1));
            assert(q.drop_first() =~= y@.skip(i + 1));
        }
        i = i + 1;
    }
    proof {
        let p = x@.skip(i as int);
        let q = y@.skip(i as int);
        assert(i < x@.len() ==> p[0] == x@[i as int]);
        assert(i < y@.len() ==> q[0] == y@[i as int]);
    }
    if i >= y.len() {
        false
    } else if i >= x.len() {
        true
    } else {
        x[i] < y[i]
    }
}

/// Puts a text in its place among ascending ones, unless it is there already.
pub fn insert_ascending(list: &mut Vec<String>, t: &str)
    requires
        ascending(texts(old(list)@)),
    ensures
        ascending(texts(final(list)@)),
        forall|x: Seq<char>| #[trigger]
            texts(final(list)@).contains(x) <==> texts(old(list)@).contains(x) || x == t@,
{
    let ghost before = texts(list@);
    let mut i: usize = 0;
    while i < list.len() && comes_before(&list[i], t)
        invariant
            list@ == old(list)@,
            before == texts(list@),
            i <= list@.len(),
            forall|j: int| 0 <= j < i ==> text_before(#[trigger] before[j], t@),
        decreases list@.len() - i,
    {
        assert(before[i as int] == list@[i as int]@);
        i = i + 1;
    }
    if i < list.len() {
        assert(before[i as int] == list@[i as int]@);
        if same(&list[i], t) {
            return ;
        }
        proof {
            lemma_text_before_total(before[i as int], t@);
        }
    }
    let ghost was = list@;
    list.insert(i, t.to_owned());
    proof {
        let now = texts(list@);
        assert(now =~= before.insert(i as int, t@));
        assert forall|a: int, b: int| 0 <= a < b < now.len() implies text_before(
            #[trigger] now[a],
            #[trigger] now[b],
        ) by {
            if b < i {
                assert(now[a] == before[a] && now[b] == before[b]);
            } else if b == i {
                assert(now[a] == before[a]);
            } else {
                assert(now[b] == before[b - 1]);
                if a > i {
                    assert(now[a] == before[a - 1]);
                } else if a < i {
                    assert(now[a] == before[a]);
                } else if b - 1 > i {
                    lemma_text_before_transitive(t@, before[i as int], before[b - 1]);
                }
            }
        }
        assert forall|x: Seq<char>| #[trigger] now.contains(x) <==> before.contains(x) || x
            == t@ by {
            if before.contains(x) {
                let k = before.index_of(x);
                if k < i {
                    assert(now[k] == x);
                } else {
                    assert(now[k + 1] == x);
                }
            }
            if x == t@ {
                assert(now[i as int] == x);
            }
            if now.contains(x) && x != t@ {
                let k = now.index_of(x);
                if k < i {
                    assert(before[k] == x);
                } else {
                    assert(before[k - 1] == x);
                }
            }
        }
    }
}

/// A number that is written in decimal is read back, and has no zeros before it.
pub proof fn lemma_decimal_reads_back(n: nat)
    ensures
        all_digits(decimal(n)),
        digits_value(decimal(n)) == n,
        n > 0 ==> decimal(n)[0] != '0',
    decreases n,
{
    if n < 10 {
        assert(decimal(n).drop_last() =~= Seq::<char>::empty());
        assert(digits_value(decimal(n).drop_last()) == 0);
        assert(is_digit(decimal(n)[0]));
    } else {
        let before = decimal(n / 10);
        lemma_decimal_reads_back(n / 10);
        assert(decimal(n) == before.push(digit_char((n % 10) as int)));
        assert(decimal(n).drop_last() =~= before);
        assert(is_digit(decimal(n).last()));
        assert(decimal(n)[0] == before[0]);
        assert forall|i: int| 0 <= i < decimal(n).len() implies is_digit(
            #[trigger] decimal(n)[i],
        ) by {
            if i < before.len() {
                assert(decimal(n)[i] == before[i]);
            }
        }
    }
}

/// A whole number that is written is read back.
pub proof fn lemma_int_reads_back(n: int)
    ensures
        written_int(decimal_int(n)) == Some(n),
        i64::MIN <= n <= i64::MAX ==> written_i64(decimal_int(n)) == Some(n as i64),
{
    if n < 0 {
        reveal_strlit("-");
        lemma_decimal_reads_back((-n) as nat);
        let t = decimal_int(n);
        assert(t.skip(1) =~= decimal((-n) as nat));
        assert(t[0] == '-');
        assert(!is_digit(t[0]));
    } else {
        lemma_decimal_reads_back(n as nat);
    }
}

/// The pieces of a text hold no separator, and give the text back where they are
/// put together with one between each two.
pub proof fn lemma_pieces_are_joined(s: Seq<char>, sep: char)
    ensures
        pieces(s, sep).len() > 0,
        forall|i: int| 0 <= i < pieces(s, sep).len() ==> !(#[trigger] pieces(s, sep)[i]).contains(sep),
        put_together(pieces(s, sep), sep) == s,
    decreases s.len(),
{
    let head = until_either(s, sep, sep);
    lemma_until_is_first(s, sep, sep);
    if head.len() >= s.len() {
        assert(s.take(s.len() as int) =~= s);
        assert(pieces(s, sep).drop_first() =~= Seq::<Seq<char>>::empty());
    } else {
        let rest = s.skip(head.len() as int + 1);
        lemma_pieces_are_joined(rest, sep);
        assert(pieces(s, sep).drop_first() =~= pieces(rest, sep));
        assert forall|i: int| 0 <= i < pieces(s, sep).len() implies !(
        #[trigger] pieces(s, sep)[i]).contains(sep) by {
            if i > 0 {
                assert(pieces(s, sep)[i] == pieces(rest, sep)[i - 1]);
            }
        }
        assert(s =~= head + seq![sep] + rest);
    }
}

/// Some texts, one after the other, with a character between each two.
pub open spec fn put_together(list: Seq<Seq<char>>, sep: char) -> Seq<char>
    decreases list.len(),
{
    if list.len() == 0 {
        Seq::empty()
    } else if list.len() == 1 {
        list[0]
    } else {
        list[0] + seq![sep] + put_together(list.drop_first(), sep)
    }
}

/// What stands before the first of two characters holds neither of them, begins
/// the text, and is followed by one of them or by nothing.
pub proof fn lemma_until_is_first(s: Seq<char>, a: char, b: char)
    ensures
        until_either(s, a, b).len() <= s.len(),
        s.take(until_either(s, a, b).len() as int) == until_either(s, a, b),
        !until_either(s, a, b).contains(a),
        !until_either(s, a, b).contains(b),
        until_either(s, a, b).len() < s.len() ==> s[until_either(s, a, b).len() as int] == a
            || s[until_either(s, a, b).len() as int] == b,
    decreases s.len(),
{
    if s.len() == 0 || s[0] == a || s[0] == b {
        assert(s.take(0) =~= Seq::empty());
    } else {
        let rest = s.drop_first();
        let t = until_either(rest, a, b);
        lemma_until_is_first(rest, a, b);
        let u = until_either(s, a, b);
        assert(u == seq![s[0]] + t);
        assert(s.take(u.len() as int) =~= seq![s[0]] + rest.take(t.len() as int));
        assert forall|i: int| 0 <= i < u.len() implies #[trigger] u[i] != a && u[i] != b by {
            if i > 0 {
                assert(u[i] == t[i - 1]);
                assert(t.contains(t[i - 1]));
            }
        }
        if u.len() < s.len() {
            assert(s[u.len() as int] == rest[t.len() as int]);
        }
    }
}

/// What is trimmed off a text is white space, and nothing that is left begins or
/// ends with white space.
pub proof fn lemma_only_white_space_is_trimmed(s: Seq<char>)
    ensures
        exists|i: int, j: int|
            #![trigger s.subrange(i, j)]
            {
                &&& 0 <= i <= j <= s.len()
                &&& trimmed(s) == s.subrange(i, j)
                &&& forall|k: int| 0 <= k < i ==> is_white_space(s[k])
                &&& forall|k: int| j <= k < s.len() ==> is_white_space(s[k])
            },
        trimmed(s).len() > 0 ==> !is_white_space(trimmed(s)[0]) && !is_white_space(
            trimmed(s).last(),
        ),
{
    let t = trimmed_start(s);
    lemma_start_cut(s);
    lemma_end_cut(t);
    let i = s.len() - t.len();
    let j = i + trimmed_end(t).len();
    assert(s.subrange(i, j) =~= t.take(trimmed_end(t).len() as int));
    assert forall|k: int| j <= k < s.len() implies is_white_space(s[k]) by {
        assert(s[k] == t[k - i]);
    }
}

proof fn lemma_start_cut(s: Seq<char>)
    ensures
        trimmed_start(s).len() <= s.len(),
        trimmed_start(s) == s.skip(s.len() - trimmed_start(s).len()),
        forall|k: int| 0 <= k < s.len() - trimmed_start(s).len() ==> is_white_space(s[k]),
        trimmed_start(s).len() > 0 ==> !is_white_space(trimmed_start(s)[0]),
    decreases s.len(),
{
    if s.len() > 0 && is_white_space(s[0]) {
        let r = s.drop_first();
        lemma_start_cut(r);
        assert(s.skip(s.len() - trimmed_start(s).len()) =~= r.skip(
            r.len() - trimmed_start(r).len(),
        ));
        assert forall|k: int| 0 <= k < s.len() - trimmed_start(s).len() implies is_white_space(
            s[k],
        ) by {
            if k > 0 {
                assert(s[k] == r[k - 1]);
            }
        }
    } else {
        assert(s.skip(0) =~= s);
    }
}

proof fn lemma_end_cut(s: Seq<char>)
    ensures
        trimmed_end(s).len() <= s.len(),
        trimmed_end(s) == s.take(trimmed_end(s).len() as int),
        forall|k: int| trimmed_end(s).len() <= k < s.len() ==> is_white_space(s[k]),
        trimmed_end(s).len() > 0 ==> !is_white_space(trimmed_end(s).last()),
        trimmed_end(s).len() > 0 ==> trimmed_end(s)[0] == s[0],
    decreases s.len(),
{
    if s.len() > 0 && is_white_space(s.last()) {
        let r = s.drop_last();
        lemma_end_cut(r);
        assert(s.take(trimmed_end(s).len() as int) =~= r.take(trimmed_end(r).len() as int));
        assert forall|k: int| trimmed_end(s).len() <= k < s.len() implies is_white_space(s[k]) by {
            if k < r.len() {
                assert(s[k] == r[k]);
            }
        }
    } else {
        assert(s.take(s.len() as int) =~= s);
    }
}

/// White space is the tab, the line breaks and the spaces of Unicode.
pub proof fn lemma_white_space(c: char)
    ensures
        is_white_space(c) <==> {
            let n = c as u32;
            ||| 9 <= n <= 13
            ||| n == 32
            ||| n == 133
            ||| n == 160
            ||| n == 5760
            ||| 8192 <= n <= 8202
            ||| n == 8232
            ||| n == 8233
            ||| n == 8239
            ||| n == 8287
            ||| n == 12288
        },
{
}

/// Texts that are the same but for the case of their letters are as long, and
/// differ only where one has a capital and the other its small letter.
pub proof fn lemma_same_but_ascii_case(a: Seq<char>, b: Seq<char>)
    ensures
        same_but_ascii_case(a, b) <==> a.len() == b.len() && forall|i: int|
            0 <= i < a.len() ==> {
                ||| #[trigger] a[i] == b[i]
                ||| 'A' <= a[i] <= 'Z' && b[i] as u32 == a[i] as u32 + 32
                ||| 'A' <= b[i] <= 'Z' && a[i] as u32 == b[i] as u32 + 32
            },
{
    if same_but_ascii_case(a, b) {
        assert forall|i: int| 0 <= i < a.len() implies {
            ||| #[trigger] a[i] == b[i]
            ||| 'A' <= a[i] <= 'Z' && b[i] as u32 == a[i] as u32 + 32
            ||| 'A' <= b[i] <= 'Z' && a[i] as u32 == b[i] as u32 + 32
        } by {
            assert(ascii_lower(a[i]) == ascii_lower(b[i]));
        }
    }
}

/// Nothing but slashes is cut off the end of a text, and none is left there.
pub proof fn lemma_only_end_slashes_are_cut(s: Seq<char>)
    ensures
        ({
            let t = without_end_slashes(s);
            &&& t.len() <= s.len()
            &&& t == s.take(t.len() as int)
            &&& t.len() > 0 ==> t.last() != '/'
            &&& forall|i: int| t.len() <= i < s.len() ==> #[trigger] s[i] == '/'
        }),
    decreases s.len(),
{
    if s.len() > 0 && s.last() == '/' {
        let rest = s.drop_last();
        lemma_only_end_slashes_are_cut(rest);
        let t = without_end_slashes(rest);
        assert(s.take(t.len() as int) =~= rest.take(t.len() as int));
        assert forall|i: int| t.len() <= i < s.len() implies #[trigger] s[i] == '/' by {
            if i < s.len() - 1 {
                assert(rest[i] == s[i]);
            }
        }
    } else {
        assert(s.take(s.len() as int) =~= s);
    }
}

/// Different numbers are written differently in hexadecimal.
pub proof fn lemma_hex_differs(a: nat, b: nat)
    requires
        in_base(a, 16) == in_base(b, 16),
    ensures
        a == b,
    decreases a,
{
    if a < 16 {
        if b >= 16 {
            let high = in_base(b / 16, 16);
            assert(high.len() > 0);
            assert(in_base(b, 16).len() == high.len() + 1);
            assert(in_base(a, 16).len() == 1);
        } else {
            assert(in_base(a, 16) == seq![digit_char(a as int)]);
            assert(in_base(b, 16) == seq![digit_char(b as int)]);
            assert(in_base(a, 16)[0] == digit_char(a as int));
            assert(in_base(b, 16)[0] == digit_char(b as int));
            lemma_digits_differ(a as int, b as int);
        }
    } else if b < 16 {
        let high = in_base(a / 16, 16);
        assert(high.len() > 0);
        assert(in_base(a, 16).len() == high.len() + 1);
        assert(in_base(b, 16).len() == 1);
    } else {
        let x = in_base(a / 16, 16);
        let y = in_base(b / 16, 16);
        assert(in_base(a, 16).drop_last() =~= x);
        assert(in_base(b, 16).drop_last() =~= y);
        assert(in_base(a, 16).last() == digit_char((a % 16) as int));
        assert(in_base(b, 16).last() == digit_char((b % 16) as int));
        lemma_digits_differ((a % 16) as int, (b % 16) as int);
        lemma_hex_differs(a / 16, b / 16);
    }
}

/// Joining puts each text behind those before it, with the separator between
/// them; one text is left as it is, and none give nothing.
pub proof fn lemma_joined_grows(list: Seq<Seq<char>>, last: Seq<char>, sep: Seq<char>)
    ensures
        joined(Seq::empty(), sep) == Seq::<char>::empty(),
        joined(seq![last], sep) == last,
        list.len() > 0 ==> joined(list.push(last), sep) == joined(list, sep) + sep + last,
{
    if list.len() > 0 {
        assert(list.push(last).drop_last() =~= list);
    }
}

/// What follows a prefix is what was put behind it.
pub proof fn lemma_after_prefix(prefix: Seq<char>, rest: Seq<char>)
    ensures
        after_prefix(prefix + rest, prefix) == Some(rest),
        after_prefix(rest, prefix) matches Some(t) ==> prefix + t == rest,
{
    let whole = prefix + rest;
    assert(whole.subrange(0, prefix.len() as int) =~= prefix);
    assert(whole.skip(prefix.len() as int) =~= rest);
    if prefix.is_prefix_of(rest) {
        assert(prefix + rest.skip(prefix.len() as int) =~= rest);
    }
}

/// A text comes before another by the first characters in which they differ, or
/// because it is the beginning of the other.
pub proof fn lemma_text_order(common: Seq<char>, a: Seq<char>, b: Seq<char>)
    ensures
        text_before(common + a, common + b) <==> text_before(a, b),
        a.len() > 0 && b.len() > 0 && a[0] != b[0] ==> (text_before(a, b) <==> a[0] < b[0]),
        a.len() == 0 ==> (text_before(a, b) <==> b.len() > 0),
        b.len() == 0 ==> !text_before(a, b),
    decreases common.len(),
{
    if common.len() > 0 {
        let rest = common.drop_first();
        lemma_text_order(rest, a, b);
        assert((common + a).drop_first() =~= rest + a);
        assert((common + b).drop_first() =~= rest + b);
        assert((common + a)[0] == common[0]);
        assert((common + b)[0] == common[0]);
    } else {
        assert(common + a =~= a);
        assert(common + b =~= b);
    }
}

/// A text occurs in what it is put into.
pub proof fn lemma_occurs(before: Seq<char>, needle: Seq<char>, after: Seq<char>)
    ensures
        occurs_in(needle, before + needle + after),
{
    let s = before + needle + after;
    let i = before.len() as int;
    assert(s.subrange(i, i + needle.len()) =~= needle);
}

/// A text occurs at the end of what stands before it.
pub proof fn lemma_occurs_last(before: Seq<char>, needle: Seq<char>)
    ensures
        occurs_in(needle, before + needle),
{
    lemma_occurs(before, needle, Seq::empty());
    assert(before + needle + Seq::<char>::empty() =~= before + needle);
}

/// In a list in ascending order no text occurs twice, and each comes before
/// those that follow it.
pub proof fn lemma_ascending_is_distinct(list: Seq<Seq<char>>, i: int, j: int)
    requires
        ascending(list),
        0 <= i < j < list.len(),
    ensures
        text_before(list[i], list[j]),
        list[i] != list[j],
{
    let a = list[i];
    let b = list[j];
    assert(text_before(a, b));
    if a == b {
        lemma_not_before_itself(a);
    }
}

proof fn lemma_not_before_itself(a: Seq<char>)
    ensures
        !text_before(a, a),
    decreases a.len(),
{
    if a.len() > 0 {
        lemma_not_before_itself(a.drop_first());
    }
}

} // verus!
