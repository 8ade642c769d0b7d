//! Verified text helpers: characters, comparison, search and decimal numbers.

use vstd::arithmetic::div_mod::*;
use vstd::prelude::*;

verus! {

/// The characters of a text.
pub fn chars_of(s: &str) -> (out: Vec<char>)
    ensures
        out@ == s@,
{
    let mut out: Vec<char> = Vec::new();
    for c in it: s.chars()
        invariant
            it.seq() == s@,
            out@ == s@.subrange(0, it.index() as int),
    {
        out.push(c);
    }
    assert(s@.subrange(0, s@.len() as int) =~= s@);
    out
}

/// Whether two texts hold the same characters.
pub fn same(a: &str, b: &str) -> (r: bool)
    ensures
        r == (a@ == b@),
{
    let x = chars_of(a);
    let y = chars_of(b);
    same_chars(&x, &y)
}

/// Whether two lists of characters are equal.
pub fn same_chars(x: &Vec<char>, y: &Vec<char>) -> (r: bool)
    ensures
        r == (x@ == y@),
{
    if x.len() != y.len() {
        return false;
    }
    let mut i: usize = 0;
    while i < x.len()
        invariant
            i <= x.len(),
            x.len() == y.len(),
            forall|j: int| 0 <= j < i ==> x@[j] == y@[j],
        decreases x.len() - i,
    {
        if x[i] != y[i] {
            return false;
        }
        i = i + 1;
    }
    assert(x@ =~= y@);
    true
}

/// Whether `needle` stands in `hay` at `i`.
pub open spec fn occurs_at(hay: Seq<char>, needle: Seq<char>, i: int) -> bool {
    &&& 0 <= i
    &&& i + needle.len() <= hay.len()
    &&& hay.subrange(i, i + needle.len()) == needle
}

/// Whether `needle` stands somewhere in `hay`.
pub open spec fn occurs(hay: Seq<char>, needle: Seq<char>) -> bool {
    exists|i: int| occurs_at(hay, needle, i)
}

/// Whether `s` begins with `p`.
pub open spec fn begins(s: Seq<char>, p: Seq<char>) -> bool {
    occurs_at(s, p, 0)
}

/// Whether `s` ends with `p`.
pub open spec fn ends(s: Seq<char>, p: Seq<char>) -> bool {
    occurs_at(s, p, s.len() - p.len())
}

/// Whether `needle` stands in `hay` at `i`.
pub fn stands_at(hay: &Vec<char>, needle: &Vec<char>, i: usize) -> (r: bool)
    ensures
        r == occurs_at(hay@, needle@, i as int),
{
    if i > hay.len() || needle.len() > hay.len() - i {
        return false;
    }
    let mut j: usize = 0;
    while j < needle.len()
        invariant
            j <= needle.len(),
            i + needle.len() <= hay.len(),
            forall|k: int| 0 <= k < j ==> hay@[i + k] == needle@[k],
        decreases needle.len() - j,
    {
        if hay[i + j] != needle[j] {
            assert(hay@.subrange(i as int, i + needle@.len())[j as int] == hay@[i + j]);
            return false;
        }
        j = j + 1;
    }
    assert(hay@.subrange(i as int, i + needle@.len()) =~= needle@);
    true
}

/// Where `needle` first stands in `hay`.
pub fn find(hay: &Vec<char>, needle: &Vec<char>) -> (r: Option<usize>)
    ensures
        match r {
            Some(i) => occurs_at(hay@, needle@, i as int) && forall|j: int|
                0 <= j < i ==> !#[trigger] occurs_at(hay@, needle@, j),
            None => !occurs(hay@, needle@),
        },
{
    let mut i: usize = 0;
    while i < hay.len()
        invariant
            i <= hay.len(),
            forall|j: int| 0 <= j < i ==> !#[trigger] occurs_at(hay@, needle@, j),
        decreases hay.len() - i,
    {
        if stands_at(hay, needle, i) {
            return Some(i);
        }
        i = i + 1;
    }
    if stands_at(hay, needle, i) {
        return Some(i);
    }
    None
}

/// Whether `needle` stands somewhere in `hay`.
pub fn contains(hay: &str, needle: &str) -> (r: bool)
    ensures
        r == occurs(hay@, needle@),
{
    match find(&chars_of(hay), &chars_of(needle)) {
        Some(i) => {
            assert(occurs_at(hay@, needle@, i as int));
            true
        },
        None => false,
    }
}

/// Whether `s` begins with `p`.
pub fn starts_with(s: &str, p: &str) -> (r: bool)
    ensures
        r == begins(s@, p@),
{
    stands_at(&chars_of(s), &chars_of(p), 0)
}

/// Whether `s` ends with `p`.
pub fn ends_with(s: &str, p: &str) -> (r: bool)
    ensures
        r == ends(s@, p@),
{
    let x = chars_of(s);
    let y = chars_of(p);
    if y.len() > x.len() {
        return false;
    }
    stands_at(&x, &y, x.len() - y.len())
}

/// Whether a list of texts holds `s`.
pub fn holds(list: &Vec<String>, s: &str) -> (r: bool)
    ensures
        r == exists|i: int| 0 <= i < list@.len() && (#[trigger] list@[i])@ == s@,
{
    let mut i: usize = 0;
    while i < list.len()
        invariant
            i <= list.len(),
            forall|j: int| 0 <= j < i ==> (#[trigger] list@[j])@ != s@,
        decreases list.len() - i,
    {
        if same(list[i].as_str(), s) {
            return true;
        }
        i = i + 1;
    }
    false
}

/// The digit `d` as a character.
pub open spec fn digit_char(d: int) -> char {
    ('0' as int + d) as char
}

/// The decimal digits of `n`, without leading zeros.
pub open spec fn decimal(n: nat) -> Seq<char>
    decreases n,
{
    if n < 10 {
        seq![digit_char(n as int)]
    } else {
        decimal(n / 10).push(digit_char((n % 10) as int))
    }
}

fn digit_text(d: u64) -> (r: &'static str)
    requires
        d < 10,
    ensures
        r@ == seq![digit_char(d as int)],
{
    proof {
        reveal_strlit("0");
        reveal_strlit("1");
        reveal_strlit("2");
        reveal_strlit("3");
        reveal_strlit("4");
        reveal_strlit("5");
        reveal_strlit("6");
        reveal_strlit("7");
        reveal_strlit("8");
        reveal_strlit("9");
    }
    let r: &'static str = if d == 0 {
        "0"
    } else if d == 1 {
        "1"
    } else if d == 2 {
        "2"
    } else if d == 3 {
        "3"
    } else if d == 4 {
        "4"
    } else if d == 5 {
        "5"
    } else if d == 6 {
        "6"
    } else if d == 7 {
        "7"
    } else if d == 8 {
        "8"
    } else {
        "9"
    };
    assert(r@ =~= seq![digit_char(d as int)]);
    r
}

/// The decimal digits of a number.
pub fn decimal_text(n: u64) -> (r: String)
    ensures
        r@ == decimal(n as nat),
    decreases n,
{
    if n < 10 {
        digit_text(n).to_owned()
    } else {
        let mut s = decimal_text(n / 10);
        s.append(digit_text(n % 10));
        s
    }
}

/// Appends the decimal digits of a number.
pub fn push_number(s: &mut String, n: u64)
    ensures
        final(s)@ == old(s)@ + decimal(n as nat),
{
    let d = decimal_text(n);
    s.append(d.as_str());
}

/// Appends the decimal digits of a number.
pub fn push_decimal(s: &mut String, n: usize)
    ensures
        final(s)@ == old(s)@ + decimal(n as nat),
{
    push_number(s, n as u64);
}

/// Whether `c` is a decimal digit.
pub open spec fn is_digit(c: char) -> bool {
    '0' <= c <= '9'
}

/// Whether all characters are decimal digits.
pub open spec fn all_digits(s: Seq<char>) -> bool {
    forall|i: int| 0 <= i < s.len() ==> is_digit(#[trigger] s[i])
}

/// The number that a row of decimal digits writes.
pub open spec fn digits_value(s: Seq<char>) -> nat
    decreases s.len(),
{
    if s.len() == 0 {
        0
    } else {
        digits_value(s.drop_last()) * 10 + (s.last() as int - '0' as int) as nat
    }
}

/// The digits of a number text: what is left of it without one leading plus sign.
pub open spec fn unsigned_digits(s: Seq<char>) -> Seq<char> {
    if s.len() > 1 && s[0] == '+' {
        s.subrange(1, s.len() as int)
    } else {
        s
    }
}

/// The unsigned number that a text writes, if it writes one of at most `max`.
pub open spec fn parsed_number(s: Seq<char>, max: nat) -> Option<nat> {
    let d = unsigned_digits(s);
    if d.len() > 0 && all_digits(d) && digits_value(d) <= max {
        Some(digits_value(d))
    } else {
        None
    }
}

proof fn digits_value_grows(s: Seq<char>, k: int)
    requires
        0 <= k <= s.len(),
        all_digits(s),
    ensures
        digits_value(s.subrange(0, k)) <= digits_value(s),
    decreases s.len(),
{
    if k == s.len() {
        assert(s.subrange(0, k) =~= s);
    } else {
        let t = s.drop_last();
        assert(t.subrange(0, k) =~= s.subrange(0, k));
        assert forall|i: int| 0 <= i < t.len() implies is_digit(#[trigger] t[i]) by {
            assert(t[i] == s[i]);
        }
        digits_value_grows(t, k);
        assert(digits_value(s) >= digits_value(t));
    }
}

/// The number that a row of digits writes, unless it is over `max`.
fn digits_number(d: &Vec<char>, from: usize, max: u64) -> (r: Option<u64>)
    requires
        from <= d@.len(),
    ensures
        ({
            let t = d@.subrange(from as int, d@.len() as int);
            match r {
                Some(n) => t.len() > 0 && all_digits(t) && digits_value(t) <= max && n
                    == digits_value(t),
                None => !(t.len() > 0 && all_digits(t) && digits_value(t) <= max),
            }
        }),
{
    let ghost t = d@.subrange(from as int, d@.len() as int);
    if from == d.len() {
        return None;
    }
    let mut acc: u64 = 0;
    let mut i: usize = from;
    assert(t.subrange(0, 0) =~= Seq::<char>::empty());
    while i < d.len()
        invariant
            from <= i <= d.len(),
            t == d@.subrange(from as int, d@.len() as int),
            all_digits(t.subrange(0, i - from)),
            acc == digits_value(t.subrange(0, i - from)),
            acc <= max,
        decreases d.len() - i,
    {
        let c = d[i];
        let ghost k = i - from;
        assert(t[k] == c);
        if !('0' <= c && c <= '9') {
            return None;
        }
        let v: u64 = (c as u32 - '0' as u32) as u64;
        assert(t.subrange(0, k + 1).drop_last() =~= t.subrange(0, k));
        assert(t.subrange(0, k + 1).last() == c);
        assert(all_digits(t.subrange(0, k + 1))) by {
            assert forall|j: int| 0 <= j < k + 1 implies is_digit(
                #[trigger] t.subrange(0, k + 1)[j],
            ) by {
                if j < k {
                    assert(t.subrange(0, k + 1)[j] == t.subrange(0, k)[j]);
                }
            }
        }
        if acc > (u64::MAX - v) / 10 || acc * 10 + v > max {
            proof {
                if all_digits(t) {
                    digits_value_grows(t, k + 1);
                }
            }
            return None;
        }
        acc = acc * 10 + v;
        i = i + 1;
    }
    assert(t.subrange(0, t.len() as int) =~= t);
    Some(acc)
}

/// Reads an unsigned number of at most `max`: decimal digits, with or without
/// one leading plus sign.
pub fn parse_number(s: &str, max: u64) -> (r: Option<u64>)
    ensures
        match r {
            Some(n) => parsed_number(s@, max as nat) == Some(n as nat),
            None => parsed_number(s@, max as nat) is None,
        },
{
    let d = chars_of(s);
    if d.len() > 1 && d[0] == '+' {
        digits_number(&d, 1, max)
    } else {
        assert(d@.subrange(0, d@.len() as int) =~= d@);
        digits_number(&d, 0, max)
    }
}

/// Reading back what was written gives the number.
pub proof fn decimal_reads_back(n: nat, max: nat)
    requires
        n <= max,
    ensures
        parsed_number(decimal(n), max) == Some(n),
{
    decimal_is_digits(n);
}

/// The decimal digits of a number are digits, and write that number.
pub proof fn decimal_is_digits(n: nat)
    ensures
        decimal(n).len() > 0,
        all_digits(decimal(n)),
        digits_value(decimal(n)) == n,
    decreases n,
{
    if n < 10 {
        let s = decimal(n);
        assert(s.drop_last() =~= Seq::<char>::empty());
        assert(digits_value(s.drop_last()) == 0);
    } else {
        decimal_is_digits(n / 10);
        let s = decimal(n);
        assert(s.drop_last() =~= decimal(n / 10));
        assert(s.last() == digit_char((n % 10) as int));
    }
}

/// Two numbers with the same decimal digits are equal.
pub proof fn decimal_injective(a: nat, b: nat)
    requires
        decimal(a) == decimal(b),
    ensures
        a == b,
{
    decimal_is_digits(a);
    decimal_is_digits(b);
}

/// Whether `c` has the Unicode property White_Space.
pub open spec fn is_white(c: char) -> bool {
    let u = c as u32;
    ||| 0x09 <= u <= 0x0d
    ||| u == 0x20
    ||| u == 0x85
    ||| u == 0xa0
    ||| u == 0x1680
    ||| 0x2000 <= u <= 0x200a
    ||| u == 0x2028
    ||| u == 0x2029
    ||| u == 0x202f
    ||| u == 0x205f
    ||| u == 0x3000
}

/// Whether `c` has the Unicode property White_Space.
pub fn white(c: char) -> (r: bool)
    ensures
        r == is_white(c),
{
    let u: u32 = c as u32;
    (0x09 <= u && u <= 0x0d) || u == 0x20 || u == 0x85 || u == 0xa0 || u == 0x1680 || (0x2000 <= u
        && u <= 0x200a) || u == 0x2028 || u == 0x2029 || u == 0x202f || u == 0x205f || u == 0x3000
}

/// A text without the white space at its end.
pub open spec fn trimmed_end(s: Seq<char>) -> Seq<char>
    decreases s.len(),
{
    if s.len() > 0 && is_white(s.last()) {
        trimmed_end(s.drop_last())
    } else {
        s
    }
}

/// A text without the white space at its start.
pub open spec fn trimmed_start(s: Seq<char>) -> Seq<char>
    decreases s.len(),
{
    if s.len() > 0 && is_white(s[0]) {
        trimmed_start(s.subrange(1, s.len() as int))
    } else {
        s
    }
}

/// A text without the white space at both its ends.
pub open spec fn trimmed(s: Seq<char>) -> Seq<char> {
    trimmed_end(trimmed_start(s))
}

/// `String::push` of std: appends one character.
pub assume_specification[ String::push ](s: &mut String, c: char)
    ensures
        final(s)@ == old(s)@.push(c),
;

/// The text that a list of characters writes.
pub fn text_of(chars: &Vec<char>) -> (r: String)
    ensures
        r@ == chars@,
{
    let mut s = String::new();
    let mut i: usize = 0;
    assert(chars@.subrange(0, 0) =~= Seq::<char>::empty());
    while i < chars.len()
        invariant
            i <= chars.len(),
            s@ == chars@.subrange(0, i as int),
        decreases chars.len() - i,
    {
        s.push(chars[i]);
        i = i + 1;
        assert(s@ =~= chars@.subrange(0, i as int));
    }
    assert(chars@.subrange(0, chars@.len() as int) =~= chars@);
    s
}

/// A text without the white space at both its ends.
pub fn trim(s: &str) -> (r: String)
    ensures
        r@ == trimmed(s@),
{
    let mut chars = chars_of(s);
    while chars.len() > 0 && white(chars[0])
        invariant
            trimmed_start(chars@) == trimmed_start(s@),
        decreases chars.len(),
    {
        let ghost before = chars@;
        chars.remove(0);
        assert(chars@ =~= before.subrange(1, before.len() as int));
    }
    assert(chars@ == trimmed_start(s@));
    while chars.len() > 0 && white(chars[chars.len() - 1])
        invariant
            trimmed_end(chars@) == trimmed(s@),
        decreases chars.len(),
    {
        let ghost before = chars@;
        chars.pop();
        assert(chars@ =~= before.drop_last());
    }
    text_of(&chars)
}

/// A character with an upper-case ASCII letter made lower case.
pub open spec fn lower_char(c: char) -> char {
    if 'A' <= c <= 'Z' {
        (c as u32 + 32) as char
    } else {
        c
    }
}

/// A text with its upper-case ASCII letters made lower case.
pub open spec fn ascii_lower(s: Seq<char>) -> Seq<char> {
    s.map_values(|c: char| lower_char(c))
}

fn lowered(c: char) -> (r: char)
    ensures
        r == lower_char(c),
{
    if 'A' <= c && c <= 'Z' {
        let u: u8 = (c as u8) + 32;
        u as char
    } else {
        c
    }
}

/// A text with its upper-case ASCII letters made lower case.
pub fn to_ascii_lower(s: &str) -> (r: String)
    ensures
        r@ == ascii_lower(s@),
{
    let chars = chars_of(s);
    let mut out = String::new();
    let mut i: usize = 0;
    while i < chars.len()
        invariant
            i <= chars.len(),
            chars@ == s@,
            out@.len() == i,
            forall|j: int| 0 <= j < i ==> out@[j] == lower_char(s@[j]),
        decreases chars.len() - i,
    {
        out.push(lowered(chars[i]));
        i = i + 1;
    }
    assert(out@ =~= ascii_lower(s@));
    out
}

/// The parts of a text between the places where `c` stands.
pub open spec fn split_on(s: Seq<char>, c: char) -> Seq<Seq<char>>
    decreases s.len(),
{
    if s.len() == 0 {
        seq![Seq::empty()]
    } else {
        let init = split_on(s.drop_last(), c);
        if s.last() == c {
            init.push(Seq::empty())
        } else {
            init.update(init.len() - 1, init.last().push(s.last()))
        }
    }
}

/// The characters of each of several lists.
pub open spec fn parts_view(parts: Seq<String>) -> Seq<Seq<char>> {
    parts.map_values(|p: String| p@)
}

/// The parts of a text between the places where `c` stands.
pub fn split(s: &str, c: char) -> (out: Vec<String>)
    ensures
        parts_view(out@) == split_on(s@, c),
        out@.len() > 0,
{
    let chars = chars_of(s);
    let mut out: Vec<String> = Vec::new();
    let mut part = String::new();
    let mut i: usize = 0;
    assert(parts_view(out@).push(part@) =~= split_on(s@.subrange(0, 0), c));
    while i < chars.len()
        invariant
            i <= chars.len(),
            chars@ == s@,
            parts_view(out@).push(part@) == split_on(s@.subrange(0, i as int), c),
        decreases chars.len() - i,
    {
        let ghost pre = s@.subrange(0, i + 1);
        let ghost had = out@;
        let ghost so_far = part@;
        assert(pre.drop_last() =~= s@.subrange(0, i as int));
        assert(pre.last() == chars@[i as int]);
        if chars[i] == c {
            out.push(part);
            part = String::new();
            assert(parts_view(out@).push(part@) =~= parts_view(had).push(so_far).push(
                Seq::<char>::empty(),
            ));
        } else {
            part.push(chars[i]);
            let ghost init = parts_view(had).push(so_far);
            assert(parts_view(out@).push(part@) =~= init.update(
                init.len() - 1,
                init.last().push(pre.last()),
            ));
        }
        i = i + 1;
    }
    assert(s@.subrange(0, s@.len() as int) =~= s@);
    let ghost had = out@;
    let ghost last = part@;
    out.push(part);
    assert(parts_view(out@) =~= parts_view(had).push(last));
    out
}

/// A text with every place of `from` replaced by `to`: from the start on, each
/// place that begins behind the one before it.
pub open spec fn replaced(s: Seq<char>, from: Seq<char>, to: Seq<char>) -> Seq<char>
    decreases s.len(),
    when from.len() > 0
{
    if s.len() == 0 {
        Seq::empty()
    } else if begins(s, from) {
        to + replaced(s.subrange(from.len() as int, s.len() as int), from, to)
    } else {
        seq![s[0]] + replaced(s.subrange(1, s.len() as int), from, to)
    }
}

/// A text with every place of `from` replaced by `to`.
pub fn replace(s: &str, from: &str, to: &str) -> (r: String)
    requires
        from@.len() > 0,
    ensures
        r@ == replaced(s@, from@, to@),
{
    let chars = chars_of(s);
    let mark = chars_of(from);
    let mut out = String::new();
    let mut i: usize = 0;
    assert(chars@.subrange(0, chars@.len() as int) =~= chars@);
    assert(out@ + replaced(chars@, from@, to@) =~= replaced(s@, from@, to@));
    while i < chars.len()
        invariant
            i <= chars.len(),
            chars@ == s@,
            mark@ == from@,
            from@.len() > 0,
            out@ + replaced(chars@.subrange(i as int, chars@.len() as int), from@, to@)
                == replaced(s@, from@, to@),
        decreases chars.len() - i,
    {
        let ghost rest = chars@.subrange(i as int, chars@.len() as int);
        let ghost before = out@;
        if stands_at(&chars, &mark, i) {
            proof {
                assert(rest.subrange(0, from@.len() as int) =~= chars@.subrange(
                    i as int,
                    i + from@.len(),
                ));
                assert(begins(rest, from@));
                assert(rest.subrange(from@.len() as int, rest.len() as int) =~= chars@.subrange(
                    i + from@.len(),
                    chars@.len() as int,
                ));
            }
            out.append(to);
            i = i + mark.len();
            assert(out@ + replaced(
                chars@.subrange(i as int, chars@.len() as int),
                from@,
                to@,
            ) =~= before + replaced(rest, from@, to@));
        } else {
            proof {
                if begins(rest, from@) {
                    assert(rest.subrange(0, from@.len() as int) =~= chars@.subrange(
                        i as int,
                        i + from@.len(),
                    ));
                }
                assert(rest.subrange(1, rest.len() as int) =~= chars@.subrange(
                    i + 1,
                    chars@.len() as int,
                ));
            }
            out.push(chars[i]);
            i = i + 1;
            assert(out@ + replaced(
                chars@.subrange(i as int, chars@.len() as int),
                from@,
                to@,
            ) =~= before + replaced(rest, from@, to@));
        }
    }
    proof {
        assert(chars@.subrange(i as int, chars@.len() as int) =~= Seq::<char>::empty());
        assert(out@ =~= out@ + Seq::<char>::empty());
    }
    out
}

/// Whether `a` comes before `b` in the order of texts: character by character,
/// by code point.
pub open spec fn comes_before(a: Seq<char>, b: Seq<char>) -> bool
    decreases a.len(),
{
    if b.len() == 0 {
        false
    } else if a.len() == 0 {
        true
    } else if a[0] != b[0] {
        (a[0] as int) < (b[0] as int)
    } else {
        comes_before(a.subrange(1, a.len() as int), b.subrange(1, b.len() as int))
    }
}

/// No text comes before itself.
pub proof fn order_is_irreflexive(a: Seq<char>)
    ensures
        !comes_before(a, a),
    decreases a.len(),
{
    if a.len() > 0 {
        order_is_irreflexive(a.subrange(1, a.len() as int));
    }
}

/// The order of texts is transitive.
pub proof fn order_is_transitive(a: Seq<char>, b: Seq<char>, c: Seq<char>)
    requires
        comes_before(a, b),
        comes_before(b, c),
    ensures
        comes_before(a, c),
    decreases a.len(),
{
    if a.len() > 0 && a[0] == b[0] && b[0] == c[0] {
        order_is_transitive(
            a.subrange(1, a.len() as int),
            b.subrange(1, b.len() as int),
            c.subrange(1, c.len() as int),
        );
    }
}

/// Of two different texts one comes before the other.
pub proof fn order_is_total(a: Seq<char>, b: Seq<char>)
    ensures
        comes_before(a, b) || comes_before(b, a) || a == b,
    decreases a.len(),
{
    if a.len() == 0 {
        if b.len() == 0 {
            assert(a =~= b);
        }
    } else if b.len() > 0 && a[0] != b[0] {
        assert(a[0] as int != b[0] as int);
    } else if b.len() > 0 {
        let x = a.subrange(1, a.len() as int);
        let y = b.subrange(1, b.len() as int);
        order_is_total(x, y);
        if x == y {
            assert(a =~= seq![a[0]] + x);
            assert(b =~= seq![b[0]] + y);
        }
    }
}

/// Whether `a` comes before `b` in the order of texts.
pub fn is_before(a: &str, b: &str) -> (r: bool)
    ensures
        r == comes_before(a@, b@),
{
    let x = chars_of(a);
    let y = chars_of(b);
    let mut i: usize = 0;
    assert(x@.subrange(0, x@.len() as int) =~= x@);
    assert(y@.subrange(0, y@.len() as int) =~= y@);
    while i < x.len() && i < y.len()
        invariant
            i <= x.len(),
            i <= y.len(),
            comes_before(a@, b@) == comes_before(
                x@.subrange(i as int, x@.len() as int),
                y@.subrange(i as int, y@.len() as int),
            ),
        decreases x.len() - i,
    {
        let ghost p = x@.subrange(i as int, x@.len() as int);
        let ghost q = y@.subrange(i as int, y@.len() as int);
        assert(p[0] == x@[i as int] && q[0] == y@[i as int]);
        assert(p.subrange(1, p.len() as int) =~= x@.subrange(i + 1, x@.len() as int));
        assert(q.subrange(1, q.len() as int) =~= y@.subrange(i + 1, y@.len() as int));
        let c: char = x[i];
        let d: char = y[i];
        if c != d {
            return c < d;
        }
        i = i + 1;
    }
    i < y.len()
}

/// Whether texts stand in their order, none of them twice.
pub open spec fn ascending(list: Seq<Seq<char>>) -> bool {
    forall|i: int, j: int| 0 <= i < j < list.len() ==> comes_before(list[i], list[j])
}

/// Puts a text into its place among ascending ones, unless it is there.
pub fn insert_ascending(list: &mut Vec<String>, s: &str)
    requires
        ascending(parts_view(old(list)@)),
    ensures
        ascending(parts_view(final(list)@)),
        forall|x: Seq<char>|
            #![trigger parts_view(final(list)@).contains(x)]
            parts_view(final(list)@).contains(x) <==> (parts_view(old(list)@).contains(x) || x
                == s@),
{
    let ghost before = parts_view(list@);
    let mut i: usize = 0;
    while i < list.len() && is_before(list[i].as_str(), s)
        invariant
            i <= list.len(),
            before == parts_view(list@),
            forall|j: int| 0 <= j < i ==> comes_before(#[trigger] before[j], s@),
        decreases list.len() - i,
    {
        assert(before[i as int] == list@[i as int]@);
        i = i + 1;
    }
    if i < list.len() && same(list[i].as_str(), s) {
        assert(before[i as int] == s@);
        assert forall|x: Seq<char>| #[trigger] before.contains(x) <==> (before.contains(x) || x
            == s@) by {
            if x == s@ {
                assert(before[i as int] == x);
            }
        }
        return ;
    }
    let ghost at = i as int;
    proof {
        if i < list.len() {
            assert(before[at] == list@[at]@);
            order_is_total(before[at], s@);
        }
    }
    list.insert(i, s.to_owned());
    proof {
        let after = parts_view(list@);
        assert(after =~= before.insert(at, s@));
        assert forall|a: int, b: int| 0 <= a < b < after.len() implies comes_before(
            after[a],
            after[b],
        ) by {
            if b < at {
                assert(after[a] == before[a] && after[b] == before[b]);
            } else if b == at {
                assert(after[a] == before[a]);
            } else if a < at {
                assert(after[a] == before[a] && after[b] == before[b - 1]);
            } else if a == at {
                assert(after[b] == before[b - 1]);
                if b - 1 > at {
                    order_is_transitive(s@, before[at], before[b - 1]);
                }
            } else {
                assert(after[a] == before[a - 1] && after[b] == before[b - 1]);
            }
        }
        assert forall|x: Seq<char>| #[trigger] after.contains(x) <==> (before.contains(x) || x
            == s@) by {
            if before.contains(x) {
                let k = choose|k: int| 0 <= k < before.len() && before[k] == x;
                if k < at {
                    assert(after[k] == x);
                } else {
                    assert(after[k + 1] == x);
                }
            }
            if x == s@ {
                assert(after[at] == x);
            }
            if after.contains(x) {
                let k = choose|k: int| 0 <= k < after.len() && after[k] == x;
                if k < at {
                    assert(before[k] == x);
                } else if k > at {
                    assert(before[k - 1] == x);
                }
            }
        }
    }
}

proof fn last_is_greatest(list: Seq<Seq<char>>, x: Seq<char>)
    requires
        ascending(list),
        list.contains(x),
        x != list.last(),
    ensures
        comes_before(x, list.last()),
{
    let i = choose|i: int| 0 <= i < list.len() && list[i] == x;
    assert(comes_before(list[i], list[list.len() - 1]));
}

/// Ascending texts are determined by which texts they are.
pub proof fn ascending_is_unique(a: Seq<Seq<char>>, b: Seq<Seq<char>>)
    requires
        ascending(a),
        ascending(b),
        forall|x: Seq<char>| #[trigger] a.contains(x) <==> b.contains(x),
    ensures
        a == b,
    decreases a.len(),
{
    if a.len() == 0 {
        if b.len() > 0 {
            assert(b.contains(b[0]));
            assert(a.contains(b[0]));
        }
        assert(a =~= b);
    } else {
        assert(a.contains(a[0]));
        assert(b.contains(a[0]));
        let x = a.last();
        let y = b.last();
        assert(a[a.len() - 1] == x && a.contains(x));
        assert(b[b.len() - 1] == y && b.contains(y));
        assert(b.contains(x) && a.contains(y));
        if x != y {
            last_is_greatest(b, x);
            last_is_greatest(a, y);
            order_is_transitive(x, y, x);
            order_is_irreflexive(x);
        }
        let p = a.drop_last();
        let q = b.drop_last();
        assert forall|z: Seq<char>| #[trigger] p.contains(z) <==> q.contains(z) by {
            if p.contains(z) {
                let i = choose|i: int| 0 <= i < p.len() && p[i] == z;
                assert(a[i] == z);
                assert(comes_before(a[i], a[a.len() - 1]));
                order_is_irreflexive(x);
                assert(a.contains(z));
                let j = choose|j: int| 0 <= j < b.len() && b[j] == z;
                assert(q[j] == z);
            }
            if q.contains(z) {
                let i = choose|i: int| 0 <= i < q.len() && q[i] == z;
                assert(b[i] == z);
                assert(comes_before(b[i], b[b.len() - 1]));
                order_is_irreflexive(x);
                assert(b.contains(z));
                assert(a.contains(z));
                let j = choose|j: int| 0 <= j < a.len() && a[j] == z;
                assert(p[j] == z);
            }
        }
        assert forall|i: int, j: int| 0 <= i < j < p.len() implies comes_before(p[i], p[j]) by {
            assert(p[i] == a[i] && p[j] == a[j]);
        }
        assert forall|i: int, j: int| 0 <= i < j < q.len() implies comes_before(q[i], q[j]) by {
            assert(q[i] == b[i] && q[j] == b[j]);
        }
        ascending_is_unique(p, q);
        assert(a =~= p.push(x));
        assert(b =~= q.push(y));
    }
}

proof fn inserted(a: Seq<Seq<char>>, s: Seq<char>) -> (b: Seq<Seq<char>>)
    requires
        ascending(a),
    ensures
        ascending(b),
        forall|x: Seq<char>| #[trigger] b.contains(x) <==> (a.contains(x) || x == s),
    decreases a.len(),
{
    if a.len() == 0 {
        let b = seq![s];
        assert(b[0] == s);
        b
    } else {
        let last = a.last();
        let init = a.drop_last();
        assert(a[a.len() - 1] == last);
        order_is_total(last, s);
        if last == s {
            a
        } else if comes_before(last, s) {
            let b = a.push(s);
            assert forall|i: int, j: int| 0 <= i < j < b.len() implies comes_before(
                b[i],
                b[j],
            ) by {
                if j == a.len() && i < a.len() - 1 {
                    assert(comes_before(a[i], a[a.len() - 1]));
                    order_is_transitive(a[i], last, s);
                }
            }
            assert forall|x: Seq<char>| #[trigger] b.contains(x) <==> (a.contains(x) || x == s) by {
                if a.contains(x) {
                    let k = choose|k: int| 0 <= k < a.len() && a[k] == x;
                    assert(b[k] == x);
                }
                assert(b[a.len() as int] == s);
            }
            b
        } else {
            assert forall|i: int, j: int| 0 <= i < j < init.len() implies comes_before(
                init[i],
                init[j],
            ) by {
                assert(init[i] == a[i] && init[j] == a[j]);
            }
            let c = inserted(init, s);
            let b = c.push(last);
            assert forall|i: int, j: int| 0 <= i < j < b.len() implies comes_before(
                b[i],
                b[j],
            ) by {
                if j == c.len() {
                    assert(c.contains(c[i]));
                    if c[i] != s {
                        let k = choose|k: int| 0 <= k < init.len() && init[k] == c[i];
                        assert(comes_before(a[k], a[a.len() - 1]));
                    }
                }
            }
            assert forall|x: Seq<char>| #[trigger] b.contains(x) <==> (a.contains(x) || x == s) by {
                assert(b[c.len() as int] == last);
                if b.contains(x) {
                    let k = choose|k: int| 0 <= k < b.len() && b[k] == x;
                    if k < c.len() {
                        assert(c[k] == x);
                        assert(c.contains(x));
                        if x != s {
                            let h = choose|h: int| 0 <= h < init.len() && init[h] == x;
                            assert(a[h] == x);
                        }
                    }
                }
                if a.contains(x) || x == s {
                    if x != last {
                        if x != s {
                            let h = choose|h: int| 0 <= h < a.len() && a[h] == x;
                            assert(init[h] == x);
                        }
                        assert(c.contains(x));
                        let k = choose|k: int| 0 <= k < c.len() && c[k] == x;
                        assert(b[k] == x);
                    }
                }
            }
            b
        }
    }
}

/// Any texts can be put in order, none of them twice.
pub proof fn ascending_exists(list: Seq<Seq<char>>) -> (a: Seq<Seq<char>>)
    ensures
        ascending(a),
        forall|x: Seq<char>| #[trigger] a.contains(x) <==> list.contains(x),
    decreases list.len(),
{
    if list.len() == 0 {
        let a = Seq::<Seq<char>>::empty();
        a
    } else {
        let init = list.drop_last();
        let b = ascending_exists(init);
        let a = inserted(b, list.last());
        assert forall|x: Seq<char>| #[trigger] a.contains(x) <==> list.contains(x) by {
            assert(list[list.len() - 1] == list.last());
            if list.contains(x) {
                let k = choose|k: int| 0 <= k < list.len() && list[k] == x;
                if k < init.len() {
                    assert(init[k] == x);
                }
            }
            if init.contains(x) {
                let k = choose|k: int| 0 <= k < init.len() && init[k] == x;
                assert(list[k] == x);
            }
            assert(b.contains(x) <==> init.contains(x));
        }
        a
    }
}

/// Trimming takes white space off both ends and nothing else: what is left
/// neither begins nor ends with white space.
pub proof fn trimming_takes_white_ends(s: Seq<char>) -> (r: (Seq<char>, Seq<char>))
    ensures
        s == r.0 + trimmed(s) + r.1,
        forall|i: int| 0 <= i < r.0.len() ==> is_white(#[trigger] r.0[i]),
        forall|i: int| 0 <= i < r.1.len() ==> is_white(#[trigger] r.1[i]),
        trimmed(s).len() > 0 ==> !is_white(trimmed(s)[0]) && !is_white(trimmed(s).last()),
{
    let a = white_start(s);
    let mid = trimmed_start(s);
    let b = white_end(mid);
    assert(s =~= a + trimmed(s) + b);
    if trimmed(s).len() > 0 {
        assert(trimmed(s)[0] == mid[0]);
    }
    (a, b)
}

proof fn white_start(s: Seq<char>) -> (a: Seq<char>)
    ensures
        s == a + trimmed_start(s),
        forall|i: int| 0 <= i < a.len() ==> is_white(#[trigger] a[i]),
        trimmed_start(s).len() > 0 ==> !is_white(trimmed_start(s)[0]),
    decreases s.len(),
{
    if s.len() > 0 && is_white(s[0]) {
        let rest = s.subrange(1, s.len() as int);
        let a = white_start(rest);
        let all = seq![s[0]] + a;
        assert(s =~= seq![s[0]] + rest);
        assert(s =~= all + trimmed_start(s));
        all
    } else {
        assert(s =~= Seq::<char>::empty() + s);
        Seq::empty()
    }
}

proof fn white_end(s: Seq<char>) -> (b: Seq<char>)
    ensures
        s == trimmed_end(s) + b,
        forall|i: int| 0 <= i < b.len() ==> is_white(#[trigger] b[i]),
        trimmed_end(s).len() > 0 ==> !is_white(trimmed_end(s).last()),
    decreases s.len(),
{
    if s.len() > 0 && is_white(s.last()) {
        let b = white_end(s.drop_last());
        let all = b.push(s.last());
        assert(s =~= s.drop_last().push(s.last()));
        assert(s =~= trimmed_end(s) + all);
        all
    } else {
        assert(s =~= s + Seq::<char>::empty());
        Seq::empty()
    }
}

/// Lower case has no upper-case ASCII letter left, keeps all other characters,
/// and is the same letter of the alphabet.
pub proof fn lower_case_keeps_the_rest(s: Seq<char>)
    ensures
        ascii_lower(s).len() == s.len(),
        forall|i: int|
            0 <= i < s.len() ==> {
                let c = #[trigger] ascii_lower(s)[i];
                &&& !('A' <= c <= 'Z')
                &&& !('A' <= s[i] <= 'Z') ==> c == s[i]
                &&& 'A' <= s[i] <= 'Z' ==> c as int - 'a' as int == s[i] as int - 'A' as int
            },
        ascii_lower(ascii_lower(s)) == ascii_lower(s),
{
    assert(ascii_lower(ascii_lower(s)) =~= ascii_lower(s));
}

/// Parts with `c` between them.
pub open spec fn joined_by(parts: Seq<Seq<char>>, c: char) -> Seq<char>
    decreases parts.len(),
{
    if parts.len() == 0 {
        Seq::empty()
    } else if parts.len() == 1 {
        parts[0]
    } else {
        joined_by(parts.drop_last(), c).push(c) + parts.last()
    }
}

/// The parts of a text, put together again, are the text, and none of them holds
/// what parts them.
pub proof fn parts_make_up_the_text(s: Seq<char>, c: char)
    ensures
        split_on(s, c).len() > 0,
        joined_by(split_on(s, c), c) == s,
        forall|i: int| 0 <= i < split_on(s, c).len() ==> !(#[trigger] split_on(s, c)[i]).contains(c),
    decreases s.len(),
{
    let parts = split_on(s, c);
    if s.len() == 0 {
        assert(joined_by(parts, c) =~= s);
    } else {
        let init = split_on(s.drop_last(), c);
        parts_make_up_the_text(s.drop_last(), c);
        assert(s =~= s.drop_last().push(s.last()));
        if s.last() == c {
            assert(parts.drop_last() =~= init);
            assert(joined_by(parts, c) =~= s);
        } else {
            assert(parts.drop_last() =~= init.drop_last());
            assert(parts.last() == init.last().push(s.last()));
            assert(joined_by(parts, c) =~= s);
            assert forall|i: int| 0 <= i < parts.len() implies !(#[trigger] parts[i]).contains(
                c,
            ) by {
                if i < parts.len() - 1 {
                    assert(parts[i] == init[i]);
                } else {
                    let part = parts[i];
                    assert(!init[i].contains(c));
                    if part.contains(c) {
                        let k = choose|k: int| 0 <= k < part.len() && part[k] == c;
                        assert(init[i][k] == c);
                    }
                }
            }
        }
    }
}

/// Replacing what does not occur, or by itself, changes nothing.
pub proof fn replacing_nothing_changes_nothing(s: Seq<char>, from: Seq<char>, to: Seq<char>)
    requires
        from.len() > 0,
    ensures
        !occurs(s, from) ==> replaced(s, from, to) == s,
        replaced(s, from, from) == s,
    decreases s.len(),
{
    if s.len() > 0 {
        let rest = s.subrange(1, s.len() as int);
        if begins(s, from) {
            let behind = s.subrange(from.len() as int, s.len() as int);
            replacing_nothing_changes_nothing(behind, from, to);
            assert(s =~= s.subrange(0, from.len() as int) + behind);
            assert(occurs_at(s, from, 0));
        } else {
            replacing_nothing_changes_nothing(rest, from, to);
            assert(s =~= seq![s[0]] + rest);
            if occurs(rest, from) {
                let i = choose|i: int| occurs_at(rest, from, i);
                assert(s.subrange(i + 1, i + 1 + from.len()) =~= rest.subrange(i, i + from.len()));
                assert(occurs_at(s, from, i + 1));
            }
        }
    }
}

/// Replacing goes from the start on: the first place is replaced, and what comes
/// behind it is replaced on its own.
pub proof fn the_first_place_is_replaced(
    head: Seq<char>,
    from: Seq<char>,
    behind: Seq<char>,
    to: Seq<char>,
)
    requires
        from.len() > 0,
        forall|i: int|
            0 <= i < head.len() ==> !(#[trigger] occurs_at(head + from + behind, from, i)),
    ensures
        replaced(head + from + behind, from, to) == head + to + replaced(behind, from, to),
    decreases head.len(),
{
    let s = head + from + behind;
    if head.len() == 0 {
        assert(s.subrange(0, from.len() as int) =~= from);
        assert(s.subrange(from.len() as int, s.len() as int) =~= behind);
        assert(replaced(s, from, to) =~= head + to + replaced(behind, from, to));
    } else {
        let tail = head.subrange(1, head.len() as int);
        let rest = s.subrange(1, s.len() as int);
        assert(rest =~= tail + from + behind);
        assert forall|i: int| 0 <= i < tail.len() implies !(#[trigger] occurs_at(
            tail + from + behind,
            from,
            i,
        )) by {
            assert(!occurs_at(s, from, i + 1));
            if occurs_at(rest, from, i) {
                assert(s.subrange(i + 1, i + 1 + from.len()) =~= rest.subrange(i, i + from.len()));
            }
        }
        the_first_place_is_replaced(tail, from, behind, to);
        assert(!occurs_at(s, from, 0));
        assert(s[0] == head[0]);
        assert(replaced(s, from, to) =~= head + to + replaced(behind, from, to));
    }
}

/// The first difference decides which text comes first, and a text comes before
/// what continues it.
pub proof fn the_first_difference_decides(
    head: Seq<char>,
    x: char,
    a: Seq<char>,
    y: char,
    b: Seq<char>,
)
    requires
        (x as int) < (y as int),
    ensures
        comes_before(head.push(x) + a, head.push(y) + b),
        !comes_before(head.push(y) + b, head.push(x) + a),
        comes_before(head, head.push(x) + a),
    decreases head.len(),
{
    let (p, q) = (head.push(x) + a, head.push(y) + b);
    if head.len() > 0 {
        let tail = head.subrange(1, head.len() as int);
        the_first_difference_decides(tail, x, a, y, b);
        assert(p.subrange(1, p.len() as int) =~= tail.push(x) + a);
        assert(q.subrange(1, q.len() as int) =~= tail.push(y) + b);
    }
}

/// A number is written without leading zeros.
pub proof fn numbers_have_no_leading_zeros(n: nat)
    ensures
        decimal(n).len() > 0,
        n > 0 ==> decimal(n)[0] != '0',
        decimal(n).len() == 1 <==> n < 10,
    decreases n,
{
    if n >= 10 {
        numbers_have_no_leading_zeros(n / 10);
    }
}

} // verus!
