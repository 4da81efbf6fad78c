//! Text as sequences of characters: comparing, trimming, splitting and
//! writing numbers.

use vstd::arithmetic::div_mod::lemma_mod_breakdown;
use vstd::arithmetic::power::{lemma_pow0, lemma_pow1, lemma_pow_adds, lemma_pow_positive, pow};
use vstd::prelude::*;

verus! {

/// [`String::push`]: the character goes behind what the string holds.
pub assume_specification[ String::push ](receiver: &mut String, ch: char)
    ensures
        final(receiver)@ == old(receiver)@.push(ch),
;

/// What each string holds.
pub open spec fn texts(strings: Seq<String>) -> Seq<Seq<char>> {
    strings.map_values(|s: String| s@)
}

/// What each string slice holds.
pub open spec fn str_texts(strings: Seq<&str>) -> Seq<Seq<char>> {
    strings.map_values(|s: &str| s@)
}

/// `c` with an upper case ASCII letter made lower case.
pub open spec fn ascii_lower(c: char) -> char {
    if 'A' <= c <= 'Z' {
        (c as u32 + 32) as char
    } else {
        c
    }
}

/// Equal but for the case of ASCII letters.
pub open spec fn equal_ignoring_case(a: Seq<char>, b: Seq<char>) -> bool {
    a.map_values(|c: char| ascii_lower(c)) == b.map_values(|c: char| ascii_lower(c))
}

/// Unicode's `White_Space` property.
pub open spec fn is_white_space(c: char) -> bool {
    ||| '\u{9}' <= c <= '\u{d}'
    ||| c == '\u{20}'
    ||| c == '\u{85}'
    ||| c == '\u{a0}'
    ||| c == '\u{1680}'
    ||| '\u{2000}' <= c <= '\u{200a}'
    ||| c == '\u{2028}'
    ||| c == '\u{2029}'
    ||| c == '\u{202f}'
    ||| c == '\u{205f}'
    ||| c == '\u{3000}'
}

/// `s` from its first character that `drop` does not hold of.
pub open spec fn trimmed_start(s: Seq<char>, drop: spec_fn(char) -> bool) -> Seq<char>
    decreases s.len(),
{
    if s.len() > 0 && drop(s.first()) {
        trimmed_start(s.drop_first(), drop)
    } else {
        s
    }
}

/// `s` up to its last character that `drop` does not hold of.
pub open spec fn trimmed_end(s: Seq<char>, drop: spec_fn(char) -> bool) -> Seq<char>
    decreases s.len(),
{
    if s.len() > 0 && drop(s.last()) {
        trimmed_end(s.drop_last(), drop)
    } else {
        s
    }
}

/// `s` without white space at either end.
pub open spec fn trimmed(s: Seq<char>) -> Seq<char> {
    trimmed_end(trimmed_start(s, |c: char| is_white_space(c)), |c: char| is_white_space(c))
}

/// The parts of `s` between the characters `separator`: one more than there
/// are separators.
pub open spec fn parts(s: Seq<char>, separator: char) -> Seq<Seq<char>>
    decreases s.len(),
{
    if s.len() == 0 {
        seq![Seq::empty()]
    } else {
        let before = parts(s.drop_last(), separator);
        if s.last() == separator {
            before.push(Seq::empty())
        } else {
            before.drop_last().push(before.last().push(s.last()))
        }
    }
}

/// The characters of `s`.
pub fn chars(s: &str) -> (chars: Vec<char>)
    ensures
        chars@ == s@,
{
    let mut chars: Vec<char> = Vec::new();
    for c in it: s.chars()
        invariant
            it.seq() == s@,
            chars@ == s@.subrange(0, it.index()),
    {
        chars.push(c);
    }
    chars
}

/// The string of the characters from `from` up to `to`.
pub fn string(chars: &[char], from: usize, to: usize) -> (s: String)
    requires
        from <= to <= chars@.len(),
    ensures
        s@ == chars@.subrange(from as int, to as int),
{
    let mut s = String::new();
    let mut i: usize = from;
    while i < to
        invariant
            from <= i <= to <= chars@.len(),
            s@ =~= chars@.subrange(from as int, i as int),
        decreases to - i,
    {
        s.push(chars[i]);
        i = i + 1;
    }
    s
}

/// Whether two texts are equal.
pub fn same(a: &str, b: &str) -> (same: bool)
    ensures
        same == (a@ == b@),
{
    let (x, y) = (chars(a), chars(b));
    if x.len() != y.len() {
        return false;
    }
    let mut i: usize = 0;
    while i < x.len()
        invariant
            i <= x.len() == y.len(),
            x@ == a@,
            y@ == b@,
            x@.subrange(0, i as int) =~= y@.subrange(0, i as int),
        decreases x.len() - i,
    {
        if x[i] != y[i] {
            return false;
        }
        i = i + 1;
    }
    assert(x@ =~= x@.subrange(0, i as int));
    assert(y@ =~= y@.subrange(0, i as int));
    true
}

/// Upper case ASCII letters made lower case.
pub fn to_ascii_lowercase(c: char) -> (lower: char)
    ensures
        lower == ascii_lower(c),
{
    if 'A' <= c && c <= 'Z' {
        (c as u8 + 32) as char
    } else {
        c
    }
}

/// Whether two texts are equal but for the case of ASCII letters.
pub fn eq_ignore_ascii_case(a: &str, b: &str) -> (equal: bool)
    ensures
        equal == equal_ignoring_case(a@, b@),
{
    let (x, y) = (chars(a), chars(b));
    let ghost p = a@.map_values(|c: char| ascii_lower(c));
    let ghost q = b@.map_values(|c: char| ascii_lower(c));
    if x.len() != y.len() {
        assert(p.len() != q.len());
        return false;
    }
    let mut i: usize = 0;
    while i < x.len()
        invariant
            i <= x.len() == y.len(),
            x@ == a@,
            y@ == b@,
            p == a@.map_values(|c: char| ascii_lower(c)),
            q == b@.map_values(|c: char| ascii_lower(c)),
            p.subrange(0, i as int) =~= q.subrange(0, i as int),
        decreases x.len() - i,
    {
        if to_ascii_lowercase(x[i]) != to_ascii_lowercase(y[i]) {
            assert(p[i as int] != q[i as int]);
            return false;
        }
        i = i + 1;
    }
    assert(p =~= p.subrange(0, i as int));
    assert(q =~= q.subrange(0, i as int));
    true
}

/// Whether `c` has Unicode's `White_Space` property.
pub fn white_space(c: char) -> (is: bool)
    ensures
        is == is_white_space(c),
{
    ('\u{9}' <= c && c <= '\u{d}') || c == '\u{20}' || c == '\u{85}' || c == '\u{a0}' || c
        == '\u{1680}' || ('\u{2000}' <= c && c <= '\u{200a}') || c == '\u{2028}' || c == '\u{2029}'
        || c == '\u{202f}' || c == '\u{205f}' || c == '\u{3000}'
}

/// `s` without white space at either end.
pub fn trim(s: &str) -> (t: String)
    ensures
        t@ == trimmed(s@),
{
    let cs = chars(s);
    let ghost drop = |c: char| is_white_space(c);
    let mut from: usize = 0;
    assert(cs@.subrange(0, cs@.len() as int) =~= s@);
    while from < cs.len() && white_space(cs[from])
        invariant
            from <= cs@.len(),
            drop == (|c: char| is_white_space(c)),
            trimmed_start(cs@.subrange(from as int, cs@.len() as int), drop) == trimmed_start(
                s@,
                drop,
            ),
        decreases cs.len() - from,
    {
        assert(cs@.subrange(from as int, cs@.len() as int).drop_first() =~= cs@.subrange(
            from + 1,
            cs@.len() as int,
        ));
        from = from + 1;
    }
    assert(trimmed_start(s@, drop) == cs@.subrange(from as int, cs@.len() as int));
    let mut to: usize = cs.len();
    while to > from && white_space(cs[to - 1])
        invariant
            from <= to <= cs@.len(),
            drop == (|c: char| is_white_space(c)),
            trimmed_end(cs@.subrange(from as int, to as int), drop) == trimmed(s@),
        decreases to,
    {
        assert(cs@.subrange(from as int, to as int).drop_last() =~= cs@.subrange(
            from as int,
            to - 1,
        ));
        to = to - 1;
    }
    string(cs.as_slice(), from, to)
}

/// The parts of `s` between the characters `separator`.
pub fn split(s: &str, separator: char) -> (found: Vec<String>)
    ensures
        texts(found@) == parts(s@, separator),
{
    let cs = chars(s);
    let mut found: Vec<String> = Vec::new();
    let mut from: usize = 0;
    let mut i: usize = 0;
    assert(cs@.subrange(0, 0) =~= Seq::<char>::empty());
    assert(texts(found@).push(cs@.subrange(0, 0)) =~= parts(cs@.subrange(0, 0), separator));
    while i < cs.len()
        invariant
            cs@ == s@,
            from <= i <= cs@.len(),
            texts(found@).push(cs@.subrange(from as int, i as int)) == parts(
                cs@.subrange(0, i as int),
                separator,
            ),
        decreases cs.len() - i,
    {
        let ghost before = texts(found@);
        let ghost so_far = cs@.subrange(0, i + 1);
        assert(so_far.drop_last() =~= cs@.subrange(0, i as int));
        assert(before.push(cs@.subrange(from as int, i as int)).drop_last() =~= before);
        if cs[i] == separator {
            found.push(string(cs.as_slice(), from, i));
            from = i + 1;
            assert(texts(found@) =~= before.push(
                parts(cs@.subrange(0, i as int), separator).last(),
            ));
            assert(cs@.subrange(from as int, i + 1) =~= Seq::<char>::empty());
        } else {
            assert(cs@.subrange(from as int, i + 1) =~= cs@.subrange(from as int, i as int).push(
                cs@[i as int],
            ));
        }
        i = i + 1;
    }
    assert(cs@.subrange(0, i as int) =~= s@);
    let ghost before = texts(found@);
    found.push(string(cs.as_slice(), from, i));
    assert(texts(found@) =~= before.push(cs@.subrange(from as int, i as int)));
    found
}

/// The character of a digit below 16, in lower case.
pub open spec fn digit(value: int) -> char {
    if value < 10 {
        ('0' as u32 + value) as char
    } else {
        ('a' as u32 + value - 10) as char
    }
}

/// A number in decimal, without leading zeros.
pub open spec fn decimal(value: nat) -> Seq<char>
    decreases value,
{
    if value < 10 {
        seq![digit(value as int)]
    } else {
        decimal(value / 10).push(digit(value as int % 10))
    }
}

/// An integer in decimal.
pub open spec fn signed_decimal(value: int) -> Seq<char> {
    if value < 0 {
        seq!['-'] + decimal((-value) as nat)
    } else {
        decimal(value as nat)
    }
}

/// `text` behind as many zeros as make it `width` long.
pub open spec fn zero_padded(text: Seq<char>, width: int) -> Seq<char> {
    if text.len() < width {
        Seq::new((width - text.len()) as nat, |i: int| '0') + text
    } else {
        text
    }
}

/// An integer in decimal, with zeros behind the sign where that makes it
/// `width` long.
pub open spec fn padded_decimal(value: int, width: int) -> Seq<char> {
    if value < 0 {
        seq!['-'] + zero_padded(decimal((-value) as nat), width - 1)
    } else {
        zero_padded(decimal(value as nat), width)
    }
}

/// Nothing but digits makes a number.
pub proof fn lemma_decimal(value: nat)
    ensures
        decimal(value).len() > 0,
        forall|i: int| 0 <= i < decimal(value).len() ==> '0' <= #[trigger] decimal(value)[i] <= '9',
    decreases value,
{
    if value >= 10 {
        lemma_decimal(value / 10);
    }
}

/// Nothing but digits and a sign makes an integer.
pub proof fn lemma_padded_decimal(value: int, width: int)
    ensures
        forall|i: int|
            0 <= i < padded_decimal(value, width).len() ==> '0' <= #[trigger] padded_decimal(
                value,
                width,
            )[i] <= '9' || padded_decimal(value, width)[i] == '-',
{
    if value < 0 {
        lemma_decimal((-value) as nat);
    } else {
        lemma_decimal(value as nat);
    }
}

/// The last `count` hexadecimal digits of a number.
pub open spec fn hexadecimal(value: nat, count: nat) -> Seq<char>
    decreases count,
{
    if count == 0 {
        Seq::empty()
    } else {
        hexadecimal(value / 16, (count - 1) as nat).push(digit(value as int % 16))
    }
}

/// As many digits as were asked for.
pub proof fn lemma_hexadecimal_len(value: nat, count: nat)
    ensures
        hexadecimal(value, count).len() == count,
    decreases count,
{
    if count > 0 {
        lemma_hexadecimal_len(value / 16, (count - 1) as nat);
    }
}

/// The texts one behind the other, with `separator` between them.
pub open spec fn separated(texts: Seq<Seq<char>>, separator: Seq<char>) -> Seq<char>
    decreases texts.len(),
{
    if texts.len() == 0 {
        Seq::empty()
    } else if texts.len() == 1 {
        texts[0]
    } else {
        separated(texts.drop_last(), separator) + separator + texts.last()
    }
}

/// The character of a digit below 16, in lower case.
fn digit_char(value: u8) -> (c: char)
    requires
        value < 16,
    ensures
        c == digit(value as int),
{
    if value < 10 {
        (48 + value) as char
    } else {
        (87 + value) as char
    }
}

/// Write a number in decimal to the end of `out`.
pub fn push_decimal(out: &mut String, value: u64)
    ensures
        final(out)@ == old(out)@ + decimal(value as nat),
    decreases value,
{
    let ghost start = out@;
    if value >= 10 {
        push_decimal(out, value / 10);
    }
    out.push(digit_char((value % 10) as u8));
    assert(out@ =~= start + decimal(value as nat));
}

/// Write the last `count` hexadecimal digits of a number to the end of `out`.
pub fn push_hexadecimal(out: &mut String, value: u64, count: usize)
    ensures
        final(out)@ == old(out)@ + hexadecimal(value as nat, count as nat),
    decreases count,
{
    let ghost start = out@;
    if count > 0 {
        push_hexadecimal(out, value / 16, count - 1);
        out.push(digit_char((value % 16) as u8));
    }
    assert(out@ =~= start + hexadecimal(value as nat, count as nat));
}

/// Write an integer in decimal to the end of `out`.
pub fn push_integer(out: &mut String, value: i32)
    ensures
        final(out)@ == old(out)@ + signed_decimal(value as int),
{
    let ghost start = out@;
    let wide: i64 = value as i64;
    if wide < 0 {
        out.push('-');
        push_decimal(out, (-wide) as u64);
    } else {
        push_decimal(out, wide as u64);
    }
    assert(out@ =~= start + signed_decimal(value as int));
}

/// An integer in decimal.
pub fn integer(value: i32) -> (text: String)
    ensures
        text@ == signed_decimal(value as int),
{
    let mut text = String::new();
    push_integer(&mut text, value);
    assert(Seq::<char>::empty() + signed_decimal(value as int) =~= signed_decimal(value as int));
    text
}

/// Write `text` behind as many zeros as make it `width` long.
fn push_zero_padded(out: &mut String, text: &str, width: usize)
    ensures
        final(out)@ == old(out)@ + zero_padded(text@, width as int),
{
    let ghost start = out@;
    let len: usize = text.unicode_len();
    let mut i: usize = len;
    while i < width
        invariant
            len == text@.len(),
            len <= i,
            i <= width || i == len,
            out@ =~= start + Seq::new((i - len) as nat, |k: int| '0'),
        decreases width - i,
    {
        out.push('0');
        i = i + 1;
    }
    out.append(text);
    assert(out@ =~= start + zero_padded(text@, width as int));
}

/// Write an integer in decimal, zero-padded to `width` (see
/// [`padded_decimal`]).
pub fn push_padded(out: &mut String, value: i32, width: usize)
    requires
        width > 0,
    ensures
        final(out)@ == old(out)@ + padded_decimal(value as int, width as int),
{
    let ghost start = out@;
    let wide: i64 = value as i64;
    let mut digits = String::new();
    if wide < 0 {
        push_decimal(&mut digits, (-wide) as u64);
        assert(digits@ =~= decimal((-value) as nat));
        out.push('-');
        push_zero_padded(out, digits.as_str(), width - 1);
    } else {
        push_decimal(&mut digits, wide as u64);
        assert(digits@ =~= decimal(value as nat));
        push_zero_padded(out, digits.as_str(), width);
    }
    assert(out@ =~= start + padded_decimal(value as int, width as int));
}

/// Write texts to the end of `out`, with `separator` between them.
pub fn push_separated(out: &mut String, strings: &Vec<String>, separator: &str)
    ensures
        final(out)@ == old(out)@ + separated(texts(strings@), separator@),
{
    let ghost start = out@;
    let ghost all = texts(strings@);
    let mut i: usize = 0;
    assert(all.take(0) =~= Seq::empty());
    assert(out@ =~= start + separated(all.take(0), separator@));
    while i < strings.len()
        invariant
            i <= strings@.len(),
            all == texts(strings@),
            out@ == start + separated(all.take(i as int), separator@),
        decreases strings.len() - i,
    {
        if i > 0 {
            out.append(separator);
        }
        out.append(strings[i].as_str());
        assert(all.take(i + 1).drop_last() =~= all.take(i as int));
        assert(all.take(i + 1).last() == strings@[i as int]@);
        i = i + 1;
        assert(out@ =~= start + separated(all.take(i as int), separator@));
    }
    assert(all.take(i as int) =~= all);
}

/// `a` doesn't come behind `b`, character by character.
pub open spec fn at_most(a: Seq<char>, b: Seq<char>) -> bool
    decreases a.len(),
{
    if a.len() == 0 {
        true
    } else if b.len() == 0 {
        false
    } else if a.first() == b.first() {
        at_most(a.drop_first(), b.drop_first())
    } else {
        a.first() < b.first()
    }
}

/// Of two texts one doesn't come behind the other.
pub proof fn lemma_at_most_total(a: Seq<char>, b: Seq<char>)
    ensures
        at_most(a, b) || at_most(b, a),
    decreases a.len(),
{
    if a.len() > 0 && b.len() > 0 && a.first() == b.first() {
        lemma_at_most_total(a.drop_first(), b.drop_first());
    }
}

/// The order of texts is transitive.
pub proof fn lemma_at_most_transitive(a: Seq<char>, b: Seq<char>, c: Seq<char>)
    requires
        at_most(a, b),
        at_most(b, c),
    ensures
        at_most(a, c),
    decreases a.len(),
{
    if a.len() > 0 && a.first() == b.first() && b.first() == c.first() {
        lemma_at_most_transitive(a.drop_first(), b.drop_first(), c.drop_first());
    }
}

/// Whether `a` doesn't come behind `b` (see [`at_most`]).
pub fn is_at_most(a: &str, b: &str) -> (is: bool)
    ensures
        is == at_most(a@, b@),
{
    let (x, y) = (chars(a), chars(b));
    let mut i: usize = 0;
    assert(a@.skip(0) =~= a@);
    assert(b@.skip(0) =~= b@);
    while i < x.len() && i < y.len() && x[i] == y[i]
        invariant
            x@ == a@,
            y@ == b@,
            i <= x@.len(),
            i <= y@.len(),
            at_most(a@.skip(i as int), b@.skip(i as int)) == at_most(a@, b@),
        decreases x.len() - i,
    {
        assert(a@.skip(i as int).drop_first() =~= a@.skip(i + 1));
        assert(b@.skip(i as int).drop_first() =~= b@.skip(i + 1));
        i = i + 1;
    }
    if i >= x.len() {
        true
    } else if i >= y.len() {
        false
    } else {
        x[i] < y[i]
    }
}

/// No part holds the separator.
pub proof fn lemma_parts_have_no_separator(s: Seq<char>, separator: char)
    ensures
        parts(s, separator).len() > 0,
        forall|i: int|
            0 <= i < parts(s, separator).len() ==> !(#[trigger] parts(s, separator)[i]).contains(
                separator,
            ),
    decreases s.len(),
{
    let all = parts(s, separator);
    if s.len() > 0 {
        let before = parts(s.drop_last(), separator);
        lemma_parts_have_no_separator(s.drop_last(), separator);
        assert forall|i: int| 0 <= i < all.len() implies !(#[trigger] all[i]).contains(
            separator,
        ) by {
            if i < before.len() - 1 {
                assert(all[i] == before[i]);
            } else if s.last() != separator {
                assert(all[i] == before.last().push(s.last()));
                assert(!before[before.len() - 1].contains(separator));
            } else if i == before.len() - 1 {
                assert(all[i] == before[i]);
            }
        }
    }
}

/// A trimmed text is a stretch of the text that starts and ends with
/// characters that were not dropped.
pub proof fn lemma_trimmed(s: Seq<char>)
    ensures
        trimmed(s).len() > 0 ==> !is_white_space(trimmed(s).first()) && !is_white_space(
            trimmed(s).last(),
        ),
        forall|c: char| trimmed(s).contains(c) ==> s.contains(c),
{
    let drop = |c: char| is_white_space(c);
    lemma_trimmed_start(s, drop);
    lemma_trimmed_end(trimmed_start(s, drop), drop);
}

/// A text trimmed at its start is an end of it that starts with a character
/// that is not dropped.
pub proof fn lemma_trimmed_start(s: Seq<char>, drop: spec_fn(char) -> bool)
    ensures
        trimmed_start(s, drop).len() > 0 ==> !drop(trimmed_start(s, drop).first()),
        forall|c: char| trimmed_start(s, drop).contains(c) ==> s.contains(c),
    decreases s.len(),
{
    if s.len() > 0 && drop(s.first()) {
        lemma_trimmed_start(s.drop_first(), drop);
        assert forall|c: char| s.drop_first().contains(c) implies s.contains(c) by {
            let i = choose|i: int| 0 <= i < s.drop_first().len() && s.drop_first()[i] == c;
            assert(s[i + 1] == c);
        }
    }
}

/// A text trimmed at its end is a start of it that ends with a character that
/// is not dropped.
pub proof fn lemma_trimmed_end(s: Seq<char>, drop: spec_fn(char) -> bool)
    ensures
        trimmed_end(s, drop).len() > 0 ==> !drop(trimmed_end(s, drop).last()) && trimmed_end(
            s,
            drop,
        ).first() == s.first(),
        forall|c: char| trimmed_end(s, drop).contains(c) ==> s.contains(c),
    decreases s.len(),
{
    if s.len() > 0 && drop(s.last()) {
        lemma_trimmed_end(s.drop_last(), drop);
        assert forall|c: char| s.drop_last().contains(c) implies s.contains(c) by {
            let i = choose|i: int| 0 <= i < s.drop_last().len() && s.drop_last()[i] == c;
            assert(s[i] == c);
        }
    }
}

/// The order of texts is the lexicographic one: `a` doesn't come behind `b` if
/// it is a start of `b`, or has the lesser character where they first differ.
pub proof fn law_order_is_lexicographic(a: Seq<char>, b: Seq<char>)
    ensures
        at_most(a, b) <==> (a.len() <= b.len() && b.take(a.len() as int) == a) || (exists|i: int|
            0 <= i < a.len() && i < b.len() && a.take(i) == b.take(i) && #[trigger] a[i] < b[i]),
    decreases a.len(),
{
    if a.len() == 0 {
        assert(b.take(0) =~= a);
    } else if b.len() > 0 {
        let (s, t) = (a.drop_first(), b.drop_first());
        law_order_is_lexicographic(s, t);
        if a.len() <= b.len() {
            lemma_same_first(a, b, a.len() as int);
            assert(a.take(a.len() as int) =~= a);
            assert(s.take(s.len() as int) =~= s);
        }
        if a[0] == b[0] {
            assert forall|i: int| 0 < i < a.len() && i < b.len() implies (a.take(i) == b.take(i))
                == (#[trigger] s.take(i - 1) == t.take(i - 1)) by {
                lemma_same_first(a, b, i);
            }
            if exists|i: int|
                0 <= i < s.len() && i < t.len() && s.take(i) == t.take(i) && #[trigger] s[i]
                    < t[i] {
                let i = choose|i: int|
                    0 <= i < s.len() && i < t.len() && s.take(i) == t.take(i) && #[trigger] s[i]
                        < t[i];
                lemma_same_first(a, b, i + 1);
                assert(a[i + 1] < b[i + 1]);
            }
            if exists|i: int|
                0 <= i < a.len() && i < b.len() && a.take(i) == b.take(i) && #[trigger] a[i]
                    < b[i] {
                let i = choose|i: int|
                    0 <= i < a.len() && i < b.len() && a.take(i) == b.take(i) && #[trigger] a[i]
                        < b[i];
                lemma_same_first(a, b, i);
                assert(s[i - 1] < t[i - 1]);
            }
        } else {
            assert(a.take(0) =~= b.take(0));
            if exists|i: int|
                0 <= i < a.len() && i < b.len() && a.take(i) == b.take(i) && #[trigger] a[i]
                    < b[i] {
                let i = choose|i: int|
                    0 <= i < a.len() && i < b.len() && a.take(i) == b.take(i) && #[trigger] a[i]
                        < b[i];
                if i > 0 {
                    lemma_same_first(a, b, i);
                }
            }
        }
    }
}

/// Two texts start alike if they have the same first character and start alike
/// behind it.
proof fn lemma_same_first(a: Seq<char>, b: Seq<char>, i: int)
    requires
        0 < i <= a.len(),
        i <= b.len(),
    ensures
        a.take(i) == b.take(i) <==> a[0] == b[0] && a.drop_first().take(i - 1)
            == b.drop_first().take(i - 1),
{
    assert(a.take(i) =~= seq![a[0]] + a.drop_first().take(i - 1));
    assert(b.take(i) =~= seq![b[0]] + b.drop_first().take(i - 1));
    assert(a.take(i).drop_first() =~= a.drop_first().take(i - 1));
    assert(b.take(i).drop_first() =~= b.drop_first().take(i - 1));
    assert(a.take(i)[0] == a[0] && b.take(i)[0] == b[0]);
}

/// Of two different texts, only one doesn't come behind the other.
pub proof fn law_order_is_strict(a: Seq<char>, b: Seq<char>)
    requires
        at_most(a, b),
        at_most(b, a),
    ensures
        a == b,
    decreases a.len(),
{
    if a.len() > 0 && b.len() > 0 {
        law_order_is_strict(a.drop_first(), b.drop_first());
        assert(a =~= seq![a[0]] + a.drop_first());
        assert(b =~= seq![b[0]] + b.drop_first());
    } else {
        assert(a =~= b);
    }
}

/// Texts are equal but for case if they are as long as each other, and any two
/// characters at one place are the same, or an ASCII letter in either case.
pub proof fn law_case_is_ignored(a: Seq<char>, b: Seq<char>)
    ensures
        equal_ignoring_case(a, b) <==> a.len() == b.len() && forall|i: int|
            #![trigger a[i]]
            #![trigger b[i]]
            0 <= i < a.len() ==> {
                ||| a[i] == b[i]
                ||| 65 <= a[i] as int <= 90 && b[i] as int == a[i] as int + 32
                ||| 65 <= b[i] as int <= 90 && a[i] as int == b[i] as int + 32
            },
{
    let lower = |c: char| ascii_lower(c);
    let (x, y) = (a.map_values(lower), b.map_values(lower));
    if equal_ignoring_case(a, b) {
        assert(x.len() == a.len() && y.len() == b.len());
        assert forall|i: int| 0 <= i < a.len() implies {
            ||| a[i] == b[i]
            ||| 65 <= a[i] as int <= 90 && b[i] as int == a[i] as int + 32
            ||| 65 <= b[i] as int <= 90 && a[i] as int == b[i] as int + 32
        } by {
            assert(x[i] == y[i]);
        }
    }
    if a.len() == b.len() && forall|i: int|
        #![trigger a[i]]
        #![trigger b[i]]
        0 <= i < a.len() ==> {
            ||| a[i] == b[i]
            ||| 65 <= a[i] as int <= 90 && b[i] as int == a[i] as int + 32
            ||| 65 <= b[i] as int <= 90 && a[i] as int == b[i] as int + 32
        } {
        assert forall|i: int| 0 <= i < x.len() implies x[i] == y[i] by {
            assert(a[i] == b[i] || 65 <= a[i] as int <= 90 || 65 <= b[i] as int <= 90);
        }
        assert(x =~= y);
    }
}

/// White space is what Unicode gives the property: in ASCII the five controls
/// from tab on and the space, and beyond it nineteen characters and no others.
pub proof fn law_white_space(c: char)
    ensures
        c as int <= 0x7f ==> (is_white_space(c) <==> 9 <= c as int <= 13 || c as int == 32),
        c as int > 0x7f ==> (is_white_space(c) <==> set![
            0x85int,
            0xa0,
            0x1680,
            0x2000,
            0x2001,
            0x2002,
            0x2003,
            0x2004,
            0x2005,
            0x2006,
            0x2007,
            0x2008,
            0x2009,
            0x200a,
            0x2028,
            0x2029,
            0x202f,
            0x205f,
            0x3000,
        ].contains(c as int)),
{
}

/// A text trimmed at its start is what is left of it behind a start that is
/// dropped whole, up to a character that isn't.
pub proof fn law_trimmed_start(s: Seq<char>, drop: spec_fn(char) -> bool)
    ensures
        exists|i: int| #[trigger] is_trim_start(s, drop, i) && trimmed_start(s, drop) == s.skip(i),
    decreases s.len(),
{
    if s.len() > 0 && drop(s.first()) {
        let rest = s.drop_first();
        law_trimmed_start(rest, drop);
        let i = choose|i: int| #[trigger]
            is_trim_start(rest, drop, i) && trimmed_start(rest, drop) == rest.skip(i);
        assert forall|k: int| 0 <= k < i + 1 implies drop(#[trigger] s[k]) by {
            if k > 0 {
                assert(drop(rest[k - 1]));
            }
        }
        assert(rest.skip(i) =~= s.skip(i + 1));
        assert(is_trim_start(s, drop, i + 1));
    } else {
        assert(s.skip(0) =~= s);
        assert(is_trim_start(s, drop, 0));
    }
}

/// Whether the first `i` characters are the longest start that is dropped.
pub open spec fn is_trim_start(s: Seq<char>, drop: spec_fn(char) -> bool, i: int) -> bool {
    &&& 0 <= i <= s.len()
    &&& forall|k: int| 0 <= k < i ==> drop(#[trigger] s[k])
    &&& i < s.len() ==> !drop(s[i])
}

/// Whether the characters from `j` on are the longest end that is dropped.
pub open spec fn is_trim_end(s: Seq<char>, drop: spec_fn(char) -> bool, j: int) -> bool {
    &&& 0 <= j <= s.len()
    &&& forall|k: int| j <= k < s.len() ==> drop(#[trigger] s[k])
    &&& j > 0 ==> !drop(s[j - 1])
}

/// A text trimmed at its end is what is left of it before an end that is
/// dropped whole, down to a character that isn't.
pub proof fn law_trimmed_end(s: Seq<char>, drop: spec_fn(char) -> bool)
    ensures
        exists|j: int| #[trigger] is_trim_end(s, drop, j) && trimmed_end(s, drop) == s.take(j),
    decreases s.len(),
{
    if s.len() > 0 && drop(s.last()) {
        let rest = s.drop_last();
        law_trimmed_end(rest, drop);
        let j = choose|j: int| #[trigger]
            is_trim_end(rest, drop, j) && trimmed_end(rest, drop) == rest.take(j);
        assert forall|k: int| j <= k < s.len() implies drop(#[trigger] s[k]) by {
            if k < rest.len() {
                assert(drop(rest[k]));
            }
        }
        if j > 0 {
            assert(s[j - 1] == rest[j - 1]);
        }
        assert(rest.take(j) =~= s.take(j));
        assert(is_trim_end(s, drop, j));
    } else {
        assert(s.take(s.len() as int) =~= s);
        assert(is_trim_end(s, drop, s.len() as int));
    }
}

/// A trimmed text is a stretch of the text, with nothing but white space before
/// and behind it, and none at its own start and end.
pub proof fn law_trimmed(s: Seq<char>)
    ensures
        exists|i: int, j: int|
            0 <= i <= j <= s.len() && trimmed(s) == #[trigger] s.subrange(i, j) && (forall|k: int|
                0 <= k < s.len() && (k < i || j <= k) ==> is_white_space(#[trigger] s[k])) && (i < j
                ==> !is_white_space(s[i]) && !is_white_space(s[j - 1])),
{
    let drop = |c: char| is_white_space(c);
    law_trimmed_start(s, drop);
    let i = choose|i: int| #[trigger]
        is_trim_start(s, drop, i) && trimmed_start(s, drop) == s.skip(i);
    let rest = s.skip(i);
    law_trimmed_end(rest, drop);
    let j = choose|j: int| #[trigger]
        is_trim_end(rest, drop, j) && trimmed_end(rest, drop) == rest.take(j);
    assert(rest.take(j) =~= s.subrange(i, i + j));
    assert forall|k: int| 0 <= k < s.len() && (k < i || i + j <= k) implies is_white_space(
        #[trigger] s[k],
    ) by {
        if k < i {
            assert(drop(s[k]));
        } else {
            assert(drop(rest[k - i]));
        }
    }
    if j > 0 {
        assert(!drop(rest[j - 1]));
        assert(rest[j - 1] == s[i + j - 1]);
        assert(!drop(s[i]));
    }
    assert(trimmed(s) == s.subrange(i, i + j));
}

/// A text without separators has one part, itself; and a separator between two
/// texts stands between the parts of the one and those of the other.
pub proof fn law_parts(a: Seq<char>, b: Seq<char>, separator: char)
    ensures
        !a.contains(separator) ==> parts(a, separator) == seq![a],
        parts(a + seq![separator] + b, separator) == parts(a, separator) + parts(b, separator),
    decreases a.len() + b.len(),
{
    if !a.contains(separator) {
        lemma_one_part(a, separator);
    }
    let whole = a + seq![separator] + b;
    if b.len() == 0 {
        assert(whole.drop_last() =~= a);
        assert(parts(whole, separator) =~= parts(a, separator) + parts(b, separator));
    } else {
        let shorter = b.drop_last();
        law_parts(a, shorter, separator);
        lemma_parts_have_no_separator(shorter, separator);
        assert(whole.drop_last() =~= a + seq![separator] + shorter);
        assert(whole.last() == b.last());
        let (x, y) = (parts(a, separator), parts(shorter, separator));
        assert((x + y).last() == y.last());
        assert((x + y).drop_last() =~= x + y.drop_last());
        assert(parts(whole, separator) =~= x + parts(b, separator));
    }
}

/// A text without separators has one part.
proof fn lemma_one_part(s: Seq<char>, separator: char)
    requires
        !s.contains(separator),
    ensures
        parts(s, separator) == seq![s],
    decreases s.len(),
{
    if s.len() == 0 {
        assert(s =~= Seq::empty());
    } else {
        let before = s.drop_last();
        assert forall|c: char| before.contains(c) implies s.contains(c) by {
            let i = choose|i: int| 0 <= i < before.len() && before[i] == c;
            assert(s[i] == c);
        }
        assert(s[s.len() - 1] == s.last());
        lemma_one_part(before, separator);
        assert(before.push(s.last()) =~= s);
        assert(parts(s, separator) =~= seq![s]);
    }
}

/// One text is written as it is, and between two lists of texts stands one
/// separator.
pub proof fn law_separated(a: Seq<Seq<char>>, b: Seq<Seq<char>>, separator: Seq<char>)
    requires
        a.len() > 0,
        b.len() > 0,
    ensures
        a.len() == 1 ==> separated(a, separator) == a[0],
        separated(a + b, separator) == separated(a, separator) + separator + separated(
            b,
            separator,
        ),
    decreases b.len(),
{
    let whole = a + b;
    if b.len() == 1 {
        assert(whole.drop_last() =~= a);
    } else {
        let shorter = b.drop_last();
        law_separated(a, shorter, separator);
        assert(whole.drop_last() =~= a + shorter);
        let x = separated(a, separator);
        let y = separated(shorter, separator);
        assert(x + separator + y + separator + b.last() =~= x + separator + (y + separator
            + b.last()));
    }
}

/// The number that digits stand for.
pub open spec fn number_of(digits: Seq<char>, base: nat) -> nat
    decreases digits.len(),
{
    if digits.len() == 0 {
        0
    } else {
        let c = digits.last() as int;
        number_of(digits.drop_last(), base) * base + (if c >= 97 {
            c - 87
        } else {
            c - 48
        }) as nat
    }
}

/// A number in decimal reads as that number, has only digits, and starts with
/// a zero only where it is zero.
pub proof fn law_decimals_read_back(value: nat)
    ensures
        number_of(decimal(value), 10) == value,
        forall|i: int|
            0 <= i < decimal(value).len() ==> 48 <= #[trigger] decimal(value)[i] as int <= 57,
        decimal(value).len() > 0,
        decimal(value)[0] as int == 48 ==> value == 0 && decimal(value).len() == 1,
    decreases value,
{
    lemma_decimal(value);
    reveal_with_fuel(number_of, 2);
    if value >= 10 {
        law_decimals_read_back(value / 10);
        assert(decimal(value).drop_last() =~= decimal(value / 10));
    }
}

/// An integer is written as its magnitude, behind a minus sign if it is
/// negative; padded, it is no shorter than the width and reads as the same.
pub proof fn law_integers_read_back(value: int, width: int)
    ensures
        value >= 0 ==> signed_decimal(value) == decimal(value as nat),
        value < 0 ==> signed_decimal(value)[0] == '-' && signed_decimal(value).skip(1) == decimal(
            (-value) as nat,
        ),
        padded_decimal(value, width).len() >= width,
        value >= 0 ==> number_of(padded_decimal(value, width), 10) == value,
        value < 0 ==> padded_decimal(value, width)[0] == '-' && number_of(
            padded_decimal(value, width).skip(1),
            10,
        ) == -value,
        value >= 0 && decimal(value as nat).len() >= width ==> padded_decimal(value, width)
            == decimal(value as nat),
{
    if value >= 0 {
        law_decimals_read_back(value as nat);
        let text = decimal(value as nat);
        if text.len() < width {
            lemma_leading_zeros(text, (width - text.len()) as nat);
        }
    } else {
        let text = decimal((-value) as nat);
        law_decimals_read_back((-value) as nat);
        assert(signed_decimal(value).skip(1) =~= text);
        assert(padded_decimal(value, width).skip(1) =~= zero_padded(text, width - 1));
        if text.len() < width - 1 {
            lemma_leading_zeros(text, (width - 1 - text.len()) as nat);
        }
    }
}

/// Leading zeros don't count.
proof fn lemma_leading_zeros(text: Seq<char>, count: nat)
    ensures
        number_of(Seq::new(count, |i: int| '0') + text, 10) == number_of(text, 10),
    decreases text.len(), count,
{
    let padded = Seq::new(count, |i: int| '0') + text;
    if text.len() > 0 {
        lemma_leading_zeros(text.drop_last(), count);
        assert(padded.drop_last() =~= Seq::new(count, |i: int| '0') + text.drop_last());
    } else if count > 0 {
        lemma_leading_zeros(text, (count - 1) as nat);
        assert(padded.drop_last() =~= Seq::new((count - 1) as nat, |i: int| '0') + text);
    } else {
        assert(padded =~= text);
    }
}

/// A number's last hexadecimal digits read as that number, but for what they
/// are too few for.
pub proof fn law_hexadecimals_read_back(value: nat, count: nat)
    ensures
        hexadecimal(value, count).len() == count,
        number_of(hexadecimal(value, count), 16) == value % pow(16, count) as nat,
    decreases count,
{
    lemma_pow_positive(16, count);
    if count == 0 {
        lemma_pow0(16);
        assert(value % 1 == 0);
    } else {
        let less = (count - 1) as nat;
        law_hexadecimals_read_back(value / 16, less);
        let text = hexadecimal(value, count);
        assert(text.drop_last() =~= hexadecimal(value / 16, less));
        let digit_value = value % 16;
        assert(text.last() == digit(digit_value as int));
        lemma_pow1(16);
        lemma_pow_adds(16, 1, less);
        lemma_pow_positive(16, less);
        assert(pow(16, count) == 16 * pow(16, less));
        lemma_mod_breakdown(value as int, 16, pow(16, less));
    }
}

/// Strings are seen as what each of them holds, in order.
pub proof fn law_texts(strings: Seq<String>, slices: Seq<&str>, i: int)
    ensures
        texts(strings).len() == strings.len(),
        0 <= i < strings.len() ==> texts(strings)[i] == strings[i]@,
        str_texts(slices).len() == slices.len(),
        0 <= i < slices.len() ==> str_texts(slices)[i] == slices[i]@,
{
}

} // verus!
