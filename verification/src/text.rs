//! Character-level helpers shared by the parsers: splitting into pieces,
//! substring search and reading unsigned numbers.

use vstd::arithmetic::div_mod::lemma_div_decreases;
use vstd::prelude::*;

verus! {

/// The characters of `s`, in order.
pub fn chars_of(s: &str) -> (v: Vec<char>)
    ensures
        v@ == s@,
{
    let mut v: Vec<char> = Vec::new();
    for c in it: s.chars()
        invariant
            it.seq() == s@,
            v@ == s@.take(it.index() as int),
    {
        v.push(c);
    }
    v
}

/// `String::from_iter` over a vector's characters: the string that holds
/// exactly those characters, in the same order.
#[verifier::external_body]
pub(crate) fn string_of(chars: &Vec<char>) -> (s: String)
    ensures
        s@ == chars@,
{
    String::from_iter(chars.iter())
}

/// The ASCII whitespace characters: space, tab, line feed, form feed and
/// carriage return.
pub open spec fn is_space(c: char) -> bool {
    c == ' ' || c == '\t' || c == '\n' || c == '\x0c' || c == '\r'
}

/// What keeps the pieces of a text apart.
#[derive(Debug, Clone, Copy, PartialEq, Eq, Structural)]
pub enum Separator {
    /// Any ASCII whitespace character.
    Whitespace,
    /// The line feed alone.
    Line,
}

impl Separator {
    /// Does `c` keep pieces apart?
    pub open spec fn separates(&self, c: char) -> bool {
        match *self {
            Separator::Whitespace => is_space(c),
            Separator::Line => c == '\n',
        }
    }

    /// Does `c` keep pieces apart?
    pub fn is_separator(&self, c: char) -> (r: bool)
        ensures
            r == self.separates(c),
    {
        match *self {
            Separator::Whitespace => c == ' ' || c == '\t' || c == '\n' || c == '\x0c' || c == '\r',
            Separator::Line => c == '\n',
        }
    }
}

/// The maximal runs of characters of `s` that hold no separator, in order.
/// Reading left to right, a character that is no separator extends the run
/// before it, or starts a new one after a separator.
pub open spec fn pieces(s: Seq<char>, sep: Separator) -> Seq<Seq<char>>
    decreases s.len(),
{
    if s.len() == 0 {
        Seq::empty()
    } else {
        let before = pieces(s.drop_last(), sep);
        if sep.separates(s.last()) {
            before
        } else if s.len() > 1 && !sep.separates(s[s.len() - 2]) {
            before.drop_last().push(before.last().push(s.last()))
        } else {
            before.push(seq![s.last()])
        }
    }
}

/// Is `w` a word: a text of one character or more that holds no separator?
pub open spec fn is_word(w: Seq<char>, sep: Separator) -> bool {
    w.len() > 0 && forall|i: int| 0 <= i < w.len() ==> !sep.separates(#[trigger] w[i])
}

/// A word behind a text that is empty or ends in a separator is a piece of
/// its own: the last one.
pub proof fn lemma_pieces_push_word(t: Seq<char>, w: Seq<char>, sep: Separator)
    requires
        t.len() == 0 || sep.separates(t.last()),
        is_word(w, sep),
    ensures
        pieces(t + w, sep) == pieces(t, sep).push(w),
    decreases w.len(),
{
    let whole = t + w;
    let shorter = w.drop_last();
    assert(whole.drop_last() == t + shorter);
    assert(whole.last() == w.last());
    assert(!sep.separates(w[w.len() - 1]));
    if shorter.len() == 0 {
        assert(t + shorter == t);
        assert(seq![w.last()] == w);
        if t.len() > 0 {
            assert(whole[whole.len() - 2] == t.last());
        }
    } else {
        assert forall|i: int| 0 <= i < shorter.len() implies !sep.separates(
            #[trigger] shorter[i],
        ) by {
            assert(shorter[i] == w[i]);
        }
        lemma_pieces_push_word(t, shorter, sep);
        assert(whole[whole.len() - 2] == shorter.last());
        assert(!sep.separates(w[w.len() - 2]));
        let before = pieces(t, sep).push(shorter);
        assert(before.drop_last() == pieces(t, sep));
        assert(shorter.push(w.last()) == w);
    }
}

/// The views of a vector of character vectors.
pub open spec fn views(v: Seq<Vec<char>>) -> Seq<Seq<char>> {
    v.map_values(|t: Vec<char>| t@)
}

/// Splits `s` into its pieces.
pub fn split(s: &Vec<char>, sep: Separator) -> (r: Vec<Vec<char>>)
    ensures
        views(r@) == pieces(s@, sep),
{
    let mut done: Vec<Vec<char>> = Vec::new();
    let mut cur: Vec<char> = Vec::new();
    let mut i: usize = 0;
    while i < s.len()
        invariant
            i <= s.len(),
            cur@.len() > 0 <==> (i > 0 && !sep.separates(s@[i - 1])),
            pieces(s@.take(i as int), sep) == (if cur@.len() > 0 {
                views(done@).push(cur@)
            } else {
                views(done@)
            }),
        decreases s.len() - i,
    {
        let c = s[i];
        proof {
            let t = s@.take(i + 1);
            assert(t.drop_last() == s@.take(i as int));
            assert(t.last() == c);
            if i > 0 {
                assert(t[t.len() - 2] == s@[i - 1]);
            }
        }
        if sep.is_separator(c) {
            if cur.len() > 0 {
                proof {
                    assert(views(done@.push(cur)) == views(done@).push(cur@));
                }
                done.push(cur);
                cur = Vec::new();
            }
        } else {
            proof {
                if cur@.len() > 0 {
                    let before = views(done@).push(cur@);
                    assert(before.drop_last() == views(done@));
                } else {
                    assert(seq![c] == cur@.push(c));
                }
            }
            cur.push(c);
        }
        i += 1;
    }
    proof {
        assert(s@.take(i as int) == s@);
    }
    if cur.len() > 0 {
        proof {
            assert(views(done@.push(cur)) == views(done@).push(cur@));
        }
        done.push(cur);
    }
    done
}

/// Is `needle` found in `hay` at index `i`?
pub open spec fn occurs_at(hay: Seq<char>, needle: Seq<char>, i: int) -> bool {
    0 <= i && i + needle.len() <= hay.len() && hay.subrange(i, i + needle.len()) == needle
}

/// Is `needle` a contiguous part of `hay`? The empty text is part of every
/// text.
pub open spec fn occurs_in(needle: Seq<char>, hay: Seq<char>) -> bool {
    exists|i: int| occurs_at(hay, needle, i)
}

/// Does `hay` hold `needle` at index `i`?
pub fn holds_at(hay: &Vec<char>, needle: &Vec<char>, i: usize) -> (r: bool)
    requires
        i + needle@.len() <= hay@.len(),
    ensures
        r == occurs_at(hay@, needle@, i as int),
{
    assert(hay@.len() == hay.len());
    let mut k: usize = 0;
    while k < needle.len()
        invariant
            k <= needle@.len(),
            i + needle@.len() <= hay@.len() <= usize::MAX,
            forall|j: int| 0 <= j < k ==> hay@[i + j] == needle@[j],
        decreases needle.len() - k,
    {
        if hay[i + k] != needle[k] {
            proof {
                assert(hay@.subrange(i as int, i + needle@.len())[k as int] == hay@[i + k]);
            }
            return false;
        }
        k += 1;
    }
    proof {
        assert(hay@.subrange(i as int, i + needle@.len()) =~= needle@);
    }
    true
}

/// Substring search, case-sensitive.
pub fn contains(hay: &Vec<char>, needle: &Vec<char>) -> (r: bool)
    ensures
        r == occurs_in(needle@, hay@),
{
    if needle.len() > hay.len() {
        return false;
    }
    let last: usize = hay.len() - needle.len();
    let mut i: usize = 0;
    while i < last
        invariant
            i <= last,
            last == hay@.len() - needle@.len(),
            forall|j: int| 0 <= j < i ==> !occurs_at(hay@, needle@, j),
        decreases last - i,
    {
        if holds_at(hay, needle, i) {
            return true;
        }
        i += 1;
    }
    holds_at(hay, needle, last)
}

/// The index of the first `c` in `s` at or after `i`, or the length of `s`
/// where there is none.
pub open spec fn first_index_from(s: Seq<char>, c: char, i: int) -> int
    decreases s.len() - i,
{
    if i >= s.len() {
        s.len() as int
    } else if i >= 0 && s[i] == c {
        i
    } else {
        first_index_from(s, c, i + 1)
    }
}

/// The index of the first `c` in `s`, or the length of `s`.
pub open spec fn first_index(s: Seq<char>, c: char) -> int {
    first_index_from(s, c, 0)
}

/// The part of `s` before its first `c`: all of `s` where it holds none.
pub open spec fn prefix_before(s: Seq<char>, c: char) -> Seq<char> {
    s.take(first_index(s, c))
}

/// `first_index` is the one index before which no `c` stands and at which
/// `s` ends or holds `c`.
pub proof fn lemma_first_index(s: Seq<char>, c: char, i: int)
    requires
        0 <= i <= s.len(),
    ensures
        i <= first_index_from(s, c, i) <= s.len(),
        forall|j: int| i <= j < first_index_from(s, c, i) ==> s[j] != c,
        first_index_from(s, c, i) < s.len() ==> s[first_index_from(s, c, i)] == c,
    decreases s.len() - i,
{
    if i < s.len() && s[i] != c {
        lemma_first_index(s, c, i + 1);
    }
}

/// Finds the first `c` in `s`.
pub fn find_char(s: &Vec<char>, c: char) -> (r: usize)
    ensures
        r == first_index(s@, c),
{
    let mut i: usize = 0;
    while i < s.len() && s[i] != c
        invariant
            i <= s.len(),
            first_index_from(s@, c, i as int) == first_index(s@, c),
        decreases s.len() - i,
    {
        i += 1;
    }
    i
}

/// The characters of `s` from `from` up to, not including, `to`.
pub fn slice(s: &Vec<char>, from: usize, to: usize) -> (r: Vec<char>)
    requires
        from <= to <= s@.len(),
    ensures
        r@ == s@.subrange(from as int, to as int),
{
    let mut r: Vec<char> = Vec::new();
    let mut i: usize = from;
    while i < to
        invariant
            from <= i <= to <= s@.len(),
            r@ == s@.subrange(from as int, i as int),
        decreases to - i,
    {
        r.push(s[i]);
        i += 1;
    }
    r
}

/// The value of a digit: `0`-`9`, then `a`-`f` or `A`-`F` for ten to
/// fifteen; -1 for any other character.
pub open spec fn digit_value(c: char) -> int {
    if '0' <= c <= '9' {
        c as int - '0' as int
    } else if 'a' <= c <= 'f' {
        c as int - 'a' as int + 10
    } else if 'A' <= c <= 'F' {
        c as int - 'A' as int + 10
    } else {
        -1
    }
}

/// Is `c` a digit in base `radix`?
pub open spec fn is_digit(c: char, radix: int) -> bool {
    0 <= digit_value(c) < radix
}

/// Is `s` a number in base `radix`: one digit or more, and nothing else?
pub open spec fn is_number(s: Seq<char>, radix: int) -> bool {
    s.len() > 0 && forall|i: int| 0 <= i < s.len() ==> is_digit(#[trigger] s[i], radix)
}

/// The value of the digits of `s` in base `radix`, most significant first.
pub open spec fn number_value(s: Seq<char>, radix: int) -> int
    decreases s.len(),
{
    if s.len() == 0 {
        0
    } else {
        number_value(s.drop_last(), radix) * radix + digit_value(s.last())
    }
}

/// Reading further digits never makes a number smaller.
pub proof fn lemma_number_value_grows(s: Seq<char>, radix: int, k: int)
    requires
        radix >= 1,
        0 <= k <= s.len(),
        forall|i: int| 0 <= i < s.len() ==> is_digit(#[trigger] s[i], radix),
    ensures
        0 <= number_value(s.take(k), radix) <= number_value(s, radix),
    decreases s.len() - k,
{
    if k == s.len() {
        assert(s.take(k) == s);
        lemma_number_value_nonnegative(s, radix);
    } else {
        lemma_number_value_grows(s, radix, k + 1);
        let t = s.take(k + 1);
        assert(t.drop_last() == s.take(k));
        assert(t.last() == s[k]);
        lemma_number_value_nonnegative(s.take(k), radix);
        let v = number_value(s.take(k), radix);
        assert(v * radix >= v) by (nonlinear_arith)
            requires
                v >= 0,
                radix >= 1,
        ;
    }
}

/// A number made of digits is not negative.
pub proof fn lemma_number_value_nonnegative(s: Seq<char>, radix: int)
    requires
        radix >= 1,
        forall|i: int| 0 <= i < s.len() ==> is_digit(#[trigger] s[i], radix),
    ensures
        0 <= number_value(s, radix),
    decreases s.len(),
{
    if s.len() > 0 {
        lemma_number_value_nonnegative(s.drop_last(), radix);
        let v = number_value(s.drop_last(), radix);
        assert(v * radix >= 0) by (nonlinear_arith)
            requires
                v >= 0,
                radix >= 1,
        ;
        assert(is_digit(s[s.len() - 1], radix));
    }
}

/// The value of the digit `c` in a base up to sixteen, where it is one.
pub fn digit_of(c: char, radix: u8) -> (r: Option<u8>)
    requires
        radix <= 16,
    ensures
        r == (if is_digit(c, radix as int) {
            Some(digit_value(c) as u8)
        } else {
            None
        }),
{
    let d: u32 = if c >= '0' && c <= '9' {
        (c as u32) - ('0' as u32)
    } else if c >= 'a' && c <= 'f' {
        (c as u32) - ('a' as u32) + 10
    } else if c >= 'A' && c <= 'F' {
        (c as u32) - ('A' as u32) + 10
    } else {
        return None;
    };
    if d < radix as u32 {
        Some(d as u8)
    } else {
        None
    }
}

/// Reads `s` as an unsigned number in base `radix` that does not exceed
/// `max`. No sign, no blank and no prefix is accepted.
pub fn parse_number(s: &Vec<char>, radix: u8, max: u64) -> (r: Option<u64>)
    requires
        1 <= radix <= 16,
    ensures
        match r {
            Some(v) => is_number(s@, radix as int) && v == number_value(s@, radix as int) && v <= max,
            None => !(is_number(s@, radix as int) && number_value(s@, radix as int) <= max),
        },
{
    if s.len() == 0 {
        return None;
    }
    let mut acc: u64 = 0;
    let mut i: usize = 0;
    while i < s.len()
        invariant
            1 <= radix <= 16,
            i <= s.len(),
            forall|j: int| 0 <= j < i ==> is_digit(#[trigger] s@[j], radix as int),
            acc == number_value(s@.take(i as int), radix as int),
            acc <= max,
        decreases s.len() - i,
    {
        let d = match digit_of(s[i], radix) {
            Some(d) => d,
            None => {
                return None;
            },
        };
        proof {
            let t = s@.take(i + 1);
            assert(t.drop_last() == s@.take(i as int));
            assert(t.last() == s@[i as int]);
            assert(acc * radix <= 0xffff_ffff_ffff_ffff * 16) by (nonlinear_arith)
                requires
                    0 <= acc <= 0xffff_ffff_ffff_ffff,
                    1 <= radix <= 16,
            ;
        }
        let next: u128 = (acc as u128) * (radix as u128) + (d as u128);
        if next > max as u128 {
            proof {
                if is_number(s@, radix as int) {
                    lemma_number_value_grows(s@, radix as int, i + 1);
                }
            }
            return None;
        }
        acc = next as u64;
        i += 1;
    }
    proof {
        assert(s@.take(i as int) == s@);
    }
    Some(acc)
}

/// The value of a decimal number that may have one sign, `+` or `-`, before
/// its digits. A sign without a digit behind it is no number.
pub open spec fn signed_value(s: Seq<char>) -> Option<int> {
    if s.len() > 0 && (s[0] == '-' || s[0] == '+') {
        if is_number(s.skip(1), 10) {
            if s[0] == '-' {
                Some(-number_value(s.skip(1), 10))
            } else {
                Some(number_value(s.skip(1), 10))
            }
        } else {
            None
        }
    } else if is_number(s, 10) {
        Some(number_value(s, 10))
    } else {
        None
    }
}

/// The number that `s` stands for as an `i32`: decimal digits with an
/// optional sign before them, and a value that the type holds.
pub open spec fn i32_value(s: Seq<char>) -> Option<i32> {
    match signed_value(s) {
        Some(v) => if i32::MIN <= v <= i32::MAX {
            Some(v as i32)
        } else {
            None
        },
        None => None,
    }
}

/// Reads `s` as a signed decimal number within `i32`.
pub fn parse_i32(s: &Vec<char>) -> (r: Option<i32>)
    ensures
        r == i32_value(s@),
{
    if s.len() > 0 && (s[0] == '-' || s[0] == '+') {
        let negative = s[0] == '-';
        let digits = slice(s, 1, s.len());
        proof {
            assert(digits@ == s@.skip(1));
            if is_number(digits@, 10) {
                lemma_number_value_nonnegative(digits@, 10);
            }
        }
        let max: u64 = if negative {
            0x8000_0000
        } else {
            0x7fff_ffff
        };
        match parse_number(&digits, 10, max) {
            Some(v) => if negative {
                Some((-(v as i64)) as i32)
            } else {
                Some(v as i32)
            },
            None => None,
        }
    } else {
        proof {
            if is_number(s@, 10) {
                lemma_number_value_nonnegative(s@, 10);
            }
        }
        match parse_number(s, 10, 0x7fff_ffff) {
            Some(v) => Some(v as i32),
            None => None,
        }
    }
}

/// The digit of a value below sixteen: `0`-`9`, then `A`-`F`.
pub open spec fn digit_char(d: int) -> char {
    if d < 10 {
        ('0' as int + d) as char
    } else {
        ('A' as int + d - 10) as char
    }
}

/// The digit of a value below sixteen.
pub fn digit_to_char(d: u8) -> (c: char)
    requires
        d < 16,
    ensures
        c == digit_char(d as int),
{
    if d < 10 {
        (0x30u8 + d) as char
    } else {
        (0x41u8 + (d - 10)) as char
    }
}

/// The digits of `n` in base `radix`, most significant first and without a
/// leading zero; the one digit `0` for zero.
pub open spec fn number_text(n: nat, radix: nat) -> Seq<char>
    decreases n,
{
    if n < radix || radix < 2 {
        seq![digit_char(n as int)]
    } else {
        proof {
            lemma_div_decreases(n as int, radix as int);
        }
        number_text(n / radix, radix).push(digit_char((n % radix) as int))
    }
}

/// Writes `n` in base `radix`.
pub fn render_number(n: u64, radix: u8) -> (text: Vec<char>)
    requires
        2 <= radix <= 16,
    ensures
        text@ == number_text(n as nat, radix as nat),
    decreases n,
{
    if n < radix as u64 {
        let mut text: Vec<char> = Vec::new();
        text.push(digit_to_char(n as u8));
        text
    } else {
        proof {
            lemma_div_decreases(n as int, radix as int);
        }
        let mut text = render_number(n / (radix as u64), radix);
        text.push(digit_to_char((n % (radix as u64)) as u8));
        text
    }
}

/// Writing a number and reading what was written gives the number back.
pub proof fn lemma_number_text_round_trip(n: nat, radix: nat)
    requires
        2 <= radix <= 16,
    ensures
        is_number(number_text(n, radix), radix as int),
        number_value(number_text(n, radix), radix as int) == n,
    decreases n,
{
    let text = number_text(n, radix);
    if n < radix {
        assert(text.drop_last() == Seq::<char>::empty());
        assert(number_value(text.drop_last(), radix as int) == 0);
        assert(digit_value(digit_char(n as int)) == n);
    } else {
        let d = n % radix;
        lemma_div_decreases(n as int, radix as int);
        lemma_number_text_round_trip(n / radix, radix);
        let before = number_text(n / radix, radix);
        assert(text.drop_last() == before);
        assert(digit_value(digit_char(d as int)) == d);
        assert forall|i: int| 0 <= i < text.len() implies is_digit(#[trigger] text[i], radix as int) by {
            if i < before.len() {
                assert(text[i] == before[i]);
            }
        }
        assert((n / radix) * radix + n % radix == n) by (nonlinear_arith)
            requires
                radix >= 2,
        ;
    }
}

/// Puts the characters of `src` behind those of `dst`.
pub fn append(dst: &mut Vec<char>, src: &Vec<char>)
    ensures
        final(dst)@ == old(dst)@ + src@,
{
    let mut i: usize = 0;
    while i < src.len()
        invariant
            i <= src@.len(),
            dst@ == old(dst)@ + src@.take(i as int),
        decreases src.len() - i,
    {
        dst.push(src[i]);
        proof {
            assert(src@.take(i + 1) == src@.take(i as int).push(src@[i as int]));
        }
        i += 1;
    }
    proof {
        assert(src@.take(i as int) == src@);
    }
}

} // verus!
