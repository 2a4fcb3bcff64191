//! Text primitives: decimal numbers, searching and the like, over character sequences.

use vstd::prelude::*;
use vstd::string::*;
use vstd::utf8::{encode_utf8, is_ascii_chars, is_ascii_chars_encode_utf8};

verus! {

/// The decimal digit `d`, for `d < 10`.
pub open spec fn digit(d: nat) -> char {
    (48 + d) as char
}

/// The decimal notation of `n`, without leading zeros.
pub open spec fn decimal(n: nat) -> Seq<char>
    decreases n,
{
    if n < 10 {
        seq![digit(n)]
    } else {
        decimal(n / 10).push(digit(n % 10))
    }
}

/// `String::push` appends one character.
pub assume_specification[ String::push ](s: &mut String, c: char)
    ensures
        final(s)@ == old(s)@.push(c),
;

fn digit_char(d: u64) -> (c: char)
    requires
        d < 10,
    ensures
        c == digit(d as nat),
{
    match d {
        0 => '0',
        1 => '1',
        2 => '2',
        3 => '3',
        4 => '4',
        5 => '5',
        6 => '6',
        7 => '7',
        8 => '8',
        _ => '9',
    }
}

/// Different numbers have different notations.
pub proof fn lemma_decimal_is_injective(m: nat, n: nat)
    requires
        decimal(m) == decimal(n),
    ensures
        m == n,
    decreases m,
{
    lemma_decimal_is_not_empty(m / 10);
    lemma_decimal_is_not_empty(n / 10);
    let a = decimal(m);
    let b = decimal(n);
    assert(a.last() == digit(m % 10));
    assert(b.last() == digit(n % 10));
    assert((48 + m % 10) as char as int == 48 + m % 10);
    assert((48 + n % 10) as char as int == 48 + n % 10);
    assert(m % 10 == n % 10);
    if m >= 10 && n >= 10 {
        assert(a.drop_last() =~= decimal(m / 10));
        assert(b.drop_last() =~= decimal(n / 10));
        lemma_decimal_is_injective(m / 10, n / 10);
    } else if m >= 10 {
        assert(a.len() == decimal(m / 10).len() + 1);
    } else if n >= 10 {
        assert(b.len() == decimal(n / 10).len() + 1);
    }
}

proof fn lemma_decimal_is_not_empty(n: nat)
    ensures
        decimal(n).len() > 0,
{
}

/// 10 to the given power.
pub open spec fn ten_to(n: nat) -> nat
    decreases n,
{
    if n == 0 {
        1
    } else {
        10 * ten_to((n - 1) as nat)
    }
}

proof fn lemma_decimal_length(n: nat, digits: nat)
    requires
        digits > 0,
        n < ten_to(digits),
    ensures
        decimal(n).len() <= digits,
    decreases digits,
{
    if n >= 10 {
        reveal_with_fuel(ten_to, 2);
        lemma_decimal_length(n / 10, (digits - 1) as nat);
    }
}

/// The notation of a number of 64 bits holds digits only, and at most twenty of them.
pub proof fn lemma_decimal_digits(n: u64)
    ensures
        0 < decimal(n as nat).len() <= 20,
        forall|i: int|
            0 <= i < decimal(n as nat).len() ==> '0' <= #[trigger] decimal(n as nat)[i] <= '9',
    decreases n,
{
    reveal_with_fuel(ten_to, 21);
    lemma_decimal_length(n as nat, 20);
    if n >= 10 {
        lemma_decimal_digits(n / 10);
    }
}

/// Appends the decimal notation of `n`.
pub fn push_decimal(s: &mut String, n: u64)
    ensures
        final(s)@ == old(s)@ + decimal(n as nat),
    decreases n,
{
    if n >= 10 {
        push_decimal(s, n / 10);
    }
    s.push(digit_char(n % 10));
    assert(s@ =~= old(s)@ + decimal(n as nat));
}

/// Appends the decimal notation of a number that may take more than 64 bits.
pub fn push_wide_decimal(s: &mut String, n: u128)
    ensures
        final(s)@ == old(s)@ + decimal(n as nat),
    decreases n,
{
    if n >= 10 {
        push_wide_decimal(s, n / 10);
    }
    s.push(digit_char((n % 10) as u64));
    assert(s@ =~= old(s)@ + decimal(n as nat));
}

/// A hexadecimal digit.
pub open spec fn hex_digit(d: nat) -> char {
    if d < 10 {
        digit(d)
    } else {
        (87 + d) as char
    }
}

/// The hexadecimal notation of `n`, in small letters and without leading zeros.
pub open spec fn hexadecimal(n: nat) -> Seq<char>
    decreases n,
{
    if n < 16 {
        seq![hex_digit(n)]
    } else {
        hexadecimal(n / 16).push(hex_digit(n % 16))
    }
}

fn hex_char(d: u32) -> (c: char)
    requires
        d < 16,
    ensures
        c == hex_digit(d as nat),
{
    match d {
        10 => 'a',
        11 => 'b',
        12 => 'c',
        13 => 'd',
        14 => 'e',
        15 => 'f',
        _ => digit_char(d as u64),
    }
}

/// Appends the hexadecimal notation of `n`.
pub fn push_hexadecimal(s: &mut String, n: u32)
    ensures
        final(s)@ == old(s)@ + hexadecimal(n as nat),
    decreases n,
{
    if n >= 16 {
        push_hexadecimal(s, n / 16);
    }
    s.push(hex_char(n % 16));
    assert(s@ =~= old(s)@ + hexadecimal(n as nat));
}

/// The characters of a string.
pub fn chars_of(s: &str) -> (v: Vec<char>)
    ensures
        v@ == s@,
{
    let mut v: Vec<char> = Vec::new();
    for c in it: s.chars()
        invariant
            it.seq() == s@,
            v@ == s@.take(it.index() as int),
    {
        v.push(c);
        assert(v@ =~= s@.take(it.index() + 1));
    }
    assert(s@.take(s@.len() as int) =~= s@);
    v
}

/// The string made of the given characters.
pub fn string_of(v: &[char]) -> (s: String)
    ensures
        s@ == v@,
{
    let mut s = String::new();
    for i in 0..v.len()
        invariant
            s@ == v@.take(i as int),
    {
        s.push(v[i]);
        assert(s@ =~= v@.take(i + 1));
    }
    assert(v@.take(v@.len() as int) =~= v@);
    s
}

/// Whether `needle` occurs in `s` at position `i`.
pub open spec fn occurs_at(s: Seq<char>, needle: Seq<char>, i: int) -> bool {
    0 <= i && i + needle.len() <= s.len() && s.subrange(i, i + needle.len()) == needle
}

/// Whether `needle` occurs somewhere in `s`.
pub open spec fn contains_text(s: Seq<char>, needle: Seq<char>) -> bool {
    exists|i: int| occurs_at(s, needle, i)
}

fn matches_at(s: &[char], needle: &[char], i: usize) -> (b: bool)
    ensures
        b == occurs_at(s@, needle@, i as int),
{
    if i > s.len() || needle.len() > s.len() - i {
        return false;
    }
    for k in 0..needle.len()
        invariant
            i + needle.len() <= s.len(),
            forall|j: int| 0 <= j < k ==> s@[i + j] == needle@[j],
    {
        if s[i + k] != needle[k] {
            assert(s@.subrange(i as int, i + needle@.len())[k as int] != needle@[k as int]);
            return false;
        }
    }
    assert(s@.subrange(i as int, i + needle@.len()) =~= needle@);
    true
}

/// Whether `needle` occurs in `s`.
pub fn contains_chars(s: &[char], needle: &[char]) -> (b: bool)
    ensures
        b == contains_text(s@, needle@),
{
    if needle.len() > s.len() {
        return false;
    }
    let last: usize = s.len() - needle.len();
    let mut i: usize = 0;
    while i <= last
        invariant
            needle.len() <= s.len(),
            last == s.len() - needle.len(),
            i <= last + 1,
            forall|j: int| 0 <= j < i ==> !occurs_at(s@, needle@, j),
        decreases last + 1 - i,
    {
        if matches_at(s, needle, i) {
            return true;
        }
        if i == last {
            assert forall|j: int| !occurs_at(s@, needle@, j) by {}
            return false;
        }
        i = i + 1;
    }
    false
}

/// Whether `needle` occurs in `s`.
pub fn contains_str(s: &str, needle: &str) -> (b: bool)
    ensures
        b == contains_text(s@, needle@),
{
    let hay = chars_of(s);
    let pat = chars_of(needle);
    contains_chars(hay.as_slice(), pat.as_slice())
}

/// Whether two strings hold the same characters.
pub fn same_text(a: &str, b: &str) -> (r: bool)
    ensures
        r == (a@ == b@),
{
    let x = chars_of(a);
    let y = chars_of(b);
    if x.len() != y.len() {
        return false;
    }
    for i in 0..x.len()
        invariant
            x@ == a@,
            y@ == b@,
            x.len() == y.len(),
            forall|j: int| 0 <= j < i ==> x@[j] == y@[j],
    {
        if x[i] != y[i] {
            return false;
        }
    }
    assert(a@ =~= b@);
    true
}

/// The number of bytes of the text in UTF-8.
pub open spec fn byte_len(s: Seq<char>) -> usize {
    encode_utf8(s).len() as usize
}

/// A letter or digit of ASCII.
pub open spec fn ascii_alphanumeric(c: char) -> bool {
    ('0' <= c && c <= '9') || ('A' <= c && c <= 'Z') || ('a' <= c && c <= 'z')
}

/// A character that may stand in a name: a letter or digit of ASCII, `_` or `-`.
pub open spec fn name_char(c: char) -> bool {
    ascii_alphanumeric(c) || c == '_' || c == '-'
}

/// Only characters that may stand in a name.
pub open spec fn name_chars(s: Seq<char>) -> bool {
    forall|i: int| 0 <= i < s.len() ==> name_char(#[trigger] s[i])
}

/// Every character of a name is one byte long.
pub proof fn lemma_name_bytes(s: Seq<char>)
    requires
        name_chars(s),
        s.len() <= usize::MAX,
    ensures
        byte_len(s) == s.len(),
{
    assert(is_ascii_chars(s)) by {
        assert forall|i: int| 0 <= i < s.len() implies '\0' <= #[trigger] s[i] <= '\u{7f}' by {
            assert(name_char(s[i]));
        }
    }
    is_ascii_chars_encode_utf8(s);
}

pub fn is_name_char(c: char) -> (b: bool)
    ensures
        b == name_char(c),
{
    ('0' <= c && c <= '9') || ('A' <= c && c <= 'Z') || ('a' <= c && c <= 'z') || c == '_' || c
        == '-'
}

pub fn has_name_chars(s: &[char]) -> (b: bool)
    ensures
        b == name_chars(s@),
{
    for i in 0..s.len()
        invariant
            forall|k: int| 0 <= k < i ==> name_char(#[trigger] s@[k]),
    {
        if !is_name_char(s[i]) {
            return false;
        }
    }
    true
}

/// Whether a character occurs.
pub fn contains_char(s: &[char], c: char) -> (b: bool)
    ensures
        b == s@.contains(c),
{
    for i in 0..s.len()
        invariant
            forall|k: int| 0 <= k < i ==> s@[k] != c,
    {
        if s[i] == c {
            return true;
        }
    }
    false
}

/// A character with the Unicode property White_Space.
pub open spec fn white_space(c: char) -> bool {
    let n = c as u32;
    ||| 0x09 <= n <= 0x0D
    ||| n == 0x20 || n == 0x85 || n == 0xA0 || n == 0x1680
    ||| 0x2000 <= n <= 0x200A
    ||| n == 0x2028 || n == 0x2029 || n == 0x202F || n == 0x205F || n == 0x3000
}

/// Nothing but white space.
pub open spec fn blank(s: Seq<char>) -> bool {
    forall|i: int| 0 <= i < s.len() ==> white_space(#[trigger] s[i])
}

pub fn is_blank(s: &[char]) -> (b: bool)
    ensures
        b == blank(s@),
{
    for i in 0..s.len()
        invariant
            forall|k: int| 0 <= k < i ==> white_space(#[trigger] s@[k]),
    {
        let n: u32 = s[i] as u32;
        let white = (0x09 <= n && n <= 0x0D) || n == 0x20 || n == 0x85 || n == 0xA0 || n == 0x1680
            || (0x2000 <= n && n <= 0x200A) || n == 0x2028 || n == 0x2029 || n == 0x202F || n
            == 0x205F || n == 0x3000;
        if !white {
            assert(!white_space(s@[i as int]));
            return false;
        }
    }
    true
}

/// The lower-case form of a letter of ASCII; any other character as it is.
pub open spec fn ascii_lower(c: char) -> char {
    if 'A' <= c && c <= 'Z' {
        (c as u32 + 32) as char
    } else {
        c
    }
}

/// A text with its ASCII letters in lower case.
pub open spec fn ascii_lowered(s: Seq<char>) -> Seq<char> {
    s.map_values(|c: char| ascii_lower(c))
}

fn ascii_lower_of(c: char) -> (l: char)
    ensures
        l == ascii_lower(c),
{
    if 'A' <= c && c <= 'Z' {
        let n: u8 = c as u8 + 32;
        n as char
    } else {
        c
    }
}

pub fn to_ascii_lower(s: &[char]) -> (l: Vec<char>)
    ensures
        l@ == ascii_lowered(s@),
{
    let mut l: Vec<char> = Vec::new();
    for i in 0..s.len()
        invariant
            l@.len() == i,
            forall|k: int| 0 <= k < i ==> #[trigger] l@[k] == ascii_lower(s@[k]),
    {
        l.push(ascii_lower_of(s[i]));
    }
    assert(l@ =~= ascii_lowered(s@));
    l
}

/// The text begins with the given one.
pub open spec fn begins_with(s: Seq<char>, head: Seq<char>) -> bool {
    head.len() <= s.len() && s.take(head.len() as int) == head
}

/// The text ends with the given one.
pub open spec fn ends_with(s: Seq<char>, tail: Seq<char>) -> bool {
    tail.len() <= s.len() && s.skip(s.len() - tail.len()) == tail
}

pub fn has_head(s: &[char], head: &[char]) -> (b: bool)
    ensures
        b == begins_with(s@, head@),
{
    if head.len() > s.len() {
        return false;
    }
    assert(head@.len() <= s@.len() ==> s@.subrange(0, head@.len() as int) =~= s@.take(
        head@.len() as int,
    ));
    matches_at(s, head, 0)
}

pub fn has_tail(s: &[char], tail: &[char]) -> (b: bool)
    ensures
        b == ends_with(s@, tail@),
{
    if tail.len() > s.len() {
        return false;
    }
    assert(tail@.len() <= s@.len() ==> s@.subrange(
        s@.len() - tail@.len(),
        s@.len() as int,
    ) =~= s@.skip(s@.len() - tail@.len()));
    matches_at(s, tail, s.len() - tail.len())
}

/// Some of the characters, from `from` up to `to`.
pub fn part_of(s: &[char], from: usize, to: usize) -> (p: Vec<char>)
    requires
        from <= to <= s@.len(),
    ensures
        p@ == s@.subrange(from as int, to as int),
{
    let mut p: Vec<char> = Vec::new();
    for i in from..to
        invariant
            from <= to <= s@.len(),
            p@ == s@.subrange(from as int, i as int),
    {
        p.push(s[i]);
        assert(p@ =~= s@.subrange(from as int, i + 1));
    }
    p
}

/// What is left of a text without the given end.
pub fn strip_tail(s: &str, tail: &str) -> (r: Option<String>)
    ensures
        r is Some <==> ends_with(s@, tail@),
        r matches Some(head) ==> head@ + tail@ == s@,
{
    let x = chars_of(s);
    let t = chars_of(tail);
    if has_tail(x.as_slice(), t.as_slice()) {
        let head = part_of(x.as_slice(), 0, x.len() - t.len());
        assert(head@ + tail@ =~= s@);
        Some(string_of(head.as_slice()))
    } else {
        None
    }
}

/// What is left of a text without the given beginning.
pub fn strip_head(s: &str, head: &str) -> (r: Option<String>)
    ensures
        r is Some <==> begins_with(s@, head@),
        r matches Some(rest) ==> head@ + rest@ == s@,
{
    let x = chars_of(s);
    let h = chars_of(head);
    if has_head(x.as_slice(), h.as_slice()) {
        let rest = part_of(x.as_slice(), h.len(), x.len());
        assert(head@ + rest@ =~= s@);
        Some(string_of(rest.as_slice()))
    } else {
        None
    }
}

/// Two texts, one behind the other.
pub fn joined(a: &str, b: &str) -> (s: String)
    ensures
        s@ == a@ + b@,
{
    let mut s = a.to_owned();
    s.append(b);
    s
}

/// Dictionary order by code points.
pub open spec fn before(a: Seq<char>, b: Seq<char>) -> bool
    decreases a.len(),
{
    if b.len() == 0 {
        false
    } else if a.len() == 0 {
        true
    } else if a[0] != b[0] {
        a[0] < b[0]
    } else {
        before(a.drop_first(), b.drop_first())
    }
}

/// Not behind in dictionary order.
pub open spec fn not_behind(a: Seq<char>, b: Seq<char>) -> bool {
    !before(b, a)
}

pub proof fn lemma_before_is_total(a: Seq<char>, b: Seq<char>)
    ensures
        before(a, b) ==> !before(b, a),
        !before(a, b) && !before(b, a) ==> a == b,
        !before(a, a),
    decreases a.len(),
{
    if a.len() > 0 {
        lemma_before_is_total(a.drop_first(), a.drop_first());
    }
    if a.len() > 0 && b.len() > 0 {
        lemma_before_is_total(a.drop_first(), b.drop_first());
        if a[0] == b[0] && a.drop_first() == b.drop_first() {
            assert(a =~= seq![a[0]] + a.drop_first());
            assert(b =~= seq![b[0]] + b.drop_first());
        }
    } else if a.len() == 0 && b.len() == 0 {
        assert(a =~= b);
    }
}

pub proof fn lemma_not_behind_is_transitive(a: Seq<char>, b: Seq<char>, c: Seq<char>)
    requires
        not_behind(a, b),
        not_behind(b, c),
    ensures
        not_behind(a, c),
    decreases a.len(),
{
    if a.len() > 0 && b.len() > 0 && c.len() > 0 {
        if a[0] == b[0] && b[0] == c[0] {
            lemma_not_behind_is_transitive(a.drop_first(), b.drop_first(), c.drop_first());
        }
    }
}

/// Whether the first text stands before the second in dictionary order.
pub fn is_before(a: &[char], b: &[char]) -> (r: bool)
    ensures
        r == before(a@, b@),
{
    let mut i: usize = 0;
    assert(a@.skip(0) =~= a@ && b@.skip(0) =~= b@);
    while i < a.len() && i < b.len()
        invariant
            i <= a@.len(),
            i <= b@.len(),
            before(a@, b@) == before(a@.skip(i as int), b@.skip(i as int)),
        decreases a.len() - i,
    {
        let ghost x = a@.skip(i as int);
        let ghost y = b@.skip(i as int);
        assert(x[0] == a@[i as int] && y[0] == b@[i as int]);
        if a[i] != b[i] {
            return a[i] < b[i];
        }
        assert(x.drop_first() =~= a@.skip(i + 1));
        assert(y.drop_first() =~= b@.skip(i + 1));
        i = i + 1;
    }
    i < b.len()
}

pub fn is_before_str(a: &str, b: &str) -> (r: bool)
    ensures
        r == before(a@, b@),
{
    let x = chars_of(a);
    let y = chars_of(b);
    is_before(x.as_slice(), y.as_slice())
}

/// In dictionary order.
pub open spec fn in_order(s: Seq<String>) -> bool {
    forall|i: int, j: int| 0 <= i <= j < s.len() ==> not_behind(#[trigger] s[i]@, #[trigger] s[j]@)
}

/// What the texts of a list hold.
pub open spec fn texts(list: Seq<String>) -> Seq<Seq<char>> {
    list.map_values(|s: String| s@)
}

/// Puts a text where it belongs in a list in dictionary order.
pub fn insert_in_order(list: &mut Vec<String>, text: String)
    requires
        in_order(old(list)@),
    ensures
        in_order(final(list)@),
        exists|at: int|
            0 <= at <= old(list)@.len() && final(list)@ == #[trigger] old(list)@.insert(at, text),
        final(list)@.to_multiset() == old(list)@.to_multiset().insert(text),
{
    let ghost original = list@;
    let mut at: usize = list.len();
    while at > 0 && is_before_str(text.as_str(), list[at - 1].as_str())
        invariant
            list@ == original,
            in_order(original),
            at <= list@.len(),
            forall|k: int| at <= k < original.len() ==> before(text@, (#[trigger] original[k])@),
        decreases at,
    {
        at = at - 1;
    }
    list.insert(at, text);
    proof {
        let now = list@;
        assert(now =~= original.insert(at as int, text));
        vstd::seq_lib::to_multiset_insert(original, at as int, text);
        lemma_before_is_total(text@, text@);
        assert forall|i: int, j: int| 0 <= i <= j < now.len() implies not_behind(
            #[trigger] now[i]@,
            #[trigger] now[j]@,
        ) by {
            if j < at {
                assert(now[i] == original[i] && now[j] == original[j]);
            } else if j == at {
                if i < at {
                    assert(now[i] == original[i]);
                    assert(not_behind(original[at - 1]@, text@));
                    assert(not_behind(original[i]@, original[at - 1]@));
                    lemma_not_behind_is_transitive(original[i]@, original[at - 1]@, text@);
                }
            } else {
                assert(now[j] == original[j - 1]);
                if i < at {
                    assert(now[i] == original[i]);
                } else if i == at {
                    lemma_before_is_total(text@, original[j - 1]@);
                } else {
                    assert(now[i] == original[i - 1]);
                }
            }
        }
    }
}

/// The number that a row of decimal digits stands for.
pub open spec fn number_read(digits: Seq<char>) -> int
    decreases digits.len(),
{
    if digits.len() == 0 {
        0
    } else {
        10 * number_read(digits.drop_last()) + (digits.last() as int - '0' as int)
    }
}

/// The decimal notation of a number reads back as that number, holds digits only, and does not
/// begin with a zero unless the number is zero.
pub proof fn law_decimal_reads_back(n: nat)
    ensures
        number_read(decimal(n)) == n,
        decimal(n).len() > 0,
        forall|i: int| 0 <= i < decimal(n).len() ==> '0' <= #[trigger] decimal(n)[i] <= '9',
        n > 0 ==> decimal(n)[0] != '0',
        n == 0 ==> decimal(n) == seq!['0'],
    decreases n,
{
    reveal_with_fuel(number_read, 2);
    if n < 10 {
        assert(decimal(n).drop_last() =~= Seq::<char>::empty());
        if n == 0 {
            assert(decimal(n) =~= seq!['0']);
        }
    } else {
        law_decimal_reads_back(n / 10);
        assert(decimal(n).drop_last() =~= decimal(n / 10));
        assert(decimal(n).last() == digit(n % 10));
    }
}

/// The number that a hexadecimal digit in small letters stands for.
pub open spec fn hex_digit_read(c: char) -> int {
    if '0' <= c && c <= '9' {
        c as int - '0' as int
    } else {
        10 + c as int - 'a' as int
    }
}

/// The number that a row of hexadecimal digits stands for.
pub open spec fn hex_number_read(digits: Seq<char>) -> int
    decreases digits.len(),
{
    if digits.len() == 0 {
        0
    } else {
        16 * hex_number_read(digits.drop_last()) + hex_digit_read(digits.last())
    }
}

/// The hexadecimal notation of a number reads back as that number and holds digits and the letters
/// from `a` to `f` only.
pub proof fn law_hexadecimal_reads_back(n: nat)
    ensures
        hex_number_read(hexadecimal(n)) == n,
        hexadecimal(n).len() > 0,
        forall|i: int|
            0 <= i < hexadecimal(n).len() ==> {
                ||| '0' <= #[trigger] hexadecimal(n)[i] <= '9'
                ||| 'a' <= hexadecimal(n)[i] <= 'f'
            },
        n > 0 ==> hexadecimal(n)[0] != '0',
    decreases n,
{
    reveal_with_fuel(hex_number_read, 2);
    if n < 16 {
        assert(hexadecimal(n).drop_last() =~= Seq::<char>::empty());
    } else {
        law_hexadecimal_reads_back(n / 16);
        assert(hexadecimal(n).drop_last() =~= hexadecimal(n / 16));
        assert(hexadecimal(n).last() == hex_digit(n % 16));
    }
}

/// Of two texts the one comes first that has the smaller character at the first place where they
/// differ, or that ends there.
pub proof fn law_order_is_decided_at_the_first_difference(a: Seq<char>, b: Seq<char>, at: int)
    requires
        0 <= at <= a.len(),
        at < b.len(),
        forall|i: int| 0 <= i < at ==> #[trigger] a[i] == b[i],
        at < a.len() ==> a[at] < b[at],
    ensures
        before(a, b),
        !before(b, a),
    decreases at,
{
    lemma_before_is_total(a, b);
    if at > 0 {
        let x = a.drop_first();
        let y = b.drop_first();
        assert forall|i: int| 0 <= i < at - 1 implies #[trigger] x[i] == y[i] by {
            assert(a[i + 1] == b[i + 1]);
        }
        law_order_is_decided_at_the_first_difference(x, y, at - 1);
    }
}

/// Lowering a text turns each of its capital letters into the small one and keeps everything else.
pub proof fn law_only_capitals_are_lowered(s: Seq<char>, i: int)
    requires
        0 <= i < s.len(),
    ensures
        ascii_lowered(s).len() == s.len(),
        'A' <= s[i] <= 'Z' ==> ascii_lowered(s)[i] as int - 'a' as int == s[i] as int - 'A' as int,
        !('A' <= s[i] <= 'Z') ==> ascii_lowered(s)[i] == s[i],
{
}

/// The characters of names by their codes: the digits, the letters of both cases, the dash and the
/// underscore.
pub proof fn law_characters_of_names(c: char)
    ensures
        name_char(c) <==> {
            ||| 48 <= c as int <= 57
            ||| 65 <= c as int <= 90
            ||| 97 <= c as int <= 122
            ||| c as int == 45
            ||| c as int == 95
        },
{
}

/// A text begins or ends with another exactly when it is that one with something behind or before.
pub proof fn law_heads_and_tails(s: Seq<char>, part: Seq<char>)
    ensures
        begins_with(s, part) <==> exists|rest: Seq<char>| s == #[trigger] (part + rest),
        ends_with(s, part) <==> exists|rest: Seq<char>| s == #[trigger] (rest + part),
{
    if begins_with(s, part) {
        assert(s =~= part + s.skip(part.len() as int));
    }
    if exists|rest: Seq<char>| s == #[trigger] (part + rest) {
        let rest = choose|rest: Seq<char>| s == #[trigger] (part + rest);
        assert(s.take(part.len() as int) =~= part);
    }
    if ends_with(s, part) {
        assert(s =~= s.take(s.len() - part.len()) + part);
    }
    if exists|rest: Seq<char>| s == #[trigger] (rest + part) {
        let rest = choose|rest: Seq<char>| s == #[trigger] (rest + part);
        assert(s.skip(s.len() - part.len()) =~= part);
    }
}

/// In a list in dictionary order no text comes behind one that it stands before.
pub proof fn law_lists_are_in_dictionary_order(list: Seq<String>, i: int, j: int)
    requires
        in_order(list),
        0 <= i < list.len(),
        0 <= j < list.len(),
        before(list[i]@, list[j]@),
    ensures
        i < j,
{
    lemma_before_is_total(list[i]@, list[j]@);
    if j <= i {
        assert(not_behind(list[j]@, list[i]@));
    }
}

/// No character of a name is white space; blanks, tabs and the ends of lines are.
pub proof fn law_white_space_is_no_name(c: char)
    ensures
        name_char(c) ==> !white_space(c),
        c == ' ' || c == '\t' || c == '\n' || c == '\r' ==> white_space(c),
{
}

} // verus!
