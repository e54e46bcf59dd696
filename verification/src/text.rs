//! Text building: decimal and hexadecimal numbers.

use vstd::prelude::*;
use vstd::string::*;

verus! {

/// The digit character of `d`, with capital letters above nine.
pub open spec fn digit_char(d: int) -> char {
    if d == 0 { '0' } else if d == 1 { '1' } else if d == 2 { '2' } else if d == 3 { '3' }
    else if d == 4 { '4' } else if d == 5 { '5' } else if d == 6 { '6' } else if d == 7 { '7' }
    else if d == 8 { '8' } else if d == 9 { '9' } else if d == 10 { 'A' } else if d == 11 { 'B' }
    else if d == 12 { 'C' } else if d == 13 { 'D' } else if d == 14 { 'E' } else { 'F' }
}

/// The digit character of `d`, with small letters above nine.
pub open spec fn small_digit(d: int) -> char {
    if d == 10 { 'a' } else if d == 11 { 'b' } else if d == 12 { 'c' } else if d == 13 { 'd' }
    else if d == 14 { 'e' } else if d == 15 { 'f' } else { digit_char(d) }
}

/// A byte written as two small hexadecimal digits.
pub open spec fn small_hex_byte(b: u8) -> Seq<char> {
    seq![small_digit(b as int / 16), small_digit(b as int % 16)]
}

/// `n` written in decimal, without leading zeros.
pub open spec fn decimal(n: nat) -> Seq<char>
    decreases n,
{
    if n < 10 {
        seq![digit_char(n as int)]
    } else {
        decimal(n / 10).push(digit_char((n % 10) as int))
    }
}

/// A byte written as two capital hexadecimal digits.
pub open spec fn hex_byte(b: u8) -> Seq<char> {
    seq![digit_char(b as int / 16), digit_char(b as int % 16)]
}

/// The one-digit text of `d`.
fn digit_str(d: u8) -> (s: &'static str)
    requires
        d < 16,
    ensures
        s@ == seq![digit_char(d as int)],
{
    proof {
        reveal_strlit("0");
        reveal_strlit("1");
        reveal_strlit("2");
        reveal_strlit("3");
        reveal_strlit("4");
        reveal_strlit("5");
        reveal_strlit("6");
        reveal_strlit("7");
        reveal_strlit("8");
        reveal_strlit("9");
        reveal_strlit("A");
        reveal_strlit("B");
        reveal_strlit("C");
        reveal_strlit("D");
        reveal_strlit("E");
        reveal_strlit("F");
    }
    match d {
        0 => "0",
        1 => "1",
        2 => "2",
        3 => "3",
        4 => "4",
        5 => "5",
        6 => "6",
        7 => "7",
        8 => "8",
        9 => "9",
        10 => "A",
        11 => "B",
        12 => "C",
        13 => "D",
        14 => "E",
        _ => "F",
    }
}

/// Whether two texts are equal.
pub fn same_text(a: &str, b: &str) -> (r: bool)
    ensures
        r == (a@ == b@),
{
    String::from_str(a) == String::from_str(b)
}

/// Append `n` in decimal.
pub fn push_decimal(s: &mut String, n: u64)
    ensures
        final(s)@ == old(s)@ + decimal(n as nat),
    decreases n,
{
    let ghost before = s@;
    if n < 10 {
        s.append(digit_str(n as u8));
    } else {
        push_decimal(s, n / 10);
        s.append(digit_str((n % 10) as u8));
        assert(s@ =~= before + decimal(n as nat));
    }
}

/// Append a byte as two capital hexadecimal digits.
pub fn push_hex_byte(s: &mut String, b: u8)
    ensures
        final(s)@ == old(s)@ + hex_byte(b),
{
    let ghost before = s@;
    s.append(digit_str(b / 16));
    s.append(digit_str(b % 16));
    assert(s@ =~= before + hex_byte(b));
}

fn small_digit_str(d: u8) -> (s: &'static str)
    requires
        d < 16,
    ensures
        s@ == seq![small_digit(d as int)],
{
    proof {
        reveal_strlit("a");
        reveal_strlit("b");
        reveal_strlit("c");
        reveal_strlit("d");
        reveal_strlit("e");
        reveal_strlit("f");
    }
    match d {
        10 => "a",
        11 => "b",
        12 => "c",
        13 => "d",
        14 => "e",
        15 => "f",
        _ => digit_str(d),
    }
}

/// Append a byte as two small hexadecimal digits.
pub fn push_small_hex_byte(s: &mut String, b: u8)
    ensures
        final(s)@ == old(s)@ + small_hex_byte(b),
{
    let ghost before = s@;
    s.append(small_digit_str(b / 16));
    s.append(small_digit_str(b % 16));
    assert(s@ =~= before + small_hex_byte(b));
}

/// `String::push`: appends the character to the end.
pub assume_specification[ String::push ](s: &mut String, c: char)
    ensures
        final(s)@ == old(s)@.push(c),
;

/// The characters of a text.
pub fn chars_of(s: &str) -> (v: Vec<char>)
    ensures
        v@ == s@,
{
    let mut v: Vec<char> = Vec::new();
    for c in it: s.chars()
        invariant
            it.seq() == s@,
            v@ =~= s@.take(it.index()),
    {
        v.push(c);
    }
    v
}

/// The text of the characters in `[from, to)`.
pub fn text_of(chars: &Vec<char>, from: usize, to: usize) -> (s: String)
    requires
        from <= to <= chars.len(),
    ensures
        s@ == chars@.subrange(from as int, to as int),
{
    let mut s: String = String::new();
    let mut i: usize = from;
    while i < to
        invariant
            from <= i <= to <= chars.len(),
            s@ =~= chars@.subrange(from as int, i as int),
        decreases to - i,
    {
        s.push(chars[i]);
        i = i + 1;
    }
    s
}

/// Whether a character is white space.
pub open spec fn is_space(c: char) -> bool {
    let n = c as u32;
    9 <= n <= 13 || n == 32 || n == 0x85 || n == 0xA0 || n == 0x1680 || 0x2000 <= n <= 0x200A || n == 0x2028
        || n == 0x2029 || n == 0x202F || n == 0x205F || n == 0x3000
}

/// Whether a character is white space.
pub fn space(c: char) -> (r: bool)
    ensures
        r == is_space(c),
{
    let n: u32 = c as u32;
    (9 <= n && n <= 13) || n == 32 || n == 0x85 || n == 0xA0 || n == 0x1680 || (0x2000 <= n && n <= 0x200A)
        || n == 0x2028 || n == 0x2029 || n == 0x202F || n == 0x205F || n == 0x3000
}

/// A text without the white space before it.
pub open spec fn trim_left(s: Seq<char>) -> Seq<char>
    decreases s.len(),
{
    if s.len() > 0 && is_space(s[0]) { trim_left(s.drop_first()) } else { s }
}

/// A text without the white space behind it.
pub open spec fn trim_right(s: Seq<char>) -> Seq<char>
    decreases s.len(),
{
    if s.len() > 0 && is_space(s.last()) { trim_right(s.drop_last()) } else { s }
}

/// A text without white space around it.
pub open spec fn trimmed(s: Seq<char>) -> Seq<char> {
    trim_right(trim_left(s))
}

/// The bounds of the text in `[from, to)` without white space around it.
pub fn trim_bounds(chars: &Vec<char>, from: usize, to: usize) -> (r: (usize, usize))
    requires
        from <= to <= chars.len(),
    ensures
        from <= r.0 <= r.1 <= to,
        chars@.subrange(r.0 as int, r.1 as int) == trimmed(chars@.subrange(from as int, to as int)),
{
    let ghost whole = chars@.subrange(from as int, to as int);
    let mut a: usize = from;
    while a < to && space(chars[a])
        invariant
            from <= a <= to <= chars.len(),
            trim_left(whole) == trim_left(chars@.subrange(a as int, to as int)),
        decreases to - a,
    {
        assert(chars@.subrange(a as int, to as int).drop_first() =~= chars@.subrange(a + 1, to as int));
        a = a + 1;
    }
    assert(trim_left(whole) == chars@.subrange(a as int, to as int));
    let mut b: usize = to;
    while b > a && space(chars[b - 1])
        invariant
            from <= a <= b <= to <= chars.len(),
            trimmed(whole) == trim_right(chars@.subrange(a as int, b as int)),
        decreases b,
    {
        assert(chars@.subrange(a as int, b as int).drop_last() =~= chars@.subrange(a as int, b - 1));
        b = b - 1;
    }
    (a, b)
}

/// Whether every character is a decimal digit, and there is one.
pub open spec fn is_digits(s: Seq<char>) -> bool {
    s.len() > 0 && forall|i: int| 0 <= i < s.len() ==> '0' <= #[trigger] s[i] && s[i] <= '9'
}

/// The number that decimal digits make.
pub open spec fn digits_value(s: Seq<char>) -> nat
    decreases s.len(),
{
    if s.len() == 0 {
        0
    } else {
        (10 * digits_value(s.drop_last()) + (s.last() as int - '0' as int)) as nat
    }
}

/// The number that a text of decimal digits is, where it fits a machine word.
pub open spec fn number_of(s: Seq<char>) -> Option<u64> {
    if is_digits(s) && digits_value(s) <= u64::MAX { Some(digits_value(s) as u64) } else { None }
}

/// The number that the characters from `from` on are.
pub fn read_number(chars: &Vec<char>, from: usize) -> (r: Option<u64>)
    requires
        from <= chars.len(),
    ensures
        r == number_of(chars@.skip(from as int)),
{
    let ghost s = chars@.skip(from as int);
    if from == chars.len() {
        return None;
    }
    let mut n: u64 = 0;
    let mut fits: bool = true;
    let mut i: usize = from;
    while i < chars.len()
        invariant
            from <= i <= chars.len(),
            s == chars@.skip(from as int),
            forall|j: int| 0 <= j < i - from ==> '0' <= #[trigger] s[j] && s[j] <= '9',
            fits ==> n == digits_value(s.take(i - from)),
            !fits ==> digits_value(s.take(i - from)) > u64::MAX,
        decreases chars.len() - i,
    {
        let c: char = chars[i];
        assert(c == s[i - from]);
        if c < '0' || c > '9' {
            assert(!is_digits(s));
            return None;
        }
        let d: u64 = c as u64 - '0' as u64;
        let ghost t = s.take(i - from + 1);
        assert(t.drop_last() =~= s.take(i - from));
        assert(t.last() == c);
        if fits {
            if n > (u64::MAX - d) / 10 {
                fits = false;
            } else {
                n = 10 * n + d;
            }
        }
        i = i + 1;
    }
    assert(s.take(i - from) =~= s);
    assert(is_digits(s)) by {
        assert(s.len() == chars.len() - from);
    }
    if fits { Some(n) } else { None }
}

// ---------------------------------------------------------------------------
// Laws
// ---------------------------------------------------------------------------

/// The value of a hexadecimal digit.
pub open spec fn hex_value(c: char) -> int {
    if '0' <= c <= '9' {
        c as int - '0' as int
    } else if 'A' <= c <= 'F' {
        c as int - 'A' as int + 10
    } else {
        c as int - 'a' as int + 10
    }
}

/// A byte that was written in hexadecimal digits is read back, with capital letters and
/// with small ones.
pub proof fn law_bytes_are_read_back(b: u8)
    ensures
        hex_byte(b).len() == 2,
        16 * hex_value(hex_byte(b)[0]) + hex_value(hex_byte(b)[1]) == b,
        forall|i: int| 0 <= i < 2 ==> '0' <= #[trigger] hex_byte(b)[i] <= '9' || 'A' <= hex_byte(b)[i] <= 'F',
        small_hex_byte(b).len() == 2,
        16 * hex_value(small_hex_byte(b)[0]) + hex_value(small_hex_byte(b)[1]) == b,
        forall|i: int| 0 <= i < 2 ==> '0' <= #[trigger] small_hex_byte(b)[i] <= '9' || 'a' <= small_hex_byte(b)[i] <= 'f',
{
}

/// A number that was written in decimal is read back, and has no zeros before it.
pub proof fn law_decimals_are_read_back(n: nat)
    ensures
        is_digits(decimal(n)),
        digits_value(decimal(n)) == n,
        n > 0 ==> decimal(n)[0] != '0',
    decreases n,
{
    if n >= 10 {
        law_decimals_are_read_back(n / 10);
        let d = digit_char((n % 10) as int);
        assert(decimal(n).drop_last() =~= decimal(n / 10));
        assert('0' <= d <= '9');
        assert(d as int - '0' as int == n % 10);
        assert(decimal(n).last() == d);
        assert(10 * (n / 10) + n % 10 == n);
    } else {
        assert(decimal(n).drop_last() =~= Seq::empty());
        assert(digits_value(decimal(n).drop_last()) == 0);
        assert(decimal(n).last() as int - '0' as int == n);
    }
}

/// Whether a text is made of blanks, tabs and line ends.
pub open spec fn is_blank(s: Seq<char>) -> bool {
    forall|i: int| 0 <= i < s.len() ==> #[trigger] s[i] == ' ' || s[i] == '\t' || s[i] == '\r' || s[i] == '\n'
}

/// Trimming takes off blanks, tabs and line ends around a text, and nothing of a text
/// whose first and last characters are printed ones.
pub proof fn law_trimming(before: Seq<char>, t: Seq<char>, behind: Seq<char>)
    requires
        is_blank(before),
        is_blank(behind),
        t.len() > 0,
        '!' <= t[0] <= '~',
        '!' <= t.last() <= '~',
    ensures
        trimmed(before + t + behind) == t,
        trimmed(before) == Seq::<char>::empty(),
{
    let rest = t + behind;
    assert(before + t + behind =~= before + rest);
    assert(rest[0] == t[0]);
    lemma_blank_left(before, rest);
    lemma_blank_right(t, behind);
    lemma_blank_gone(before);
}

proof fn lemma_blank_left(before: Seq<char>, rest: Seq<char>)
    requires
        is_blank(before),
        rest.len() > 0,
        !is_space(rest[0]),
    ensures
        trim_left(before + rest) == rest,
    decreases before.len(),
{
    if before.len() > 0 {
        let s = before.drop_first();
        assert forall|i: int| 0 <= i < s.len() implies #[trigger] s[i] == ' ' || s[i] == '\t' || s[i] == '\r' || s[i] == '\n' by {
            assert(s[i] == before[i + 1]);
        }
        assert((before + rest).drop_first() =~= s + rest);
        assert((before + rest)[0] == before[0]);
        lemma_blank_left(s, rest);
    } else {
        assert(before + rest =~= rest);
    }
}

proof fn lemma_blank_right(t: Seq<char>, behind: Seq<char>)
    requires
        is_blank(behind),
        t.len() > 0,
        !is_space(t.last()),
    ensures
        trim_right(t + behind) == t,
    decreases behind.len(),
{
    if behind.len() > 0 {
        let s = behind.drop_last();
        assert forall|i: int| 0 <= i < s.len() implies #[trigger] s[i] == ' ' || s[i] == '\t' || s[i] == '\r' || s[i] == '\n' by {
            assert(s[i] == behind[i]);
        }
        assert((t + behind).drop_last() =~= t + s);
        assert((t + behind).last() == behind.last());
        lemma_blank_right(t, s);
    } else {
        assert(t + behind =~= t);
    }
}

proof fn lemma_blank_gone(s: Seq<char>)
    requires
        is_blank(s),
    ensures
        trimmed(s) == Seq::<char>::empty(),
    decreases s.len(),
{
    if s.len() > 0 {
        let t = s.drop_first();
        assert forall|i: int| 0 <= i < t.len() implies #[trigger] t[i] == ' ' || t[i] == '\t' || t[i] == '\r' || t[i] == '\n' by {
            assert(t[i] == s[i + 1]);
        }
        assert(is_space(s[0]));
        lemma_blank_gone(t);
    } else {
        assert(s =~= Seq::empty());
    }
}

} // verus!
