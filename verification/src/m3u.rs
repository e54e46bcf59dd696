//! M3U playlists.

use vstd::prelude::*;
use vstd::string::*;

use crate::decimal::{check_vanishing, lemma_vanishes_far, vanishes};
use crate::text::{chars_of, digits_value, is_digits, is_space, text_of, trim_bounds, trim_left, trimmed};

verus! {

/// An entry of a playlist.
#[derive(Debug)]
pub struct PlaylistEntry {
    pub url: String,
    pub title: Option<String>,
    /// The duration in seconds, a decimal number that is not negative.
    pub duration_secs: Option<String>,
}

/// A playlist.
#[derive(Debug)]
pub struct Playlist {
    pub entries: Vec<PlaylistEntry>,
}

/// Why a text is no playlist.
#[derive(Debug)]
pub enum M3uError {
    Empty,
    NoEntries,
    Parse(String),
}

/// An error with its text as a sequence.
pub enum M3uFault {
    Empty,
    NoEntries,
    Parse(Seq<char>),
}

impl View for M3uError {
    type V = M3uFault;

    open spec fn view(&self) -> M3uFault {
        match self {
            M3uError::Empty => M3uFault::Empty,
            M3uError::NoEntries => M3uFault::NoEntries,
            M3uError::Parse(s) => M3uFault::Parse(s@),
        }
    }
}

impl M3uError {
    /// The text that is shown for this error.
    pub fn message(&self) -> (s: String)
        ensures
            s@ == match self@ {
                M3uFault::Empty => "Empty playlist"@,
                M3uFault::NoEntries => "No valid entries found"@,
                M3uFault::Parse(t) => "Parse error: "@ + t,
            },
    {
        match self {
            M3uError::Empty => String::from_str("Empty playlist"),
            M3uError::NoEntries => String::from_str("No valid entries found"),
            M3uError::Parse(t) => {
                let mut s: String = String::from_str("Parse error: ");
                s.append(t.as_str());
                s
            },
        }
    }
}

/// An entry with its texts as sequences.
#[verifier::ext_equal]
pub struct EntryView {
    pub url: Seq<char>,
    pub title: Option<Seq<char>>,
    pub duration: Option<Seq<char>>,
}

/// An optional text as a sequence.
pub open spec fn text_view(s: Option<String>) -> Option<Seq<char>> {
    match s {
        Some(t) => Some(t@),
        None => None,
    }
}

impl View for PlaylistEntry {
    type V = EntryView;

    open spec fn view(&self) -> EntryView {
        EntryView { url: self.url@, title: text_view(self.title), duration: text_view(self.duration_secs) }
    }
}

/// The views of several entries.
pub open spec fn entry_views(v: Seq<PlaylistEntry>) -> Seq<EntryView> {
    Seq::new(v.len(), |i: int| v[i]@)
}

// ---------------------------------------------------------------------------
// Lines
// ---------------------------------------------------------------------------

/// The first place from `i` on where a character stands, or the end.
pub open spec fn next_at(s: Seq<char>, c: char, i: int) -> int
    decreases s.len() - i,
{
    if i < 0 || i >= s.len() || s[i] == c { i } else { next_at(s, c, i + 1) }
}

/// The lines of a text from `pos` on, each without white space around it.
pub open spec fn lines_from(s: Seq<char>, pos: int) -> Seq<Seq<char>>
    decreases s.len() - pos,
{
    let end = next_at(s, '\n', pos);
    if pos < 0 || pos > s.len() || end < pos || end > s.len() {
        Seq::empty()
    } else if end == s.len() {
        seq![trimmed(s.subrange(pos, end))]
    } else {
        seq![trimmed(s.subrange(pos, end))] + lines_from(s, end + 1)
    }
}

/// Whether a text begins with another.
pub open spec fn begins_with(s: Seq<char>, p: Seq<char>) -> bool {
    p.len() <= s.len() && s.subrange(0, p.len() as int) == p
}

/// Whether a line is a comment or directive.
pub open spec fn is_comment(line: Seq<char>) -> bool {
    line.len() > 0 && line[0] == '#'
}

/// The entries of the first `n` lines of a simple playlist: each line that is not
/// empty and no comment is a URL.
pub open spec fn simple_entries(lines: Seq<Seq<char>>, n: nat) -> Seq<EntryView>
    decreases n,
{
    if n == 0 {
        Seq::empty()
    } else {
        let l = simple_entries(lines, (n - 1) as nat);
        let line = lines[n - 1];
        if line.len() == 0 || is_comment(line) { l } else { l.push(EntryView { url: line, title: None, duration: None }) }
    }
}

// ---------------------------------------------------------------------------
// Numbers
// ---------------------------------------------------------------------------

/// More than any count of characters.
pub const LARGE: u128 = 0x1_0000_0000_0000_0000_0000_0000;

/// Whether a character is a decimal digit.
pub open spec fn is_digit(c: char) -> bool {
    '0' <= c && c <= '9'
}

/// The end of the digits from `i` on.
pub open spec fn digits_end(s: Seq<char>, i: int) -> int
    decreases s.len() - i,
{
    if i < 0 || i >= s.len() || !is_digit(s[i]) { i } else { digits_end(s, i + 1) }
}

/// Whether a character is a sign.
pub open spec fn is_sign(c: char) -> bool {
    c == '+' || c == '-'
}

/// The end of the digits and the point from `i` on.
pub open spec fn mantissa_end(s: Seq<char>, i: int) -> int {
    let a = digits_end(s, i);
    if a < s.len() && s[a] == '.' { digits_end(s, a + 1) } else { a }
}

/// Whether there are digits before or behind the point.
pub open spec fn has_digits(s: Seq<char>, i: int) -> bool {
    let a = digits_end(s, i);
    a > i || (a < s.len() && s[a] == '.' && digits_end(s, a + 1) > a + 1)
}

/// Whether the text from `b` on is an exponent or nothing.
pub open spec fn exponent_ok(s: Seq<char>, b: int) -> bool {
    if b == s.len() {
        true
    } else {
        let c = if b + 1 < s.len() && is_sign(s[b + 1]) { b + 2 } else { b + 1 };
        (s[b] == 'e' || s[b] == 'E') && c < s.len() && is_digit(s[c]) && digits_end(s, c) == s.len()
    }
}

/// Whether the text from `i` on is a decimal number without a sign.
pub open spec fn is_number(s: Seq<char>, i: int) -> bool {
    has_digits(s, i) && exponent_ok(s, mantissa_end(s, i))
}

/// Whether a character is the letter `lower` or `upper`.
pub open spec fn is_letter(c: char, lower: char, upper: char) -> bool {
    c == lower || c == upper
}

/// Whether the text from `i` on is "inf" or "infinity", in any case.
pub open spec fn is_infinity(s: Seq<char>, i: int) -> bool {
    let n = s.len() - i;
    &&& n == 3 || n == 8
    &&& is_letter(s[i], 'i', 'I') && is_letter(s[i + 1], 'n', 'N') && is_letter(s[i + 2], 'f', 'F')
    &&& n == 8 ==> is_letter(s[i + 3], 'i', 'I') && is_letter(s[i + 4], 'n', 'N') && is_letter(s[i + 5], 'i', 'I')
        && is_letter(s[i + 6], 't', 'T') && is_letter(s[i + 7], 'y', 'Y')
}

/// The digits of a number before and behind the point.
pub open spec fn mantissa_digits(s: Seq<char>, i: int) -> Seq<char> {
    let a = digits_end(s, i);
    let b = mantissa_end(s, i);
    s.subrange(i, a) + (if b > a { s.subrange(a + 1, b) } else { Seq::empty() })
}

/// How many digits stand behind the point.
pub open spec fn fraction_len(s: Seq<char>, i: int) -> int {
    let a = digits_end(s, i);
    let b = mantissa_end(s, i);
    if b > a { b - a - 1 } else { 0 }
}

/// The exponent from `b` on; zero where there is none.
pub open spec fn exponent_value(s: Seq<char>, b: int) -> int {
    if b >= s.len() {
        0
    } else if s[b + 1] == '-' {
        -(digits_value(s.skip(b + 2)) as int)
    } else if s[b + 1] == '+' {
        digits_value(s.skip(b + 2)) as int
    } else {
        digits_value(s.skip(b + 1)) as int
    }
}

/// Whether the number from `i` on is zero as a double-precision number.
pub open spec fn is_zero(s: Seq<char>, i: int) -> bool {
    vanishes(digits_value(mantissa_digits(s, i)), fraction_len(s, i) - exponent_value(s, mantissa_end(s, i)))
}

/// Whether a text is a decimal number that is not negative. One with a minus sign
/// is not negative where it is zero as a double-precision number.
pub open spec fn is_duration(s: Seq<char>) -> bool {
    let i: int = if s.len() > 0 && is_sign(s[0]) { 1 } else { 0 };
    let negative = s.len() > 0 && s[0] == '-';
    if is_infinity(s, i) {
        !negative
    } else {
        is_number(s, i) && (negative ==> is_zero(s, i))
    }
}

// ---------------------------------------------------------------------------
// Extended playlists
// ---------------------------------------------------------------------------

/// A text as a duration, where it is one.
pub open spec fn duration_of(s: Seq<char>) -> Option<Seq<char>> {
    if is_duration(s) { Some(s) } else { None }
}

/// The duration and the title behind `#EXTINF:`, e.g. "123,Song Title" or
/// "-1,Title" or just "123".
pub open spec fn extinf_parts(extinf: Seq<char>) -> (Option<Seq<char>>, Option<Seq<char>>) {
    let s = trimmed(extinf);
    let comma = next_at(s, ',', 0);
    if comma < s.len() {
        let title = trimmed(s.subrange(comma + 1, s.len() as int));
        (duration_of(trimmed(s.subrange(0, comma))), if title.len() == 0 { None } else { Some(title) })
    } else {
        (duration_of(s), None)
    }
}

/// Entries read so far, and what the next one takes over.
#[verifier::ext_equal]
pub struct ReadingView {
    pub entries: Seq<EntryView>,
    pub duration: Option<Seq<char>>,
    pub title: Option<Seq<char>>,
}

/// What a line does.
pub open spec fn line_read(r: ReadingView, line: Seq<char>) -> ReadingView {
    if line.len() == 0 {
        r
    } else if begins_with(line, "#EXTINF:"@) {
        let (duration, title) = extinf_parts(line.subrange(8, line.len() as int));
        ReadingView { duration, title, ..r }
    } else if is_comment(line) {
        r
    } else {
        ReadingView {
            entries: r.entries.push(EntryView { url: line, title: r.title, duration: r.duration }),
            duration: None,
            title: None,
        }
    }
}

/// What the first `n` lines of an extended playlist give.
pub open spec fn extended_read(lines: Seq<Seq<char>>, n: nat) -> ReadingView
    decreases n,
{
    if n == 0 {
        ReadingView { entries: Seq::empty(), duration: None, title: None }
    } else {
        line_read(extended_read(lines, (n - 1) as nat), lines[n - 1])
    }
}

/// The entries of a playlist's lines: an extended one begins with its mark.
pub open spec fn entries_of(lines: Seq<Seq<char>>) -> Seq<EntryView> {
    if lines.len() > 0 && begins_with(lines[0], "#EXTM3U"@) {
        extended_read(lines, lines.len()).entries
    } else {
        simple_entries(lines, lines.len())
    }
}

/// What a text is as a playlist.
pub open spec fn playlist_of(content: Seq<char>) -> Result<Seq<EntryView>, M3uFault> {
    let s = trimmed(content);
    let entries = entries_of(lines_from(s, 0));
    if s.len() == 0 {
        Err(M3uFault::Empty)
    } else if entries.len() == 0 {
        Err(M3uFault::NoEntries)
    } else {
        Ok(entries)
    }
}

proof fn lemma_next_at(s: Seq<char>, c: char, i: int)
    requires
        0 <= i <= s.len(),
    ensures
        i <= next_at(s, c, i) <= s.len(),
        next_at(s, c, i) < s.len() ==> s[next_at(s, c, i)] == c,
    decreases s.len() - i,
{
    if i < s.len() && s[i] != c {
        lemma_next_at(s, c, i + 1);
    }
}

/// The first place from `i` on where a character stands, or the end.
fn find_char(s: &Vec<char>, c: char, i: usize) -> (r: usize)
    requires
        i <= s.len(),
    ensures
        r == next_at(s@, c, i as int),
        i <= r <= s.len(),
{
    let mut j: usize = i;
    while j < s.len() && s[j] != c
        invariant
            i <= j <= s.len(),
            next_at(s@, c, i as int) == next_at(s@, c, j as int),
        decreases s.len() - j,
    {
        j = j + 1;
    }
    j
}

/// The characters in `[from, to)`.
fn copy_chars(s: &Vec<char>, from: usize, to: usize) -> (r: Vec<char>)
    requires
        from <= to <= s.len(),
    ensures
        r@ == s@.subrange(from as int, to as int),
{
    let mut r: Vec<char> = Vec::new();
    let mut i: usize = from;
    while i < to
        invariant
            from <= i <= to <= s.len(),
            r@ =~= s@.subrange(from as int, i as int),
        decreases to - i,
    {
        r.push(s[i]);
        i = i + 1;
    }
    r
}

/// The text in `[from, to)` without white space around it.
fn trim_part(s: &Vec<char>, from: usize, to: usize) -> (r: Vec<char>)
    requires
        from <= to <= s.len(),
    ensures
        r@ == trimmed(s@.subrange(from as int, to as int)),
{
    let (a, b): (usize, usize) = trim_bounds(s, from, to);
    copy_chars(s, a, b)
}

/// The whole text as a string.
fn whole_text(s: &Vec<char>) -> (r: String)
    ensures
        r@ == s@,
{
    let r: String = text_of(s, 0, s.len());
    assert(r@ =~= s@);
    r
}

/// Several texts as sequences.
pub open spec fn rows(v: Seq<Vec<char>>) -> Seq<Seq<char>> {
    Seq::new(v.len(), |i: int| v[i]@)
}

/// The lines of a text, each without white space around it.
fn split_lines(s: &Vec<char>) -> (r: Vec<Vec<char>>)
    ensures
        rows(r@) == lines_from(s@, 0),
{
    let mut r: Vec<Vec<char>> = Vec::new();
    let mut pos: usize = 0;
    let mut more: bool = true;
    assert(rows(r@) =~= Seq::empty());
    assert(lines_from(s@, 0) =~= Seq::<Seq<char>>::empty() + lines_from(s@, 0));
    while more
        invariant
            pos <= s.len(),
            more ==> lines_from(s@, 0) == rows(r@) + lines_from(s@, pos as int),
            !more ==> lines_from(s@, 0) == rows(r@),
        decreases (if more { s.len() - pos + 1 } else { 0 }),
    {
        let ghost before = rows(r@);
        proof {
            lemma_next_at(s@, '\n', pos as int);
        }
        let end: usize = find_char(s, '\n', pos);
        let line: Vec<char> = trim_part(s, pos, end);
        r.push(line);
        assert(rows(r@) =~= before.push(line@));
        if end == s.len() {
            more = false;
            assert(rows(r@) =~= lines_from(s@, 0));
        } else {
            assert(lines_from(s@, 0) =~= rows(r@) + lines_from(s@, end + 1));
            pos = end + 1;
        }
    }
    r
}

/// Whether a text begins with another.
fn starts_with(s: &Vec<char>, p: &str) -> (r: bool)
    ensures
        r == begins_with(s@, p@),
{
    let prefix: Vec<char> = chars_of(p);
    if prefix.len() > s.len() {
        return false;
    }
    let mut i: usize = 0;
    while i < prefix.len()
        invariant
            i <= prefix.len() <= s.len(),
            prefix@ == p@,
            forall|j: int| 0 <= j < i ==> s[j] == prefix[j],
        decreases prefix.len() - i,
    {
        if s[i] != prefix[i] {
            assert(s@.subrange(0, prefix.len() as int)[i as int] != p@[i as int]);
            return false;
        }
        i = i + 1;
    }
    assert(s@.subrange(0, prefix.len() as int) =~= p@);
    true
}

/// The end of the digits from `i` on.
fn skip_digits(s: &Vec<char>, i: usize) -> (r: usize)
    requires
        i <= s.len(),
    ensures
        r == digits_end(s@, i as int),
        i <= r <= s.len(),
{
    let mut j: usize = i;
    while j < s.len() && '0' <= s[j] && s[j] <= '9'
        invariant
            i <= j <= s.len(),
            digits_end(s@, i as int) == digits_end(s@, j as int),
        decreases s.len() - j,
    {
        j = j + 1;
    }
    j
}

/// Whether the text from `b` on is an exponent or nothing.
fn check_exponent(s: &Vec<char>, b: usize) -> (r: bool)
    requires
        b <= s.len(),
    ensures
        r == exponent_ok(s@, b as int),
{
    if b == s.len() {
        return true;
    }
    if s[b] != 'e' && s[b] != 'E' {
        return false;
    }
    let mut c: usize = b + 1;
    if c < s.len() && (s[c] == '+' || s[c] == '-') {
        c = c + 1;
    }
    c < s.len() && '0' <= s[c] && s[c] <= '9' && skip_digits(s, c) == s.len()
}

/// Whether a character is the letter `lower` or `upper`.
fn letter(c: char, lower: char, upper: char) -> (r: bool)
    ensures
        r == is_letter(c, lower, upper),
{
    c == lower || c == upper
}

/// Whether the text from `i` on is "inf" or "infinity", in any case.
fn check_infinity(s: &Vec<char>, i: usize) -> (r: bool)
    requires
        i <= s.len(),
    ensures
        r == is_infinity(s@, i as int),
{
    let n: usize = s.len() - i;
    if n != 3 && n != 8 {
        return false;
    }
    if !(letter(s[i], 'i', 'I') && letter(s[i + 1], 'n', 'N') && letter(s[i + 2], 'f', 'F')) {
        return false;
    }
    n == 3 || (letter(s[i + 3], 'i', 'I') && letter(s[i + 4], 'n', 'N') && letter(s[i + 5], 'i', 'I')
        && letter(s[i + 6], 't', 'T') && letter(s[i + 7], 'y', 'Y'))
}

proof fn lemma_digits_end(s: Seq<char>, i: int)
    requires
        0 <= i <= s.len(),
    ensures
        i <= digits_end(s, i) <= s.len(),
        forall|j: int| i <= j < digits_end(s, i) ==> is_digit(#[trigger] s[j]),
    decreases s.len() - i,
{
    if i < s.len() && is_digit(s[i]) {
        lemma_digits_end(s, i + 1);
    }
}

/// The number of the digits from `from` on, or one that is at least as large as
/// `LARGE` where it is.
fn read_large(s: &Vec<char>, from: usize) -> (r: u128)
    requires
        from <= s.len(),
        digits_end(s@, from as int) == s.len(),
    ensures
        r < LARGE ==> r == digits_value(s@.skip(from as int)),
        r >= LARGE ==> digits_value(s@.skip(from as int)) >= LARGE,
{
    let ghost t = s@.skip(from as int);
    proof {
        lemma_digits_end(s@, from as int);
    }
    let mut n: u128 = 0;
    let mut i: usize = from;
    while i < s.len()
        invariant
            from <= i <= s.len(),
            t == s@.skip(from as int),
            forall|j: int| from <= j < s.len() ==> is_digit(#[trigger] s@[j]),
            n < LARGE ==> n == digits_value(t.take(i - from)),
            n >= LARGE ==> digits_value(t.take(i - from)) >= LARGE,
        decreases s.len() - i,
    {
        let c: char = s[i];
        assert(is_digit(s@[i as int]));
        let d: u128 = c as u128 - '0' as u128;
        assert(t.take(i - from + 1).drop_last() =~= t.take(i - from));
        assert(t.take(i - from + 1).last() == c);
        if n < LARGE {
            n = 10 * n + d;
        }
        i = i + 1;
    }
    assert(t.take(i - from) =~= t);
    n
}

/// Whether the number from `i` on, with its point at `a` where it has one and its
/// exponent at `b`, is zero as a double-precision number.
fn check_zero(s: &Vec<char>, i: usize, a: usize, b: usize) -> (r: bool)
    requires
        i <= a <= b <= s.len(),
        a == digits_end(s@, i as int),
        b == mantissa_end(s@, i as int),
        has_digits(s@, i as int),
        exponent_ok(s@, b as int),
    ensures
        r == is_zero(s@, i as int),
{
    proof {
        lemma_digits_end(s@, i as int);
        if b > a {
            lemma_digits_end(s@, a + 1);
        }
    }
    let mut digits: Vec<char> = copy_chars(s, i, a);
    if b > a {
        let mut rest: Vec<char> = copy_chars(s, a + 1, b);
        digits.append(&mut rest);
    }
    assert(digits@ =~= mantissa_digits(s@, i as int));
    assert(is_digits(digits@)) by {
        assert forall|j: int| 0 <= j < digits@.len() implies '0' <= #[trigger] digits@[j] && digits@[j] <= '9' by {
            let k = if j < a - i { i + j } else { j + i + 1 };
            assert(digits@[j] == s@[k]);
            assert(is_digit(s@[k]));
        }
    }
    let fraction: i128 = if b > a { (b - a) as i128 - 1 } else { 0 };
    if b == s.len() {
        return check_vanishing(&digits, fraction);
    }
    let below: bool = s[b + 1] == '-';
    let from: usize = if below || s[b + 1] == '+' { b + 2 } else { b + 1 };
    let x: u128 = read_large(s, from);
    if x < LARGE {
        let k: i128 = if below { fraction + x as i128 } else { fraction - x as i128 };
        return check_vanishing(&digits, k);
    }
    if below {
        proof {
            lemma_vanishes_far(digits@, fraction as int + digits_value(s@.skip(from as int)) as int);
        }
        return true;
    }
    check_vanishing(&digits, -1)
}

/// Whether a text is a decimal number that is not negative.
fn check_duration(s: &Vec<char>) -> (r: bool)
    ensures
        r == is_duration(s@),
{
    let negative: bool = s.len() > 0 && s[0] == '-';
    let i: usize = if negative || (s.len() > 0 && s[0] == '+') { 1 } else { 0 };
    if check_infinity(s, i) {
        return !negative;
    }
    let a: usize = skip_digits(s, i);
    let mut b: usize = a;
    let mut digits: bool = a > i;
    if a < s.len() && s[a] == '.' {
        b = skip_digits(s, a + 1);
        digits = digits || b > a + 1;
    }
    if !digits || !check_exponent(s, b) {
        return false;
    }
    !negative || check_zero(s, i, a, b)
}

/// Parse the content after `#EXTINF:` — e.g. "123,Song Title" or "-1,Title" or just "123".
fn parse_extinf(extinf: &Vec<char>) -> (r: (Option<String>, Option<String>))
    ensures
        (text_view(r.0), text_view(r.1)) == extinf_parts(extinf@),
{
    assert(extinf@.subrange(0, extinf.len() as int) =~= extinf@);
    let s: Vec<char> = trim_part(extinf, 0, extinf.len());
    let comma: usize = find_char(&s, ',', 0);
    if comma < s.len() {
        let duration: Vec<char> = trim_part(&s, 0, comma);
        let title: Vec<char> = trim_part(&s, comma + 1, s.len());
        (
            if check_duration(&duration) { Some(whole_text(&duration)) } else { None },
            if title.len() == 0 { None } else { Some(whole_text(&title)) },
        )
    } else {
        (if check_duration(&s) { Some(whole_text(&s)) } else { None }, None)
    }
}

/// Parse simple M3U: each non-empty, non-comment line is a URL.
fn parse_simple(lines: &Vec<Vec<char>>) -> (r: Vec<PlaylistEntry>)
    ensures
        entry_views(r@) == simple_entries(rows(lines@), lines.len() as nat),
{
    let ghost all = rows(lines@);
    let mut r: Vec<PlaylistEntry> = Vec::new();
    assert(entry_views(r@) =~= Seq::empty());
    let mut i: usize = 0;
    while i < lines.len()
        invariant
            i <= lines.len(),
            all == rows(lines@),
            entry_views(r@) == simple_entries(all, i as nat),
        decreases lines.len() - i,
    {
        let ghost before = entry_views(r@);
        let line: &Vec<char> = &lines[i];
        assert(all[i as int] == line@);
        if line.len() > 0 && line[0] != '#' {
            r.push(PlaylistEntry { url: whole_text(line), title: None, duration_secs: None });
            assert(entry_views(r@) =~= before.push(EntryView { url: line@, title: None, duration: None }));
        }
        i = i + 1;
    }
    r
}

/// Parse extended M3U: #EXTINF:duration,title followed by URL.
fn parse_extended(lines: &Vec<Vec<char>>) -> (r: Vec<PlaylistEntry>)
    ensures
        entry_views(r@) == extended_read(rows(lines@), lines.len() as nat).entries,
{
    let ghost all = rows(lines@);
    let mut r: Vec<PlaylistEntry> = Vec::new();
    let mut title: Option<String> = None;
    let mut duration: Option<String> = None;
    assert(entry_views(r@) =~= Seq::empty());
    let mut i: usize = 0;
    while i < lines.len()
        invariant
            i <= lines.len(),
            all == rows(lines@),
            extended_read(all, i as nat) == (ReadingView {
                entries: entry_views(r@),
                duration: text_view(duration),
                title: text_view(title),
            }),
        decreases lines.len() - i,
    {
        let ghost before = entry_views(r@);
        let ghost state = extended_read(all, i as nat);
        let line: &Vec<char> = &lines[i];
        assert(all[i as int] == line@);
        proof {
            reveal_strlit("#EXTINF:");
        }
        if line.len() == 0 {
        } else if starts_with(line, "#EXTINF:") {
            let extinf: Vec<char> = copy_chars(line, 8, line.len());
            let (d, t): (Option<String>, Option<String>) = parse_extinf(&extinf);
            duration = d;
            title = t;
        } else if line[0] == '#' {
        } else {
            let entry: PlaylistEntry = PlaylistEntry { url: whole_text(line), title, duration_secs: duration };
            let ghost view = entry@;
            r.push(entry);
            title = None;
            duration = None;
            assert(entry_views(r@) =~= before.push(view));
        }
        assert(line_read(state, line@) =~= (ReadingView {
            entries: entry_views(r@),
            duration: text_view(duration),
            title: text_view(title),
        }));
        i = i + 1;
    }
    r
}

/// Parse an M3U playlist from text content.
///
/// Supports both simple M3U (one URL per line) and extended M3U (#EXTM3U header
/// with #EXTINF directives).
pub fn parse(content: &str) -> (r: Result<Playlist, M3uError>)
    ensures
        match r {
            Ok(p) => playlist_of(content@) == Ok::<Seq<EntryView>, M3uFault>(entry_views(p.entries@)),
            Err(e) => playlist_of(content@) == Err::<Seq<EntryView>, M3uFault>(e@),
        },
{
    let chars: Vec<char> = chars_of(content);
    assert(chars@.subrange(0, chars.len() as int) =~= content@);
    let s: Vec<char> = trim_part(&chars, 0, chars.len());
    if s.len() == 0 {
        return Err(M3uError::Empty);
    }
    let lines: Vec<Vec<char>> = split_lines(&s);
    let ghost all = rows(lines@);
    let extended: bool = lines.len() > 0 && starts_with(&lines[0], "#EXTM3U");
    let entries: Vec<PlaylistEntry> = if extended { parse_extended(&lines) } else { parse_simple(&lines) };
    if entries.len() == 0 {
        return Err(M3uError::NoEntries);
    }
    Ok(Playlist { entries })
}

// ---------------------------------------------------------------------------
// Laws
// ---------------------------------------------------------------------------

/// Every entry of a playlist has the text of one of its lines as its URL, in the
/// order of the lines, and that text is neither empty nor a comment.
pub proof fn law_urls_are_lines(lines: Seq<Seq<char>>, n: nat)
    requires
        n <= lines.len(),
    ensures
        ({
            let a = simple_entries(lines, n);
            let b = extended_read(lines, n).entries;
            &&& a.len() == b.len() <= n
            &&& forall|i: int| 0 <= i < a.len() ==> (#[trigger] a[i]).url == (#[trigger] b[i]).url && a[i].url.len() > 0
                && !is_comment(a[i].url) && lines.contains(a[i].url)
        }),
    decreases n,
{
    if n > 0 {
        law_urls_are_lines(lines, (n - 1) as nat);
        let line = lines[n - 1];
        reveal_strlit("#EXTINF:");
        if begins_with(line, "#EXTINF:"@) {
            assert(line.subrange(0, 8)[0] == '#');
            assert(line[0] == '#');
        }
        assert(lines.contains(line));
    }
}

/// An entry without its own `#EXTINF` line has no title and no duration.
pub proof fn law_details_used_once(r: ReadingView, first: Seq<char>, second: Seq<char>)
    requires
        first.len() > 0,
        !is_comment(first),
        second.len() > 0,
        !is_comment(second),
    ensures
        ({
            let after = line_read(line_read(r, first), second);
            &&& after.entries.len() == r.entries.len() + 2
            &&& after.entries[r.entries.len() as int] == (EntryView { url: first, title: r.title, duration: r.duration })
            &&& after.entries.last() == (EntryView { url: second, title: None, duration: None })
        }),
{
    reveal_strlit("#EXTINF:");
    if begins_with(first, "#EXTINF:"@) {
        assert(first.subrange(0, 8)[0] == '#');
    }
    if begins_with(second, "#EXTINF:"@) {
        assert(second.subrange(0, 8)[0] == '#');
    }
}

proof fn lemma_trim_left(s: Seq<char>, rest: Seq<char>)
    requires
        rest.len() > 0,
        !is_space(rest[0]),
    ensures
        trim_left(s + rest) == trim_left(s) + rest,
        trim_left(trim_left(s)) == trim_left(s),
        forall|c: char| #[trigger] trim_left(s).contains(c) ==> s.contains(c),
    decreases s.len(),
{
    if s.len() > 0 && is_space(s[0]) {
        let t = s.drop_first();
        lemma_trim_left(t, rest);
        assert((s + rest).drop_first() =~= t + rest);
        assert forall|c: char| #[trigger] trim_left(s).contains(c) implies s.contains(c) by {
            let k = t.index_of(c);
            assert(s[k + 1] == c);
        }
    } else if s.len() == 0 {
        assert(s + rest =~= rest);
        assert(trim_left(s) + rest =~= rest);
    }
}

proof fn lemma_first_place(s: Seq<char>, c: char, i: int, n: int)
    requires
        0 <= i <= n <= s.len(),
        forall|j: int| i <= j < n ==> #[trigger] s[j] != c,
        n < s.len() ==> s[n] == c,
    ensures
        next_at(s, c, i) == n,
    decreases n - i,
{
    if i < n {
        lemma_first_place(s, c, i + 1, n);
    }
}

/// Whether a text has no white space at its ends, and has characters.
pub open spec fn is_tidy(s: Seq<char>) -> bool {
    s.len() > 0 && !is_space(s[0]) && !is_space(s.last())
}

/// The title of an entry is all that stands behind the first comma, whatever its
/// characters are, and the duration is what stands before it: where that is a number
/// of decimal digits, it is kept as it is.
pub proof fn law_title_is_kept(r: ReadingView, d: Seq<char>, t: Seq<char>, url: Seq<char>)
    requires
        !d.contains(','),
        is_tidy(t),
        url.len() > 0,
        url[0] != '#',
    ensures
        ({
            let w = line_read(line_read(r, "#EXTINF:"@ + d + seq![','] + t), url);
            let e = w.entries.last();
            &&& w.entries.len() == r.entries.len() + 1
            &&& w.entries.drop_last() == r.entries
            &&& e.url == url
            &&& e.title == Some(t)
            &&& d.len() > 0 && (forall|i: int| 0 <= i < d.len() ==> '0' <= #[trigger] d[i] <= '9') ==> e.duration == Some(d)
            &&& w.title is None
            &&& w.duration is None
        }),
{
    reveal_strlit("#EXTINF:");
    let mark = "#EXTINF:"@;
    let line = mark + d + seq![','] + t;
    assert(line.subrange(0, 8) =~= mark);
    assert(line.subrange(8, line.len() as int) =~= d + seq![','] + t);
    lemma_details(d, t);
    if begins_with(url, mark) {
        assert(url.subrange(0, 8)[0] == url[0]);
    }
    let mid = line_read(r, line);
    assert(mid.title == Some(t) && mid.entries == r.entries);
    let w = line_read(mid, url);
    assert(w.entries == r.entries.push(EntryView { url, title: mid.title, duration: mid.duration }));
    assert(w.entries.drop_last() =~= r.entries);
}

proof fn lemma_details(d: Seq<char>, t: Seq<char>)
    requires
        !d.contains(','),
        is_tidy(t),
    ensures
        extinf_parts(d + seq![','] + t).1 == Some(t),
        d.len() > 0 && (forall|i: int| 0 <= i < d.len() ==> '0' <= #[trigger] d[i] <= '9') ==> extinf_parts(d + seq![','] + t).0 == Some(d),
{
    let text = d + seq![','] + t;
    let rest = seq![','] + t;
    assert(text =~= d + rest);
    lemma_trim_left(d, rest);
    let dl = trim_left(d);
    let s = dl + rest;
    assert(s.last() == t.last());
    assert(trimmed(text) == s);
    assert forall|j: int| 0 <= j < dl.len() implies #[trigger] s[j] != ',' by {
        assert(dl.contains(dl[j]));
    }
    assert(s[dl.len() as int] == ',');
    lemma_first_place(s, ',', 0, dl.len() as int);
    assert(s.subrange(dl.len() as int + 1, s.len() as int) =~= t);
    assert(trimmed(t) == t);
    assert(s.subrange(0, dl.len() as int) =~= dl);
    if d.len() > 0 && (forall|i: int| 0 <= i < d.len() ==> '0' <= #[trigger] d[i] <= '9') {
        lemma_digits_are_duration(d);
    }
}

proof fn lemma_digits_are_duration(d: Seq<char>)
    requires
        d.len() > 0,
        forall|i: int| 0 <= i < d.len() ==> '0' <= #[trigger] d[i] <= '9',
    ensures
        trim_left(d) == d,
        trimmed(d) == d,
        is_duration(d),
{
    assert('0' <= d[0] <= '9' && '0' <= d.last() <= '9');
    lemma_all_digits(d, 0);
    assert(!is_infinity(d, 0));
    assert(is_number(d, 0));
}

proof fn lemma_all_digits(s: Seq<char>, i: int)
    requires
        0 <= i <= s.len(),
        forall|j: int| 0 <= j < s.len() ==> '0' <= #[trigger] s[j] <= '9',
    ensures
        digits_end(s, i) == s.len(),
    decreases s.len() - i,
{
    if i < s.len() {
        lemma_all_digits(s, i + 1);
    }
}

/// Lines one behind the other.
pub open spec fn joined_lines(lines: Seq<Seq<char>>) -> Seq<char>
    decreases lines.len(),
{
    if lines.len() == 0 {
        Seq::empty()
    } else if lines.len() == 1 {
        lines[0]
    } else {
        lines[0] + seq!['\n'] + joined_lines(lines.drop_first())
    }
}

/// A text that was put together from lines is read as these lines, where none of them
/// has white space at its ends, though some may be empty between the first and the
/// last one.
pub proof fn law_lines_come_back(lines: Seq<Seq<char>>)
    requires
        lines.len() > 0,
        is_tidy(lines[0]),
        is_tidy(lines.last()),
        forall|i: int| 0 <= i < lines.len() ==> (#[trigger] lines[i]).len() == 0 || is_tidy(lines[i]),
        forall|i: int| 0 <= i < lines.len() ==> !(#[trigger] lines[i]).contains('\n'),
    ensures
        ({
            let text = joined_lines(lines);
            &&& lines_from(trimmed(text), 0) == lines
            &&& entries_of(lines).len() > 0 ==> playlist_of(text) == Ok::<Seq<EntryView>, M3uFault>(entries_of(lines))
        }),
{
    let text = joined_lines(lines);
    lemma_joined_ends(lines);
    assert(trimmed(text) == text);
    lemma_lines_back(Seq::empty(), lines);
    assert(Seq::<char>::empty() + text =~= text);
}

proof fn lemma_joined_ends(lines: Seq<Seq<char>>)
    requires
        lines.len() > 0,
        is_tidy(lines.last()),
    ensures
        joined_lines(lines).len() > 0,
        joined_lines(lines).last() == lines.last().last(),
        lines[0].len() > 0 ==> joined_lines(lines)[0] == lines[0][0],
    decreases lines.len(),
{
    if lines.len() > 1 {
        lemma_joined_ends(lines.drop_first());
    }
}

proof fn lemma_lines_back(pre: Seq<char>, lines: Seq<Seq<char>>)
    requires
        lines.len() > 0,
        forall|i: int| 0 <= i < lines.len() ==> (#[trigger] lines[i]).len() == 0 || is_tidy(lines[i]),
        forall|i: int| 0 <= i < lines.len() ==> !(#[trigger] lines[i]).contains('\n'),
    ensures
        lines_from(pre + joined_lines(lines), pre.len() as int) == lines,
    decreases lines.len(),
{
    let s = pre + joined_lines(lines);
    let a = pre.len() as int;
    let first = lines[0];
    let b = a + first.len();
    assert forall|j: int| a <= j < b implies #[trigger] s[j] != '\n' by {
        assert(first[j - a] == s[j]);
        assert(first.contains(first[j - a]));
    }
    lemma_first_place(s, '\n', a, b);
    assert(s.subrange(a, b) =~= first);
    assert(trimmed(first) == first);
    if lines.len() > 1 {
        let rest = lines.drop_first();
        let next = pre + first + seq!['\n'];
        assert(s =~= next + joined_lines(rest));
        lemma_lines_back(next, rest);
        assert(seq![first] + rest =~= lines);
    } else {
        assert(seq![first] =~= lines);
    }
}

/// Digits are a duration, and so they are with a point and more digits behind them; with
/// a minus sign they are one only where all of them are zero, and any other text behind
/// them spoils it.
pub proof fn law_durations(a: Seq<char>, b: Seq<char>, c: char)
    requires
        a.len() > 0,
        forall|i: int| 0 <= i < a.len() ==> '0' <= #[trigger] a[i] <= '9',
        forall|i: int| 0 <= i < b.len() ==> '0' <= #[trigger] b[i] <= '9',
        !('0' <= c <= '9') && c != '.' && c != 'e' && c != 'E',
    ensures
        duration_of(a) == Some(a),
        duration_of(a + seq!['.'] + b) == Some(a + seq!['.'] + b),
        duration_of(seq!['-'] + a) is Some <==> digits_value(a) == 0,
        duration_of(a.push(c)) is None,
{
    lemma_digits_are_duration(a);
    let p = a + seq!['.'] + b;
    lemma_digits_until(p, 0, a.len() as int);
    lemma_digits_until(p, a.len() as int + 1, p.len() as int);
    assert(p[0] == a[0]);
    let n = seq!['-'] + a;
    lemma_digits_until(n, 1, n.len() as int);
    assert(n.subrange(1, n.len() as int) =~= a);
    assert(mantissa_digits(n, 1) =~= a);
    assert(fraction_len(n, 1) == 0 && exponent_value(n, mantissa_end(n, 1)) == 0);
    assert(n[1] == a[0]);
    let q = a.push(c);
    lemma_digits_until(q, 0, a.len() as int);
    assert(q[0] == a[0]);
}

proof fn lemma_digits_until(s: Seq<char>, i: int, n: int)
    requires
        0 <= i <= n <= s.len(),
        forall|j: int| i <= j < n ==> '0' <= #[trigger] s[j] <= '9',
        n < s.len() ==> !('0' <= s[n] <= '9'),
    ensures
        digits_end(s, i) == n,
    decreases n - i,
{
    if i < n {
        lemma_digits_until(s, i + 1, n);
    }
}

} // verus!
