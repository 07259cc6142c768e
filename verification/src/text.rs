//! Plain text: the string operations that the rest of the library is built
//! from, each with its meaning as a spec function on `Seq<char>`.

use vstd::prelude::*;

verus! {

broadcast use vstd::string::group_string_axioms;

/// `String::push` of std: the character goes to the end, the rest stays.
pub assume_specification[ String::push ](s: &mut String, c: char)
    ensures
        final(s)@ == old(s)@.push(c),
;

/// The views of a list of strings.
pub open spec fn views(list: Seq<String>) -> Seq<Seq<char>> {
    list.map_values(|s: String| s@)
}

/// The view of an optional string.
pub open spec fn view_of(s: Option<String>) -> Option<Seq<char>> {
    match s {
        Some(text) => Some(text@),
        None => None,
    }
}

/// The view of an optional string slice.
pub open spec fn slice_view(s: Option<&str>) -> Option<Seq<char>> {
    match s {
        Some(text) => Some(text@),
        None => None,
    }
}

/// The characters of a text, in order.
pub fn chars_of(s: &str) -> (r: Vec<char>)
    ensures
        r@ == s@,
{
    let mut out: Vec<char> = Vec::new();
    for c in it: s.chars()
        invariant
            it.seq() == s@,
            out@ == s@.take(it.index() as int),
    {
        out.push(c);
    }
    out
}

/// The text made of the characters `from..to` of `cs`.
pub fn text_of(cs: &[char], from: usize, to: usize) -> (r: String)
    requires
        from <= to <= cs@.len(),
    ensures
        r@ == cs@.subrange(from as int, to as int),
{
    let mut out = String::new();
    let mut i: usize = from;
    while i < to
        invariant
            from <= i <= to <= cs@.len(),
            out@ == cs@.subrange(from as int, i as int),
        decreases to - i,
    {
        out.push(cs[i]);
        i += 1;
    }
    out
}

/// Whether two texts are the same.
pub fn same_text(a: &str, b: &str) -> (r: bool)
    ensures
        r == (a@ == b@),
{
    let xs = chars_of(a);
    let ys = chars_of(b);
    if xs.len() != ys.len() {
        return false;
    }
    let mut i: usize = 0;
    while i < xs.len()
        invariant
            i <= xs@.len() == ys@.len(),
            xs@ == a@,
            ys@ == b@,
            forall|j: int| 0 <= j < i ==> xs@[j] == ys@[j],
        decreases xs@.len() - i,
    {
        if xs[i] != ys[i] {
            assert(a@[i as int] != b@[i as int]);
            return false;
        }
        i += 1;
    }
    assert(a@ =~= b@);
    true
}

/// A copy of an optional text.
pub fn copy_text(s: &Option<String>) -> (r: Option<String>)
    ensures
        r == *s,
{
    match s {
        Some(text) => Some(text.clone()),
        None => None,
    }
}

// ---------------------------------------------------------------------------
// Searching
// ---------------------------------------------------------------------------

/// `part` stands in `s` at position `at`.
pub open spec fn stands_at(s: Seq<char>, part: Seq<char>, at: int) -> bool {
    0 <= at && at + part.len() <= s.len() && s.subrange(at, at + part.len()) == part
}

/// `s` begins with `part`.
pub open spec fn begins_with(s: Seq<char>, part: Seq<char>) -> bool {
    stands_at(s, part, 0)
}

/// `part` stands somewhere in `s`.
pub open spec fn includes(s: Seq<char>, part: Seq<char>) -> bool {
    exists|at: int| #[trigger] stands_at(s, part, at)
}

/// Whether `part` stands in `s` at position `at`.
pub fn is_at(s: &[char], part: &[char], at: usize) -> (r: bool)
    ensures
        r == stands_at(s@, part@, at as int),
{
    if at > s.len() || s.len() - at < part.len() {
        return false;
    }
    let total = s.len();
    let mut i: usize = 0;
    while i < part.len()
        invariant
            i <= part@.len(),
            total == s@.len(),
            at + part@.len() <= total,
            forall|j: int| 0 <= j < i ==> s@[at + j] == part@[j],
        decreases part@.len() - i,
    {
        if s[at + i] != part[i] {
            assert(s@.subrange(at as int, at + part@.len())[i as int] != part@[i as int]);
            return false;
        }
        i += 1;
    }
    assert(s@.subrange(at as int, at + part@.len()) =~= part@);
    true
}

/// Whether `s` begins with `part`.
pub fn has_prefix(s: &str, part: &str) -> (r: bool)
    ensures
        r == begins_with(s@, part@),
{
    let cs = chars_of(s);
    let ps = chars_of(part);
    is_at(cs.as_slice(), ps.as_slice(), 0)
}

/// Whether `part` stands somewhere in `s`.
pub fn has_part(s: &str, part: &str) -> (r: bool)
    ensures
        r == includes(s@, part@),
{
    let cs = chars_of(s);
    let ps = chars_of(part);
    let mut at: usize = 0;
    while at < cs.len()
        invariant
            at <= cs@.len(),
            cs@ == s@,
            ps@ == part@,
            forall|k: int| 0 <= k < at ==> !stands_at(s@, part@, k),
        decreases cs@.len() - at,
    {
        if is_at(cs.as_slice(), ps.as_slice(), at) {
            return true;
        }
        at += 1;
    }
    let last = is_at(cs.as_slice(), ps.as_slice(), at);
    assert(!last ==> forall|k: int| !stands_at(s@, part@, k));
    last
}

/// Whether the character `c` occurs in `s`.
pub fn has_char(s: &str, c: char) -> (r: bool)
    ensures
        r == s@.contains(c),
{
    let cs = chars_of(s);
    let mut i: usize = 0;
    while i < cs.len()
        invariant
            i <= cs@.len(),
            cs@ == s@,
            forall|j: int| 0 <= j < i ==> s@[j] != c,
        decreases cs@.len() - i,
    {
        if cs[i] == c {
            assert(s@[i as int] == c);
            return true;
        }
        i += 1;
    }
    false
}

// ---------------------------------------------------------------------------
// Lines
// ---------------------------------------------------------------------------

/// The position of the first `c` in `s`, or the length of `s` if there is none.
pub open spec fn first_index(s: Seq<char>, c: char) -> nat
    decreases s.len(),
{
    if s.len() == 0 || s[0] == c {
        0
    } else {
        1 + first_index(s.drop_first(), c)
    }
}

/// What `first_index` is: nothing before it is `c`, and it is a `c` or the end.
pub proof fn lemma_first_index(s: Seq<char>, c: char)
    ensures
        first_index(s, c) <= s.len(),
        forall|i: int| 0 <= i < first_index(s, c) ==> s[i] != c,
        first_index(s, c) < s.len() ==> s[first_index(s, c) as int] == c,
    decreases s.len(),
{
    if s.len() != 0 && s[0] != c {
        lemma_first_index(s.drop_first(), c);
        assert forall|i: int| 0 <= i < first_index(s, c) implies s[i] != c by {
            if i > 0 {
                assert(s[i] == s.drop_first()[i - 1]);
            }
        }
    }
}

/// The position with these two properties is `first_index`.
pub proof fn lemma_first_index_unique(s: Seq<char>, c: char, n: int)
    requires
        0 <= n <= s.len(),
        forall|i: int| 0 <= i < n ==> s[i] != c,
        n < s.len() ==> s[n] == c,
    ensures
        first_index(s, c) == n,
{
    lemma_first_index(s, c);
    let f = first_index(s, c) as int;
    if f < n {
        assert(s[f] == c);
    }
    if n < f {
        assert(s[n] == c);
    }
}

/// A terminated line without the carriage return that may end it.
pub open spec fn without_return(line: Seq<char>) -> Seq<char> {
    if line.len() > 0 && line.last() == '\r' {
        line.drop_last()
    } else {
        line
    }
}

/// The lines of a text. A line ends at a line feed, or at a carriage return with
/// a line feed after it, neither of which belongs to the line. What follows the
/// last line feed is a line of its own unless it is empty.
pub open spec fn lines_of(s: Seq<char>) -> Seq<Seq<char>>
    decreases s.len(),
{
    if s.len() == 0 {
        Seq::empty()
    } else {
        let n = first_index(s, '\n') as int;
        if n < s.len() {
            seq![without_return(s.take(n))] + lines_of(s.skip(n + 1))
        } else {
            seq![s]
        }
    }
}

/// The position of the first `c` at or after `from`, or the length of `cs`.
pub fn find_char(cs: &[char], c: char, from: usize) -> (r: usize)
    requires
        from <= cs@.len(),
    ensures
        from <= r <= cs@.len(),
        r - from == first_index(cs@.skip(from as int), c),
{
    let mut i: usize = from;
    while i < cs.len() && cs[i] != c
        invariant
            from <= i <= cs@.len(),
            forall|j: int| from <= j < i ==> cs@[j] != c,
        decreases cs@.len() - i,
    {
        i += 1;
    }
    proof {
        lemma_first_index_unique(cs@.skip(from as int), c, i - from);
    }
    i
}

/// The lines of `text`.
pub fn split_lines(text: &str) -> (r: Vec<String>)
    ensures
        views(r@) == lines_of(text@),
{
    let cs = chars_of(text);
    let mut out: Vec<String> = Vec::new();
    let mut start: usize = 0;
    assert(cs@.skip(0) =~= text@);
    assert(views(out@) =~= Seq::empty());
    while start < cs.len()
        invariant
            start <= cs@.len(),
            cs@ == text@,
            views(out@) + lines_of(cs@.skip(start as int)) == lines_of(text@),
        decreases cs@.len() - start,
    {
        let end = find_char(cs.as_slice(), '\n', start);
        let ghost rest = cs@.skip(start as int);
        let ghost before = out@;
        if end < cs.len() {
            let ghost raw = rest.take(end - start);
            assert(raw =~= cs@.subrange(start as int, end as int));
            let stop: usize = if end > start && cs[end - 1] == '\r' {
                end - 1
            } else {
                end
            };
            let line = text_of(cs.as_slice(), start, stop);
            assert(line@ =~= without_return(raw));
            out.push(line);
            assert(rest.skip(end - start + 1) =~= cs@.skip(end + 1));
            assert(views(out@) =~= views(before).push(line@));
            assert(views(out@) + lines_of(cs@.skip(end + 1)) =~= views(before) + lines_of(rest));
            start = end + 1;
        } else {
            let line = text_of(cs.as_slice(), start, end);
            assert(line@ =~= rest);
            out.push(line);
            assert(lines_of(cs@.skip(end as int)) =~= Seq::empty());
            assert(views(out@) =~= views(before).push(line@));
            assert(views(out@) + lines_of(cs@.skip(end as int)) =~= views(before) + lines_of(rest));
            start = end;
        }
    }
    assert(lines_of(cs@.skip(start as int)) =~= Seq::empty());
    assert(views(out@) =~= lines_of(text@));
    out
}

// ---------------------------------------------------------------------------
// White space
// ---------------------------------------------------------------------------

/// The characters with the Unicode property `White_Space`.
pub open spec fn is_space(c: char) -> bool {
    ||| '\t' <= c <= '\r'
    ||| c == ' '
    ||| c == '\u{85}'
    ||| c == '\u{a0}'
    ||| c == '\u{1680}'
    ||| '\u{2000}' <= c <= '\u{200a}'
    ||| c == '\u{2028}'
    ||| c == '\u{2029}'
    ||| c == '\u{202f}'
    ||| c == '\u{205f}'
    ||| c == '\u{3000}'
}

/// Whether the character has the Unicode property `White_Space`.
pub fn is_white_space(c: char) -> (r: bool)
    ensures
        r == is_space(c),
{
    match c {
        '\t'..='\r' | ' ' | '\u{85}' | '\u{a0}' | '\u{1680}' => true,
        '\u{2000}'..='\u{200a}' | '\u{2028}' | '\u{2029}' => true,
        '\u{202f}' | '\u{205f}' | '\u{3000}' => true,
        _ => false,
    }
}

/// `s` without the white space it begins with.
pub open spec fn trimmed_start(s: Seq<char>) -> Seq<char>
    decreases s.len(),
{
    if s.len() > 0 && is_space(s[0]) {
        trimmed_start(s.drop_first())
    } else {
        s
    }
}

/// `s` without the white space it ends with.
pub open spec fn trimmed_end(s: Seq<char>) -> Seq<char>
    decreases s.len(),
{
    if s.len() > 0 && is_space(s.last()) {
        trimmed_end(s.drop_last())
    } else {
        s
    }
}

/// `s` without the white space around it.
pub open spec fn trimmed(s: Seq<char>) -> Seq<char> {
    trimmed_end(trimmed_start(s))
}

/// `s` without the white space around it.
pub fn trim_text(s: &str) -> (r: String)
    ensures
        r@ == trimmed(s@),
{
    let cs = chars_of(s);
    let mut from: usize = 0;
    assert(cs@.skip(0) =~= s@);
    while from < cs.len() && is_white_space(cs[from])
        invariant
            from <= cs@.len(),
            cs@ == s@,
            trimmed_start(cs@.skip(from as int)) == trimmed_start(s@),
        decreases cs@.len() - from,
    {
        assert(cs@.skip(from as int).drop_first() =~= cs@.skip(from + 1));
        from += 1;
    }
    let ghost rest = cs@.skip(from as int);
    assert(trimmed_start(s@) == rest);
    let mut to: usize = cs.len();
    assert(cs@.subrange(from as int, to as int) =~= rest);
    while to > from && is_white_space(cs[to - 1])
        invariant
            from <= to <= cs@.len(),
            cs@ == s@,
            rest == trimmed_start(s@),
            trimmed_end(cs@.subrange(from as int, to as int)) == trimmed_end(rest),
        decreases to - from,
    {
        assert(cs@.subrange(from as int, to as int).drop_last() =~= cs@.subrange(
            from as int,
            to - 1,
        ));
        to -= 1;
    }
    text_of(cs.as_slice(), from, to)
}

// ---------------------------------------------------------------------------
// Numbers
// ---------------------------------------------------------------------------

/// The decimal digit of value `d`.
pub open spec fn digit_char(d: nat) -> char {
    (d + 48) as char
}

/// A number in decimal, without leading zeros.
pub open spec fn decimal(n: nat) -> Seq<char>
    decreases n,
{
    if n < 10 {
        seq![digit_char(n)]
    } else {
        decimal(n / 10).push(digit_char(n % 10))
    }
}

/// A signed number in decimal.
pub open spec fn signed_decimal(i: int) -> Seq<char> {
    if i < 0 {
        seq!['-'] + decimal((-i) as nat)
    } else {
        decimal(i as nat)
    }
}

/// The decimal digit of value `d`.
fn digit(d: u64) -> (r: char)
    requires
        d < 10,
    ensures
        r == digit_char(d as nat),
{
    match d {
        0 => '0',
        1 => '1',
        2 => '2',
        3 => '3',
        4 => '4',
        5 => '5',
        6 => '6',
        7 => '7',
        8 => '8',
        _ => '9',
    }
}

/// `n` in decimal.
pub fn decimal_text(n: u64) -> (r: String)
    ensures
        r@ == decimal(n as nat),
    decreases n,
{
    let mut out = if n < 10 {
        String::new()
    } else {
        decimal_text(n / 10)
    };
    out.push(digit(n % 10));
    assert(n < 10 ==> out@ =~= decimal(n as nat));
    out
}

/// `i` in decimal, with its sign where it is negative.
pub fn signed_decimal_text(i: i32) -> (r: String)
    ensures
        r@ == signed_decimal(i as int),
{
    if i < 0 {
        let mut out = String::new();
        out.push('-');
        let wide: i64 = i as i64;
        let size = decimal_text((-wide) as u64);
        out.append(size.as_str());
        assert(out@ =~= signed_decimal(i as int));
        out
    } else {
        decimal_text(i as u64)
    }
}

/// `c` is a decimal digit.
pub open spec fn is_digit(c: char) -> bool {
    '0' <= c <= '9'
}

/// All of `s` are decimal digits.
pub open spec fn all_digits(s: Seq<char>) -> bool {
    forall|i: int| 0 <= i < s.len() ==> is_digit(#[trigger] s[i])
}

/// The number that the decimal digits `s` stand for.
pub open spec fn digits_value(s: Seq<char>) -> nat
    decreases s.len(),
{
    if s.len() == 0 {
        0
    } else {
        (digits_value(s.drop_last()) * 10 + (s.last() as int - 48)) as nat
    }
}

/// `s` without the plus sign that may begin it.
pub open spec fn unsigned_part(s: Seq<char>) -> Seq<char> {
    if s.len() > 0 && s[0] == '+' {
        s.drop_first()
    } else {
        s
    }
}

/// The 32-bit number that `s` writes in decimal: digits only, at least one, with
/// a plus sign before them or not.
pub open spec fn number_in(s: Seq<char>) -> Option<u32> {
    let digits = unsigned_part(s);
    if digits.len() > 0 && all_digits(digits) && digits_value(digits) <= u32::MAX {
        Some(digits_value(digits) as u32)
    } else {
        None
    }
}

/// More digits never make a number smaller.
proof fn lemma_digits_value_grows(s: Seq<char>, n: int)
    requires
        all_digits(s),
        0 <= n <= s.len(),
    ensures
        digits_value(s.take(n)) <= digits_value(s),
    decreases s.len(),
{
    if n == s.len() {
        assert(s.take(n) =~= s);
    } else {
        assert(s.drop_last().take(n) =~= s.take(n));
        assert(is_digit(s.last()));
        lemma_digits_value_grows(s.drop_last(), n);
    }
}

/// The 32-bit number that `s` writes in decimal.
pub fn parse_number(s: &str) -> (r: Option<u32>)
    ensures
        r == number_in(s@),
{
    let cs = chars_of(s);
    let from: usize = if cs.len() > 0 && cs[0] == '+' {
        1
    } else {
        0
    };
    let ghost digits = unsigned_part(s@);
    assert(digits =~= cs@.skip(from as int));
    if from == cs.len() {
        return None;
    }
    let mut value: u64 = 0;
    let mut i: usize = from;
    assert(digits.take(0) =~= Seq::<char>::empty());
    while i < cs.len()
        invariant
            from <= i <= cs@.len(),
            from < cs@.len(),
            digits == cs@.skip(from as int),
            digits == unsigned_part(s@),
            all_digits(digits.take(i - from)),
            value == digits_value(digits.take(i - from)),
            value <= u32::MAX,
        decreases cs@.len() - i,
    {
        let c = cs[i];
        assert(digits[i - from] == c);
        if c < '0' || c > '9' {
            return None;
        }
        let d: u64 = (c as u32 - 48) as u64;
        value = value * 10 + d;
        proof {
            let more = digits.take(i - from + 1);
            assert(more.drop_last() =~= digits.take(i - from));
            assert forall|j: int| 0 <= j < more.len() implies is_digit(#[trigger] more[j]) by {
                if j < i - from {
                    assert(more[j] == digits.take(i - from)[j]);
                }
            }
            if value > u32::MAX && all_digits(digits) {
                lemma_digits_value_grows(digits, i - from + 1);
            }
        }
        if value > u32::MAX as u64 {
            return None;
        }
        i += 1;
    }
    assert(digits.take(i - from) =~= digits);
    Some(value as u32)
}

/// The decimal digits of a number are digits, and stand for that number.
proof fn lemma_decimal_value(n: nat)
    ensures
        decimal(n).len() > 0,
        all_digits(decimal(n)),
        digits_value(decimal(n)) == n,
    decreases n,
{
    let s = decimal(n);
    if n < 10 {
        assert(s.drop_last() =~= Seq::empty());
        assert(digits_value(s.drop_last()) == 0);
        assert(s.last() as int == n + 48);
    } else {
        lemma_decimal_value(n / 10);
        assert(s.drop_last() =~= decimal(n / 10));
        assert(s.last() as int == n % 10 + 48);
        assert forall|i: int| 0 <= i < s.len() implies is_digit(#[trigger] s[i]) by {
            if i < s.len() - 1 {
                assert(s[i] == decimal(n / 10)[i]);
            }
        }
    }
}

/// Digits that do not begin with a zero stand for more than zero.
proof fn lemma_digits_positive(s: Seq<char>)
    requires
        s.len() > 0,
        all_digits(s),
        s[0] != '0',
    ensures
        digits_value(s) > 0,
    decreases s.len(),
{
    assert(is_digit(s[0]) && is_digit(s.last()));
    if s.len() > 1 {
        let front = s.drop_last();
        assert forall|i: int| 0 <= i < front.len() implies is_digit(#[trigger] front[i]) by {
            assert(front[i] == s[i]);
        }
        lemma_digits_positive(front);
    }
}

/// Digits that stand for the same number are the same, as long as the longer of
/// them do not begin with a zero.
pub proof fn lemma_digits_decide(a: Seq<char>, b: Seq<char>)
    requires
        a.len() <= b.len(),
        all_digits(a),
        all_digits(b),
        a.len() < b.len() ==> b[0] != '0',
        digits_value(a) == digits_value(b),
    ensures
        a == b,
    decreases b.len(),
{
    if a.len() == 0 {
        if b.len() > 0 {
            lemma_digits_positive(b);
        }
        assert(a =~= b);
    } else {
        let x = a.drop_last();
        let y = b.drop_last();
        assert(is_digit(a.last()) && is_digit(b.last()));
        assert forall|i: int| 0 <= i < x.len() implies is_digit(#[trigger] x[i]) by {
            assert(x[i] == a[i]);
        }
        assert forall|i: int| 0 <= i < y.len() implies is_digit(#[trigger] y[i]) by {
            assert(y[i] == b[i]);
        }
        assert(digits_value(x) == digits_value(y) && a.last() == b.last());
        lemma_digits_decide(x, y);
        assert(a =~= x.push(a.last()));
        assert(b =~= y.push(b.last()));
    }
}

/// A number written in decimal is read back as that number.
pub proof fn law_decimal_reads_back(n: u32)
    ensures
        number_in(decimal(n as nat)) == Some(n),
{
    lemma_decimal_value(n as nat);
    let s = decimal(n as nat);
    assert(is_digit(s[0]));
}

// ---------------------------------------------------------------------------
// Composition
// ---------------------------------------------------------------------------

/// The parts one after another with `sep` between each two.
pub open spec fn joined(parts: Seq<Seq<char>>, sep: Seq<char>) -> Seq<char>
    decreases parts.len(),
{
    if parts.len() == 0 {
        Seq::empty()
    } else if parts.len() == 1 {
        parts[0]
    } else {
        joined(parts.drop_last(), sep) + sep + parts.last()
    }
}

/// The parts one after another with `sep` between each two.
pub fn join_texts(parts: &[String], sep: &str) -> (r: String)
    ensures
        r@ == joined(views(parts@), sep@),
{
    let mut out = String::new();
    let mut i: usize = 0;
    let ghost all = views(parts@);
    while i < parts.len()
        invariant
            i <= parts@.len(),
            all == views(parts@),
            out@ == joined(all.take(i as int), sep@),
        decreases parts@.len() - i,
    {
        let ghost next = all.take(i + 1);
        assert(next.drop_last() =~= all.take(i as int));
        assert(next.last() == parts@[i as int]@);
        if i > 0 {
            out.append(sep);
        }
        out.append(parts[i].as_str());
        assert(out@ =~= joined(next, sep@));
        i += 1;
    }
    assert(all.take(i as int) =~= all);
    out
}

/// `before`, then `after`.
pub fn followed_by(before: &str, after: &str) -> (r: String)
    ensures
        r@ == before@ + after@,
{
    let mut out = before.to_string();
    out.append(after);
    out
}

/// `n` spaces.
pub open spec fn spaces(n: int) -> Seq<char> {
    Seq::new(if n < 0 { 0 } else { n as nat }, |i: int| ' ')
}

/// `s` filled up with spaces on the right to `width` characters; a longer text
/// stays as it is.
pub open spec fn padded(s: Seq<char>, width: nat) -> Seq<char> {
    s + spaces(width - s.len())
}

/// `s` filled up with spaces on the right to `width` characters.
pub fn pad_text(s: &str, width: usize) -> (r: String)
    ensures
        r@ == padded(s@, width as nat),
{
    let cs = chars_of(s);
    let mut out = s.to_string();
    let mut n: usize = cs.len();
    assert(out@ =~= s@ + spaces(0));
    while n < width
        invariant
            s@.len() <= n,
            n <= width || n == s@.len(),
            out@ == s@ + spaces(n - s@.len()),
        decreases width - n,
    {
        out.push(' ');
        n += 1;
        assert(out@ =~= s@ + spaces(n - s@.len()));
    }
    assert(out@ =~= padded(s@, width as nat));
    out
}

// ---------------------------------------------------------------------------
// Laws
// ---------------------------------------------------------------------------

/// A text begins with `part` exactly where it is `part` with something behind it,
/// and `part` stands in it exactly where it is `part` with something on both sides.
pub proof fn law_parts_are_found(s: Seq<char>, part: Seq<char>)
    ensures
        begins_with(s, part) <==> exists|after: Seq<char>| s == #[trigger] (part + after),
        includes(s, part) <==> exists|before: Seq<char>, after: Seq<char>|
            s == #[trigger] (before + part + after),
{
    if begins_with(s, part) {
        assert(s =~= part + s.skip(part.len() as int));
    }
    if exists|after: Seq<char>| s == #[trigger] (part + after) {
        let after = choose|after: Seq<char>| s == #[trigger] (part + after);
        assert(s.subrange(0, part.len() as int) =~= part);
    }
    if includes(s, part) {
        let at = choose|at: int| #[trigger] stands_at(s, part, at);
        let after = s.skip(at + part.len());
        assert(s =~= s.take(at) + part + after) by {
            assert forall|i: int| at <= i < at + part.len() implies s[i] == part[i - at] by {
                assert(s.subrange(at, at + part.len())[i - at] == part[i - at]);
            }
        }
    }
    if exists|before: Seq<char>, after: Seq<char>| s == #[trigger] (before + part + after) {
        let (before, after) = choose|before: Seq<char>, after: Seq<char>|
            s == #[trigger] (before + part + after);
        let at = before.len() as int;
        assert(s.subrange(at, at + part.len()) =~= part);
        assert(stands_at(s, part, at));
    }
}

/// A line feed ends a line, a carriage return before it goes with it, and what
/// comes after it is read on its own; text without a line feed is one line, unless
/// it is empty.
pub proof fn law_lines_end_at_feeds(line: Seq<char>, rest: Seq<char>)
    requires
        !line.contains('\n'),
    ensures
        lines_of(line + seq!['\n'] + rest) == seq![
            if line.len() > 0 && line.last() == '\r' {
                line.drop_last()
            } else {
                line
            },
        ] + lines_of(rest),
        lines_of(line) == if line.len() == 0 {
            Seq::empty()
        } else {
            seq![line]
        },
{
    let s = line + seq!['\n'] + rest;
    let n = line.len() as int;
    assert forall|i: int| 0 <= i < n implies s[i] != '\n' by {
        assert(s[i] == line[i]);
        assert(line.contains(line[i]));
    }
    assert forall|i: int| 0 <= i < n implies line[i] != '\n' by {
        assert(line.contains(line[i]));
    }
    assert(s[n] == '\n');
    lemma_first_index_unique(s, '\n', n);
    lemma_first_index_unique(line, '\n', n);
    assert(s.take(n) =~= line);
    assert(s.skip(n + 1) =~= rest);
}

/// White space alone.
pub open spec fn all_space(s: Seq<char>) -> bool {
    forall|i: int| 0 <= i < s.len() ==> is_space(#[trigger] s[i])
}

/// White space before a text is left out by trimming its start.
proof fn lemma_trimmed_start(before: Seq<char>, text: Seq<char>)
    requires
        all_space(before),
        text.len() > 0 ==> !is_space(text[0]),
    ensures
        trimmed_start(before + text) == text,
    decreases before.len(),
{
    let s = before + text;
    if before.len() == 0 {
        assert(s =~= text);
    } else {
        assert(is_space(before[0]) && s[0] == before[0]);
        assert(s.drop_first() =~= before.drop_first() + text);
        lemma_trimmed_start(before.drop_first(), text);
    }
}

/// White space after a text is left out by trimming its end.
proof fn lemma_trimmed_end(text: Seq<char>, after: Seq<char>)
    requires
        all_space(after),
        text.len() > 0 ==> !is_space(text.last()),
    ensures
        trimmed_end(text + after) == text,
    decreases after.len(),
{
    let s = text + after;
    if after.len() == 0 {
        assert(s =~= text);
    } else {
        assert(is_space(after.last()) && s.last() == after.last());
        assert(s.drop_last() =~= text + after.drop_last());
        lemma_trimmed_end(text, after.drop_last());
    }
}

/// A text that neither begins nor ends with white space is what trimming leaves
/// of it, whatever white space stands around it; of white space alone nothing is
/// left.
pub proof fn law_trimming_leaves_the_text(before: Seq<char>, text: Seq<char>, after: Seq<char>)
    requires
        all_space(before),
        all_space(after),
        text.len() > 0 ==> !is_space(text[0]) && !is_space(text.last()),
    ensures
        trimmed(before + text + after) == text,
{
    if text.len() == 0 {
        let all = before + text + after;
        let none = Seq::<char>::empty();
        assert forall|i: int| 0 <= i < all.len() implies is_space(#[trigger] all[i]) by {
            if i < before.len() {
                assert(all[i] == before[i]);
            } else {
                assert(all[i] == after[i - before.len()]);
            }
        }
        lemma_trimmed_start(all, none);
        assert(all + none =~= all);
        assert(text =~= none);
    } else {
        assert(before + text + after =~= before + (text + after));
        assert((text + after)[0] == text[0]);
        lemma_trimmed_start(before, text + after);
        lemma_trimmed_end(text, after);
    }
}

/// A text that is read as a number holds nothing but digits, except that a plus
/// sign may begin it, and another digit behind it makes the number ten times as
/// large and adds that digit, as long as that fits.
pub proof fn law_numbers_grow_by_digits(s: Seq<char>, c: char)
    ensures
        number_in(s) is Some ==> s.len() > 0 && s.last() != '+' && forall|i: int|
            0 <= i < s.len() ==> '0' <= #[trigger] s[i] <= '9' || i == 0 && s[i] == '+',
        '0' <= c <= '9' ==> number_in(seq![c]) == Some((c as int - 48) as u32)
            && number_in(seq!['+', c]) == Some((c as int - 48) as u32),
        number_in(s) is Some && '0' <= c <= '9' ==> number_in(s.push(c)) == (if 10 * number_in(s)->0
            + (c as int - 48) <= u32::MAX {
            Some((10 * number_in(s)->0 + (c as int - 48)) as u32)
        } else {
            None
        }),
        !('0' <= c <= '9') ==> number_in(s.push(c)) is None,
{
    let digits = unsigned_part(s);
    let one = seq![c];
    let none = Seq::<char>::empty();
    assert(one.drop_last() =~= none);
    assert(digits_value(none) == 0);
    assert(seq!['+', c].drop_first() =~= one);
    if '0' <= c <= '9' {
        assert(is_digit(one[0]));
        assert(digits_value(one) == c as int - 48);
        assert(unsigned_part(one) =~= one);
    }
    if number_in(s) is Some {
        assert forall|i: int| 0 <= i < s.len() implies '0' <= #[trigger] s[i] <= '9' || i == 0
            && s[i] == '+' by {
            if s[0] == '+' {
                if i > 0 {
                    assert(is_digit(digits[i - 1]));
                }
            } else {
                assert(is_digit(digits[i]));
            }
        }
        assert(is_digit(digits.last()));
        let more = s.push(c);
        let longer = unsigned_part(more);
        assert(longer =~= digits.push(c));
        assert(longer.drop_last() =~= digits);
        if '0' <= c <= '9' {
            assert forall|i: int| 0 <= i < longer.len() implies is_digit(#[trigger] longer[i]) by {
                if i < digits.len() {
                    assert(longer[i] == digits[i]);
                }
            }
        }
    }
    if !('0' <= c <= '9') {
        let more = unsigned_part(s.push(c));
        if more.len() > 0 {
            assert(more.last() == c);
            assert(!is_digit(more[more.len() - 1]));
        }
    }
}

/// Joined parts may be joined in two stretches with the separator between them,
/// whatever the parts hold; a single part stays as it is.
pub proof fn law_joining_in_stretches(
    first: Seq<Seq<char>>,
    second: Seq<Seq<char>>,
    part: Seq<char>,
    sep: Seq<char>,
)
    ensures
        joined(Seq::empty(), sep).len() == 0,
        joined(seq![part], sep) == part,
        first.len() > 0 && second.len() > 0 ==> joined(first + second, sep) == joined(first, sep)
            + sep + joined(second, sep),
    decreases second.len(),
{
    if first.len() > 0 && second.len() > 0 {
        let all = first + second;
        let front = second.drop_last();
        assert(all.last() == second.last());
        assert(all.drop_last() =~= first + front);
        if front.len() == 0 {
            assert(first + front =~= first);
            assert(second =~= seq![second.last()]);
        } else {
            law_joining_in_stretches(first, front, part, sep);
            assert(joined(all, sep) =~= joined(first, sep) + sep + joined(second, sep));
        }
    }
}

/// A padded text begins with the text, is as long as the width asks for, or as
/// the text where that is longer, and has only blanks behind the text.
pub proof fn law_padding_adds_blanks(s: Seq<char>, width: nat)
    ensures
        padded(s, width).len() == if s.len() < width {
            width
        } else {
            s.len()
        },
        padded(s, width).take(s.len() as int) == s,
        forall|i: int| s.len() <= i < padded(s, width).len() ==> #[trigger] padded(s, width)[i] == ' ',
{
    assert(padded(s, width).take(s.len() as int) =~= s);
}

/// Trimming takes away white space at both ends and nothing else.
pub proof fn law_trimming_takes_space(s: Seq<char>)
    ensures
        exists|before: Seq<char>, after: Seq<char>|
            all_space(before) && all_space(after) && s == #[trigger] (before + trimmed(s) + after),
        trimmed(s).len() > 0 ==> !is_space(trimmed(s)[0]) && !is_space(trimmed(s).last()),
{
    lemma_start_is_space(s);
    let rest = trimmed_start(s);
    let before = choose|before: Seq<char>| all_space(before) && s == #[trigger] (before + rest);
    lemma_end_is_space(rest);
    let after = choose|after: Seq<char>|
        all_space(after) && rest == #[trigger] (trimmed_end(rest) + after);
    assert(s =~= before + trimmed(s) + after);
    if trimmed(s).len() > 0 {
        assert(rest[0] == trimmed(s)[0]);
    }
}

/// What trimming the start takes away is white space.
proof fn lemma_start_is_space(s: Seq<char>)
    ensures
        exists|before: Seq<char>| all_space(before) && s == #[trigger] (before + trimmed_start(s)),
        trimmed_start(s).len() > 0 ==> !is_space(trimmed_start(s)[0]),
    decreases s.len(),
{
    if s.len() > 0 && is_space(s[0]) {
        let tail = s.drop_first();
        lemma_start_is_space(tail);
        let before = choose|before: Seq<char>|
            all_space(before) && tail == #[trigger] (before + trimmed_start(tail));
        let more = seq![s[0]] + before;
        assert(tail == before + trimmed_start(tail));
        assert(s =~= seq![s[0]] + tail);
        assert(s =~= more + trimmed_start(s));
        assert forall|i: int| 0 <= i < more.len() implies is_space(#[trigger] more[i]) by {
            if i > 0 {
                assert(more[i] == before[i - 1]);
            }
        }
        assert(all_space(more));
    } else {
        let none = Seq::<char>::empty();
        assert(all_space(none));
        assert(s =~= none + trimmed_start(s));
    }
}

/// What trimming the end takes away is white space.
proof fn lemma_end_is_space(s: Seq<char>)
    ensures
        exists|after: Seq<char>| all_space(after) && s == #[trigger] (trimmed_end(s) + after),
        trimmed_end(s).len() > 0 ==> !is_space(trimmed_end(s).last()),
    decreases s.len(),
{
    if s.len() > 0 && is_space(s.last()) {
        let front = s.drop_last();
        lemma_end_is_space(front);
        let after = choose|after: Seq<char>|
            all_space(after) && front == #[trigger] (trimmed_end(front) + after);
        let more = after.push(s.last());
        assert(front == trimmed_end(front) + after);
        assert(s =~= front.push(s.last()));
        assert(s =~= trimmed_end(s) + more);
        assert forall|i: int| 0 <= i < more.len() implies is_space(#[trigger] more[i]) by {
            if i < after.len() {
                assert(more[i] == after[i]);
            }
        }
        assert(all_space(more));
    } else {
        let none = Seq::<char>::empty();
        assert(all_space(none));
        assert(s =~= trimmed_end(s) + none);
    }
}

/// A text that is not read as a number, though it is more than a plus sign, does
/// not become one by another character behind it.
pub proof fn law_no_number_grows_from_none(s: Seq<char>, c: char)
    requires
        number_in(s) is None,
        s.len() > 0,
        s != seq!['+'],
    ensures
        number_in(s.push(c)) is None,
{
    law_numbers_grow_by_digits(s, c);
    let digits = unsigned_part(s);
    let longer = unsigned_part(s.push(c));
    if s.len() == 1 && s[0] == '+' {
        assert(s =~= seq!['+']);
    }
    assert(longer =~= digits.push(c));
    assert(longer.take(digits.len() as int) =~= digits);
    if all_digits(longer) {
        assert forall|i: int| 0 <= i < digits.len() implies is_digit(#[trigger] digits[i]) by {
            assert(longer[i] == digits[i]);
        }
        lemma_digits_value_grows(longer, digits.len() as int);
    }
}

/// A number is written digit by digit: its last digit stands behind what is
/// written for the tens. A negative number has a minus sign before its size.
pub proof fn law_decimal_digit_by_digit(n: nat, d: nat, c: char)
    requires
        d < 10,
        c as int == 48 + d,
    ensures
        decimal(d) == seq![c],
        n > 0 ==> decimal(10 * n + d) == decimal(n).push(c),
        signed_decimal(n as int) == decimal(n),
        n > 0 ==> signed_decimal(-(n as int)) == seq!['-'] + decimal(n),
{
    assert(digit_char(d) == c);
    if n > 0 {
        let all = 10 * n + d;
        assert(all / 10 == n && all % 10 == d);
    }
}

} // verus!
