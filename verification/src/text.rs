//! Plain text: numbers written and read, lines and fields taken apart.
use vstd::prelude::*;
use vstd::string::{StrSliceExecFns, StringExecFns};

verus! {

/// `String::push` appends one character at the end.
pub assume_specification[ String::push ](s: &mut String, ch: char)
    ensures
        final(s)@ == old(s)@.push(ch),
;

/// The character that stands for a digit value below sixteen.
pub open spec fn digit_char(d: int) -> char {
    if d < 10 {
        ('0' as int + d) as char
    } else {
        ('a' as int + d - 10) as char
    }
}

/// A number written in the given base, without leading zeros.
pub open spec fn digits(n: nat, base: nat) -> Seq<char>
    decreases n,
{
    if base < 2 || n < base {
        seq![digit_char(n as int)]
    } else {
        proof {
            assert(n / base < n) by (nonlinear_arith)
                requires
                    n >= base,
                    base >= 2,
            ;
        }
        digits(n / base, base).push(digit_char((n % base) as int))
    }
}

/// A number in decimal.
pub open spec fn decimal(n: nat) -> Seq<char> {
    digits(n, 10)
}

/// A number in lower-case hexadecimal, filled up with zeros on the left to a least width.
pub open spec fn hex(n: nat, width: nat) -> Seq<char> {
    let shown = digits(n, 16);
    if shown.len() < width {
        Seq::new((width - shown.len()) as nat, |i: int| '0') + shown
    } else {
        shown
    }
}

fn digit_to_char(d: u8) -> (c: char)
    requires
        d < 16,
    ensures
        c == digit_char(d as int),
{
    if d < 10 {
        (48u8 + d) as char
    } else {
        (87u8 + d) as char
    }
}

fn digits_text(n: u64, base: u64) -> (text: String)
    requires
        2 <= base <= 16,
    ensures
        text@ == digits(n as nat, base as nat),
    decreases n,
{
    if n < base {
        let mut text = String::new();
        text.push(digit_to_char(n as u8));
        assert(text@ =~= seq![digit_char(n as int)]);
        text
    } else {
        assert(n / base < n) by (nonlinear_arith)
            requires
                n >= base,
                base >= 2,
        ;
        let mut text = digits_text(n / base, base);
        text.push(digit_to_char((n % base) as u8));
        text
    }
}

/// Writes a number in decimal.
pub fn decimal_text(n: u64) -> (text: String)
    ensures
        text@ == decimal(n as nat),
{
    digits_text(n, 10)
}

/// Writes a number in hexadecimal, at least `width` digits wide.
pub fn hex_text(n: u32, width: usize) -> (text: String)
    ensures
        text@ == hex(n as nat, width as nat),
{
    let shown = digits_text(n as u64, 16);
    let len = shown.as_str().unicode_len();
    let mut text = String::new();
    if len < width {
        let missing = width - len;
        let mut i: usize = 0;
        while i < missing
            invariant
                i <= missing,
                text@ =~= Seq::new(i as nat, |k: int| '0'),
            decreases missing - i,
        {
            text.push('0');
            i = i + 1;
        }
    }
    text.append(shown.as_str());
    assert(text@ =~= hex(n as nat, width as nat));
    text
}

/// The characters of a text, in order.
pub fn characters(text: &str) -> (chars: Vec<char>)
    ensures
        chars@ == text@,
{
    let mut chars: Vec<char> = Vec::new();
    for c in it: text.chars()
        invariant
            chars@ =~= it.seq().take(it.index()),
            it.seq() == text@,
    {
        chars.push(c);
    }
    assert(chars@ =~= text@);
    chars
}

/// The text made of the characters from `from` up to `to`.
pub fn excerpt(chars: &Vec<char>, from: usize, to: usize) -> (text: String)
    requires
        from <= to <= chars@.len(),
    ensures
        text@ == chars@.subrange(from as int, to as int),
{
    let mut text = String::new();
    let mut i: usize = from;
    while i < to
        invariant
            from <= i <= to <= chars@.len(),
            text@ =~= chars@.subrange(from as int, i as int),
        decreases to - i,
    {
        text.push(chars[i]);
        i = i + 1;
    }
    text
}

/// Whether two texts are the same.
pub fn same(a: &str, b: &str) -> (equal: bool)
    ensures
        equal == (a@ == b@),
{
    let x = characters(a);
    let y = characters(b);
    if x.len() != y.len() {
        return false;
    }
    let mut i: usize = 0;
    while i < x.len()
        invariant
            i <= x.len(),
            x.len() == y.len(),
            x@ == a@,
            y@ == b@,
            forall|k: int| 0 <= k < i ==> x@[k] == y@[k],
        decreases x.len() - i,
    {
        if x[i] != y[i] {
            return false;
        }
        i = i + 1;
    }
    assert(a@ =~= b@);
    true
}

/// Whether a text begins with another.
pub open spec fn begins(text: Seq<char>, prefix: Seq<char>) -> bool {
    prefix.len() <= text.len() && text.take(prefix.len() as int) == prefix
}

pub fn starts_with(text: &str, prefix: &str) -> (found: bool)
    ensures
        found == begins(text@, prefix@),
{
    let len = prefix.unicode_len();
    if text.unicode_len() < len {
        return false;
    }
    same(text.substring_char(0, len), prefix)
}

/// The first place of `c` in `s` from `from` on, or the end of `s`.
pub open spec fn find(s: Seq<char>, c: char, from: int) -> int
    decreases s.len() - from,
{
    if from < 0 || from >= s.len() {
        s.len() as int
    } else if s[from] == c {
        from
    } else {
        find(s, c, from + 1)
    }
}

proof fn find_bounds(s: Seq<char>, c: char, from: int)
    requires
        0 <= from <= s.len(),
    ensures
        from <= find(s, c, from) <= s.len(),
        find(s, c, from) < s.len() ==> s[find(s, c, from)] == c,
        forall|k: int| from <= k < find(s, c, from) ==> s[k] != c,
    decreases s.len() - from,
{
    if from < s.len() && s[from] != c {
        find_bounds(s, c, from + 1);
    }
}

fn find_char(chars: &Vec<char>, c: char, from: usize) -> (at: usize)
    requires
        from <= chars@.len(),
    ensures
        at == find(chars@, c, from as int),
        from <= at <= chars@.len(),
        at < chars@.len() ==> chars@[at as int] == c,
{
    proof {
        find_bounds(chars@, c, from as int);
    }
    let mut at: usize = from;
    while at < chars.len() && chars[at] != c
        invariant
            from <= at <= chars@.len(),
            find(chars@, c, from as int) == find(chars@, c, at as int),
        decreases chars@.len() - at,
    {
        at = at + 1;
    }
    at
}

/// The fields of `s` from `from` on that stand between the separators `c`.
pub open spec fn split_from(s: Seq<char>, c: char, from: int) -> Seq<Seq<char>>
    decreases s.len() - from,
{
    let at = find(s, c, from);
    if 0 <= from <= at < s.len() {
        seq![s.subrange(from, at)] + split_from(s, c, at + 1)
    } else {
        seq![s.subrange(from, s.len() as int)]
    }
}

/// The fields of `s` between the separators `c`: one more than there are separators.
pub open spec fn split(s: Seq<char>, c: char) -> Seq<Seq<char>> {
    split_from(s, c, 0)
}

pub open spec fn views(parts: Seq<String>) -> Seq<Seq<char>> {
    parts.map_values(|part: String| part@)
}

/// Takes a text apart at every separator.
pub fn split_text(text: &str, c: char) -> (parts: Vec<String>)
    ensures
        views(parts@) == split(text@, c),
{
    let chars = characters(text);
    let mut parts: Vec<String> = Vec::new();
    let mut from: usize = 0;
    let mut at: usize = find_char(&chars, c, 0);
    assert(views(parts@) + split_from(chars@, c, 0) =~= split(chars@, c));
    while at < chars.len()
        invariant
            chars@ == text@,
            from <= at <= chars@.len(),
            at == find(chars@, c, from as int),
            views(parts@) + split_from(chars@, c, from as int) == split(chars@, c),
        decreases chars@.len() - from,
    {
        let ghost before = parts@;
        let part = excerpt(&chars, from, at);
        parts.push(part);
        assert(views(parts@) =~= views(before).push(part@));
        assert(views(parts@) + split_from(chars@, c, at + 1) =~= views(before) + split_from(
            chars@,
            c,
            from as int,
        ));
        from = at + 1;
        at = find_char(&chars, c, from);
    }
    let ghost before = parts@;
    let part = excerpt(&chars, from, chars.len());
    parts.push(part);
    assert(views(parts@) =~= views(before).push(part@));
    assert(views(parts@) =~= split(text@, c));
    parts
}

/// What stands before and after the first separator, if there is one.
pub open spec fn split_once(s: Seq<char>, c: char) -> Option<(Seq<char>, Seq<char>)> {
    let at = find(s, c, 0);
    if at < s.len() {
        Some((s.take(at), s.skip(at + 1)))
    } else {
        None
    }
}

pub fn split_once_text(text: &str, c: char) -> (parts: Option<(String, String)>)
    ensures
        match split_once(text@, c) {
            Some((before, after)) => parts matches Some((b, a)) && b@ == before && a@ == after,
            None => parts is None,
        },
{
    let chars = characters(text);
    let at = find_char(&chars, c, 0);
    if at < chars.len() {
        let before = excerpt(&chars, 0, at);
        let after = excerpt(&chars, at + 1, chars.len());
        assert(before@ =~= text@.take(at as int));
        assert(after@ =~= text@.skip(at + 1));
        Some((before, after))
    } else {
        None
    }
}

/// One line without the carriage return that belongs to its line feed.
pub open spec fn without_return(s: Seq<char>, from: int, end: int) -> Seq<char> {
    if from < end && s[end - 1] == '\r' {
        s.subrange(from, end - 1)
    } else {
        s.subrange(from, end)
    }
}

/// The lines of `s` from `from` on. A line ends in a line feed, or a carriage return and a line
/// feed; the last one may go without.
pub open spec fn lines_from(s: Seq<char>, from: int) -> Seq<Seq<char>>
    decreases s.len() - from,
{
    let at = find(s, '\n', from);
    if 0 <= from <= at < s.len() {
        seq![without_return(s, from, at)] + lines_from(s, at + 1)
    } else if from < s.len() {
        seq![s.subrange(from, s.len() as int)]
    } else {
        seq![]
    }
}

pub open spec fn lines(s: Seq<char>) -> Seq<Seq<char>> {
    lines_from(s, 0)
}

/// Takes a text apart into its lines.
pub fn lines_text(text: &str) -> (parts: Vec<String>)
    ensures
        views(parts@) == lines(text@),
{
    let chars = characters(text);
    let mut parts: Vec<String> = Vec::new();
    let mut from: usize = 0;
    let mut at: usize = find_char(&chars, '\n', 0);
    assert(views(parts@) + lines_from(chars@, 0) =~= lines(chars@));
    while at < chars.len()
        invariant
            chars@ == text@,
            from <= at <= chars@.len(),
            at == find(chars@, '\n', from as int),
            views(parts@) + lines_from(chars@, from as int) == lines(chars@),
        decreases chars@.len() - from,
    {
        let ghost before = parts@;
        let end: usize = if from < at && chars[at - 1] == '\r' {
            at - 1
        } else {
            at
        };
        let part = excerpt(&chars, from, end);
        parts.push(part);
        assert(part@ == without_return(chars@, from as int, at as int));
        assert(views(parts@) =~= views(before).push(part@));
        assert(views(parts@) + lines_from(chars@, at + 1) =~= views(before) + lines_from(
            chars@,
            from as int,
        ));
        from = at + 1;
        at = find_char(&chars, '\n', from);
    }
    if from < chars.len() {
        let ghost before = parts@;
        let part = excerpt(&chars, from, chars.len());
        parts.push(part);
        assert(views(parts@) =~= views(before).push(part@));
    }
    assert(views(parts@) =~= lines(text@));
    parts
}

/// The value of a digit in bases up to sixteen; letters count in either case.
pub open spec fn digit_value(c: char) -> int {
    if '0' <= c <= '9' {
        c as int - '0' as int
    } else if 'a' <= c <= 'f' {
        c as int - 'a' as int + 10
    } else if 'A' <= c <= 'F' {
        c as int - 'A' as int + 10
    } else {
        16
    }
}

/// Whether every character is a digit of the base.
pub open spec fn all_digits(s: Seq<char>, base: int) -> bool {
    forall|i: int| 0 <= i < s.len() ==> digit_value(#[trigger] s[i]) < base
}

/// The number that a row of digits stands for.
pub open spec fn number(s: Seq<char>, base: int) -> int
    decreases s.len(),
{
    if s.len() == 0 {
        0
    } else {
        number(s.drop_last(), base) * base + digit_value(s.last())
    }
}

/// The digits of a number's text: all of it but a leading plus sign.
pub open spec fn unsigned(s: Seq<char>) -> Seq<char> {
    if s.len() > 0 && s[0] == '+' {
        s.skip(1)
    } else {
        s
    }
}

/// The 32-bit number that a text stands for in the given base. There is none where there is no
/// digit, where anything but digits stands, or where the number is too large.
pub open spec fn parsed(s: Seq<char>, base: int) -> Option<u32> {
    let shown = unsigned(s);
    if shown.len() > 0 && all_digits(shown, base) && number(shown, base) <= u32::MAX {
        Some(number(shown, base) as u32)
    } else {
        None
    }
}

proof fn number_grows(s: Seq<char>, base: int, len: int)
    requires
        2 <= base <= 16,
        0 <= len <= s.len(),
        all_digits(s, base),
    ensures
        0 <= number(s.take(len), base) <= number(s, base),
    decreases s.len() - len, len,
{
    if len == s.len() {
        assert(s.take(len) =~= s);
        number_nonnegative(s, base);
    } else {
        number_grows(s, base, len + 1);
        let longer = s.take(len + 1);
        assert(longer.drop_last() =~= s.take(len));
        number_nonnegative(s.take(len), base);
        let shorter = number(s.take(len), base);
        assert(digit_value(longer.last()) >= 0);
        assert(shorter <= shorter * base) by (nonlinear_arith)
            requires
                shorter >= 0,
                base >= 2,
        ;
    }
}

proof fn number_nonnegative(s: Seq<char>, base: int)
    requires
        2 <= base <= 16,
        all_digits(s, base),
    ensures
        0 <= number(s, base),
    decreases s.len(),
{
    if s.len() > 0 {
        assert forall|i: int| 0 <= i < s.drop_last().len() implies digit_value(
            #[trigger] s.drop_last()[i],
        ) < base by {
            assert(s.drop_last()[i] == s[i]);
        }
        number_nonnegative(s.drop_last(), base);
        let shorter = number(s.drop_last(), base);
        assert(0 <= shorter * base) by (nonlinear_arith)
            requires
                shorter >= 0,
                base >= 2,
        ;
    }
}

fn value_of_digit(c: char) -> (d: u32)
    ensures
        d == digit_value(c),
{
    if '0' <= c && c <= '9' {
        c as u32 - '0' as u32
    } else if 'a' <= c && c <= 'f' {
        c as u32 - 'a' as u32 + 10
    } else if 'A' <= c && c <= 'F' {
        c as u32 - 'A' as u32 + 10
    } else {
        16
    }
}

/// Reads a 32-bit number in the given base.
pub fn parse_number(text: &str, base: u32) -> (value: Option<u32>)
    requires
        2 <= base <= 16,
    ensures
        value == parsed(text@, base as int),
{
    let chars = characters(text);
    let start: usize = if chars.len() > 0 && chars[0] == '+' {
        1
    } else {
        0
    };
    let ghost shown = unsigned(text@);
    assert(shown =~= chars@.skip(start as int));
    if start == chars.len() {
        return None;
    }
    let mut i: usize = start;
    let mut sum: u64 = 0;
    while i < chars.len()
        invariant
            2 <= base <= 16,
            chars@ == text@,
            shown == chars@.skip(start as int),
            shown == unsigned(text@),
            start <= i <= chars@.len(),
            sum == number(shown.take(i - start), base as int),
            sum <= u32::MAX,
            forall|k: int| 0 <= k < i - start ==> digit_value(#[trigger] shown[k]) < base,
        decreases chars@.len() - i,
    {
        let d = value_of_digit(chars[i]);
        let ghost longer = shown.take(i - start + 1);
        assert(longer.drop_last() =~= shown.take(i - start));
        assert(longer.last() == chars@[i as int]);
        assert(shown[i - start] == chars@[i as int]);
        if d >= base {
            assert(!all_digits(shown, base as int));
            return None;
        }
        assert(sum * base <= u32::MAX * 16) by (nonlinear_arith)
            requires
                sum <= u32::MAX,
                base <= 16,
        ;
        sum = sum * base as u64 + d as u64;
        if sum > u32::MAX as u64 {
            proof {
                if all_digits(shown, base as int) {
                    number_grows(shown, base as int, i - start + 1);
                }
            }
            return None;
        }
        i = i + 1;
    }
    assert(shown.take(i - start) =~= shown);
    Some(sum as u32)
}

/// Unicode's white space.
pub open spec fn is_space(c: char) -> bool {
    ||| 0x09 <= c as int <= 0x0d
    ||| c as int == 0x20
    ||| c as int == 0x85
    ||| c as int == 0xa0
    ||| c as int == 0x1680
    ||| 0x2000 <= c as int <= 0x200a
    ||| c as int == 0x2028
    ||| c as int == 0x2029
    ||| c as int == 0x202f
    ||| c as int == 0x205f
    ||| c as int == 0x3000
}

/// A text without the white space in front of it and behind it.
pub open spec fn trimmed(s: Seq<char>) -> Seq<char>
    decreases s.len(),
{
    if s.len() == 0 {
        s
    } else if is_space(s[0]) {
        trimmed(s.skip(1))
    } else if is_space(s.last()) {
        trimmed(s.drop_last())
    } else {
        s
    }
}

fn space(c: char) -> (yes: bool)
    ensures
        yes == is_space(c),
{
    let n: u32 = c as u32;
    (0x09 <= n && n <= 0x0d) || n == 0x20 || n == 0x85 || n == 0xa0 || n == 0x1680 || (0x2000 <= n
        && n <= 0x200a) || n == 0x2028 || n == 0x2029 || n == 0x202f || n == 0x205f || n == 0x3000
}

/// Removes the white space around a text.
pub fn trim_text(text: &str) -> (inner: String)
    ensures
        inner@ == trimmed(text@),
{
    let chars = characters(text);
    let mut from: usize = 0;
    let mut to: usize = chars.len();
    assert(chars@.subrange(0, to as int) =~= text@);
    while from < to && space(chars[from])
        invariant
            from <= to == chars@.len(),
            trimmed(chars@.subrange(from as int, to as int)) == trimmed(text@),
        decreases to - from,
    {
        assert(chars@.subrange(from as int, to as int).skip(1) =~= chars@.subrange(
            from + 1,
            to as int,
        ));
        from = from + 1;
    }
    while from < to && space(chars[to - 1])
        invariant
            from <= to <= chars@.len(),
            from < to ==> !is_space(chars@[from as int]),
            trimmed(chars@.subrange(from as int, to as int)) == trimmed(text@),
        decreases to - from,
    {
        assert(chars@.subrange(from as int, to as int).drop_last() =~= chars@.subrange(
            from as int,
            to - 1,
        ));
        to = to - 1;
    }
    excerpt(&chars, from, to)
}

} // verus!
