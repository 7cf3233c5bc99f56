//! What holds of numbers in text, and of text that is taken apart.
use vstd::prelude::*;

use crate::text::{
    all_digits, begins, decimal, digit_char, digit_value, digits, find, hex, is_space, lines,
    lines_from, number, parsed, split, split_from, split_once, trimmed, unsigned,
};

verus! {

/// A digit below ten is written as `0` to `9`, one from there on as `a` to `f`, and each is read as
/// what it was written for; letters are read in either case.
pub proof fn digits_are_read_as_written(d: int)
    requires
        0 <= d < 16,
    ensures
        d < 10 ==> digit_char(d) as int == 0x30 + d,
        d >= 10 ==> digit_char(d) as int == 0x61 + d - 10,
        digit_value(digit_char(d)) == d,
        d >= 10 ==> digit_value((0x41 + d - 10) as char) == d,
{
}

/// Nothing but `0` to `9`, `a` to `f` and `A` to `F` is read as a digit.
pub proof fn nothing_else_is_a_digit(c: char)
    ensures
        0 <= digit_value(c) < 16 <==> (0x30 <= c as int <= 0x39 || 0x61 <= c as int <= 0x66 || 0x41
            <= c as int <= 0x46),
        0 <= digit_value(c) < 10 <==> 0x30 <= c as int <= 0x39,
{
}

/// A number below ten is one digit, and ten times a number plus a digit is the text of the number
/// with that digit behind it.
pub proof fn decimal_is_positional(n: nat, d: nat)
    requires
        d < 10,
    ensures
        decimal(d) == seq![(0x30 + d) as char],
        n > 0 ==> decimal(10 * n + d) == decimal(n).push((0x30 + d) as char),
{
    if n > 0 {
        let m = 10 * n + d;
        assert(m / 10 == n && m % 10 == d);
    }
}

/// A number is read as its digits say, each worth its place.
pub proof fn reading_is_positional(s: Seq<char>, c: char, base: int)
    ensures
        number(Seq::<char>::empty(), base) == 0,
        number(s.push(c), base) == number(s, base) * base + digit_value(c),
{
    assert(s.push(c).drop_last() =~= s);
}

proof fn digits_stand_for_their_number(n: nat, base: nat)
    requires
        2 <= base <= 16,
    ensures
        digits(n, base).len() > 0,
        all_digits(digits(n, base), base as int),
        number(digits(n, base), base as int) == n,
    decreases n,
{
    let s = digits(n, base);
    reveal_with_fuel(number, 2);
    if n < base {
        assert(s.drop_last() =~= seq![]);
        digits_are_read_as_written(n as int);
        assert(number(s, base as int) == 0 * base + n);
    } else {
        assert(n / base < n) by (nonlinear_arith)
            requires
                n >= base,
                base >= 2,
        ;
        digits_stand_for_their_number(n / base, base);
        digits_are_read_as_written((n % base) as int);
        let fewer = digits(n / base, base);
        assert(s.drop_last() =~= fewer);
        assert(n == (n / base) * base + n % base) by (nonlinear_arith)
            requires
                base >= 2,
        ;
        assert forall|i: int| 0 <= i < s.len() implies digit_value(#[trigger] s[i]) < base by {
            if i < fewer.len() {
                assert(s[i] == fewer[i]);
            }
        }
    }
}

proof fn zeros_add_nothing(zeros: Seq<char>, s: Seq<char>, base: int)
    requires
        2 <= base <= 16,
        forall|i: int| 0 <= i < zeros.len() ==> #[trigger] zeros[i] == '0',
        all_digits(s, base),
    ensures
        number(zeros + s, base) == number(s, base),
        all_digits(zeros + s, base),
    decreases zeros.len() + s.len(), s.len(),
{
    let all = zeros + s;
    assert forall|i: int| 0 <= i < all.len() implies digit_value(#[trigger] all[i]) < base by {
        if i < zeros.len() {
            assert(all[i] == zeros[i]);
        } else {
            assert(all[i] == s[i - zeros.len()]);
        }
    }
    if s.len() > 0 {
        assert(all.drop_last() =~= zeros + s.drop_last());
        assert forall|i: int| 0 <= i < s.drop_last().len() implies digit_value(
            #[trigger] s.drop_last()[i],
        ) < base by {
            assert(s.drop_last()[i] == s[i]);
        }
        zeros_add_nothing(zeros, s.drop_last(), base);
    } else if zeros.len() > 0 {
        let fewer = zeros.drop_last();
        assert(all.drop_last() =~= fewer + s);
        assert(zeros[zeros.len() - 1] == '0');
        assert(forall|i: int| 0 <= i < fewer.len() ==> fewer[i] == zeros[i]);
        zeros_add_nothing(fewer, s, base);
        assert(0int * base == 0);
    } else {
        assert(all =~= s);
    }
}

/// A number in hexadecimal is at least as wide as asked for, and stands for the number.
pub proof fn hex_stands_for_its_number(n: nat, width: nat)
    ensures
        hex(n, width).len() >= width,
        hex(n, width).len() > 0,
        all_digits(hex(n, width), 16),
        number(hex(n, width), 16) == n,
        hex(n, width).len() > width ==> hex(n, width)[0] != '0' || n == 0,
        forall|i: int|
            0 <= i < hex(n, width).len() ==> (0x30 <= #[trigger] hex(n, width)[i] as int <= 0x39
                || 0x61 <= hex(n, width)[i] as int <= 0x66),
{
    digits_stand_for_their_number(n, 16);
    digits_are_small(n);
    let shown = digits(n, 16);
    if shown.len() < width {
        let zeros = Seq::new((width - shown.len()) as nat, |i: int| '0');
        zeros_add_nothing(zeros, shown, 16);
        assert forall|i: int| 0 <= i < hex(n, width).len() implies (0x30 <= #[trigger] hex(
            n,
            width,
        )[i] as int <= 0x39 || 0x61 <= hex(n, width)[i] as int <= 0x66) by {
            if i >= zeros.len() {
                assert(hex(n, width)[i] == shown[i - zeros.len()]);
            }
        }
    }
}

proof fn digits_are_small(n: nat)
    ensures
        forall|i: int|
            0 <= i < digits(n, 16).len() ==> (0x30 <= #[trigger] digits(n, 16)[i] as int <= 0x39
                || 0x61 <= digits(n, 16)[i] as int <= 0x66),
        digits(n, 16)[0] != '0' || n == 0,
        digits(n, 16).len() > 0,
    decreases n,
{
    if n >= 16 {
        digits_are_small(n / 16);
        let fewer = digits(n / 16, 16);
        assert forall|i: int| 0 <= i < digits(n, 16).len() implies (0x30 <= #[trigger] digits(
            n,
            16,
        )[i] as int <= 0x39 || 0x61 <= digits(n, 16)[i] as int <= 0x66) by {
            if i < fewer.len() {
                assert(digits(n, 16)[i] == fewer[i]);
            }
        }
        assert(digits(n, 16)[0] == fewer[0]);
    }
}

/// A number is read back as it was written, in decimal and in hexadecimal of any width.
pub proof fn numbers_are_read_back(n: u32, width: nat)
    ensures
        parsed(decimal(n as nat), 10) == Some(n),
        parsed(hex(n as nat, width), 16) == Some(n),
{
    digits_stand_for_their_number(n as nat, 10);
    hex_stands_for_its_number(n as nat, width);
    assert(digit_value('+') == 16);
    assert(digit_value(decimal(n as nat)[0]) < 10);
    assert(digit_value(hex(n as nat, width)[0]) < 16);
}

/// A text is read as a number exactly where it has digits of the base and nothing else, and the
/// number fits in 32 bits. A plus sign may stand in front of it.
pub proof fn only_numbers_are_read(shown: Seq<char>, base: int, n: u32)
    requires
        2 <= base <= 16,
        shown.len() > 0 ==> shown[0] != '+',
    ensures
        parsed(shown, base) == Some(n) <==> {
            &&& shown.len() > 0
            &&& forall|i: int| 0 <= i < shown.len() ==> digit_value(#[trigger] shown[i]) < base
            &&& number(shown, base) == n
        },
        parsed(seq!['+'] + shown, base) == parsed(shown, base),
{
    let with_sign = seq!['+'] + shown;
    assert(unsigned(with_sign) =~= shown);
    assert(with_sign[0] == '+');
    assert(unsigned(shown) == shown);
    number_is_natural(shown, base);
}

proof fn number_is_natural(s: Seq<char>, base: int)
    requires
        2 <= base <= 16,
    ensures
        0 <= number(s, base),
    decreases s.len(),
{
    if s.len() > 0 {
        number_is_natural(s.drop_last(), base);
        let shorter = number(s.drop_last(), base);
        assert(0 <= shorter * base) by (nonlinear_arith)
            requires
                shorter >= 0,
                base >= 2,
        ;
    }
}

/// A text begins with another exactly where it is that one with something behind it.
pub proof fn beginning_is_a_prefix(text: Seq<char>, prefix: Seq<char>)
    ensures
        begins(text, prefix) <==> exists|rest: Seq<char>| text == #[trigger] (prefix + rest),
{
    if begins(text, prefix) {
        assert(text =~= prefix + text.skip(prefix.len() as int));
    }
    if exists|rest: Seq<char>| text == #[trigger] (prefix + rest) {
        let rest = choose|rest: Seq<char>| text == #[trigger] (prefix + rest);
        assert(text.take(prefix.len() as int) =~= prefix);
    }
}

proof fn find_shifts(s: Seq<char>, c: char, from: int, skipped: int)
    requires
        0 <= skipped <= from <= s.len(),
    ensures
        find(s, c, from) == skipped + find(s.skip(skipped), c, from - skipped),
    decreases s.len() - from,
{
    if from < s.len() && s[from] != c {
        find_shifts(s, c, from + 1, skipped);
    }
}

proof fn find_first(before: Seq<char>, c: char, rest: Seq<char>, from: int)
    requires
        !before.contains(c),
        0 <= from <= before.len(),
    ensures
        find(before.push(c) + rest, c, from) == before.len(),
    decreases before.len() - from,
{
    let s = before.push(c) + rest;
    assert(s[before.len() as int] == c);
    if from < before.len() {
        assert(s[from] == before[from]);
        find_first(before, c, rest, from + 1);
    }
}

proof fn find_nowhere(s: Seq<char>, c: char, from: int)
    requires
        !s.contains(c),
        0 <= from <= s.len(),
    ensures
        find(s, c, from) == s.len(),
    decreases s.len() - from,
{
    if from < s.len() {
        assert(s.contains(s[from]));
        find_nowhere(s, c, from + 1);
    }
}

proof fn found_is_in_range(s: Seq<char>, c: char, from: int)
    requires
        0 <= from <= s.len(),
    ensures
        from <= find(s, c, from) <= s.len(),
    decreases s.len() - from,
{
    if from < s.len() && s[from] != c {
        found_is_in_range(s, c, from + 1);
    }
}

proof fn split_shifts(s: Seq<char>, c: char, from: int, skipped: int)
    requires
        0 <= skipped <= from <= s.len(),
    ensures
        split_from(s, c, from) == split_from(s.skip(skipped), c, from - skipped),
    decreases s.len() - from,
{
    find_shifts(s, c, from, skipped);
    found_is_in_range(s, c, from);
    let at = find(s, c, from);
    let rest = s.skip(skipped);
    if at < s.len() {
        split_shifts(s, c, at + 1, skipped);
        assert(s.subrange(from, at) =~= rest.subrange(from - skipped, at - skipped));
    } else {
        assert(s.subrange(from, s.len() as int) =~= rest.subrange(
            from - skipped,
            rest.len() as int,
        ));
    }
}

/// What stands before the first separator is the first field, and the fields of what follows it
/// are the others. A text without a separator is a single field.
pub proof fn fields_stand_between_separators(field: Seq<char>, c: char, rest: Seq<char>)
    requires
        !field.contains(c),
    ensures
        split(field, c) == seq![field],
        split(field.push(c) + rest, c) == seq![field] + split(rest, c),
{
    let s = field.push(c) + rest;
    find_nowhere(field, c, 0);
    assert(field.subrange(0, field.len() as int) =~= field);
    find_first(field, c, rest, 0);
    let next = field.len() as int + 1;
    assert(s.subrange(0, field.len() as int) =~= field);
    split_shifts(s, c, next, next);
    assert(s.skip(next) =~= rest);
}

/// A text is taken apart once exactly where it has the separator, at the first one.
pub proof fn split_once_is_at_the_first(s: Seq<char>, c: char, before: Seq<char>, after: Seq<char>)
    ensures
        split_once(s, c) is None <==> !s.contains(c),
        split_once(s, c) == Some((before, after)) <==> s == before.push(c) + after
            && !before.contains(c),
{
    found_is_in_range(s, c, 0);
    let at = find(s, c, 0);
    if !s.contains(c) {
        find_nowhere(s, c, 0);
    } else {
        found_is_first(s, c, 0);
        let head = s.take(at);
        let tail = s.skip(at + 1);
        assert(s =~= head.push(c) + tail);
        assert(!head.contains(c)) by {
            if head.contains(c) {
                let k = choose|k: int| 0 <= k < head.len() && head[k] == c;
                assert(s[k] == c);
            }
        }
    }
    if s == before.push(c) + after && !before.contains(c) {
        find_first(before, c, after, 0);
        assert(s[before.len() as int] == c);
        assert(s.take(at) =~= before);
        assert(s.skip(at + 1) =~= after);
    }
}

proof fn found_is_first(s: Seq<char>, c: char, from: int)
    requires
        0 <= from <= s.len(),
        exists|k: int| from <= k < s.len() && s[k] == c,
    ensures
        find(s, c, from) < s.len(),
        s[find(s, c, from)] == c,
        forall|k: int| from <= k < find(s, c, from) ==> s[k] != c,
    decreases s.len() - from,
{
    if s[from] != c {
        found_is_first(s, c, from + 1);
    }
}

proof fn lines_shift(s: Seq<char>, from: int, skipped: int)
    requires
        0 <= skipped <= from <= s.len(),
    ensures
        lines_from(s, from) == lines_from(s.skip(skipped), from - skipped),
    decreases s.len() - from,
{
    find_shifts(s, '\n', from, skipped);
    found_is_in_range(s, '\n', from);
    let at = find(s, '\n', from);
    let rest = s.skip(skipped);
    if at < s.len() {
        lines_shift(s, at + 1, skipped);
        assert(s.subrange(from, at) =~= rest.subrange(from - skipped, at - skipped));
        if from < at {
            assert(s[at - 1] == rest[at - skipped - 1]);
            assert(s.subrange(from, at - 1) =~= rest.subrange(from - skipped, at - skipped - 1));
        }
    } else if from < s.len() {
        assert(s.subrange(from, s.len() as int) =~= rest.subrange(
            from - skipped,
            rest.len() as int,
        ));
    }
}

/// What stands before the first line feed is the first line, without a carriage return at its end,
/// and the lines of what follows are the others. A last line needs no line feed; an empty text has
/// no line.
pub proof fn lines_end_in_line_feeds(line: Seq<char>, rest: Seq<char>)
    requires
        !line.contains('\n'),
    ensures
        lines(Seq::<char>::empty()) == Seq::<Seq<char>>::empty(),
        line.len() > 0 ==> lines(line) == seq![line],
        line.len() == 0 || line.last() != '\r' ==> {
            &&& lines(line.push('\n') + rest) == seq![line] + lines(rest)
            &&& lines(line.push('\r').push('\n') + rest) == seq![line] + lines(rest)
        },
{
    find_nowhere(line, '\n', 0);
    assert(line.subrange(0, line.len() as int) =~= line);
    find_first(line, '\n', rest, 0);
    let s = line.push('\n') + rest;
    let next = line.len() as int + 1;
    if line.len() > 0 {
        assert(s[next - 2] == line.last());
    }
    assert(s.subrange(0, next - 1) =~= line);
    lines_shift(s, next, next);
    assert(s.skip(next) =~= rest);
    let longer = line.push('\r');
    assert(!longer.contains('\n')) by {
        if longer.contains('\n') {
            let k = choose|k: int| 0 <= k < longer.len() && longer[k] == '\n';
            assert(k < line.len());
            assert(line[k] == '\n');
        }
    }
    find_first(longer, '\n', rest, 0);
    let t = longer.push('\n') + rest;
    assert(t[next - 1] == '\r');
    assert(t.subrange(0, next - 1) =~= line);
    lines_shift(t, next + 1, next + 1);
    assert(t.skip(next + 1) =~= rest);
}

/// Spaces, tabs and line ends are white space; what stands for itself in ASCII is not.
pub proof fn white_space_in_ascii(c: char)
    requires
        (c as int) < 0x80,
    ensures
        is_space(c) <==> c == ' ' || 0x09 <= c as int <= 0x0d,
{
}

/// Trimming takes away white space at both ends, and nothing else.
pub proof fn trimming_takes_white_space(front: Seq<char>, inner: Seq<char>, back: Seq<char>)
    requires
        forall|i: int| 0 <= i < front.len() ==> is_space(#[trigger] front[i]),
        forall|i: int| 0 <= i < back.len() ==> is_space(#[trigger] back[i]),
        inner.len() > 0 ==> !is_space(inner[0]) && !is_space(inner.last()),
    ensures
        trimmed(front + inner + back) == inner,
    decreases front.len() + back.len(),
{
    let all = front + inner + back;
    if front.len() > 0 {
        assert(all[0] == front[0]);
        assert(all.skip(1) =~= front.skip(1) + inner + back);
        assert forall|i: int| 0 <= i < front.skip(1).len() implies is_space(
            #[trigger] front.skip(1)[i],
        ) by {
            assert(front.skip(1)[i] == front[i + 1]);
        }
        trimming_takes_white_space(front.skip(1), inner, back);
    } else if back.len() > 0 {
        assert(all.last() == back[back.len() - 1]);
        if inner.len() > 0 {
            assert(all[0] == inner[0]);
            assert(all.drop_last() =~= front + inner + back.drop_last());
            trimming_takes_white_space(front, inner, back.drop_last());
        } else {
            assert(all[0] == back[0]);
            assert(all.skip(1) =~= front + inner + back.skip(1));
            assert forall|i: int| 0 <= i < back.skip(1).len() implies is_space(
                #[trigger] back.skip(1)[i],
            ) by {
                assert(back.skip(1)[i] == back[i + 1]);
            }
            trimming_takes_white_space(front, inner, back.skip(1));
        }
    } else {
        assert(all =~= inner);
        if inner.len() > 0 {
            assert(all[0] == inner[0]);
            assert(all.last() == inner.last());
        }
    }
}

} // verus!
