use vstd::prelude::*;

verus! {

/// True when `c` is an ASCII decimal digit.
pub open spec fn is_digit(c: char) -> bool {
    '0' <= c && c <= '9'
}

/// The value of an ASCII decimal digit.
pub open spec fn digit_value(c: char) -> nat {
    (c as nat - '0' as nat) as nat
}

/// The number that a string of decimal digits spells.
pub open spec fn digits_value(s: Seq<char>) -> nat
    decreases s.len(),
{
    if s.len() == 0 {
        0
    } else {
        digits_value(s.drop_last()) * 10 + digit_value(s.last())
    }
}

/// The digits of an unsigned integer: an optional leading `+`, then one or
/// more ASCII digits.
pub open spec fn unsigned_digits(s: Seq<char>) -> Seq<char> {
    if s.len() > 0 && s[0] == '+' {
        s.subrange(1, s.len() as int)
    } else {
        s
    }
}

/// What `str::parse::<u32>` yields: the value when the text is a
/// well-formed unsigned number that fits in 32 bits.
pub open spec fn parsed_u32(s: Seq<char>) -> Option<nat> {
    let d = unsigned_digits(s);
    if d.len() > 0 && (forall|i: int| 0 <= i < d.len() ==> is_digit(#[trigger] d[i]))
        && digits_value(d) <= u32::MAX {
        Some(digits_value(d))
    } else {
        None
    }
}

/// The permissive reading of a time component: its number, or 0 when the
/// text is not a number that fits in 32 bits.
pub open spec fn number_or_zero(s: Seq<char>) -> nat {
    match parsed_u32(s) {
        Some(n) => n,
        None => 0,
    }
}

/// The position of the first `c` in `s`, or `s.len()` when there is none.
pub open spec fn find_char(s: Seq<char>, c: char) -> nat
    decreases s.len(),
{
    if s.len() == 0 {
        0
    } else if s[0] == c {
        0
    } else {
        1 + find_char(s.subrange(1, s.len() as int), c)
    }
}

/// The text before the first `:` (all of it when there is no `:`).
pub open spec fn hour_part(s: Seq<char>) -> Seq<char> {
    s.subrange(0, find_char(s, ':') as int)
}

/// The text between the first and the second `:`; `None` when there is no `:`.
pub open spec fn minute_part(s: Seq<char>) -> Option<Seq<char>> {
    let i = find_char(s, ':');
    if i >= s.len() {
        None
    } else {
        let rest = s.subrange(i as int + 1, s.len() as int);
        Some(rest.subrange(0, find_char(rest, ':') as int))
    }
}

/// The hours and minutes that a stored `H:MM` value is read as: each
/// component that is missing or not a number counts as 0.
pub open spec fn time_of(s: Seq<char>) -> (nat, nat) {
    (
        number_or_zero(hour_part(s)),
        match minute_part(s) {
            Some(m) => number_or_zero(m),
            None => 0,
        },
    )
}

/// One minute later: the minute wraps to 0 at 60 and carries into the hour.
pub open spec fn tick(h: nat, m: nat) -> (nat, nat) {
    if m + 1 >= 60 {
        (h + 1, 0)
    } else {
        (h, m + 1)
    }
}

/// The decimal digits of `n`, without leading zeros (`"0"` for zero).
pub open spec fn decimal(n: nat) -> Seq<char>
    decreases n,
{
    if n < 10 {
        seq![digit_char(n)]
    } else {
        decimal(n / 10).push(digit_char(n % 10))
    }
}

/// The ASCII digit for a value below ten.
pub open spec fn digit_char(d: nat) -> char {
    ((d + '0' as nat) as u32) as char
}

/// The decimal digits of `n`, padded with zeros to at least two.
pub open spec fn two_digits(n: nat) -> Seq<char> {
    if n < 10 {
        seq!['0', digit_char(n)]
    } else {
        decimal(n)
    }
}

/// A time as it is stored: hours, `:`, minutes padded to two digits.
pub open spec fn time_text(h: nat, m: nat) -> Seq<char> {
    decimal(h) + seq![':'] + two_digits(m)
}

/// A task ratio as it is stored: `completed/total`.
pub open spec fn ratio_text(completed: nat, total: nat) -> Seq<char> {
    decimal(completed) + seq!['/'] + decimal(total)
}

/// Relies on `String::push`: the character is appended at the end.
#[verifier::external_body]
pub(crate) fn push_char(s: &mut String, c: char)
    ensures
        final(s)@ == old(s)@.push(c),
{
    s.push(c)
}

/// Appends the decimal digits of `n` to `out`.
fn push_decimal(out: &mut String, n: u64)
    ensures
        final(out)@ == old(out)@ + decimal(n as nat),
    decreases n,
{
    if n < 10 {
        let c = (n as u8 + 48u8) as char;
        push_char(out, c);
        assert(old(out)@ + decimal(n as nat) =~= old(out)@.push(c));
    } else {
        push_decimal(out, n / 10);
        let c = ((n % 10) as u8 + 48u8) as char;
        push_char(out, c);
        assert(old(out)@ + decimal(n as nat) =~= old(out)@ + decimal((n / 10) as nat) + seq![c]);
    }
}

/// Reads a component of a stored time: the number it spells, or 0 when it
/// is not an unsigned number that fits in 32 bits.
pub fn parse_u32_or_zero(s: &str) -> (r: u32)
    ensures
        r as nat == number_or_zero(s@),
{
    let len = s.unicode_len();
    let mut start: usize = 0;
    if len > 0 && s.get_char(0) == '+' {
        start = 1;
    }
    let ghost d = unsigned_digits(s@);
    assert(d =~= s@.subrange(start as int, len as int));
    if start >= len {
        return 0;
    }
    let mut i: usize = start;
    let mut acc: u64 = 0;
    while i < len
        invariant
            start <= i <= len,
            len == s@.len(),
            d == s@.subrange(start as int, len as int),
            d == unsigned_digits(s@),
            acc <= u32::MAX,
            forall|k: int| start <= k < i ==> is_digit(#[trigger] s@[k]),
            acc as nat == digits_value(s@.subrange(start as int, i as int)),
        decreases len - i,
    {
        let c = s.get_char(i);
        if !('0' <= c && c <= '9') {
            assert(d[i - start] == c);
            assert(!is_digit(d[i - start]));
            return 0;
        }
        let ghost prefix = s@.subrange(start as int, i as int);
        let next: u64 = acc * 10 + (c as u64 - 48);
        assert(s@.subrange(start as int, i + 1).drop_last() =~= prefix);
        if next > 4294967295 {
            proof {
                lemma_digits_value_grows(d, (i + 1 - start) as nat);
                assert(digits_value(s@.subrange(start as int, i + 1)) == next);
                assert(d.subrange(0, (i + 1 - start) as int) =~= s@.subrange(start as int, i + 1));
            }
            return 0;
        }
        acc = next;
        i = i + 1;
    }
    assert(d =~= s@.subrange(start as int, i as int));
    acc as u32
}

/// The value of a digit string is at least the value of any of its prefixes.
proof fn lemma_digits_value_grows(d: Seq<char>, k: nat)
    requires
        k <= d.len(),
    ensures
        digits_value(d.subrange(0, k as int)) <= digits_value(d),
    decreases d.len(),
{
    if k < d.len() {
        let e = d.drop_last();
        assert(e.subrange(0, k as int) =~= d.subrange(0, k as int));
        lemma_digits_value_grows(e, k);
    } else {
        assert(d.subrange(0, k as int) =~= d);
    }
}

/// The first position of `c` in `s` at or after `from`, or `s.len()`.
fn find_from(s: &str, len: usize, from: usize, c: char) -> (r: usize)
    requires
        len == s@.len(),
        from <= len,
    ensures
        from <= r <= len,
        r == from + find_char(s@.subrange(from as int, len as int), c),
{
    let mut i: usize = from;
    while i < len
        invariant
            from <= i <= len,
            len == s@.len(),
            find_char(s@.subrange(from as int, len as int), c) == (i - from) + find_char(
                s@.subrange(i as int, len as int),
                c,
            ),
        decreases len - i,
    {
        let ghost rest = s@.subrange(i as int, len as int);
        assert(rest.subrange(1, rest.len() as int) =~= s@.subrange(i + 1, len as int));
        if s.get_char(i) == c {
            return i;
        }
        i = i + 1;
    }
    i
}

/// Reads a stored `H:MM` value permissively: hours are the text before the
/// first `:`, minutes the text up to the next `:`, and each component that
/// is missing or not a number is 0.
pub fn parse_time(s: &str) -> (r: (u32, u32))
    ensures
        (r.0 as nat, r.1 as nat) == time_of(s@),
{
    let len = s.unicode_len();
    let i = find_from(s, len, 0, ':');
    assert(s@.subrange(0, len as int) =~= s@);
    let hours = parse_u32_or_zero(s.substring_char(0, i));
    if i >= len {
        return (hours, 0);
    }
    let j = find_from(s, len, i + 1, ':');
    let ghost rest = s@.subrange(i + 1, len as int);
    assert(rest.subrange(0, (j - (i + 1)) as int) =~= s@.subrange(i + 1, j as int));
    let minutes = parse_u32_or_zero(s.substring_char(i + 1, j));
    (hours, minutes)
}

/// The time one minute after `h:m`: minutes wrap to 0 at 60 and carry into
/// the hours.
pub fn next_time(h: u64, m: u64) -> (r: (u64, u64))
    requires
        h < u64::MAX,
        m < u64::MAX,
    ensures
        (r.0 as nat, r.1 as nat) == tick(h as nat, m as nat),
{
    if m + 1 >= 60 {
        (h + 1, 0)
    } else {
        (h, m + 1)
    }
}

/// Writes a time as `H:MM`: hours in decimal, minutes padded to two digits.
pub fn format_time(h: u64, m: u64) -> (r: String)
    ensures
        r@ == time_text(h as nat, m as nat),
{
    let mut out = String::new();
    push_decimal(&mut out, h);
    push_char(&mut out, ':');
    if m < 10 {
        push_char(&mut out, '0');
    }
    push_decimal(&mut out, m);
    proof {
        if m < 10 {
            assert(decimal(m as nat) == seq![digit_char(m as nat)]);
        }
    }
    assert(out@ =~= time_text(h as nat, m as nat));
    out
}

/// The stored time one minute after the stored time `s`, read permissively
/// (see `parse_time`).
pub fn incremented_time(s: &str) -> (r: String)
    ensures
        r@ == time_text(tick(time_of(s@).0, time_of(s@).1).0, tick(time_of(s@).0, time_of(s@).1).1),
{
    let (h, m) = parse_time(s);
    let (h2, m2) = next_time(h as u64, m as u64);
    format_time(h2, m2)
}

/// Writes a task ratio as `completed/total`.
pub fn tasks_text(completed: u32, total: u32) -> (r: String)
    ensures
        r@ == ratio_text(completed as nat, total as nat),
{
    let mut out = String::new();
    push_decimal(&mut out, completed as u64);
    push_char(&mut out, '/');
    push_decimal(&mut out, total as u64);
    assert(out@ =~= ratio_text(completed as nat, total as nat));
    out
}

} // verus!
