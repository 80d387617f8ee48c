//! Facts about the operations that hold for every input.

use vstd::prelude::*;
use crate::days::{
    category_of, field_text, fresh_record, has_key, index_of, key_at, lemma_index_unique,
    lemma_push_keeps_unique, lemma_update_keeps_unique, set_field, tasks_name, upper_of,
    ticked, with_record, with_tasks,
};
use crate::document::{document_wf, DayView, FieldView};
use crate::json::keys_unique;
use crate::text::{
    decimal, digit_char, digit_value, digits_value, find_char, hour_part, is_digit, minute_part,
    number_or_zero, time_of, time_text, two_digits, unsigned_digits,
};

verus! {

/// The decimal digits of `n` are digits and spell `n`.
proof fn lemma_decimal(n: nat)
    ensures
        decimal(n).len() >= 1,
        forall|i: int| 0 <= i < decimal(n).len() ==> is_digit(#[trigger] decimal(n)[i]),
        digits_value(decimal(n)) == n,
    decreases n,
{
    if n < 10 {
        let s = decimal(n);
        assert(s.drop_last() =~= Seq::<char>::empty());
        assert(digits_value(s.drop_last()) == 0);
        assert(s.last() == digit_char(n));
        assert(digit_value(digit_char(n)) == n);
        assert(digits_value(s) == digits_value(s.drop_last()) * 10 + digit_value(s.last()));
    } else {
        lemma_decimal(n / 10);
        let s = decimal(n);
        assert(s.drop_last() =~= decimal(n / 10));
        assert(digit_value(digit_char(n % 10)) == n % 10);
        assert(s.last() == digit_char(n % 10));
        assert(digits_value(s) == digits_value(s.drop_last()) * 10 + digit_value(s.last()));
        assert(n == (n / 10) * 10 + n % 10) by (nonlinear_arith);
    }
}

/// Minutes below sixty, padded to two digits, are digits that spell them.
proof fn lemma_two_digits(m: nat)
    requires
        m < 60,
    ensures
        two_digits(m).len() >= 1,
        forall|i: int| 0 <= i < two_digits(m).len() ==> is_digit(#[trigger] two_digits(m)[i]),
        digits_value(two_digits(m)) == m,
{
    lemma_decimal(m);
    if m < 10 {
        let s = two_digits(m);
        assert(s.drop_last() =~= seq!['0']);
        assert(s.drop_last().drop_last() =~= Seq::<char>::empty());
        assert(digits_value(s.drop_last().drop_last()) == 0);
        assert(digits_value(s.drop_last()) == 0);
        assert(digit_value(digit_char(m)) == m);
        assert(digits_value(s) == digits_value(s.drop_last()) * 10 + digit_value(s.last()));
    }
}

/// A string of digits that fits in 32 bits reads as its value.
proof fn lemma_parse_digits(s: Seq<char>)
    requires
        s.len() >= 1,
        forall|i: int| 0 <= i < s.len() ==> is_digit(#[trigger] s[i]),
        digits_value(s) <= u32::MAX,
    ensures
        number_or_zero(s) == digits_value(s),
{
    assert(is_digit(s[0]));
    assert(unsigned_digits(s) == s);
}

/// Searching past a prefix without `c` adds the prefix's length.
proof fn lemma_find_after(a: Seq<char>, b: Seq<char>, c: char)
    requires
        forall|i: int| 0 <= i < a.len() ==> a[i] != c,
    ensures
        find_char(a + b, c) == a.len() + find_char(b, c),
    decreases a.len(),
{
    if a.len() > 0 {
        let t = a.subrange(1, a.len() as int);
        assert((a + b).subrange(1, (a + b).len() as int) =~= t + b);
        lemma_find_after(t, b, c);
    } else {
        assert(a + b =~= b);
    }
}

/// A text without `c` has no `c` to find.
proof fn lemma_find_none(a: Seq<char>, c: char)
    requires
        forall|i: int| 0 <= i < a.len() ==> a[i] != c,
    ensures
        find_char(a, c) == a.len(),
{
    lemma_find_after(a, Seq::empty(), c);
    assert(a + Seq::<char>::empty() =~= a);
}

/// A stored time `H:MM` reads back as the hours and minutes it was written from.
pub proof fn lemma_time_reads_back(h: nat, m: nat)
    requires
        h <= u32::MAX,
        m < 60,
    ensures
        time_of(time_text(h, m)) == (h, m),
{
    lemma_decimal(h);
    lemma_two_digits(m);
    let dh = decimal(h);
    let dm = two_digits(m);
    let s = time_text(h, m);
    assert(s =~= dh + (seq![':'] + dm));
    lemma_find_after(dh, seq![':'] + dm, ':');
    assert(find_char(seq![':'] + dm, ':') == 0);
    assert(find_char(s, ':') == dh.len());
    assert(hour_part(s) =~= dh);
    lemma_parse_digits(dh);
    let rest = s.subrange(dh.len() as int + 1, s.len() as int);
    assert(rest =~= dm);
    lemma_find_none(dm, ':');
    assert(rest.subrange(0, find_char(rest, ':') as int) =~= dm);
    assert(minute_part(s) == Some(dm));
    lemma_parse_digits(dm);
}

/// Moving a stored clock `H:MM` on gives minutes `(m + 1) mod 60` and hours
/// `h + (m + 1) / 60`.
pub proof fn lemma_increment_carries(h: nat, m: nat)
    requires
        h <= u32::MAX,
        m < 60,
    ensures
        ticked(time_text(h, m)) == time_text(h + (m + 1) / 60, (m + 1) % 60),
{
    lemma_time_reads_back(h, m);
}

/// Labels with the same upper-case form name the same category.
pub proof fn lemma_label_ignores_case(a: Seq<char>, b: Seq<char>)
    requires
        upper_of(a) == upper_of(b),
    ensures
        category_of(a) == category_of(b),
{
}

/// Ensuring a record twice does no more than ensuring it once, and leaves a
/// record for the day.
pub proof fn lemma_ensure_record_idempotent(d: Seq<(Seq<char>, DayView)>, k: Seq<char>)
    ensures
        has_key(with_record(d, k), k),
        with_record(with_record(d, k), k) == with_record(d, k),
{
    if !has_key(d, k) {
        assert(key_at(with_record(d, k), k, d.len() as int));
    }
}

/// After setting the task ratio of a day that has a record or no entry,
/// reading the day's `tasks` field gives that ratio.
pub proof fn lemma_tasks_read_back(d: Seq<(Seq<char>, DayView)>, k: Seq<char>, ratio: Seq<char>)
    requires
        document_wf(d),
        !(has_key(d, k) && d[index_of(d, k)].1 is Other),
    ensures
        has_key(with_tasks(d, k, ratio), k),
        field_text(with_tasks(d, k, ratio)[index_of(with_tasks(d, k, ratio), k)].1, tasks_name()) == Some(ratio),
{
    let d1 = with_tasks(d, k, ratio);
    let fr = fresh_record(ratio);
    assert(fr[0].0[0] != fr[1].0[0]);
    assert(fr[0].0[0] != fr[2].0[0]);
    assert(fr[1].0[0] != fr[2].0[0]);
    assert(key_at(fr, tasks_name(), 2));
    lemma_index_unique(fr, tasks_name(), 2);
    if has_key(d, k) {
        let i = index_of(d, k);
        assert(key_at(d, k, i));
        let day = d1[i].1;
        lemma_update_keeps_unique(d, i, day);
        assert(d.update(i, (d[i].0, day)) == d1);
        lemma_index_unique(d1, k, i);
        match d[i].1 {
            DayView::Record(fs) => {
                let v = FieldView::Text(ratio);
                assert(keys_unique(fs));
                if has_key(fs, tasks_name()) {
                    let j = index_of(fs, tasks_name());
                    assert(key_at(fs, tasks_name(), j));
                    lemma_update_keeps_unique(fs, j, v);
                    assert(fs.update(j, (fs[j].0, v)) == set_field(fs, tasks_name(), v));
                    lemma_index_unique(set_field(fs, tasks_name(), v), tasks_name(), j);
                } else {
                    lemma_push_keeps_unique(fs, tasks_name(), v);
                    lemma_index_unique(set_field(fs, tasks_name(), v), tasks_name(), fs.len() as int);
                }
            },
            DayView::Other(_) => {},
        }
    } else {
        lemma_push_keeps_unique(d, k, d1[d.len() as int].1);
        lemma_index_unique(d1, k, d.len() as int);
    }
}

} // verus!
