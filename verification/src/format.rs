//! Decimal formatting of times and split labels.
use vstd::prelude::*;
use crate::text::{extend_chars, from_chars, to_chars};

verus! {

/// The decimal digit `d`.
pub open spec fn digit(d: int) -> char {
    if d == 0 {
        '0'
    } else if d == 1 {
        '1'
    } else if d == 2 {
        '2'
    } else if d == 3 {
        '3'
    } else if d == 4 {
        '4'
    } else if d == 5 {
        '5'
    } else if d == 6 {
        '6'
    } else if d == 7 {
        '7'
    } else if d == 8 {
        '8'
    } else {
        '9'
    }
}

/// The decimal notation of `n`, without leading zeros.
pub open spec fn decimal(n: nat) -> Seq<char>
    decreases n,
{
    if n < 10 {
        seq![digit(n as int)]
    } else {
        decimal(n / 10).push(digit((n % 10) as int))
    }
}

/// The decimal notation of `n`, padded with zeros to at least `width`
/// digits.
pub open spec fn padded(n: nat, width: nat) -> Seq<char> {
    let d = decimal(n);
    if d.len() < width {
        Seq::new((width - d.len()) as nat, |_i: int| '0') + d
    } else {
        d
    }
}

fn digit_exec(d: u128) -> (r: char)
    requires
        d < 10,
    ensures
        r == digit(d as int),
{
    if d == 0 {
        '0'
    } else if d == 1 {
        '1'
    } else if d == 2 {
        '2'
    } else if d == 3 {
        '3'
    } else if d == 4 {
        '4'
    } else if d == 5 {
        '5'
    } else if d == 6 {
        '6'
    } else if d == 7 {
        '7'
    } else if d == 8 {
        '8'
    } else {
        '9'
    }
}

/// The decimal digits of `n`.
pub fn decimal_chars(n: u128) -> (r: Vec<char>)
    ensures
        r@ == decimal(n as nat),
    decreases n,
{
    if n < 10 {
        let mut v: Vec<char> = Vec::new();
        v.push(digit_exec(n));
        assert(v@ =~= seq![digit(n as int)]);
        v
    } else {
        let mut v = decimal_chars(n / 10);
        v.push(digit_exec(n % 10));
        v
    }
}

/// The decimal digits of `n`, zero-padded to `width`.
pub fn padded_chars(n: u128, width: usize) -> (r: Vec<char>)
    ensures
        r@ == padded(n as nat, width as nat),
{
    let d = decimal_chars(n);
    if d.len() < width {
        let mut r: Vec<char> = Vec::new();
        let fill = width - d.len();
        let mut i: usize = 0;
        while i < fill
            invariant
                i <= fill,
                r@ == Seq::new(i as nat, |_i: int| '0'),
            decreases fill - i,
        {
            r.push('0');
            i = i + 1;
            assert(r@ =~= Seq::new(i as nat, |_i: int| '0'));
        }
        extend_chars(&mut r, d.as_slice());
        r
    } else {
        d
    }
}

/// `c` is one of the ASCII digits `0`-`9`.
pub open spec fn is_digit(c: char) -> bool {
    0x30 <= (c as u32) <= 0x39
}

/// The value of the ASCII digit `c`.
pub open spec fn digit_value(c: char) -> int {
    (c as u32) - 0x30
}

/// Every char of `s` is a digit.
pub open spec fn all_digits(s: Seq<char>) -> bool {
    forall|i: int| 0 <= i < s.len() ==> #[trigger] is_digit(s[i])
}

/// The number that the digits `s` spell out in base ten (most significant
/// first; leading zeros add nothing).
pub open spec fn read_decimal(s: Seq<char>) -> int
    decreases s.len(),
{
    if s.len() == 0 {
        0
    } else {
        10 * read_decimal(s.drop_last()) + digit_value(s.last())
    }
}

/// Ten to the power `k`.
pub open spec fn pow10(k: nat) -> nat
    decreases k,
{
    if k == 0 {
        1
    } else {
        10 * pow10((k - 1) as nat)
    }
}

proof fn lemma_digit(d: int)
    requires
        0 <= d < 10,
    ensures
        is_digit(digit(d)),
        digit_value(digit(d)) == d,
{
}

proof fn lemma_read_push(s: Seq<char>, c: char)
    ensures
        read_decimal(s.push(c)) == 10 * read_decimal(s) + digit_value(c),
{
    assert(s.push(c).drop_last() =~= s);
}

proof fn lemma_decimal_digits(n: nat)
    ensures
        all_digits(decimal(n)),
        read_decimal(decimal(n)) == n,
        decimal(n).len() >= 1,
    decreases n,
{
    if n < 10 {
        lemma_digit(n as int);
        lemma_read_push(seq![], digit(n as int));
        assert(seq![].push(digit(n as int)) =~= seq![digit(n as int)]);
    } else {
        lemma_decimal_digits(n / 10);
        lemma_digit((n % 10) as int);
        lemma_read_push(decimal(n / 10), digit((n % 10) as int));
    }
}

proof fn lemma_decimal_len(n: nat, k: nat)
    requires
        n < pow10(k),
    ensures
        decimal(n).len() <= k || (k == 0 && decimal(n).len() == 1),
    decreases n,
{
    if n >= 10 {
        assert(k >= 1);
        assert(k >= 2) by {
            if k == 1 {
                assert(pow10(1) == 10 * pow10(0));
            }
        }
        assert(pow10(k) == 10 * pow10((k - 1) as nat));
        lemma_decimal_len(n / 10, (k - 1) as nat);
    }
}

proof fn lemma_read_zeros(z: nat)
    ensures
        read_decimal(Seq::new(z, |_i: int| '0')) == 0,
    decreases z,
{
    if z > 0 {
        lemma_read_zeros((z - 1) as nat);
        assert(Seq::new(z, |_i: int| '0').drop_last() =~= Seq::new((z - 1) as nat, |_i: int| '0'));
    }
}

proof fn lemma_read_zeros_then(z: nat, d: Seq<char>)
    ensures
        read_decimal(Seq::new(z, |_i: int| '0') + d) == read_decimal(d),
    decreases d.len(),
{
    let zs = Seq::new(z, |_i: int| '0');
    if d.len() == 0 {
        lemma_read_zeros(z);
        assert(zs + d =~= zs);
    } else {
        lemma_read_zeros_then(z, d.drop_last());
        assert((zs + d).drop_last() =~= zs + d.drop_last());
        assert((zs + d).last() == d.last());
    }
}

/// The zero-padded notation of `n` to width `w` is all digits, reads back
/// as `n`, and is exactly `w` long when `n` has at most `w` digits (and
/// never shorter than `w`).
pub proof fn law_padded(n: nat, w: nat)
    ensures
        all_digits(padded(n, w)),
        read_decimal(padded(n, w)) == n,
        padded(n, w).len() >= w,
        n < pow10(w) && w >= 1 ==> padded(n, w).len() == w,
{
    lemma_decimal_digits(n);
    let d = decimal(n);
    if d.len() < w {
        let zs = Seq::new((w - d.len()) as nat, |_i: int| '0');
        lemma_read_zeros_then((w - d.len()) as nat, d);
        assert forall|i: int| 0 <= i < (zs + d).len() implies #[trigger] is_digit((zs + d)[i]) by {
            if i >= zs.len() {
                assert((zs + d)[i] == d[i - zs.len()]);
            }
        }
    } else {
        if n < pow10(w) && w >= 1 {
            lemma_decimal_len(n, w);
        }
    }
}

/// `fmt_ms` writes the minutes, a `:`, exactly two digits of seconds, a
/// `.` and exactly three digits of milliseconds; each part reads back as
/// the minutes, the seconds within the minute and the milliseconds within
/// the second of `ms`.
pub proof fn law_fmt_ms(ms: nat)
    ensures
        ({
            let t = fmt_ms_spec(ms);
            let n = t.len() as int;
            &&& n >= 8
            &&& t[n - 7] == ':'
            &&& t[n - 4] == '.'
            &&& all_digits(t.subrange(0, n - 7))
            &&& read_decimal(t.subrange(0, n - 7)) == ms / 60000
            &&& all_digits(t.subrange(n - 6, n - 4))
            &&& read_decimal(t.subrange(n - 6, n - 4)) == (ms / 1000) % 60
            &&& all_digits(t.subrange(n - 3, n))
            &&& read_decimal(t.subrange(n - 3, n)) == ms % 1000
        }),
{
    let a = decimal(ms / 60000);
    let b = padded((ms / 1000) % 60, 2);
    let c = padded(ms % 1000, 3);
    lemma_decimal_digits(ms / 60000);
    assert(pow10(2) == 100) by {
        reveal_with_fuel(pow10, 3);
    }
    assert(pow10(3) == 1000) by {
        reveal_with_fuel(pow10, 4);
    }
    law_padded((ms / 1000) % 60, 2);
    law_padded(ms % 1000, 3);
    let t = fmt_ms_spec(ms);
    assert(t =~= a + seq![':'] + b + seq!['.'] + c);
    let n = t.len() as int;
    assert(n == a.len() + 7);
    assert(t.subrange(0, n - 7) =~= a);
    assert(t.subrange(n - 6, n - 4) =~= b);
    assert(t.subrange(n - 3, n) =~= c);
}

/// `m:ss.mmm` for a duration of `ms` milliseconds (minutes unbounded).
pub open spec fn fmt_ms_spec(ms: nat) -> Seq<char> {
    decimal(ms / 60000) + seq![':'] + padded((ms / 1000) % 60, 2) + seq!['.'] + padded(
        ms % 1000,
        3,
    )
}

/// Formats a duration in milliseconds as `m:ss.mmm`.
pub fn fmt_ms(ms: u128) -> (r: String)
    ensures
        r@ == fmt_ms_spec(ms as nat),
{
    let mut out = decimal_chars(ms / 60000);
    out.push(':');
    let secs = padded_chars((ms / 1000) % 60, 2);
    extend_chars(&mut out, secs.as_slice());
    out.push('.');
    let millis = padded_chars(ms % 1000, 3);
    extend_chars(&mut out, millis.as_slice());
    assert(out@ =~= fmt_ms_spec(ms as nat));
    from_chars(out.as_slice())
}

/// `name (#idx)` for a named split, `#idx` otherwise.
pub open spec fn split_label_spec(name: Option<Seq<char>>, idx: nat) -> Seq<char> {
    match name {
        Some(n) => n + seq![' ', '(', '#'] + decimal(idx) + seq![')'],
        None => seq!['#'] + decimal(idx),
    }
}

/// A split label is the split's name followed by ` (#` and the index in
/// decimal and `)`, or, without a name, `#` and the index.
pub proof fn law_split_label(name: Option<Seq<char>>, idx: nat)
    ensures
        ({
            let l = split_label_spec(name, idx);
            let n = l.len() as int;
            match name {
                Some(nm) => {
                    &&& n >= nm.len() as int + 5
                    &&& l.take(nm.len() as int) == nm
                    &&& l.subrange(nm.len() as int, nm.len() as int + 3) == seq![' ', '(', '#']
                    &&& l[n - 1] == ')'
                    &&& all_digits(l.subrange(nm.len() as int + 3, n - 1))
                    &&& read_decimal(l.subrange(nm.len() as int + 3, n - 1)) == idx
                },
                None => {
                    &&& n >= 2
                    &&& l[0] == '#'
                    &&& all_digits(l.subrange(1, n))
                    &&& read_decimal(l.subrange(1, n)) == idx
                },
            }
        }),
{
    lemma_decimal_digits(idx);
    let d = decimal(idx);
    let l = split_label_spec(name, idx);
    match name {
        Some(nm) => {
            let n = l.len() as int;
            assert(l.take(nm.len() as int) =~= nm);
            assert(l.subrange(nm.len() as int, nm.len() as int + 3) =~= seq![' ', '(', '#']);
            assert(l.subrange(nm.len() as int + 3, n - 1) =~= d);
        },
        None => {
            assert(l.subrange(1, l.len() as int) =~= d);
        },
    }
}

/// The label of split `idx` in the testers' logs.
pub fn split_label(name: Option<&str>, idx: usize) -> (r: String)
    ensures
        r@ == split_label_spec(
            match name {
                Some(n) => Some(n@),
                None => None,
            },
            idx as nat,
        ),
{
    let digits = decimal_chars(idx as u128);
    let mut out: Vec<char> = Vec::new();
    match name {
        Some(n) => {
            let nc = to_chars(n);
            extend_chars(&mut out, nc.as_slice());
            out.push(' ');
            out.push('(');
            out.push('#');
            extend_chars(&mut out, digits.as_slice());
            out.push(')');
        },
        None => {
            out.push('#');
            extend_chars(&mut out, digits.as_slice());
        },
    }
    assert(out@ =~= split_label_spec(
        match name {
            Some(n) => Some(n@),
            None => None,
        },
        idx as nat,
    ));
    from_chars(out.as_slice())
}

} // verus!
