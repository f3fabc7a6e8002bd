use vstd::prelude::*;
use crate::text::push_char;

verus! {

/// The decimal digit character for `d < 10`.
pub open spec fn digit_char(d: nat) -> char {
    if d == 0 { '0' }
    else if d == 1 { '1' }
    else if d == 2 { '2' }
    else if d == 3 { '3' }
    else if d == 4 { '4' }
    else if d == 5 { '5' }
    else if d == 6 { '6' }
    else if d == 7 { '7' }
    else if d == 8 { '8' }
    else { '9' }
}

/// The decimal digits of `n`, most significant first, without leading zeros.
pub open spec fn decimal(n: nat) -> Seq<char>
    decreases n,
{
    if n < 10 {
        seq![digit_char(n)]
    } else {
        decimal(n / 10).push(digit_char(n % 10))
    }
}

/// `d` split into groups of three from the right, joined by commas.
pub open spec fn grouped(d: Seq<char>) -> Seq<char>
    decreases d.len(),
{
    if d.len() <= 3 {
        d
    } else {
        grouped(d.subrange(0, d.len() - 3)) + seq![','] + d.subrange(d.len() - 3, d.len() as int)
    }
}

/// `n` in decimal with thousands separators; a minus sign stays in front.
pub open spec fn formatted(n: int) -> Seq<char> {
    if n < 0 {
        seq!['-'] + grouped(decimal((-n) as nat))
    } else {
        grouped(decimal(n as nat))
    }
}

fn digit(d: u64) -> (c: char)
    requires
        d < 10,
    ensures
        c == digit_char(d as nat),
{
    if d == 0 { '0' }
    else if d == 1 { '1' }
    else if d == 2 { '2' }
    else if d == 3 { '3' }
    else if d == 4 { '4' }
    else if d == 5 { '5' }
    else if d == 6 { '6' }
    else if d == 7 { '7' }
    else if d == 8 { '8' }
    else { '9' }
}

fn push_decimal(out: &mut Vec<char>, n: u64)
    ensures
        final(out)@ == old(out)@ + decimal(n as nat),
    decreases n,
{
    if n >= 10 {
        push_decimal(out, n / 10);
    }
    out.push(digit(n % 10));
    proof {
        if n >= 10 {
            assert(decimal(n as nat) == decimal((n / 10) as nat).push(digit_char((n % 10) as nat)));
        }
    }
}

fn push_grouped(out: &mut String, d: &Vec<char>, len: usize)
    requires
        len <= d@.len(),
    ensures
        final(out)@ == old(out)@ + grouped(d@.take(len as int)),
    decreases len,
{
    let ghost prefix = d@.take(len as int);
    let start: usize = if len > 3 { len - 3 } else { 0 };
    if len > 3 {
        push_grouped(out, d, len - 3);
        push_char(out, ',');
        proof {
            assert(d@.take(len - 3) == prefix.subrange(0, prefix.len() - 3));
        }
    }
    let ghost mid = out@;
    let mut i: usize = start;
    while i < len
        invariant
            start <= i <= len,
            len <= d@.len(),
            out@ == mid + d@.subrange(start as int, i as int),
        decreases len - i,
    {
        push_char(out, d[i]);
        proof {
            assert(d@.subrange(start as int, i + 1) == d@.subrange(start as int, i as int).push(d@[i as int]));
        }
        i = i + 1;
    }
    proof {
        assert(d@.subrange(start as int, len as int) == prefix.subrange(start as int, len as int));
        if len <= 3 {
            assert(prefix.subrange(0, len as int) == prefix);
        }
    }
}

/// Renders `num` in decimal, grouping digits in threes from the right with `,`.
pub fn format_number(num: i64) -> (r: String)
    ensures
        r@ == formatted(num as int),
{
    let mut out = String::new();
    let magnitude: u64 = if num < 0 {
        push_char(&mut out, '-');
        ((-(num as i128)) as u64)
    } else {
        num as u64
    };
    let mut ds: Vec<char> = Vec::new();
    push_decimal(&mut ds, magnitude);
    assert(ds@ == decimal(magnitude as nat));
    push_grouped(&mut out, &ds, ds.len());
    assert(ds@.take(ds@.len() as int) == ds@);
    out
}

} // verus!
