//! Building the text of diagnostics and listings, byte by byte.

use vstd::prelude::*;

verus! {

/// The ASCII digit of `d`, a number below ten.
pub open spec fn digit(d: int) -> u8 {
    ('0' as u8 + d) as u8
}

/// The decimal digits of `n`, most significant first, without leading
/// zeros.
pub open spec fn decimal(n: nat) -> Seq<u8>
    decreases n,
{
    if n < 10 {
        seq![digit(n as int)]
    } else {
        decimal(n / 10).push(digit((n % 10) as int))
    }
}

/// `count` copies of `fill`.
pub open spec fn filler(count: int, fill: u8) -> Seq<u8> {
    Seq::new(
        if count > 0 {
            count as nat
        } else {
            0
        },
        |i: int| fill,
    )
}

/// `text` brought to `width` bytes, where it is shorter, by `fill` in
/// front of it.
pub open spec fn right_aligned(text: Seq<u8>, width: int, fill: u8) -> Seq<u8> {
    filler(width - text.len(), fill) + text
}

/// `text` brought to `width` bytes, where it is shorter, by `fill` behind
/// it.
pub open spec fn left_aligned(text: Seq<u8>, width: int, fill: u8) -> Seq<u8> {
    text + filler(width - text.len(), fill)
}

/// Appends `text` to `out`.
pub fn append(out: &mut Vec<u8>, text: &[u8])
    ensures
        final(out)@ == old(out)@ + text@,
{
    let mut i: usize = 0;
    while i < text.len()
        invariant
            i <= text@.len(),
            out@ == old(out)@ + text@.take(i as int),
        decreases text@.len() - i,
    {
        out.push(text[i]);
        assert(text@.take(i + 1) =~= text@.take(i as int).push(text@[i as int]));
        i += 1;
    }
    assert(text@.take(text@.len() as int) =~= text@);
}

/// Appends `count` copies of `fill` to `out`.
pub fn append_filler(out: &mut Vec<u8>, count: usize, fill: u8)
    ensures
        final(out)@ == old(out)@ + filler(count as int, fill),
{
    let mut i: usize = 0;
    while i < count
        invariant
            i <= count,
            out@ == old(out)@ + filler(i as int, fill),
        decreases count - i,
    {
        out.push(fill);
        assert(filler(i + 1, fill) =~= filler(i as int, fill).push(fill));
        i += 1;
    }
}

/// The decimal digits of `n`.
pub fn decimal_digits(n: usize) -> (digits: Vec<u8>)
    ensures
        digits@ == decimal(n as nat),
    decreases n,
{
    if n < 10 {
        let mut digits: Vec<u8> = Vec::new();
        digits.push('0' as u8 + n as u8);
        digits
    } else {
        let mut digits = decimal_digits(n / 10);
        digits.push('0' as u8 + (n % 10) as u8);
        digits
    }
}

/// Appends `text`, right-aligned in `width` bytes, to `out`.
pub fn append_right_aligned(out: &mut Vec<u8>, text: &[u8], width: usize, fill: u8)
    ensures
        final(out)@ == old(out)@ + right_aligned(text@, width as int, fill),
{
    if text.len() < width {
        append_filler(out, width - text.len(), fill);
    }
    append(out, text);
}

/// Appends `text`, left-aligned in `width` bytes, to `out`.
pub fn append_left_aligned(out: &mut Vec<u8>, text: &[u8], width: usize, fill: u8)
    ensures
        final(out)@ == old(out)@ + left_aligned(text@, width as int, fill),
{
    append(out, text);
    if text.len() < width {
        append_filler(out, width - text.len(), fill);
    }
}

} // verus!
