use vstd::prelude::*;

use crate::canvas::Canvas;
use crate::text::push_char;

verus! {

/// A color with 8-bit channels, as an image file stores it.
#[derive(Clone, Copy, Debug, PartialEq, Eq, Structural)]
pub struct Rgb8 {
    pub red: u8,
    pub green: u8,
    pub blue: u8,
}

/// Largest channel value written in the header.
pub const PPM_MAX_VALUE: u8 = 255;

/// Longest line of pixel data, in characters.
pub const PPM_LINE_LIMIT: usize = 70;

/// The character of decimal digit `d`.
pub open spec fn digit_char(d: nat) -> char {
    seq!['0', '1', '2', '3', '4', '5', '6', '7', '8', '9'][d as int]
}

/// `n` written in decimal, without leading zeros.
pub open spec fn decimal(n: nat) -> Seq<char>
    decreases n,
{
    if n < 10 {
        seq![digit_char(n)]
    } else {
        decimal(n / 10).push(digit_char(n % 10))
    }
}

/// The channel values of `row`, red, green and blue of each pixel in turn.
pub open spec fn channels(row: Seq<Rgb8>) -> Seq<u8>
    decreases row.len(),
{
    if row.len() == 0 {
        Seq::empty()
    } else {
        let p = row.last();
        channels(row.drop_last()) + seq![p.red, p.green, p.blue]
    }
}

/// Each pixel gives three channel values.
pub(crate) proof fn lemma_channels_len(row: Seq<Rgb8>)
    ensures
        channels(row).len() == 3 * row.len(),
    decreases row.len(),
{
    if row.len() > 0 {
        lemma_channels_len(row.drop_last());
    }
}

/// The numbers `vals[i..]` laid out in lines of at most `PPM_LINE_LIMIT`
/// characters, when the current line already holds `used` characters
/// counting one separating space (zero at the start of a line).
/// A number that would overflow the line starts a new one.
pub open spec fn layout(vals: Seq<u8>, i: int, used: nat) -> Seq<char>
    decreases vals.len() - i,
{
    if i < 0 || i >= vals.len() {
        Seq::empty()
    } else {
        let t = decimal(vals[i] as nat);
        if used == 0 {
            t + layout(vals, i + 1, t.len() + 1)
        } else if used + t.len() > PPM_LINE_LIMIT {
            seq!['\n'] + t + layout(vals, i + 1, t.len() + 1)
        } else {
            seq![' '] + t + layout(vals, i + 1, used + t.len() + 1)
        }
    }
}

/// The pixel data of `rows`: each row laid out on its own lines and ended by
/// a newline.
pub open spec fn ppm_body(rows: Seq<Seq<Rgb8>>) -> Seq<char>
    decreases rows.len(),
{
    if rows.len() == 0 {
        Seq::empty()
    } else {
        ppm_body(rows.drop_last()) + layout(channels(rows.last()), 0, 0).push('\n')
    }
}

/// The header of a plain PPM file for a `width` by `height` image.
pub open spec fn ppm_header(width: nat, height: nat) -> Seq<char> {
    seq!['P', '3', '\n'] + decimal(width) + seq![' '] + decimal(height) + seq!['\n']
        + decimal(PPM_MAX_VALUE as nat) + seq!['\n']
}

/// A plain PPM file for an image of the given width whose rows are `rows`.
pub open spec fn ppm_text(width: nat, rows: Seq<Seq<Rgb8>>) -> Seq<char> {
    ppm_header(width, rows.len()) + ppm_body(rows)
}

fn digit(d: usize) -> (r: char)
    requires
        d < 10,
    ensures
        r == digit_char(d as nat),
{
    if d == 0 {
        '0'
    } else if d == 1 {
        '1'
    } else if d == 2 {
        '2'
    } else if d == 3 {
        '3'
    } else if d == 4 {
        '4'
    } else if d == 5 {
        '5'
    } else if d == 6 {
        '6'
    } else if d == 7 {
        '7'
    } else if d == 8 {
        '8'
    } else {
        '9'
    }
}

/// Appends `n` in decimal to `out`.
pub fn push_decimal(out: &mut String, n: usize)
    ensures
        final(out)@ == old(out)@ + decimal(n as nat),
    decreases n,
{
    if n >= 10 {
        push_decimal(out, n / 10);
    }
    push_char(out, digit(n % 10));
    assert(final(out)@ =~= old(out)@ + decimal(n as nat));
}

proof fn lemma_decimal_len(n: nat)
    requires
        n < 256,
    ensures
        decimal(n).len() == (if n < 10 { 1nat } else if n < 100 { 2nat } else { 3nat }),
    decreases n,
{
    if n >= 10 {
        lemma_decimal_len(n / 10);
    }
}

/// Number of characters of `v` in decimal.
fn decimal_len(v: u8) -> (r: usize)
    ensures
        r == decimal(v as nat).len(),
        1 <= r <= 3,
{
    proof {
        lemma_decimal_len(v as nat);
    }
    if v < 10 {
        1
    } else if v < 100 {
        2
    } else {
        3
    }
}

/// The channel values of `row`.
pub fn row_channels(row: &Vec<Rgb8>) -> (r: Vec<u8>)
    ensures
        r@ == channels(row@),
{
    let mut r: Vec<u8> = Vec::new();
    let mut x: usize = 0;
    while x < row.len()
        invariant
            x <= row@.len(),
            r@ == channels(row@.subrange(0, x as int)),
        decreases row@.len() - x,
    {
        let p = row[x];
        proof {
            let s = row@.subrange(0, x + 1);
            assert(s.drop_last() =~= row@.subrange(0, x as int));
            assert(s.last() == p);
        }
        r.push(p.red);
        r.push(p.green);
        r.push(p.blue);
        x = x + 1;
        assert(r@ =~= channels(row@.subrange(0, x as int)));
    }
    assert(row@.subrange(0, row@.len() as int) =~= row@);
    r
}

/// Appends the numbers `vals` to `out`, laid out in lines of at most
/// `PPM_LINE_LIMIT` characters.
pub fn push_layout(out: &mut String, vals: &Vec<u8>)
    ensures
        final(out)@ == old(out)@ + layout(vals@, 0, 0),
{
    let mut i: usize = 0;
    let mut used: usize = 0;
    while i < vals.len()
        invariant
            i <= vals@.len(),
            used <= PPM_LINE_LIMIT + 1,
            i == 0 ==> used == 0,
            out@ + layout(vals@, i as int, used as nat) == old(out)@ + layout(vals@, 0, 0),
        decreases vals@.len() - i,
    {
        let v = vals[i];
        let len = decimal_len(v);
        let ghost before = out@;
        let ghost t = decimal(v as nat);
        let ghost rest_before = layout(vals@, i as int, used as nat);
        if used == 0 {
            push_decimal(out, v as usize);
            used = len + 1;
            assert(rest_before =~= t + layout(vals@, i + 1, used as nat));
        } else if used + len > PPM_LINE_LIMIT {
            push_char(out, '\n');
            push_decimal(out, v as usize);
            used = len + 1;
            assert(rest_before =~= seq!['\n'] + t + layout(vals@, i + 1, used as nat));
        } else {
            push_char(out, ' ');
            push_decimal(out, v as usize);
            assert(rest_before =~= seq![' '] + t + layout(vals@, i + 1, (used + len + 1) as nat));
            used = used + len + 1;
        }
        i = i + 1;
        assert(out@ + layout(vals@, i as int, used as nat) =~= before + rest_before);
    }
}

impl Canvas<Rgb8> {
    /// The canvas as a plain PPM file: a header with the size and the largest
    /// channel value, then each row's channel values on lines of at most
    /// `PPM_LINE_LIMIT` characters.
    pub fn to_ppm(&self) -> (r: String)
        ensures
            r@ == ppm_text(self.spec_width(), self@),
    {
        let mut out = String::new();
        push_char(&mut out, 'P');
        push_char(&mut out, '3');
        push_char(&mut out, '\n');
        push_decimal(&mut out, self.width());
        push_char(&mut out, ' ');
        push_decimal(&mut out, self.height());
        push_char(&mut out, '\n');
        push_decimal(&mut out, PPM_MAX_VALUE as usize);
        push_char(&mut out, '\n');
        let ghost header = out@;
        assert(header =~= ppm_header(self.spec_width(), self@.len()));
        let mut y: usize = 0;
        while y < self.height()
            invariant
                y <= self@.len(),
                out@ == header + ppm_body(self@.subrange(0, y as int)),
            decreases self@.len() - y,
        {
            let vals = row_channels(self.row(y));
            push_layout(&mut out, &vals);
            push_char(&mut out, '\n');
            proof {
                let s = self@.subrange(0, y + 1);
                assert(s.drop_last() =~= self@.subrange(0, y as int));
            }
            y = y + 1;
            assert(out@ =~= header + ppm_body(self@.subrange(0, y as int)));
        }
        assert(self@.subrange(0, self@.len() as int) =~= self@);
        out
    }
}

} // verus!
