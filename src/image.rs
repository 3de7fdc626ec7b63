use vstd::prelude::*;

verus! {

/// Largest channel value written to the image.
pub const MAX_CHANNEL: u32 = 255;

/// An integer colour sample.
#[derive(Clone, Copy, Debug, PartialEq, Eq, Structural)]
pub struct Pixel {
    pub r: u32,
    pub g: u32,
    pub b: u32,
}

/// Channel `ch` (0 red, 1 green, 2 blue) of `p`.
pub open spec fn channel(p: Pixel, ch: int) -> int {
    if ch == 0 {
        p.r as int
    } else if ch == 1 {
        p.g as int
    } else {
        p.b as int
    }
}

/// Sum of channel `ch` over all samples.
pub open spec fn channel_sum(s: Seq<Pixel>, ch: int) -> int
    decreases s.len(),
{
    if s.len() == 0 {
        0
    } else {
        channel_sum(s.drop_last(), ch) + channel(s.last(), ch)
    }
}

/// Per-channel mean of the samples, truncated.
pub open spec fn mean_pixel(s: Seq<Pixel>) -> Pixel
    recommends
        s.len() > 0,
{
    Pixel {
        r: (channel_sum(s, 0) / s.len() as int) as u32,
        g: (channel_sum(s, 1) / s.len() as int) as u32,
        b: (channel_sum(s, 2) / s.len() as int) as u32,
    }
}

proof fn lemma_channel_sum_bound(s: Seq<Pixel>, ch: int)
    ensures
        0 <= channel_sum(s, ch) <= s.len() * 0xFFFF_FFFF,
    decreases s.len(),
{
    if s.len() > 0 {
        lemma_channel_sum_bound(s.drop_last(), ch);
    }
}

proof fn lemma_mean_fits(sum: int, n: int)
    requires
        0 < n,
        0 <= sum <= n * 0xFFFF_FFFF,
    ensures
        0 <= sum / n <= 0xFFFF_FFFF,
{
    assert(sum / n <= 0xFFFF_FFFF) by (nonlinear_arith)
        requires 0 < n, 0 <= sum <= n * 0xFFFF_FFFF;
}

/// The pixel value of a set of sub-samples: each channel is the truncated mean.
pub fn average(samples: &Vec<Pixel>) -> (r: Pixel)
    requires
        0 < samples.len() <= 0xFFFF_FFFF,
    ensures
        r == mean_pixel(samples@),
{
    let mut sr: u64 = 0;
    let mut sg: u64 = 0;
    let mut sb: u64 = 0;
    let mut i: usize = 0;
    while i < samples.len()
        invariant
            i <= samples.len() <= 0xFFFF_FFFF,
            sr == channel_sum(samples@.subrange(0, i as int), 0),
            sg == channel_sum(samples@.subrange(0, i as int), 1),
            sb == channel_sum(samples@.subrange(0, i as int), 2),
            i <= 0xFFFF_FFFF,
        decreases samples.len() - i,
    {
        let p = samples[i];
        proof {
            let pre = samples@.subrange(0, i as int);
            let next = samples@.subrange(0, i as int + 1);
            assert(next.drop_last() == pre);
            assert(next.last() == p);
            lemma_channel_sum_bound(pre, 0);
            lemma_channel_sum_bound(pre, 1);
            lemma_channel_sum_bound(pre, 2);
            assert(i * 0xFFFF_FFFF <= 0xFFFF_FFFF * 0xFFFF_FFFF) by (nonlinear_arith)
                requires i <= 0xFFFF_FFFF;
        }
        sr = sr + p.r as u64;
        sg = sg + p.g as u64;
        sb = sb + p.b as u64;
        i = i + 1;
    }
    let n = samples.len() as u64;
    proof {
        assert(samples@.subrange(0, samples.len() as int) == samples@);
        lemma_channel_sum_bound(samples@, 0);
        lemma_channel_sum_bound(samples@, 1);
        lemma_channel_sum_bound(samples@, 2);
        lemma_mean_fits(sr as int, n as int);
        lemma_mean_fits(sg as int, n as int);
        lemma_mean_fits(sb as int, n as int);
    }
    Pixel { r: (sr / n) as u32, g: (sg / n) as u32, b: (sb / n) as u32 }
}

proof fn lemma_uniform_sum(s: Seq<Pixel>, p: Pixel, ch: int)
    requires
        forall|i: int| 0 <= i < s.len() ==> s[i] == p,
    ensures
        channel_sum(s, ch) == s.len() * channel(p, ch),
    decreases s.len(),
{
    if s.len() > 0 {
        lemma_uniform_sum(s.drop_last(), p, ch);
        assert(s.last() == s[s.len() - 1]);
        assert((s.len() - 1) * channel(p, ch) + channel(p, ch) == s.len() * channel(p, ch))
            by (nonlinear_arith);
    }
}

/// Supersampling a pixel whose sub-samples all agree yields that same value,
/// as a single sample would.
pub proof fn lemma_uniform_samples_average(s: Seq<Pixel>, p: Pixel)
    requires
        s.len() > 0,
        forall|i: int| 0 <= i < s.len() ==> s[i] == p,
    ensures
        mean_pixel(s) == p,
{
    let n = s.len() as int;
    lemma_uniform_sum(s, p, 0);
    lemma_uniform_sum(s, p, 1);
    lemma_uniform_sum(s, p, 2);
    assert((n * (p.r as int)) / n == p.r) by (nonlinear_arith)
        requires n > 0;
    assert((n * (p.g as int)) / n == p.g) by (nonlinear_arith)
        requires n > 0;
    assert((n * (p.b as int)) / n == p.b) by (nonlinear_arith)
        requires n > 0;
}

/// ASCII decimal digits of `n`, most significant first.
pub open spec fn decimal(n: nat) -> Seq<u8>
    decreases n,
{
    if n < 10 {
        seq![(48 + n) as u8]
    } else {
        decimal(n / 10) + seq![(48 + n % 10) as u8]
    }
}

/// One pixel as text: `R G B` followed by a tab.
pub open spec fn pixel_text(p: Pixel) -> Seq<u8> {
    decimal(p.r as nat) + seq![32u8] + decimal(p.g as nat) + seq![32u8] + decimal(p.b as nat)
        + seq![9u8]
}

/// The pixels in row-major order, each row ended by a newline.
pub open spec fn body_text(s: Seq<Pixel>, width: nat) -> Seq<u8>
    decreases s.len(),
{
    if s.len() == 0 {
        seq![]
    } else {
        let row_end: Seq<u8> = if s.len() % width == 0 {
            seq![10u8]
        } else {
            seq![]
        };
        body_text(s.drop_last(), width) + pixel_text(s.last()) + row_end
    }
}

/// Format tag, dimensions and maximum channel value, one per line.
pub open spec fn header_text(width: nat, height: nat) -> Seq<u8> {
    seq![80u8, 51u8, 10u8] + decimal(width) + seq![32u8] + decimal(height) + seq![10u8]
        + decimal(MAX_CHANNEL as nat) + seq![10u8]
}

/// The plain-text image of `width` x `height` pixels given row by row.
pub open spec fn image_text(width: nat, height: nat, pixels: Seq<Pixel>) -> Seq<u8> {
    header_text(width, height) + body_text(pixels, width)
}

/// Appends the decimal digits of `n`.
pub fn push_decimal(out: &mut Vec<u8>, n: u32)
    ensures
        final(out)@ == old(out)@ + decimal(n as nat),
    decreases n,
{
    if n >= 10 {
        push_decimal(out, n / 10);
    }
    out.push((48 + n % 10) as u8);
    proof {
        if n < 10 {
            assert(n % 10 == n);
        }
    }
}

/// Appends one pixel as text.
pub fn push_pixel(out: &mut Vec<u8>, p: Pixel)
    ensures
        final(out)@ == old(out)@ + pixel_text(p),
{
    push_decimal(out, p.r);
    out.push(32u8);
    push_decimal(out, p.g);
    out.push(32u8);
    push_decimal(out, p.b);
    out.push(9u8);
}

/// Encodes an image: header, then the pixels row by row from the top,
/// left to right within a row.
pub fn encode(width: u32, height: u32, pixels: &Vec<Pixel>) -> (r: Vec<u8>)
    requires
        width > 0,
        pixels.len() == width as int * height as int,
    ensures
        r@ == image_text(width as nat, height as nat, pixels@),
{
    let mut out: Vec<u8> = Vec::new();
    out.push(80u8);
    out.push(51u8);
    out.push(10u8);
    push_decimal(&mut out, width);
    out.push(32u8);
    push_decimal(&mut out, height);
    out.push(10u8);
    push_decimal(&mut out, MAX_CHANNEL);
    out.push(10u8);
    let ghost head = out@;
    assert(head == header_text(width as nat, height as nat));
    let mut i: usize = 0;
    let mut col: u32 = 0;
    while i < pixels.len()
        invariant
            width > 0,
            i <= pixels.len(),
            col < width,
            col as int == i as int % (width as int),
            out@ == head + body_text(pixels@.subrange(0, i as int), width as nat),
        decreases pixels.len() - i,
    {
        let ghost before = out@;
        push_pixel(&mut out, pixels[i]);
        let ghost pre = pixels@.subrange(0, i as int);
        let ghost next = pixels@.subrange(0, i as int + 1);
        proof {
            assert(next.drop_last() == pre);
            assert(next.last() == pixels@[i as int]);
            assert((i as int + 1) % (width as int) == if col + 1 == width { 0 } else { col + 1 })
                by (nonlinear_arith)
                requires col as int == i as int % (width as int), col < width, width > 0, i >= 0;
        }
        if col + 1 == width {
            out.push(10u8);
            col = 0;
        } else {
            col = col + 1;
        }
        assert(out@ == head + body_text(next, width as nat));
        i = i + 1;
    }
    assert(pixels@.subrange(0, pixels.len() as int) == pixels@);
    out
}

} // verus!
