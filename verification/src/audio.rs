//! Downmixing of interleaved integer microphone samples to mono 16-bit.
use vstd::prelude::*;

verus! {

/// The sum of the samples of `s`.
pub open spec fn sample_sum(s: Seq<i16>) -> int
    decreases s.len(),
{
    if s.len() == 0 {
        0
    } else {
        sample_sum(s.drop_last()) + s.last()
    }
}

/// `a / b` rounded toward zero, as Rust's integer division does.
pub open spec fn div_toward_zero(a: int, b: int) -> int {
    if a >= 0 {
        a / b
    } else {
        -((-a) / b)
    }
}

/// One mono sample per frame of `channels` interleaved samples: the frame's sum
/// divided by `channels`, rounded toward zero. A last frame that is cut short is
/// still divided by `channels`.
pub open spec fn downmix(data: Seq<i16>, channels: nat) -> Seq<i16>
    decreases data.len(),
{
    if data.len() == 0 || channels == 0 {
        Seq::empty()
    } else {
        let n = if data.len() < channels {
            data.len() as int
        } else {
            channels as int
        };
        seq![div_toward_zero(sample_sum(data.take(n)), channels as int) as i16] + downmix(
            data.skip(n),
            channels,
        )
    }
}

/// An unsigned sample moved to the signed range: 32768 is silence.
pub open spec fn centered(s: u16) -> i16 {
    (s - 32768) as i16
}

proof fn lemma_sum_bounds(s: Seq<i16>)
    ensures
        -32768 * s.len() <= sample_sum(s) <= 32767 * s.len(),
    decreases s.len(),
{
    if s.len() > 0 {
        lemma_sum_bounds(s.drop_last());
    }
}

proof fn lemma_average_fits(sum: int, n: int, channels: int)
    requires
        0 < n <= channels,
        -32768 * n <= sum <= 32767 * n,
    ensures
        -32768 <= div_toward_zero(sum, channels) <= 32767,
{
    if sum >= 0 {
        assert(sum / channels <= 32767) by (nonlinear_arith)
            requires
                0 <= sum <= 32767 * n,
                0 < n <= channels,
        ;
        assert(sum / channels >= 0) by (nonlinear_arith)
            requires
                0 <= sum,
                0 < channels,
        ;
    } else {
        assert((-sum) / channels <= 32768) by (nonlinear_arith)
            requires
                0 < -sum <= 32768 * n,
                0 < n <= channels,
        ;
        assert((-sum) / channels >= 0) by (nonlinear_arith)
            requires
                0 < -sum,
                0 < channels,
        ;
    }
}

/// Mono samples from interleaved signed 16-bit frames of `channels` samples.
pub fn downmix_i16(data: &[i16], channels: u16) -> (r: Vec<i16>)
    requires
        channels > 0,
    ensures
        r@ == downmix(data@, channels as nat),
{
    let ch = channels as usize;
    let mut out: Vec<i16> = Vec::new();
    let mut i: usize = 0;
    assert(data@.skip(0) == data@);
    assert(out@ + downmix(data@, ch as nat) == downmix(data@, ch as nat));
    while i < data.len()
        invariant
            ch == channels as usize,
            ch > 0,
            i <= data.len(),
            downmix(data@, ch as nat) == out@ + downmix(data@.skip(i as int), ch as nat),
        decreases data.len() - i,
    {
        let end = if data.len() - i < ch {
            data.len()
        } else {
            i + ch
        };
        let ghost rest = data@.skip(i as int);
        let ghost n = (end - i) as int;
        let mut acc: i32 = 0;
        let mut j = i;
        while j < end
            invariant
                i <= j <= end <= data.len(),
                end - i <= ch,
                ch <= 65535,
                acc == sample_sum(data@.subrange(i as int, j as int)),
            decreases end - j,
        {
            proof {
                lemma_sum_bounds(data@.subrange(i as int, j as int));
                assert(data@.subrange(i as int, j + 1).drop_last() == data@.subrange(
                    i as int,
                    j as int,
                ));
                assert(32768 * (j - i) <= 32768 * 65535) by (nonlinear_arith)
                    requires
                        j - i <= 65535,
                        0 <= j - i,
                ;
            }
            acc = acc + data[j] as i32;
            j = j + 1;
        }
        proof {
            assert(rest.take(n) == data@.subrange(i as int, end as int));
            lemma_sum_bounds(rest.take(n));
            lemma_average_fits(acc as int, n, ch as int);
            assert(rest.skip(n) == data@.skip(end as int));
        }
        let mag: u32 = if acc >= 0 {
            acc as u32
        } else {
            (-acc) as u32
        };
        let q: u32 = mag / (ch as u32);
        let m: i16 = if acc >= 0 {
            q as i16
        } else {
            (-(q as i32)) as i16
        };
        out.push(m);
        assert(out@ + downmix(data@.skip(end as int), ch as nat) == (out@.drop_last() + downmix(
            rest,
            ch as nat,
        )));
        i = end;
    }
    assert(data@.skip(i as int).len() == 0);
    assert(out@ + downmix(data@.skip(i as int), ch as nat) == out@);
    out
}

/// Mono samples from interleaved unsigned 16-bit frames of `channels` samples,
/// each sample first moved to the signed range.
pub fn downmix_u16(data: &[u16], channels: u16) -> (r: Vec<i16>)
    requires
        channels > 0,
    ensures
        r@ == downmix(data@.map_values(|s: u16| centered(s)), channels as nat),
{
    let mut signed: Vec<i16> = Vec::new();
    for k in 0..data.len()
        invariant
            signed@ == data@.take(k as int).map_values(|s: u16| centered(s)),
    {
        let s = data[k];
        let c: i16 = (s as i32 - 32768) as i16;
        signed.push(c);
        assert(data@.take(k + 1).map_values(|s: u16| centered(s)) == data@.take(k as int).map_values(
            |s: u16| centered(s),
        ).push(centered(s)));
    }
    assert(data@.take(data.len() as int) == data@);
    downmix_i16(signed.as_slice(), channels)
}


/// One mono sample per frame: as many samples as there are frames, the last one
/// counted even when cut short.
pub proof fn lemma_downmix_len(data: Seq<i16>, channels: nat)
    requires
        channels > 0,
    ensures
        downmix(data, channels).len() == (data.len() + channels - 1) / (channels as int),
    decreases data.len(),
{
    let c = channels as int;
    if data.len() == 0 {
        assert((c - 1) / c == 0) by (nonlinear_arith)
            requires
                c > 0,
        ;
    } else if data.len() < channels {
        assert(data.skip(data.len() as int).len() == 0);
        let l = data.len() as int;
        assert(downmix(data, channels).len() == 1 + downmix(data.skip(l), channels).len());
        assert((l + c - 1) / c == 1) by (nonlinear_arith)
            requires
                0 < l < c,
        ;
    } else {
        lemma_downmix_len(data.skip(c), channels);
        let l = data.len() as int;
        assert(data.skip(c).len() == l - c);
        assert(downmix(data, channels).len() == 1 + downmix(data.skip(c), channels).len());
        assert((l + c - 1) / c == (l - c + c - 1) / c + 1) by (nonlinear_arith)
            requires
                c <= l,
                c > 0,
        ;
    }
}

/// A frame of `n` copies of the sample `x`.
pub open spec fn same_sample_frame(n: nat, x: i16) -> Seq<i16> {
    Seq::new(n, |i: int| x)
}

proof fn lemma_sum_constant(n: nat, x: i16)
    ensures
        sample_sum(same_sample_frame(n, x)) == n * x,
    decreases n,
{
    let f = same_sample_frame(n, x);
    if n > 0 {
        lemma_sum_constant((n - 1) as nat, x);
        assert(f.drop_last() == same_sample_frame((n - 1) as nat, x));
        assert(f.last() == x);
        assert(n * x == (n - 1) * x + x) by (nonlinear_arith);
    } else {
        assert(f.len() == 0);
    }
}

/// A frame whose channels all carry the same sample downmixes to that sample.
pub proof fn lemma_downmix_same_channels(x: i16, channels: nat)
    requires
        channels > 0,
    ensures
        downmix(same_sample_frame(channels, x), channels) == seq![x],
{
    let data = same_sample_frame(channels, x);
    let c = channels as int;
    lemma_sum_constant(channels, x);
    assert(data.take(c) == data);
    assert(data.skip(c).len() == 0);
    if x >= 0 {
        assert((c * x) / c == x) by (nonlinear_arith)
            requires
                c > 0,
        ;
    } else {
        assert((c * (-x)) / c == -x) by (nonlinear_arith)
            requires
                c > 0,
        ;
        assert(-(c * x) == c * (-x)) by (nonlinear_arith);
    }
    assert(downmix(data, channels) == seq![div_toward_zero(c * x, c) as i16] + downmix(
        data.skip(c),
        channels,
    ));
}

} // verus!
