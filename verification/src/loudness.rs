//! Loudness measurement after ITU-R BS.1770: K-weighting, block powers, and
//! the two gates.
//!
//! The engine works on powers. A power `p` stands for the level
//! `-0.691 + 10 * log10((p + EPSILON_POWER) / FULL_SCALE^2)` LUFS; the level
//! grows with the power, so the loudest block is the block of greatest power,
//! and a level ten decibels below another is a power one tenth of the other.
//! A measure without a level, minus infinity, is `None`.
use vstd::prelude::*;
use crate::constants::{
    ABSOLUTE_GATE_POWER, EPSILON_POWER, K_A1, K_A2, K_B0, K_B1, K_B2, K_HALF, K_ONE, MAX_BLOCKS,
    MAX_POWER, MOMENTARY_BLOCK_SIZE, MOMENTARY_HOP, OUTPUT_LIMIT, RELATIVE_GATE_RATIO,
    SHORT_TERM_BLOCK_SIZE, SHORT_TERM_HOP,
};

verus! {

/// The history of the K-weighting filter on one channel: the last two inputs
/// and the last two outputs.
#[derive(Clone, Copy, Debug)]
pub struct FilterState {
    pub x1: i32,
    pub x2: i32,
    pub y1: i64,
    pub y2: i64,
}

/// `v` kept within the output limit.
pub open spec fn saturate(v: int) -> int {
    if v > OUTPUT_LIMIT {
        OUTPUT_LIMIT as int
    } else if v < -OUTPUT_LIMIT {
        -OUTPUT_LIMIT
    } else {
        v
    }
}

impl FilterState {
    /// The state before any sample: all history zero.
    pub open spec fn fresh() -> FilterState {
        FilterState { x1: 0, x2: 0, y1: 0, y2: 0 }
    }

    /// The outputs in the history are within the output limit.
    pub open spec fn wf(self) -> bool {
        -OUTPUT_LIMIT <= self.y1 <= OUTPUT_LIMIT && -OUTPUT_LIMIT <= self.y2 <= OUTPUT_LIMIT
    }

    /// The filter's output for input `x`: the second-order difference
    /// equation `y = b0 x + b1 x1 + b2 x2 - a1 y1 - a2 y2`, rounded to the
    /// nearest integer and saturated.
    pub open spec fn output(self, x: i32) -> int {
        saturate(
            (K_B0 * x + K_B1 * self.x1 + K_B2 * self.x2 - K_A1 * self.y1 - K_A2 * self.y2 + K_HALF)
                / (K_ONE as int),
        )
    }

    /// The state after input `x`.
    pub open spec fn advance(self, x: i32) -> FilterState {
        FilterState { x1: x, x2: self.x1, y1: self.output(x) as i64, y2: self.y1 }
    }

    pub fn new() -> (s: Self)
        ensures
            s == Self::fresh(),
            s.wf(),
    {
        FilterState { x1: 0, x2: 0, y1: 0, y2: 0 }
    }

    /// Feeds one sample to the filter and returns the filtered sample.
    pub fn step(&mut self, x: i32) -> (y: i64)
        requires
            old(self).wf(),
        ensures
            *final(self) == old(self).advance(x),
            final(self).wf(),
            y == final(self).y1,
            -OUTPUT_LIMIT <= y <= OUTPUT_LIMIT,
    {
        let acc: i128 = K_B0 * (x as i128) + K_B1 * (self.x1 as i128) + K_B2 * (self.x2 as i128)
            - K_A1 * (self.y1 as i128) - K_A2 * (self.y2 as i128) + K_HALF;
        let quotient: i128 = if acc >= 0 {
            acc / K_ONE
        } else {
            -((-acc + (K_ONE - 1)) / K_ONE)
        };
        let y: i64 = if quotient > OUTPUT_LIMIT as i128 {
            OUTPUT_LIMIT
        } else if quotient < -(OUTPUT_LIMIT as i128) {
            -OUTPUT_LIMIT
        } else {
            quotient as i64
        };
        self.x2 = self.x1;
        self.x1 = x;
        self.y2 = self.y1;
        self.y1 = y;
        y
    }
}

/// The sample of channel `ch` in frame `frame` of an interleaved buffer; zero
/// beyond the end of the buffer.
pub open spec fn sample_at(samples: Seq<i32>, channels: int, frame: int, ch: int) -> i32 {
    let at = frame * channels + ch;
    if 0 <= at < samples.len() {
        samples[at]
    } else {
        0
    }
}

/// The state of the filter on channel `ch` after the first `n` frames of the
/// block that begins at frame `start`.
pub open spec fn state_after(samples: Seq<i32>, channels: int, ch: int, start: int, n: int)
    -> FilterState
    decreases n,
{
    if n <= 0 {
        FilterState::fresh()
    } else {
        state_after(samples, channels, ch, start, n - 1).advance(
            sample_at(samples, channels, start + n - 1, ch),
        )
    }
}

/// The sum of the squared filtered samples of channel `ch` over the first `n`
/// frames of the block that begins at frame `start`.
pub open spec fn channel_energy(samples: Seq<i32>, channels: int, ch: int, start: int, n: int)
    -> int
    decreases n,
{
    if n <= 0 {
        0
    } else {
        let y = state_after(samples, channels, ch, start, n).y1;
        channel_energy(samples, channels, ch, start, n - 1) + y * y
    }
}

/// The energy of the first `chs` channels over a block.
pub open spec fn block_total(
    samples: Seq<i32>,
    channels: int,
    start: int,
    block_len: int,
    chs: int,
) -> int
    decreases chs,
{
    if chs <= 0 {
        0
    } else {
        block_total(samples, channels, start, block_len, chs - 1) + channel_energy(
            samples,
            channels,
            chs - 1,
            start,
            block_len,
        )
    }
}

/// The power of a block: the mean square of its K-weighted samples over all
/// channels, rounded down. A block without frames or channels has no power.
pub open spec fn block_power(samples: Seq<i32>, channels: int, start: int, block_len: int) -> int {
    if channels <= 0 || block_len <= 0 {
        0
    } else {
        block_total(samples, channels, start, block_len, channels) / (block_len * channels)
    }
}

/// Every filtered sample is within the output limit.
pub proof fn lemma_state_after_wf(samples: Seq<i32>, channels: int, ch: int, start: int, n: int)
    ensures
        state_after(samples, channels, ch, start, n).wf(),
    decreases n,
{
    if n > 0 {
        lemma_state_after_wf(samples, channels, ch, start, n - 1);
    }
}

/// The square of a filtered sample is at most `MAX_POWER`.
proof fn lemma_square_bound(y: int)
    requires
        -OUTPUT_LIMIT <= y <= OUTPUT_LIMIT,
    ensures
        0 <= y * y <= MAX_POWER,
{
    assert(0 <= y * y <= 4_294_967_296 * 4_294_967_296) by (nonlinear_arith)
        requires
            -4_294_967_296 <= y <= 4_294_967_296,
    ;
}

/// The energy of a channel over `n` frames is at most `n` times `MAX_POWER`.
pub proof fn lemma_channel_energy_bound(
    samples: Seq<i32>,
    channels: int,
    ch: int,
    start: int,
    n: int,
)
    requires
        0 <= n,
    ensures
        0 <= channel_energy(samples, channels, ch, start, n) <= n * MAX_POWER,
    decreases n,
{
    if n > 0 {
        lemma_channel_energy_bound(samples, channels, ch, start, n - 1);
        lemma_state_after_wf(samples, channels, ch, start, n);
        lemma_square_bound(state_after(samples, channels, ch, start, n).y1 as int);
    }
}

/// The energy of `chs` channels over `block_len` frames is at most
/// `chs * block_len` times `MAX_POWER`.
pub proof fn lemma_block_total_bound(
    samples: Seq<i32>,
    channels: int,
    start: int,
    block_len: int,
    chs: int,
)
    requires
        0 <= chs,
        0 <= block_len,
    ensures
        0 <= block_total(samples, channels, start, block_len, chs) <= chs * (block_len
            * MAX_POWER),
    decreases chs,
{
    if chs > 0 {
        lemma_block_total_bound(samples, channels, start, block_len, chs - 1);
        lemma_channel_energy_bound(samples, channels, chs - 1, start, block_len);
        assert(chs * (block_len * MAX_POWER) == (chs - 1) * (block_len * MAX_POWER) + block_len
            * MAX_POWER) by (nonlinear_arith);
    } else {
        assert(chs * (block_len * MAX_POWER) == 0) by (nonlinear_arith)
            requires
                chs == 0,
        ;
    }
}

/// The power of a block is at most `MAX_POWER`.
pub proof fn lemma_block_power_bound(samples: Seq<i32>, channels: int, start: int, block_len: int)
    ensures
        0 <= block_power(samples, channels, start, block_len) <= MAX_POWER,
{
    if channels > 0 && block_len > 0 {
        lemma_block_total_bound(samples, channels, start, block_len, channels);
        let total = block_total(samples, channels, start, block_len, channels);
        let count = block_len * channels;
        assert(count > 0) by (nonlinear_arith)
            requires
                count == block_len * channels,
                block_len > 0,
                channels > 0,
        ;
        assert(channels * (block_len * MAX_POWER) == count * MAX_POWER) by (nonlinear_arith)
            requires
                count == block_len * channels,
        ;
        assert(0 <= total / count <= MAX_POWER) by (nonlinear_arith)
            requires
                0 <= total <= count * MAX_POWER,
                count > 0,
        ;
    }
}

/// The sample of channel `ch` in frame `start + n`, or zero beyond the end of
/// the buffer.
fn read_sample(samples: &[i32], channels: u16, start: usize, n: u32, ch: u16) -> (x: i32)
    ensures
        x == sample_at(samples@, channels as int, start + n, ch as int),
{
    let frame: u128 = start as u128 + n as u128;
    assert(frame * channels <= 0x1_0000_0000_ffff_ffff * 0xffff) by (nonlinear_arith)
        requires
            0 <= frame <= 0x1_0000_0000_ffff_ffff,
            0 <= channels <= 0xffff,
    ;
    let at: u128 = frame * (channels as u128) + ch as u128;
    if at < samples.len() as u128 {
        samples[at as usize]
    } else {
        0
    }
}

/// The power of the block of `block_len` frames that begins at frame `start`
/// of an interleaved buffer with `channels` channels.
pub fn block_energy(samples: &[i32], channels: u16, start: usize, block_len: u32) -> (power: u128)
    ensures
        power == block_power(samples@, channels as int, start as int, block_len as int),
        power <= MAX_POWER,
{
    proof {
        lemma_block_power_bound(samples@, channels as int, start as int, block_len as int);
    }
    if channels == 0 || block_len == 0 {
        return 0;
    }
    let mut total: u128 = 0;
    for ch in 0..channels
        invariant
            total == block_total(
                samples@,
                channels as int,
                start as int,
                block_len as int,
                ch as int,
            ),
            total <= ch * (block_len * MAX_POWER),
    {
        let mut state = FilterState::new();
        let mut sum: u128 = 0;
        for n in 0..block_len
            invariant
                ch < channels,
                state.wf(),
                state == state_after(samples@, channels as int, ch as int, start as int, n as int),
                sum == channel_energy(
                    samples@,
                    channels as int,
                    ch as int,
                    start as int,
                    n as int,
                ),
                sum <= n * MAX_POWER,
        {
            let x = read_sample(samples, channels, start, n, ch);
            let y = state.step(x);
            proof {
                lemma_square_bound(y as int);
            }
            let magnitude: u128 = if y >= 0 {
                y as u128
            } else {
                (-y) as u128
            };
            assert(magnitude * magnitude == y * y) by (nonlinear_arith)
                requires
                    magnitude == y || magnitude == -y,
            ;
            sum = sum + magnitude * magnitude;
        }
        proof {
            lemma_block_total_bound(
                samples@,
                channels as int,
                start as int,
                block_len as int,
                ch as int + 1,
            );
            assert((ch + 1) * (block_len * MAX_POWER) <= 0xffff * (0xffff_ffff * MAX_POWER))
                by (nonlinear_arith)
                requires
                    0 <= ch + 1 <= 0xffff,
                    0 <= block_len <= 0xffff_ffff,
            ;
        }
        total = total + sum;
    }
    assert(block_len * channels > 0) by (nonlinear_arith)
        requires
            block_len > 0,
            channels > 0,
    ;
    assert(block_len * channels <= 0xffff_ffff * 0xffff) by (nonlinear_arith)
        requires
            block_len <= 0xffff_ffff,
            channels <= 0xffff,
    ;
    total / ((block_len as u128) * (channels as u128))
}

/// The number of whole frames in an interleaved buffer.
pub open spec fn frame_count(len: int, channels: int) -> int {
    if channels <= 0 {
        0
    } else {
        len / channels
    }
}

/// The number of blocks of `block_len` frames, `hop` frames apart, that lie
/// wholly within `frames` frames. A buffer shorter than one block holds none.
pub open spec fn block_count(frames: int, block_len: int, hop: int) -> int {
    if block_len <= 0 || hop <= 0 || frames < block_len {
        0
    } else {
        (frames - block_len) / hop + 1
    }
}

/// A block of this power passes the absolute gate: its level is at least
/// -70 LUFS.
pub open spec fn passes_absolute_gate(power: int) -> bool {
    power + EPSILON_POWER >= ABSOLUTE_GATE_POWER
}

/// The powers of those of the first `n` blocks that pass the absolute gate,
/// in the order of the blocks.
pub open spec fn gated_powers(samples: Seq<i32>, channels: int, block_len: int, hop: int, n: int)
    -> Seq<u128>
    decreases n,
{
    if n <= 0 {
        Seq::empty()
    } else {
        let before = gated_powers(samples, channels, block_len, hop, n - 1);
        let power = block_power(samples, channels, (n - 1) * hop, block_len);
        if passes_absolute_gate(power) {
            before.push(power as u128)
        } else {
            before
        }
    }
}

/// All the gated block powers of a buffer for one window and hop.
pub open spec fn measured_powers(samples: Seq<i32>, channels: int, block_len: int, hop: int)
    -> Seq<u128> {
    gated_powers(
        samples,
        channels,
        block_len,
        hop,
        block_count(frame_count(samples.len() as int, channels), block_len, hop),
    )
}

/// A sequence of gated block powers.
pub open spec fn are_gated_powers(gated: Seq<u128>) -> bool {
    forall|i: int|
        0 <= i < gated.len() ==> (#[trigger] gated[i]) <= MAX_POWER && passes_absolute_gate(
            gated[i] as int,
        )
}

/// The gated powers are gated powers, and there are no more of them than
/// blocks.
pub proof fn lemma_gated_powers(samples: Seq<i32>, channels: int, block_len: int, hop: int, n: int)
    requires
        0 <= n,
    ensures
        are_gated_powers(gated_powers(samples, channels, block_len, hop, n)),
        gated_powers(samples, channels, block_len, hop, n).len() <= n,
    decreases n,
{
    if n > 0 {
        lemma_gated_powers(samples, channels, block_len, hop, n - 1);
        lemma_block_power_bound(samples, channels, (n - 1) * hop, block_len);
    }
}

/// The greatest of the first `n` powers; zero when there is none.
pub open spec fn greatest_power(gated: Seq<u128>, n: int) -> u128
    decreases n,
{
    if n <= 0 {
        0
    } else {
        let before = greatest_power(gated, n - 1);
        if gated[n - 1] > before {
            gated[n - 1]
        } else {
            before
        }
    }
}

/// The power of the loudest block; `None` when the gated sequence is empty.
pub open spec fn loudest(gated: Seq<u128>) -> Option<u128> {
    if gated.len() == 0 {
        None
    } else {
        Some(greatest_power(gated, gated.len() as int))
    }
}

/// The greatest power is at least every power, and is one of them.
pub proof fn lemma_greatest_power(gated: Seq<u128>, n: int)
    requires
        0 <= n <= gated.len(),
    ensures
        forall|i: int| 0 <= i < n ==> gated[i] <= greatest_power(gated, n),
        n > 0 ==> exists|i: int| 0 <= i < n && gated[i] == greatest_power(gated, n),
    decreases n,
{
    if n > 0 {
        lemma_greatest_power(gated, n - 1);
        if n > 1 {
            let i = choose|i: int| 0 <= i < n - 1 && gated[i] == greatest_power(gated, n - 1);
            if gated[n - 1] > greatest_power(gated, n - 1) {
                assert(gated[n - 1] == greatest_power(gated, n));
            } else {
                assert(gated[i] == greatest_power(gated, n));
            }
        } else {
            assert(gated[0] == greatest_power(gated, n));
        }
    }
}

/// The sum of the first `n` powers, each with `EPSILON_POWER` added.
pub open spec fn power_sum(gated: Seq<u128>, n: int) -> int
    decreases n,
{
    if n <= 0 {
        0
    } else {
        power_sum(gated, n - 1) + gated[n - 1] + EPSILON_POWER
    }
}

/// A block of this power passes the relative gate of a gated sequence: its
/// level is at least the preliminary level less ten decibels. The
/// preliminary level is the level of the mean power of the sequence; in
/// powers the block must reach one tenth of that mean.
pub open spec fn passes_relative_gate(gated: Seq<u128>, power: int) -> bool {
    RELATIVE_GATE_RATIO * gated.len() * (power + EPSILON_POWER) >= power_sum(
        gated,
        gated.len() as int,
    )
}

/// The sum of those of the first `n` powers that pass the relative gate.
pub open spec fn survivor_sum(gated: Seq<u128>, n: int) -> int
    decreases n,
{
    if n <= 0 {
        0
    } else if passes_relative_gate(gated, gated[n - 1] as int) {
        survivor_sum(gated, n - 1) + gated[n - 1]
    } else {
        survivor_sum(gated, n - 1)
    }
}

/// The number of the first `n` powers that pass the relative gate.
pub open spec fn survivor_count(gated: Seq<u128>, n: int) -> int
    decreases n,
{
    if n <= 0 {
        0
    } else if passes_relative_gate(gated, gated[n - 1] as int) {
        survivor_count(gated, n - 1) + 1
    } else {
        survivor_count(gated, n - 1)
    }
}

/// The integrated power of a gated sequence: the mean, rounded down, of the
/// powers that pass the relative gate; `None` when none does.
pub open spec fn integrated(gated: Seq<u128>) -> Option<u128> {
    let count = survivor_count(gated, gated.len() as int);
    if count <= 0 {
        None
    } else {
        Some((survivor_sum(gated, gated.len() as int) / count) as u128)
    }
}

/// The three loudness measures of a buffer, as powers, and the number of
/// momentary blocks that the absolute gate let through.
#[derive(Clone, Copy, Debug)]
pub struct LoudnessResult {
    pub momentary: Option<u128>,
    pub short_term: Option<u128>,
    pub integrated: Option<u128>,
    pub gated_blocks: usize,
}

/// The loudness of a buffer: the loudest momentary block, the loudest
/// short-term block, and the integrated power of the momentary blocks.
pub open spec fn loudness_of(samples: Seq<i32>, channels: int) -> LoudnessResult {
    let momentary = measured_powers(
        samples,
        channels,
        MOMENTARY_BLOCK_SIZE as int,
        MOMENTARY_HOP as int,
    );
    let short_term = measured_powers(
        samples,
        channels,
        SHORT_TERM_BLOCK_SIZE as int,
        SHORT_TERM_HOP as int,
    );
    LoudnessResult {
        momentary: loudest(momentary),
        short_term: loudest(short_term),
        integrated: integrated(momentary),
        gated_blocks: momentary.len() as usize,
    }
}

/// The gated powers of the blocks of one window and hop, in temporal order.
pub fn measure_blocks(samples: &[i32], channels: u16, block_len: u32, hop: u32) -> (gated: Vec<
    u128,
>)
    ensures
        gated@ == measured_powers(samples@, channels as int, block_len as int, hop as int),
        are_gated_powers(gated@),
        gated@.len() <= block_count(
            frame_count(samples@.len() as int, channels as int),
            block_len as int,
            hop as int,
        ),
{
    let mut gated: Vec<u128> = Vec::new();
    if channels == 0 || block_len == 0 || hop == 0 {
        return gated;
    }
    let frames: usize = samples.len() / (channels as usize);
    if frames < block_len as usize {
        return gated;
    }
    let room: usize = frames - block_len as usize;
    let count: usize = room / (hop as usize) + 1;
    let mut k: usize = 0;
    while k < count
        invariant
            k <= count,
            hop > 0,
            count == room / (hop as usize) + 1,
            gated@ == gated_powers(
                samples@,
                channels as int,
                block_len as int,
                hop as int,
                k as int,
            ),
        decreases count - k,
    {
        assert(k * hop <= room) by (nonlinear_arith)
            requires
                0 <= k <= room / (hop as usize),
                hop > 0,
        ;
        let start: usize = k * (hop as usize);
        let power = block_energy(samples, channels, start, block_len);
        if power + EPSILON_POWER >= ABSOLUTE_GATE_POWER {
            gated.push(power);
        }
        k = k + 1;
    }
    proof {
        lemma_gated_powers(
            samples@,
            channels as int,
            block_len as int,
            hop as int,
            count as int,
        );
    }
    gated
}

/// The power of the loudest block.
pub fn max_power(gated: &[u128]) -> (top: Option<u128>)
    ensures
        top == loudest(gated@),
        top is None <==> gated@.len() == 0,
        top matches Some(p) ==> gated@.contains(p) && forall|i: int|
            0 <= i < gated@.len() ==> gated@[i] <= p,
{
    if gated.len() == 0 {
        return None;
    }
    let mut best: u128 = 0;
    for i in 0..gated.len()
        invariant
            best == greatest_power(gated@, i as int),
    {
        if gated[i] > best {
            best = gated[i];
        }
    }
    proof {
        lemma_greatest_power(gated@, gated@.len() as int);
    }
    Some(best)
}

/// The integrated power of a sequence of gated block powers.
pub fn integrated_power(gated: &[u128]) -> (mean: Option<u128>)
    requires
        are_gated_powers(gated@),
        gated@.len() <= MAX_BLOCKS,
    ensures
        mean == integrated(gated@),
        mean matches Some(p) ==> p <= MAX_POWER,
{
    let n = gated.len();
    let mut total: u128 = 0;
    for i in 0..n
        invariant
            n == gated@.len(),
            n <= MAX_BLOCKS,
            are_gated_powers(gated@),
            total == power_sum(gated@, i as int),
            total <= i * 18_446_744_073_709_558_653,
    {
        assert(gated@[i as int] <= MAX_POWER);
        total = total + gated[i] + EPSILON_POWER;
    }
    let mut sum: u128 = 0;
    let mut count: u128 = 0;
    for i in 0..n
        invariant
            n == gated@.len(),
            n <= MAX_BLOCKS,
            are_gated_powers(gated@),
            total == power_sum(gated@, n as int),
            sum == survivor_sum(gated@, i as int),
            count == survivor_count(gated@, i as int),
            count <= i,
            sum <= count * 18_446_744_073_709_551_616,
    {
        let power = gated[i];
        assert(power <= MAX_POWER);
        assert(n * (power + EPSILON_POWER) <= 4_503_599_627_370_496 * (MAX_POWER + EPSILON_POWER))
            by (nonlinear_arith)
            requires
                0 <= n <= 4_503_599_627_370_496,
                0 <= power + EPSILON_POWER <= MAX_POWER + EPSILON_POWER,
        ;
        let level: u128 = RELATIVE_GATE_RATIO * ((n as u128) * (power + EPSILON_POWER));
        assert(level == RELATIVE_GATE_RATIO * n * (power + EPSILON_POWER)) by (nonlinear_arith)
            requires
                level == RELATIVE_GATE_RATIO * (n * (power + EPSILON_POWER)),
        ;
        if level >= total {
            sum = sum + power;
            count = count + 1;
        }
    }
    if count == 0 {
        None
    } else {
        assert((sum as int) / (count as int) <= 18_446_744_073_709_551_616) by (nonlinear_arith)
            requires
                0 <= sum <= count * 18_446_744_073_709_551_616,
                count > 0,
        ;
        Some(sum / count)
    }
}

/// There are no more blocks than frames per hop, and one.
pub proof fn lemma_block_count_bound(len: int, channels: int, block_len: int, hop: int)
    requires
        0 <= len,
        0 < hop,
    ensures
        0 <= block_count(frame_count(len, channels), block_len, hop) <= len / hop + 1,
{
    let frames = frame_count(len, channels);
    if channels > 0 {
        vstd::arithmetic::div_mod::lemma_div_nonincreasing(len, channels);
        vstd::arithmetic::div_mod::lemma_div_pos_is_pos(len, channels);
    }
    if block_len > 0 && frames >= block_len {
        vstd::arithmetic::div_mod::lemma_div_is_ordered(frames - block_len, len, hop);
        vstd::arithmetic::div_mod::lemma_div_pos_is_pos(frames - block_len, hop);
    } else {
        vstd::arithmetic::div_mod::lemma_div_pos_is_pos(len, hop);
    }
}

/// However long the buffer, its momentary blocks can be integrated.
proof fn lemma_momentary_blocks_fit(samples: Seq<i32>, channels: int)
    requires
        samples.len() <= usize::MAX,
    ensures
        measured_powers(
            samples,
            channels,
            MOMENTARY_BLOCK_SIZE as int,
            MOMENTARY_HOP as int,
        ).len() <= MAX_BLOCKS,
{
    let len = samples.len() as int;
    let count = block_count(
        frame_count(len, channels),
        MOMENTARY_BLOCK_SIZE as int,
        MOMENTARY_HOP as int,
    );
    lemma_block_count_bound(len, channels, MOMENTARY_BLOCK_SIZE as int, MOMENTARY_HOP as int);
    lemma_gated_powers(samples, channels, MOMENTARY_BLOCK_SIZE as int, MOMENTARY_HOP as int, count);
    assert(len / 4410 + 1 <= MAX_BLOCKS);
}

/// The loudness analyzer for interleaved buffers of a fixed channel count.
pub struct LoudnessAnalyzer {
    pub channels: u16,
}

impl LoudnessAnalyzer {
    pub fn new(channels: u16) -> (a: Self)
        ensures
            a.channels == channels,
    {
        LoudnessAnalyzer { channels }
    }

    /// Measures the loudness of a buffer.
    pub fn analyze(&self, samples: &[i32]) -> (result: LoudnessResult)
        ensures
            result == loudness_of(samples@, self.channels as int),
    {
        let momentary = measure_blocks(
            samples,
            self.channels,
            MOMENTARY_BLOCK_SIZE,
            MOMENTARY_HOP,
        );
        let short_term = measure_blocks(
            samples,
            self.channels,
            SHORT_TERM_BLOCK_SIZE,
            SHORT_TERM_HOP,
        );
        let gated_blocks = momentary.len();
        let length = samples.len();
        proof {
            assert(samples@.len() == length);
            lemma_momentary_blocks_fit(samples@, self.channels as int);
        }
        let loudest_momentary = max_power(momentary.as_slice());
        let loudest_short_term = max_power(short_term.as_slice());
        let integrated = integrated_power(momentary.as_slice());
        LoudnessResult {
            momentary: loudest_momentary,
            short_term: loudest_short_term,
            integrated,
            gated_blocks,
        }
    }
}

/// Every sample of the buffer is digital zero.
pub open spec fn is_silent(samples: Seq<i32>) -> bool {
    forall|i: int| 0 <= i < samples.len() ==> samples[i] == 0
}

/// On silence the filter stays at rest and no energy accumulates.
pub proof fn lemma_silent_channel(samples: Seq<i32>, channels: int, ch: int, start: int, n: int)
    requires
        is_silent(samples),
    ensures
        state_after(samples, channels, ch, start, n) == FilterState::fresh(),
        channel_energy(samples, channels, ch, start, n) == 0,
    decreases n,
{
    if n > 0 {
        lemma_silent_channel(samples, channels, ch, start, n - 1);
        assert(sample_at(samples, channels, start + n - 1, ch) == 0);
    }
}

/// A block of silence has no power.
pub proof fn lemma_silent_block(samples: Seq<i32>, channels: int, start: int, block_len: int)
    requires
        is_silent(samples),
    ensures
        block_power(samples, channels, start, block_len) == 0,
{
    if channels > 0 && block_len > 0 {
        lemma_silent_total(samples, channels, start, block_len, channels);
        let count = block_len * channels;
        assert(count > 0) by (nonlinear_arith)
            requires
                count == block_len * channels,
                block_len > 0,
                channels > 0,
        ;
        assert(0int / count == 0) by (nonlinear_arith)
            requires
                count > 0,
        ;
    }
}

proof fn lemma_silent_total(samples: Seq<i32>, channels: int, start: int, block_len: int, chs: int)
    requires
        is_silent(samples),
    ensures
        block_total(samples, channels, start, block_len, chs) == 0,
    decreases chs,
{
    if chs > 0 {
        lemma_silent_total(samples, channels, start, block_len, chs - 1);
        lemma_silent_channel(samples, channels, chs - 1, start, block_len);
    }
}

/// No block of silence passes the absolute gate.
pub proof fn lemma_silent_blocks_are_gated_out(
    samples: Seq<i32>,
    channels: int,
    block_len: int,
    hop: int,
    n: int,
)
    requires
        is_silent(samples),
    ensures
        gated_powers(samples, channels, block_len, hop, n) == Seq::<u128>::empty(),
    decreases n,
{
    if n > 0 {
        lemma_silent_blocks_are_gated_out(samples, channels, block_len, hop, n - 1);
        lemma_silent_block(samples, channels, (n - 1) * hop, block_len);
    }
}

/// Silence has no loudness: the momentary, short-term and integrated
/// measures are all minus infinity, and no block passes the absolute gate.
pub proof fn lemma_silence_has_no_loudness(samples: Seq<i32>, channels: int)
    requires
        is_silent(samples),
    ensures
        loudness_of(samples, channels) == (LoudnessResult {
            momentary: None,
            short_term: None,
            integrated: None,
            gated_blocks: 0,
        }),
{
    let frames = frame_count(samples.len() as int, channels);
    lemma_silent_blocks_are_gated_out(
        samples,
        channels,
        MOMENTARY_BLOCK_SIZE as int,
        MOMENTARY_HOP as int,
        block_count(frames, MOMENTARY_BLOCK_SIZE as int, MOMENTARY_HOP as int),
    );
    lemma_silent_blocks_are_gated_out(
        samples,
        channels,
        SHORT_TERM_BLOCK_SIZE as int,
        SHORT_TERM_HOP as int,
        block_count(frames, SHORT_TERM_BLOCK_SIZE as int, SHORT_TERM_HOP as int),
    );
}

/// The preliminary power of a gated sequence, as a fraction: the mean of its
/// powers, each with `EPSILON_POWER` added.
pub open spec fn preliminary_power(gated: Seq<u128>) -> (int, int) {
    (power_sum(gated, gated.len() as int), gated.len() as int)
}

/// The power of the relative gate, as a fraction.
pub open spec fn relative_threshold(gated: Seq<u128>) -> (int, int) {
    (power_sum(gated, gated.len() as int), RELATIVE_GATE_RATIO * gated.len())
}

/// The relative gate lies exactly ten decibels below the preliminary level:
/// its power is one tenth of the preliminary power, and a block stays when
/// its power, with `EPSILON_POWER` added, reaches it.
pub proof fn lemma_relative_gate_below_preliminary(gated: Seq<u128>, power: int)
    requires
        gated.len() > 0,
    ensures
        relative_threshold(gated).0 == preliminary_power(gated).0,
        relative_threshold(gated).1 == 10 * preliminary_power(gated).1,
        relative_threshold(gated).1 > 0,
        passes_relative_gate(gated, power) <==> (power + EPSILON_POWER) * relative_threshold(
            gated,
        ).1 >= relative_threshold(gated).0,
{
    let n = gated.len() as int;
    assert((power + EPSILON_POWER) * (RELATIVE_GATE_RATIO * n) == RELATIVE_GATE_RATIO * n * (power
        + EPSILON_POWER)) by (nonlinear_arith);
}

/// The sum of the first `n` powers with their epsilons is at most `n` times
/// a bound on the powers with its epsilon.
proof fn lemma_power_sum_under(gated: Seq<u128>, bound: int, n: int)
    requires
        0 <= n <= gated.len(),
        forall|i: int| 0 <= i < n ==> gated[i] <= bound,
    ensures
        power_sum(gated, n) <= n * (bound + EPSILON_POWER),
    decreases n,
{
    if n > 0 {
        lemma_power_sum_under(gated, bound, n - 1);
        assert(n * (bound + EPSILON_POWER) == (n - 1) * (bound + EPSILON_POWER) + (bound
            + EPSILON_POWER)) by (nonlinear_arith);
    } else {
        assert(n * (bound + EPSILON_POWER) == 0) by (nonlinear_arith)
            requires
                n == 0,
        ;
    }
}

/// A block that stays counts among the survivors.
proof fn lemma_survivor_counted(gated: Seq<u128>, i: int, n: int)
    requires
        0 <= i < n <= gated.len(),
        passes_relative_gate(gated, gated[i] as int),
    ensures
        survivor_count(gated, n) >= 1,
        survivor_count(gated, i) >= 0,
    decreases n,
{
    lemma_survivor_count_nonnegative(gated, i);
    if n - 1 > i {
        lemma_survivor_counted(gated, i, n - 1);
    } else {
        lemma_survivor_count_nonnegative(gated, n - 1);
    }
}

proof fn lemma_survivor_count_nonnegative(gated: Seq<u128>, n: int)
    ensures
        survivor_count(gated, n) >= 0,
    decreases n,
{
    if n > 0 {
        lemma_survivor_count_nonnegative(gated, n - 1);
    }
}

/// The relative gate never removes the loudest block, so a recording has an
/// integrated loudness exactly when a block of it passes the absolute gate.
pub proof fn lemma_integrated_exists(gated: Seq<u128>)
    ensures
        integrated(gated) is Some <==> gated.len() > 0,
        gated.len() > 0 ==> passes_relative_gate(
            gated,
            greatest_power(gated, gated.len() as int) as int,
        ),
{
    let n = gated.len() as int;
    if n > 0 {
        lemma_greatest_power(gated, n);
        let top = greatest_power(gated, n) as int;
        let i = choose|i: int| 0 <= i < n && gated[i] == greatest_power(gated, n);
        lemma_power_sum_under(gated, top, n);
        assert(RELATIVE_GATE_RATIO * n * (top + EPSILON_POWER) >= n * (top + EPSILON_POWER))
            by (nonlinear_arith)
            requires
                n > 0,
                top + EPSILON_POWER >= 0,
                RELATIVE_GATE_RATIO == 10,
        ;
        lemma_survivor_counted(gated, i, n);
    }
}

} // verus!
