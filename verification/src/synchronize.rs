//! The resynchronization pipeline: turning decoded image samples into a
//! fresh (grid, pixel list) pair, swapping it into the live canvas state as
//! one unit, and scheduling the next refresh on jittered period boundaries.

use crate::utils::Color;
use crate::utils::HEIGHT;
use crate::utils::Pixel;
use crate::utils::PixelMap;
use crate::utils::Task;
use crate::utils::WIDTH;
use crate::utils::create_empty_map_on_heap;
use crate::utils::pair_wf;
use vstd::arithmetic::div_mod::lemma_fundamental_div_mod;
use vstd::arithmetic::div_mod::lemma_mod_bound;
use vstd::arithmetic::mul::lemma_mul_inequality;
use vstd::arithmetic::mul::lemma_mul_is_distributive_add_other_way;
use vstd::prelude::*;

verus! {

/// Pixels whose alpha lies below this threshold are treated as absent.
pub const ALPHA_THRESHOLD: u8 = 128;

/// One decoded image sample: a coordinate and its RGBA value.
#[derive(Debug, Clone, Copy, PartialEq, Eq, Structural)]
pub struct Sample {
    pub x: u32,
    pub y: u32,
    pub r: u8,
    pub g: u8,
    pub b: u8,
    pub a: u8,
}

/// A sample is kept on the canvas only when it is sufficiently opaque.
pub open spec fn spec_opaque(s: Sample) -> bool {
    s.a >= ALPHA_THRESHOLD
}

/// The color a sample contributes.
pub open spec fn spec_color_of(s: Sample) -> Color {
    Color(s.r, s.g, s.b)
}

/// The coordinate a sample contributes.
pub open spec fn spec_pixel_of(s: Sample) -> Pixel {
    Pixel(s.x as u16, s.y as u16)
}

/// A full decoded frame of the canvas size: one sample per coordinate, rows
/// first, x varying fastest, so sample `k` sits at (k % w, k / w).
pub open spec fn samples_wf(w: int, h: int, s: Seq<Sample>) -> bool {
    s.len() == w * h && forall|k: int|
        0 <= k < s.len() ==> (#[trigger] s[k]).x == k % w && s[k].y == k / w
}

/// What the image decoder yields for given bytes: the dimensions and the
/// samples, or nothing for bytes it rejects. Decoding depends on the bytes
/// alone.
pub uninterp spec fn decoded_of(bytes: Seq<u8>) -> Option<(u32, u32, Seq<Sample>)>;

/// Relies on image's `load_from_memory` and `GenericImageView::pixels`: the
/// decoded dimensions and samples are a function of the bytes alone, and the
/// pixel iterator yields every coordinate of the image once, rows first with
/// x varying fastest.
#[verifier::external_body]
fn decode_image(bytes: &Vec<u8>) -> (r: Option<(u32, u32, Vec<Sample>)>)
    ensures
        match r {
            Option::None => decoded_of(bytes@) is None,
            Option::Some((w, h, samples)) => decoded_of(bytes@) == Some((w, h, samples@)) && ((w
                == WIDTH && h == HEIGHT) ==> samples_wf(WIDTH as int, HEIGHT as int, samples@)),
        },
{
    match image::load_from_memory(bytes.as_slice()) {
        Ok(img) => {
            let (w, h) = image::GenericImageView::dimensions(&img);
            let samples = image::GenericImageView::pixels(&img).map(
                |(x, y, p): (u32, u32, image::Rgba<u8>)|
                    Sample { x, y, r: p.0[0], g: p.0[1], b: p.0[2], a: p.0[3] },
            ).collect();
            Some((w, h, samples))
        },
        Err(_) => None,
    }
}

/// The cell a full frame defines for coordinate (x, y): the sample's color
/// where it is opaque, unset otherwise.
pub open spec fn spec_cell(s: Seq<Sample>, x: int, y: int) -> Option<Color> {
    let smp = s[y * (WIDTH as int) + x];
    if spec_opaque(smp) {
        Some(spec_color_of(smp))
    } else {
        None
    }
}

/// The coordinates a full frame contributes, in sample order: exactly the
/// sufficiently opaque ones.
pub open spec fn spec_pixel_list(s: Seq<Sample>) -> Seq<Pixel>
    decreases s.len(),
{
    if s.len() == 0 {
        Seq::empty()
    } else if spec_opaque(s.last()) {
        spec_pixel_list(s.drop_last()).push(spec_pixel_of(s.last()))
    } else {
        spec_pixel_list(s.drop_last())
    }
}

/// A coordinate is listed exactly when some opaque sample contributes it.
pub proof fn lemma_pixel_list_membership(s: Seq<Sample>, p: Pixel)
    ensures
        spec_pixel_list(s).contains(p) <==> (exists|k: int|
            0 <= k < s.len() && spec_opaque(#[trigger] s[k]) && p == spec_pixel_of(s[k])),
    decreases s.len(),
{
    if s.len() == 0 {
    } else {
        let pre = s.drop_last();
        lemma_pixel_list_membership(pre, p);
        assert(forall|k: int| 0 <= k < pre.len() ==> pre[k] == #[trigger] s[k]);
        assert(s.last() == s[s.len() - 1]);
        if spec_opaque(s.last()) {
            let l = spec_pixel_list(pre);
            assert(spec_pixel_list(s) == l.push(spec_pixel_of(s.last())));
            assert(l.push(spec_pixel_of(s.last()))[l.len() as int] == spec_pixel_of(s.last()));
            if l.contains(p) {
                let i = choose|i: int| 0 <= i < l.len() && l[i] == p;
                assert(l.push(spec_pixel_of(s.last()))[i] == p);
                assert(spec_pixel_list(s).contains(p));
            }
            if p == spec_pixel_of(s.last()) {
                assert(spec_pixel_list(s).contains(p));
            }
            if spec_pixel_list(s).contains(p) {
                let i = choose|i: int| 0 <= i < spec_pixel_list(s).len() && spec_pixel_list(s)[i]
                    == p;
                if i < l.len() {
                    assert(l[i] == p);
                    assert(l.contains(p));
                } else {
                    assert(p == spec_pixel_of(s.last()));
                }
            }
        }
    }
}

/// A frame with every sample opaque lists every coordinate.
pub proof fn lemma_pixel_list_full(s: Seq<Sample>)
    requires
        forall|k: int| 0 <= k < s.len() ==> spec_opaque(#[trigger] s[k]),
    ensures
        spec_pixel_list(s).len() == s.len(),
    decreases s.len(),
{
    if s.len() > 0 {
        assert(forall|k: int| 0 <= k < s.drop_last().len() ==> s.drop_last()[k] == #[trigger] s[k]);
        lemma_pixel_list_full(s.drop_last());
    }
}

/// A frame with every sample opaque colors every cell of the grid.
pub proof fn lemma_opaque_frame_fills_grid(s: Seq<Sample>, x: int, y: int)
    requires
        samples_wf(WIDTH as int, HEIGHT as int, s),
        forall|k: int| 0 <= k < s.len() ==> spec_opaque(#[trigger] s[k]),
        0 <= x < WIDTH,
        0 <= y < HEIGHT,
    ensures
        spec_cell(s, x, y) is Some,
{
    lemma_mul_inequality(y + 1, HEIGHT as int, WIDTH as int);
    lemma_mul_is_distributive_add_other_way(WIDTH as int, y, 1);
}

/// Distinct in-range coordinates come from distinct samples of a full frame.
proof fn lemma_sample_index_injective(a: int, b: int, x: int, y: int)
    requires
        0 <= a < WIDTH,
        0 <= b < HEIGHT,
        0 <= x < WIDTH,
        0 <= y < HEIGHT,
        a != x || b != y,
    ensures
        b * (WIDTH as int) + a != y * (WIDTH as int) + x,
{
    if b < y {
        lemma_mul_inequality(b + 1, y, WIDTH as int);
        lemma_mul_is_distributive_add_other_way(WIDTH as int, b, 1);
    } else if y < b {
        lemma_mul_inequality(y + 1, b, WIDTH as int);
        lemma_mul_is_distributive_add_other_way(WIDTH as int, y, 1);
    }
}

/// Sample `k` of a full frame has in-range coordinates whose row-major index
/// is `k` itself.
proof fn lemma_sample_coords(s: Seq<Sample>, k: int)
    requires
        samples_wf(WIDTH as int, HEIGHT as int, s),
        0 <= k < s.len(),
    ensures
        0 <= s[k].x < WIDTH,
        0 <= s[k].y < HEIGHT,
        (s[k].y as int) * (WIDTH as int) + s[k].x == k,
{
    lemma_mod_bound(k, WIDTH as int);
    lemma_fundamental_div_mod(k, WIDTH as int);
    if k / (WIDTH as int) >= HEIGHT {
        lemma_mul_inequality(HEIGHT as int, k / (WIDTH as int), WIDTH as int);
    }
}

/// Builds the (grid, pixel list) pair that a full decoded frame defines:
/// every sufficiently opaque sample colors its cell and is listed, every
/// other coordinate stays unset and unlisted. The list is in sample order;
/// shuffling it is the caller's business.
pub fn parse_samples(samples: &Vec<Sample>) -> (r: (PixelMap, Vec<Pixel>))
    requires
        samples_wf(WIDTH as int, HEIGHT as int, samples@),
    ensures
        pair_wf(r.0, r.1@),
        r.1@ == spec_pixel_list(samples@),
        forall|x: int, y: int|
            0 <= x < WIDTH && 0 <= y < HEIGHT ==> r.0.spec_at(x, y) == spec_cell(samples@, x, y),
{
    let mut map = create_empty_map_on_heap();
    let mut list: Vec<Pixel> = Vec::new();
    let n = samples.len();
    let mut k: usize = 0;
    while k < n
        invariant
            k <= n,
            n == samples@.len(),
            samples_wf(WIDTH as int, HEIGHT as int, samples@),
            map.wf(),
            list@ == spec_pixel_list(samples@.take(k as int)),
            forall|x: int, y: int|
                0 <= x < WIDTH && 0 <= y < HEIGHT ==> #[trigger] map.spec_at(x, y) == (if y * (
                WIDTH as int) + x < k {
                    spec_cell(samples@, x, y)
                } else {
                    Option::<Color>::None
                }),
        decreases n - k,
    {
        let ghost pre = samples@.take(k as int);
        proof {
            lemma_sample_coords(samples@, k as int);
        }
        let smp = samples[k];
        let x16 = smp.x as u16;
        let y16 = smp.y as u16;
        if smp.a >= ALPHA_THRESHOLD {
            map.put(x16, y16, Some(Color(smp.r, smp.g, smp.b)));
            list.push(Pixel(x16, y16));
        }
        k = k + 1;
        proof {
            assert(samples@.take(k as int).drop_last() =~= pre);
            assert(samples@.take(k as int).last() == samples@[k - 1]);
            assert forall|x: int, y: int|
                0 <= x < WIDTH && 0 <= y < HEIGHT implies #[trigger] map.spec_at(x, y) == (if y * (
            WIDTH as int) + x < k {
                spec_cell(samples@, x, y)
            } else {
                Option::<Color>::None
            }) by {
                if x == smp.x as int && y == smp.y as int {
                } else {
                    lemma_sample_index_injective(x, y, smp.x as int, smp.y as int);
                }
            }
        }
    }
    proof {
        assert(samples@.take(n as int) =~= samples@);
        assert forall|i: int| 0 <= i < list@.len() implies (#[trigger] list@[i]).in_bounds()
            && map.spec_at(list@[i].0 as int, list@[i].1 as int) is Some by {
            let p = list@[i];
            assert(spec_pixel_list(samples@).contains(p));
            lemma_pixel_list_membership(samples@, p);
            let j = choose|j: int|
                0 <= j < samples@.len() && spec_opaque(#[trigger] samples@[j]) && p
                    == spec_pixel_of(samples@[j]);
            lemma_sample_coords(samples@, j);
        }
    }
    (map, list)
}

/// Relies on rand's `SliceRandom::shuffle` with `thread_rng`: it permutes
/// the elements in place, whatever values the generator draws.
#[verifier::external_body]
fn shuffle_pixels(list: &mut Vec<Pixel>)
    ensures
        final(list)@.len() == old(list)@.len(),
        final(list)@.to_multiset() == old(list)@.to_multiset(),
{
    rand::seq::SliceRandom::shuffle(list.as_mut_slice(), &mut rand::thread_rng());
}

/// How one resynchronization cycle ended.
#[derive(Debug, Clone, Copy, PartialEq, Eq, Structural)]
pub enum SyncOutcome {
    /// A fresh pair was swapped in.
    Swapped,
    /// The fetch collaborator produced nothing; the canvas is untouched.
    FetchFailed,
    /// The bytes could not be decoded; the canvas is untouched.
    DecodeFailed,
    /// The image is not canvas-sized; the canvas is untouched.
    DimensionMismatch,
}

/// Runs the compute part of one resynchronization cycle on the fetched
/// bytes, if any: decode, check dimensions, build the new pair, shuffle the
/// list, and swap the pair in as one unit. Any failure leaves the previous
/// canvas exactly as it was.
pub fn apply_sync(task: &mut Task, fetched: Option<Vec<u8>>) -> (r: SyncOutcome)
    requires
        old(task).wf(),
    ensures
        final(task).wf(),
        match r {
            SyncOutcome::FetchFailed => fetched is None && final(task).map == old(task).map && final(task).data_pixels == old(task).data_pixels,
            SyncOutcome::DecodeFailed => fetched matches Some(b) && decoded_of(b@) is None && final(task).map == old(task).map && final(task).data_pixels == old(task).data_pixels,
            SyncOutcome::DimensionMismatch => fetched matches Some(b) && decoded_of(b@) matches Some(
                (w, h, _s),
            ) && !(w == WIDTH && h == HEIGHT) && final(task).map == old(task).map && final(task).data_pixels == old(task).data_pixels,
            SyncOutcome::Swapped => fetched matches Some(b) && decoded_of(b@) matches Some(
                (w, h, s),
            ) && w == WIDTH && h == HEIGHT && (forall|x: int, y: int|
                0 <= x < WIDTH && 0 <= y < HEIGHT ==> #[trigger] final(task).map.spec_at(x, y)
                    == spec_cell(s, x, y)) && final(task).data_pixels@.to_multiset()
                == spec_pixel_list(s).to_multiset(),
        },
{
    let bytes = match fetched {
        Option::None => {
            return SyncOutcome::FetchFailed;
        },
        Option::Some(b) => b,
    };
    match decode_image(&bytes) {
        Option::None => SyncOutcome::DecodeFailed,
        Option::Some((w, h, samples)) => {
            if !(w == WIDTH as u32 && h == HEIGHT as u32) {
                SyncOutcome::DimensionMismatch
            } else {
                let (new_map, mut new_list) = parse_samples(&samples);
                let ghost ordered = new_list@;
                shuffle_pixels(&mut new_list);
                proof {
                    broadcast use vstd::seq_lib::group_to_multiset_ensures;

                    assert forall|i: int|
                        0 <= i < new_list@.len() implies (#[trigger] new_list@[i]).in_bounds()
                        && new_map.spec_at(
                        new_list@[i].0 as int,
                        new_list@[i].1 as int,
                    ) is Some by {
                        let p = new_list@[i];
                        assert(new_list@.contains(p));
                        assert(ordered.to_multiset().count(p) > 0);
                        assert(ordered.contains(p));
                        let j = choose|j: int| 0 <= j < ordered.len() && ordered[j] == p;
                        assert((#[trigger] ordered[j]).in_bounds() && new_map.spec_at(
                            ordered[j].0 as int,
                            ordered[j].1 as int,
                        ) is Some);
                    }
                }
                task.replace(new_map, new_list);
                SyncOutcome::Swapped
            }
        },
    }
}

/// Two loads of the identical frame list the same coordinate set, however
/// each load's independent shuffle ordered its list.
pub proof fn lemma_same_frame_same_pixel_set(s: Seq<Sample>, l1: Seq<Pixel>, l2: Seq<Pixel>)
    requires
        l1.to_multiset() == spec_pixel_list(s).to_multiset(),
        l2.to_multiset() == spec_pixel_list(s).to_multiset(),
    ensures
        l1.to_set() == l2.to_set(),
{
    broadcast use vstd::seq_lib::group_to_multiset_ensures;

    assert forall|p: Pixel| l1.to_set().contains(p) implies l2.to_set().contains(p) by {
        assert(l1.contains(p));
        assert(l2.to_multiset().count(p) > 0);
    }
    assert forall|p: Pixel| l2.to_set().contains(p) implies l1.to_set().contains(p) by {
        assert(l2.contains(p));
        assert(l1.to_multiset().count(p) > 0);
    }
    assert(l1.to_set() =~= l2.to_set());
}

/// A sample below the alpha threshold leaves its coordinate unlisted and its
/// cell unset.
pub proof fn lemma_translucent_sample_excluded(s: Seq<Sample>, k: int)
    requires
        samples_wf(WIDTH as int, HEIGHT as int, s),
        0 <= k < s.len(),
        !spec_opaque(s[k]),
    ensures
        !spec_pixel_list(s).contains(spec_pixel_of(s[k])),
        spec_cell(s, s[k].x as int, s[k].y as int) is None,
{
    lemma_sample_coords(s, k);
    lemma_pixel_list_membership(s, spec_pixel_of(s[k]));
    if spec_pixel_list(s).contains(spec_pixel_of(s[k])) {
        let j = choose|j: int|
            0 <= j < s.len() && spec_opaque(#[trigger] s[j]) && spec_pixel_of(s[k])
                == spec_pixel_of(s[j]);
        lemma_sample_coords(s, j);
        let xj: u32 = s[j].x;
        let yj: u32 = s[j].y;
        let xk: u32 = s[k].x;
        let yk: u32 = s[k].y;
        assert(xj == xk && yj == yk) by (bit_vector)
            requires
                xj < 1920 && xk < 1920 && yj < 1080 && yk < 1080 && xj as u16 == xk as u16 && yj
                    as u16 == yk as u16,
        ;
        assert(false);
    }
}

/// Seconds between resynchronizations, measured on period boundaries from
/// local midnight.
pub const RESYNC_PERIOD_S: u64 = 300;

/// Half the jitter window, in milliseconds: the next wake time is perturbed
/// by at most this much in either direction.
pub const JITTER_HALF_MS: u64 = 7500;

/// How long to stay silent before a swap, letting in-flight work drain.
pub const RESYNC_SILENCE_MS: u64 = 3000;

/// The next period boundary: the smallest multiple of the period that is at
/// least one full period past `now_s`.
pub open spec fn spec_next_boundary_s(now_s: int) -> int {
    let t = now_s + RESYNC_PERIOD_S;
    if t % (RESYNC_PERIOD_S as int) == 0 {
        t
    } else {
        (t / (RESYNC_PERIOD_S as int) + 1) * (RESYNC_PERIOD_S as int)
    }
}

/// The scheduled sleep: up to the next boundary, perturbed by the jitter in
/// the chosen direction.
pub open spec fn spec_next_delay_ms(now_s: int, jitter_ms: int, add: bool) -> int {
    let base = (spec_next_boundary_s(now_s) - now_s) * 1000;
    if add {
        base + jitter_ms
    } else {
        base - jitter_ms
    }
}

/// Computes the milliseconds to sleep so that the wake time lands on the
/// next period boundary, perturbed by the given jitter in the given
/// direction; the wake time always lies within half a jitter window of the
/// boundary.
pub fn schedule_next(now_s: u64, jitter_ms: u64, add: bool) -> (r: u64)
    requires
        now_s < 86400,
        jitter_ms <= JITTER_HALF_MS,
    ensures
        r == spec_next_delay_ms(now_s as int, jitter_ms as int, add),
        spec_next_boundary_s(now_s as int) * 1000 - JITTER_HALF_MS <= now_s * 1000 + r
            <= spec_next_boundary_s(now_s as int) * 1000 + JITTER_HALF_MS,
        RESYNC_PERIOD_S * 1000 - JITTER_HALF_MS <= r < 2 * RESYNC_PERIOD_S * 1000 + JITTER_HALF_MS,
{
    let t = now_s + RESYNC_PERIOD_S;
    let rem = t % RESYNC_PERIOD_S;
    proof {
        lemma_fundamental_div_mod(t as int, RESYNC_PERIOD_S as int);
        lemma_mod_bound(t as int, RESYNC_PERIOD_S as int);
    }
    let boundary = if rem == 0 {
        t
    } else {
        (t / RESYNC_PERIOD_S + 1) * RESYNC_PERIOD_S
    };
    let base = (boundary - now_s) * 1000;
    if add {
        base + jitter_ms
    } else {
        base - jitter_ms
    }
}

/// Relies on chrono's `Local::now` and `Timelike::num_seconds_from_midnight`:
/// whatever the clock reads, the result counts seconds past the last local
/// midnight and stays below 86400.
#[verifier::external_body]
fn seconds_from_midnight() -> (r: u64)
    ensures
        r < 86400,
{
    chrono::Timelike::num_seconds_from_midnight(&chrono::Local::now()) as u64
}

/// Relies on rand's `Rng::gen_range`: whatever the generator draws, the
/// result lies within the given inclusive range.
#[verifier::external_body]
fn random_jitter_ms(bound: u64) -> (r: u64)
    ensures
        r <= bound,
{
    rand::Rng::gen_range(&mut rand::thread_rng(), 0..=bound)
}

/// Relies on rand's `random`: a coin flip, with nothing promised of it.
#[verifier::external_body]
fn random_flip() -> (r: bool) {
    rand::random::<bool>()
}

/// Draws the jitter and its direction and computes how long to sleep until
/// the next resynchronization. Whatever the clock and the generator yield,
/// the sleep spans at least one period minus half a jitter window and less
/// than two periods plus half a jitter window.
pub fn next_wake_delay_ms() -> (r: u64)
    ensures
        RESYNC_PERIOD_S * 1000 - JITTER_HALF_MS <= r < 2 * RESYNC_PERIOD_S * 1000 + JITTER_HALF_MS,
{
    let now_s = seconds_from_midnight();
    let jitter = random_jitter_ms(JITTER_HALF_MS);
    let add = random_flip();
    schedule_next(now_s, jitter, add)
}

} // verus!
