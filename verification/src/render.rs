//! The render scheduler: slicing the frame buffer, per-pixel sampling with
//! the early-exit heuristic, and whole-slice rendering.
//!
//! Work distribution itself (threads, locks, channels) lives outside the
//! library; what is proved here is the part that decides correctness: the
//! slices partition the pixel range exactly (and keep doing so after any
//! shuffle), and the sampling loop takes exactly as many samples as the
//! early-exit heuristic allows.

use vstd::prelude::*;

use crate::camera::Camera;
use crate::color::linear_color_to_srgb;
use crate::fixed::{SCALE, div_fx, int_abs, mul_fx};
use crate::geometry::Line;
use crate::rng::Sampler;
use crate::vector3d::{Vector3D, spec_vec_clamp_len, vec_multiplication, vec_normalize, vec_sub, vec_sum, vec_sum_components};
use crate::{RADIANCE_LIMIT, World, spec_misses_all, trace, HALF_SCALE};

verus! {

/// The ranges of `s` tile `[lo, hi)` contiguously and in order: each range
/// starts where the previous one ended.
pub open spec fn contiguous_from(s: Seq<(usize, usize)>, lo: int, hi: int) -> bool
    decreases s.len(),
{
    if s.len() == 0 {
        lo == hi
    } else {
        &&& s[0].0 == lo
        &&& lo <= s[0].1 as int
        &&& contiguous_from(s.drop_first(), s[0].1 as int, hi)
    }
}

/// How many ranges of `s` contain the index `p` (counted with multiplicity).
pub open spec fn cover_count(s: Seq<(usize, usize)>, p: int) -> nat
    decreases s.len(),
{
    if s.len() == 0 {
        0nat
    } else {
        (if s[0].0 <= p < s[0].1 {
            1nat
        } else {
            0nat
        }) + cover_count(s.drop_first(), p)
    }
}

/// A contiguous tiling never runs backwards.
proof fn lemma_contiguous_ordered(s: Seq<(usize, usize)>, lo: int, hi: int)
    requires
        contiguous_from(s, lo, hi),
    ensures
        lo <= hi,
    decreases s.len(),
{
    if s.len() > 0 {
        lemma_contiguous_ordered(s.drop_first(), s[0].1 as int, hi);
    }
}

/// In a contiguous tiling of `[lo, hi)`, every index inside the interval is
/// covered exactly once and every index outside it not at all.
proof fn lemma_contiguous_cover(s: Seq<(usize, usize)>, lo: int, hi: int, p: int)
    requires
        contiguous_from(s, lo, hi),
    ensures
        cover_count(s, p) == if lo <= p < hi {
            1nat
        } else {
            0nat
        },
    decreases s.len(),
{
    if s.len() > 0 {
        let mid = s[0].1 as int;
        lemma_contiguous_ordered(s.drop_first(), mid, hi);
        lemma_contiguous_cover(s.drop_first(), mid, hi, p);
    }
}

/// Removing one range removes exactly its own contribution to the count.
proof fn lemma_cover_remove(s: Seq<(usize, usize)>, j: int, p: int)
    requires
        0 <= j < s.len(),
    ensures
        cover_count(s, p) == cover_count(s.remove(j), p) + (if s[j].0 <= p < s[j].1 {
            1nat
        } else {
            0nat
        }),
    decreases s.len(),
{
    if j == 0 {
        assert(s.remove(0) =~= s.drop_first());
    } else {
        assert(s.remove(j).drop_first() =~= s.drop_first().remove(j - 1));
        lemma_cover_remove(s.drop_first(), j - 1, p);
    }
}

/// The cover count only depends on the multiset of ranges, not their order.
proof fn lemma_cover_permutation(s1: Seq<(usize, usize)>, s2: Seq<(usize, usize)>, p: int)
    requires
        s1.to_multiset() == s2.to_multiset(),
    ensures
        cover_count(s1, p) == cover_count(s2, p),
    decreases s1.len(),
{
    s1.to_multiset_ensures();
    s2.to_multiset_ensures();
    if s1.len() == 0 {
        assert(s2.len() == 0);
    } else {
        let x = s1[0];
        assert(s1.contains(x));
        assert(s2.to_multiset().count(x) > 0);
        assert(s2.contains(x));
        let j = choose|j: int| 0 <= j < s2.len() && s2[j] == x;
        assert(s1.remove(0).to_multiset() =~= s1.to_multiset().remove(x));
        assert(s2.remove(j).to_multiset() =~= s2.to_multiset().remove(x));
        lemma_cover_permutation(s1.remove(0), s2.remove(j), p);
        lemma_cover_remove(s1, 0, p);
        lemma_cover_remove(s2, j, p);
    }
}

/// Law: scheduler completeness.  If the dispatched slices are any
/// reordering (shuffle) of a contiguous tiling of the pixel range
/// `[0, total)`, then every pixel index in `[0, total)` lies in exactly one
/// dispatched slice, and no slice reaches outside the range — no gaps, no
/// overlap, regardless of the shuffle.
pub proof fn lemma_schedule_covers_each_pixel_once(
    orig: Seq<(usize, usize)>,
    shuffled: Seq<(usize, usize)>,
    total: int,
)
    requires
        contiguous_from(orig, 0, total),
        shuffled.to_multiset() == orig.to_multiset(),
    ensures
        forall|p: int| 0 <= p < total ==> cover_count(shuffled, p) == 1nat,
        forall|p: int| !(0 <= p < total) ==> cover_count(shuffled, p) == 0nat,
{
    assert forall|p: int| true implies cover_count(shuffled, p) == if 0 <= p < total {
        1nat
    } else {
        0nat
    } by {
        lemma_contiguous_cover(orig, 0, total, p);
        lemma_cover_permutation(orig, shuffled, p);
    }
}

/// Appending a range that starts where the tiling ends extends the tiling.
proof fn lemma_contiguous_push(s: Seq<(usize, usize)>, lo: int, x: (usize, usize))
    requires
        contiguous_from(s, lo, x.0 as int),
        x.0 <= x.1,
    ensures
        contiguous_from(s.push(x), lo, x.1 as int),
    decreases s.len(),
{
    if s.len() == 0 {
        assert(s.push(x).len() == 1);
        assert(s.push(x)[0] == x);
        assert(s.push(x).drop_first() =~= Seq::<(usize, usize)>::empty());
        assert(contiguous_from(s.push(x).drop_first(), x.1 as int, x.1 as int));
    } else {
        assert(s.push(x)[0] == s[0]);
        assert(s.push(x).drop_first() =~= s.drop_first().push(x));
        lemma_contiguous_push(s.drop_first(), s[0].1 as int, x);
    }
}

/// Partitions the pixel range `[0, total)` into `slice_count` contiguous
/// slices of near-equal size (the remainder is spread over the leading
/// slices): the returned ranges tile the whole buffer in order, with no gap
/// and no overlap.
pub fn make_slices(total: usize, slice_count: usize) -> (v: Vec<(usize, usize)>)
    requires
        slice_count >= 1,
    ensures
        v@.len() == slice_count,
        contiguous_from(v@, 0, total as int),
        forall|i: int|
            0 <= i < v@.len() ==> (#[trigger] v@[i]).1 - v@[i].0 == total as int
                / slice_count as int + (if i < total as int % slice_count as int {
                1int
            } else {
                0int
            }),
{
    let base: usize = total / slice_count;
    let rem: usize = total % slice_count;
    proof {
        vstd::arithmetic::div_mod::lemma_fundamental_div_mod(total as int, slice_count as int);
    }
    let mut v: Vec<(usize, usize)> = Vec::new();
    let mut start: usize = 0;
    let mut i: usize = 0;
    while i < slice_count
        invariant
            i <= slice_count,
            v@.len() == i,
            base == total as int / slice_count as int,
            rem == total as int % slice_count as int,
            total as int == slice_count as int * base as int + rem as int,
            rem < slice_count,
            start as int == i as int * base as int + (if i <= rem {
                i as int
            } else {
                rem as int
            }),
            start <= total,
            contiguous_from(v@, 0, start as int),
            forall|k: int|
                0 <= k < v@.len() ==> (#[trigger] v@[k]).1 - v@[k].0 == base as int + (if k
                    < rem as int {
                    1int
                } else {
                    0int
                }),
        decreases slice_count - i,
    {
        let extra: usize = if i < rem {
            1
        } else {
            0
        };
        proof {
            assert((i as int + 1) * base as int + (if i + 1 <= rem {
                i as int + 1
            } else {
                rem as int
            }) <= slice_count as int * base as int + rem as int) by (nonlinear_arith)
                requires
                    i as int + 1 <= slice_count as int,
                    base >= 0,
                    rem >= 0,
                    i as int + 1 <= rem as int || rem as int <= rem as int,
                    rem < slice_count,
            ;
            assert((i as int + 1) * base as int == i as int * base as int + base as int)
                by (nonlinear_arith);
        }
        let end: usize = start + base + extra;
        let ghost old_v = v@;
        v.push((start, end));
        proof {
            assert(v@ =~= old_v.push((start, end)));
            lemma_contiguous_push(old_v, 0, (start, end));
        }
        start = end;
        i = i + 1;
    }
    proof {
        assert(start as int == slice_count as int * base as int + rem as int) by (nonlinear_arith)
            requires
                start as int == i as int * base as int + (if i <= rem {
                    i as int
                } else {
                    rem as int
                }),
                i == slice_count,
                rem < slice_count,
        ;
    }
    v
}

/// The largest magnitude one sample can add to the accumulating pixel
/// colour: a clamped radiance component scaled by the per-sample weight `c`.
spec fn per_sample_bound(c: int) -> int {
    ((RADIANCE_LIMIT as int) * c) / (SCALE as int)
}

/// One weighted radiance component stays within `per_sample_bound` of its
/// weight, as long as the radiance component is within the clamp.
proof fn lemma_weighted_term_bound(t: int, c: int)
    requires
        int_abs(t) <= RADIANCE_LIMIT as int,
        0 <= c <= SCALE as int,
    ensures
        int_abs(crate::fixed::spec_mul_fx(t, c)) <= per_sample_bound(c),
{
    let k = SCALE as int;
    let lim = RADIANCE_LIMIT as int;
    crate::fixed::lemma_abs_mul(t, c);
    assert(int_abs(t) * c <= lim * c) by (nonlinear_arith)
        requires
            int_abs(t) <= lim,
            c >= 0,
    ;
    crate::fixed::lemma_div_bound(int_abs(t) * c, k);
    crate::fixed::lemma_div_bound(lim * c, k);
    vstd::arithmetic::div_mod::lemma_div_is_ordered(int_abs(t) * c, lim * c, k);
}

/// The early-exit threshold: `max(samples / 4, 2)` consecutive no-bounce
/// samples abandon further sampling of a pixel.
pub open spec fn spec_no_bounce_threshold(samples: u32) -> int {
    if samples / 4 >= 2 {
        (samples / 4) as int
    } else {
        2
    }
}

/// Estimates one pixel: fires up to `samples` jittered rays through the
/// pixel's film point, averages the traced radiance, and abandons the pixel
/// early (keeping the last sample's colour) once a run of consecutive
/// no-bounce samples reaches `max(samples / 4, 2)`.  Returns the linear
/// colour, the number of samples actually taken, and the total bounce count.
///
/// The early-exit heuristic is part of the contract: for a pixel whose rays
/// always miss the geometry — every ray out of the camera position escapes,
/// which covers each of this pixel's jittered samples — the loop stops after
/// exactly the threshold number of samples (or after all of them, if the
/// budget is smaller), no bounces are recorded, and the returned colour is
/// exactly the clamped sky emission.
pub fn sample_pixel(
    world: &World,
    camera: &Camera,
    x: usize,
    y: usize,
    width: usize,
    height: usize,
    samples: u32,
    max_bounces: u32,
    sampler: &mut Sampler,
) -> (r: (Vector3D, u32, u64))
    requires
        world.wf(),
        2 <= width <= 0x400000000000,
        2 <= height <= 0x400000000000,
        x < width,
        y < height,
        samples >= 1,
        max_bounces >= 1,
    ensures
        1 <= r.1 <= samples,
        r.2 <= r.1 * max_bounces,
        int_abs(r.0.x as int) <= RADIANCE_LIMIT as int,
        int_abs(r.0.y as int) <= RADIANCE_LIMIT as int,
        int_abs(r.0.z as int) <= RADIANCE_LIMIT as int,
        (forall|l: Line|
            l.origin == camera.position ==> spec_misses_all(world.primitives@, l)) ==> {
            &&& r.2 == 0
            &&& r.1 == if spec_no_bounce_threshold(samples) <= samples {
                spec_no_bounce_threshold(samples)
            } else {
                samples as int
            }
            &&& spec_no_bounce_threshold(samples) <= samples ==> r.0 == spec_vec_clamp_len(
                world.sky_emission(),
                RADIANCE_LIMIT as int,
            )
        },
{
    let ghost all_miss = forall|l: Line|
        l.origin == camera.position ==> spec_misses_all(world.primitives@, l);
    let film_plane_point: Vector3D = camera.screen_point_to_projection_plane(x, width, y, height);
    let single_color_contribution: i64 = div_fx(SCALE, (samples as i64) * SCALE);
    proof {
        let k = SCALE as int;
        let lim = RADIANCE_LIMIT as int;
        let c = single_color_contribution as int;
        crate::fixed::lemma_div_bound(k * k, (samples as int) * k);
        assert(c == (k * k) / ((samples as int) * k));
        assert(c >= 0);
        assert(c * (samples as int) <= k) by (nonlinear_arith)
            requires
                (c * ((samples as int) * k)) <= k * k,
                c >= 0,
                samples >= 1,
                k == 65536,
        ;
        assert(c <= k) by (nonlinear_arith)
            requires
                c * (samples as int) <= k,
                c >= 0,
                samples >= 1,
        ;
        crate::fixed::lemma_div_bound(lim * c, k);
        assert((samples as int) * per_sample_bound(c) <= lim) by (nonlinear_arith)
            requires
                per_sample_bound(c) * k <= lim * c,
                per_sample_bound(c) >= 0,
                c * (samples as int) <= k,
                c >= 0,
                lim >= 1,
                samples >= 1,
                k == 65536,
        ;
    }
    let half_pixel_x: i64 = div_fx(HALF_SCALE, (width as i64) * SCALE);
    let half_pixel_y: i64 = div_fx(HALF_SCALE, (height as i64) * SCALE);

    let mut pixel_color: Vector3D = Vector3D::new_as_zero();
    let mut num_no_bounce: u32 = 0;
    let max_num_no_bounce: u32 = if samples / 4 >= 2 {
        samples / 4
    } else {
        2
    };
    let mut total_bounces: u64 = 0;
    let mut s: u32 = 0;
    while s < samples
        invariant_except_break
            world.wf(),
            2 <= width <= 0x400000000000,
            2 <= height <= 0x400000000000,
            samples >= 1,
            max_bounces >= 1,
            s <= samples,
            max_num_no_bounce as int == spec_no_bounce_threshold(samples),
            total_bounces <= s * max_bounces,
            num_no_bounce <= s,
            0 <= single_color_contribution <= SCALE,
            (samples as int) * per_sample_bound(single_color_contribution as int)
                <= RADIANCE_LIMIT as int,
            int_abs(pixel_color.x as int) <= (s as int) * per_sample_bound(
                single_color_contribution as int,
            ),
            int_abs(pixel_color.y as int) <= (s as int) * per_sample_bound(
                single_color_contribution as int,
            ),
            int_abs(pixel_color.z as int) <= (s as int) * per_sample_bound(
                single_color_contribution as int,
            ),
            all_miss == (forall|l: Line|
                l.origin == camera.position ==> spec_misses_all(world.primitives@, l)),
            all_miss ==> total_bounces == 0 && num_no_bounce == s && s < max_num_no_bounce,
        ensures
            1 <= s <= samples,
            total_bounces <= s * max_bounces,
            int_abs(pixel_color.x as int) <= RADIANCE_LIMIT as int,
            int_abs(pixel_color.y as int) <= RADIANCE_LIMIT as int,
            int_abs(pixel_color.z as int) <= RADIANCE_LIMIT as int,
            all_miss ==> {
                &&& total_bounces == 0
                &&& s as int == if spec_no_bounce_threshold(samples) <= samples {
                    spec_no_bounce_threshold(samples)
                } else {
                    samples as int
                }
                &&& spec_no_bounce_threshold(samples) <= samples ==> pixel_color
                    == spec_vec_clamp_len(world.sky_emission(), RADIANCE_LIMIT as int)
            },
        decreases samples - s,
    {
        // Sub-pixel jitter: a random offset within half a pixel each way.
        let tx: i64 = sampler.next_below(131073) as i64 - 65536;
        let ty: i64 = sampler.next_below(131073) as i64 - 65536;
        let offset_x: i64 = mul_fx(tx, half_pixel_x);
        let offset_y: i64 = mul_fx(ty, half_pixel_y);
        let sample_film_plane_point: Vector3D = vec_sum_components(
            &film_plane_point,
            offset_x,
            offset_y,
            0,
        );

        let direction: Vector3D = vec_normalize(
            &vec_sub(&sample_film_plane_point, &camera.position),
        );
        let line: Line = Line::new(camera.position, direction);

        let traced: (Vector3D, u32) = trace(world, &line, max_bounces, sampler);
        proof {
            assert(total_bounces + traced.1 <= (s as int + 1) * max_bounces) by (nonlinear_arith)
                requires
                    total_bounces <= s * max_bounces,
                    traced.1 <= max_bounces,
            ;
            assert((s as int + 1) * max_bounces <= 0xffffffffint * 0xffffffffint)
                by (nonlinear_arith)
                requires
                    s as int + 1 <= 0xffffffffint,
                    max_bounces <= 0xffffffffint,
            ;
        }
        total_bounces = total_bounces + (traced.1 as u64);

        if traced.1 == 0 {
            num_no_bounce = num_no_bounce + 1;
        } else {
            num_no_bounce = 0;
        }

        proof {
            let lim = RADIANCE_LIMIT as int;
            let c = single_color_contribution as int;
            let k = SCALE as int;
            crate::fixed::lemma_abs_square(traced.0.x as int);
            crate::fixed::lemma_abs_square(traced.0.y as int);
            crate::fixed::lemma_abs_square(traced.0.z as int);
            assert(int_abs(traced.0.x as int) <= lim && int_abs(traced.0.y as int) <= lim
                && int_abs(traced.0.z as int) <= lim) by (nonlinear_arith)
                requires
                    int_abs(traced.0.x as int) * int_abs(traced.0.x as int) + int_abs(
                        traced.0.y as int,
                    ) * int_abs(traced.0.y as int) + int_abs(traced.0.z as int) * int_abs(
                        traced.0.z as int,
                    ) <= lim * lim + 2 * lim,
                    int_abs(traced.0.x as int) >= 0,
                    int_abs(traced.0.y as int) >= 0,
                    int_abs(traced.0.z as int) >= 0,
                    lim >= 1,
            ;
            lemma_weighted_term_bound(traced.0.x as int, c);
            lemma_weighted_term_bound(traced.0.y as int, c);
            lemma_weighted_term_bound(traced.0.z as int, c);
            assert(((s as int) + 1) * per_sample_bound(c) == (s as int) * per_sample_bound(c)
                + per_sample_bound(c)) by (nonlinear_arith);
        }
        pixel_color = vec_sum(
            &pixel_color,
            &vec_multiplication(&traced.0, single_color_contribution),
        );
        s = s + 1;

        if num_no_bounce >= max_num_no_bounce {
            pixel_color = traced.0;
            break ;
        }
    }
    (pixel_color, s, total_bounces)
}

/// Renders one slice of the frame buffer: for every pixel index in
/// `[start, end)`, in order, estimates the pixel with `sample_pixel`, applies
/// the sRGB encoding, and collects `(index, colour)` pairs.  The result holds
/// exactly one entry per pixel of the slice, in pixel order; the second
/// component is the slice's total bounce count (saturating).
pub fn render_slice(
    world: &World,
    camera: &Camera,
    start: usize,
    end: usize,
    width: usize,
    height: usize,
    samples: u32,
    max_bounces: u32,
    sampler: &mut Sampler,
) -> (r: (Vec<(usize, Vector3D)>, u64))
    requires
        world.wf(),
        2 <= width <= 0x400000000000,
        2 <= height <= 0x400000000000,
        start <= end,
        end <= width * height,
        samples >= 1,
        max_bounces >= 1,
    ensures
        r.0@.len() == end - start,
        forall|k: int|
            0 <= k < r.0@.len() ==> (#[trigger] r.0@[k]).0 == start + k && 0 <= r.0@[k].1.x
                <= SCALE && 0 <= r.0@[k].1.y <= SCALE && 0 <= r.0@[k].1.z <= SCALE,
        r.1 <= (end - start) * (samples as int) * (max_bounces as int),
{
    let mut pixels: Vec<(usize, Vector3D)> = Vec::new();
    let mut total_bounces: u64 = 0;
    let mut buffer_index: usize = start;
    while buffer_index < end
        invariant
            world.wf(),
            2 <= width <= 0x400000000000,
            2 <= height <= 0x400000000000,
            samples >= 1,
            max_bounces >= 1,
            start <= buffer_index <= end,
            end <= width * height,
            pixels@.len() == buffer_index - start,
            forall|k: int|
                0 <= k < pixels@.len() ==> (#[trigger] pixels@[k]).0 == start + k && 0
                    <= pixels@[k].1.x <= SCALE && 0 <= pixels@[k].1.y <= SCALE && 0
                    <= pixels@[k].1.z <= SCALE,
            total_bounces <= (buffer_index - start) * (samples as int) * (max_bounces as int),
        decreases end - buffer_index,
    {
        let i: usize = buffer_index % width;
        let j: usize = buffer_index / width;
        proof {
            vstd::arithmetic::div_mod::lemma_fundamental_div_mod(
                buffer_index as int,
                width as int,
            );
            assert(j < height) by (nonlinear_arith)
                requires
                    buffer_index as int == width as int * (j as int) + (buffer_index as int % width as int),
                    0 <= buffer_index as int % width as int,
                    (buffer_index as int) < width as int * height as int,
                    width >= 2,
                    j >= 0,
            ;
        }
        let sampled: (Vector3D, u32, u64) = sample_pixel(
            world,
            camera,
            i,
            j,
            width,
            height,
            samples,
            max_bounces,
            sampler,
        );
        let gamma_corrected_color: Vector3D = linear_color_to_srgb(&sampled.0);
        pixels.push((buffer_index, gamma_corrected_color));
        proof {
            let k = buffer_index - start;
            assert(sampled.2 <= (samples as int) * (max_bounces as int)) by (nonlinear_arith)
                requires
                    sampled.2 <= sampled.1 * max_bounces,
                    sampled.1 <= samples,
                    max_bounces >= 0,
            ;
            assert((k + 1) * (samples as int) * (max_bounces as int) == k * (samples as int) * (
            max_bounces as int) + (samples as int) * (max_bounces as int)) by (nonlinear_arith);
        }
        total_bounces = if u64::MAX - total_bounces >= sampled.2 {
            total_bounces + sampled.2
        } else {
            u64::MAX
        };
        buffer_index = buffer_index + 1;
    }
    (pixels, total_bounces)
}

} // verus!
