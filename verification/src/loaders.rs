//! Loading a mesh from Wavefront OBJ text.
//!
//! Only the two record kinds the renderer needs are read: `v` lines declare
//! vertices (three decimal coordinates) and `f` lines declare faces, whose
//! first three vertex references become one triangle.  Parsing is total:
//! a malformed or incomplete line is skipped rather than failing the load.
//! Numbers are parsed into Q16.16 fixed point by an exactly specified
//! decimal parser.

use vstd::prelude::*;

use crate::fixed::SCALE;
use crate::geometry::{Mesh, Plane, Triangle};
use crate::vector3d::{Vector3D, spec_vec_cross, spec_vec_normalize, spec_vec_sub};

verus! {

/// ASCII decimal digits only.
pub open spec fn all_digits(s: Seq<u8>) -> bool {
    forall|i: int| 0 <= i < s.len() ==> 48 <= #[trigger] s[i] <= 57
}

/// The value of a run of decimal digits, most significant first.
pub open spec fn spec_digits_val(s: Seq<u8>) -> int
    decreases s.len(),
{
    if s.len() == 0 {
        0
    } else {
        spec_digits_val(s.drop_last()) * 10 + (s.last() - 48)
    }
}

proof fn lemma_digits_val_nonneg(s: Seq<u8>)
    requires
        all_digits(s),
    ensures
        spec_digits_val(s) >= 0,
    decreases s.len(),
{
    if s.len() > 0 {
        assert(all_digits(s.drop_last()));
        lemma_digits_val_nonneg(s.drop_last());
    }
}

proof fn lemma_digits_val_push(s: Seq<u8>, b: u8)
    ensures
        spec_digits_val(s.push(b)) == 10 * spec_digits_val(s) + (b - 48),
{
    assert(s.push(b).drop_last() =~= s);
    assert(s.push(b).last() == b);
}

/// Extending a digit run never decreases its value.
proof fn lemma_digits_val_prefix_le(s: Seq<u8>, k: int)
    requires
        all_digits(s),
        0 <= k <= s.len(),
    ensures
        spec_digits_val(s.take(k)) <= spec_digits_val(s),
    decreases s.len() - k,
{
    if k < s.len() {
        assert(s.take(k + 1) =~= s.take(k).push(s[k]));
        lemma_digits_val_push(s.take(k), s[k]);
        assert(all_digits(s.take(k)));
        lemma_digits_val_nonneg(s.take(k));
        lemma_digits_val_prefix_le(s, k + 1);
    } else {
        assert(s.take(k) =~= s);
    }
}

/// The parse of a run of digits: its decimal value, or `None` when the run
/// is empty, holds a non-digit, or exceeds the cap.
pub open spec fn spec_parse_digits(s: Seq<u8>, cap: int) -> Option<u64> {
    if s.len() == 0 || !all_digits(s) || spec_digits_val(s) > cap {
        None
    } else {
        Some(spec_digits_val(s) as u64)
    }
}

/// Parses `bytes[start..end]` as a run of decimal digits capped at `cap`.
fn parse_digits(bytes: &Vec<u8>, start: usize, end: usize, cap: u64) -> (r: Option<u64>)
    requires
        start <= end <= bytes@.len(),
        9 <= cap <= 0x4000000000000000,
    ensures
        r == spec_parse_digits(bytes@.subrange(start as int, end as int), cap as int),
{
    let ghost tok = bytes@.subrange(start as int, end as int);
    if start == end {
        return None;
    }
    let mut acc: u64 = 0;
    let mut pos: usize = start;
    while pos < end
        invariant
            start <= pos <= end <= bytes@.len(),
            tok == bytes@.subrange(start as int, end as int),
            9 <= cap <= 0x4000000000000000,
            all_digits(tok.take(pos - start)),
            acc == spec_digits_val(tok.take(pos - start)),
            acc <= cap,
        decreases end - pos,
    {
        let b: u8 = bytes[pos];
        proof {
            assert(tok[pos - start] == bytes@[pos as int]);
        }
        if b < 48 || b > 57 {
            proof {
                assert(!all_digits(tok));
            }
            return None;
        }
        let d: u64 = (b - 48) as u64;
        proof {
            assert(tok.take(pos - start + 1) =~= tok.take(pos - start).push(b));
            lemma_digits_val_push(tok.take(pos - start), b);
        }
        if acc > (cap - d) / 10 {
            proof {
                assert(10 * acc + d > cap) by {
                    crate::fixed::lemma_div_bound((cap - d) as int, 10);
                    assert(((cap - d) / 10 + 1) * 10 > cap - d) by (nonlinear_arith)
                        requires
                            ((cap - d) as int / 10) * 10 + 10 > (cap - d) as int,
                    ;
                    assert(acc * 10 >= ((cap - d) / 10 + 1) * 10) by (nonlinear_arith)
                        requires
                            acc >= (cap - d) as int / 10 + 1,
                    ;
                }
                if all_digits(tok) {
                    lemma_digits_val_prefix_le(tok, pos - start + 1);
                }
            }
            return None;
        }
        proof {
            crate::fixed::lemma_div_bound((cap - d) as int, 10);
            assert(acc * 10 <= ((cap - d) as int / 10) * 10) by (nonlinear_arith)
                requires
                    acc <= (cap - d) as int / 10,
            ;
        }
        acc = acc * 10 + d;
        pos = pos + 1;
    }
    proof {
        assert(tok.take(pos - start) =~= tok);
    }
    Some(acc)
}

/// Index of the first `.` in the token, or its length if there is none.
pub open spec fn spec_first_dot(s: Seq<u8>) -> int
    decreases s.len(),
{
    if s.len() == 0 {
        0
    } else if s[0] == 46 {
        0
    } else {
        1 + spec_first_dot(s.drop_first())
    }
}

proof fn lemma_first_dot_range(s: Seq<u8>)
    ensures
        0 <= spec_first_dot(s) <= s.len(),
        spec_first_dot(s) < s.len() ==> s[spec_first_dot(s)] == 46,
        forall|i: int| 0 <= i < spec_first_dot(s) ==> #[trigger] s[i] != 46,
    decreases s.len(),
{
    if s.len() > 0 && s[0] != 46 {
        lemma_first_dot_range(s.drop_first());
        assert forall|i: int| 0 <= i < spec_first_dot(s) implies s[i] != 46 by {
            if i > 0 {
                assert(s[i] == s.drop_first()[i - 1]);
            }
        }
    }
}

/// `10^n`.
pub open spec fn spec_pow10(n: nat) -> int
    decreases n,
{
    if n == 0 {
        1
    } else {
        10 * spec_pow10((n - 1) as nat)
    }
}

/// The parse of a signed decimal token into Q16.16: an optional leading
/// minus, an integer digit run, and an optional fraction after one dot (of
/// which the first nine digits are kept).  `None` on an empty or malformed
/// token or when the integer part exceeds the representable cap.
pub open spec fn spec_parse_fixed(s: Seq<u8>) -> Option<i64> {
    if s.len() > 0 && s[0] == 45 {
        match spec_parse_unsigned_fixed(s.drop_first()) {
            Option::Some(v) => Option::Some((-v) as i64),
            Option::None => Option::None,
        }
    } else {
        spec_parse_unsigned_fixed(s)
    }
}

/// The unsigned half of `spec_parse_fixed`.
pub open spec fn spec_parse_unsigned_fixed(s: Seq<u8>) -> Option<i64> {
    let d = spec_first_dot(s);
    let ip = s.take(d);
    let fp_full = if d < s.len() {
        s.skip(d + 1)
    } else {
        Seq::<u8>::empty()
    };
    let fp = if fp_full.len() > 9 {
        fp_full.take(9)
    } else {
        fp_full
    };
    if ip.len() + fp_full.len() == 0 {
        Option::None
    } else if !all_digits(ip) || !all_digits(fp_full) {
        Option::None
    } else if spec_digits_val(ip) > 140737488355327 {
        Option::None
    } else {
        Option::Some(
            (spec_digits_val(ip) * (SCALE as int) + (spec_digits_val(fp) * (SCALE as int))
                / spec_pow10(fp.len())) as i64,
        )
    }
}

/// Parses `bytes[start..end]` as a signed decimal number into Q16.16,
/// exactly as `spec_parse_fixed` states.
fn parse_fixed_decimal(bytes: &Vec<u8>, start: usize, end: usize) -> (r: Option<i64>)
    requires
        start <= end <= bytes@.len(),
    ensures
        r == spec_parse_fixed(bytes@.subrange(start as int, end as int)),
{
    let ghost tok = bytes@.subrange(start as int, end as int);
    if start < end && bytes[start] == 45 {
        proof {
            assert(tok[0] == 45);
            assert(tok.drop_first() =~= bytes@.subrange(start as int + 1, end as int));
        }
        match parse_unsigned_fixed(bytes, start + 1, end) {
            Option::Some(v) => Option::Some(-v),
            Option::None => Option::None,
        }
    } else {
        proof {
            if start < end {
                assert(tok[0] == bytes@[start as int]);
            }
        }
        parse_unsigned_fixed(bytes, start, end)
    }
}

fn parse_unsigned_fixed(bytes: &Vec<u8>, start: usize, end: usize) -> (r: Option<i64>)
    requires
        start <= end <= bytes@.len(),
    ensures
        r == spec_parse_unsigned_fixed(bytes@.subrange(start as int, end as int)),
        r is Some ==> r->Some_0 >= 0,
{
    let ghost tok = bytes@.subrange(start as int, end as int);
    proof {
        lemma_first_dot_range(tok);
    }
    // Find the first dot.
    let mut dot: usize = start;
    while dot < end && bytes[dot] != 46
        invariant
            start <= dot <= end <= bytes@.len(),
            tok == bytes@.subrange(start as int, end as int),
            forall|i: int| 0 <= i < dot - start ==> #[trigger] tok[i] != 46,
        decreases end - dot,
    {
        dot = dot + 1;
    }
    proof {
        if dot < end {
            assert(tok[dot - start] == 46);
        }
        assert(spec_first_dot(tok) == dot - start) by {
            lemma_first_dot_range(tok);
            if spec_first_dot(tok) < dot - start {
                assert(tok[spec_first_dot(tok)] != 46);
            }
            if dot - start < spec_first_dot(tok) {
                assert(tok[dot - start as int] != 46);
            }
        }
        assert(tok.take(dot - start) =~= bytes@.subrange(start as int, dot as int));
    }
    let frac_start: usize = if dot < end {
        dot + 1
    } else {
        end
    };
    proof {
        if dot < end {
            assert(tok.skip(dot - start + 1) =~= bytes@.subrange(frac_start as int, end as int));
        } else {
            assert(Seq::<u8>::empty() =~= bytes@.subrange(frac_start as int, end as int));
        }
    }
    if (dot - start) + (end - frac_start) == 0 {
        return None;
    }
    // Integer part: capped so the scaled value stays within i64.
    let ip: Option<u64> = parse_digits(bytes, start, dot, 140737488355327);
    proof {
        let ipseq = bytes@.subrange(start as int, dot as int);
        if dot == start {
            assert(ipseq =~= Seq::<u8>::empty());
            assert(all_digits(ipseq));
            assert(spec_digits_val(ipseq) == 0);
        }
    }
    let int_val: u64 = if dot > start {
        match ip {
            Option::Some(v) => v,
            Option::None => {
                return None;
            },
        }
    } else {
        0
    };
    // Fraction part: the first nine digits count, the rest must be digits.
    let frac_digits: usize = if end - frac_start > 9 {
        9
    } else {
        end - frac_start
    };
    let frac_end: usize = frac_start + frac_digits;
    let mut frac_val: u64 = 0;
    let mut pow: u64 = 1;
    if frac_start < end {
        let full: Option<u64> = parse_digits(bytes, frac_start, end, 0x4000000000000000);
        proof {
            let fpseq = bytes@.subrange(frac_start as int, end as int);
            if all_digits(fpseq) {
                lemma_digits_val_nonneg(fpseq);
                if spec_digits_val(fpseq) > 0x4000000000000000 {
                    lemma_digits_val_cap(fpseq);
                }
            }
        }
        match full {
            Option::Some(_) => {
            },
            Option::None => {
                if !digits_only(bytes, frac_start, end) {
                    return None;
                }
            },
        }
        let fp: Option<u64> = parse_digits(bytes, frac_start, frac_end, 0x4000000000000000);
        proof {
            let fpseq = bytes@.subrange(frac_start as int, end as int);
            let fpshort = bytes@.subrange(frac_start as int, frac_end as int);
            assert(fpshort =~= if fpseq.len() > 9 {
                fpseq.take(9)
            } else {
                fpseq
            });
            if all_digits(fpseq) {
                assert(all_digits(fpshort));
                lemma_digits_val_short_cap(fpshort);
            }
        }
        match fp {
            Option::Some(v) => {
                frac_val = v;
            },
            Option::None => {
                return None;
            },
        }
        let mut k: usize = 0;
        while k < frac_digits
            invariant
                k <= frac_digits <= 9,
                pow == spec_pow10(k as nat),
                pow <= 1000000000,
            decreases frac_digits - k,
        {
            proof {
                lemma_pow10_bound((k + 1) as nat);
            }
            pow = pow * 10;
            k = k + 1;
        }
    }
    proof {
        lemma_pow10_bound(frac_digits as nat);
        let d = dot - start;
        let ip = tok.take(d as int);
        let fp_full = bytes@.subrange(frac_start as int, end as int);
        let fpshort = bytes@.subrange(frac_start as int, frac_end as int);
        if dot == start {
            assert(ip =~= Seq::<u8>::empty());
        }
        assert(all_digits(ip));
        lemma_digits_val_nonneg(ip);
        assert(int_val == spec_digits_val(ip));
        assert(int_val <= 140737488355327);
        if frac_start < end {
            if fp_full.len() > 9 {
                assert(fpshort =~= fp_full.take(9));
            } else {
                assert(fpshort =~= fp_full);
            }
            assert(all_digits(fp_full));
            assert(all_digits(fpshort));
            lemma_digits_val_nonneg(fpshort);
            assert(frac_val == spec_digits_val(fpshort));
            lemma_frac_below_pow(fpshort);
        } else {
            assert(fpshort =~= Seq::<u8>::empty());
            assert(fp_full =~= Seq::<u8>::empty());
        }
        assert(fpshort.len() == frac_digits);
        assert(pow == spec_pow10(frac_digits as nat));
        assert(frac_val < pow);
    }
    let scaled_frac: u64 = ((frac_val as u128 * (SCALE as u128)) / (pow as u128)) as u64;
    proof {
        crate::fixed::lemma_div_bound(frac_val as int * (SCALE as int), pow as int);
        assert((frac_val as int * (SCALE as int)) / (pow as int) <= SCALE as int - 1)
            by (nonlinear_arith)
            requires
                frac_val < pow as int,
                pow >= 1,
                ((frac_val as int * (SCALE as int)) / (pow as int)) * pow <= frac_val as int * (
                SCALE as int),
                (frac_val as int * (SCALE as int)) / (pow as int) >= 0,
        ;
        assert(scaled_frac == (spec_digits_val(
            bytes@.subrange(frac_start as int, frac_end as int),
        ) * (SCALE as int)) / spec_pow10(frac_digits as nat));
    }
    Some((int_val as i64) * SCALE + (scaled_frac as i64))
}

/// A digit run shorter than ten digits stays below the cap.
proof fn lemma_digits_val_short_cap(s: Seq<u8>)
    requires
        all_digits(s),
        s.len() <= 9,
    ensures
        spec_digits_val(s) <= 0x4000000000000000,
        spec_digits_val(s) < spec_pow10(s.len() as nat),
    decreases s.len(),
{
    if s.len() > 0 {
        assert(all_digits(s.drop_last()));
        lemma_digits_val_short_cap(s.drop_last());
        assert(spec_pow10(s.len() as nat) == 10 * spec_pow10((s.len() - 1) as nat));
    }
    lemma_pow10_bound(s.len() as nat);
}

/// The value of the first nine fraction digits is below `10^9`.
proof fn lemma_frac_below_pow(s: Seq<u8>)
    requires
        all_digits(s),
        s.len() <= 9,
    ensures
        spec_digits_val(s) < spec_pow10(s.len() as nat),
        spec_digits_val(s) >= 0,
{
    lemma_digits_val_short_cap(s);
    lemma_digits_val_nonneg(s);
}

/// A digit run over the 62-bit cap has more than nine digits — used to show
/// the capped parse of a long fraction still classifies digit runs.
proof fn lemma_digits_val_cap(s: Seq<u8>)
    requires
        all_digits(s),
        spec_digits_val(s) > 0x4000000000000000,
    ensures
        s.len() > 9,
{
    if s.len() <= 9 {
        lemma_digits_val_short_cap(s);
    }
}

proof fn lemma_pow10_pos(n: nat)
    ensures
        spec_pow10(n) >= 1,
    decreases n,
{
    if n > 0 {
        lemma_pow10_pos((n - 1) as nat);
    }
}

proof fn lemma_pow10_mono(a: nat, b: nat)
    requires
        a <= b,
    ensures
        spec_pow10(a) <= spec_pow10(b),
    decreases b,
{
    if a < b {
        lemma_pow10_mono(a, (b - 1) as nat);
        lemma_pow10_pos((b - 1) as nat);
    }
}

proof fn lemma_pow10_bound(n: nat)
    requires
        n <= 9,
    ensures
        spec_pow10(n) <= 1000000000,
        spec_pow10(n) >= 1,
{
    lemma_pow10_pos(n);
    lemma_pow10_mono(n, 9nat);
    assert(spec_pow10(9nat) == 1000000000) by {
        reveal_with_fuel(spec_pow10, 11);
    }
}

/// Whether `bytes[start..end]` holds decimal digits only.
fn digits_only(bytes: &Vec<u8>, start: usize, end: usize) -> (r: bool)
    requires
        start <= end <= bytes@.len(),
    ensures
        r == all_digits(bytes@.subrange(start as int, end as int)),
{
    let ghost tok = bytes@.subrange(start as int, end as int);
    let mut pos: usize = start;
    while pos < end
        invariant
            start <= pos <= end <= bytes@.len(),
            tok == bytes@.subrange(start as int, end as int),
            forall|i: int| 0 <= i < pos - start ==> 48 <= #[trigger] tok[i] <= 57,
        decreases end - pos,
    {
        let b: u8 = bytes[pos];
        proof {
            assert(tok[pos - start] == bytes@[pos as int]);
        }
        if b < 48 || b > 57 {
            return false;
        }
        pos = pos + 1;
    }
    true
}

/// A triangle as `Triangle::new` builds it: the supporting plane passes
/// through the first vertex and carries the (normalised) face normal of the
/// winding order.
pub open spec fn triangle_wf(t: Triangle) -> bool {
    t.inner_plane == (Plane {
        normal: spec_vec_normalize(
            spec_vec_normalize(spec_vec_cross(spec_vec_sub(t.b, t.a), spec_vec_sub(t.c, t.a))),
        ),
        point: t.a,
    })
}

/// The index of the first occurrence of `b` in `bytes[i..limit]`, or `limit`
/// if there is none.
pub open spec fn spec_scan_for(bytes: Seq<u8>, i: int, limit: int, b: u8) -> int
    decreases limit - i,
{
    if i >= limit {
        limit
    } else if bytes[i] == b {
        i
    } else {
        spec_scan_for(bytes, i + 1, limit, b)
    }
}

/// The scan result, clamped below by the start position (the scan never
/// answers below it; the clamp keeps later definitions well founded).
pub open spec fn spec_scan_from(bytes: Seq<u8>, i: int, limit: int, b: u8) -> int {
    let e = spec_scan_for(bytes, i, limit, b);
    if e < i {
        i
    } else {
        e
    }
}

/// The token ranges of `bytes[i..limit]` split on every single space: each
/// range runs to the next space or to the limit, and empty tokens are kept.
pub open spec fn spec_tokens(bytes: Seq<u8>, i: int, limit: int) -> Seq<(int, int)>
    decreases limit - i,
{
    let e = spec_scan_from(bytes, i, limit, 32);
    if e < limit {
        seq![(i, e)] + spec_tokens(bytes, e + 1, limit)
    } else {
        seq![(i, limit)]
    }
}

/// Whether a token is the single byte `ch`.
pub open spec fn spec_token_is(bytes: Seq<u8>, t: (int, int), ch: u8) -> bool {
    t.1 - t.0 == 1 && bytes[t.0] == ch
}

/// The triangle `Triangle::new(a, b, c, mat)` builds.
pub open spec fn spec_make_triangle(a: Vector3D, b: Vector3D, c: Vector3D, mat: int) -> Triangle {
    Triangle {
        a,
        b,
        c,
        material_index: mat as usize,
        inner_plane: Plane {
            normal: spec_vec_normalize(
                spec_vec_normalize(spec_vec_cross(spec_vec_sub(b, a), spec_vec_sub(c, a))),
            ),
            point: a,
        },
    }
}

/// The vertex a `v` line declares: its second, third and fourth tokens as
/// decimal coordinates, or nothing if any fails to parse.
pub open spec fn spec_vertex_from(bytes: Seq<u8>, toks: Seq<(int, int)>) -> Option<Vector3D> {
    if toks.len() >= 4 {
        let px = spec_parse_fixed(bytes.subrange(toks[1].0, toks[1].1));
        let py = spec_parse_fixed(bytes.subrange(toks[2].0, toks[2].1));
        let pz = spec_parse_fixed(bytes.subrange(toks[3].0, toks[3].1));
        match (px, py, pz) {
            (Option::Some(vx), Option::Some(vy), Option::Some(vz)) => Option::Some(
                Vector3D { x: vx, y: vy, z: vz },
            ),
            _ => Option::None,
        }
    } else {
        Option::None
    }
}

/// The vertices a face's reference tokens resolve to, in order: for each
/// token, the digit run before its first slash, as a 1-based index into the
/// vertices seen so far; unresolvable references are dropped.
pub open spec fn spec_face_refs(
    bytes: Seq<u8>,
    vertices: Seq<Vector3D>,
    toks: Seq<(int, int)>,
) -> Seq<Vector3D>
    decreases toks.len(),
{
    if toks.len() == 0 {
        Seq::empty()
    } else {
        let t = toks[0];
        let slash = spec_scan_from(bytes, t.0, t.1, 47);
        let rest = spec_face_refs(bytes, vertices, toks.drop_first());
        match spec_parse_digits(bytes.subrange(t.0, slash), 0xffffffff) {
            Option::Some(fi) => if 1 <= fi && fi <= vertices.len() {
                seq![vertices[fi as int - 1]] + rest
            } else {
                rest
            },
            Option::None => rest,
        }
    }
}

/// The whole OBJ walk from position `i`: one line per step, `v` lines grow
/// the vertex list, `f` lines with at least three resolvable references emit
/// one triangle, anything else is skipped.  Returns the final vertex list
/// and all triangles emitted from `i` on.
pub open spec fn spec_obj_state(bytes: Seq<u8>, i: int, vertices: Seq<Vector3D>, mat: int) -> (
    Seq<Vector3D>,
    Seq<Triangle>,
)
    decreases bytes.len() - i,
{
    if i < 0 || i >= bytes.len() {
        (vertices, Seq::empty())
    } else {
        let le = spec_scan_from(bytes, i, bytes.len() as int, 10);
        let toks = spec_tokens(bytes, i, le);
        let head = toks[0];
        let next_i = if le < bytes.len() {
            le + 1
        } else {
            bytes.len() as int
        };
        let stepped: (Seq<Vector3D>, Seq<Triangle>) = if spec_token_is(bytes, head, 118) {
            match spec_vertex_from(bytes, toks) {
                Option::Some(v) => (vertices.push(v), Seq::empty()),
                Option::None => (vertices, Seq::empty()),
            }
        } else if spec_token_is(bytes, head, 102) {
            let refs = spec_face_refs(bytes, vertices, toks.skip(1));
            if refs.len() >= 3 {
                (vertices, seq![spec_make_triangle(refs[0], refs[1], refs[2], mat)])
            } else {
                (vertices, Seq::empty())
            }
        } else {
            (vertices, Seq::empty())
        };
        let rest = spec_obj_state(bytes, next_i, stepped.0, mat);
        (rest.0, stepped.1 + rest.1)
    }
}

/// The triangles an OBJ byte text declares.
pub open spec fn spec_obj_triangles(bytes: Seq<u8>, mat: int) -> Seq<Triangle> {
    spec_obj_state(bytes, 0, Seq::empty(), mat).1
}

/// Builds a mesh from OBJ text, exactly as `spec_obj_triangles` reads the
/// text's UTF-8 bytes: every `v` line contributes a vertex, and every `f`
/// line whose first three vertex references resolve contributes one triangle
/// over them, in file order, carrying `material_index`.  Malformed lines and
/// unresolvable references are skipped.
pub fn load_obj(obj_file: String, material_index: usize) -> (r: Mesh)
    ensures
        r.triangles@ == spec_obj_triangles(
            vstd::utf8::encode_utf8(obj_file@),
            material_index as int,
        ),
        forall|k: int|
            0 <= k < r.triangles@.len() ==> (#[trigger] r.triangles@[k]).material_index
                == material_index && triangle_wf(r.triangles@[k]),
{
    let bytes: Vec<u8> = vstd::slice::slice_to_vec(obj_file.as_str().as_bytes());
    let ghost bs = bytes@;
    let ghost mat = material_index as int;
    proof {
        assert(bs == vstd::utf8::encode_utf8(obj_file@));
    }
    let n: usize = bytes.len();
    let mut vertices: Vec<Vector3D> = Vec::new();
    let mut mesh: Mesh = Mesh::new();
    let mut i: usize = 0;
    proof {
        assert(mesh.triangles@ + spec_obj_state(bs, 0, vertices@, mat).1 =~= spec_obj_state(
            bs,
            0,
            Seq::empty(),
            mat,
        ).1);
        assert(vertices@ =~= Seq::<Vector3D>::empty());
    }
    while i < n
        invariant
            i <= n,
            n == bs.len(),
            bs == bytes@,
            mat == material_index as int,
            spec_obj_state(bs, 0, Seq::empty(), mat).0 == spec_obj_state(bs, i as int, vertices@, mat).0,
            spec_obj_state(bs, 0, Seq::empty(), mat).1 == mesh.triangles@ + spec_obj_state(
                bs,
                i as int,
                vertices@,
                mat,
            ).1,
            forall|k: int|
                0 <= k < mesh.triangles@.len() ==> (#[trigger] mesh.triangles@[k]).material_index
                    == material_index && triangle_wf(mesh.triangles@[k]),
        decreases n - i,
    {
        // The current line is bytes[i..line_end].
        let mut line_end: usize = i;
        while line_end < n && bytes[line_end] != 10
            invariant
                i <= line_end <= n,
                n == bs.len(),
                bs == bytes@,
                spec_scan_for(bs, i as int, n as int, 10) == spec_scan_for(
                    bs,
                    line_end as int,
                    n as int,
                    10,
                ),
            decreases n - line_end,
        {
            line_end = line_end + 1;
        }
        proof {
            assert(spec_scan_for(bs, line_end as int, n as int, 10) == line_end);
            assert(spec_scan_from(bs, i as int, n as int, 10) == line_end);
        }
        let ghost le = line_end as int;
        // Split the line on single spaces into token ranges.
        let mut tokens: Vec<(usize, usize)> = Vec::new();
        let ghost mut stoks: Seq<(int, int)> = Seq::empty();
        let mut tok_start: usize = i;
        let mut k: usize = i;
        proof {
            assert(stoks + spec_tokens(bs, i as int, le) =~= spec_tokens(bs, i as int, le));
        }
        while k < line_end
            invariant
                i <= tok_start <= k <= line_end <= n,
                n == bs.len(),
                bs == bytes@,
                le == line_end as int,
                tokens@.len() == stoks.len(),
                forall|t: int|
                    0 <= t < tokens@.len() ==> i <= (#[trigger] tokens@[t]).0 <= tokens@[t].1 <= n
                        && stoks[t] == (tokens@[t].0 as int, tokens@[t].1 as int),
                spec_tokens(bs, i as int, le) == stoks + spec_tokens(bs, tok_start as int, le),
                spec_scan_for(bs, tok_start as int, le, 32) == spec_scan_for(bs, k as int, le, 32),
            decreases line_end - k,
        {
            if bytes[k] == 32 {
                proof {
                    assert(spec_scan_for(bs, k as int, le, 32) == k);
                    assert(spec_scan_from(bs, tok_start as int, le, 32) == k);
                    assert(spec_tokens(bs, tok_start as int, le) == seq![(tok_start as int, k as int)]
                        + spec_tokens(bs, k as int + 1, le));
                    assert(stoks + (seq![(tok_start as int, k as int)] + spec_tokens(
                        bs,
                        k as int + 1,
                        le,
                    )) =~= stoks.push((tok_start as int, k as int)) + spec_tokens(
                        bs,
                        k as int + 1,
                        le,
                    ));
                    stoks = stoks.push((tok_start as int, k as int));
                }
                tokens.push((tok_start, k));
                tok_start = k + 1;
            }
            k = k + 1;
        }
        proof {
            assert(spec_scan_for(bs, line_end as int, le, 32) == le);
            assert(spec_scan_from(bs, tok_start as int, le, 32) == le);
            assert(spec_tokens(bs, tok_start as int, le) == seq![(tok_start as int, le)]);
            assert(stoks + seq![(tok_start as int, le)] =~= stoks.push((tok_start as int, le)));
            stoks = stoks.push((tok_start as int, line_end as int));
        }
        tokens.push((tok_start, line_end));
        proof {
            assert(spec_tokens(bs, i as int, le) == stoks);
        }

        let head: (usize, usize) = tokens[0];
        let is_vertex: bool = head.1 - head.0 == 1 && bytes[head.0] == 118;  // "v"
        let is_face: bool = head.1 - head.0 == 1 && bytes[head.0] == 102;  // "f"
        proof {
            assert(stoks[0] == (head.0 as int, head.1 as int));
            assert(is_vertex == spec_token_is(bs, stoks[0], 118));
            assert(is_face == spec_token_is(bs, stoks[0], 102));
        }

        let ghost vertices_before = vertices@;
        let ghost mut line_tris: Seq<Triangle> = Seq::empty();
        if is_vertex && tokens.len() >= 4 {
            let t1: (usize, usize) = tokens[1];
            let t2: (usize, usize) = tokens[2];
            let t3: (usize, usize) = tokens[3];
            let x: Option<i64> = parse_fixed_decimal(&bytes, t1.0, t1.1);
            let y: Option<i64> = parse_fixed_decimal(&bytes, t2.0, t2.1);
            let z: Option<i64> = parse_fixed_decimal(&bytes, t3.0, t3.1);
            match (x, y, z) {
                (Option::Some(vx), Option::Some(vy), Option::Some(vz)) => {
                    vertices.push(Vector3D::new(vx, vy, vz));
                },
                _ => {},
            }
        } else if is_face {
            // Collect the vertices the face references.
            let mut face_vertices: Vec<Vector3D> = Vec::new();
            let mut ti: usize = 1;
            proof {
                assert(face_vertices@ + spec_face_refs(bs, vertices@, stoks.skip(1))
                    =~= spec_face_refs(bs, vertices@, stoks.skip(1)));
            }
            while ti < tokens.len()
                invariant
                    1 <= ti <= tokens@.len(),
                    n == bs.len(),
                    bs == bytes@,
                    vertices@ == vertices_before,
                    tokens@.len() == stoks.len(),
                    forall|t: int|
                        0 <= t < tokens@.len() ==> i <= (#[trigger] tokens@[t]).0 <= tokens@[t].1
                            <= n && stoks[t] == (tokens@[t].0 as int, tokens@[t].1 as int),
                    spec_face_refs(bs, vertices@, stoks.skip(1)) == face_vertices@
                        + spec_face_refs(bs, vertices@, stoks.skip(ti as int)),
                decreases tokens@.len() - ti,
            {
                let tok: (usize, usize) = tokens[ti];
                proof {
                    assert(stoks.skip(ti as int)[0] == stoks[ti as int]);
                    assert(stoks.skip(ti as int).drop_first() =~= stoks.skip(ti as int + 1));
                }
                // The vertex index is the digit run before the first slash.
                let mut slash: usize = tok.0;
                while slash < tok.1 && bytes[slash] != 47
                    invariant
                        tok.0 <= slash <= tok.1 <= n,
                        n == bs.len(),
                        bs == bytes@,
                        spec_scan_for(bs, tok.0 as int, tok.1 as int, 47) == spec_scan_for(
                            bs,
                            slash as int,
                            tok.1 as int,
                            47,
                        ),
                    decreases tok.1 - slash,
                {
                    slash = slash + 1;
                }
                proof {
                    assert(spec_scan_for(bs, slash as int, tok.1 as int, 47) == slash);
                    assert(spec_scan_from(bs, tok.0 as int, tok.1 as int, 47) == slash);
                }
                match parse_digits(&bytes, tok.0, slash, 0xffffffff) {
                    Option::Some(face_index) => {
                        if face_index >= 1 && face_index <= vertices.len() as u64 {
                            let fi: usize = (face_index - 1) as usize;
                            let vertex: Vector3D = vertices[fi];
                            proof {
                                assert(face_vertices@.push(vertex) + spec_face_refs(
                                    bs,
                                    vertices@,
                                    stoks.skip(ti as int + 1),
                                ) =~= face_vertices@ + (seq![vertex] + spec_face_refs(
                                    bs,
                                    vertices@,
                                    stoks.skip(ti as int + 1),
                                )));
                            }
                            face_vertices.push(vertex);
                        }
                    },
                    Option::None => {},
                }
                ti = ti + 1;
            }
            proof {
                assert(stoks.skip(tokens@.len() as int) =~= Seq::<(int, int)>::empty());
                assert(face_vertices@ + Seq::<Vector3D>::empty() =~= face_vertices@);
            }
            if face_vertices.len() >= 3 {
                let tri: Triangle = Triangle::new(
                    face_vertices[0],
                    face_vertices[1],
                    face_vertices[2],
                    material_index,
                );
                proof {
                    assert(tri == spec_make_triangle(
                        face_vertices@[0],
                        face_vertices@[1],
                        face_vertices@[2],
                        mat,
                    ));
                    line_tris = seq![tri];
                }
                mesh.triangles.push(tri);
            }
        }
        let ghost old_i = i as int;
        i = if line_end < n {
            line_end + 1
        } else {
            n
        };
        proof {
            let cont_old = spec_obj_state(bs, old_i, vertices_before, mat);
            let cont_new = spec_obj_state(bs, i as int, vertices@, mat);
            assert(cont_old.0 == cont_new.0 && cont_old.1 == line_tris + cont_new.1);
            assert((mesh.triangles@.subrange(0, mesh.triangles@.len() - line_tris.len() as int))
                + line_tris =~= mesh.triangles@) by {
                assert(line_tris.len() <= 1);
            }
            assert(spec_obj_state(bs, 0, Seq::empty(), mat).1 =~= mesh.triangles@ + cont_new.1);
        }
    }
    proof {
        assert(spec_obj_state(bs, n as int, vertices@, mat).1 =~= Seq::<Triangle>::empty());
        assert(mesh.triangles@ + Seq::<Triangle>::empty() =~= mesh.triangles@);
    }
    mesh
}

} // verus!
