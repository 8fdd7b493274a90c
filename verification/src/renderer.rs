//! The parts of a render that do not compute with real numbers: which hit each
//! pixel shows (a depth buffer over the hits of all objects) and how the
//! chosen pixel colours are laid out in an RGBA image.
use vstd::prelude::*;

use crate::arrays::{
    image_contents, image_shape, lemma_nonzero_product_3, nonzero, nonzero_product,
    positions_contents, positions_shape, Image, PixelPositions,
};
use crate::camera::{is_position_table, table_row, pixel_of_ray};
use crate::renderer_settings::RenderType;
use crate::scalar::Scalar;

verus! {


/// Bit pattern of the binary64 value `-0`.
pub const NEGATIVE_ZERO_BITS: u64 = 0x8000_0000_0000_0000;

/// The depth key of the binary64 value with bit pattern `bits`: `-0` gets the
/// key of `+0`; a negative value (sign bit set) gets its bits inverted; any
/// other value gets its sign bit set. Keys of non-negative values then order
/// as their bit patterns, which for binary64 values other than NaN is the
/// order of the values; negative values come below them, in reverse order of
/// their bit patterns.
pub open spec fn spec_depth_key(bits: u64) -> u64 {
    if bits == NEGATIVE_ZERO_BITS {
        NEGATIVE_ZERO_BITS
    } else if bits >> 63u64 == 1 {
        !bits
    } else {
        bits | NEGATIVE_ZERO_BITS
    }
}

/// The depth key of a hit distance (see `spec_depth_key`).
pub fn depth_key(dist: Scalar) -> (key: u64)
    ensures
        key == spec_depth_key(dist.bits),
{
    let bits = dist.bits;
    if bits == NEGATIVE_ZERO_BITS {
        NEGATIVE_ZERO_BITS
    } else if bits >> 63u64 == 1 {
        !bits
    } else {
        bits | NEGATIVE_ZERO_BITS
    }
}

/// Whether `key` is the depth key of a NaN: positive NaNs get keys above that
/// of `+inf` (`0xFFF0_0000_0000_0000`), negative NaNs keys below that of
/// `-inf` (`0x000F_FFFF_FFFF_FFFF`).
pub open spec fn is_nan_key(key: u64) -> bool {
    key > 0xFFF0_0000_0000_0000u64 || key < 0x000F_FFFF_FFFF_FFFFu64
}

/// Whether the binary64 bit pattern `bits` is a NaN: all exponent bits set
/// and a non-zero fraction.
pub open spec fn is_nan_bits(bits: u64) -> bool {
    (bits & 0x7FF0_0000_0000_0000u64) == 0x7FF0_0000_0000_0000u64 && (bits
        & 0x000F_FFFF_FFFF_FFFFu64) != 0
}

/// Whether a depth key is the key of a NaN distance.
pub fn is_nan_depth(key: u64) -> (r: bool)
    ensures
        r == is_nan_key(key),
{
    key > 0xFFF0_0000_0000_0000u64 || key < 0x000F_FFFF_FFFF_FFFFu64
}

/// A distance is NaN exactly when its depth key is a NaN key.
pub proof fn law_depth_key_of_nan(bits: u64)
    ensures
        is_nan_bits(bits) <==> is_nan_key(spec_depth_key(bits)),
{
    assert(bits == 0x8000_0000_0000_0000u64 ==> !((bits & 0x7FF0_0000_0000_0000u64)
        == 0x7FF0_0000_0000_0000u64 && (bits & 0x000F_FFFF_FFFF_FFFFu64) != 0)) by (bit_vector);
    assert(!((0x8000_0000_0000_0000u64) > 0xFFF0_0000_0000_0000u64 || (0x8000_0000_0000_0000u64)
        < 0x000F_FFFF_FFFF_FFFFu64));
    assert(bits >> 63u64 == 1 ==> (((bits & 0x7FF0_0000_0000_0000u64) == 0x7FF0_0000_0000_0000u64
        && (bits & 0x000F_FFFF_FFFF_FFFFu64) != 0) <==> (!bits > 0xFFF0_0000_0000_0000u64 || !bits
        < 0x000F_FFFF_FFFF_FFFFu64))) by (bit_vector);
    assert(bits >> 63u64 != 1 ==> (((bits & 0x7FF0_0000_0000_0000u64) == 0x7FF0_0000_0000_0000u64
        && (bits & 0x000F_FFFF_FFFF_FFFFu64) != 0) <==> ((bits | 0x8000_0000_0000_0000u64)
        > 0xFFF0_0000_0000_0000u64 || (bits | 0x8000_0000_0000_0000u64)
        < 0x000F_FFFF_FFFF_FFFFu64))) by (bit_vector);
}

/// Whether no event on pixel `p` carries the depth key of a NaN.
pub open spec fn no_nan_at(events: Seq<(int, ClosestHit)>, p: int) -> bool {
    forall|k: int|
        0 <= k < events.len() && (#[trigger] events[k]).0 == p ==> !is_nan_key(events[k].1.depth)
}

/// Depth keys order values of the same sign as the sign demands: two values
/// without sign bit order as their bit patterns, two with it (other than `-0`)
/// in reverse; every value without sign bit has a larger key than every
/// negative one.
pub proof fn law_depth_key_order(a: u64, b: u64)
    ensures
        a >> 63u64 == 0 && b >> 63u64 == 0 ==> (spec_depth_key(a) < spec_depth_key(b) <==> a < b),
        a >> 63u64 == 1 && b >> 63u64 == 1 && a != NEGATIVE_ZERO_BITS && b != NEGATIVE_ZERO_BITS
            ==> (spec_depth_key(a) < spec_depth_key(b) <==> b < a),
        a >> 63u64 == 0 && b >> 63u64 == 1 && b != NEGATIVE_ZERO_BITS ==> spec_depth_key(b)
            < spec_depth_key(a),
        spec_depth_key(NEGATIVE_ZERO_BITS) == spec_depth_key(0),
{
    assert(a >> 63u64 == 0 && b >> 63u64 == 0 ==> ((a | 0x8000_0000_0000_0000u64) < (b
        | 0x8000_0000_0000_0000u64) <==> a < b)) by (bit_vector);
    assert(a >> 63u64 == 1 && b >> 63u64 == 1 ==> (!a < !b <==> b < a)) by (bit_vector);
    assert(a >> 63u64 == 0 && b >> 63u64 == 1 ==> !b < (a | 0x8000_0000_0000_0000u64))
        by (bit_vector);
    assert(a >> 63u64 == 0 ==> a != 0x8000_0000_0000_0000u64) by (bit_vector);
    assert(b >> 63u64 == 0 ==> b != 0x8000_0000_0000_0000u64) by (bit_vector);
    assert((0u64 | 0x8000_0000_0000_0000u64) == 0x8000_0000_0000_0000u64) by (bit_vector);
    assert((0u64 >> 63u64) == 0) by (bit_vector);
}

/// One intersection of a ray with an object: the index of the ray and a key
/// that orders the intersection's distance along the ray (smaller is closer).
#[derive(Clone, Copy, Debug, PartialEq, Eq, Structural)]
pub struct RayHit {
    pub ray: usize,
    pub depth: u64,
}

/// What a pixel keeps of the hit it shows: the object that was hit, the index
/// of the hit in that object's list of hits, and its depth key.
#[derive(Clone, Copy, Debug, PartialEq, Eq, Structural)]
pub struct ClosestHit {
    pub object: usize,
    pub hit: usize,
    pub depth: u64,
}

/// The hits of each object, as sequences.
pub open spec fn nested(hits: Seq<Vec<RayHit>>) -> Seq<Seq<RayHit>> {
    hits.map_values(|v: Vec<RayHit>| v@)
}

/// The (object, hit) pairs in the order a render visits them: object by
/// object, and within an object in the order of its hits.
pub open spec fn hit_order(hits: Seq<Seq<RayHit>>) -> Seq<(int, int)>
    decreases hits.len(),
{
    if hits.len() == 0 {
        Seq::empty()
    } else {
        hit_order(hits.drop_last()) + Seq::new(
            hits.last().len(),
            |i: int| ((hits.len() - 1) as int, i),
        )
    }
}

/// The pixel index of ray `ray`: row `r` and column `c` of the ray's line in
/// the position table give pixel `r * width + c`.
pub open spec fn ray_pixel(contents: Seq<usize>, cols: int, width: int, ray: int) -> int {
    contents[ray * cols] * width + contents[ray * cols + 1]
}

/// The pixel a hit lands on, together with what that pixel would keep of it.
pub open spec fn hit_event(
    hits: Seq<Seq<RayHit>>,
    contents: Seq<usize>,
    cols: int,
    width: int,
    oi: (int, int),
) -> (int, ClosestHit) {
    let h = hits[oi.0][oi.1];
    (
        ray_pixel(contents, cols, width, h.ray as int),
        ClosestHit { object: oi.0 as usize, hit: oi.1 as usize, depth: h.depth },
    )
}

/// The events of the hits listed in `order`.
pub open spec fn events_along(
    order: Seq<(int, int)>,
    hits: Seq<Seq<RayHit>>,
    contents: Seq<usize>,
    cols: int,
    width: int,
) -> Seq<(int, ClosestHit)> {
    order.map_values(|oi: (int, int)| hit_event(hits, contents, cols, width, oi))
}

/// All events of a render, in the order the render meets them.
pub open spec fn hit_events(
    hits: Seq<Seq<RayHit>>,
    contents: Seq<usize>,
    cols: int,
    width: int,
) -> Seq<(int, ClosestHit)> {
    events_along(hit_order(hits), hits, contents, cols, width)
}

/// What a pixel keeps when a new hit arrives: the kept hit if it is strictly
/// closer, else the new one. As with `<` on distances, a NaN on either side
/// makes the kept hit not closer, so the new hit is taken.
pub open spec fn keep_closer(kept: Option<ClosestHit>, new: ClosestHit) -> Option<ClosestHit> {
    match kept {
        Some(k) => if !is_nan_key(k.depth) && !is_nan_key(new.depth) && k.depth < new.depth {
            Some(k)
        } else {
            Some(new)
        },
        None => Some(new),
    }
}

/// The depth buffer of `pixel_count` pixels after the events, one after the
/// other.
pub open spec fn zbuffer(events: Seq<(int, ClosestHit)>, pixel_count: nat) -> Seq<
    Option<ClosestHit>,
>
    decreases events.len(),
{
    if events.len() == 0 {
        Seq::new(pixel_count, |p: int| None)
    } else {
        let before = zbuffer(events.drop_last(), pixel_count);
        let e = events.last();
        if 0 <= e.0 < pixel_count {
            before.update(e.0, keep_closer(before[e.0], e.1))
        } else {
            before
        }
    }
}

/// Whether every hit names a ray of the position table and lands on one of
/// the `pixel_count` pixels.
pub open spec fn hits_in_range(
    positions: PixelPositions,
    width: int,
    pixel_count: int,
    hits: Seq<Seq<RayHit>>,
) -> bool {
    &&& positions_shape(positions).1 >= 2
    &&& forall|o: int, i: int|
        0 <= o < hits.len() && 0 <= i < hits[o].len() ==> {
            &&& (#[trigger] hits[o][i]).ray < positions_shape(positions).0
            &&& ray_pixel(
                positions_contents(positions),
                positions_shape(positions).1 as int,
                width,
                hits[o][i].ray as int,
            ) < pixel_count
        }
}

/// Whether `c`, arriving as event `k`, is what pixel `p` shows after all
/// events: it lands on `p`, no event on `p` is closer, and every later event
/// on `p` is strictly farther.
pub open spec fn shown_at(events: Seq<(int, ClosestHit)>, p: int, c: ClosestHit, k: int) -> bool {
    &&& 0 <= k < events.len()
    &&& events[k] == (p, c)
    &&& forall|j: int|
        0 <= j < events.len() && (#[trigger] events[j]).0 == p ==> c.depth <= events[j].1.depth
    &&& forall|j: int|
        k < j < events.len() && (#[trigger] events[j]).0 == p ==> c.depth < events[j].1.depth
}

/// The depth buffer shows nothing where no hit lands; where hits land and none
/// of their distances is NaN, it shows the closest of them (the last one
/// among equally close hits).
pub proof fn law_zbuffer_shows_closest(events: Seq<(int, ClosestHit)>, pixel_count: nat, p: int)
    requires
        0 <= p < pixel_count,
    ensures
        zbuffer(events, pixel_count).len() == pixel_count,
        zbuffer(events, pixel_count)[p] is None <==> forall|k: int|
            0 <= k < events.len() ==> (#[trigger] events[k]).0 != p,
        no_nan_at(events, p) ==> (zbuffer(events, pixel_count)[p] matches Some(c) ==> exists|
            k: int,
        | shown_at(events, p, c, k)),
    decreases events.len(),
{
    if events.len() > 0 {
        let prev = events.drop_last();
        let last = events.len() - 1;
        let e = events.last();
        law_zbuffer_shows_closest(prev, pixel_count, p);
        let before = zbuffer(prev, pixel_count);
        let after = zbuffer(events, pixel_count);
        assert(forall|k: int| 0 <= k < last ==> events[k] == #[trigger] prev[k]);
        assert(events[last] == e);
        if no_nan_at(events, p) {
            assert(no_nan_at(prev, p)) by {
                assert forall|k: int|
                    0 <= k < prev.len() && (#[trigger] prev[k]).0 == p implies !is_nan_key(
                    prev[k].1.depth,
                ) by {
                    assert(prev[k] == events[k]);
                }
            }
        }
        if e.0 == p {
            assert(after[p] == keep_closer(before[p], e.1));
            if no_nan_at(events, p) {
            match before[p] {
                None => {
                    assert forall|j: int|
                        0 <= j < events.len() && (#[trigger] events[j]).0
                            == p implies e.1.depth <= events[j].1.depth by {
                        if j < last {
                            assert(prev[j] == events[j]);
                        }
                    }
                    assert(shown_at(events, p, e.1, last));
                    assert(after[p]->0 == e.1);
                },
                Some(o) => {
                    let k = choose|k: int| shown_at(prev, p, o, k);
                    assert(prev[k] == events[k]);
                    assert(!is_nan_key(o.depth) && !is_nan_key(e.1.depth));
                    if o.depth < e.1.depth {
                        assert forall|j: int|
                            0 <= j < events.len() && (#[trigger] events[j]).0
                                == p implies o.depth <= events[j].1.depth by {
                            if j < last {
                                assert(prev[j] == events[j]);
                            }
                        }
                        assert forall|j: int|
                            k < j < events.len() && (#[trigger] events[j]).0
                                == p implies o.depth < events[j].1.depth by {
                            if j < last {
                                assert(prev[j] == events[j]);
                            }
                        }
                        assert(shown_at(events, p, o, k));
                        assert(after[p]->0 == o);
                    } else {
                        assert forall|j: int|
                            0 <= j < events.len() && (#[trigger] events[j]).0
                                == p implies e.1.depth <= events[j].1.depth by {
                            if j < last {
                                assert(prev[j] == events[j]);
                            }
                        }
                        assert(shown_at(events, p, e.1, last));
                        assert(after[p]->0 == e.1);
                    }
                },
            }
            }
        } else {
            assert(after[p] == before[p]);
            match before[p] {
                None => {
                    assert forall|k: int| 0 <= k < events.len() implies (
                    #[trigger] events[k]).0 != p by {
                        if k < last {
                            assert(prev[k] == events[k]);
                        }
                    }
                },
                Some(o) => {
                    if no_nan_at(events, p) {
                    let k = choose|k: int| shown_at(prev, p, o, k);
                    assert forall|j: int|
                        0 <= j < events.len() && (#[trigger] events[j]).0
                            == p implies o.depth <= events[j].1.depth by {
                        if j < last {
                            assert(prev[j] == events[j]);
                        }
                    }
                    assert forall|j: int|
                        k < j < events.len() && (#[trigger] events[j]).0
                            == p implies o.depth < events[j].1.depth by {
                        if j < last {
                            assert(prev[j] == events[j]);
                        }
                    }
                    assert(shown_at(events, p, o, k));
                    assert(after[p]->0 == o);
                    assert(prev[k] == events[k]);
                    }
                },
            }
        }
    }
}


/// Taking one more object adds that object's hits at the end of the order.
proof fn lemma_hit_order_take(hits: Seq<Seq<RayHit>>, o: int)
    requires
        0 <= o < hits.len(),
    ensures
        hit_order(hits.take(o + 1)) == hit_order(hits.take(o)) + Seq::new(
            hits[o].len(),
            |i: int| (o, i),
        ),
{
    assert(hits.take(o + 1).drop_last() =~= hits.take(o));
    assert(hits.take(o + 1).last() == hits[o]);
}

/// One more hit adds its event at the end.
proof fn lemma_events_push(
    order: Seq<(int, int)>,
    x: (int, int),
    hits: Seq<Seq<RayHit>>,
    contents: Seq<usize>,
    cols: int,
    width: int,
)
    ensures
        events_along(order.push(x), hits, contents, cols, width) == events_along(
            order,
            hits,
            contents,
            cols,
            width,
        ).push(hit_event(hits, contents, cols, width, x)),
{
    assert(events_along(order.push(x), hits, contents, cols, width) =~= events_along(
        order,
        hits,
        contents,
        cols,
        width,
    ).push(hit_event(hits, contents, cols, width, x)));
}

/// The depth buffer of a render: for each of the `pixel_count` pixels, the
/// closest of the hits that land on it, or `None` where no hit lands.
///
/// `hits[o]` lists the hits of object `o`; a hit of ray `k` lands on the pixel
/// that row `k` of `positions` names, `row * width + column`. Hits are met
/// object after object; a pixel keeps the hit it holds only while that hit is
/// strictly closer than the new one.
pub fn closest_hits(
    positions: &PixelPositions,
    width: usize,
    pixel_count: usize,
    hits: &Vec<Vec<RayHit>>,
) -> (closest: Vec<Option<ClosestHit>>)
    requires
        hits_in_range(*positions, width as int, pixel_count as int, nested(hits@)),
    ensures
        closest@ == zbuffer(
            hit_events(
                nested(hits@),
                positions_contents(*positions),
                positions_shape(*positions).1 as int,
                width as int,
            ),
            pixel_count as nat,
        ),
{
    let ghost hs = nested(hits@);
    let ghost contents = positions_contents(*positions);
    let (rows, cols) = positions.shape();
    let mut closest: Vec<Option<ClosestHit>> = Vec::new();
    let mut q: usize = 0;
    while q < pixel_count
        invariant
            q <= pixel_count,
            closest@ == Seq::new(q as nat, |p: int| None::<ClosestHit>),
        decreases pixel_count - q,
    {
        closest.push(None);
        q = q + 1;
        assert(closest@ =~= Seq::new(q as nat, |p: int| None::<ClosestHit>));
    }
    assert(hit_order(hs.take(0)) =~= Seq::<(int, int)>::empty()) by {
        assert(hs.take(0) =~= Seq::<Seq<RayHit>>::empty());
    }
    assert(events_along(hit_order(hs.take(0)), hs, contents, cols as int, width as int)
        =~= Seq::<(int, ClosestHit)>::empty());
    for o in 0..hits.len()
        invariant
            hs == nested(hits@),
            contents == positions_contents(*positions),
            (rows, cols) == positions_shape(*positions),
            contents.len() == rows * cols,
            hits_in_range(*positions, width as int, pixel_count as int, hs),
            closest.len() == pixel_count,
            closest@ == zbuffer(
                events_along(hit_order(hs.take(o as int)), hs, contents, cols as int, width as int),
                pixel_count as nat,
            ),
    {
        let object_hits = &hits[o];
        assert(object_hits@ == hs[o as int]);
        for i in 0..object_hits.len()
            invariant
                hs == nested(hits@),
                contents == positions_contents(*positions),
                (rows, cols) == positions_shape(*positions),
                contents.len() == rows * cols,
                hits_in_range(*positions, width as int, pixel_count as int, hs),
                0 <= o < hs.len(),
                closest.len() == pixel_count,
                object_hits@ == hs[o as int],
                closest@ == zbuffer(
                    events_along(
                        hit_order(hs.take(o as int)) + Seq::new(i as nat, |j: int| (o as int, j)),
                        hs,
                        contents,
                        cols as int,
                        width as int,
                    ),
                    pixel_count as nat,
                ),
        {
            let h = object_hits[i];
            assert(h == hs[o as int][i as int]);
            let row = positions.get(h.ray, 0);
            let col = positions.get(h.ray, 1);
            let pixel = row * width + col;
            let candidate = ClosestHit { object: o, hit: i, depth: h.depth };
            let kept = closest[pixel];
            let chosen = match kept {
                Some(c) => if !is_nan_depth(c.depth) && !is_nan_depth(candidate.depth) && c.depth
                    < candidate.depth {
                    Some(c)
                } else {
                    Some(candidate)
                },
                None => Some(candidate),
            };
            let ghost order = hit_order(hs.take(o as int)) + Seq::new(i as nat, |j: int| (o as int, j));
            let ghost events = events_along(order, hs, contents, cols as int, width as int);
            proof {
                assert(order.push((o as int, i as int)) =~= hit_order(hs.take(o as int)) + Seq::new(
                    (i + 1) as nat,
                    |j: int| (o as int, j),
                ));
                lemma_events_push(order, (o as int, i as int), hs, contents, cols as int, width as int);
                let e = hit_event(hs, contents, cols as int, width as int, (o as int, i as int));
                assert(e.0 == pixel);
                assert(e.1 == candidate);
                assert(events.push(e).drop_last() =~= events);
            }
            closest.set(pixel, chosen);
        }
        proof {
            lemma_hit_order_take(hs, o as int);
            assert(hit_order(hs.take(o as int)) + Seq::new(
                hs[o as int].len(),
                |j: int| (o as int, j),
            ) == hit_order(hs.take(o + 1)));
        }
    }
    assert(hs.take(hs.len() as int) =~= hs);
    closest
}




/// In the pixel position table of a camera, ray `k` lands on pixel `k`: the
/// row and column the table gives are undone by `row * width + column`.
pub proof fn law_camera_ray_lands_on_own_pixel(p: PixelPositions, height: int, width: int, k: int)
    requires
        is_position_table(p, height, width),
        0 <= k < height * width,
    ensures
        ray_pixel(positions_contents(p), 2, width, k) == k,
{
    assert(table_row(positions_contents(p), k) == pixel_of_ray(k, width));
    assert(width > 0) by (nonlinear_arith)
        requires
            0 <= k < height * width,
            height >= 0,
            width >= 0,
    ;
    vstd::arithmetic::div_mod::lemma_fundamental_div_mod(k, width);
    assert((k / width) * width == width * (k / width)) by (nonlinear_arith);
}

/// With the pixel position table of a camera, the depth buffer accepts every
/// list of hits whose rays are rays of the camera.
pub proof fn law_camera_hits_in_range(
    p: PixelPositions,
    height: int,
    width: int,
    hits: Seq<Seq<RayHit>>,
)
    requires
        is_position_table(p, height, width),
        forall|o: int, i: int|
            0 <= o < hits.len() && 0 <= i < hits[o].len() ==> (#[trigger] hits[o][i]).ray < height
                * width,
    ensures
        hits_in_range(p, width, height * width, hits),
{
    assert forall|o: int, i: int| 0 <= o < hits.len() && 0 <= i < hits[o].len() implies {
        &&& (#[trigger] hits[o][i]).ray < positions_shape(p).0
        &&& ray_pixel(positions_contents(p), positions_shape(p).1 as int, width, hits[o][i].ray as int)
            < height * width
    } by {
        law_camera_ray_lands_on_own_pixel(p, height, width, hits[o][i].ray as int);
    }
}


/// Every pair of the hit order names an object and one of its hits.
proof fn lemma_hit_order_valid(hits: Seq<Seq<RayHit>>, k: int)
    requires
        0 <= k < hit_order(hits).len(),
    ensures
        0 <= hit_order(hits)[k].0 < hits.len(),
        0 <= hit_order(hits)[k].1 < hits[hit_order(hits)[k].0].len(),
    decreases hits.len(),
{
    if hits.len() > 0 {
        let prefix = hit_order(hits.drop_last());
        if k < prefix.len() {
            lemma_hit_order_valid(hits.drop_last(), k);
            assert(hit_order(hits)[k] == prefix[k]);
        } else {
            assert(hit_order(hits)[k] == ((hits.len() - 1) as int, k - prefix.len()));
        }
    }
}


/// Whether hit `(o1, i1)` comes before hit `(o2, i2)` in a render: an
/// earlier object, or the same object and an earlier hit.
pub open spec fn hit_before(o1: int, i1: int, o2: int, i2: int) -> bool {
    o1 < o2 || (o1 == o2 && i1 < i2)
}

/// Every hit of every object appears in the hit order.
proof fn lemma_hit_order_complete(hits: Seq<Seq<RayHit>>, o: int, i: int)
    requires
        0 <= o < hits.len(),
        0 <= i < hits[o].len(),
    ensures
        exists|k: int| 0 <= k < hit_order(hits).len() && hit_order(hits)[k] == (o, i),
    decreases hits.len(),
{
    let prefix = hit_order(hits.drop_last());
    if o == hits.len() - 1 {
        let k = prefix.len() + i;
        assert(hit_order(hits)[k] == (o, i));
    } else {
        assert(hits.drop_last()[o] == hits[o]);
        lemma_hit_order_complete(hits.drop_last(), o, i);
        let k = choose|k: int| 0 <= k < prefix.len() && prefix[k] == (o, i);
        assert(hit_order(hits)[k] == prefix[k]);
    }
}

/// The hit order lists hits in the order of `hit_before`.
proof fn lemma_hit_order_sorted(hits: Seq<Seq<RayHit>>, k1: int, k2: int)
    requires
        0 <= k1 < k2 < hit_order(hits).len(),
    ensures
        hit_before(hit_order(hits)[k1].0, hit_order(hits)[k1].1, hit_order(hits)[k2].0, hit_order(hits)[k2].1),
    decreases hits.len(),
{
    let prefix = hit_order(hits.drop_last());
    if hits.len() > 0 {
        if k2 < prefix.len() {
            lemma_hit_order_sorted(hits.drop_last(), k1, k2);
            assert(hit_order(hits)[k1] == prefix[k1]);
            assert(hit_order(hits)[k2] == prefix[k2]);
        } else if k1 < prefix.len() {
            lemma_hit_order_valid(hits.drop_last(), k1);
            assert(hit_order(hits)[k1] == prefix[k1]);
            assert(hit_order(hits)[k2] == ((hits.len() - 1) as int, k2 - prefix.len()));
        } else {
            assert(hit_order(hits)[k1] == ((hits.len() - 1) as int, k1 - prefix.len()));
            assert(hit_order(hits)[k2] == ((hits.len() - 1) as int, k2 - prefix.len()));
        }
    }
}

/// Whatever a pixel of the depth buffer holds arrived as an event on it.
proof fn lemma_zbuffer_from_event(events: Seq<(int, ClosestHit)>, pixel_count: nat, p: int)
    requires
        0 <= p < pixel_count,
    ensures
        zbuffer(events, pixel_count).len() == pixel_count,
        zbuffer(events, pixel_count)[p] matches Some(c) ==> exists|k: int|
            0 <= k < events.len() && events[k] == (p, c),
    decreases events.len(),
{
    if events.len() > 0 {
        let prev = events.drop_last();
        lemma_zbuffer_from_event(prev, pixel_count, p);
        let before = zbuffer(prev, pixel_count);
        let e = events.last();
        let last = events.len() - 1;
        assert(events[last] == e);
        if e.0 == p {
            match before[p] {
                Some(o) => {
                    let k = choose|k: int| 0 <= k < prev.len() && prev[k] == (p, o);
                    assert(events[k] == prev[k]);
                },
                None => {},
            }
        } else {
            match before[p] {
                Some(o) => {
                    let k = choose|k: int| 0 <= k < prev.len() && prev[k] == (p, o);
                    assert(events[k] == prev[k]);
                },
                None => {},
            }
        }
    }
}

/// What a render shows in pixel `p`, said of the objects' hits themselves:
/// the pixel is empty exactly when no hit lands on it; otherwise it names an
/// object `o` and its hit `i` that lands on `p` with the shown depth; and when
/// no hit on `p` has a NaN distance, no hit on `p` is closer, and every hit on
/// `p` after `(o, i)` (a later object, or a later hit of `o`) is farther.
pub proof fn law_render_shows_closest_hit(
    contents: Seq<usize>,
    cols: int,
    width: int,
    hits: Seq<Seq<RayHit>>,
    pixel_count: nat,
    shown: Seq<Option<ClosestHit>>,
    p: int,
)
    requires
        shown == zbuffer(hit_events(hits, contents, cols, width), pixel_count),
        0 <= p < pixel_count,
        hits.len() <= usize::MAX,
        forall|o: int| 0 <= o < hits.len() ==> (#[trigger] hits[o]).len() <= usize::MAX,
    ensures
        shown.len() == pixel_count,
        shown[p] is None <==> forall|o: int, i: int|
            0 <= o < hits.len() && 0 <= i < hits[o].len() ==> ray_pixel(
                contents,
                cols,
                width,
                (#[trigger] hits[o][i]).ray as int,
            ) != p,
        shown[p] matches Some(c) ==> {
            &&& c.object < hits.len()
            &&& c.hit < hits[c.object as int].len()
            &&& c.depth == hits[c.object as int][c.hit as int].depth
            &&& ray_pixel(contents, cols, width, hits[c.object as int][c.hit as int].ray as int) == p
        },
        (forall|o: int, i: int|
            0 <= o < hits.len() && 0 <= i < hits[o].len() && ray_pixel(
                contents,
                cols,
                width,
                (#[trigger] hits[o][i]).ray as int,
            ) == p ==> !is_nan_key(hits[o][i].depth)) ==> (shown[p] matches Some(c) ==> {
            &&& forall|o: int, i: int|
                0 <= o < hits.len() && 0 <= i < hits[o].len() && ray_pixel(
                    contents,
                    cols,
                    width,
                    (#[trigger] hits[o][i]).ray as int,
                ) == p ==> c.depth <= hits[o][i].depth
            &&& forall|o: int, i: int|
                0 <= o < hits.len() && 0 <= i < hits[o].len() && ray_pixel(
                    contents,
                    cols,
                    width,
                    (#[trigger] hits[o][i]).ray as int,
                ) == p && hit_before(c.object as int, c.hit as int, o, i) ==> c.depth
                    < hits[o][i].depth
        }),
{
    let order = hit_order(hits);
    let events = hit_events(hits, contents, cols, width);
    assert(events.len() == order.len());
    assert forall|k: int| 0 <= k < events.len() implies {
        let oi = order[k];
        &&& 0 <= oi.0 < hits.len()
        &&& 0 <= oi.1 < hits[oi.0].len()
        &&& (#[trigger] events[k]).0 == ray_pixel(contents, cols, width, hits[oi.0][oi.1].ray as int)
        &&& events[k].1 == (ClosestHit {
            object: oi.0 as usize,
            hit: oi.1 as usize,
            depth: hits[oi.0][oi.1].depth,
        })
    } by {
        lemma_hit_order_valid(hits, k);
    }
    law_zbuffer_shows_closest(events, pixel_count, p);
    lemma_zbuffer_from_event(events, pixel_count, p);
    // Emptiness.
    if shown[p] is None {
        assert forall|o: int, i: int|
            0 <= o < hits.len() && 0 <= i < hits[o].len() implies ray_pixel(
            contents,
            cols,
            width,
            (#[trigger] hits[o][i]).ray as int,
        ) != p by {
            lemma_hit_order_complete(hits, o, i);
            let k = choose|k: int| 0 <= k < order.len() && order[k] == (o, i);
            assert(events[k].0 != p);
        }
    } else {
        let c = shown[p]->0;
        let k = choose|k: int| 0 <= k < events.len() && events[k] == (p, c);
        assert(events[k] == (p, c));
        let oi = order[k];
        assert(0 <= oi.0 < hits.len() && 0 <= oi.1 < hits[oi.0].len());
        assert(hits[oi.0].len() <= usize::MAX);
        assert(c.object as int == oi.0 && c.hit as int == oi.1);
        assert(hits[oi.0][oi.1].ray == hits[oi.0][oi.1].ray);
        if forall|o: int, i: int|
            0 <= o < hits.len() && 0 <= i < hits[o].len() && ray_pixel(
                contents,
                cols,
                width,
                (#[trigger] hits[o][i]).ray as int,
            ) == p ==> !is_nan_key(hits[o][i].depth) {
            assert(no_nan_at(events, p)) by {
                assert forall|j: int|
                    0 <= j < events.len() && (#[trigger] events[j]).0 == p implies !is_nan_key(
                    events[j].1.depth,
                ) by {
                    let oj = order[j];
                    assert(hits[oj.0][oj.1].ray == hits[oj.0][oj.1].ray);
                }
            }
            let kk = choose|kk: int| shown_at(events, p, c, kk);
            assert(events[kk] == (p, c));
            assert(order[kk] == order[k]) by {
                lemma_hit_order_valid(hits, kk);
                assert(hits[order[kk].0].len() <= usize::MAX);
                assert(hits[order[k].0].len() <= usize::MAX);
                if kk < k {
                    lemma_hit_order_sorted(hits, kk, k);
                } else if k < kk {
                    lemma_hit_order_sorted(hits, k, kk);
                }
            }
            assert forall|o: int, i: int|
                0 <= o < hits.len() && 0 <= i < hits[o].len() && ray_pixel(
                    contents,
                    cols,
                    width,
                    (#[trigger] hits[o][i]).ray as int,
                ) == p implies c.depth <= hits[o][i].depth by {
                lemma_hit_order_complete(hits, o, i);
                let j = choose|j: int| 0 <= j < order.len() && order[j] == (o, i);
                assert(events[j].0 == p);
            }
            assert forall|o: int, i: int|
                0 <= o < hits.len() && 0 <= i < hits[o].len() && ray_pixel(
                    contents,
                    cols,
                    width,
                    (#[trigger] hits[o][i]).ray as int,
                ) == p && hit_before(c.object as int, c.hit as int, o, i) implies c.depth
                < hits[o][i].depth by {
                lemma_hit_order_complete(hits, o, i);
                let j = choose|j: int| 0 <= j < order.len() && order[j] == (o, i);
                assert(events[j].0 == p);
                if j <= kk {
                    if j < kk {
                        lemma_hit_order_sorted(hits, j, kk);
                    }
                    assert(false);
                }
            }
        }
    }
}

/// With the pixel position table of a camera, every hit of a render lands on
/// the pixel of its own ray: pixel `k` is reached by the hits of ray `k` only.
pub proof fn law_camera_hit_lands_on_its_ray(
    p: PixelPositions,
    height: int,
    width: int,
    hits: Seq<Seq<RayHit>>,
    k: int,
)
    requires
        is_position_table(p, height, width),
        forall|o: int, i: int|
            0 <= o < hits.len() && 0 <= i < hits[o].len() ==> (#[trigger] hits[o][i]).ray < height
                * width,
        0 <= k < hit_events(hits, positions_contents(p), 2, width).len(),
    ensures
        hit_events(hits, positions_contents(p), 2, width)[k].0 == hits[hit_order(
            hits,
        )[k].0][hit_order(hits)[k].1].ray,
{
    lemma_hit_order_valid(hits, k);
    let oi = hit_order(hits)[k];
    let h = hits[oi.0][oi.1];
    law_camera_ray_lands_on_own_pixel(p, height, width, h.ray as int);
}

/// Whether every hit names a ray of `positions` and lands on one of the
/// `pixel_count` pixels.
fn hits_fit(positions: &PixelPositions, width: usize, pixel_count: usize, hits: &Vec<Vec<RayHit>>) -> (ok:
    bool)
    ensures
        ok == hits_in_range(*positions, width as int, pixel_count as int, nested(hits@)),
{
    let ghost hs = nested(hits@);
    let (rows, cols) = positions.shape();
    if cols < 2 {
        return false;
    }
    for o in 0..hits.len()
        invariant
            hs == nested(hits@),
            (rows, cols) == positions_shape(*positions),
            cols >= 2,
            forall|o2: int, i: int|
                0 <= o2 < o && 0 <= i < hs[o2].len() ==> {
                    &&& (#[trigger] hs[o2][i]).ray < rows
                    &&& ray_pixel(positions_contents(*positions), cols as int, width as int, hs[o2][i].ray as int)
                        < pixel_count
                },
    {
        let object_hits = &hits[o];
        assert(object_hits@ == hs[o as int]);
        for i in 0..object_hits.len()
            invariant
                hs == nested(hits@),
                (rows, cols) == positions_shape(*positions),
                cols >= 2,
                0 <= o < hs.len(),
                object_hits@ == hs[o as int],
                forall|o2: int, i2: int|
                    0 <= o2 < o && 0 <= i2 < hs[o2].len() ==> {
                        &&& (#[trigger] hs[o2][i2]).ray < rows
                        &&& ray_pixel(positions_contents(*positions), cols as int, width as int, hs[o2][i2].ray as int)
                            < pixel_count
                    },
                forall|i2: int|
                    0 <= i2 < i ==> {
                        &&& (#[trigger] hs[o as int][i2]).ray < rows
                        &&& ray_pixel(positions_contents(*positions), cols as int, width as int, hs[o as int][i2].ray as int)
                            < pixel_count
                    },
        {
            let h = object_hits[i];
            assert(h == hs[o as int][i as int]);
            if h.ray >= rows {
                return false;
            }
            let row = positions.get(h.ray, 0);
            let col = positions.get(h.ray, 1);
            let pixel = match row.checked_mul(width) {
                Some(a) => a.checked_add(col),
                None => None,
            };
            match pixel {
                Some(p) => {
                    if p >= pixel_count {
                        return false;
                    }
                },
                None => {
                    return false;
                },
            }
        }
    }
    true
}

/// The depth buffer of `closest_hits`, or `None` where a hit names a ray
/// outside `positions` or lands outside the `pixel_count` pixels (inputs on
/// which a render would index out of bounds).
pub fn closest_hits_checked(
    positions: &PixelPositions,
    width: usize,
    pixel_count: usize,
    hits: &Vec<Vec<RayHit>>,
) -> (closest: Option<Vec<Option<ClosestHit>>>)
    ensures
        closest is Some <==> hits_in_range(*positions, width as int, pixel_count as int, nested(hits@)),
        closest matches Some(c) ==> c@ == zbuffer(
            hit_events(
                nested(hits@),
                positions_contents(*positions),
                positions_shape(*positions).1 as int,
                width as int,
            ),
            pixel_count as nat,
        ),
{
    if hits_fit(positions, width, pixel_count, hits) {
        Some(closest_hits(positions, width, pixel_count, hits))
    } else {
        None
    }
}

/// The colour of a pixel, one byte per channel.
#[derive(Clone, Copy, Debug, PartialEq, Eq, Structural)]
pub struct Rgb {
    pub r: u8,
    pub g: u8,
    pub b: u8,
}

/// The colour of a pixel that no hit reaches: white in depth renders, black
/// in colour renders.
pub open spec fn background(render_type: RenderType) -> Rgb {
    if render_type == RenderType::Depth {
        Rgb { r: 255, g: 255, b: 255 }
    } else {
        Rgb { r: 0, g: 0, b: 0 }
    }
}

/// Channel `c` of a colour shown opaque: red, green, blue, then alpha 255.
pub open spec fn channel(color: Rgb, c: int) -> u8 {
    if c == 0 {
        color.r
    } else if c == 1 {
        color.g
    } else if c == 2 {
        color.b
    } else {
        255
    }
}

/// Byte `k` of the RGBA image of the pixel colours `pixels`: pixel `k / 4`,
/// channel `k % 4`, with the background where a pixel has no colour.
pub open spec fn image_byte(pixels: Seq<Option<Rgb>>, render_type: RenderType, k: int) -> u8 {
    let shown = match pixels[k / 4] {
        Some(color) => color,
        None => background(render_type),
    };
    channel(shown, k % 4)
}


/// The image bytes once the first `done` pixels are opaque.
pub open spec fn alpha_prefix(total: nat, done: int) -> Seq<u8> {
    Seq::new(total, |k: int| if k % 4 == 3 && k / 4 < done { 255u8 } else { 0u8 })
}

/// The image bytes once the first `done` pixels are painted over opaque ones.
pub open spec fn painted_prefix(
    total: nat,
    done: int,
    pixels: Seq<Option<Rgb>>,
    render_type: RenderType,
) -> Seq<u8> {
    Seq::new(
        total,
        |k: int|
            if k / 4 < done {
                image_byte(pixels, render_type, k)
            } else if k % 4 == 3 {
                255u8
            } else {
                0u8
            },
    )
}

proof fn lemma_alpha_step(total: nat, idx: int)
    requires
        0 <= idx,
        idx * 4 + 3 < total,
    ensures
        alpha_prefix(total, idx).update(idx * 4 + 3, 255u8) == alpha_prefix(total, idx + 1),
{
    assert forall|k: int| 0 <= k < total implies #[trigger] alpha_prefix(total, idx).update(
        idx * 4 + 3,
        255u8,
    )[k] == alpha_prefix(total, idx + 1)[k] by {
        if k == idx * 4 + 3 {
            assert(k % 4 == 3 && k / 4 == idx);
        } else if k / 4 == idx {
            assert(k % 4 != 3);
        }
    }
    assert(alpha_prefix(total, idx).update(idx * 4 + 3, 255u8) =~= alpha_prefix(total, idx + 1));
}

proof fn lemma_paint_step(
    total: nat,
    idx: int,
    pixels: Seq<Option<Rgb>>,
    render_type: RenderType,
    shown: Rgb,
)
    requires
        0 <= idx < pixels.len(),
        idx * 4 + 3 < total,
        shown == match pixels[idx] {
            Some(color) => color,
            None => background(render_type),
        },
    ensures
        painted_prefix(total, idx, pixels, render_type).update(idx * 4, shown.r).update(
            idx * 4 + 1,
            shown.g,
        ).update(idx * 4 + 2, shown.b) == painted_prefix(total, idx + 1, pixels, render_type),
{
    let a = painted_prefix(total, idx, pixels, render_type).update(idx * 4, shown.r).update(
        idx * 4 + 1,
        shown.g,
    ).update(idx * 4 + 2, shown.b);
    let b = painted_prefix(total, idx + 1, pixels, render_type);
    assert forall|k: int| 0 <= k < total implies #[trigger] a[k] == b[k] by {
        if idx * 4 <= k < idx * 4 + 4 {
            assert(k / 4 == idx);
            assert(k % 4 == k - idx * 4);
        }
    }
    assert(a =~= b);
}


/// What a painted image holds at each pixel, said of the pixel colours
/// themselves: pixel `p` has bytes `4p`, `4p + 1`, `4p + 2` with the red,
/// green and blue of its colour, or of white (depth renders) or black (colour
/// renders) where it has none, and byte `4p + 3` with 255.
pub proof fn law_paint_shows_pixel(
    height: usize,
    width: usize,
    pixels: Seq<Option<Rgb>>,
    render_type: RenderType,
    bytes: Seq<u8>,
    p: int,
)
    requires
        render_type != RenderType::Normals,
        pixels.len() == height * width,
        bytes == Seq::new((height * width * 4) as nat, |k: int| image_byte(pixels, render_type, k)),
        0 <= p < pixels.len(),
    ensures
        bytes.len() == pixels.len() * 4,
        bytes[4 * p] == match pixels[p] {
            Some(color) => color.r,
            None => if render_type == RenderType::Depth {
                255u8
            } else {
                0u8
            },
        },
        bytes[4 * p + 1] == match pixels[p] {
            Some(color) => color.g,
            None => if render_type == RenderType::Depth {
                255u8
            } else {
                0u8
            },
        },
        bytes[4 * p + 2] == match pixels[p] {
            Some(color) => color.b,
            None => if render_type == RenderType::Depth {
                255u8
            } else {
                0u8
            },
        },
        bytes[4 * p + 3] == 255u8,
{
    assert((4 * p) / 4 == p && (4 * p) % 4 == 0);
    assert((4 * p + 1) / 4 == p && (4 * p + 1) % 4 == 1);
    assert((4 * p + 2) / 4 == p && (4 * p + 2) % 4 == 2);
    assert((4 * p + 3) / 4 == p && (4 * p + 3) % 4 == 3);
}

/// The RGBA image of a render of `height` rows and `width` columns whose
/// pixels, row by row, have the colours `pixels`; a pixel without a colour
/// shows the background of the render type. Every pixel is opaque.
///
/// Normal renders are not implemented; `requires` leaves them out.
pub fn paint(height: usize, width: usize, pixels: &Vec<Option<Rgb>>, render_type: RenderType) -> (image:
    Image)
    requires
        render_type != RenderType::Normals,
        pixels.len() == height * width,
        nonzero_product(seq![height, width, 4usize]) <= isize::MAX,
    ensures
        image_shape(image) == (height, width, 4usize),
        image_contents(image) == Seq::new(
            (height * width * 4) as nat,
            |k: int| image_byte(pixels@, render_type, k),
        ),
{
    proof {
        lemma_nonzero_product_3(height, width, 4);
        assert(height * width * 4 <= nonzero(height) * nonzero(width) * 4) by (nonlinear_arith)
            requires
                height <= nonzero(height),
                width <= nonzero(width),
        ;
    }
    let count: usize = height * width;
    let mut image = Image::zeroed(height, width, 4);
    let ghost total = (height * width * 4) as nat;
    assert(image_contents(image) =~= alpha_prefix(total, 0));
    let mut idx: usize = 0;
    while idx < count
        invariant
            count == height * width,
            count * 4 <= isize::MAX,
            total == count * 4,
            idx <= count,
            image_shape(image) == (height, width, 4usize),
            image_contents(image) == alpha_prefix(total, idx as int),
        decreases count - idx,
    {
        let v = idx / width;
        let u = idx % width;
        proof {
            vstd::arithmetic::div_mod::lemma_fundamental_div_mod(idx as int, width as int);
            assert(v < height) by (nonlinear_arith)
                requires
                    idx < height * width,
                    v == idx / width,
                    width > 0,
            ;
        }
        assert((v * width + u) * 4 + 3 == idx * 4 + 3) by (nonlinear_arith)
            requires
                idx == width * v + u,
        ;
        proof {
            lemma_alpha_step(total, idx as int);
        }
        image.set(v, u, 3, 255);
        idx = idx + 1;
    }
    assert(alpha_prefix(total, count as int) =~= painted_prefix(total, 0, pixels@, render_type));
    let mut idx: usize = 0;
    while idx < count
        invariant
            count == height * width,
            count * 4 <= isize::MAX,
            total == count * 4,
            idx <= count,
            pixels.len() == count,
            render_type != RenderType::Normals,
            image_shape(image) == (height, width, 4usize),
            image_contents(image) == painted_prefix(total, idx as int, pixels@, render_type),
        decreases count - idx,
    {
        let v = idx / width;
        let u = idx % width;
        proof {
            vstd::arithmetic::div_mod::lemma_fundamental_div_mod(idx as int, width as int);
            assert(v < height) by (nonlinear_arith)
                requires
                    idx < height * width,
                    v == idx / width,
                    width > 0,
            ;
        }
        let shown = match pixels[idx] {
            Some(color) => color,
            None => match render_type {
                RenderType::Depth => Rgb { r: 255, g: 255, b: 255 },
                _ => Rgb { r: 0, g: 0, b: 0 },
            },
        };
        assert((v * width + u) * 4 == idx * 4) by (nonlinear_arith)
            requires
                idx == width * v + u,
        ;
        proof {
            lemma_paint_step(total, idx as int, pixels@, render_type, shown);
        }
        image.set(v, u, 0, shown.r);
        image.set(v, u, 1, shown.g);
        image.set(v, u, 2, shown.b);
        idx = idx + 1;
    }
    assert(image_contents(image) =~= Seq::new(
        total,
        |k: int| image_byte(pixels@, render_type, k),
    ));
    image
}

} // verus!
