//! The colour transforms on whole RGBA8 buffers.
//!
//! A buffer holds four bytes per pixel, red, green, blue and alpha, row after
//! row. Each transform changes the colour bytes of every pixel by the pixel's
//! own colour alone and leaves every alpha byte as it is.
use vstd::prelude::*;
use crate::hsl::{
    chroma, hue_of, rehue_saturate_pixel, rehue_saturate_rgb, rotate_saturate_pixel,
    rotate_saturate_rgb, pixel_hue, Hue,
};
use crate::image::ImType;

verus! {

/// The red, green and blue bytes of pixel `i`.
pub open spec fn rgb_at(s: Seq<u8>, i: int) -> (u8, u8, u8) {
    (s[4 * i], s[4 * i + 1], s[4 * i + 2])
}

/// Byte `k` (0, 1 or 2) of a colour.
pub open spec fn channel_of(t: (u8, u8, u8), k: int) -> u8 {
    if k == 0 {
        t.0
    } else if k == 1 {
        t.1
    } else {
        t.2
    }
}

/// The colour of a pixel after the rotate-and-saturate transform.
pub open spec fn rotated_rgb_at(s: Seq<u8>, i: int) -> (u8, u8, u8) {
    let p = rgb_at(s, i);
    rotate_saturate_rgb(p.0, p.1, p.2)
}

/// A buffer after the rotate-and-saturate transform: each pixel's hue turned
/// half a turn and its saturation multiplied by four, clamped to one.
pub open spec fn rotate_saturate_buffer(s: Seq<u8>) -> Seq<u8> {
    Seq::new(
        s.len(),
        |j: int|
            if j % 4 == 3 {
                s[j]
            } else {
                channel_of(rotated_rgb_at(s, j / 4), j % 4)
            },
    )
}

/// Pixel `i` of `new` is pixel `i` of `old` after the hue stretch: its alpha
/// kept; if grey, kept whole; else given a hue that `stretch` returns for its
/// hue (in minutes of arc) and its saturation multiplied by four, clamped to one.
pub open spec fn pixel_stretched<F: Fn(Hue) -> u32>(
    old: Seq<u8>,
    new: Seq<u8>,
    stretch: F,
    i: int,
) -> bool {
    let p = rgb_at(old, i);
    &&& new[4 * i + 3] == old[4 * i + 3]
    &&& if chroma(p.0, p.1, p.2) == 0 {
        rgb_at(new, i) == p
    } else {
        exists|m: u32|
            call_ensures(stretch, (hue_of(p.0, p.1, p.2),), m) && rgb_at(new, i)
                == rehue_saturate_rgb(p.0, p.1, p.2, m)
    }
}

/// `new` is `old` after the hue stretch of every pixel.
pub open spec fn is_stretch_of<F: Fn(Hue) -> u32>(old: Seq<u8>, new: Seq<u8>, stretch: F) -> bool {
    &&& new.len() == old.len()
    &&& forall|i: int| 0 <= i < old.len() / 4 ==> #[trigger] pixel_stretched(old, new, stretch, i)
}

/// Turns the hue of every pixel half a turn and multiplies its saturation by
/// four, clamped to one; lightness and alpha are kept.
pub fn saturate_and_rotate(data: &mut [u8])
    requires
        old(data)@.len() % 4 == 0,
    ensures
        final(data)@ == rotate_saturate_buffer(old(data)@),
{
    let ghost before = data@;
    let n: usize = data.len() / 4;
    assert(before.len() <= usize::MAX);
    let mut i: usize = 0;
    while i < n
        invariant
            n == before.len() / 4,
            before.len() % 4 == 0,
            before.len() <= usize::MAX,
            i <= n,
            data@.len() == before.len(),
            forall|j: int| 0 <= j < 4 * i ==> data@[j] == #[trigger] rotate_saturate_buffer(before)[j],
            forall|j: int| 4 * i <= j < data@.len() ==> data@[j] == before[j],
        decreases n - i,
    {
        let k: usize = 4 * i;
        let out = rotate_saturate_pixel(data[k], data[k + 1], data[k + 2]);
        data[k] = out.0;
        data[k + 1] = out.1;
        data[k + 2] = out.2;
        proof {
            assert(out == rotated_rgb_at(before, i as int));
            assert forall|j: int| 0 <= j < 4 * (i + 1) implies data@[j]
                == #[trigger] rotate_saturate_buffer(before)[j] by {
                if j >= 4 * i {
                    assert(j / 4 == i);
                }
            }
        }
        i = i + 1;
    }
    assert(data@ =~= rotate_saturate_buffer(before));
}

/// Stretches the hue of every pixel that is not grey: `stretch` is handed the
/// pixel's hue and returns the new one in minutes of arc, and the saturation
/// is multiplied by four, clamped to one. Lightness and alpha are kept, and
/// grey pixels stay as they are.
///
/// The new hue is thus a whole number of minutes of arc (taken modulo a full
/// turn). A minute of arc moves a rebuilt channel by at most 255 / 3600 of a
/// byte, so the rounding of the hue changes a byte by one at most.
pub fn color_stretch<F: Fn(Hue) -> u32>(data: &mut [u8], stretch: F)
    requires
        old(data)@.len() % 4 == 0,
        forall|h: Hue| h.wf() ==> stretch.requires((h,)),
    ensures
        is_stretch_of(old(data)@, final(data)@, stretch),
{
    let ghost before = data@;
    let n: usize = data.len() / 4;
    assert(before.len() <= usize::MAX);
    let mut i: usize = 0;
    while i < n
        invariant
            n == before.len() / 4,
            before.len() % 4 == 0,
            before.len() <= usize::MAX,
            i <= n,
            data@.len() == before.len(),
            forall|h: Hue| h.wf() ==> stretch.requires((h,)),
            forall|p: int| 0 <= p < i ==> #[trigger] pixel_stretched(before, data@, stretch, p),
            forall|j: int| 4 * i <= j < data@.len() ==> data@[j] == before[j],
        decreases n - i,
    {
        let k: usize = 4 * i;
        let (r, g, b) = (data[k], data[k + 1], data[k + 2]);
        let ghost prev = data@;
        match pixel_hue(r, g, b) {
            None => {},
            Some(h) => {
                let minutes = stretch(h);
                let out = rehue_saturate_pixel(r, g, b, minutes);
                data[k] = out.0;
                data[k + 1] = out.1;
                data[k + 2] = out.2;
                assert(rgb_at(data@, i as int) == rehue_saturate_rgb(r, g, b, minutes));
            },
        }
        proof {
            assert forall|p: int| 0 <= p < i + 1 implies #[trigger] pixel_stretched(
                before,
                data@,
                stretch,
                p,
            ) by {
                if p < i {
                    assert(pixel_stretched(before, prev, stretch, p));
                    assert(rgb_at(data@, p) == rgb_at(prev, p));
                }
            }
        }
        i = i + 1;
    }
}

/// Shows an image as `mode` asks: the original bytes, the rotate-and-saturate
/// transform, or the hue stretch through `stretch`.
pub fn apply_transform<F: Fn(Hue) -> u32>(mode: ImType, data: &mut [u8], stretch: F)
    requires
        old(data)@.len() % 4 == 0,
        forall|h: Hue| h.wf() ==> stretch.requires((h,)),
    ensures
        match mode {
            ImType::Original => final(data)@ == old(data)@,
            ImType::Rotated => final(data)@ == rotate_saturate_buffer(old(data)@),
            ImType::Stretch => is_stretch_of(old(data)@, final(data)@, stretch),
        },
{
    match mode {
        ImType::Original => {},
        ImType::Rotated => saturate_and_rotate(data),
        ImType::Stretch => color_stretch(data, stretch),
    }
}

/// Every pixel of the buffer is grey.
pub open spec fn all_grey(s: Seq<u8>) -> bool {
    forall|i: int|
        0 <= i < s.len() / 4 ==> {
            let p = #[trigger] rgb_at(s, i);
            p.0 == p.1 && p.1 == p.2
        }
}

/// Both transforms keep the buffer's shape: its length, and every alpha byte.
pub proof fn lemma_shape_kept<F: Fn(Hue) -> u32>(old: Seq<u8>, new: Seq<u8>, stretch: F)
    requires
        old.len() % 4 == 0,
    ensures
        rotate_saturate_buffer(old).len() == old.len(),
        forall|j: int|
            0 <= j < old.len() && j % 4 == 3 ==> #[trigger] rotate_saturate_buffer(old)[j] == old[j],
        is_stretch_of(old, new, stretch) ==> {
            &&& new.len() == old.len()
            &&& forall|j: int| 0 <= j < old.len() && j % 4 == 3 ==> #[trigger] new[j] == old[j]
        },
{
    if is_stretch_of(old, new, stretch) {
        assert forall|j: int| 0 <= j < old.len() && j % 4 == 3 implies #[trigger] new[j] == old[j] by {
            assert(pixel_stretched(old, new, stretch, j / 4));
        }
    }
}

/// Byte `j` of a buffer whose pixel `j / 4` is grey is the byte of that
/// pixel's grey level or its alpha.
proof fn lemma_grey_byte(s: Seq<u8>, j: int)
    requires
        0 <= j < s.len(),
        s.len() % 4 == 0,
        all_grey(s),
    ensures
        ({
            let p = rgb_at(s, j / 4);
            &&& p.0 == p.1 && p.1 == p.2
            &&& j % 4 != 3 ==> s[j] == p.0
            &&& 4 * (j / 4) + 3 < s.len()
        }),
{
    let p = rgb_at(s, j / 4);
    assert(p.0 == p.1 && p.1 == p.2);
}

proof fn lemma_grey_buffer_rotated(old: Seq<u8>)
    requires
        old.len() % 4 == 0,
        all_grey(old),
    ensures
        rotate_saturate_buffer(old) == old,
{
    assert forall|j: int| 0 <= j < old.len() implies #[trigger] rotate_saturate_buffer(old)[j]
        == old[j] by {
        lemma_grey_byte(old, j);
        let p = rgb_at(old, j / 4);
        assert(rotated_rgb_at(old, j / 4) == p);
    }
    assert(rotate_saturate_buffer(old) =~= old);
}

proof fn lemma_grey_buffer_stretched<F: Fn(Hue) -> u32>(old: Seq<u8>, new: Seq<u8>, stretch: F)
    requires
        old.len() % 4 == 0,
        all_grey(old),
        is_stretch_of(old, new, stretch),
    ensures
        new == old,
{
    assert forall|j: int| 0 <= j < old.len() implies #[trigger] new[j] == old[j] by {
        lemma_grey_byte(old, j);
        assert(pixel_stretched(old, new, stretch, j / 4));
    }
    assert(new =~= old);
}

/// A buffer of grey pixels, black and white included, comes out of both
/// transforms unchanged.
pub proof fn lemma_grey_buffer_fixed<F: Fn(Hue) -> u32>(old: Seq<u8>, new: Seq<u8>, stretch: F)
    requires
        old.len() % 4 == 0,
        all_grey(old),
    ensures
        rotate_saturate_buffer(old) == old,
        is_stretch_of(old, new, stretch) ==> new == old,
{
    lemma_grey_buffer_rotated(old);
    if is_stretch_of(old, new, stretch) {
        lemma_grey_buffer_stretched(old, new, stretch);
    }
}

} // verus!
