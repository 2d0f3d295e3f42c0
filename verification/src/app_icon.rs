//! The tray icon: which status it shows and the round fallback image.
use vstd::prelude::*;

use crate::status::{severity, Status};

verus! {

/// The worst of the statuses: `Error` if any is, else `Warn` if any is,
/// else `Okay` (also for no statuses at all).
pub open spec fn worst_status(s: Seq<Status>) -> Status {
    if s.contains(Status::Error) {
        Status::Error
    } else if s.contains(Status::Warn) {
        Status::Warn
    } else {
        Status::Okay
    }
}

/// The status the tray shows for a set of target statuses: the worst one.
pub fn aggregate_status(statuses: &[Status]) -> (r: Status)
    ensures
        r == worst_status(statuses@),
{
    let mut any_err = false;
    let mut any_warn = false;
    let mut i: usize = 0;
    while i < statuses.len()
        invariant
            i <= statuses.len(),
            any_err == statuses@.subrange(0, i as int).contains(Status::Error),
            any_warn == statuses@.subrange(0, i as int).contains(Status::Warn),
        decreases statuses.len() - i,
    {
        let ghost pre = statuses@.subrange(0, i as int);
        let s = statuses[i];
        proof {
            let post = statuses@.subrange(0, i + 1);
            assert(post =~= pre.push(s));
            assert(post.contains(Status::Error) == (pre.contains(Status::Error) || s == Status::Error)) by {
                if s == Status::Error {
                    assert(post[i as int] == s);
                }
                if pre.contains(Status::Error) {
                    let k = choose|k: int| 0 <= k < pre.len() && pre[k] == Status::Error;
                    assert(post[k] == pre[k]);
                }
            }
            assert(post.contains(Status::Warn) == (pre.contains(Status::Warn) || s == Status::Warn)) by {
                if s == Status::Warn {
                    assert(post[i as int] == s);
                }
                if pre.contains(Status::Warn) {
                    let k = choose|k: int| 0 <= k < pre.len() && pre[k] == Status::Warn;
                    assert(post[k] == pre[k]);
                }
            }
        }
        match s {
            Status::Error => {
                any_err = true;
            },
            Status::Warn => {
                any_warn = true;
            },
            Status::Okay => {},
        }
        i = i + 1;
    }
    assert(statuses@.subrange(0, statuses@.len() as int) =~= statuses@);
    if any_err {
        Status::Error
    } else if any_warn {
        Status::Warn
    } else {
        Status::Okay
    }
}

/// The worst status is at least as bad as every status in the set, and is
/// one of them unless the set is empty (then it is `Okay`).
pub proof fn lemma_worst_is_maximum(s: Seq<Status>)
    ensures
        forall|i: int| 0 <= i < s.len() ==> severity(#[trigger] s[i]) <= severity(worst_status(s)),
        s.len() > 0 ==> s.contains(worst_status(s)),
        s.len() == 0 ==> worst_status(s) == Status::Okay,
{
    assert forall|i: int| 0 <= i < s.len() implies severity(#[trigger] s[i]) <= severity(worst_status(s)) by {
        if s[i] == Status::Error {
            assert(s.contains(Status::Error));
        } else if s[i] == Status::Warn {
            assert(s.contains(Status::Warn));
        }
    }
    if s.len() > 0 && !s.contains(Status::Error) && !s.contains(Status::Warn) {
        assert(s[0] == Status::Okay);
    }
}

/// Adding a status never makes the aggregate better.
pub proof fn lemma_worst_monotone(s: Seq<Status>, x: Status)
    ensures
        severity(worst_status(s)) <= severity(worst_status(s.push(x))),
        severity(x) <= severity(worst_status(s.push(x))),
{
    if s.contains(Status::Error) {
        let k = choose|k: int| 0 <= k < s.len() && s[k] == Status::Error;
        assert(s.push(x)[k] == Status::Error);
    }
    if s.contains(Status::Warn) {
        let k = choose|k: int| 0 <= k < s.len() && s[k] == Status::Warn;
        assert(s.push(x)[k] == Status::Warn);
    }
    assert(s.push(x)[s.len() as int] == x);
}

/// The aggregate does not depend on the order of the statuses.
pub proof fn lemma_worst_order_independent(a: Seq<Status>, b: Seq<Status>)
    requires
        a.to_multiset() == b.to_multiset(),
    ensures
        worst_status(a) == worst_status(b),
{
    a.to_multiset_ensures();
    b.to_multiset_ensures();
    let ca = a.to_multiset().count(Status::Error);
    let cb = b.to_multiset().count(Status::Error);
    assert(ca == cb);
    assert(a.contains(Status::Error) <==> ca > 0);
    assert(b.contains(Status::Error) <==> cb > 0);
    let wa = a.to_multiset().count(Status::Warn);
    let wb = b.to_multiset().count(Status::Warn);
    assert(wa == wb);
    assert(a.contains(Status::Warn) <==> wa > 0);
    assert(b.contains(Status::Warn) <==> wb > 0);
}

/// The colour of the fallback icon of a status: green, orange or red.
pub open spec fn status_rgb(s: Status) -> (u8, u8, u8) {
    match s {
        Status::Okay => (0x00, 0xff, 0x00),
        Status::Warn => (0xff, 0xa5, 0x00),
        Status::Error => (0xff, 0x00, 0x00),
    }
}

/// The colour of the fallback icon of a status.
pub fn status_color(s: Status) -> (r: (u8, u8, u8))
    ensures
        r == status_rgb(s),
{
    match s {
        Status::Okay => (0x00, 0xff, 0x00),
        Status::Warn => (0xff, 0xa5, 0x00),
        Status::Error => (0xff, 0x00, 0x00),
    }
}

/// Side of the fallback icon, in pixels.
pub const FALLBACK_ICON_SIZE: u32 = 32;

/// Pixel `(x, y)` of the fallback icon lies in its disc: its distance to
/// the point `(16, 16)` is at most 16.
pub open spec fn in_disc(x: int, y: int) -> bool {
    (x - 16) * (x - 16) + (y - 16) * (y - 16) <= 256
}

/// Channel `ch` (red, green, blue, alpha) of pixel `(x, y)` of the
/// fallback icon: the status colour, opaque, inside the disc; fully
/// transparent black outside.
pub open spec fn icon_byte(s: Status, x: int, y: int, ch: int) -> u8 {
    if in_disc(x, y) {
        if ch == 0 {
            status_rgb(s).0
        } else if ch == 1 {
            status_rgb(s).1
        } else if ch == 2 {
            status_rgb(s).2
        } else {
            255
        }
    } else {
        0
    }
}

/// An RGBA pixel buffer of the `image` crate (`image::RgbaImage`), held
/// whole: Verus sees it through `canvas_bytes` and `canvas_size`.
#[verifier::external_body]
pub struct RgbaCanvas {
    img: image::RgbaImage,
}

/// The bytes of an RGBA image: four per pixel, row after row.
pub uninterp spec fn canvas_bytes(c: RgbaCanvas) -> Seq<u8>;

/// The width and height an RGBA image was made with.
pub uninterp spec fn canvas_size(c: RgbaCanvas) -> (u32, u32);

/// Calls `ImageBuffer::new`: an image of the given size whose bytes are
/// all zero (transparent black), four per pixel. `ImageBuffer::new` computes
/// the length as `4 * width`, then times `height`, each step checked, and
/// panics on overflow; the vector it fills cannot exceed `isize::MAX`
/// bytes. Running out of memory is not ruled out here.
#[verifier::external_body]
fn new_rgba_image(width: u32, height: u32) -> (img: RgbaCanvas)
    requires
        4 * width <= usize::MAX,
        4 * width * height <= usize::MAX,
        4 * width * height <= isize::MAX,
    ensures
        canvas_size(img) == (width, height),
        canvas_bytes(img) == Seq::new((4 * width * height) as nat, |i: int| 0u8),
{
    RgbaCanvas { img: image::RgbaImage::new(width, height) }
}

/// Calls `ImageBuffer::put_pixel` with the colour `px`: the four bytes of
/// pixel `(x, y)`, at `4 * (y * width + x)`, become `px`; nothing else
/// changes.
#[verifier::external_body]
fn put_rgba(img: &mut RgbaCanvas, x: u32, y: u32, px: [u8; 4])
    requires
        x < canvas_size(*old(img)).0,
        y < canvas_size(*old(img)).1,
        4 * (y * canvas_size(*old(img)).0 + x) + 4 <= canvas_bytes(*old(img)).len(),
    ensures
        canvas_size(*final(img)) == canvas_size(*old(img)),
        ({
            let i = 4 * (y * canvas_size(*old(img)).0 + x);
            canvas_bytes(*final(img)) == canvas_bytes(*old(img)).update(i, px[0]).update(
                i + 1,
                px[1],
            ).update(i + 2, px[2]).update(i + 3, px[3])
        }),
{
    img.img.put_pixel(x, y, image::Rgba(px))
}

/// Calls `ImageBuffer::into_raw`: the image's bytes.
#[verifier::external_body]
fn rgba_image_into_raw(img: RgbaCanvas) -> (v: Vec<u8>)
    ensures
        v@ == canvas_bytes(img),
{
    img.img.into_raw()
}

/// The RGBA bytes, row by row, of the 32x32 fallback icon of a status: a
/// disc of the status colour on a transparent background.
pub fn fallback_icon_rgba(s: Status) -> (v: Vec<u8>)
    ensures
        v.len() == 4 * 32 * 32,
        forall|x: int, y: int, ch: int|
            0 <= x < 32 && 0 <= y < 32 && 0 <= ch < 4 ==> #[trigger] v@[4 * (32 * y + x) + ch]
                == icon_byte(s, x, y, ch),
{
    let (r, g, b) = status_color(s);
    let mut img = new_rgba_image(32, 32);
    let mut y: u32 = 0;
    while y < 32
        invariant
            y <= 32,
            (r, g, b) == status_rgb(s),
            canvas_size(img) == (32u32, 32u32),
            canvas_bytes(img).len() == 4096,
            forall|k: int| 0 <= k < 128 * y ==> #[trigger] canvas_bytes(img)[k] == icon_byte(s, (k / 4) % 32, (k / 4) / 32, k % 4),
        decreases 32 - y,
    {
        let mut x: u32 = 0;
        while x < 32
            invariant
                y < 32,
                x <= 32,
                (r, g, b) == status_rgb(s),
                canvas_size(img) == (32u32, 32u32),
                canvas_bytes(img).len() == 4096,
                forall|k: int| 0 <= k < 128 * y + 4 * x ==> #[trigger] canvas_bytes(img)[k] == icon_byte(s, (k / 4) % 32, (k / 4) / 32, k % 4),
            decreases 32 - x,
        {
            let dx: i32 = x as i32 - 16;
            let dy: i32 = y as i32 - 16;
            assert(0 <= dx * dx <= 256) by (nonlinear_arith)
                requires
                    -16 <= dx <= 15,
            ;
            assert(0 <= dy * dy <= 256) by (nonlinear_arith)
                requires
                    -16 <= dy <= 15,
            ;
            let inside = dx * dx + dy * dy <= 256;
            let ghost base = 128 * y + 4 * x;
            proof {
                assert(y * 32 + x == 32 * y + x);
                assert forall|c: int| 0 <= c < 4 implies (#[trigger] ((base + c) / 4)) == 32 * y + x && (base + c) % 4 == c by {}
                assert((32 * y + x) % 32 == x as int);
                assert((32 * y + x) / 32 == y as int);
                assert(inside == in_disc(x as int, y as int));
            }
            let px: [u8; 4] = if inside {
                [r, g, b, 255]
            } else {
                [0, 0, 0, 0]
            };
            put_rgba(&mut img, x, y, px);
            x = x + 1;
        }
        y = y + 1;
    }
    let v = rgba_image_into_raw(img);
    proof {
        assert forall|x: int, y: int, ch: int|
            0 <= x < 32 && 0 <= y < 32 && 0 <= ch < 4 implies #[trigger] v@[4 * (32 * y + x) + ch]
                == icon_byte(s, x, y, ch) by {
            let k = 4 * (32 * y + x) + ch;
            assert(k / 4 == 32 * y + x);
            assert(k % 4 == ch);
            assert((32 * y + x) % 32 == x);
            assert((32 * y + x) / 32 == y);
        }
    }
    v
}

} // verus!
