//! The camera: viewport geometry derived once, jittered sample rays, and
//! the textual pixel stream, every character of which is pinned down.

use vstd::prelude::*;

verus! {

use vstd::string::StringExecFns;
use crate::fixed::{
    SCALE,
    mag,
    fx_mul,
    fx_div,
    fx_trunc,
    fx_sqrt,
    tdiv64,
    spec_fx_mul,
    spec_fx_div,
    spec_fx_sqrt,
    spec_tdiv,
    spec_clip,
    lemma_tdiv_exact,
};
use crate::vec3::{Vec3, spec_vadd, spec_vsub, spec_vmul, spec_vsplat};
use crate::ray::Ray;
use crate::interval::{Interval, POS_INF, spec_clamp};

/// Something that can turn a ray into a color; what the color satisfies is
/// the implementor's own account.
pub trait Renderable {
    /// What the implementor promises of a rendered color.
    spec fn render_spec(&self, ray: Ray, depth: u32, interval: Interval, color: Vec3) -> bool;

    fn render_pixel(&self, ray: &Ray, depth: u32, interval: Interval) -> (color: Vec3)
        ensures
            self.render_spec(*ray, depth, interval, color),
    ;
}

/// The decimal digit characters.
pub open spec fn spec_digit(d: int) -> char {
    if d == 0 {
        '0'
    } else if d == 1 {
        '1'
    } else if d == 2 {
        '2'
    } else if d == 3 {
        '3'
    } else if d == 4 {
        '4'
    } else if d == 5 {
        '5'
    } else if d == 6 {
        '6'
    } else if d == 7 {
        '7'
    } else if d == 8 {
        '8'
    } else {
        '9'
    }
}

/// The decimal digits of a non-negative number.
pub open spec fn spec_dec(n: int) -> Seq<char>
    decreases n,
{
    if n < 10 {
        seq![spec_digit(n)]
    } else {
        spec_dec(n / 10) + seq![spec_digit(n % 10)]
    }
}

/// The pixel-stream header: magic line, dimensions, the channel maximum,
/// and the blank separator line.
pub open spec fn spec_header(w: u32, h: u32) -> Seq<char> {
    seq!['P', '3', '\n'] + spec_dec(w as int) + seq![' '] + spec_dec(h as int) + seq!['\n']
        + spec_dec(255) + seq!['\n', '\n']
}

/// One output channel: average the accumulated samples, gamma-correct,
/// clamp, and scale to a byte, in that order.
pub open spec fn spec_byte(sum: int, spp: int) -> int {
    let avg = spec_tdiv(sum, spp);
    let g = spec_fx_sqrt(avg);
    let cl = spec_clamp(Interval::spec_new(0, 999), spec_clip(g) as i64);
    spec_tdiv(256 * (cl as int), SCALE as int)
}

/// One line of the pixel stream: the three channel bytes of one pixel.
pub open spec fn spec_color_line(pixel: Vec3, spp: int) -> Seq<char> {
    spec_dec(spec_byte(pixel.x as int, spp)) + seq![' '] + spec_dec(spec_byte(pixel.y as int, spp))
        + seq![' '] + spec_dec(spec_byte(pixel.z as int, spp))
}

/// The pixel lines of the stream, one per accumulated pixel color.
pub open spec fn spec_body(pix: Seq<Vec3>, spp: int) -> Seq<char>
    decreases pix.len(),
{
    if pix.len() == 0 {
        Seq::empty()
    } else {
        spec_body(pix.drop_last(), spp) + spec_color_line(pix.last(), spp) + seq!['\n']
    }
}

/// One sample color of pixel `(i, j)`: a color `world` vouches for under
/// its own account, for some jittered ray through the pixel at the
/// camera's full bounce budget over the standard near-clip interval.
pub open spec fn spec_sample_ok<R: Renderable>(
    cam: Camera,
    world: &R,
    i: u32,
    j: u32,
    c: Vec3,
) -> bool {
    exists|px: i64, py: i64|
        -500 <= px < 500 && -500 <= py < 500 && #[trigger] world.render_spec(
            spec_get_ray(cam, i, j, px, py),
            cam.max_depth,
            Interval::spec_new(1, POS_INF),
            c,
        )
}

/// The running sum of a sequence of sample colors.
pub open spec fn spec_color_sum(samples: Seq<Vec3>) -> Vec3
    decreases samples.len(),
{
    if samples.len() == 0 {
        spec_vsplat(0)
    } else {
        spec_vadd(spec_color_sum(samples.drop_last()), samples.last())
    }
}

/// The accumulated color of one pixel: the sum of `n` sample colors, each
/// of which `world` vouches for.
pub open spec fn spec_pixel_samples_ok<R: Renderable>(
    cam: Camera,
    world: &R,
    i: u32,
    j: u32,
    sum: Vec3,
    n: int,
) -> bool {
    exists|samples: Seq<Vec3>|
        {
            &&& samples.len() == n
            &&& forall|m: int|
                0 <= m < samples.len() ==> spec_sample_ok(
                    cam,
                    world,
                    i,
                    j,
                    #[trigger] samples[m],
                )
            &&& sum == spec_color_sum(samples)
        }
}

fn push_digit(s: &mut String, d: u32)
    requires
        d < 10,
    ensures
        final(s)@ == old(s)@ + seq![spec_digit(d as int)],
{
    if d == 0 {
        s.append("0");
        proof {
            reveal_strlit("0");
            assert(old(s)@ + "0"@ =~= old(s)@ + seq![spec_digit(0)]);
        }
    } else if d == 1 {
        s.append("1");
        proof {
            reveal_strlit("1");
            assert(old(s)@ + "1"@ =~= old(s)@ + seq![spec_digit(1)]);
        }
    } else if d == 2 {
        s.append("2");
        proof {
            reveal_strlit("2");
            assert(old(s)@ + "2"@ =~= old(s)@ + seq![spec_digit(2)]);
        }
    } else if d == 3 {
        s.append("3");
        proof {
            reveal_strlit("3");
            assert(old(s)@ + "3"@ =~= old(s)@ + seq![spec_digit(3)]);
        }
    } else if d == 4 {
        s.append("4");
        proof {
            reveal_strlit("4");
            assert(old(s)@ + "4"@ =~= old(s)@ + seq![spec_digit(4)]);
        }
    } else if d == 5 {
        s.append("5");
        proof {
            reveal_strlit("5");
            assert(old(s)@ + "5"@ =~= old(s)@ + seq![spec_digit(5)]);
        }
    } else if d == 6 {
        s.append("6");
        proof {
            reveal_strlit("6");
            assert(old(s)@ + "6"@ =~= old(s)@ + seq![spec_digit(6)]);
        }
    } else if d == 7 {
        s.append("7");
        proof {
            reveal_strlit("7");
            assert(old(s)@ + "7"@ =~= old(s)@ + seq![spec_digit(7)]);
        }
    } else if d == 8 {
        s.append("8");
        proof {
            reveal_strlit("8");
            assert(old(s)@ + "8"@ =~= old(s)@ + seq![spec_digit(8)]);
        }
    } else {
        s.append("9");
        proof {
            reveal_strlit("9");
            assert(old(s)@ + "9"@ =~= old(s)@ + seq![spec_digit(9)]);
        }
    }
}

fn push_dec(s: &mut String, n: u32)
    ensures
        final(s)@ == old(s)@ + spec_dec(n as int),
    decreases n,
{
    if n >= 10 {
        push_dec(s, n / 10);
        push_digit(s, n % 10);
        proof {
            assert(s@ =~= old(s)@ + spec_dec(n as int));
        }
    } else {
        push_digit(s, n);
    }
}

/// One channel byte of the stream.
fn finalize_channel(sum: i64, samples_per_pixel: u32) -> (b: u32)
    ensures
        b as int == spec_byte(sum as int, samples_per_pixel as int),
        b <= 255,
{
    let avg = tdiv64(sum, samples_per_pixel as i64);
    let g = fx_sqrt(avg);
    let intensity = Interval::new(0, 999);
    let cl = intensity.clamp(g);
    proof {
        crate::fixed::lemma_tdiv_monotone(0, 256 * (cl as int), SCALE as int);
        crate::fixed::lemma_tdiv_monotone(256 * (cl as int), 255744, SCALE as int);
        vstd::arithmetic::div_mod::lemma_fundamental_div_mod_converse(255744, 1000, 255, 744);
        assert(spec_tdiv(255744, 1000) == 255);
    }
    let byte = tdiv64(256 * cl, SCALE);
    byte as u32
}

/// The pixel's accumulated color, averaged over the samples, gamma-2
/// corrected, clamped, and written as three decimal bytes.
pub fn render_color(pixel: Vec3, samples_per_pixel: u32) -> (line: String)
    ensures
        line@ == spec_color_line(pixel, samples_per_pixel as int),
{
    let mut line = String::new();
    let br = finalize_channel(pixel.x(), samples_per_pixel);
    let bg = finalize_channel(pixel.y(), samples_per_pixel);
    let bb = finalize_channel(pixel.z(), samples_per_pixel);
    push_dec(&mut line, br);
    line.append(" ");
    push_dec(&mut line, bg);
    line.append(" ");
    push_dec(&mut line, bb);
    proof {
        reveal_strlit(" ");
        assert(" "@ =~= seq![' ']);
        assert(line@ =~= spec_color_line(pixel, samples_per_pixel as int));
    }
    line
}

#[derive(Debug, Clone, Copy, PartialEq, Eq, Structural)]
pub struct Camera {
    pub aspect_ratio: i64,
    pub image_width: u32,
    pub image_height: u32,
    pub center: Vec3,
    pub pixel_delta_u: Vec3,
    pub pixel_delta_v: Vec3,
    pub pixel00_loc: Vec3,
    pub samples_per_pixel: u32,
    pub max_depth: u32,
}

/// A whole number of pixels as a fixed-point scalar.
pub open spec fn spec_whole(n: u32) -> i64 {
    ((n as int) * (SCALE as int)) as i64
}

fn fx_whole(n: u32) -> (r: i64)
    ensures
        r == spec_whole(n),
{
    (n as i64) * SCALE
}

/// The derived image height: the width over the aspect ratio, truncated,
/// never less than one.
pub open spec fn spec_image_height(aspect_ratio: i64, image_width: u32) -> u32 {
    let hfx = spec_fx_div(spec_whole(image_width) as int, aspect_ratio as int);
    let ht = spec_tdiv(hfx, SCALE as int);
    if ht < 1 {
        1u32
    } else if ht > u32::MAX {
        u32::MAX
    } else {
        ht as u32
    }
}

/// The whole camera, derived from the four construction parameters.
pub open spec fn spec_camera(
    aspect_ratio: i64,
    image_width: u32,
    samples_per_pixel: u32,
    max_depth: u32,
) -> Camera {
    let image_height = spec_image_height(aspect_ratio, image_width);
    let center = spec_vsplat(0);
    let viewport_height: int = 2 * (SCALE as int);
    let viewport_width = spec_fx_mul(
        spec_fx_div(spec_whole(image_width) as int, spec_whole(image_height) as int),
        viewport_height,
    ) as i64;
    let viewport_u = Vec3 { x: viewport_width, y: 0, z: 0 };
    let viewport_v = Vec3 { x: 0, y: (-viewport_height) as i64, z: 0 };
    let pixel_delta_v = crate::vec3::spec_vdiv(viewport_v, spec_vsplat(spec_whole(image_height)));
    let pixel_delta_u = crate::vec3::spec_vdiv(viewport_u, spec_vsplat(spec_whole(image_width)));
    let viewport_upper_left = spec_vsub(
        spec_vsub(
            spec_vsub(center, Vec3 { x: 0, y: 0, z: SCALE }),
            crate::vec3::spec_vdiv(viewport_u, spec_vsplat((2 * SCALE) as i64)),
        ),
        crate::vec3::spec_vdiv(viewport_v, spec_vsplat((2 * SCALE) as i64)),
    );
    let pixel00_loc = spec_vadd(
        viewport_upper_left,
        spec_vmul(spec_vsplat(500), spec_vadd(pixel_delta_u, pixel_delta_v)),
    );
    Camera {
        aspect_ratio,
        image_width,
        image_height,
        center,
        pixel_delta_u,
        pixel_delta_v,
        pixel00_loc,
        samples_per_pixel: if samples_per_pixel == 0 {
            10u32
        } else {
            samples_per_pixel
        },
        max_depth: if max_depth == 0 {
            10u32
        } else {
            max_depth
        },
    }
}

/// The ray through pixel `(i, j)`, jittered inside the pixel's footprint
/// by the sub-pixel offsets `px` and `py`.
pub open spec fn spec_get_ray(cam: Camera, i: u32, j: u32, px: i64, py: i64) -> Ray {
    let pixel_center = spec_vadd(
        spec_vadd(cam.pixel00_loc, spec_vmul(spec_vsplat(spec_whole(i)), cam.pixel_delta_u)),
        spec_vmul(spec_vsplat(spec_whole(j)), cam.pixel_delta_v),
    );
    let sample_square = spec_vadd(
        spec_vmul(cam.pixel_delta_u, spec_vsplat(px)),
        spec_vmul(cam.pixel_delta_v, spec_vsplat(py)),
    );
    let pixel_sample = spec_vadd(pixel_center, sample_square);
    Ray { origin: cam.center, direction: spec_vsub(pixel_sample, cam.center) }
}

impl Camera {
    pub fn new(aspect_ratio: i64, image_width: u32, samples_per_pixel: u32, max_depth: u32) -> (c:
        Camera)
        ensures
            c == spec_camera(aspect_ratio, image_width, samples_per_pixel, max_depth),
    {
        let wf = fx_whole(image_width);
        let ht = fx_trunc(fx_div(wf, aspect_ratio));
        let image_height: u32 = if ht < 1 {
            1
        } else if ht > u32::MAX as i64 {
            u32::MAX
        } else {
            ht as u32
        };

        // camera
        let focal_length: i64 = SCALE;
        let center = Vec3::new(0, 0, 0);
        let viewport_height: i64 = 2 * SCALE;
        let viewport_width = fx_mul(fx_div(fx_whole(image_width), fx_whole(image_height)),
            viewport_height);

        // the vectors across the horizontal and down the vertical axis of
        // the viewport
        let viewport_u = Vec3::new(viewport_width, 0, 0);
        let viewport_v = Vec3::new(0, -viewport_height, 0);
        let pixel_delta_v = viewport_v.div(Vec3::from(fx_whole(image_height)));
        let pixel_delta_u = viewport_u.div(Vec3::from(fx_whole(image_width)));

        // the location of the upper left pixel
        let viewport_upper_left = center.sub(Vec3::new(0, 0, focal_length)).sub(
            viewport_u.div(Vec3::from(2 * SCALE)),
        ).sub(viewport_v.div(Vec3::from(2 * SCALE)));
        let pixel00_loc = viewport_upper_left.add(
            Vec3::from(500).mul(pixel_delta_u.add(pixel_delta_v)),
        );
        let samples_per_pixel = if samples_per_pixel == 0 {
            10
        } else {
            samples_per_pixel
        };
        let max_depth = if max_depth == 0 {
            10
        } else {
            max_depth
        };

        Camera {
            aspect_ratio,
            image_width,
            image_height,
            center,
            pixel_delta_u,
            pixel_delta_v,
            pixel00_loc,
            samples_per_pixel,
            max_depth,
        }
    }

    /// Render every pixel in raster order into the textual pixel stream:
    /// the exact header, then one line of three bytes per pixel, each
    /// pixel the finalization of renderer-vouched sample colors.
    #[verifier::rlimit(50)]
    pub fn render<R: Renderable>(&self, world: &R) -> (out: String)
        ensures
            exists|pix: Seq<Vec3>|
                {
                    &&& pix.len() == (self.image_height as int) * (self.image_width as int)
                    &&& out@ == spec_header(self.image_width, self.image_height) + spec_body(
                        pix,
                        self.samples_per_pixel as int,
                    )
                    &&& forall|k: int|
                        0 <= k < pix.len() ==> spec_pixel_samples_ok(
                            *self,
                            world,
                            (k % (self.image_width as int)) as u32,
                            (k / (self.image_width as int)) as u32,
                            #[trigger] pix[k],
                            self.samples_per_pixel as int,
                        )
                },
    {
        let mut out = String::new();
        out.append("P");
        push_digit(&mut out, 3);
        out.append("\n");
        push_dec(&mut out, self.image_width);
        out.append(" ");
        push_dec(&mut out, self.image_height);
        out.append("\n");
        push_dec(&mut out, 255);
        out.append("\n");
        out.append("\n");
        proof {
            reveal_strlit("P");
            reveal_strlit("\n");
            reveal_strlit(" ");
            assert(out@ =~= spec_header(self.image_width, self.image_height));
        }

        let ghost mut pix: Seq<Vec3> = Seq::empty();
        let mut j: u32 = 0;
        while j < self.image_height
            invariant
                j <= self.image_height,
                pix.len() == (j as int) * (self.image_width as int),
                out@ == spec_header(self.image_width, self.image_height) + spec_body(
                    pix,
                    self.samples_per_pixel as int,
                ),
                forall|k: int|
                    0 <= k < pix.len() ==> spec_pixel_samples_ok(
                        *self,
                        world,
                        (k % (self.image_width as int)) as u32,
                        (k / (self.image_width as int)) as u32,
                        #[trigger] pix[k],
                        self.samples_per_pixel as int,
                    ),
            decreases self.image_height - j,
        {
            let mut i: u32 = 0;
            while i < self.image_width
                invariant
                    j < self.image_height,
                    i <= self.image_width,
                    pix.len() == (j as int) * (self.image_width as int) + i as int,
                    out@ == spec_header(self.image_width, self.image_height) + spec_body(
                        pix,
                        self.samples_per_pixel as int,
                    ),
                    forall|k: int|
                        0 <= k < pix.len() ==> spec_pixel_samples_ok(
                            *self,
                            world,
                            (k % (self.image_width as int)) as u32,
                            (k / (self.image_width as int)) as u32,
                            #[trigger] pix[k],
                            self.samples_per_pixel as int,
                        ),
                decreases self.image_width - i,
            {
                let mut pixel = Vec3::default();
                let interval = Interval::new(1, POS_INF);

                let ghost mut samples: Seq<Vec3> = Seq::empty();
                let mut s: u32 = 0;
                while s < self.samples_per_pixel
                    invariant
                        s <= self.samples_per_pixel,
                        interval == Interval::spec_new(1, POS_INF),
                        samples.len() == s as int,
                        forall|m: int|
                            0 <= m < samples.len() ==> spec_sample_ok(
                                *self,
                                world,
                                i,
                                j,
                                #[trigger] samples[m],
                            ),
                        pixel == spec_color_sum(samples),
                    decreases self.samples_per_pixel - s,
                {
                    let ray = self.get_ray(i, j);
                    let ghost jitter = choose|px: i64, py: i64|
                        -500 <= px < 500 && -500 <= py < 500 && ray == spec_get_ray(
                            *self,
                            i,
                            j,
                            px,
                            py,
                        );
                    let color = world.render_pixel(&ray, self.max_depth, interval);
                    pixel = pixel.add(color);
                    proof {
                        assert(-500 <= jitter.0 < 500 && -500 <= jitter.1 < 500);
                        assert(ray == spec_get_ray(*self, i, j, jitter.0, jitter.1));
                        assert(world.render_spec(
                            spec_get_ray(*self, i, j, jitter.0, jitter.1),
                            self.max_depth,
                            Interval::spec_new(1, POS_INF),
                            color,
                        ));
                        assert(spec_sample_ok(*self, world, i, j, color));
                        let ghost prevs = samples;
                        samples = samples.push(color);
                        assert(samples.drop_last() =~= prevs);
                        assert(samples.last() == color);
                        assert(pixel == spec_color_sum(samples));
                        assert forall|m: int| 0 <= m < samples.len() implies spec_sample_ok(
                            *self,
                            world,
                            i,
                            j,
                            #[trigger] samples[m],
                        ) by {
                            if m < prevs.len() {
                                assert(samples[m] == prevs[m]);
                            } else {
                                assert(samples[m] == color);
                            }
                        }
                    }
                    s = s + 1;
                }
                proof {
                    assert(spec_pixel_samples_ok(*self, world, i, j, pixel, self.samples_per_pixel
                        as int));
                }

                let line = render_color(pixel, self.samples_per_pixel);
                out.append(line.as_str());
                out.append("\n");
                proof {
                    reveal_strlit("\n");
                    let ghost prev = pix;
                    pix = pix.push(pixel);
                    assert(pix.drop_last() =~= prev);
                    assert(pix.last() == pixel);
                    assert(out@ =~= spec_header(self.image_width, self.image_height) + spec_body(
                        pix,
                        self.samples_per_pixel as int,
                    ));
                    vstd::arithmetic::div_mod::lemma_fundamental_div_mod_converse(
                        (j as int) * (self.image_width as int) + (i as int),
                        self.image_width as int,
                        j as int,
                        i as int,
                    );
                    assert forall|k: int| 0 <= k < pix.len() implies spec_pixel_samples_ok(
                        *self,
                        world,
                        (k % (self.image_width as int)) as u32,
                        (k / (self.image_width as int)) as u32,
                        #[trigger] pix[k],
                        self.samples_per_pixel as int,
                    ) by {
                        if k < prev.len() {
                            assert(pix[k] == prev[k]);
                        } else {
                            assert(pix[k] == pixel);
                        }
                    }
                }
                i = i + 1;
            }
            proof {
                assert((j as int + 1) * (self.image_width as int) == (j as int) * (
                self.image_width as int) + (self.image_width as int)) by (nonlinear_arith);
            }
            j = j + 1;
        }
        out
    }

    fn get_ray(&self, i: u32, j: u32) -> (r: Ray)
        ensures
            exists|px: i64, py: i64|
                -500 <= px < 500 && -500 <= py < 500 && r == spec_get_ray(*self, i, j, px, py),
    {
        let pixel_center = self.pixel00_loc.add(
            Vec3::from(fx_whole(i)).mul(self.pixel_delta_u),
        ).add(Vec3::from(fx_whole(j)).mul(self.pixel_delta_v));
        let (sq, px, py) = pixel_sample_square(self.pixel_delta_u, self.pixel_delta_v);
        let pixel_sample = pixel_center.add(sq);

        let ray_direction = pixel_sample.sub(self.center);

        let r = Ray::new(self.center, ray_direction);
        proof {
            assert(r == spec_get_ray(*self, i, j, px, py));
        }
        r
    }
}

/// A random offset inside one pixel's footprint; the two sub-pixel jitter
/// scalars come back alongside it so a caller can name them.
fn pixel_sample_square(pixel_delta_u: Vec3, pixel_delta_v: Vec3) -> (r: (Vec3, i64, i64))
    ensures
        -500 <= r.1 && r.1 < 500,
        -500 <= r.2 && r.2 < 500,
        r.0 == spec_vadd(
            spec_vmul(pixel_delta_u, spec_vsplat(r.1)),
            spec_vmul(pixel_delta_v, spec_vsplat(r.2)),
        ),
{
    let px: i64 = crate::vec3::uniform_fx(0, SCALE) - 500;
    let py: i64 = crate::vec3::uniform_fx(0, SCALE) - 500;

    let v = (pixel_delta_u.mul(Vec3::from(px))).add(pixel_delta_v.mul(Vec3::from(py)));
    (v, px, py)
}

/// The sum of `n` copies of one sample color.
pub open spec fn spec_accumulate(c: Vec3, n: int) -> Vec3
    decreases n,
{
    if n <= 0 {
        spec_vsplat(0)
    } else {
        spec_vadd(spec_accumulate(c, n - 1), c)
    }
}

proof fn lemma_accumulate_exact(c: Vec3, k: int, n: int)
    requires
        0 <= k <= n,
        mag(c.x as int) * n <= i64::MAX,
        mag(c.y as int) * n <= i64::MAX,
        mag(c.z as int) * n <= i64::MAX,
    ensures
        spec_accumulate(c, k) == (Vec3 {
            x: (k * (c.x as int)) as i64,
            y: (k * (c.y as int)) as i64,
            z: (k * (c.z as int)) as i64,
        }),
    decreases k,
{
    if k > 0 {
        lemma_accumulate_exact(c, k - 1, n);
        crate::fixed::lemma_mul_mag_bound(c.x as int, k - 1, n, i64::MAX as int);
        crate::fixed::lemma_mul_mag_bound(c.y as int, k - 1, n, i64::MAX as int);
        crate::fixed::lemma_mul_mag_bound(c.z as int, k - 1, n, i64::MAX as int);
        crate::fixed::lemma_mul_mag_bound(c.x as int, k, n, i64::MAX as int);
        crate::fixed::lemma_mul_mag_bound(c.y as int, k, n, i64::MAX as int);
        crate::fixed::lemma_mul_mag_bound(c.z as int, k, n, i64::MAX as int);
        assert((k - 1) * (c.x as int) + (c.x as int) == k * (c.x as int)) by (nonlinear_arith);
        assert((k - 1) * (c.y as int) + (c.y as int) == k * (c.y as int)) by (nonlinear_arith);
        assert((k - 1) * (c.z as int) + (c.z as int) == k * (c.z as int)) by (nonlinear_arith);
    } else {
        assert(0 * (c.x as int) == 0) by (nonlinear_arith);
        assert(0 * (c.y as int) == 0) by (nonlinear_arith);
        assert(0 * (c.z as int) == 0) by (nonlinear_arith);
    }
}

/// Averaging then finalizing `n` identical per-sample colors reproduces
/// the single-sample finalization.
pub proof fn lemma_average_identical(c: Vec3, n: u32)
    requires
        1 <= n,
        mag(c.x as int) * (n as int) <= i64::MAX,
        mag(c.y as int) * (n as int) <= i64::MAX,
        mag(c.z as int) * (n as int) <= i64::MAX,
    ensures
        spec_color_line(spec_accumulate(c, n as int), n as int) == spec_color_line(c, 1),
{
    lemma_accumulate_exact(c, n as int, n as int);
    crate::fixed::lemma_mul_mag_bound(c.x as int, n as int, n as int, i64::MAX as int);
    crate::fixed::lemma_mul_mag_bound(c.y as int, n as int, n as int, i64::MAX as int);
    crate::fixed::lemma_mul_mag_bound(c.z as int, n as int, n as int, i64::MAX as int);
    let acc = spec_accumulate(c, n as int);
    lemma_tdiv_exact(c.x as int, n as int);
    lemma_tdiv_exact(c.y as int, n as int);
    lemma_tdiv_exact(c.z as int, n as int);
    lemma_tdiv_exact(c.x as int, 1);
    lemma_tdiv_exact(c.y as int, 1);
    lemma_tdiv_exact(c.z as int, 1);
    assert((c.x as int) * (n as int) == (n as int) * (c.x as int)) by (nonlinear_arith);
    assert((c.y as int) * (n as int) == (n as int) * (c.y as int)) by (nonlinear_arith);
    assert((c.z as int) * (n as int) == (n as int) * (c.z as int)) by (nonlinear_arith);
    assert(spec_tdiv(acc.x as int, n as int) == spec_tdiv(c.x as int, 1));
    assert(spec_tdiv(acc.y as int, n as int) == spec_tdiv(c.y as int, 1));
    assert(spec_tdiv(acc.z as int, n as int) == spec_tdiv(c.z as int, 1));
}

} // verus!
