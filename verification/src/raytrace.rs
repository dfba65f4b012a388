//! The renderer: shading with a bounce limit, the frame loop, and the buffer
//! that sums the frames.

use vstd::prelude::*;
use crate::hittable::{Geometry, Hit, HitRecord, Sphere, StepSphere};
use crate::material::Lambertian;
use crate::ray::Ray;
use crate::scalar::{Scalar, Vec3, ZERO_BITS};
use crate::scene::{last_hit, scanned, Scene};

verus! {

/// A ray is traced through this many scatterings at most.
pub const MAX_BOUNCES: u32 = 10;

/// Hits count from this parameter on: a millionth.
pub const NEAR_BITS: u64 = 0x3eb0_c6f7_a0b5_ed8d;

/// Hits count up to this parameter: a hundred.
pub const FAR_BITS: u64 = 0x4059_0000_0000_0000;

/// Red share of the colour that every surface scatters with: seven tenths.
pub const DIFFUSE_RED_BITS: u64 = 0x3fe6_6666_6666_6666;

/// Green share of the colour that every surface scatters with: six tenths.
pub const DIFFUSE_GREEN_BITS: u64 = 0x3fe3_3333_3333_3333;

/// Blue share of the colour that every surface scatters with: three tenths.
pub const DIFFUSE_BLUE_BITS: u64 = 0x3fd3_3333_3333_3333;

/// A half.
pub const HALF_BITS: u64 = 0x3fe0_0000_0000_0000;

/// Minus a half.
pub const MINUS_HALF_BITS: u64 = 0xbfe0_0000_0000_0000;

/// Minus one.
pub const MINUS_ONE_BITS: u64 = 0xbff0_0000_0000_0000;

/// Minus a hundred and a half.
pub const GROUND_HEIGHT_BITS: u64 = 0xc059_2000_0000_0000;

/// A hundred.
pub const GROUND_RADIUS_BITS: u64 = 0x4059_0000_0000_0000;

/// The arithmetic of a frame, which the renderer leaves to its caller.
///
/// The renderer decides what is computed, from what, and where the result
/// goes; an implementor computes. Nothing is assumed of what it returns.
pub trait Shader {
    /// The camera's ray through pixel (`x`, `y`) of a `size_x` by `size_y`
    /// image, jittered, in the orthogonal or the perspective projection.
    fn primary_ray(&self, x: usize, y: usize, size_x: usize, size_y: usize, orthogonal: bool) -> Ray;

    /// The ray that `material` scatters `r` into at `hit`, and the colour
    /// factor that it takes on the way.
    fn scatter(&self, material: &Lambertian, r: &Ray, hit: HitRecord) -> (Ray, Vec3);

    /// The colour of the sky along `r`.
    fn background(&self, r: &Ray) -> Vec3;

    /// The colour `c`, share by share times `attenuation`.
    fn attenuate(&self, attenuation: Vec3, c: Vec3) -> Vec3;

    /// The colour `c` after gamma correction.
    fn gamma(&self, c: Vec3) -> Vec3;

    /// The sum of two colours.
    fn accumulate(&self, sum: Vec3, c: Vec3) -> Vec3;

    /// The mean colour of a pixel whose samples add up to `sum` over `frames`
    /// frames, each share scaled to the range of a byte.
    fn scale(&self, sum: Vec3, frames: u64) -> Vec3;
}

/// A renderer of `size_x` by `size_y` pixels.
///
/// `Image` holds, at `y * size_x + x`, the sum of the samples that pixel
/// (`x`, `y`) got in the frames traced since it was last cleared;
/// `number_of_renders` counts the frames traced since the renderer was made.
#[allow(non_snake_case)]
pub struct RayCaster {
    pub Image: Vec<Vec3>,
    pub size_x: usize,
    pub size_y: usize,
    pub orthonogal: bool,
    pub number_of_renders: u64,
}

/// The material that every hit is scattered by, whatever the record carries.
pub open spec fn diffuse() -> Lambertian {
    Lambertian {
        Albedo: Vec3 {
            x: Scalar::of(DIFFUSE_RED_BITS),
            y: Scalar::of(DIFFUSE_GREEN_BITS),
            z: Scalar::of(DIFFUSE_BLUE_BITS),
        },
    }
}

/// Whether `found` is what searching `scene` along `r` between `t_min` and
/// `t_max` can give.
pub open spec fn found_in<H: Hit>(
    scene: Scene<H>,
    r: Ray,
    t_min: Scalar,
    t_max: Scalar,
    found: Option<HitRecord>,
) -> bool {
    exists|answers: Seq<Option<HitRecord>>|
        #![auto]
        scanned(scene.objects@, r, t_min, t_max, answers) && found == last_hit(answers)
}

/// Whether `c` is a colour of `r` with `bounces_left` scatterings allowed.
///
/// With none allowed, or where the scene is not hit between the near and the
/// far bound, it is the background along `r`. Else `r` is scattered at the
/// hit by the diffuse material, and `c` is the colour of the scattered ray
/// with one scattering less, attenuated by the factor that the scattering
/// gave.
pub open spec fn shaded<H: Hit, S: Shader>(
    scene: Scene<H>,
    shader: S,
    r: Ray,
    bounces_left: nat,
    c: Vec3,
) -> bool
    decreases bounces_left,
{
    if bounces_left == 0 {
        call_ensures(S::background, (&shader, &r), c)
    } else {
        exists|found: Option<HitRecord>| #[trigger]
            found_in(scene, r, Scalar::of(NEAR_BITS), Scalar::of(FAR_BITS), found) && match found {
                Some(h) => exists|next: Ray, factor: Vec3, inner: Vec3|
                    #![trigger
                        call_ensures(S::scatter, (&shader, &diffuse(), &r, h), (next, factor)),
                        call_ensures(S::attenuate, (&shader, factor, inner), c),
                    ]
                    {
                        &&& call_ensures(S::scatter, (&shader, &diffuse(), &r, h), (next, factor))
                        &&& shaded(scene, shader, next, (bounces_left - 1) as nat, inner)
                        &&& call_ensures(S::attenuate, (&shader, factor, inner), c)
                    },
                None => call_ensures(S::background, (&shader, &r), c),
            }
    }
}

/// Where pixel (`x`, `y`) lies in the sums of an image `size_x` wide.
pub open spec fn offset_of(x: usize, y: usize, size_x: usize) -> int {
    y * size_x + x
}

/// Whether `g` is a sample of pixel (`x`, `y`): the colour of the camera's ray
/// through it, followed through `MAX_BOUNCES` scatterings at most and then
/// gamma-corrected.
pub open spec fn sampled<H: Hit, S: Shader>(
    scene: Scene<H>,
    shader: S,
    x: usize,
    y: usize,
    size_x: usize,
    size_y: usize,
    orthogonal: bool,
    g: Vec3,
) -> bool {
    exists|r: Ray, c: Vec3|
        #![trigger
            call_ensures(S::primary_ray, (&shader, x, y, size_x, size_y, orthogonal), r),
            call_ensures(S::gamma, (&shader, c), g),
        ]
        {
            &&& call_ensures(S::primary_ray, (&shader, x, y, size_x, size_y, orthogonal), r)
            &&& shaded(scene, shader, r, MAX_BOUNCES as nat, c)
            &&& call_ensures(S::gamma, (&shader, c), g)
        }
}

/// Whether `frame` holds a sample of every pixel whose place lies within it.
pub open spec fn sampled_so_far<H: Hit, S: Shader>(
    scene: Scene<H>,
    shader: S,
    size_x: usize,
    size_y: usize,
    orthogonal: bool,
    frame: Seq<Vec3>,
) -> bool {
    forall|x: usize, y: usize|
        x < size_x && y < size_y && offset_of(x, y, size_x) < frame.len() ==> sampled(
            scene,
            shader,
            x,
            y,
            size_x,
            size_y,
            orthogonal,
            #[trigger] frame[offset_of(x, y, size_x)],
        )
}

/// Whether `frame` is a frame: one sample for each pixel, that of pixel
/// (`x`, `y`) at `y * size_x + x`.
pub open spec fn framed<H: Hit, S: Shader>(
    scene: Scene<H>,
    shader: S,
    size_x: usize,
    size_y: usize,
    orthogonal: bool,
    frame: Seq<Vec3>,
) -> bool {
    &&& frame.len() == size_x * size_y
    &&& sampled_so_far(scene, shader, size_x, size_y, orthogonal, frame)
}

/// Whether `after` is `before` with `frame` put in: where `before` has a sum,
/// the sample is added to it; where it has none yet, the sample starts one;
/// sums beyond the frame stay.
pub open spec fn deposited<S: Shader>(
    before: Seq<Vec3>,
    frame: Seq<Vec3>,
    shader: S,
    after: Seq<Vec3>,
) -> bool {
    &&& after.len() == vstd::math::max(before.len() as int, frame.len() as int)
    &&& forall|o: int|
        0 <= o < frame.len() && o < before.len() ==> call_ensures(
            S::accumulate,
            (&shader, before[o], frame[o]),
            #[trigger] after[o],
        )
    &&& forall|o: int| before.len() <= o < frame.len() ==> #[trigger] after[o] == frame[o]
    &&& forall|o: int| frame.len() <= o < before.len() ==> #[trigger] after[o] == before[o]
}

/// Whether `red`, `green` and `blue` are the bytes of a pixel whose samples
/// add up to `sum` over `frames` frames: the whole parts of its scaled mean.
pub open spec fn painted<S: Shader>(
    shader: S,
    sum: Vec3,
    frames: u64,
    red: u8,
    green: u8,
    blue: u8,
) -> bool {
    exists|scaled: Vec3| #[trigger]
        call_ensures(S::scale, (&shader, sum, frames), scaled) && red == scaled.x.to_byte()
            && green == scaled.y.to_byte() && blue == scaled.z.to_byte()
}

/// Whether `total` is what adding up `samples`, first to last, can give.
pub open spec fn summed<S: Shader>(shader: S, samples: Seq<Vec3>, total: Vec3) -> bool
    decreases samples.len(),
{
    if samples.len() == 0 {
        false
    } else if samples.len() == 1 {
        total == samples[0]
    } else {
        exists|earlier: Vec3|
            #![trigger call_ensures(S::accumulate, (&shader, earlier, samples.last()), total)]
            summed(shader, samples.drop_last(), earlier) && call_ensures(
                S::accumulate,
                (&shader, earlier, samples.last()),
                total,
            )
    }
}

/// The samples that the pixel at `o` got, frame by frame.
pub open spec fn samples_of(frames: Seq<Seq<Vec3>>, o: int) -> Seq<Vec3> {
    Seq::new(frames.len(), |k: int| frames[k][o])
}

/// A pixel's place lies within the image.
proof fn lemma_offset_within(x: usize, y: usize, size_x: usize, size_y: usize)
    requires
        x < size_x,
        y < size_y,
    ensures
        0 <= offset_of(x, y, size_x) < size_x * size_y,
{
    assert(y * size_x + x < size_x * size_y) by (nonlinear_arith)
        requires
            x < size_x,
            y < size_y,
    ;
    assert(0 <= y * size_x) by (nonlinear_arith);
}

/// No two pixels share a place.
proof fn lemma_offset_apart(x: usize, y: usize, u: usize, v: usize, size_x: usize)
    requires
        x < size_x,
        u < size_x,
        offset_of(x, y, size_x) == offset_of(u, v, size_x),
    ensures
        x == u,
        y == v,
{
    assert(y == v) by (nonlinear_arith)
        requires
            x < size_x,
            u < size_x,
            y * size_x + x == v * size_x + u,
    ;
}

impl RayCaster {
    /// A renderer with nothing summed, in the perspective projection.
    pub fn new(size_x: usize, size_y: usize) -> (rc: RayCaster)
        ensures
            rc.Image@.len() == 0,
            rc.size_x == size_x,
            rc.size_y == size_y,
            !rc.orthonogal,
            rc.number_of_renders == 0,
    {
        RayCaster { Image: Vec::new(), size_x, size_y, orthonogal: false, number_of_renders: 0 }
    }

    /// Empties the sums. The count of frames stays as it is, so the next
    /// frames are averaged over the frames before the clearing too.
    #[allow(non_snake_case)]
    pub fn clearImage(&mut self)
        ensures
            final(self).Image@.len() == 0,
            final(self).size_x == old(self).size_x,
            final(self).size_y == old(self).size_y,
            final(self).orthonogal == old(self).orthonogal,
            final(self).number_of_renders == old(self).number_of_renders,
    {
        self.Image.clear();
    }

    /// The shapes of the scene, in insertion order.
    pub open spec fn scene_spec() -> Seq<Geometry> {
        seq![
            Geometry::Sphere(
                Sphere {
                    center: Vec3 {
                        x: Scalar::of(HALF_BITS),
                        y: Scalar::of(ZERO_BITS),
                        z: Scalar::of(MINUS_ONE_BITS),
                    },
                    radius: Scalar::of(HALF_BITS),
                },
            ),
            Geometry::StepSphere(
                StepSphere {
                    center: Vec3 {
                        x: Scalar::of(MINUS_HALF_BITS),
                        y: Scalar::of(ZERO_BITS),
                        z: Scalar::of(MINUS_ONE_BITS),
                    },
                    radius: Scalar::of(HALF_BITS),
                },
            ),
            Geometry::Sphere(
                Sphere {
                    center: Vec3 {
                        x: Scalar::of(ZERO_BITS),
                        y: Scalar::of(GROUND_HEIGHT_BITS),
                        z: Scalar::of(MINUS_ONE_BITS),
                    },
                    radius: Scalar::of(GROUND_RADIUS_BITS),
                },
            ),
        ]
    }

    /// The scene that is rendered: a sphere to the right, a marched sphere to
    /// the left, and a large sphere below them as the ground.
    pub fn scene() -> (shapes: Vec<Geometry>)
        ensures
            shapes@ == RayCaster::scene_spec(),
    {
        let zero = Scalar::from_bits(ZERO_BITS);
        let half = Scalar::from_bits(HALF_BITS);
        let depth = Scalar::from_bits(MINUS_ONE_BITS);
        let mut shapes: Vec<Geometry> = Vec::new();
        shapes.push(Geometry::Sphere(Sphere::new(Vec3 { x: half, y: zero, z: depth }, half)));
        shapes.push(
            Geometry::StepSphere(
                StepSphere::new(
                    Vec3 { x: Scalar::from_bits(MINUS_HALF_BITS), y: zero, z: depth },
                    half,
                ),
            ),
        );
        shapes.push(
            Geometry::Sphere(
                Sphere::new(
                    Vec3 { x: zero, y: Scalar::from_bits(GROUND_HEIGHT_BITS), z: depth },
                    Scalar::from_bits(GROUND_RADIUS_BITS),
                ),
            ),
        );
        assert(shapes@ =~= RayCaster::scene_spec());
        shapes
    }

    /// The colour of `r`, followed through `bounces_left` scatterings at
    /// most.
    pub fn color<H: Hit, S: Shader>(scene: &Scene<H>, shader: &S, r: &Ray, bounces_left: u32) -> (c:
        Vec3)
        ensures
            shaded(*scene, *shader, *r, bounces_left as nat, c),
        decreases bounces_left,
    {
        if bounces_left > 0 {
            let found = scene.hit(r, Scalar::from_bits(NEAR_BITS), Scalar::from_bits(FAR_BITS));
            assert(found_in(*scene, *r, Scalar::of(NEAR_BITS), Scalar::of(FAR_BITS), found));
            if let Some(collision) = found {
                let material = Lambertian {
                    Albedo: Vec3 {
                        x: Scalar::from_bits(DIFFUSE_RED_BITS),
                        y: Scalar::from_bits(DIFFUSE_GREEN_BITS),
                        z: Scalar::from_bits(DIFFUSE_BLUE_BITS),
                    },
                };
                let (new_ray, attenuation) = shader.scatter(&material, r, collision);
                let inner = RayCaster::color(scene, shader, &new_ray, bounces_left - 1);
                let c = shader.attenuate(attenuation, inner);
                assert(call_ensures(
                    S::scatter,
                    (shader, &diffuse(), r, collision),
                    (new_ray, attenuation),
                ));
                return c;
            }
            return shader.background(r);
        }
        shader.background(r)
    }

    /// Traces one frame: counts it, samples every pixel row by row, and puts
    /// each sample into the sums. `time` is the caller's clock; the frame does
    /// not depend on it.
    pub fn trace<H: Hit, S: Shader>(&mut self, time: Scalar, scene: &Scene<H>, shader: &S)
        requires
            old(self).size_x * old(self).size_y <= usize::MAX,
            old(self).number_of_renders < u64::MAX,
        ensures
            final(self).size_x == old(self).size_x,
            final(self).size_y == old(self).size_y,
            final(self).orthonogal == old(self).orthonogal,
            final(self).number_of_renders == old(self).number_of_renders + 1,
            exists|frame: Seq<Vec3>|
                #![auto]
                framed(
                    *scene,
                    *shader,
                    old(self).size_x,
                    old(self).size_y,
                    old(self).orthonogal,
                    frame,
                ) && deposited(old(self).Image@, frame, *shader, final(self).Image@),
    {
        let size_x = self.size_x;
        let size_y = self.size_y;
        let orthogonal = self.orthonogal;
        let ghost before = self.Image@;
        let ghost mut frame: Seq<Vec3> = Seq::empty();
        self.number_of_renders = self.number_of_renders + 1;
        let mut y: usize = 0;
        while y < size_y
            invariant
                y <= size_y,
                size_x * size_y <= usize::MAX,
                self.size_x == size_x,
                self.size_y == size_y,
                self.orthonogal == orthogonal,
                self.number_of_renders == old(self).number_of_renders + 1,
                frame.len() == y * size_x,
                sampled_so_far(*scene, *shader, size_x, size_y, orthogonal, frame),
                deposited(before, frame, *shader, self.Image@),
            decreases size_y - y,
        {
            let mut x: usize = 0;
            while x < size_x
                invariant
                    x <= size_x,
                    y < size_y,
                    size_x * size_y <= usize::MAX,
                    self.size_x == size_x,
                    self.size_y == size_y,
                    self.orthonogal == orthogonal,
                    self.number_of_renders == old(self).number_of_renders + 1,
                    frame.len() == y * size_x + x,
                    sampled_so_far(*scene, *shader, size_x, size_y, orthogonal, frame),
                    deposited(before, frame, *shader, self.Image@),
                decreases size_x - x,
            {
                let perspect = shader.primary_ray(x, y, size_x, size_y, orthogonal);
                let c = RayCaster::color(scene, shader, &perspect, MAX_BOUNCES);
                let g = shader.gamma(c);
                proof {
                    lemma_offset_within(x, y, size_x, size_y);
                }
                let offset = y * size_x + x;
                let ghost sums = self.Image@;
                let ghost samples = frame;
                if self.Image.len() <= offset {
                    self.Image.push(g);
                } else {
                    let sum = shader.accumulate(self.Image[offset], g);
                    self.Image[offset] = sum;
                }
                proof {
                    frame = frame.push(g);
                    assert(sampled(*scene, *shader, x, y, size_x, size_y, orthogonal, g));
                    assert forall|u: usize, v: usize|
                        u < size_x && v < size_y && offset_of(u, v, size_x)
                            < frame.len() implies sampled(
                        *scene,
                        *shader,
                        u,
                        v,
                        size_x,
                        size_y,
                        orthogonal,
                        #[trigger] frame[offset_of(u, v, size_x)],
                    ) by {
                        if offset_of(u, v, size_x) == offset {
                            lemma_offset_apart(u, v, x, y, size_x);
                        } else {
                            assert(frame[offset_of(u, v, size_x)] == samples[offset_of(
                                u,
                                v,
                                size_x,
                            )]);
                        }
                    }
                    assert(deposited(before, frame, *shader, self.Image@));
                }
                x = x + 1;
            }
            proof {
                assert((y + 1) * size_x == y * size_x + size_x) by (nonlinear_arith);
            }
            y = y + 1;
        }
        proof {
            assert(y * size_x == size_x * size_y) by (nonlinear_arith)
                requires
                    y == size_y,
            ;
        }
    }

    /// Writes the image into `buffer`, three bytes for each pixel in the order
    /// of the sums: red, green, blue, each the whole part of what `shader`
    /// scales the pixel's sum to over the count of frames. The count is the one
    /// of all frames traced, also of those before the sums were last cleared.
    pub fn fill_buffer<S: Shader>(&mut self, buffer: &mut [u8], shader: &S)
        requires
            old(buffer)@.len() >= 3 * old(self).Image@.len(),
        ensures
            final(self).Image@ == old(self).Image@,
            final(self).size_x == old(self).size_x,
            final(self).size_y == old(self).size_y,
            final(self).orthonogal == old(self).orthonogal,
            final(self).number_of_renders == old(self).number_of_renders,
            final(buffer)@.len() == old(buffer)@.len(),
            forall|i: int|
                0 <= i < old(self).Image@.len() ==> painted(
                    *shader,
                    #[trigger] old(self).Image@[i],
                    old(self).number_of_renders,
                    final(buffer)@[3 * i],
                    final(buffer)@[3 * i + 1],
                    final(buffer)@[3 * i + 2],
                ),
            forall|j: int|
                3 * old(self).Image@.len() <= j < old(buffer)@.len() ==> final(buffer)@[j] == old(
                    buffer,
                )@[j],
    {
        let room = buffer.len();
        let mut i: usize = 0;
        while i < self.Image.len()
            invariant
                i <= self.Image@.len(),
                *self == *old(self),
                buffer@.len() == room,
                buffer@.len() == old(buffer)@.len(),
                buffer@.len() >= 3 * self.Image@.len(),
                forall|k: int|
                    0 <= k < i ==> painted(
                        *shader,
                        #[trigger] self.Image@[k],
                        self.number_of_renders,
                        buffer@[3 * k],
                        buffer@[3 * k + 1],
                        buffer@[3 * k + 2],
                    ),
                forall|j: int| 3 * i <= j < buffer@.len() ==> buffer@[j] == old(buffer)@[j],
            decreases self.Image@.len() - i,
        {
            let d = shader.scale(self.Image[i], self.number_of_renders);
            buffer[i * 3] = d.x.to_byte();
            buffer[i * 3 + 1] = d.y.to_byte();
            buffer[i * 3 + 2] = d.z.to_byte();
            i = i + 1;
        }
    }
}

/// The first frame put into empty sums is kept as it is.
pub proof fn lemma_first_frame_kept<S: Shader>(shader: S, frame: Seq<Vec3>, after: Seq<Vec3>)
    requires
        deposited(Seq::<Vec3>::empty(), frame, shader, after),
    ensures
        after == frame,
{
    assert(after =~= frame);
}

/// After any number of frames put into empty sums, every pixel holds the sum
/// of its samples, first frame to last.
///
/// `images[k]` are the sums before frame `k` and `images[k + 1]` those after.
pub proof fn lemma_frames_sum<S: Shader>(
    shader: S,
    frames: Seq<Seq<Vec3>>,
    images: Seq<Seq<Vec3>>,
    pixels: nat,
)
    requires
        frames.len() >= 1,
        images.len() == frames.len() + 1,
        images[0].len() == 0,
        forall|k: int|
            0 <= k < frames.len() ==> (#[trigger] frames[k]).len() == pixels && deposited(
                images[k],
                frames[k],
                shader,
                images[k + 1],
            ),
    ensures
        images.last().len() == pixels,
        forall|o: int|
            0 <= o < pixels ==> summed(shader, samples_of(frames, o), #[trigger] images.last()[o]),
    decreases frames.len(),
{
    let n = frames.len() as int;
    let last = frames[n - 1];
    assert(deposited(images[n - 1], last, shader, images[n]));
    if n == 1 {
        assert forall|o: int| 0 <= o < pixels implies summed(
            shader,
            samples_of(frames, o),
            #[trigger] images.last()[o],
        ) by {
            assert(samples_of(frames, o)[0] == frames[0][o]);
        }
    } else {
        let earlier_frames = frames.drop_last();
        let earlier_images = images.drop_last();
        assert forall|k: int| 0 <= k < earlier_frames.len() implies (#[trigger] earlier_frames[k]).len()
            == pixels && deposited(
            earlier_images[k],
            earlier_frames[k],
            shader,
            earlier_images[k + 1],
        ) by {
            assert(earlier_frames[k] == frames[k]);
        }
        lemma_frames_sum(shader, earlier_frames, earlier_images, pixels);
        assert(earlier_images.last() == images[n - 1]);
        assert forall|o: int| 0 <= o < pixels implies summed(
            shader,
            samples_of(frames, o),
            #[trigger] images.last()[o],
        ) by {
            let samples = samples_of(frames, o);
            assert(samples.drop_last() =~= samples_of(earlier_frames, o));
            assert(samples.last() == last[o]);
            assert(summed(shader, samples_of(earlier_frames, o), earlier_images.last()[o]));
            assert(call_ensures(
                S::accumulate,
                (&shader, images[n - 1][o], samples.last()),
                images[n][o],
            ));
        }
    }
}

} // verus!
