//! The trace loop: how deep a ray is followed, how the samples of a pixel
//! add up, and in which order the pixels of an image are filled.
//!
//! Rays and colours are the caller's own types, `R` and `C`. What is done to
//! them comes in as functions:
//!
//! - `viewport_for(width, height)` lays out the viewport for an image of that
//!   size;
//! - `get_ray(viewport, x, y)` gives a ray through pixel `(x, y)` of that
//!   viewport, a new one at each call;
//! - `cast(ray)` sends a ray into the scene and says what became of it
//!   ([`cast_ray`] is such a function, over functions of its own);
//! - `roots_of(ray, object)` solves where the ray's line crosses an object;
//! - `scatter(ray, object, t)` asks the material of an object what becomes of a
//!   ray that hits it at the distance `t`;
//! - `background(ray)` is the colour behind the scene along a ray;
//! - `attenuate(attenuation, color)` weakens a colour by a surface's attenuation;
//! - `combine(total, color)` adds a sample to the samples before it;
//! - `finish(total)` makes a pixel of the sum of its samples.
//!
//! The contracts say which calls of those functions a result goes back to.

use crate::image::{Image, Rgba};
use crate::interval::Interval;
use crate::key::INFINITY;
use crate::scene::{are_roots_of, does_hit_object, nearest_among, Roots};
use vstd::prelude::*;

verus! {

/// What became of a ray that was cast into the scene.
pub enum Bounce<R, C> {
    /// It met no object.
    Miss,
    /// The surface that it met first swallowed it.
    Absorbed,
    /// The surface that it met first sent on `scattered`, and weakens by
    /// `attenuation` the light that comes back along it.
    Scattered { scattered: R, attenuation: C },
}

/// The key of 0.001. A traced ray hits nothing nearer than this: a hit at the
/// ray's own origin would be the surface that the ray has just left.
pub const NEAREST_DISTANCE: i64 = 0x3F50_624D_D2F1_A9FC;

/// The size of the image and the effort spent on each pixel.
#[derive(Clone, Copy, Debug)]
pub struct RenderOptions {
    pub image_width: u32,
    pub image_height: u32,
    pub samples_per_pixel: u16,
    pub max_ray_depth: u16,
}

impl RenderOptions {
    /// Options for an image `image_width` pixels wide. `rows` is that width
    /// divided by the aspect ratio and cut to a whole number; the image gets
    /// that many rows, but never less than one.
    pub fn new(image_width: u32, rows: u32, samples_per_pixel: u16, max_ray_depth: u16) -> (options:
        Self)
        ensures
            options.image_width == image_width,
            options.image_height == if rows < 1 {
                1u32
            } else {
                rows
            },
            options.image_height >= 1,
            options.samples_per_pixel == samples_per_pixel,
            options.max_ray_depth == max_ray_depth,
    {
        let image_height: u32 = if rows < 1 {
            1
        } else {
            rows
        };
        Self { image_width, image_height, samples_per_pixel, max_ray_depth }
    }
}

/// `color` is what a ray `ray` brings back when it is followed over at most
/// `depth` bounces: `black` once the depth is used up or a surface swallows
/// the ray, the background where it leaves the scene, and else what the
/// scattered ray brings back with one bounce less, weakened by the surface.
pub open spec fn is_radiance<R, C, H, B, A>(
    cast: H,
    background: B,
    attenuate: A,
    black: C,
    ray: R,
    depth: nat,
    color: C,
) -> bool where H: Fn(&R) -> Bounce<R, C>, B: Fn(&R) -> C, A: Fn(C, C) -> C
    decreases depth,
{
    if depth == 0 {
        color == black
    } else {
        exists|bounce: Bounce<R, C>| #[trigger]
            call_ensures(cast, (&ray,), bounce) && match bounce {
                Bounce::Miss => call_ensures(background, (&ray,), color),
                Bounce::Absorbed => color == black,
                Bounce::Scattered { scattered, attenuation } => exists|carried: C|
                    is_radiance(
                        cast,
                        background,
                        attenuate,
                        black,
                        scattered,
                        (depth - 1) as nat,
                        carried,
                    ) && #[trigger] call_ensures(attenuate, (attenuation, carried), color),
            }
    }
}

/// `bounce` is what becomes of the ray `ray` in a scene of the objects
/// `objects`: a miss where no object has a hit between 0.001 and infinity, and
/// else what the material of the object with the nearest hit makes of it.
pub open spec fn is_cast<R, C, O, X, M>(
    roots_of: X,
    scatter: M,
    ray: R,
    objects: Seq<O>,
    bounce: Bounce<R, C>,
) -> bool where X: Fn(&R, &O) -> Option<Roots>, M: Fn(&R, &O, i64) -> Option<(R, C)> {
    exists|candidates: Seq<Option<Roots>>| #[trigger]
        are_roots_of(roots_of, ray, objects, candidates) && match nearest_among(
            candidates,
            NEAREST_DISTANCE as int,
            INFINITY as int,
            candidates.len() as int,
        ) {
            Some(hit) => exists|scattered: Option<(R, C)>| #[trigger]
                call_ensures(scatter, (&ray, &objects[hit.object as int], hit.t), scattered)
                    && bounce == match scattered {
                    Some(pair) => Bounce::Scattered { scattered: pair.0, attenuation: pair.1 },
                    None => Bounce::Absorbed,
                },
            None => bounce == Bounce::<R, C>::Miss,
        }
}

/// `total` is what `count` samples of pixel `(x, y)` add up to, the first of
/// them added to `black`. Each sample is what a ray of its own through the
/// pixel brings back over at most `depth` bounces.
pub open spec fn is_sample_sum<V, R, C, G, H, B, A, S>(
    viewport: V,
    get_ray: G,
    cast: H,
    background: B,
    attenuate: A,
    combine: S,
    black: C,
    depth: nat,
    x: u32,
    y: u32,
    count: nat,
    total: C,
) -> bool where
    G: Fn(&V, u32, u32) -> R,
    H: Fn(&R) -> Bounce<R, C>,
    B: Fn(&R) -> C,
    A: Fn(C, C) -> C,
    S: Fn(C, C) -> C,

    decreases count,
{
    if count == 0 {
        total == black
    } else {
        exists|before: C, ray: R, color: C|
            is_sample_sum(
                viewport,
                get_ray,
                cast,
                background,
                attenuate,
                combine,
                black,
                depth,
                x,
                y,
                (count - 1) as nat,
                before,
            ) && #[trigger] call_ensures(get_ray, (&viewport, x, y), ray) && is_radiance(
                cast,
                background,
                attenuate,
                black,
                ray,
                depth,
                color,
            ) && #[trigger] call_ensures(combine, (before, color), total)
    }
}

/// `rgba` is what `finish` makes of the sum of the samples of pixel `(x, y)`.
pub open spec fn is_rendered_pixel<V, R, C, G, H, B, A, S, F>(
    viewport: V,
    get_ray: G,
    cast: H,
    background: B,
    attenuate: A,
    combine: S,
    finish: F,
    black: C,
    options: RenderOptions,
    x: u32,
    y: u32,
    rgba: Rgba,
) -> bool where
    G: Fn(&V, u32, u32) -> R,
    H: Fn(&R) -> Bounce<R, C>,
    B: Fn(&R) -> C,
    A: Fn(C, C) -> C,
    S: Fn(C, C) -> C,
    F: Fn(C) -> Rgba,
 {
    exists|total: C|
        is_sample_sum(
            viewport,
            get_ray,
            cast,
            background,
            attenuate,
            combine,
            black,
            options.max_ray_depth as nat,
            x,
            y,
            options.samples_per_pixel as nat,
            total,
        ) && #[trigger] call_ensures(finish, (total,), rgba)
}

/// `image` is the render that `options` asks for, seen through `viewport`:
/// it has the size that they give, and each of its pixels is rendered.
pub open spec fn is_rendered_image<V, R, C, G, H, B, A, S, F>(
    viewport: V,
    get_ray: G,
    cast: H,
    background: B,
    attenuate: A,
    combine: S,
    finish: F,
    black: C,
    options: RenderOptions,
    image: Image,
) -> bool where
    G: Fn(&V, u32, u32) -> R,
    H: Fn(&R) -> Bounce<R, C>,
    B: Fn(&R) -> C,
    A: Fn(C, C) -> C,
    S: Fn(C, C) -> C,
    F: Fn(C) -> Rgba,
 {
    &&& image.width() == options.image_width
    &&& image.height() == options.image_height
    &&& image@.len() == options.image_width * options.image_height * 4
    &&& forall|x: u32, y: u32|
        x < options.image_width && y < options.image_height ==> is_rendered_pixel(
            viewport,
            get_ray,
            cast,
            background,
            attenuate,
            combine,
            finish,
            black,
            options,
            x,
            y,
            #[trigger] image.pixel(x as int, y as int),
        )
}

/// Without depth no ray is followed: what comes back is `black`, whatever the
/// scene holds.
pub proof fn lemma_no_depth_is_black<R, C, H, B, A>(
    cast: H,
    background: B,
    attenuate: A,
    black: C,
    ray: R,
    color: C,
) where H: Fn(&R) -> Bounce<R, C>, B: Fn(&R) -> C, A: Fn(C, C) -> C
    requires
        is_radiance(cast, background, attenuate, black, ray, 0, color),
    ensures
        color == black,
{
}

/// A ray that can only miss brings back the background along it, and nothing
/// else, as long as there is any depth.
pub proof fn lemma_miss_is_background<R, C, H, B, A>(
    cast: H,
    background: B,
    attenuate: A,
    black: C,
    ray: R,
    depth: nat,
    color: C,
) where H: Fn(&R) -> Bounce<R, C>, B: Fn(&R) -> C, A: Fn(C, C) -> C
    requires
        depth > 0,
        forall|bounce: Bounce<R, C>| call_ensures(cast, (&ray,), bounce) ==> bounce is Miss,
        is_radiance(cast, background, attenuate, black, ray, depth, color),
    ensures
        call_ensures(background, (&ray,), color),
{
}

/// A ray that can only be swallowed brings back `black`.
pub proof fn lemma_absorbed_is_black<R, C, H, B, A>(
    cast: H,
    background: B,
    attenuate: A,
    black: C,
    ray: R,
    depth: nat,
    color: C,
) where H: Fn(&R) -> Bounce<R, C>, B: Fn(&R) -> C, A: Fn(C, C) -> C
    requires
        forall|bounce: Bounce<R, C>| call_ensures(cast, (&ray,), bounce) ==> bounce is Absorbed,
        is_radiance(cast, background, attenuate, black, ray, depth, color),
    ensures
        color == black,
{
}

/// Sends `ray` into the scene: finds the object that it hits first, at a
/// distance between 0.001 and infinity, and asks `scatter` what that object's
/// material makes of the ray.
pub fn cast_ray<R, C, O, X, M>(ray: &R, objects: &Vec<O>, roots_of: &X, scatter: &M) -> (bounce:
    Bounce<R, C>) where X: Fn(&R, &O) -> Option<Roots>, M: Fn(&R, &O, i64) -> Option<(R, C)>
    requires
        forall|any: &R, object: &O| call_requires(*roots_of, (any, object)),
        forall|any: &R, object: &O, t: i64| call_requires(*scatter, (any, object, t)),
    ensures
        is_cast(*roots_of, *scatter, *ray, objects@, bounce),
{
    let range = Interval::new(NEAREST_DISTANCE, INFINITY);
    match does_hit_object(ray, objects, &range, roots_of) {
        Some(hit) => {
            let scattered = scatter(ray, &objects[hit.object], hit.t);
            assert(call_ensures(*scatter, (ray, &objects@[hit.object as int], hit.t), scattered));
            match scattered {
                Some(pair) => Bounce::Scattered { scattered: pair.0, attenuation: pair.1 },
                None => Bounce::Absorbed,
            }
        },
        None => Bounce::Miss,
    }
}

/// The colour that `ray` brings back when it is followed over at most `depth`
/// bounces. With `depth` zero that is `black`, whatever the scene holds.
pub fn calculate_color<R, C, H, B, A>(
    ray: &R,
    depth: u16,
    black: C,
    cast: &H,
    background: &B,
    attenuate: &A,
) -> (color: C) where C: Copy, H: Fn(&R) -> Bounce<R, C>, B: Fn(&R) -> C, A: Fn(C, C) -> C
    requires
        forall|any: &R| call_requires(*cast, (any,)),
        forall|any: &R| call_requires(*background, (any,)),
        forall|first: C, second: C| call_requires(*attenuate, (first, second)),
    ensures
        is_radiance(*cast, *background, *attenuate, black, *ray, depth as nat, color),
        depth == 0 ==> color == black,
    decreases depth,
{
    if depth == 0 {
        return black;
    }
    let bounce = cast(ray);
    assert(call_ensures(*cast, (ray,), bounce));
    match bounce {
        Bounce::Miss => background(ray),
        Bounce::Absorbed => black,
        Bounce::Scattered { scattered, attenuation } => {
            let carried = calculate_color(
                &scattered,
                depth - 1,
                black,
                cast,
                background,
                attenuate,
            );
            let color = attenuate(attenuation, carried);
            assert(call_ensures(*attenuate, (attenuation, carried), color));
            color
        },
    }
}

/// Takes `samples_per_pixel` samples of pixel `(x, y)`, each along a ray of
/// its own followed over at most `max_ray_depth` bounces, and adds them up,
/// starting from `black`.
pub fn sample_pixel<V, R, C, G, H, B, A, S>(
    viewport: &V,
    x: u32,
    y: u32,
    samples_per_pixel: u16,
    max_ray_depth: u16,
    black: C,
    get_ray: &G,
    cast: &H,
    background: &B,
    attenuate: &A,
    combine: &S,
) -> (total: C) where
    C: Copy,
    G: Fn(&V, u32, u32) -> R,
    H: Fn(&R) -> Bounce<R, C>,
    B: Fn(&R) -> C,
    A: Fn(C, C) -> C,
    S: Fn(C, C) -> C,

    requires
        call_requires(*get_ray, (viewport, x, y)),
        forall|any: &R| call_requires(*cast, (any,)),
        forall|any: &R| call_requires(*background, (any,)),
        forall|first: C, second: C| call_requires(*attenuate, (first, second)),
        forall|first: C, second: C| call_requires(*combine, (first, second)),
    ensures
        is_sample_sum(
            *viewport,
            *get_ray,
            *cast,
            *background,
            *attenuate,
            *combine,
            black,
            max_ray_depth as nat,
            x,
            y,
            samples_per_pixel as nat,
            total,
        ),
        samples_per_pixel == 0 ==> total == black,
{
    let mut total = black;
    let mut taken: u16 = 0;
    while taken < samples_per_pixel
        invariant
            taken <= samples_per_pixel,
            call_requires(*get_ray, (viewport, x, y)),
            forall|any: &R| call_requires(*cast, (any,)),
            forall|any: &R| call_requires(*background, (any,)),
            forall|first: C, second: C| call_requires(*attenuate, (first, second)),
            forall|first: C, second: C| call_requires(*combine, (first, second)),
            is_sample_sum(
                *viewport,
                *get_ray,
                *cast,
                *background,
                *attenuate,
                *combine,
                black,
                max_ray_depth as nat,
                x,
                y,
                taken as nat,
                total,
            ),
        decreases samples_per_pixel - taken,
    {
        let ghost before = total;
        let ray = get_ray(viewport, x, y);
        let color = calculate_color(&ray, max_ray_depth, black, cast, background, attenuate);
        total = combine(total, color);
        taken = taken + 1;
        assert(call_ensures(*get_ray, (viewport, x, y), ray));
        assert(call_ensures(*combine, (before, color), total));
    }
    total
}

/// Renders an image of the size that `options` gives. The viewport is laid
/// out once, for that size, before the first sample is taken; the pixels are
/// then filled row by row from the top and each row from the left. Each pixel
/// is what `finish` makes of the sum of its samples.
pub fn render_image<V, R, C, W, G, H, B, A, S, F>(
    options: &RenderOptions,
    black: C,
    viewport_for: &W,
    get_ray: &G,
    cast: &H,
    background: &B,
    attenuate: &A,
    combine: &S,
    finish: &F,
) -> (image: Image) where
    C: Copy,
    W: Fn(u32, u32) -> V,
    G: Fn(&V, u32, u32) -> R,
    H: Fn(&R) -> Bounce<R, C>,
    B: Fn(&R) -> C,
    A: Fn(C, C) -> C,
    S: Fn(C, C) -> C,
    F: Fn(C) -> Rgba,

    requires
        options.image_width * options.image_height * 4 <= usize::MAX,
        call_requires(*viewport_for, (options.image_width, options.image_height)),
        forall|viewport: &V, x: u32, y: u32|
            x < options.image_width && y < options.image_height ==> call_requires(
                *get_ray,
                (viewport, x, y),
            ),
        forall|any: &R| call_requires(*cast, (any,)),
        forall|any: &R| call_requires(*background, (any,)),
        forall|first: C, second: C| call_requires(*attenuate, (first, second)),
        forall|first: C, second: C| call_requires(*combine, (first, second)),
        forall|total: C| call_requires(*finish, (total,)),
    ensures
        image.width() == options.image_width,
        image.height() == options.image_height,
        exists|viewport: V| #[trigger]
            call_ensures(*viewport_for, (options.image_width, options.image_height), viewport)
                && is_rendered_image(
                viewport,
                *get_ray,
                *cast,
                *background,
                *attenuate,
                *combine,
                *finish,
                black,
                *options,
                image,
            ),
{
    let width = options.image_width;
    let height = options.image_height;
    let viewport = viewport_for(width, height);
    let mut image = Image::new(width, height);
    let mut y: u32 = 0;
    while y < height
        invariant
            y <= height,
            width == options.image_width,
            height == options.image_height,
            image.width() == width,
            image.height() == height,
            image@.len() == width * height * 4,
            forall|viewport: &V, x: u32, y: u32|
                x < width && y < height ==> call_requires(*get_ray, (viewport, x, y)),
            forall|any: &R| call_requires(*cast, (any,)),
            forall|any: &R| call_requires(*background, (any,)),
            forall|first: C, second: C| call_requires(*attenuate, (first, second)),
            forall|first: C, second: C| call_requires(*combine, (first, second)),
            forall|total: C| call_requires(*finish, (total,)),
            forall|i: u32, j: u32|
                i < width && j < y ==> is_rendered_pixel(
                    viewport,
                    *get_ray,
                    *cast,
                    *background,
                    *attenuate,
                    *combine,
                    *finish,
                    black,
                    *options,
                    i,
                    j,
                    #[trigger] image.pixel(i as int, j as int),
                ),
        decreases height - y,
    {
        let mut x: u32 = 0;
        while x < width
            invariant
                x <= width,
                y < height,
                width == options.image_width,
                height == options.image_height,
                image.width() == width,
                image.height() == height,
                image@.len() == width * height * 4,
                forall|viewport: &V, x: u32, y: u32|
                    x < width && y < height ==> call_requires(*get_ray, (viewport, x, y)),
                forall|any: &R| call_requires(*cast, (any,)),
                forall|any: &R| call_requires(*background, (any,)),
                forall|first: C, second: C| call_requires(*attenuate, (first, second)),
                forall|first: C, second: C| call_requires(*combine, (first, second)),
                forall|total: C| call_requires(*finish, (total,)),
                forall|i: u32, j: u32|
                    i < width && (j < y || (j == y && i < x)) ==> is_rendered_pixel(
                        viewport,
                        *get_ray,
                        *cast,
                        *background,
                        *attenuate,
                        *combine,
                        *finish,
                        black,
                        *options,
                        i,
                        j,
                        #[trigger] image.pixel(i as int, j as int),
                    ),
            decreases width - x,
        {
            let total = sample_pixel(
                &viewport,
                x,
                y,
                options.samples_per_pixel,
                options.max_ray_depth,
                black,
                get_ray,
                cast,
                background,
                attenuate,
                combine,
            );
            let rgba = finish(total);
            image.set_pixel(x, y, rgba);
            x = x + 1;
        }
        y = y + 1;
    }
    assert(is_rendered_image(
        viewport,
        *get_ray,
        *cast,
        *background,
        *attenuate,
        *combine,
        *finish,
        black,
        *options,
        image,
    ));
    image
}

} // verus!
