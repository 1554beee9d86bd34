//! Textures: the colour of a surface at a point. This module chooses the
//! texture that gives the colour, looks up pixels, and finds the gradients
//! of the noise lattice.

use crate::boundingbox::identity_order;
use crate::scalar::Scalar;
use crate::vec3::Vec3;
use rand::seq::SliceRandom;
use vstd::arithmetic::power2::pow2;
use vstd::array::*;
use vstd::prelude::*;

verus! {

/// Number of entries of each table of the noise generator.
pub const TABLE_SIZE: usize = 256;

/// An RGB image with 8 bits per channel. The pixels are held in an
/// `image::RgbImage`, of which the verifier knows only what the functions
/// below say of [`image_size`] and [`image_pixels`].
#[verifier::external_body]
#[derive(Debug)]
pub struct ImageData {
    inner: image::RgbImage,
}

/// Width and height of an image, in pixels.
pub uninterp spec fn image_size(image: ImageData) -> (nat, nat);

/// The red, green and blue channel of every pixel of an image, by column
/// and row.
pub uninterp spec fn image_pixels(image: ImageData) -> Map<(nat, nat), (u8, u8, u8)>;

/// Makes an image of rows of pixels, three bytes to a pixel.
///
/// Calls `ImageBuffer::from_raw`, which keeps the width, the height and the
/// buffer if the buffer holds at least `3 * width * height` bytes, and
/// returns nothing otherwise, nor where that product, taken from the left,
/// does not fit the machine's word. The pixel in column `x` of row `y` is
/// made of the three bytes from index `3 * (y * width + x)` on.
#[verifier::external_body]
fn image_from_raw(width: u32, height: u32, data: Vec<u8>) -> (r: Option<ImageData>)
    ensures
        r is Some <==> (3 * width <= usize::MAX && 3 * width * height <= data@.len()),
        r is Some ==> image_size(r.unwrap()) == (width as nat, height as nat),
        r is Some ==> forall|x: nat, y: nat|
            x < width && y < height ==> #[trigger] image_pixels(r.unwrap())[(x, y)] == (
                data@[3 * (y * width + x)],
                data@[3 * (y * width + x) + 1],
                data@[3 * (y * width + x) + 2],
            ),
{
    match image::RgbImage::from_raw(width, height, data) {
        Some(inner) => Some(ImageData { inner }),
        None => None,
    }
}

/// The width of an image: `ImageBuffer::width`, which returns the width
/// that the buffer was made with.
#[verifier::external_body]
fn image_width(image: &ImageData) -> (w: u32)
    ensures
        w == image_size(*image).0,
{
    image.inner.width()
}

/// The height of an image: `ImageBuffer::height`, which returns the height
/// that the buffer was made with.
#[verifier::external_body]
fn image_height(image: &ImageData) -> (h: u32)
    ensures
        h == image_size(*image).1,
{
    image.inner.height()
}

/// The channels of the pixel in column `x` of row `y`:
/// `ImageBuffer::get_pixel`, which panics outside the image and otherwise
/// returns the pixel stored at that place.
#[verifier::external_body]
fn image_pixel(image: &ImageData, x: u32, y: u32) -> (p: (u8, u8, u8))
    requires
        x < image_size(*image).0,
        y < image_size(*image).1,
    ensures
        p == image_pixels(*image)[(x as nat, y as nat)],
{
    let pixel = image.inner.get_pixel(x, y);
    (pixel.0[0], pixel.0[1], pixel.0[2])
}

/// A copy of an image: `ImageBuffer::clone`, which copies the buffer and
/// keeps the width and the height.
#[verifier::external_body]
fn image_clone(image: &ImageData) -> (r: ImageData)
    ensures
        image_size(r) == image_size(*image),
        image_pixels(r) == image_pixels(*image),
{
    ImageData { inner: image.inner.clone() }
}

impl Clone for ImageData {
    /// A copy of the image, with the same size and the same pixels.
    fn clone(&self) -> (r: ImageData)
        ensures
            image_size(r) == image_size(*self),
            image_pixels(r) == image_pixels(*self),
    {
        image_clone(self)
    }
}

/// The index nearest to `i` among `0, .., n - 1`.
pub open spec fn clamp_index(i: int, n: int) -> int {
    if i < 0 {
        0
    } else if i > n - 1 {
        n - 1
    } else {
        i
    }
}

/// The index nearest to `i` among `0, .., n - 1`.
fn clamped(i: i32, n: u32) -> (r: u32)
    requires
        n > 0,
    ensures
        r == clamp_index(i as int, n as int),
        r < n,
{
    if i < 0 {
        0
    } else if i as u32 >= n {
        n - 1
    } else {
        i as u32
    }
}

impl ImageData {
    /// An image of `width` by `height` pixels from its bytes, row by row and
    /// three bytes to a pixel; none where the bytes are too few, or the
    /// width is too great for the machine.
    pub fn new(width: u32, height: u32, data: Vec<u8>) -> (r: Option<ImageData>)
        ensures
            r is Some <==> (3 * width <= usize::MAX && 3 * width * height <= data@.len()),
            r is Some ==> image_size(r.unwrap()) == (width as nat, height as nat),
            r is Some ==> forall|x: nat, y: nat|
                x < width && y < height ==> #[trigger] image_pixels(r.unwrap())[(x, y)] == (
                    data@[3 * (y * width + x)],
                    data@[3 * (y * width + x) + 1],
                    data@[3 * (y * width + x) + 2],
                ),
    {
        image_from_raw(width, height, data)
    }

    /// Width of the image in pixels.
    pub fn width(&self) -> (w: u32)
        ensures
            w == image_size(*self).0,
    {
        image_width(self)
    }

    /// Height of the image in pixels.
    pub fn height(&self) -> (h: u32)
        ensures
            h == image_size(*self).1,
    {
        image_height(self)
    }

    /// The pixel nearest to column `i` and row `j`: both are clamped to the
    /// image.
    pub fn texel(&self, i: i32, j: i32) -> (p: (u8, u8, u8))
        requires
            image_size(*self).0 > 0,
            image_size(*self).1 > 0,
        ensures
            p == image_pixels(*self)[(
                clamp_index(i as int, image_size(*self).0 as int) as nat,
                clamp_index(j as int, image_size(*self).1 as int) as nat,
            )],
    {
        let column = clamped(i, image_width(self));
        let row = clamped(j, image_height(self));
        image_pixel(self, column, row)
    }

    /// The pixel nearest to column `i` and row `j`, or none where the image
    /// has no pixel at all.
    pub fn lookup(&self, i: i32, j: i32) -> (p: Option<(u8, u8, u8)>)
        ensures
            p is Some <==> image_size(*self).0 > 0 && image_size(*self).1 > 0,
            p is Some ==> p.unwrap() == image_pixels(*self)[(
                clamp_index(i as int, image_size(*self).0 as int) as nat,
                clamp_index(j as int, image_size(*self).1 as int) as nat,
            )],
    {
        if image_width(self) > 0 && image_height(self) > 0 {
            Some(self.texel(i, j))
        } else {
            None
        }
    }
}

/// Whether `s` is the scalar with the value of the byte `n`.
pub open spec fn is_byte_value(s: Scalar, n: u8) -> bool {
    !s.negative() && !s.is_nan() && s.units() == n * pow2(149)
}

/// The colour of the pixel that an image texture shows at a point of a
/// surface, with channels from 0 to 255. `column` and `row` are the
/// surface coordinates of the point, scaled to the size of the image; they
/// are cut off to whole numbers and clamped to the image. An image without
/// pixels shows nothing.
pub fn image_texture_value(image: &ImageData, column: Scalar, row: Scalar) -> (r: Option<Vec3>)
    ensures
        r is Some <==> image_size(*image).0 > 0 && image_size(*image).1 > 0,
        r is Some ==> ({
            let pixel = image_pixels(*image)[(
                clamp_index(column.to_i32_spec(), image_size(*image).0 as int) as nat,
                clamp_index(row.to_i32_spec(), image_size(*image).1 as int) as nat,
            )];
            &&& is_byte_value(r.unwrap().e0, pixel.0)
            &&& is_byte_value(r.unwrap().e1, pixel.1)
            &&& is_byte_value(r.unwrap().e2, pixel.2)
        }),
{
    match image.lookup(column.to_i32(), row.to_i32()) {
        Some(pixel) => Some(
            Vec3::new(
                Scalar::from_byte(pixel.0),
                Scalar::from_byte(pixel.1),
                Scalar::from_byte(pixel.2),
            ),
        ),
        None => None,
    }
}

/// Puts the entries of a list into a random order.
///
/// Calls `SliceRandom::shuffle` with the generator of the thread. The
/// function only ever exchanges two entries of the list, so the list holds
/// the same entries afterwards, each as often as before. Nothing is claimed
/// of their order.
#[verifier::external_body]
fn shuffle(v: &mut Vec<usize>)
    ensures
        final(v)@.to_multiset() == old(v)@.to_multiset(),
{
    v.shuffle(&mut rand::thread_rng());
}

/// Whether a table holds each of the numbers `0, .., 255` once.
pub open spec fn is_permutation_table(table: Seq<usize>) -> bool {
    &&& table.len() == TABLE_SIZE
    &&& forall|k: int| 0 <= k < table.len() ==> (#[trigger] table[k]) < TABLE_SIZE
    &&& table.no_duplicates()
}

/// A table with the numbers `0, .., 255` in a random order.
pub fn perlin_generate_perm() -> (r: [usize; 256])
    ensures
        is_permutation_table(r@),
        r@.to_multiset() == identity_order(TABLE_SIZE as nat).to_multiset(),
{
    let mut list: Vec<usize> = Vec::new();
    let mut i: usize = 0;
    while i < TABLE_SIZE
        invariant
            i <= TABLE_SIZE,
            list@ == identity_order(i as nat),
        decreases TABLE_SIZE - i,
    {
        list.push(i);
        proof {
            assert(list@ =~= identity_order((i + 1) as nat));
        }
        i = i + 1;
    }
    let ghost ordered = list@;
    shuffle(&mut list);
    proof {
        lemma_shuffled_is_permutation(ordered, list@);
    }
    let mut table: [usize; 256] = [0; 256];
    let mut k: usize = 0;
    while k < TABLE_SIZE
        invariant
            k <= TABLE_SIZE,
            list@.len() == TABLE_SIZE,
            forall|j: int| 0 <= j < k ==> table@[j] == list@[j],
        decreases TABLE_SIZE - k,
    {
        table.set(k, list[k]);
        k = k + 1;
    }
    proof {
        assert(table@ =~= list@);
    }
    table
}

/// A list with the same entries as `0, .., 255` is a permutation table.
proof fn lemma_shuffled_is_permutation(ordered: Seq<usize>, shuffled: Seq<usize>)
    requires
        ordered == identity_order(TABLE_SIZE as nat),
        shuffled.to_multiset() == ordered.to_multiset(),
    ensures
        is_permutation_table(shuffled),
{
    vstd::seq_lib::to_multiset_len(ordered);
    vstd::seq_lib::to_multiset_len(shuffled);
    assert(ordered.no_duplicates());
    ordered.lemma_multiset_has_no_duplicates();
    shuffled.lemma_multiset_has_no_duplicates_conv();
    assert forall|k: int| 0 <= k < shuffled.len() implies (#[trigger] shuffled[k]) < TABLE_SIZE by {
        let x = shuffled[k];
        assert(shuffled.contains(x));
        vstd::seq_lib::to_multiset_contains(shuffled, x);
        vstd::seq_lib::to_multiset_contains(ordered, x);
        let j = choose|j: int| 0 <= j < ordered.len() && ordered[j] == x;
        assert(ordered[j] == j);
    }
}

/// Whether a table holds each of the numbers `0, .., 255` once.
pub fn is_permutation(table: &[usize; 256]) -> (r: bool)
    ensures
        r == is_permutation_table(table@),
{
    let mut seen: Vec<bool> = Vec::new();
    let mut n: usize = 0;
    while n < TABLE_SIZE
        invariant
            n <= TABLE_SIZE,
            seen@.len() == n,
            forall|x: int| 0 <= x < n ==> !(#[trigger] seen@[x]),
        decreases TABLE_SIZE - n,
    {
        seen.push(false);
        n = n + 1;
    }
    let mut k: usize = 0;
    while k < TABLE_SIZE
        invariant
            k <= TABLE_SIZE,
            table@.len() == TABLE_SIZE,
            seen@.len() == TABLE_SIZE,
            forall|j: int| 0 <= j < k ==> (#[trigger] table@[j]) < TABLE_SIZE,
            forall|i: int, j: int| 0 <= i < j < k ==> table@[i] != table@[j],
            forall|x: int|
                0 <= x < TABLE_SIZE ==> (#[trigger] seen@[x] <==> exists|j: int|
                    0 <= j < k && table@[j] == x),
        decreases TABLE_SIZE - k,
    {
        let entry = table[k];
        if entry >= TABLE_SIZE {
            return false;
        }
        if seen[entry] {
            proof {
                let j = choose|j: int| 0 <= j < k && table@[j] == entry;
                assert(table@[j] == table@[k as int] && j != k);
            }
            return false;
        }
        let ghost before = seen@;
        seen.set(entry, true);
        proof {
            assert forall|x: int| 0 <= x < TABLE_SIZE implies (#[trigger] seen@[x] <==> exists|
                j: int,
            |
                0 <= j < k + 1 && table@[j] == x) by {
                if x == entry {
                    assert(table@[k as int] == x);
                } else {
                    assert(seen@[x] == before[x]);
                    if before[x] {
                        let j = choose|j: int| 0 <= j < k && table@[j] == x;
                        assert(0 <= j < k + 1 && table@[j] == x);
                    }
                    if exists|j: int| 0 <= j < k + 1 && table@[j] == x {
                        let j = choose|j: int| 0 <= j < k + 1 && table@[j] == x;
                        assert(j != k);
                        assert(0 <= j < k && table@[j] == x);
                    }
                }
            }
            assert forall|i: int, j: int| 0 <= i < j < k + 1 implies table@[i] != table@[j] by {
                if j == k && table@[i] == entry {
                    assert(0 <= i < k && table@[i] == entry);
                    assert(before[entry as int]);
                }
            }
        }
        k = k + 1;
    }
    true
}

/// The tables of the noise generator: 256 gradient vectors, and one
/// permutation of `0, .., 255` for each axis. The tables are made once and
/// never change afterwards.
#[derive(Debug)]
pub struct Perlin {
    pub values: [Vec3; 256],
    pub perm_x: [usize; 256],
    pub perm_y: [usize; 256],
    pub perm_z: [usize; 256],
}

impl Clone for Perlin {
    /// A copy of the generator, with the same tables.
    fn clone(&self) -> (r: Perlin)
        ensures
            r == *self,
    {
        Perlin {
            values: self.values,
            perm_x: self.perm_x,
            perm_y: self.perm_y,
            perm_z: self.perm_z,
        }
    }
}

/// The place of the lattice coordinate `i` in a table: `i` modulo 256.
pub open spec fn table_slot(i: int) -> int {
    i % (TABLE_SIZE as int)
}

impl Perlin {
    /// Whether the three permutation tables are permutations.
    pub open spec fn wf(self) -> bool {
        &&& is_permutation_table(self.perm_x@)
        &&& is_permutation_table(self.perm_y@)
        &&& is_permutation_table(self.perm_z@)
    }

    /// The gradient at the lattice point `(i, j, k)`: the entry of the
    /// gradient table at the exclusive-or of the three permuted
    /// coordinates.
    pub open spec fn gradient_spec(self, i: int, j: int, k: int) -> Vec3 {
        self.values@[(self.perm_x@[table_slot(i)] ^ self.perm_y@[table_slot(j)]
            ^ self.perm_z@[table_slot(k)]) as int]
    }

    /// The generator with the gradient table `values` and three random
    /// permutation tables.
    pub fn new(values: [Vec3; 256]) -> (r: Perlin)
        ensures
            r.wf(),
            r.values@ == values@,
    {
        Perlin {
            values,
            perm_x: perlin_generate_perm(),
            perm_y: perlin_generate_perm(),
            perm_z: perlin_generate_perm(),
        }
    }

    /// The generator with the given tables; none unless each of the three
    /// permutation tables is a permutation of `0, .., 255`.
    pub fn from_tables(
        values: [Vec3; 256],
        perm_x: [usize; 256],
        perm_y: [usize; 256],
        perm_z: [usize; 256],
    ) -> (r: Option<Perlin>)
        ensures
            r is Some <==> is_permutation_table(perm_x@) && is_permutation_table(perm_y@)
                && is_permutation_table(perm_z@),
            r is Some ==> r.unwrap() == (Perlin { values, perm_x, perm_y, perm_z }),
    {
        if is_permutation(&perm_x) && is_permutation(&perm_y) && is_permutation(&perm_z) {
            Some(Perlin { values, perm_x, perm_y, perm_z })
        } else {
            None
        }
    }

    /// Whether the three permutation tables are permutations.
    pub fn is_wf(&self) -> (r: bool)
        ensures
            r == self.wf(),
    {
        is_permutation(&self.perm_x) && is_permutation(&self.perm_y) && is_permutation(
            &self.perm_z,
        )
    }

    /// The gradient at the lattice point `(i, j, k)`.
    pub fn gradient(&self, i: i64, j: i64, k: i64) -> (r: Vec3)
        requires
            self.wf(),
        ensures
            r == self.gradient_spec(i as int, j as int, k as int),
    {
        let a = self.perm_x[slot(i)];
        let b = self.perm_y[slot(j)];
        let c = self.perm_z[slot(k)];
        proof {
            lemma_xor_in_table(a, b, c);
        }
        self.values[a ^ b ^ c]
    }

    /// The lattice cell in which the point `p` lies: the greatest whole
    /// numbers not above its coordinates.
    pub fn cell_of(p: &Vec3) -> (r: (i32, i32, i32))
        ensures
            r.0 == p.e0.floor_to_i32_spec(),
            r.1 == p.e1.floor_to_i32_spec(),
            r.2 == p.e2.floor_to_i32_spec(),
    {
        (p.x().floor_to_i32(), p.y().floor_to_i32(), p.z().floor_to_i32())
    }

    /// The gradients at the eight corners of the lattice cell whose lowest
    /// corner is `(i, j, k)`. The corner `(i + di, j + dj, k + dk)` stands at
    /// index `4 * di + 2 * dj + dk`.
    pub fn lattice(&self, i: i32, j: i32, k: i32) -> (r: Vec<Vec3>)
        requires
            self.wf(),
        ensures
            r@.len() == 8,
            forall|di: int, dj: int, dk: int|
                0 <= di < 2 && 0 <= dj < 2 && 0 <= dk < 2 ==> #[trigger] r@[4 * di + 2 * dj + dk]
                    == self.gradient_spec(i + di, j + dj, k + dk),
    {
        let mut out: Vec<Vec3> = Vec::new();
        let i0 = i as i64;
        let j0 = j as i64;
        let k0 = k as i64;
        out.push(self.gradient(i0, j0, k0));
        out.push(self.gradient(i0, j0, k0 + 1));
        out.push(self.gradient(i0, j0 + 1, k0));
        out.push(self.gradient(i0, j0 + 1, k0 + 1));
        out.push(self.gradient(i0 + 1, j0, k0));
        out.push(self.gradient(i0 + 1, j0, k0 + 1));
        out.push(self.gradient(i0 + 1, j0 + 1, k0));
        out.push(self.gradient(i0 + 1, j0 + 1, k0 + 1));
        out
    }
}

/// The gradients that a generator hands out depend on nothing but its
/// tables: two generators with the same tables give the same gradient at
/// every lattice point, however often they are asked.
pub proof fn lemma_gradient_depends_on_tables(a: Perlin, b: Perlin, i: int, j: int, k: int)
    requires
        a.values@ == b.values@,
        a.perm_x@ == b.perm_x@,
        a.perm_y@ == b.perm_y@,
        a.perm_z@ == b.perm_z@,
    ensures
        a.gradient_spec(i, j, k) == b.gradient_spec(i, j, k),
{
}

/// The gradient at a lattice point is the gradient at every point that
/// lies a multiple of 256 cells away from it.
pub proof fn lemma_gradient_is_periodic(p: Perlin, i: int, j: int, k: int)
    ensures
        p.gradient_spec(i + 256, j, k) == p.gradient_spec(i, j, k),
        p.gradient_spec(i, j + 256, k) == p.gradient_spec(i, j, k),
        p.gradient_spec(i, j, k + 256) == p.gradient_spec(i, j, k),
{
}

/// The place of a lattice coordinate in a table.
fn slot(i: i64) -> (r: usize)
    ensures
        r == table_slot(i as int),
        r < TABLE_SIZE,
{
    let r = i % 256;
    if r < 0 {
        (r + 256) as usize
    } else {
        r as usize
    }
}

/// The exclusive-or of three table entries is a place in a table.
proof fn lemma_xor_in_table(a: usize, b: usize, c: usize)
    requires
        a < 256,
        b < 256,
        c < 256,
    ensures
        (a ^ b ^ c) < 256,
{
    assert((a ^ b ^ c) < 256) by (bit_vector)
        requires
            a < 256,
            b < 256,
            c < 256,
    ;
}

/// A texture gives a colour to every point of a surface.
#[derive(Debug)]
pub enum Texture {
    /// One colour everywhere.
    Constant { color: Vec3 },
    /// Two textures in the pattern of a checkerboard in space.
    Checker { odd: Box<Texture>, even: Box<Texture> },
    /// Marble-like noise.
    PerlinNoise { perlin: Box<Perlin>, scale: Scalar },
    /// The pixels of an image.
    Image { image: Box<ImageData> },
}

impl Clone for Texture {
    /// A copy of the texture, with copies of the textures below it.
    fn clone(&self) -> (r: Texture)
        ensures
            self.same_as(r),
        decreases self,
    {
        match self {
            Texture::Constant { color } => Texture::Constant { color: *color },
            Texture::Checker { odd, even } => Texture::Checker {
                odd: Box::new((**odd).clone()),
                even: Box::new((**even).clone()),
            },
            Texture::PerlinNoise { perlin, scale } => Texture::PerlinNoise {
                perlin: Box::new((**perlin).clone()),
                scale: *scale,
            },
            Texture::Image { image } => Texture::Image { image: Box::new((**image).clone()) },
        }
    }
}

impl Texture {
    /// Whether two textures show the same: they are of the same kind, with
    /// the same colour, the same textures below them, the same tables and
    /// scale, or images of the same size with the same pixels.
    pub open spec fn same_as(self, other: Texture) -> bool
        decreases self,
    {
        match (self, other) {
            (Texture::Constant { color: a }, Texture::Constant { color: b }) => a == b,
            (
                Texture::Checker { odd: odd_a, even: even_a },
                Texture::Checker { odd: odd_b, even: even_b },
            ) => odd_a.same_as(*odd_b) && even_a.same_as(*even_b),
            (
                Texture::PerlinNoise { perlin: perlin_a, scale: scale_a },
                Texture::PerlinNoise { perlin: perlin_b, scale: scale_b },
            ) => *perlin_a == *perlin_b && scale_a == scale_b,
            (Texture::Image { image: a }, Texture::Image { image: b }) => image_size(*a)
                == image_size(*b) && image_pixels(*a) == image_pixels(*b),
            _ => false,
        }
    }

    /// The texture that gives the colour at a point: a checkerboard hands
    /// on to its odd texture where `sines`, the product of the sines of the
    /// point's scaled coordinates, is negative, and to its even texture
    /// otherwise; any other texture gives the colour itself.
    pub open spec fn resolve_spec(self, sines: Scalar) -> Texture
        decreases self,
    {
        match self {
            Texture::Checker { odd, even } => if sines.lt_spec(Scalar { bits: 0 }) {
                odd.resolve_spec(sines)
            } else {
                even.resolve_spec(sines)
            },
            _ => self,
        }
    }

    /// The texture that gives the colour at the point whose product of
    /// sines is `sines`. It is never a checkerboard.
    pub fn resolve(&self, sines: Scalar) -> (r: &Texture)
        ensures
            *r == self.resolve_spec(sines),
            !(r is Checker),
        decreases self,
    {
        match self {
            Texture::Checker { odd, even } => if sines.lt(Scalar::zero()) {
                odd.resolve(sines)
            } else {
                even.resolve(sines)
            },
            _ => self,
        }
    }
}

} // verus!
