use vstd::prelude::*;

verus! {

/// A decoded image: `width * height` packed `0xRRGGBB` texels, row-major.
pub struct Texture {
    pub width: usize,
    pub height: usize,
    pub pixels: Vec<u32>,
}

/// The wall textures, one per wall type, in the order `'+'`, `'-'`, `'|'`, `'g'`.
pub struct TextureSet {
    pub walls: Vec<Texture>,
}

/// Number of wall types that carry a texture.
pub const WALL_KINDS: usize = 4;

/// `v` clamped into `[0, n)`; `n` is positive.
pub open spec fn clamp_index(v: int, n: int) -> int {
    if v < n {
        v
    } else {
        n - 1
    }
}

impl Texture {
    /// Non-empty, with exactly `width * height` texels.
    pub open spec fn wf(&self) -> bool {
        &&& self.width > 0
        &&& self.height > 0
        &&& self.pixels@.len() == self.width * self.height
    }

    /// The texel looked up for `(u, v)`, coordinates clamped to the last
    /// column and row.
    pub open spec fn texel(&self, u: int, v: int) -> u32 {
        self.pixels@[clamp_index(v, self.height as int) * self.width + clamp_index(
            u,
            self.width as int,
        )]
    }

    /// A texture from row-major texels; `None` when a dimension is zero or the
    /// texel count is not `width * height`.
    pub fn from_pixels(width: usize, height: usize, pixels: Vec<u32>) -> (r: Option<Texture>)
        ensures
            r is Some <==> (width > 0 && height > 0 && pixels@.len() == width * height),
            r matches Some(t) ==> t.wf() && t.width == width && t.height == height && t.pixels
                == pixels,
    {
        if width == 0 || height == 0 {
            return None;
        }
        if pixels.len() / width != height || pixels.len() % width != 0 {
            proof {
                if pixels@.len() == width * height {
                    vstd::arithmetic::div_mod::lemma_div_multiples_vanish(height as int, width as int);
                    vstd::arithmetic::div_mod::lemma_mod_multiples_basic(height as int, width as int);
                }
            }
            return None;
        }
        proof {
            vstd::arithmetic::div_mod::lemma_fundamental_div_mod(pixels@.len() as int, width as int);
        }
        Some(Texture { width, height, pixels })
    }

    /// The texel at `(u, v)`; coordinates past the edge are clamped to the last
    /// column or row.
    pub fn get_pixel_color(&self, u: u32, v: u32) -> (r: u32)
        requires
            self.wf(),
        ensures
            r == self.texel(u as int, v as int),
    {
        let _count: usize = self.pixels.len();
        let uu: usize = if (u as u64) < (self.width as u64) {
            u as usize
        } else {
            self.width - 1
        };
        let vv: usize = if (v as u64) < (self.height as u64) {
            v as usize
        } else {
            self.height - 1
        };
        proof {
            crate::framebuffer::lemma_index_in_bounds(
                self.width as int,
                self.height as int,
                uu as int,
                vv as int,
            );
        }
        self.pixels[vv * self.width + uu]
    }
}

impl TextureSet {
    /// One well-formed texture per wall type.
    pub open spec fn wf(&self) -> bool {
        &&& self.walls@.len() == WALL_KINDS
        &&& forall|k: int| 0 <= k < WALL_KINDS ==> (#[trigger] self.walls@[k]).wf()
    }
}

/// Which texture of a `TextureSet` a wall character uses, if any.
pub open spec fn wall_index(cell: char) -> int {
    if cell == '+' {
        0
    } else if cell == '-' {
        1
    } else if cell == '|' {
        2
    } else if cell == 'g' {
        3
    } else {
        -1
    }
}

/// Flat color of a wall character in the top-down view; black when unknown.
pub open spec fn cell_color(cell: char) -> u32 {
    if cell == '+' {
        0xFF00FF
    } else if cell == '-' {
        0xDD11DD
    } else if cell == '|' {
        0xCC11CC
    } else if cell == 'g' {
        0xFF0000
    } else {
        0x000000
    }
}

/// Textured color of a wall character at `(tx, ty)`; black when unknown.
pub open spec fn texture_color(textures: TextureSet, cell: char, tx: int, ty: int) -> u32 {
    let k = wall_index(cell);
    if 0 <= k {
        textures.walls@[k].texel(tx, ty)
    } else {
        0x000000
    }
}

/// The flat top-down color of a wall character.
pub fn cell_to_color(cell: char) -> (r: u32)
    ensures
        r == cell_color(cell),
{
    match cell {
        '+' => 0xFF00FF,
        '-' => 0xDD11DD,
        '|' => 0xCC11CC,
        'g' => 0xFF0000,
        _ => 0x000000,
    }
}

/// The texel of a wall character's texture at `(tx, ty)`, clamped to the
/// texture's edges; black for characters without a texture.
pub fn cell_to_texture_color(textures: &TextureSet, cell: char, tx: u32, ty: u32) -> (r: u32)
    requires
        textures.wf(),
    ensures
        r == texture_color(*textures, cell, tx as int, ty as int),
{
    let k: usize = match cell {
        '+' => 0,
        '-' => 1,
        '|' => 2,
        'g' => 3,
        _ => return 0x000000,
    };
    textures.walls[k].get_pixel_color(tx, ty)
}

} // verus!
