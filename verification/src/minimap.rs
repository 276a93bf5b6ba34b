//! Pictures of the map: the minimap's picture of the tile map, the respawn
//! choice made by clicking on it, the mode it is shown in, and the blank
//! tile picture that tile sprites are tinted from.

use vstd::prelude::*;
use crate::map::{Biome, MAPSIZE, TILESIZE};

verus! {

/// Width and height of the minimap, in pixels: one pixel per tile.
pub const MINIMAP_SIZE: u32 = 256;
/// Half the window's width, in pixels.
pub const HALF_WIN_W: u32 = 640;
/// Half the window's height, in pixels.
pub const HALF_WIN_H: u32 = 360;

/// The sepia colour of a tile kind on the minimap, as red, green, blue
/// and alpha bytes.
pub open spec fn biome_rgba(b: Biome) -> Seq<u8> {
    match b {
        Biome::Free => seq![255u8, 255, 255, 255],
        Biome::Wall => seq![87u8, 53, 0, 255],
        Biome::Ground => seq![182u8, 136, 66, 255],
        Biome::Camp => seq![131u8, 91, 20, 255],
        Biome::Path => seq![241u8, 213, 166, 255],
    }
}

/// Byte `i` of the minimap picture: tiles row by row, four bytes each.
pub open spec fn pixel_byte(map: [[Biome; MAPSIZE]; MAPSIZE], i: int) -> u8 {
    let t = i / 4;
    biome_rgba(map@[t / 256]@[t % 256])[i % 4]
}

fn rgba(b: Biome) -> (r: [u8; 4])
    ensures
        r@ == biome_rgba(b),
{
    let r = match b {
        Biome::Free => [255u8, 255, 255, 255],
        Biome::Wall => [87u8, 53, 0, 255],
        Biome::Ground => [182u8, 136, 66, 255],
        Biome::Camp => [131u8, 91, 20, 255],
        Biome::Path => [241u8, 213, 166, 255],
    };
    assert(r@ =~= biome_rgba(b));
    r
}

/// The bytes of the minimap picture: four colour bytes per tile, row by row.
pub fn minimap_pixels(map: &[[Biome; MAPSIZE]; MAPSIZE]) -> (r: Vec<u8>)
    ensures
        r@.len() == 4 * MAPSIZE * MAPSIZE,
        forall|i: int| 0 <= i < r@.len() ==> #[trigger] r@[i] == pixel_byte(*map, i),
{
    let mut data: Vec<u8> = Vec::new();
    let mut t: usize = 0;
    while t < MAPSIZE * MAPSIZE
        invariant
            t <= MAPSIZE * MAPSIZE,
            data@.len() == 4 * t,
            forall|i: int| 0 <= i < data@.len() ==> #[trigger] data@[i] == pixel_byte(*map, i),
        decreases MAPSIZE * MAPSIZE - t,
    {
        let row = t / MAPSIZE;
        let col = t % MAPSIZE;
        let px = rgba(map[row][col]);
        let mut j: usize = 0;
        while j < 4
            invariant
                j <= 4,
                t < MAPSIZE * MAPSIZE,
                row == t / 256,
                col == t % 256,
                px@ == biome_rgba(map@[row as int]@[col as int]),
                data@.len() == 4 * t + j,
                forall|i: int| 0 <= i < data@.len() ==> #[trigger] data@[i] == pixel_byte(*map, i),
            decreases 4 - j,
        {
            let ghost i = 4 * t + j;
            assert(i / 4 == t && i % 4 == j);
            data.push(px[j]);
            j = j + 1;
        }
        t = t + 1;
    }
    data
}

/// The tile a click on the respawn map at window pixel `(px, py)` picks:
/// two pixels per tile from the map's top left corner, capped at the last
/// tile. `None` when that tile is a wall.
pub fn respawn_tile(px: u32, py: u32, map: &[[Biome; MAPSIZE]; MAPSIZE]) -> (r: Option<(usize, usize)>)
    requires
        HALF_WIN_W - MINIMAP_SIZE <= px,
        HALF_WIN_H - MINIMAP_SIZE <= py,
    ensures
        ({
            let x = if (px - (HALF_WIN_W - MINIMAP_SIZE)) / 2 > 255 {
                255
            } else {
                (px - (HALF_WIN_W - MINIMAP_SIZE)) / 2
            };
            let y = if (py - (HALF_WIN_H - MINIMAP_SIZE)) / 2 > 255 {
                255
            } else {
                (py - (HALF_WIN_H - MINIMAP_SIZE)) / 2
            };
            r == if map@[y]@[x] == Biome::Wall {
                None
            } else {
                Some((x as usize, y as usize))
            }
        }),
{
    let dx = (px - (HALF_WIN_W - MINIMAP_SIZE)) / 2;
    let dy = (py - (HALF_WIN_H - MINIMAP_SIZE)) / 2;
    let x: usize = if dx > 255 {
        255
    } else {
        dx as usize
    };
    let y: usize = if dy > 255 {
        255
    } else {
        dy as usize
    };
    match map[y][x] {
        Biome::Wall => None,
        _ => Some((x, y)),
    }
}

/// How the minimap is to be shown after this frame's events: as the full
/// respawn map when the local player died (that wins), as the small map
/// when it spawned, unchanged (`None`) otherwise.
pub fn minimap_mode(deaths: usize, spawns: usize) -> (r: Option<bool>)
    ensures
        r == (if deaths > 0 {
            Some(true)
        } else if spawns > 0 {
            Some(false)
        } else {
            None
        }),
{
    if deaths > 0 {
        Some(true)
    } else if spawns > 0 {
        Some(false)
    } else {
        None
    }
}

/// The picture every tile sprite starts from (and is then tinted): a
/// `TILESIZE` by `TILESIZE` square of opaque white, four bytes per pixel.
pub fn tile_image_pixels() -> (r: Vec<u8>)
    ensures
        r@.len() == 4 * TILESIZE * TILESIZE,
        forall|i: int| 0 <= i < r@.len() ==> #[trigger] r@[i] == 255,
{
    let mut data: Vec<u8> = Vec::new();
    let mut k: usize = 0;
    while k < 4 * TILESIZE * TILESIZE
        invariant
            k <= 4 * TILESIZE * TILESIZE,
            data@.len() == k,
            forall|i: int| 0 <= i < k ==> #[trigger] data@[i] == 255,
        decreases 4 * TILESIZE * TILESIZE - k,
    {
        data.push(255);
        k = k + 1;
    }
    data
}

} // verus!
