use fragview::block_group::BlockGroup;
use fragview::parse::ExtentType;
use fragview::raster::Color;
use fragview::space_info::SpaceInfo;
use fragview::{BLOCK, CANVAS_DIM};

const K: u64 = 1 << 10;
const G: u64 = 1 << 30;

fn count_color(bg: &BlockGroup, c: Color) -> usize {
    bg.img.pixels.iter().filter(|p| **p == c).count()
}

#[test]
fn palette_is_the_only_pixel_vocabulary() {
    let mut bg = BlockGroup::new(0, G, false);
    bg.ins_extent(0, 4 * BLOCK).unwrap();
    bg.ins_extent(8 * BLOCK, 2 * BLOCK).unwrap();
    bg.del_extent(0).unwrap();
    let allowed = [
        (255u8, 255u8, 255u8),
        (255, 0, 0),
        (0, 255, 0),
        (0, 0, 255),
    ];
    for p in bg.img.pixels.iter() {
        assert!(allowed.contains(&p.rgb()));
    }
}

#[test]
fn color_cycling_paints_red_green_blue() {
    let mut bg = BlockGroup::new(0, G, false);
    bg.ins_extent(0, BLOCK).unwrap();
    assert_eq!(count_color(&bg, Color::Red), 1);
    assert_eq!(count_color(&bg, Color::Green), 0);
    bg.ins_extent(BLOCK, BLOCK).unwrap();
    assert_eq!(count_color(&bg, Color::Green), 1);
    assert_eq!(count_color(&bg, Color::Blue), 0);
    bg.ins_extent(2 * BLOCK, BLOCK).unwrap();
    assert_eq!(count_color(&bg, Color::Red), 1);
    assert_eq!(count_color(&bg, Color::Green), 1);
    assert_eq!(count_color(&bg, Color::Blue), 1);
    bg.ins_extent(3 * BLOCK, BLOCK).unwrap();
    assert_eq!(count_color(&bg, Color::Red), 2);
}

#[test]
fn curve_keeps_nearby_blocks_nearby() {
    let mut bg = BlockGroup::new(0, G, false);
    bg.ins_extent(0, 4 * BLOCK).unwrap();
    let dim = CANVAS_DIM as usize;
    let mut occupied: Vec<(usize, usize)> = Vec::new();
    for y in 0..dim {
        for x in 0..dim {
            if bg.img.pixels[y * dim + x] != Color::White {
                occupied.push((x, y));
            }
        }
    }
    occupied.sort();
    assert_eq!(occupied, vec![(0, 0), (0, 1), (1, 0), (1, 1)]);
}

#[test]
fn insert_then_delete_restores_the_picture() {
    let mut si = SpaceInfo::new();
    si.ins_block_group(G, G);
    si.ins_extent(ExtentType::Data, G + 40 * K, 256 * K).unwrap();
    si.del_extent(G + 40 * K).unwrap();
    let bg = &si.block_groups[0];
    assert_eq!(bg.extents.len(), 0);
    assert_eq!(count_color(bg, Color::White), bg.img.pixels.len());

    let untouched = BlockGroup::new(G, G, false);
    assert_eq!(bg.img.pixels, untouched.img.pixels);
    assert_eq!(bg.extents, untouched.extents);
    // the observed-kinds set keeps the kind that passed through
    assert!(bg.has_data);
}
