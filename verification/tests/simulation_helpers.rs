use yazelix_screen::aquarium::{
    bubble_count, bubble_points, crab_points, fish_art_rows, fish_count, fish_traits, paint_fish,
    paint_points, paint_ray_body, paint_sand_column, paint_water, pixel, plant_color,
    plant_count, plant_segment_points, rock_color, sand_color, speck_row, stalk_height, FishKind,
    FishSprite,
};
use yazelix_screen::chladni::{blended_modes, next_chladni_frame};
use yazelix_screen::friends_and_enemies::{
    density_color, draw_relations, paint_density, particle_count as friend_count, rewire,
};
use yazelix_screen::physarum::{agent_count, claim_cell, free_cell_from};
use yazelix_screen::plasma::next_plasma_frame;
use yazelix_screen::primordial::{particle_count as primordial_count, turn_direction};
use yazelix_screen::scalar_field::wrapped_cell;
use yazelix_screen::{HalfBlockField, RgbColor};

fn rgb(color: [u8; 3]) -> RgbColor {
    RgbColor::new(color[0], color[1], color[2])
}

#[test]
fn density_counts_hits_and_colors_them() {
    let mut field = HalfBlockField::new(3, 2);
    let mut density = vec![9u8; 6];
    paint_density(
        &mut field,
        &mut density,
        &vec![Some(4), None, Some(4), Some(0), Some(4), Some(4)],
    );
    assert_eq!(density, vec![1, 0, 0, 0, 4, 0]);
    let lines = field.render_lines(3);
    assert_eq!(lines.len(), 1);
    // Cell 0 (top left) holds one particle; cell 4 (bottom middle) four.
    let mut expected = HalfBlockField::new(3, 2);
    expected.set(0, 0, Some(density_color(1)));
    expected.set(1, 1, Some(density_color(4)));
    assert_eq!(field, expected);
    assert_eq!(density_color(2), RgbColor::new(0, 220, 205));
}

#[test]
fn density_saturates_at_a_byte() {
    let mut field = HalfBlockField::new(1, 1);
    let mut density = vec![0u8; 1];
    paint_density(&mut field, &mut density, &vec![Some(0); 300]);
    assert_eq!(density, vec![255]);
}

#[test]
fn relations_draw_friends_then_enemies_and_rewire_in_range() {
    let mut seed = 5;
    let relations = draw_relations(7, &mut seed);
    assert_eq!(relations.len(), 7);
    assert!(relations.iter().all(|&(friend, enemy)| friend < 7 && enemy < 7));
    let mut again = 5;
    assert_eq!(draw_relations(7, &mut again), relations);
    assert_eq!(again, seed);
    let mut rewired = relations.clone();
    let mut changed = 0;
    for _ in 0..40 {
        let before = rewired.clone();
        rewire(&mut rewired, &mut seed);
        let differing = before.iter().zip(&rewired).filter(|(a, b)| a != b).count();
        assert!(differing <= 1);
        changed += differing;
    }
    assert!(changed > 0);
    assert!(rewired.iter().all(|&(friend, enemy)| friend < 7 && enemy < 7));
}

#[test]
fn populations_follow_the_area() {
    assert_eq!(friend_count(10, 10), 500);
    assert_eq!(friend_count(100, 30), 1_500);
    assert_eq!(friend_count(1_000, 1_000), 1_600);
    assert_eq!(agent_count(9, 1), 2);
    assert_eq!(agent_count(1_000, 1_000), 6_000);
    assert_eq!(primordial_count(10, 10), 64);
    assert_eq!(primordial_count(120, 100), 1_000);
    assert_eq!(primordial_count(usize::MAX, 2), 1_200);
}

#[test]
fn agents_take_the_next_free_cell_and_never_share_one() {
    let occupied = vec![true, false, true, true];
    assert_eq!(free_cell_from(&occupied, 2), Some(1));
    assert_eq!(free_cell_from(&occupied, 1), Some(1));
    assert_eq!(free_cell_from(&vec![true, true], 1), None);

    let mut cells = vec![true, false, true];
    assert!(!claim_cell(&mut cells, 0, 2));
    assert_eq!(cells, vec![true, false, true]);
    assert!(claim_cell(&mut cells, 0, 1));
    assert_eq!(cells, vec![false, true, true]);
    assert!(claim_cell(&mut cells, 1, 1));
    assert_eq!(cells, vec![false, true, true]);
}

#[test]
fn wrapped_cells_wrap_both_ways() {
    assert_eq!(wrapped_cell(0, 0, 4, 3), 0);
    assert_eq!(wrapped_cell(-1, 0, 4, 3), 3);
    assert_eq!(wrapped_cell(4, -1, 4, 3), 8);
    assert_eq!(wrapped_cell(-9, 7, 4, 3), 7);
}

#[test]
fn loops_cycle_through_their_frames() {
    assert_eq!(blended_modes(0), ((1, 2), (1, 3)));
    assert_eq!(blended_modes(179), ((1, 2), (1, 3)));
    assert_eq!(blended_modes(180), ((1, 3), (2, 3)));
    assert_eq!(blended_modes(899), ((3, 5), (1, 2)));
    assert_eq!(next_chladni_frame(899), 0);
    assert_eq!(next_chladni_frame(5), 6);
    assert_eq!(next_plasma_frame(1_199), 0);
    assert_eq!(next_plasma_frame(0), 1);
    assert_eq!(turn_direction(3, 1), -1);
    assert_eq!(turn_direction(2, 2), 0);
    assert_eq!(turn_direction(0, 4), 1);
}

#[test]
fn tanks_are_stocked_by_size() {
    assert_eq!(fish_count(0), 0);
    assert_eq!(fish_count(100), 6);
    assert_eq!(fish_count(3_600), 10);
    assert_eq!(fish_count(1_000_000), 36);
    assert_eq!(bubble_count(2_200), 10);
    assert_eq!(bubble_count(1), 4);
    assert_eq!(plant_count(1, 70), 10);
    assert_eq!(plant_count(0, 70), 0);
    assert_eq!(plant_count(5, 7), 4);
    let school = fish_traits(2, 3_000, 80, 48);
    assert!(school.school);
    assert_eq!((school.kind, school.palette, school.depth), (FishKind::Minnow, 1, 0));
    let angel = fish_traits(6, 5_000, 80, 48);
    assert!(!angel.school);
    assert_eq!((angel.kind, angel.palette, angel.depth), (FishKind::Angel, 2, 1));
    let reef = fish_traits(7, 5_000, 80, 48);
    assert_eq!((reef.kind, reef.palette, reef.depth), (FishKind::Reef, 3, 2));
    assert_eq!(fish_traits(7, 5_000, 20, 48).kind, FishKind::Minnow);
}

#[test]
fn fish_are_drawn_from_their_art_facing_their_way() {
    let art = fish_art_rows(FishKind::Minnow);
    assert_eq!(art.len(), 3);
    assert_eq!(art[1], vec!['f', 'b', 'b', 'b', 'e']);
    let mut right = HalfBlockField::new(10, 6);
    paint_fish(
        &mut right,
        FishSprite {
            kind: FishKind::Minnow,
            palette: 0,
            depth: 1,
            facing_left: false,
            fins_tucked: false,
            x: 4,
            y: 2,
        },
    );
    // The middle row "fbbbe" spans columns 2..=6 on row 2.
    let mut expected = HalfBlockField::new(10, 6);
    for (column, color) in [
        (2, [187, 83, 57]),
        (3, [232, 137, 66]),
        (4, [232, 137, 66]),
        (5, [232, 137, 66]),
        (6, [13, 28, 37]),
    ] {
        expected.set(column, 2, Some(rgb(color)));
    }
    for column in [4, 5] {
        expected.set(column, 1, Some(rgb([255, 211, 134])));
        expected.set(column, 3, Some(rgb([125, 62, 54])));
    }
    assert_eq!(right, expected);

    let mut left = HalfBlockField::new(10, 6);
    paint_fish(
        &mut left,
        FishSprite {
            kind: FishKind::Minnow,
            palette: 0,
            depth: 0,
            facing_left: true,
            fins_tucked: true,
            x: 4,
            y: 2,
        },
    );
    // Mirrored, dimmed, and the tail fin (an even art column) tucked in.
    let mut mirrored = HalfBlockField::new(10, 6);
    for (column, color) in [(2, [13, 28, 37]), (3, [232, 137, 66]), (4, [232, 137, 66]), (5, [232, 137, 66])] {
        let dim = color.map(|channel| channel / 3 * 2);
        mirrored.set(column, 2, Some(rgb(if column == 2 { color } else { dim })));
    }
    mirrored.set(2, 2, Some(rgb([13 / 3 * 2, 28 / 3 * 2, 37 / 3 * 2])));
    for column in [3, 4] {
        mirrored.set(column, 1, Some(rgb([255 / 3 * 2, 211 / 3 * 2, 134 / 3 * 2])));
        mirrored.set(column, 3, Some(rgb([125 / 3 * 2, 62 / 3 * 2, 54 / 3 * 2])));
    }
    assert_eq!(left, mirrored);
}

#[test]
fn water_sand_and_rocks_have_their_colors() {
    let mut field = HalfBlockField::new(2, 16);
    paint_water(&mut field);
    let mut expected = HalfBlockField::new(2, 16);
    for y in 0..16usize {
        let shade = y as u8;
        for x in 0..2 {
            expected.set(x, y, Some(RgbColor::new(5 + shade / 3, 17 + shade, 27 + shade)));
        }
    }
    assert_eq!(field, expected);
    assert_eq!(sand_color(0, 0), [101, 105, 77]);
    assert_eq!(sand_color(1, 0), [63, 78, 66]);
    assert_eq!(sand_color(0, 1), [35, 53, 52]);
    assert_eq!(speck_row(7, 10), 8);
    assert_eq!(rock_color(1, -3, 4), [67, 94, 88]);
    assert_eq!(rock_color(0, -3, 4), [30, 58, 61]);
    assert_eq!(rock_color(1, -1, 4), [30, 58, 61]);
}

#[test]
fn later_points_paint_over_earlier_ones_and_stray_points_vanish() {
    let mut field = HalfBlockField::new(3, 2);
    paint_points(
        &mut field,
        &vec![(0, 0, [1, 1, 1]), (0, 0, [2, 2, 2]), (-1, 0, [3, 3, 3]), (2, 1, [4, 4, 4])],
    );
    let mut expected = HalfBlockField::new(3, 2);
    expected.set(0, 0, Some(RgbColor::new(2, 2, 2)));
    expected.set(2, 1, Some(RgbColor::new(4, 4, 4)));
    assert_eq!(field, expected);
    pixel(&mut field, 5, 0, [9, 9, 9]);
    assert_eq!(field, expected);

    assert_eq!(bubble_points(3, 3, false), vec![(3, 3, [69, 119, 129])]);
    assert_eq!(bubble_points(3, 3, true).len(), 5);
    let crab = crab_points(10, 10, (1, -1));
    assert_eq!(crab.len(), 16);
    assert_eq!(crab[12], (8, 12, [133, 78, 67]));
    assert_eq!(crab[15], (12, 12, [133, 78, 67]));
}

#[test]
fn the_ray_is_a_swept_diamond() {
    let mut field = HalfBlockField::new(30, 12);
    paint_ray_body(&mut field, 10, 5, 1);
    let mut expected = HalfBlockField::new(30, 12);
    // Middle row: eight columns each side; the rows above and below reach
    // eight columns too (8 - 3/4) but are swept back by nothing (1/2 == 0).
    for dy in -1i32..=1 {
        for dx in -8i32..=8 {
            expected.set((10 + dx) as usize, (5 + dy) as usize, Some(RgbColor::new(91, 131, 140)));
        }
    }
    assert_eq!(field, expected);

    let mut wide = HalfBlockField::new(30, 12);
    paint_ray_body(&mut wide, 10, 5, 2);
    // Two rows out the wing is darker, reaches seven columns and sweeps back one.
    let mut row = HalfBlockField::new(30, 12);
    for dy in -1i32..=1 {
        for dx in -8i32..=8 {
            row.set((10 + dx) as usize, (5 + dy) as usize, Some(RgbColor::new(91, 131, 140)));
        }
    }
    for dy in [-2i32, 2] {
        for dx in -7i32..=7 {
            row.set((10 + dx - 1) as usize, (5 + dy) as usize, Some(RgbColor::new(43, 81, 101)));
        }
    }
    assert_eq!(wide, row);
}

#[test]
fn sand_fills_the_bottom_of_a_column() {
    let mut field = HalfBlockField::new(3, 6);
    paint_sand_column(&mut field, 1, 2);
    let mut expected = HalfBlockField::new(3, 6);
    for y in 4..6 {
        let color = sand_color(1, y);
        expected.set(1, y, Some(RgbColor::new(color[0], color[1], color[2])));
    }
    assert_eq!(field, expected);
    let mut tall = HalfBlockField::new(1, 2);
    paint_sand_column(&mut tall, 0, 9);
    assert!(tall.render_lines(1)[0].contains("\u{2580}"));
}

#[test]
fn plants_grow_leaves_on_every_third_segment() {
    assert_eq!(plant_color(true, true), [169, 93, 110]);
    assert_eq!(plant_color(false, true), [47, 142, 105]);
    assert_eq!(plant_color(false, false), [21, 70, 67]);
    assert_eq!(stalk_height(20, true), 12);
    assert_eq!(stalk_height(20, false), 20);
    let color = [1, 2, 3];
    assert_eq!(plant_segment_points(5, 9, 0, false, true, color), vec![(5, 9, color)]);
    assert_eq!(
        plant_segment_points(5, 9, 1, false, true, color),
        vec![(5, 9, color), (4, 9, color), (3, 8, color), (2, 8, color), (6, 9, [96, 183, 119])]
    );
    assert_eq!(
        plant_segment_points(5, 9, 4, true, false, color),
        vec![
            (5, 9, color),
            (6, 9, color),
            (7, 8, color),
            (8, 8, color),
            (9, 7, color),
            (10, 7, color),
            (10, 6, [228, 151, 151]),
        ]
    );
}

fn sample_times_length(seed: u64, length: usize) -> usize {
    let next = seed
        .wrapping_mul(6_364_136_223_846_793_005)
        .wrapping_add(1);
    (((next >> 33) as f64) / ((1u64 << 31) as f64) * length as f64) as usize
}

#[test]
fn seeded_indices_scale_in_double_precision() {
    let lengths: [usize; 8] = [
        1,
        7,
        1 << 22,
        (1 << 40) + 12_345,
        (1 << 53) + 1,
        (1 << 60) - 3,
        usize::MAX - 1_000,
        usize::MAX,
    ];
    for start in [0u64, 1, 42, 0xDEAD_BEEF, u64::MAX, 0x1234_5678_9ABC_DEF0] {
        for length in lengths {
            let mut seed = start;
            let index = yazelix_screen::random::seeded_index(&mut seed, length);
            assert_eq!(index, sample_times_length(start, length));
            assert!(index < length);
            assert_eq!(
                seed,
                start.wrapping_mul(6_364_136_223_846_793_005).wrapping_add(1)
            );
        }
    }
    let mut seed = 9u64;
    assert_eq!(yazelix_screen::random::seeded_index(&mut seed, 0), 0);
}

#[test]
fn fish_are_painted_layer_by_layer() {
    let depths = vec![0usize, 1, 2, 0, 2, 2, 1];
    assert_eq!(yazelix_screen::aquarium::fish_in_layer(&depths, 0), vec![0, 3]);
    assert_eq!(yazelix_screen::aquarium::fish_in_layer(&depths, 1), vec![1, 6]);
    assert_eq!(yazelix_screen::aquarium::fish_in_layer(&depths, 2), vec![2, 4, 5]);
    assert!(yazelix_screen::aquarium::fish_in_layer(&depths, 3).is_empty());
    assert!(yazelix_screen::aquarium::fish_in_layer(&Vec::new(), 0).is_empty());
}
