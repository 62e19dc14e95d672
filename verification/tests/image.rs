use life_engine::image_array::{ImageArray, Pixel};
use life_engine::invert::{invert_bytes, invert_range, InvertEffect};
use life_engine::rotate::{rotate_rgb, rotated_dims, source_coord_for_out};
use life_engine::strategy::{
    by_chunk_process_data, by_chunk_thread_datas, by_column_thread_datas, by_row_thread_datas,
    single_process_data, single_thread_datas,
};
use life_engine::thread_data::SingleThreadData;

fn px(red: u8, green: u8, blue: u8) -> Pixel {
    Pixel { red, green, blue, alpha: 255 }
}

#[test]
fn default_pixel_is_blank() {
    let p = Pixel::default();
    assert_eq!((p.red, p.green, p.blue, p.alpha), (0, 0, 0, 0));
}

#[test]
fn add_pixel_grows_rows_and_pads_columns() {
    let mut image = ImageArray::default();
    image.add_pixel(0, 0, px(1, 2, 3));
    assert_eq!(image.0.len(), 1);
    assert_eq!(image.0[0], vec![px(1, 2, 3)]);

    image.add_pixel(2, 1, px(4, 5, 6));
    assert_eq!(image.0.len(), 2);
    assert_eq!(image.0[0], vec![px(1, 2, 3)]);
    assert_eq!(
        image.0[1],
        vec![Pixel::default(), Pixel::default(), px(4, 5, 6)]
    );

    // appending to a row that is already long enough
    image.add_pixel(0, 1, px(7, 8, 9));
    assert_eq!(image.0[1].len(), 4);
    assert_eq!(image.0[1][3], px(7, 8, 9));
}

#[test]
fn single_strategy_owns_every_row_and_inverts_in_place() {
    let mut image = ImageArray::default();
    image.add_pixel(0, 0, px(10, 20, 30));
    image.add_pixel(1, 0, px(40, 50, 60));
    image.add_pixel(0, 1, px(0, 0, 0));

    let datas = single_thread_datas(image);
    assert_eq!(datas.len(), 1);
    let processed: SingleThreadData = single_process_data::<InvertEffect>(
        datas.into_iter().next().unwrap(),
    );
    assert_eq!(processed.rows[0][0], Pixel { red: 245, green: 235, blue: 225, alpha: 255 });
    assert_eq!(processed.rows[0][1], Pixel { red: 215, green: 205, blue: 195, alpha: 255 });
    assert_eq!(processed.rows[1][0], Pixel { red: 255, green: 255, blue: 255, alpha: 255 });
}

#[test]
fn by_row_and_by_column_partitions_cover_the_image() {
    let mut image = ImageArray::default();
    image.add_pixel(0, 0, px(1, 0, 0));
    image.add_pixel(1, 0, px(2, 0, 0));
    image.add_pixel(0, 1, px(3, 0, 0));
    image.add_pixel(1, 1, px(4, 0, 0));

    let rows = by_row_thread_datas(image.clone());
    assert_eq!(rows.len(), 2);
    assert_eq!(rows[0].y, 0);
    assert_eq!(rows[0].row, vec![px(1, 0, 0), px(2, 0, 0)]);
    assert_eq!(rows[1].y, 1);
    assert_eq!(rows[1].row, vec![px(3, 0, 0), px(4, 0, 0)]);

    let columns = by_column_thread_datas(image);
    assert_eq!(columns.len(), 2);
    assert_eq!(columns[0].x, 0);
    assert_eq!(columns[0].column, vec![px(1, 0, 0), px(3, 0, 0)]);
    assert_eq!(columns[1].x, 1);
    assert_eq!(columns[1].column, vec![px(2, 0, 0), px(4, 0, 0)]);
}

#[test]
fn by_column_stops_at_the_shortest_row() {
    let mut image = ImageArray::default();
    image.add_pixel(0, 0, px(1, 0, 0));
    image.add_pixel(1, 0, px(2, 0, 0));
    image.add_pixel(0, 1, px(3, 0, 0));

    let columns = by_column_thread_datas(image);
    assert_eq!(columns.len(), 1);
    assert_eq!(columns[0].column, vec![px(1, 0, 0), px(3, 0, 0)]);
}

#[test]
fn by_chunk_tiles_cover_a_rectangular_image() {
    let mut image = ImageArray::default();
    for y in 0..2u32 {
        for x in 0..4u32 {
            image.add_pixel(x, y, px((1 + y * 4 + x) as u8, 0, 0));
        }
    }

    let tiles = by_chunk_thread_datas(image, 2, 1);
    assert_eq!(tiles.len(), 4);
    assert_eq!((tiles[0].x, tiles[0].y), (0, 0));
    assert_eq!(tiles[0].chunk_rows, vec![vec![px(1, 0, 0), px(2, 0, 0)]]);
    assert_eq!((tiles[1].x, tiles[1].y), (2, 0));
    assert_eq!(tiles[1].chunk_rows, vec![vec![px(3, 0, 0), px(4, 0, 0)]]);
    assert_eq!((tiles[2].x, tiles[2].y), (0, 1));
    assert_eq!(tiles[2].chunk_rows, vec![vec![px(5, 0, 0), px(6, 0, 0)]]);
    assert_eq!((tiles[3].x, tiles[3].y), (2, 1));
    assert_eq!(tiles[3].chunk_rows, vec![vec![px(7, 0, 0), px(8, 0, 0)]]);
    assert!(tiles.iter().all(|t| !t.up_to_down));
}

#[test]
fn by_chunk_drops_a_remainder_narrower_than_a_tile() {
    let mut image = ImageArray::default();
    for x in 0..5u32 {
        image.add_pixel(x, 0, px(x as u8, 0, 0));
    }

    let tiles = by_chunk_thread_datas(image, 2, 2);
    assert_eq!(tiles.len(), 2);
    assert_eq!((tiles[0].x, tiles[0].y), (0, 0));
    assert_eq!((tiles[1].x, tiles[1].y), (2, 0));
    assert_eq!(tiles[1].chunk_rows, vec![vec![px(2, 0, 0), px(3, 0, 0)]]);
}

#[test]
fn by_chunk_processing_inverts_the_tile() {
    let mut image = ImageArray::default();
    image.add_pixel(0, 0, px(10, 20, 30));
    image.add_pixel(1, 0, px(40, 50, 60));

    let tiles = by_chunk_thread_datas(image, 2, 1);
    assert_eq!(tiles.len(), 1);
    let processed = by_chunk_process_data::<InvertEffect>(tiles.into_iter().next().unwrap());
    assert_eq!((processed.x, processed.y), (0, 0));
    assert_eq!(
        processed.chunk_rows,
        vec![vec![
            Pixel { red: 245, green: 235, blue: 225, alpha: 255 },
            Pixel { red: 215, green: 205, blue: 195, alpha: 255 },
        ]]
    );
}

#[test]
fn invert_flips_every_byte() {
    let mut buffer = vec![0u8, 1, 100, 255];
    invert_bytes(&mut buffer);
    assert_eq!(buffer, vec![255u8, 254, 155, 0]);
}

#[test]
fn invert_range_leaves_the_rest_alone() {
    let mut buffer = vec![10u8, 20, 30, 40];
    invert_range(&mut buffer, 1, 3);
    assert_eq!(buffer, vec![10u8, 235, 225, 40]);
}

#[test]
fn blur_radius_zero_copies_the_image() {
    let src: Vec<u8> = (10u8..34).collect();
    let out = life_engine::blur::blur_rgb(&src, 4, 2, 0);
    assert_eq!(out, src);
}

#[test]
fn blur_averages_the_clamped_window() {
    // two pixels A = (9,9,9), B = (18,18,18) in one row, radius 1:
    // at x=0 the clamped window holds A twice and B once per row,
    // at x=1 it holds A once and B twice.
    let src = vec![9u8, 9, 9, 18, 18, 18];
    let out = life_engine::blur::blur_rgb(&src, 2, 1, 1);
    assert_eq!(out, vec![12u8, 12, 12, 15, 15, 15]);
}

#[test]
fn rotated_dims_swap_on_quarter_turns() {
    assert_eq!(rotated_dims(4, 3, 90), (3, 4));
    assert_eq!(rotated_dims(4, 3, 180), (4, 3));
    assert_eq!(rotated_dims(4, 3, 270), (3, 4));
    assert_eq!(rotated_dims(4, 3, 0), (4, 3));
}

#[test]
fn source_coords_match_the_rotation() {
    assert_eq!(source_coord_for_out(0, 0, 2, 3, 90), (0, 2));
    assert_eq!(source_coord_for_out(1, 0, 2, 3, 180), (0, 2));
    assert_eq!(source_coord_for_out(0, 1, 2, 3, 270), (0, 0));
    assert_eq!(source_coord_for_out(1, 2, 2, 3, 0), (1, 2));
}

#[test]
fn rotate_a_two_by_one_image() {
    // two pixels in one row: A = (1,2,3), B = (4,5,6)
    let src = vec![1u8, 2, 3, 4, 5, 6];
    let out90 = rotate_rgb(&src, 2, 1, 90);
    // after a 90-degree turn the row becomes a column: A on top, B below
    assert_eq!(out90, vec![1u8, 2, 3, 4, 5, 6]);
    let out180 = rotate_rgb(&src, 2, 1, 180);
    assert_eq!(out180, vec![4u8, 5, 6, 1, 2, 3]);
    let out_other = rotate_rgb(&src, 2, 1, 45);
    assert_eq!(out_other, src);
}

#[test]
fn rotate_180_twice_is_identity() {
    let src: Vec<u8> = (0u8..24).collect();
    let once = rotate_rgb(&src, 4, 2, 180);
    let twice = rotate_rgb(&once, 4, 2, 180);
    assert_eq!(twice, src);
}
