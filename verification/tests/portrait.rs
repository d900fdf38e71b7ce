use presentation::portrait::{compose, CanvasError, PortraitTile, SourceImage, TILE_SIZE};

fn image(width: u32, color: [u8; 4]) -> SourceImage {
    SourceImage {
        rgba8: true,
        width,
        height: TILE_SIZE,
        data: Some(color.repeat((width * TILE_SIZE) as usize)),
    }
}

#[test]
fn portrait_canvas_replaces_alpha_preserves_blocks_and_clamps_its_edges() {
    let base = image(16, [10, 20, 30, 255]);
    let patch = image(8, [80, 70, 60, 0]);
    let sizes = vec![(16, 8), (8, 8)];
    let mut tiles = vec![
        PortraitTile { image: 1, block: 0 },
        PortraitTile { image: 0, block: 1 },
    ];
    let images = vec![base, patch];
    let canvas = compose((16, 8), &sizes, &tiles, &images, (24, 12)).unwrap();
    let pixel = |x: usize, y: usize| &canvas[(y * 24 + x) * 4..(y * 24 + x + 1) * 4];
    for y in 0..10 {
        for x in 0..18 {
            assert_eq!(
                pixel(x, y),
                if x <= 8 {
                    &[80, 70, 60, 0]
                } else {
                    &[10, 20, 30, 255]
                }
            );
        }
        assert_eq!(pixel(18, y), [0; 4]);
    }
    tiles[0].block = 1;
    assert!(compose((16, 8), &sizes, &tiles, &images, (24, 12)).is_err());
}

#[test]
fn rows_below_the_bordered_portrait_stay_transparent() {
    let images = vec![image(8, [1, 2, 3, 4])];
    let tiles = vec![PortraitTile { image: 0, block: 0 }];
    let canvas = compose((8, 8), &vec![(8, 8)], &tiles, &images, (12, 12)).unwrap();
    assert_eq!(canvas.len(), 12 * 12 * 4);
    assert_eq!(&canvas[(9 * 12 + 9) * 4..(9 * 12 + 10) * 4], [1, 2, 3, 4]);
    assert_eq!(&canvas[(10 * 12 + 3) * 4..(10 * 12 + 4) * 4], [0; 4]);
    assert_eq!(&canvas[(3 * 12 + 10) * 4..(3 * 12 + 11) * 4], [0; 4]);
}

#[test]
fn a_portrait_without_room_for_its_border_is_refused() {
    let images = vec![image(8, [1, 2, 3, 4])];
    let tiles = vec![PortraitTile { image: 0, block: 0 }];
    assert_eq!(compose((8, 8), &vec![(8, 8)], &tiles, &images, (9, 12)), Err(CanvasError::InvalidCanvas));
    assert_eq!(compose((0, 8), &vec![(8, 8)], &tiles, &images, (12, 12)), Err(CanvasError::InvalidCanvas));
    assert_eq!(compose((8, 8), &vec![], &tiles, &images, (12, 12)), Err(CanvasError::InvalidCanvas));
}

#[test]
fn each_source_problem_is_named() {
    let tiles = vec![PortraitTile { image: 0, block: 0 }];
    let mut wrong_format = image(8, [1, 2, 3, 4]);
    wrong_format.rgba8 = false;
    assert_eq!(
        compose((8, 8), &vec![(8, 8)], &tiles, &vec![wrong_format], (12, 12)),
        Err(CanvasError::SourceFormat)
    );
    let mut evicted = image(8, [1, 2, 3, 4]);
    evicted.data = None;
    assert_eq!(
        compose((8, 8), &vec![(8, 8)], &tiles, &vec![evicted], (12, 12)),
        Err(CanvasError::SourceUnavailable)
    );
    let mut short = image(8, [1, 2, 3, 4]);
    short.data = Some(vec![0; 8 * 8 * 4 - 1]);
    assert_eq!(
        compose((8, 8), &vec![(8, 8)], &tiles, &vec![short], (12, 12)),
        Err(CanvasError::SourceUnavailable)
    );
}

#[test]
fn each_block_map_problem_is_named() {
    let images = vec![image(8, [1, 2, 3, 4])];
    assert_eq!(
        compose((9, 8), &vec![(8, 8)], &vec![PortraitTile { image: 0, block: 0 }], &images, (12, 12)),
        Err(CanvasError::IncompleteBlockMap)
    );
    assert_eq!(
        compose((8, 8), &vec![(8, 8)], &vec![PortraitTile { image: 1, block: 0 }], &images, (12, 12)),
        Err(CanvasError::MissingImage)
    );
    assert_eq!(
        compose((8, 8), &vec![(8, 8)], &vec![PortraitTile { image: 0, block: 1 }], &images, (12, 12)),
        Err(CanvasError::SourcePadding)
    );
}
