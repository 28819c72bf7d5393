use std::cell::RefCell;

use alloy::image_cache::errors::Error;
use alloy::image_cache::errors::TextureCreationError;
use alloy::image_cache::image_loader::DecodedImage;
use alloy::image_cache::image_loader::Orientation;
use alloy::image_cache::texture::choose_mipmaps;
use alloy::image_cache::texture::copy_cell;
use alloy::image_cache::texture::texture_from_img_rect;
use alloy::image_cache::texture::AnimationFrameTexture;
use alloy::image_cache::texture::Gpu;
use alloy::image_cache::texture::Mipmaps;
use alloy::image_cache::texture::TileImage;

/// An image whose pixel at (x, y) is [x, y, 7, 255].
fn gradient(w: u32, h: u32) -> Vec<u8> {
    let mut pixels = Vec::new();
    for y in 0..h {
        for x in 0..w {
            pixels.extend_from_slice(&[x as u8, y as u8, 7, 255]);
        }
    }
    pixels
}

#[test]
fn decoded_image_takes_only_a_buffer_of_the_right_length() {
    assert!(DecodedImage::new(2, 3, vec![0; 24]).is_some());
    assert!(DecodedImage::new(2, 3, vec![0; 23]).is_none());
    assert!(DecodedImage::new(2, 3, vec![0; 25]).is_none());
    assert!(DecodedImage::new(0, 3, vec![]).is_none());
    assert!(DecodedImage::new(3, 0, vec![]).is_none());
    let image = DecodedImage::new(2, 3, gradient(2, 3)).unwrap();
    assert_eq!(image.dimensions(), (2, 3));
    assert_eq!(image.width(), 2);
    assert_eq!(image.height(), 3);
    assert_eq!(image.as_raw(), &gradient(2, 3));
    assert_eq!(image.into_raw(), gradient(2, 3));
}

#[test]
fn mipmaps_follow_the_smaller_power_of_two() {
    // min(log2(w), log2(h), 4), and no mipmap where that is 1.
    assert_eq!(choose_mipmaps(1, 1), Mipmaps::AutoGeneratedMax(0));
    assert_eq!(choose_mipmaps(2, 2), Mipmaps::NoMipmap);
    assert_eq!(choose_mipmaps(3, 1000), Mipmaps::NoMipmap);
    assert_eq!(choose_mipmaps(4, 4), Mipmaps::AutoGeneratedMax(2));
    assert_eq!(choose_mipmaps(7, 100), Mipmaps::AutoGeneratedMax(2));
    assert_eq!(choose_mipmaps(8, 100), Mipmaps::AutoGeneratedMax(3));
    assert_eq!(choose_mipmaps(15, 16), Mipmaps::AutoGeneratedMax(3));
    assert_eq!(choose_mipmaps(16, 16), Mipmaps::AutoGeneratedMax(4));
    assert_eq!(choose_mipmaps(4000, 3000), Mipmaps::AutoGeneratedMax(4));
    assert_eq!(choose_mipmaps(u32::MAX, u32::MAX), Mipmaps::AutoGeneratedMax(4));
    assert_eq!(choose_mipmaps(1, 4000), Mipmaps::AutoGeneratedMax(0));
}

#[test]
fn cell_is_copied_row_by_row() {
    let pixels = gradient(5, 4);
    let cell = copy_cell(5, &pixels, 1, 2, 3, 2);
    let expected: Vec<u8> = vec![
        1, 2, 7, 255, 2, 2, 7, 255, 3, 2, 7, 255, // row 2
        1, 3, 7, 255, 2, 3, 7, 255, 3, 3, 7, 255, // row 3
    ];
    assert_eq!(cell, expected);
}

#[test]
fn cell_as_wide_as_the_image_is_one_range() {
    let pixels = gradient(3, 4);
    let cell = copy_cell(3, &pixels, 0, 1, 3, 2);
    assert_eq!(cell, pixels[12..36].to_vec());
    let all = copy_cell(3, &pixels, 0, 0, 3, 4);
    assert_eq!(all, pixels);
    let none = copy_cell(3, &pixels, 0, 4, 3, 0);
    assert!(none.is_empty());
}

#[test]
fn texture_of_a_rect_hands_the_tile_to_the_device() {
    let gpu = Gpu::new(64, |tile: &TileImage| {
        Ok((tile.width, tile.height, tile.pixels.clone(), tile.mipmaps))
    });
    let pixels = gradient(5, 4);
    let (w, h, data, mipmaps) = texture_from_img_rect(&gpu, 5, 4, &pixels, 3, 1, 2, 3).unwrap();
    assert_eq!((w, h), (2, 3));
    assert_eq!(mipmaps, Mipmaps::AutoGeneratedMax(2));
    assert_eq!(
        data,
        vec![3, 1, 7, 255, 4, 1, 7, 255, 3, 2, 7, 255, 4, 2, 7, 255, 3, 3, 7, 255, 4, 3, 7, 255]
    );
}

#[test]
fn texture_of_a_rect_reports_what_the_device_refuses() {
    let gpu = Gpu::new(64, |_tile: &TileImage| -> Result<u8, TextureCreationError> {
        Err(TextureCreationError::DimensionsNotSupported)
    });
    let pixels = gradient(2, 2);
    let refused = texture_from_img_rect(&gpu, 2, 2, &pixels, 0, 0, 2, 2);
    assert_eq!(
        refused,
        Err(Error::TextureCreationError(TextureCreationError::DimensionsNotSupported))
    );
}

#[test]
fn small_image_is_one_tile() {
    let gpu = Gpu::new(8192, |tile: &TileImage| Ok(tile.pixels.clone()));
    let image = DecodedImage::new(5, 4, gradient(5, 4)).unwrap();
    let frame = AnimationFrameTexture::from_image(&gpu, image, 40, Orientation::Deg90).unwrap();
    assert_eq!((frame.w, frame.h), (5, 4));
    assert_eq!(frame.cell_step_size, 4096);
    assert_eq!((frame.grid_rows, frame.grid_cols), (1, 1));
    assert_eq!(frame.delay_nano, 40);
    assert_eq!(frame.orientation, Orientation::Deg90);
    assert_eq!(frame.tex_grid.len(), 1);
    assert_eq!((frame.tex_grid[0].row, frame.tex_grid[0].col), (0, 0));
    assert_eq!(frame.tex_grid[0].tex, gradient(5, 4));
}

#[test]
fn tile_edge_is_half_of_what_the_device_supports() {
    let gpu = Gpu::new(6, |tile: &TileImage| Ok((tile.width, tile.height)));
    assert_eq!(gpu.max_texture_size(), 6);
    let image = DecodedImage::new(7, 3, gradient(7, 3)).unwrap();
    let frame = AnimationFrameTexture::from_image(&gpu, image, 0, Orientation::Deg0).unwrap();
    assert_eq!(frame.cell_step_size, 3);
    assert_eq!((frame.grid_rows, frame.grid_cols), (1, 3));
    let sizes: Vec<(u32, u32)> = frame.tex_grid.iter().map(|item| item.tex).collect();
    assert_eq!(sizes, vec![(3, 3), (3, 3), (1, 3)]);
}

#[test]
fn large_image_is_a_grid_in_row_major_order() {
    let calls = RefCell::new(Vec::new());
    let gpu = Gpu::new(4, |tile: &TileImage| {
        calls.borrow_mut().push((tile.width, tile.height));
        Ok(tile.pixels.clone())
    });
    let pixels = gradient(5, 3);
    let image = DecodedImage::new(5, 3, pixels).unwrap();
    let frame = AnimationFrameTexture::from_image(&gpu, image, 0, Orientation::Deg0).unwrap();
    assert_eq!(frame.cell_step_size, 2);
    assert_eq!((frame.grid_rows, frame.grid_cols), (2, 3));
    let places: Vec<(u32, u32)> = frame.tex_grid.iter().map(|item| (item.row, item.col)).collect();
    assert_eq!(places, vec![(0, 0), (0, 1), (0, 2), (1, 0), (1, 1), (1, 2)]);
    assert_eq!(*calls.borrow(), vec![(2, 2), (2, 2), (1, 2), (2, 1), (2, 1), (1, 1)]);
    // The tile in row 1 and column 1 holds the pixels (2, 2) and (3, 2).
    assert_eq!(frame.tex_grid[4].tex, vec![2, 2, 7, 255, 3, 2, 7, 255]);
    // The tile in row 0 and column 2 holds the pixels (4, 0) and (4, 1).
    assert_eq!(frame.tex_grid[2].tex, vec![4, 0, 7, 255, 4, 1, 7, 255]);
    // Put together, the tiles are the image.
    let mut rebuilt = vec![0u8; 5 * 3 * 4];
    for item in frame.tex_grid.iter() {
        let x0 = item.col * frame.cell_step_size;
        let y0 = item.row * frame.cell_step_size;
        let w = (frame.w - x0).min(frame.cell_step_size);
        for (i, byte) in item.tex.iter().enumerate() {
            let y = y0 + (i as u32 / (4 * w));
            let x4 = 4 * x0 + (i as u32 % (4 * w));
            rebuilt[(y * 5 * 4 + x4) as usize] = *byte;
        }
    }
    assert_eq!(rebuilt, gradient(5, 3));
}

#[test]
fn tile_edge_is_capped() {
    let gpu = Gpu::new(u32::MAX, |tile: &TileImage| Ok(tile.width));
    let image = DecodedImage::new(4097, 1, vec![0; 4 * 4097]).unwrap();
    let frame = AnimationFrameTexture::from_image(&gpu, image, 0, Orientation::Deg0).unwrap();
    assert_eq!(frame.cell_step_size, 4096);
    assert_eq!((frame.grid_rows, frame.grid_cols), (1, 2));
    assert_eq!(frame.tex_grid[0].tex, 4096);
    assert_eq!(frame.tex_grid[1].tex, 1);
}

#[test]
fn first_refused_tile_ends_the_upload() {
    let calls = RefCell::new(0);
    let gpu = Gpu::new(4, |tile: &TileImage| {
        *calls.borrow_mut() += 1;
        if *calls.borrow() == 3 {
            Err(TextureCreationError::FormatNotSupported)
        } else {
            Ok(tile.width)
        }
    });
    let image = DecodedImage::new(5, 3, gradient(5, 3)).unwrap();
    let frame = AnimationFrameTexture::from_image(&gpu, image, 0, Orientation::Deg0);
    assert!(matches!(
        frame,
        Err(Error::TextureCreationError(TextureCreationError::FormatNotSupported))
    ));
    assert_eq!(*calls.borrow(), 3);
}

#[test]
fn oriented_dimensions_swap_for_quarter_turns() {
    let gpu = Gpu::new(8192, |tile: &TileImage| Ok(tile.width));
    let upright = [
        Orientation::Deg0,
        Orientation::Deg0HorFlip,
        Orientation::Deg180,
        Orientation::Deg180HorFlip,
    ];
    let turned = [
        Orientation::Deg90,
        Orientation::Deg90VerFlip,
        Orientation::Deg270,
        Orientation::Deg270VerFlip,
    ];
    for orientation in upright {
        let image = DecodedImage::new(5, 3, gradient(5, 3)).unwrap();
        let frame = AnimationFrameTexture::from_image(&gpu, image, 0, orientation).unwrap();
        assert_eq!(frame.oriented_dimensions(), (5, 3));
    }
    for orientation in turned {
        let image = DecodedImage::new(5, 3, gradient(5, 3)).unwrap();
        let frame = AnimationFrameTexture::from_image(&gpu, image, 0, orientation).unwrap();
        assert_eq!(frame.oriented_dimensions(), (3, 5));
    }
}

#[test]
fn cloned_frame_shares_its_textures() {
    let gpu = Gpu::new(8192, |tile: &TileImage| Ok(tile.pixels.clone()));
    let image = DecodedImage::new(2, 2, gradient(2, 2)).unwrap();
    let frame = AnimationFrameTexture::from_image(&gpu, image, 9, Orientation::Deg180).unwrap();
    let copy = frame.clone();
    assert!(std::rc::Rc::ptr_eq(&frame.tex_grid, &copy.tex_grid));
    assert_eq!((copy.w, copy.h, copy.delay_nano), (2, 2, 9));
    assert_eq!(copy.orientation, Orientation::Deg180);
    assert_eq!((copy.grid_rows, copy.grid_cols, copy.cell_step_size), (1, 1, 4096));
}
