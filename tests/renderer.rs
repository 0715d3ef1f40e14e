use lib_engine::renderer::{Color, PixelFormat, Renderer};

#[test]
fn new_invalid_color() {
    let color = Color::new(256, 34, -1);

    assert_eq!(color, Color::new(0, 34, 0));
}

#[test]
fn output_rgb_as_u32() {
    let color = Color::new(100, 234, 88);
    let expected = 100_u32 | (234 << 8) | (88 << 16);

    assert_eq!(color.rgb_u32(), expected);
}

#[test]
fn color_channel_edges() {
    assert_eq!(Color::new(255, 255, 255).rgb_u32(), 0x00ff_ffff);
    assert_eq!(Color::new(0, 0, 0).rgb_u32(), 0);
    assert_eq!(Color::new(0, 0, 255).rgb_u32(), 0x00ff_0000);
    assert_eq!(Color::new(-255, 1000, 255).rgb_u32(), 0x00ff_0000);
}

/// The lit pixels of a renderer's buffer, as (x, y) pairs in row order.
fn lit(renderer: &Renderer, width: usize) -> Vec<(usize, usize)> {
    renderer
        .buffer()
        .iter()
        .enumerate()
        .filter(|(_, v)| **v != 0)
        .map(|(i, _)| (i % width, i / width))
        .collect()
}

fn sorted(mut v: Vec<(usize, usize)>) -> Vec<(usize, usize)> {
    v.sort_by_key(|&(x, y)| (y, x));
    v
}

#[test]
fn new_renderer_is_black() {
    let renderer = Renderer::new(4, 3);
    assert_eq!(renderer.buffer(), &vec![0u32; 12]);
    let empty = Renderer::new(0, 5);
    assert_eq!(empty.buffer().len(), 0);
}

#[test]
fn plot_pixel_is_row_major() {
    let mut renderer = Renderer::new(4, 3);
    let color = Color::new(1, 2, 3);
    renderer.plot_pixel(3, 1, color);
    assert_eq!(renderer.buffer()[7], color.rgb_u32());
    assert_eq!(lit(&renderer, 4), vec![(3, 1)]);
}

#[test]
fn clear_sets_every_pixel_to_zero() {
    let mut renderer = Renderer::new(4, 3);
    renderer.plot_pixel(0, 0, Color::new(9, 9, 9));
    renderer.plot_pixel(3, 2, Color::new(9, 9, 9));
    renderer.clear_tmp_buffer();
    assert_eq!(renderer.buffer(), &vec![0u32; 12]);
}

#[test]
fn bresenham_horizontal() {
    let mut renderer = Renderer::new(8, 8);
    renderer.bresenham_line(Color::new(255, 0, 0), 0, 0, 5, 0);
    assert_eq!(lit(&renderer, 8), vec![(0, 0), (1, 0), (2, 0), (3, 0), (4, 0), (5, 0)]);
}

#[test]
fn bresenham_diagonal() {
    let mut renderer = Renderer::new(8, 8);
    renderer.bresenham_line(Color::new(255, 0, 0), 0, 0, 3, 3);
    assert_eq!(lit(&renderer, 8), vec![(0, 0), (1, 1), (2, 2), (3, 3)]);
}

#[test]
fn bresenham_vertical_reversed_and_single_pixel() {
    let mut renderer = Renderer::new(8, 8);
    renderer.bresenham_line(Color::new(0, 255, 0), 2, 6, 2, 3);
    assert_eq!(lit(&renderer, 8), vec![(2, 3), (2, 4), (2, 5), (2, 6)]);

    let mut renderer = Renderer::new(8, 8);
    renderer.bresenham_line(Color::new(0, 255, 0), 7, 7, 7, 7);
    assert_eq!(lit(&renderer, 8), vec![(7, 7)]);
}

#[test]
fn bresenham_steep_and_backward() {
    let mut renderer = Renderer::new(8, 8);
    renderer.bresenham_line(Color::new(0, 0, 255), 0, 0, 1, 3);
    assert_eq!(lit(&renderer, 8), vec![(0, 0), (0, 1), (1, 2), (1, 3)]);

    let mut renderer = Renderer::new(8, 8);
    renderer.bresenham_line(Color::new(0, 0, 255), 5, 0, 0, 0);
    assert_eq!(lit(&renderer, 8), vec![(0, 0), (1, 0), (2, 0), (3, 0), (4, 0), (5, 0)]);
}

#[test]
fn triangle_fill_right_triangle() {
    let mut renderer = Renderer::new(8, 8);
    let color = Color::new(10, 20, 30);
    renderer.draw_triangles(vec![(0, 0), (4, 0), (0, 4)], color);

    let mut expected = vec![];
    for y in 0..8 {
        for x in 0..8 {
            if x + y <= 4 {
                expected.push((x, y));
            }
        }
    }
    assert_eq!(lit(&renderer, 8), expected);
    assert!(renderer.buffer().iter().all(|&v| v == 0 || v == color.rgb_u32()));
}

#[test]
fn triangle_fill_other_winding_paints_nothing() {
    let mut renderer = Renderer::new(8, 8);
    renderer.draw_triangles(vec![(0, 0), (0, 4), (4, 0)], Color::new(10, 20, 30));
    assert_eq!(lit(&renderer, 8), vec![]);
}

#[test]
fn triangle_fill_degenerate_point() {
    let mut renderer = Renderer::new(8, 8);
    renderer.draw_triangles(vec![(3, 5), (3, 5), (3, 5)], Color::new(1, 1, 1));
    assert_eq!(lit(&renderer, 8), vec![(3, 5)]);
}

#[test]
fn draw_mesh_uses_palette_in_order() {
    let mut renderer = Renderer::new(8, 8);
    let screen = vec![(0, 0), (2, 0), (0, 2), (7, 7), (5, 7), (7, 5)];
    renderer.draw_mesh(&screen, &vec![[0, 1, 2], [3, 4, 5]]);

    let white = Color::new(255, 255, 255).rgb_u32();
    let blue = Color::new(0, 0, 255).rgb_u32();
    let buffer = renderer.buffer();
    assert_eq!(
        sorted(lit(&renderer, 8)),
        vec![(0, 0), (1, 0), (2, 0), (0, 1), (1, 1), (0, 2), (7, 5), (6, 6), (7, 6), (5, 7), (6, 7), (7, 7)]
    );
    assert_eq!(buffer[0], white);
    assert_eq!(buffer[1 + 8], white);
    assert_eq!(buffer[7 + 7 * 8], blue);
    assert_eq!(buffer[6 + 6 * 8], blue);
}

#[test]
fn draw_mesh_later_triangle_paints_over_and_off_frame_is_skipped() {
    let mut renderer = Renderer::new(8, 8);
    let screen = vec![(0, 0), (3, 0), (0, 3), (-1, 0), (9, 9)];
    // the second triangle repeats the first; the third has corners off the frame
    renderer.draw_mesh(&screen, &vec![[0, 1, 2], [0, 1, 2], [3, 1, 4]]);
    let second = Color::new(0, 0, 255).rgb_u32();
    let buffer = renderer.buffer();
    assert_eq!(buffer[0], second);
    assert_eq!(buffer[3], second);
    assert_eq!(buffer[3 * 8], second);
    assert_eq!(lit(&renderer, 8).len(), 10);
}

#[test]
fn draw_mesh_ninth_triangle_wraps_palette() {
    let mut renderer = Renderer::new(4, 4);
    let screen = vec![(1, 1)];
    renderer.draw_mesh(&screen, &vec![[0, 0, 0]; 9]);
    assert_eq!(renderer.buffer()[1 + 4], Color::new(255, 255, 255).rgb_u32());
    let mut renderer = Renderer::new(4, 4);
    renderer.draw_mesh(&screen, &vec![[0, 0, 0]; 8]);
    assert_eq!(renderer.buffer()[1 + 4], Color::new(100, 100, 100).rgb_u32());
}

#[test]
fn renderer_reports_its_size() {
    let renderer = Renderer::new(640, 360);
    assert_eq!((renderer.width(), renderer.height()), (640, 360));
    assert_eq!(renderer.buffer().len(), 640 * 360);
}

#[test]
fn frame_bytes_in_each_format() {
    let mut renderer = Renderer::new(2, 1);
    renderer.plot_pixel(0, 0, Color::new(1, 2, 3));
    renderer.plot_pixel(1, 0, Color::new(255, 0, 16));
    assert_eq!(
        renderer.frame_bytes(PixelFormat::PackedU32LowRedHighBlue),
        vec![1, 2, 3, 0, 255, 0, 16, 0]
    );
    assert_eq!(
        renderer.frame_bytes(PixelFormat::PackedU32LowBlueHighRed),
        vec![3, 2, 1, 0, 16, 0, 255, 0]
    );
    assert_eq!(renderer.frame_bytes(PixelFormat::Rgb24Triples), vec![1, 2, 3, 255, 0, 16]);
    assert_eq!(Renderer::new(0, 0).frame_bytes(PixelFormat::Rgb24Triples), Vec::<u8>::new());
}
