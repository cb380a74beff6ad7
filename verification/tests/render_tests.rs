use pixel_contrib::options::{get_render_options, LogLevel, PixelContribColorMap};
use pixel_contrib::progress::Progress;
use pixel_contrib::render::{
    count_filled_pixels, encode_depth_pgm, Frame, Histogram, RenderOptions, RenderStats,
};

#[test]
fn render_options_default() {
    let o = RenderOptions::default();
    assert_eq!(o.num_threads, 1);
    assert_eq!(o.frame_size, 512);
}

#[test]
fn render_options_from_program_options() {
    let o = get_render_options(0, 256, 8);
    assert_eq!(o.num_threads, 8);
    assert_eq!(o.frame_size, 256);
    let o = get_render_options(3, 1024, 8);
    assert_eq!(o.num_threads, 3);
    assert_eq!(o.frame_size, 1024);
}

#[test]
fn render_stats_add() {
    let a = RenderStats { num_triangles: 3 };
    let b = RenderStats { num_triangles: 4 };
    assert_eq!((a + b).num_triangles, 7);
    assert_eq!(a + b, b + a);
    assert_eq!(a + RenderStats::default(), a);
    let mut c = a;
    c.add_assign(b);
    assert_eq!(c, a + b);
}

#[test]
fn histogram_pixel_count() {
    let h: Histogram = vec![1, 2, 3, 0, 10];
    assert_eq!(count_filled_pixels(&h), 16);
    assert_eq!(count_filled_pixels(&Vec::new()), 0);
}

#[test]
fn empty_frame() {
    let f: Frame<f32> = Frame::new_empty(3, true, 0f32);
    assert_eq!(f.get_frame_size(), 3);
    assert_eq!(f.get_id_buffer().len(), 9);
    assert!(f.get_id_buffer().iter().all(|id| id.is_none()));
    assert_eq!(f.get_depth_buffer().unwrap(), &[0f32; 9]);

    let g: Frame<f32> = Frame::new_empty(2, false, 0f32);
    assert!(g.get_depth_buffer().is_none());
    assert_eq!(g.get_id_buffer().len(), 4);
}

#[test]
fn frame_number_of_ids() {
    let mut f: Frame<f32> = Frame::new_empty(2, false, 0f32);
    assert_eq!(f.num_ids(), 1);
    {
        let ids = f.get_id_buffer_mut();
        ids[0] = Some(4);
        ids[3] = Some(2);
    }
    assert_eq!(f.get_id_buffer(), &[Some(4), None, None, Some(2)]);
    assert_eq!(f.num_ids(), 5);

    let e: Frame<f32> = Frame::new_empty(0, false, 0f32);
    assert_eq!(e.num_ids(), 0);
}

#[test]
fn progress_counts_steps() {
    let mut p = Progress::new(3);
    assert_eq!(p.get_current(), 0);
    assert_eq!(p.get_total(), 3);
    p.update();
    p.update();
    assert_eq!(p.get_current(), 2);
    assert_eq!(p.get_total(), 3);
}

#[test]
fn option_enums() {
    assert_ne!(PixelContribColorMap::Grayscale, PixelContribColorMap::Rgb);
    assert_ne!(LogLevel::Trace, LogLevel::Error);
    assert_eq!(LogLevel::Info, LogLevel::Info);
}

#[test]
fn pgm_encoding_of_gray_values() {
    let bytes = encode_depth_pgm(2, &[0, 255, 128, 7]);
    assert_eq!(
        String::from_utf8(bytes).unwrap(),
        "P2\n2 2\n255\n0 255 128 \n7 "
    );
    let bytes = encode_depth_pgm(12, &[]);
    assert_eq!(String::from_utf8(bytes).unwrap(), "P2\n12 12\n255\n");
    let bytes = encode_depth_pgm(0, &[5]);
    assert_eq!(String::from_utf8(bytes).unwrap(), "P2\n0 0\n255\n5 ");
}

#[test]
fn frame_depths_are_writable() {
    let mut f: Frame<f32> = Frame::new_empty(2, true, 1f32);
    if let Some(depths) = f.get_depth_buffer_mut() {
        depths[1] = 0.5;
    }
    assert_eq!(f.get_depth_buffer().unwrap(), &[1f32, 0.5, 1.0, 1.0]);

    let mut g: Frame<f32> = Frame::new_empty(2, false, 1f32);
    assert!(g.get_depth_buffer_mut().is_none());
    let copy = f.clone();
    assert_eq!(copy.get_depth_buffer(), f.get_depth_buffer());
}

#[test]
fn frame_buffers_hold_one_entry_per_pixel() {
    let mut f: Frame<u8> = Frame::new_empty(4, true, 0);
    f.get_id_buffer_mut()[5] = Some(1);
    assert_eq!(f.get_id_buffer().len(), 16);
    assert_eq!(f.get_depth_buffer().unwrap().len(), 16);
}
