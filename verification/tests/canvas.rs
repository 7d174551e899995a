//! The canvas state: parsing full frames, the alpha threshold, and the
//! atomically replaced (grid, list) pair.

use canvas6::synchronize::parse_samples;
use canvas6::synchronize::Sample;
use canvas6::utils::Color;
use canvas6::utils::Pixel;
use canvas6::utils::Task;
use canvas6::utils::HEIGHT;
use canvas6::utils::WIDTH;

fn full_frame<F: Fn(u32, u32) -> (u8, u8, u8, u8)>(f: F) -> Vec<Sample> {
    let mut samples = Vec::with_capacity(WIDTH * HEIGHT);
    for y in 0..HEIGHT as u32 {
        for x in 0..WIDTH as u32 {
            let (r, g, b, a) = f(x, y);
            samples.push(Sample { x, y, r, g, b, a });
        }
    }
    samples
}

#[test]
fn opaque_frame_fills_canvas() {
    let samples = full_frame(|x, y| ((x % 256) as u8, (y % 256) as u8, 7, 255));
    let (map, list) = parse_samples(&samples);
    assert_eq!(list.len(), WIDTH * HEIGHT);
    for x in [0u16, 1, 777, 1919] {
        for y in [0u16, 1, 999, 1079] {
            let cell = map.get(x, y);
            assert_eq!(
                cell,
                Some(Color((x % 256) as u8, (y % 256) as u8, 7))
            );
        }
    }
}

#[test]
fn translucent_pixels_are_absent() {
    // Three opaque pixels; everything else sits below the alpha threshold.
    let opaque = [(4u32, 2u32), (0, 0), (1919, 1079)];
    let samples = full_frame(|x, y| {
        if opaque.contains(&(x, y)) {
            (9, 8, 7, 255)
        } else {
            (9, 8, 7, 127)
        }
    });
    let (map, list) = parse_samples(&samples);
    assert_eq!(list.len(), 3);
    for &(x, y) in opaque.iter() {
        assert!(list.contains(&Pixel(x as u16, y as u16)));
        assert_eq!(map.get(x as u16, y as u16), Some(Color(9, 8, 7)));
    }
    assert!(!list.contains(&Pixel(5, 5)));
    assert_eq!(map.get(5, 5), None);
    assert_eq!(map.get(4, 3), None);
}

#[test]
fn alpha_threshold_boundary() {
    // Alpha 128 is kept, 127 is dropped.
    let samples = full_frame(|x, y| {
        if (x, y) == (1, 0) {
            (1, 2, 3, 128)
        } else if (x, y) == (2, 0) {
            (1, 2, 3, 127)
        } else {
            (0, 0, 0, 0)
        }
    });
    let (map, list) = parse_samples(&samples);
    assert_eq!(list, vec![Pixel(1, 0)]);
    assert_eq!(map.get(1, 0), Some(Color(1, 2, 3)));
    assert_eq!(map.get(2, 0), None);
}

#[test]
fn blank_task_is_empty() {
    let task = Task::blank();
    assert_eq!(task.data_pixels.len(), 0);
    assert_eq!(task.map.get(0, 0), None);
    assert_eq!(task.map.get(1919, 1079), None);
    assert_eq!(task.snapshot().len(), 0);
}

#[test]
fn replace_swaps_the_whole_pair() {
    let mut task = Task::blank();
    let samples = full_frame(|x, y| {
        if (x, y) == (25, 25) {
            (0xff, 0xd1, 0x00, 255)
        } else {
            (0, 0, 0, 0)
        }
    });
    let (map, list) = parse_samples(&samples);
    task.replace(map, list);
    // The snapshot shows the new generation as one consistent pair.
    let snap = task.snapshot();
    assert_eq!(snap.len(), 1);
    assert_eq!(snap[0], (Pixel(25, 25), Color(0xff, 0xd1, 0x00)));
    assert_eq!(task.get_colored_pixel(&Pixel(25, 25)), Color(0xff, 0xd1, 0x00));

    // A second replacement discards the previous generation entirely.
    let samples2 = full_frame(|x, y| {
        if (x, y) == (7, 9) {
            (1, 2, 3, 255)
        } else {
            (0, 0, 0, 0)
        }
    });
    let (map2, list2) = parse_samples(&samples2);
    task.replace(map2, list2);
    let snap2 = task.snapshot();
    assert_eq!(snap2, vec![(Pixel(7, 9), Color(1, 2, 3))]);
    assert_eq!(task.map.get(25, 25), None);
}

#[test]
fn snapshot_pairs_every_pixel_with_its_color() {
    let samples = full_frame(|x, y| ((x % 251) as u8, (y % 241) as u8, 5, 255));
    let (map, list) = parse_samples(&samples);
    let mut task = Task::blank();
    task.replace(map, list);
    let snap = task.snapshot();
    assert_eq!(snap.len(), WIDTH * HEIGHT);
    for &(p, c) in snap.iter().step_by(10007) {
        assert_eq!(c, Color((p.0 % 251) as u8, (p.1 % 241) as u8, 5));
    }
}
