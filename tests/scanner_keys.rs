use benchbot::geometry::Point;
use benchbot::keys::{build_key_actions, is_typeable, key_events, KeyAction, KeyEvent, KeyLayout, VK_QUOTE, VK_SHIFT, VK_SPACE};
use benchbot::scanner::{Frame, AIM_BACKGROUND, DEFAULT_STRIDE};

const BG: u32 = 0x00AA_BBCC;

fn frame_with(w: usize, h: usize, hits: &[(usize, usize)]) -> Frame {
    let mut px = vec![BG; w * h];
    for &(x, y) in hits {
        px[y * w + x] = 0x0000_00FF;
    }
    Frame::new(1000, 2000, w, h, px).expect("valid frame")
}

fn layout() -> KeyLayout {
    let mut scans = vec![-1i16; 128];
    for c in b'a'..=b'z' {
        scans[c as usize] = (c - b'a' + 0x41) as i16;
    }
    for c in b'A'..=b'Z' {
        scans[c as usize] = 0x100 | (c - b'A' + 0x41) as i16;
    }
    scans[b'!' as usize] = 0x131;
    KeyLayout::new(scans).expect("128 entries")
}

#[test]
fn uniform_region_is_not_found() {
    let f = frame_with(50, 40, &[]);
    assert_eq!(f.find_target_in_screenshot(BG, 1), None);
    assert_eq!(f.find_target_in_screenshot(BG, 7), None);
}

#[test]
fn single_pixel_found_at_stride_one() {
    let f = frame_with(50, 40, &[(23, 17)]);
    assert_eq!(f.find_target_in_screenshot(BG, 1), Some(Point { x: 1023, y: 2017 }));
}

#[test]
fn pixel_in_margin_is_ignored() {
    let f = frame_with(50, 40, &[(5, 17), (23, 35)]);
    assert_eq!(f.find_target_in_screenshot(BG, 1), None);
}

#[test]
fn first_hit_is_row_major() {
    let f = frame_with(50, 40, &[(30, 12), (11, 14)]);
    assert_eq!(f.find_target_in_screenshot(BG, 1), Some(Point { x: 1030, y: 2012 }));
}

#[test]
fn coarse_stride_samples_a_subset() {
    let f = frame_with(100, 100, &[(13, 16)]);
    assert_eq!(f.find_target_in_screenshot(BG, 2), None);
    assert_eq!(f.find_target_in_screenshot(BG, 3), Some(Point { x: 1013, y: 2016 }));
    assert_eq!(f.find_target_in_screenshot(BG, 6), None);
    let g = frame_with(100, 100, &[(70, 70)]);
    assert_eq!(g.find_target_in_screenshot(BG, DEFAULT_STRIDE), Some(Point { x: 1070, y: 2070 }));
    assert_eq!(g.find_target_in_screenshot(BG, 30), Some(Point { x: 1070, y: 2070 }));
}

#[test]
fn stride_sized_target_is_always_found() {
    let mut hits = Vec::new();
    for y in 101..161 {
        for x in 97..157 {
            hits.push((x, y));
        }
    }
    let f = frame_with(200, 200, &hits);
    assert_eq!(f.find_target_in_screenshot(BG, DEFAULT_STRIDE), Some(Point { x: 1130, y: 2130 }));
}

#[test]
fn small_frame_has_nothing_to_scan() {
    let f = frame_with(20, 30, &[(10, 10)]);
    assert_eq!(f.find_target_in_screenshot(BG, 1), None);
}

#[test]
fn frame_rejects_bad_buffers() {
    assert!(Frame::new(0, 0, 3, 3, vec![0; 8]).is_none());
    assert!(Frame::new(i32::MAX - 2, 0, 3, 1, vec![0; 3]).is_none());
    assert!(Frame::new(0, 0, 3, 3, vec![AIM_BACKGROUND; 9]).is_some());
}

#[test]
fn compile_plain_letter() {
    assert_eq!(build_key_actions("a", &layout()), vec![KeyAction::KeyPress(0x41), KeyAction::KeyRelease(0x41)]);
}

#[test]
fn compile_space() {
    assert_eq!(build_key_actions(" ", &layout()), vec![KeyAction::Space]);
}

#[test]
fn compile_shifted_letter() {
    assert_eq!(
        build_key_actions("A", &layout()),
        vec![KeyAction::ShiftPress, KeyAction::KeyPress(0x41), KeyAction::KeyRelease(0x41), KeyAction::ShiftRelease]
    );
}

#[test]
fn compile_skips_unmappable() {
    let l = layout();
    assert_eq!(build_key_actions("a★b", &l), build_key_actions("ab", &l));
    assert_eq!(build_key_actions("a#b", &l), build_key_actions("ab", &l));
    assert!(!is_typeable('★', &l));
    assert!(!is_typeable('#', &l));
    assert!(is_typeable('!', &l));
}

#[test]
fn compile_quotes_add_space() {
    let l = layout();
    assert_eq!(
        build_key_actions("'", &l),
        vec![KeyAction::KeyPress(VK_QUOTE), KeyAction::KeyRelease(VK_QUOTE), KeyAction::Space]
    );
    assert_eq!(
        build_key_actions("\"", &l),
        vec![
            KeyAction::ShiftPress,
            KeyAction::KeyPress(VK_QUOTE),
            KeyAction::KeyRelease(VK_QUOTE),
            KeyAction::ShiftRelease,
            KeyAction::Space
        ]
    );
}

#[test]
fn layout_needs_128_entries() {
    assert!(KeyLayout::new(vec![0; 127]).is_none());
}

#[test]
fn events_follow_actions_in_order() {
    let actions = build_key_actions("B c", &layout());
    assert_eq!(
        key_events(&actions),
        vec![
            KeyEvent { code: VK_SHIFT, up: false },
            KeyEvent { code: 0x42, up: false },
            KeyEvent { code: 0x42, up: true },
            KeyEvent { code: VK_SHIFT, up: true },
            KeyEvent { code: VK_SPACE, up: false },
            KeyEvent { code: VK_SPACE, up: true },
            KeyEvent { code: 0x43, up: false },
            KeyEvent { code: 0x43, up: true },
        ]
    );
}

#[test]
fn every_pressed_key_is_released() {
    let events = key_events(&build_key_actions("He said \"Hi!\" it's ok", &layout()));
    for code in 0..=255u8 {
        let downs = events.iter().filter(|e| e.code == code && !e.up).count();
        let ups = events.iter().filter(|e| e.code == code && e.up).count();
        assert_eq!(downs, ups);
    }
}
