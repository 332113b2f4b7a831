use lumina::display::{
    display_info_from_device, supported_resolution_list, vibrance_percent, DvcLevels, Resolution,
};

fn r(width: u32, height: u32, refresh_rate: u32) -> Resolution {
    Resolution { width, height, refresh_rate }
}

fn wide(s: &str) -> Vec<u16> {
    let mut v: Vec<u16> = s.encode_utf16().collect();
    v.push(0);
    v
}

#[test]
fn modes_are_deduplicated_and_sorted_largest_first() {
    let modes = vec![
        r(1280, 720, 60),
        r(1920, 1080, 60),
        r(1280, 720, 60),
        r(1920, 1080, 144),
        r(1920, 1200, 60),
        r(800, 600, 75),
        r(1920, 1080, 60),
    ];
    assert_eq!(
        supported_resolution_list(&modes),
        vec![r(1920, 1200, 60), r(1920, 1080, 144), r(1920, 1080, 60), r(1280, 720, 60), r(800, 600, 75)]
    );
    assert_eq!(supported_resolution_list(&vec![]), vec![]);
}

#[test]
fn inactive_devices_are_skipped() {
    let modes = vec![r(1920, 1080, 60)];
    let d = display_info_from_device(&wide("\\\\.\\DISPLAY3"), &wide("X"), 0x0000_0004, None, &modes, None);
    assert_eq!(d, None);
}

#[test]
fn active_device_record() {
    let modes = vec![r(1280, 720, 60), r(1920, 1080, 60)];
    let dvc = DvcLevels { current_level: 20, min_level: 0, max_level: 63 };
    let d = display_info_from_device(
        &wide("\\\\.\\DISPLAY1"),
        &wide("NVIDIA GeForce"),
        0x0000_0001 | 0x0000_0004,
        Some(r(1920, 1080, 60)),
        &modes,
        Some(dvc),
    )
    .unwrap();
    assert_eq!(d.id, "\\\\.\\DISPLAY1");
    assert_eq!(d.name, "NVIDIA GeForce");
    assert!(d.is_primary);
    assert_eq!(d.current_resolution, r(1920, 1080, 60));
    assert_eq!(d.supported_resolutions, vec![r(1920, 1080, 60), r(1280, 720, 60)]);
    assert_eq!((d.current_vibrance, d.min_vibrance, d.max_vibrance), (20, 0, 63));
}

#[test]
fn unknown_mode_and_vibrance_are_zero() {
    let d = display_info_from_device(&wide("D2"), &wide("N"), 0x0000_0001, None, &vec![], None).unwrap();
    assert!(!d.is_primary);
    assert_eq!(d.current_resolution, r(0, 0, 0));
    assert_eq!((d.current_vibrance, d.min_vibrance, d.max_vibrance), (0, 0, 0));
}

#[test]
fn vibrance_percentages() {
    assert_eq!(vibrance_percent(0, 0, 63), 0);
    assert_eq!(vibrance_percent(63, 0, 63), 100);
    assert_eq!(vibrance_percent(20, 0, 63), 31);
    assert_eq!(vibrance_percent(-10, 0, 100), -10);
    assert_eq!(vibrance_percent(-1, 0, 3), -33);
    assert_eq!(vibrance_percent(7, 5, 5), 200);
    assert_eq!(vibrance_percent(7, 5, 2), 200);
}
