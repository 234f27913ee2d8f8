use potato_core::window::{
    capture, center_visible, centered, loaded_state, restore_plan, sanitize_state, Placement, Size, WindowStateFile,
    WorkArea, STATE_VERSION,
};

#[test]
fn default_remembers_window() {
    let state = WindowStateFile::default();
    assert!(state.remember);
    assert!(!state.maximized);
    assert!(state.width.is_none());
}

#[test]
fn sanitize_drops_zero_dimensions() {
    let state = sanitize_state(WindowStateFile {
        version: 99,
        remember: true,
        x: Some(0),
        y: Some(0),
        width: Some(0),
        height: Some(800),
        maximized: false,
    });
    assert_eq!(state.version, STATE_VERSION);
    assert!(state.width.is_none());
    assert_eq!(state.height, Some(800));
}

#[test]
fn center_point_visibility_math() {
    // work area: (0,0)-(1920,1080); window at (-500,-500) 200x200 → center off
    let cx = -500 + 200 / 2;
    let cy = -500 + 200 / 2;
    assert!(cx < 0 || cy < 0);
    // window fully on screen
    let cx2 = 100 + 800 / 2;
    let cy2 = 100 + 600 / 2;
    assert!(cx2 >= 0 && cx2 < 1920 && cy2 >= 0 && cy2 < 1080);
    let screen = vec![WorkArea { x: 0, y: 0, width: 1920, height: 1080 }];
    assert!(!center_visible(-500, -500, 200, 200, &screen));
    assert!(center_visible(100, 100, 800, 600, &screen));
}

#[test]
fn visibility_edges_and_missing_monitors() {
    let screen = vec![WorkArea { x: 0, y: 0, width: 1920, height: 1080 }];
    assert!(center_visible(-100, -100, 200, 200, &screen));
    assert!(!center_visible(1820, 0, 200, 200, &screen));
    assert!(center_visible(-5000, -5000, 10, 10, &vec![]));
    let two = vec![
        WorkArea { x: 0, y: 0, width: 1920, height: 1080 },
        WorkArea { x: 1920, y: 0, width: 1280, height: 1024 },
    ];
    assert!(center_visible(2000, 100, 400, 400, &two));
}

#[test]
fn centering_rounds_toward_zero() {
    assert_eq!(centered(0, 1920, 1280), 320);
    assert_eq!(centered(10, 1281, 1280), 10);
    assert_eq!(centered(0, 1280, 1281), 0);
    assert_eq!(centered(0, 1280, 1283), -1);
}

#[test]
fn restore_keeps_defaults_without_saved_size() {
    let state = WindowStateFile { maximized: true, ..WindowStateFile::default() };
    let plan = restore_plan(&state, 960, 600, &vec![]);
    assert_eq!(plan.size, None);
    assert_eq!(plan.placement, Placement::Keep);
    assert!(plan.maximize);
}

#[test]
fn restore_raises_size_and_recenters_lost_windows() {
    let screen = vec![WorkArea { x: 0, y: 0, width: 1920, height: 1080 }];
    let state = WindowStateFile {
        x: Some(5000),
        y: Some(10),
        width: Some(100),
        height: Some(900),
        ..WindowStateFile::default()
    };
    let plan = restore_plan(&state, 960, 600, &screen);
    assert_eq!(plan.size, Some(Size { width: 960, height: 900 }));
    assert_eq!(plan.placement, Placement::Center);
    let state = WindowStateFile { x: Some(10), ..state };
    assert_eq!(restore_plan(&state, 960, 600, &screen).placement, Placement::At(10, 10));
}

#[test]
fn capture_keeps_normal_frame_while_maximized() {
    let mut state = WindowStateFile::default();
    capture(&mut state, false, Some((10, 20)), Some((100, 700)), 960, 600);
    assert_eq!((state.x, state.y, state.width, state.height), (Some(10), Some(20), Some(960), Some(700)));
    capture(&mut state, true, Some((0, 0)), Some((1920, 1080)), 960, 600);
    assert!(state.maximized);
    assert_eq!((state.x, state.width), (Some(10), Some(960)));
}

#[test]
fn loading_rejects_unknown_versions_and_sanitizes() {
    let state = |version: u32| WindowStateFile {
        version,
        remember: true,
        x: Some(5),
        y: Some(6),
        width: Some(0),
        height: Some(700),
        maximized: false,
    };
    assert!(loaded_state(state(999)).is_none());
    let loaded = loaded_state(state(STATE_VERSION)).unwrap();
    assert_eq!((loaded.x, loaded.y, loaded.width, loaded.height), (Some(5), Some(6), None, Some(700)));
}
