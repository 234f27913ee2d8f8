use potato_core::computer::{action_plan, pick_app, pick_window, AppView, WindowView};

fn app(bundle: &str, title: &str) -> AppView {
    AppView { bundle: bundle.to_string(), title: title.to_string() }
}

fn window(space: bool, screen: bool, titled: bool, z: i64) -> WindowView {
    WindowView { on_current_space: space, on_screen: screen, titled, z_index: z }
}

#[test]
fn observed_app_must_be_named_exactly_once() {
    let apps = vec![app("com.apple.Safari", "Safari"), app("org.mozilla.firefox", "Firefox"), app("x.notes", "Notes")];
    assert_eq!(pick_app(&apps, "safari").unwrap(), 0);
    assert_eq!(pick_app(&apps, "ORG.MOZILLA.FIREFOX").unwrap(), 1);
    let ambiguous = "Use an exact, unambiguous application name or bundle ID from computer_list_apps";
    assert_eq!(pick_app(&apps, "Saf").unwrap_err().message, ambiguous);
    let twice = vec![app("a", "Notes"), app("b", "notes")];
    assert_eq!(pick_app(&twice, "notes").unwrap_err().message, ambiguous);
    assert_eq!(pick_app(&apps, "  ").unwrap_err().message, "app is required");
}

#[test]
fn visible_titled_front_window_is_observed() {
    assert_eq!(pick_window(&vec![]), None);
    let windows = vec![
        window(false, true, true, 0),
        window(true, false, true, 0),
        window(true, true, false, 0),
        window(true, true, true, 5),
        window(true, true, true, 2),
    ];
    assert_eq!(pick_window(&windows), Some(4));
    let ties = vec![window(true, true, true, 1), window(true, true, true, 1)];
    assert_eq!(pick_window(&ties), Some(1));
}

#[test]
fn actions_pass_their_own_arguments() {
    let click = action_plan("computer_click").unwrap();
    assert_eq!(click.fields, vec!["x", "y", "button"]);
    assert!(click.background && click.snapshot);
    let set = action_plan("computer_set_value").unwrap();
    assert_eq!(set.fields, vec!["value"]);
    assert!(!set.background);
    let drag = action_plan("computer_drag").unwrap();
    assert_eq!(drag.fields, vec!["from_x", "from_y", "to_x", "to_y"]);
    assert!(!drag.snapshot);
    assert_eq!(action_plan("computer_fly").unwrap_err().message, "Unknown computer action");
    assert_eq!(action_plan("click").unwrap_err().status, 400);
}
