use zpad::config::{
    note_look, startup_delay_choice, startup_delay_index, tray_click_choice,
    tray_click_index, wayland_window_controls, Config, NoteLook,
};
use zpad::paths::{autostart_dir, config_path, join_path};
use zpad::style::{autostart_entry, dynamic_css};

#[test]
fn defaults_have_the_sticky_look() {
    let c = Config::defaults_with_colors();
    assert!(c.show_toolbar && c.autohide_toolbar && c.show_scrollbar && c.show_decorations);
    assert!(c.use_custom_colors);
    assert_eq!(c.custom_text, "#1f1d00");
    assert_eq!(c.custom_background, "#fff9c4");
    assert_eq!((c.new_pad_width, c.new_pad_height), (260, 220));
    assert!(c.tray_enabled && c.wait_systray && c.confirm_delete);
    assert_eq!(c.tray_click, "toggle");
    assert!(!c.autostart && !c.read_only && !c.font_from_theme);
    assert_eq!(c.font_family, "");
    let d = Config::default();
    assert!(!d.show_toolbar && !d.use_custom_colors && d.tray_click.is_empty());
}

#[test]
fn stylesheet_for_the_defaults() {
    let css = dynamic_css(&Config::defaults_with_colors());
    assert_eq!(
        css,
        ".zpad-note textview, .zpad-note textview text { background-color: #fff9c4; color: #1f1d00; caret-color: #1f1d00; }\n\
         .zpad-note scrolledwindow { background-color: #fff9c4; }\n"
    );
}

#[test]
fn stylesheet_with_custom_colors_and_a_two_digit_size() {
    let mut c = Config::defaults_with_colors();
    c.font_family = "Noto Sans 11".to_string();
    assert_eq!(
        dynamic_css(&c),
        ".zpad-note textview, .zpad-note textview text { background-color: #fff9c4; color: #1f1d00; caret-color: #1f1d00; }\n\
         .zpad-note scrolledwindow { background-color: #fff9c4; }\n\
         .zpad-note textview { font-family: \"Noto Sans\"; font-size: 11pt; }\n"
    );
}

#[test]
fn stylesheet_with_theme_colors_and_a_font() {
    let mut c = Config::defaults_with_colors();
    c.use_custom_colors = false;
    c.font_family = "Noto Sans 9".to_string();
    assert_eq!(
        dynamic_css(&c),
        ".zpad-note textview, .zpad-note textview text { background-color: transparent; color: inherit; caret-color: inherit; }\n\
         .zpad-note textview { font-family: \"Noto Sans\"; font-size: 9pt; }\n"
    );
    c.font_family = "Monospace".to_string();
    assert!(dynamic_css(&c).ends_with(".zpad-note textview { font-family: \"Monospace\"; }\n"));
    c.font_family = "12".to_string();
    assert!(!dynamic_css(&c).contains("font-family"));
    c.font_family = "Sans 9".to_string();
    c.font_from_theme = true;
    assert!(!dynamic_css(&c).contains("font-family"));
}

#[test]
fn autostart_entry_text() {
    assert_eq!(
        autostart_entry("/usr/bin/zpad", 5),
        "[Desktop Entry]\nType=Application\nName=zPad\nIcon=zpad\nExec=/usr/bin/zpad\n\
         Terminal=false\nNoDisplay=true\nX-GNOME-Autostart-delay=5\nX-KDE-autostart-delay=5\n"
    );
}

#[test]
fn config_locations() {
    assert_eq!(config_path(Some("/cfg"), Some("/home/u")), "/cfg/zpad/config.toml");
    assert_eq!(config_path(Some("rel"), Some("/home/u")), "/home/u/.config/zpad/config.toml");
    assert_eq!(config_path(Some(""), Some("/home/u")), "/home/u/.config/zpad/config.toml");
    assert_eq!(config_path(None, None), ".config/zpad/config.toml");
    assert_eq!(autostart_dir(None, Some("/home/u")), "/home/u/.config/autostart");
    assert_eq!(autostart_dir(Some("/cfg/"), None), "/cfg/autostart");
}

#[test]
fn paths_join_like_path_join() {
    assert_eq!(join_path("a", "b"), "a/b");
    assert_eq!(join_path("a/", "b"), "a/b");
    assert_eq!(join_path("", "b"), "b");
    assert_eq!(join_path("a", "/b"), "/b");
    assert_eq!(join_path("a", ""), "a/");
}

#[test]
fn note_look_follows_the_preferences() {
    let mut c = Config::defaults_with_colors();
    c.read_only = true;
    let look = note_look(&c);
    assert_eq!(
        look,
        NoteLook {
            autohide: true,
            toolbar_visible: true,
            toolbar_revealed: false,
            decorated: true,
            editable: false,
            vertical_scrollbar: true,
        }
    );
    c.autohide_toolbar = false;
    c.show_scrollbar = false;
    let look = note_look(&c);
    assert!(look.toolbar_revealed);
    assert!(!look.editable);
    assert!(!look.vertical_scrollbar);
    c.show_toolbar = false;
    assert!(!note_look(&c).toolbar_revealed);
    c.read_only = false;
    assert!(note_look(&c).editable);
}

#[test]
fn preference_choices() {
    assert_eq!(startup_delay_index(0), 0);
    assert_eq!(startup_delay_index(5), 4);
    assert_eq!(startup_delay_index(30), 6);
    assert_eq!(startup_delay_index(7), 0);
    assert_eq!(startup_delay_choice(Some(5)), Some(10));
    assert_eq!(startup_delay_choice(Some(7)), None);
    assert_eq!(startup_delay_choice(None), None);
    assert_eq!(tray_click_index("show-all"), 1);
    assert_eq!(tray_click_index("toggle"), 0);
    assert_eq!(tray_click_index("anything"), 0);
    assert_eq!(tray_click_choice(Some(1)), Some("show-all".to_string()));
    assert_eq!(tray_click_choice(Some(0)), Some("toggle".to_string()));
    assert_eq!(tray_click_choice(Some(2)), None);
}

#[test]
fn wayland_detection() {
    assert!(wayland_window_controls(Some("wayland"), false));
    assert!(wayland_window_controls(None, true));
    assert!(!wayland_window_controls(Some("x11"), false));
    assert!(!wayland_window_controls(None, false));
}
