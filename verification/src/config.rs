//! User preferences (kept in `config.toml`), the defaults, and what each
//! preference means for a note window and for the Preferences dialog.

use vstd::prelude::*;
use crate::text::{all_digits, digits_value, parse_u64};

verus! {

/// The preferences. Every field is live-applied.
#[derive(Debug, Clone, PartialEq)]
pub struct Config {
    // view
    pub show_toolbar: bool,
    pub autohide_toolbar: bool,
    pub show_scrollbar: bool,
    pub show_decorations: bool,
    /// Stored for future X11 support; inert on Wayland (compositor-owned).
    pub show_on_all_workspaces: bool,
    pub hide_from_taskbar: bool,
    pub hide_from_pager: bool,
    // layout
    /// When false, `font_family` (a Pango description like "Sans 9") applies.
    pub font_from_theme: bool,
    pub font_family: String,
    /// When false, notes use the system theme colors.
    pub use_custom_colors: bool,
    pub custom_text: String,
    pub custom_background: String,
    pub new_pad_width: i32,
    pub new_pad_height: i32,
    // startup
    pub autostart: bool,
    pub wait_systray: bool,
    pub startup_delay_secs: u32,
    // tray
    pub tray_enabled: bool,
    /// "toggle" (default) or "show-all".
    pub tray_click: String,
    // other
    pub read_only: bool,
    pub confirm_delete: bool,
    /// Stored for a future release; GTK needs a custom gutter widget for it.
    pub line_numbering: bool,
    // legacy field kept so old config files still parse cleanly
    pub notes_on_all_workspaces: bool,
}

impl Default for Config {
    /// Every switch off, every text empty, every number zero.
    fn default() -> (c: Config)
        ensures
            !c.show_toolbar && !c.autohide_toolbar && !c.show_scrollbar && !c.show_decorations,
            !c.show_on_all_workspaces && !c.hide_from_taskbar && !c.hide_from_pager,
            !c.font_from_theme && c.font_family@.len() == 0 && !c.use_custom_colors,
            c.custom_text@.len() == 0 && c.custom_background@.len() == 0,
            c.new_pad_width == 0 && c.new_pad_height == 0,
            !c.autostart && !c.wait_systray && c.startup_delay_secs == 0,
            !c.tray_enabled && c.tray_click@.len() == 0,
            !c.read_only && !c.confirm_delete && !c.line_numbering && !c.notes_on_all_workspaces,
    {
        Config {
            show_toolbar: false,
            autohide_toolbar: false,
            show_scrollbar: false,
            show_decorations: false,
            show_on_all_workspaces: false,
            hide_from_taskbar: false,
            hide_from_pager: false,
            font_from_theme: false,
            font_family: String::new(),
            use_custom_colors: false,
            custom_text: String::new(),
            custom_background: String::new(),
            new_pad_width: 0,
            new_pad_height: 0,
            autostart: false,
            wait_systray: false,
            startup_delay_secs: 0,
            tray_enabled: false,
            tray_click: String::new(),
            read_only: false,
            confirm_delete: false,
            line_numbering: false,
            notes_on_all_workspaces: false,
        }
    }
}

impl Config {
    /// The defaults: field defaults keep booleans false, but notes start
    /// with the classic sticky look, so toolbar, scrollbar, decorations and
    /// the yellow colors are on; the tray is on, waits for the systray, and
    /// deleting asks first.
    pub fn defaults_with_colors() -> (c: Config)
        ensures
            c.show_toolbar && c.autohide_toolbar && c.show_scrollbar && c.show_decorations,
            !c.show_on_all_workspaces && !c.hide_from_taskbar && !c.hide_from_pager,
            !c.font_from_theme && c.font_family@.len() == 0,
            c.use_custom_colors,
            c.custom_text@ == "#1f1d00"@,
            c.custom_background@ == "#fff9c4"@,
            c.new_pad_width == 260 && c.new_pad_height == 220,
            !c.autostart && c.wait_systray && c.startup_delay_secs == 0,
            c.tray_enabled,
            c.tray_click@ == "toggle"@,
            !c.read_only && c.confirm_delete && !c.line_numbering && !c.notes_on_all_workspaces,
    {
        Config {
            show_toolbar: true,
            autohide_toolbar: true,
            show_scrollbar: true,
            show_decorations: true,
            show_on_all_workspaces: false,
            hide_from_taskbar: false,
            hide_from_pager: false,
            font_from_theme: false,
            font_family: String::new(),
            use_custom_colors: true,
            custom_text: String::from_str("#1f1d00"),
            custom_background: String::from_str("#fff9c4"),
            new_pad_width: 260,
            new_pad_height: 220,
            autostart: false,
            wait_systray: true,
            startup_delay_secs: 0,
            tray_enabled: true,
            tray_click: String::from_str("toggle"),
            read_only: false,
            confirm_delete: true,
            line_numbering: false,
            notes_on_all_workspaces: false,
        }
    }
}

/// How a note window shows itself under the preferences.
#[derive(Debug, Clone, Copy, PartialEq, Eq)]
pub struct NoteLook {
    /// Hide the tool bar unless the pointer is at the bottom edge.
    pub autohide: bool,
    /// The tool bar exists at all.
    pub toolbar_visible: bool,
    /// The tool bar is slid in.
    pub toolbar_revealed: bool,
    /// The window has the system title bar.
    pub decorated: bool,
    /// The text can be edited; read-only mode turns this off for every
    /// note.
    pub editable: bool,
    /// The vertical scroll bar appears when needed (else never); there is
    /// never a horizontal one.
    pub vertical_scrollbar: bool,
}

/// The look every note window has under the preferences: a new note
/// starts with it, and changed preferences give it to every open note.
/// Read-only mode turns editing off.
pub fn note_look(cfg: &Config) -> (look: NoteLook)
    ensures
        look == (NoteLook {
            autohide: cfg.autohide_toolbar,
            toolbar_visible: cfg.show_toolbar,
            toolbar_revealed: cfg.show_toolbar && !cfg.autohide_toolbar,
            decorated: cfg.show_decorations,
            editable: !cfg.read_only,
            vertical_scrollbar: cfg.show_scrollbar,
        }),
{
    NoteLook {
        autohide: cfg.autohide_toolbar,
        toolbar_visible: cfg.show_toolbar,
        toolbar_revealed: cfg.show_toolbar && !cfg.autohide_toolbar,
        decorated: cfg.show_decorations,
        editable: !cfg.read_only,
        vertical_scrollbar: cfg.show_scrollbar,
    }
}

/// The startup delays the Preferences dialog offers, in seconds.
pub open spec fn startup_delays() -> Seq<u32> {
    seq![0u32, 1, 2, 3, 5, 10, 30]
}

/// The labels of the delay chooser of the Preferences dialog, in order.
pub open spec fn startup_delay_labels() -> Seq<Seq<char>> {
    seq!["0"@, "1"@, "2"@, "3"@, "5"@, "10"@, "30"@]
}

/// Law: the delay chooser offers one entry per label, and the delay of
/// each entry is the number its label shows, read as `u32::from_str`
/// reads it; the delays grow strictly, so each names exactly one entry.
pub proof fn lemma_startup_delays_match_labels()
    ensures
        startup_delays().len() == startup_delay_labels().len() == 7,
        forall|i: int|
            0 <= i < 7 ==> parse_u64(#[trigger] startup_delay_labels()[i]) == Some(
                startup_delays()[i] as u64,
            ),
        forall|i: int, j: int|
            0 <= i < j < 7 ==> #[trigger] startup_delays()[i] < #[trigger] startup_delays()[j],
{
    reveal_strlit("0");
    reveal_strlit("1");
    reveal_strlit("2");
    reveal_strlit("3");
    reveal_strlit("5");
    reveal_strlit("10");
    reveal_strlit("30");
    let l = startup_delay_labels();
    lemma_one_digit('0');
    lemma_one_digit('1');
    lemma_one_digit('2');
    lemma_one_digit('3');
    lemma_one_digit('5');
    lemma_two_digits('1', '0');
    lemma_two_digits('3', '0');
    assert(l[0] =~= seq!['0']);
    assert(l[1] =~= seq!['1']);
    assert(l[2] =~= seq!['2']);
    assert(l[3] =~= seq!['3']);
    assert(l[4] =~= seq!['5']);
    assert(l[5] =~= seq!['1', '0']);
    assert(l[6] =~= seq!['3', '0']);
}

proof fn lemma_one_digit(a: char)
    requires
        48 <= (a as u32) <= 57,
    ensures
        all_digits(seq![a]),
        digits_value(seq![a]) == (a as u32) - 48,
{
    let d = seq![a];
    assert(d.drop_last() =~= Seq::<char>::empty());
    assert(d.last() == a);
    assert(digits_value(d.drop_last()) == 0);
    assert(digits_value(d) == digits_value(d.drop_last()) * 10 + ((d.last() as u32) - 48) as nat);
}

proof fn lemma_two_digits(a: char, b: char)
    requires
        48 <= (a as u32) <= 57,
        48 <= (b as u32) <= 57,
    ensures
        all_digits(seq![a, b]),
        digits_value(seq![a, b]) == ((a as u32) - 48) * 10 + (b as u32) - 48,
{
    lemma_one_digit(a);
    let d = seq![a, b];
    assert(d.drop_last() =~= seq![a]);
    assert(d.last() == b);
    assert(digits_value(d) == digits_value(d.drop_last()) * 10 + ((d.last() as u32) - 48) as nat);
}

fn startup_delay_at(i: usize) -> (d: u32)
    requires
        i < 7,
    ensures
        d == startup_delays()[i as int],
{
    if i == 0 {
        0
    } else if i == 1 {
        1
    } else if i == 2 {
        2
    } else if i == 3 {
        3
    } else if i == 4 {
        5
    } else if i == 5 {
        10
    } else {
        30
    }
}

/// The delay choice shown for `secs`: its position among the offered
/// delays, or the first one when it is not offered.
pub fn startup_delay_index(secs: u32) -> (i: usize)
    ensures
        i < 7,
        startup_delays().contains(secs) ==> startup_delays()[i as int] == secs && forall|j: int|
            0 <= j < i ==> #[trigger] startup_delays()[j] != secs,
        !startup_delays().contains(secs) ==> i == 0,
        startup_delays().contains(secs) ==> parse_u64(startup_delay_labels()[i as int]) == Some(
            secs as u64,
        ),
{
    let mut i: usize = 0;
    while i < 7
        invariant
            i <= 7,
            forall|j: int| 0 <= j < i ==> #[trigger] startup_delays()[j] != secs,
        decreases 7 - i,
    {
        if startup_delay_at(i) == secs {
            proof {
                lemma_startup_delays_match_labels();
                assert(parse_u64(startup_delay_labels()[i as int]) == Some(
                    startup_delays()[i as int] as u64,
                ));
            }
            return i;
        }
        i = i + 1;
    }
    assert(!startup_delays().contains(secs)) by {
        if startup_delays().contains(secs) {
            let j = choose|j: int| 0 <= j < 7 && startup_delays()[j] == secs;
        }
    }
    0
}

/// The delay of the chosen entry, if an entry is chosen.
pub fn startup_delay_choice(active: Option<u32>) -> (d: Option<u32>)
    ensures
        d == match active {
            Some(i) => if i < 7 {
                Some(startup_delays()[i as int])
            } else {
                None
            },
            None => None,
        },
        d matches Some(v) ==> parse_u64(startup_delay_labels()[active.unwrap() as int]) == Some(
            v as u64,
        ),
{
    proof {
        lemma_startup_delays_match_labels();
    }
    match active {
        Some(i) => if i < 7 {
            Some(startup_delay_at(i as usize))
        } else {
            None
        },
        None => None,
    }
}

/// What a left click on the tray icon does: "toggle" or "show-all".
pub open spec fn tray_click_values() -> Seq<Seq<char>> {
    seq!["toggle"@, "show-all"@]
}

fn same_text(a: &str, b: &str) -> (r: bool)
    ensures
        r == (a@ == b@),
{
    let x = crate::text::chars_of(a);
    let y = crate::text::chars_of(b);
    if x.len() != y.len() {
        return false;
    }
    let mut i: usize = 0;
    while i < x.len()
        invariant
            x@ == a@,
            y@ == b@,
            x@.len() == y@.len(),
            i <= x@.len(),
            forall|j: int| 0 <= j < i ==> x@[j] == y@[j],
        decreases x@.len() - i,
    {
        if x[i] != y[i] {
            assert(x@[i as int] != y@[i as int]);
            return false;
        }
        i = i + 1;
    }
    assert(x@ =~= y@);
    true
}

/// The entry of the click behavior chooser shown for the preference:
/// `Show All Notes` for "show-all", `Toggle Show All` for anything else.
pub fn tray_click_index(tray_click: &str) -> (i: u32)
    ensures
        i == (if tray_click@ == "show-all"@ {
            1u32
        } else {
            0u32
        }),
{
    if same_text(tray_click, "show-all") {
        1
    } else {
        0
    }
}

/// The click behavior of the chosen entry, if an entry is chosen.
pub fn tray_click_choice(active: Option<u32>) -> (v: Option<String>)
    ensures
        v matches Some(s) ==> active matches Some(i) && i < 2 && s@ == tray_click_values()[i as int],
        v is None <==> !(active matches Some(i) && i < 2),
{
    match active {
        Some(i) => if i == 0 {
            Some(String::from_str("toggle"))
        } else if i == 1 {
            Some(String::from_str("show-all"))
        } else {
            None
        },
        None => None,
    }
}

/// The window-management switches belong to the compositor on Wayland:
/// a Wayland session is one whose `XDG_SESSION_TYPE` is `wayland` or that
/// sets `WAYLAND_DISPLAY`.
pub fn wayland_window_controls(session_type: Option<&str>, wayland_display_set: bool) -> (r: bool)
    ensures
        r == ((session_type matches Some(t) && t@ == "wayland"@) || wayland_display_set),
{
    let is_wayland = match session_type {
        Some(t) => same_text(t, "wayland"),
        None => false,
    };
    is_wayland || wayland_display_set
}

} // verus!
