//! The window: how active it is, how it is scaled, placed and closed, and which theme it wears.

use vstd::prelude::*;

use crate::text::{copy_range, from_chars, occurs_at, same_text, starts_with, to_chars};

verus! {

// ---- Activity -------------------------------------------------------------

/// How active the window is, for idle-CPU throttling.
#[derive(Clone, Copy, Debug, PartialEq, Eq, Structural)]
pub enum WinActivity {
    /// Focused and visible: full rate.
    Active,
    /// Visible but unfocused: throttled.
    Background,
    /// Minimized or occluded: paused.
    Hidden,
}

/// What is known of the window: the inputs that make up its activity.
#[derive(Clone, Copy, Debug, PartialEq, Eq, Structural)]
pub struct WinState {
    pub focused: bool,
    pub minimized: bool,
    pub occluded: bool,
}

/// What may happen to the window.
#[derive(Clone, Copy, Debug, PartialEq, Eq, Structural)]
pub enum WinEvent {
    Focused(bool),
    Occluded(bool),
    Resized { width: u32, height: u32 },
}

/// What is known of the window after an event. A resize to nothing is how a minimize is
/// reported.
pub open spec fn win_after(s: WinState, e: WinEvent) -> WinState {
    match e {
        WinEvent::Focused(f) => WinState { focused: f, ..s },
        WinEvent::Occluded(o) => WinState { occluded: o, ..s },
        WinEvent::Resized { width, height } => WinState {
            minimized: width == 0 || height == 0,
            ..s
        },
    }
}

/// How active a window is: hidden when minimized or occluded, otherwise active when focused.
pub open spec fn activity_of(s: WinState) -> WinActivity {
    if s.minimized || s.occluded {
        WinActivity::Hidden
    } else if s.focused {
        WinActivity::Active
    } else {
        WinActivity::Background
    }
}

impl WinState {
    /// A window as it opens: focused and visible.
    pub fn opened() -> (s: WinState)
        ensures
            s == (WinState { focused: true, minimized: false, occluded: false }),
            activity_of(s) == WinActivity::Active,
    {
        WinState { focused: true, minimized: false, occluded: false }
    }

    /// Takes note of an event, and returns how active the window now is.
    pub fn note(&mut self, e: WinEvent) -> (a: WinActivity)
        ensures
            *final(self) == win_after(*old(self), e),
            a == activity_of(*final(self)),
    {
        match e {
            WinEvent::Focused(f) => {
                self.focused = f;
            },
            WinEvent::Occluded(o) => {
                self.occluded = o;
            },
            WinEvent::Resized { width, height } => {
                self.minimized = width == 0 || height == 0;
            },
        }
        if self.minimized || self.occluded {
            WinActivity::Hidden
        } else if self.focused {
            WinActivity::Active
        } else {
            WinActivity::Background
        }
    }
}

/// The ticks that a background window waits for one sample.
pub const BACKGROUND_TICKS: u32 = 5;

/// The background tick counter after a tick.
pub open spec fn next_tick(activity: WinActivity, bg_tick: u32) -> u32 {
    if activity == WinActivity::Background {
        if bg_tick == u32::MAX {
            0
        } else {
            (bg_tick + 1) as u32
        }
    } else {
        bg_tick
    }
}

/// Whether a tick takes a sample: always for an active window, every fifth time for one in the
/// background, never for a hidden one.
pub open spec fn samples(activity: WinActivity, bg_tick: u32) -> bool {
    match activity {
        WinActivity::Hidden => false,
        WinActivity::Background => next_tick(activity, bg_tick) % BACKGROUND_TICKS == 0,
        WinActivity::Active => true,
    }
}

/// One tick of the sampler: whether to take a sample now. Skips the work when no one is looking,
/// and backs off when the window is in the background.
pub fn sampler_tick(activity: WinActivity, bg_tick: &mut u32) -> (sample: bool)
    ensures
        sample == samples(activity, *old(bg_tick)),
        *final(bg_tick) == next_tick(activity, *old(bg_tick)),
{
    match activity {
        WinActivity::Hidden => false,
        WinActivity::Background => {
            *bg_tick = if *bg_tick == u32::MAX {
                0
            } else {
                *bg_tick + 1
            };
            *bg_tick % BACKGROUND_TICKS == 0
        },
        WinActivity::Active => true,
    }
}

// ---- Closing --------------------------------------------------------------

/// What a request to close the window leads to.
#[derive(Clone, Copy, Debug, PartialEq, Eq, Structural)]
pub enum CloseAction {
    /// Ask first: sessions are open.
    Confirm,
    /// Save the layout and close.
    SaveAndClose,
}

/// Confirm before closing if there are open session tabs, so that a stray click does not silently
/// drop live sessions; otherwise the window closes and its layout is saved.
pub fn close_requested(open_sessions: usize) -> (a: CloseAction)
    ensures
        a == (if open_sessions > 0 {
            CloseAction::Confirm
        } else {
            CloseAction::SaveAndClose
        }),
{
    if open_sessions > 0 {
        CloseAction::Confirm
    } else {
        CloseAction::SaveAndClose
    }
}

// ---- Scale ----------------------------------------------------------------

/// A number held between two others.
pub open spec fn held(n: int, low: int, high: int) -> int {
    if n < low {
        low
    } else if n > high {
        high
    } else {
        n
    }
}

/// The global UI scale in percent: from 80 to 200.
pub fn ui_scale(percent: i32) -> (r: u32)
    ensures
        r == held(percent as int, 80, 200),
        80 <= r <= 200,
        80 <= percent <= 200 ==> r == percent,
{
    if percent < 80 {
        80
    } else if percent > 200 {
        200
    } else {
        percent as u32
    }
}

/// The font scale of the settings panel in percent: from 80 to 160.
pub fn panel_font(percent: i32) -> (r: u32)
    ensures
        r == held(percent as int, 80, 160),
        80 <= r <= 160,
        80 <= percent <= 160 ==> r == percent,
{
    if percent < 80 {
        80
    } else if percent > 160 {
        160
    } else {
        percent as u32
    }
}

// ---- Placing --------------------------------------------------------------

/// The edge or corner by which the window is resized.
#[derive(Clone, Copy, Debug, PartialEq, Eq, Structural)]
pub enum ResizeEdge {
    North,
    South,
    East,
    West,
    NorthEast,
    NorthWest,
    SouthEast,
    SouthWest,
}

/// The edge for the number that a resize handle sends.
pub open spec fn edge_for(dir: int) -> ResizeEdge {
    if dir == 0 {
        ResizeEdge::North
    } else if dir == 1 {
        ResizeEdge::South
    } else if dir == 2 {
        ResizeEdge::East
    } else if dir == 3 {
        ResizeEdge::West
    } else if dir == 4 {
        ResizeEdge::NorthEast
    } else if dir == 5 {
        ResizeEdge::NorthWest
    } else if dir == 6 {
        ResizeEdge::SouthEast
    } else {
        ResizeEdge::SouthWest
    }
}

/// The edge for the number that a resize handle sends.
pub fn resize_edge(dir: i32) -> (e: ResizeEdge)
    ensures
        e == edge_for(dir as int),
{
    match dir {
        0 => ResizeEdge::North,
        1 => ResizeEdge::South,
        2 => ResizeEdge::East,
        3 => ResizeEdge::West,
        4 => ResizeEdge::NorthEast,
        5 => ResizeEdge::NorthWest,
        6 => ResizeEdge::SouthEast,
        _ => ResizeEdge::SouthWest,
    }
}

/// A rectangle of the screen, in pixels.
#[derive(Clone, Copy, Debug, PartialEq, Eq, Structural)]
pub struct WorkArea {
    pub left: i32,
    pub top: i32,
    pub right: i32,
    pub bottom: i32,
}

/// Where one side of a window of the given size starts, to stand in the middle between two
/// edges; at the first edge where the window is larger.
pub open spec fn centred(from: int, to: int, size: int) -> int {
    let room = to - from - size;
    if room > 0 {
        from + room / 2
    } else {
        from
    }
}

/// Where one side of a window starts.
fn centre_side(from: i32, to: i32, size: u32) -> (r: i32)
    ensures
        r == centred(from as int, to as int, size as int),
{
    let room: i64 = to as i64 - from as i64 - size as i64;
    if room > 0 {
        (from as i64 + room / 2) as i32
    } else {
        from
    }
}

/// The position at which a window of the given size stands centred on the primary monitor's work
/// area.
pub fn center_window(area: WorkArea, width: u32, height: u32) -> (pos: (i32, i32))
    ensures
        pos.0 == centred(area.left as int, area.right as int, width as int),
        pos.1 == centred(area.top as int, area.bottom as int, height as int),
{
    (centre_side(area.left, area.right, width), centre_side(area.top, area.bottom, height))
}

// ---- Renderer -------------------------------------------------------------

/// The renderer that a backend name such as "winit-skia" asks for, if it names one.
pub open spec fn renderer_of(backend: Seq<char>) -> Option<Seq<char>> {
    if occurs_at(backend, "winit-"@, 0) && backend.len() > 6 {
        Some(backend.skip(6))
    } else {
        None
    }
}

/// The renderer that a backend name such as "winit-skia" asks for.
pub fn renderer_override(backend: &str) -> (r: Option<String>)
    ensures
        r is Some <==> renderer_of(backend@) is Some,
        r matches Some(s) ==> renderer_of(backend@) == Some(s@),
{
    let s = to_chars(backend);
    if starts_with(s.as_slice(), to_chars("winit-").as_slice()) && s.len() > 6 {
        assert(s@.subrange(6, s@.len() as int) =~= s@.skip(6));
        Some(from_chars(copy_range(s.as_slice(), 6, s.len()).as_slice()))
    } else {
        None
    }
}

// ---- Theme ----------------------------------------------------------------

/// What the system says of its theme.
#[derive(Clone, Copy, Debug, PartialEq, Eq, Structural)]
pub enum SystemTheme {
    Light,
    Dark,
    Unknown,
}

/// Whether a saved preference means the dark theme: "light" and "dark" win; otherwise the system
/// decides, and dark is the default.
pub open spec fn prefers_dark(pref: Seq<char>, system: SystemTheme) -> bool {
    if pref == "light"@ {
        false
    } else if pref == "dark"@ {
        true
    } else {
        system != SystemTheme::Light
    }
}

/// Resolve the user's saved theme preference: "light"/"dark" win; otherwise what the system says,
/// defaulting to dark.
pub fn theme_pref_is_dark(pref: &str, system: SystemTheme) -> (dark: bool)
    ensures
        dark == prefers_dark(pref@, system),
{
    if same_text(pref, "light") {
        false
    } else if same_text(pref, "dark") {
        true
    } else {
        match system {
            SystemTheme::Light => false,
            _ => true,
        }
    }
}

/// The preference that is saved when the theme is toggled to dark or light.
pub fn theme_pref(dark: bool) -> (r: String)
    ensures
        r@ == (if dark {
            "dark"@
        } else {
            "light"@
        }),
        forall|system: SystemTheme| #[trigger] prefers_dark(r@, system) == dark,
{
    proof {
        law_theme_preference("dark"@, SystemTheme::Light);
        law_theme_preference("dark"@, SystemTheme::Dark);
        law_theme_preference("dark"@, SystemTheme::Unknown);
    }
    if dark {
        "dark".to_owned()
    } else {
        "light".to_owned()
    }
}

/// What is known of a wallpaper that could be loaded.
pub struct Wallpaper {
    /// One of the built-in ones, which are designed as a light/dark pair.
    pub builtin: bool,
    /// Whether the image is dark.
    pub is_dark: bool,
    /// The name of its file, if it has one.
    pub file_name: Option<String>,
}

/// What applying a wallpaper changes.
pub struct WallpaperPlan {
    pub active: bool,
    pub current: String,
    pub custom_name: String,
    /// The theme to switch to, if any.
    pub dark: Option<bool>,
}

/// The name shown for a wallpaper: that of its file, and none for a built-in one.
pub open spec fn shown_name(w: Wallpaper) -> Seq<char> {
    match w.file_name {
        Some(name) => if w.builtin {
            Seq::empty()
        } else {
            name@
        },
        None => Seq::empty(),
    }
}

/// Apply a wallpaper, given what was loaded for its id. Only the built-in ones set the theme: a
/// custom photo keeps the user's choice, so that the toggle still governs text contrast. An empty
/// or undecodable wallpaper turns immersive mode off and restores the saved theme.
pub fn apply_wallpaper(id: &str, loaded: Option<Wallpaper>, pref: &str, system: SystemTheme) -> (p:
    WallpaperPlan)
    ensures
        p.active == loaded is Some,
        loaded matches Some(w) ==> p.current@ == id@ && p.custom_name@ == shown_name(w) && p.dark
            == (if w.builtin {
            Some(w.is_dark)
        } else {
            None
        }),
        loaded is None ==> p.current@.len() == 0 && p.custom_name@.len() == 0 && p.dark == Some(
            prefers_dark(pref@, system),
        ),
{
    match loaded {
        Some(w) => {
            let dark: Option<bool> = if w.builtin {
                Some(w.is_dark)
            } else {
                None
            };
            let custom_name: String = match w.file_name {
                Some(name) => if w.builtin {
                    String::new()
                } else {
                    name
                },
                None => String::new(),
            };
            WallpaperPlan { active: true, current: id.to_owned(), custom_name, dark }
        },
        None => WallpaperPlan {
            active: false,
            current: String::new(),
            custom_name: String::new(),
            dark: Some(theme_pref_is_dark(pref, system)),
        },
    }
}

// ---- Keys -----------------------------------------------------------------

/// Whether a key is down, from the state word that the system gives: its top bit.
pub fn key_is_down(state: i16) -> (down: bool)
    ensures
        down == (state < 0),
{
    state < 0
}

/// The letter key behind a control character, from Ctrl+A (1) to Ctrl+Z (26).
pub open spec fn letter_key(cp: u32) -> Option<i32> {
    if 0x01 <= cp <= 0x1a {
        Some((cp + 0x40) as i32)
    } else {
        None
    }
}

/// The letter key behind a control character.
pub fn c0_letter_key(cp: u32) -> (vk: Option<i32>)
    ensures
        vk == letter_key(cp),
{
    if 0x01 <= cp && cp <= 0x1a {
        Some((cp + 0x40) as i32)
    } else {
        None
    }
}

/// Whether a control character is allowed through, given the state word of the letter key behind
/// it: a real Ctrl+letter has its letter down, an injected one has not. Characters with no letter
/// key are not filtered.
pub fn c0_letter_key_down(cp: u32, state: i16) -> (allow: bool)
    ensures
        allow == (letter_key(cp) is None || state < 0),
{
    match c0_letter_key(cp) {
        Some(_) => key_is_down(state),
        None => true,
    }
}

// ---- Laws -----------------------------------------------------------------

/// A hidden window never samples; an active one always does, and leaves the counter alone.
pub proof fn law_sampling_follows_activity(bg_tick: u32)
    ensures
        !samples(WinActivity::Hidden, bg_tick),
        samples(WinActivity::Active, bg_tick),
        next_tick(WinActivity::Hidden, bg_tick) == bg_tick,
        next_tick(WinActivity::Active, bg_tick) == bg_tick,
{
}

/// Of five ticks in the background, counted without wrapping, exactly one takes a sample.
pub proof fn law_background_samples_every_fifth(bg_tick: u32)
    requires
        bg_tick % BACKGROUND_TICKS == 0,
        bg_tick <= u32::MAX - BACKGROUND_TICKS,
    ensures
        forall|k: u32|
            k < BACKGROUND_TICKS ==> (#[trigger] samples(
                WinActivity::Background,
                (bg_tick + k) as u32,
            ) <==> k == BACKGROUND_TICKS - 1),
{
    assert forall|k: u32| k < BACKGROUND_TICKS implies (#[trigger] samples(
        WinActivity::Background,
        (bg_tick + k) as u32,
    ) <==> k == BACKGROUND_TICKS - 1) by {
        assert((bg_tick + k + 1) % 5 == (k + 1) % 5);
    }
}

/// A window that fits stands inside the work area, with the same room on both sides but for a
/// pixel.
pub proof fn law_centred_window_fits(from: int, to: int, size: int)
    requires
        0 <= size <= to - from,
    ensures
        from <= centred(from, to, size),
        centred(from, to, size) + size <= to,
        ({
            let before = centred(from, to, size) - from;
            let after = to - (centred(from, to, size) + size);
            before <= after <= before + 1
        }),
{
}

/// Regaining focus on a visible window makes it active again, whatever happened before.
pub proof fn law_visible_focus_is_active(s: WinState)
    requires
        !s.minimized,
        !s.occluded,
    ensures
        activity_of(win_after(s, WinEvent::Focused(true))) == WinActivity::Active,
        activity_of(win_after(s, WinEvent::Focused(false))) == WinActivity::Background,
        activity_of(win_after(s, WinEvent::Occluded(true))) == WinActivity::Hidden,
{
}

/// Each event changes what it tells of and nothing else; a window without width or without height
/// is minimized, and one that has both is not.
pub proof fn law_window_events(s: WinState, on: bool, width: u32, height: u32)
    ensures
        win_after(s, WinEvent::Focused(on)) == (WinState { focused: on, ..s }),
        win_after(s, WinEvent::Occluded(on)) == (WinState { occluded: on, ..s }),
        win_after(s, WinEvent::Resized { width, height }).minimized <==> width == 0 || height == 0,
        win_after(s, WinEvent::Resized { width, height }).focused == s.focused,
        win_after(s, WinEvent::Resized { width, height }).occluded == s.occluded,
{
}

/// A window that cannot be seen is hidden, focused or not; of those that can be seen the focused
/// one is active and the others are in the background.
pub proof fn law_activity(s: WinState)
    ensures
        activity_of(s) == WinActivity::Hidden <==> s.minimized || s.occluded,
        activity_of(s) == WinActivity::Active <==> !s.minimized && !s.occluded && s.focused,
        activity_of(s) == WinActivity::Background <==> !s.minimized && !s.occluded && !s.focused,
{
}

/// In the background the ticks are counted, and each whole five of them sample once.
pub proof fn law_background_samples_by_fives(bg_tick: u32)
    ensures
        bg_tick < u32::MAX ==> next_tick(WinActivity::Background, bg_tick) == bg_tick + 1,
        bg_tick == u32::MAX ==> next_tick(WinActivity::Background, bg_tick) == 0,
        bg_tick < u32::MAX ==> (samples(WinActivity::Background, bg_tick) <==> exists|k: int|
            bg_tick + 1 == #[trigger] (5 * k)),
{
    let t = bg_tick + 1;
    if t % 5 == 0 {
        assert(t == 5 * (t / 5));
    }
}

/// What is in range is kept, and what is not is moved to the nearer end.
pub proof fn law_held_in_range(n: int, low: int, high: int)
    requires
        low <= high,
    ensures
        low <= held(n, low, high) <= high,
        low <= n <= high ==> held(n, low, high) == n,
        n <= low ==> held(n, low, high) == low,
        n >= high ==> held(n, low, high) == high,
{
}

/// A window that is larger than the room for it starts where the room starts.
pub proof fn law_large_window_starts_at_the_edge(from: int, to: int, size: int)
    requires
        size >= to - from,
    ensures
        centred(from, to, size) == from,
{
}

/// The renderer is what follows `winit-`, if anything does.
pub proof fn law_renderer_follows_the_backend(name: Seq<char>, backend: Seq<char>)
    ensures
        name.len() > 0 ==> renderer_of(seq!['w', 'i', 'n', 'i', 't', '-'] + name) == Some(name),
        renderer_of(seq!['w', 'i', 'n', 'i', 't', '-']) is None,
        renderer_of(backend) matches Some(r) ==> backend == seq!['w', 'i', 'n', 'i', 't', '-'] + r,
{
    reveal_strlit("winit-");
    let p = seq!['w', 'i', 'n', 'i', 't', '-'];
    assert("winit-"@ =~= p);
    let s = p + name;
    assert(s.subrange(0, 6) =~= p);
    assert(s.skip(6) =~= name);
    if occurs_at(backend, p, 0) {
        assert(backend =~= backend.subrange(0, 6) + backend.skip(6));
    }
}

/// A preference for one theme is followed whatever the system has; without one the system
/// decides, and dark is used unless it is known to be light.
pub proof fn law_theme_preference(pref: Seq<char>, system: SystemTheme)
    ensures
        pref == "dark"@ ==> prefers_dark(pref, system),
        pref == "light"@ ==> !prefers_dark(pref, system),
        pref != "dark"@ && pref != "light"@ ==> (prefers_dark(pref, system) <==> system
            == SystemTheme::Dark || system == SystemTheme::Unknown),
{
    reveal_strlit("dark");
    reveal_strlit("light");
    assert("dark"@.len() != "light"@.len());
}

/// The key behind a control character is the capital letter of the same place in the alphabet.
pub proof fn law_control_characters_have_letters(cp: u32)
    ensures
        1 <= cp <= 26 ==> letter_key(cp) == Some(('A' as u32 + cp - 1) as i32),
        cp == 0 || cp > 26 ==> letter_key(cp) is None,
{
}

/// Only a wallpaper of one's own is called by the name of its file.
pub proof fn law_wallpaper_names(w: Wallpaper)
    ensures
        w.builtin || w.file_name is None ==> shown_name(w).len() == 0,
        !w.builtin ==> (w.file_name matches Some(name) ==> shown_name(w) == name@),
{
}

/// The eight edges are numbered from the sides to the corners, each its own.
pub proof fn law_edges_are_told_apart(a: int, b: int)
    requires
        0 <= a < 8,
        0 <= b < 8,
        a != b,
    ensures
        edge_for(a) != edge_for(b),
        a < 4 ==> edge_for(a) == ResizeEdge::North || edge_for(a) == ResizeEdge::South || edge_for(a)
            == ResizeEdge::East || edge_for(a) == ResizeEdge::West,
{
}

} // verus!
