//! The editor shell's own rules: the theme cycle and palettes, the labels
//! and tones for the session and build states, the view toggles driven by
//! the menu, the starter document, and how changes of the document file on
//! disk are told apart from the editor's own writes.

use vstd::prelude::*;

use crate::collab::{
    prefixed, str_to_string, CollabEvent, CollabEventView, CollabStatus, CollabStatusView,
};
use crate::menu::AppMenuCommand;
use crate::text::{str_eq, str_starts_with, str_trim, trim};

verus! {

/// The built-in colour themes, in the order "next theme" walks them.
#[derive(Clone, Copy, Debug, PartialEq, Eq, Structural)]
pub enum ThemePreset {
    Midnight,
    Paper,
    Forest,
    Rose,
    Solarized,
}

impl ThemePreset {
    /// The position of the preset in the cycle.
    pub open spec fn index(self) -> int {
        match self {
            ThemePreset::Midnight => 0,
            ThemePreset::Paper => 1,
            ThemePreset::Forest => 2,
            ThemePreset::Rose => 3,
            ThemePreset::Solarized => 4,
        }
    }

    /// The preset at position `i` (taken modulo the five presets).
    pub open spec fn at(i: int) -> ThemePreset {
        let k = i % 5;
        if k == 0 {
            ThemePreset::Midnight
        } else if k == 1 {
            ThemePreset::Paper
        } else if k == 2 {
            ThemePreset::Forest
        } else if k == 3 {
            ThemePreset::Rose
        } else {
            ThemePreset::Solarized
        }
    }

    /// The preset `n` steps further along the cycle.
    pub open spec fn advance(self, n: nat) -> ThemePreset {
        ThemePreset::at(self.index() + n)
    }

    /// The next preset, wrapping from the last back to the first.
    pub fn next(self) -> (r: Self)
        ensures
            r == self.advance(1),
    {
        match self {
            ThemePreset::Midnight => ThemePreset::Paper,
            ThemePreset::Paper => ThemePreset::Forest,
            ThemePreset::Forest => ThemePreset::Rose,
            ThemePreset::Rose => ThemePreset::Solarized,
            ThemePreset::Solarized => ThemePreset::Midnight,
        }
    }

    /// The previous preset: four steps forward in the five-preset cycle.
    pub fn previous(self) -> (r: Self)
        ensures
            r == self.advance(4),
    {
        let mut v = self;
        let mut i: usize = 0;
        while i < 4
            invariant
                i <= 4,
                v == self.advance(i as nat),
            decreases 4 - i,
        {
            v = v.next();
            i += 1;
        }
        v
    }
}

/// Stepping through all five presets comes back to the start.
pub proof fn lemma_theme_cycle(p: ThemePreset)
    ensures
        p.advance(5) == p,
{
}

/// "Previous theme" undoes "next theme", and the other way round.
pub proof fn lemma_previous_undoes_next(p: ThemePreset)
    ensures
        p.advance(1).advance(4) == p,
        p.advance(4).advance(1) == p,
{
}

/// Each preset is reached from exactly one preset by "next theme".
pub proof fn lemma_next_injective(p: ThemePreset, q: ThemePreset)
    ensures
        p.advance(1) == q.advance(1) ==> p == q,
{
}

/// An sRGB colour with alpha, eight bits per channel.
#[derive(Clone, Copy, Debug, PartialEq, Eq, Structural)]
pub struct Rgba8 {
    pub r: u8,
    pub g: u8,
    pub b: u8,
    pub a: u8,
}

/// An opaque colour.
pub fn rgb8(r: u8, g: u8, b: u8) -> (c: Rgba8)
    ensures
        c == (Rgba8 { r, g, b, a: 255 }),
{
    Rgba8 { r, g, b, a: 255 }
}

/// A colour with the given alpha.
pub fn rgba8(r: u8, g: u8, b: u8, a: u8) -> (c: Rgba8)
    ensures
        c == (Rgba8 { r, g, b, a }),
{
    Rgba8 { r, g, b, a }
}

/// The colours of one theme, and the name shown in the status bar.
#[derive(Clone, Copy, Debug)]
pub struct Theme {
    pub id: u64,
    pub name: &'static str,
    pub background: Rgba8,
    pub panel: Rgba8,
    pub panel_alt: Rgba8,
    pub editor: Rgba8,
    pub accent: Rgba8,
    pub accent_soft: Rgba8,
    pub border: Rgba8,
    pub border_strong: Rgba8,
    pub text: Rgba8,
    pub text_muted: Rgba8,
    pub success: Rgba8,
    pub warning: Rgba8,
    pub error: Rgba8,
    pub syntax_comment: Rgba8,
    pub syntax_command: Rgba8,
    pub syntax_environment: Rgba8,
    pub syntax_math: Rgba8,
    pub syntax_delimiter: Rgba8,
}

/// The name of a preset.
pub open spec fn preset_name(p: ThemePreset) -> Seq<char> {
    match p {
        ThemePreset::Midnight => "Midnight"@,
        ThemePreset::Paper => "Paper"@,
        ThemePreset::Forest => "Forest"@,
        ThemePreset::Rose => "Rose"@,
        ThemePreset::Solarized => "Solarized"@,
    }
}

/// Whether `soft` is `c` made translucent.
pub open spec fn same_hue(c: Rgba8, soft: Rgba8) -> bool {
    c.r == soft.r && c.g == soft.g && c.b == soft.b && soft.a < c.a
}

/// The shape every palette has: numbered and named after its preset, the
/// soft accent a translucent accent, the strong border a less translucent
/// border, and the surfaces, text and state colours opaque.
pub open spec fn palette_shape(p: ThemePreset, t: Theme) -> bool {
    &&& t.id == p.index() + 1
    &&& t.name@ == preset_name(p)
    &&& same_hue(t.accent, t.accent_soft)
    &&& t.border.r == t.border_strong.r && t.border.g == t.border_strong.g
        && t.border.b == t.border_strong.b && t.border.a < t.border_strong.a
    &&& t.background.a == 255 && t.panel.a == 255 && t.panel_alt.a == 255 && t.editor.a == 255
    &&& t.accent.a == 255 && t.text.a == 255 && t.text_muted.a == 255
    &&& t.success.a == 255 && t.warning.a == 255 && t.error.a == 255
    &&& t.syntax_comment.a == 255 && t.syntax_command.a == 255
    &&& t.syntax_environment.a == 255 && t.syntax_math.a == 255 && t.syntax_delimiter.a == 255
}

/// The palette of a preset.
/// The colours of each preset.
pub open spec fn palette_of(preset: ThemePreset) -> Theme {
    match preset {
        ThemePreset::Midnight => Theme {
            id: 1,
            name: "Midnight",
            background: Rgba8 { r: 13, g: 16, b: 21, a: 255 },
            panel: Rgba8 { r: 20, g: 24, b: 30, a: 255 },
            panel_alt: Rgba8 { r: 27, g: 32, b: 40, a: 255 },
            editor: Rgba8 { r: 17, g: 21, b: 27, a: 255 },
            accent: Rgba8 { r: 96, g: 165, b: 250, a: 255 },
            accent_soft: Rgba8 { r: 96, g: 165, b: 250, a: 38 },
            border: Rgba8 { r: 255, g: 255, b: 255, a: 12 },
            border_strong: Rgba8 { r: 255, g: 255, b: 255, a: 24 },
            text: Rgba8 { r: 232, g: 236, b: 243, a: 255 },
            text_muted: Rgba8 { r: 141, g: 151, b: 170, a: 255 },
            success: Rgba8 { r: 93, g: 196, b: 141, a: 255 },
            warning: Rgba8 { r: 233, g: 184, b: 73, a: 255 },
            error: Rgba8 { r: 231, g: 108, b: 92, a: 255 },
            syntax_comment: Rgba8 { r: 112, g: 125, b: 148, a: 255 },
            syntax_command: Rgba8 { r: 114, g: 176, b: 255, a: 255 },
            syntax_environment: Rgba8 { r: 234, g: 191, b: 116, a: 255 },
            syntax_math: Rgba8 { r: 127, g: 220, b: 184, a: 255 },
            syntax_delimiter: Rgba8 { r: 198, g: 167, b: 255, a: 255 },
        },
        ThemePreset::Paper => Theme {
            id: 2,
            name: "Paper",
            background: Rgba8 { r: 246, g: 247, b: 250, a: 255 },
            panel: Rgba8 { r: 255, g: 255, b: 255, a: 255 },
            panel_alt: Rgba8 { r: 241, g: 244, b: 248, a: 255 },
            editor: Rgba8 { r: 255, g: 255, b: 255, a: 255 },
            accent: Rgba8 { r: 46, g: 111, b: 214, a: 255 },
            accent_soft: Rgba8 { r: 46, g: 111, b: 214, a: 22 },
            border: Rgba8 { r: 15, g: 23, b: 42, a: 18 },
            border_strong: Rgba8 { r: 15, g: 23, b: 42, a: 42 },
            text: Rgba8 { r: 31, g: 41, b: 55, a: 255 },
            text_muted: Rgba8 { r: 100, g: 116, b: 139, a: 255 },
            success: Rgba8 { r: 52, g: 139, b: 89, a: 255 },
            warning: Rgba8 { r: 190, g: 135, b: 24, a: 255 },
            error: Rgba8 { r: 196, g: 76, b: 62, a: 255 },
            syntax_comment: Rgba8 { r: 120, g: 132, b: 148, a: 255 },
            syntax_command: Rgba8 { r: 46, g: 111, b: 214, a: 255 },
            syntax_environment: Rgba8 { r: 181, g: 119, b: 34, a: 255 },
            syntax_math: Rgba8 { r: 39, g: 142, b: 118, a: 255 },
            syntax_delimiter: Rgba8 { r: 112, g: 85, b: 200, a: 255 },
        },
        ThemePreset::Forest => Theme {
            id: 3,
            name: "Forest",
            background: Rgba8 { r: 17, g: 23, b: 20, a: 255 },
            panel: Rgba8 { r: 25, g: 33, b: 29, a: 255 },
            panel_alt: Rgba8 { r: 34, g: 43, b: 38, a: 255 },
            editor: Rgba8 { r: 20, g: 28, b: 24, a: 255 },
            accent: Rgba8 { r: 111, g: 196, b: 143, a: 255 },
            accent_soft: Rgba8 { r: 111, g: 196, b: 143, a: 34 },
            border: Rgba8 { r: 255, g: 255, b: 255, a: 12 },
            border_strong: Rgba8 { r: 255, g: 255, b: 255, a: 26 },
            text: Rgba8 { r: 231, g: 238, b: 233, a: 255 },
            text_muted: Rgba8 { r: 150, g: 168, b: 156, a: 255 },
            success: Rgba8 { r: 120, g: 212, b: 162, a: 255 },
            warning: Rgba8 { r: 225, g: 190, b: 96, a: 255 },
            error: Rgba8 { r: 222, g: 112, b: 102, a: 255 },
            syntax_comment: Rgba8 { r: 110, g: 136, b: 122, a: 255 },
            syntax_command: Rgba8 { r: 124, g: 220, b: 170, a: 255 },
            syntax_environment: Rgba8 { r: 235, g: 198, b: 120, a: 255 },
            syntax_math: Rgba8 { r: 116, g: 204, b: 217, a: 255 },
            syntax_delimiter: Rgba8 { r: 186, g: 165, b: 255, a: 255 },
        },
        ThemePreset::Rose => Theme {
            id: 4,
            name: "Rose",
            background: Rgba8 { r: 24, g: 19, b: 28, a: 255 },
            panel: Rgba8 { r: 33, g: 27, b: 39, a: 255 },
            panel_alt: Rgba8 { r: 43, g: 36, b: 51, a: 255 },
            editor: Rgba8 { r: 28, g: 23, b: 34, a: 255 },
            accent: Rgba8 { r: 232, g: 130, b: 180, a: 255 },
            accent_soft: Rgba8 { r: 232, g: 130, b: 180, a: 34 },
            border: Rgba8 { r: 255, g: 255, b: 255, a: 14 },
            border_strong: Rgba8 { r: 255, g: 255, b: 255, a: 28 },
            text: Rgba8 { r: 239, g: 233, b: 243, a: 255 },
            text_muted: Rgba8 { r: 172, g: 158, b: 180, a: 255 },
            success: Rgba8 { r: 139, g: 211, b: 183, a: 255 },
            warning: Rgba8 { r: 236, g: 194, b: 118, a: 255 },
            error: Rgba8 { r: 238, g: 118, b: 132, a: 255 },
            syntax_comment: Rgba8 { r: 136, g: 120, b: 150, a: 255 },
            syntax_command: Rgba8 { r: 255, g: 150, b: 202, a: 255 },
            syntax_environment: Rgba8 { r: 255, g: 206, b: 132, a: 255 },
            syntax_math: Rgba8 { r: 129, g: 219, b: 200, a: 255 },
            syntax_delimiter: Rgba8 { r: 196, g: 170, b: 255, a: 255 },
        },
        ThemePreset::Solarized => Theme {
            id: 5,
            name: "Solarized",
            background: Rgba8 { r: 244, g: 236, b: 214, a: 255 },
            panel: Rgba8 { r: 253, g: 246, b: 227, a: 255 },
            panel_alt: Rgba8 { r: 238, g: 232, b: 213, a: 255 },
            editor: Rgba8 { r: 253, g: 246, b: 227, a: 255 },
            accent: Rgba8 { r: 38, g: 139, b: 210, a: 255 },
            accent_soft: Rgba8 { r: 38, g: 139, b: 210, a: 24 },
            border: Rgba8 { r: 88, g: 110, b: 117, a: 38 },
            border_strong: Rgba8 { r: 88, g: 110, b: 117, a: 70 },
            text: Rgba8 { r: 72, g: 90, b: 96, a: 255 },
            text_muted: Rgba8 { r: 123, g: 137, b: 139, a: 255 },
            success: Rgba8 { r: 133, g: 153, b: 0, a: 255 },
            warning: Rgba8 { r: 181, g: 137, b: 0, a: 255 },
            error: Rgba8 { r: 220, g: 50, b: 47, a: 255 },
            syntax_comment: Rgba8 { r: 147, g: 161, b: 161, a: 255 },
            syntax_command: Rgba8 { r: 38, g: 139, b: 210, a: 255 },
            syntax_environment: Rgba8 { r: 203, g: 75, b: 22, a: 255 },
            syntax_math: Rgba8 { r: 42, g: 161, b: 152, a: 255 },
            syntax_delimiter: Rgba8 { r: 108, g: 113, b: 196, a: 255 },
        },
    }
}

pub fn palette(preset: ThemePreset) -> (t: Theme)
    ensures
        t == palette_of(preset),
        palette_shape(preset, t),
{
    match preset {
        ThemePreset::Midnight => Theme {
            id: 1,
            name: "Midnight",
            background: rgb8(13, 16, 21),
            panel: rgb8(20, 24, 30),
            panel_alt: rgb8(27, 32, 40),
            editor: rgb8(17, 21, 27),
            accent: rgb8(96, 165, 250),
            accent_soft: rgba8(96, 165, 250, 38),
            border: rgba8(255, 255, 255, 12),
            border_strong: rgba8(255, 255, 255, 24),
            text: rgb8(232, 236, 243),
            text_muted: rgb8(141, 151, 170),
            success: rgb8(93, 196, 141),
            warning: rgb8(233, 184, 73),
            error: rgb8(231, 108, 92),
            syntax_comment: rgb8(112, 125, 148),
            syntax_command: rgb8(114, 176, 255),
            syntax_environment: rgb8(234, 191, 116),
            syntax_math: rgb8(127, 220, 184),
            syntax_delimiter: rgb8(198, 167, 255),
        },
        ThemePreset::Paper => Theme {
            id: 2,
            name: "Paper",
            background: rgb8(246, 247, 250),
            panel: rgb8(255, 255, 255),
            panel_alt: rgb8(241, 244, 248),
            editor: rgb8(255, 255, 255),
            accent: rgb8(46, 111, 214),
            accent_soft: rgba8(46, 111, 214, 22),
            border: rgba8(15, 23, 42, 18),
            border_strong: rgba8(15, 23, 42, 42),
            text: rgb8(31, 41, 55),
            text_muted: rgb8(100, 116, 139),
            success: rgb8(52, 139, 89),
            warning: rgb8(190, 135, 24),
            error: rgb8(196, 76, 62),
            syntax_comment: rgb8(120, 132, 148),
            syntax_command: rgb8(46, 111, 214),
            syntax_environment: rgb8(181, 119, 34),
            syntax_math: rgb8(39, 142, 118),
            syntax_delimiter: rgb8(112, 85, 200),
        },
        ThemePreset::Forest => Theme {
            id: 3,
            name: "Forest",
            background: rgb8(17, 23, 20),
            panel: rgb8(25, 33, 29),
            panel_alt: rgb8(34, 43, 38),
            editor: rgb8(20, 28, 24),
            accent: rgb8(111, 196, 143),
            accent_soft: rgba8(111, 196, 143, 34),
            border: rgba8(255, 255, 255, 12),
            border_strong: rgba8(255, 255, 255, 26),
            text: rgb8(231, 238, 233),
            text_muted: rgb8(150, 168, 156),
            success: rgb8(120, 212, 162),
            warning: rgb8(225, 190, 96),
            error: rgb8(222, 112, 102),
            syntax_comment: rgb8(110, 136, 122),
            syntax_command: rgb8(124, 220, 170),
            syntax_environment: rgb8(235, 198, 120),
            syntax_math: rgb8(116, 204, 217),
            syntax_delimiter: rgb8(186, 165, 255),
        },
        ThemePreset::Rose => Theme {
            id: 4,
            name: "Rose",
            background: rgb8(24, 19, 28),
            panel: rgb8(33, 27, 39),
            panel_alt: rgb8(43, 36, 51),
            editor: rgb8(28, 23, 34),
            accent: rgb8(232, 130, 180),
            accent_soft: rgba8(232, 130, 180, 34),
            border: rgba8(255, 255, 255, 14),
            border_strong: rgba8(255, 255, 255, 28),
            text: rgb8(239, 233, 243),
            text_muted: rgb8(172, 158, 180),
            success: rgb8(139, 211, 183),
            warning: rgb8(236, 194, 118),
            error: rgb8(238, 118, 132),
            syntax_comment: rgb8(136, 120, 150),
            syntax_command: rgb8(255, 150, 202),
            syntax_environment: rgb8(255, 206, 132),
            syntax_math: rgb8(129, 219, 200),
            syntax_delimiter: rgb8(196, 170, 255),
        },
        ThemePreset::Solarized => Theme {
            id: 5,
            name: "Solarized",
            background: rgb8(244, 236, 214),
            panel: rgb8(253, 246, 227),
            panel_alt: rgb8(238, 232, 213),
            editor: rgb8(253, 246, 227),
            accent: rgb8(38, 139, 210),
            accent_soft: rgba8(38, 139, 210, 24),
            border: rgba8(88, 110, 117, 38),
            border_strong: rgba8(88, 110, 117, 70),
            text: rgb8(72, 90, 96),
            text_muted: rgb8(123, 137, 139),
            success: rgb8(133, 153, 0),
            warning: rgb8(181, 137, 0),
            error: rgb8(220, 50, 47),
            syntax_comment: rgb8(147, 161, 161),
            syntax_command: rgb8(38, 139, 210),
            syntax_environment: rgb8(203, 75, 22),
            syntax_math: rgb8(42, 161, 152),
            syntax_delimiter: rgb8(108, 113, 196),
        },
    }
}

/// Which theme colour a state is shown in.
#[derive(Clone, Copy, Debug, PartialEq, Eq, Structural)]
pub enum StatusTone {
    Success,
    Warning,
    Accent,
    Error,
    Muted,
}

impl Theme {
    /// The colour of a tone in this theme.
    pub fn tone_color(&self, tone: StatusTone) -> (c: Rgba8)
        ensures
            c == (match tone {
                StatusTone::Success => self.success,
                StatusTone::Warning => self.warning,
                StatusTone::Accent => self.accent,
                StatusTone::Error => self.error,
                StatusTone::Muted => self.text_muted,
            }),
    {
        match tone {
            StatusTone::Success => self.success,
            StatusTone::Warning => self.warning,
            StatusTone::Accent => self.accent,
            StatusTone::Error => self.error,
            StatusTone::Muted => self.text_muted,
        }
    }
}

/// The text of the session pill for a status.
pub open spec fn status_text(s: CollabStatusView) -> Seq<char> {
    match s {
        CollabStatusView::Idle => "Solo"@,
        CollabStatusView::ConnectingToSignaling => "Connecting…"@,
        CollabStatusView::WaitingForPeer => "Waiting for peer"@,
        CollabStatusView::Joining => "Joining room…"@,
        CollabStatusView::Negotiating => "Negotiating…"@,
        CollabStatusView::Connected => "Connected"@,
        CollabStatusView::Disconnected(_) => "Disconnected"@,
    }
}

/// The label of the session pill.
pub fn status_label(status: &CollabStatus) -> (r: &'static str)
    ensures
        r@ == status_text(status@),
{
    match status {
        CollabStatus::Idle => "Solo",
        CollabStatus::ConnectingToSignaling => "Connecting…",
        CollabStatus::WaitingForPeer => "Waiting for peer",
        CollabStatus::Joining => "Joining room…",
        CollabStatus::Negotiating => "Negotiating…",
        CollabStatus::Connected => "Connected",
        CollabStatus::Disconnected(_) => "Disconnected",
    }
}

/// The tone of the session pill: success once connected, warning while
/// waiting, the accent while reaching the signaling server, error once
/// disconnected, muted when working alone.
pub open spec fn status_tone_of(s: CollabStatusView) -> StatusTone {
    match s {
        CollabStatusView::Connected => StatusTone::Success,
        CollabStatusView::WaitingForPeer => StatusTone::Warning,
        CollabStatusView::Joining => StatusTone::Warning,
        CollabStatusView::Negotiating => StatusTone::Warning,
        CollabStatusView::ConnectingToSignaling => StatusTone::Accent,
        CollabStatusView::Disconnected(_) => StatusTone::Error,
        CollabStatusView::Idle => StatusTone::Muted,
    }
}

/// The tone of the session pill.
pub fn status_tone(status: &CollabStatus) -> (t: StatusTone)
    ensures
        t == status_tone_of(status@),
{
    match status {
        CollabStatus::Connected => StatusTone::Success,
        CollabStatus::WaitingForPeer | CollabStatus::Joining | CollabStatus::Negotiating => {
            StatusTone::Warning
        },
        CollabStatus::ConnectingToSignaling => StatusTone::Accent,
        CollabStatus::Disconnected(_) => StatusTone::Error,
        CollabStatus::Idle => StatusTone::Muted,
    }
}

/// Whether no session runs, so that Host and Join are offered.
pub fn is_idle(status: &CollabStatus) -> (r: bool)
    ensures
        r == (status@ is Idle || status@ is Disconnected),
{
    match status {
        CollabStatus::Idle | CollabStatus::Disconnected(_) => true,
        _ => false,
    }
}

/// The room code as the session pill shows it: `· CODE`, or nothing.
pub fn room_code_badge(code: &str) -> (r: String)
    ensures
        r@ == (if code@.len() == 0 {
            Seq::empty()
        } else {
            "· "@ + code@
        }),
{
    if code.unicode_len() == 0 {
        proof {
            reveal_strlit("");
        }
        String::new()
    } else {
        prefixed("· ", code)
    }
}

/// The room code typed into the Join field: trimmed and uppercased, or
/// nothing when that leaves it empty.
pub fn normalize_join_code(input: &str) -> (r: Option<String>)
    ensures
        r matches Some(c) ==> c@ == crate::text::uppercase(trim(input@)),
        r is None <==> crate::text::uppercase(trim(input@)).len() == 0,
{
    let code = crate::text::str_to_uppercase(str_trim(input));
    if code.as_str().unicode_len() == 0 {
        None
    } else {
        Some(code)
    }
}

/// Whether `s` starts with `p`.
pub open spec fn starts(s: Seq<char>, p: Seq<char>) -> bool {
    p.len() <= s.len() && s.take(p.len() as int) == p
}

/// The build status after a failed compile or render.
pub open spec fn build_failed(status: Seq<char>) -> bool {
    starts(status, "Compile Error"@) || starts(status, "Render Error"@)
}

/// The build status after a successful compile.
pub open spec fn build_succeeded(status: Seq<char>) -> bool {
    starts(status, "Compiled PDF successfully"@)
}

/// The build status while a compile runs.
pub const COMPILING_STATUS: &'static str = "Compiling...";

/// The build status before anything was compiled.
pub const READY_STATUS: &'static str = "Ready";

/// The build status after the compile was stopped.
pub const IDLE_STATUS: &'static str = "Idle";

fn build_state(status: &str) -> (r: (bool, bool, bool))
    ensures
        r.0 == build_failed(status@),
        r.1 == build_succeeded(status@),
        r.2 == (status@ == COMPILING_STATUS@),
{
    (
        str_starts_with(status, "Compile Error") || str_starts_with(status, "Render Error"),
        str_starts_with(status, "Compiled PDF successfully"),
        str_eq(status, COMPILING_STATUS),
    )
}

/// What the preview shows of the build status.
pub open spec fn preview_summary_of(status: Seq<char>) -> Seq<char> {
    if build_failed(status) {
        "Unavailable"@
    } else if build_succeeded(status) {
        "Synced"@
    } else if status == COMPILING_STATUS@ {
        "In progress"@
    } else {
        "Idle"@
    }
}

/// The preview state in the status bar: unavailable after an error, synced
/// after a successful compile, in progress while compiling, else idle.
pub fn preview_summary(status: &str) -> (r: &'static str)
    ensures
        r@ == preview_summary_of(status@),
{
    let (failed, succeeded, compiling) = build_state(status);
    if failed {
        "Unavailable"
    } else if succeeded {
        "Synced"
    } else if compiling {
        "In progress"
    } else {
        "Idle"
    }
}

/// The message in place of the preview when there are no pages.
pub open spec fn placeholder_of(status: Seq<char>) -> Seq<char> {
    if build_failed(status) {
        "See Problems for details."@
    } else if status == COMPILING_STATUS@ {
        "Compile in progress."@
    } else {
        "Compile to generate a preview."@
    }
}

/// The message in place of the preview when there are no pages.
pub fn preview_placeholder_message(status: &str) -> (r: &'static str)
    ensures
        r@ == placeholder_of(status@),
{
    let (failed, _, compiling) = build_state(status);
    if failed {
        "See Problems for details."
    } else if compiling {
        "Compile in progress."
    } else {
        "Compile to generate a preview."
    }
}

/// The tone of the build status.
pub open spec fn build_tone_of(status: Seq<char>) -> StatusTone {
    if build_failed(status) {
        StatusTone::Error
    } else if build_succeeded(status) {
        StatusTone::Success
    } else if status == COMPILING_STATUS@ {
        StatusTone::Warning
    } else {
        StatusTone::Muted
    }
}

/// The tone of the build status.
pub fn build_status_tone(status: &str) -> (t: StatusTone)
    ensures
        t == build_tone_of(status@),
{
    let (failed, succeeded, compiling) = build_state(status);
    if failed {
        StatusTone::Error
    } else if succeeded {
        StatusTone::Success
    } else if compiling {
        StatusTone::Warning
    } else {
        StatusTone::Muted
    }
}

/// The document a new editor starts from.
pub const STARTER_LATEX: &'static str = r#"\documentclass{article}
\title{FluxTeX Starter}
\author{FluXTeX}
\date{\today}

\begin{document}
\maketitle

\section{Introduction}
This starter document gives us something real to edit and compile.

Inline math: $E = mc^2$.

\subsection{Checklist}
\begin{itemize}
  \item Type into the editor and press Enter for new lines
  \item Compile the manuscript
  \item Review the rendered PDF preview
\end{itemize}

\[
  \int_0^1 x^2\,dx = \frac{1}{3}
\]

\end{document}
"#;

/// The file the editor mirrors and saves to.
pub const AUTOSAVE_PATH: &'static str = "main.tex";

/// The editor's first content: what was read from its file, unless the
/// file could not be read or holds only white space; then the starter.
pub fn initial_content(read: Option<String>) -> (r: String)
    ensures
        r@ == (match read {
            Some(c) => if trim(c@).len() > 0 {
                c@
            } else {
                STARTER_LATEX@
            },
            None => STARTER_LATEX@,
        }),
{
    match read {
        Some(c) => {
            if str_trim(c.as_str()).unicode_len() > 0 {
                c
            } else {
                str_to_string(STARTER_LATEX)
            }
        },
        None => str_to_string(STARTER_LATEX),
    }
}

/// The build log after "New from starter template".
pub const STARTER_RESTORED_NOTE: &'static str =
    "Starter document restored.\n\nUse File → Compile to build the sample manuscript.";

/// The build log after "Open…".
pub const OPEN_FILE_NOTE: &'static str =
    "Open… is not yet implemented.\n\nFor now, edit main.tex directly — the editor mirrors that file.";

/// The build log after "Save As…".
pub const SAVE_AS_NOTE: &'static str =
    "Save As… requires a file dialog (NSSavePanel) integration that's not wired up yet.";

/// The build log after "Stop Compile".
pub const STOP_COMPILE_NOTE: &'static str =
    "Stop Compile is not yet implemented.\n\nThe TeX worker will finish in the background; its result will arrive normally.";

/// The build log after "Toggle Full Screen".
pub const FULLSCREEN_NOTE: &'static str =
    "Toggle Full Screen routes through the standard window menu when implemented.";

/// The build log after "Keyboard Shortcuts".
pub const SHORTCUTS_NOTE: &'static str =
    "Keyboard shortcuts\n\n  ⌘N            New from starter template\n  ⌘O            Open…\n  ⌘S            Save\n  ⇧⌘S           Save As…\n  ⇧⌘R           Reload from disk\n  ⌘B            Compile manuscript\n  ⌘.            Stop compile\n  ⌘1            Toggle project sidebar\n  ⌘2            Toggle preview\n  ⇧⌘J           Toggle problems panel\n  ⌘=            Zoom preview in\n  ⌘-            Zoom preview out\n  ⌘0            Reset preview zoom\n  ⌘9            Toggle fit page\n  ⇧⌘T           Next theme\n  ⌥⌘T           Previous theme\n  ⌃⌘F           Toggle full screen";

/// The build log when a compile is queued.
pub const COMPILE_QUEUED_NOTE: &'static str =
    "Compilation queued.\n\nIn a full editor this would debounce and parse diagnostics.";

/// The parts of the window the menu and the toolbar switch.
#[derive(Clone, Copy, Debug, PartialEq, Eq, Structural)]
pub struct ViewState {
    pub theme: ThemePreset,
    pub show_file_tree: bool,
    pub show_preview: bool,
    pub problems_expanded: bool,
    /// The preview zoom in percent.
    pub preview_zoom: u32,
    pub fit_page: bool,
}

/// The smallest zoom the menu goes down to.
pub const MIN_ZOOM: u32 = 50;

/// The largest zoom the menu goes up to.
pub const MAX_ZOOM: u32 = 300;

/// What the editor does besides changing its view after a menu command.
#[derive(Clone, Copy, Debug)]
pub enum MenuAction {
    /// Nothing more.
    Nothing,
    /// Put the starter document into the editor; the log shows the note.
    RestoreStarter(&'static str),
    /// Write the editor content to its file.
    Save,
    /// Read the editor content back from its file.
    Reload,
    /// Start a compile.
    Compile,
    /// Set the build status to idle; the log shows the note.
    StopCompile(&'static str),
    /// Show a note in the build log.
    ShowLog(&'static str),
}

impl ViewState {
    /// Whether the zoom is within the menu's bounds.
    pub open spec fn wf(self) -> bool {
        MIN_ZOOM <= self.preview_zoom <= MAX_ZOOM
    }

    /// The view state after `c`.
    pub open spec fn after(self, c: AppMenuCommand) -> ViewState {
        match c {
            AppMenuCommand::OpenFile | AppMenuCommand::SaveFileAs
            | AppMenuCommand::ToggleFullscreen | AppMenuCommand::ShowKeyboardShortcuts => ViewState {
                problems_expanded: true,
                ..self
            },
            AppMenuCommand::ToggleProjectSidebar => ViewState {
                show_file_tree: !self.show_file_tree,
                ..self
            },
            AppMenuCommand::TogglePreview => ViewState { show_preview: !self.show_preview, ..self },
            AppMenuCommand::ToggleProblems => ViewState {
                problems_expanded: !self.problems_expanded,
                ..self
            },
            AppMenuCommand::NextTheme => ViewState { theme: self.theme.advance(1), ..self },
            AppMenuCommand::PreviousTheme => ViewState { theme: self.theme.advance(4), ..self },
            AppMenuCommand::PreviewZoomIn => ViewState {
                preview_zoom: if self.preview_zoom + 10 < MAX_ZOOM {
                    (self.preview_zoom + 10) as u32
                } else {
                    MAX_ZOOM
                },
                ..self
            },
            AppMenuCommand::PreviewZoomOut => ViewState {
                preview_zoom: if self.preview_zoom - 10 > MIN_ZOOM {
                    (self.preview_zoom - 10) as u32
                } else {
                    MIN_ZOOM
                },
                ..self
            },
            AppMenuCommand::PreviewResetZoom => ViewState { preview_zoom: 100, ..self },
            AppMenuCommand::PreviewToggleFitPage => ViewState { fit_page: !self.fit_page, ..self },
            _ => self,
        }
    }

    /// The window as it opens: the Midnight theme, sidebar and preview
    /// shown, problems collapsed, the preview at 100% and fit to the page.
    pub fn new() -> (s: Self)
        ensures
            s == (ViewState {
                theme: ThemePreset::Midnight,
                show_file_tree: true,
                show_preview: true,
                problems_expanded: false,
                preview_zoom: 100,
                fit_page: true,
            }),
            s.wf(),
    {
        ViewState {
            theme: ThemePreset::Midnight,
            show_file_tree: true,
            show_preview: true,
            problems_expanded: false,
            preview_zoom: 100,
            fit_page: true,
        }
    }

    /// Applies a menu command to the view and says what else to do.
    pub fn apply_command(&mut self, c: AppMenuCommand) -> (a: MenuAction)
        requires
            old(self).wf(),
        ensures
            *final(self) == old(self).after(c),
            final(self).wf(),
            a == (match c {
                AppMenuCommand::NewStarterDocument => MenuAction::RestoreStarter(
                    STARTER_RESTORED_NOTE,
                ),
                AppMenuCommand::OpenFile => MenuAction::ShowLog(OPEN_FILE_NOTE),
                AppMenuCommand::SaveFile => MenuAction::Save,
                AppMenuCommand::SaveFileAs => MenuAction::ShowLog(SAVE_AS_NOTE),
                AppMenuCommand::ReloadFile => MenuAction::Reload,
                AppMenuCommand::Compile => MenuAction::Compile,
                AppMenuCommand::StopCompile => MenuAction::StopCompile(STOP_COMPILE_NOTE),
                AppMenuCommand::ToggleFullscreen => MenuAction::ShowLog(FULLSCREEN_NOTE),
                AppMenuCommand::ShowKeyboardShortcuts => MenuAction::ShowLog(SHORTCUTS_NOTE),
                _ => MenuAction::Nothing,
            }),
    {
        match c {
            AppMenuCommand::NewStarterDocument => MenuAction::RestoreStarter(STARTER_RESTORED_NOTE),
            AppMenuCommand::OpenFile => {
                self.problems_expanded = true;
                MenuAction::ShowLog(OPEN_FILE_NOTE)
            },
            AppMenuCommand::SaveFile => MenuAction::Save,
            AppMenuCommand::SaveFileAs => {
                self.problems_expanded = true;
                MenuAction::ShowLog(SAVE_AS_NOTE)
            },
            AppMenuCommand::ReloadFile => MenuAction::Reload,
            AppMenuCommand::Compile => MenuAction::Compile,
            AppMenuCommand::StopCompile => MenuAction::StopCompile(STOP_COMPILE_NOTE),
            AppMenuCommand::ToggleProjectSidebar => {
                self.show_file_tree = !self.show_file_tree;
                MenuAction::Nothing
            },
            AppMenuCommand::TogglePreview => {
                self.show_preview = !self.show_preview;
                MenuAction::Nothing
            },
            AppMenuCommand::ToggleProblems => {
                self.problems_expanded = !self.problems_expanded;
                MenuAction::Nothing
            },
            AppMenuCommand::NextTheme => {
                self.theme = self.theme.next();
                MenuAction::Nothing
            },
            AppMenuCommand::PreviousTheme => {
                self.theme = self.theme.previous();
                MenuAction::Nothing
            },
            AppMenuCommand::PreviewZoomIn => {
                let z = self.preview_zoom + 10;
                self.preview_zoom = if z < MAX_ZOOM {
                    z
                } else {
                    MAX_ZOOM
                };
                MenuAction::Nothing
            },
            AppMenuCommand::PreviewZoomOut => {
                let z = self.preview_zoom - 10;
                self.preview_zoom = if z > MIN_ZOOM {
                    z
                } else {
                    MIN_ZOOM
                };
                MenuAction::Nothing
            },
            AppMenuCommand::PreviewResetZoom => {
                self.preview_zoom = 100;
                MenuAction::Nothing
            },
            AppMenuCommand::PreviewToggleFitPage => {
                self.fit_page = !self.fit_page;
                MenuAction::Nothing
            },
            AppMenuCommand::ToggleFullscreen => {
                self.problems_expanded = true;
                MenuAction::ShowLog(FULLSCREEN_NOTE)
            },
            AppMenuCommand::ShowKeyboardShortcuts => {
                self.problems_expanded = true;
                MenuAction::ShowLog(SHORTCUTS_NOTE)
            },
        }
    }

    /// The preview toolbar's "−" button: ten points down, not below 60%.
    pub fn zoom_out_button(&mut self)
        requires
            old(self).wf(),
        ensures
            *final(self) == (ViewState {
                preview_zoom: if old(self).preview_zoom - 10 > 60 {
                    (old(self).preview_zoom - 10) as u32
                } else {
                    60
                },
                ..*old(self)
            }),
            final(self).wf(),
    {
        let z = self.preview_zoom - 10;
        self.preview_zoom = if z > 60 {
            z
        } else {
            60
        };
    }

    /// The preview toolbar's "+" button: ten points up, not above 180%.
    pub fn zoom_in_button(&mut self)
        requires
            old(self).wf(),
        ensures
            *final(self) == (ViewState {
                preview_zoom: if old(self).preview_zoom + 10 < 180 {
                    (old(self).preview_zoom + 10) as u32
                } else {
                    180
                },
                ..*old(self)
            }),
            final(self).wf(),
    {
        let z = self.preview_zoom + 10;
        self.preview_zoom = if z < 180 {
            z
        } else {
            180
        };
    }
}

/// Every menu command keeps the zoom within the menu's bounds, and a
/// toggle or a theme step is undone by its counterpart.
pub proof fn lemma_menu_commands_undo(s: ViewState)
    requires
        s.wf(),
    ensures
        forall|c: AppMenuCommand| #[trigger] s.after(c).wf(),
        s.after(AppMenuCommand::ToggleProjectSidebar).after(AppMenuCommand::ToggleProjectSidebar)
            == s,
        s.after(AppMenuCommand::TogglePreview).after(AppMenuCommand::TogglePreview) == s,
        s.after(AppMenuCommand::ToggleProblems).after(AppMenuCommand::ToggleProblems) == s,
        s.after(AppMenuCommand::PreviewToggleFitPage).after(AppMenuCommand::PreviewToggleFitPage)
            == s,
        s.after(AppMenuCommand::NextTheme).after(AppMenuCommand::PreviousTheme) == s,
        s.after(AppMenuCommand::PreviousTheme).after(AppMenuCommand::NextTheme) == s,
        s.after(AppMenuCommand::PreviewResetZoom).preview_zoom == 100,
{
}

/// Zooming in and then out from inside the bounds, away from the top,
/// comes back to the same zoom.
pub proof fn lemma_zoom_in_out(s: ViewState)
    requires
        s.wf(),
        s.preview_zoom + 10 <= MAX_ZOOM,
        s.preview_zoom >= MIN_ZOOM,
    ensures
        s.after(AppMenuCommand::PreviewZoomIn).after(AppMenuCommand::PreviewZoomOut) == s,
{
}

/// What the file watcher remembers between two looks at the file.
pub struct FileWatch {
    /// The content it last saw, if any.
    pub last_seen: Option<String>,
}

/// The views of an optional string.
pub open spec fn opt_view(o: Option<String>) -> Option<Seq<char>> {
    match o {
        Some(s) => Some(s@),
        None => None,
    }
}

/// One look at the file: the content now remembered, and whether the
/// content is reported as a change from outside. The editor's own last
/// write is never reported; other content is reported once.
pub open spec fn watch_step(
    last_seen: Option<Seq<char>>,
    current: Seq<char>,
    last_written: Seq<char>,
) -> (Option<Seq<char>>, bool) {
    if current == last_written {
        (Some(current), false)
    } else if last_seen == Some(current) {
        (last_seen, false)
    } else {
        (Some(current), true)
    }
}

impl FileWatch {
    /// A watcher that has not looked yet.
    pub fn new() -> (w: Self)
        ensures
            w.last_seen is None,
    {
        FileWatch { last_seen: None }
    }

    /// Looks at the file content `current`, given what the editor last
    /// wrote; returns the content when it is a change from outside.
    pub fn observe(&mut self, current: String, last_written: &str) -> (changed: Option<String>)
        ensures
            opt_view(final(self).last_seen) == watch_step(
                opt_view(old(self).last_seen),
                current@,
                last_written@,
            ).0,
            changed is Some == watch_step(opt_view(old(self).last_seen), current@, last_written@).1,
            changed matches Some(c) ==> c@ == current@,
    {
        if str_eq(current.as_str(), last_written) {
            self.last_seen = Some(current);
            return None;
        }
        let seen = match &self.last_seen {
            Some(s) => str_eq(s.as_str(), current.as_str()),
            None => false,
        };
        if seen {
            None
        } else {
            self.last_seen = Some(current.clone());
            Some(current)
        }
    }
}

/// The editor's own writes are never reported as outside changes, and the
/// same outside content is reported once however often it is seen.
pub proof fn lemma_watch_reports_once(
    last_seen: Option<Seq<char>>,
    current: Seq<char>,
    last_written: Seq<char>,
)
    ensures
        !watch_step(last_seen, last_written, last_written).1,
        !watch_step(watch_step(last_seen, current, last_written).0, current, last_written).1,
{
}

/// The autosave line before the first save: `Autosave on · <path>`.
pub fn autosave_pending_status(path: &str) -> (r: String)
    ensures
        r@ == "Autosave on · "@ + path@,
{
    prefixed("Autosave on · ", path)
}

/// The autosave line after a background save.
pub fn autosave_status(result: &Result<(), String>, path: &str) -> (r: String)
    ensures
        r@ == (match result {
            Ok(_) => "Autosaved · "@ + path@,
            Err(e) => "Autosave failed · "@ + e@,
        }),
{
    match result {
        Ok(_) => prefixed("Autosaved · ", path),
        Err(e) => prefixed("Autosave failed · ", e.as_str()),
    }
}

/// The autosave line after "Save".
pub fn save_status(result: &Result<(), String>, path: &str) -> (r: String)
    ensures
        r@ == (match result {
            Ok(_) => "Saved · "@ + path@,
            Err(e) => "Save failed · "@ + e@,
        }),
{
    match result {
        Ok(_) => prefixed("Saved · ", path),
        Err(e) => prefixed("Save failed · ", e.as_str()),
    }
}

/// The autosave line after "Reload from disk" read the file.
pub fn reload_status(path: &str) -> (r: String)
    ensures
        r@ == "Reloaded · "@ + path@,
{
    prefixed("Reloaded · ", path)
}

/// The build log after "Reload from disk" failed.
pub fn reload_failure_log(err: &str) -> (r: String)
    ensures
        r@ == "Reload failed.\n\n"@ + err@,
{
    prefixed("Reload failed.\n\n", err)
}

/// What a build step shows: the build status, the build log, and whether
/// the problems panel opens.
pub struct BuildReport {
    pub pdf_status: String,
    pub compile_log: String,
    pub open_problems: bool,
}

/// `n` in decimal.
pub fn count_text(n: usize) -> (r: String)
    ensures
        r@ == crate::compiler::digits(n as nat),
{
    let mut r = String::new();
    proof {
        reveal_strlit("");
    }
    crate::compiler::push_digits(&mut r, n as u64);
    r
}

/// The report when a compile is queued.
pub fn compile_queued() -> (r: BuildReport)
    ensures
        r.pdf_status@ == COMPILING_STATUS@,
        r.compile_log@ == COMPILE_QUEUED_NOTE@,
        !r.open_problems,
{
    BuildReport {
        pdf_status: str_to_string(COMPILING_STATUS),
        compile_log: str_to_string(COMPILE_QUEUED_NOTE),
        open_problems: false,
    }
}

/// The build status of a compile that produced `pdf_len` bytes.
pub open spec fn compiled_status(pdf_len: nat) -> Seq<char> {
    "Compiled PDF successfully: "@ + crate::compiler::digits(pdf_len) + " bytes"@
}

/// The report after a compile produced `pdf_len` bytes of PDF and the
/// preview rendered `rendered` pages (or failed with a message).
pub fn compile_succeeded(pdf_len: usize, rendered: &Result<usize, String>) -> (r: BuildReport)
    ensures
        (match rendered {
            Ok(pages) => {
                &&& r.pdf_status@ == compiled_status(pdf_len as nat)
                &&& r.compile_log@ == "Build finished successfully.\n\nOutput size: "@
                    + crate::compiler::digits(pdf_len as nat) + " bytes\nPages rendered: "@
                    + crate::compiler::digits(*pages as nat)
                    + "\nStatus: PDF rendered and ready for preview."@
                &&& !r.open_problems
            },
            Err(e) => {
                &&& r.pdf_status@ == "Render Error: "@ + e@
                &&& r.compile_log@ == "PDF render failed after a successful TeX build.\n\n"@
                    + r.pdf_status@
                &&& r.open_problems
            },
        }),
{
    let len_text = count_text(pdf_len);
    match rendered {
        Ok(pages) => {
            let mut status = str_to_string("Compiled PDF successfully: ");
            status.append(len_text.as_str());
            status.append(" bytes");
            let mut log = str_to_string("Build finished successfully.\n\nOutput size: ");
            log.append(len_text.as_str());
            log.append(" bytes\nPages rendered: ");
            let pages_text = count_text(*pages);
            log.append(pages_text.as_str());
            log.append("\nStatus: PDF rendered and ready for preview.");
            BuildReport { pdf_status: status, compile_log: log, open_problems: false }
        },
        Err(e) => {
            let message = prefixed("Render Error: ", e.as_str());
            let log = prefixed(
                "PDF render failed after a successful TeX build.\n\n",
                message.as_str(),
            );
            BuildReport { pdf_status: message, compile_log: log, open_problems: true }
        },
    }
}

/// The report after a compile failed with `err`.
pub fn compile_failed(err: &str) -> (r: BuildReport)
    ensures
        r.pdf_status@ == "Compile Error: "@ + err@,
        r.compile_log@ == "Compilation failed.\n\n"@ + err@
            + "\n\nA production editor would parse this into structured diagnostics."@,
        r.open_problems,
{
    let message = prefixed("Compile Error: ", err);
    let mut log = prefixed("Compilation failed.\n\n", err);
    log.append("\n\nA production editor would parse this into structured diagnostics.");
    BuildReport { pdf_status: message, compile_log: log, open_problems: true }
}

/// What each build step reports is what the preview then shows: in
/// progress while compiling, synced after a compile, unavailable after a
/// failed compile or render.
pub proof fn lemma_reports_classify(pdf_len: nat, err: Seq<char>)
    ensures
        preview_summary_of(COMPILING_STATUS@) == "In progress"@,
        preview_summary_of(compiled_status(pdf_len)) == "Synced"@,
        preview_summary_of("Compile Error: "@ + err) == "Unavailable"@,
        preview_summary_of("Render Error: "@ + err) == "Unavailable"@,
        build_tone_of(compiled_status(pdf_len)) == StatusTone::Success,
        build_tone_of("Compile Error: "@ + err) == StatusTone::Error,
{
    reveal_strlit("Compiling...");
    reveal_strlit("Compile Error");
    reveal_strlit("Render Error");
    reveal_strlit("Compiled PDF successfully");
    reveal_strlit("Compiled PDF successfully: ");
    reveal_strlit("Compile Error: ");
    reveal_strlit("Render Error: ");
    let c = compiled_status(pdf_len);
    assert(c.take(25) =~= "Compiled PDF successfully"@);
    assert(c.take(13) != "Compile Error"@) by {
        assert(c.take(13)[8] != "Compile Error"@[8]);
    }
    assert(c.take(12) != "Render Error"@) by {
        assert(c.take(12)[0] != "Render Error"@[0]);
    }
    assert(("Compile Error: "@ + err).take(13) =~= "Compile Error"@);
    assert(("Render Error: "@ + err).take(12) =~= "Render Error"@);
    assert(("Render Error: "@ + err).take(13) != "Compile Error"@) by {
        assert(("Render Error: "@ + err).take(13)[0] != "Compile Error"@[0]);
    }
}

/// `{:?}` of a string: the string in double quotes, with escapes.
pub uninterp spec fn debug_str(s: Seq<char>) -> Seq<char>;

/// `format!("{:?}", s)`: the `Debug` form of a string, quoted and escaped.
#[verifier::external_body]
fn debug_quoted(s: &str) -> (r: String)
    ensures
        r@ == debug_str(s@),
{
    format!("{:?}", s)
}

/// The `Debug` form of a status, as the session log shows it.
pub open spec fn status_debug(s: CollabStatusView) -> Seq<char> {
    match s {
        CollabStatusView::Idle => "Idle"@,
        CollabStatusView::ConnectingToSignaling => "ConnectingToSignaling"@,
        CollabStatusView::WaitingForPeer => "WaitingForPeer"@,
        CollabStatusView::Joining => "Joining"@,
        CollabStatusView::Negotiating => "Negotiating"@,
        CollabStatusView::Connected => "Connected"@,
        CollabStatusView::Disconnected(r) => "Disconnected("@ + debug_str(r) + ")"@,
    }
}

fn status_debug_text(s: &CollabStatus) -> (r: String)
    ensures
        r@ == status_debug(s@),
{
    match s {
        CollabStatus::Idle => str_to_string("Idle"),
        CollabStatus::ConnectingToSignaling => str_to_string("ConnectingToSignaling"),
        CollabStatus::WaitingForPeer => str_to_string("WaitingForPeer"),
        CollabStatus::Joining => str_to_string("Joining"),
        CollabStatus::Negotiating => str_to_string("Negotiating"),
        CollabStatus::Connected => str_to_string("Connected"),
        CollabStatus::Disconnected(reason) => {
            let mut r = prefixed("Disconnected(", debug_quoted(reason.as_str()).as_str());
            r.append(")");
            r
        },
    }
}

/// The session log line of an event, if it has one.
pub open spec fn log_entry(e: CollabEventView) -> Option<Seq<char>> {
    match e {
        CollabEventView::StatusChanged(s) => Some("status: "@ + status_debug(s)),
        CollabEventView::RoomCode(c) => Some("room created: "@ + c),
        CollabEventView::PeerJoined => Some("peer joined"@),
        CollabEventView::PeerLeft => Some("peer left"@),
        CollabEventView::RemoteSyncApplied => None,
        CollabEventView::Info(m) => Some(m),
        CollabEventView::Error(m) => Some("error: "@ + m),
    }
}

/// The text the events add to the session log: one line per logged event.
pub open spec fn log_text(es: Seq<CollabEventView>) -> Seq<char>
    decreases es.len(),
{
    if es.len() == 0 {
        Seq::empty()
    } else {
        log_text(es.drop_last()) + match log_entry(es.last()) {
            Some(l) => l + "\n"@,
            None => Seq::empty(),
        }
    }
}

/// The status after the events: the last one announced, if any.
pub open spec fn last_status(es: Seq<CollabEventView>) -> Option<CollabStatusView>
    decreases es.len(),
{
    if es.len() == 0 {
        None
    } else {
        match es.last() {
            CollabEventView::StatusChanged(s) => Some(s),
            _ => last_status(es.drop_last()),
        }
    }
}

/// The room code shown after the events: the last one announced, or
/// nothing once the peer left; unchanged when neither happened.
pub open spec fn last_room_code(es: Seq<CollabEventView>) -> Option<Seq<char>>
    decreases es.len(),
{
    if es.len() == 0 {
        None
    } else {
        match es.last() {
            CollabEventView::RoomCode(c) => Some(c),
            CollabEventView::PeerLeft => Some(Seq::empty()),
            _ => last_room_code(es.drop_last()),
        }
    }
}

/// Whether a remote edit was applied among the events.
pub open spec fn remote_applied_in(es: Seq<CollabEventView>) -> bool {
    exists|i: int| 0 <= i < es.len() && es[i] is RemoteSyncApplied
}

/// What the editor updates after draining the session's events.
pub struct SessionUpdate {
    /// Text to append to the session log.
    pub log: String,
    /// The new session status, when one was announced.
    pub status: Option<CollabStatus>,
    /// The new room code, when it changed.
    pub room_code: Option<String>,
    /// Whether the document must be reloaded from the buffer.
    pub remote_applied: bool,
}

/// Folds the drained events into the updates of the session widgets.
pub fn session_update(events: &Vec<CollabEvent>) -> (u: SessionUpdate)
    ensures
        u.log@ == log_text(crate::collab::event_views(events@)),
        (match u.status {
            Some(s) => Some(s@),
            None => None::<CollabStatusView>,
        }) == last_status(crate::collab::event_views(events@)),
        opt_view(u.room_code) == last_room_code(crate::collab::event_views(events@)),
        u.remote_applied == remote_applied_in(crate::collab::event_views(events@)),
{
    let ghost es = crate::collab::event_views(events@);
    let mut log = String::new();
    let mut status: Option<CollabStatus> = None;
    let mut room_code: Option<String> = None;
    let mut remote_applied = false;
    let mut i: usize = 0;
    proof {
        reveal_strlit("");
        assert(es.take(0) =~= Seq::<CollabEventView>::empty());
    }
    while i < events.len()
        invariant
            i <= events@.len(),
            es == crate::collab::event_views(events@),
            log@ == log_text(es.take(i as int)),
            (match status {
                Some(s) => Some(s@),
                None => None::<CollabStatusView>,
            }) == last_status(es.take(i as int)),
            opt_view(room_code) == last_room_code(es.take(i as int)),
            remote_applied == remote_applied_in(es.take(i as int)),
        decreases events@.len() - i,
    {
        let ghost t = es.take(i + 1);
        proof {
            assert(t.drop_last() =~= es.take(i as int));
            assert(t.last() == events@[i as int]@);
        }
        match &events[i] {
            CollabEvent::StatusChanged(s) => {
                let line = prefixed("status: ", status_debug_text(s).as_str());
                log.append(line.as_str());
                log.append("\n");
                status = Some(crate::collab::copy_status(s));
            },
            CollabEvent::RoomCode(c) => {
                let line = prefixed("room created: ", c.as_str());
                log.append(line.as_str());
                log.append("\n");
                room_code = Some(c.clone());
            },
            CollabEvent::PeerJoined => {
                log.append("peer joined");
                log.append("\n");
            },
            CollabEvent::PeerLeft => {
                log.append("peer left");
                log.append("\n");
                room_code = Some(String::new());
            },
            CollabEvent::RemoteSyncApplied => {
                remote_applied = true;
            },
            CollabEvent::Info(m) => {
                log.append(m.as_str());
                log.append("\n");
            },
            CollabEvent::Error(m) => {
                let line = prefixed("error: ", m.as_str());
                log.append(line.as_str());
                log.append("\n");
            },
        }
        proof {
            assert(log@ =~= log_text(t));
            if remote_applied_in(t) && !(t.last() is RemoteSyncApplied) {
                let j = choose|j: int| 0 <= j < t.len() && t[j] is RemoteSyncApplied;
                assert(es.take(i as int)[j] is RemoteSyncApplied);
            }
            if t.last() is RemoteSyncApplied {
                assert(t[i as int] is RemoteSyncApplied);
            }
            if remote_applied_in(es.take(i as int)) {
                let j = choose|j: int| 0 <= j < i && es.take(i as int)[j] is RemoteSyncApplied;
                assert(t[j] is RemoteSyncApplied);
            }
        }
        i += 1;
    }
    proof {
        assert(es.take(i as int) =~= es);
    }
    SessionUpdate { log, status, room_code, remote_applied }
}


/// What the autosave worker hears next: newer editor content, or a quiet
/// spell (the debounce delay passed with nothing new, or the editor went
/// away).
pub enum AutosaveInput {
    Content(String),
    Quiet,
}

/// One step of the autosave debounce, from the content waiting to be
/// written: newer content replaces it and nothing is written yet; a quiet
/// spell writes what waits, if anything, and leaves nothing waiting. Only
/// the last content of a burst of edits is written.
pub fn autosave_step(pending: Option<String>, input: AutosaveInput) -> (r: (
    Option<String>,
    Option<String>,
))
    ensures
        match input {
            AutosaveInput::Content(s) => r.0 == Some(s) && r.1 is None,
            AutosaveInput::Quiet => r.0 is None && r.1 == pending,
        },
{
    match input {
        AutosaveInput::Content(s) => (Some(s), None),
        AutosaveInput::Quiet => (None, pending),
    }
}

} // verus!
