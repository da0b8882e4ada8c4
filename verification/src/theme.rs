use vstd::prelude::*;

use crate::app::KeyCode;

verus! {

/// A terminal color, as the renderer's color model names it.
#[derive(Clone, Copy, Debug, PartialEq, Eq, Structural)]
pub enum Color {
    Reset,
    Black,
    Red,
    Green,
    Yellow,
    Blue,
    Magenta,
    Cyan,
    Gray,
    DarkGray,
    LightRed,
    LightGreen,
    LightYellow,
    LightBlue,
    LightMagenta,
    LightCyan,
    White,
    Rgb(u8, u8, u8),
    Indexed(u8),
}

/// The built-in terminal color schemes available from wtop's theme menu.
#[derive(Clone, Copy, Debug, Default, PartialEq, Eq, Structural)]
pub enum Theme {
    #[default]
    Default,
    Monochromatic,
    BlackOnWhite,
    LightTerminal,
    BlackNight,
    BrokenGray,
    Nord,
    Ocean,
    Evergreen,
    Dusk,
}

/// A semantic palette used by every part of the terminal interface.
///
/// Keeping colors named by purpose instead of using terminal colors directly
/// lets a theme change the entire dashboard coherently.
#[derive(Clone, Copy, Debug, PartialEq, Eq, Structural)]
pub struct Palette {
    pub background: Color,
    pub foreground: Color,
    pub border: Color,
    pub accent: Color,
    pub muted: Color,
    pub selection_foreground: Color,
    pub selection_background: Color,
    pub good: Color,
    pub warning: Color,
    pub critical: Color,
}

/// The number of built-in themes.
pub const THEME_COUNT: usize = 10;

/// The position of a theme in the menu order (`Theme::ALL`).
pub open spec fn theme_index(theme: Theme) -> int {
    match theme {
        Theme::Default => 0,
        Theme::Monochromatic => 1,
        Theme::BlackOnWhite => 2,
        Theme::LightTerminal => 3,
        Theme::BlackNight => 4,
        Theme::BrokenGray => 5,
        Theme::Nord => 6,
        Theme::Ocean => 7,
        Theme::Evergreen => 8,
        Theme::Dusk => 9,
    }
}

/// The theme at a position of the menu order.
pub open spec fn theme_at(index: int) -> Theme {
    if index == 0 {
        Theme::Default
    } else if index == 1 {
        Theme::Monochromatic
    } else if index == 2 {
        Theme::BlackOnWhite
    } else if index == 3 {
        Theme::LightTerminal
    } else if index == 4 {
        Theme::BlackNight
    } else if index == 5 {
        Theme::BrokenGray
    } else if index == 6 {
        Theme::Nord
    } else if index == 7 {
        Theme::Ocean
    } else if index == 8 {
        Theme::Evergreen
    } else {
        Theme::Dusk
    }
}

/// The menu label of each theme.
pub open spec fn label_of(theme: Theme) -> Seq<char> {
    match theme {
        Theme::Default => "Default"@,
        Theme::Monochromatic => "Monochromatic"@,
        Theme::BlackOnWhite => "Black on White"@,
        Theme::LightTerminal => "Light Terminal"@,
        Theme::BlackNight => "Black Night"@,
        Theme::BrokenGray => "Broken Gray"@,
        Theme::Nord => "Nord"@,
        Theme::Ocean => "Ocean"@,
        Theme::Evergreen => "Evergreen"@,
        Theme::Dusk => "Dusk"@,
    }
}

/// The colors of each theme.
pub open spec fn palette_of(theme: Theme) -> Palette {
    match theme {
        Theme::Default => Palette {
            background: Color::Reset,
            foreground: Color::White,
            border: Color::DarkGray,
            accent: Color::Cyan,
            muted: Color::DarkGray,
            selection_foreground: Color::White,
            selection_background: Color::Blue,
            good: Color::Green,
            warning: Color::Yellow,
            critical: Color::Red,
        },
        Theme::Monochromatic => Palette {
            background: Color::Black,
            foreground: Color::Gray,
            border: Color::DarkGray,
            accent: Color::White,
            muted: Color::DarkGray,
            selection_foreground: Color::Black,
            selection_background: Color::White,
            good: Color::Gray,
            warning: Color::White,
            critical: Color::White,
        },
        Theme::BlackOnWhite => Palette {
            background: Color::White,
            foreground: Color::Black,
            border: Color::DarkGray,
            accent: Color::Black,
            muted: Color::Gray,
            selection_foreground: Color::White,
            selection_background: Color::Black,
            good: Color::Black,
            warning: Color::Red,
            critical: Color::Red,
        },
        Theme::LightTerminal => Palette {
            background: Color::White,
            foreground: Color::DarkGray,
            border: Color::DarkGray,
            accent: Color::LightBlue,
            muted: Color::DarkGray,
            selection_foreground: Color::White,
            selection_background: Color::LightBlue,
            good: Color::Green,
            warning: Color::Red,
            critical: Color::Red,
        },
        Theme::BlackNight => Palette {
            background: Color::Black,
            foreground: Color::Gray,
            border: Color::DarkGray,
            accent: Color::LightCyan,
            muted: Color::DarkGray,
            selection_foreground: Color::Black,
            selection_background: Color::LightCyan,
            good: Color::LightGreen,
            warning: Color::LightYellow,
            critical: Color::LightRed,
        },
        Theme::BrokenGray => Palette {
            background: Color::DarkGray,
            foreground: Color::White,
            border: Color::Gray,
            accent: Color::Gray,
            muted: Color::Gray,
            selection_foreground: Color::Black,
            selection_background: Color::Gray,
            good: Color::White,
            warning: Color::Gray,
            critical: Color::White,
        },
        Theme::Nord => Palette {
            background: Color::Rgb(46, 52, 64),
            foreground: Color::Rgb(216, 222, 233),
            border: Color::Rgb(76, 86, 106),
            accent: Color::Rgb(136, 192, 208),
            muted: Color::Rgb(129, 161, 193),
            selection_foreground: Color::Rgb(46, 52, 64),
            selection_background: Color::Rgb(136, 192, 208),
            good: Color::Rgb(163, 190, 140),
            warning: Color::Rgb(235, 203, 139),
            critical: Color::Rgb(191, 97, 106),
        },
        Theme::Ocean => Palette {
            background: Color::Rgb(15, 31, 45),
            foreground: Color::Rgb(220, 235, 245),
            border: Color::Rgb(70, 112, 140),
            accent: Color::Rgb(94, 200, 230),
            muted: Color::Rgb(139, 173, 194),
            selection_foreground: Color::Rgb(15, 31, 45),
            selection_background: Color::Rgb(94, 200, 230),
            good: Color::Rgb(115, 205, 150),
            warning: Color::Rgb(245, 195, 92),
            critical: Color::Rgb(245, 112, 112),
        },
        Theme::Evergreen => Palette {
            background: Color::Rgb(20, 36, 32),
            foreground: Color::Rgb(224, 239, 226),
            border: Color::Rgb(76, 118, 98),
            accent: Color::Rgb(117, 205, 165),
            muted: Color::Rgb(154, 184, 166),
            selection_foreground: Color::Rgb(20, 36, 32),
            selection_background: Color::Rgb(117, 205, 165),
            good: Color::Rgb(150, 214, 121),
            warning: Color::Rgb(241, 202, 106),
            critical: Color::Rgb(242, 126, 126),
        },
        Theme::Dusk => Palette {
            background: Color::Rgb(35, 29, 48),
            foreground: Color::Rgb(237, 229, 246),
            border: Color::Rgb(98, 82, 128),
            accent: Color::Rgb(183, 148, 244),
            muted: Color::Rgb(174, 158, 202),
            selection_foreground: Color::Rgb(35, 29, 48),
            selection_background: Color::Rgb(183, 148, 244),
            good: Color::Rgb(143, 210, 163),
            warning: Color::Rgb(246, 199, 111),
            critical: Color::Rgb(243, 130, 148),
        },
    }
}

impl Theme {
    /// Every built-in theme, in menu order.
    pub const ALL: [Theme; 10] = [
        Theme::Default,
        Theme::Monochromatic,
        Theme::BlackOnWhite,
        Theme::LightTerminal,
        Theme::BlackNight,
        Theme::BrokenGray,
        Theme::Nord,
        Theme::Ocean,
        Theme::Evergreen,
        Theme::Dusk,
    ];

    pub fn label(self) -> (label: &'static str)
        ensures
            label@ == label_of(self),
    {
        match self {
            Theme::Default => "Default",
            Theme::Monochromatic => "Monochromatic",
            Theme::BlackOnWhite => "Black on White",
            Theme::LightTerminal => "Light Terminal",
            Theme::BlackNight => "Black Night",
            Theme::BrokenGray => "Broken Gray",
            Theme::Nord => "Nord",
            Theme::Ocean => "Ocean",
            Theme::Evergreen => "Evergreen",
            Theme::Dusk => "Dusk",
        }
    }

    /// The position of this theme in `Theme::ALL`.
    fn position(self) -> (index: usize)
        ensures
            index == theme_index(self),
            index < THEME_COUNT,
            Theme::ALL@[index as int] == self,
    {
        match self {
            Theme::Default => 0,
            Theme::Monochromatic => 1,
            Theme::BlackOnWhite => 2,
            Theme::LightTerminal => 3,
            Theme::BlackNight => 4,
            Theme::BrokenGray => 5,
            Theme::Nord => 6,
            Theme::Ocean => 7,
            Theme::Evergreen => 8,
            Theme::Dusk => 9,
        }
    }

    /// The theme after this one in menu order, wrapping to the first.
    pub fn next(self) -> (next: Theme)
        ensures
            next == theme_at((theme_index(self) + 1) % 10),
    {
        let index = self.position();
        let all = Theme::ALL;
        all[(index + 1) % THEME_COUNT]
    }

    /// The theme before this one in menu order, wrapping to the last.
    pub fn previous(self) -> (previous: Theme)
        ensures
            previous == theme_at((theme_index(self) + 9) % 10),
    {
        let index = self.position();
        let all = Theme::ALL;
        all[(index + THEME_COUNT - 1) % THEME_COUNT]
    }

    pub fn palette(self) -> (palette: Palette)
        ensures
            palette == palette_of(self),
    {
        match self {
            Theme::Default => Palette {
                background: Color::Reset,
                foreground: Color::White,
                border: Color::DarkGray,
                accent: Color::Cyan,
                muted: Color::DarkGray,
                selection_foreground: Color::White,
                selection_background: Color::Blue,
                good: Color::Green,
                warning: Color::Yellow,
                critical: Color::Red,
            },
            Theme::Monochromatic => Palette {
                background: Color::Black,
                foreground: Color::Gray,
                border: Color::DarkGray,
                accent: Color::White,
                muted: Color::DarkGray,
                selection_foreground: Color::Black,
                selection_background: Color::White,
                good: Color::Gray,
                warning: Color::White,
                critical: Color::White,
            },
            Theme::BlackOnWhite => Palette {
                background: Color::White,
                foreground: Color::Black,
                border: Color::DarkGray,
                accent: Color::Black,
                muted: Color::Gray,
                selection_foreground: Color::White,
                selection_background: Color::Black,
                good: Color::Black,
                warning: Color::Red,
                critical: Color::Red,
            },
            Theme::LightTerminal => Palette {
                background: Color::White,
                foreground: Color::DarkGray,
                border: Color::DarkGray,
                accent: Color::LightBlue,
                muted: Color::DarkGray,
                selection_foreground: Color::White,
                selection_background: Color::LightBlue,
                good: Color::Green,
                warning: Color::Red,
                critical: Color::Red,
            },
            Theme::BlackNight => Palette {
                background: Color::Black,
                foreground: Color::Gray,
                border: Color::DarkGray,
                accent: Color::LightCyan,
                muted: Color::DarkGray,
                selection_foreground: Color::Black,
                selection_background: Color::LightCyan,
                good: Color::LightGreen,
                warning: Color::LightYellow,
                critical: Color::LightRed,
            },
            Theme::BrokenGray => Palette {
                background: Color::DarkGray,
                foreground: Color::White,
                border: Color::Gray,
                accent: Color::Gray,
                muted: Color::Gray,
                selection_foreground: Color::Black,
                selection_background: Color::Gray,
                good: Color::White,
                warning: Color::Gray,
                critical: Color::White,
            },
            Theme::Nord => Palette {
                background: Color::Rgb(46, 52, 64),
                foreground: Color::Rgb(216, 222, 233),
                border: Color::Rgb(76, 86, 106),
                accent: Color::Rgb(136, 192, 208),
                muted: Color::Rgb(129, 161, 193),
                selection_foreground: Color::Rgb(46, 52, 64),
                selection_background: Color::Rgb(136, 192, 208),
                good: Color::Rgb(163, 190, 140),
                warning: Color::Rgb(235, 203, 139),
                critical: Color::Rgb(191, 97, 106),
            },
            Theme::Ocean => Palette {
                background: Color::Rgb(15, 31, 45),
                foreground: Color::Rgb(220, 235, 245),
                border: Color::Rgb(70, 112, 140),
                accent: Color::Rgb(94, 200, 230),
                muted: Color::Rgb(139, 173, 194),
                selection_foreground: Color::Rgb(15, 31, 45),
                selection_background: Color::Rgb(94, 200, 230),
                good: Color::Rgb(115, 205, 150),
                warning: Color::Rgb(245, 195, 92),
                critical: Color::Rgb(245, 112, 112),
            },
            Theme::Evergreen => Palette {
                background: Color::Rgb(20, 36, 32),
                foreground: Color::Rgb(224, 239, 226),
                border: Color::Rgb(76, 118, 98),
                accent: Color::Rgb(117, 205, 165),
                muted: Color::Rgb(154, 184, 166),
                selection_foreground: Color::Rgb(20, 36, 32),
                selection_background: Color::Rgb(117, 205, 165),
                good: Color::Rgb(150, 214, 121),
                warning: Color::Rgb(241, 202, 106),
                critical: Color::Rgb(242, 126, 126),
            },
            Theme::Dusk => Palette {
                background: Color::Rgb(35, 29, 48),
                foreground: Color::Rgb(237, 229, 246),
                border: Color::Rgb(98, 82, 128),
                accent: Color::Rgb(183, 148, 244),
                muted: Color::Rgb(174, 158, 202),
                selection_foreground: Color::Rgb(35, 29, 48),
                selection_background: Color::Rgb(183, 148, 244),
                good: Color::Rgb(143, 210, 163),
                warning: Color::Rgb(246, 199, 111),
                critical: Color::Rgb(243, 130, 148),
            },
        }
    }
}

/// Moving to the next theme and back, or back and then forward, returns to
/// the theme one started from.
pub proof fn lemma_next_and_previous_are_inverse(theme: Theme)
    ensures
        theme_at((theme_index(theme_at((theme_index(theme) + 1) % 10)) + 9) % 10) == theme,
        theme_at((theme_index(theme_at((theme_index(theme) + 9) % 10)) + 1) % 10) == theme,
{
}

/// Cycling forward through the menu visits the themes in order and returns
/// to the start after `THEME_COUNT` steps: the theme `k` steps after `theme`
/// is the one at position `(index + k) % 10`.
pub proof fn lemma_cycling_wraps(theme: Theme, k: nat)
    ensures
        cycled(theme, k) == theme_at((theme_index(theme) + k) % 10),
        cycled(theme, 10) == theme,
    decreases k,
{
    lemma_cycled_position(theme, k);
    lemma_cycled_position(theme, 10);
    assert((theme_index(theme) + 10) % 10 == theme_index(theme));
}

proof fn lemma_cycled_position(theme: Theme, k: nat)
    ensures
        cycled(theme, k) == theme_at((theme_index(theme) + k) % 10),
    decreases k,
{
    if k > 0 {
        lemma_cycled_position(theme, (k - 1) as nat);
        let j = (theme_index(theme) + k - 1) % 10;
        assert(0 <= j < 10);
        assert(theme_index(theme_at(j)) == j);
        assert((j + 1) % 10 == (theme_index(theme) + k) % 10);
    }
}

/// The theme reached from `theme` by `k` calls of `next`.
pub open spec fn cycled(theme: Theme, k: nat) -> Theme
    decreases k,
{
    if k == 0 {
        theme
    } else {
        theme_at((theme_index(cycled(theme, (k - 1) as nat)) + 1) % 10)
    }
}

/// Every theme keeps text and selected text distinguishable from what lies
/// behind them.
pub proof fn lemma_palettes_keep_text_distinct(theme: Theme)
    ensures
        palette_of(theme).foreground != palette_of(theme).background,
        palette_of(theme).selection_foreground != palette_of(theme).selection_background,
{
}

/// The applied theme and, while the theme menu is open, the theme it
/// previews.
#[derive(Clone, Copy, Debug, Default, PartialEq, Eq)]
pub struct ThemeChoice {
    pub applied: Theme,
    pub menu: Option<Theme>,
}

/// What a key does to the theme choice, and whether the key was used:
/// `o` opens the menu on the applied theme; while it is open, Up and Down
/// preview the previous and next theme, Enter applies the previewed theme,
/// Esc closes the menu without applying, and every other key is ignored.
/// With the menu closed, no key but `o` is used.
pub open spec fn theme_key_effect(choice: ThemeChoice, key: KeyCode) -> (ThemeChoice, bool) {
    match choice.menu {
        None => if key == KeyCode::Char('o') {
            (ThemeChoice { applied: choice.applied, menu: Some(choice.applied) }, true)
        } else {
            (choice, false)
        },
        Some(previewed) => match key {
            KeyCode::Up => (
                ThemeChoice {
                    applied: choice.applied,
                    menu: Some(theme_at((theme_index(previewed) + 9) % 10)),
                },
                true,
            ),
            KeyCode::Down => (
                ThemeChoice {
                    applied: choice.applied,
                    menu: Some(theme_at((theme_index(previewed) + 1) % 10)),
                },
                true,
            ),
            KeyCode::Enter => (ThemeChoice { applied: previewed, menu: None }, true),
            KeyCode::Esc => (ThemeChoice { applied: choice.applied, menu: None }, true),
            _ => (choice, true),
        },
    }
}

impl ThemeChoice {
    /// The theme the dashboard is drawn in: the previewed one while the menu
    /// is open, otherwise the applied one.
    pub fn shown(&self) -> (theme: Theme)
        ensures
            theme == match self.menu {
                Some(previewed) => previewed,
                None => self.applied,
            },
    {
        match self.menu {
            Some(previewed) => previewed,
            None => self.applied,
        }
    }

    /// Applies one key press to the theme choice; returns whether the key
    /// was used, so that unused keys go on to the process table.
    pub fn handle_key(&mut self, key: KeyCode) -> (used: bool)
        ensures
            (*final(self), used) == theme_key_effect(*old(self), key),
    {
        match self.menu {
            None => {
                if key == KeyCode::Char('o') {
                    self.menu = Some(self.applied);
                    true
                } else {
                    false
                }
            },
            Some(previewed) => {
                match key {
                    KeyCode::Up => {
                        self.menu = Some(previewed.previous());
                    },
                    KeyCode::Down => {
                        self.menu = Some(previewed.next());
                    },
                    KeyCode::Enter => {
                        self.applied = previewed;
                        self.menu = None;
                    },
                    KeyCode::Esc => {
                        self.menu = None;
                    },
                    _ => {},
                }
                true
            },
        }
    }
}

/// Opening the theme menu and closing it with Esc leaves the applied theme
/// as it was, whatever was previewed in between; Enter applies exactly the
/// theme that was shown.
pub proof fn lemma_cancel_keeps_and_enter_applies_the_preview(choice: ThemeChoice)
    requires
        choice.menu is Some,
    ensures
        theme_key_effect(choice, KeyCode::Esc).0.applied == choice.applied,
        theme_key_effect(choice, KeyCode::Esc).0.menu is None,
        theme_key_effect(choice, KeyCode::Enter).0.applied == choice.menu->0,
        theme_key_effect(choice, KeyCode::Enter).0.menu is None,
        forall|key: KeyCode| (#[trigger] theme_key_effect(choice, key)).0.applied == choice.applied
            || key == KeyCode::Enter,
{
}

} // verus!
