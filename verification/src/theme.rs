//! The panel's colors: resolving configured ones, and the slice of the
//! applied theme that rows are drawn with.

use vstd::prelude::*;

verus! {

/// A resolved theme: channel triples and a font size in points.
#[derive(Debug, Clone, Copy, PartialEq, Eq)]
pub struct Theme {
    pub background: (u8, u8, u8),
    pub foreground: (u8, u8, u8),
    pub accent: (u8, u8, u8),
    pub font_size: u32,
}

/// What result rows need of a theme.
#[derive(Debug, Clone, Copy, PartialEq, Eq)]
pub struct RowStyle {
    pub foreground: (u8, u8, u8),
    pub accent: (u8, u8, u8),
    pub font_size: u32,
}

/// The theme section of a config: each color as its hex text reads, none
/// where the text is no color.
#[derive(Debug, Clone, Copy, PartialEq, Eq)]
pub struct ThemeConfig {
    pub background: Option<(u8, u8, u8)>,
    pub foreground: Option<(u8, u8, u8)>,
    pub accent: Option<(u8, u8, u8)>,
    pub font_size: u32,
}

/// The color that a config gives, or else the built-in one.
pub open spec fn color_or(c: Option<(u8, u8, u8)>, built_in: (u8, u8, u8)) -> (u8, u8, u8) {
    match c {
        Some(c) => c,
        None => built_in,
    }
}

impl Theme {
    /// Resolves a config's theme section. A color that does not read falls
    /// back to the built-in one.
    pub fn from_config(cfg: &ThemeConfig) -> (r: Theme)
        ensures
            r == (Theme {
                background: color_or(cfg.background, (28, 28, 33)),
                foreground: color_or(cfg.foreground, (255, 255, 255)),
                accent: color_or(cfg.accent, (90, 200, 250)),
                font_size: cfg.font_size,
            }),
    {
        Theme {
            background: cfg.background.unwrap_or((28, 28, 33)),
            foreground: cfg.foreground.unwrap_or((255, 255, 255)),
            accent: cfg.accent.unwrap_or((90, 200, 250)),
            font_size: cfg.font_size,
        }
    }
}

impl Default for Theme {
    /// The built-in panel look.
    fn default() -> (r: Self)
        ensures
            r == (Theme {
                background: (0x1C, 0x1C, 0x21),
                foreground: (0xFF, 0xFF, 0xFF),
                accent: (0x5A, 0xC8, 0xFA),
                font_size: 22,
            }),
    {
        Theme::from_config(
            &ThemeConfig { background: None, foreground: None, accent: None, font_size: 22 },
        )
    }
}

/// A color as one number, 0x00RRGGBB.
pub open spec fn packed(c: (u8, u8, u8)) -> int {
    c.0 * 0x10000 + c.1 * 0x100 + c.2
}

/// Packs a color into one number, 0x00RRGGBB.
pub fn pack(c: (u8, u8, u8)) -> (r: u32)
    ensures
        r == packed(c),
{
    let (x, y, z): (u32, u32, u32) = (c.0 as u32, c.1 as u32, c.2 as u32);
    assert((x << 16) | (y << 8) | z == x * 0x10000 + y * 0x100 + z) by (bit_vector)
        requires
            x < 256,
            y < 256,
            z < 256,
    ;
    (x << 16) | (y << 8) | z
}

/// Takes the three color channels out of a packed number.
pub fn unpack(n: u32) -> (r: (u8, u8, u8))
    ensures
        r.0 == n / 0x10000 % 0x100,
        r.1 == n / 0x100 % 0x100,
        r.2 == n % 0x100,
{
    assert((n >> 16) & 0xff == n / 0x10000 % 0x100) by (bit_vector);
    assert((n >> 8) & 0xff == n / 0x100 % 0x100) by (bit_vector);
    assert(n & 0xff == n % 0x100) by (bit_vector);
    (((n >> 16) & 0xff) as u8, ((n >> 8) & 0xff) as u8, (n & 0xff) as u8)
}

/// The three channels come out of a packed color as they went in.
pub proof fn law_unpacking_undoes_packing(c: (u8, u8, u8))
    ensures
        packed(c) / 0x10000 % 0x100 == c.0,
        packed(c) / 0x100 % 0x100 == c.1,
        packed(c) % 0x100 == c.2,
{
}

/// The row-facing parts of the theme that was applied last.
#[derive(Debug, Clone, Copy, PartialEq, Eq)]
pub struct Applied {
    pub applied: bool,
    pub foreground: u32,
    pub accent: u32,
    pub font_size: u32,
}

/// What the panel window and its query field are to be styled with.
#[derive(Debug, Clone, Copy, PartialEq, Eq)]
pub struct PanelColors {
    pub background: (u8, u8, u8),
    pub foreground: (u8, u8, u8),
    pub font_size: u32,
}

impl Applied {
    /// Nothing applied yet.
    pub fn none() -> (r: Applied)
        ensures
            r.style() is None,
    {
        Applied { applied: false, foreground: 0, accent: 0, font_size: 0 }
    }

    /// The style that rows are drawn with, none before a theme was applied.
    pub open spec fn style(self) -> Option<RowStyle> {
        if self.applied {
            Some(
                RowStyle {
                    foreground: (
                        (self.foreground / 0x10000 % 0x100) as u8,
                        (self.foreground / 0x100 % 0x100) as u8,
                        (self.foreground % 0x100) as u8,
                    ),
                    accent: (
                        (self.accent / 0x10000 % 0x100) as u8,
                        (self.accent / 0x100 % 0x100) as u8,
                        (self.accent % 0x100) as u8,
                    ),
                    font_size: self.font_size,
                },
            )
        } else {
            None
        }
    }
}

/// Applies a theme: records what rows need of it, and returns what to style
/// the panel with.
pub fn apply(state: &mut Applied, theme: &Theme) -> (r: PanelColors)
    ensures
        final(state).style() == Some(
            RowStyle {
                foreground: theme.foreground,
                accent: theme.accent,
                font_size: theme.font_size,
            },
        ),
        r == (PanelColors {
            background: theme.background,
            foreground: theme.foreground,
            font_size: theme.font_size,
        }),
{
    proof {
        law_unpacking_undoes_packing(theme.foreground);
        law_unpacking_undoes_packing(theme.accent);
    }
    *state =
    Applied {
        applied: true,
        foreground: pack(theme.foreground),
        accent: pack(theme.accent),
        font_size: theme.font_size,
    };
    PanelColors {
        background: theme.background,
        foreground: theme.foreground,
        font_size: theme.font_size,
    }
}

/// The row-facing slice of the applied theme, or none where none was applied.
pub fn row_style(state: &Applied) -> (r: Option<RowStyle>)
    ensures
        r == state.style(),
{
    if !state.applied {
        return None;
    }
    Some(
        RowStyle {
            foreground: unpack(state.foreground),
            accent: unpack(state.accent),
            font_size: state.font_size,
        },
    )
}

/// A configured color counts, and the built-in one where none reads.
pub proof fn law_configured_colors_count(c: (u8, u8, u8), built_in: (u8, u8, u8))
    ensures
        color_or(Some(c), built_in) == c,
        color_or(None, built_in) == built_in,
{
}

/// Rows are drawn with the colors and the size that were applied, and with none
/// before that.
pub proof fn law_rows_take_the_applied_style(state: Applied)
    ensures
        state.style() is Some <==> state.applied,
        state.style() matches Some(s) ==> {
            &&& packed(s.foreground) == state.foreground % 0x100_0000
            &&& packed(s.accent) == state.accent % 0x100_0000
            &&& s.font_size == state.font_size
        },
{
    let f = state.foreground;
    let a = state.accent;
    assert((f / 0x10000 % 0x100) * 0x10000 + (f / 0x100 % 0x100) * 0x100 + f % 0x100 == f
        % 0x100_0000) by (bit_vector);
    assert((a / 0x10000 % 0x100) * 0x10000 + (a / 0x100 % 0x100) * 0x100 + a % 0x100 == a
        % 0x100_0000) by (bit_vector);
}

} // verus!
