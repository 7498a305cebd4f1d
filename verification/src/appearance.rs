//! The macOS look: the system appearance decides between a dark and a
//! light theme, each with the system's own colours.
use vstd::prelude::*;

verus! {

/// The window appearance macOS reports.
#[derive(Debug, Clone, Copy, PartialEq, Eq, Structural)]
pub enum Appearance {
    Light,
    VibrantLight,
    Dark,
    VibrantDark,
}

/// The theme the macOS look starts from.
#[derive(Debug, Clone, Copy, PartialEq, Eq, Structural)]
pub enum BaseTheme {
    TokyoNight,
    FlexokiLight,
}

/// The thirteen theme colours, as `0xRRGGBB`.
#[derive(Debug, Clone, Copy, PartialEq, Eq, Structural)]
pub struct Palette {
    pub background: u32,
    pub surface: u32,
    pub inset: u32,
    pub foreground: u32,
    pub secondary: u32,
    pub bright: u32,
    pub accent: u32,
    pub on_accent: u32,
    pub selection: u32,
    pub border: u32,
    pub danger: u32,
    pub warning: u32,
    pub success: u32,
}

/// The theme for one appearance.
#[derive(Debug, Clone, Copy, PartialEq, Eq, Structural)]
pub struct MacTheme {
    pub dark: bool,
    pub base: BaseTheme,
    pub palette: Palette,
}

/// Whether `appearance` is one of the dark ones.
pub open spec fn spec_is_dark(appearance: Appearance) -> bool {
    appearance == Appearance::Dark || appearance == Appearance::VibrantDark
}

/// The system colours of the dark look.
pub open spec fn dark_palette() -> Palette {
    Palette {
        background: 0x1c_1c_1e,
        surface: 0x24_24_26,
        inset: 0x15_15_17,
        foreground: 0xd7_d7_dc,
        secondary: 0x98_98_9f,
        bright: 0xf5_f5_f7,
        accent: 0x0a_84_ff,
        on_accent: 0xff_ff_ff,
        selection: 0x34_34_38,
        border: 0x48_48_4d,
        danger: 0xff_69_61,
        warning: 0xe9_b4_5a,
        success: 0x55_bd_70,
    }
}

/// The system colours of the light look.
pub open spec fn light_palette() -> Palette {
    Palette {
        background: 0xf5_f5_f7,
        surface: 0xff_ff_ff,
        inset: 0xea_ea_ed,
        foreground: 0x30_30_36,
        secondary: 0x64_64_6c,
        bright: 0x18_18_1b,
        accent: 0x00_6c_db,
        on_accent: 0xff_ff_ff,
        selection: 0xdb_e9_fa,
        border: 0xc6_c6_ce,
        danger: 0xc6_2e_26,
        warning: 0x8e_5e_0d,
        success: 0x24_7d_3b,
    }
}

/// Whether `appearance` is one of the dark ones.
pub fn is_dark(appearance: Appearance) -> (r: bool)
    ensures
        r == spec_is_dark(appearance),
{
    match appearance {
        Appearance::Dark | Appearance::VibrantDark => true,
        Appearance::Light | Appearance::VibrantLight => false,
    }
}

/// The theme for `appearance`: Tokyo Night with the dark system colours, or Flexoki Light with
/// the light ones.
pub fn mac_theme(appearance: Appearance) -> (t: MacTheme)
    ensures
        t.dark == spec_is_dark(appearance),
        t.base == (if spec_is_dark(appearance) {
            BaseTheme::TokyoNight
        } else {
            BaseTheme::FlexokiLight
        }),
        t.palette == (if spec_is_dark(appearance) {
            dark_palette()
        } else {
            light_palette()
        }),
{
    if is_dark(appearance) {
        MacTheme {
            dark: true,
            base: BaseTheme::TokyoNight,
            palette: Palette {
                background: 0x1c_1c_1e,
                surface: 0x24_24_26,
                inset: 0x15_15_17,
                foreground: 0xd7_d7_dc,
                secondary: 0x98_98_9f,
                bright: 0xf5_f5_f7,
                accent: 0x0a_84_ff,
                on_accent: 0xff_ff_ff,
                selection: 0x34_34_38,
                border: 0x48_48_4d,
                danger: 0xff_69_61,
                warning: 0xe9_b4_5a,
                success: 0x55_bd_70,
            },
        }
    } else {
        MacTheme {
            dark: false,
            base: BaseTheme::FlexokiLight,
            palette: Palette {
                background: 0xf5_f5_f7,
                surface: 0xff_ff_ff,
                inset: 0xea_ea_ed,
                foreground: 0x30_30_36,
                secondary: 0x64_64_6c,
                bright: 0x18_18_1b,
                accent: 0x00_6c_db,
                on_accent: 0xff_ff_ff,
                selection: 0xdb_e9_fa,
                border: 0xc6_c6_ce,
                danger: 0xc6_2e_26,
                warning: 0x8e_5e_0d,
                success: 0x24_7d_3b,
            },
        }
    }
}

} // verus!
