//! The interface's themes: their names, how a saved one is read back, and their colors.
use crate::text::{chars_of, join, same_text, text_of, trim};
use vstd::prelude::*;

verus! {

#[derive(Clone, Copy, PartialEq, Eq, Structural, Debug)]
pub enum Theme {
    CrtDark,
    PaperLight,
    LunaBlue,
    ClassicPlatinum,
    SkyDiary,
}

impl Default for Theme {
    fn default() -> (r: Self)
        ensures
            r == Theme::CrtDark,
    {
        Theme::CrtDark
    }
}

#[derive(Clone, Copy, PartialEq, Eq, Structural, Debug)]
pub struct Rgb {
    pub r: u8,
    pub g: u8,
    pub b: u8,
}

/// The colors that a theme draws with.
#[derive(Clone, Copy, PartialEq, Eq, Structural, Debug)]
pub struct Colors {
    /// Whether they go over a dark interface's.
    pub dark: bool,
    pub panel: Rgb,
    pub window: Rgb,
    pub faint: Rgb,
    pub extreme: Rgb,
    pub inactive: Rgb,
    pub hovered: Rgb,
    pub active: Rgb,
    pub text: Rgb,
    pub border: Rgb,
    pub hyperlink: Rgb,
    pub accent: Rgb,
}

/// All themes, in the order the menu lists them.
pub open spec fn all() -> Seq<Theme> {
    seq![
        Theme::CrtDark,
        Theme::PaperLight,
        Theme::LunaBlue,
        Theme::ClassicPlatinum,
        Theme::SkyDiary,
    ]
}

/// All themes, in the order the menu lists them.
pub fn themes() -> (r: [Theme; 5])
    ensures
        r@ == all(),
{
    let r: [Theme; 5] = [
        Theme::CrtDark,
        Theme::PaperLight,
        Theme::LunaBlue,
        Theme::ClassicPlatinum,
        Theme::SkyDiary,
    ];
    assert(r@ =~= all());
    r
}

impl Theme {
    /// What a theme is saved as.
    pub open spec fn id_text(self) -> Seq<char> {
        match self {
            Theme::CrtDark => "crt-dark"@,
            Theme::PaperLight => "paper-light"@,
            Theme::LunaBlue => "luna-blue"@,
            Theme::ClassicPlatinum => "classic-platinum"@,
            Theme::SkyDiary => "sky-diary"@,
        }
    }

    pub fn id(self) -> (r: &'static str)
        ensures
            r@ == self.id_text(),
    {
        match self {
            Theme::CrtDark => "crt-dark",
            Theme::PaperLight => "paper-light",
            Theme::LunaBlue => "luna-blue",
            Theme::ClassicPlatinum => "classic-platinum",
            Theme::SkyDiary => "sky-diary",
        }
    }

    /// What the menu calls a theme.
    pub open spec fn name_text(self) -> Seq<char> {
        match self {
            Theme::CrtDark => "CRT Dark"@,
            Theme::PaperLight => "Paper Light"@,
            Theme::LunaBlue => "Luna Blue"@,
            Theme::ClassicPlatinum => "Classic Platinum"@,
            Theme::SkyDiary => "Sky Diary"@,
        }
    }

    pub fn name(self) -> (r: &'static str)
        ensures
            r@ == self.name_text(),
    {
        match self {
            Theme::CrtDark => "CRT Dark",
            Theme::PaperLight => "Paper Light",
            Theme::LunaBlue => "Luna Blue",
            Theme::ClassicPlatinum => "Classic Platinum",
            Theme::SkyDiary => "Sky Diary",
        }
    }

    /// What a theme looks like, in words.
    pub open spec fn description_text(self) -> Seq<char> {
        match self {
            Theme::CrtDark => "Low-glare charcoal with a phosphor-green accent."@,
            Theme::PaperLight => "A clear, neutral light mode for bright rooms."@,
            Theme::LunaBlue => "Blue-and-olive early-2000s desktop colors."@,
            Theme::ClassicPlatinum => "Cool gray panels inspired by classic desktop chrome."@,
            Theme::SkyDiary => "Airy blue windows, pink highlights and soft cloud colors."@,
        }
    }

    pub fn description(self) -> (r: &'static str)
        ensures
            r@ == self.description_text(),
    {
        match self {
            Theme::CrtDark => "Low-glare charcoal with a phosphor-green accent.",
            Theme::PaperLight => "A clear, neutral light mode for bright rooms.",
            Theme::LunaBlue => "Blue-and-olive early-2000s desktop colors.",
            Theme::ClassicPlatinum => "Cool gray panels inspired by classic desktop chrome.",
            Theme::SkyDiary => "Airy blue windows, pink highlights and soft cloud colors.",
        }
    }

    /// The theme that is saved as `id`.
    pub open spec fn of_id(id: Seq<char>) -> Option<Theme> {
        if id == Theme::CrtDark.id_text() {
            Some(Theme::CrtDark)
        } else if id == Theme::PaperLight.id_text() {
            Some(Theme::PaperLight)
        } else if id == Theme::LunaBlue.id_text() {
            Some(Theme::LunaBlue)
        } else if id == Theme::ClassicPlatinum.id_text() {
            Some(Theme::ClassicPlatinum)
        } else if id == Theme::SkyDiary.id_text() {
            Some(Theme::SkyDiary)
        } else {
            None
        }
    }

    pub fn from_id(id: &str) -> (r: Option<Theme>)
        ensures
            r == Self::of_id(id@),
    {
        if same_text(id, "crt-dark") {
            Some(Theme::CrtDark)
        } else if same_text(id, "paper-light") {
            Some(Theme::PaperLight)
        } else if same_text(id, "luna-blue") {
            Some(Theme::LunaBlue)
        } else if same_text(id, "classic-platinum") {
            Some(Theme::ClassicPlatinum)
        } else if same_text(id, "sky-diary") {
            Some(Theme::SkyDiary)
        } else {
            None
        }
    }

    pub open spec fn colors_of(self) -> Colors {
        match self {
            Theme::CrtDark => Colors {
                dark: true,
                panel: Rgb { r: 22, g: 25, b: 29 },
                window: Rgb { r: 29, g: 33, b: 38 },
                faint: Rgb { r: 38, g: 44, b: 49 },
                extreme: Rgb { r: 12, g: 14, b: 17 },
                inactive: Rgb { r: 45, g: 51, b: 56 },
                hovered: Rgb { r: 57, g: 70, b: 65 },
                active: Rgb { r: 45, g: 92, b: 67 },
                text: Rgb { r: 224, g: 232, b: 228 },
                border: Rgb { r: 76, g: 88, b: 84 },
                hyperlink: Rgb { r: 112, g: 218, b: 167 },
                accent: Rgb { r: 100, g: 224, b: 154 },
            },
            Theme::PaperLight => Colors {
                dark: false,
                panel: Rgb { r: 238, g: 241, b: 245 },
                window: Rgb { r: 250, g: 251, b: 253 },
                faint: Rgb { r: 226, g: 231, b: 238 },
                extreme: Rgb { r: 255, g: 255, b: 255 },
                inactive: Rgb { r: 225, g: 231, b: 239 },
                hovered: Rgb { r: 210, g: 224, b: 242 },
                active: Rgb { r: 178, g: 205, b: 238 },
                text: Rgb { r: 31, g: 39, b: 51 },
                border: Rgb { r: 162, g: 174, b: 190 },
                hyperlink: Rgb { r: 35, g: 91, b: 168 },
                accent: Rgb { r: 44, g: 102, b: 184 },
            },
            Theme::LunaBlue => Colors {
                dark: false,
                panel: Rgb { r: 230, g: 235, b: 217 },
                window: Rgb { r: 248, g: 246, b: 232 },
                faint: Rgb { r: 217, g: 224, b: 196 },
                extreme: Rgb { r: 255, g: 255, b: 248 },
                inactive: Rgb { r: 221, g: 226, b: 201 },
                hovered: Rgb { r: 198, g: 216, b: 241 },
                active: Rgb { r: 136, g: 176, b: 229 },
                text: Rgb { r: 27, g: 42, b: 69 },
                border: Rgb { r: 62, g: 102, b: 166 },
                hyperlink: Rgb { r: 24, g: 75, b: 160 },
                accent: Rgb { r: 49, g: 106, b: 197 },
            },
            Theme::ClassicPlatinum => Colors {
                dark: false,
                panel: Rgb { r: 215, g: 216, b: 221 },
                window: Rgb { r: 237, g: 237, b: 240 },
                faint: Rgb { r: 199, g: 201, b: 208 },
                extreme: Rgb { r: 252, g: 252, b: 252 },
                inactive: Rgb { r: 205, g: 207, b: 213 },
                hovered: Rgb { r: 189, g: 194, b: 211 },
                active: Rgb { r: 157, g: 164, b: 193 },
                text: Rgb { r: 25, g: 25, b: 31 },
                border: Rgb { r: 119, g: 121, b: 133 },
                hyperlink: Rgb { r: 73, g: 67, b: 139 },
                accent: Rgb { r: 92, g: 87, b: 153 },
            },
            Theme::SkyDiary => Colors {
                dark: false,
                panel: Rgb { r: 218, g: 239, b: 252 },
                window: Rgb { r: 247, g: 251, b: 255 },
                faint: Rgb { r: 205, g: 229, b: 248 },
                extreme: Rgb { r: 255, g: 255, b: 255 },
                inactive: Rgb { r: 225, g: 240, b: 252 },
                hovered: Rgb { r: 255, g: 218, b: 234 },
                active: Rgb { r: 244, g: 170, b: 204 },
                text: Rgb { r: 38, g: 60, b: 91 },
                border: Rgb { r: 105, g: 157, b: 207 },
                hyperlink: Rgb { r: 50, g: 119, b: 186 },
                accent: Rgb { r: 239, g: 116, b: 166 },
            },
        }
    }

    pub fn colors(self) -> (r: Colors)
        ensures
            r == self.colors_of(),
    {
        match self {
            Theme::CrtDark => Colors {
                dark: true,
                panel: Rgb { r: 22, g: 25, b: 29 },
                window: Rgb { r: 29, g: 33, b: 38 },
                faint: Rgb { r: 38, g: 44, b: 49 },
                extreme: Rgb { r: 12, g: 14, b: 17 },
                inactive: Rgb { r: 45, g: 51, b: 56 },
                hovered: Rgb { r: 57, g: 70, b: 65 },
                active: Rgb { r: 45, g: 92, b: 67 },
                text: Rgb { r: 224, g: 232, b: 228 },
                border: Rgb { r: 76, g: 88, b: 84 },
                hyperlink: Rgb { r: 112, g: 218, b: 167 },
                accent: Rgb { r: 100, g: 224, b: 154 },
            },
            Theme::PaperLight => Colors {
                dark: false,
                panel: Rgb { r: 238, g: 241, b: 245 },
                window: Rgb { r: 250, g: 251, b: 253 },
                faint: Rgb { r: 226, g: 231, b: 238 },
                extreme: Rgb { r: 255, g: 255, b: 255 },
                inactive: Rgb { r: 225, g: 231, b: 239 },
                hovered: Rgb { r: 210, g: 224, b: 242 },
                active: Rgb { r: 178, g: 205, b: 238 },
                text: Rgb { r: 31, g: 39, b: 51 },
                border: Rgb { r: 162, g: 174, b: 190 },
                hyperlink: Rgb { r: 35, g: 91, b: 168 },
                accent: Rgb { r: 44, g: 102, b: 184 },
            },
            Theme::LunaBlue => Colors {
                dark: false,
                panel: Rgb { r: 230, g: 235, b: 217 },
                window: Rgb { r: 248, g: 246, b: 232 },
                faint: Rgb { r: 217, g: 224, b: 196 },
                extreme: Rgb { r: 255, g: 255, b: 248 },
                inactive: Rgb { r: 221, g: 226, b: 201 },
                hovered: Rgb { r: 198, g: 216, b: 241 },
                active: Rgb { r: 136, g: 176, b: 229 },
                text: Rgb { r: 27, g: 42, b: 69 },
                border: Rgb { r: 62, g: 102, b: 166 },
                hyperlink: Rgb { r: 24, g: 75, b: 160 },
                accent: Rgb { r: 49, g: 106, b: 197 },
            },
            Theme::ClassicPlatinum => Colors {
                dark: false,
                panel: Rgb { r: 215, g: 216, b: 221 },
                window: Rgb { r: 237, g: 237, b: 240 },
                faint: Rgb { r: 199, g: 201, b: 208 },
                extreme: Rgb { r: 252, g: 252, b: 252 },
                inactive: Rgb { r: 205, g: 207, b: 213 },
                hovered: Rgb { r: 189, g: 194, b: 211 },
                active: Rgb { r: 157, g: 164, b: 193 },
                text: Rgb { r: 25, g: 25, b: 31 },
                border: Rgb { r: 119, g: 121, b: 133 },
                hyperlink: Rgb { r: 73, g: 67, b: 139 },
                accent: Rgb { r: 92, g: 87, b: 153 },
            },
            Theme::SkyDiary => Colors {
                dark: false,
                panel: Rgb { r: 218, g: 239, b: 252 },
                window: Rgb { r: 247, g: 251, b: 255 },
                faint: Rgb { r: 205, g: 229, b: 248 },
                extreme: Rgb { r: 255, g: 255, b: 255 },
                inactive: Rgb { r: 225, g: 240, b: 252 },
                hovered: Rgb { r: 255, g: 218, b: 234 },
                active: Rgb { r: 244, g: 170, b: 204 },
                text: Rgb { r: 38, g: 60, b: 91 },
                border: Rgb { r: 105, g: 157, b: 207 },
                hyperlink: Rgb { r: 50, g: 119, b: 186 },
                accent: Rgb { r: 239, g: 116, b: 166 },
            },
        }
    }

    /// The color of what is selected.
    pub fn accent(self) -> (r: Rgb)
        ensures
            r == self.colors_of().accent,
    {
        self.colors().accent
    }
}

/// No two themes are saved alike, so a saved theme is read back as itself.
pub proof fn saved_themes_read_back(theme: Theme)
    ensures
        Theme::of_id(theme.id_text()) == Some(theme),
{
    reveal_strlit("crt-dark");
    reveal_strlit("paper-light");
    reveal_strlit("luna-blue");
    reveal_strlit("classic-platinum");
    reveal_strlit("sky-diary");
    assert(Theme::CrtDark.id_text().len() == 8);
    assert(Theme::PaperLight.id_text().len() == 11);
    assert(Theme::LunaBlue.id_text().len() == 9 && Theme::LunaBlue.id_text()[0] == 'l');
    assert(Theme::ClassicPlatinum.id_text().len() == 16);
    assert(Theme::SkyDiary.id_text().len() == 9 && Theme::SkyDiary.id_text()[0] == 's');
}

// -------------------------------------------------------------------------------------------
// The saved theme
// -------------------------------------------------------------------------------------------

/// Why a saved theme cannot be used.
#[derive(Clone, Copy, PartialEq, Eq, Structural, Debug)]
pub enum ThemeError {
    /// More than 64 bytes.
    TooLong,
    /// No theme's id.
    Unknown,
}

/// The theme in a file that keeps it.
pub open spec fn saved_theme(saved: Seq<char>) -> Result<Theme, ThemeError> {
    if crate::text::bytes(saved) > 64 {
        Err(ThemeError::TooLong)
    } else {
        match Theme::of_id(crate::text::trimmed(saved)) {
            Some(theme) => Ok(theme),
            None => Err(ThemeError::Unknown),
        }
    }
}

/// Reads the theme in a file that keeps it.
pub fn read_theme(saved: &str) -> (r: Result<Theme, ThemeError>)
    ensures
        r == saved_theme(saved@),
{
    if saved.len() > 64 {
        return Err(ThemeError::TooLong);
    }
    let chars: Vec<char> = chars_of(saved);
    let id: String = text_of(trim(chars.as_slice()));
    match Theme::from_id(id.as_str()) {
        Some(theme) => Ok(theme),
        None => Err(ThemeError::Unknown),
    }
}

/// What a file that keeps a theme holds: its id, on a line.
pub fn theme_text(theme: Theme) -> (r: String)
    ensures
        r@ == theme.id_text() + "\n"@,
{
    join(theme.id(), "\n")
}

/// A theme that was kept is read back.
pub proof fn kept_themes_read_back(theme: Theme)
    ensures
        saved_theme(theme.id_text() + "\n"@) == Ok::<Theme, ThemeError>(theme),
{
    reveal_strlit("crt-dark");
    reveal_strlit("paper-light");
    reveal_strlit("luna-blue");
    reveal_strlit("classic-platinum");
    reveal_strlit("sky-diary");
    reveal_strlit("\n");
    let id = theme.id_text();
    let saved = id + "\n"@;
    assert(saved.len() == id.len() + 1 <= 17);
    crate::text::ascii_takes_a_byte_each(saved);
    lemma_line_is_trimmed(saved, id);
    saved_themes_read_back(theme);
}

proof fn lemma_line_is_trimmed(saved: Seq<char>, id: Seq<char>)
    requires
        0 < id.len() <= 16,
        saved == id + "\n"@,
        !crate::text::is_space(id[0]),
        !crate::text::is_space(id.last()),
    ensures
        crate::text::trimmed(saved) == id,
{
    reveal_strlit("\n");
    assert(saved[0] == id[0]);
    assert(saved.last() == '\n');
    assert(saved.drop_last() =~= id);
    reveal_with_fuel(crate::text::trimmed, 2);
}

} // verus!
