//! The slice of `~/.config/raven/desktop.toml` that is followed: theme mode, accent and window
//! transparency. Raven Settings owns the file; every key is optional.

use vstd::prelude::*;

use crate::paths;
use crate::paths::join_path;
use crate::text::{same_text, to_chars};

verus! {

pub const DEFAULT_ACCENT: &'static str = "#7AA2F7";

#[derive(Debug, Clone, Copy, PartialEq, Eq, Structural)]
pub enum ThemeMode {
    Light,
    Dark,
    Auto,
}

impl ThemeMode {
    /// The mode that a word in the file stands for.
    pub fn named(word: &str) -> (r: Option<ThemeMode>)
        ensures
            r == (if word@ == "light"@ {
                Some(ThemeMode::Light)
            } else if word@ == "dark"@ {
                Some(ThemeMode::Dark)
            } else if word@ == "auto"@ {
                Some(ThemeMode::Auto)
            } else {
                None
            }),
    {
        if same_text(word, "light") {
            Some(ThemeMode::Light)
        } else if same_text(word, "dark") {
            Some(ThemeMode::Dark)
        } else if same_text(word, "auto") {
            Some(ThemeMode::Auto)
        } else {
            None
        }
    }
}

impl Default for ThemeMode {
    fn default() -> (r: Self)
        ensures
            r == ThemeMode::Dark,
    {
        ThemeMode::Dark
    }
}

#[derive(Debug, Clone)]
pub struct Appearance {
    pub theme_mode: ThemeMode,
    pub accent: String,
    pub transparency: bool,
}

impl Appearance {
    pub open spec fn is_default(self) -> bool {
        &&& self.theme_mode == ThemeMode::Dark
        &&& self.accent@ == DEFAULT_ACCENT@
        &&& self.transparency
    }

    /// The appearance with what the file says, and the defaults for what it does not say.
    pub fn with(
        theme_mode: Option<ThemeMode>,
        accent: Option<String>,
        transparency: Option<bool>,
    ) -> (r: Self)
        ensures
            r.theme_mode == (match theme_mode {
                Some(t) => t,
                None => ThemeMode::Dark,
            }),
            r.accent@ == (match accent {
                Some(a) => a@,
                None => DEFAULT_ACCENT@,
            }),
            r.transparency == (match transparency {
                Some(t) => t,
                None => true,
            }),
    {
        Appearance {
            theme_mode: match theme_mode {
                Some(t) => t,
                None => ThemeMode::Dark,
            },
            accent: match accent {
                Some(a) => a,
                None => DEFAULT_ACCENT.to_owned(),
            },
            transparency: match transparency {
                Some(t) => t,
                None => true,
            },
        }
    }
}

impl Default for Appearance {
    fn default() -> (r: Self)
        ensures
            r.is_default(),
    {
        Appearance {
            theme_mode: ThemeMode::Dark,
            accent: DEFAULT_ACCENT.to_owned(),
            transparency: true,
        }
    }
}

#[derive(Debug, Clone)]
pub struct Desktop {
    pub appearance: Appearance,
}

impl Default for Desktop {
    fn default() -> (r: Self)
        ensures
            r.appearance.is_default(),
    {
        Desktop { appearance: Appearance::default() }
    }
}

pub open spec fn hex_digit(c: char) -> bool {
    ||| '0' <= c <= '9'
    ||| 'a' <= c <= 'f'
    ||| 'A' <= c <= 'F'
}

/// A colour as `#RRGGBB`.
pub open spec fn is_colour(s: Seq<char>) -> bool {
    &&& s.len() == 7
    &&& s[0] == '#'
    &&& forall|i: int| 1 <= i < 7 ==> hex_digit(#[trigger] s[i])
}

pub fn is_hex(s: &str) -> (r: bool)
    ensures
        r == is_colour(s@),
{
    let c = to_chars(s);
    if c.len() != 7 || c[0] != '#' {
        return false;
    }
    let mut i: usize = 1;
    while i < 7
        invariant
            1 <= i <= 7,
            c@.len() == 7,
            c@ == s@,
            forall|j: int| 1 <= j < i ==> hex_digit(#[trigger] c@[j]),
        decreases 7 - i,
    {
        let x = c[i];
        if !(('0' <= x && x <= '9') || ('a' <= x && x <= 'f') || ('A' <= x && x <= 'F')) {
            assert(!hex_digit(s@[i as int]));
            return false;
        }
        i += 1;
    }
    true
}

impl Desktop {
    /// The accent as `#RRGGBB`, or the default when the file's is not one.
    pub fn accent(&self) -> (r: &str)
        ensures
            r@ == if is_colour(self.appearance.accent@) {
                self.appearance.accent@
            } else {
                DEFAULT_ACCENT@
            },
    {
        if is_hex(&self.appearance.accent) {
            self.appearance.accent.as_str()
        } else {
            DEFAULT_ACCENT
        }
    }
}

/// The directory that Raven's settings are kept in.
pub open spec fn raven_dir(xdg_config_home: Option<Seq<char>>, home: Option<Seq<char>>) -> Seq<
    char,
> {
    let base = match (xdg_config_home, home) {
        (Some(x), _) => x,
        (None, Some(h)) => paths::below(h, ".config"@),
        (None, None) => "."@,
    };
    paths::below(base, "raven"@)
}

/// Where Settings writes the file, given `XDG_CONFIG_HOME` and `HOME`. It may not exist yet.
pub fn path(xdg_config_home: Option<&str>, home: Option<&str>) -> (r: String)
    ensures
        r@ == paths::below(
            raven_dir(paths::text_of(xdg_config_home), paths::text_of(home)),
            "desktop.toml"@,
        ),
{
    let base = match xdg_config_home {
        Some(x) => x.to_owned(),
        None => match home {
            Some(h) => join_path(h, ".config"),
            None => ".".to_owned(),
        },
    };
    join_path(&join_path(&base, "raven"), "desktop.toml")
}

// ---------------------------------------------------------------------------
// Laws
// ---------------------------------------------------------------------------

/// The default accent is a colour, so that there always is one.
pub proof fn law_the_default_accent_is_a_colour()
    ensures
        is_colour(DEFAULT_ACCENT@),
{
    reveal_strlit("#7AA2F7");
}

/// A colour is a hash sign and six hexadecimal digits, and nothing else is one.
pub proof fn law_colours_are_six_digits(s: Seq<char>, i: int)
    ensures
        is_colour(s) ==> s.len() == 7 && s[0] == '#',
        is_colour(s) && 1 <= i < 7 ==> {
            let n = s[i] as u32;
            48 <= n <= 57 || 65 <= n <= 70 || 97 <= n <= 102
        },
        s.len() == 7 && s[0] == '#' && (forall|k: int|
            1 <= k < 7 ==> ('0' <= #[trigger] s[k] <= '9' || 'A' <= s[k] <= 'F' || 'a' <= s[k]
                <= 'f')) ==> is_colour(s),
{
}

/// Raven's settings lie where `XDG_CONFIG_HOME` says, else in the home directory, else here.
pub proof fn law_raven_settings_are_found(xdg: Seq<char>, home: Seq<char>, any: Option<Seq<char>>)
    requires
        xdg.len() > 0,
        xdg.last() != '/',
        home.len() > 0,
        home.last() != '/',
    ensures
        raven_dir(Some(xdg), any) == xdg + "/raven"@,
        raven_dir(None, Some(home)) == home + "/.config/raven"@,
        raven_dir(None, None) == "./raven"@,
{
    reveal_strlit("raven");
    reveal_strlit("/raven");
    reveal_strlit("/.config/raven");
    reveal_strlit(".config");
    reveal_strlit("./raven");
    reveal_strlit(".");
    assert(xdg.push('/') + "raven"@ =~= xdg + "/raven"@);
    let c = home.push('/') + ".config"@;
    assert(c.last() == 'g');
    assert(c.push('/') + "raven"@ =~= home + "/.config/raven"@);
    assert("."@.push('/') + "raven"@ =~= "./raven"@);
}

/// Without a file the look is dark and transparent, in the default accent.
pub proof fn law_the_default_look(a: Appearance)
    requires
        a.is_default(),
    ensures
        a.theme_mode is Dark,
        a.accent@ == "#7AA2F7"@,
        a.transparency,
{
}

/// The accent is the one that is set where that is a colour, and the default one where it is not.
pub proof fn law_the_accent_is_always_a_colour(d: &Desktop, r: &str)
    requires
        call_ensures(Desktop::accent, (d,), r),
    ensures
        is_colour(r@),
        is_colour(d.appearance.accent@) ==> r@ == d.appearance.accent@,
        !is_colour(d.appearance.accent@) ==> r@ == "#7AA2F7"@,
{
    law_the_default_accent_is_a_colour();
}

/// Each word for the theme means its mode, and no other word does.
pub proof fn law_modes_have_their_words(word: &str, r: Option<ThemeMode>)
    requires
        call_ensures(ThemeMode::named, (word,), r),
    ensures
        r == Some(ThemeMode::Light) <==> word@ == "light"@,
        r == Some(ThemeMode::Dark) <==> word@ == "dark"@,
        r == Some(ThemeMode::Auto) <==> word@ == "auto"@,
{
    reveal_strlit("light");
    reveal_strlit("dark");
    reveal_strlit("auto");
    let firsts = ("light"@[0], "dark"@[0], "auto"@[0]);
}

} // verus!
