//! Local display preferences and their single-string storage form.
//!
//! Preferences are stored as `v2|theme|density|motion|font|width`. The older
//! `v1|theme|density|motion` form is still read, with the newer fields at
//! their defaults. Anything else is rejected as a whole.
use vstd::prelude::*;
use crate::text::{split_on, split_str, push_str, str_eq, lemma_split_on_join, lemma_split_on_extend};

verus! {

#[derive(Clone, Copy, Debug, PartialEq, Eq, Structural)]
pub enum ThemePreference {
    System,
    Dark,
    Light,
}

#[derive(Clone, Copy, Debug, PartialEq, Eq, Structural)]
pub enum DensityPreference {
    Comfortable,
    Compact,
}

#[derive(Clone, Copy, Debug, PartialEq, Eq, Structural)]
pub enum ReducedMotionPreference {
    System,
    Reduce,
}

#[derive(Clone, Copy, Debug, PartialEq, Eq, Structural)]
pub enum FontSizePreference {
    Small,
    Medium,
    Large,
}

#[derive(Clone, Copy, Debug, PartialEq, Eq, Structural)]
pub enum ChatWidthPreference {
    Wide,
    Centered,
    Focused,
}

/// Validated, path-free display preferences.
#[derive(Clone, Copy, Debug, PartialEq, Eq, Structural)]
pub struct Preferences {
    pub theme: ThemePreference,
    pub density: DensityPreference,
    pub reduced_motion: ReducedMotionPreference,
    pub font_size: FontSizePreference,
    pub chat_width: ChatWidthPreference,
}

pub open spec fn theme_name(t: ThemePreference) -> Seq<char> {
    match t {
        ThemePreference::System => "system"@,
        ThemePreference::Dark => "dark"@,
        ThemePreference::Light => "light"@,
    }
}

pub open spec fn theme_from_name(s: Seq<char>) -> Option<ThemePreference> {
    if s == "system"@ {
        Some(ThemePreference::System)
    } else if s == "dark"@ {
        Some(ThemePreference::Dark)
    } else if s == "light"@ {
        Some(ThemePreference::Light)
    } else {
        None
    }
}

pub open spec fn density_name(d: DensityPreference) -> Seq<char> {
    match d {
        DensityPreference::Comfortable => "comfortable"@,
        DensityPreference::Compact => "compact"@,
    }
}

pub open spec fn density_from_name(s: Seq<char>) -> Option<DensityPreference> {
    if s == "comfortable"@ {
        Some(DensityPreference::Comfortable)
    } else if s == "compact"@ {
        Some(DensityPreference::Compact)
    } else {
        None
    }
}

pub open spec fn motion_name(m: ReducedMotionPreference) -> Seq<char> {
    match m {
        ReducedMotionPreference::System => "system"@,
        ReducedMotionPreference::Reduce => "reduce"@,
    }
}

pub open spec fn motion_from_name(s: Seq<char>) -> Option<ReducedMotionPreference> {
    if s == "system"@ {
        Some(ReducedMotionPreference::System)
    } else if s == "reduce"@ {
        Some(ReducedMotionPreference::Reduce)
    } else {
        None
    }
}

pub open spec fn font_size_name(f: FontSizePreference) -> Seq<char> {
    match f {
        FontSizePreference::Small => "small"@,
        FontSizePreference::Medium => "medium"@,
        FontSizePreference::Large => "large"@,
    }
}

pub open spec fn font_size_from_name(s: Seq<char>) -> Option<FontSizePreference> {
    if s == "small"@ {
        Some(FontSizePreference::Small)
    } else if s == "medium"@ {
        Some(FontSizePreference::Medium)
    } else if s == "large"@ {
        Some(FontSizePreference::Large)
    } else {
        None
    }
}

pub open spec fn chat_width_name(w: ChatWidthPreference) -> Seq<char> {
    match w {
        ChatWidthPreference::Wide => "wide"@,
        ChatWidthPreference::Centered => "centered"@,
        ChatWidthPreference::Focused => "focused"@,
    }
}

pub open spec fn chat_width_from_name(s: Seq<char>) -> Option<ChatWidthPreference> {
    if s == "wide"@ {
        Some(ChatWidthPreference::Wide)
    } else if s == "centered"@ {
        Some(ChatWidthPreference::Centered)
    } else if s == "focused"@ {
        Some(ChatWidthPreference::Focused)
    } else {
        None
    }
}

impl Default for ThemePreference {
    fn default() -> (r: Self)
        ensures
            r == ThemePreference::System,
    {
        ThemePreference::System
    }
}

impl Default for DensityPreference {
    fn default() -> (r: Self)
        ensures
            r == DensityPreference::Comfortable,
    {
        DensityPreference::Comfortable
    }
}

impl Default for ReducedMotionPreference {
    fn default() -> (r: Self)
        ensures
            r == ReducedMotionPreference::System,
    {
        ReducedMotionPreference::System
    }
}

impl Default for FontSizePreference {
    fn default() -> (r: Self)
        ensures
            r == FontSizePreference::Medium,
    {
        FontSizePreference::Medium
    }
}

impl Default for ChatWidthPreference {
    fn default() -> (r: Self)
        ensures
            r == ChatWidthPreference::Wide,
    {
        ChatWidthPreference::Wide
    }
}

pub open spec fn default_preferences() -> Preferences {
    Preferences {
        theme: ThemePreference::System,
        density: DensityPreference::Comfortable,
        reduced_motion: ReducedMotionPreference::System,
        font_size: FontSizePreference::Medium,
        chat_width: ChatWidthPreference::Wide,
    }
}

impl Default for Preferences {
    fn default() -> (r: Self)
        ensures
            r == default_preferences(),
    {
        Preferences {
            theme: ThemePreference::System,
            density: DensityPreference::Comfortable,
            reduced_motion: ReducedMotionPreference::System,
            font_size: FontSizePreference::Medium,
            chat_width: ChatWidthPreference::Wide,
        }
    }
}

impl ThemePreference {
    pub fn storage_value(self) -> (r: &'static str)
        ensures
            r@ == theme_name(self),
    {
        match self {
            ThemePreference::System => "system",
            ThemePreference::Dark => "dark",
            ThemePreference::Light => "light",
        }
    }

    pub fn from_storage(value: &str) -> (r: Option<Self>)
        ensures
            r == theme_from_name(value@),
    {
        if str_eq(value, "system") {
            Some(ThemePreference::System)
        } else if str_eq(value, "dark") {
            Some(ThemePreference::Dark)
        } else if str_eq(value, "light") {
            Some(ThemePreference::Light)
        } else {
            None
        }
    }
}

impl DensityPreference {
    pub fn storage_value(self) -> (r: &'static str)
        ensures
            r@ == density_name(self),
    {
        match self {
            DensityPreference::Comfortable => "comfortable",
            DensityPreference::Compact => "compact",
        }
    }

    pub fn from_storage(value: &str) -> (r: Option<Self>)
        ensures
            r == density_from_name(value@),
    {
        if str_eq(value, "comfortable") {
            Some(DensityPreference::Comfortable)
        } else if str_eq(value, "compact") {
            Some(DensityPreference::Compact)
        } else {
            None
        }
    }
}

impl ReducedMotionPreference {
    pub fn storage_value(self) -> (r: &'static str)
        ensures
            r@ == motion_name(self),
    {
        match self {
            ReducedMotionPreference::System => "system",
            ReducedMotionPreference::Reduce => "reduce",
        }
    }

    pub fn from_storage(value: &str) -> (r: Option<Self>)
        ensures
            r == motion_from_name(value@),
    {
        if str_eq(value, "system") {
            Some(ReducedMotionPreference::System)
        } else if str_eq(value, "reduce") {
            Some(ReducedMotionPreference::Reduce)
        } else {
            None
        }
    }
}

impl FontSizePreference {
    pub fn storage_value(self) -> (r: &'static str)
        ensures
            r@ == font_size_name(self),
    {
        match self {
            FontSizePreference::Small => "small",
            FontSizePreference::Medium => "medium",
            FontSizePreference::Large => "large",
        }
    }

    pub fn from_storage(value: &str) -> (r: Option<Self>)
        ensures
            r == font_size_from_name(value@),
    {
        if str_eq(value, "small") {
            Some(FontSizePreference::Small)
        } else if str_eq(value, "medium") {
            Some(FontSizePreference::Medium)
        } else if str_eq(value, "large") {
            Some(FontSizePreference::Large)
        } else {
            None
        }
    }
}

impl ChatWidthPreference {
    pub fn storage_value(self) -> (r: &'static str)
        ensures
            r@ == chat_width_name(self),
    {
        match self {
            ChatWidthPreference::Wide => "wide",
            ChatWidthPreference::Centered => "centered",
            ChatWidthPreference::Focused => "focused",
        }
    }

    pub fn from_storage(value: &str) -> (r: Option<Self>)
        ensures
            r == chat_width_from_name(value@),
    {
        if str_eq(value, "wide") {
            Some(ChatWidthPreference::Wide)
        } else if str_eq(value, "centered") {
            Some(ChatWidthPreference::Centered)
        } else if str_eq(value, "focused") {
            Some(ChatWidthPreference::Focused)
        } else {
            None
        }
    }
}

/// The stored text of a set of preferences.
pub open spec fn encoded_preferences(p: Preferences) -> Seq<char> {
    "v2"@ + seq!['|'] + theme_name(p.theme) + seq!['|'] + density_name(p.density) + seq!['|']
        + motion_name(p.reduced_motion) + seq!['|'] + font_size_name(p.font_size) + seq!['|']
        + chat_width_name(p.chat_width)
}

/// What a stored text decodes to: the version tag decides how many fields
/// follow, each must name a known value, and nothing may trail.
pub open spec fn decoded_preferences(s: Seq<char>) -> Option<Preferences> {
    let f = split_on(s, '|');
    if f[0] == "v1"@ {
        if f.len() == 4 && theme_from_name(f[1]) is Some && density_from_name(f[2]) is Some
            && motion_from_name(f[3]) is Some {
            Some(
                Preferences {
                    theme: theme_from_name(f[1])->0,
                    density: density_from_name(f[2])->0,
                    reduced_motion: motion_from_name(f[3])->0,
                    font_size: FontSizePreference::Medium,
                    chat_width: ChatWidthPreference::Wide,
                },
            )
        } else {
            None
        }
    } else if f[0] == "v2"@ {
        if f.len() == 6 && theme_from_name(f[1]) is Some && density_from_name(f[2]) is Some
            && motion_from_name(f[3]) is Some && font_size_from_name(f[4]) is Some
            && chat_width_from_name(f[5]) is Some {
            Some(
                Preferences {
                    theme: theme_from_name(f[1])->0,
                    density: density_from_name(f[2])->0,
                    reduced_motion: motion_from_name(f[3])->0,
                    font_size: font_size_from_name(f[4])->0,
                    chat_width: chat_width_from_name(f[5])->0,
                },
            )
        } else {
            None
        }
    } else {
        None
    }
}

pub fn encode_preferences(preferences: Preferences) -> (r: String)
    ensures
        r@ == encoded_preferences(preferences),
{
    let mut out = String::new();
    push_str(&mut out, "v2|");
    push_str(&mut out, preferences.theme.storage_value());
    push_str(&mut out, "|");
    push_str(&mut out, preferences.density.storage_value());
    push_str(&mut out, "|");
    push_str(&mut out, preferences.reduced_motion.storage_value());
    push_str(&mut out, "|");
    push_str(&mut out, preferences.font_size.storage_value());
    push_str(&mut out, "|");
    push_str(&mut out, preferences.chat_width.storage_value());
    proof {
        reveal_strlit("v2|");
        reveal_strlit("v2");
        reveal_strlit("|");
        assert(Seq::<char>::empty() + "v2|"@ =~= "v2"@ + seq!['|']);
        assert(out@ =~= encoded_preferences(preferences));
    }
    out
}

pub fn decode_preferences(value: &str) -> (r: Option<Preferences>)
    ensures
        r == decoded_preferences(value@),
{
    let fields = split_str(value, '|');
    let ghost f = split_on(value@, '|');
    proof {
        crate::text::lemma_split_on_nonempty(value@, '|');
        assert(fields@.len() == f.len());
        assert forall|i: int| 0 <= i < f.len() implies #[trigger] fields@[i]@ == f[i] by {
            assert(fields@.map_values(|x: String| x@)[i] == fields@[i]@);
        }
    }
    let n = fields.len();
    if str_eq(fields[0].as_str(), "v1") {
        if n != 4 {
            return None;
        }
        let theme = match ThemePreference::from_storage(fields[1].as_str()) {
            Some(v) => v,
            None => return None,
        };
        let density = match DensityPreference::from_storage(fields[2].as_str()) {
            Some(v) => v,
            None => return None,
        };
        let reduced_motion = match ReducedMotionPreference::from_storage(fields[3].as_str()) {
            Some(v) => v,
            None => return None,
        };
        Some(
            Preferences {
                theme,
                density,
                reduced_motion,
                font_size: FontSizePreference::Medium,
                chat_width: ChatWidthPreference::Wide,
            },
        )
    } else if str_eq(fields[0].as_str(), "v2") {
        if n != 6 {
            return None;
        }
        let theme = match ThemePreference::from_storage(fields[1].as_str()) {
            Some(v) => v,
            None => return None,
        };
        let density = match DensityPreference::from_storage(fields[2].as_str()) {
            Some(v) => v,
            None => return None,
        };
        let reduced_motion = match ReducedMotionPreference::from_storage(fields[3].as_str()) {
            Some(v) => v,
            None => return None,
        };
        let font_size = match FontSizePreference::from_storage(fields[4].as_str()) {
            Some(v) => v,
            None => return None,
        };
        let chat_width = match ChatWidthPreference::from_storage(fields[5].as_str()) {
            Some(v) => v,
            None => return None,
        };
        Some(Preferences { theme, density, reduced_motion, font_size, chat_width })
    } else {
        None
    }
}

proof fn lemma_no_bar(s: Seq<char>)
    requires
        s == "system"@ || s == "dark"@ || s == "light"@ || s == "comfortable"@ || s
            == "compact"@ || s == "reduce"@ || s == "small"@ || s == "medium"@ || s == "large"@
            || s == "wide"@ || s == "centered"@ || s == "focused"@ || s == "v2"@,
    ensures
        !s.contains('|'),
{
    reveal_strlit("system");
    reveal_strlit("dark");
    reveal_strlit("light");
    reveal_strlit("comfortable");
    reveal_strlit("compact");
    reveal_strlit("reduce");
    reveal_strlit("small");
    reveal_strlit("medium");
    reveal_strlit("large");
    reveal_strlit("wide");
    reveal_strlit("centered");
    reveal_strlit("focused");
    reveal_strlit("v2");
}

proof fn lemma_names_distinct()
    ensures
        "system"@ != "dark"@,
        "system"@ != "light"@,
        "dark"@ != "light"@,
        "comfortable"@ != "compact"@,
        "system"@ != "reduce"@,
        "small"@ != "medium"@,
        "small"@ != "large"@,
        "medium"@ != "large"@,
        "wide"@ != "centered"@,
        "wide"@ != "focused"@,
        "centered"@ != "focused"@,
        "v2"@ != "v1"@,
{
    reveal_strlit("system");
    reveal_strlit("dark");
    reveal_strlit("light");
    reveal_strlit("comfortable");
    reveal_strlit("compact");
    reveal_strlit("reduce");
    reveal_strlit("small");
    reveal_strlit("medium");
    reveal_strlit("large");
    reveal_strlit("wide");
    reveal_strlit("centered");
    reveal_strlit("focused");
    reveal_strlit("v2");
    reveal_strlit("v1");
    assert("system"@[0] != "dark"@[0]);
    assert("system"@[0] != "light"@[0]);
    assert("dark"@[0] != "light"@[0]);
    assert("comfortable"@.len() != "compact"@.len());
    assert("system"@[0] != "reduce"@[0]);
    assert("small"@[0] != "medium"@[0]);
    assert("small"@[1] != "large"@[1]);
    assert("medium"@[0] != "large"@[0]);
    assert("wide"@[0] != "centered"@[0]);
    assert("wide"@[0] != "focused"@[0]);
    assert("centered"@[0] != "focused"@[0]);
    assert("v2"@[1] != "v1"@[1]);
}

/// Reading back what was stored gives the same preferences.
pub proof fn lemma_preferences_round_trip(p: Preferences)
    ensures
        decoded_preferences(encoded_preferences(p)) == Some(p),
{
    let a0 = "v2"@;
    let a1 = theme_name(p.theme);
    let a2 = density_name(p.density);
    let a3 = motion_name(p.reduced_motion);
    let a4 = font_size_name(p.font_size);
    let a5 = chat_width_name(p.chat_width);
    lemma_no_bar(a0);
    lemma_no_bar(a1);
    lemma_no_bar(a2);
    lemma_no_bar(a3);
    lemma_no_bar(a4);
    lemma_no_bar(a5);
    lemma_names_distinct();
    lemma_split_on_extend(Seq::<char>::empty(), a0, '|');
    assert(Seq::<char>::empty() + a0 =~= a0);
    assert(split_on(Seq::<char>::empty(), '|') =~= seq![Seq::<char>::empty()]);
    assert(Seq::<char>::empty() + a0 =~= a0);
    assert(split_on(a0, '|') =~= seq![a0]);
    let s1 = a0 + seq!['|'] + a1;
    lemma_split_on_join(a0, a1, '|');
    let s2 = s1 + seq!['|'] + a2;
    lemma_split_on_join(s1, a2, '|');
    let s3 = s2 + seq!['|'] + a3;
    lemma_split_on_join(s2, a3, '|');
    let s4 = s3 + seq!['|'] + a4;
    lemma_split_on_join(s3, a4, '|');
    let s5 = s4 + seq!['|'] + a5;
    lemma_split_on_join(s4, a5, '|');
    assert(s5 =~= encoded_preferences(p));
    let f = split_on(s5, '|');
    assert(f =~= seq![a0, a1, a2, a3, a4, a5]);
}

/// Each preference value reads back from its own storage spelling.
pub proof fn lemma_storage_values_round_trip(
    t: ThemePreference,
    d: DensityPreference,
    m: ReducedMotionPreference,
    f: FontSizePreference,
    w: ChatWidthPreference,
)
    ensures
        theme_from_name(theme_name(t)) == Some(t),
        density_from_name(density_name(d)) == Some(d),
        motion_from_name(motion_name(m)) == Some(m),
        font_size_from_name(font_size_name(f)) == Some(f),
        chat_width_from_name(chat_width_name(w)) == Some(w),
{
    lemma_names_distinct();
}

} // verus!
