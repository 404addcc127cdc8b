use vstd::prelude::*;

use crate::text::{chars_of, push_char, push_text, string_views, trim, trim_range};

verus! {

/// What every complete theme directory holds.
pub open spec fn required_theme_parts() -> Seq<Seq<char>> {
    seq!["gnome-shell"@, "xfwm4"@, "gtk-2.0"@, "gtk-3.0"@, "gtk-4.0"@]
}

/// `s` without its single quotes.
pub open spec fn without_quotes(s: Seq<char>) -> Seq<char>
    decreases s.len(),
{
    if s.len() == 0 {
        seq![]
    } else if s.last() == '\'' {
        without_quotes(s.drop_last())
    } else {
        without_quotes(s.drop_last()).push(s.last())
    }
}

pub struct AppearanceView {
    pub now: u8,
    pub themes: Seq<Seq<char>>,
    pub init: bool,
}

/// The desktop themes that are installed, and the one chosen. Themes are numbered from 1
/// in the order found; 0 stands for no choice.
pub struct Appearance {
    now: u8,
    themes: Vec<String>,
    init: bool,
}

impl View for Appearance {
    type V = AppearanceView;

    closed spec fn view(&self) -> AppearanceView {
        AppearanceView { now: self.now, themes: string_views(self.themes@), init: self.init }
    }
}

/// The themes found, at most 255 of them, and the number of the last one named like the
/// system's theme, or 0.
pub open spec fn chosen_theme(themes: Seq<Seq<char>>, system: Seq<char>, j: int) -> u8
    decreases j,
{
    if 0 < j <= themes.len() && j <= 255 {
        if themes[j - 1] == system {
            j as u8
        } else {
            chosen_theme(themes, system, j - 1)
        }
    } else {
        0
    }
}

pub open spec fn kept_themes(themes: Seq<Seq<char>>) -> Seq<Seq<char>> {
    if themes.len() <= 255 {
        themes
    } else {
        themes.subrange(0, 255)
    }
}

/// The gnome settings calls that make `theme` the theme of applications and windows.
pub open spec fn theme_commands(theme: Seq<char>) -> Seq<Seq<Seq<char>>> {
    seq![
        seq!["set"@, "org.gnome.desktop.interface"@, "gtk-theme"@, theme],
        seq!["set"@, "org.gnome.desktop.wm.preferences"@, "theme"@, theme],
    ]
}

fn text_arg(t: &str) -> (r: String)
    ensures
        r@ == t@,
{
    let mut r = String::new();
    push_text(&mut r, t);
    r
}

impl Appearance {
    pub fn new() -> (r: Appearance)
        ensures
            r@.now == 0,
            r@.themes.len() == 0,
            !r@.init,
    {
        Appearance { now: 0, themes: Vec::new(), init: false }
    }

    /// Whether a directory is a complete theme: it is a directory, and among its entries
    /// are all the required parts.
    pub fn is_complete_theme_dir(is_dir: bool, entries: &Vec<String>) -> (r: bool)
        ensures
            r == (is_dir && forall|k: int|
                0 <= k < required_theme_parts().len() ==> string_views(entries@).contains(
                    #[trigger] required_theme_parts()[k],
                )),
    {
        if !is_dir {
            return false;
        }
        let parts = vec![
            text_arg("gnome-shell"),
            text_arg("xfwm4"),
            text_arg("gtk-2.0"),
            text_arg("gtk-3.0"),
            text_arg("gtk-4.0"),
        ];
        assert(string_views(parts@) =~= required_theme_parts());
        let mut k: usize = 0;
        while k < parts.len()
            invariant
                k <= parts.len(),
                string_views(parts@) == required_theme_parts(),
                forall|m: int|
                    0 <= m < k ==> string_views(entries@).contains(
                        #[trigger] required_theme_parts()[m],
                    ),
            decreases parts.len() - k,
        {
            let mut found = false;
            let mut i: usize = 0;
            while i < entries.len()
                invariant
                    i <= entries.len(),
                    k < parts.len(),
                    string_views(parts@) == required_theme_parts(),
                    found ==> string_views(entries@).contains(required_theme_parts()[k as int]),
                    !found ==> forall|m: int| 0 <= m < i ==> entries@[m]@ != parts@[k as int]@,
                decreases entries.len() - i,
            {
                if !found && entries[i] == parts[k] {
                    found = true;
                    assert(string_views(entries@)[i as int] == parts@[k as int]@);
                    assert(string_views(parts@)[k as int] == parts@[k as int]@);
                }
                i = i + 1;
            }
            if !found {
                assert(string_views(parts@)[k as int] == parts@[k as int]@);
                assert(!string_views(entries@).contains(required_theme_parts()[k as int])) by {
                    if string_views(entries@).contains(required_theme_parts()[k as int]) {
                        let m = choose|m: int|
                            0 <= m < string_views(entries@).len() && string_views(entries@)[m]
                                == required_theme_parts()[k as int];
                        assert(entries@[m]@ == string_views(entries@)[m]);
                    }
                }
                return false;
            }
            k = k + 1;
        }
        true
    }

    /// Takes the complete theme directories found, in the order found, and the name of the
    /// system's theme; the last theme of that name becomes the chosen one.
    pub fn init(&mut self, themes: &Vec<String>, system_theme: &str)
        ensures
            final(self)@.themes == kept_themes(string_views(themes@)),
            final(self)@.now == chosen_theme(
                string_views(themes@),
                system_theme@,
                kept_themes(string_views(themes@)).len() as int,
            ),
            final(self)@.init,
    {
        let ghost all = string_views(themes@);
        let mut kept: Vec<String> = Vec::new();
        let mut now: u8 = 0;
        let mut i: usize = 0;
        let sys = text_arg(system_theme);
        while i < themes.len() && i < 255
            invariant
                all == string_views(themes@),
                i <= themes.len(),
                i <= 255,
                string_views(kept@) == all.subrange(0, i as int),
                now == chosen_theme(all, system_theme@, i as int),
                sys@ == system_theme@,
            decreases themes.len() - i,
        {
            assert(all[i as int] == themes@[i as int]@);
            if themes[i] == sys {
                now = (i + 1) as u8;
            }
            let t = themes[i].clone();
            assert(t@ == all[i as int]);
            let ghost before = kept@;
            kept.push(t);
            assert(string_views(kept@) =~= string_views(before).push(all[i as int]));
            assert(all.subrange(0, i + 1) =~= all.subrange(0, i as int).push(all[i as int]));
            i = i + 1;
        }
        assert(all.subrange(0, i as int) =~= kept_themes(all));
        self.themes = kept;
        self.now = now;
        self.init = true;
    }

    pub fn is_ready(&self) -> (r: bool)
        ensures
            r == self@.init,
    {
        self.init
    }

    /// The theme numbered `id`.
    pub fn theme(&self, id: u8) -> (r: Option<&String>)
        ensures
            (1 <= id <= self@.themes.len()) ==> (r matches Some(t) && t@ == self@.themes[id - 1]),
            !(1 <= id <= self@.themes.len()) ==> r is None,
    {
        if id >= 1 && (id as usize) <= self.themes.len() {
            Some(&self.themes[(id - 1) as usize])
        } else {
            None
        }
    }

    pub fn themes(&self) -> (r: &Vec<String>)
        ensures
            string_views(r@) == self@.themes,
    {
        &self.themes
    }

    pub fn now(&self) -> (r: u8)
        ensures
            r == self@.now,
    {
        self.now
    }

    /// Chooses the theme numbered `id`, or no theme with 0.
    pub fn set_now(&mut self, id: u8) -> (r: bool)
        ensures
            r == (id as int <= old(self)@.themes.len()),
            r ==> final(self)@.now == id,
            !r ==> final(self)@.now == old(self)@.now,
            final(self)@.themes == old(self)@.themes,
            final(self)@.init == old(self)@.init,
    {
        if (id as usize) <= self.themes.len() {
            self.now = id;
            true
        } else {
            false
        }
    }

    /// The gnome settings calls that apply the chosen theme; none when no theme is chosen.
    pub fn apply_args(&self) -> (r: Vec<Vec<String>>)
        ensures
            (1 <= self@.now <= self@.themes.len()) ==> r@.map_values(
                |c: Vec<String>| string_views(c@),
            ) == theme_commands(self@.themes[self@.now - 1]),
            !(1 <= self@.now <= self@.themes.len()) ==> r.len() == 0,
    {
        let theme = match self.theme(self.now) {
            Some(t) => t,
            None => return Vec::new(),
        };
        let a = vec![
            text_arg("set"),
            text_arg("org.gnome.desktop.interface"),
            text_arg("gtk-theme"),
            theme.clone(),
        ];
        let b = vec![
            text_arg("set"),
            text_arg("org.gnome.desktop.wm.preferences"),
            text_arg("theme"),
            theme.clone(),
        ];
        assert(string_views(a@) =~= theme_commands(theme@)[0]);
        assert(string_views(b@) =~= theme_commands(theme@)[1]);
        let r = vec![a, b];
        assert(r@.map_values(|c: Vec<String>| string_views(c@)) =~= theme_commands(theme@));
        r
    }

    /// The theme name that the gnome settings tool prints: its output without blanks at
    /// either end and without quotes.
    pub fn gtk_theme_from_output(out: &str) -> (r: String)
        ensures
            r@ == without_quotes(trim(out@)),
    {
        let v = chars_of(out);
        let (a, b) = trim_range(&v);
        let ghost t = v@.subrange(a as int, b as int);
        let mut r = String::new();
        let mut i = a;
        while i < b
            invariant
                a <= i <= b <= v.len(),
                t == v@.subrange(a as int, b as int),
                r@ == without_quotes(v@.subrange(a as int, i as int)),
            decreases b - i,
        {
            assert(v@.subrange(a as int, i + 1).drop_last() =~= v@.subrange(a as int, i as int));
            if v[i] != '\'' {
                push_char(&mut r, v[i]);
            }
            i = i + 1;
        }
        r
    }
}

impl Default for Appearance {
    fn default() -> (r: Appearance)
        ensures
            r@.now == 0,
            r@.themes.len() == 0,
            !r@.init,
    {
        Appearance::new()
    }
}

} // verus!
