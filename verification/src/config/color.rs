//! Built-in colour themes and how the theme cycle moves through them.
use vstd::prelude::*;

verus! {

/// Built-in colour themes, in cycle order.
#[derive(Debug, Clone, Copy, PartialEq, Eq, Structural)]
pub enum ThemeName {
    CatppuccinMocha,
    CatppuccinLatte,
    GruvboxDark,
    SolarizedDark,
    SolarizedLight,
    Dracula,
    Nord,
    OneDark,
    TokyoNight,
}

/// Number of built-in themes.
pub const THEME_COUNT: usize = 9;

/// Position of `t` in the cycle.
pub open spec fn theme_index(t: ThemeName) -> int {
    match t {
        ThemeName::CatppuccinMocha => 0,
        ThemeName::CatppuccinLatte => 1,
        ThemeName::GruvboxDark => 2,
        ThemeName::SolarizedDark => 3,
        ThemeName::SolarizedLight => 4,
        ThemeName::Dracula => 5,
        ThemeName::Nord => 6,
        ThemeName::OneDark => 7,
        ThemeName::TokyoNight => 8,
    }
}

/// The theme at position `i` of the cycle.
pub open spec fn theme_at(i: int) -> ThemeName {
    if i == 0 {
        ThemeName::CatppuccinMocha
    } else if i == 1 {
        ThemeName::CatppuccinLatte
    } else if i == 2 {
        ThemeName::GruvboxDark
    } else if i == 3 {
        ThemeName::SolarizedDark
    } else if i == 4 {
        ThemeName::SolarizedLight
    } else if i == 5 {
        ThemeName::Dracula
    } else if i == 6 {
        ThemeName::Nord
    } else if i == 7 {
        ThemeName::OneDark
    } else {
        ThemeName::TokyoNight
    }
}

fn theme_at_exec(i: usize) -> (r: ThemeName)
    ensures
        r == theme_at(i as int),
{
    match i {
        0 => ThemeName::CatppuccinMocha,
        1 => ThemeName::CatppuccinLatte,
        2 => ThemeName::GruvboxDark,
        3 => ThemeName::SolarizedDark,
        4 => ThemeName::SolarizedLight,
        5 => ThemeName::Dracula,
        6 => ThemeName::Nord,
        7 => ThemeName::OneDark,
        _ => ThemeName::TokyoNight,
    }
}

/// The theme after `t` in the cycle.
#[verifier::opaque]
pub open spec fn theme_next(t: ThemeName) -> ThemeName {
    theme_at((theme_index(t) + 1) % (THEME_COUNT as int))
}

/// The theme before `t` in the cycle.
#[verifier::opaque]
pub open spec fn theme_prev(t: ThemeName) -> ThemeName {
    theme_at((theme_index(t) + THEME_COUNT - 1) % (THEME_COUNT as int))
}

impl ThemeName {
    /// Position of the theme in the cycle.
    pub fn index(&self) -> (r: usize)
        ensures
            r == theme_index(*self),
    {
        match self {
            ThemeName::CatppuccinMocha => 0,
            ThemeName::CatppuccinLatte => 1,
            ThemeName::GruvboxDark => 2,
            ThemeName::SolarizedDark => 3,
            ThemeName::SolarizedLight => 4,
            ThemeName::Dracula => 5,
            ThemeName::Nord => 6,
            ThemeName::OneDark => 7,
            ThemeName::TokyoNight => 8,
        }
    }

    /// Every theme, in cycle order.
    pub fn all() -> (r: Vec<ThemeName>)
        ensures
            r@.len() == THEME_COUNT,
            forall|i: int| 0 <= i < THEME_COUNT ==> #[trigger] r@[i] == theme_at(i),
    {
        let mut v: Vec<ThemeName> = Vec::new();
        let mut i: usize = 0;
        while i < THEME_COUNT
            invariant
                i <= THEME_COUNT,
                v@.len() == i,
                forall|j: int| 0 <= j < i ==> #[trigger] v@[j] == theme_at(j),
            decreases THEME_COUNT - i,
        {
            v.push(theme_at_exec(i));
            i = i + 1;
        }
        v
    }

    /// The next theme; the last wraps to the first.
    pub fn next(&self) -> (r: ThemeName)
        ensures
            r == theme_next(*self),
    {
        proof {
            reveal(theme_next);
        }
        theme_at_exec((self.index() + 1) % THEME_COUNT)
    }

    /// The previous theme; the first wraps to the last.
    pub fn prev(&self) -> (r: ThemeName)
        ensures
            r == theme_prev(*self),
    {
        proof {
            reveal(theme_prev);
        }
        theme_at_exec((self.index() + THEME_COUNT - 1) % THEME_COUNT)
    }
}

/// Stepping forward then back through the theme cycle returns to the start,
/// and so does stepping back then forward.
pub proof fn lemma_theme_next_prev_inverse(t: ThemeName)
    ensures
        theme_prev(theme_next(t)) == t,
        theme_next(theme_prev(t)) == t,
{
    reveal(theme_next);
    reveal(theme_prev);
}

} // verus!
