//! Terminal color preferences.

use vstd::prelude::*;

use crate::parse::spec_lower;

verus! {

/// An end user's color preference.
#[derive(Debug, Clone, Copy, PartialEq, Eq, Structural)]
pub enum ColorChoice {
    /// Try very hard to emit colors, through whatever mechanism the
    /// terminal offers.
    Always,
    /// Like `Always`, but only ever by emitting ANSI color codes.
    AlwaysAnsi,
    /// Use colors when the environment looks like it supports them.
    Auto,
    /// Never emit colors.
    Never,
}

impl Default for ColorChoice {
    fn default() -> (r: Self)
        ensures
            r == ColorChoice::Auto,
    {
        ColorChoice::Auto
    }
}

/// A string that names no color preference.
#[derive(Debug)]
pub struct ColorChoiceParseError {
    /// The rejected input.
    pub input: String,
}

impl ColorChoiceParseError {
    /// A human-readable description of the failure, naming the input.
    pub fn message(&self) -> (r: String)
        ensures
            r@ == "invalid color choice: "@ + self.input@,
    {
        let mut s = String::from_str("invalid color choice: ");
        s.append(self.input.as_str());
        s
    }
}

impl ColorChoice {
    /// Parse a preference: the lowercase kebab-case name of a variant.
    /// Any other string is rejected, echoed back in the error.
    pub fn parse(s: &str) -> (r: Result<ColorChoice, ColorChoiceParseError>)
        ensures
            spec_lower(s@) == "always"@ ==> r == Result::<
                ColorChoice,
                ColorChoiceParseError,
            >::Ok(ColorChoice::Always),
            spec_lower(s@) == "always-ansi"@ ==> r == Result::<
                ColorChoice,
                ColorChoiceParseError,
            >::Ok(ColorChoice::AlwaysAnsi),
            spec_lower(s@) == "never"@ ==> r == Result::<ColorChoice, ColorChoiceParseError>::Ok(
                ColorChoice::Never,
            ),
            spec_lower(s@) == "auto"@ ==> r == Result::<ColorChoice, ColorChoiceParseError>::Ok(
                ColorChoice::Auto,
            ),
            spec_lower(s@) != "always"@ && spec_lower(s@) != "always-ansi"@ && spec_lower(s@)
                != "never"@ && spec_lower(s@) != "auto"@ ==> (r matches Err(e) && e.input@ == s@),
    {
        proof {
            reveal_strlit("always");
            reveal_strlit("always-ansi");
            reveal_strlit("never");
            reveal_strlit("auto");
            assert("always"@.len() == 6);
            assert("always-ansi"@.len() == 11);
            assert("never"@.len() == 5);
            assert("auto"@.len() == 4);
            assert("never"@[0] == 'n' && "auto"@[0] == 'a');
        }
        if crate::parse::str_eq_lower(s, "always") {
            Ok(ColorChoice::Always)
        } else if crate::parse::str_eq_lower(s, "always-ansi") {
            Ok(ColorChoice::AlwaysAnsi)
        } else if crate::parse::str_eq_lower(s, "never") {
            Ok(ColorChoice::Never)
        } else if crate::parse::str_eq_lower(s, "auto") {
            Ok(ColorChoice::Auto)
        } else {
            Err(ColorChoiceParseError { input: String::from_str(s) })
        }
    }

    /// Whether colored output should be attempted. The caller reports, in
    /// `env_allows_color`, whether the environment looks like it supports
    /// colors; only the automatic preference consults it.
    pub fn should_attempt_color(&self, env_allows_color: bool) -> (r: bool)
        ensures
            *self == ColorChoice::Always ==> r,
            *self == ColorChoice::AlwaysAnsi ==> r,
            *self == ColorChoice::Never ==> !r,
            *self == ColorChoice::Auto ==> r == env_allows_color,
    {
        match self {
            ColorChoice::Always => true,
            ColorChoice::AlwaysAnsi => true,
            ColorChoice::Never => false,
            ColorChoice::Auto => env_allows_color,
        }
    }

    /// Whether ANSI color codes must be used even where another coloring
    /// mechanism exists. ANSI may still be the right choice when this is
    /// false.
    pub fn should_ansi(&self) -> (r: bool)
        ensures
            r == (*self == ColorChoice::AlwaysAnsi),
    {
        match self {
            ColorChoice::Always => false,
            ColorChoice::AlwaysAnsi => true,
            ColorChoice::Never => false,
            ColorChoice::Auto => false,
        }
    }
}

} // verus!
