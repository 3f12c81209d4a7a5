//! What a run is configured with.

use vstd::prelude::*;

verus! {

/// The two shapes of the output.
#[derive(Clone, Copy, Debug, PartialEq, Eq, Structural)]
pub enum Style {
    /// Cells separated by `|` alone, nothing padded.
    Minimized,
    /// Every column padded to its width, rows enclosed in pipes.
    Pretty,
}

/// The settings of one run.
pub struct Config {
    /// Whether the compact form is asked for.
    pub minimize: bool,
    /// The text that separates the values of a line.
    pub separator: String,
    /// Where the input comes from; standard input when absent.
    pub file: Option<String>,
    /// Where the output goes; standard output when absent.
    pub out: Option<String>,
}

/// The separator that is used when none is given: a comma.
pub open spec fn default_separator() -> Seq<char> {
    seq![',']
}

impl Config {
    /// The settings for the given options; a separator that is not given is
    /// a comma.
    pub fn new(
        minimize: bool,
        separator: Option<String>,
        file: Option<String>,
        out: Option<String>,
    ) -> (config: Config)
        ensures
            config.minimize == minimize,
            config.separator@ == match separator {
                Some(text) => text@,
                None => default_separator(),
            },
            config.file == file,
            config.out == out,
    {
        let separator = match separator {
            Some(text) => text,
            None => {
                proof {
                    reveal_strlit(",");
                    assert(","@ =~= default_separator());
                }
                String::from_str(",")
            },
        };
        Config { minimize, separator, file, out }
    }

    /// The style that the settings select.
    pub open spec fn spec_style(&self) -> Style {
        if self.minimize {
            Style::Minimized
        } else {
            Style::Pretty
        }
    }

    /// The style that the settings select: compact when `minimize` is set,
    /// aligned otherwise.
    #[verifier::when_used_as_spec(spec_style)]
    pub fn style(&self) -> (style: Style)
        ensures
            style == self.spec_style(),
    {
        if self.minimize {
            Style::Minimized
        } else {
            Style::Pretty
        }
    }
}

} // verus!
