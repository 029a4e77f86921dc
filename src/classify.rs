use vstd::prelude::*;

verus! {

/// The form of a command-line token before the separator.
#[derive(Debug, Clone, Copy, PartialEq, Eq, Structural)]
pub enum OptionType {
    /// A word that does not start with `-`, the single character `-`, or the
    /// empty string.
    Simple,
    /// One leading `-` followed by at least one more character (`-v`, `-abc`).
    ShortOpt,
    /// Two leading hyphens (`--verbose`, `--data=a,b`).
    LongOpt,
}

/// How a token is classified, by its leading hyphens and its length.
pub open spec fn classify_spec(s: Seq<char>) -> OptionType {
    if s.len() >= 2 && s[0] == '-' && s[1] == '-' {
        OptionType::LongOpt
    } else if s.len() > 1 && s[0] == '-' {
        OptionType::ShortOpt
    } else {
        OptionType::Simple
    }
}

/// The name under which a kind is shown to a reader.
pub open spec fn label_spec(t: OptionType) -> Seq<char> {
    match t {
        OptionType::Simple => seq!['S', 'i', 'm', 'p', 'l', 'e'],
        OptionType::ShortOpt => seq!['S', 'h', 'o', 'r', 't', ' ', 'O', 'p', 't', 'i', 'o', 'n'],
        OptionType::LongOpt => seq!['L', 'o', 'n', 'g', ' ', 'O', 'p', 't', 'i', 'o', 'n'],
    }
}

impl OptionType {
    /// The name under which this kind is shown to a reader.
    pub fn label(&self) -> (r: &'static str)
        ensures
            r@ == label_spec(*self),
    {
        match self {
            OptionType::Simple => {
                proof {
                    reveal_strlit("Simple");
                }
                assert("Simple"@ =~= label_spec(*self));
                "Simple"
            },
            OptionType::ShortOpt => {
                proof {
                    reveal_strlit("Short Option");
                }
                assert("Short Option"@ =~= label_spec(*self));
                "Short Option"
            },
            OptionType::LongOpt => {
                proof {
                    reveal_strlit("Long Option");
                }
                assert("Long Option"@ =~= label_spec(*self));
                "Long Option"
            },
        }
    }
}

impl Default for OptionType {
    fn default() -> (r: OptionType)
        ensures
            r == OptionType::Simple,
    {
        OptionType::Simple
    }
}

/// Classifies `arg` by its leading hyphens and its length; the result depends
/// on the characters of `arg` alone.
pub fn determine_opt_type(arg: &str) -> (r: OptionType)
    ensures
        r == classify_spec(arg@),
{
    let n: usize = arg.unicode_len();
    if n >= 2 && arg.get_char(0) == '-' && arg.get_char(1) == '-' {
        OptionType::LongOpt
    } else if n > 1 && arg.get_char(0) == '-' {
        OptionType::ShortOpt
    } else {
        OptionType::Simple
    }
}

} // verus!
