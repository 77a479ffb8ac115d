//! The options of a run and the values they take where none is given.

use vstd::prelude::*;

verus! {

/// The quality that applies where none is given.
pub const DEFAULT_QUALITY: u8 = 85;

/// The largest side, in pixels, that applies where none is given.
pub const DEFAULT_MAX_DIMENSION: u32 = 1280;

/// The input directory where none is given: the current one.
pub open spec fn default_input() -> Seq<char> {
    "."@
}

/// The output directory where none is given.
pub open spec fn default_output() -> Seq<char> {
    "compressed_images"@
}

/// The options of a run.
#[derive(Debug, PartialEq, Eq)]
pub struct Opts {
    /// Input directory path
    pub input: String,
    /// Output directory path
    pub output: String,
    /// Compression quality (0-100)
    pub quality: u8,
    /// Maximum image dimension
    pub max_dimension: u32,
}

/// The options of a run, as plain values.
pub struct OptsView {
    pub input: Seq<char>,
    pub output: Seq<char>,
    pub quality: u8,
    pub max_dimension: u32,
}

impl View for Opts {
    type V = OptsView;

    open spec fn view(&self) -> OptsView {
        OptsView {
            input: self.input@,
            output: self.output@,
            quality: self.quality,
            max_dimension: self.max_dimension,
        }
    }
}

/// The options that `parse_args` makes of what was given on the command
/// line: each value that was given, and the default for each that was not.
pub open spec fn parsed_opts(
    input: Option<Seq<char>>,
    output: Option<Seq<char>>,
    quality: Option<u8>,
    max_dimension: Option<u32>,
) -> OptsView {
    OptsView {
        input: match input {
            Some(given) => given,
            None => default_input(),
        },
        output: match output {
            Some(given) => given,
            None => default_output(),
        },
        quality: match quality {
            Some(given) => given,
            None => DEFAULT_QUALITY,
        },
        max_dimension: match max_dimension {
            Some(given) => given,
            None => DEFAULT_MAX_DIMENSION,
        },
    }
}

/// A text that may be missing, as plain values.
pub open spec fn text_view(text: Option<String>) -> Option<Seq<char>> {
    match text {
        Some(given) => Some(given@),
        None => None,
    }
}

/// Makes the options of a run of the values found on the command line.
pub fn parse_args(
    input: Option<String>,
    output: Option<String>,
    quality: Option<u8>,
    max_dimension: Option<u32>,
) -> (opts: Opts)
    ensures
        opts@ == parsed_opts(text_view(input), text_view(output), quality, max_dimension),
{
    Opts {
        input: match input {
            Some(given) => given,
            None => ".".to_owned(),
        },
        output: match output {
            Some(given) => given,
            None => "compressed_images".to_owned(),
        },
        quality: match quality {
            Some(given) => given,
            None => DEFAULT_QUALITY,
        },
        max_dimension: match max_dimension {
            Some(given) => given,
            None => DEFAULT_MAX_DIMENSION,
        },
    }
}

impl Default for Opts {
    /// The options of a run on whose command line nothing was given.
    fn default() -> (opts: Opts)
        ensures
            opts@ == parsed_opts(None, None, None, None),
    {
        parse_args(None, None, None, None)
    }
}

} // verus!
