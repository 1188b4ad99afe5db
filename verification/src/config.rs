//! The arguments of one run.

use vstd::prelude::*;
use crate::error::ArgumentError;
use crate::text::to_chars;

verus! {

/// What one run works on: the file to read, the direction, and the key.
#[derive(Debug, Clone)]
pub struct Config {
    pub input_file: String,
    pub direction: String,
    pub key: String,
}

/// The three arguments as texts.
pub struct ConfigView {
    pub input_file: Seq<char>,
    pub direction: Seq<char>,
    pub key: Seq<char>,
}

impl View for Config {
    type V = ConfigView;

    open spec fn view(&self) -> ConfigView {
        ConfigView { input_file: self.input_file@, direction: self.direction@, key: self.key@ }
    }
}

/// The arguments that a command line holds.  Its first word is the
/// program's name; the next three are the input file, the direction and the
/// key, and the first of them that is absent is the one reported.  Words
/// after the key do not count.
pub open spec fn parsed_arguments(args: Seq<Seq<char>>) -> Result<ConfigView, ArgumentError> {
    if args.len() < 2 {
        Err(ArgumentError::MissingInputFile)
    } else if args.len() < 3 {
        Err(ArgumentError::MissingDirection)
    } else if args.len() < 4 {
        Err(ArgumentError::MissingKey)
    } else {
        Ok(ConfigView { input_file: args[1], direction: args[2], key: args[3] })
    }
}

/// The words of a command line, each taken by its view.
pub open spec fn words_view(args: Seq<String>) -> Seq<Seq<char>> {
    Seq::new(args.len(), |i: int| args[i]@)
}

/// A result with the configuration inside taken by its view.
pub open spec fn config_view(r: Result<Config, ArgumentError>) -> Result<
    ConfigView,
    ArgumentError,
> {
    match r {
        Ok(config) => Ok(config@),
        Err(e) => Err(e),
    }
}

impl Config {
    /// Reads the configuration from the words of the command line.
    pub fn new(args: Vec<String>) -> (config: Result<Config, ArgumentError>)
        ensures
            config_view(config) == parsed_arguments(words_view(args@)),
    {
        if args.len() < 2 {
            return Err(ArgumentError::MissingInputFile);
        }
        if args.len() < 3 {
            return Err(ArgumentError::MissingDirection);
        }
        if args.len() < 4 {
            return Err(ArgumentError::MissingKey);
        }
        let input_file = args[1].clone();
        let direction = args[2].clone();
        let key = args[3].clone();
        Ok(Config { input_file, direction, key })
    }

    /// Whether the direction asks for encoding: it does when it is the
    /// single letter `e`, and anything else asks for decoding.
    pub open spec fn encodes(&self) -> bool {
        self.direction@ == seq!['e']
    }

    /// Whether this run encodes; if not, it decodes.
    pub fn is_encode(&self) -> (encode: bool)
        ensures
            encode == self.encodes(),
    {
        let chars = to_chars(self.direction.as_str());
        if chars.len() == 1 && chars[0] == 'e' {
            assert(self.direction@ =~= seq!['e']);
            true
        } else {
            false
        }
    }
}

} // verus!
