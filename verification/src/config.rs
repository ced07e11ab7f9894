//! The request of one run: where to search and what for.

use vstd::prelude::*;
use vstd::string::*;

verus! {

/// Why the command line gave no request.
#[derive(Clone, Copy, Debug, PartialEq, Eq, Structural)]
pub enum ParseError {
    /// No path was given.
    MissingPath,
    /// A path was given, but no query.
    MissingQuery,
    /// The path names nothing that can be resolved.
    InvalidPath,
}

/// A search request: the root of the walk and the text to look for.
#[derive(Debug, PartialEq, Eq)]
pub struct Config {
    pub path: String,
    pub query: String,
}

impl ParseError {
    /// The words in which the error is reported.
    pub open spec fn text(self) -> Seq<char> {
        match self {
            ParseError::MissingPath => {
                "No file path found. Usage: cargo run -- <PATH> <QUERY>"@
            },
            ParseError::MissingQuery => {
                "No text to search for. Usage: cargo run -- <PATH> <QUERY>"@
            },
            ParseError::InvalidPath => "Given path is not valid"@,
        }
    }

    /// The words in which the error is reported.
    pub fn message(self) -> (words: &'static str)
        ensures
            words@ == self.text(),
    {
        match self {
            ParseError::MissingPath => "No file path found. Usage: cargo run -- <PATH> <QUERY>",
            ParseError::MissingQuery => "No text to search for. Usage: cargo run -- <PATH> <QUERY>",
            ParseError::InvalidPath => "Given path is not valid",
        }
    }

    /// The line that reports the error.
    pub fn render(self) -> (line: String)
        ensures
            line@ == "Error during argument parsing: "@ + self.text(),
    {
        let mut line = String::from_str("Error during argument parsing: ");
        line.append(self.message());
        line
    }

    /// The status with which the program ends on the error: always 1.
    pub fn exit_code(self) -> (code: i32)
        ensures
            code == 1,
    {
        1
    }
}

/// What a command line asks for. The first argument is the program's name
/// and is passed over; the second is the path and the third the query;
/// further arguments are ignored.
pub open spec fn parsed(args: Seq<String>) -> Result<(Seq<char>, Seq<char>), ParseError> {
    if args.len() < 2 {
        Err(ParseError::MissingPath)
    } else if args.len() < 3 {
        Err(ParseError::MissingQuery)
    } else {
        Ok((args[1]@, args[2]@))
    }
}

impl Config {
    /// Reads the command line. The path is taken as it was written.
    pub fn parse(args: Vec<String>) -> (request: Result<Config, ParseError>)
        ensures
            match request {
                Ok(config) => parsed(args@) == Ok::<(Seq<char>, Seq<char>), ParseError>(
                    (config.path@, config.query@),
                ),
                Err(error) => parsed(args@) == Err::<(Seq<char>, Seq<char>), ParseError>(error),
            },
    {
        if args.len() < 2 {
            return Err(ParseError::MissingPath);
        }
        if args.len() < 3 {
            return Err(ParseError::MissingQuery);
        }
        Ok(Config { path: args[1].clone(), query: args[2].clone() })
    }

    /// Puts the resolved form of the path in place of the written one. A path
    /// that did not resolve is an error, and the only one.
    pub fn resolve(self, resolved: Option<String>) -> (request: Result<Config, ParseError>)
        ensures
            match resolved {
                Some(path) => request matches Ok(config) && config.path@ == path@ && config.query@
                    == self.query@,
                None => request == Err::<Config, ParseError>(ParseError::InvalidPath),
            },
    {
        match resolved {
            Some(path) => Ok(Config { path, query: self.query }),
            None => Err(ParseError::InvalidPath),
        }
    }
}

} // verus!
