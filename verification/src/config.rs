//! The exclude list: glob patterns that take files out of processing
//! altogether, whatever their formatting rules.

use crate::globs::{
    add_glob, any_glob_matches, build_set, builder_patterns, compile_glob, empty_set, glob_error,
    glob_set_error, new_builder, set_is_match, set_patterns,
};
use globset::GlobSet;
use vstd::prelude::*;
use vstd::string::StringExecFns;

verus! {

/// The category of a configuration error.
#[derive(Clone, Copy, Debug, PartialEq, Eq, Structural)]
pub enum ErrorKind {
    /// What was given cannot be used: a glob pattern is not valid, or the
    /// set of patterns cannot be built.
    InvalidInput,
    /// The configuration source cannot be read as such.
    InvalidData,
}

/// An error in the configuration. It stops the run.
#[derive(Debug)]
pub struct ConfigError {
    kind: ErrorKind,
    message: String,
}

impl ConfigError {
    /// The category of the error.
    pub closed spec fn spec_kind(&self) -> ErrorKind {
        self.kind
    }

    /// The text of the error.
    pub closed spec fn spec_message(&self) -> Seq<char> {
        self.message@
    }

    /// An error of the given category with the given text.
    pub fn new(kind: ErrorKind, message: String) -> (error: ConfigError)
        ensures
            error.spec_kind() == kind,
            error.spec_message() == message@,
    {
        ConfigError { kind, message }
    }

    /// The category of the error.
    pub fn kind(&self) -> (kind: ErrorKind)
        ensures
            kind == self.spec_kind(),
    {
        self.kind
    }

    /// The text of the error.
    pub fn to_string(&self) -> (text: String)
        ensures
            text@ == self.spec_message(),
    {
        self.message.clone()
    }
}

/// The patterns as texts.
pub open spec fn pattern_texts(patterns: Seq<String>) -> Seq<Seq<char>> {
    Seq::new(patterns.len(), |i: int| patterns[i]@)
}

/// The text of the error for a pattern that is not a valid glob.
pub open spec fn invalid_pattern_message(pattern: Seq<char>, reason: Seq<char>) -> Seq<char> {
    "invalid glob pattern '"@ + pattern + "': "@ + reason
}

/// The text of the error for a set of patterns that cannot be built.
pub open spec fn invalid_set_message(reason: Seq<char>) -> Seq<char> {
    "failed to build glob set: "@ + reason
}

/// The error text for the first of `patterns` that is not a valid glob, or
/// `None` where each of them is one.
pub open spec fn pattern_failure(patterns: Seq<Seq<char>>) -> Option<Seq<char>>
    decreases patterns.len(),
{
    if patterns.len() == 0 {
        None
    } else {
        match glob_error(patterns[0]) {
            Some(reason) => Some(invalid_pattern_message(patterns[0], reason)),
            None => pattern_failure(patterns.drop_first()),
        }
    }
}

/// The error text with which building a matcher from `patterns` fails, or
/// `None` where it succeeds: the first pattern that is not a valid glob
/// fails it, and after that the set as a whole can.
pub open spec fn matcher_failure(patterns: Seq<Seq<char>>) -> Option<Seq<char>> {
    match pattern_failure(patterns) {
        Some(message) => Some(message),
        None => match glob_set_error(patterns) {
            Some(reason) => Some(invalid_set_message(reason)),
            None => None,
        },
    }
}

/// The exclude list of a run: the patterns as they were given, and the
/// matcher built from them.
#[derive(Debug)]
pub struct Config {
    /// The glob patterns of files to leave out.
    pub exclude: Vec<String>,
    /// The matcher built from the patterns.
    matcher: GlobSet,
}

/// Builds the matcher for `patterns`.
fn build_matcher(patterns: &Vec<String>) -> (built: Result<GlobSet, ConfigError>)
    ensures
        match built {
            Ok(set) => matcher_failure(pattern_texts(patterns@)) is None && set_patterns(set)
                == pattern_texts(patterns@),
            Err(error) => error.spec_kind() == ErrorKind::InvalidInput && matcher_failure(
                pattern_texts(patterns@),
            ) == Some(error.spec_message()),
        },
{
    let ghost texts = pattern_texts(patterns@);
    let mut builder = new_builder();
    let mut i: usize = 0;
    proof {
        assert(texts.subrange(0, texts.len() as int) =~= texts);
        assert(builder_patterns(builder) =~= texts.subrange(0, 0));
    }
    while i < patterns.len()
        invariant
            i <= patterns.len(),
            texts == pattern_texts(patterns@),
            builder_patterns(builder) == texts.subrange(0, i as int),
            pattern_failure(texts) == pattern_failure(texts.subrange(i as int, texts.len() as int)),
        decreases patterns.len() - i,
    {
        let pattern = patterns[i].as_str();
        proof {
            let rest = texts.subrange(i as int, texts.len() as int);
            assert(rest[0] == pattern@);
            assert(rest.drop_first() =~= texts.subrange(i + 1, texts.len() as int));
        }
        match compile_glob(pattern) {
            Ok(glob) => {
                add_glob(&mut builder, glob);
                proof {
                    assert(texts.subrange(0, i + 1) =~= texts.subrange(0, i as int).push(pattern@));
                }
            },
            Err(reason) => {
                let mut message = String::from_str("invalid glob pattern '");
                message.append(pattern);
                message.append("': ");
                message.append(reason.as_str());
                return Err(ConfigError::new(ErrorKind::InvalidInput, message));
            },
        }
        i = i + 1;
    }
    match build_set(&builder) {
        Ok(set) => Ok(set),
        Err(reason) => {
            let mut message = String::from_str("failed to build glob set: ");
            message.append(reason.as_str());
            Err(ConfigError::new(ErrorKind::InvalidInput, message))
        },
    }
}

impl Config {
    /// The patterns that this config lists in `exclude`, as texts.
    pub closed spec fn listed(&self) -> Seq<Seq<char>> {
        pattern_texts(self.exclude@)
    }

    /// The patterns that the matcher of this config holds.
    pub closed spec fn patterns(&self) -> Seq<Seq<char>> {
        set_patterns(self.matcher)
    }

    /// Whether this config leaves out the file at `path`: one of its patterns
    /// matches the path.
    pub open spec fn excludes(&self, path: Seq<char>) -> bool {
        any_glob_matches(self.patterns(), path)
    }

    /// The config for the exclude patterns `patterns`. It fails where a
    /// pattern is not a valid glob, naming the first such pattern, or where
    /// the set of patterns cannot be built.
    pub fn with_exclude(patterns: Vec<String>) -> (made: Result<Config, ConfigError>)
        ensures
            match made {
                Ok(config) => {
                    &&& matcher_failure(pattern_texts(patterns@)) is None
                    &&& config.listed() == pattern_texts(patterns@)
                    &&& config.patterns() == pattern_texts(patterns@)
                },
                Err(error) => {
                    &&& error.spec_kind() == ErrorKind::InvalidInput
                    &&& matcher_failure(pattern_texts(patterns@)) == Some(error.spec_message())
                },
            },
    {
        match build_matcher(&patterns) {
            Ok(matcher) => Ok(Config { exclude: patterns, matcher }),
            Err(error) => Err(error),
        }
    }

    /// The config for what was found at the invocation root: the exclude
    /// patterns of the configuration source, or `None` where there is no
    /// such source, in which case nothing is excluded.
    pub fn load(found: Option<Vec<String>>) -> (made: Result<Config, ConfigError>)
        ensures
            match found {
                Some(patterns) => match made {
                    Ok(config) => {
                        &&& matcher_failure(pattern_texts(patterns@)) is None
                        &&& config.listed() == pattern_texts(patterns@)
                        &&& config.patterns() == pattern_texts(patterns@)
                    },
                    Err(error) => {
                        &&& error.spec_kind() == ErrorKind::InvalidInput
                        &&& matcher_failure(pattern_texts(patterns@)) == Some(
                            error.spec_message(),
                        )
                    },
                },
                None => made matches Ok(config) && config.listed().len() == 0
                    && config.patterns().len() == 0,
            },
    {
        match found {
            Some(patterns) => Config::with_exclude(patterns),
            None => Ok(Config::default()),
        }
    }

    /// Whether the file at `path` is to be left out. The path is matched as
    /// it is given: a pattern that starts with `./` matches only paths that
    /// start so.
    pub fn is_excluded(&self, path: &str) -> (excluded: bool)
        ensures
            excluded == self.excludes(path@),
    {
        set_is_match(&self.matcher, path)
    }
}

impl Default for Config {
    /// The config that excludes nothing.
    fn default() -> (config: Config)
        ensures
            config.listed().len() == 0,
            config.patterns().len() == 0,
    {
        Config { exclude: Vec::new(), matcher: empty_set() }
    }
}

/// A config without patterns excludes no file.
pub proof fn lemma_no_patterns_exclude_nothing(config: Config, path: Seq<char>)
    requires
        config.patterns().len() == 0,
    ensures
        !config.excludes(path),
{
}

} // verus!
