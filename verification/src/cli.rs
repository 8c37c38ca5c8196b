//! Validation of command-line options, on plain values: which languages the
//! client and server bindings target, and which files or directories to
//! process. Reading the actual process arguments is left to the binary
//! around the library.

use vstd::prelude::*;

use crate::language;
use crate::language::Language;

verus! {

/// The ways command-line validation can fail.
#[derive(Debug, PartialEq)]
pub enum Problem {
    /// A `--client` or `--server` value that names no supported language.
    InvalidLanguage(String),
}

/// The validated command-line arguments.
#[derive(Debug)]
pub struct CliArgs {
    /// Language to use for the client, when one was given.
    pub client: Option<Language>,
    /// Language to use for the server, when one was given.
    pub server: Option<Language>,
    /// The files and directories to process, in the order given.
    pub file_paths: Vec<String>,
}

/// The characters of an optional argument.
pub open spec fn spec_opt_chars(arg: Option<String>) -> Option<Seq<char>> {
    match arg {
        Some(s) => Some(s@),
        None => None,
    }
}

/// The outcome of validating one optional language argument: the language
/// it names, `None` when it was absent, or the offending characters.
pub open spec fn spec_validate(arg: Option<Seq<char>>) -> Result<Option<Language>, Seq<char>> {
    match arg {
        None => Ok(None),
        Some(s) => match language::spec_language_from(s) {
            Some(l) => Ok(Some(l)),
            None => Err(s),
        },
    }
}

/// Validates one optional language argument, keeping the offending text in
/// the error.
pub fn validate_language(arg: Option<&str>) -> (r: Result<Option<Language>, Problem>)
    ensures
        match spec_validate(
            match arg {
                Some(s) => Some(s@),
                None => None,
            },
        ) {
            Ok(l) => r == Ok::<Option<Language>, Problem>(l),
            Err(t) => r matches Err(Problem::InvalidLanguage(e)) && e@ == t,
        },
{
    match arg {
        None => Ok(None),
        Some(s) => match language::from_string(s) {
            Some(l) => Ok(Some(l)),
            None => Err(Problem::InvalidLanguage(s.to_owned())),
        },
    }
}

/// Validates the raw command-line values: both language options must name
/// supported languages, the client checked first; the file paths are taken
/// as given. Fails with `InvalidLanguage` carrying the offending value.
pub fn parse_args(client: Option<String>, server: Option<String>, file_paths: Vec<String>) -> (r:
    Result<CliArgs, Problem>)
    ensures
        match spec_validate(spec_opt_chars(client)) {
            Err(t) => r matches Err(Problem::InvalidLanguage(e)) && e@ == t,
            Ok(cl) => match spec_validate(spec_opt_chars(server)) {
                Err(t) => r matches Err(Problem::InvalidLanguage(e)) && e@ == t,
                Ok(sl) => r matches Ok(args) && args.client == cl && args.server == sl
                    && args.file_paths == file_paths,
            },
        },
{
    let client_arg: Option<&str> = match &client {
        Some(s) => Some(s.as_str()),
        None => None,
    };
    let validated_client: Option<Language> = match validate_language(client_arg) {
        Ok(l) => l,
        Err(e) => {
            return Err(e);
        },
    };
    let server_arg: Option<&str> = match &server {
        Some(s) => Some(s.as_str()),
        None => None,
    };
    let validated_server: Option<Language> = match validate_language(server_arg) {
        Ok(l) => l,
        Err(e) => {
            return Err(e);
        },
    };
    Ok(
        CliArgs {
            client: validated_client,
            server: validated_server,
            file_paths: file_paths,
        },
    )
}

} // verus!
