//! Process-wide parser configuration.
//!
//! Constructed with fixed defaults, mutated freely by the caller before
//! `parse`, and read-only during `parse`.

use vstd::prelude::*;

verus! {

/// Overridable phrases for each user-facing error condition.
pub struct EventPhrases {
    pub no_arg_err: String,
    pub missing_arg_err: String,
    pub invalid_arg_err: String,
    pub multi_arg_err: String,
}

impl EventPhrases {
    /// The default phrases.
    pub fn new() -> (r: EventPhrases)
        ensures
            r.no_arg_err@ == "Provide at least one argument"@,
            r.missing_arg_err@ == "Provide an argument for this option"@,
            r.invalid_arg_err@ == "Invalid argument"@,
            r.multi_arg_err@ == "This argument can only be provided once"@,
    {
        EventPhrases {
            no_arg_err: String::from_str("Provide at least one argument"),
            missing_arg_err: String::from_str("Provide an argument for this option"),
            invalid_arg_err: String::from_str("Invalid argument"),
            multi_arg_err: String::from_str("This argument can only be provided once"),
        }
    }
}

/// The parser's configuration toggles and phrases.
pub struct Settings {
    /// When set, undeclared tokens are collected without failing the parse.
    pub allow_invalid_args: bool,
    /// When set, `parse` first declares `-v`/`--version` and `-h`/`--help`.
    pub generate_default_flags: bool,
    /// When set, `parse` appends a generated help menu to the parser.
    pub generate_help_menu: bool,
    /// When set, an empty token stream parses successfully.
    pub allow_no_args: bool,
    pub event_phrases: EventPhrases,
}

impl Settings {
    /// The default configuration.
    pub fn new() -> (r: Settings)
        ensures
            !r.allow_invalid_args,
            r.generate_default_flags,
            r.generate_help_menu,
            !r.allow_no_args,
            r.event_phrases.no_arg_err@ == "Provide at least one argument"@,
            r.event_phrases.missing_arg_err@ == "Provide an argument for this option"@,
            r.event_phrases.invalid_arg_err@ == "Invalid argument"@,
            r.event_phrases.multi_arg_err@ == "This argument can only be provided once"@,
    {
        Settings {
            allow_invalid_args: false,
            generate_default_flags: true,
            generate_help_menu: true,
            allow_no_args: false,
            event_phrases: EventPhrases::new(),
        }
    }
}

} // verus!
