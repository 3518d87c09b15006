//! Errors of reading the configuration files: a file that does not parse,
//! a configuration that fails a semantic check, or a file that cannot be
//! read.
use vstd::prelude::*;
use vstd::string::StringExecFns;

use crate::config::dsl::errors::{push_decimal, spec_decimal};
use crate::config::validate;
use crate::config::validate::spec_code_str;

verus! {

#[derive(Debug)]
pub enum ConfigError {
    Parse { message: String, file: Option<String>, line: Option<usize>, column: Option<usize> },
    Validation { code: &'static str, message: String },
    Io { message: String },
}

/// `:line:column` where both are known, else nothing.
pub open spec fn spec_position(line: Option<usize>, column: Option<usize>) -> Option<(nat, nat)> {
    match (line, column) {
        (Some(l), Some(c)) => Some((l as nat, c as nat)),
        _ => None,
    }
}

/// The text an error is shown as.
pub open spec fn spec_config_error_text(e: ConfigError) -> Seq<char> {
    match e {
        ConfigError::Parse { message, file, line, column } => match file {
            Some(f) => f@ + match spec_position(line, column) {
                Some((l, c)) => ":"@ + spec_decimal(l) + ":"@ + spec_decimal(c),
                None => Seq::empty(),
            } + ":\n  "@ + message@,
            None => match spec_position(line, column) {
                Some((l, c)) => "line "@ + spec_decimal(l) + ":"@ + spec_decimal(c) + ": "@ + message@,
                None => message@,
            },
        },
        ConfigError::Validation { code, message } => "error["@ + code@ + "]: "@ + message@,
        ConfigError::Io { message } => message@,
    }
}

impl ConfigError {
    /// A parse error with `message`, in no file and at no position.
    pub fn parse(message: String) -> (e: Self)
        ensures
            e == (ConfigError::Parse { message, file: None, line: None, column: None }),
    {
        ConfigError::Parse { message, file: None, line: None, column: None }
    }

    /// The same error in the file `path`; other errors are unchanged.
    pub fn with_file(self, path: String) -> (e: Self)
        ensures
            e == (match self {
                ConfigError::Parse { message, line, column, .. } => ConfigError::Parse {
                    message,
                    file: Some(path),
                    line,
                    column,
                },
                other => other,
            }),
    {
        match self {
            ConfigError::Parse { message, line, column, .. } => ConfigError::Parse {
                message,
                file: Some(path),
                line,
                column,
            },
            other => other,
        }
    }

    /// The same error at `line` and `column`; other errors are unchanged.
    pub fn with_pos(self, line: usize, column: usize) -> (e: Self)
        ensures
            e == (match self {
                ConfigError::Parse { message, file, .. } => ConfigError::Parse {
                    message,
                    file,
                    line: Some(line),
                    column: Some(column),
                },
                other => other,
            }),
    {
        match self {
            ConfigError::Parse { message, file, .. } => ConfigError::Parse {
                message,
                file,
                line: Some(line),
                column: Some(column),
            },
            other => other,
        }
    }

    pub fn validation(code: &'static str, message: String) -> (e: Self)
        ensures
            e == (ConfigError::Validation { code, message }),
    {
        ConfigError::Validation { code, message }
    }

    pub fn io(message: String) -> (e: Self)
        ensures
            e == (ConfigError::Io { message }),
    {
        ConfigError::Io { message }
    }

    /// A failed semantic check, by its code and message.
    pub fn from_validation(e: validate::ConfigError) -> (r: Self)
        ensures
            r matches ConfigError::Validation { code, message } && code@ == spec_code_str(e.code)
                && message == e.message,
    {
        ConfigError::Validation { code: e.code.as_str(), message: e.message }
    }

    /// The text the error is shown as: `file:line:column:` and the message
    /// indented on the next line, `line l:c: message` without a file, or
    /// the message alone; `error[code]: message` for a failed check.
    pub fn to_display_string(&self) -> (s: String)
        ensures
            s@ == spec_config_error_text(*self),
    {
        match self {
            ConfigError::Parse { message, file, line, column } => {
                let pos: Option<(usize, usize)> = match (line, column) {
                    (Some(l), Some(c)) => Some((*l, *c)),
                    _ => None,
                };
                match file {
                    Some(f) => {
                        let mut s = f.clone();
                        if let Some((l, c)) = pos {
                            s.append(":");
                            push_decimal(&mut s, l as u64);
                            s.append(":");
                            push_decimal(&mut s, c as u64);
                        }
                        s.append(":\n  ");
                        s.append(message.as_str());
                        s
                    },
                    None => match pos {
                        Some((l, c)) => {
                            let mut s = "line ".to_owned();
                            push_decimal(&mut s, l as u64);
                            s.append(":");
                            push_decimal(&mut s, c as u64);
                            s.append(": ");
                            s.append(message.as_str());
                            s
                        },
                        None => message.clone(),
                    },
                }
            },
            ConfigError::Validation { code, message } => {
                let mut s = "error[".to_owned();
                s.append(code);
                s.append("]: ");
                s.append(message.as_str());
                s
            },
            ConfigError::Io { message } => message.clone(),
        }
    }
}

} // verus!
