//! Errors of reading a configuration.
use vstd::prelude::*;
use vstd::string::StringExecFns;

verus! {

/// What went wrong while reading a configuration file.
#[derive(Debug)]
pub enum ConfigError {
    /// The text does not follow the language; `line` and `col` count from 1.
    Parse { message: String, line: usize, col: usize, file_path: Option<String> },
    /// The text follows the language but a value is not acceptable.
    Validation { code: &'static str, message: String, file_path: Option<String> },
    /// The file could not be read.
    Io { message: String, path: Option<String> },
}

/// The file that an error names when it names none: `config`.
pub open spec fn spec_path_or_config(p: Option<String>) -> Seq<char> {
    match p {
        Some(s) => s@,
        None => "config"@,
    }
}

/// The text of a number in decimal.
pub open spec fn spec_decimal(n: nat) -> Seq<char>
    decreases n,
{
    if n < 10 {
        seq![spec_digit_char(n)]
    } else {
        spec_decimal(n / 10).push(spec_digit_char(n % 10))
    }
}

pub open spec fn spec_digit_char(d: nat) -> char {
    if d == 0 { '0' }
    else if d == 1 { '1' }
    else if d == 2 { '2' }
    else if d == 3 { '3' }
    else if d == 4 { '4' }
    else if d == 5 { '5' }
    else if d == 6 { '6' }
    else if d == 7 { '7' }
    else if d == 8 { '8' }
    else { '9' }
}

/// How an error reads.
pub open spec fn spec_config_error_text(e: ConfigError) -> Seq<char> {
    match e {
        ConfigError::Parse { message, line, col, file_path } => "error: "@ + message@ + "\n --> "@
            + spec_path_or_config(file_path) + ":"@ + spec_decimal(line as nat) + ":"@
            + spec_decimal(col as nat),
        ConfigError::Validation { code, message, file_path } => "error["@ + code@ + "]: "@
            + message@ + "\n --> "@ + spec_path_or_config(file_path),
        ConfigError::Io { message, path } => "I/O error: "@ + message@ + match path {
            Some(p) => " at "@ + p@,
            None => Seq::empty(),
        },
    }
}

fn digit_str(d: usize) -> (c: &'static str)
    requires
        d < 10,
    ensures
        c@ == seq![spec_digit_char(d as nat)],
{
    proof {
        reveal_strlit("0");
        reveal_strlit("1");
        reveal_strlit("2");
        reveal_strlit("3");
        reveal_strlit("4");
        reveal_strlit("5");
        reveal_strlit("6");
        reveal_strlit("7");
        reveal_strlit("8");
        reveal_strlit("9");
    }
    if d == 0 { "0" }
    else if d == 1 { "1" }
    else if d == 2 { "2" }
    else if d == 3 { "3" }
    else if d == 4 { "4" }
    else if d == 5 { "5" }
    else if d == 6 { "6" }
    else if d == 7 { "7" }
    else if d == 8 { "8" }
    else { "9" }
}

/// Appends the decimal text of `n` to `out`.
pub fn push_decimal(out: &mut String, n: u64)
    ensures
        final(out)@ == old(out)@ + spec_decimal(n as nat),
    decreases n,
{
    if n < 10 {
        out.append(digit_str(n as usize));
    } else {
        push_decimal(out, n / 10);
        out.append(digit_str((n % 10) as usize));
        assert(final(out)@ =~= old(out)@ + spec_decimal(n as nat));
    }
}

impl ConfigError {
    /// The same error, naming the file `path`.
    pub fn with_file(self, path: String) -> (e: Self)
        ensures
            e == match self {
                ConfigError::Parse { message, line, col, .. } => ConfigError::Parse {
                    message,
                    line,
                    col,
                    file_path: Some(path),
                },
                ConfigError::Validation { code, message, .. } => ConfigError::Validation {
                    code,
                    message,
                    file_path: Some(path),
                },
                ConfigError::Io { message, .. } => ConfigError::Io { message, path: Some(path) },
            },
    {
        match self {
            ConfigError::Parse { message, line, col, .. } => ConfigError::Parse {
                message,
                line,
                col,
                file_path: Some(path),
            },
            ConfigError::Validation { code, message, .. } => ConfigError::Validation {
                code,
                message,
                file_path: Some(path),
            },
            ConfigError::Io { message, .. } => ConfigError::Io { message, path: Some(path) },
        }
    }

    /// A value that the language accepts but the configuration does not.
    pub fn parse(message: String) -> (e: Self)
        ensures
            e == (ConfigError::Validation { code: "PARSE", message, file_path: None }),
    {
        ConfigError::Validation { code: "PARSE", message, file_path: None }
    }

    pub fn validation(code: &'static str, message: String) -> (e: Self)
        ensures
            e == (ConfigError::Validation { code, message, file_path: None }),
    {
        ConfigError::Validation { code, message, file_path: None }
    }

    /// How the error reads (what `Display` shows).
    pub fn to_display_string(&self) -> (s: String)
        ensures
            s@ == spec_config_error_text(*self),
    {
        match self {
            ConfigError::Parse { message, line, col, file_path } => {
                let mut s = "error: ".to_owned();
                s.append(message.as_str());
                s.append("\n --> ");
                match file_path {
                    Some(p) => s.append(p.as_str()),
                    None => s.append("config"),
                }
                s.append(":");
                push_decimal(&mut s, *line as u64);
                s.append(":");
                push_decimal(&mut s, *col as u64);
                s
            },
            ConfigError::Validation { code, message, file_path } => {
                let mut s = "error[".to_owned();
                s.append(code);
                s.append("]: ");
                s.append(message.as_str());
                s.append("\n --> ");
                match file_path {
                    Some(p) => s.append(p.as_str()),
                    None => s.append("config"),
                }
                s
            },
            ConfigError::Io { message, path } => {
                let mut s = "I/O error: ".to_owned();
                s.append(message.as_str());
                match path {
                    Some(p) => {
                        s.append(" at ");
                        s.append(p.as_str());
                    },
                    None => {},
                }
                s
            },
        }
    }
}

} // verus!
