//! The error type shared by every operation, and the text that the front end
//! is shown for each error.
use vstd::prelude::*;
use crate::text::{join, push_str, push_signed_decimal, signed_decimal, push_char};

verus! {

/// Why an operation failed.
///
/// Errors that come from the operating system or from outside libraries
/// (`Io`, `Serde`, `Tauri`, `Utf8`) carry the text of the underlying error.
#[derive(Debug)]
pub enum AppError {
    Io(String),
    Command { cmd: String, code: Option<i32>, stderr: String },
    Parse(String),
    Invalid(String),
    NotFound(String),
    Serde(String),
    Tauri(String),
    Utf8(String),
}

/// The mathematical value of an [`AppError`].
pub enum AppErrorModel {
    Io(Seq<char>),
    Command { cmd: Seq<char>, code: Option<i32>, stderr: Seq<char> },
    Parse(Seq<char>),
    Invalid(Seq<char>),
    NotFound(Seq<char>),
    Serde(Seq<char>),
    Tauri(Seq<char>),
    Utf8(Seq<char>),
}

impl View for AppError {
    type V = AppErrorModel;

    open spec fn view(&self) -> AppErrorModel {
        match self {
            AppError::Io(m) => AppErrorModel::Io(m@),
            AppError::Command { cmd, code, stderr } => AppErrorModel::Command {
                cmd: cmd@,
                code: *code,
                stderr: stderr@,
            },
            AppError::Parse(m) => AppErrorModel::Parse(m@),
            AppError::Invalid(m) => AppErrorModel::Invalid(m@),
            AppError::NotFound(m) => AppErrorModel::NotFound(m@),
            AppError::Serde(m) => AppErrorModel::Serde(m@),
            AppError::Tauri(m) => AppErrorModel::Tauri(m@),
            AppError::Utf8(m) => AppErrorModel::Utf8(m@),
        }
    }
}

/// `Option<i32>` as `Debug` writes it.
pub open spec fn debug_code(code: Option<i32>) -> Seq<char> {
    match code {
        Some(c) => "Some("@ + signed_decimal(c as int) + ")"@,
        None => "None"@,
    }
}

impl AppErrorModel {
    /// The text shown for the error.
    pub open spec fn message(self) -> Seq<char> {
        match self {
            AppErrorModel::Io(m) => "io: "@ + m,
            AppErrorModel::Command { cmd, code, stderr } => "command `"@ + cmd + "` failed (exit="@
                + debug_code(code) + "): "@ + stderr,
            AppErrorModel::Parse(m) => "parse error: "@ + m,
            AppErrorModel::Invalid(m) => "invalid input: "@ + m,
            AppErrorModel::NotFound(m) => "not found: "@ + m,
            AppErrorModel::Serde(m) => "serde: "@ + m,
            AppErrorModel::Tauri(m) => "tauri: "@ + m,
            AppErrorModel::Utf8(m) => "utf-8: "@ + m,
        }
    }
}

/// The text of a command line: the program, a space, and the arguments
/// joined with spaces.
pub open spec fn command_line(program: Seq<char>, args: Seq<Seq<char>>) -> Seq<char> {
    program + seq![' '] + join(args)
}

/// The views of a list of strings.
pub open spec fn strings_view(v: Seq<String>) -> Seq<Seq<char>> {
    v.map_values(|s: String| s@)
}

impl AppError {
    /// An `Invalid` error with the given message.
    pub fn invalid(msg: String) -> (e: Self)
        ensures
            e@ == AppErrorModel::Invalid(msg@),
    {
        AppError::Invalid(msg)
    }

    /// A `Parse` error with the given message.
    pub fn parse(msg: String) -> (e: Self)
        ensures
            e@ == AppErrorModel::Parse(msg@),
    {
        AppError::Parse(msg)
    }

    /// A `NotFound` error with the given message.
    pub fn not_found(msg: String) -> (e: Self)
        ensures
            e@ == AppErrorModel::NotFound(msg@),
    {
        AppError::NotFound(msg)
    }

    /// A failed external command: `program args...` exited unsuccessfully.
    pub fn command(program: &str, args: &Vec<String>, code: Option<i32>, stderr: String) -> (e: Self)
        ensures
            e@ == (AppErrorModel::Command {
                cmd: command_line(program@, strings_view(args@)),
                code,
                stderr: stderr@,
            }),
    {
        let mut cmd = String::new();
        push_str(&mut cmd, program);
        push_char(&mut cmd, ' ');
        let mut k: usize = 0;
        while k < args.len()
            invariant
                k <= args@.len(),
                cmd@ == program@ + seq![' '] + join(strings_view(args@).take(k as int)),
            decreases args@.len() - k,
        {
            let ghost prev = strings_view(args@).take(k as int);
            if k > 0 {
                push_char(&mut cmd, ' ');
            }
            push_str(&mut cmd, args[k].as_str());
            proof {
                assert(strings_view(args@).take(k + 1) =~= prev.push(args@[k as int]@));
                crate::text::lemma_join_push(prev, args@[k as int]@);
                assert(cmd@ =~= program@ + seq![' '] + join(strings_view(args@).take(k + 1)));
            }
            k = k + 1;
        }
        proof {
            assert(strings_view(args@).take(args@.len() as int) =~= strings_view(args@));
        }
        AppError::Command { cmd, code, stderr }
    }

    /// The text shown for this error.
    pub fn message(&self) -> (s: String)
        ensures
            s@ == self@.message(),
    {
        let mut s = String::new();
        match self {
            AppError::Io(m) => {
                push_str(&mut s, "io: ");
                push_str(&mut s, m.as_str());
            },
            AppError::Command { cmd, code, stderr } => {
                push_str(&mut s, "command `");
                push_str(&mut s, cmd.as_str());
                push_str(&mut s, "` failed (exit=");
                match code {
                    Some(c) => {
                        push_str(&mut s, "Some(");
                        push_signed_decimal(&mut s, *c);
                        push_str(&mut s, ")");
                    },
                    None => {
                        push_str(&mut s, "None");
                    },
                }
                push_str(&mut s, "): ");
                push_str(&mut s, stderr.as_str());
            },
            AppError::Parse(m) => {
                push_str(&mut s, "parse error: ");
                push_str(&mut s, m.as_str());
            },
            AppError::Invalid(m) => {
                push_str(&mut s, "invalid input: ");
                push_str(&mut s, m.as_str());
            },
            AppError::NotFound(m) => {
                push_str(&mut s, "not found: ");
                push_str(&mut s, m.as_str());
            },
            AppError::Serde(m) => {
                push_str(&mut s, "serde: ");
                push_str(&mut s, m.as_str());
            },
            AppError::Tauri(m) => {
                push_str(&mut s, "tauri: ");
                push_str(&mut s, m.as_str());
            },
            AppError::Utf8(m) => {
                push_str(&mut s, "utf-8: ");
                push_str(&mut s, m.as_str());
            },
        }
        proof {
            assert(s@ =~= self@.message());
        }
        s
    }
}

} // verus!

verus! {

/// The value of a result that carries nothing on success.
pub open spec fn unit_result(r: Result<(), AppError>) -> Result<(), AppErrorModel> {
    match r {
        Ok(()) => Ok(()),
        Err(e) => Err(e@),
    }
}

/// The value of a result that carries a string on success.
pub open spec fn text_result(r: Result<String, AppError>) -> Result<Seq<char>, AppErrorModel> {
    match r {
        Ok(s) => Ok(s@),
        Err(e) => Err(e@),
    }
}

} // verus!
