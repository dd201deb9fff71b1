//! The error model: a stable code, which callers translate for display, and a message.

use vstd::prelude::*;
use vstd::string::StringExecFns;

verus! {

/// An error of no particular class.
pub const E_INTERNAL: &'static str = "INTERNAL";

/// An argument that is not acceptable.
pub const E_INVALID_ARG: &'static str = "INVALID_ARG";

/// A file system error.
pub const E_IO: &'static str = "IO";

/// No such track.
pub const E_TRACK_NOT_FOUND: &'static str = "TRACK_NOT_FOUND";

/// No such playlist.
pub const E_PLAYLIST_NOT_FOUND: &'static str = "PLAYLIST_NOT_FOUND";

/// No such music folder.
pub const E_FOLDER_NOT_FOUND: &'static str = "FOLDER_NOT_FOUND";

/// A file that cannot be decoded.
pub const E_DECODE: &'static str = "DECODE";

/// No usable audio device.
pub const E_AUDIO_DEVICE: &'static str = "AUDIO_DEVICE";

/// A file that is missing or cannot be read.
pub const E_FILE_UNAVAILABLE: &'static str = "FILE_UNAVAILABLE";

/// A scan is running already.
pub const E_SCAN_RUNNING: &'static str = "SCAN_RUNNING";

/// A database error.
pub const E_DB: &'static str = "DB";

/// An error as one line.
pub open spec fn rendered(code: Seq<char>, message: Seq<char>) -> Seq<char> {
    "["@ + code + "] "@ + message
}

#[derive(Debug, Clone)]
pub struct AppError {
    pub code: &'static str,
    pub message: String,
}

pub type AppResult<T> = Result<T, AppError>;

impl AppError {
    pub fn new(code: &'static str, message: String) -> (r: Self)
        ensures
            r.code == code,
            r.message == message,
    {
        AppError { code, message }
    }

    pub fn internal(message: String) -> (r: Self)
        ensures
            r.code@ == E_INTERNAL@,
            r.message == message,
    {
        Self::new(E_INTERNAL, message)
    }

    pub fn param(message: String) -> (r: Self)
        ensures
            r.code@ == E_INVALID_ARG@,
            r.message == message,
    {
        Self::new(E_INVALID_ARG, message)
    }

    pub fn not_found(message: String) -> (r: Self)
        ensures
            r.code@ == E_TRACK_NOT_FOUND@,
            r.message == message,
    {
        Self::new(E_TRACK_NOT_FOUND, message)
    }

    pub fn io(message: String) -> (r: Self)
        ensures
            r.code@ == E_IO@,
            r.message == message,
    {
        Self::new(E_IO, message)
    }

    /// The error as one line: the code in brackets, then the message.
    pub fn render(&self) -> (r: String)
        ensures
            r@ == rendered(self.code@, self.message@),
    {
        "[".to_owned().concat(self.code).concat("] ").concat(self.message.as_str())
    }
}

/// The codes that callers go by.
pub proof fn law_codes()
    ensures
        E_INTERNAL@ == "INTERNAL"@,
        E_INVALID_ARG@ == "INVALID_ARG"@,
        E_IO@ == "IO"@,
        E_TRACK_NOT_FOUND@ == "TRACK_NOT_FOUND"@,
        E_PLAYLIST_NOT_FOUND@ == "PLAYLIST_NOT_FOUND"@,
        E_FOLDER_NOT_FOUND@ == "FOLDER_NOT_FOUND"@,
        E_DECODE@ == "DECODE"@,
        E_AUDIO_DEVICE@ == "AUDIO_DEVICE"@,
        E_FILE_UNAVAILABLE@ == "FILE_UNAVAILABLE"@,
        E_SCAN_RUNNING@ == "SCAN_RUNNING"@,
        E_DB@ == "DB"@,
{
}

/// The line of an error holds its code in brackets and, behind a blank, its message.
pub proof fn law_rendered(code: Seq<char>, message: Seq<char>)
    ensures
        rendered(code, message).len() == code.len() + message.len() + 3,
        rendered(code, message)[0] == '[',
        rendered(code, message).subrange(1, 1 + code.len() as int) == code,
        rendered(code, message)[1 + code.len() as int] == ']',
        rendered(code, message)[2 + code.len() as int] == ' ',
        rendered(code, message).skip(3 + code.len() as int) == message,
{
    reveal_strlit("[");
    reveal_strlit("] ");
    let r = rendered(code, message);
    assert(r.subrange(1, 1 + code.len() as int) =~= code);
    assert(r.skip(3 + code.len() as int) =~= message);
}

} // verus!
