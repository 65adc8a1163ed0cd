//! What can go wrong, and how it is reported.
use crate::number::{decimal, decimal_text};
use vstd::prelude::*;
use vstd::string::*;

verus! {

/// The operating system's errors, carried through as they come.
#[verifier::external_type_specification]
#[verifier::external_body]
pub struct ExIoError(std::io::Error);

/// Convenience type alias used throughout the project.
pub type Result<T> = std::result::Result<T, BaanError>;

/// Everything that can go wrong.
#[derive(Debug)]
pub enum BaanError {
    /// Cannot open a file or device (EOPEN)
    Open { path: String, source: std::io::Error },
    /// Cannot read from a device (EREAD)
    Read { path: String, source: std::io::Error },
    /// Cannot write to a device (EWRITE)
    Write { detail: String, source: std::io::Error },
    /// Invalid character in trigger (EINVCH)
    InvalidCharacter { ch: char },
    /// Error initializing virtual input device (EINIT)
    InitVirtualInput { detail: String },
    /// Error adding key to virtual input device (EADD)
    AddKey { keycode: u32, detail: String },
    /// Error setting up virtual device (ESETUP)
    SetupVirtualDevice { detail: String },
    /// Error creating virtual device (ECREATE)
    CreateVirtualDevice { detail: String },
    /// Insufficient privileges (EPERM)
    Privileges,
    /// Command construction error (ECMD)
    Command { detail: String },
    /// A signal handler could not be installed
    Signal,
    /// Error removing the virtual device
    DestroyVirtualDevice { detail: String },
    /// A trigger in the configuration is not usable
    InvalidTrigger { line: usize, trigger: String, detail: String },
    /// The configuration cannot be read
    ParseConfigFile { line: usize, detail: String },
    /// Error getting UID (EUID)
    Uid,
    /// Ioctl error wrapper
    Ioctl { detail: String },
    /// Clipboard initialization error
    Clipboard,
}

/// The character as Rust's `{:?}` shows it: quoted, with escapes.
pub uninterp spec fn quoted_char(c: char) -> Seq<char>;

/// Formats a character with the standard library's `Debug` for `char`, which
/// is a function of the character alone. What it shows of which character is
/// not stated.
#[verifier::external_body]
fn quote_char(c: char) -> (text: String)
    ensures
        text@ == quoted_char(c),
{
    format!("{:?}", c)
}

/// Formats an operating system error with `Display` of `std::io::Error`. The
/// text comes from the operating system, so nothing is stated of it.
#[verifier::external_body]
fn io_text(error: &std::io::Error) -> (text: String) {
    format!("{}", error)
}

impl BaanError {
    /// The operating system error behind this one, if there is one.
    pub open spec fn cause(self) -> Option<std::io::Error> {
        match self {
            BaanError::Open { source, .. } => Some(source),
            BaanError::Read { source, .. } => Some(source),
            BaanError::Write { source, .. } => Some(source),
            _ => None,
        }
    }

    /// The report, given the text of the operating system error behind it.
    pub open spec fn report(self, source_text: Seq<char>) -> Seq<char> {
        match self {
            BaanError::Open { path, .. } => "Error opening '"@ + path@ + "': "@ + source_text,
            BaanError::Read { path, .. } => "Error reading from '"@ + path@ + "': "@ + source_text,
            BaanError::Write { detail, .. } => "Error writing: "@ + detail@ + " ("@ + source_text
                + ")"@,
            BaanError::InvalidCharacter { ch } => "Invalid character in trigger: "@ + quoted_char(
                ch,
            ),
            BaanError::InitVirtualInput { detail } => "Error initializing virtual input: "@
                + detail@,
            BaanError::AddKey { keycode, detail } => "Error adding key to virtual input: "@
                + decimal(keycode as nat) + ",detail: "@ + detail@,
            BaanError::SetupVirtualDevice { detail } => "Error setting up virtual device: "@
                + detail@,
            BaanError::CreateVirtualDevice { detail } => "Error creating virtual device: "@
                + detail@,
            BaanError::Privileges => "Need sudo privileges"@,
            BaanError::Command { detail } => "Command error: "@ + detail@,
            BaanError::Signal => "Failed to install signal handler"@,
            BaanError::DestroyVirtualDevice { detail } => "Error destroy device: "@ + detail@,
            BaanError::InvalidTrigger { line, trigger, detail } => "Invalid trigger line: "@
                + decimal(line as nat) + ", trigger: "@ + trigger@ + ", detail: "@ + detail@,
            BaanError::ParseConfigFile { line, detail } => "Invalid trigger line: "@ + decimal(
                line as nat,
            ) + ", detail: "@ + detail@,
            BaanError::Uid => "Error getting current user's UID"@,
            BaanError::Ioctl { detail } => "Ioctl error: "@ + detail@,
            BaanError::Clipboard => "Failed to initialize clipboard"@,
        }
    }

    /// The operating system error behind this one, if there is one.
    pub fn source(&self) -> (source: Option<&std::io::Error>)
        ensures
            match source {
                Some(source) => self.cause() == Some(*source),
                None => self.cause() is None,
            },
    {
        match self {
            BaanError::Open { source, .. } => Some(source),
            BaanError::Read { source, .. } => Some(source),
            BaanError::Write { source, .. } => Some(source),
            _ => None,
        }
    }

    /// The report, given the text of the operating system error behind it.
    pub fn render(&self, source_text: &str) -> (text: String)
        ensures
            text@ == self.report(source_text@),
    {
        match self {
            BaanError::Open { path, .. } => {
                let mut text = "Error opening '".to_owned();
                text.append(path.as_str());
                text.append("': ");
                text.append(source_text);
                text
            },
            BaanError::Read { path, .. } => {
                let mut text = "Error reading from '".to_owned();
                text.append(path.as_str());
                text.append("': ");
                text.append(source_text);
                text
            },
            BaanError::Write { detail, .. } => {
                let mut text = "Error writing: ".to_owned();
                text.append(detail.as_str());
                text.append(" (");
                text.append(source_text);
                text.append(")");
                text
            },
            BaanError::InvalidCharacter { ch } => {
                let mut text = "Invalid character in trigger: ".to_owned();
                text.append(quote_char(*ch).as_str());
                text
            },
            BaanError::InitVirtualInput { detail } => {
                let mut text = "Error initializing virtual input: ".to_owned();
                text.append(detail.as_str());
                text
            },
            BaanError::AddKey { keycode, detail } => {
                let mut text = "Error adding key to virtual input: ".to_owned();
                text.append(decimal_text(*keycode as u128).as_str());
                text.append(",detail: ");
                text.append(detail.as_str());
                text
            },
            BaanError::SetupVirtualDevice { detail } => {
                let mut text = "Error setting up virtual device: ".to_owned();
                text.append(detail.as_str());
                text
            },
            BaanError::CreateVirtualDevice { detail } => {
                let mut text = "Error creating virtual device: ".to_owned();
                text.append(detail.as_str());
                text
            },
            BaanError::Privileges => "Need sudo privileges".to_owned(),
            BaanError::Command { detail } => {
                let mut text = "Command error: ".to_owned();
                text.append(detail.as_str());
                text
            },
            BaanError::Signal => "Failed to install signal handler".to_owned(),
            BaanError::DestroyVirtualDevice { detail } => {
                let mut text = "Error destroy device: ".to_owned();
                text.append(detail.as_str());
                text
            },
            BaanError::InvalidTrigger { line, trigger, detail } => {
                let mut text = "Invalid trigger line: ".to_owned();
                text.append(decimal_text(*line as u128).as_str());
                text.append(", trigger: ");
                text.append(trigger.as_str());
                text.append(", detail: ");
                text.append(detail.as_str());
                text
            },
            BaanError::ParseConfigFile { line, detail } => {
                let mut text = "Invalid trigger line: ".to_owned();
                text.append(decimal_text(*line as u128).as_str());
                text.append(", detail: ");
                text.append(detail.as_str());
                text
            },
            BaanError::Uid => "Error getting current user's UID".to_owned(),
            BaanError::Ioctl { detail } => {
                let mut text = "Ioctl error: ".to_owned();
                text.append(detail.as_str());
                text
            },
            BaanError::Clipboard => "Failed to initialize clipboard".to_owned(),
        }
    }

    /// The report for the user. Where an operating system error is behind it,
    /// that error's own text stands in it.
    pub fn message(&self) -> (text: String)
        ensures
            self.cause() is None ==> text@ == self.report(Seq::empty()),
            exists|source_text: Seq<char>| text@ == #[trigger] self.report(source_text),
    {
        match self.source() {
            Some(source) => self.render(io_text(source).as_str()),
            None => {
                let none = "";
                proof {
                    reveal_strlit("");
                    assert(none@ =~= Seq::empty());
                }
                self.render(none)
            },
        }
    }
}

// ---------------------------------------------------------------------------
// Laws
// ---------------------------------------------------------------------------

/// A report says what went wrong and ends with the detail of it; errors behind
/// which the operating system is name the file or device and hold its words.
pub proof fn law_reports_hold_their_details(error: BaanError, words: Seq<char>)
    ensures
        match error {
            BaanError::Open { path, .. } => error.report(words) == "Error opening '"@ + path@
                + "': "@ + words,
            BaanError::Read { path, .. } => error.report(words) == "Error reading from '"@ + path@
                + "': "@ + words,
            BaanError::Write { detail, .. } => error.report(words) == "Error writing: "@ + detail@
                + " ("@ + words + ")"@,
            BaanError::InitVirtualInput { detail }
            | BaanError::SetupVirtualDevice { detail }
            | BaanError::CreateVirtualDevice { detail }
            | BaanError::Command { detail }
            | BaanError::DestroyVirtualDevice { detail }
            | BaanError::Ioctl { detail }
            | BaanError::AddKey { detail, .. }
            | BaanError::InvalidTrigger { detail, .. }
            | BaanError::ParseConfigFile { detail, .. } => {
                let report = error.report(words);
                report.len() > detail@.len() && report.skip(report.len() - detail@.len()) == detail@
            },
            _ => error.report(words).len() > 0,
        },
        error.cause() is Some <==> error is Open || error is Read || error is Write,
        error matches BaanError::Command { detail } ==> error.report(words) == "Command error: "@
            + detail@,
        error matches BaanError::ParseConfigFile { line, detail } ==> error.report(words)
            == "Invalid trigger line: "@ + decimal(line as nat) + ", detail: "@ + detail@,
{
    reveal_strlit("Error initializing virtual input: ");
    reveal_strlit("Error adding key to virtual input: ");
    reveal_strlit("Error setting up virtual device: ");
    reveal_strlit("Error creating virtual device: ");
    reveal_strlit("Command error: ");
    reveal_strlit("Error destroy device: ");
    reveal_strlit("Invalid trigger line: ");
    reveal_strlit("Ioctl error: ");
    reveal_strlit("Invalid character in trigger: ");
    reveal_strlit("Need sudo privileges");
    reveal_strlit("Failed to install signal handler");
    reveal_strlit("Error getting current user's UID");
    reveal_strlit("Failed to initialize clipboard");
    let report = error.report(words);
    match error {
        BaanError::InitVirtualInput { detail }
        | BaanError::SetupVirtualDevice { detail }
        | BaanError::CreateVirtualDevice { detail }
        | BaanError::Command { detail }
        | BaanError::DestroyVirtualDevice { detail }
        | BaanError::Ioctl { detail }
        | BaanError::AddKey { detail, .. }
        | BaanError::InvalidTrigger { detail, .. }
        | BaanError::ParseConfigFile { detail, .. } => {
            assert(report.skip(report.len() - detail@.len()) =~= detail@);
        },
        _ => {},
    }
}

} // verus!
