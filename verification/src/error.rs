//! What can go wrong while providers are found and loaded.

use vstd::prelude::*;
use vstd::string::StringExecFns;

verus! {

/// `std::io::Error`, carried through as it came.
#[verifier::external_type_specification]
#[verifier::external_body]
pub struct ExIoError(std::io::Error);

/// `libloading::Error`, carried through as it came.
#[verifier::external_type_specification]
#[verifier::external_body]
pub struct ExLibloadingError(libloading::Error);

/// Errors.
#[derive(Debug)]
#[non_exhaustive]
#[allow(inconsistent_fields)]
pub enum LoadError {
    /// Finding providers failed.
    IoError {
        /// The source error.
        source: std::io::Error,
    },
    /// Loading provider failed.
    LibloadingError {
        /// The source error.
        source: libloading::Error,
    },
    /// A plugin speaks a version of the contract that the host does not.
    UnsupportedVersion {
        /// The file that holds the plugin.
        path: String,
        /// The version that the plugin reported.
        version: i32,
    },
}

/// Renders a `std::io::Error` with its `Display` implementation. The text
/// comes from the operating system, so nothing is claimed about it.
#[verifier::external_body]
fn describe_io_error(source: &std::io::Error) -> (text: String) {
    format!("{}", source)
}

/// Renders a `libloading::Error` with its `Display` implementation. For
/// most variants the text is what the dynamic linker reported, so nothing
/// is claimed about it.
#[verifier::external_body]
fn describe_libloading_error(source: &libloading::Error) -> (text: String) {
    format!("{}", source)
}

/// The character for a digit.
pub open spec fn digit(value: nat) -> char {
    if value == 0 {
        '0'
    } else if value == 1 {
        '1'
    } else if value == 2 {
        '2'
    } else if value == 3 {
        '3'
    } else if value == 4 {
        '4'
    } else if value == 5 {
        '5'
    } else if value == 6 {
        '6'
    } else if value == 7 {
        '7'
    } else if value == 8 {
        '8'
    } else {
        '9'
    }
}

/// A natural number in decimal, with no leading zero but for zero itself.
pub open spec fn digits(value: nat) -> Seq<char>
    decreases value,
{
    if value < 10 {
        seq![digit(value)]
    } else {
        digits(value / 10).push(digit(value % 10))
    }
}

/// An integer in decimal, with a minus sign before a negative one.
pub open spec fn decimal(value: int) -> Seq<char> {
    if value < 0 {
        seq!['-'] + digits((-value) as nat)
    } else {
        digits(value as nat)
    }
}

/// The text of a digit.
fn digit_text(value: u32) -> (text: &'static str)
    requires
        value < 10,
    ensures
        text@ == seq![digit(value as nat)],
{
    proof {
        reveal_strlit("0");
        reveal_strlit("1");
        reveal_strlit("2");
        reveal_strlit("3");
        reveal_strlit("4");
        reveal_strlit("5");
        reveal_strlit("6");
        reveal_strlit("7");
        reveal_strlit("8");
        reveal_strlit("9");
    }
    let text = if value == 0 {
        "0"
    } else if value == 1 {
        "1"
    } else if value == 2 {
        "2"
    } else if value == 3 {
        "3"
    } else if value == 4 {
        "4"
    } else if value == 5 {
        "5"
    } else if value == 6 {
        "6"
    } else if value == 7 {
        "7"
    } else if value == 8 {
        "8"
    } else {
        "9"
    };
    assert(text@ =~= seq![digit(value as nat)]);
    text
}

/// Writes a natural number in decimal.
pub fn render_digits(value: u32) -> (text: String)
    ensures
        text@ == digits(value as nat),
    decreases value,
{
    if value < 10 {
        String::from_str(digit_text(value))
    } else {
        let text = render_digits(value / 10).concat(digit_text(value % 10));
        assert(text@ =~= digits(value as nat));
        text
    }
}

/// Writes an integer in decimal.
pub fn render_decimal(value: i32) -> (text: String)
    ensures
        text@ == decimal(value as int),
{
    if value < 0 {
        let magnitude: u32 = if value == i32::MIN {
            2147483648u32
        } else {
            (-value) as u32
        };
        proof {
            reveal_strlit("-");
        }
        let text = String::from_str("-").concat(render_digits(magnitude).as_str());
        assert(text@ =~= decimal(value as int));
        text
    } else {
        render_digits(value as u32)
    }
}

impl LoadError {
    /// How the message for an error of this variant begins.
    pub open spec fn prefix(&self) -> Seq<char> {
        match self {
            LoadError::IoError { .. } => "IO failed: "@,
            LoadError::LibloadingError { .. } => "Libloading failed: "@,
            LoadError::UnsupportedVersion { .. } => "Unsupported provider version "@,
        }
    }

    /// How the message for an error of this variant ends: a rejected plugin
    /// is named by its path, and nothing follows what a source error says.
    pub open spec fn suffix(&self) -> Seq<char> {
        match self {
            LoadError::UnsupportedVersion { path, .. } => " for provider "@ + path@,
            _ => Seq::empty(),
        }
    }

    /// The message for this error around `detail`: what the source error
    /// says of itself, or the version that the plugin reported.
    pub open spec fn worded(&self, detail: Seq<char>) -> Seq<char> {
        self.prefix() + detail + self.suffix()
    }

    /// Words the message for this error around `detail`: how the message
    /// begins, then the detail, then how the message ends.
    pub fn word(&self, detail: &str) -> (message: String)
        ensures
            message@ == self.worded(detail@),
    {
        let message = match self {
            LoadError::IoError { .. } => String::from_str("IO failed: ").concat(detail),
            LoadError::LibloadingError { .. } => String::from_str("Libloading failed: ").concat(
                detail,
            ),
            LoadError::UnsupportedVersion { path, .. } => String::from_str(
                "Unsupported provider version ",
            ).concat(detail).concat(" for provider ").concat(path.as_str()),
        };
        assert(message@ =~= self.worded(detail@));
        message
    }

    /// Describes the error for a human reader: what failed, then what the
    /// source error says. For a rejected plugin the detail is the version
    /// that it reported, in decimal; for the other errors it is the source
    /// error in its own words, which come from the operating system.
    pub fn message(&self) -> (message: String)
        ensures
            exists|detail: Seq<char>| message@ == #[trigger] self.worded(detail),
            self matches LoadError::UnsupportedVersion { version, .. } ==> message@ == self.worded(
                decimal(version as int),
            ),
    {
        match self {
            LoadError::IoError { source } => self.word(describe_io_error(source).as_str()),
            LoadError::LibloadingError { source } => self.word(
                describe_libloading_error(source).as_str(),
            ),
            LoadError::UnsupportedVersion { version, .. } => self.word(
                render_decimal(*version).as_str(),
            ),
        }
    }
}

} // verus!
