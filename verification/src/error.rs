use vstd::prelude::*;
use vstd::std_specs::convert::FromSpecImpl;
use vstd::string::StringExecFns;

verus! {

/// The error type of `std::io`, carried through untouched.
#[verifier::external_type_specification]
#[verifier::external_body]
pub struct ExIoError(std::io::Error);

/// WBMP error kinds.
#[derive(Debug)]
pub enum WbmpError {
    /// An I/O error occurred while reading or writing the image.
    IoError(std::io::Error),
    /// An unsupported image type identifier was encountered while decoding
    /// the image.
    UnsupportedType(u8),
    /// Unsupported extension headers were encountered while decoding the
    /// image.
    UnsupportedHeaders,
    /// The image does not support the requested operation.
    UsageError(String),
    /// Image data provided to the encoder is inconsistent with the provided
    /// type.
    InvalidImageData,
}

/// Result of an image decoding/encoding process.
pub type WbmpResult<T> = Result<T, WbmpError>;

/// The character that writes the digit `d`, for `d` below ten.
pub open spec fn digit_char(d: nat) -> char {
    if d == 0 {
        '0'
    } else if d == 1 {
        '1'
    } else if d == 2 {
        '2'
    } else if d == 3 {
        '3'
    } else if d == 4 {
        '4'
    } else if d == 5 {
        '5'
    } else if d == 6 {
        '6'
    } else if d == 7 {
        '7'
    } else if d == 8 {
        '8'
    } else {
        '9'
    }
}

/// The decimal numeral of `n`, without leading zeros.
pub open spec fn decimal(n: nat) -> Seq<char>
    decreases n,
{
    if n < 10 {
        seq![digit_char(n)]
    } else {
        decimal(n / 10).push(digit_char(n % 10))
    }
}

fn digit_str(d: u8) -> (s: &'static str)
    requires
        d < 10,
    ensures
        s@ == seq![digit_char(d as nat)],
{
    proof {
        reveal_strlit("0");
        reveal_strlit("1");
        reveal_strlit("2");
        reveal_strlit("3");
        reveal_strlit("4");
        reveal_strlit("5");
        reveal_strlit("6");
        reveal_strlit("7");
        reveal_strlit("8");
        reveal_strlit("9");
    }
    let s = if d == 0 {
        "0"
    } else if d == 1 {
        "1"
    } else if d == 2 {
        "2"
    } else if d == 3 {
        "3"
    } else if d == 4 {
        "4"
    } else if d == 5 {
        "5"
    } else if d == 6 {
        "6"
    } else if d == 7 {
        "7"
    } else if d == 8 {
        "8"
    } else {
        "9"
    };
    assert(s@ =~= seq![digit_char(d as nat)]);
    s
}

/// Appends the decimal numeral of `value` to `text`.
fn append_decimal(text: &mut String, value: u8)
    ensures
        final(text)@ == old(text)@ + decimal(value as nat),
{
    if value >= 100 {
        text.append(digit_str(value / 100));
    }
    if value >= 10 {
        text.append(digit_str((value / 10) % 10));
    }
    text.append(digit_str(value % 10));
    proof {
        let n = value as nat;
        reveal_with_fuel(decimal, 3);
        if n >= 100 {
            assert(decimal(n) == seq![digit_char(n / 100)].push(digit_char((n / 10) % 10)).push(
                digit_char(n % 10),
            ));
        }
        assert(final(text)@ =~= old(text)@ + decimal(n));
    }
}

impl WbmpError {
    /// The short name of the error kind.
    pub open spec fn spec_description(&self) -> Seq<char> {
        match self {
            WbmpError::IoError(..) => "IO error"@,
            WbmpError::UnsupportedType(..) => "Unsupported Type error"@,
            WbmpError::UnsupportedHeaders => "Unsupported Headers error"@,
            WbmpError::UsageError(..) => "Usage error"@,
            WbmpError::InvalidImageData => "Invalid image data error"@,
        }
    }

    /// The short name of the error kind.
    pub fn description(&self) -> (s: &'static str)
        ensures
            s@ == self.spec_description(),
    {
        match self {
            WbmpError::IoError(..) => "IO error",
            WbmpError::UnsupportedType(..) => "Unsupported Type error",
            WbmpError::UnsupportedHeaders => "Unsupported Headers error",
            WbmpError::UsageError(..) => "Usage error",
            WbmpError::InvalidImageData => "Invalid image data error",
        }
    }

    /// The underlying I/O error, if this error wraps one.
    pub fn cause(&self) -> (c: Option<&std::io::Error>)
        ensures
            c == match self {
                WbmpError::IoError(e) => Some(e),
                _ => None,
            },
    {
        match self {
            WbmpError::IoError(e) => Some(e),
            _ => None,
        }
    }

    /// The text shown for an error that does not wrap an I/O error.
    pub open spec fn spec_message(&self) -> Seq<char> {
        match self {
            WbmpError::IoError(..) => Seq::empty(),
            WbmpError::UsageError(f) => "The requested operation could not be completed "@ + f@,
            WbmpError::UnsupportedType(t) => "The Decoder does not support the image type `"@
                + decimal(*t as nat) + "`"@,
            WbmpError::UnsupportedHeaders => "The Decoder does not support extension headers"@,
            WbmpError::InvalidImageData => "The Image data does not match the ColorType"@,
        }
    }

    /// The human-readable text of the error. For a wrapped I/O error this is
    /// the text that the I/O error itself displays.
    pub fn message(&self) -> (s: String)
        ensures
            !(self is IoError) ==> s@ == self.spec_message(),
            self matches WbmpError::IoError(e) ==> vstd::string::to_string_from_display_ensures::<
                std::io::Error,
            >(e, s),
    {
        match self {
            WbmpError::IoError(e) => e.to_string(),
            WbmpError::UsageError(f) => {
                let mut s = String::from_str("The requested operation could not be completed ");
                s.append(f.as_str());
                s
            },
            WbmpError::UnsupportedType(t) => {
                let mut s = String::from_str("The Decoder does not support the image type `");
                append_decimal(&mut s, *t);
                s.append("`");
                s
            },
            WbmpError::UnsupportedHeaders => String::from_str(
                "The Decoder does not support extension headers",
            ),
            WbmpError::InvalidImageData => String::from_str(
                "The Image data does not match the ColorType",
            ),
        }
    }
}

impl From<std::io::Error> for WbmpError {
    fn from(err: std::io::Error) -> (e: WbmpError) {
        WbmpError::IoError(err)
    }
}

impl FromSpecImpl<std::io::Error> for WbmpError {
    open spec fn obeys_from_spec() -> bool {
        true
    }

    open spec fn from_spec(err: std::io::Error) -> WbmpError {
        WbmpError::IoError(err)
    }
}

} // verus!
