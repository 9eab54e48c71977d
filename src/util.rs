//! Small shared helpers: message prefixes, path text, decimal option values
//! and the processor count.
use vstd::prelude::*;

use crate::text::{chars_of, copy_str, push_str};

verus! {

/// Why copying a file tree failed.
#[derive(Debug)]
pub enum UtilError {
    CreateDir(String, String),
    Copy(String, String, String),
    DirEntry(String),
    PathPrefix(String, String),
}

/// The name that prefixes every line the tool prints.
pub const TOOL_NAME: &'static str = "mkpkg";

/// The line printed for `msg`: the tool's name, a colon, a space, then `msg`.
pub fn display_msg(msg: &str) -> (r: String)
    ensures
        r@ == TOOL_NAME@ + ": "@ + msg@,
{
    let mut s = copy_str(TOOL_NAME);
    push_str(&mut s, ": ");
    push_str(&mut s, msg);
    s
}

/// The text of a path.
pub fn path_to_string(path: &str) -> (r: String)
    ensures
        r@ == path@,
{
    copy_str(path)
}

/// Why a decimal option value was refused.
#[derive(Clone, Copy, Debug, PartialEq, Eq, Structural)]
pub enum NumberError {
    Empty,
    InvalidDigit,
    TooLarge,
}

impl NumberError {
    /// The explanation shown to the user.
    pub fn message(&self) -> (r: String)
        ensures
            r@ == number_error_text(*self),
    {
        match self {
            NumberError::Empty => copy_str("cannot parse integer from empty string"),
            NumberError::InvalidDigit => copy_str("invalid digit found in string"),
            NumberError::TooLarge => copy_str("number too large to fit in target type"),
        }
    }
}

pub open spec fn number_error_text(e: NumberError) -> Seq<char> {
    match e {
        NumberError::Empty => "cannot parse integer from empty string"@,
        NumberError::InvalidDigit => "invalid digit found in string"@,
        NumberError::TooLarge => "number too large to fit in target type"@,
    }
}

pub open spec fn is_digit(c: char) -> bool {
    '0' <= c && c <= '9'
}

pub open spec fn digit_value(c: char) -> nat {
    (c as u32 - '0' as u32) as nat
}

/// Reads `digits` left to right onto `acc`, failing at the first character
/// that is not a digit or that takes the value past `u32::MAX`.
pub open spec fn read_digits(acc: nat, digits: Seq<char>) -> Result<nat, NumberError>
    decreases digits.len(),
{
    if digits.len() == 0 {
        Ok(acc)
    } else if !is_digit(digits[0]) {
        Err(NumberError::InvalidDigit)
    } else if acc * 10 + digit_value(digits[0]) > u32::MAX {
        Err(NumberError::TooLarge)
    } else {
        read_digits(acc * 10 + digit_value(digits[0]), digits.drop_first())
    }
}

/// The value of a decimal `u32` written as an optional `+` and digits.
pub open spec fn u32_value(s: Seq<char>) -> Result<nat, NumberError> {
    if s.len() == 0 {
        Err(NumberError::Empty)
    } else if s[0] == '+' {
        if s.len() == 1 {
            Err(NumberError::InvalidDigit)
        } else {
            read_digits(0, s.drop_first())
        }
    } else {
        read_digits(0, s)
    }
}

proof fn lemma_read_digits_bound(acc: nat, digits: Seq<char>)
    requires
        acc <= u32::MAX,
    ensures
        read_digits(acc, digits) matches Ok(v) ==> v <= u32::MAX,
    decreases digits.len(),
{
    if digits.len() > 0 && is_digit(digits[0]) && acc * 10 + digit_value(digits[0]) <= u32::MAX {
        lemma_read_digits_bound(acc * 10 + digit_value(digits[0]), digits.drop_first());
    }
}

/// Parses a decimal `u32`: an optional `+` followed by digits.
pub fn parse_u32(s: &str) -> (r: Result<u32, NumberError>)
    ensures
        match u32_value(s@) {
            Ok(v) => r == Ok::<u32, NumberError>(v as u32),
            Err(e) => r == Err::<u32, NumberError>(e),
        },
        u32_value(s@) matches Ok(v) ==> v <= u32::MAX,
{
    let cs = chars_of(s);
    if cs.len() == 0 {
        return Err(NumberError::Empty);
    }
    let mut i: usize = 0;
    if cs[0] == '+' {
        if cs.len() == 1 {
            return Err(NumberError::InvalidDigit);
        }
        i = 1;
    }
    let ghost start = i as int;
    assert(cs@.skip(0) == cs@);
    assert(cs@.skip(1) == cs@.drop_first());
    let mut acc: u64 = 0;
    while i < cs.len()
        invariant
            1 <= cs@.len(),
            start <= i <= cs@.len(),
            acc <= u32::MAX,
            cs@ == s@,
            u32_value(s@) == read_digits(0, cs@.skip(start)),
            read_digits(0, cs@.skip(start)) == read_digits(acc as nat, cs@.skip(i as int)),
        decreases cs@.len() - i,
    {
        let c = cs[i];
        assert(cs@.skip(i as int)[0] == c);
        assert(cs@.skip(i as int).drop_first() == cs@.skip(i + 1));
        if !('0' <= c && c <= '9') {
            return Err(NumberError::InvalidDigit);
        }
        let d = (c as u32 - '0' as u32) as u64;
        if acc * 10 + d > 4294967295 {
            return Err(NumberError::TooLarge);
        }
        acc = acc * 10 + d;
        i = i + 1;
    }
    proof {
        lemma_read_digits_bound(0, cs@.skip(start));
    }
    Ok(acc as u32)
}

/// Checks that an option value is a decimal `u32`; the error is the reason
/// it is not.
pub fn is_u32(val: String) -> (r: Result<(), String>)
    ensures
        match u32_value(val@) {
            Ok(_) => r is Ok,
            Err(e) => r matches Err(m) && m@ == number_error_text(e),
        },
{
    match parse_u32(val.as_str()) {
        Ok(_) => Ok(()),
        Err(e) => Err(e.message()),
    }
}

/// The value of an option that was already checked by `is_u32`.
pub fn convert_u32(val: Option<&str>) -> (r: Option<u32>)
    requires
        val matches Some(s) ==> u32_value(s@) is Ok,
    ensures
        match val {
            None => r is None,
            Some(s) => r == Some(u32_value(s@)->Ok_0 as u32),
        },
{
    match val {
        None => None,
        Some(s) => match parse_u32(s) {
            Ok(v) => Some(v),
            Err(_) => None,
        },
    }
}

/// Relies on `num_cpus::get`: the number of processors available to this
/// process, documented to be at least one.
#[verifier::external_body]
pub fn cpu_count() -> (r: usize)
    ensures
        r >= 1,
{
    num_cpus::get()
}

impl UtilError {
    /// The explanation shown to the user.
    pub open spec fn text(&self) -> Seq<char> {
        match self {
            UtilError::CreateDir(a, b) => "could not create directory '"@ + a@ + "': "@ + b@,
            UtilError::Copy(a, b, c) => "could not copy file from '"@ + a@ + "' to '"@ + b@ + "': "@ + c@,
            UtilError::DirEntry(a) => "found invalid directory entry: "@ + a@,
            UtilError::PathPrefix(a, b) => "found invalid path '"@ + a@ + "': "@ + b@,
        }
    }

    /// The explanation shown to the user, as `text` states.
    pub fn message(&self) -> (r: String)
        ensures
            r@ == self.text(),
    {
        let mut s = String::new();
        match self {
            UtilError::CreateDir(a, b) => {
                push_str(&mut s, "could not create directory '");
                push_str(&mut s, a.as_str());
                push_str(&mut s, "': ");
                push_str(&mut s, b.as_str());
                assert(s@ =~= self.text());
            },
            UtilError::Copy(a, b, c) => {
                push_str(&mut s, "could not copy file from '");
                push_str(&mut s, a.as_str());
                push_str(&mut s, "' to '");
                push_str(&mut s, b.as_str());
                push_str(&mut s, "': ");
                push_str(&mut s, c.as_str());
                assert(s@ =~= self.text());
            },
            UtilError::DirEntry(a) => {
                push_str(&mut s, "found invalid directory entry: ");
                push_str(&mut s, a.as_str());
                assert(s@ =~= self.text());
            },
            UtilError::PathPrefix(a, b) => {
                push_str(&mut s, "found invalid path '");
                push_str(&mut s, a.as_str());
                push_str(&mut s, "': ");
                push_str(&mut s, b.as_str());
                assert(s@ =~= self.text());
            },
        }
        s
    }
}

} // verus!
