//! Validated user fields: user names and email addresses.

use vstd::prelude::*;
use vstd::string::{StrSliceExecFns, StringExecFns};
use crate::errors::domain_error::{DomainError, DomainErrorKind};
use crate::text::{trim_str, trimmed};

verus! {

/// First index at or after `from` holding `c`, or the length.
pub open spec fn idx_of(s: Seq<char>, from: int, c: char) -> int
    decreases s.len() - from,
{
    if from < 0 || from >= s.len() {
        s.len() as int
    } else if s[from] == c {
        from
    } else {
        idx_of(s, from + 1, c)
    }
}

/// A character an email may hold: ASCII and not a space.
pub open spec fn email_char_ok(c: char) -> bool {
    c != ' ' && (c as int) < 128
}

/// First index at or after `from` holding a character an email may
/// not hold, or the length.
pub open spec fn first_bad_email_char(s: Seq<char>, from: int) -> int
    decreases s.len() - from,
{
    if from < 0 || from >= s.len() {
        s.len() as int
    } else if !email_char_ok(s[from]) {
        from
    } else {
        first_bad_email_char(s, from + 1)
    }
}

/// A validated user name: nonempty once trimmed.
#[derive(Clone, Debug, PartialEq, Eq, PartialOrd, Ord, Hash)]
pub struct UserName(String);

/// A validated email address: trimmed, ASCII without spaces, with
/// exactly one at sign, nonempty local and domain parts, and a dot in
/// the domain.
#[derive(Clone, Debug, PartialEq, Eq, PartialOrd, Ord, Hash)]
pub struct UserEmail(String);

impl vstd::view::View for UserName {
    type V = Seq<char>;

    closed spec fn view(&self) -> Seq<char> {
        self.0@
    }
}

impl UserName {
    /// Accepts any name that is nonempty after trimming and stores it
    /// trimmed.
    pub fn new(raw: &str) -> (r: Result<Self, DomainError>)
        ensures
            match r {
                Result::Ok(name) => {
                    &&& trimmed(raw@).len() > 0
                    &&& name@ == trimmed(raw@)
                },
                Result::Err(e) => {
                    &&& trimmed(raw@).len() == 0
                    &&& e.kind matches DomainErrorKind::EmptyField(f) && f@ == "username"@
                },
            },
    {
        let t = trim_str(raw);
        if t.unicode_len() == 0 {
            return Result::Err(DomainError::empty_field("username"));
        }
        Result::Ok(UserName(String::from_str(t)))
    }

    /// The validated name.
    pub fn to_string(&self) -> (r: String)
        ensures
            r@ == self@,
    {
        self.0.clone()
    }
}

/// Which validation step an email address fails at, if any; the
/// checks run in order on the trimmed value.
pub open spec fn email_wf(t: Seq<char>) -> bool {
    let at = idx_of(t, 0, '@');
    let at2 = idx_of(t, at + 1, '@');
    &&& t.len() > 0
    &&& first_bad_email_char(t, 0) == t.len()
    &&& at < t.len()
    &&& at > 0
    &&& at2 > at + 1
    &&& at2 == t.len()
    &&& idx_of(t, at + 1, '.') < t.len()
}

impl vstd::view::View for UserEmail {
    type V = Seq<char>;

    closed spec fn view(&self) -> Seq<char> {
        self.0@
    }
}

impl UserEmail {
    /// Accepts a well-formed email address and stores it trimmed;
    /// reports the first check the value fails.
    pub fn new(raw: &str) -> (r: Result<Self, DomainError>)
        ensures
            match r {
                Result::Ok(email) => {
                    &&& email_wf(trimmed(raw@))
                    &&& email@ == trimmed(raw@)
                },
                Result::Err(e) => {
                    let t = trimmed(raw@);
                    let at = idx_of(t, 0, '@');
                    let at2 = idx_of(t, at + 1, '@');
                    let bad = first_bad_email_char(t, 0);
                    &&& !email_wf(t)
                    &&& if t.len() == 0 {
                        e.kind matches DomainErrorKind::EmptyField(f) && f@ == "email"@
                    } else if bad < t.len() {
                        e.kind matches DomainErrorKind::IllegalCharacter(f, c, p) && f@
                            == "username"@ && c == t[bad] && p as int == bad
                    } else if at == t.len() {
                        e.kind matches DomainErrorKind::IllegalDataFormat(f, m) && f@ == "email"@
                            && m@ == "does not contain @"@
                    } else if at == 0 {
                        e.kind matches DomainErrorKind::IllegalDataFormat(f, m) && f@ == "email"@
                            && m@ == "local part is empty"@
                    } else if at2 == at + 1 {
                        e.kind matches DomainErrorKind::IllegalDataFormat(f, m) && f@ == "email"@
                            && m@ == "domain part is empty"@
                    } else if at2 < t.len() {
                        e.kind matches DomainErrorKind::IllegalDataFormat(f, m) && f@ == "email"@
                            && m@ == "contains more then 1 @"@
                    } else {
                        e.kind matches DomainErrorKind::IllegalDataFormat(f, m) && f@ == "email"@
                            && m@ == "domain does not contain '.'"@
                    }
                },
            },
    {
        let t = trim_str(raw);
        let n = t.unicode_len();
        if n == 0 {
            return Result::Err(DomainError::empty_field("email"));
        }
        let bad = find_bad_email_char(t);
        if bad < n {
            return Result::Err(DomainError::illegal_character("username", t.get_char(bad), bad));
        }
        let at = find_char(t, 0, '@');
        if at == n {
            return Result::Err(
                DomainError::illegal_data_format("email", "does not contain @"),
            );
        }
        if at == 0 {
            return Result::Err(DomainError::illegal_data_format("email", "local part is empty"));
        }
        let at2 = find_char(t, at + 1, '@');
        if at2 == at + 1 {
            return Result::Err(
                DomainError::illegal_data_format("email", "domain part is empty"),
            );
        }
        if at2 < n {
            return Result::Err(
                DomainError::illegal_data_format("email", "contains more then 1 @"),
            );
        }
        let dot = find_char(t, at + 1, '.');
        if dot == n {
            return Result::Err(
                DomainError::illegal_data_format("email", "domain does not contain '.'"),
            );
        }
        Result::Ok(UserEmail(String::from_str(t)))
    }

    /// The validated address.
    pub fn to_string(&self) -> (r: String)
        ensures
            r@ == self@,
    {
        self.0.clone()
    }
}

/// The first index at or after `from` holding `c`, or the length.
fn find_char(s: &str, from: usize, c: char) -> (r: usize)
    requires
        from <= s@.len(),
    ensures
        r as int == idx_of(s@, from as int, c),
        from <= r <= s@.len(),
{
    let n = s.unicode_len();
    let mut i: usize = from;
    while i < n
        invariant
            n == s@.len(),
            from <= i <= n,
            idx_of(s@, from as int, c) == idx_of(s@, i as int, c),
        decreases n - i,
    {
        let cc = s.get_char(i);
        if cc == c {
            return i;
        }
        i += 1;
    }
    n
}

/// The first index holding a character an email may not hold, or the
/// length.
fn find_bad_email_char(s: &str) -> (r: usize)
    ensures
        r as int == first_bad_email_char(s@, 0),
        r <= s@.len(),
{
    let n = s.unicode_len();
    let mut i: usize = 0;
    while i < n
        invariant
            n == s@.len(),
            i <= n,
            first_bad_email_char(s@, 0) == first_bad_email_char(s@, i as int),
        decreases n - i,
    {
        let c = s.get_char(i) as u32;
        if c == 32 || c >= 128 {
            proof {
                assert(!email_char_ok(s@[i as int]));
            }
            return i;
        }
        proof {
            assert(email_char_ok(s@[i as int]));
        }
        i += 1;
    }
    n
}

} // verus!
