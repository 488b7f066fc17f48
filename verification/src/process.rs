//! How a process ended: the browser starts none, so an exit status is a plain code.
use vstd::prelude::*;

use crate::text::{decimal, u64_to_decimal};

verus! {

/// How a process ended: its exit code.
#[derive(Debug, Clone, Copy, PartialEq, Eq, Structural)]
pub struct ExitStatus {
    code: i32,
}

impl View for ExitStatus {
    type V = i32;

    closed spec fn view(&self) -> i32 {
        self.code
    }
}

/// The decimal rendering of a signed code.
pub open spec fn signed_decimal(n: i32) -> Seq<char> {
    if n < 0 {
        seq!['-'] + decimal((-(n as int)) as nat)
    } else {
        decimal(n as nat)
    }
}

impl ExitStatus {
    /// The status of a process that exited with `code`.
    pub fn from_code(code: i32) -> (s: ExitStatus)
        ensures
            s@ == code,
    {
        ExitStatus { code }
    }

    /// Whether the code is zero.
    pub fn success(self) -> (r: bool)
        ensures
            r == (self@ == 0),
    {
        self.code == 0
    }

    /// The exit code, always known here.
    pub fn code(self) -> (r: Option<i32>)
        ensures
            r == Some(self@),
    {
        Some(self.code)
    }

    /// `exit status: {code}`.
    pub fn message(&self) -> (m: String)
        ensures
            m@ == "exit status: "@ + signed_decimal(self@),
    {
        let magnitude: u64 = if self.code < 0 {
            (-(self.code as i64)) as u64
        } else {
            self.code as u64
        };
        let digits = u64_to_decimal(magnitude);
        let s = String::from_str("exit status: ");
        if self.code < 0 {
            let s = s.concat("-");
            let m = s.concat(digits.as_str());
            proof {
                reveal_strlit("-");
                assert(magnitude as int == -(self.code as int));
                assert(m@ =~= "exit status: "@ + signed_decimal(self@));
            }
            m
        } else {
            s.concat(digits.as_str())
        }
    }
}

} // verus!
