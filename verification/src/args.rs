//! Worker command-line data: the application locator and the socket
//! path, with their defaults, and the split of `module:attr` into its two
//! parts.

use vstd::prelude::*;
use vstd::string::StrSliceExecFns;
use vstd::string::StringExecFns;

verus! {

/// The worker's arguments: the `module:attr` application locator and the
/// path of the local socket to bind.
#[derive(Debug)]
pub struct Arguments {
    pub module: String,
    pub sock: String,
}

impl core::default::Default for Arguments {
    /// The documented defaults: application `echo_server:app`, socket
    /// `/tmp/worker-1`.
    fn default() -> (r: Arguments)
        ensures
            r.module@ == "echo_server:app"@,
            r.sock@ == "/tmp/worker-1"@,
    {
        Arguments {
            module: String::from_str("echo_server:app"),
            sock: String::from_str("/tmp/worker-1"),
        }
    }
}

/// Splits an application locator at its first colon into module and
/// attribute. `None` exactly when the string holds no colon.
pub fn split_module_attr(s: &str) -> (r: Option<(String, String)>)
    ensures
        match r {
            Some(p) => s@ == p.0@ + seq![':'] + p.1@ && (forall|j: int|
                0 <= j < p.0@.len() ==> p.0@[j] != ':'),
            None => forall|j: int| 0 <= j < s@.len() ==> s@[j] != ':',
        },
{
    let n = s.unicode_len();
    let mut i: usize = 0;
    while i < n
        invariant
            0 <= i <= n,
            n == s@.len(),
            forall|j: int| 0 <= j < i ==> s@[j] != ':',
        decreases n - i,
    {
        if s.get_char(i) == ':' {
            let module = s.substring_char(0, i).to_owned();
            let attr = s.substring_char(i + 1, n).to_owned();
            proof {
                assert(s@ =~= module@ + seq![':'] + attr@);
            }
            return Some((module, attr));
        }
        i += 1;
    }
    None
}

} // verus!
