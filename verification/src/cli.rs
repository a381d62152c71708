//! Command-line options: the bare argument record and the parser for
//! `key=value` remap pairs.
use vstd::prelude::*;

use crate::strutil::find_from;

verus! {

/// The options given on the command line.
#[derive(Debug, PartialEq)]
pub struct Args {
    /// Directories to ignore, besides the built-in defaults.
    pub exclude_dirs: Vec<String>,
    /// Extra package indexes to consult when resolving.
    pub extra_indexes: Vec<String>,
    /// The index to consult first.
    pub preferred_index: Option<String>,
    /// Remap overrides, as key-value pairs.
    pub remap: Vec<(String, String)>,
}

/// Parses a `key=value` pair: the key is what precedes the first `=`,
/// the value everything after it.  A missing `=` or an empty key is an
/// error, with a message saying which.
pub fn remap_parser(s: &str) -> (r: Result<(String, String), String>)
    ensures
        ({
            let k = find_from(s@, 0, '=');
            match r {
                Ok(kv) => 0 < k < s@.len() && kv.0@ == s@.take(k) && kv.1@ == s@.skip(k + 1),
                Err(m) => (k == s@.len() && m@ == "Invalid key-value pair format. Use 'key=value'"@)
                    || (k == 0 && s@.len() > 0 && m@ == "Key cannot be empty"@),
            }
        }),
{
    let n = s.unicode_len();
    let mut k: usize = 0;
    while k < n && s.get_char(k) != '='
        invariant
            n == s@.len(),
            0 <= k <= n,
            forall|t: int| 0 <= t < k ==> s@[t] != '=',
        decreases n - k,
    {
        k += 1;
    }
    proof {
        crate::strutil::lemma_find_from_determined(s@, 0, k as int, '=');
    }
    if k == n {
        return Err(String::from_str("Invalid key-value pair format. Use 'key=value'"));
    }
    if k == 0 {
        return Err(String::from_str("Key cannot be empty"));
    }
    let key = String::from_str(s.substring_char(0, k));
    let value = String::from_str(s.substring_char(k + 1, n));
    proof {
        assert(key@ =~= s@.take(k as int));
        assert(value@ =~= s@.skip(k as int + 1));
    }
    Ok((key, value))
}

} // verus!
