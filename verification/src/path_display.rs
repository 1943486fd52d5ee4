//! How a workspace path is shown on the rail: a path under the operator's home
//! directory starts with `~` in its place.

use vstd::prelude::*;

use crate::text::{chars_of, chars_starts_with, string_from_chars, string_push, to_string};

verus! {

/// Whether `c` separates path segments, on either family of systems.
pub open spec fn is_separator(c: char) -> bool {
    c == '/' || c == '\\'
}

/// `path` with the home directory `home` shown as `~`. Only a whole leading
/// run of segments counts: the path must be the home itself, or continue it
/// with a separator. An absent or empty home leaves every path as it is.
pub open spec fn spec_short_home(path: Seq<char>, home: Option<Seq<char>>) -> Seq<char> {
    match home {
        Some(h) => if h.len() > 0 && h.len() <= path.len() && path.take(h.len() as int) == h {
            if path.len() == h.len() {
                seq!['~']
            } else if is_separator(path[h.len() as int]) {
                seq!['~'] + path.skip(h.len() as int)
            } else {
                path
            }
        } else {
            path
        },
        None => path,
    }
}

/// The view of an optional borrowed string.
pub open spec fn opt_view(home: Option<&str>) -> Option<Seq<char>> {
    match home {
        Some(h) => Some(h@),
        None => None,
    }
}

/// `path` with the operator's home directory compacted to `~`.
pub fn short_home(path: &str, home: Option<&str>) -> (r: String)
    ensures
        r@ == spec_short_home(path@, opt_view(home)),
{
    let h = match home {
        Some(h) => h,
        None => return to_string(path),
    };
    let v = chars_of(path);
    let hv = chars_of(h);
    if hv.len() == 0 || !chars_starts_with(v.as_slice(), hv.as_slice()) {
        return to_string(path);
    }
    if v.len() == hv.len() {
        let mut out = String::new();
        string_push(&mut out, '~');
        assert(out@ =~= seq!['~']);
        return out;
    }
    let c = v[hv.len()];
    if c == '/' || c == '\\' {
        let rest = string_from_chars(v.as_slice(), hv.len(), v.len());
        let mut out = String::new();
        string_push(&mut out, '~');
        let out = crate::text::concat(out.as_str(), rest.as_str());
        assert(out@ =~= seq!['~'] + path@.skip(h@.len() as int));
        out
    } else {
        to_string(path)
    }
}

} // verus!
