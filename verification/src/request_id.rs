//! Correlation-id resolution: an inbound id is kept when present and not
//! blank, otherwise a freshly generated one is used.  Generation itself
//! draws on the clock and a random source and stays outside; this module
//! only decides which id wins.

use vstd::prelude::*;

use crate::text::{chars_of, spec_trim, trim_chars};

verus! {

/// A value that trims down to nothing.
pub open spec fn spec_is_blank(s: Seq<char>) -> bool {
    spec_trim(s).len() == 0
}

/// Whether a header value is empty or all white space.
pub fn is_blank(s: &str) -> (r: bool)
    ensures
        r == spec_is_blank(s@),
{
    let cs = chars_of(s);
    let t = trim_chars(cs.as_slice());
    t.len() == 0
}

/// Keep a non-blank incoming id; otherwise take what the generator hands
/// out.  Whatever the generator promises of its result holds of the result
/// here when it ran.
pub fn resolve_request_id_with_generator<F: FnOnce() -> String>(
    incoming: Option<&str>,
    generate: F,
) -> (r: String)
    requires
        call_requires(generate, ()),
    ensures
        (incoming is Some && !spec_is_blank(incoming->0@)) ==> r@ == incoming->0@,
        !(incoming is Some && !spec_is_blank(incoming->0@)) ==> call_ensures(generate, (), r),
{
    match incoming {
        Some(v) => {
            if !is_blank(v) {
                v.to_owned()
            } else {
                generate()
            }
        },
        None => generate(),
    }
}

} // verus!
