//! The command's plain-value decisions around its inputs: which API key
//! to use, and the clamped paging values of the token-accounts request.

use vstd::prelude::*;
use vstd::string::StrSliceExecFns;

verus! {

/// Whether `c` carries no ink: the white-space characters, as a trimmed
/// string treats them.
pub open spec fn is_space_char(c: char) -> bool {
    let u = c as u32;
    ||| u == 0x20
    ||| (0x09 <= u <= 0x0D)
    ||| u == 0x85
    ||| u == 0xA0
    ||| u == 0x1680
    ||| (0x2000 <= u <= 0x200A)
    ||| u == 0x2028
    ||| u == 0x2029
    ||| u == 0x202F
    ||| u == 0x205F
    ||| u == 0x3000
}

/// A string that trims to nothing: every character is white space.
pub open spec fn is_blank(s: Seq<char>) -> bool {
    forall|i: int| 0 <= i < s.len() ==> is_space_char(#[trigger] s[i])
}

fn space_char(c: char) -> (r: bool)
    ensures
        r == is_space_char(c),
{
    let u = c as u32;
    u == 0x20 || (0x09 <= u && u <= 0x0D) || u == 0x85 || u == 0xA0 || u == 0x1680 || (0x2000 <= u
        && u <= 0x200A) || u == 0x2028 || u == 0x2029 || u == 0x202F || u == 0x205F || u == 0x3000
}

/// Whether `s` holds any character that survives trimming.
pub fn has_visible_char(s: &str) -> (r: bool)
    ensures
        r == !is_blank(s@),
{
    let n = s.unicode_len();
    let mut i: usize = 0;
    while i < n
        invariant
            n == s@.len(),
            i <= n,
            forall|m: int| 0 <= m < i ==> is_space_char(#[trigger] s@[m]),
        decreases n - i,
    {
        let c = s.get_char(i);
        if !space_char(c) {
            return true;
        }
        i += 1;
    }
    false
}

/// Which API key the explicit flag and the environment value select.
pub open spec fn spec_resolved_key(explicit: Option<String>, env_value: Option<String>) -> Option<
    String,
> {
    if explicit is Some && !is_blank(explicit->Some_0@) {
        explicit
    } else {
        env_value
    }
}

/// Picks the indexing-service key: an explicit flag value wins when it is
/// not blank, else whatever the environment supplied; `None` means the
/// command must fail with its missing-key error.
pub fn resolve_api_key(explicit: Option<String>, env_value: Option<String>) -> (r: Option<String>)
    ensures
        r == spec_resolved_key(explicit, env_value),
{
    match explicit {
        Some(e) => {
            if has_visible_char(e.as_str()) {
                Some(e)
            } else {
                env_value
            }
        },
        None => env_value,
    }
}

/// Clamps a paging value to what the request type carries.
pub fn clamp_page_value(v: u64) -> (r: u32)
    ensures
        r == vstd::math::min(v as int, u32::MAX as int),
{
    if v > u32::MAX as u64 {
        u32::MAX
    } else {
        v as u32
    }
}

/// The page size of the other-tokens lookup: a bounded over-fetch of
/// five entries per requested one, to leave room for filtering.
pub fn over_fetch_page_size(limit: usize) -> (r: u32)
    ensures
        r == vstd::math::min(5 * (limit as int), u32::MAX as int),
{
    let wide: u128 = (limit as u128) * 5;
    if wide > u32::MAX as u128 {
        u32::MAX
    } else {
        wide as u32
    }
}

} // verus!
