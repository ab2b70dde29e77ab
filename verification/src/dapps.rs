//! Helpers of the web-apps front end: the landing page, redirection
//! addresses, and random filenames for unpacked app bundles.

use vstd::prelude::*;
use vstd::string::StringExecFns;
use rand::Rng;

verus! {

/// The top-level domain under which apps are served.
pub const DAPPS_DOMAIN: &'static str = ".parity";

/// The id of the landing page app.
pub fn main_page() -> (r: &'static str)
    ensures
        r@ == "home"@,
{
    "home"
}

/// The address a request for an app is redirected to: a subdomain of the
/// apps domain where subdomains are in use, a path otherwise.
pub fn redirection_address(using_dapps_domains: bool, app_id: &str) -> (r: String)
    ensures
        using_dapps_domains ==> r@ == "http://"@ + app_id@ + DAPPS_DOMAIN@ + "/"@,
        !using_dapps_domains ==> r@ == "/"@ + app_id@ + "/"@,
{
    if using_dapps_domains {
        let mut s = String::new();
        s.append("http://");
        s.append(app_id);
        s.append(DAPPS_DOMAIN);
        s.append("/");
        proof {
            assert(s@ =~= "http://"@ + app_id@ + DAPPS_DOMAIN@ + "/"@);
        }
        s
    } else {
        let mut s = String::new();
        s.append("/");
        s.append(app_id);
        s.append("/");
        proof {
            assert(s@ =~= "/"@ + app_id@ + "/"@);
        }
        s
    }
}

/// An ASCII digit or letter.
pub open spec fn is_alnum_char(c: char) -> bool {
    (48 <= c as u32 <= 57) || (65 <= c as u32 <= 90) || (97 <= c as u32 <= 122)
}

/// Relies on rand's `Alphanumeric` distribution sampled from the operating
/// system's entropy: each byte is an ASCII digit or letter; which one
/// depends on the machine, so nothing more is stated.  The process aborts
/// if the entropy source itself is unavailable.
#[verifier::external_body]
fn random_alnum_byte() -> (b: u8)
    ensures
        (48 <= b <= 57) || (65 <= b <= 90) || (97 <= b <= 122),
{
    rand::rngs::OsRng.sample(rand::distributions::Alphanumeric)
}

/// Relies on std's `String::from_utf8`: ASCII bytes convert to the string
/// of exactly those characters.
#[verifier::external_body]
fn ascii_to_string(bytes: Vec<u8>) -> (r: String)
    requires
        forall|i: int| 0 <= i < bytes@.len() ==> bytes@[i] < 128,
    ensures
        r@.len() == bytes@.len(),
        forall|i: int| 0 <= i < r@.len() ==> (#[trigger] r@[i]) as u32 == bytes@[i] as u32,
{
    String::from_utf8(bytes).unwrap_or_default()
}

/// A random filename: twelve ASCII digits or letters.
pub fn random_filename() -> (r: String)
    ensures
        r@.len() == 12,
        forall|i: int| 0 <= i < r@.len() ==> is_alnum_char(#[trigger] r@[i]),
{
    let mut bytes: Vec<u8> = Vec::new();
    let mut i: usize = 0;
    while i < 12
        invariant
            i <= 12,
            bytes@.len() == i,
            forall|j: int| 0 <= j < i ==> (48 <= #[trigger] bytes@[j] <= 57) || (65 <= bytes@[j]
                <= 90) || (97 <= bytes@[j] <= 122),
        decreases 12 - i,
    {
        let b = random_alnum_byte();
        bytes.push(b);
        i = i + 1;
    }
    ascii_to_string(bytes)
}

} // verus!
