//! Shape of the retailer's product ids.
use vstd::prelude::*;
use vstd::string::StringExecFns;

verus! {

/// `c` is an ASCII capital letter or digit.
pub open spec fn is_upper_alnum(c: char) -> bool {
    ('A' <= c && c <= 'Z') || ('0' <= c && c <= '9')
}

/// A product id: `B` followed by nine capital letters or digits, nothing around it.
pub open spec fn is_asin(s: Seq<char>) -> bool {
    &&& s.len() == 10
    &&& s[0] == 'B'
    &&& forall|i: int| 1 <= i < 10 ==> is_upper_alnum(#[trigger] s[i])
}

/// The regular expression for a product id.
pub open spec fn asin_pattern() -> Seq<char> {
    "^B[A-Z0-9]{9}$"@
}

/// Relies on `regex::Regex::new` and `Regex::is_match`. With the product-id
/// pattern, anchored at both ends (`$` matches only at the end of the text,
/// multi-line mode being off), a match is exactly `is_asin`.
#[verifier::external_body]
fn regex_is_match(pattern: &str, text: &str) -> (r: Option<bool>)
    ensures
        pattern@ == asin_pattern() ==> r == Some(is_asin(text@)),
{
    regex::Regex::new(pattern).ok().map(|re| re.is_match(text))
}

/// Whether `asin` has the shape of a product id.
pub fn looks_like_asin(asin: &str) -> (r: bool)
    ensures
        r == is_asin(asin@),
{
    let pattern: &str = "^B[A-Z0-9]{9}$";
    match regex_is_match(pattern, asin) {
        Some(b) => b,
        None => {
            // the pattern is the product-id pattern, for which the call succeeds
            assert(false);
            false
        },
    }
}

/// The message with which a text that is no product id is refused.
pub open spec fn not_asin_message(s: Seq<char>) -> Seq<char> {
    "Following string does not look like asin: '"@ + s + "'"@
}

/// Accepts `asin` as it stands where it has the shape of a product id, and
/// refuses it with a message naming it otherwise.
pub fn validate_asin(asin: &str) -> (r: Result<String, String>)
    ensures
        is_asin(asin@) ==> (r matches Ok(s) && s@ == asin@),
        !is_asin(asin@) ==> (r matches Err(m) && m@ == not_asin_message(asin@)),
{
    if looks_like_asin(asin) {
        Ok(String::from_str(asin))
    } else {
        let mut m = String::from_str("Following string does not look like asin: '");
        m.append(asin);
        m.append("'");
        Err(m)
    }
}

} // verus!
