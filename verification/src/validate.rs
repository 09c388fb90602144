use vstd::prelude::*;

verus! {

/// A product type is any non-empty string.
pub open spec fn valid_product_type(s: Seq<char>) -> bool {
    s.len() > 0
}

/// The characters at `i`, `i + 1`, `i + 2` spell the `://` separator that
/// divides a URL's scheme from the rest of the reference.
pub open spec fn scheme_sep_at(s: Seq<char>, i: int) -> bool {
    s[i] == ':' && s[i + 1] == '/' && s[i + 2] == '/'
}

/// A syntactically valid endpoint reference: a non-empty scheme, the `://`
/// separator, and a non-empty remainder.
pub open spec fn valid_url(s: Seq<char>) -> bool {
    exists|i: int| 1 <= i && i + 3 < s.len() && #[trigger] scheme_sep_at(s, i)
}

/// Decides [`valid_product_type`].
pub fn is_valid_product_type(s: &str) -> (r: bool)
    ensures
        r == valid_product_type(s@),
{
    !s.is_empty()
}

/// Decides [`valid_url`] by scanning for the first `://` separator.
pub fn is_valid_url(s: &str) -> (r: bool)
    ensures
        r == valid_url(s@),
{
    let n = s.unicode_len();
    if n < 5 {
        return false;
    }
    let mut i: usize = 1;
    while i < n - 3
        invariant
            1 <= i <= n - 3,
            5 <= n == s@.len(),
            forall|j: int| 1 <= j < i ==> !scheme_sep_at(s@, j),
        decreases n - i,
    {
        if s.get_char(i) == ':' && s.get_char(i + 1) == '/' && s.get_char(i + 2) == '/' {
            proof {
                assert(scheme_sep_at(s@, i as int));
            }
            return true;
        }
        i = i + 1;
    }
    false
}

} // verus!
