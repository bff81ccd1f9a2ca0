//! Links that open a code block in the online playground, with the block's
//! text percent-encoded into the query.

use vstd::prelude::*;
use crate::text::{chars_of, trim, trim_bounds};

verus! {

/// What `url::percent_encoding::utf8_percent_encode` makes of `s` with
/// `QUERY_ENCODE_SET`.
pub uninterp spec fn query_encoded(s: Seq<char>) -> Seq<char>;

/// Relies on `url::percent_encoding::utf8_percent_encode` with
/// `QUERY_ENCODE_SET`, whose output depends on the input text alone.
#[verifier::external_body]
fn query_encode(s: &str) -> (r: String)
    ensures
        r@ == query_encoded(s@),
{
    url::percent_encoding::utf8_percent_encode(s, url::percent_encoding::QUERY_ENCODE_SET).to_string()
}

/// Characters that the query set leaves as they are but that would end or
/// garble a query parameter, or make the encoding ambiguous.
pub open spec fn is_param_special(c: char) -> bool {
    c == '&' || c == '=' || c == '%'
}

pub open spec fn param_escape(c: char) -> Seq<char> {
    if c == '&' {
        "%26"@
    } else if c == '=' {
        "%3D"@
    } else {
        "%25"@
    }
}

/// The encoding of one character.
pub open spec fn char_code(c: char) -> Seq<char> {
    if is_param_special(c) {
        param_escape(c)
    } else {
        query_encoded(seq![c])
    }
}

/// The encoding of `s`, character by character.
pub open spec fn url_code(s: Seq<char>) -> Seq<char>
    decreases s.len(),
{
    if s.len() == 0 {
        Seq::empty()
    } else {
        url_code(s.drop_last()) + char_code(s.last())
    }
}

pub open spec fn play_prefix() -> Seq<char> {
    "https://play.rust-lang.org/?code="@
}

pub open spec fn play_suffix() -> Seq<char> {
    "&version=nightly"@
}

/// The playground link for a code block whose text is `code`.
pub open spec fn play_url(code: Seq<char>) -> Seq<char> {
    play_prefix() + url_code(trim(code)) + play_suffix()
}

/// The link is a function of the code's trimmed text: equal texts, or texts
/// that differ only in surrounding whitespace, give the same link.
pub proof fn encoding_is_deterministic(a: Seq<char>, b: Seq<char>)
    requires
        trim(a) == trim(b),
    ensures
        play_url(a) == play_url(b),
{
}

/// The playground link for `code`, trimmed and percent-encoded.
pub fn encode_to_url(code: &str) -> (r: String)
    ensures
        r@ == play_url(code@),
{
    let v = chars_of(code);
    let (a, b) = trim_bounds(&v, 0);
    assert(v@.skip(0) =~= code@);
    let mut out = String::from_str("https://play.rust-lang.org/?code=");
    let mut i = a;
    while i < b
        invariant
            a <= i <= b <= v.len(),
            v@ == code@,
            out@ == play_prefix() + url_code(v@.subrange(a as int, i as int)),
        decreases b - i,
    {
        let c = v[i];
        if c == '&' {
            out.append("%26");
        } else if c == '=' {
            out.append("%3D");
        } else if c == '%' {
            out.append("%25");
        } else {
            let one = code.substring_char(i, i + 1);
            assert(one@ =~= seq![c]);
            let e = query_encode(one);
            out.append(e.as_str());
        }
        assert(v@.subrange(a as int, i + 1).drop_last() =~= v@.subrange(a as int, i as int));
        assert(out@ =~= play_prefix() + url_code(v@.subrange(a as int, i + 1)));
        i = i + 1;
    }
    out.append("&version=nightly");
    out
}

} // verus!
