//! Real-number fields, held as their canonical textual rendering.
//!
//! The tool never computes with a real value: every real field is parsed
//! from text and later written back as text. The parse-and-render step is
//! the composition of `f64` parsing with the default formatting, which is
//! a fixed function of the input text; the library gives that function a
//! name and otherwise treats the rendering as opaque.

use vstd::prelude::*;

use crate::text::all_dec_digits;

verus! {

/// Is `s` an optional `-` sign followed by at least one decimal digit?
/// Such a token always lies inside the floating-point grammar.
pub open spec fn plain_int_text(s: Seq<char>) -> bool {
    let d = if s.len() > 0 && s[0] == '-' {
        s.drop_first()
    } else {
        s
    };
    d.len() > 0 && all_dec_digits(d)
}

/// Does `s` hold only characters that may appear in a signed decimal
/// token: a check of `plain_int_text` once the sign is split off.
pub fn is_plain_int(s: &str) -> (r: bool)
    ensures
        r == plain_int_text(s@),
{
    let n = s.unicode_len();
    let start: usize = if n > 0 && s.get_char(0) == '-' {
        1
    } else {
        0
    };
    let ghost d = if s@.len() > 0 && s@[0] == '-' {
        s@.drop_first()
    } else {
        s@
    };
    proof {
        assert(d =~= s@.subrange(start as int, n as int));
    }
    if start == n {
        return false;
    }
    let mut i: usize = start;
    while i < n
        invariant
            start <= i <= n,
            n == s@.len(),
            d == (if s@.len() > 0 && s@[0] == '-' {
                s@.drop_first()
            } else {
                s@
            }),
            d == s@.subrange(start as int, n as int),
            forall|k: int| start <= k < i ==> crate::text::is_dec_digit(#[trigger] s@[k]),
        decreases n - i,
    {
        let c = s.get_char(i);
        if !('0' <= c && c <= '9') {
            proof {
                assert(d[i - start] == s@[i as int]);
                assert(!all_dec_digits(d));
            }
            return false;
        }
        i = i + 1;
    }
    proof {
        assert(forall|k: int| 0 <= k < d.len() ==> crate::text::is_dec_digit(#[trigger] d[k]));
    }
    true
}

/// What parsing `s` as a double-precision real number and rendering it
/// back with the default, locale-independent formatting yields: `None`
/// when `s` is not in the parse grammar, else the rendered text. A fixed
/// function of `s` alone.
pub uninterp spec fn real_render_of(s: Seq<char>) -> Option<Seq<char>>;

/// Relies on `yaml_rust::Yaml::as_f64`, the core-schema real parse, whose
/// result depends on the text alone, and on the default formatting of the
/// parsed number: a signed decimal token is inside the documented parse
/// grammar, and the rendering of a number never contains white space or
/// separators. Beyond the plain floating-point grammar, the core schema
/// also accepts the `.inf`/`.Inf`/`.INF` (optionally signed) and
/// `.nan`/`.NAN` token families, which come back as the rendering of
/// infinity or of the non-number value; every other token is judged by
/// the plain grammar.
#[verifier::external_body]
pub fn parse_real_token(s: &str) -> (r: Option<String>)
    ensures
        r is Some <==> real_render_of(s@) is Some,
        r matches Some(t) ==> real_render_of(s@) == Some(t@),
        plain_int_text(s@) ==> r is Some,
        r matches Some(t) ==> forall|k: int|
            0 <= k < t@.len() ==> t@[k] != '\t' && t@[k] != '\n' && t@[k] != '\r',
{
    yaml_rust::Yaml::Real(s.to_owned()).as_f64().map(|v| v.to_string())
}

} // verus!
