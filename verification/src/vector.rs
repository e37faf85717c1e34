//! Two- and three-component vectors, and the parser for the fixed
//! parenthesized tuple notation that the auxiliary per-generation files
//! use for positions, e.g. `(12, -4)`.

use vstd::prelude::*;

use crate::error::{Error, ErrorKind};
use crate::number::{is_plain_int, parse_real_token, plain_int_text, real_render_of};
use crate::text::split_char;

verus! {

/// A two-component vector.
#[derive(Debug)]
pub struct Vector2<F> {
    pub x: F,
    pub y: F,
}

/// A three-component vector.
#[derive(Debug)]
pub struct Vector3<F> {
    pub x: F,
    pub y: F,
    pub z: F,
}

impl<F> Vector2<F> {
    /// The vector with the given components.
    pub fn new(x: F, y: F) -> (r: Self)
        ensures
            r.x == x,
            r.y == y,
    {
        Self { x, y }
    }
}

impl<F> Vector3<F> {
    /// The vector with the given components.
    pub fn new(x: F, y: F, z: F) -> (r: Self)
        ensures
            r.x == x,
            r.y == y,
            r.z == z,
    {
        Self { x, y, z }
    }
}

impl Default for Vector2<String> {
    /// The rendered zero vector: what a zero position prints as.
    fn default() -> (r: Self)
        ensures
            r.x@ == "0"@,
            r.y@ == "0"@,
    {
        Vector2 { x: String::from_str("0"), y: String::from_str("0") }
    }
}

/// Does `s` match the two-component tuple notation
/// `(<int>, <int>)` exactly: an opening parenthesis, a signed decimal
/// token, a comma and a single space, a second token, a closing
/// parenthesis?
pub open spec fn python_vec2_ok(s: Seq<char>) -> bool {
    let inner = s.subrange(1, s.len() - 1);
    let parts = split_char(inner, ',');
    &&& s.len() >= 2
    &&& s[0] == '('
    &&& s.last() == ')'
    &&& parts.len() == 2
    &&& plain_int_text(parts[0])
    &&& parts[1].len() >= 1
    &&& parts[1][0] == ' '
    &&& plain_int_text(parts[1].drop_first())
}

/// The first component's token of a matching tuple text.
pub open spec fn python_vec2_x(s: Seq<char>) -> Seq<char> {
    split_char(s.subrange(1, s.len() - 1), ',')[0]
}

/// The second component's token of a matching tuple text.
pub open spec fn python_vec2_y(s: Seq<char>) -> Seq<char> {
    split_char(s.subrange(1, s.len() - 1), ',')[1].drop_first()
}

/// Does `s` match the three-component tuple notation
/// `(<int>, <int>, <int>)` exactly?
pub open spec fn python_vec3_ok(s: Seq<char>) -> bool {
    let inner = s.subrange(1, s.len() - 1);
    let parts = split_char(inner, ',');
    &&& s.len() >= 2
    &&& s[0] == '('
    &&& s.last() == ')'
    &&& parts.len() == 3
    &&& plain_int_text(parts[0])
    &&& parts[1].len() >= 1
    &&& parts[1][0] == ' '
    &&& plain_int_text(parts[1].drop_first())
    &&& parts[2].len() >= 1
    &&& parts[2][0] == ' '
    &&& plain_int_text(parts[2].drop_first())
}

/// The component tokens of a matching three-component tuple text.
pub open spec fn python_vec3_x(s: Seq<char>) -> Seq<char> {
    split_char(s.subrange(1, s.len() - 1), ',')[0]
}

pub open spec fn python_vec3_y(s: Seq<char>) -> Seq<char> {
    split_char(s.subrange(1, s.len() - 1), ',')[1].drop_first()
}

pub open spec fn python_vec3_z(s: Seq<char>) -> Seq<char> {
    split_char(s.subrange(1, s.len() - 1), ',')[2].drop_first()
}

impl Vector2<String> {
    /// Parse the tuple notation; each component is kept as the canonical
    /// rendering of the real number its token denotes. Fails with a
    /// value error exactly when the text does not match the notation.
    pub fn parse_from_python(data: &str) -> (r: Result<Self, Error>)
        ensures
            r is Ok <==> python_vec2_ok(data@),
            r matches Ok(v) ==> real_render_of(python_vec2_x(data@)) == Some(v.x@)
                && real_render_of(python_vec2_y(data@)) == Some(v.y@),
            r matches Err(e) ==> e.kind == ErrorKind::Value,
    {
        let n = data.unicode_len();
        if n < 2 || data.get_char(0) != '(' || data.get_char(n - 1) != ')' {
            return Err(
                Error::with_kind(
                    ErrorKind::Value,
                    String::from_str("failed to parse the tuple notation"),
                ),
            );
        }
        let inner = data.substring_char(1, n - 1);
        let parts = crate::text::split_str(inner, ',');
        if parts.len() != 2 {
            return Err(
                Error::with_kind(
                    ErrorKind::Value,
                    String::from_str("failed to parse the tuple notation"),
                ),
            );
        }
        let second = &parts[1];
        let m = second.as_str().unicode_len();
        if !(is_plain_int(parts[0].as_str()) && m >= 1 && second.as_str().get_char(0) == ' ') {
            return Err(
                Error::with_kind(
                    ErrorKind::Value,
                    String::from_str("failed to parse the tuple notation"),
                ),
            );
        }
        let ytok = second.as_str().substring_char(1, m);
        proof {
            assert(ytok@ =~= python_vec2_y(data@));
        }
        if !is_plain_int(ytok) {
            return Err(
                Error::with_kind(
                    ErrorKind::Value,
                    String::from_str("failed to parse the tuple notation"),
                ),
            );
        }
        let x = parse_real_token(parts[0].as_str()).unwrap();
        let y = parse_real_token(ytok).unwrap();
        Ok(Vector2 { x, y })
    }
}

impl Vector3<String> {
    /// Parse the three-component tuple notation, as the two-component
    /// parser does.
    pub fn parse_from_python(data: &str) -> (r: Result<Self, Error>)
        ensures
            r is Ok <==> python_vec3_ok(data@),
            r matches Ok(v) ==> real_render_of(python_vec3_x(data@)) == Some(v.x@)
                && real_render_of(python_vec3_y(data@)) == Some(v.y@) && real_render_of(
                python_vec3_z(data@),
            ) == Some(v.z@),
            r matches Err(e) ==> e.kind == ErrorKind::Value,
    {
        let n = data.unicode_len();
        if n < 2 || data.get_char(0) != '(' || data.get_char(n - 1) != ')' {
            return Err(
                Error::with_kind(
                    ErrorKind::Value,
                    String::from_str("failed to parse the tuple notation"),
                ),
            );
        }
        let inner = data.substring_char(1, n - 1);
        let parts = crate::text::split_str(inner, ',');
        if parts.len() != 3 {
            return Err(
                Error::with_kind(
                    ErrorKind::Value,
                    String::from_str("failed to parse the tuple notation"),
                ),
            );
        }
        let second = &parts[1];
        let m1 = second.as_str().unicode_len();
        let third = &parts[2];
        let m2 = third.as_str().unicode_len();
        if !(is_plain_int(parts[0].as_str()) && m1 >= 1 && second.as_str().get_char(0) == ' ' && m2
            >= 1 && third.as_str().get_char(0) == ' ') {
            return Err(
                Error::with_kind(
                    ErrorKind::Value,
                    String::from_str("failed to parse the tuple notation"),
                ),
            );
        }
        let ytok = second.as_str().substring_char(1, m1);
        let ztok = third.as_str().substring_char(1, m2);
        proof {
            assert(ytok@ =~= python_vec3_y(data@));
            assert(ztok@ =~= python_vec3_z(data@));
        }
        if !is_plain_int(ytok) || !is_plain_int(ztok) {
            return Err(
                Error::with_kind(
                    ErrorKind::Value,
                    String::from_str("failed to parse the tuple notation"),
                ),
            );
        }
        let x = parse_real_token(parts[0].as_str()).unwrap();
        let y = parse_real_token(ytok).unwrap();
        let z = parse_real_token(ztok).unwrap();
        Ok(Vector3 { x, y, z })
    }
}

} // verus!
