//! Verified text primitives shared by every loader: decimal parsing and
//! rendering, character splitting, line splitting and trimming.
//!
//! Each executable function is proved equal to a small recursive
//! specification function, so that the loaders built on top of them can
//! state their results as functions of the input text alone.

use vstd::prelude::*;

verus! {

// ---------------------------------------------------------------------
// Decimal digits
// ---------------------------------------------------------------------
/// Is `c` an ASCII decimal digit?
pub open spec fn is_dec_digit(c: char) -> bool {
    '0' <= c && c <= '9'
}

/// The numeric value of the digit `c`.
pub open spec fn digit_val(c: char) -> nat {
    (c as nat - '0' as nat) as nat
}

/// Does `s` consist of decimal digits only?
pub open spec fn all_dec_digits(s: Seq<char>) -> bool {
    forall|k: int| 0 <= k < s.len() ==> is_dec_digit(#[trigger] s[k])
}

/// The value of the digit string `s`, most significant digit first.
pub open spec fn dec_val(s: Seq<char>) -> nat
    decreases s.len(),
{
    if s.len() == 0 {
        0
    } else {
        dec_val(s.drop_last()) * 10 + digit_val(s.last())
    }
}

/// The digit part of an unsigned decimal token: everything after an
/// optional leading `+` sign.
pub open spec fn unsigned_digits(s: Seq<char>) -> Seq<char> {
    if s.len() > 0 && s[0] == '+' {
        s.drop_first()
    } else {
        s
    }
}

/// Is `s` a text that parses as a 64-bit unsigned decimal: an optional
/// leading `+`, then at least one digit, with a value that fits?
pub open spec fn valid_u64_text(s: Seq<char>) -> bool {
    let d = unsigned_digits(s);
    d.len() > 0 && all_dec_digits(d) && dec_val(d) <= u64::MAX
}

/// The value denoted by a valid unsigned decimal token.
pub open spec fn u64_text_val(s: Seq<char>) -> nat {
    dec_val(unsigned_digits(s))
}

/// A digit-string prefix never exceeds the value of the whole string.
proof fn lemma_dec_val_prefix(s: Seq<char>, n: int)
    requires
        0 <= n <= s.len(),
    ensures
        dec_val(s.subrange(0, n)) <= dec_val(s),
    decreases s.len() - n,
{
    if n == s.len() {
        assert(s.subrange(0, n) =~= s);
    } else {
        lemma_dec_val_prefix(s, n + 1);
        let t = s.subrange(0, n + 1);
        assert(t.drop_last() =~= s.subrange(0, n));
        assert(dec_val(t) == dec_val(s.subrange(0, n)) * 10 + digit_val(t.last()));
        assert(dec_val(s.subrange(0, n)) <= dec_val(s.subrange(0, n)) * 10) by (nonlinear_arith);
    }
}

/// Parse an unsigned 64-bit decimal token: an optional leading `+` sign,
/// then digits. Returns `None` exactly when the token is not a valid
/// `u64` text (empty digit part, a non-digit, or overflow).
pub fn parse_u64(s: &str) -> (r: Option<u64>)
    ensures
        r is Some <==> valid_u64_text(s@),
        r matches Some(v) ==> v == u64_text_val(s@),
{
    let n = s.unicode_len();
    let start: usize = if n > 0 && s.get_char(0) == '+' {
        1
    } else {
        0
    };
    let ghost d = unsigned_digits(s@);
    proof {
        assert(d =~= s@.subrange(start as int, n as int));
    }
    if start == n {
        return None;
    }
    let mut acc: u64 = 0;
    let mut i: usize = start;
    while i < n
        invariant
            start <= i <= n,
            n == s@.len(),
            d == unsigned_digits(s@),
            d == s@.subrange(start as int, n as int),
            all_dec_digits(s@.subrange(start as int, i as int)),
            acc == dec_val(s@.subrange(start as int, i as int)),
        decreases n - i,
    {
        let c = s.get_char(i);
        if !('0' <= c && c <= '9') {
            proof {
                assert(d[i - start] == c);
                assert(!is_dec_digit(d[i - start]));
                assert(!all_dec_digits(d));
            }
            return None;
        }
        let dv: u64 = (c as u32 as u64) - ('0' as u32 as u64);
        assert(dv == digit_val(c) && dv <= 9);
        if acc > (u64::MAX - dv) / 10 {
            proof {
                let p = s@.subrange(start as int, i as int + 1);
                assert(p.drop_last() =~= s@.subrange(start as int, i as int));
                assert(dec_val(p) == acc * 10 + dv);
                assert(acc * 10 + dv > u64::MAX) by (nonlinear_arith)
                    requires
                        acc > (u64::MAX - dv) / 10,
                        dv <= 9,
                ;
                assert(p =~= d.subrange(0, i - start + 1));
                lemma_dec_val_prefix(d, i - start + 1);
                assert(dec_val(d) > u64::MAX);
                assert(!valid_u64_text(s@));
            }
            return None;
        }
        proof {
            let p = s@.subrange(start as int, i as int + 1);
            assert(p.drop_last() =~= s@.subrange(start as int, i as int));
            assert(acc * 10 + dv <= u64::MAX) by (nonlinear_arith)
                requires
                    acc <= (u64::MAX - dv) / 10,
                    dv <= 9,
            ;
        }
        acc = acc * 10 + dv;
        i = i + 1;
    }
    proof {
        assert(s@.subrange(start as int, n as int) =~= d);
    }
    Some(acc)
}

// ---------------------------------------------------------------------
// Decimal rendering
// ---------------------------------------------------------------------
/// The character for the decimal digit `d`.
pub open spec fn dec_digit_char(d: nat) -> char {
    if d == 0 {
        '0'
    } else if d == 1 {
        '1'
    } else if d == 2 {
        '2'
    } else if d == 3 {
        '3'
    } else if d == 4 {
        '4'
    } else if d == 5 {
        '5'
    } else if d == 6 {
        '6'
    } else if d == 7 {
        '7'
    } else if d == 8 {
        '8'
    } else {
        '9'
    }
}

/// The decimal rendering of `n`, without sign or padding.
pub open spec fn dec_of(n: nat) -> Seq<char>
    decreases n,
{
    if n < 10 {
        seq![dec_digit_char(n)]
    } else {
        dec_of(n / 10).push(dec_digit_char(n % 10))
    }
}

/// The one-character string for the decimal digit `d`.
fn dec_digit_str(d: u64) -> (r: &'static str)
    requires
        d < 10,
    ensures
        r@ =~= seq![dec_digit_char(d as nat)],
{
    proof {
        reveal_strlit("0");
        reveal_strlit("1");
        reveal_strlit("2");
        reveal_strlit("3");
        reveal_strlit("4");
        reveal_strlit("5");
        reveal_strlit("6");
        reveal_strlit("7");
        reveal_strlit("8");
        reveal_strlit("9");
    }
    if d == 0 {
        "0"
    } else if d == 1 {
        "1"
    } else if d == 2 {
        "2"
    } else if d == 3 {
        "3"
    } else if d == 4 {
        "4"
    } else if d == 5 {
        "5"
    } else if d == 6 {
        "6"
    } else if d == 7 {
        "7"
    } else if d == 8 {
        "8"
    } else {
        "9"
    }
}

/// Render `n` in decimal, as `u64` values print by default.
pub fn u64_to_string(n: u64) -> (r: String)
    ensures
        r@ == dec_of(n as nat),
    decreases n,
{
    if n < 10 {
        String::from_str(dec_digit_str(n))
    } else {
        let mut head = u64_to_string(n / 10);
        head.append(dec_digit_str(n % 10));
        head
    }
}

// ---------------------------------------------------------------------
// Character search and splitting
// ---------------------------------------------------------------------
/// The index of the first occurrence of `c` in `s`, or `-1` if absent.
pub open spec fn first_index_of(s: Seq<char>, c: char) -> int
    decreases s.len(),
{
    if s.len() == 0 {
        -1
    } else if s[0] == c {
        0
    } else {
        let t = first_index_of(s.drop_first(), c);
        if t < 0 {
            -1
        } else {
            t + 1
        }
    }
}

/// `first_index_of` finds the first occurrence: what it returns is in
/// range and minimal, or `-1` with no occurrence at all.
pub proof fn lemma_first_index_of(s: Seq<char>, c: char)
    ensures
        first_index_of(s, c) == -1 ==> (forall|k: int| 0 <= k < s.len() ==> s[k] != c),
        first_index_of(s, c) != -1 ==> {
            let i = first_index_of(s, c);
            &&& 0 <= i < s.len()
            &&& s[i] == c
            &&& forall|k: int| 0 <= k < i ==> s[k] != c
        },
    decreases s.len(),
{
    if s.len() == 0 {
    } else if s[0] == c {
    } else {
        let t = s.drop_first();
        lemma_first_index_of(t, c);
        assert(forall|k: int| 1 <= k < s.len() ==> s[k] == #[trigger] t[k - 1]);
        if first_index_of(t, c) == -1 {
            assert(forall|k: int| 0 <= k < s.len() ==> s[k] != c) by {
                assert(forall|k: int| 1 <= k < s.len() ==> #[trigger] s[k] == t[k - 1] && t[k - 1]
                    != c);
            }
        } else {
            let j = first_index_of(t, c);
            assert(s[j + 1] == t[j]);
            assert(forall|k: int| 1 <= k < j + 1 ==> #[trigger] s[k] == t[k - 1] && t[k - 1] != c);
        }
    }
}

/// `s` split on `c`: the (possibly empty) stretches between occurrences
/// of `c`, in order. Always at least one part.
pub open spec fn split_char(s: Seq<char>, c: char) -> Seq<Seq<char>>
    decreases s.len(),
{
    let i = first_index_of(s, c);
    if i < 0 {
        seq![s]
    } else if 0 <= i < s.len() {
        seq![s.subrange(0, i)] + split_char(s.subrange(i + 1, s.len() as int), c)
    } else {
        seq![s]
    }
}

/// Splitting yields at least one part.
pub proof fn lemma_split_char_len(s: Seq<char>, c: char)
    ensures
        split_char(s, c).len() >= 1,
    decreases s.len(),
{
    let i = first_index_of(s, c);
    lemma_first_index_of(s, c);
    if 0 <= i < s.len() {
        lemma_split_char_len(s.subrange(i + 1, s.len() as int), c);
    }
}

/// The index of the first occurrence of `c` in `s` at or after `from`.
fn find_char(s: &str, from: usize, c: char) -> (r: Option<usize>)
    requires
        from <= s@.len(),
    ensures
        match r {
            Some(j) => {
                &&& from <= j < s@.len()
                &&& s@[j as int] == c
                &&& forall|k: int| from <= k < j ==> s@[k] != c
            },
            None => forall|k: int| from <= k < s@.len() ==> s@[k] != c,
        },
{
    let n = s.unicode_len();
    let mut i: usize = from;
    while i < n
        invariant
            from <= i <= n,
            n == s@.len(),
            forall|k: int| from <= k < i ==> s@[k] != c,
        decreases n - i,
    {
        if s.get_char(i) == c {
            return Some(i);
        }
        i = i + 1;
    }
    None
}

/// Split `s` on the character `c`, as `str::split` does: the parts
/// between occurrences, empty parts included.
pub fn split_str(s: &str, c: char) -> (r: Vec<String>)
    ensures
        r@.len() == split_char(s@, c).len(),
        forall|k: int| 0 <= k < r@.len() ==> #[trigger] r@[k]@ == split_char(s@, c)[k],
    decreases s@.len(),
{
    let n = s.unicode_len();
    proof {
        lemma_first_index_of(s@, c);
    }
    match find_char(s, 0, c) {
        None => {
            let mut r: Vec<String> = Vec::new();
            r.push(s.to_owned());
            proof {
                assert(first_index_of(s@, c) == -1) by {
                    if first_index_of(s@, c) != -1 {
                        assert(s@[first_index_of(s@, c)] == c);
                    }
                }
            }
            r
        },
        Some(j) => {
            proof {
                let i = first_index_of(s@, c);
                assert(i != -1 && i == j) by {
                    if i == -1 {
                        assert(s@[j as int] != c);
                    } else {
                        if i < j {
                            assert(s@[i] != c);
                        }
                        if j < i {
                            assert(s@[j as int] != c);
                        }
                    }
                }
            }
            let head = s.substring_char(0, j).to_owned();
            let tail = s.substring_char(j + 1, n);
            let rest = split_str(tail, c);
            let mut r: Vec<String> = Vec::new();
            r.push(head);
            let mut k: usize = 0;
            let ghost parts = split_char(s@, c);
            proof {
                assert(parts == seq![s@.subrange(0, j as int)] + split_char(tail@, c));
            }
            while k < rest.len()
                invariant
                    k <= rest.len(),
                    r@.len() == 1 + k,
                    parts.len() == 1 + rest@.len(),
                    r@[0]@ == parts[0],
                    forall|t: int| 0 <= t < rest@.len() ==> #[trigger] rest@[t]@ == parts[t + 1],
                    forall|t: int| 1 <= t < r@.len() ==> #[trigger] r@[t]@ == parts[t],
                decreases rest.len() - k,
            {
                let piece = rest[k].clone();
                assert(piece@ == rest@[k as int]@);
                r.push(piece);
                k = k + 1;
            }
            r
        },
    }
}

// ---------------------------------------------------------------------
// Lines
// ---------------------------------------------------------------------
/// `l` with one trailing carriage return removed, if present.
pub open spec fn strip_cr(l: Seq<char>) -> Seq<char> {
    if l.len() > 0 && l.last() == '\r' {
        l.drop_last()
    } else {
        l
    }
}

/// The lines of `s`, as a buffered reader yields them: split on `\n`,
/// no empty trailing line after a final terminator, and one trailing
/// `\r` stripped from each line.
pub open spec fn text_lines(s: Seq<char>) -> Seq<Seq<char>> {
    if s.len() == 0 {
        Seq::empty()
    } else {
        let parts = split_char(s, '\n');
        let kept = if s.last() == '\n' {
            parts.drop_last()
        } else {
            parts
        };
        kept.map_values(|l: Seq<char>| strip_cr(l))
    }
}

/// Split `s` into lines, as reading it line by line would.
pub fn lines_of(s: &str) -> (r: Vec<String>)
    ensures
        r@.len() == text_lines(s@).len(),
        forall|k: int| 0 <= k < r@.len() ==> #[trigger] r@[k]@ == text_lines(s@)[k],
{
    let n = s.unicode_len();
    if n == 0 {
        return Vec::new();
    }
    let mut parts = split_str(s, '\n');
    proof {
        lemma_split_char_len(s@, '\n');
    }
    if s.get_char(n - 1) == '\n' {
        parts.pop();
    }
    let ghost kept = if s@.last() == '\n' {
        split_char(s@, '\n').drop_last()
    } else {
        split_char(s@, '\n')
    };
    let mut r: Vec<String> = Vec::new();
    let mut k: usize = 0;
    while k < parts.len()
        invariant
            k <= parts@.len(),
            r@.len() == k,
            parts@.len() == kept.len(),
            forall|t: int| 0 <= t < parts@.len() ==> #[trigger] parts@[t]@ == kept[t],
            forall|t: int| 0 <= t < k ==> #[trigger] r@[t]@ == strip_cr(kept[t]),
        decreases parts.len() - k,
    {
        let line = &parts[k];
        let m = line.as_str().unicode_len();
        if m > 0 && line.as_str().get_char(m - 1) == '\r' {
            r.push(line.as_str().substring_char(0, m - 1).to_owned());
        } else {
            r.push(line.clone());
        }
        k = k + 1;
    }
    proof {
        assert(text_lines(s@) =~= kept.map_values(|l: Seq<char>| strip_cr(l)));
    }
    r
}

// ---------------------------------------------------------------------
// Trimming
// ---------------------------------------------------------------------
/// The characters with the Unicode `White_Space` property, which is what
/// trimming removes.
pub open spec fn is_space(c: char) -> bool {
    c == ' ' || c == '\t' || c == '\n' || c == '\r' || c == '\u{b}' || c == '\u{c}' || c == '\u{85}'
        || c == '\u{a0}' || c == '\u{1680}' || ('\u{2000}' <= c && c <= '\u{200a}') || c
        == '\u{2028}' || c == '\u{2029}' || c == '\u{202f}' || c == '\u{205f}' || c == '\u{3000}'
}

/// `s` without leading white space.
pub open spec fn trim_start_spec(s: Seq<char>) -> Seq<char>
    decreases s.len(),
{
    if s.len() > 0 && is_space(s[0]) {
        trim_start_spec(s.drop_first())
    } else {
        s
    }
}

/// `s` without trailing white space.
pub open spec fn trim_end_spec(s: Seq<char>) -> Seq<char>
    decreases s.len(),
{
    if s.len() > 0 && is_space(s.last()) {
        trim_end_spec(s.drop_last())
    } else {
        s
    }
}

/// `s` without leading and trailing white space.
pub open spec fn trim_spec(s: Seq<char>) -> Seq<char> {
    trim_end_spec(trim_start_spec(s))
}

proof fn lemma_trim_start_idx(s: Seq<char>, a: int)
    requires
        0 <= a <= s.len(),
        forall|k: int| 0 <= k < a ==> is_space(s[k]),
        a < s.len() ==> !is_space(s[a]),
    ensures
        trim_start_spec(s) == s.subrange(a, s.len() as int),
    decreases a,
{
    if a == 0 {
        if s.len() == 0 || !is_space(s[0]) {
            assert(s.subrange(0, s.len() as int) =~= s);
        }
    } else {
        let t = s.drop_first();
        lemma_trim_start_idx(t, a - 1);
        assert(t.subrange(a - 1, t.len() as int) =~= s.subrange(a, s.len() as int));
    }
}

proof fn lemma_trim_end_idx(s: Seq<char>, b: int)
    requires
        0 <= b <= s.len(),
        forall|k: int| b <= k < s.len() ==> is_space(s[k]),
        b > 0 ==> !is_space(s[b - 1]),
    ensures
        trim_end_spec(s) == s.subrange(0, b),
    decreases s.len(),
{
    if b == s.len() {
        if s.len() == 0 || !is_space(s.last()) {
            assert(s.subrange(0, s.len() as int) =~= s);
        } else {
            assert(!is_space(s[b - 1]) && is_space(s[s.len() - 1]));
        }
    } else {
        let t = s.drop_last();
        lemma_trim_end_idx(t, b);
        assert(t.subrange(0, b) =~= s.subrange(0, b));
    }
}

/// Is `c` white space, by the Unicode `White_Space` list.
pub fn is_space_char(c: char) -> (r: bool)
    ensures
        r == is_space(c),
{
    c == ' ' || c == '\t' || c == '\n' || c == '\r' || c == '\u{b}' || c == '\u{c}' || c == '\u{85}'
        || c == '\u{a0}' || c == '\u{1680}' || ('\u{2000}' <= c && c <= '\u{200a}') || c
        == '\u{2028}' || c == '\u{2029}' || c == '\u{202f}' || c == '\u{205f}' || c == '\u{3000}'
}

/// `s` with leading and trailing white space removed, as trimming a
/// string slice does.
pub fn trim(s: &str) -> (r: String)
    ensures
        r@ == trim_spec(s@),
{
    let n = s.unicode_len();
    let mut a: usize = 0;
    while a < n && is_space_char(s.get_char(a))
        invariant
            a <= n,
            n == s@.len(),
            forall|k: int| 0 <= k < a ==> is_space(s@[k]),
        decreases n - a,
    {
        a = a + 1;
    }
    proof {
        lemma_trim_start_idx(s@, a as int);
    }
    let ghost t = s@.subrange(a as int, n as int);
    let mut b: usize = n;
    while b > a && is_space_char(s.get_char(b - 1))
        invariant
            a <= b <= n,
            n == s@.len(),
            forall|k: int| b <= k < n ==> is_space(s@[k]),
        decreases b,
    {
        b = b - 1;
    }
    proof {
        assert(forall|k: int| b - a <= k < t.len() ==> is_space(#[trigger] t[k]));
        lemma_trim_end_idx(t, b - a);
        assert(t.subrange(0, b - a) =~= s@.subrange(a as int, b as int));
    }
    s.substring_char(a, b).to_owned()
}

// ---------------------------------------------------------------------
// Comparison
// ---------------------------------------------------------------------
/// Do two string slices hold the same characters?
pub fn str_eq(a: &str, b: &str) -> (r: bool)
    ensures
        r == (a@ == b@),
{
    let sa = String::from_str(a);
    let sb = String::from_str(b);
    sa == sb
}

/// Does `s` start with the characters of `p`?
pub fn has_prefix(s: &str, p: &str) -> (r: bool)
    ensures
        r == (s@.len() >= p@.len() && s@.subrange(0, p@.len() as int) == p@),
{
    let n = s.unicode_len();
    let m = p.unicode_len();
    if n < m {
        return false;
    }
    str_eq(s.substring_char(0, m), p)
}

/// Does `s` end with the characters of `p`?
pub fn has_suffix(s: &str, p: &str) -> (r: bool)
    ensures
        r == (s@.len() >= p@.len() && s@.subrange(
            s@.len() - p@.len(),
            s@.len() as int,
        ) == p@),
{
    let n = s.unicode_len();
    let m = p.unicode_len();
    if n < m {
        return false;
    }
    str_eq(s.substring_char(n - m, n), p)
}

/// Are the characters of `s` from `from` (inclusive) to `to` (exclusive)
/// all decimal digits, with at least one of them?
pub fn all_digits_in(s: &str, from: usize, to: usize) -> (r: bool)
    requires
        from <= to <= s@.len(),
    ensures
        r == (to > from && all_dec_digits(s@.subrange(from as int, to as int))),
{
    if to == from {
        return false;
    }
    let ghost d = s@.subrange(from as int, to as int);
    let mut i: usize = from;
    while i < to
        invariant
            from <= i <= to <= s@.len(),
            d == s@.subrange(from as int, to as int),
            forall|k: int| from <= k < i ==> is_dec_digit(#[trigger] s@[k]),
        decreases to - i,
    {
        let c = s.get_char(i);
        if !('0' <= c && c <= '9') {
            proof {
                assert(d[i - from] == s@[i as int]);
                assert(!all_dec_digits(d));
            }
            return false;
        }
        i = i + 1;
    }
    proof {
        assert forall|k: int| 0 <= k < d.len() implies is_dec_digit(#[trigger] d[k]) by {
            assert(d[k] == s@[k + from]);
        }
    }
    true
}

} // verus!
