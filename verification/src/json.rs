//! Lexical layer of the JSON deserializer: whitespace, strings with
//! escapes, number and literal lexemes, and a skipper for whole values.
//!
//! Every exec function mirrors a spec function that defines the grammar;
//! the contracts tie the two together exactly.

use vstd::prelude::*;
use vstd::string::*;

verus! {

// ---------------------------------------------------------------------
// Character classes and escapes
// ---------------------------------------------------------------------

pub open spec fn is_ws(c: char) -> bool {
    c == ' ' || c == '\n' || c == '\r' || c == '\t'
}

pub open spec fn is_digit(c: char) -> bool {
    48 <= c as u32 <= 57
}

pub open spec fn is_hex(c: char) -> bool {
    is_digit(c) || (97 <= c as u32 <= 102) || (65 <= c as u32 <= 70)
}

/// Value of one hexadecimal digit.
pub open spec fn hex_val(c: char) -> int {
    if is_digit(c) {
        c as u32 - 48
    } else if 97 <= c as u32 <= 102 {
        c as u32 - 87
    } else {
        c as u32 - 55
    }
}

/// The character denoted by a single-character escape, if the escape is
/// recognized.
pub open spec fn sp_escape(c: char) -> Option<char> {
    if c == '"' {
        Some('"')
    } else if c == '\\' {
        Some('\\')
    } else if c == '/' {
        Some('/')
    } else if c == 'b' {
        Some('\u{0008}')
    } else if c == 'f' {
        Some('\u{000C}')
    } else if c == 'n' {
        Some('\n')
    } else if c == 'r' {
        Some('\r')
    } else if c == 't' {
        Some('\t')
    } else {
        None
    }
}

/// Clamp a continuation position so that recursion always advances.
/// Whenever the producer of `j` really advanced past `i` and stayed in
/// bounds, `adv` is the identity.
pub open spec fn adv(i: int, j: int, n: int) -> int {
    if i < j && j <= n {
        j
    } else {
        i + 1
    }
}

// ---------------------------------------------------------------------
// Whitespace
// ---------------------------------------------------------------------

pub open spec fn sp_skip_ws(s: Seq<char>, i: int) -> int
    decreases s.len() - i,
{
    if 0 <= i < s.len() && is_ws(s[i]) {
        sp_skip_ws(s, i + 1)
    } else {
        i
    }
}

pub(crate) fn ws_char(c: char) -> (r: bool)
    ensures
        r == is_ws(c),
{
    c == ' ' || c == '\n' || c == '\r' || c == '\t'
}

pub(crate) fn digit_char(c: char) -> (r: bool)
    ensures
        r == is_digit(c),
{
    let u = c as u32;
    48 <= u && u <= 57
}

pub(crate) fn hex_char(c: char) -> (r: bool)
    ensures
        r == is_hex(c),
{
    let u = c as u32;
    (48 <= u && u <= 57) || (97 <= u && u <= 102) || (65 <= u && u <= 70)
}

pub(crate) fn skip_ws(s: &str, i: usize) -> (r: usize)
    requires
        i <= s@.len(),
    ensures
        r == sp_skip_ws(s@, i as int),
        i <= r <= s@.len(),
    decreases s@.len() - i,
{
    let n = s.unicode_len();
    if i < n {
        let c = s.get_char(i);
        if ws_char(c) {
            skip_ws(s, i + 1)
        } else {
            i
        }
    } else {
        i
    }
}

// ---------------------------------------------------------------------
// Strings
// ---------------------------------------------------------------------

/// Code point of the four hexadecimal digits at `i`, `i + 1`, `i + 2`,
/// `i + 3`.
pub open spec fn sp_hex4(s: Seq<char>, i: int) -> int {
    hex_val(s[i]) * 4096 + hex_val(s[i + 1]) * 256 + hex_val(s[i + 2]) * 16 + hex_val(s[i + 3])
}

pub open spec fn hex4_ok(s: Seq<char>, i: int) -> bool {
    is_hex(s[i]) && is_hex(s[i + 1]) && is_hex(s[i + 2]) && is_hex(s[i + 3])
}

/// Body of a JSON string, starting just after the opening quote.
/// Returns the decoded characters and the position just after the
/// closing quote.  A `\u` escape of a surrogate code point is rejected.
pub open spec fn sp_str_chars(s: Seq<char>, i: int) -> Option<(Seq<char>, int)>
    decreases s.len() - i,
{
    if i < 0 || i >= s.len() {
        None
    } else if s[i] == '"' {
        Some((Seq::<char>::empty(), i + 1))
    } else if s[i] == '\\' {
        if i + 1 >= s.len() {
            None
        } else if s[i + 1] == 'u' {
            if i + 6 <= s.len() && hex4_ok(s, i + 2) {
                let code = sp_hex4(s, i + 2);
                if 0xD800 <= code <= 0xDFFF {
                    None
                } else {
                    match sp_str_chars(s, i + 6) {
                        Some(t) => Some((seq![(code as u32) as char] + t.0, t.1)),
                        None => None,
                    }
                }
            } else {
                None
            }
        } else {
            match sp_escape(s[i + 1]) {
                Some(c) => match sp_str_chars(s, i + 2) {
                    Some(t) => Some((seq![c] + t.0, t.1)),
                    None => None,
                },
                None => None,
            }
        }
    } else {
        match sp_str_chars(s, i + 1) {
            Some(t) => Some((seq![s[i]] + t.0, t.1)),
            None => None,
        }
    }
}

/// A complete JSON string token at `i`: opening quote, body, closing
/// quote.  Returns the decoded characters and the position after the
/// closing quote.
pub open spec fn sp_parse_string(s: Seq<char>, i: int) -> Option<(Seq<char>, int)> {
    if 0 <= i < s.len() && s[i] == '"' {
        sp_str_chars(s, i + 1)
    } else {
        None
    }
}

/// Relies on `char::from_u32` of std: it returns `Some` exactly for
/// code points that are not surrogates and not above `0x10FFFF`, and
/// the returned character has the given code.
pub assume_specification[ char::from_u32 ](u: u32) -> (r: Option<char>)
    ensures
        (r is Some) == (u < 0xD800 || (0xDFFF < u && u <= 0x10FFFF)),
        r is Some ==> r->0 == u as char,
;

/// Relies on `String::push` of std: it appends the character to the end
/// of the string.
pub assume_specification[ String::push ](s: &mut String, c: char)
    ensures
        final(s)@ == old(s)@.push(c),
;

/// Decode a string body into `out`, returning the position after the
/// closing quote.  On failure `out` is garbage and the caller drops it.
pub(crate) fn str_chars_into(s: &str, i: usize, out: &mut String) -> (r: Option<usize>)
    requires
        i <= s@.len(),
    ensures
        (r is Some) == (sp_str_chars(s@, i as int) is Some),
        r is Some ==> ({
            let t = sp_str_chars(s@, i as int)->0;
            &&& r->0 == t.1
            &&& final(out)@ == old(out)@ + t.0
            &&& i < r->0 <= s@.len()
        }),
    decreases s@.len() - i,
{
    let n = s.unicode_len();
    if i >= n {
        return None;
    }
    let c = s.get_char(i);
    if c == '"' {
        assert(out@ =~= out@ + Seq::<char>::empty());
        Some(i + 1)
    } else if c == '\\' {
        if i + 1 >= n {
            return None;
        }
        let e = s.get_char(i + 1);
        if e == 'u' {
            if n - i < 6 {
                return None;
            }
            let h1 = s.get_char(i + 2);
            let h2 = s.get_char(i + 3);
            let h3 = s.get_char(i + 4);
            let h4 = s.get_char(i + 5);
            if !(hex_char(h1) && hex_char(h2) && hex_char(h3) && hex_char(h4)) {
                return None;
            }
            let code: u32 = hex_digit_value(h1) * 4096 + hex_digit_value(h2) * 256
                + hex_digit_value(h3) * 16 + hex_digit_value(h4);
            assert(code == sp_hex4(s@, i + 2));
            if 0xD800 <= code && code <= 0xDFFF {
                return None;
            }
            match char::from_u32(code) {
                Some(decoded) => {
                    let ghost out0 = out@;
                    out.push(decoded);
                    match str_chars_into(s, i + 6, out) {
                        Some(j) => {
                            proof {
                                let t = sp_str_chars(s@, i as int + 6)->0;
                                assert(out@ =~= out0 + (seq![decoded] + t.0));
                            }
                            Some(j)
                        },
                        None => None,
                    }
                },
                None => {
                    // unreachable: the surrogate range was rejected above
                    None
                },
            }
        } else {
            let mapped = escape_char(e);
            match mapped {
                Some(decoded) => {
                    let ghost out0 = out@;
                    out.push(decoded);
                    match str_chars_into(s, i + 2, out) {
                        Some(j) => {
                            proof {
                                let t = sp_str_chars(s@, i as int + 2)->0;
                                assert(out@ =~= out0 + (seq![decoded] + t.0));
                            }
                            Some(j)
                        },
                        None => None,
                    }
                },
                None => None,
            }
        }
    } else {
        let ghost out0 = out@;
        out.push(c);
        match str_chars_into(s, i + 1, out) {
            Some(j) => {
                proof {
                    let t = sp_str_chars(s@, i as int + 1)->0;
                    assert(out@ =~= out0 + (seq![c] + t.0));
                }
                Some(j)
            },
            None => None,
        }
    }
}

pub(crate) fn hex_digit_value(c: char) -> (r: u32)
    requires
        is_hex(c),
    ensures
        r == hex_val(c),
        r < 16,
{
    let u = c as u32;
    if 48 <= u && u <= 57 {
        u - 48
    } else if 97 <= u && u <= 102 {
        u - 87
    } else {
        u - 55
    }
}

pub(crate) fn escape_char(c: char) -> (r: Option<char>)
    ensures
        r == sp_escape(c),
{
    if c == '"' {
        Some('"')
    } else if c == '\\' {
        Some('\\')
    } else if c == '/' {
        Some('/')
    } else if c == 'b' {
        Some('\u{0008}')
    } else if c == 'f' {
        Some('\u{000C}')
    } else if c == 'n' {
        Some('\n')
    } else if c == 'r' {
        Some('\r')
    } else if c == 't' {
        Some('\t')
    } else {
        None
    }
}

/// Parse a complete string token at `i`, producing an owned string.
pub(crate) fn parse_string(s: &str, i: usize) -> (r: Option<(String, usize)>)
    requires
        i <= s@.len(),
    ensures
        (r is Some) == (sp_parse_string(s@, i as int) is Some),
        r is Some ==> ({
            let t = sp_parse_string(s@, i as int)->0;
            let p = r->0;
            &&& p.0@ == t.0
            &&& p.1 == t.1
            &&& i < p.1 <= s@.len()
        }),
{
    let n = s.unicode_len();
    if i >= n {
        return None;
    }
    if s.get_char(i) != '"' {
        return None;
    }
    let mut out = String::new();
    match str_chars_into(s, i + 1, &mut out) {
        Some(j) => Some((out, j)),
        None => None,
    }
}

// ---------------------------------------------------------------------
// Numbers and literals
// ---------------------------------------------------------------------

/// Position after a maximal run of decimal digits.
pub open spec fn sp_skip_digits(s: Seq<char>, i: int) -> int
    decreases s.len() - i,
{
    if 0 <= i < s.len() && is_digit(s[i]) {
        sp_skip_digits(s, i + 1)
    } else {
        i
    }
}

/// Position after a number lexeme at `i`: optional minus sign, one or
/// more digits, optional fraction, optional exponent.
pub open spec fn sp_skip_number(s: Seq<char>, i: int) -> Option<int> {
    if i < 0 || i >= s.len() {
        None
    } else {
        let j0 = if s[i] == '-' {
            i + 1
        } else {
            i
        };
        if j0 < s.len() && is_digit(s[j0]) {
            let j1 = sp_skip_digits(s, j0);
            match sp_skip_frac(s, j1) {
                Some(j2) => sp_skip_exp(s, j2),
                None => None,
            }
        } else {
            None
        }
    }
}

/// Position after an optional fraction part at `i`.
pub open spec fn sp_skip_frac(s: Seq<char>, i: int) -> Option<int> {
    if 0 <= i < s.len() && s[i] == '.' {
        if i + 1 < s.len() && is_digit(s[i + 1]) {
            Some(sp_skip_digits(s, i + 1))
        } else {
            None
        }
    } else {
        Some(i)
    }
}

/// Position after an optional exponent part at `i`.
pub open spec fn sp_skip_exp(s: Seq<char>, i: int) -> Option<int> {
    if 0 <= i < s.len() && (s[i] == 'e' || s[i] == 'E') {
        let j = if i + 1 < s.len() && (s[i + 1] == '+' || s[i + 1] == '-') {
            i + 2
        } else {
            i + 1
        };
        if j < s.len() && is_digit(s[j]) {
            Some(sp_skip_digits(s, j))
        } else {
            None
        }
    } else {
        Some(i)
    }
}

pub(crate) fn skip_digits(s: &str, i: usize) -> (r: usize)
    requires
        i <= s@.len(),
    ensures
        r == sp_skip_digits(s@, i as int),
        i <= r <= s@.len(),
    decreases s@.len() - i,
{
    let n = s.unicode_len();
    if i < n {
        let c = s.get_char(i);
        if digit_char(c) {
            skip_digits(s, i + 1)
        } else {
            i
        }
    } else {
        i
    }
}

pub(crate) fn skip_number(s: &str, i: usize) -> (r: Option<usize>)
    requires
        i <= s@.len(),
    ensures
        (r is Some) == (sp_skip_number(s@, i as int) is Some),
        r is Some ==> {
            &&& r->0 == sp_skip_number(s@, i as int)->0
            &&& i < r->0 <= s@.len()
        },
{
    let n = s.unicode_len();
    if i >= n {
        return None;
    }
    let j0 = if s.get_char(i) == '-' {
        i + 1
    } else {
        i
    };
    if j0 >= n || !digit_char(s.get_char(j0)) {
        return None;
    }
    let j1 = skip_digits(s, j0 + 1);
    assert(j1 == sp_skip_digits(s@, j0 as int));
    // fraction
    let j2 = if j1 < n && s.get_char(j1) == '.' {
        if j1 + 1 < n && digit_char(s.get_char(j1 + 1)) {
            skip_digits(s, j1 + 1)
        } else {
            return None;
        }
    } else {
        j1
    };
    assert(Some(j2 as int) == sp_skip_frac(s@, j1 as int));
    // exponent
    if j2 < n && (s.get_char(j2) == 'e' || s.get_char(j2) == 'E') {
        let j = if j2 + 1 < n && (s.get_char(j2 + 1) == '+' || s.get_char(j2 + 1) == '-') {
            j2 + 2
        } else {
            j2 + 1
        };
        if j < n && digit_char(s.get_char(j)) {
            Some(skip_digits(s, j))
        } else {
            None
        }
    } else {
        Some(j2)
    }
}

/// Position after `true`, `false` or `null` at `i`.
pub open spec fn sp_skip_literal(s: Seq<char>, i: int) -> Option<int> {
    if i < 0 || i >= s.len() {
        None
    } else if s[i] == 't' {
        if i + 4 <= s.len() && s[i + 1] == 'r' && s[i + 2] == 'u' && s[i + 3] == 'e' {
            Some(i + 4)
        } else {
            None
        }
    } else if s[i] == 'f' {
        if i + 5 <= s.len() && s[i + 1] == 'a' && s[i + 2] == 'l' && s[i + 3] == 's' && s[i + 4]
            == 'e' {
            Some(i + 5)
        } else {
            None
        }
    } else if s[i] == 'n' {
        if i + 4 <= s.len() && s[i + 1] == 'u' && s[i + 2] == 'l' && s[i + 3] == 'l' {
            Some(i + 4)
        } else {
            None
        }
    } else {
        None
    }
}

pub(crate) fn skip_literal(s: &str, i: usize) -> (r: Option<usize>)
    requires
        i <= s@.len(),
    ensures
        (r is Some) == (sp_skip_literal(s@, i as int) is Some),
        r is Some ==> {
            &&& r->0 == sp_skip_literal(s@, i as int)->0
            &&& i < r->0 <= s@.len()
        },
{
    let n = s.unicode_len();
    if i >= n {
        return None;
    }
    let c = s.get_char(i);
    if c == 't' {
        if n - i >= 4 && s.get_char(i + 1) == 'r' && s.get_char(i + 2) == 'u' && s.get_char(i + 3)
            == 'e' {
            Some(i + 4)
        } else {
            None
        }
    } else if c == 'f' {
        if n - i >= 5 && s.get_char(i + 1) == 'a' && s.get_char(i + 2) == 'l' && s.get_char(i + 3)
            == 's' && s.get_char(i + 4) == 'e' {
            Some(i + 5)
        } else {
            None
        }
    } else if c == 'n' {
        if n - i >= 4 && s.get_char(i + 1) == 'u' && s.get_char(i + 2) == 'l' && s.get_char(i + 3)
            == 'l' {
            Some(i + 4)
        } else {
            None
        }
    } else {
        None
    }
}

// ---------------------------------------------------------------------
// Skipping whole values
// ---------------------------------------------------------------------

/// Scan past the remainder of a composite value opened before `i`,
/// tracking `depth` nested brackets and braces.  Strings are decoded so
/// that brackets inside them do not count.  The scan is deliberately
/// lenient about the inner structure: a skipped value only needs
/// balanced nesting and well-formed string tokens.
pub open spec fn sp_skip_composite(s: Seq<char>, i: int, depth: nat) -> Option<int>
    decreases s.len() - i,
{
    if i < 0 || i >= s.len() {
        None
    } else if s[i] == '"' {
        match sp_parse_string(s, i) {
            Some(t) => sp_skip_composite(s, adv(i, t.1, s.len() as int), depth),
            None => None,
        }
    } else if s[i] == '{' || s[i] == '[' {
        sp_skip_composite(s, i + 1, depth + 1)
    } else if s[i] == '}' || s[i] == ']' {
        if depth == 1 {
            Some(i + 1)
        } else {
            sp_skip_composite(s, i + 1, (depth - 1) as nat)
        }
    } else {
        sp_skip_composite(s, i + 1, depth)
    }
}

/// Position after the JSON value starting at `i`.
pub open spec fn sp_skip_value(s: Seq<char>, i: int) -> Option<int> {
    if i < 0 || i >= s.len() {
        None
    } else if s[i] == '"' {
        match sp_parse_string(s, i) {
            Some(t) => Some(t.1),
            None => None,
        }
    } else if s[i] == '{' || s[i] == '[' {
        sp_skip_composite(s, i + 1, 1)
    } else if s[i] == '-' || is_digit(s[i]) {
        sp_skip_number(s, i)
    } else {
        sp_skip_literal(s, i)
    }
}

pub(crate) fn skip_composite(s: &str, i: usize, depth: u64) -> (r: Option<usize>)
    requires
        i <= s@.len(),
        depth >= 1,
    ensures
        (r is Some) == (sp_skip_composite(s@, i as int, depth as nat) is Some),
        r is Some ==> {
            &&& r->0 == sp_skip_composite(s@, i as int, depth as nat)->0
            &&& i < r->0 <= s@.len()
        },
    decreases s@.len() - i,
{
    let n = s.unicode_len();
    if i >= n {
        return None;
    }
    let c = s.get_char(i);
    if c == '"' {
        match parse_string(s, i) {
            Some(p) => {
                let (_, j) = p;
                assert(adv(i as int, j as int, s@.len() as int) == j as int);
                skip_composite(s, j, depth)
            },
            None => None,
        }
    } else if c == '{' || c == '[' {
        if depth == u64::MAX {
            // nesting this deep cannot fit in the string, so the spec
            // scan fails as well; checked so that `depth + 1` is safe
            proof {
                lemma_depth_bound(s@, i as int, depth as nat);
            }
            None
        } else {
            skip_composite(s, i + 1, depth + 1)
        }
    } else if c == '}' || c == ']' {
        if depth == 1 {
            Some(i + 1)
        } else {
            skip_composite(s, i + 1, depth - 1)
        }
    } else {
        skip_composite(s, i + 1, depth)
    }
}

/// `u64::MAX` open brackets cannot fit in a string, so the depth
/// counter of the composite skipper never overflows.
proof fn lemma_depth_bound(s: Seq<char>, i: int, depth: nat)
    requires
        depth >= u64::MAX,
        0 <= i < s.len(),
        s.len() <= usize::MAX,
        s[i] == '{' || s[i] == '[',
    ensures
        sp_skip_composite(s, i, depth) is None,
{
    // With depth that large and fewer than depth closing brackets left,
    // the scan runs off the end of the string.
    lemma_composite_needs_depth(s, i + 1, depth + 1);
}

/// A composite scan at depth `d` can only succeed if at least `d`
/// characters remain.
proof fn lemma_composite_needs_depth(s: Seq<char>, i: int, depth: nat)
    requires
        depth >= 1,
    ensures
        sp_skip_composite(s, i, depth) is Some ==> i + depth <= s.len(),
    decreases s.len() - i,
{
    if i < 0 || i >= s.len() {
    } else if s[i] == '"' {
        match sp_parse_string(s, i) {
            Some(t) => {
                lemma_composite_needs_depth(s, adv(i, t.1, s.len() as int), depth);
            },
            None => {},
        }
    } else if s[i] == '{' || s[i] == '[' {
        lemma_composite_needs_depth(s, i + 1, depth + 1);
    } else if s[i] == '}' || s[i] == ']' {
        if depth != 1 {
            lemma_composite_needs_depth(s, i + 1, (depth - 1) as nat);
        }
    } else {
        lemma_composite_needs_depth(s, i + 1, depth);
    }
}

pub(crate) fn skip_value(s: &str, i: usize) -> (r: Option<usize>)
    requires
        i <= s@.len(),
    ensures
        (r is Some) == (sp_skip_value(s@, i as int) is Some),
        r is Some ==> {
            &&& r->0 == sp_skip_value(s@, i as int)->0
            &&& i < r->0 <= s@.len()
        },
{
    let n = s.unicode_len();
    if i >= n {
        return None;
    }
    let c = s.get_char(i);
    if c == '"' {
        match parse_string(s, i) {
            Some(p) => Some(p.1),
            None => None,
        }
    } else if c == '{' || c == '[' {
        skip_composite(s, i + 1, 1)
    } else if c == '-' || digit_char(c) {
        skip_number(s, i)
    } else {
        skip_literal(s, i)
    }
}

} // verus!
