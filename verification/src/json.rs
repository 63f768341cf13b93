//! The JSON wire format of the echo payload. The writer serializes
//! `{"message": "<string>"}`, escaping quote, backslash and control bytes.
//! The reader accepts every JSON text that deserializes to an object with a
//! string member `"message"`: optional whitespace, the standard escapes
//! including full `\uXXXX` forms (surrogate pairs combined, UTF-8 emitted),
//! unknown members of any JSON value skipped, a duplicate `"message"` member
//! rejected, and containers nested past the reference limit rejected.

use vstd::prelude::*;
use crate::bytes::bytes_eq;

verus! {

pub const QUOTE: u8 = 34;

pub const BACKSLASH: u8 = 92;

pub const LBRACE: u8 = 123;

pub const RBRACE: u8 = 125;

pub const LBRACK: u8 = 91;

pub const RBRACK: u8 = 93;

pub const COLON: u8 = 58;

pub const COMMA: u8 = 44;

pub const MINUS: u8 = 45;

pub const PLUS: u8 = 43;

pub const DOT: u8 = 46;

pub const LETTER_U: u8 = 117;

/// How many containers may still open inside a member that is skipped: the
/// top-level object is one level of the reference limit of 128.
pub const MAX_JSON_DEPTH: u32 = 127;

/// JSON whitespace: space, tab, line feed, carriage return.
pub open spec fn is_ws(b: u8) -> bool {
    b == 32 || b == 9 || b == 10 || b == 13
}

/// The first index at or after `i` holding a non-whitespace byte, or the
/// length of `s` if only whitespace remains.
pub open spec fn skip_ws(s: Seq<u8>, i: int) -> int
    decreases s.len() - i,
{
    if 0 <= i < s.len() && is_ws(s[i]) {
        skip_ws(s, i + 1)
    } else {
        i
    }
}

/// The lowercase hex digit for a value below 16.
pub open spec fn hex_digit(n: int) -> u8 {
    if n < 10 {
        (48 + n) as u8
    } else {
        (87 + n) as u8
    }
}

/// Whether `b` is an ASCII hex digit.
pub open spec fn is_hex_byte(b: u8) -> bool {
    (48 <= b <= 57) || (97 <= b <= 102) || (65 <= b <= 70)
}

/// The value of an ASCII hex digit.
pub open spec fn hex_val(b: u8) -> int {
    if 48 <= b <= 57 {
        b - 48
    } else if 97 <= b <= 102 {
        b - 87
    } else if 65 <= b <= 70 {
        b - 55
    } else {
        0
    }
}

/// Whether four hex digits stand at `i`.
pub open spec fn is_hex4(s: Seq<u8>, i: int) -> bool {
    i + 4 <= s.len() && is_hex_byte(s[i]) && is_hex_byte(s[i + 1]) && is_hex_byte(s[i + 2])
        && is_hex_byte(s[i + 3])
}

/// The value of the four hex digits at `i`.
pub open spec fn hex4_val(s: Seq<u8>, i: int) -> int {
    4096 * hex_val(s[i]) + 256 * hex_val(s[i + 1]) + 16 * hex_val(s[i + 2]) + hex_val(s[i + 3])
}

/// The UTF-8 encoding of code point `c`.
pub open spec fn utf8_enc(c: int) -> Seq<u8> {
    if c < 0x80 {
        seq![c as u8]
    } else if c < 0x800 {
        seq![(0xc0 + c / 64) as u8, (0x80 + c % 64) as u8]
    } else if c < 0x10000 {
        seq![(0xe0 + c / 4096) as u8, (0x80 + (c / 64) % 64) as u8, (0x80 + c % 64) as u8]
    } else {
        seq![
            (0xf0 + c / 262144) as u8,
            (0x80 + (c / 4096) % 64) as u8,
            (0x80 + (c / 64) % 64) as u8,
            (0x80 + c % 64) as u8,
        ]
    }
}

/// The escaped form of one byte inside a JSON string: quote and backslash get
/// a backslash escape, control bytes a `\u00XX` escape, everything else
/// passes through.
pub open spec fn esc_byte(b: u8) -> Seq<u8> {
    if b == QUOTE {
        seq![BACKSLASH, QUOTE]
    } else if b == BACKSLASH {
        seq![BACKSLASH, BACKSLASH]
    } else if b < 32 {
        seq![BACKSLASH, LETTER_U, 48u8, 48u8, hex_digit(b as int / 16), hex_digit(b as int % 16)]
    } else {
        seq![b]
    }
}

/// The escaped form of a whole string.
pub open spec fn json_escape(m: Seq<u8>) -> Seq<u8>
    decreases m.len(),
{
    if m.len() == 0 {
        Seq::empty()
    } else {
        esc_byte(m[0]) + json_escape(m.drop_first())
    }
}

/// The bytes of `{"message":"`.
pub open spec fn json_prefix() -> Seq<u8> {
    seq![
        LBRACE,
        QUOTE,
        109u8,
        101u8,
        115u8,
        115u8,
        97u8,
        103u8,
        101u8,
        QUOTE,
        COLON,
        QUOTE,
    ]
}

/// The bytes of `"}`.
pub open spec fn json_suffix() -> Seq<u8> {
    seq![QUOTE, RBRACE]
}

/// The serialized object `{"message": "<m escaped>"}`, exactly as this
/// library writes it.
pub open spec fn json_obj(m: Seq<u8>) -> Seq<u8> {
    json_prefix() + json_escape(m) + json_suffix()
}

/// The bytes of the member name `message`.
pub open spec fn message_key() -> Seq<u8> {
    seq![109u8, 101u8, 115u8, 115u8, 97u8, 103u8, 101u8]
}

/// The single-character escapes the reader accepts after a backslash.
pub open spec fn is_simple_escape(b: u8) -> bool {
    b == QUOTE || b == BACKSLASH || b == 47 || b == 98 || b == 102 || b == 110 || b == 114 || b
        == 116
}

/// The byte a single-character escape stands for.
pub open spec fn unescape_simple(b: u8) -> u8 {
    if b == QUOTE {
        QUOTE
    } else if b == BACKSLASH {
        BACKSLASH
    } else if b == 47 {
        47
    } else if b == 98 {
        8
    } else if b == 102 {
        12
    } else if b == 110 {
        10
    } else if b == 114 {
        13
    } else {
        9
    }
}

/// Reads a JSON string body starting just after its opening quote: the
/// unescaped UTF-8 content and the index just past the closing quote, or
/// `None` when the bytes are not a well-formed string. A `\uXXXX` escape of a
/// leading surrogate must be followed by one of a trailing surrogate, and the
/// pair is combined; a lone surrogate escape is malformed.
pub open spec fn parse_string(s: Seq<u8>, i: int) -> Option<(Seq<u8>, int)>
    decreases s.len() - i,
{
    if i < 0 || i >= s.len() {
        None
    } else if s[i] == QUOTE {
        Some((Seq::empty(), i + 1))
    } else if s[i] == BACKSLASH {
        if i + 2 > s.len() {
            None
        } else if is_simple_escape(s[i + 1]) {
            match parse_string(s, i + 2) {
                None => None,
                Some(p) => Some((seq![unescape_simple(s[i + 1])] + p.0, p.1)),
            }
        } else if s[i + 1] == LETTER_U {
            if i + 6 > s.len() || !is_hex4(s, i + 2) {
                None
            } else {
                let c = hex4_val(s, i + 2);
                if 0xd800 <= c < 0xdc00 {
                    if i + 12 > s.len() || !(s[i + 6] == BACKSLASH && s[i + 7] == LETTER_U
                        && is_hex4(s, i + 8)) {
                        None
                    } else {
                        let c2 = hex4_val(s, i + 8);
                        if !(0xdc00 <= c2 < 0xe000) {
                            None
                        } else {
                            match parse_string(s, i + 12) {
                                None => None,
                                Some(p) => Some(
                                    (utf8_enc(0x10000 + 1024 * (c - 0xd800) + (c2 - 0xdc00))
                                        + p.0, p.1),
                                ),
                            }
                        }
                    }
                } else if 0xdc00 <= c < 0xe000 {
                    None
                } else {
                    match parse_string(s, i + 6) {
                        None => None,
                        Some(p) => Some((utf8_enc(c) + p.0, p.1)),
                    }
                }
            }
        } else {
            None
        }
    } else if s[i] < 32 {
        None
    } else {
        match parse_string(s, i + 1) {
            None => None,
            Some(p) => Some((seq![s[i]] + p.0, p.1)),
        }
    }
}

/// Whether `b` is a decimal digit.
pub open spec fn is_digit(b: u8) -> bool {
    48 <= b <= 57
}

/// The first index at or after `i` holding a non-digit byte.
pub open spec fn skip_digits(s: Seq<u8>, i: int) -> int
    decreases s.len() - i,
{
    if 0 <= i < s.len() && is_digit(s[i]) {
        skip_digits(s, i + 1)
    } else {
        i
    }
}

/// Reads past a JSON number starting at `i` (a digit or minus sign): the
/// index after it, or `None` when the bytes are not a number.
pub open spec fn skip_number(s: Seq<u8>, i: int) -> Option<int> {
    let a = if s[i] == MINUS {
        i + 1
    } else {
        i
    };
    if !(a < s.len() && is_digit(s[a])) {
        None
    } else {
        let b = if s[a] == 48 {
            a + 1
        } else {
            skip_digits(s, a)
        };
        let c = if b < s.len() && s[b] == DOT {
            if b + 1 < s.len() && is_digit(s[b + 1]) {
                skip_digits(s, b + 1)
            } else {
                -1
            }
        } else {
            b
        };
        if c < 0 {
            None
        } else {
            let d = if c < s.len() && (s[c] == 101 || s[c] == 69) {
                let e0 = if c + 1 < s.len() && (s[c + 1] == PLUS || s[c + 1] == MINUS) {
                    c + 2
                } else {
                    c + 1
                };
                if e0 < s.len() && is_digit(s[e0]) {
                    skip_digits(s, e0)
                } else {
                    -1
                }
            } else {
                c
            };
            if d < 0 {
                None
            } else {
                Some(d)
            }
        }
    }
}

/// The bytes of `true`.
pub open spec fn true_lit() -> Seq<u8> {
    seq![116u8, 114u8, 117u8, 101u8]
}

/// The bytes of `false`.
pub open spec fn false_lit() -> Seq<u8> {
    seq![102u8, 97u8, 108u8, 115u8, 101u8]
}

/// The bytes of `null`.
pub open spec fn null_lit() -> Seq<u8> {
    seq![110u8, 117u8, 108u8, 108u8]
}

/// Reads past one JSON value starting at the non-whitespace index `i`:
/// the index after it, or `None` when no well-formed value stands there.
/// `depth` is how many more containers may open.
pub open spec fn skip_value(s: Seq<u8>, i: int, depth: nat) -> Option<int>
    decreases s.len() - i, 0int,
{
    if !(0 <= i < s.len()) {
        None
    } else if s[i] == QUOTE {
        match parse_string(s, i + 1) {
            None => None,
            Some(p) => Some(p.1),
        }
    } else if s[i] == LBRACE {
        if depth == 0 {
            None
        } else {
            skip_object_body(s, i + 1, (depth - 1) as nat, true)
        }
    } else if s[i] == LBRACK {
        if depth == 0 {
            None
        } else {
            skip_array_body(s, i + 1, (depth - 1) as nat, true)
        }
    } else if s[i] == 116 {
        if i + 4 <= s.len() && s.subrange(i, i + 4) == true_lit() {
            Some(i + 4)
        } else {
            None
        }
    } else if s[i] == 102 {
        if i + 5 <= s.len() && s.subrange(i, i + 5) == false_lit() {
            Some(i + 5)
        } else {
            None
        }
    } else if s[i] == 110 {
        if i + 4 <= s.len() && s.subrange(i, i + 4) == null_lit() {
            Some(i + 4)
        } else {
            None
        }
    } else if s[i] == MINUS || is_digit(s[i]) {
        skip_number(s, i)
    } else {
        None
    }
}

/// Reads past the members of an object being skipped, from just after `{`
/// (`first` true) or just after a separating comma (`first` false).
pub open spec fn skip_object_body(s: Seq<u8>, j: int, depth: nat, first: bool) -> Option<int>
    decreases s.len() - j, 1int,
{
    let k = skip_ws(s, j);
    if !(j <= k < s.len()) {
        None
    } else if s[k] == RBRACE && first {
        Some(k + 1)
    } else if s[k] != QUOTE {
        None
    } else {
        match parse_string(s, k + 1) {
            None => None,
            Some(key) => {
                let c = skip_ws(s, key.1);
                if !(k < key.1 && key.1 <= c < s.len() && s[c] == COLON) {
                    None
                } else {
                    let v = skip_ws(s, c + 1);
                    if !(c < v <= s.len()) {
                        None
                    } else {
                        match skip_value(s, v, depth) {
                            None => None,
                            Some(av) => {
                                let a = skip_ws(s, av);
                                if !(v < av && av <= a < s.len()) {
                                    None
                                } else if s[a] == COMMA {
                                    skip_object_body(s, a + 1, depth, false)
                                } else if s[a] == RBRACE {
                                    Some(a + 1)
                                } else {
                                    None
                                }
                            },
                        }
                    }
                }
            },
        }
    }
}

/// Reads past the elements of an array being skipped, from just after `[`
/// (`first` true) or just after a separating comma (`first` false).
pub open spec fn skip_array_body(s: Seq<u8>, j: int, depth: nat, first: bool) -> Option<int>
    decreases s.len() - j, 1int,
{
    let k = skip_ws(s, j);
    if !(j <= k < s.len()) {
        None
    } else if s[k] == RBRACK && first {
        Some(k + 1)
    } else {
        match skip_value(s, k, depth) {
            None => None,
            Some(av) => {
                let a = skip_ws(s, av);
                if !(k < av && av <= a < s.len()) {
                    None
                } else if s[a] == COMMA {
                    skip_array_body(s, a + 1, depth, false)
                } else if s[a] == RBRACK {
                    Some(a + 1)
                } else {
                    None
                }
            },
        }
    }
}

/// Reads the members of the request object, from just after `{` (`first`
/// true) or just after a comma (`first` false), `msg` being the message seen
/// so far. A member named `message` must hold a string and may occur once;
/// any other member is skipped whatever its value. Yields the message (if it
/// occurred) and the index after the closing brace.
pub open spec fn parse_members(s: Seq<u8>, j: int, first: bool, msg: Option<Seq<u8>>) -> Option<
    (Option<Seq<u8>>, int),
>
    decreases s.len() - j,
{
    let k = skip_ws(s, j);
    if !(j <= k < s.len()) {
        None
    } else if s[k] == RBRACE && first {
        Some((msg, k + 1))
    } else if s[k] != QUOTE {
        None
    } else {
        match parse_string(s, k + 1) {
            None => None,
            Some(key) => {
                let c = skip_ws(s, key.1);
                if !(k < key.1 && key.1 <= c < s.len() && s[c] == COLON) {
                    None
                } else {
                    let v = skip_ws(s, c + 1);
                    if !(c < v) {
                        None
                    } else if key.0 == message_key() {
                        if msg is Some {
                            None
                        } else if !(v < s.len() && s[v] == QUOTE) {
                            None
                        } else {
                            match parse_string(s, v + 1) {
                                None => None,
                                Some(val) => {
                                    let a = skip_ws(s, val.1);
                                    if !(v < val.1 && val.1 <= a < s.len()) {
                                        None
                                    } else if s[a] == COMMA {
                                        parse_members(s, a + 1, false, Some(val.0))
                                    } else if s[a] == RBRACE {
                                        Some((Some(val.0), a + 1))
                                    } else {
                                        None
                                    }
                                },
                            }
                        }
                    } else {
                        match skip_value(s, v, MAX_JSON_DEPTH as nat) {
                            None => None,
                            Some(av) => {
                                let a = skip_ws(s, av);
                                if !(v < av && av <= a < s.len()) {
                                    None
                                } else if s[a] == COMMA {
                                    parse_members(s, a + 1, false, msg)
                                } else if s[a] == RBRACE {
                                    Some((msg, a + 1))
                                } else {
                                    None
                                }
                            },
                        }
                    }
                }
            },
        }
    }
}

/// Reads a whole request body: whitespace, an object whose members are read
/// by `parse_members`, whitespace, end of input. The body is well-formed
/// exactly when a string member `message` was present once.
pub open spec fn spec_parse_echo(s: Seq<u8>) -> Option<Seq<u8>> {
    let i1 = skip_ws(s, 0);
    if !(0 <= i1 < s.len() && s[i1] == LBRACE) {
        None
    } else {
        match parse_members(s, i1 + 1, true, None) {
            None => None,
            Some(p) => match p.0 {
                None => None,
                Some(m) => if skip_ws(s, p.1) == s.len() {
                    Some(m)
                } else {
                    None
                },
            },
        }
    }
}

/// The hex digit of a value below 16.
fn hex_digit_exec(n: u8) -> (r: u8)
    requires
        n < 16,
    ensures
        r == hex_digit(n as int),
{
    if n < 10 {
        48 + n
    } else {
        87 + n
    }
}

/// The value of an ASCII hex digit.
fn hex_nibble(b: u8) -> (r: u8)
    requires
        is_hex_byte(b),
    ensures
        r as int == hex_val(b),
{
    if b <= 57 {
        b - 48
    } else if b >= 97 {
        b - 87
    } else {
        b - 55
    }
}

/// Appending one byte to a string appends its escape to the escaped string.
pub proof fn lemma_json_escape_push(s: Seq<u8>, b: u8)
    ensures
        json_escape(s.push(b)) == json_escape(s) + esc_byte(b),
    decreases s.len(),
{
    if s.len() == 0 {
        assert(s.push(b)[0] == b);
        assert(s.push(b).drop_first() =~= s);
        assert(json_escape(s.push(b)) == esc_byte(b) + json_escape(s));
        assert(json_escape(s.push(b)) =~= json_escape(s) + esc_byte(b));
    } else {
        assert(s.push(b)[0] == s[0]);
        assert(s.push(b).drop_first() =~= s.drop_first().push(b));
        lemma_json_escape_push(s.drop_first(), b);
        assert(json_escape(s.push(b)) == esc_byte(s[0]) + (json_escape(s.drop_first())
            + esc_byte(b)));
        assert(json_escape(s) == esc_byte(s[0]) + json_escape(s.drop_first()));
        assert(esc_byte(s[0]) + (json_escape(s.drop_first()) + esc_byte(b)) =~= (esc_byte(s[0])
            + json_escape(s.drop_first())) + esc_byte(b));
    }
}

/// Serializes `{"message": "<m escaped>"}`.
pub fn write_json_message(m: &Vec<u8>) -> (r: Vec<u8>)
    ensures
        r@ == json_obj(m@),
{
    let mut out: Vec<u8> = Vec::new();
    out.push(LBRACE);
    out.push(QUOTE);
    out.push(109);
    out.push(101);
    out.push(115);
    out.push(115);
    out.push(97);
    out.push(103);
    out.push(101);
    out.push(QUOTE);
    out.push(COLON);
    out.push(QUOTE);
    proof {
        assert(json_escape(m@.take(0)) =~= Seq::<u8>::empty());
        assert(out@ =~= json_prefix() + json_escape(m@.take(0)));
    }
    let mut i: usize = 0;
    while i < m.len()
        invariant
            i <= m.len(),
            out@ == json_prefix() + json_escape(m@.take(i as int)),
        decreases m.len() - i,
    {
        let b = m[i];
        if b == QUOTE {
            out.push(BACKSLASH);
            out.push(QUOTE);
        } else if b == BACKSLASH {
            out.push(BACKSLASH);
            out.push(BACKSLASH);
        } else if b < 32 {
            out.push(BACKSLASH);
            out.push(LETTER_U);
            out.push(48);
            out.push(48);
            out.push(hex_digit_exec(b / 16));
            out.push(hex_digit_exec(b % 16));
        } else {
            out.push(b);
        }
        proof {
            lemma_json_escape_push(m@.take(i as int), m@[i as int]);
            assert(m@.take(i + 1) =~= m@.take(i as int).push(m@[i as int]));
            assert(out@ =~= json_prefix() + json_escape(m@.take(i + 1)));
        }
        i = i + 1;
    }
    out.push(QUOTE);
    out.push(RBRACE);
    proof {
        assert(m@.take(m@.len() as int) =~= m@);
        assert(out@ =~= json_obj(m@));
    }
    out
}

/// Prepends `p` to the content of a string-parse result.
pub open spec fn opt_prepend(p: Seq<u8>, o: Option<(Seq<u8>, int)>) -> Option<(Seq<u8>, int)> {
    match o {
        None => None,
        Some(q) => Some((p + q.0, q.1)),
    }
}

proof fn lemma_prepend_step(s: Seq<u8>, start: int, acc: Seq<u8>, vs: Seq<u8>, j: int, jn: int)
    requires
        parse_string(s, start) == opt_prepend(acc, parse_string(s, j)),
        parse_string(s, j) == opt_prepend(vs, parse_string(s, jn)),
    ensures
        parse_string(s, start) == opt_prepend(acc + vs, parse_string(s, jn)),
{
    match parse_string(s, jn) {
        Option::Some(q) => {
            assert(acc + (vs + q.0) =~= (acc + vs) + q.0);
        },
        Option::None => {
        },
    }
}

/// The first non-whitespace index at or after `start`.
fn skip_ws_exec(s: &Vec<u8>, start: usize) -> (j: usize)
    requires
        start <= s@.len(),
    ensures
        j == skip_ws(s@, start as int),
        start <= j <= s@.len(),
{
    let mut j: usize = start;
    while j < s.len() && (s[j] == 32 || s[j] == 9 || s[j] == 10 || s[j] == 13)
        invariant
            start <= j <= s@.len(),
            skip_ws(s@, start as int) == skip_ws(s@, j as int),
        decreases s@.len() - j,
    {
        j = j + 1;
    }
    j
}

/// The first non-digit index at or after `start`.
fn skip_digits_exec(s: &Vec<u8>, start: usize) -> (j: usize)
    requires
        start <= s@.len(),
    ensures
        j == skip_digits(s@, start as int),
        start <= j <= s@.len(),
{
    let mut j: usize = start;
    while j < s.len() && 48 <= s[j] && s[j] <= 57
        invariant
            start <= j <= s@.len(),
            skip_digits(s@, start as int) == skip_digits(s@, j as int),
        decreases s@.len() - j,
    {
        j = j + 1;
    }
    j
}

/// Reads the four hex digits at `i` as a value, or `None`.
fn hex4_exec(s: &Vec<u8>, i: usize) -> (r: Option<u32>)
    requires
        i <= s@.len(),
    ensures
        (match r {
            Some(c) => is_hex4(s@, i as int) && c as int == hex4_val(s@, i as int) && c < 0x10000,
            None => !is_hex4(s@, i as int),
        }),
{
    if s.len() - i < 4 {
        return None;
    }
    let b0 = s[i];
    let b1 = s[i + 1];
    let b2 = s[i + 2];
    let b3 = s[i + 3];
    let ok0 = (48 <= b0 && b0 <= 57) || (97 <= b0 && b0 <= 102) || (65 <= b0 && b0 <= 70);
    let ok1 = (48 <= b1 && b1 <= 57) || (97 <= b1 && b1 <= 102) || (65 <= b1 && b1 <= 70);
    let ok2 = (48 <= b2 && b2 <= 57) || (97 <= b2 && b2 <= 102) || (65 <= b2 && b2 <= 70);
    let ok3 = (48 <= b3 && b3 <= 57) || (97 <= b3 && b3 <= 102) || (65 <= b3 && b3 <= 70);
    if !(ok0 && ok1 && ok2 && ok3) {
        return None;
    }
    let c: u32 = 4096 * (hex_nibble(b0) as u32) + 256 * (hex_nibble(b1) as u32) + 16 * (hex_nibble(
        b2,
    ) as u32) + (hex_nibble(b3) as u32);
    Some(c)
}

/// Reads a JSON string body starting just after its opening quote.
fn parse_string_exec(s: &Vec<u8>, start: usize) -> (r: Option<(Vec<u8>, usize)>)
    requires
        start <= s@.len(),
    ensures
        (match r {
            Some(p) => Some((p.0@, p.1 as int)),
            None => None::<(Seq<u8>, int)>,
        }) == parse_string(s@, start as int),
        (match r {
            Some(p) => start < p.1 <= s@.len(),
            None => true,
        }),
{
    let mut acc: Vec<u8> = Vec::new();
    let mut j: usize = start;
    proof {
        assert(acc@ + Seq::<u8>::empty() =~= acc@);
    }
    loop
        invariant
            start <= j <= s@.len(),
            parse_string(s@, start as int) == opt_prepend(acc@, parse_string(s@, j as int)),
        decreases s@.len() - j,
    {
        if j >= s.len() {
            return None;
        }
        let b = s[j];
        if b == QUOTE {
            proof {
                assert(acc@ + Seq::<u8>::empty() =~= acc@);
            }
            return Some((acc, j + 1));
        }
        if b == BACKSLASH {
            if s.len() - j < 2 {
                return None;
            }
            let e = s[j + 1];
            let is_simple = e == QUOTE || e == BACKSLASH || e == 47 || e == 98 || e == 102 || e
                == 110 || e == 114 || e == 116;
            if is_simple {
                let v: u8 = if e == QUOTE {
                    QUOTE
                } else if e == BACKSLASH {
                    BACKSLASH
                } else if e == 47 {
                    47
                } else if e == 98 {
                    8
                } else if e == 102 {
                    12
                } else if e == 110 {
                    10
                } else if e == 114 {
                    13
                } else {
                    9
                };
                proof {
                    assert(parse_string(s@, j as int) == opt_prepend(
                        seq![v],
                        parse_string(s@, j + 2),
                    ));
                    lemma_prepend_step(s@, start as int, acc@, seq![v], j as int, j + 2);
                }
                let ghost acc0 = acc@;
                acc.push(v);
                proof {
                    assert(acc@ =~= acc0 + seq![v]);
                }
                j = j + 2;
            } else if e == LETTER_U {
                if s.len() - j < 6 {
                    return None;
                }
                let c: u32 = match hex4_exec(s, j + 2) {
                    None => {
                        return None;
                    },
                    Some(c) => c,
                };
                if 0xd800 <= c && c < 0xdc00 {
                    if s.len() - j < 12 {
                        return None;
                    }
                    if !(s[j + 6] == BACKSLASH && s[j + 7] == LETTER_U) {
                        return None;
                    }
                    let c2: u32 = match hex4_exec(s, j + 8) {
                        None => {
                            return None;
                        },
                        Some(c2) => c2,
                    };
                    if !(0xdc00 <= c2 && c2 < 0xe000) {
                        return None;
                    }
                    let cp: u32 = 0x10000 + 1024 * (c - 0xd800) + (c2 - 0xdc00);
                    let ghost vs = utf8_enc(cp as int);
                    proof {
                        assert(parse_string(s@, j as int) == opt_prepend(
                            vs,
                            parse_string(s@, j + 12),
                        ));
                        lemma_prepend_step(s@, start as int, acc@, vs, j as int, j + 12);
                    }
                    let ghost acc0 = acc@;
                    acc.push((0xf0 + cp / 262144) as u8);
                    acc.push((0x80 + (cp / 4096) % 64) as u8);
                    acc.push((0x80 + (cp / 64) % 64) as u8);
                    acc.push((0x80 + cp % 64) as u8);
                    proof {
                        assert(acc@ =~= acc0 + vs);
                    }
                    j = j + 12;
                } else if 0xdc00 <= c && c < 0xe000 {
                    return None;
                } else {
                    let ghost vs = utf8_enc(c as int);
                    proof {
                        assert(parse_string(s@, j as int) == opt_prepend(
                            vs,
                            parse_string(s@, j + 6),
                        ));
                        lemma_prepend_step(s@, start as int, acc@, vs, j as int, j + 6);
                    }
                    let ghost acc0 = acc@;
                    if c < 0x80 {
                        acc.push(c as u8);
                    } else if c < 0x800 {
                        acc.push((0xc0 + c / 64) as u8);
                        acc.push((0x80 + c % 64) as u8);
                    } else {
                        acc.push((0xe0 + c / 4096) as u8);
                        acc.push((0x80 + (c / 64) % 64) as u8);
                        acc.push((0x80 + c % 64) as u8);
                    }
                    proof {
                        assert(acc@ =~= acc0 + vs);
                    }
                    j = j + 6;
                }
            } else {
                return None;
            }
        } else if b < 32 {
            return None;
        } else {
            proof {
                assert(parse_string(s@, j as int) == opt_prepend(
                    seq![b],
                    parse_string(s@, j + 1),
                ));
                lemma_prepend_step(s@, start as int, acc@, seq![b], j as int, j + 1);
            }
            let ghost acc0 = acc@;
            acc.push(b);
            proof {
                assert(acc@ =~= acc0 + seq![b]);
            }
            j = j + 1;
        }
    }
}

/// Reads past a JSON number.
fn skip_number_exec(s: &Vec<u8>, i: usize) -> (r: Option<usize>)
    requires
        i < s@.len(),
    ensures
        (match r {
            Some(j) => Some(j as int),
            None => None::<int>,
        }) == skip_number(s@, i as int),
        (match r {
            Some(j) => i < j <= s@.len(),
            None => true,
        }),
{
    let n = s.len();
    let a: usize = if s[i] == MINUS {
        i + 1
    } else {
        i
    };
    if !(a < n && 48 <= s[a] && s[a] <= 57) {
        return None;
    }
    let b: usize = if s[a] == 48 {
        a + 1
    } else {
        skip_digits_exec(s, a + 1)
    };
    let c: usize;
    if b < s.len() && s[b] == DOT {
        if b + 1 < s.len() && 48 <= s[b + 1] && s[b + 1] <= 57 {
            c = skip_digits_exec(s, b + 2);
        } else {
            return None;
        }
    } else {
        c = b;
    }
    if c < s.len() && (s[c] == 101 || s[c] == 69) {
        let e0: usize = if c + 1 < s.len() && (s[c + 1] == PLUS || s[c + 1] == MINUS) {
            c + 2
        } else {
            c + 1
        };
        if e0 < s.len() && 48 <= s[e0] && s[e0] <= 57 {
            Some(skip_digits_exec(s, e0 + 1))
        } else {
            None
        }
    } else {
        Some(c)
    }
}

/// Reads past one JSON value.
fn skip_value_exec(s: &Vec<u8>, i: usize, depth: u32) -> (r: Option<usize>)
    ensures
        (match r {
            Some(j) => Some(j as int),
            None => None::<int>,
        }) == skip_value(s@, i as int, depth as nat),
        (match r {
            Some(j) => i < j <= s@.len(),
            None => true,
        }),
    decreases depth, 0int,
{
    if i >= s.len() {
        return None;
    }
    let b = s[i];
    if b == QUOTE {
        match parse_string_exec(s, i + 1) {
            None => None,
            Some(p) => Some(p.1),
        }
    } else if b == LBRACE {
        if depth == 0 {
            None
        } else {
            skip_object_body_exec(s, i + 1, depth - 1)
        }
    } else if b == LBRACK {
        if depth == 0 {
            None
        } else {
            skip_array_body_exec(s, i + 1, depth - 1)
        }
    } else if b == 116 {
        if s.len() - i >= 4 && s[i + 1] == 114 && s[i + 2] == 117 && s[i + 3] == 101 {
            proof {
                assert(s@.subrange(i as int, i + 4) =~= true_lit());
            }
            Some(i + 4)
        } else {
            proof {
                if i + 4 <= s@.len() {
                    assert(s@.subrange(i as int, i + 4)[1] == s@[i + 1]);
                    assert(s@.subrange(i as int, i + 4)[2] == s@[i + 2]);
                    assert(s@.subrange(i as int, i + 4)[3] == s@[i + 3]);
                }
            }
            None
        }
    } else if b == 102 {
        if s.len() - i >= 5 && s[i + 1] == 97 && s[i + 2] == 108 && s[i + 3] == 115 && s[i + 4]
            == 101 {
            proof {
                assert(s@.subrange(i as int, i + 5) =~= false_lit());
            }
            Some(i + 5)
        } else {
            proof {
                if i + 5 <= s@.len() {
                    assert(s@.subrange(i as int, i + 5)[1] == s@[i + 1]);
                    assert(s@.subrange(i as int, i + 5)[2] == s@[i + 2]);
                    assert(s@.subrange(i as int, i + 5)[3] == s@[i + 3]);
                    assert(s@.subrange(i as int, i + 5)[4] == s@[i + 4]);
                }
            }
            None
        }
    } else if b == 110 {
        if s.len() - i >= 4 && s[i + 1] == 117 && s[i + 2] == 108 && s[i + 3] == 108 {
            proof {
                assert(s@.subrange(i as int, i + 4) =~= null_lit());
            }
            Some(i + 4)
        } else {
            proof {
                if i + 4 <= s@.len() {
                    assert(s@.subrange(i as int, i + 4)[1] == s@[i + 1]);
                    assert(s@.subrange(i as int, i + 4)[2] == s@[i + 2]);
                    assert(s@.subrange(i as int, i + 4)[3] == s@[i + 3]);
                }
            }
            None
        }
    } else if b == MINUS || (48 <= b && b <= 57) {
        skip_number_exec(s, i)
    } else {
        None
    }
}

/// Reads past the members of a skipped object.
fn skip_object_body_exec(s: &Vec<u8>, j0: usize, depth: u32) -> (r: Option<usize>)
    requires
        j0 <= s@.len(),
    ensures
        (match r {
            Some(j) => Some(j as int),
            None => None::<int>,
        }) == skip_object_body(s@, j0 as int, depth as nat, true),
        (match r {
            Some(j) => j0 < j <= s@.len(),
            None => true,
        }),
    decreases depth, 1int,
{
    let mut j: usize = j0;
    let mut first: bool = true;
    loop
        invariant
            j0 <= j <= s@.len(),
            skip_object_body(s@, j0 as int, depth as nat, true) == skip_object_body(
                s@,
                j as int,
                depth as nat,
                first,
            ),
        decreases s@.len() - j,
    {
        let k = skip_ws_exec(s, j);
        if k >= s.len() {
            return None;
        }
        if s[k] == RBRACE && first {
            return Some(k + 1);
        }
        if s[k] != QUOTE {
            return None;
        }
        let key = match parse_string_exec(s, k + 1) {
            None => {
                return None;
            },
            Some(p) => p,
        };
        let c = skip_ws_exec(s, key.1);
        if !(k < key.1 && c < s.len() && s[c] == COLON) {
            return None;
        }
        let v = skip_ws_exec(s, c + 1);
        if !(c < v) {
            return None;
        }
        let av = match skip_value_exec(s, v, depth) {
            None => {
                return None;
            },
            Some(av) => av,
        };
        let a = skip_ws_exec(s, av);
        if !(v < av && a < s.len()) {
            return None;
        }
        if s[a] == COMMA {
            j = a + 1;
            first = false;
        } else if s[a] == RBRACE {
            return Some(a + 1);
        } else {
            return None;
        }
    }
}

/// Reads past the elements of a skipped array.
fn skip_array_body_exec(s: &Vec<u8>, j0: usize, depth: u32) -> (r: Option<usize>)
    requires
        j0 <= s@.len(),
    ensures
        (match r {
            Some(j) => Some(j as int),
            None => None::<int>,
        }) == skip_array_body(s@, j0 as int, depth as nat, true),
        (match r {
            Some(j) => j0 < j <= s@.len(),
            None => true,
        }),
    decreases depth, 1int,
{
    let mut j: usize = j0;
    let mut first: bool = true;
    loop
        invariant
            j0 <= j <= s@.len(),
            skip_array_body(s@, j0 as int, depth as nat, true) == skip_array_body(
                s@,
                j as int,
                depth as nat,
                first,
            ),
        decreases s@.len() - j,
    {
        let k = skip_ws_exec(s, j);
        if k >= s.len() {
            return None;
        }
        if s[k] == RBRACK && first {
            return Some(k + 1);
        }
        let av = match skip_value_exec(s, k, depth) {
            None => {
                return None;
            },
            Some(av) => av,
        };
        let a = skip_ws_exec(s, av);
        if !(k < av && a < s.len()) {
            return None;
        }
        if s[a] == COMMA {
            j = a + 1;
            first = false;
        } else if s[a] == RBRACK {
            return Some(a + 1);
        } else {
            return None;
        }
    }
}

/// Builds the member name `message` as bytes.
fn message_key_bytes() -> (r: Vec<u8>)
    ensures
        r@ == message_key(),
{
    let mut v: Vec<u8> = Vec::new();
    v.push(109);
    v.push(101);
    v.push(115);
    v.push(115);
    v.push(97);
    v.push(103);
    v.push(101);
    proof {
        assert(v@ =~= message_key());
    }
    v
}

/// The view of an optional message.
pub open spec fn opt_view(o: Option<Vec<u8>>) -> Option<Seq<u8>> {
    match o {
        None => None,
        Some(v) => Some(v@),
    }
}

/// Deserializes a request body, returning the message on success and `None`
/// on any malformed input.
#[verifier::rlimit(100)]
pub fn parse_echo_request(body: &Vec<u8>) -> (r: Option<Vec<u8>>)
    ensures
        (match r {
            Some(v) => Some(v@),
            None => None::<Seq<u8>>,
        }) == spec_parse_echo(body@),
{
    let i1 = skip_ws_exec(body, 0);
    if i1 >= body.len() || body[i1] != LBRACE {
        return None;
    }
    let key_name = message_key_bytes();
    let ghost j0 = i1 + 1;
    let mut j: usize = i1 + 1;
    let mut first: bool = true;
    let mut msg: Option<Vec<u8>> = None;
    loop
        invariant
            j0 <= j <= body@.len(),
            key_name@ == message_key(),
            0 <= skip_ws(body@, 0) < body@.len(),
            body@[skip_ws(body@, 0)] == LBRACE,
            j0 == skip_ws(body@, 0) + 1,
            parse_members(body@, j0 as int, true, None) == parse_members(
                body@,
                j as int,
                first,
                opt_view(msg),
            ),
        decreases body@.len() - j,
    {
        let k = skip_ws_exec(body, j);
        if k >= body.len() {
            return None;
        }
        if body[k] == RBRACE && first {
            // end of the object: the message must have been seen, and only
            // trailing whitespace may follow
            match msg {
                None => {
                    return None;
                },
                Some(m) => {
                    let i6 = skip_ws_exec(body, k + 1);
                    if i6 != body.len() {
                        return None;
                    }
                    return Some(m);
                },
            }
        }
        if body[k] != QUOTE {
            return None;
        }
        let key = match parse_string_exec(body, k + 1) {
            None => {
                return None;
            },
            Some(p) => p,
        };
        let c = skip_ws_exec(body, key.1);
        if !(k < key.1 && c < body.len() && body[c] == COLON) {
            return None;
        }
        let v = skip_ws_exec(body, c + 1);
        if !(c < v) {
            return None;
        }
        if bytes_eq(&key.0, &key_name) {
            if msg.is_some() {
                return None;
            }
            if !(v < body.len() && body[v] == QUOTE) {
                return None;
            }
            let val = match parse_string_exec(body, v + 1) {
                None => {
                    return None;
                },
                Some(p) => p,
            };
            let a = skip_ws_exec(body, val.1);
            if !(v < val.1 && a < body.len()) {
                return None;
            }
            if body[a] == COMMA {
                msg = Some(val.0);
                j = a + 1;
                first = false;
            } else if body[a] == RBRACE {
                let i6 = skip_ws_exec(body, a + 1);
                if i6 != body.len() {
                    return None;
                }
                return Some(val.0);
            } else {
                return None;
            }
        } else {
            let av = match skip_value_exec(body, v, MAX_JSON_DEPTH) {
                None => {
                    return None;
                },
                Some(av) => av,
            };
            let a = skip_ws_exec(body, av);
            if !(v < av && a < body.len()) {
                return None;
            }
            if body[a] == COMMA {
                j = a + 1;
                first = false;
            } else if body[a] == RBRACE {
                // end of the object after this member
                match msg {
                    None => {
                        return None;
                    },
                    Some(m) => {
                        let i6 = skip_ws_exec(body, a + 1);
                        if i6 != body.len() {
                            return None;
                        }
                        return Some(m);
                    },
                }
            } else {
                return None;
            }
        }
    }
}

/// A hex digit encodes its own value.
proof fn lemma_hex_digit_val(n: int)
    requires
        0 <= n < 16,
    ensures
        is_hex_byte(hex_digit(n)),
        hex_val(hex_digit(n)) == n,
{
}

/// Plain ASCII text escapes to itself.
proof fn lemma_escape_plain(s: Seq<u8>)
    requires
        forall|t: int| 0 <= t < s.len() ==> 32 <= #[trigger] s[t] && s[t] != QUOTE && s[t]
            != BACKSLASH,
    ensures
        json_escape(s) == s,
    decreases s.len(),
{
    if s.len() > 0 {
        lemma_escape_plain(s.drop_first());
        assert(esc_byte(s[0]) == seq![s[0]]);
        assert(seq![s[0]] + s.drop_first() =~= s);
    }
}

/// Reading an escaped string: the string reader started just before the
/// escape of `m`, followed by a closing quote, recovers exactly `m`.
proof fn lemma_parse_string_of_escaped(s: Seq<u8>, i: int, m: Seq<u8>)
    requires
        0 <= i,
        i + json_escape(m).len() < s.len(),
        s.subrange(i, i + json_escape(m).len()) == json_escape(m),
        s[i + json_escape(m).len()] == QUOTE,
    ensures
        parse_string(s, i) == Some((m, i + json_escape(m).len() + 1)),
    decreases m.len(),
{
    let e = json_escape(m);
    assert(forall|t: int| 0 <= t < e.len() ==> s[i + t] == #[trigger] e[t]) by {
        assert(forall|t: int| 0 <= t < e.len() ==> #[trigger] e[t] == s.subrange(
            i,
            i + e.len(),
        )[t]);
    }
    if m.len() == 0 {
        assert(s[i] == QUOTE);
        assert(m =~= Seq::<u8>::empty());
    } else {
        let b = m[0];
        let rest = m.drop_first();
        let re = json_escape(rest);
        assert(e == esc_byte(b) + re);
        let k = esc_byte(b).len();
        assert(forall|t: int| 0 <= t < re.len() ==> e[k + t] == #[trigger] re[t]);
        assert(s.subrange(i + k, i + k + re.len()) =~= re);
        assert(s[i + k + re.len()] == QUOTE);
        lemma_parse_string_of_escaped(s, i + k, rest);
        if b == QUOTE {
            assert(s[i] == e[0] && s[i + 1] == e[1]);
            assert(s[i] == BACKSLASH && s[i + 1] == QUOTE);
            assert(seq![b] + rest =~= m);
        } else if b == BACKSLASH {
            assert(s[i] == e[0] && s[i + 1] == e[1]);
            assert(s[i] == BACKSLASH && s[i + 1] == BACKSLASH);
            assert(seq![b] + rest =~= m);
        } else if b < 32 {
            assert(s[i] == e[0] && s[i + 1] == e[1] && s[i + 2] == e[2] && s[i + 3] == e[3] && s[i
                + 4] == e[4] && s[i + 5] == e[5]);
            assert(s[i] == BACKSLASH && s[i + 1] == LETTER_U && s[i + 2] == 48 && s[i + 3] == 48);
            assert(s[i + 4] == hex_digit(b as int / 16) && s[i + 5] == hex_digit(b as int % 16));
            lemma_hex_digit_val(b as int / 16);
            lemma_hex_digit_val(b as int % 16);
            assert(!is_simple_escape(s[i + 1]));
            assert(is_hex4(s, i + 2));
            assert(hex4_val(s, i + 2) == b);
            assert(utf8_enc(b as int) == seq![b]);
            assert(seq![b] + rest =~= m);
        } else {
            assert(s[i] == e[0]);
            assert(s[i] == b);
            assert(seq![b] + rest =~= m);
        }
    }
}

/// Round trip: the reader inverts the writer. Reading a body that the writer
/// produced for message `m` yields exactly `m`.
#[verifier::rlimit(100)]
pub proof fn lemma_json_round_trip(m: Seq<u8>)
    ensures
        spec_parse_echo(json_obj(m)) == Some(m),
{
    let s = json_obj(m);
    let e = json_escape(m);
    let el = e.len() as int;
    assert(s.len() == 14 + el);
    assert(forall|t: int| 0 <= t < 12 ==> s[t] == #[trigger] json_prefix()[t]);
    assert(forall|t: int| 0 <= t < el ==> s[12 + t] == #[trigger] e[t]);
    assert(s[12 + el] == QUOTE);
    assert(s[13 + el] == RBRACE);
    assert(skip_ws(s, 0) == 0);
    assert(s[0] == LBRACE);
    // the key is plain text, so the string reader returns it unescaped
    assert(forall|t: int| 0 <= t < message_key().len() ==> 32 <= #[trigger] message_key()[t]
        && message_key()[t] != QUOTE && message_key()[t] != BACKSLASH);
    lemma_escape_plain(message_key());
    assert(s.subrange(2, 9) =~= json_escape(message_key()));
    assert(s[9] == QUOTE);
    lemma_parse_string_of_escaped(s, 2, message_key());
    assert(parse_string(s, 2) == Some((message_key(), 10int)));
    assert(skip_ws(s, 1) == 1);
    assert(s[1] == QUOTE);
    assert(skip_ws(s, 10) == 10);
    assert(s[10] == COLON);
    assert(skip_ws(s, 11) == 11);
    assert(s[11] == QUOTE);
    assert(s.subrange(12, 12 + el) =~= e);
    lemma_parse_string_of_escaped(s, 12, m);
    assert(parse_string(s, 12) == Some((m, 13 + el)));
    assert(skip_ws(s, 13 + el) == 13 + el);
    assert(skip_ws(s, 14 + el) == 14 + el);
    assert(parse_members(s, 1, true, None) == Some((Some(m), 14 + el)));
}

} // verus!
