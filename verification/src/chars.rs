//! Character-level primitives: lowercasing and diacritic folding for the
//! scripts street names are written in (Latin, Greek, Cyrillic), character
//! classes used by the tokenizer, and conversions between `String`/`&str`
//! and `Vec<char>`.

use vstd::prelude::*;

verus! {

/// Lowercase mapping over Unicode scalar values, covering ASCII, Latin-1,
/// Latin Extended-A, Greek and Cyrillic. Scalars outside these ranges are
/// left unchanged.
pub open spec fn lower_scalar(u: u32) -> u32 {
    if 0x41 <= u <= 0x5A {
        (u + 0x20) as u32
    } else if 0xC0 <= u <= 0xDE && u != 0xD7 {
        (u + 0x20) as u32
    } else if (0x100 <= u <= 0x137 || 0x14A <= u <= 0x177) && u % 2 == 0 {
        (u + 1) as u32
    } else if (0x139 <= u <= 0x148 || 0x179 <= u <= 0x17E) && u % 2 == 1 {
        (u + 1) as u32
    } else if u == 0x178 {
        0xFF
    } else if u == 0x386 {
        0x3AC
    } else if 0x388 <= u <= 0x38A {
        (u + 0x25) as u32
    } else if u == 0x38C {
        0x3CC
    } else if 0x38E <= u <= 0x38F {
        (u + 0x3F) as u32
    } else if 0x391 <= u <= 0x3A1 || 0x3A3 <= u <= 0x3AB {
        (u + 0x20) as u32
    } else if 0x400 <= u <= 0x40F {
        (u + 0x50) as u32
    } else if 0x410 <= u <= 0x42F {
        (u + 0x20) as u32
    } else if (0x460 <= u <= 0x481 || 0x48A <= u <= 0x4BF || 0x4D0 <= u <= 0x52F) && u % 2 == 0 {
        (u + 1) as u32
    } else {
        u
    }
}

/// Diacritic folding over Unicode scalar values: accented Latin letters map
/// to their unaccented ASCII base letter. The table covers the lowercase
/// letters of Latin-1 and Latin Extended-A; everything else (including
/// Greek and Cyrillic, whose letters carry no foldable accents here) is
/// left unchanged. Folding is applied after lowercasing, so uppercase
/// accented letters never reach it.
pub open spec fn fold_scalar(u: u32) -> u32 {
    if 0xE0 <= u <= 0xE5 || u == 0x101 || u == 0x103 || u == 0x105 {
        0x61  // a
    } else if u == 0xE7 || u == 0x107 || u == 0x109 || u == 0x10B || u == 0x10D {
        0x63  // c
    } else if u == 0x10F || u == 0x111 || u == 0xF0 {
        0x64  // d
    } else if 0xE8 <= u <= 0xEB || u == 0x113 || u == 0x115 || u == 0x117 || u == 0x119
        || u == 0x11B {
        0x65  // e
    } else if u == 0x11D || u == 0x11F || u == 0x121 || u == 0x123 {
        0x67  // g
    } else if u == 0x125 || u == 0x127 {
        0x68  // h
    } else if 0xEC <= u <= 0xEF || u == 0x129 || u == 0x12B || u == 0x12D || u == 0x12F
        || u == 0x131 {
        0x69  // i
    } else if u == 0x135 {
        0x6A  // j
    } else if u == 0x137 || u == 0x138 {
        0x6B  // k
    } else if u == 0x13A || u == 0x13C || u == 0x13E || u == 0x140 || u == 0x142 {
        0x6C  // l
    } else if u == 0xF1 || u == 0x144 || u == 0x146 || u == 0x148 || u == 0x149 || u == 0x14B {
        0x6E  // n
    } else if 0xF2 <= u <= 0xF6 || u == 0xF8 || u == 0x14D || u == 0x14F || u == 0x151 {
        0x6F  // o
    } else if u == 0x155 || u == 0x157 || u == 0x159 {
        0x72  // r
    } else if u == 0x15B || u == 0x15D || u == 0x15F || u == 0x161 {
        0x73  // s
    } else if u == 0x163 || u == 0x165 || u == 0x167 {
        0x74  // t
    } else if 0xF9 <= u <= 0xFC || u == 0x169 || u == 0x16B || u == 0x16D || u == 0x16F
        || u == 0x171 || u == 0x173 {
        0x75  // u
    } else if u == 0x175 {
        0x77  // w
    } else if u == 0xFD || u == 0xFF || u == 0x177 {
        0x79  // y
    } else if u == 0x17A || u == 0x17C || u == 0x17E {
        0x7A  // z
    } else {
        u
    }
}

/// A scalar value a `char` may hold.
pub open spec fn valid_scalar(u: u32) -> bool {
    u < 0xD800 || (0xE000 <= u && u <= 0x10FFFF)
}

pub proof fn lemma_lower_scalar_valid(u: u32)
    requires
        valid_scalar(u),
    ensures
        valid_scalar(lower_scalar(u)),
{
}

pub proof fn lemma_fold_scalar_valid(u: u32)
    requires
        valid_scalar(u),
    ensures
        valid_scalar(fold_scalar(u)),
{
}

/// Lowercase a character (see `lower_scalar`).
pub open spec fn lower_char(c: char) -> char {
    lower_scalar(c as u32) as char
}

/// Fold the diacritics off a character (see `fold_scalar`).
pub open spec fn fold_char(c: char) -> char {
    fold_scalar(c as u32) as char
}

/// Normalize one character the way the tokenizer does: lowercase it, then
/// fold its diacritics.
pub open spec fn norm_char(c: char) -> char {
    fold_char(lower_char(c))
}

/// Relies on `char::from_u32` from std: it returns `Some` exactly for the
/// scalar values outside the surrogate range, and the character it returns
/// has the given scalar value.
#[verifier::external_body]
fn char_from_u32(u: u32) -> (r: Option<char>)
    ensures
        r == (if valid_scalar(u) {
            Some(u as char)
        } else {
            Option::<char>::None
        }),
{
    char::from_u32(u)
}

pub fn exec_lower_char(c: char) -> (r: char)
    ensures
        r == lower_char(c),
{
    let u = c as u32;
    let l = exec_lower_scalar(u);
    if l == u {
        assert(c as u32 as char == c);
        c
    } else {
        proof {
            lemma_lower_scalar_valid(u);
        }
        match char_from_u32(l) {
            Some(d) => d,
            None => c,
        }
    }
}

pub fn exec_fold_char(c: char) -> (r: char)
    ensures
        r == fold_char(c),
{
    let u = c as u32;
    let l = exec_fold_scalar(u);
    if l == u {
        assert(c as u32 as char == c);
        c
    } else {
        proof {
            lemma_fold_scalar_valid(u);
        }
        match char_from_u32(l) {
            Some(d) => d,
            None => c,
        }
    }
}

pub fn exec_norm_char(c: char) -> (r: char)
    ensures
        r == norm_char(c),
{
    exec_fold_char(exec_lower_char(c))
}

fn exec_lower_scalar(u: u32) -> (r: u32)
    ensures
        r == lower_scalar(u),
{
    if 0x41 <= u && u <= 0x5A {
        u + 0x20
    } else if 0xC0 <= u && u <= 0xDE && u != 0xD7 {
        u + 0x20
    } else if (0x100 <= u && u <= 0x137 || 0x14A <= u && u <= 0x177) && u % 2 == 0 {
        u + 1
    } else if (0x139 <= u && u <= 0x148 || 0x179 <= u && u <= 0x17E) && u % 2 == 1 {
        u + 1
    } else if u == 0x178 {
        0xFF
    } else if u == 0x386 {
        0x3AC
    } else if 0x388 <= u && u <= 0x38A {
        u + 0x25
    } else if u == 0x38C {
        0x3CC
    } else if 0x38E <= u && u <= 0x38F {
        u + 0x3F
    } else if 0x391 <= u && u <= 0x3A1 || 0x3A3 <= u && u <= 0x3AB {
        u + 0x20
    } else if 0x400 <= u && u <= 0x40F {
        u + 0x50
    } else if 0x410 <= u && u <= 0x42F {
        u + 0x20
    } else if (0x460 <= u && u <= 0x481 || 0x48A <= u && u <= 0x4BF || 0x4D0 <= u && u <= 0x52F)
        && u % 2 == 0 {
        u + 1
    } else {
        u
    }
}

fn exec_fold_scalar(u: u32) -> (r: u32)
    ensures
        r == fold_scalar(u),
{
    if 0xE0 <= u && u <= 0xE5 || u == 0x101 || u == 0x103 || u == 0x105 {
        0x61
    } else if u == 0xE7 || u == 0x107 || u == 0x109 || u == 0x10B || u == 0x10D {
        0x63
    } else if u == 0x10F || u == 0x111 || u == 0xF0 {
        0x64
    } else if 0xE8 <= u && u <= 0xEB || u == 0x113 || u == 0x115 || u == 0x117 || u == 0x119
        || u == 0x11B {
        0x65
    } else if u == 0x11D || u == 0x11F || u == 0x121 || u == 0x123 {
        0x67
    } else if u == 0x125 || u == 0x127 {
        0x68
    } else if 0xEC <= u && u <= 0xEF || u == 0x129 || u == 0x12B || u == 0x12D || u == 0x12F
        || u == 0x131 {
        0x69
    } else if u == 0x135 {
        0x6A
    } else if u == 0x137 || u == 0x138 {
        0x6B
    } else if u == 0x13A || u == 0x13C || u == 0x13E || u == 0x140 || u == 0x142 {
        0x6C
    } else if u == 0xF1 || u == 0x144 || u == 0x146 || u == 0x148 || u == 0x149 || u == 0x14B {
        0x6E
    } else if 0xF2 <= u && u <= 0xF6 || u == 0xF8 || u == 0x14D || u == 0x14F || u == 0x151 {
        0x6F
    } else if u == 0x155 || u == 0x157 || u == 0x159 {
        0x72
    } else if u == 0x15B || u == 0x15D || u == 0x15F || u == 0x161 {
        0x73
    } else if u == 0x163 || u == 0x165 || u == 0x167 {
        0x74
    } else if 0xF9 <= u && u <= 0xFC || u == 0x169 || u == 0x16B || u == 0x16D || u == 0x16F
        || u == 0x171 || u == 0x173 {
        0x75
    } else if u == 0x175 {
        0x77
    } else if u == 0xFD || u == 0xFF || u == 0x177 {
        0x79
    } else if u == 0x17A || u == 0x17C || u == 0x17E {
        0x7A
    } else {
        u
    }
}

/// ASCII decimal digit.
pub open spec fn is_digit(c: char) -> bool {
    '0' <= c && c <= '9'
}

/// ASCII lowercase letter.
pub open spec fn is_lower_alpha(c: char) -> bool {
    'a' <= c && c <= 'z'
}

/// A letter in either ASCII case.
pub open spec fn is_alpha(c: char) -> bool {
    ('a' <= c && c <= 'z') || ('A' <= c && c <= 'Z')
}

/// The characters collapsed to nothing by the tokenizer: carets, the
/// apostrophe variants, and the period.
pub open spec fn is_erased(c: char) -> bool {
    c == '^' || c == '\u{2018}' || c == '\u{2019}' || c == '\u{02BC}' || c == '\u{02BB}'
        || c == '\u{FF07}' || c == '\'' || c == '.'
}

/// Whitespace, as the tokenizer sees it.
pub open spec fn is_white(c: char) -> bool {
    c == ' ' || c == '\t' || c == '\n' || c == '\r' || c == '\u{0B}' || c == '\u{0C}'
        || c == '\u{85}' || c == '\u{A0}' || c == '\u{1680}' || c == '\u{3000}'
}

/// The punctuation the tokenizer turns into a space: two general-punctuation
/// blocks, the ASCII punctuation marks, and the hyphen.
pub open spec fn is_space_punc(c: char) -> bool {
    ('\u{2000}' <= c && c <= '\u{206F}') || ('\u{2E00}' <= c && c <= '\u{2E7F}') || c == '\\'
        || c == '!' || c == '"' || c == '$' || c == '#' || c == '%' || c == '&' || c == '('
        || c == ')' || c == '*' || c == '+' || c == ',' || c == '/' || c == ':' || c == ';'
        || c == '<' || c == '=' || c == '>' || c == '?' || c == '@' || c == '[' || c == ']'
        || c == '^' || c == '_' || c == '`' || c == '{' || c == '|' || c == '}' || c == '~'
        || c == '-'
}

/// A character that ends a token: punctuation or whitespace.
pub open spec fn is_break(c: char) -> bool {
    is_space_punc(c) || is_white(c)
}

pub fn exec_is_digit(c: char) -> (r: bool)
    ensures
        r == is_digit(c),
{
    '0' <= c && c <= '9'
}

pub fn exec_is_erased(c: char) -> (r: bool)
    ensures
        r == is_erased(c),
{
    c == '^' || c == '\u{2018}' || c == '\u{2019}' || c == '\u{02BC}' || c == '\u{02BB}'
        || c == '\u{FF07}' || c == '\'' || c == '.'
}

pub fn exec_is_break(c: char) -> (r: bool)
    ensures
        r == is_break(c),
{
    ('\u{2000}' <= c && c <= '\u{206F}') || ('\u{2E00}' <= c && c <= '\u{2E7F}') || c == '\\'
        || c == '!' || c == '"' || c == '$' || c == '#' || c == '%' || c == '&' || c == '('
        || c == ')' || c == '*' || c == '+' || c == ',' || c == '/' || c == ':' || c == ';'
        || c == '<' || c == '=' || c == '>' || c == '?' || c == '@' || c == '[' || c == ']'
        || c == '^' || c == '_' || c == '`' || c == '{' || c == '|' || c == '}' || c == '~'
        || c == '-' || c == ' ' || c == '\t' || c == '\n' || c == '\r' || c == '\u{0B}'
        || c == '\u{0C}' || c == '\u{85}' || c == '\u{A0}' || c == '\u{1680}' || c == '\u{3000}'
}

/// The characters of a string slice, in order.
pub fn str_chars(s: &str) -> (r: Vec<char>)
    ensures
        r@ == s@,
{
    let n = s.unicode_len();
    let mut r: Vec<char> = Vec::new();
    let mut i: usize = 0;
    while i < n
        invariant
            n == s@.len(),
            i <= n,
            r@ == s@.take(i as int),
        decreases n - i,
    {
        r.push(s.get_char(i));
        i = i + 1;
        proof {
            assert(r@ =~= s@.take(i as int));
        }
    }
    proof {
        assert(s@.take(n as int) =~= s@);
    }
    r
}

/// Law: folding never invents marks; each character either stays exactly as
/// it is or becomes an unaccented ASCII lowercase letter. In particular a
/// non-Latin character (Greek, Cyrillic, CJK) is never altered into a
/// different base character.
pub proof fn lemma_fold_ascii_or_identity(c: char)
    ensures
        fold_char(c) == c || ('a' <= fold_char(c) && fold_char(c) <= 'z'),
{
}

/// Law: folding only touches the accented Latin letters; every character
/// outside the Latin-1 supplement and Latin Extended-A letter ranges passes
/// through unchanged.
pub proof fn lemma_fold_preserves_other_scripts(c: char)
    requires
        (c as u32) < 0xDF || (c as u32) > 0x17E,
    ensures
        fold_char(c) == c,
{
}

/// Relies on std's `FromIterator` for `String`: collecting characters yields
/// the string made of exactly those characters in order.
#[verifier::external_body]
pub fn string_from_chars(v: &Vec<char>) -> (s: String)
    ensures
        s@ == v@,
{
    v.iter().collect()
}

} // verus!
// String-level helpers shared by the library.

use vstd::prelude::*;

verus! {

/// ASCII uppercase of one character; everything else is unchanged. Country
/// and region codes are ASCII, so this is all their normalization needs.
pub open spec fn upper_ascii_char(c: char) -> char {
    if 'a' <= c && c <= 'z' {
        ((c as u32) - 0x20) as char
    } else {
        c
    }
}

pub open spec fn upper_ascii(s: Seq<char>) -> Seq<char> {
    s.map_values(|c: char| upper_ascii_char(c))
}

pub fn exec_upper_ascii_char(c: char) -> (r: char)
    ensures
        r == upper_ascii_char(c),
{
    if 'a' <= c && c <= 'z' {
        let u = (c as u32) - 0x20;
        match char_from_u32(u) {
            Some(d) => d,
            None => c,
        }
    } else {
        c
    }
}

/// ASCII-uppercase a whole string.
pub fn exec_upper_ascii(s: &str) -> (r: String)
    ensures
        r@ == upper_ascii(s@),
{
    let cs = str_chars(s);
    let mut out: Vec<char> = Vec::new();
    let mut i: usize = 0;
    while i < cs.len()
        invariant
            i <= cs@.len(),
            cs@ == s@,
            out@.len() == i,
            forall|j: int| 0 <= j < i ==> out@[j] == upper_ascii_char(s@[j]),
        decreases cs@.len() - i,
    {
        out.push(exec_upper_ascii_char(cs[i]));
        i = i + 1;
    }
    proof {
        assert(out@ =~= upper_ascii(s@));
    }
    string_from_chars(&out)
}

/// Whether two strings hold the same characters.
pub fn str_eq(a: &str, b: &str) -> (r: bool)
    ensures
        r == (a@ == b@),
{
    let va = str_chars(a);
    let vb = str_chars(b);
    if va.len() != vb.len() {
        proof {
            assert(a@.len() != b@.len());
        }
        return false;
    }
    let mut i: usize = 0;
    while i < va.len()
        invariant
            i <= va@.len(),
            va@ == a@,
            vb@ == b@,
            a@.len() == b@.len(),
            forall|j: int| 0 <= j < i ==> a@[j] == b@[j],
        decreases va@.len() - i,
    {
        if va[i] != vb[i] {
            return false;
        }
        i = i + 1;
    }
    proof {
        assert(a@ =~= b@);
    }
    true
}

} // verus!
