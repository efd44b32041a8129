//! The synonym rule library: pure functions that recognize country-specific
//! street-name patterns in a name's display text and return equivalent
//! alternate spellings, plus the predicates the linker and callers use to
//! classify names.

use vstd::prelude::*;
use crate::chars::{
    lower_char, exec_lower_char, is_digit, exec_is_digit, is_white, is_lower_alpha, is_alpha,
    str_chars, string_from_chars, str_eq,
};
use crate::name::{Name, NameView, name_views, name_new_spec, tok_words, join_words, trim_spaces, join_trim};
use crate::tokens::ParsedTokenView;
use crate::context::Context;

verus! {

/// The display text lowered character by character.
pub open spec fn lower_text(s: Seq<char>) -> Seq<char> {
    s.map_values(|c: char| lower_char(c))
}

fn lower_chars(v: &Vec<char>) -> (r: Vec<char>)
    ensures
        r@ == lower_text(v@),
{
    let mut out: Vec<char> = Vec::new();
    let mut i: usize = 0;
    while i < v.len()
        invariant
            i <= v@.len(),
            out@.len() == i,
            forall|j: int| 0 <= j < i ==> out@[j] == lower_char(v@[j]),
        decreases v@.len() - i,
    {
        out.push(exec_lower_char(v[i]));
        i = i + 1;
    }
    proof {
        assert(out@ =~= lower_text(v@));
    }
    out
}

/// The pattern `p` occurs in `s` starting at position `i`.
pub open spec fn matches_at(s: Seq<char>, i: int, p: Seq<char>) -> bool {
    0 <= i && i + p.len() <= s.len() && (forall|j: int| 0 <= j < p.len() ==> s[i + j] == p[j])
}

pub open spec fn text_starts_with(s: Seq<char>, p: Seq<char>) -> bool {
    matches_at(s, 0, p)
}

pub open spec fn text_ends_with(s: Seq<char>, p: Seq<char>) -> bool {
    s.len() >= p.len() && matches_at(s, s.len() - p.len(), p)
}

fn match_at(v: &Vec<char>, i: usize, pat: &str) -> (r: bool)
    ensures
        r == matches_at(v@, i as int, pat@),
{
    let p = str_chars(pat);
    let n = v.len();
    if i > n || n - i < p.len() {
        return false;
    }
    let mut j: usize = 0;
    while j < p.len()
        invariant
            j <= p@.len(),
            p@ == pat@,
            n == v@.len(),
            i + p@.len() <= n,
            forall|t: int| 0 <= t < j ==> v@[i + t] == pat@[t],
        decreases p@.len() - j,
    {
        if v[i + j] != p[j] {
            return false;
        }
        j = j + 1;
    }
    true
}

fn match_end(v: &Vec<char>, pat: &str) -> (r: bool)
    ensures
        r == text_ends_with(v@, pat@),
{
    let p = str_chars(pat);
    if p.len() > v.len() {
        return false;
    }
    match_at(v, v.len() - p.len(), pat)
}

/// The value of a decimal digit string.
pub open spec fn digits_val(s: Seq<char>) -> int
    decreases s.len(),
{
    if s.len() == 0 {
        0
    } else {
        digits_val(s.drop_last()) * 10 + (s.last() as int - '0' as int)
    }
}

pub open spec fn all_digits(s: Seq<char>) -> bool {
    forall|i: int| 0 <= i < s.len() ==> is_digit(s[i])
}

proof fn lemma_digits_val_nonneg(s: Seq<char>)
    requires
        all_digits(s),
    ensures
        digits_val(s) >= 0,
    decreases s.len(),
{
    if s.len() > 0 {
        assert(all_digits(s.drop_last()));
        lemma_digits_val_nonneg(s.drop_last());
    }
}

proof fn lemma_digits_val_monotone(s: Seq<char>, i: int)
    requires
        all_digits(s),
        0 <= i <= s.len(),
    ensures
        digits_val(s.take(i)) <= digits_val(s),
    decreases s.len() - i,
{
    if i < s.len() {
        lemma_digits_val_monotone(s, i + 1);
        assert(s.take(i + 1).drop_last() =~= s.take(i));
        assert(all_digits(s.take(i + 1)));
        lemma_digits_val_nonneg(s.take(i + 1).drop_last());
        assert(digits_val(s.take(i + 1)) >= digits_val(s.take(i)));
    } else {
        assert(s.take(i) =~= s);
    }
}

/// The decimal digit string of a nonnegative number, without leading zeros.
pub open spec fn dec_str(n: int) -> Seq<char>
    decreases n,
{
    if n < 0 {
        Seq::empty()
    } else if n < 10 {
        seq![digit_char(n)]
    } else {
        dec_str(n / 10).push(digit_char(n % 10))
    }
}

pub open spec fn digit_char(d: int) -> char {
    if d == 0 {
        '0'
    } else if d == 1 {
        '1'
    } else if d == 2 {
        '2'
    } else if d == 3 {
        '3'
    } else if d == 4 {
        '4'
    } else if d == 5 {
        '5'
    } else if d == 6 {
        '6'
    } else if d == 7 {
        '7'
    } else if d == 8 {
        '8'
    } else {
        '9'
    }
}

fn exec_digit_char(d: u64) -> (r: char)
    requires
        d < 10,
    ensures
        r == digit_char(d as int),
{
    if d == 0 {
        '0'
    } else if d == 1 {
        '1'
    } else if d == 2 {
        '2'
    } else if d == 3 {
        '3'
    } else if d == 4 {
        '4'
    } else if d == 5 {
        '5'
    } else if d == 6 {
        '6'
    } else if d == 7 {
        '7'
    } else if d == 8 {
        '8'
    } else {
        '9'
    }
}

/// Append the decimal digits of `n` to `out`.
fn push_dec(n: u64, out: &mut Vec<char>)
    ensures
        final(out)@ == old(out)@ + dec_str(n as int),
    decreases n,
{
    if n < 10 {
        out.push(exec_digit_char(n));
        proof {
            assert(old(out)@ + dec_str(n as int) =~= old(out)@.push(digit_char(n as int)));
        }
    } else {
        push_dec(n / 10, out);
        out.push(exec_digit_char(n % 10));
        proof {
            assert(old(out)@ + dec_str(n as int) =~= (old(out)@ + dec_str(n as int / 10)).push(
                digit_char(n as int % 10),
            ));
        }
    }
}

/// Parse a digit run as a number, unless it exceeds `i64::MAX` (larger
/// ordinals are rejected rather than computed).
fn parse_digits(v: &Vec<char>, end: usize) -> (r: Option<u64>)
    requires
        end <= v@.len(),
        all_digits(v@.take(end as int)),
    ensures
        match r {
            Some(n) => n <= i64::MAX && n as int == digits_val(v@.take(end as int)),
            None => digits_val(v@.take(end as int)) > i64::MAX,
        },
{
    let mut val: u64 = 0;
    let mut i: usize = 0;
    proof {
        assert(v@.take(0) =~= Seq::<char>::empty());
    }
    while i < end
        invariant
            i <= end,
            end <= v@.len(),
            all_digits(v@.take(end as int)),
            val <= i64::MAX,
            val as int == digits_val(v@.take(i as int)),
        decreases end - i,
    {
        proof {
            assert(is_digit(v@.take(end as int)[i as int]));
            assert(v@.take(i + 1).drop_last() =~= v@.take(i as int));
            assert(v@.take(i + 1).last() == v@[i as int]);
        }
        let c = v[i];
        let d: u64 = (c as u32 as u64) - ('0' as u32 as u64);
        assert(d < 10);
        if val > (0x7fff_ffff_ffff_ffffu64 - d) / 10 {
            proof {
                assert(digits_val(v@.take(i + 1)) > i64::MAX);
                assert(all_digits(v@.take(end as int)));
                assert forall|j: int| 0 <= j < end implies is_digit(v@.take(end as int)[j]) by {}
                assert(v@.take(end as int).take(i + 1) =~= v@.take(i + 1));
                lemma_digits_val_monotone(v@.take(end as int), i + 1);
            }
            return None;
        }
        val = val * 10 + d;
        i = i + 1;
    }
    Some(val)
}

/// Index just past the digit run starting at `i`.
pub open spec fn run_end(s: Seq<char>, i: int) -> int
    decreases s.len() - i,
{
    if 0 <= i < s.len() && is_digit(s[i]) {
        run_end(s, i + 1)
    } else {
        i
    }
}

fn exec_run_end(v: &Vec<char>, start: usize) -> (r: usize)
    requires
        start <= v@.len(),
    ensures
        r == run_end(v@, start as int),
        start <= r <= v@.len(),
    decreases v@.len() - start,
{
    if start < v.len() && exec_is_digit(v[start]) {
        exec_run_end(v, start + 1)
    } else {
        start
    }
}

/// Start of the digit run that ends just before `m`.
pub open spec fn run_start(s: Seq<char>, m: int) -> int
    decreases m,
{
    if 0 < m <= s.len() && is_digit(s[m - 1]) {
        run_start(s, m - 1)
    } else {
        m
    }
}

fn exec_run_start(v: &Vec<char>, m: usize) -> (r: usize)
    requires
        m <= v@.len(),
    ensures
        r == run_start(v@, m as int),
        r <= m,
    decreases m,
{
    if m > 0 && exec_is_digit(v[m - 1]) {
        exec_run_start(v, m - 1)
    } else {
        m
    }
}

proof fn lemma_run_start_digits(s: Seq<char>, m: int)
    requires
        0 <= m <= s.len(),
    ensures
        forall|j: int| run_start(s, m) <= j < m ==> is_digit(s[j]),
        run_start(s, m) >= 0,
    decreases m,
{
    if 0 < m && is_digit(s[m - 1]) {
        lemma_run_start_digits(s, m - 1);
    }
}

/// Index just past the whitespace run starting at `i`.
pub open spec fn white_end(s: Seq<char>, i: int) -> int
    decreases s.len() - i,
{
    if 0 <= i < s.len() && is_white(s[i]) {
        white_end(s, i + 1)
    } else {
        i
    }
}

fn exec_white_end(v: &Vec<char>, start: usize) -> (r: usize)
    requires
        start <= v@.len(),
    ensures
        r == white_end(v@, start as int),
        start <= r <= v@.len(),
    decreases v@.len() - start,
{
    if start < v.len() && exec_is_white(v[start]) {
        exec_white_end(v, start + 1)
    } else {
        start
    }
}

fn exec_is_white(c: char) -> (r: bool)
    ensures
        r == is_white(c),
{
    c == ' ' || c == '\t' || c == '\n' || c == '\r' || c == '\u{0B}' || c == '\u{0C}'
        || c == '\u{85}' || c == '\u{A0}' || c == '\u{1680}' || c == '\u{3000}'
}

/// A word character, as the number-suffix rule requires after the space:
/// an ASCII letter, digit or underscore, or any character beyond ASCII.
pub open spec fn is_word_char(c: char) -> bool {
    is_digit(c) || is_alpha(c) || c == '_' || c > '\u{7F}'
}

fn exec_is_word_char(c: char) -> (r: bool)
    ensures
        r == is_word_char(c),
{
    ('0' <= c && c <= '9') || ('a' <= c && c <= 'z') || ('A' <= c && c <= 'Z') || c == '_'
        || c > '\u{7F}'
}

// ---------------------------------------------------------------------------
// str_remove_octo
// ---------------------------------------------------------------------------

/// Length of the route keyword (with its trailing space) that opens the
/// text, if one does.
pub open spec fn octo_prefix_len(low: Seq<char>) -> Option<int> {
    if text_starts_with(low, "highway "@) {
        Some(8int)
    } else if text_starts_with(low, "hwy "@) {
        Some(4int)
    } else if text_starts_with(low, "route "@) {
        Some(6int)
    } else if text_starts_with(low, "rte "@) {
        Some(4int)
    } else if text_starts_with(low, "us "@) {
        Some(3int)
    } else {
        None
    }
}

/// The text with the octothorpe dropped from names like "HWY #35": when a
/// route keyword is followed by `#` and a digit, the `#` is removed;
/// any other text is returned unchanged.
pub open spec fn octo_spec(s: Seq<char>) -> Seq<char> {
    let low = lower_text(s);
    match octo_prefix_len(low) {
        Some(p) => if p + 1 < s.len() && s[p] == '#' && is_digit(s[p + 1]) {
            s.take(p) + s.skip(p + 1)
        } else {
            s
        },
        None => s,
    }
}

/// Remove the octothorpe from names like "HWY #35", giving "HWY 35".
pub fn str_remove_octo(text: &String) -> (r: String)
    ensures
        r@ == octo_spec(text@),
{
    let orig = str_chars(text.as_str());
    let low = lower_chars(&orig);
    let p: usize = if match_at(&low, 0, "highway ") {
        8
    } else if match_at(&low, 0, "hwy ") {
        4
    } else if match_at(&low, 0, "route ") {
        6
    } else if match_at(&low, 0, "rte ") {
        4
    } else if match_at(&low, 0, "us ") {
        3
    } else {
        return text.clone();
    };
    if p + 1 < orig.len() && orig[p] == '#' && exec_is_digit(orig[p + 1]) {
        let mut out: Vec<char> = Vec::new();
        proof {
            assert(text@.take(0) =~= Seq::<char>::empty());
        }
        let mut i: usize = 0;
        while i < p
            invariant
                i <= p,
                p < orig@.len(),
                orig@ == text@,
                out@ == text@.take(i as int),
            decreases p - i,
        {
            out.push(orig[i]);
            proof {
                assert(out@ =~= text@.take(i + 1));
            }
            i = i + 1;
        }
        proof {
            assert(text@.take(p as int) + text@.subrange(p + 1, p + 1) =~= text@.take(p as int));
        }
        let mut j: usize = p + 1;
        while j < orig.len()
            invariant
                p + 1 <= j <= orig@.len(),
                orig@ == text@,
                out@ == text@.take(p as int) + text@.subrange(p + 1, j as int),
            decreases orig@.len() - j,
        {
            let ghost prev = out@;
            out.push(orig[j]);
            proof {
                assert(text@.take(p as int) + text@.subrange(p + 1, j + 1) =~= prev.push(
                    text@[j as int],
                ));
            }
            j = j + 1;
        }
        proof {
            assert(text@.subrange(p + 1, text@.len() as int) =~= text@.skip(p + 1));
        }
        string_from_chars(&out)
    } else {
        text.clone()
    }
}

// ---------------------------------------------------------------------------
// syn_number_suffix
// ---------------------------------------------------------------------------

/// The English ordinal suffix of a number: `th` for 10 through 20 (mod 100)
/// and anything not ending in 1, 2 or 3; `st`/`nd`/`rd` otherwise.
pub open spec fn ordinal_suffix(n: int) -> Seq<char> {
    if 10 <= n % 100 && n % 100 <= 20 {
        "th"@
    } else if n % 10 == 1 {
        "st"@
    } else if n % 10 == 2 {
        "nd"@
    } else if n % 10 == 3 {
        "rd"@
    } else {
        "th"@
    }
}

/// Split a display text of the shape `<digits> <rest>`: the digit run, then
/// whitespace, then a rest that opens with a word character.
pub open spec fn num_suffix_parts(s: Seq<char>) -> Option<(Seq<char>, Seq<char>)> {
    let d = run_end(s, 0);
    if d == 0 {
        None
    } else {
        let w = white_end(s, d);
        if w == d || w >= s.len() || !is_word_char(s[w]) {
            None
        } else {
            Some((s.take(d), s.skip(w)))
        }
    }
}

/// What the number-suffix rule yields: for `5 Avenue` the single synonym
/// `5th Avenue` at priority -1; nothing when the shape or the ordinal value
/// (beyond `i64::MAX`) does not fit.
pub open spec fn syn_number_suffix_spec(
    n: NameView,
    table: Map<Seq<char>, ParsedTokenView>,
) -> Seq<NameView> {
    match num_suffix_parts(n.display) {
        None => Seq::empty(),
        Some((d, rest)) => {
            let v = digits_val(d);
            if v > i64::MAX {
                Seq::empty()
            } else {
                seq![
                    name_new_spec(
                        dec_str(v) + ordinal_suffix(v) + seq![' '] + rest,
                        -1i8,
                        table,
                    ),
                ]
            }
        },
    }
}

/// Detect displays like `5 Avenue` and return the ordinal synonym
/// `5th Avenue`, at priority one below zero.
pub fn syn_number_suffix(name: &Name, context: &Context) -> (r: Vec<Name>)
    ensures
        name_views(r@) == syn_number_suffix_spec(name@, context@.table),
{
    let orig = str_chars(name.display.as_str());
    let d = exec_run_end(&orig, 0);
    if d == 0 {
        return Vec::new();
    }
    let w = exec_white_end(&orig, d);
    if w == d || w >= orig.len() || !exec_is_word_char(orig[w]) {
        return Vec::new();
    }
    proof {
        lemma_run_end_digits(orig@, 0);
        assert(orig@.take(d as int) =~= orig@.take(run_end(orig@, 0)));
    }
    let num = match parse_digits(&orig, d) {
        Some(v) => v,
        None => {
            return Vec::new();
        },
    };
    let mut disp: Vec<char> = Vec::new();
    push_dec(num, &mut disp);
    let suffix: &str = if (num % 100) >= 10 && (num % 100) <= 20 {
        "th"
    } else if num % 10 == 1 {
        "st"
    } else if num % 10 == 2 {
        "nd"
    } else if num % 10 == 3 {
        "rd"
    } else {
        "th"
    };
    let sufc = str_chars(suffix);
    let ghost before = disp@;
    let mut k: usize = 0;
    while k < sufc.len()
        invariant
            k <= sufc@.len(),
            disp@ == before + sufc@.take(k as int),
        decreases sufc@.len() - k,
    {
        let ghost prev = disp@;
        disp.push(sufc[k]);
        proof {
            assert(before + sufc@.take(k + 1) =~= prev.push(sufc@[k as int]));
        }
        k = k + 1;
    }
    proof {
        assert(sufc@.take(sufc@.len() as int) =~= sufc@);
        assert(sufc@ == ordinal_suffix(num as int));
    }
    disp.push(' ');
    let ghost mid = disp@;
    let mut k2: usize = w;
    while k2 < orig.len()
        invariant
            w <= k2 <= orig@.len(),
            disp@ == mid + orig@.subrange(w as int, k2 as int),
        decreases orig@.len() - k2,
    {
        let ghost prev = disp@;
        disp.push(orig[k2]);
        proof {
            assert(mid + orig@.subrange(w as int, k2 + 1) =~= prev.push(orig@[k2 as int]));
        }
        k2 = k2 + 1;
    }
    proof {
        assert(orig@.subrange(w as int, orig@.len() as int) =~= orig@.skip(w as int));
        assert(disp@ =~= dec_str(num as int) + ordinal_suffix(num as int) + seq![' ']
            + orig@.skip(w as int));
    }
    let display = string_from_chars(&disp);
    let out_name = Name::new(display, -1, context);
    let mut r: Vec<Name> = Vec::new();
    r.push(out_name);
    proof {
        assert(name_views(r@) =~= syn_number_suffix_spec(name@, context@.table));
    }
    r
}

proof fn lemma_run_end_digits(s: Seq<char>, i: int)
    requires
        0 <= i <= s.len(),
    ensures
        forall|j: int| i <= j < run_end(s, i) ==> is_digit(s[j]),
        i <= run_end(s, i) <= s.len(),
    decreases s.len() - i,
{
    if i < s.len() && is_digit(s[i]) {
        lemma_run_end_digits(s, i + 1);
    }
}


/// Append a range of another character vector.
fn push_range(out: &mut Vec<char>, v: &Vec<char>, from: usize, to: usize)
    requires
        from <= to <= v@.len(),
    ensures
        final(out)@ == old(out)@ + v@.subrange(from as int, to as int),
{
    let mut i: usize = from;
    proof {
        assert(old(out)@ + v@.subrange(from as int, from as int) =~= old(out)@);
    }
    while i < to
        invariant
            from <= i <= to <= v@.len(),
            out@ == old(out)@ + v@.subrange(from as int, i as int),
        decreases to - i,
    {
        let ghost prev = out@;
        out.push(v[i]);
        proof {
            assert(old(out)@ + v@.subrange(from as int, i + 1) =~= prev.push(v@[i as int]));
        }
        i = i + 1;
    }
}

/// Append the characters of a string slice.
fn push_str_chars(out: &mut Vec<char>, s: &str)
    ensures
        final(out)@ == old(out)@ + s@,
{
    let cs = str_chars(s);
    let mut i: usize = 0;
    proof {
        assert(old(out)@ + s@.take(0) =~= old(out)@);
    }
    while i < cs.len()
        invariant
            i <= cs@.len(),
            cs@ == s@,
            out@ == old(out)@ + s@.take(i as int),
        decreases cs@.len() - i,
    {
        let ghost prev = out@;
        out.push(cs[i]);
        proof {
            assert(old(out)@ + s@.take(i + 1) =~= prev.push(s@[i as int]));
        }
        i = i + 1;
    }
    proof {
        assert(s@.take(s@.len() as int) =~= s@);
    }
}

// ---------------------------------------------------------------------------
// syn_written_numeric
// ---------------------------------------------------------------------------

/// The written tens word starting at `i`, with its length and digit.
pub open spec fn tens_at(low: Seq<char>, i: int) -> Option<(int, char)> {
    if matches_at(low, i, "twenty"@) {
        Some((6int, '2'))
    } else if matches_at(low, i, "thirty"@) {
        Some((6int, '3'))
    } else if matches_at(low, i, "fourty"@) {
        Some((6int, '4'))
    } else if matches_at(low, i, "fifty"@) {
        Some((5int, '5'))
    } else if matches_at(low, i, "sixty"@) {
        Some((5int, '6'))
    } else if matches_at(low, i, "seventy"@) {
        Some((7int, '7'))
    } else if matches_at(low, i, "eighty"@) {
        Some((6int, '8'))
    } else if matches_at(low, i, "ninety"@) {
        Some((6int, '9'))
    } else {
        None
    }
}

/// The written ordinal word starting at `i`, with its length and digit form.
pub open spec fn nth_at(low: Seq<char>, i: int) -> Option<(int, Seq<char>)> {
    if matches_at(low, i, "first"@) {
        Some((5int, "1st"@))
    } else if matches_at(low, i, "second"@) {
        Some((6int, "2nd"@))
    } else if matches_at(low, i, "third"@) {
        Some((5int, "3rd"@))
    } else if matches_at(low, i, "fourth"@) {
        Some((6int, "4th"@))
    } else if matches_at(low, i, "fifth"@) {
        Some((5int, "5th"@))
    } else if matches_at(low, i, "sixth"@) {
        Some((5int, "6th"@))
    } else if matches_at(low, i, "seventh"@) {
        Some((7int, "7th"@))
    } else if matches_at(low, i, "eighth"@) {
        Some((6int, "8th"@))
    } else if matches_at(low, i, "ninth"@) {
        Some((5int, "9th"@))
    } else {
        None
    }
}

/// A `<tens>-<ordinal>` compound starting at `i`: the tens length and digit
/// and the ordinal length and digit form.
pub open spec fn wn_at(low: Seq<char>, i: int) -> Option<(int, char, int, Seq<char>)> {
    match tens_at(low, i) {
        None => None,
        Some((tl, td)) => if i + tl < low.len() && low[i + tl] == '-' {
            match nth_at(low, i + tl + 1) {
                None => None,
                Some((ol, od)) => Some((tl, td, ol, od)),
            }
        } else {
            None
        },
    }
}

/// The last position at or before `i` where a written-numeric compound
/// starts, with its parts.
pub open spec fn wn_scan(low: Seq<char>, i: int) -> Option<(int, int, char, int, Seq<char>)>
    decreases i + 1,
{
    if i < 0 {
        None
    } else {
        match wn_at(low, i) {
            Some((tl, td, ol, od)) => Some((i, tl, td, ol, od)),
            None => wn_scan(low, i - 1),
        }
    }
}

/// What the written-numeric rule yields: for `Twenty-Third Avenue NW` the
/// single synonym `23rd Avenue NW` at priority -1, substituting at the last
/// compound; nothing when no compound occurs.
pub open spec fn syn_written_numeric_spec(
    n: NameView,
    table: Map<Seq<char>, ParsedTokenView>,
) -> Seq<NameView> {
    let low = lower_text(n.display);
    match wn_scan(low, low.len() - 1) {
        None => Seq::empty(),
        Some((i, tl, td, ol, od)) => seq![
            name_new_spec(
                n.display.take(i) + seq![td] + od + n.display.skip(i + tl + 1 + ol),
                -1i8,
                table,
            ),
        ],
    }
}

fn tens_at_exec(low: &Vec<char>, i: usize) -> (r: Option<(usize, char)>)
    ensures
        match r {
            Some((l, d)) => tens_at(low@, i as int) == Some((l as int, d)),
            None => tens_at(low@, i as int) is None,
        },
{
    if match_at(low, i, "twenty") {
        Some((6, '2'))
    } else if match_at(low, i, "thirty") {
        Some((6, '3'))
    } else if match_at(low, i, "fourty") {
        Some((6, '4'))
    } else if match_at(low, i, "fifty") {
        Some((5, '5'))
    } else if match_at(low, i, "sixty") {
        Some((5, '6'))
    } else if match_at(low, i, "seventy") {
        Some((7, '7'))
    } else if match_at(low, i, "eighty") {
        Some((6, '8'))
    } else if match_at(low, i, "ninety") {
        Some((6, '9'))
    } else {
        None
    }
}

fn nth_at_exec(low: &Vec<char>, i: usize) -> (r: Option<(usize, &'static str)>)
    ensures
        match r {
            Some((l, o)) => nth_at(low@, i as int) == Some((l as int, o@)),
            None => nth_at(low@, i as int) is None,
        },
{
    if match_at(low, i, "first") {
        Some((5, "1st"))
    } else if match_at(low, i, "second") {
        Some((6, "2nd"))
    } else if match_at(low, i, "third") {
        Some((5, "3rd"))
    } else if match_at(low, i, "fourth") {
        Some((6, "4th"))
    } else if match_at(low, i, "fifth") {
        Some((5, "5th"))
    } else if match_at(low, i, "sixth") {
        Some((5, "6th"))
    } else if match_at(low, i, "seventh") {
        Some((7, "7th"))
    } else if match_at(low, i, "eighth") {
        Some((6, "8th"))
    } else if match_at(low, i, "ninth") {
        Some((5, "9th"))
    } else {
        None
    }
}

fn wn_at_exec(low: &Vec<char>, i: usize) -> (r: Option<(usize, char, usize, &'static str)>)
    ensures
        match r {
            Some((tl, td, ol, od)) => wn_at(low@, i as int) == Some(
                (tl as int, td, ol as int, od@),
            ),
            None => wn_at(low@, i as int) is None,
        },
{
    let (tl, td) = match tens_at_exec(low, i) {
        Some(t) => t,
        None => {
            return None;
        },
    };
    let n = low.len();
    if i < n && tl < n - i && low[i + tl] == '-' {
        match nth_at_exec(low, i + tl + 1) {
            Some((ol, od)) => Some((tl, td, ol, od)),
            None => None,
        }
    } else {
        proof {
            if i >= n || tl >= n - i {
                assert(!(i + tl < low@.len()));
            }
        }
        None
    }
}

fn wn_scan_exec(low: &Vec<char>, ip1: usize) -> (r: Option<(usize, usize, char, usize, &'static str)>)
    requires
        ip1 <= low@.len(),
    ensures
        match r {
            Some((i, tl, td, ol, od)) => wn_scan(low@, ip1 as int - 1) == Some(
                (i as int, tl as int, td, ol as int, od@),
            ),
            None => wn_scan(low@, ip1 as int - 1) is None,
        },
    decreases ip1,
{
    if ip1 == 0 {
        None
    } else {
        match wn_at_exec(low, ip1 - 1) {
            Some((tl, td, ol, od)) => Some((ip1 - 1, tl, td, ol, od)),
            None => wn_scan_exec(low, ip1 - 1),
        }
    }
}

/// Substitute the last written `<tens>-<ordinal>` compound of the display
/// text by its digit form: `Twenty-Third Avenue NW` yields `23rd Avenue NW`
/// at priority one below zero.
pub fn syn_written_numeric(name: &Name, context: &Context) -> (r: Vec<Name>)
    ensures
        name_views(r@) == syn_written_numeric_spec(name@, context@.table),
{
    let orig = str_chars(name.display.as_str());
    let low = lower_chars(&orig);
    match wn_scan_exec(&low, low.len()) {
        None => Vec::new(),
        Some((i, tl, td, ol, od)) => {
            proof {
                lemma_wn_scan_bounds(low@, low@.len() - 1);
            }
            let mut disp: Vec<char> = Vec::new();
            push_range(&mut disp, &orig, 0, i);
            disp.push(td);
            push_str_chars(&mut disp, od);
            push_range(&mut disp, &orig, i + tl + 1 + ol, orig.len());
            proof {
                assert(orig@.subrange(0, i as int) =~= name@.display.take(i as int));
                assert(orig@.subrange(i + tl + 1 + ol, orig@.len() as int) =~= name@.display.skip(
                    i + tl + 1 + ol,
                ));
                assert(disp@ =~= name@.display.take(i as int) + seq![td] + od@ + name@.display.skip(
                    i + tl + 1 + ol,
                ));
            }
            let display = string_from_chars(&disp);
            let out_name = Name::new(display, -1, context);
            let mut r: Vec<Name> = Vec::new();
            r.push(out_name);
            proof {
                assert(name_views(r@) =~= syn_written_numeric_spec(name@, context@.table));
            }
            r
        },
    }
}

proof fn lemma_wn_scan_bounds(low: Seq<char>, i: int)
    ensures
        match wn_scan(low, i) {
            Some((p, tl, td, ol, od)) => 0 <= p && p + tl + 1 + ol <= low.len() && 0 < tl && 0
                < ol,
            None => true,
        },
    decreases i + 1,
{
    if i >= 0 {
        if wn_at(low, i) is Some {
            reveal_strlit("twenty");
            reveal_strlit("thirty");
            reveal_strlit("fourty");
            reveal_strlit("fifty");
            reveal_strlit("sixty");
            reveal_strlit("seventy");
            reveal_strlit("eighty");
            reveal_strlit("ninety");
            reveal_strlit("first");
            reveal_strlit("second");
            reveal_strlit("third");
            reveal_strlit("fourth");
            reveal_strlit("fifth");
            reveal_strlit("sixth");
            reveal_strlit("seventh");
            reveal_strlit("eighth");
            reveal_strlit("ninth");
        } else {
            lemma_wn_scan_bounds(low, i - 1);
        }
    }
}

// ---------------------------------------------------------------------------
// is_drivethrough
// ---------------------------------------------------------------------------

/// The lowered text ends in "drive", at most one further character, and the
/// given closing word.
pub open spec fn dt_suffix(low: Seq<char>, alt: Seq<char>) -> bool {
    text_ends_with(low, alt) && (matches_at(low, low.len() - alt.len() - 5, "drive"@)
        || matches_at(low, low.len() - alt.len() - 6, "drive"@))
}

/// An English drive-in / drive-through / drive-thru ending.
pub open spec fn drivethrough_text(low: Seq<char>) -> bool {
    dt_suffix(low, "in"@) || dt_suffix(low, "through"@) || dt_suffix(low, "thru"@)
}

/// The drivethrough rejection predicate: an English drive-in/through/thru
/// ending in the countries that use it, or a German " einfahrt" ending in
/// Germany.
pub open spec fn is_drivethrough_spec(text: Seq<char>, country: Seq<char>) -> bool {
    let low = lower_text(text);
    ((country == "US"@ || country == "CA"@ || country == "GB"@ || country == "DE"@ || country
        == "CH"@ || country == "AT"@) && drivethrough_text(low)) || (country == "DE"@
        && text_ends_with(low, " einfahrt"@))
}

fn dt_suffix_exec(low: &Vec<char>, alt: &str) -> (r: bool)
    ensures
        r == dt_suffix(low@, alt@),
{
    if !match_end(low, alt) {
        return false;
    }
    let alt_len = str_chars(alt).len();
    let n = low.len();
    let a = if n - alt_len >= 5 && match_at(low, n - alt_len - 5, "drive") {
        true
    } else {
        false
    };
    let b = if n - alt_len >= 6 && match_at(low, n - alt_len - 6, "drive") {
        true
    } else {
        false
    };
    proof {
        if n - alt_len < 5 {
            assert(!matches_at(low@, low@.len() - alt@.len() - 5, "drive"@));
        }
        if n - alt_len < 6 {
            assert(!matches_at(low@, low@.len() - alt@.len() - 6, "drive"@));
        }
    }
    a || b
}

/// Detect names that look like a drive-through rather than an addressable
/// street.
pub fn is_drivethrough(text: &String, context: &Context) -> (r: bool)
    ensures
        r == is_drivethrough_spec(text@, context@.country),
{
    let orig = str_chars(text.as_str());
    let low = lower_chars(&orig);
    let en_country = crate::chars::str_eq(context.country.as_str(), "US")
        || crate::chars::str_eq(context.country.as_str(), "CA")
        || crate::chars::str_eq(context.country.as_str(), "GB")
        || crate::chars::str_eq(context.country.as_str(), "DE")
        || crate::chars::str_eq(context.country.as_str(), "CH")
        || crate::chars::str_eq(context.country.as_str(), "AT");
    if en_country {
        if dt_suffix_exec(&low, "in") || dt_suffix_exec(&low, "through") || dt_suffix_exec(
            &low,
            "thru",
        ) {
            return true;
        }
    }
    if crate::chars::str_eq(context.country.as_str(), "DE") && match_end(&low, " einfahrt") {
        return true;
    }
    false
}

// ---------------------------------------------------------------------------
// is_numbered / is_routish
// ---------------------------------------------------------------------------

/// A numbered-street token: optional digits, then `1st`, `2nd`, `3rd` or a
/// digit followed by `th`.
pub open spec fn numbered_token(t: Seq<char>) -> bool {
    let n = t.len();
    n >= 3 && all_digits(t.take(n - 3)) && (matches_at(t, n - 3, "1st"@) || matches_at(
        t,
        n - 3,
        "2nd"@,
    ) || matches_at(t, n - 3, "3rd"@) || (is_digit(t[n - 3]) && matches_at(t, n - 2, "th"@)))
}

/// A route-number token: one or more digits and nothing else.
pub open spec fn routish_token(t: Seq<char>) -> bool {
    t.len() > 0 && all_digits(t)
}

pub open spec fn first_numbered(toks: Seq<Seq<char>>) -> Option<Seq<char>>
    decreases toks.len(),
{
    if toks.len() == 0 {
        None
    } else if numbered_token(toks[0]) {
        Some(toks[0])
    } else {
        first_numbered(toks.drop_first())
    }
}

pub open spec fn first_routish(toks: Seq<Seq<char>>) -> Option<Seq<char>>
    decreases toks.len(),
{
    if toks.len() == 0 {
        None
    } else if routish_token(toks[0]) {
        Some(toks[0])
    } else {
        first_routish(toks.drop_first())
    }
}

proof fn lemma_run_end_stop(s: Seq<char>, i: int)
    requires
        0 <= i <= s.len(),
    ensures
        run_end(s, i) == s.len() || (run_end(s, i) < s.len() && !is_digit(s[run_end(s, i)])),
    decreases s.len() - i,
{
    if i < s.len() && is_digit(s[i]) {
        lemma_run_end_stop(s, i + 1);
    }
}

fn token_all_digits(t: &Vec<char>, upto: usize) -> (r: bool)
    requires
        upto <= t@.len(),
    ensures
        r == all_digits(t@.take(upto as int)),
{
    let e = exec_run_end(t, 0);
    proof {
        lemma_run_end_digits(t@, 0);
        lemma_run_end_stop(t@, 0);
    }
    if e >= upto {
        proof {
            assert forall|j: int| 0 <= j < upto implies is_digit(t@.take(upto as int)[j]) by {
                assert(is_digit(t@[j]));
            }
        }
        true
    } else {
        proof {
            assert(!is_digit(t@.take(upto as int)[e as int]));
        }
        false
    }
}

fn exec_numbered_token(t: &Vec<char>) -> (r: bool)
    ensures
        r == numbered_token(t@),
{
    let n = t.len();
    if n < 3 {
        return false;
    }
    if !token_all_digits(t, n - 3) {
        return false;
    }
    let suf3 = match_at(t, n - 3, "1st") || match_at(t, n - 3, "2nd") || match_at(t, n - 3, "3rd");
    let sufth = exec_is_digit(t[n - 3]) && match_at(t, n - 2, "th");
    suf3 || sufth
}

/// The first numbered-street token of a name (like `1st`), if any.
pub fn is_numbered(name: &Name) -> (r: Option<String>)
    ensures
        match r {
            Some(s) => first_numbered(tok_words(name@.tokenized)) == Some(s@),
            None => first_numbered(tok_words(name@.tokenized)) is None,
        },
{
    let ghost toks = tok_words(name@.tokenized);
    proof {
        assert(toks.skip(0) =~= toks);
    }
    let mut i: usize = 0;
    while i < name.tokenized.len()
        invariant
            i <= name.tokenized@.len(),
            toks == tok_words(name@.tokenized),
            toks.len() == name.tokenized@.len(),
            first_numbered(toks) == first_numbered(toks.skip(i as int)),
        decreases name.tokenized@.len() - i,
    {
        proof {
            assert(toks.skip(i as int)[0] == toks[i as int]);
            assert(toks[i as int] == name@.tokenized[i as int].token);
            assert(toks.skip(i as int).drop_first() =~= toks.skip(i + 1));
        }
        let t = str_chars(name.tokenized[i].token.as_str());
        if exec_numbered_token(&t) {
            return Some(name.tokenized[i].token.clone());
        }
        i = i + 1;
    }
    proof {
        assert(toks.skip(toks.len() as int) =~= Seq::<Seq<char>>::empty());
    }
    None
}

/// The first route-number token of a name (a bare digit run), if any.
pub fn is_routish(name: &Name) -> (r: Option<String>)
    ensures
        match r {
            Some(s) => first_routish(tok_words(name@.tokenized)) == Some(s@),
            None => first_routish(tok_words(name@.tokenized)) is None,
        },
{
    let ghost toks = tok_words(name@.tokenized);
    proof {
        assert(toks.skip(0) =~= toks);
    }
    let mut i: usize = 0;
    while i < name.tokenized.len()
        invariant
            i <= name.tokenized@.len(),
            toks == tok_words(name@.tokenized),
            toks.len() == name.tokenized@.len(),
            first_routish(toks) == first_routish(toks.skip(i as int)),
        decreases name.tokenized@.len() - i,
    {
        proof {
            assert(toks.skip(i as int)[0] == toks[i as int]);
            assert(toks[i as int] == name@.tokenized[i as int].token);
            assert(toks.skip(i as int).drop_first() =~= toks.skip(i + 1));
        }
        let t = str_chars(name.tokenized[i].token.as_str());
        let n = t.len();
        if n > 0 && token_all_digits(&t, n) {
            proof {
                assert(t@.take(n as int) =~= t@);
            }
            return Some(name.tokenized[i].token.clone());
        }
        proof {
            if n > 0 {
                assert(t@.take(n as int) =~= t@);
            }
        }
        i = i + 1;
    }
    proof {
        assert(toks.skip(toks.len() as int) =~= Seq::<Seq<char>>::empty());
    }
    None
}

// ---------------------------------------------------------------------------
// syn_ca_french
// ---------------------------------------------------------------------------

/// A standalone French road-type token.
pub open spec fn fr_standalone(t: Seq<char>) -> bool {
    t == "r"@ || t == "ch"@ || t == "av"@ || t == "bd"@
}

/// An elidable French article.
pub open spec fn fr_article(t: Seq<char>) -> bool {
    t == "du"@ || t == "des"@ || t == "de"@
}

/// What the Quebec standalone rule yields: when the first token is a
/// standalone road type and the second is not an elidable article, the name
/// with the road type dropped, at priority -1.
pub open spec fn syn_ca_french_spec(
    n: NameView,
    table: Map<Seq<char>, ParsedTokenView>,
) -> Seq<NameView> {
    if n.tokenized.len() >= 2 && fr_standalone(n.tokenized[0].token) && !fr_article(
        n.tokenized[1].token,
    ) {
        seq![
            name_new_spec(
                trim_spaces(join_words(tok_words(n.tokenized.drop_first()))),
                -1i8,
                table,
            ),
        ]
    } else {
        Seq::empty()
    }
}

/// In Quebec a simple street name is often searched for without its road
/// type word; emit the name with the leading type token dropped.
pub fn syn_ca_french(name: &Name, context: &Context) -> (r: Vec<Name>)
    ensures
        name_views(r@) == syn_ca_french_spec(name@, context@.table),
{
    if name.tokenized.len() < 2 {
        return Vec::new();
    }
    let first = &name.tokenized[0].token;
    let second = &name.tokenized[1].token;
    let standalone = str_eq(first.as_str(), "r") || str_eq(first.as_str(), "ch") || str_eq(
        first.as_str(),
        "av",
    ) || str_eq(first.as_str(), "bd");
    let article = str_eq(second.as_str(), "du") || str_eq(second.as_str(), "des") || str_eq(
        second.as_str(),
        "de",
    );
    if !standalone || article {
        return Vec::new();
    }
    let mut words: Vec<String> = Vec::new();
    let mut i: usize = 1;
    while i < name.tokenized.len()
        invariant
            1 <= i <= name.tokenized@.len(),
            words@.len() == i - 1,
            forall|j: int| 0 <= j < i - 1 ==> words@[j]@ == name@.tokenized[j + 1].token,
        decreases name.tokenized@.len() - i,
    {
        words.push(name.tokenized[i].token.clone());
        i = i + 1;
    }
    proof {
        assert(crate::tokens::str_views(words@) =~= tok_words(name@.tokenized.drop_first()));
    }
    let display = join_trim(&words);
    let out_name = Name::new(display, -1, context);
    let mut r: Vec<Name> = Vec::new();
    r.push(out_name);
    proof {
        assert(name_views(r@) =~= syn_ca_french_spec(name@, context@.table));
    }
    r
}

// ---------------------------------------------------------------------------
// syn_us_cr
// ---------------------------------------------------------------------------

/// Where the county-road number starts: after a `CR ` or `County Road `
/// opening, with digits and nothing else to the end.
pub open spec fn us_cr_start(low: Seq<char>) -> Option<int> {
    let p: int = if text_starts_with(low, "cr "@) {
        3
    } else if text_starts_with(low, "county road "@) {
        12
    } else {
        -1
    };
    if p >= 0 && p < low.len() && all_digits(low.skip(p)) {
        Some(p)
    } else {
        None
    }
}

/// What the county-road rule yields: `CR n` at priority -1 and
/// `County Road n` at priority 1, or 0 when the source name already had
/// positive (display) priority.
pub open spec fn syn_us_cr_spec(
    n: NameView,
    table: Map<Seq<char>, ParsedTokenView>,
) -> Seq<NameView> {
    match us_cr_start(lower_text(n.display)) {
        None => Seq::empty(),
        Some(p) => {
            let num = n.display.skip(p);
            seq![
                name_new_spec("CR "@ + num, -1i8, table),
                name_new_spec(
                    "County Road "@ + num,
                    if n.priority > 0 {
                        0i8
                    } else {
                        1i8
                    },
                    table,
                ),
            ]
        },
    }
}

/// Generate the county-road synonyms of names like `CR 123` and
/// `County Road 123`.
pub fn syn_us_cr(name: &Name, context: &Context) -> (r: Vec<Name>)
    ensures
        name_views(r@) == syn_us_cr_spec(name@, context@.table),
{
    let orig = str_chars(name.display.as_str());
    let low = lower_chars(&orig);
    let p: usize = if match_at(&low, 0, "cr ") {
        3
    } else if match_at(&low, 0, "county road ") {
        12
    } else {
        return Vec::new();
    };
    if p >= low.len() || !token_all_digits_from(&low, p) {
        return Vec::new();
    }
    let mut numv: Vec<char> = Vec::new();
    push_range(&mut numv, &orig, p, orig.len());
    proof {
        assert(orig@.subrange(p as int, orig@.len() as int) =~= name@.display.skip(p as int));
    }
    let num = string_from_chars(&numv);
    let mut d1 = String::new();
    d1.append("CR ");
    d1.append(num.as_str());
    let mut d2 = String::new();
    d2.append("County Road ");
    d2.append(num.as_str());
    let prio2: i8 = if name.priority > 0 {
        0
    } else {
        1
    };
    let mut r: Vec<Name> = Vec::new();
    r.push(Name::new(d1, -1, context));
    r.push(Name::new(d2, prio2, context));
    proof {
        assert(name_views(r@) =~= syn_us_cr_spec(name@, context@.table));
    }
    r
}

/// Whether everything from `p` to the end is a digit.
fn token_all_digits_from(v: &Vec<char>, p: usize) -> (r: bool)
    requires
        p <= v@.len(),
    ensures
        r == all_digits(v@.skip(p as int)),
{
    let e = exec_run_end(v, p);
    proof {
        lemma_run_end_digits(v@, p as int);
        lemma_run_end_stop(v@, p as int);
    }
    if e == v.len() {
        proof {
            assert forall|j: int| 0 <= j < v@.skip(p as int).len() implies is_digit(
                v@.skip(p as int)[j],
            ) by {
                assert(is_digit(v@[p + j]));
            }
        }
        true
    } else {
        proof {
            assert(!is_digit(v@[e as int]));
            assert(v@.skip(p as int)[e - p] == v@[e as int]);
        }
        false
    }
}

// ---------------------------------------------------------------------------
// syn_us_hwy
// ---------------------------------------------------------------------------

/// Length of the United States prefix that opens the text, if one does.
pub open spec fn us_prefix_len(low: Seq<char>) -> Option<int> {
    if text_starts_with(low, "united states"@) {
        Some(13int)
    } else if text_starts_with(low, "u.s."@) {
        Some(4int)
    } else if text_starts_with(low, "u.s"@) {
        Some(3int)
    } else if text_starts_with(low, "us."@) {
        Some(3int)
    } else if text_starts_with(low, "us"@) {
        Some(2int)
    } else {
        None
    }
}

/// The route word (with trailing space) starting at `i`, if one does.
pub open spec fn route_word_at(low: Seq<char>, i: int) -> Option<int> {
    if matches_at(low, i, "route "@) {
        Some(6int)
    } else if matches_at(low, i, "rte "@) {
        Some(4int)
    } else if matches_at(low, i, "highway "@) {
        Some(8int)
    } else if matches_at(low, i, "hwy "@) {
        Some(4int)
    } else {
        None
    }
}

/// Where the highway number of a US-highway display starts: a United States
/// prefix, one space or hyphen, an optional route word, then digits to the
/// end.
pub open spec fn us_hwy_start(low: Seq<char>) -> Option<int> {
    match us_prefix_len(low) {
        None => None,
        Some(p) => if p < low.len() && (is_white(low[p]) || low[p] == '-') {
            let q: int = match route_word_at(low, p + 1) {
                Some(w) => p + 1 + w,
                None => p + 1,
            };
            if q < low.len() && all_digits(low.skip(q)) {
                Some(q)
            } else {
                None
            }
        } else {
            None
        },
    }
}

/// What the US-highway rule yields for a display like `US 81`: the five
/// canonical forms, `US Route n` carrying the display priority (1, or 0
/// when the source name already had positive priority) and the rest -1.
pub open spec fn syn_us_hwy_spec(
    n: NameView,
    table: Map<Seq<char>, ParsedTokenView>,
) -> Seq<NameView> {
    match us_hwy_start(lower_text(n.display)) {
        None => Seq::empty(),
        Some(q) => {
            let num = n.display.skip(q);
            seq![
                name_new_spec("US "@ + num, -1i8, table),
                name_new_spec(
                    "US Route "@ + num,
                    if n.priority > 0 {
                        0i8
                    } else {
                        1i8
                    },
                    table,
                ),
                name_new_spec("US Highway "@ + num, -1i8, table),
                name_new_spec("United States Route "@ + num, -1i8, table),
                name_new_spec("United States Highway "@ + num, -1i8, table),
            ]
        },
    }
}

fn route_word_at_exec(low: &Vec<char>, i: usize) -> (r: Option<usize>)
    ensures
        match r {
            Some(w) => route_word_at(low@, i as int) == Some(w as int),
            None => route_word_at(low@, i as int) is None,
        },
{
    if match_at(low, i, "route ") {
        Some(6)
    } else if match_at(low, i, "rte ") {
        Some(4)
    } else if match_at(low, i, "highway ") {
        Some(8)
    } else if match_at(low, i, "hwy ") {
        Some(4)
    } else {
        None
    }
}

/// Generate the US-highway synonyms of names like `US 81`, `US-81` and
/// `U.S. Route 81`.
pub fn syn_us_hwy(name: &Name, context: &Context) -> (r: Vec<Name>)
    ensures
        name_views(r@) == syn_us_hwy_spec(name@, context@.table),
{
    let orig = str_chars(name.display.as_str());
    let low = lower_chars(&orig);
    let p: usize = if match_at(&low, 0, "united states") {
        13
    } else if match_at(&low, 0, "u.s.") {
        4
    } else if match_at(&low, 0, "u.s") {
        3
    } else if match_at(&low, 0, "us.") {
        3
    } else if match_at(&low, 0, "us") {
        2
    } else {
        return Vec::new();
    };
    if !(p < low.len() && (exec_is_white(low[p]) || low[p] == '-')) {
        return Vec::new();
    }
    let q: usize = match route_word_at_exec(&low, p + 1) {
        Some(w) => p + 1 + w,
        None => p + 1,
    };
    if !(q < low.len() && token_all_digits_from(&low, q)) {
        return Vec::new();
    }
    let mut numv: Vec<char> = Vec::new();
    push_range(&mut numv, &orig, q, orig.len());
    proof {
        assert(orig@.subrange(q as int, orig@.len() as int) =~= name@.display.skip(q as int));
    }
    let num = string_from_chars(&numv);
    let prio2: i8 = if name.priority > 0 {
        0
    } else {
        1
    };
    let mut r: Vec<Name> = Vec::new();
    let mut d1 = String::new();
    d1.append("US ");
    d1.append(num.as_str());
    r.push(Name::new(d1, -1, context));
    let mut d2 = String::new();
    d2.append("US Route ");
    d2.append(num.as_str());
    r.push(Name::new(d2, prio2, context));
    let mut d3 = String::new();
    d3.append("US Highway ");
    d3.append(num.as_str());
    r.push(Name::new(d3, -1, context));
    let mut d4 = String::new();
    d4.append("United States Route ");
    d4.append(num.as_str());
    r.push(Name::new(d4, -1, context));
    let mut d5 = String::new();
    d5.append("United States Highway ");
    d5.append(num.as_str());
    r.push(Name::new(d5, -1, context));
    proof {
        assert(name_views(r@) =~= syn_us_hwy_spec(name@, context@.table));
    }
    r
}


// ---------------------------------------------------------------------------
// syn_state_hwy
// ---------------------------------------------------------------------------

/// The full United States state, district or territory name opening `p`,
/// with its length.
pub open spec fn us_state_at(p: Seq<char>) -> Option<int> {
    if matches_at(p, 0, "alabama"@) {
        Some(7int)
    } else if matches_at(p, 0, "alaska"@) {
        Some(6int)
    } else if matches_at(p, 0, "arizona"@) {
        Some(7int)
    } else if matches_at(p, 0, "arkansas"@) {
        Some(8int)
    } else if matches_at(p, 0, "california"@) {
        Some(10int)
    } else if matches_at(p, 0, "colorado"@) {
        Some(8int)
    } else if matches_at(p, 0, "connecticut"@) {
        Some(11int)
    } else if matches_at(p, 0, "delaware"@) {
        Some(8int)
    } else if matches_at(p, 0, "florida"@) {
        Some(7int)
    } else if matches_at(p, 0, "georgia"@) {
        Some(7int)
    } else if matches_at(p, 0, "hawaii"@) {
        Some(6int)
    } else if matches_at(p, 0, "idaho"@) {
        Some(5int)
    } else if matches_at(p, 0, "illinois"@) {
        Some(8int)
    } else if matches_at(p, 0, "indiana"@) {
        Some(7int)
    } else if matches_at(p, 0, "iowa"@) {
        Some(4int)
    } else if matches_at(p, 0, "kansas"@) {
        Some(6int)
    } else if matches_at(p, 0, "kentucky"@) {
        Some(8int)
    } else if matches_at(p, 0, "louisiana"@) {
        Some(9int)
    } else if matches_at(p, 0, "maine"@) {
        Some(5int)
    } else if matches_at(p, 0, "maryland"@) {
        Some(8int)
    } else if matches_at(p, 0, "massachusetts"@) {
        Some(13int)
    } else if matches_at(p, 0, "michigan"@) {
        Some(8int)
    } else if matches_at(p, 0, "minnesota"@) {
        Some(9int)
    } else if matches_at(p, 0, "mississippi"@) {
        Some(11int)
    } else if matches_at(p, 0, "missouri"@) {
        Some(8int)
    } else if matches_at(p, 0, "montana"@) {
        Some(7int)
    } else if matches_at(p, 0, "nebraska"@) {
        Some(8int)
    } else if matches_at(p, 0, "nevada"@) {
        Some(6int)
    } else if matches_at(p, 0, "new hampshire"@) {
        Some(13int)
    } else if matches_at(p, 0, "new jersey"@) {
        Some(10int)
    } else if matches_at(p, 0, "new mexico"@) {
        Some(10int)
    } else if matches_at(p, 0, "new york"@) {
        Some(8int)
    } else if matches_at(p, 0, "north carolina"@) {
        Some(14int)
    } else if matches_at(p, 0, "north dakota"@) {
        Some(12int)
    } else if matches_at(p, 0, "ohio"@) {
        Some(4int)
    } else if matches_at(p, 0, "oklahoma"@) {
        Some(8int)
    } else if matches_at(p, 0, "oregon"@) {
        Some(6int)
    } else if matches_at(p, 0, "pennsylvania"@) {
        Some(12int)
    } else if matches_at(p, 0, "rhode island"@) {
        Some(12int)
    } else if matches_at(p, 0, "south carolina"@) {
        Some(14int)
    } else if matches_at(p, 0, "south dakota"@) {
        Some(12int)
    } else if matches_at(p, 0, "tennessee"@) {
        Some(9int)
    } else if matches_at(p, 0, "texas"@) {
        Some(5int)
    } else if matches_at(p, 0, "utah"@) {
        Some(4int)
    } else if matches_at(p, 0, "vermont"@) {
        Some(7int)
    } else if matches_at(p, 0, "virginia"@) {
        Some(8int)
    } else if matches_at(p, 0, "washington"@) {
        Some(10int)
    } else if matches_at(p, 0, "west virginia"@) {
        Some(13int)
    } else if matches_at(p, 0, "wisconsin"@) {
        Some(9int)
    } else if matches_at(p, 0, "wyoming"@) {
        Some(7int)
    } else if matches_at(p, 0, "district of columbia"@) {
        Some(20int)
    } else if matches_at(p, 0, "american samoa"@) {
        Some(14int)
    } else if matches_at(p, 0, "guam"@) {
        Some(4int)
    } else if matches_at(p, 0, "northern mariana islands"@) {
        Some(24int)
    } else if matches_at(p, 0, "puerto rico"@) {
        Some(11int)
    } else if matches_at(p, 0, "united states minor outlying islands"@) {
        Some(36int)
    } else if matches_at(p, 0, "virgin islands"@) {
        Some(14int)
    } else {
        None
    }
}

fn us_state_at_exec(p: &Vec<char>) -> (r: Option<usize>)
    ensures
        match r {
            Some(l) => us_state_at(p@) == Some(l as int),
            None => us_state_at(p@) is None,
        },
{
    if match_at(p, 0, "alabama") {
        Some(7)
    } else if match_at(p, 0, "alaska") {
        Some(6)
    } else if match_at(p, 0, "arizona") {
        Some(7)
    } else if match_at(p, 0, "arkansas") {
        Some(8)
    } else if match_at(p, 0, "california") {
        Some(10)
    } else if match_at(p, 0, "colorado") {
        Some(8)
    } else if match_at(p, 0, "connecticut") {
        Some(11)
    } else if match_at(p, 0, "delaware") {
        Some(8)
    } else if match_at(p, 0, "florida") {
        Some(7)
    } else if match_at(p, 0, "georgia") {
        Some(7)
    } else if match_at(p, 0, "hawaii") {
        Some(6)
    } else if match_at(p, 0, "idaho") {
        Some(5)
    } else if match_at(p, 0, "illinois") {
        Some(8)
    } else if match_at(p, 0, "indiana") {
        Some(7)
    } else if match_at(p, 0, "iowa") {
        Some(4)
    } else if match_at(p, 0, "kansas") {
        Some(6)
    } else if match_at(p, 0, "kentucky") {
        Some(8)
    } else if match_at(p, 0, "louisiana") {
        Some(9)
    } else if match_at(p, 0, "maine") {
        Some(5)
    } else if match_at(p, 0, "maryland") {
        Some(8)
    } else if match_at(p, 0, "massachusetts") {
        Some(13)
    } else if match_at(p, 0, "michigan") {
        Some(8)
    } else if match_at(p, 0, "minnesota") {
        Some(9)
    } else if match_at(p, 0, "mississippi") {
        Some(11)
    } else if match_at(p, 0, "missouri") {
        Some(8)
    } else if match_at(p, 0, "montana") {
        Some(7)
    } else if match_at(p, 0, "nebraska") {
        Some(8)
    } else if match_at(p, 0, "nevada") {
        Some(6)
    } else if match_at(p, 0, "new hampshire") {
        Some(13)
    } else if match_at(p, 0, "new jersey") {
        Some(10)
    } else if match_at(p, 0, "new mexico") {
        Some(10)
    } else if match_at(p, 0, "new york") {
        Some(8)
    } else if match_at(p, 0, "north carolina") {
        Some(14)
    } else if match_at(p, 0, "north dakota") {
        Some(12)
    } else if match_at(p, 0, "ohio") {
        Some(4)
    } else if match_at(p, 0, "oklahoma") {
        Some(8)
    } else if match_at(p, 0, "oregon") {
        Some(6)
    } else if match_at(p, 0, "pennsylvania") {
        Some(12)
    } else if match_at(p, 0, "rhode island") {
        Some(12)
    } else if match_at(p, 0, "south carolina") {
        Some(14)
    } else if match_at(p, 0, "south dakota") {
        Some(12)
    } else if match_at(p, 0, "tennessee") {
        Some(9)
    } else if match_at(p, 0, "texas") {
        Some(5)
    } else if match_at(p, 0, "utah") {
        Some(4)
    } else if match_at(p, 0, "vermont") {
        Some(7)
    } else if match_at(p, 0, "virginia") {
        Some(8)
    } else if match_at(p, 0, "washington") {
        Some(10)
    } else if match_at(p, 0, "west virginia") {
        Some(13)
    } else if match_at(p, 0, "wisconsin") {
        Some(9)
    } else if match_at(p, 0, "wyoming") {
        Some(7)
    } else if match_at(p, 0, "district of columbia") {
        Some(20)
    } else if match_at(p, 0, "american samoa") {
        Some(14)
    } else if match_at(p, 0, "guam") {
        Some(4)
    } else if match_at(p, 0, "northern mariana islands") {
        Some(24)
    } else if match_at(p, 0, "puerto rico") {
        Some(11)
    } else if match_at(p, 0, "united states minor outlying islands") {
        Some(36)
    } else if match_at(p, 0, "virgin islands") {
        Some(14)
    } else {
        None
    }
}

/// A two-letter United States state or territory code (or `SR`) at `i`.
pub open spec fn us_abbr_at(p: Seq<char>, i: int) -> bool {
    matches_at(p, i, "al"@) || matches_at(p, i, "ak"@) || matches_at(p, i, "az"@) || matches_at(p, i, "ar"@) || matches_at(p, i, "ca"@) || matches_at(p, i, "co"@) || matches_at(p, i, "ct"@) || matches_at(p, i, "de"@) || matches_at(p, i, "fl"@) || matches_at(p, i, "ga"@) || matches_at(p, i, "hi"@) || matches_at(p, i, "id"@) || matches_at(p, i, "il"@) || matches_at(p, i, "in"@) || matches_at(p, i, "ia"@) || matches_at(p, i, "ks"@) || matches_at(p, i, "ky"@) || matches_at(p, i, "la"@) || matches_at(p, i, "me"@) || matches_at(p, i, "md"@) || matches_at(p, i, "ma"@) || matches_at(p, i, "mi"@) || matches_at(p, i, "mn"@) || matches_at(p, i, "ms"@) || matches_at(p, i, "mo"@) || matches_at(p, i, "mt"@) || matches_at(p, i, "ne"@) || matches_at(p, i, "nv"@) || matches_at(p, i, "nh"@) || matches_at(p, i, "nj"@) || matches_at(p, i, "nm"@) || matches_at(p, i, "ny"@) || matches_at(p, i, "nc"@) || matches_at(p, i, "nd"@) || matches_at(p, i, "oh"@) || matches_at(p, i, "ok"@) || matches_at(p, i, "or"@) || matches_at(p, i, "pa"@) || matches_at(p, i, "ri"@) || matches_at(p, i, "sc"@) || matches_at(p, i, "sd"@) || matches_at(p, i, "tn"@) || matches_at(p, i, "tx"@) || matches_at(p, i, "ut"@) || matches_at(p, i, "vt"@) || matches_at(p, i, "va"@) || matches_at(p, i, "wa"@) || matches_at(p, i, "wv"@) || matches_at(p, i, "wi"@) || matches_at(p, i, "wy"@) || matches_at(p, i, "dc"@) || matches_at(p, i, "as"@) || matches_at(p, i, "gu"@) || matches_at(p, i, "mp"@) || matches_at(p, i, "pr"@) || matches_at(p, i, "um"@) || matches_at(p, i, "vi"@) || matches_at(p, i, "sr"@)
}

fn us_abbr_at_exec(p: &Vec<char>, i: usize) -> (r: bool)
    ensures
        r == us_abbr_at(p@, i as int),
{
    match_at(p, i, "al") || match_at(p, i, "ak") || match_at(p, i, "az") || match_at(p, i, "ar") || match_at(p, i, "ca") || match_at(p, i, "co") || match_at(p, i, "ct") || match_at(p, i, "de") || match_at(p, i, "fl") || match_at(p, i, "ga") || match_at(p, i, "hi") || match_at(p, i, "id") || match_at(p, i, "il") || match_at(p, i, "in") || match_at(p, i, "ia") || match_at(p, i, "ks") || match_at(p, i, "ky") || match_at(p, i, "la") || match_at(p, i, "me") || match_at(p, i, "md") || match_at(p, i, "ma") || match_at(p, i, "mi") || match_at(p, i, "mn") || match_at(p, i, "ms") || match_at(p, i, "mo") || match_at(p, i, "mt") || match_at(p, i, "ne") || match_at(p, i, "nv") || match_at(p, i, "nh") || match_at(p, i, "nj") || match_at(p, i, "nm") || match_at(p, i, "ny") || match_at(p, i, "nc") || match_at(p, i, "nd") || match_at(p, i, "oh") || match_at(p, i, "ok") || match_at(p, i, "or") || match_at(p, i, "pa") || match_at(p, i, "ri") || match_at(p, i, "sc") || match_at(p, i, "sd") || match_at(p, i, "tn") || match_at(p, i, "tx") || match_at(p, i, "ut") || match_at(p, i, "vt") || match_at(p, i, "va") || match_at(p, i, "wa") || match_at(p, i, "wv") || match_at(p, i, "wi") || match_at(p, i, "wy") || match_at(p, i, "dc") || match_at(p, i, "as") || match_at(p, i, "gu") || match_at(p, i, "mp") || match_at(p, i, "pr") || match_at(p, i, "um") || match_at(p, i, "vi") || match_at(p, i, "sr")
}

/// The highway word starting at `i`, with its length.
pub open spec fn hword_at(p: Seq<char>, i: int) -> Option<int> {
    if matches_at(p, i, "highway"@) {
        Some(7int)
    } else if matches_at(p, i, "hwy"@) {
        Some(3int)
    } else if matches_at(p, i, "route"@) {
        Some(5int)
    } else if matches_at(p, i, "rte"@) {
        Some(3int)
    } else {
        None
    }
}

fn hword_at_exec(p: &Vec<char>, i: usize) -> (r: Option<usize>)
    ensures
        match r {
            Some(l) => hword_at(p@, i as int) == Some(l as int),
            None => hword_at(p@, i as int) is None,
        },
{
    if match_at(p, i, "highway") {
        Some(7)
    } else if match_at(p, i, "hwy") {
        Some(3)
    } else if match_at(p, i, "route") {
        Some(5)
    } else if match_at(p, i, "rte") {
        Some(3)
    } else {
        None
    }
}

/// The `State <highway-word> ` prefix form.
pub open spec fn state_prefix_a(p: Seq<char>) -> bool {
    (p.len() == 14 && matches_at(p, 0, "state highway "@)) || (p.len() == 10 && matches_at(
        p,
        0,
        "state hwy "@,
    )) || (p.len() == 12 && matches_at(p, 0, "state route "@)) || (p.len() == 10 && matches_at(
        p,
        0,
        "state rte "@,
    ))
}

/// The `<StateName> ` or `<StateName> <highway-word> ` prefix form.
pub open spec fn state_prefix_b(p: Seq<char>) -> bool {
    match us_state_at(p) {
        Some(nl) => nl < p.len() && p[nl] == ' ' && (p.len() == nl + 1 || (match hword_at(
            p,
            nl + 1,
        ) {
            Some(w) => p.len() == nl + 1 + w + 1 && p[nl + 1 + w] == ' ',
            None => false,
        })),
        None => false,
    }
}

/// The bare `<highway-word> ` prefix form.
pub open spec fn state_prefix_c(p: Seq<char>) -> bool {
    match hword_at(p, 0) {
        Some(w) => p.len() == w + 1 && p[w] == ' ',
        None => false,
    }
}

/// The `[US-]<ABBR>[ -]` prefix form, with an optional highway word.
pub open spec fn state_prefix_d(p: Seq<char>) -> bool {
    let off: int = if matches_at(p, 0, "us-"@) || matches_at(p, 0, "us "@) {
        3
    } else {
        0
    };
    p.len() >= off + 3 && us_abbr_at(p, off) && (p[off + 2] == ' ' || p[off + 2] == '-') && (
    p.len() == off + 3 || (match hword_at(p, off + 3) {
        Some(w) => p.len() == off + 3 + w + 1 && p[off + 3 + w] == ' ',
        None => false,
    }))
}

pub open spec fn state_prefix_ok(p: Seq<char>) -> bool {
    state_prefix_a(p) || state_prefix_b(p) || state_prefix_c(p) || state_prefix_d(p)
}

fn state_prefix_ok_exec(p: &Vec<char>) -> (r: bool)
    ensures
        r == state_prefix_ok(p@),
{
    let n = p.len();
    let a = (n == 14 && match_at(p, 0, "state highway ")) || (n == 10 && match_at(
        p,
        0,
        "state hwy ",
    )) || (n == 12 && match_at(p, 0, "state route ")) || (n == 10 && match_at(p, 0, "state rte "));
    let b = match us_state_at_exec(p) {
        Some(nl) => nl < n && p[nl] == ' ' && (n == nl + 1 || (match hword_at_exec(p, nl + 1) {
            Some(w) => n == nl + 1 + w + 1 && p[nl + 1 + w] == ' ',
            None => false,
        })),
        None => false,
    };
    let c = match hword_at_exec(p, 0) {
        Some(w) => n == w + 1 && p[w] == ' ',
        None => false,
    };
    let off: usize = if match_at(p, 0, "us-") || match_at(p, 0, "us ") {
        3
    } else {
        0
    };
    let d = n >= off + 3 && us_abbr_at_exec(p, off) && (p[off + 2] == ' ' || p[off + 2] == '-') && (
    n == off + 3 || (match hword_at_exec(p, off + 3) {
        Some(w) => n == off + 3 + w + 1 && p[off + 3 + w] == ' ',
        None => false,
    }));
    a || b || c || d
}

/// Length of the trailing ` <highway-word>` of the text, or zero.
pub open spec fn trailer_len(low: Seq<char>) -> int {
    if text_ends_with(low, " highway"@) {
        8
    } else if text_ends_with(low, " hwy"@) {
        4
    } else if text_ends_with(low, " route"@) {
        6
    } else if text_ends_with(low, " rte"@) {
        4
    } else {
        0
    }
}

fn trailer_len_exec(low: &Vec<char>) -> (r: usize)
    ensures
        r == trailer_len(low@),
        r <= low@.len(),
{
    if match_end(low, " highway") {
        proof {
            reveal_strlit(" highway");
        }
        8
    } else if match_end(low, " hwy") {
        proof {
            reveal_strlit(" hwy");
        }
        4
    } else if match_end(low, " route") {
        proof {
            reveal_strlit(" route");
        }
        6
    } else if match_end(low, " rte") {
        proof {
            reveal_strlit(" rte");
        }
        4
    } else {
        0
    }
}

/// The digit span of a state-highway display: the display is a recognized
/// state-highway prefix, a digit run, and an optional trailing highway
/// word; the span bounds the digit run.
pub open spec fn state_hwy_span(low: Seq<char>) -> Option<(int, int)> {
    let m = low.len() - trailer_len(low);
    if m <= 0 || !is_digit(low[m - 1]) {
        None
    } else {
        let k = run_start(low, m);
        if state_prefix_ok(low.take(k)) {
            Some((k, m))
        } else {
            None
        }
    }
}

/// What the state-highway rule yields for a display like `State Highway
/// 123` (with region `PA`): the seven canonical forms, the full
/// `Pennsylvania Highway 123` carrying the display priority (1, or 0 when
/// the source name already had positive priority) and the rest negative.
pub open spec fn syn_state_hwy_spec(n: NameView, ctx: crate::context::ContextView) -> Seq<
    NameView,
> {
    match ctx.region {
        None => Seq::empty(),
        Some(reg) => match crate::context::region_full_name(reg) {
            None => Seq::empty(),
            Some(rname) => match state_hwy_span(lower_text(n.display)) {
                None => Seq::empty(),
                Some((k, m)) => {
                    let num = n.display.subrange(k, m);
                    let up = crate::chars::upper_ascii(reg);
                    seq![
                        name_new_spec(up + " "@ + num + " Highway"@, -2i8, ctx.table),
                        name_new_spec(up + " "@ + num, -1i8, ctx.table),
                        name_new_spec("Highway "@ + num, -2i8, ctx.table),
                        name_new_spec("SR "@ + num, -1i8, ctx.table),
                        name_new_spec("State Highway "@ + num, -1i8, ctx.table),
                        name_new_spec("State Route "@ + num, -1i8, ctx.table),
                        name_new_spec(
                            rname + " Highway "@ + num,
                            if n.priority > 0 {
                                0i8
                            } else {
                                1i8
                            },
                            ctx.table,
                        ),
                    ]
                },
            },
        },
    }
}

/// Generate the state-highway synonyms of names like `State Highway 123`,
/// `PA-123` and `Pennsylvania Route 123`; the rule needs a region whose
/// full name is known, else it yields nothing.
pub fn syn_state_hwy(name: &Name, context: &Context) -> (r: Vec<Name>)
    ensures
        name_views(r@) == syn_state_hwy_spec(name@, context@),
{
    let region = match &context.region {
        Some(g) => g,
        None => {
            return Vec::new();
        },
    };
    let rname = match context.region_name() {
        Some(n) => n,
        None => {
            return Vec::new();
        },
    };
    let orig = str_chars(name.display.as_str());
    let low = lower_chars(&orig);
    let t = trailer_len_exec(&low);
    let m = low.len() - t;
    if m == 0 || !exec_is_digit(low[m - 1]) {
        return Vec::new();
    }
    let k = exec_run_start(&low, m);
    let mut pv: Vec<char> = Vec::new();
    push_range(&mut pv, &low, 0, k);
    proof {
        assert(pv@ =~= lower_text(name@.display).take(k as int));
    }
    if !state_prefix_ok_exec(&pv) {
        return Vec::new();
    }
    let mut numv: Vec<char> = Vec::new();
    push_range(&mut numv, &orig, k, m);
    let num = string_from_chars(&numv);
    let up = crate::chars::exec_upper_ascii(region.as_str());
    let prio7: i8 = if name.priority > 0 {
        0
    } else {
        1
    };
    let mut r: Vec<Name> = Vec::new();
    let mut d1 = up.clone();
    d1.append(" ");
    d1.append(num.as_str());
    d1.append(" Highway");
    r.push(Name::new(d1, -2, context));
    let mut d2 = up.clone();
    d2.append(" ");
    d2.append(num.as_str());
    r.push(Name::new(d2, -1, context));
    let mut d3 = String::new();
    d3.append("Highway ");
    d3.append(num.as_str());
    r.push(Name::new(d3, -2, context));
    let mut d4 = String::new();
    d4.append("SR ");
    d4.append(num.as_str());
    r.push(Name::new(d4, -1, context));
    let mut d5 = String::new();
    d5.append("State Highway ");
    d5.append(num.as_str());
    r.push(Name::new(d5, -1, context));
    let mut d6 = String::new();
    d6.append("State Route ");
    d6.append(num.as_str());
    r.push(Name::new(d6, -1, context));
    let mut d7 = rname.clone();
    d7.append(" Highway ");
    d7.append(num.as_str());
    r.push(Name::new(d7, prio7, context));
    proof {
        assert(name_views(r@) =~= syn_state_hwy_spec(name@, context@));
    }
    r
}

// ---------------------------------------------------------------------------
// syn_ca_hwy
// ---------------------------------------------------------------------------

/// A Canadian province or territory code ending just before `j`.
pub open spec fn prov_code_before(low: Seq<char>, j: int) -> bool {
    (j >= 2 && matches_at(low, j - 2, "on"@)) || (j >= 2 && matches_at(low, j - 2, "qc"@)) || (j >= 2 && matches_at(low, j - 2, "ns"@)) || (j >= 2 && matches_at(low, j - 2, "nb"@)) || (j >= 2 && matches_at(low, j - 2, "mb"@)) || (j >= 2 && matches_at(low, j - 2, "bc"@)) || (j >= 2 && matches_at(low, j - 2, "pe"@)) || (j >= 3 && matches_at(low, j - 3, "pei"@)) || (j >= 2 && matches_at(low, j - 2, "sk"@)) || (j >= 2 && matches_at(low, j - 2, "ab"@)) || (j >= 2 && matches_at(low, j - 2, "nl"@)) || (j >= 2 && matches_at(low, j - 2, "nt"@)) || (j >= 2 && matches_at(low, j - 2, "yt"@)) || (j >= 2 && matches_at(low, j - 2, "nu"@))
}

fn prov_code_before_exec(low: &Vec<char>, j: usize) -> (r: bool)
    ensures
        r == prov_code_before(low@, j as int),
{
    (j >= 2 && match_at(low, j - 2, "on")) || (j >= 2 && match_at(low, j - 2, "qc")) || (j >= 2 && match_at(low, j - 2, "ns")) || (j >= 2 && match_at(low, j - 2, "nb")) || (j >= 2 && match_at(low, j - 2, "mb")) || (j >= 2 && match_at(low, j - 2, "bc")) || (j >= 2 && match_at(low, j - 2, "pe")) || (j >= 3 && match_at(low, j - 3, "pei")) || (j >= 2 && match_at(low, j - 2, "sk")) || (j >= 2 && match_at(low, j - 2, "ab")) || (j >= 2 && match_at(low, j - 2, "nl")) || (j >= 2 && match_at(low, j - 2, "nt")) || (j >= 2 && match_at(low, j - 2, "yt")) || (j >= 2 && match_at(low, j - 2, "nu"))
}

/// A highway word ending just before `j`.
pub open spec fn hword_before(low: Seq<char>, j: int) -> bool {
    matches_at(low, j - 7, "highway"@) || matches_at(low, j - 3, "hwy"@) || matches_at(
        low,
        j - 5,
        "route"@,
    ) || matches_at(low, j - 3, "rte"@)
}

fn hword_before_exec(low: &Vec<char>, j: usize) -> (r: bool)
    ensures
        r == hword_before(low@, j as int),
{
    (j >= 7 && match_at(low, j - 7, "highway")) || (j >= 3 && match_at(low, j - 3, "hwy")) || (j
        >= 5 && match_at(low, j - 5, "route")) || (j >= 3 && match_at(low, j - 3, "rte"))
}

/// A `King's Highway <digit>` phrase starting at `i`.
pub open spec fn kings_at(low: Seq<char>, i: int) -> bool {
    (matches_at(low, i, "king's highway "@) && i + 15 < low.len() && is_digit(low[i + 15])) || (
    matches_at(low, i, "kings highway "@) && i + 14 < low.len() && is_digit(low[i + 14]))
}

pub open spec fn scan_kings(low: Seq<char>, i: int) -> bool
    decreases i + 1,
{
    if i < 0 {
        false
    } else {
        kings_at(low, i) || scan_kings(low, i - 1)
    }
}

fn kings_at_exec(low: &Vec<char>, i: usize) -> (r: bool)
    requires
        i < low@.len(),
    ensures
        r == kings_at(low@, i as int),
{
    let n = low.len();
    let a = match_at(low, i, "king's highway ") && 15 < n - i && exec_is_digit(low[i + 15]);
    let b = match_at(low, i, "kings highway ") && 14 < n - i && exec_is_digit(low[i + 14]);
    proof {
        if !(15 < n - i) {
            assert(!(i + 15 < low@.len()));
        }
        if !(14 < n - i) {
            assert(!(i + 14 < low@.len()));
        }
    }
    a || b
}

fn scan_kings_exec(low: &Vec<char>, ip1: usize) -> (r: bool)
    requires
        ip1 <= low@.len(),
    ensures
        r == scan_kings(low@, ip1 as int - 1),
    decreases ip1,
{
    if ip1 == 0 {
        false
    } else {
        kings_at_exec(low, ip1 - 1) || scan_kings_exec(low, ip1 - 1)
    }
}

/// The Canadian province or territory name starting at `i`, with its length.
pub open spec fn ca_name_at(low: Seq<char>, i: int) -> Option<int> {
    if matches_at(low, i, "alberta"@) {
        Some(7int)
    } else if matches_at(low, i, "british columbia"@) {
        Some(16int)
    } else if matches_at(low, i, "saskatchewan"@) {
        Some(12int)
    } else if matches_at(low, i, "manitoba"@) {
        Some(8int)
    } else if matches_at(low, i, "yukon"@) {
        Some(5int)
    } else if matches_at(low, i, "new brunswick"@) {
        Some(13int)
    } else if matches_at(low, i, "newfoundland and labrador"@) {
        Some(25int)
    } else if matches_at(low, i, "newfoundland"@) {
        Some(12int)
    } else if matches_at(low, i, "labrador"@) {
        Some(8int)
    } else if matches_at(low, i, "prince edward island"@) {
        Some(20int)
    } else if matches_at(low, i, "pei"@) {
        Some(3int)
    } else if matches_at(low, i, "quebec"@) {
        Some(6int)
    } else if matches_at(low, i, "northwest territories"@) {
        Some(21int)
    } else if matches_at(low, i, "nunavut"@) {
        Some(7int)
    } else if matches_at(low, i, "nova scotia"@) {
        Some(11int)
    } else if matches_at(low, i, "ontario"@) {
        Some(7int)
    } else {
        None
    }
}

fn ca_name_at_exec(low: &Vec<char>, i: usize) -> (r: Option<usize>)
    ensures
        match r {
            Some(l) => ca_name_at(low@, i as int) == Some(l as int),
            None => ca_name_at(low@, i as int) is None,
        },
{
    if match_at(low, i, "alberta") {
        Some(7)
    } else if match_at(low, i, "british columbia") {
        Some(16)
    } else if match_at(low, i, "saskatchewan") {
        Some(12)
    } else if match_at(low, i, "manitoba") {
        Some(8)
    } else if match_at(low, i, "yukon") {
        Some(5)
    } else if match_at(low, i, "new brunswick") {
        Some(13)
    } else if match_at(low, i, "newfoundland and labrador") {
        Some(25)
    } else if match_at(low, i, "newfoundland") {
        Some(12)
    } else if match_at(low, i, "labrador") {
        Some(8)
    } else if match_at(low, i, "prince edward island") {
        Some(20)
    } else if match_at(low, i, "pei") {
        Some(3)
    } else if match_at(low, i, "quebec") {
        Some(6)
    } else if match_at(low, i, "northwest territories") {
        Some(21)
    } else if match_at(low, i, "nunavut") {
        Some(7)
    } else if match_at(low, i, "nova scotia") {
        Some(11)
    } else if match_at(low, i, "ontario") {
        Some(7)
    } else {
        None
    }
}

/// A `<ProvinceName> <highway-word> <digit>` phrase starting at `i`.
pub open spec fn provname_at(low: Seq<char>, i: int) -> bool {
    match ca_name_at(low, i) {
        None => false,
        Some(nl) => i + nl < low.len() && low[i + nl] == ' ' && (match hword_at(low, i + nl + 1) {
            None => false,
            Some(w) => i + nl + 1 + w + 1 < low.len() && low[i + nl + 1 + w] == ' ' && is_digit(
                low[i + nl + 1 + w + 1],
            ),
        }),
    }
}

pub open spec fn scan_provname(low: Seq<char>, i: int) -> bool
    decreases i + 1,
{
    if i < 0 {
        false
    } else {
        provname_at(low, i) || scan_provname(low, i - 1)
    }
}

fn provname_at_exec(low: &Vec<char>, i: usize) -> (r: bool)
    requires
        i < low@.len(),
    ensures
        r == provname_at(low@, i as int),
{
    let n = low.len();
    let nl = match ca_name_at_exec(low, i) {
        Some(l) => l,
        None => {
            return false;
        },
    };
    if !(nl < n - i && low[i + nl] == ' ') {
        proof {
            if !(nl < n - i) {
                assert(!(i + nl < low@.len()));
            }
        }
        return false;
    }
    let w = match hword_at_exec(low, i + nl + 1) {
        Some(w) => w,
        None => {
            return false;
        },
    };
    proof {
        reveal_strlit("highway");
        reveal_strlit("hwy");
        reveal_strlit("route");
        reveal_strlit("rte");
    }
    if nl + 1 + w + 1 < n - i && low[i + nl + 1 + w] == ' ' && exec_is_digit(
        low[i + nl + 1 + w + 1],
    ) {
        true
    } else {
        proof {
            if !(nl + 1 + w + 1 < n - i) {
                assert(!(i as int + nl + 1 + w + 1 < low@.len()));
            }
        }
        false
    }
}

fn scan_provname_exec(low: &Vec<char>, ip1: usize) -> (r: bool)
    requires
        ip1 <= low@.len(),
    ensures
        r == scan_provname(low@, ip1 as int - 1),
    decreases ip1,
{
    if ip1 == 0 {
        false
    } else {
        provname_at_exec(low, ip1 - 1) || scan_provname_exec(low, ip1 - 1)
    }
}

/// Where the trailing highway number of a Canadian-highway display starts:
/// the display ends in a digit run (optionally carrying one trailing
/// letter), and some recognized highway phrase licenses it.
pub open spec fn ca_hwy_span(low: Seq<char>) -> Option<int> {
    let e = low.len() as int;
    let d_end: int = if e > 0 && is_lower_alpha(low[e - 1]) {
        e - 1
    } else {
        e
    };
    if d_end <= 0 || !is_digit(low[d_end - 1]) {
        None
    } else {
        let k = run_start(low, d_end);
        if k == 0 || (k >= 1 && low[k - 1] == '-' && prov_code_before(low, k - 1)) || (k >= 1
            && low[k - 1] == ' ' && hword_before(low, k - 1)) || scan_kings(low, e - 1)
            || scan_provname(low, e - 1) {
            Some(k)
        } else {
            None
        }
    }
}

/// What the Canadian-highway rule yields for a display like `Highway 101`
/// (with region `ON`): `Highway n` and `Route n` at -1, `ON n` at -2, and
/// the full form `Ontario Route n` (`Highway` for NB, NL, PE and QC)
/// carrying the display priority. The bare display `1` (the Trans-Canada)
/// deliberately yields nothing, as do contexts without a known region.
pub open spec fn syn_ca_hwy_spec(n: NameView, ctx: crate::context::ContextView) -> Seq<NameView> {
    match ctx.region {
        None => Seq::empty(),
        Some(reg) => match crate::context::region_full_name(reg) {
            None => Seq::empty(),
            Some(rname) => if n.display == "1"@ {
                Seq::empty()
            } else {
                match ca_hwy_span(lower_text(n.display)) {
                    None => Seq::empty(),
                    Some(k) => {
                        let num = n.display.skip(k);
                        let hwy_type: Seq<char> = if reg == "NB"@ || reg == "NL"@ || reg == "PE"@
                            || reg == "QC"@ {
                            "Highway"@
                        } else {
                            "Route"@
                        };
                        seq![
                            name_new_spec("Highway "@ + num, -1i8, ctx.table),
                            name_new_spec("Route "@ + num, -1i8, ctx.table),
                            name_new_spec(reg + " "@ + num, -2i8, ctx.table),
                            name_new_spec(
                                rname + " "@ + hwy_type + " "@ + num,
                                if n.priority > 0 {
                                    0i8
                                } else {
                                    1i8
                                },
                                ctx.table,
                            ),
                        ]
                    },
                }
            },
        },
    }
}

/// Generate the Canadian-highway synonyms of names like `101`, `ON-101`
/// and `Highway 101`.
pub fn syn_ca_hwy(name: &Name, context: &Context) -> (r: Vec<Name>)
    ensures
        name_views(r@) == syn_ca_hwy_spec(name@, context@),
{
    let region = match &context.region {
        Some(g) => g,
        None => {
            return Vec::new();
        },
    };
    let rname = match context.region_name() {
        Some(n) => n,
        None => {
            return Vec::new();
        },
    };
    if str_eq(name.display.as_str(), "1") {
        return Vec::new();
    }
    let orig = str_chars(name.display.as_str());
    let low = lower_chars(&orig);
    let e = low.len();
    let d_end: usize = if e > 0 && {
        let c = low[e - 1];
        'a' <= c && c <= 'z'
    } {
        e - 1
    } else {
        e
    };
    if d_end == 0 || !exec_is_digit(low[d_end - 1]) {
        return Vec::new();
    }
    let k = exec_run_start(&low, d_end);
    let licensed = k == 0 || (k >= 1 && low[k - 1] == '-' && prov_code_before_exec(&low, k - 1))
        || (k >= 1 && low[k - 1] == ' ' && hword_before_exec(&low, k - 1)) || scan_kings_exec(
        &low,
        e,
    ) || scan_provname_exec(&low, e);
    if !licensed {
        return Vec::new();
    }
    let mut numv: Vec<char> = Vec::new();
    push_range(&mut numv, &orig, k, orig.len());
    proof {
        assert(orig@.subrange(k as int, orig@.len() as int) =~= name@.display.skip(k as int));
    }
    let num = string_from_chars(&numv);
    let hwy_type: &str = if str_eq(region.as_str(), "NB") || str_eq(region.as_str(), "NL")
        || str_eq(region.as_str(), "PE") || str_eq(region.as_str(), "QC") {
        "Highway"
    } else {
        "Route"
    };
    let prio4: i8 = if name.priority > 0 {
        0
    } else {
        1
    };
    let mut r: Vec<Name> = Vec::new();
    let mut d1 = String::new();
    d1.append("Highway ");
    d1.append(num.as_str());
    r.push(Name::new(d1, -1, context));
    let mut d2 = String::new();
    d2.append("Route ");
    d2.append(num.as_str());
    r.push(Name::new(d2, -1, context));
    let mut d3 = region.clone();
    d3.append(" ");
    d3.append(num.as_str());
    r.push(Name::new(d3, -2, context));
    let mut d4 = rname.clone();
    d4.append(" ");
    d4.append(hwy_type);
    d4.append(" ");
    d4.append(num.as_str());
    r.push(Name::new(d4, prio4, context));
    proof {
        assert(name_views(r@) =~= syn_ca_hwy_spec(name@, context@));
    }
    r
}

} // verus!
