//! The tokenizer: canonicalizes a free-text street name into a sequence of
//! typed tokens, using a table that maps raw tokens to canonical forms. The
//! table is built either directly from entries or from the per-language
//! abbreviation dictionaries of the `geocoder_abbreviations` crate.

use vstd::prelude::*;
use crate::chars::{
    norm_char, is_erased, is_break, exec_norm_char, exec_is_erased, exec_is_break, str_chars,
    string_from_chars,
};

verus! {

/// The grammatical role of a recognized token, as the abbreviation
/// dictionaries declare it.
#[derive(Clone, Copy, Debug, PartialEq, Eq, Structural)]
pub enum TokenType {
    PostalBox,
    Cardinal,
    Number,
    Ordinal,
    Unit,
    Way,
    Determiner,
}

/// One token of a processed display string.
#[derive(Clone, Debug, PartialEq)]
pub struct Tokenized {
    /// The canonical token text.
    pub token: String,
    /// The declared role of the token, if the table recognized it.
    pub token_type: Option<TokenType>,
}

pub struct TokenizedView {
    pub token: Seq<char>,
    pub token_type: Option<TokenType>,
}

impl View for Tokenized {
    type V = TokenizedView;

    open spec fn view(&self) -> TokenizedView {
        TokenizedView { token: self.token@, token_type: self.token_type }
    }
}

impl Tokenized {
    pub fn new(token: String, token_type: Option<TokenType>) -> (r: Tokenized)
        ensures
            r@.token == token@,
            r@.token_type == token_type,
    {
        Tokenized { token, token_type }
    }
}

/// What a raw token maps to in the canonicalization table.
#[derive(Clone, Debug, PartialEq)]
pub struct ParsedToken {
    pub canonical: String,
    pub token_type: Option<TokenType>,
}

pub struct ParsedTokenView {
    pub canonical: Seq<char>,
    pub token_type: Option<TokenType>,
}

impl View for ParsedToken {
    type V = ParsedTokenView;

    open spec fn view(&self) -> ParsedTokenView {
        ParsedTokenView { canonical: self.canonical@, token_type: self.token_type }
    }
}

impl ParsedToken {
    pub fn new(canonical: String, token_type: Option<TokenType>) -> (r: ParsedToken)
        ensures
            r@.canonical == canonical@,
            r@.token_type == token_type,
    {
        ParsedToken { canonical, token_type }
    }
}

/// One rule group of an abbreviation dictionary: a set of literal spellings,
/// the canonical form they map to, whether the rule is a regular expression
/// rule (those are not used for token replacement), and the declared role.
pub struct TokenGroup {
    pub tokens: Vec<String>,
    pub canonical: String,
    pub regex: bool,
    pub token_type: Option<TokenType>,
}

pub struct TokenGroupView {
    pub tokens: Seq<Seq<char>>,
    pub canonical: Seq<char>,
    pub regex: bool,
    pub token_type: Option<TokenType>,
}

impl View for TokenGroup {
    type V = TokenGroupView;

    open spec fn view(&self) -> TokenGroupView {
        TokenGroupView {
            tokens: self.tokens@.map_values(|t: String| t@),
            canonical: self.canonical@,
            regex: self.regex,
            token_type: self.token_type,
        }
    }
}

pub open spec fn group_views(s: Seq<TokenGroup>) -> Seq<TokenGroupView> {
    s.map_values(|g: TokenGroup| g@)
}

pub open spec fn str_views(s: Seq<String>) -> Seq<Seq<char>> {
    s.map_values(|t: String| t@)
}

pub open spec fn tokenized_views(s: Seq<Tokenized>) -> Seq<TokenizedView> {
    s.map_values(|t: Tokenized| t@)
}

/// The token groups that the abbreviation dictionary of one language holds,
/// in file order, or nothing when the language is not shipped. The
/// dictionaries are data compiled into the `geocoder_abbreviations` crate,
/// so the result depends on the language code alone.
pub uninterp spec fn abbrev_groups(lang: Seq<char>) -> Option<Seq<TokenGroupView>>;

/// Relies on `geocoder_abbreviations::config`: queried for one language it
/// returns that language's token groups in file order, and an error when
/// the language code is not shipped.
#[verifier::external_body]
fn fetch_abbrev_groups(lang: &String) -> (r: Option<Vec<TokenGroup>>)
    ensures
        match r {
            Some(v) => abbrev_groups(lang@) == Some(group_views(v@)),
            None => abbrev_groups(lang@) is None,
        },
{
    let mut m = match geocoder_abbreviations::config(vec![lang.clone()]) {
        Ok(m) => m,
        Err(_) => return None,
    };
    Some(m.remove(lang).unwrap_or_default().into_iter().map(group_of).collect())
}

#[verifier::external_type_specification]
#[verifier::external_body]
pub struct ExToken(geocoder_abbreviations::Token);

/// Relies on `geocoder_abbreviations::Token`: its fields move over one for
/// one, with one arm for each variant of its role enum.
#[verifier::external_body]
fn group_of(t: geocoder_abbreviations::Token) -> TokenGroup {
    TokenGroup {
        tokens: t.tokens,
        canonical: t.canonical,
        regex: t.regex,
        token_type: match t.token_type {
            None => None,
            Some(geocoder_abbreviations::TokenType::PostalBox) => Some(TokenType::PostalBox),
            Some(geocoder_abbreviations::TokenType::Cardinal) => Some(TokenType::Cardinal),
            Some(geocoder_abbreviations::TokenType::Number) => Some(TokenType::Number),
            Some(geocoder_abbreviations::TokenType::Ordinal) => Some(TokenType::Ordinal),
            Some(geocoder_abbreviations::TokenType::Unit) => Some(TokenType::Unit),
            Some(geocoder_abbreviations::TokenType::Way) => Some(TokenType::Way),
            Some(geocoder_abbreviations::TokenType::Determiner) => Some(TokenType::Determiner),
        },
    }
}

/// An error raised while building a token table.
#[derive(Debug, PartialEq)]
pub enum TokensError {
    /// No abbreviation dictionary exists for this language code.
    UnknownLanguage(String),
}

/// A table of entries, later entries overriding earlier ones that share
/// a raw token.
pub open spec fn table_of(s: Seq<(String, ParsedToken)>) -> Map<Seq<char>, ParsedTokenView>
    decreases s.len(),
{
    if s.len() == 0 {
        Map::empty()
    } else {
        table_of(s.drop_last()).insert(s.last().0@, s.last().1@)
    }
}

/// Per-character normalization of a whole text: lowercase, then fold
/// diacritics.
pub open spec fn norm_text(s: Seq<char>) -> Seq<char> {
    s.map_values(|c: char| norm_char(c))
}

/// The normalized text with the erased characters (carets, apostrophes,
/// periods) dropped.
pub open spec fn clean_text(s: Seq<char>) -> Seq<char>
    decreases s.len(),
{
    if s.len() == 0 {
        Seq::empty()
    } else {
        let c = norm_char(s[0]);
        if is_erased(c) {
            clean_text(s.drop_first())
        } else {
            seq![c] + clean_text(s.drop_first())
        }
    }
}

/// Split a cleaned text into its tokens: runs of characters between
/// punctuation and whitespace breaks; empty runs yield no token.
pub open spec fn split_tokens(cur: Seq<char>, rest: Seq<char>) -> Seq<Seq<char>>
    decreases rest.len(),
{
    if rest.len() == 0 {
        if cur.len() == 0 {
            Seq::empty()
        } else {
            seq![cur]
        }
    } else if is_break(rest[0]) {
        if cur.len() == 0 {
            split_tokens(Seq::empty(), rest.drop_first())
        } else {
            seq![cur] + split_tokens(Seq::empty(), rest.drop_first())
        }
    } else {
        split_tokens(cur.push(rest[0]), rest.drop_first())
    }
}

/// The raw tokens of a display string: normalize each character, erase
/// apostrophes, periods and carets, and split on punctuation and whitespace.
pub open spec fn tokenize_text(s: Seq<char>) -> Seq<Seq<char>> {
    split_tokens(Seq::empty(), clean_text(s))
}

/// Canonicalize one raw token through the table.
pub open spec fn apply_table(tbl: Map<Seq<char>, ParsedTokenView>, w: Seq<char>) -> TokenizedView {
    if tbl.contains_key(w) {
        TokenizedView { token: tbl[w].canonical, token_type: tbl[w].token_type }
    } else {
        TokenizedView { token: w, token_type: None }
    }
}

/// What processing a display string yields: each raw token canonicalized
/// through the table.
pub open spec fn process_text(tbl: Map<Seq<char>, ParsedTokenView>, s: Seq<char>) -> Seq<
    TokenizedView,
> {
    tokenize_text(s).map_values(|w: Seq<char>| apply_table(tbl, w))
}

/// Add one group's literal tokens to a table: each spelling, normalized,
/// maps to the group's normalized canonical form and declared role.
pub open spec fn insert_entries(
    base: Map<Seq<char>, ParsedTokenView>,
    toks: Seq<Seq<char>>,
    canon: Seq<char>,
    tt: Option<TokenType>,
) -> Map<Seq<char>, ParsedTokenView>
    decreases toks.len(),
{
    if toks.len() == 0 {
        base
    } else {
        insert_entries(
            base.insert(
                norm_text(toks[0]),
                ParsedTokenView { canonical: norm_text(canon), token_type: tt },
            ),
            toks.drop_first(),
            canon,
            tt,
        )
    }
}

pub open spec fn apply_group(base: Map<Seq<char>, ParsedTokenView>, g: TokenGroupView) -> Map<
    Seq<char>,
    ParsedTokenView,
> {
    if g.regex {
        base
    } else {
        insert_entries(base, g.tokens, g.canonical, g.token_type)
    }
}

pub open spec fn table_from_groups(
    base: Map<Seq<char>, ParsedTokenView>,
    gs: Seq<TokenGroupView>,
) -> Map<Seq<char>, ParsedTokenView>
    decreases gs.len(),
{
    if gs.len() == 0 {
        base
    } else {
        table_from_groups(apply_group(base, gs[0]), gs.drop_first())
    }
}

/// The table generated from a list of languages, later languages overriding
/// earlier ones, or nothing when some language is not shipped.
pub open spec fn gen_fold(base: Map<Seq<char>, ParsedTokenView>, langs: Seq<Seq<char>>) -> Option<
    Map<Seq<char>, ParsedTokenView>,
>
    decreases langs.len(),
{
    if langs.len() == 0 {
        Some(base)
    } else {
        match abbrev_groups(langs[0]) {
            None => None,
            Some(gs) => gen_fold(table_from_groups(base, gs), langs.drop_first()),
        }
    }
}

pub open spec fn gen_table(langs: Seq<Seq<char>>) -> Option<Map<Seq<char>, ParsedTokenView>> {
    gen_fold(Map::empty(), langs)
}

/// The canonicalization table: raw token to canonical token and role.
pub struct Tokens {
    entries: Vec<(String, ParsedToken)>,
}

impl View for Tokens {
    type V = Map<Seq<char>, ParsedTokenView>;

    closed spec fn view(&self) -> Map<Seq<char>, ParsedTokenView> {
        table_of(self.entries@)
    }
}

proof fn lemma_table_push(s: Seq<(String, ParsedToken)>, p: (String, ParsedToken))
    ensures
        table_of(s.push(p)) == table_of(s).insert(p.0@, p.1@),
{
    assert(s.push(p).drop_last() =~= s);
    assert(s.push(p).last() == p);
}

impl Tokens {
    /// A table holding exactly the given entries, a later entry overriding
    /// an earlier one with the same raw token.
    pub fn new(entries: Vec<(String, ParsedToken)>) -> (r: Tokens)
        ensures
            r@ == table_of(entries@),
    {
        Tokens { entries }
    }

    /// The table entry for a raw token, if there is one.
    fn lookup(&self, key: &String) -> (r: Option<&ParsedToken>)
        ensures
            match r {
                Some(pt) => self@.contains_key(key@) && pt@ == self@[key@],
                None => !self@.contains_key(key@),
            },
    {
        let n = self.entries.len();
        proof {
            assert(self.entries@.take(n as int) =~= self.entries@);
        }
        let mut i: usize = n;
        while i > 0
            invariant
                i <= n,
                n == self.entries@.len(),
                table_of(self.entries@.take(i as int)).contains_key(key@) == self@.contains_key(
                    key@,
                ),
                table_of(self.entries@.take(i as int)).contains_key(key@) ==> table_of(
                    self.entries@.take(i as int),
                )[key@] == self@[key@],
            decreases i,
        {
            i = i - 1;
            proof {
                assert(self.entries@.take(i + 1).drop_last() =~= self.entries@.take(i as int));
                assert(self.entries@.take(i + 1).last() == self.entries@[i as int]);
            }
            if self.entries[i].0 == *key {
                return Some(&self.entries[i].1);
            }
        }
        proof {
            assert(self.entries@.take(0) =~= Seq::<(String, ParsedToken)>::empty());
        }
        None
    }

    /// Build a table from the abbreviation dictionaries of the given
    /// languages, keeping only the literal (non-regex) rule groups: each
    /// spelling of a group maps to the group's canonical form and role,
    /// both normalized the way the tokenizer normalizes characters.
    pub fn generate(languages: Vec<String>) -> (r: Result<Tokens, TokensError>)
        ensures
            match r {
                Ok(t) => gen_table(str_views(languages@)) == Some(t@),
                Err(e) => gen_table(str_views(languages@)) is None && match e {
                    TokensError::UnknownLanguage(l) => abbrev_groups(l@) is None,
                },
            },
    {
        let ghost langs = str_views(languages@);
        let mut entries: Vec<(String, ParsedToken)> = Vec::new();
        proof {
            assert(langs.skip(0) =~= langs);
        }
        let mut i: usize = 0;
        while i < languages.len()
            invariant
                i <= languages@.len(),
                langs == str_views(languages@),
                gen_fold(Map::empty(), langs) == gen_fold(table_of(entries@), langs.skip(i as int)),
            decreases languages@.len() - i,
        {
            proof {
                assert(langs.skip(i as int)[0] == langs[i as int]);
                assert(langs[i as int] == languages@[i as int]@);
                assert(langs.skip(i as int).drop_first() =~= langs.skip(i + 1));
            }
            let groups = match fetch_abbrev_groups(&languages[i]) {
                Some(g) => g,
                None => {
                    proof {
                        assert(gen_fold(table_of(entries@), langs.skip(i as int)) is None);
                    }
                    return Err(TokensError::UnknownLanguage(languages[i].clone()));
                },
            };
            let ghost gviews = group_views(groups@);
            let ghost t0 = table_of(entries@);
            proof {
                assert(gviews.skip(0) =~= gviews);
            }
            let mut gi: usize = 0;
            while gi < groups.len()
                invariant
                    gi <= groups@.len(),
                    gviews == group_views(groups@),
                    table_from_groups(t0, gviews) == table_from_groups(
                        table_of(entries@),
                        gviews.skip(gi as int),
                    ),
                decreases groups@.len() - gi,
            {
                proof {
                    assert(gviews.skip(gi as int)[0] == gviews[gi as int]);
                    assert(gviews[gi as int] == groups@[gi as int]@);
                    assert(gviews.skip(gi as int).drop_first() =~= gviews.skip(gi + 1));
                }
                let g = &groups[gi];
                if !g.regex {
                    let canon = norm_string(&g.canonical);
                    let ghost tg0 = table_of(entries@);
                    proof {
                        assert(g@.tokens.skip(0) =~= g@.tokens);
                    }
                    let mut ti: usize = 0;
                    while ti < g.tokens.len()
                        invariant
                            ti <= g.tokens@.len(),
                            canon@ == norm_text(g@.canonical),
                            g@ == groups@[gi as int]@,
                            gi < groups@.len(),
                            insert_entries(
                                tg0,
                                g@.tokens,
                                g@.canonical,
                                g@.token_type,
                            ) == insert_entries(
                                table_of(entries@),
                                g@.tokens.skip(ti as int),
                                g@.canonical,
                                g@.token_type,
                            ),
                        decreases g.tokens@.len() - ti,
                    {
                        proof {
                            assert(g@.tokens.skip(ti as int)[0] == g@.tokens[ti as int]);
                            assert(g@.tokens[ti as int] == g.tokens@[ti as int]@);
                            assert(g@.tokens.skip(ti as int).drop_first() =~= g@.tokens.skip(
                                ti + 1,
                            ));
                        }
                        let key = norm_string(&g.tokens[ti]);
                        let pt = ParsedToken { canonical: canon.clone(), token_type: g.token_type };
                        proof {
                            lemma_table_push(entries@, (key, pt));
                        }
                        entries.push((key, pt));
                        ti = ti + 1;
                    }
                    proof {
                        assert(g@.tokens.skip(g@.tokens.len() as int) =~= Seq::<Seq<char>>::empty());
                    }
                }
                gi = gi + 1;
            }
            proof {
                assert(gviews.skip(gviews.len() as int) =~= Seq::<TokenGroupView>::empty());
            }
            i = i + 1;
        }
        proof {
            assert(langs.skip(langs.len() as int) =~= Seq::<Seq<char>>::empty());
        }
        Ok(Tokens { entries })
    }

    /// Canonicalize a display string: normalize and split it into raw
    /// tokens, then map each through the table.
    pub fn process(&self, text: &str) -> (r: Vec<Tokenized>)
        ensures
            tokenized_views(r@) == process_text(self@, text@),
    {
        let words = split_words(text);
        let mut r: Vec<Tokenized> = Vec::new();
        let mut i: usize = 0;
        while i < words.len()
            invariant
                i <= words@.len(),
                str_views(words@) == tokenize_text(text@),
                r@.len() == i,
                forall|j: int|
                    0 <= j < i ==> #[trigger] r@[j]@ == apply_table(self@, words@[j]@),
            decreases words@.len() - i,
        {
            let w = &words[i];
            match self.lookup(w) {
                Some(pt) => {
                    r.push(Tokenized { token: pt.canonical.clone(), token_type: pt.token_type });
                },
                None => {
                    r.push(Tokenized { token: w.clone(), token_type: None });
                },
            }
            i = i + 1;
        }
        proof {
            assert(str_views(words@).len() == words@.len());
            assert forall|j: int| 0 <= j < words@.len() implies tokenize_text(text@)[j]
                == words@[j]@ by {
                assert(str_views(words@)[j] == words@[j]@);
            }
            assert(tokenized_views(r@) =~= process_text(self@, text@));
        }
        r
    }
}

/// Normalize every character of a string (lowercase, fold diacritics).
fn norm_string(s: &str) -> (r: String)
    ensures
        r@ == norm_text(s@),
{
    let cs = str_chars(s);
    let mut out: Vec<char> = Vec::new();
    let mut i: usize = 0;
    while i < cs.len()
        invariant
            i <= cs@.len(),
            cs@ == s@,
            out@.len() == i,
            forall|j: int| 0 <= j < i ==> out@[j] == norm_char(s@[j]),
        decreases cs@.len() - i,
    {
        out.push(exec_norm_char(cs[i]));
        i = i + 1;
    }
    proof {
        assert(out@ =~= norm_text(s@));
    }
    string_from_chars(&out)
}

/// Normalize a display string and split it into raw token words.
fn split_words(text: &str) -> (r: Vec<String>)
    ensures
        str_views(r@) == tokenize_text(text@),
{
    let cs = str_chars(text);
    // First pass: normalize characters and drop the erased ones.
    let mut cleaned: Vec<char> = Vec::new();
    proof {
        assert(text@.skip(0) =~= text@);
        assert(cleaned@ + clean_text(text@) =~= clean_text(text@));
    }
    let mut i: usize = 0;
    while i < cs.len()
        invariant
            i <= cs@.len(),
            cs@ == text@,
            clean_text(text@) == cleaned@ + clean_text(text@.skip(i as int)),
        decreases cs@.len() - i,
    {
        proof {
            assert(text@.skip(i as int)[0] == text@[i as int]);
            assert(text@.skip(i as int).drop_first() =~= text@.skip(i + 1));
        }
        let c = exec_norm_char(cs[i]);
        if !exec_is_erased(c) {
            let ghost prev = cleaned@;
            cleaned.push(c);
            proof {
                assert(prev + (seq![norm_char(text@[i as int])] + clean_text(text@.skip(i + 1)))
                    =~= cleaned@ + clean_text(text@.skip(i + 1)));
            }
        }
        i = i + 1;
    }
    proof {
        assert(text@.skip(text@.len() as int) =~= Seq::<char>::empty());
        assert(cleaned@ + clean_text(text@.skip(text@.len() as int)) =~= cleaned@);
    }
    // Second pass: split into tokens on punctuation and whitespace.
    let mut words: Vec<String> = Vec::new();
    let mut cur: Vec<char> = Vec::new();
    proof {
        assert(cleaned@.skip(0) =~= cleaned@);
        assert(str_views(words@) =~= Seq::<Seq<char>>::empty());
        assert(str_views(words@) + split_tokens(cur@, cleaned@) =~= split_tokens(cur@, cleaned@));
    }
    let mut k: usize = 0;
    while k < cleaned.len()
        invariant
            k <= cleaned@.len(),
            cleaned@ == clean_text(text@),
            tokenize_text(text@) == str_views(words@) + split_tokens(
                cur@,
                cleaned@.skip(k as int),
            ),
        decreases cleaned@.len() - k,
    {
        proof {
            assert(cleaned@.skip(k as int)[0] == cleaned@[k as int]);
            assert(cleaned@.skip(k as int).drop_first() =~= cleaned@.skip(k + 1));
        }
        let c = cleaned[k];
        if exec_is_break(c) {
            if cur.len() > 0 {
                let w = string_from_chars(&cur);
                proof {
                    assert(str_views(words@.push(w)) =~= str_views(words@) + seq![cur@]);
                    assert((str_views(words@) + seq![cur@]) + split_tokens(
                        Seq::empty(),
                        cleaned@.skip(k + 1),
                    ) =~= str_views(words@) + (seq![cur@] + split_tokens(
                        Seq::empty(),
                        cleaned@.skip(k + 1),
                    )));
                }
                words.push(w);
                cur = Vec::new();
            } else {
                proof {
                    assert(cur@ =~= Seq::<char>::empty());
                }
            }
        } else {
            cur.push(c);
        }
        k = k + 1;
    }
    proof {
        assert(cleaned@.skip(cleaned@.len() as int) =~= Seq::<char>::empty());
    }
    if cur.len() > 0 {
        let w = string_from_chars(&cur);
        proof {
            assert(str_views(words@.push(w)) =~= str_views(words@) + seq![cur@]);
        }
        words.push(w);
    } else {
        proof {
            assert(str_views(words@) + split_tokens(cur@, Seq::empty()) =~= str_views(words@));
        }
    }
    words
}

} // verus!
