//! `Name` and `Names`: one candidate spelling of a street name, and the
//! prioritized collection of spellings (originals first, then generated
//! synonyms) kept for one feature.

use vstd::prelude::*;
use crate::tokens::{Tokenized, TokenizedView, TokenType, tokenized_views, process_text, str_views};
use crate::context::Context;
use crate::chars::{str_chars, string_from_chars, str_eq};

verus! {

/// The token texts joined with single spaces.
pub open spec fn join_words(ws: Seq<Seq<char>>) -> Seq<char>
    decreases ws.len(),
{
    if ws.len() == 0 {
        Seq::empty()
    } else if ws.len() == 1 {
        ws[0]
    } else {
        ws[0] + seq![' '] + join_words(ws.drop_first())
    }
}

pub proof fn lemma_join_push(ws: Seq<Seq<char>>, w: Seq<char>)
    ensures
        join_words(ws.push(w)) == if ws.len() == 0 {
            w
        } else {
            join_words(ws) + seq![' '] + w
        },
    decreases ws.len(),
{
    if ws.len() == 0 {
        assert(ws.push(w) =~= seq![w]);
        assert(seq![w].len() == 1);
        assert(seq![w][0] == w);
        assert(join_words(seq![w]) == seq![w][0]);
    } else if ws.len() == 1 {
        assert(ws.push(w).len() == 2);
        assert(ws.push(w)[1] == w);
        assert(ws.push(w).drop_first() =~= seq![w]);
        assert(join_words(seq![w]) == w);
        assert(join_words(ws.push(w)) == ws.push(w)[0] + seq![' '] + join_words(
            ws.push(w).drop_first(),
        ));
        assert(ws.push(w)[0] == ws[0]);
    } else {
        assert(ws.push(w).drop_first() =~= ws.drop_first().push(w));
        lemma_join_push(ws.drop_first(), w);
        assert(ws[0] + seq![' '] + (join_words(ws.drop_first()) + seq![' '] + w) =~= (ws[0]
            + seq![' '] + join_words(ws.drop_first())) + seq![' '] + w);
    }
}

/// The text with its leading spaces dropped.
pub open spec fn trim_left(s: Seq<char>) -> Seq<char>
    decreases s.len(),
{
    if s.len() > 0 && s[0] == ' ' {
        trim_left(s.drop_first())
    } else {
        s
    }
}

/// The text with its trailing spaces dropped.
pub open spec fn trim_right(s: Seq<char>) -> Seq<char>
    decreases s.len(),
{
    if s.len() > 0 && s.last() == ' ' {
        trim_right(s.drop_last())
    } else {
        s
    }
}

pub open spec fn trim_spaces(s: Seq<char>) -> Seq<char> {
    trim_right(trim_left(s))
}

/// Drop the leading and trailing spaces of a character vector.
fn trim_vec(v: &Vec<char>) -> (r: Vec<char>)
    ensures
        r@ == trim_spaces(v@),
{
    let n = v.len();
    let mut a: usize = 0;
    proof {
        assert(v@.skip(0) =~= v@);
    }
    while a < n && v[a] == ' '
        invariant
            a <= n,
            n == v@.len(),
            trim_left(v@) == trim_left(v@.skip(a as int)),
        decreases n - a,
    {
        proof {
            assert(v@.skip(a as int)[0] == v@[a as int]);
            assert(v@.skip(a as int).drop_first() =~= v@.skip(a + 1));
        }
        a = a + 1;
    }
    proof {
        if a < n {
            assert(v@.skip(a as int)[0] == v@[a as int]);
        } else {
            assert(v@.skip(a as int) =~= Seq::<char>::empty());
        }
        assert(trim_left(v@.skip(a as int)) == v@.skip(a as int));
        assert(v@.skip(a as int) =~= v@.subrange(a as int, n as int));
    }
    let mut b: usize = n;
    while b > a && v[b - 1] == ' '
        invariant
            a <= b <= n,
            n == v@.len(),
            trim_right(v@.skip(a as int)) == trim_right(v@.subrange(a as int, b as int)),
        decreases b,
    {
        proof {
            assert(v@.subrange(a as int, b as int).last() == v@[b - 1]);
            assert(v@.subrange(a as int, b as int).drop_last() =~= v@.subrange(a as int, b - 1));
        }
        b = b - 1;
    }
    proof {
        if b > a {
            assert(v@.subrange(a as int, b as int).last() == v@[b - 1]);
        }
        assert(trim_right(v@.subrange(a as int, b as int)) == v@.subrange(a as int, b as int));
    }
    let mut out: Vec<char> = Vec::new();
    let mut i: usize = a;
    while i < b
        invariant
            a <= i <= b <= n,
            n == v@.len(),
            out@ == v@.subrange(a as int, i as int),
        decreases b - i,
    {
        out.push(v[i]);
        proof {
            assert(out@ =~= v@.subrange(a as int, i + 1));
        }
        i = i + 1;
    }
    out
}

/// Join a list of words with single spaces and trim the ends.
pub fn join_trim(words: &Vec<String>) -> (r: String)
    ensures
        r@ == trim_spaces(join_words(str_views(words@))),
{
    let mut acc: Vec<char> = Vec::new();
    let mut i: usize = 0;
    proof {
        assert(str_views(words@).take(0) =~= Seq::<Seq<char>>::empty());
    }
    while i < words.len()
        invariant
            i <= words@.len(),
            acc@ == join_words(str_views(words@).take(i as int)),
        decreases words@.len() - i,
    {
        proof {
            assert(str_views(words@).take(i + 1) =~= str_views(words@).take(i as int).push(
                words@[i as int]@,
            ));
            lemma_join_push(str_views(words@).take(i as int), words@[i as int]@);
        }
        if i > 0 {
            let ghost prev = acc@;
            acc.push(' ');
            proof {
                assert(prev + seq![' '] =~= acc@);
            }
        }
        let cs = str_chars(words[i].as_str());
        let mut j: usize = 0;
        let ghost mid = acc@;
        while j < cs.len()
            invariant
                j <= cs@.len(),
                cs@ == words@[i as int]@,
                i < words@.len(),
                acc@ == mid + cs@.take(j as int),
            decreases cs@.len() - j,
        {
            let ghost prev = acc@;
            acc.push(cs[j]);
            proof {
                assert(mid + cs@.take(j + 1) =~= prev.push(cs@[j as int]));
            }
            j = j + 1;
        }
        proof {
            assert(cs@.take(cs@.len() as int) =~= cs@);
            if i > 0 {
                assert(acc@ =~= join_words(str_views(words@).take(i as int)) + seq![' ']
                    + words@[i as int]@);
            } else {
                assert(acc@ =~= words@[i as int]@);
            }
        }
        i = i + 1;
    }
    proof {
        assert(str_views(words@).take(words@.len() as int) =~= str_views(words@));
    }
    let trimmed = trim_vec(&acc);
    string_from_chars(&trimmed)
}

/// The display text as stored: quotation marks, tabs and newlines stripped.
pub open spec fn strip_ctl(s: Seq<char>) -> Seq<char>
    decreases s.len(),
{
    if s.len() == 0 {
        Seq::empty()
    } else if s[0] == '"' || s[0] == '\t' || s[0] == '\n' {
        strip_ctl(s.drop_first())
    } else {
        seq![s[0]] + strip_ctl(s.drop_first())
    }
}

fn strip_ctl_exec(s: &str) -> (r: String)
    ensures
        r@ == strip_ctl(s@),
{
    let cs = str_chars(s);
    let mut out: Vec<char> = Vec::new();
    proof {
        assert(s@.skip(0) =~= s@);
        assert(out@ + strip_ctl(s@) =~= strip_ctl(s@));
    }
    let mut i: usize = 0;
    while i < cs.len()
        invariant
            i <= cs@.len(),
            cs@ == s@,
            strip_ctl(s@) == out@ + strip_ctl(s@.skip(i as int)),
        decreases cs@.len() - i,
    {
        proof {
            assert(s@.skip(i as int)[0] == s@[i as int]);
            assert(s@.skip(i as int).drop_first() =~= s@.skip(i + 1));
        }
        let c = cs[i];
        if !(c == '"' || c == '\t' || c == '\n') {
            let ghost prev = out@;
            out.push(c);
            proof {
                assert(prev + (seq![s@[i as int]] + strip_ctl(s@.skip(i + 1))) =~= out@ + strip_ctl(
                    s@.skip(i + 1),
                ));
            }
        }
        i = i + 1;
    }
    proof {
        assert(s@.skip(s@.len() as int) =~= Seq::<char>::empty());
        assert(out@ + strip_ctl(s@.skip(s@.len() as int)) =~= out@);
    }
    string_from_chars(&out)
}

/// One candidate spelling of a street name.
#[derive(Debug, PartialEq)]
pub struct Name {
    /// The human-readable street name.
    pub display: String,
    /// Ranking used to choose which spelling is shown; higher is preferred.
    pub priority: i8,
    /// Provenance tag: where this spelling came from.
    pub source: String,
    /// The token structure, always computed from the display text the name
    /// was constructed with.
    pub tokenized: Vec<Tokenized>,
    /// How many source records carried this spelling.
    pub freq: i64,
}

pub struct NameView {
    pub display: Seq<char>,
    pub priority: i8,
    pub source: Seq<char>,
    pub tokenized: Seq<TokenizedView>,
    pub freq: i64,
}

impl View for Name {
    type V = NameView;

    open spec fn view(&self) -> NameView {
        NameView {
            display: self.display@,
            priority: self.priority,
            source: self.source@,
            tokenized: tokenized_views(self.tokenized@),
            freq: self.freq,
        }
    }
}

pub open spec fn name_views(s: Seq<Name>) -> Seq<NameView> {
    s.map_values(|n: Name| n@)
}

/// What constructing a name from a display string yields: the display with
/// quotation marks, tabs and newlines stripped, the tokenization of the
/// original display string, an empty source and a frequency of one.
pub open spec fn name_new_spec(
    display: Seq<char>,
    priority: i8,
    table: Map<Seq<char>, crate::tokens::ParsedTokenView>,
) -> NameView {
    NameView {
        display: strip_ctl(display),
        priority,
        source: Seq::empty(),
        tokenized: process_text(table, display),
        freq: 1,
    }
}

/// The token texts of a name, in order.
pub open spec fn tok_words(s: Seq<TokenizedView>) -> Seq<Seq<char>> {
    s.map_values(|t: TokenizedView| t.token)
}

/// The token texts of the tokens the table did not recognize (those without
/// a role), in order.
pub open spec fn tokless_words(s: Seq<TokenizedView>) -> Seq<Seq<char>>
    decreases s.len(),
{
    if s.len() == 0 {
        Seq::empty()
    } else if s[0].token_type is None {
        seq![s[0].token] + tokless_words(s.drop_first())
    } else {
        tokless_words(s.drop_first())
    }
}

/// The tokenized string of a name: its token texts joined by single spaces.
pub open spec fn name_tok_str(n: NameView) -> Seq<char> {
    trim_spaces(join_words(tok_words(n.tokenized)))
}

/// The tokenless string of a name: the unrecognized token texts joined by
/// single spaces.
pub open spec fn name_tokless_str(n: NameView) -> Seq<char> {
    trim_spaces(join_words(tokless_words(n.tokenized)))
}

impl Name {
    /// A name spelled `display`: the display string is tokenized through the
    /// context's table, and quotation marks, tabs and newlines are stripped
    /// from the stored display text.
    pub fn new(display: String, priority: i8, context: &Context) -> (r: Name)
        ensures
            r@ == name_new_spec(display@, priority, context@.table),
    {
        let tokenized = context.tokens.process(display.as_str());
        let stripped = strip_ctl_exec(display.as_str());
        Name { display: stripped, priority, source: String::new(), tokenized, freq: 1 }
    }

    /// The token texts joined by single spaces.
    pub fn tokenized_string(&self) -> (r: String)
        ensures
            r@ == name_tok_str(self@),
    {
        let mut words: Vec<String> = Vec::new();
        let mut i: usize = 0;
        while i < self.tokenized.len()
            invariant
                i <= self.tokenized@.len(),
                words@.len() == i,
                forall|j: int| 0 <= j < i ==> words@[j]@ == self@.tokenized[j].token,
            decreases self.tokenized@.len() - i,
        {
            words.push(self.tokenized[i].token.clone());
            i = i + 1;
        }
        proof {
            assert(str_views(words@) =~= tok_words(self@.tokenized));
        }
        join_trim(&words)
    }

    /// The unrecognized token texts joined by single spaces.
    pub fn tokenless_string(&self) -> (r: String)
        ensures
            r@ == name_tokless_str(self@),
    {
        let mut words: Vec<String> = Vec::new();
        proof {
            assert(self@.tokenized.skip(0) =~= self@.tokenized);
            assert(str_views(words@) + tokless_words(self@.tokenized) =~= tokless_words(
                self@.tokenized,
            ));
        }
        let mut i: usize = 0;
        while i < self.tokenized.len()
            invariant
                i <= self.tokenized@.len(),
                self@.tokenized.len() == self.tokenized@.len(),
                tokless_words(self@.tokenized) == str_views(words@) + tokless_words(
                    self@.tokenized.skip(i as int),
                ),
            decreases self.tokenized@.len() - i,
        {
            proof {
                assert(self@.tokenized.skip(i as int)[0] == self@.tokenized[i as int]);
                assert(self@.tokenized.skip(i as int).drop_first() =~= self@.tokenized.skip(i + 1));
            }
            let t = &self.tokenized[i];
            if t.token_type.is_none() {
                let ghost prev = str_views(words@);
                words.push(t.token.clone());
                proof {
                    assert(str_views(words@) =~= prev.push(self@.tokenized[i as int].token));
                    assert(prev + (seq![self@.tokenized[i as int].token] + tokless_words(
                        self@.tokenized.skip(i + 1),
                    )) =~= str_views(words@) + tokless_words(self@.tokenized.skip(i + 1)));
                }
            }
            i = i + 1;
        }
        proof {
            assert(self@.tokenized.skip(self@.tokenized.len() as int) =~= Seq::<
                TokenizedView,
            >::empty());
            assert(str_views(words@) + tokless_words(
                self@.tokenized.skip(self@.tokenized.len() as int),
            ) =~= str_views(words@));
        }
        join_trim(&words)
    }

    /// Whether any token of the name carries the given role.
    pub fn has_type(&self, token_type: Option<TokenType>) -> (r: bool)
        ensures
            r == exists|i: int|
                0 <= i < self@.tokenized.len() && self@.tokenized[i].token_type == token_type,
    {
        let mut i: usize = 0;
        while i < self.tokenized.len()
            invariant
                i <= self.tokenized@.len(),
                forall|j: int| 0 <= j < i ==> self@.tokenized[j].token_type != token_type,
            decreases self.tokenized@.len() - i,
        {
            let t = &self.tokenized[i];
            let same = match (&t.token_type, &token_type) {
                (Some(a), Some(b)) => *a == *b,
                (None, None) => true,
                _ => false,
            };
            if same {
                assert(self@.tokenized[i as int].token_type == token_type);
                return true;
            }
            i = i + 1;
        }
        false
    }
}


/// The keys (tokenized strings) a dedupe pass has already seen.
pub open spec fn seen_set(s: Seq<String>) -> Set<Seq<char>> {
    Set::new(|k: Seq<char>| exists|i: int| 0 <= i < s.len() && s[i]@ == k)
}

/// Deduplication by tokenized string, keeping the earliest entry: names
/// whose key is in `seen` or repeats an earlier key are dropped.
pub open spec fn dedupe_rec(s: Seq<NameView>, seen: Set<Seq<char>>) -> Seq<NameView>
    decreases s.len(),
{
    if s.len() == 0 {
        Seq::empty()
    } else if seen.contains(name_tok_str(s[0])) {
        dedupe_rec(s.drop_first(), seen)
    } else {
        seq![s[0]] + dedupe_rec(s.drop_first(), seen.insert(name_tok_str(s[0])))
    }
}

pub open spec fn dedupe_views(s: Seq<NameView>) -> Seq<NameView> {
    dedupe_rec(s, Set::empty())
}

proof fn lemma_dedupe_rec_len(s: Seq<NameView>, seen: Set<Seq<char>>)
    ensures
        dedupe_rec(s, seen).len() <= s.len(),
    decreases s.len(),
{
    if s.len() == 0 {
    } else if seen.contains(name_tok_str(s[0])) {
        lemma_dedupe_rec_len(s.drop_first(), seen);
    } else {
        lemma_dedupe_rec_len(s.drop_first(), seen.insert(name_tok_str(s[0])));
    }
}

proof fn lemma_dedupe_rec_idem(s: Seq<NameView>, seen: Set<Seq<char>>)
    ensures
        dedupe_rec(dedupe_rec(s, seen), seen) == dedupe_rec(s, seen),
    decreases s.len(),
{
    if s.len() == 0 {
    } else {
        let k = name_tok_str(s[0]);
        if seen.contains(k) {
            lemma_dedupe_rec_idem(s.drop_first(), seen);
        } else {
            let d = dedupe_rec(s.drop_first(), seen.insert(k));
            lemma_dedupe_rec_idem(s.drop_first(), seen.insert(k));
            assert((seq![s[0]] + d).len() > 0);
            assert((seq![s[0]] + d)[0] == s[0]);
            assert((seq![s[0]] + d).drop_first() =~= d);
        }
    }
}

/// Law: deduplication applied twice yields what one application yields, and
/// a deduplicated collection is never longer than the original.
pub proof fn lemma_dedupe_idempotent(s: Seq<NameView>)
    ensures
        dedupe_views(dedupe_views(s)) == dedupe_views(s),
        dedupe_views(s).len() <= s.len(),
{
    lemma_dedupe_rec_idem(s, Set::empty());
    lemma_dedupe_rec_len(s, Set::empty());
}

/// Ordered by priority, highest first.
pub open spec fn sorted_by_priority(s: Seq<NameView>) -> bool {
    forall|i: int, j: int| 0 <= i < j < s.len() ==> s[i].priority >= s[j].priority
}

proof fn lemma_seen_push(s: Seq<String>, x: String)
    ensures
        seen_set(s.push(x)) =~= seen_set(s).insert(x@),
{
    assert forall|k: Seq<char>| #[trigger] seen_set(s.push(x)).contains(k) implies seen_set(
        s,
    ).insert(x@).contains(k) by {
        let i = choose|i: int| 0 <= i < s.push(x).len() && s.push(x)[i]@ == k;
        if i < s.len() {
            assert(s[i]@ == k);
        } else {
            assert(s.push(x)[i] == x);
        }
    }
    assert forall|k: Seq<char>| seen_set(s).insert(x@).contains(k) implies #[trigger] seen_set(
        s.push(x),
    ).contains(k) by {
        if seen_set(s).contains(k) {
            let i = choose|i: int| 0 <= i < s.len() && s[i]@ == k;
            assert(s.push(x)[i]@ == k);
        } else {
            assert(s.push(x)[s.len() as int]@ == k);
        }
    }
}

fn seen_contains(seen: &Vec<String>, key: &String) -> (r: bool)
    ensures
        r == seen_set(seen@).contains(key@),
{
    let mut i: usize = 0;
    while i < seen.len()
        invariant
            i <= seen@.len(),
            forall|j: int| 0 <= j < i ==> seen@[j]@ != key@,
        decreases seen@.len() - i,
    {
        if str_eq(seen[i].as_str(), key.as_str()) {
            assert(seen@[i as int]@ == key@);
            return true;
        }
        i = i + 1;
    }
    false
}

/// The prioritized collection of name variants kept for one feature:
/// original names first, generated synonyms after them.
#[derive(Debug, PartialEq)]
pub struct Names {
    pub names: Vec<Name>,
}

impl View for Names {
    type V = Seq<NameView>;

    open spec fn view(&self) -> Seq<NameView> {
        name_views(self.names@)
    }
}

impl Names {
    /// Drop every name whose tokenized string repeats that of an earlier
    /// name, keeping the earliest entry of each key.
    pub fn dedupe(&mut self)
        ensures
            final(self)@ == dedupe_views(old(self)@),
    {
        let ghost orig = name_views(self.names@);
        let mut result: Vec<Name> = Vec::new();
        let mut seen: Vec<String> = Vec::new();
        proof {
            assert(seen_set(seen@) =~= Set::<Seq<char>>::empty());
            assert(name_views(result@) + dedupe_rec(name_views(self.names@), seen_set(seen@))
                =~= dedupe_rec(name_views(self.names@), seen_set(seen@)));
        }
        while self.names.len() > 0
            invariant
                dedupe_views(orig) == name_views(result@) + dedupe_rec(
                    name_views(self.names@),
                    seen_set(seen@),
                ),
            decreases self.names@.len(),
        {
            let ghost prev = name_views(self.names@);
            let x = self.names.remove(0);
            proof {
                assert(name_views(self.names@) =~= prev.drop_first());
                assert(prev[0] == x@);
            }
            let key = x.tokenized_string();
            if !seen_contains(&seen, &key) {
                let ghost pseen = seen_set(seen@);
                let ghost pres = name_views(result@);
                let ghost pseenv = seen@;
                let ghost keyv = key;
                seen.push(key);
                result.push(x);
                proof {
                    lemma_seen_push(pseenv, keyv);
                    assert(seen_set(seen@) =~= pseen.insert(name_tok_str(prev[0])));
                    assert(name_views(result@) =~= pres.push(prev[0]));
                    assert(pres + (seq![prev[0]] + dedupe_rec(
                        prev.drop_first(),
                        pseen.insert(name_tok_str(prev[0])),
                    )) =~= name_views(result@) + dedupe_rec(
                        prev.drop_first(),
                        pseen.insert(name_tok_str(prev[0])),
                    ));
                }
            }
        }
        proof {
            assert(name_views(self.names@) =~= Seq::<NameView>::empty());
            assert(name_views(result@) + dedupe_rec(name_views(self.names@), seen_set(seen@))
                =~= name_views(result@));
        }
        self.names = result;
    }

    /// Append another collection's names and deduplicate the whole.
    pub fn concat(&mut self, new_names: Names)
        ensures
            final(self)@ == dedupe_views(old(self)@ + new_names@),
    {
        let ghost all = name_views(self.names@) + name_views(new_names.names@);
        let mut other = new_names.names;
        while other.len() > 0
            invariant
                name_views(self.names@) + name_views(other@) == all,
            decreases other@.len(),
        {
            let ghost pself = name_views(self.names@);
            let ghost pother = name_views(other@);
            let x = other.remove(0);
            self.names.push(x);
            proof {
                assert(name_views(other@) =~= pother.drop_first());
                assert(name_views(self.names@) =~= pself.push(pother[0]));
                assert(pself.push(pother[0]) + pother.drop_first() =~= pself + pother);
            }
        }
        proof {
            assert(name_views(other@) =~= Seq::<NameView>::empty());
            assert(name_views(self.names@) + name_views(other@) =~= name_views(self.names@));
        }
        self.dedupe();
    }

    /// Reorder the names by priority, highest first. The collection after
    /// the call holds the same names (as a multiset) in sorted order.
    pub fn sort(&mut self)
        ensures
            sorted_by_priority(final(self)@),
            final(self)@.to_multiset() == old(self)@.to_multiset(),
    {
        broadcast use vstd::seq_lib::group_to_multiset_ensures;
        broadcast use vstd::multiset::group_multiset_axioms;

        let ghost orig = name_views(self.names@);
        let mut out: Vec<Name> = Vec::new();
        proof {
            assert(name_views(out@) =~= Seq::<NameView>::empty());
            assert forall|a: NameView| name_views(out@).to_multiset().count(a) == 0 by {
                assert(!name_views(out@).contains(a));
            }
            assert(name_views(out@).to_multiset().add(name_views(self.names@).to_multiset())
                =~= orig.to_multiset());
        }
        while self.names.len() > 0
            invariant
                name_views(out@).to_multiset().add(name_views(self.names@).to_multiset())
                    == orig.to_multiset(),
                sorted_by_priority(name_views(out@)),
                forall|i: int, j: int|
                    0 <= i < out@.len() && 0 <= j < self.names@.len()
                        ==> name_views(out@)[i].priority >= name_views(self.names@)[j].priority,
            decreases self.names@.len(),
        {
            let mut best: usize = 0;
            let mut bi: usize = 1;
            while bi < self.names.len()
                invariant
                    best < bi <= self.names@.len(),
                    self.names@.len() > 0,
                    forall|k: int|
                        0 <= k < bi ==> name_views(self.names@)[k].priority <= name_views(
                            self.names@,
                        )[best as int].priority,
                decreases self.names@.len() - bi,
            {
                if self.names[bi].priority > self.names[best].priority {
                    best = bi;
                }
                bi = bi + 1;
            }
            let ghost prev = name_views(self.names@);
            let ghost pout = name_views(out@);
            let x = self.names.remove(best);
            out.push(x);
            proof {
                pout.to_multiset_ensures();
                prev.to_multiset_ensures();
                assert(name_views(self.names@) =~= prev.remove(best as int));
                assert(prev[best as int] == x@);
                assert(name_views(out@) =~= pout.push(x@));
                assert(prev.to_multiset().contains(x@)) by {
                    assert(prev.contains(x@));
                }
                assert(pout.push(x@).to_multiset() == pout.to_multiset().insert(x@));
                assert(name_views(out@).to_multiset() =~= pout.to_multiset().insert(x@));
                assert(prev.remove(best as int).to_multiset() == prev.to_multiset().remove(
                    prev[best as int],
                ));
                assert(name_views(self.names@).to_multiset() =~= prev.to_multiset().remove(x@));
                assert(pout.to_multiset().insert(x@).add(prev.to_multiset().remove(x@))
                    =~= pout.to_multiset().add(prev.to_multiset()));
            }
        }
        proof {
            assert(name_views(self.names@) =~= Seq::<NameView>::empty());
            assert(name_views(out@).to_multiset().add(name_views(self.names@).to_multiset())
                =~= name_views(out@).to_multiset());
        }
        self.names = out;
    }

    /// Rewrite the provenance tag of every name in the collection.
    pub fn set_source(&mut self, source: String)
        ensures
            final(self)@.len() == old(self)@.len(),
            forall|i: int|
                0 <= i < old(self)@.len() ==> final(self)@[i] == (NameView {
                    display: old(self)@[i].display,
                    priority: old(self)@[i].priority,
                    source: source@,
                    tokenized: old(self)@[i].tokenized,
                    freq: old(self)@[i].freq,
                }),
    {
        let ghost orig = name_views(self.names@);
        let mut result: Vec<Name> = Vec::new();
        while self.names.len() > 0
            invariant
                name_views(self.names@) =~= orig.skip(result@.len() as int),
                result@.len() <= orig.len(),
                forall|i: int|
                    0 <= i < result@.len() ==> name_views(result@)[i] == (NameView {
                        display: orig[i].display,
                        priority: orig[i].priority,
                        source: source@,
                        tokenized: orig[i].tokenized,
                        freq: orig[i].freq,
                    }),
            decreases self.names@.len(),
        {
            let ghost prev = name_views(self.names@);
            let ghost j = result@.len() as int;
            let ghost pres = name_views(result@);
            let x = self.names.remove(0);
            proof {
                assert(name_views(self.names@) =~= prev.drop_first());
                assert(prev[0] == x@);
                assert(prev[0] == orig[j]);
                assert(prev.drop_first() =~= orig.skip(j + 1));
            }
            result.push(
                Name {
                    display: x.display,
                    priority: x.priority,
                    source: source.clone(),
                    tokenized: x.tokenized,
                    freq: x.freq,
                },
            );
            proof {
                assert(name_views(result@) =~= pres.push(
                    NameView {
                        display: orig[j].display,
                        priority: orig[j].priority,
                        source: source@,
                        tokenized: orig[j].tokenized,
                        freq: orig[j].freq,
                    },
                ));
            }
        }
        proof {
            assert(orig.skip(result@.len() as int).len() == 0);
            assert(result@.len() == orig.len());
        }
        self.names = result;
    }
}

/// The reduced form of a name used at the serialization boundary: the
/// display string and its priority.
#[derive(Debug, PartialEq)]
pub struct InputName {
    /// Street name.
    pub display: String,
    /// When choosing which street name is primary, order by priority.
    pub priority: i8,
}

impl From<Name> for InputName {
    fn from(name: Name) -> (r: InputName) {
        InputName { display: name.display, priority: name.priority }
    }
}

impl vstd::std_specs::convert::FromSpecImpl<Name> for InputName {
    open spec fn obeys_from_spec() -> bool {
        true
    }

    open spec fn from_spec(name: Name) -> InputName {
        InputName { display: name.display, priority: name.priority }
    }
}

} // verus!
