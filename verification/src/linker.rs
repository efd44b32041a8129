//! The linker: scores one candidate feature's name-set against the
//! name-sets of geometrically proximate persisted features and returns at
//! most one sufficiently confident match.
//!
//! Scores live on a 0 to 100 scale and are computed as exact rationals; a
//! match is accepted when the best score strictly exceeds 70, and the
//! returned score is rounded to hundredths of a point (so a score of
//! `8571` stands for 85.71).

use vstd::prelude::*;
use crate::name::{Name, NameView, Names, name_tok_str, name_tokless_str, tok_words};
use crate::distance::{distance, edit_distance, lemma_edit_distance_bound};
use crate::synonyms::{first_numbered, first_routish, is_numbered, is_routish};
use crate::chars::{str_chars, string_from_chars, str_eq};

verus! {

/// The longest tokenized or tokenless string (in characters) a name handed
/// to the linker may have: the bound that keeps the exact rational score
/// arithmetic inside 64-bit integers.
pub const MAX_LINK_NAME_LEN: usize = 4096;

/// A candidate record being compared: an opaque identifier and its names.
pub struct Link<'a> {
    pub id: i64,
    pub names: &'a Names,
}

pub struct LinkView {
    pub id: i64,
    pub names: Seq<NameView>,
}

impl<'a> View for Link<'a> {
    type V = LinkView;

    open spec fn view(&self) -> LinkView {
        LinkView { id: self.id, names: self.names@ }
    }
}

impl<'a> Link<'a> {
    pub fn new(id: i64, names: &'a Names) -> (r: Link<'a>)
        ensures
            r@.id == id,
            r@.names == names@,
    {
        Link { id, names }
    }
}

/// An accepted match: the winning candidate's identifier and its score in
/// hundredths of a point on the 0 to 100 scale.
#[derive(Debug, PartialEq, Eq, Structural, Clone, Copy)]
pub struct LinkResult {
    pub id: i64,
    pub score: u32,
}

impl LinkResult {
    pub fn new(id: i64, score: u32) -> (r: LinkResult)
        ensures
            r == (LinkResult { id, score }),
    {
        LinkResult { id, score }
    }
}

pub open spec fn link_views<'a>(s: Seq<Link<'a>>) -> Seq<LinkView> {
    s.map_values(|l: Link<'a>| l@)
}

/// An exact rational number; scores keep `den > 0`.
pub struct Frac {
    pub num: int,
    pub den: int,
}

pub open spec fn frac_lt(a: Frac, b: Frac) -> bool {
    a.num * b.den < b.num * a.den
}

/// Every name short enough for exact score arithmetic.
pub open spec fn bounded_name(n: NameView) -> bool {
    name_tok_str(n).len() <= MAX_LINK_NAME_LEN && name_tokless_str(n).len() <= MAX_LINK_NAME_LEN
}

pub open spec fn bounded_names(s: Seq<NameView>) -> bool {
    forall|i: int| 0 <= i < s.len() ==> bounded_name(s[i])
}

// ---------------------------------------------------------------------------
// Exact-match phase
// ---------------------------------------------------------------------------

/// Some name of the candidate has exactly this tokenized string.
pub open spec fn cand_has_exact(pt: Seq<char>, cns: Seq<NameView>) -> bool {
    exists|j: int| 0 <= j < cns.len() && name_tok_str(cns[j]) == pt
}

/// The first candidate one of whose names has exactly this tokenized
/// string.
pub open spec fn first_exact_for(pt: Seq<char>, cands: Seq<LinkView>) -> Option<int>
    decreases cands.len(),
{
    if cands.len() == 0 {
        None
    } else if cand_has_exact(pt, cands[0].names) {
        Some(0int)
    } else {
        match first_exact_for(pt, cands.drop_first()) {
            Some(j) => Some(j + 1),
            None => None,
        }
    }
}

/// The candidate the exact-match phase returns: for each primary name in
/// order, the first candidate with a name of the same tokenized string.
pub open spec fn exact_search(pns: Seq<NameView>, cands: Seq<LinkView>) -> Option<int>
    decreases pns.len(),
{
    if pns.len() == 0 {
        None
    } else {
        match first_exact_for(name_tok_str(pns[0]), cands) {
            Some(ci) => Some(ci),
            None => exact_search(pns.drop_first(), cands),
        }
    }
}

proof fn lemma_first_exact_some(pt: Seq<char>, cands: Seq<LinkView>, ci: int)
    requires
        0 <= ci < cands.len(),
        forall|j: int| 0 <= j < ci ==> !cand_has_exact(pt, cands[j].names),
        cand_has_exact(pt, cands[ci].names),
    ensures
        first_exact_for(pt, cands) == Some(ci),
    decreases ci,
{
    if ci == 0 {
    } else {
        assert(!cand_has_exact(pt, cands[0].names));
        assert(forall|j: int|
            0 <= j < ci - 1 ==> cands.drop_first()[j] == cands[j + 1]
                && !cand_has_exact(pt, cands.drop_first()[j].names));
        assert(cands.drop_first()[ci - 1] == cands[ci as int]);
        lemma_first_exact_some(pt, cands.drop_first(), ci - 1);
    }
}

proof fn lemma_first_exact_none(pt: Seq<char>, cands: Seq<LinkView>)
    requires
        forall|j: int| 0 <= j < cands.len() ==> !cand_has_exact(pt, cands[j].names),
    ensures
        first_exact_for(pt, cands) is None,
    decreases cands.len(),
{
    if cands.len() > 0 {
        assert(forall|j: int|
            0 <= j < cands.len() - 1 ==> cands.drop_first()[j] == cands[j + 1]
                && !cand_has_exact(pt, cands.drop_first()[j].names));
        lemma_first_exact_none(pt, cands.drop_first());
    }
}

// ---------------------------------------------------------------------------
// Scoring
// ---------------------------------------------------------------------------

/// First space at or after `i`, or the length when there is none.
pub open spec fn find_sp(s: Seq<char>, i: int) -> int
    decreases s.len() - i,
{
    if i < 0 {
        0
    } else if i >= s.len() {
        s.len() as int
    } else if s[i] == ' ' {
        i
    } else {
        find_sp(s, i + 1)
    }
}

/// The pieces of `s` from `pos` on, split at every single space (adjacent
/// spaces yield empty pieces, and an empty text yields one empty piece).
pub open spec fn split_from(s: Seq<char>, pos: int) -> Seq<Seq<char>>
    decreases s.len() - pos,
{
    let j0 = find_sp(s, pos);
    let j: int = if j0 < pos || j0 > s.len() {
        s.len() as int
    } else {
        j0
    };
    if pos < 0 || pos > s.len() || j >= s.len() {
        seq![s.subrange(if 0 <= pos <= s.len() {
            pos
        } else {
            0
        }, s.len() as int)]
    } else {
        seq![s.subrange(pos, j)] + split_from(s, j + 1)
    }
}

pub open spec fn split_sp(s: Seq<char>) -> Seq<Seq<char>> {
    split_from(s, 0)
}

/// Drop the first occurrence of `x`, if there is one.
pub open spec fn remove_first(ts: Seq<Seq<char>>, x: Seq<char>) -> Option<Seq<Seq<char>>>
    decreases ts.len(),
{
    if ts.len() == 0 {
        None
    } else if ts[0] == x {
        Some(ts.drop_first())
    } else {
        match remove_first(ts.drop_first(), x) {
            Some(r) => Some(seq![ts[0]] + r),
            None => None,
        }
    }
}

/// How many tokens of `atoks` match tokens of `ntoks`, each match using up
/// the matched token.
pub open spec fn overlap_count(atoks: Seq<Seq<char>>, ntoks: Seq<Seq<char>>) -> int
    decreases atoks.len(),
{
    if atoks.len() == 0 {
        0
    } else {
        match remove_first(ntoks, atoks[0]) {
            Some(r) => 1 + overlap_count(atoks.drop_first(), r),
            None => overlap_count(atoks.drop_first(), ntoks),
        }
    }
}

/// The pair is not scored: the tokenless forms are both present but start
/// with different characters, or the primary name is a numbered street or
/// a route number and the candidate name disagrees.
pub open spec fn pair_skipped(a: NameView, b: NameView) -> bool {
    let atl = name_tokless_str(a);
    let btl = name_tokless_str(b);
    (atl.len() > 0 && btl.len() > 0 && atl[0] != btl[0]) || (first_numbered(
        tok_words(a.tokenized),
    ) is Some && first_numbered(tok_words(a.tokenized)) != first_numbered(tok_words(b.tokenized)))
        || (first_routish(tok_words(a.tokenized)) is Some && first_routish(tok_words(a.tokenized))
        != first_routish(tok_words(b.tokenized)))
}

/// The raw distance of a scored pair: the weighted average of the tokenized
/// and tokenless edit distances when both tokenless forms are present; the
/// plain tokenized edit distance when only one is; and, when neither is,
/// one minus the token-overlap ratio if that ratio exceeds 0.66, else again
/// the plain tokenized edit distance.
pub open spec fn pair_raw(a: NameView, b: NameView) -> Frac {
    let atk = name_tok_str(a);
    let btk = name_tok_str(b);
    let atl = name_tokless_str(a);
    let btl = name_tokless_str(b);
    if atl.len() > 0 && btl.len() > 0 {
        Frac {
            num: edit_distance(atk, btk) as int + 3 * edit_distance(atl, btl) as int,
            den: 4,
        }
    } else if atl.len() > 0 || btl.len() > 0 {
        Frac { num: edit_distance(atk, btk) as int, den: 1 }
    } else {
        let ntoks = split_sp(btk);
        let atoks = split_sp(atk);
        let overlap = overlap_count(atoks, ntoks);
        if 50 * overlap > 33 * ntoks.len() {
            Frac { num: ntoks.len() - overlap, den: ntoks.len() as int }
        } else {
            Frac { num: edit_distance(atk, btk) as int, den: 1 }
        }
    }
}

/// The score of a scored pair on the 0 to 100 scale:
/// `100 - 200 * raw / (|candidate tokenized| + |primary tokenized|)`.
pub open spec fn pair_score(a: NameView, b: NameView) -> Frac {
    let l = name_tok_str(a).len() + name_tok_str(b).len();
    let rw = pair_raw(a, b);
    Frac { num: 100 * l * rw.den - 200 * rw.num, den: l * rw.den }
}

/// One scoring step: a candidate's running best is replaced by a pair's
/// score when the pair is scored and scores strictly higher.
pub open spec fn step_score(p: NameView, c: NameView, acc: Frac) -> Frac {
    if !pair_skipped(p, c) && frac_lt(acc, pair_score(p, c)) {
        pair_score(p, c)
    } else {
        acc
    }
}

pub open spec fn fold_names(p: NameView, cns: Seq<NameView>, acc: Frac) -> Frac
    decreases cns.len(),
{
    if cns.len() == 0 {
        acc
    } else {
        fold_names(p, cns.drop_first(), step_score(p, cns[0], acc))
    }
}

pub open spec fn fold_primary(pns: Seq<NameView>, cns: Seq<NameView>, acc: Frac) -> Frac
    decreases pns.len(),
{
    if pns.len() == 0 {
        acc
    } else {
        fold_primary(pns.drop_first(), cns, fold_names(pns[0], cns, acc))
    }
}

/// A candidate's score: the best score any of its names achieves against
/// any of the primary's names, starting from zero.
pub open spec fn cand_score(pns: Seq<NameView>, cns: Seq<NameView>) -> Frac {
    fold_primary(pns, cns, Frac { num: 0, den: 1 })
}

/// Pick the best-scoring candidate, the earliest on ties: candidate `i` and
/// later are still to be folded into the running best `(bi, bs)`.
pub open spec fn select_from(
    cands: Seq<LinkView>,
    pns: Seq<NameView>,
    i: int,
    bi: int,
    bs: Frac,
) -> (int, Frac)
    decreases cands.len() - i,
{
    if i < 0 || i >= cands.len() {
        (bi, bs)
    } else {
        let s = cand_score(pns, cands[i].names);
        if frac_lt(bs, s) {
            select_from(cands, pns, i + 1, i, s)
        } else {
            select_from(cands, pns, i + 1, bi, bs)
        }
    }
}

/// The selected candidate and score of a nonempty candidate list.
pub open spec fn selection(cands: Seq<LinkView>, pns: Seq<NameView>) -> (int, Frac) {
    select_from(cands, pns, 1, 0, cand_score(pns, cands[0].names))
}

/// A score rounded to hundredths of a point, half away from zero.
pub open spec fn round_hundredths(f: Frac) -> int {
    (200 * f.num + f.den) / (2 * f.den)
}

/// What the linker returns. With an exact tokenized-string match the first
/// such candidate wins outright with score 100. Otherwise the best-scoring
/// candidate wins if its score strictly exceeds 70, and no one wins
/// otherwise (in particular with no candidates at all).
pub open spec fn linker_spec(pns: Seq<NameView>, cands: Seq<LinkView>) -> Option<LinkResult> {
    match exact_search(pns, cands) {
        Some(ci) => Some(LinkResult { id: cands[ci].id, score: 10000 }),
        None => if cands.len() == 0 {
            None
        } else {
            let (bi, bs) = selection(cands, pns);
            if bs.num > 70 * bs.den {
                Some(LinkResult { id: cands[bi].id, score: round_hundredths(bs) as u32 })
            } else {
                None
            }
        },
    }
}


// ---------------------------------------------------------------------------
// Supporting lemmas
// ---------------------------------------------------------------------------

proof fn lemma_split_count(s: Seq<char>, pos: int)
    requires
        0 <= pos <= s.len(),
    ensures
        1 <= split_from(s, pos).len() <= s.len() - pos + 1,
    decreases s.len() - pos,
{
    lemma_find_sp(s, pos);
    let j = find_sp(s, pos);
    if j < s.len() {
        lemma_split_count(s, j + 1);
    }
}

proof fn lemma_find_sp(s: Seq<char>, i: int)
    requires
        0 <= i <= s.len(),
    ensures
        i <= find_sp(s, i) <= s.len(),
    decreases s.len() - i,
{
    if i < s.len() && s[i] != ' ' {
        lemma_find_sp(s, i + 1);
    }
}

proof fn lemma_remove_first_len(ts: Seq<Seq<char>>, x: Seq<char>)
    ensures
        match remove_first(ts, x) {
            Some(r) => r.len() == ts.len() - 1,
            None => true,
        },
    decreases ts.len(),
{
    if ts.len() > 0 && ts[0] != x {
        lemma_remove_first_len(ts.drop_first(), x);
    }
}

proof fn lemma_overlap_bound(atoks: Seq<Seq<char>>, ntoks: Seq<Seq<char>>)
    ensures
        0 <= overlap_count(atoks, ntoks) <= ntoks.len(),
    decreases atoks.len(),
{
    if atoks.len() > 0 {
        lemma_remove_first_len(ntoks, atoks[0]);
        match remove_first(ntoks, atoks[0]) {
            Some(r) => {
                lemma_overlap_bound(atoks.drop_first(), r);
            },
            None => {
                lemma_overlap_bound(atoks.drop_first(), ntoks);
            },
        }
    }
}

proof fn lemma_remove_first_at(ts: Seq<Seq<char>>, x: Seq<char>, j: int)
    requires
        0 <= j < ts.len(),
        forall|k: int| 0 <= k < j ==> ts[k] != x,
        ts[j] == x,
    ensures
        remove_first(ts, x) == Some(ts.remove(j)),
    decreases j,
{
    if j == 0 {
        assert(ts.remove(0) =~= ts.drop_first());
    } else {
        assert(forall|k: int|
            0 <= k < j - 1 ==> ts.drop_first()[k] == ts[k + 1] && ts.drop_first()[k] != x);
        assert(ts.drop_first()[j - 1] == ts[j as int]);
        lemma_remove_first_at(ts.drop_first(), x, j - 1);
        assert(seq![ts[0]] + ts.drop_first().remove(j - 1) =~= ts.remove(j));
    }
}

proof fn lemma_remove_first_none(ts: Seq<Seq<char>>, x: Seq<char>)
    requires
        forall|k: int| 0 <= k < ts.len() ==> ts[k] != x,
    ensures
        remove_first(ts, x) is None,
    decreases ts.len(),
{
    if ts.len() > 0 {
        assert(forall|k: int|
            0 <= k < ts.len() - 1 ==> ts.drop_first()[k] == ts[k + 1] && ts.drop_first()[k] != x);
        lemma_remove_first_none(ts.drop_first(), x);
    }
}

/// The raw distance of a bounded pair is small and has a positive
/// denominator.
proof fn lemma_raw_wf(a: NameView, b: NameView)
    requires
        bounded_name(a),
        bounded_name(b),
    ensures
        0 <= pair_raw(a, b).num <= 40000,
        1 <= pair_raw(a, b).den <= 4097,
{
    let atk = name_tok_str(a);
    let btk = name_tok_str(b);
    let atl = name_tokless_str(a);
    let btl = name_tokless_str(b);
    lemma_edit_distance_bound(atk, btk);
    lemma_edit_distance_bound(atl, btl);
    if !(atl.len() > 0 && btl.len() > 0) && !(atl.len() > 0 || btl.len() > 0) {
        lemma_split_count(btk, 0);
        lemma_overlap_bound(split_sp(atk), split_sp(btk));
    }
}

// ---------------------------------------------------------------------------
// Executable scoring
// ---------------------------------------------------------------------------

fn exec_find_sp(v: &Vec<char>, i: usize) -> (r: usize)
    requires
        i <= v@.len(),
    ensures
        r == find_sp(v@, i as int),
        i <= r <= v@.len(),
    decreases v@.len() - i,
{
    if i >= v.len() {
        v.len()
    } else if v[i] == ' ' {
        i
    } else {
        exec_find_sp(v, i + 1)
    }
}

/// Split at every single space; adjacent spaces yield empty pieces, so the
/// piece count is one more than the space count.
fn split_space(v: &Vec<char>, pos: usize) -> (r: Vec<String>)
    requires
        pos <= v@.len(),
    ensures
        crate::tokens::str_views(r@) == split_from(v@, pos as int),
    decreases v@.len() - pos,
{
    let j = exec_find_sp(v, pos);
    let mut piece: Vec<char> = Vec::new();
    push_range_l(&mut piece, v, pos, j);
    let w = string_from_chars(&piece);
    if j >= v.len() {
        let mut r: Vec<String> = Vec::new();
        r.push(w);
        proof {
            assert(crate::tokens::str_views(r@) =~= split_from(v@, pos as int));
        }
        r
    } else {
        let mut rest = split_space(v, j + 1);
        rest.insert(0, w);
        proof {
            assert(rest@ =~= seq![w].add(rest@.drop_first()));
            assert(crate::tokens::str_views(rest@) =~= split_from(v@, pos as int));
        }
        rest
    }
}

fn push_range_l(out: &mut Vec<char>, v: &Vec<char>, from: usize, to: usize)
    requires
        from <= to <= v@.len(),
    ensures
        final(out)@ == old(out)@ + v@.subrange(from as int, to as int),
{
    let mut i: usize = from;
    proof {
        assert(old(out)@ + v@.subrange(from as int, from as int) =~= old(out)@);
    }
    while i < to
        invariant
            from <= i <= to <= v@.len(),
            out@ == old(out)@ + v@.subrange(from as int, i as int),
        decreases to - i,
    {
        let ghost prev = out@;
        out.push(v[i]);
        proof {
            assert(old(out)@ + v@.subrange(from as int, i + 1) =~= prev.push(v@[i as int]));
        }
        i = i + 1;
    }
}

/// Remove the first token equal to `x`, reporting whether one was found.
fn find_remove(ntoks: &mut Vec<String>, x: &String) -> (r: bool)
    ensures
        r ==> remove_first(crate::tokens::str_views(old(ntoks)@), x@) == Some(
            crate::tokens::str_views(final(ntoks)@),
        ),
        !r ==> remove_first(crate::tokens::str_views(old(ntoks)@), x@) is None && final(ntoks)@
            == old(ntoks)@,
{
    let ghost tsv = crate::tokens::str_views(ntoks@);
    let mut i: usize = 0;
    while i < ntoks.len()
        invariant
            i <= ntoks@.len(),
            ntoks@ == old(ntoks)@,
            tsv == crate::tokens::str_views(ntoks@),
            forall|k: int| 0 <= k < i ==> tsv[k] != x@,
        decreases ntoks@.len() - i,
    {
        if str_eq(ntoks[i].as_str(), x.as_str()) {
            proof {
                assert(tsv[i as int] == x@);
                lemma_remove_first_at(tsv, x@, i as int);
            }
            ntoks.remove(i);
            proof {
                assert(crate::tokens::str_views(ntoks@) =~= tsv.remove(i as int));
            }
            return true;
        }
        i = i + 1;
    }
    proof {
        lemma_remove_first_none(tsv, x@);
    }
    false
}

fn overlap_exec(atoks: &Vec<String>, ntoks: Vec<String>) -> (r: usize)
    requires
        ntoks@.len() <= 0x1000_0000,
    ensures
        r == overlap_count(
            crate::tokens::str_views(atoks@),
            crate::tokens::str_views(ntoks@),
        ),
{
    let ghost av = crate::tokens::str_views(atoks@);
    let ghost nv0 = crate::tokens::str_views(ntoks@);
    let mut cur = ntoks;
    let mut cnt: usize = 0;
    let mut i: usize = 0;
    proof {
        assert(av.skip(0) =~= av);
    }
    while i < atoks.len()
        invariant
            i <= atoks@.len(),
            av == crate::tokens::str_views(atoks@),
            nv0.len() <= 0x1000_0000,
            cnt + cur@.len() <= nv0.len(),
            overlap_count(av, nv0) == cnt + overlap_count(
                av.skip(i as int),
                crate::tokens::str_views(cur@),
            ),
        decreases atoks@.len() - i,
    {
        proof {
            assert(av.skip(i as int)[0] == av[i as int]);
            assert(av[i as int] == atoks@[i as int]@);
            assert(av.skip(i as int).drop_first() =~= av.skip(i + 1));
            lemma_remove_first_len(crate::tokens::str_views(cur@), av[i as int]);
        }
        let found = find_remove(&mut cur, &atoks[i]);
        if found {
            cnt = cnt + 1;
        }
        i = i + 1;
    }
    proof {
        assert(av.skip(av.len() as int) =~= Seq::<Seq<char>>::empty());
    }
    cnt
}

/// Compare the first numbered (or routish) tokens of two names.
fn opt_str_eq(a: &Option<String>, b: &Option<String>) -> (r: bool)
    ensures
        r == (match (a, b) {
            (Some(x), Some(y)) => x@ == y@,
            (None, None) => true,
            _ => false,
        }),
{
    match (a, b) {
        (Some(x), Some(y)) => str_eq(x.as_str(), y.as_str()),
        (None, None) => true,
        _ => false,
    }
}

/// Score one pair of names: nothing when the pair is skipped or its score
/// is not positive (and so can never improve a candidate's running best),
/// else the score as a positive fraction.
fn eval_pair(pn: &Name, cn: &Name) -> (r: Option<(u64, u64)>)
    requires
        bounded_name(pn@),
        bounded_name(cn@),
    ensures
        match r {
            Some((nm, dn)) => !pair_skipped(pn@, cn@) && pair_score(pn@, cn@) == (Frac {
                num: nm as int,
                den: dn as int,
            }) && 0 < nm <= 0x1_0000_0000u64 && 1 <= dn <= 0x400_0000u64 && nm <= 100 * dn,
            None => pair_skipped(pn@, cn@) || pair_score(pn@, cn@).num <= 0,
        },
{
    let atk = pn.tokenized_string();
    let btk = cn.tokenized_string();
    let atl = pn.tokenless_string();
    let btl = cn.tokenless_string();
    let atkc = str_chars(atk.as_str());
    let btkc = str_chars(btk.as_str());
    let atlc = str_chars(atl.as_str());
    let btlc = str_chars(btl.as_str());
    if atlc.len() > 0 && btlc.len() > 0 && atlc[0] != btlc[0] {
        return None;
    }
    let an = is_numbered(pn);
    if an.is_some() {
        let bn = is_numbered(cn);
        if !opt_str_eq(&an, &bn) {
            return None;
        }
    }
    let ar = is_routish(pn);
    if ar.is_some() {
        let br = is_routish(cn);
        if !opt_str_eq(&ar, &br) {
            return None;
        }
    }
    proof {
        assert(!pair_skipped(pn@, cn@));
        lemma_raw_wf(pn@, cn@);
    }
    let l: u64 = atkc.len() as u64 + btkc.len() as u64;
    let (nm_raw, dn_raw): (u64, u64) = if atlc.len() > 0 && btlc.len() > 0 {
        proof {
            lemma_edit_distance_bound(atk@, btk@);
            lemma_edit_distance_bound(atl@, btl@);
        }
        let d1 = distance(atk.as_str(), btk.as_str());
        let d2 = distance(atl.as_str(), btl.as_str());
        ((d1 as u64) + 3 * (d2 as u64), 4u64)
    } else if atlc.len() > 0 || btlc.len() > 0 {
        proof {
            lemma_edit_distance_bound(atk@, btk@);
        }
        let d1 = distance(atk.as_str(), btk.as_str());
        (d1 as u64, 1u64)
    } else {
        let ntoks = split_space(&btkc, 0);
        let atoks = split_space(&atkc, 0);
        proof {
            lemma_split_count(btk@, 0);
            lemma_split_count(atk@, 0);
            lemma_overlap_bound(split_sp(atk@), split_sp(btk@));
        }
        let nlen = ntoks.len();
        let ov = overlap_exec(&atoks, ntoks);
        if 50 * (ov as u64) > 33 * (nlen as u64) {
            ((nlen - ov) as u64, nlen as u64)
        } else {
            proof {
                lemma_edit_distance_bound(atk@, btk@);
            }
            let d1 = distance(atk.as_str(), btk.as_str());
            (d1 as u64, 1u64)
        }
    };
    proof {
        assert(nm_raw as int == pair_raw(pn@, cn@).num);
        assert(dn_raw as int == pair_raw(pn@, cn@).den);
        assert(nm_raw <= 40000);
        assert(1 <= dn_raw <= 4097);
        assert(l <= 8192);
        assert(l * dn_raw <= 8192 * 4097) by (nonlinear_arith)
            requires
                l <= 8192u64,
                dn_raw <= 4097u64,
        ;
        assert(100 * (l * dn_raw) == 100 * l * dn_raw) by (nonlinear_arith);
    }
    if 200 * nm_raw >= 100 * l * dn_raw {
        proof {
            assert(pair_score(pn@, cn@).num <= 0);
        }
        return None;
    }
    Some((100 * l * dn_raw - 200 * nm_raw, l * dn_raw))
}

/// The best score any of the candidate's names achieves against any of the
/// primary's names, as a fraction at most 100.
fn cand_score_exec(pnames: &Vec<Name>, cnames: &Vec<Name>) -> (r: (u64, u64))
    requires
        bounded_names(crate::name::name_views(pnames@)),
        bounded_names(crate::name::name_views(cnames@)),
    ensures
        cand_score(crate::name::name_views(pnames@), crate::name::name_views(cnames@)) == (Frac {
            num: r.0 as int,
            den: r.1 as int,
        }),
        r.0 <= 0x1_0000_0000u64,
        1 <= r.1 <= 0x400_0000u64,
        r.0 <= 100 * r.1,
{
    let ghost pns = crate::name::name_views(pnames@);
    let ghost cns = crate::name::name_views(cnames@);
    let mut num: u64 = 0;
    let mut den: u64 = 1;
    proof {
        assert(pns.skip(0) =~= pns);
    }
    let mut pi: usize = 0;
    while pi < pnames.len()
        invariant
            pi <= pnames@.len(),
            pns == crate::name::name_views(pnames@),
            cns == crate::name::name_views(cnames@),
            bounded_names(pns),
            bounded_names(cns),
            num <= 0x1_0000_0000u64,
            1 <= den <= 0x400_0000u64,
            num <= 100 * den,
            cand_score(pns, cns) == fold_primary(
                pns.skip(pi as int),
                cns,
                Frac { num: num as int, den: den as int },
            ),
        decreases pnames@.len() - pi,
    {
        proof {
            assert(pns.skip(pi as int)[0] == pns[pi as int]);
            assert(pns[pi as int] == pnames@[pi as int]@);
            assert(pns.skip(pi as int).drop_first() =~= pns.skip(pi + 1));
            assert(cns.skip(0) =~= cns);
        }
        let ghost acc0 = Frac { num: num as int, den: den as int };
        let p = &pnames[pi];
        let mut cj: usize = 0;
        while cj < cnames.len()
            invariant
                cj <= cnames@.len(),
                pi < pnames@.len(),
                pns == crate::name::name_views(pnames@),
                cns == crate::name::name_views(cnames@),
                p == &pnames[pi as int],
                bounded_names(pns),
                bounded_names(cns),
                num <= 0x1_0000_0000u64,
                1 <= den <= 0x400_0000u64,
                num <= 100 * den,
                fold_names(pns[pi as int], cns, acc0) == fold_names(
                    pns[pi as int],
                    cns.skip(cj as int),
                    Frac { num: num as int, den: den as int },
                ),
            decreases cnames@.len() - cj,
        {
            proof {
                assert(cns.skip(cj as int)[0] == cns[cj as int]);
                assert(cns[cj as int] == cnames@[cj as int]@);
                assert(cns.skip(cj as int).drop_first() =~= cns.skip(cj + 1));
            }
            let c = &cnames[cj];
            match eval_pair(p, c) {
                Some((snm, sdn)) => {
                    proof {
                        assert(num * sdn <= 0x1_0000_0000u64 * 0x400_0000u64) by (nonlinear_arith)
                            requires
                                num <= 0x1_0000_0000u64,
                                sdn <= 0x400_0000u64,
                        ;
                        assert(snm * den <= 0x1_0000_0000u64 * 0x400_0000u64) by (nonlinear_arith)
                            requires
                                snm <= 0x1_0000_0000u64,
                                den <= 0x400_0000u64,
                        ;
                    }
                    if num * sdn < snm * den {
                        proof {
                            assert(frac_lt(
                                Frac { num: num as int, den: den as int },
                                pair_score(pns[pi as int], cns[cj as int]),
                            ));
                        }
                        num = snm;
                        den = sdn;
                    } else {
                        proof {
                            assert(!frac_lt(
                                Frac { num: num as int, den: den as int },
                                pair_score(pns[pi as int], cns[cj as int]),
                            ));
                        }
                    }
                },
                None => {
                    proof {
                        let acc = Frac { num: num as int, den: den as int };
                        let sc = pair_score(pns[pi as int], cns[cj as int]);
                        if !pair_skipped(pns[pi as int], cns[cj as int]) {
                            assert(sc.num <= 0);
                            lemma_raw_wf(pns[pi as int], cns[cj as int]);
                            assert(sc.den >= 0) by (nonlinear_arith)
                                requires
                                    sc.den == (name_tok_str(pns[pi as int]).len() + name_tok_str(
                                        cns[cj as int],
                                    ).len()) * pair_raw(pns[pi as int], cns[cj as int]).den,
                                    pair_raw(pns[pi as int], cns[cj as int]).den >= 1,
                            ;
                            assert(!frac_lt(acc, sc)) by (nonlinear_arith)
                                requires
                                    acc.num >= 0,
                                    acc.den >= 1,
                                    sc.num <= 0,
                                    sc.den >= 0,
                            ;
                        }
                    }
                },
            }
            cj = cj + 1;
        }
        proof {
            assert(cns.skip(cns.len() as int) =~= Seq::<NameView>::empty());
        }
        pi = pi + 1;
    }
    proof {
        assert(pns.skip(pns.len() as int) =~= Seq::<NameView>::empty());
    }
    (num, den)
}


/// Decide whether any candidate represents the same street as the primary
/// feature. An exact tokenized-string match wins outright with score 100
/// (returned as 10000 hundredths); otherwise the best-scoring candidate
/// (earliest on ties) wins when its score strictly exceeds 70, and the
/// returned score is rounded to hundredths. `None` means the feature is a
/// new, distinct record. Geometric proximity must be filtered by the
/// caller.
pub fn linker(primary: Link, potentials: Vec<Link>) -> (r: Option<LinkResult>)
    requires
        bounded_names(primary@.names),
        forall|c: int|
            0 <= c < potentials@.len() ==> bounded_names(#[trigger] potentials@[c]@.names),
    ensures
        r == linker_spec(primary@.names, link_views(potentials@)),
{
    let ghost pns = primary@.names;
    let ghost cands = link_views(potentials@);
    proof {
        assert(cands.len() == potentials@.len());
        assert(forall|c: int| 0 <= c < cands.len() ==> cands[c] == #[trigger] potentials@[c]@);
        assert(pns.skip(0) =~= pns);
    }
    let mut pi: usize = 0;
    while pi < primary.names.names.len()
        invariant
            pi <= primary.names.names@.len(),
            pns == primary@.names,
            pns.len() == primary.names.names@.len(),
            cands == link_views(potentials@),
            cands.len() == potentials@.len(),
            forall|c: int| 0 <= c < cands.len() ==> cands[c] == #[trigger] potentials@[c]@,
            exact_search(pns, cands) == exact_search(pns.skip(pi as int), cands),
        decreases primary.names.names@.len() - pi,
    {
        proof {
            assert(pns.skip(pi as int)[0] == pns[pi as int]);
            assert(pns[pi as int] == primary.names.names@[pi as int]@);
            assert(pns.skip(pi as int).drop_first() =~= pns.skip(pi + 1));
        }
        let pt = primary.names.names[pi].tokenized_string();
        let mut ci: usize = 0;
        while ci < potentials.len()
            invariant
                ci <= potentials@.len(),
                pi < pns.len(),
                pns == primary@.names,
                pt@ == name_tok_str(pns[pi as int]),
                pns.skip(pi as int)[0] == pns[pi as int],
                exact_search(pns, cands) == exact_search(pns.skip(pi as int), cands),
                cands == link_views(potentials@),
                cands.len() == potentials@.len(),
                forall|c: int| 0 <= c < cands.len() ==> cands[c] == #[trigger] potentials@[c]@,
                forall|j: int| 0 <= j < ci ==> !cand_has_exact(pt@, #[trigger] cands[j].names),
            decreases potentials@.len() - ci,
        {
            let cnames: &Names = potentials[ci].names;
            proof {
                assert(cands[ci as int].names == cnames@);
            }
            let mut cj: usize = 0;
            while cj < cnames.names.len()
                invariant
                    cj <= cnames.names@.len(),
                    ci < cands.len(),
                    pi < pns.len(),
                    pns == primary@.names,
                    pt@ == name_tok_str(pns[pi as int]),
                    pns.skip(pi as int)[0] == pns[pi as int],
                    exact_search(pns, cands) == exact_search(pns.skip(pi as int), cands),
                    cands == link_views(potentials@),
                    cands.len() == potentials@.len(),
                    forall|c: int| 0 <= c < cands.len() ==> cands[c] == #[trigger] potentials@[c]@,
                    forall|j: int| 0 <= j < ci ==> !cand_has_exact(pt@, #[trigger] cands[j].names),
                    cands[ci as int].names == cnames@,
                    cnames@.len() == cnames.names@.len(),
                    forall|k: int|
                        0 <= k < cj ==> name_tok_str(#[trigger] cands[ci as int].names[k]) != pt@,
                decreases cnames.names@.len() - cj,
            {
                let ct = cnames.names[cj].tokenized_string();
                proof {
                    assert(cands[ci as int].names[cj as int] == cnames.names@[cj as int]@);
                }
                if str_eq(pt.as_str(), ct.as_str()) {
                    proof {
                        assert(name_tok_str(cands[ci as int].names[cj as int]) == pt@);
                        assert(cand_has_exact(pt@, cands[ci as int].names));
                        lemma_first_exact_some(pt@, cands, ci as int);
                        assert(exact_search(pns.skip(pi as int), cands) == Some(ci as int));
                        assert(linker_spec(pns, cands) == Some(
                            LinkResult { id: cands[ci as int].id, score: 10000 },
                        ));
                        assert(cands[ci as int].id == potentials@[ci as int].id);
                    }
                    let id = potentials[ci].id;
                    return Some(LinkResult { id, score: 10000 });
                }
                cj = cj + 1;
            }
            proof {
                assert(!cand_has_exact(pt@, cands[ci as int].names));
            }
            ci = ci + 1;
        }
        proof {
            lemma_first_exact_none(pt@, cands);
        }
        pi = pi + 1;
    }
    proof {
        assert(pns.skip(pns.len() as int) =~= Seq::<NameView>::empty());
        assert(exact_search(pns, cands) is None);
    }
    if potentials.len() == 0 {
        return None;
    }
    let first = cand_score_exec(&primary.names.names, &potentials[0].names.names);
    let mut bn: u64 = first.0;
    let mut bd: u64 = first.1;
    let mut bi: usize = 0;
    let mut i: usize = 1;
    proof {
        assert(cands[0].names == potentials@[0]@.names);
    }
    while i < potentials.len()
        invariant
            1 <= i <= potentials@.len(),
            bi < i,
            pns == primary@.names,
            pns == crate::name::name_views(primary.names.names@),
            bounded_names(pns),
            forall|c: int|
                0 <= c < potentials@.len() ==> bounded_names(#[trigger] potentials@[c]@.names),
            cands == link_views(potentials@),
            cands.len() == potentials@.len(),
            forall|c: int| 0 <= c < cands.len() ==> cands[c] == #[trigger] potentials@[c]@,
            bn <= 0x1_0000_0000u64,
            1 <= bd <= 0x400_0000u64,
            bn <= 100 * bd,
            selection(cands, pns) == select_from(
                cands,
                pns,
                i as int,
                bi as int,
                Frac { num: bn as int, den: bd as int },
            ),
        decreases potentials@.len() - i,
    {
        proof {
            assert(cands[i as int].names == potentials@[i as int]@.names);
        }
        let s = cand_score_exec(&primary.names.names, &potentials[i].names.names);
        let sn = s.0;
        let sd = s.1;
        proof {
            assert(bn * sd <= 0x1_0000_0000u64 * 0x400_0000u64) by (nonlinear_arith)
                requires
                    bn <= 0x1_0000_0000u64,
                    sd <= 0x400_0000u64,
            ;
            assert(sn * bd <= 0x1_0000_0000u64 * 0x400_0000u64) by (nonlinear_arith)
                requires
                    sn <= 0x1_0000_0000u64,
                    bd <= 0x400_0000u64,
            ;
        }
        if bn * sd < sn * bd {
            bi = i;
            bn = sn;
            bd = sd;
        }
        i = i + 1;
    }
    if bn > 70 * bd {
        let sc = (200 * bn + bd) / (2 * bd);
        proof {
            assert(200 * bn + bd < 10001 * (2 * bd)) by (nonlinear_arith)
                requires
                    bn <= 100 * bd,
                    1 <= bd,
            ;
            assert(sc < 10001) by (nonlinear_arith)
                requires
                    200 * bn + bd < 10001 * (2 * bd),
                    sc == (200 * bn + bd) / (2 * bd),
                    1 <= bd,
            ;
            assert(round_hundredths(Frac { num: bn as int, den: bd as int }) == sc);
            assert(cands[bi as int].id == potentials@[bi as int].id);
        }
        let id = potentials[bi].id;
        Some(LinkResult { id, score: sc as u32 })
    } else {
        None
    }
}

} // verus!
