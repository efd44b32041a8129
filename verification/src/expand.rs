//! Construction of a `Names` collection from raw names: the country's
//! synonym rules run against every original name, and the generated
//! synonyms are appended, tagged as generated.

use vstd::prelude::*;
use crate::name::{Name, NameView, Names, InputName, name_views, name_new_spec};
use crate::context::{Context, ContextView};
use crate::tokens::ParsedTokenView;
use crate::synonyms::{
    octo_spec, str_remove_octo, syn_number_suffix, syn_number_suffix_spec, syn_written_numeric,
    syn_written_numeric_spec, syn_state_hwy, syn_state_hwy_spec, syn_us_hwy, syn_us_hwy_spec,
    syn_us_cr, syn_us_cr_spec, syn_ca_hwy, syn_ca_hwy_spec, syn_ca_french, syn_ca_french_spec,
};
use crate::chars::str_eq;

verus! {

/// A name with its display text replaced and its tokenization recomputed
/// from the new text.
pub open spec fn with_display(
    n: NameView,
    d: Seq<char>,
    table: Map<Seq<char>, ParsedTokenView>,
) -> NameView {
    NameView {
        display: d,
        priority: n.priority,
        source: n.source,
        tokenized: crate::tokens::process_text(table, d),
        freq: n.freq,
    }
}

/// A name as the rules see it: the octothorpe artifact removed from the
/// display text.
pub open spec fn octo_replaced(n: NameView, table: Map<Seq<char>, ParsedTokenView>) -> NameView {
    with_display(n, octo_spec(n.display), table)
}

/// Synonyms are tagged as generated.
pub open spec fn set_generated(s: Seq<NameView>) -> Seq<NameView> {
    s.map_values(
        |n: NameView|
            NameView {
                display: n.display,
                priority: n.priority,
                source: "generated"@,
                tokenized: n.tokenized,
                freq: n.freq,
            },
    )
}

/// The United States rules, in the order they are applied.
pub open spec fn us_rules(n: NameView, ctx: ContextView) -> Seq<NameView> {
    syn_number_suffix_spec(n, ctx.table) + syn_written_numeric_spec(n, ctx.table)
        + syn_state_hwy_spec(n, ctx) + syn_us_hwy_spec(n, ctx.table) + syn_us_cr_spec(n, ctx.table)
}

/// The Canadian rules: highways everywhere, the standalone French form in
/// Quebec only.
pub open spec fn ca_rules(n: NameView, ctx: ContextView) -> Seq<NameView> {
    syn_ca_hwy_spec(n, ctx) + (if ctx.region == Some("QC"@) {
        syn_ca_french_spec(n, ctx.table)
    } else {
        Seq::empty()
    })
}

/// Every original name with the octothorpe artifact removed.
pub open spec fn replace_all(ns: Seq<NameView>, table: Map<Seq<char>, ParsedTokenView>) -> Seq<
    NameView,
>
    decreases ns.len(),
{
    if ns.len() == 0 {
        Seq::empty()
    } else {
        seq![octo_replaced(ns[0], table)] + replace_all(ns.drop_first(), table)
    }
}

/// The generated synonyms of every original name, in input order.
pub open spec fn expand_all(ns: Seq<NameView>, ctx: ContextView, us: bool) -> Seq<NameView>
    decreases ns.len(),
{
    if ns.len() == 0 {
        Seq::empty()
    } else {
        set_generated(
            if us {
                us_rules(octo_replaced(ns[0], ctx.table), ctx)
            } else {
                ca_rules(octo_replaced(ns[0], ctx.table), ctx)
            },
        ) + expand_all(ns.drop_first(), ctx, us)
    }
}

/// What constructing a `Names` yields: in the United States and Canada the
/// originals (octothorpe artifacts removed) followed by every rule-generated
/// synonym tagged as generated; elsewhere the originals unchanged.
pub open spec fn names_new_spec(ns: Seq<NameView>, ctx: ContextView) -> Seq<NameView> {
    if ctx.country == "US"@ {
        replace_all(ns, ctx.table) + expand_all(ns, ctx, true)
    } else if ctx.country == "CA"@ {
        replace_all(ns, ctx.table) + expand_all(ns, ctx, false)
    } else {
        ns
    }
}

/// The raw street value a record carries, as the caller decoded it: a bare
/// string, a list of display/priority entries, or something else (kept with
/// a description of what was wrong).
pub enum StreetValue {
    Text(String),
    Entries(Vec<InputName>),
    Invalid(String),
}

/// An error raised while building a `Names` from a raw value.
#[derive(Debug, PartialEq)]
pub enum ValueError {
    /// The street property was neither a string nor a list of entries; the
    /// payload describes the shape that was found.
    InvalidStreetProperty(String),
}

impl Names {
    /// Build the collection for one feature: the given names (octothorpe
    /// artifacts removed), followed by the synonyms the country's rules
    /// generate from them, tagged as generated.
    pub fn new(names: Vec<Name>, context: &Context) -> (r: Names)
        ensures
            r@ == names_new_spec(name_views(names@), context@),
    {
        let ghost orig = name_views(names@);
        let is_us = str_eq(context.country.as_str(), "US");
        let is_ca = str_eq(context.country.as_str(), "CA");
        if !is_us && !is_ca {
            return Names { names };
        }
        let is_qc = match &context.region {
            Some(g) => str_eq(g.as_str(), "QC"),
            None => false,
        };
        let mut input = names;
        let mut reps: Vec<Name> = Vec::new();
        let mut syns: Vec<Name> = Vec::new();
        proof {
            reveal_strlit("US");
            reveal_strlit("CA");
            assert("US"@[0] == 'U');
            assert("CA"@[0] == 'C');
            assert("US"@ != "CA"@);
            assert(name_views(reps@) + replace_all(name_views(input@), context@.table)
                =~= replace_all(orig, context@.table));
            assert(name_views(syns@) + expand_all(name_views(input@), context@, is_us)
                =~= expand_all(orig, context@, is_us));
        }
        while input.len() > 0
            invariant
                is_us != is_ca,
                is_us == (context@.country == "US"@),
                is_ca == (context@.country == "CA"@),
                is_qc == (context@.region == Some("QC"@)),
                replace_all(orig, context@.table) == name_views(reps@) + replace_all(
                    name_views(input@),
                    context@.table,
                ),
                expand_all(orig, context@, is_us) == name_views(syns@) + expand_all(
                    name_views(input@),
                    context@,
                    is_us,
                ),
            decreases input@.len(),
        {
            let ghost prev = name_views(input@);
            let x = input.remove(0);
            proof {
                assert(name_views(input@) =~= prev.drop_first());
                assert(prev[0] == x@);
            }
            let new_disp = str_remove_octo(&x.display);
            let tk = context.tokens.process(new_disp.as_str());
            let rep = Name {
                display: new_disp,
                priority: x.priority,
                source: x.source,
                tokenized: tk,
                freq: x.freq,
            };
            proof {
                assert(rep@ == octo_replaced(prev[0], context@.table));
            }
            let mut batch: Vec<Name> = Vec::new();
            if is_us {
                let mut b1 = syn_number_suffix(&rep, context);
                let mut b2 = syn_written_numeric(&rep, context);
                let mut b3 = syn_state_hwy(&rep, context);
                let mut b4 = syn_us_hwy(&rep, context);
                let mut b5 = syn_us_cr(&rep, context);
                let ghost vb1 = name_views(b1@);
                let ghost vb2 = name_views(b2@);
                let ghost vb3 = name_views(b3@);
                let ghost vb4 = name_views(b4@);
                let ghost vb5 = name_views(b5@);
                batch.append(&mut b1);
                batch.append(&mut b2);
                batch.append(&mut b3);
                batch.append(&mut b4);
                batch.append(&mut b5);
                proof {
                    assert(name_views(batch@) =~= vb1 + vb2 + vb3 + vb4 + vb5);
                    assert(name_views(batch@) =~= us_rules(rep@, context@));
                }
            } else {
                let mut b1 = syn_ca_hwy(&rep, context);
                let ghost vb1 = name_views(b1@);
                batch.append(&mut b1);
                if is_qc {
                    let mut b2 = syn_ca_french(&rep, context);
                    let ghost vb2 = name_views(b2@);
                    batch.append(&mut b2);
                    proof {
                        assert(name_views(batch@) =~= vb1 + vb2);
                    }
                } else {
                    proof {
                        assert(name_views(batch@) =~= vb1 + Seq::<NameView>::empty());
                    }
                }
                proof {
                    assert(name_views(batch@) =~= ca_rules(rep@, context@));
                }
            }
            reps.push(rep);
            let ghost vbatch = name_views(batch@);
            let ghost syns0 = name_views(syns@);
            let mut rest = batch;
            proof {
                assert(set_generated(vbatch).take(0) =~= Seq::<NameView>::empty());
                assert(name_views(syns@) =~= syns0 + set_generated(vbatch).take(0));
                assert(name_views(rest@) =~= vbatch.skip(0));
            }
            while rest.len() > 0
                invariant
                    rest@.len() <= vbatch.len(),
                    name_views(syns@) =~= syns0 + set_generated(vbatch).take(
                        vbatch.len() - rest@.len(),
                    ),
                    name_views(rest@) =~= vbatch.skip(vbatch.len() - rest@.len()),
                decreases rest@.len(),
            {
                let ghost prevr = name_views(rest@);
                let ghost done = vbatch.len() - rest@.len();
                let y = rest.remove(0);
                proof {
                    assert(name_views(rest@) =~= prevr.drop_first());
                    assert(prevr[0] == y@);
                    assert(y@ == vbatch[done as int]);
                }
                let tagged = Name {
                    display: y.display,
                    priority: y.priority,
                    source: gen_source(),
                    tokenized: y.tokenized,
                    freq: y.freq,
                };
                let ghost syns_before = name_views(syns@);
                syns.push(tagged);
                proof {
                    assert(name_views(syns@) =~= syns_before.push(set_generated(vbatch)[done as int]));
                    assert(syns0 + set_generated(vbatch).take(done + 1) =~= (syns0 + set_generated(
                        vbatch,
                    ).take(done as int)).push(set_generated(vbatch)[done as int]));
                    assert(name_views(rest@) =~= vbatch.skip(done + 1));
                }
            }
            proof {
                assert(set_generated(vbatch).take(vbatch.len() as int) =~= set_generated(vbatch));
                assert(name_views(syns@) =~= syns0 + set_generated(vbatch));
                assert(name_views(reps@).drop_last() + seq![rep@] =~= name_views(reps@));
                assert(replace_all(prev, context@.table) == seq![octo_replaced(
                    prev[0],
                    context@.table,
                )] + replace_all(prev.drop_first(), context@.table));
                assert((name_views(reps@).drop_last()) + (seq![octo_replaced(
                    prev[0],
                    context@.table,
                )] + replace_all(prev.drop_first(), context@.table)) =~= name_views(reps@)
                    + replace_all(prev.drop_first(), context@.table));
                assert((syns0) + (set_generated(
                    if is_us {
                        us_rules(octo_replaced(prev[0], context@.table), context@)
                    } else {
                        ca_rules(octo_replaced(prev[0], context@.table), context@)
                    },
                ) + expand_all(prev.drop_first(), context@, is_us)) =~= name_views(syns@)
                    + expand_all(prev.drop_first(), context@, is_us));
            }
        }
        proof {
            assert(name_views(input@) =~= Seq::<NameView>::empty());
            assert(name_views(reps@) + replace_all(name_views(input@), context@.table)
                =~= name_views(reps@));
            assert(name_views(syns@) + expand_all(name_views(input@), context@, is_us)
                =~= name_views(syns@));
        }
        let mut out = reps;
        out.append(&mut syns);
        proof {
            assert(name_views(out@) =~= replace_all(orig, context@.table) + expand_all(
                orig,
                context@,
                is_us,
            ));
        }
        Names { names: out }
    }

    /// Build the collection for one feature from a raw street value: a bare
    /// string becomes one name at priority zero; a list of entries becomes
    /// one name each; an absent value becomes an empty collection; anything
    /// else is rejected.
    pub fn from_value(value: Option<StreetValue>, context: &Context) -> (r: Result<
        Names,
        ValueError,
    >)
        ensures
            match value {
                None => r matches Ok(ns) && ns@ == names_new_spec(Seq::empty(), context@),
                Some(StreetValue::Text(s)) => r matches Ok(ns) && ns@ == names_new_spec(
                    seq![name_new_spec(s@, 0i8, context@.table)],
                    context@,
                ),
                Some(StreetValue::Entries(es)) => r matches Ok(ns) && ns@ == names_new_spec(
                    es@.map_values(
                        |e: InputName| name_new_spec(e.display@, e.priority, context@.table),
                    ),
                    context@,
                ),
                Some(StreetValue::Invalid(m)) => r matches Err(
                    ValueError::InvalidStreetProperty(w),
                ) && w@ == m@,
            },
    {
        match value {
            None => Ok(Names::new(Vec::new(), context)),
            Some(StreetValue::Text(s)) => {
                let mut names: Vec<Name> = Vec::new();
                names.push(Name::new(s, 0, context));
                proof {
                    assert(name_views(names@) =~= seq![
                        name_new_spec(s@, 0i8, context@.table),
                    ]);
                }
                Ok(Names::new(names, context))
            },
            Some(StreetValue::Entries(es)) => {
                let ghost target = es@.map_values(
                    |e: InputName| name_new_spec(e.display@, e.priority, context@.table),
                );
                let mut names: Vec<Name> = Vec::new();
                let mut rest = es;
                while rest.len() > 0
                    invariant
                        name_views(names@) + rest@.map_values(
                            |e: InputName| name_new_spec(e.display@, e.priority, context@.table),
                        ) =~= target,
                    decreases rest@.len(),
                {
                    let ghost prevr = rest@;
                    let e = rest.remove(0);
                    proof {
                        assert(rest@ =~= prevr.drop_first());
                        assert(prevr[0] == e);
                    }
                    let ghost names_before = name_views(names@);
                    names.push(Name::new(e.display, e.priority, context));
                    proof {
                        assert(name_views(names@) =~= names_before.push(
                            name_new_spec(prevr[0].display@, prevr[0].priority, context@.table),
                        ));
                        assert(names_before.push(
                            name_new_spec(prevr[0].display@, prevr[0].priority, context@.table),
                        ) + rest@.map_values(
                            |e2: InputName| name_new_spec(e2.display@, e2.priority, context@.table),
                        ) =~= names_before + prevr.map_values(
                            |e2: InputName| name_new_spec(e2.display@, e2.priority, context@.table),
                        ));
                    }
                }
                proof {
                    assert(name_views(names@) + rest@.map_values(
                        |e: InputName| name_new_spec(e.display@, e.priority, context@.table),
                    ) =~= name_views(names@));
                }
                Ok(Names::new(names, context))
            },
            Some(StreetValue::Invalid(m)) => Err(ValueError::InvalidStreetProperty(m)),
        }
    }
}

/// The provenance tag of rule-generated synonyms.
fn gen_source() -> (r: String)
    ensures
        r@ == "generated"@,
{
    let mut s = String::new();
    s.append("generated");
    s
}

} // verus!
