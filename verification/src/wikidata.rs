//! Consolidation of knowledge-base facts about FANTOIR entities.
//!
//! The fact source yields one row per (entity, classification value); the
//! pipeline groups the rows by entity key, resolves each key's canonical
//! code — asking a lookup collaborator when the code direction cannot be
//! computed — and picks one winning classification, yielding records ready
//! to persist.

use vstd::prelude::*;
use vstd::string::*;

use crate::fantoir::FixedFantoirCode;
use crate::fantoir::SpecFixedCode;
use crate::fantoir::fix_fantoir_code;
use crate::fantoir::raw_code_ok;
use crate::fantoir::spec_fix_fantoir_code;
use crate::fantoir::spec_opt_str;
use crate::qualification::determine_p31_winner;
use crate::qualification::spec_p31_winner;
use crate::rdf::RdfTerm;
use crate::rdf::SparqlSolution;
use crate::rdf::is_term_empty;
use crate::rdf::parse_literal;
use crate::rdf::parse_term_uri;
use crate::rdf::spec_lookup;
use crate::rdf::spec_term_empty;
use crate::text::rfind_char;
use crate::text::spec_rfind;
use crate::text::str_eq;

verus! {

/// The entity IRI suffix after the last slash: the plain entity identifier.
pub open spec fn spec_entity_of(t: RdfTerm) -> Option<Seq<char>> {
    match t {
        RdfTerm::NamedNode(node) => match spec_rfind(node@, '/') {
            Some(p) => Some(node@.skip(p + 1)),
            None => None,
        },
        _ => None,
    }
}

/// Parses an entity identifier from an IRI term, the part after the last
/// slash; an IRI without a slash carries no identifier.
pub fn parse_wikidata_entity_uri(term: &RdfTerm) -> (r: Option<String>)
    ensures
        spec_opt_str(r) == spec_entity_of(*term),
{
    match parse_term_uri(term) {
        Some(uri) => {
            let n = uri.as_str().unicode_len();
            match rfind_char(uri.as_str(), '/') {
                Some(pos) => {
                    let entity = uri.as_str().substring_char(pos + 1, n).to_owned();
                    proof {
                        assert(entity@ =~= uri@.skip(pos + 1));
                    }
                    Some(entity)
                },
                None => None,
            }
        },
        None => None,
    }
}

/// Identifies one consolidation unit: the code spelling used by the
/// external source, the entity identifier, and the entity label.
#[derive(Debug, Clone, PartialEq, Eq, Hash)]
pub struct WikidataEntryKey {
    pub code_fantoir_wikidata: String,
    pub item: String,
    pub item_label: String,
}

/// The key read from one solution row, as a triple of views.
pub open spec fn spec_parse_key(bs: Seq<(String, RdfTerm)>) -> Option<
    (Seq<char>, Seq<char>, Seq<char>),
> {
    match spec_lookup(bs, "code_fantoir"@) {
        None => None,
        Some(code_t) => match code_t {
            RdfTerm::Literal(code) => match spec_lookup(bs, "item"@) {
                None => None,
                Some(item_t) => match spec_entity_of(item_t) {
                    None => None,
                    Some(item) => match spec_lookup(bs, "itemLabel"@) {
                        None => None,
                        Some(label_t) => match label_t {
                            RdfTerm::Literal(label) => Some((code@, item, label@)),
                            _ => None,
                        },
                    },
                },
            },
            _ => None,
        },
    }
}

impl WikidataEntryKey {
    /// Reads one consolidation key from a solution row.
    pub fn parse(entry: &SparqlSolution) -> (r: Option<WikidataEntryKey>)
        ensures
            (r is Some) == (spec_parse_key(entry.bindings@) is Some),
            r matches Some(k) ==> spec_parse_key(entry.bindings@) == Some(
                (k.code_fantoir_wikidata@, k.item@, k.item_label@),
            ),
    {
        let code_t = match entry.get("code_fantoir") {
            Some(t) => t,
            None => {
                return None;
            },
        };
        let code = match parse_literal(code_t) {
            Some(c) => c,
            None => {
                return None;
            },
        };
        let item_t = match entry.get("item") {
            Some(t) => t,
            None => {
                return None;
            },
        };
        let item = match parse_wikidata_entity_uri(item_t) {
            Some(u) => u,
            None => {
                return None;
            },
        };
        let label_t = match entry.get("itemLabel") {
            Some(t) => t,
            None => {
                return None;
            },
        };
        let item_label = match parse_literal(label_t) {
            Some(l) => l,
            None => {
                return None;
            },
        };
        Some(WikidataEntryKey { code_fantoir_wikidata: code, item, item_label })
    }
}

/// The data ready to be persisted for one entity.
#[derive(Debug, Clone, PartialEq, Eq)]
pub struct WikidataEntry {
    pub code_fantoir: String,
    pub code_fantoir_wikidata: String,
    pub item: String,
    pub item_label: String,
    pub what: String,
}

/// The fields of a consolidated entry, apart from the canonical code.
pub open spec fn spec_entry_fields(
    e: WikidataEntry,
    key: WikidataEntryKey,
    candidates: Seq<Seq<char>>,
) -> bool {
    &&& e.code_fantoir_wikidata@ == key.code_fantoir_wikidata@
    &&& e.item@ == key.item@
    &&& e.item_label@ == key.item_label@
    &&& e.what@ == spec_p31_winner(candidates)
}

impl WikidataEntry {
    /// Consolidates one entity: the winning classification is resolved over
    /// the candidates, and the canonical code either comes out of
    /// canonicalization or is the result of the external lookup, handed in
    /// by the caller; a lookup miss leaves the entity unresolvable.
    pub fn consolidate_set(
        key: &WikidataEntryKey,
        what_candidates: &Vec<String>,
        searched_code: Option<String>,
    ) -> (r: Option<WikidataEntry>)
        requires
            raw_code_ok(key.code_fantoir_wikidata@),
            what_candidates@.len() >= 1,
        ensures
            match spec_fix_fantoir_code(key.code_fantoir_wikidata@) {
                SpecFixedCode::Computed(code) => r matches Some(e) && e.code_fantoir@ == code
                    && spec_entry_fields(e, *key, what_candidates.deep_view()),
                SpecFixedCode::ToSearch { .. } => match searched_code {
                    Some(found) => r matches Some(e) && e.code_fantoir@ == found@
                        && spec_entry_fields(e, *key, what_candidates.deep_view()),
                    None => r is None,
                },
            },
    {
        let what = determine_p31_winner(what_candidates);
        let code_fantoir = match fix_fantoir_code(key.code_fantoir_wikidata.as_str()) {
            FixedFantoirCode::Computed(code) => code,
            FixedFantoirCode::ToSearch { .. } => {
                match searched_code {
                    Some(found) => found,
                    None => {
                        return None;
                    },
                }
            },
        };
        Some(
            WikidataEntry {
                code_fantoir,
                code_fantoir_wikidata: key.code_fantoir_wikidata.clone(),
                item: key.item.clone(),
                item_label: key.item_label.clone(),
                what,
            },
        )
    }
}

/// A key as the grouping compares it: the three views.
pub open spec fn spec_key_triple(k: WikidataEntryKey) -> (Seq<char>, Seq<char>, Seq<char>) {
    (k.code_fantoir_wikidata@, k.item@, k.item_label@)
}

/// The groups as the specification sees them: key triples with their
/// candidate values, in arrival order.
pub open spec fn spec_groups_view(g: Seq<(WikidataEntryKey, Vec<String>)>) -> Seq<
    ((Seq<char>, Seq<char>, Seq<char>), Seq<Seq<char>>),
> {
    Seq::new(g.len(), |i: int| (spec_key_triple(g[i].0), g[i].1.deep_view()))
}

/// Files one candidate value under its key: appended to the key's group
/// when one exists, else a new group at the end.
pub open spec fn spec_group_insert(
    groups: Seq<((Seq<char>, Seq<char>, Seq<char>), Seq<Seq<char>>)>,
    key: (Seq<char>, Seq<char>, Seq<char>),
    what: Seq<char>,
) -> Seq<((Seq<char>, Seq<char>, Seq<char>), Seq<Seq<char>>)>
    decreases groups.len(),
{
    if groups.len() == 0 {
        seq![(key, seq![what])]
    } else if groups[0].0 == key {
        seq![(key, groups[0].1.push(what))] + groups.skip(1)
    } else {
        seq![groups[0]] + spec_group_insert(groups.skip(1), key, what)
    }
}

/// The value bound to `what` in a row, as an entity identifier.
pub open spec fn spec_what_of(bs: Seq<(String, RdfTerm)>) -> Option<Seq<char>> {
    match spec_lookup(bs, "what"@) {
        None => None,
        Some(t) => spec_entity_of(t),
    }
}

/// The whole grouping step over the fact rows, left to right: rows whose
/// code term is the empty-value sentinel are dropped, any other row must
/// yield a key and a classification value, and each value is filed under
/// its key. `None` when some row is malformed.
pub open spec fn spec_group_facts(rows: Seq<SparqlSolution>) -> Option<
    Seq<((Seq<char>, Seq<char>, Seq<char>), Seq<Seq<char>>)>,
>
    decreases rows.len(),
{
    if rows.len() == 0 {
        Some(Seq::empty())
    } else {
        match spec_group_facts(rows.drop_last()) {
            None => None,
            Some(groups) => {
                let bs = rows.last().bindings@;
                match spec_lookup(bs, "code_fantoir"@) {
                    None => None,
                    Some(t) => if spec_term_empty(t) {
                        Some(groups)
                    } else {
                        match (spec_parse_key(bs), spec_what_of(bs)) {
                            (Some(key), Some(what)) => Some(spec_group_insert(groups, key, what)),
                            _ => None,
                        }
                    },
                }
            },
        }
    }
}

proof fn lemma_group_insert_at(
    gv: Seq<((Seq<char>, Seq<char>, Seq<char>), Seq<Seq<char>>)>,
    key: (Seq<char>, Seq<char>, Seq<char>),
    what: Seq<char>,
    j: int,
)
    requires
        0 <= j <= gv.len(),
        forall|k: int| 0 <= k < j ==> (#[trigger] gv[k]).0 != key,
        j < gv.len() ==> gv[j].0 == key,
    ensures
        j < gv.len() ==> spec_group_insert(gv, key, what) == gv.update(
            j,
            (key, gv[j].1.push(what)),
        ),
        j == gv.len() ==> spec_group_insert(gv, key, what) == gv.push((key, seq![what])),
    decreases gv.len(),
{
    if gv.len() == 0 {
        assert(spec_group_insert(gv, key, what) =~= gv.push((key, seq![what])));
    } else if j == 0 {
        assert(spec_group_insert(gv, key, what) =~= gv.update(j, (key, gv[j].1.push(what))));
    } else {
        assert(gv[0].0 != key);
        assert(forall|k: int| 0 <= k < j - 1 ==> (#[trigger] gv.skip(1)[k]).0 == gv[k + 1].0);
        lemma_group_insert_at(gv.skip(1), key, what, j - 1);
        if j < gv.len() {
            assert(gv.skip(1)[j - 1] == gv[j]);
            assert(spec_group_insert(gv, key, what) =~= gv.update(j, (key, gv[j].1.push(what))));
        } else {
            assert(spec_group_insert(gv, key, what) =~= gv.push((key, seq![what])));
        }
    }
}

fn group_insert(groups: &mut Vec<(WikidataEntryKey, Vec<String>)>, key: WikidataEntryKey, what: String)
    ensures
        spec_groups_view(final(groups)@) == spec_group_insert(
            spec_groups_view(old(groups)@),
            spec_key_triple(key),
            what@,
        ),
{
    let ghost g0 = groups@;
    let ghost gv = spec_groups_view(g0);
    let ghost kt = spec_key_triple(key);
    let n = groups.len();
    let mut j: usize = 0;
    while j < n
        invariant
            0 <= j <= n,
            groups@ == g0,
            g0 == old(groups)@,
            n == g0.len(),
            gv == spec_groups_view(g0),
            kt == spec_key_triple(key),
            forall|k: int| 0 <= k < j ==> (#[trigger] gv[k]).0 != kt,
        decreases n - j,
    {
        let found = str_eq(
            groups[j].0.code_fantoir_wikidata.as_str(),
            key.code_fantoir_wikidata.as_str(),
        ) && str_eq(groups[j].0.item.as_str(), key.item.as_str()) && str_eq(
            groups[j].0.item_label.as_str(),
            key.item_label.as_str(),
        );
        if found {
            let mut pair = groups.remove(j);
            pair.1.push(what);
            groups.insert(j, pair);
            proof {
                lemma_group_insert_at(gv, kt, what@, j as int);
                assert(groups@ =~= g0.update(j as int, (g0[j as int].0, pair.1)));
                assert(spec_groups_view(groups@) =~~= gv.update(
                    j as int,
                    (kt, gv[j as int].1.push(what@)),
                ));
            }
            return;
        }
        proof {
            assert(gv[j as int].0 != kt);
        }
        j += 1;
    }
    let mut values: Vec<String> = Vec::new();
    values.push(what);
    groups.push((key, values));
    proof {
        lemma_group_insert_at(gv, kt, values@[0]@, gv.len() as int);
        assert(spec_groups_view(groups@) =~~= gv.push((kt, seq![values@[0]@])));
    }
}

/// A fact row the grouping cannot read: a missing binding, an entity IRI
/// without identifier, or a non-literal where a literal is needed.
#[derive(Clone, Copy, Debug, PartialEq, Eq, Structural)]
pub struct MalformedFactRow;

/// Groups the fact rows by entity key, in arrival order with duplicates
/// kept, excluding rows whose code term denotes no value. A malformed row
/// fails the whole run rather than being dropped in silence.
pub fn group_classification_facts(solutions: &Vec<SparqlSolution>) -> (r: Result<
    Vec<(WikidataEntryKey, Vec<String>)>,
    MalformedFactRow,
>)
    ensures
        r matches Ok(groups) ==> Some(spec_groups_view(groups@)) == spec_group_facts(solutions@),
        r is Err ==> spec_group_facts(solutions@) is None,
{
    let mut groups: Vec<(WikidataEntryKey, Vec<String>)> = Vec::new();
    let mut i: usize = 0;
    proof {
        assert(solutions@.take(0) =~= Seq::<SparqlSolution>::empty());
        assert(spec_groups_view(groups@) =~= Seq::<
            ((Seq<char>, Seq<char>, Seq<char>), Seq<Seq<char>>),
        >::empty());
    }
    while i < solutions.len()
        invariant
            0 <= i <= solutions@.len(),
            spec_group_facts(solutions@.take(i as int)) == Some(spec_groups_view(groups@)),
        decreases solutions@.len() - i,
    {
        proof {
            assert(solutions@.take(i + 1).drop_last() =~= solutions@.take(i as int));
            assert(solutions@.take(i + 1).last() == solutions@[i as int]);
        }
        let row = &solutions[i];
        let code_t = match row.get("code_fantoir") {
            Some(t) => t,
            None => {
                proof {
                    lemma_group_facts_extend_none(solutions@, i as int);
                }
                return Err(MalformedFactRow);
            },
        };
        if !is_term_empty(code_t) {
            let key = match WikidataEntryKey::parse(row) {
                Some(k) => k,
                None => {
                    proof {
                        lemma_group_facts_extend_none(solutions@, i as int);
                    }
                    return Err(MalformedFactRow);
                },
            };
            let what_t = match row.get("what") {
                Some(t) => t,
                None => {
                    proof {
                        lemma_group_facts_extend_none(solutions@, i as int);
                    }
                    return Err(MalformedFactRow);
                },
            };
            let what = match parse_wikidata_entity_uri(what_t) {
                Some(w) => w,
                None => {
                    proof {
                        lemma_group_facts_extend_none(solutions@, i as int);
                    }
                    return Err(MalformedFactRow);
                },
            };
            group_insert(&mut groups, key, what);
        }
        i += 1;
    }
    proof {
        assert(solutions@.take(solutions@.len() as int) =~= solutions@);
    }
    Ok(groups)
}

/// If the rows up to `i` are malformed at row `i`, the whole grouping is.
proof fn lemma_group_facts_extend_none(rows: Seq<SparqlSolution>, i: int)
    requires
        0 <= i < rows.len(),
        spec_group_facts(rows.take(i + 1)) is None,
    ensures
        spec_group_facts(rows) is None,
    decreases rows.len() - i,
{
    if i + 1 == rows.len() {
        assert(rows.take(i + 1) =~= rows);
    } else {
        assert(rows.take(i + 2).drop_last() =~= rows.take(i + 1));
        lemma_group_facts_extend_none(rows, i + 1);
    }
}

} // verus!
