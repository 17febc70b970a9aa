//! Maintenance report for entities that failed consolidation.
//!
//! A persistence failure is classified from the constraint or error code it
//! carries; an unrecognized failure is nobody's category and must abort the
//! run loudly, as it means the taxonomy itself is stale. The report files
//! each failed key under its category and renders every section with its
//! keys sorted by the original code spelling.

use vstd::prelude::*;
use vstd::multiset::Multiset;
use vstd::string::*;

use crate::text::spec_lex_le;
use crate::text::lemma_lex_le_total;
use crate::text::lemma_lex_le_trans;
use crate::text::str_eq;
use crate::text::str_le;
use crate::wikidata::WikidataEntryKey;

verus! {

/// The category a failed entity files under.
#[derive(Clone, Copy, Debug, PartialEq, Eq, Structural)]
pub enum FailureCategory {
    /// The uniqueness constraint on the canonical code fired.
    DuplicateCanonicalCode,
    /// The canonical code is not in the decoded registry table.
    CodeNotInReferenceTable,
    /// The code exceeds the storage width.
    CodeTooLong,
    /// The lookup for an ambiguous code missed.
    UnresolvableCode,
}

/// How a persistence failure is classified: by the named constraint when
/// there is one, else by the error code; anything unrecognized stays
/// unclassified.
pub open spec fn spec_classify_failure(
    constraint: Option<Seq<char>>,
    code: Option<Seq<char>>,
) -> Option<FailureCategory> {
    match constraint {
        Some(name) => {
            if name == "index_fantoir_wikidata_pk"@ {
                Some(FailureCategory::DuplicateCanonicalCode)
            } else if name == "fantoir_wikidata_code_fantoir_fk"@ {
                Some(FailureCategory::CodeNotInReferenceTable)
            } else {
                None
            }
        },
        None => match code {
            Some(value) => {
                if value == "22001"@ {
                    Some(FailureCategory::CodeTooLong)
                } else {
                    None
                }
            },
            None => None,
        },
    }
}

/// Classifies a persistence failure from the constraint name or error code
/// it carries. `None` marks an unrecognized failure, which the caller must
/// surface loudly instead of filing it in the report.
pub fn classify_persistence_failure(constraint: Option<&str>, code: Option<&str>) -> (r: Option<
    FailureCategory,
>)
    ensures
        r == spec_classify_failure(
            match constraint {
                Some(c) => Some(c@),
                None => None,
            },
            match code {
                Some(c) => Some(c@),
                None => None,
            },
        ),
{
    match constraint {
        Some(name) => {
            if str_eq(name, "index_fantoir_wikidata_pk") {
                Some(FailureCategory::DuplicateCanonicalCode)
            } else if str_eq(name, "fantoir_wikidata_code_fantoir_fk") {
                Some(FailureCategory::CodeNotInReferenceTable)
            } else {
                None
            }
        },
        None => match code {
            Some(value) => {
                if str_eq(value, "22001") {
                    Some(FailureCategory::CodeTooLong)
                } else {
                    None
                }
            },
            None => None,
        },
    }
}

impl FailureCategory {
    /// The section heading a category renders under.
    pub fn section_title(&self) -> (r: &'static str)
        ensures
            *self == FailureCategory::DuplicateCanonicalCode ==> r@ == "Duplicate FANTOIR code"@,
            *self == FailureCategory::CodeNotInReferenceTable ==> r@
                == "Not in FANTOIR national file"@,
            *self == FailureCategory::CodeTooLong ==> r@ == "FANTOIR code too long"@,
            *self == FailureCategory::UnresolvableCode ==> r@ == "Can't resolve FANTOIR code"@,
    {
        match self {
            FailureCategory::DuplicateCanonicalCode => "Duplicate FANTOIR code",
            FailureCategory::CodeNotInReferenceTable => "Not in FANTOIR national file",
            FailureCategory::CodeTooLong => "FANTOIR code too long",
            FailureCategory::UnresolvableCode => "Can't resolve FANTOIR code",
        }
    }
}

/// The failed keys of a run, filed by category in arrival order.
#[derive(Debug, PartialEq)]
pub struct MaintenanceReport {
    pub duplicate_canonical_code: Vec<WikidataEntryKey>,
    pub code_not_in_reference_table: Vec<WikidataEntryKey>,
    pub code_too_long: Vec<WikidataEntryKey>,
    pub unresolvable_code: Vec<WikidataEntryKey>,
}

impl MaintenanceReport {
    /// An empty report.
    pub fn new() -> (r: MaintenanceReport)
        ensures
            r.duplicate_canonical_code@.len() == 0,
            r.code_not_in_reference_table@.len() == 0,
            r.code_too_long@.len() == 0,
            r.unresolvable_code@.len() == 0,
    {
        MaintenanceReport {
            duplicate_canonical_code: Vec::new(),
            code_not_in_reference_table: Vec::new(),
            code_too_long: Vec::new(),
            unresolvable_code: Vec::new(),
        }
    }
}

/// The new report is the old one with `key` filed under `category` and
/// every other section unchanged.
pub open spec fn spec_report_updated(
    before: MaintenanceReport,
    after: MaintenanceReport,
    key: WikidataEntryKey,
    category: FailureCategory,
) -> bool {
    match category {
        FailureCategory::DuplicateCanonicalCode => {
            &&& after.duplicate_canonical_code@ == before.duplicate_canonical_code@.push(key)
            &&& after.code_not_in_reference_table == before.code_not_in_reference_table
            &&& after.code_too_long == before.code_too_long
            &&& after.unresolvable_code == before.unresolvable_code
        },
        FailureCategory::CodeNotInReferenceTable => {
            &&& after.code_not_in_reference_table@ == before.code_not_in_reference_table@.push(key)
            &&& after.duplicate_canonical_code == before.duplicate_canonical_code
            &&& after.code_too_long == before.code_too_long
            &&& after.unresolvable_code == before.unresolvable_code
        },
        FailureCategory::CodeTooLong => {
            &&& after.code_too_long@ == before.code_too_long@.push(key)
            &&& after.duplicate_canonical_code == before.duplicate_canonical_code
            &&& after.code_not_in_reference_table == before.code_not_in_reference_table
            &&& after.unresolvable_code == before.unresolvable_code
        },
        FailureCategory::UnresolvableCode => {
            &&& after.unresolvable_code@ == before.unresolvable_code@.push(key)
            &&& after.duplicate_canonical_code == before.duplicate_canonical_code
            &&& after.code_not_in_reference_table == before.code_not_in_reference_table
            &&& after.code_too_long == before.code_too_long
        },
    }
}

/// Files one failed key under its category, keeping every other section
/// unchanged.
pub fn update_report(
    report: &mut MaintenanceReport,
    key: WikidataEntryKey,
    category: FailureCategory,
)
    ensures
        spec_report_updated(*old(report), *final(report), key, category),
{
    match category {
        FailureCategory::DuplicateCanonicalCode => report.duplicate_canonical_code.push(key),
        FailureCategory::CodeNotInReferenceTable => report.code_not_in_reference_table.push(key),
        FailureCategory::CodeTooLong => report.code_too_long.push(key),
        FailureCategory::UnresolvableCode => report.unresolvable_code.push(key),
    }
}

/// Keys ordered by the code spelling the external source used.
pub open spec fn spec_sorted_keys(v: Seq<WikidataEntryKey>) -> bool {
    forall|i: int, j: int|
        0 <= i < j < v.len() ==> spec_lex_le(
            #[trigger] v[i].code_fantoir_wikidata@,
            #[trigger] v[j].code_fantoir_wikidata@,
        )
}

proof fn lemma_to_multiset_insert(s: Seq<WikidataEntryKey>, i: int, x: WikidataEntryKey)
    requires
        0 <= i <= s.len(),
    ensures
        s.insert(i, x).to_multiset() =~= s.to_multiset().insert(x),
{
    broadcast use vstd::seq_lib::lemma_multiset_commutative;
    broadcast use vstd::seq_lib::group_to_multiset_ensures;
    broadcast use vstd::multiset::group_multiset_axioms;

    assert(s.insert(i, x) =~= s.take(i) + (seq![x] + s.skip(i)));
    assert(s =~= s.take(i) + s.skip(i));
    assert(seq![x] =~= Seq::<WikidataEntryKey>::empty().push(x));
    assert(Seq::<WikidataEntryKey>::empty().push(x).to_multiset() =~= Multiset::<
        WikidataEntryKey,
    >::empty().insert(x));
}

/// Inserting a key at its place in a sorted sequence keeps it sorted.
proof fn lemma_sorted_insert(u: Seq<WikidataEntryKey>, pos: int, x: WikidataEntryKey)
    requires
        spec_sorted_keys(u),
        0 <= pos <= u.len(),
        forall|k: int|
            0 <= k < pos ==> spec_lex_le(
                #[trigger] u[k].code_fantoir_wikidata@,
                x.code_fantoir_wikidata@,
            ),
        pos < u.len() ==> spec_lex_le(x.code_fantoir_wikidata@, u[pos].code_fantoir_wikidata@),
    ensures
        spec_sorted_keys(u.insert(pos, x)),
{
    let t = u.insert(pos, x);
    assert forall|a: int, b: int| 0 <= a < b < t.len() implies spec_lex_le(
        t[a].code_fantoir_wikidata@,
        t[b].code_fantoir_wikidata@,
    ) by {
        if a < pos {
            assert(t[a] == u[a]);
        } else if a == pos {
            assert(t[a] == x);
        } else {
            assert(t[a] == u[a - 1]);
        }
        if b < pos {
            assert(t[b] == u[b]);
        } else if b == pos {
            assert(t[b] == x);
        } else {
            assert(t[b] == u[b - 1]);
        }
        if b < pos {
            assert(spec_lex_le(u[a].code_fantoir_wikidata@, u[b].code_fantoir_wikidata@));
        } else if b == pos {
            assert(spec_lex_le(u[a].code_fantoir_wikidata@, x.code_fantoir_wikidata@));
        } else {
            if a < pos {
                if a < b - 1 {
                    assert(spec_lex_le(u[a].code_fantoir_wikidata@, u[b - 1].code_fantoir_wikidata@));
                }
            } else if a == pos {
                assert(spec_lex_le(x.code_fantoir_wikidata@, u[pos].code_fantoir_wikidata@));
                if pos < b - 1 {
                    assert(spec_lex_le(
                        u[pos].code_fantoir_wikidata@,
                        u[b - 1].code_fantoir_wikidata@,
                    ));
                    lemma_lex_le_trans(
                        x.code_fantoir_wikidata@,
                        u[pos].code_fantoir_wikidata@,
                        u[b - 1].code_fantoir_wikidata@,
                    );
                }
            } else {
                assert(spec_lex_le(
                    u[a - 1].code_fantoir_wikidata@,
                    u[b - 1].code_fantoir_wikidata@,
                ));
            }
        }
    }
}

/// Sorts keys by their original code spelling, keeping exactly the same
/// keys (as a multiset).
pub fn sort_keys_by_code(keys: Vec<WikidataEntryKey>) -> (r: Vec<WikidataEntryKey>)
    ensures
        r@.to_multiset() == keys@.to_multiset(),
        spec_sorted_keys(r@),
{
    broadcast use vstd::seq_lib::group_to_multiset_ensures;
    broadcast use vstd::multiset::group_multiset_axioms;

    let mut v = keys;
    if v.len() <= 1 {
        return v;
    }
    let mut i: usize = 1;
    while i < v.len()
        invariant
            1 <= i <= v@.len(),
            v@.to_multiset() == keys@.to_multiset(),
            spec_sorted_keys(v@.take(i as int)),
        decreases v@.len() - i,
    {
        let ghost s = v@;
        let x = v.remove(i);
        let ghost w = v@;
        let mut pos: usize = 0;
        while pos < i && str_le(
            v[pos].code_fantoir_wikidata.as_str(),
            x.code_fantoir_wikidata.as_str(),
        )
            invariant
                0 <= pos <= i,
                i < s.len(),
                v@ == w,
                w == s.remove(i as int),
                w.len() == s.len() - 1,
                x == s[i as int],
                forall|k: int|
                    0 <= k < pos ==> spec_lex_le(
                        #[trigger] w[k].code_fantoir_wikidata@,
                        x.code_fantoir_wikidata@,
                    ),
            decreases i - pos,
        {
            pos += 1;
        }
        let ghost u = s.take(i as int);
        proof {
            assert(forall|k: int| 0 <= k < i ==> #[trigger] w[k] == s[k]);
            assert(forall|k: int| 0 <= k < i ==> #[trigger] u[k] == s[k]);
            if pos < i {
                assert(!spec_lex_le(w[pos as int].code_fantoir_wikidata@, x.code_fantoir_wikidata@));
                lemma_lex_le_total(w[pos as int].code_fantoir_wikidata@, x.code_fantoir_wikidata@);
                assert(spec_lex_le(x.code_fantoir_wikidata@, u[pos as int].code_fantoir_wikidata@));
            }
            assert forall|k: int| 0 <= k < pos implies spec_lex_le(
                #[trigger] u[k].code_fantoir_wikidata@,
                x.code_fantoir_wikidata@,
            ) by {
                assert(spec_lex_le(w[k].code_fantoir_wikidata@, x.code_fantoir_wikidata@));
            }
            lemma_sorted_insert(u, pos as int, x);
        }
        v.insert(pos, x);
        proof {
            s.to_multiset_ensures();
            lemma_to_multiset_insert(w, pos as int, x);
            assert(w.to_multiset() =~= s.to_multiset().remove(s[i as int]));
            assert(s.contains(s[i as int]));
            assert(s.to_multiset().count(s[i as int]) > 0);
            assert(s.to_multiset().remove(s[i as int]).insert(s[i as int]) =~= s.to_multiset());
            assert(v@.to_multiset() =~= s.to_multiset());
            assert(v@.take(i + 1) =~= u.insert(pos as int, x));
        }
        i += 1;
    }
    proof {
        assert(v@.take(v@.len() as int) =~= v@);
    }
    v
}

/// The report's sections, one per category in a fixed order, each with its
/// keys sorted by the original code spelling; empty categories yield empty
/// sections.
pub fn into_sections(report: MaintenanceReport) -> (r: Vec<(String, Vec<WikidataEntryKey>)>)
    ensures
        r@.len() == 4,
        r@[0].0@ == "Duplicate FANTOIR code"@,
        r@[0].1@.to_multiset() == report.duplicate_canonical_code@.to_multiset(),
        spec_sorted_keys(r@[0].1@),
        r@[1].0@ == "Not in FANTOIR national file"@,
        r@[1].1@.to_multiset() == report.code_not_in_reference_table@.to_multiset(),
        spec_sorted_keys(r@[1].1@),
        r@[2].0@ == "FANTOIR code too long"@,
        r@[2].1@.to_multiset() == report.code_too_long@.to_multiset(),
        spec_sorted_keys(r@[2].1@),
        r@[3].0@ == "Can't resolve FANTOIR code"@,
        r@[3].1@.to_multiset() == report.unresolvable_code@.to_multiset(),
        spec_sorted_keys(r@[3].1@),
{
    let mut r: Vec<(String, Vec<WikidataEntryKey>)> = Vec::new();
    r.push(
        (
            FailureCategory::DuplicateCanonicalCode.section_title().to_owned(),
            sort_keys_by_code(report.duplicate_canonical_code),
        ),
    );
    r.push(
        (
            FailureCategory::CodeNotInReferenceTable.section_title().to_owned(),
            sort_keys_by_code(report.code_not_in_reference_table),
        ),
    );
    r.push(
        (
            FailureCategory::CodeTooLong.section_title().to_owned(),
            sort_keys_by_code(report.code_too_long),
        ),
    );
    r.push(
        (
            FailureCategory::UnresolvableCode.section_title().to_owned(),
            sort_keys_by_code(report.unresolvable_code),
        ),
    );
    r
}

} // verus!
