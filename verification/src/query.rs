//! Search results over the imported FANTOIR table.
//!
//! The queries themselves run outside; this module shapes one result row
//! and decides which results the command-line conditions keep.

use vstd::prelude::*;
use vstd::string::*;

use crate::fantoir::looks_like_canonical_fantoir_code;
use crate::fantoir::spec_canonical_shape;
use crate::text::str_eq;

verus! {

/// Short information about one voie, as the search facility returns it.
#[derive(Debug, Clone)]
pub struct FantoirVoieResult {
    pub code_fantoir: String,
    pub code_insee: String,
    pub identifiant_communal_voie: String,
    pub code_nature_voie: Option<String>,
    pub libelle_voie: String,
}

/// The voie's display name: the nature-of-way code, when present and
/// non-empty, followed by the label.
pub open spec fn spec_voie_name(kind: Option<String>, libelle: Seq<char>) -> Seq<char> {
    match kind {
        None => libelle,
        Some(k) => if k@.len() == 0 {
            libelle
        } else {
            k@ + seq![' '] + libelle
        },
    }
}

impl FantoirVoieResult {
    /// The name of the voie: its nature-of-way code, if any, then its label.
    pub fn get_name(&self) -> (r: String)
        ensures
            r@ == spec_voie_name(self.code_nature_voie, self.libelle_voie@),
    {
        match &self.code_nature_voie {
            None => self.libelle_voie.clone(),
            Some(kind) => {
                if kind.as_str().unicode_len() == 0 {
                    self.libelle_voie.clone()
                } else {
                    let mut out = kind.clone();
                    out.append(" ");
                    out.append(self.libelle_voie.as_str());
                    proof {
                        reveal_strlit(" ");
                        assert(out@ =~= kind@ + seq![' '] + self.libelle_voie@);
                    }
                    out
                }
            },
        }
    }

    /// The tab-separated line the search command prints for this result:
    /// code, commune and voie identifiers, then the name.
    pub fn format_line(&self) -> (r: String)
        ensures
            r@ == self.code_fantoir@ + seq!['\t'] + self.code_insee@ + seq![' ']
                + self.identifiant_communal_voie@ + seq!['\t'] + spec_voie_name(
                self.code_nature_voie,
                self.libelle_voie@,
            ),
    {
        let mut out = self.code_fantoir.clone();
        out.append("\t");
        out.append(self.code_insee.as_str());
        out.append(" ");
        out.append(self.identifiant_communal_voie.as_str());
        out.append("\t");
        let name = self.get_name();
        out.append(name.as_str());
        proof {
            reveal_strlit("\t");
            reveal_strlit(" ");
            assert(out@ =~= self.code_fantoir@ + seq!['\t'] + self.code_insee@ + seq![' ']
                + self.identifiant_communal_voie@ + seq!['\t'] + spec_voie_name(
                self.code_nature_voie,
                self.libelle_voie@,
            ));
        }
        out
    }
}

/// The conditions a search command was given: an optional commune and voie
/// identifier pair, and a free-text expression.
#[derive(Debug, Clone)]
pub struct QueryArgs {
    pub code_insee: Option<String>,
    pub code_voie: Option<String>,
    pub expression: Vec<String>,
}

/// Tells whether a search result matches the given conditions: only the
/// commune filter restricts results.
pub fn entry_matches_conditions(entry: &FantoirVoieResult, conditions: &QueryArgs) -> (r: bool)
    ensures
        r == match conditions.code_insee {
            Some(c) => entry.code_insee@ == c@,
            None => true,
        },
{
    match &conditions.code_insee {
        Some(code_insee) => str_eq(entry.code_insee.as_str(), code_insee.as_str()),
        None => true,
    }
}

/// When the whole expression is one canonical-looking code, the search can
/// go straight to that code.
pub fn pick_fantoir_code_from_args(expressions: &Vec<String>) -> (r: Option<String>)
    ensures
        (r is Some) == (expressions@.len() == 1 && spec_canonical_shape(expressions@[0]@)),
        r matches Some(code) ==> code@ == expressions@[0]@,
{
    if expressions.len() == 1 && looks_like_canonical_fantoir_code(expressions[0].as_str()) {
        Some(expressions[0].clone())
    } else {
        None
    }
}

} // verus!
