//! RDF terms and query solutions, as far as the pipeline reads them.
//!
//! A fact source hands the pipeline rows binding variable names to terms.
//! The pipeline only needs to know whether a term is the empty-value
//! sentinel and to extract a plain string from a named node or a literal,
//! so a term is a small closed union here; the callers convert the terms of
//! their RDF library into this one.

use vstd::prelude::*;
use vstd::string::*;

use crate::text::spec_contains;
use crate::text::contains_str;

verus! {

/// One RDF term of a query solution: a named node's IRI, a blank node, a
/// literal's value, or a quoted triple, kept by its object.
#[derive(Debug, PartialEq, Eq)]
pub enum RdfTerm {
    NamedNode(String),
    BlankNode,
    Literal(String),
    Triple(Box<RdfTerm>),
}

/// Whether a term denotes no value: blank nodes, the well-known skolem
/// IRIs, and a quoted triple whose object does.
pub open spec fn spec_term_empty(t: RdfTerm) -> bool
    decreases t,
{
    match t {
        RdfTerm::NamedNode(node) => spec_contains(node@, "/.well-known/genid/"@),
        RdfTerm::BlankNode => true,
        RdfTerm::Literal(_) => false,
        RdfTerm::Triple(object) => spec_term_empty(*object),
    }
}

/// Tells whether a term carries no usable value; such rows are excluded
/// before consolidation.
pub fn is_term_empty(term: &RdfTerm) -> (r: bool)
    ensures
        r == spec_term_empty(*term),
    decreases *term,
{
    match term {
        RdfTerm::NamedNode(node) => {
            // Special values IRI are considered as empty values.
            contains_str(node.as_str(), "/.well-known/genid/")
        },
        RdfTerm::BlankNode => true,
        RdfTerm::Literal(_) => false,
        RdfTerm::Triple(object) => is_term_empty(object),
    }
}

/// The IRI of a named node.
pub fn parse_term_uri(term: &RdfTerm) -> (r: Option<String>)
    ensures
        (r is Some) == (term is NamedNode),
        r matches Some(uri) ==> term matches RdfTerm::NamedNode(node) && uri@ == node@,
{
    match term {
        RdfTerm::NamedNode(node) => Some(node.clone()),
        _ => None,
    }
}

/// The value of a literal term.
pub fn parse_literal(term: &RdfTerm) -> (r: Option<String>)
    ensures
        (r is Some) == (term is Literal),
        r matches Some(value) ==> term matches RdfTerm::Literal(literal) && value@ == literal@,
{
    match term {
        RdfTerm::Literal(literal) => Some(literal.clone()),
        _ => None,
    }
}

/// One solution row of a query: variable names bound to terms, in the
/// order the source produced them.
#[derive(Debug, PartialEq)]
pub struct SparqlSolution {
    pub bindings: Vec<(String, RdfTerm)>,
}

/// First binding of `name` among `bindings`.
pub open spec fn spec_lookup(bindings: Seq<(String, RdfTerm)>, name: Seq<char>) -> Option<RdfTerm>
    decreases bindings.len(),
{
    if bindings.len() == 0 {
        None
    } else if bindings[0].0@ == name {
        Some(bindings[0].1)
    } else {
        spec_lookup(bindings.skip(1), name)
    }
}

impl SparqlSolution {
    /// The term bound to a variable name, if any.
    pub fn get<'a>(&'a self, name: &str) -> (r: Option<&'a RdfTerm>)
        ensures
            r matches Some(t) ==> spec_lookup(self.bindings@, name@) == Some(*t),
            r is None ==> spec_lookup(self.bindings@, name@) is None,
    {
        let n = self.bindings.len();
        let mut i: usize = 0;
        proof {
            assert(self.bindings@.skip(0) =~= self.bindings@);
        }
        while i < n
            invariant
                0 <= i <= n,
                n == self.bindings@.len(),
                spec_lookup(self.bindings@, name@) == spec_lookup(
                    self.bindings@.skip(i as int),
                    name@,
                ),
            decreases n - i,
        {
            proof {
                assert(self.bindings@.skip(i as int)[0] == self.bindings@[i as int]);
                assert(self.bindings@.skip(i as int).skip(1) =~= self.bindings@.skip(i + 1));
            }
            if crate::text::str_eq(self.bindings[i].0.as_str(), name) {
                return Some(&self.bindings[i].1);
            }
            i += 1;
        }
        None
    }
}

/// Results of a query: a collection of solutions for a selection, a
/// boolean for the other query forms.
#[derive(Debug, PartialEq)]
pub enum SparqlResults {
    /// Results for SELECT queries.
    Solutions(Vec<SparqlSolution>),
    /// Results for INSERT DATA, UPDATE DATA, etc. queries.
    Boolean(bool),
}

impl SparqlResults {
    pub fn into_solutions(self) -> (r: Option<Vec<SparqlSolution>>)
        ensures
            self matches SparqlResults::Solutions(solutions) ==> r == Some(solutions),
            self is Boolean ==> r is None,
    {
        match self {
            SparqlResults::Solutions(solutions) => Some(solutions),
            SparqlResults::Boolean(_) => None,
        }
    }

    pub fn into_bool(self) -> (r: Option<bool>)
        ensures
            self matches SparqlResults::Boolean(b) ==> r == Some(b),
            self is Solutions ==> r is None,
    {
        match self {
            SparqlResults::Solutions(_) => None,
            SparqlResults::Boolean(b) => Some(b),
        }
    }
}

} // verus!
