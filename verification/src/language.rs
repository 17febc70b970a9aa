//! Language subtag registry entries.
//!
//! Each entry of the registry document is a key/value map; values can
//! continue over several lines, and a key can carry several values. The
//! formatter substitutes `%%key%%` placeholders in a format string and
//! strips the placeholders that stay unresolved.

use vstd::prelude::*;
use vstd::string::*;

use crate::text::spec_contains;
use crate::text::spec_find;
use crate::text::spec_join;
use crate::text::spec_replace;
use crate::text::spec_split;
use crate::text::spec_trim;
use crate::text::spec_trim_start;
use crate::text::contains_str;
use crate::text::find_at;
use crate::text::join_strings;
use crate::text::lemma_find_bounds;
use crate::text::replace_all;
use crate::text::split_once_str;
use crate::text::split_str;
use crate::text::str_eq;
use crate::text::trim_spaces;

verus! {

/// A language entry from the registry: its fields, each with the values
/// observed for it, keys unique and in the order first seen.
#[derive(Debug)]
pub struct Language {
    pub fields: Vec<(String, Vec<String>)>,
}

/// The fields as the specification sees them.
pub open spec fn spec_fields_view(fields: Seq<(String, Vec<String>)>) -> Seq<
    (Seq<char>, Seq<Seq<char>>),
> {
    Seq::new(fields.len(), |i: int| (fields[i].0@, fields[i].1.deep_view()))
}

/// Files one value under its key: appended to the key's values when the
/// key exists, else a new field at the end.
pub open spec fn spec_field_insert(
    fields: Seq<(Seq<char>, Seq<Seq<char>>)>,
    key: Seq<char>,
    value: Seq<char>,
) -> Seq<(Seq<char>, Seq<Seq<char>>)>
    decreases fields.len(),
{
    if fields.len() == 0 {
        seq![(key, seq![value])]
    } else if fields[0].0 == key {
        seq![(key, fields[0].1.push(value))] + fields.skip(1)
    } else {
        seq![fields[0]] + spec_field_insert(fields.skip(1), key, value)
    }
}

proof fn lemma_field_insert_at(
    fields: Seq<(Seq<char>, Seq<Seq<char>>)>,
    key: Seq<char>,
    value: Seq<char>,
    j: int,
)
    requires
        0 <= j <= fields.len(),
        forall|k: int| 0 <= k < j ==> (#[trigger] fields[k]).0 != key,
        j < fields.len() ==> fields[j].0 == key,
    ensures
        j < fields.len() ==> spec_field_insert(fields, key, value) == fields.update(
            j,
            (key, fields[j].1.push(value)),
        ),
        j == fields.len() ==> spec_field_insert(fields, key, value) == fields.push(
            (key, seq![value]),
        ),
    decreases fields.len(),
{
    if fields.len() == 0 {
        assert(spec_field_insert(fields, key, value) =~= fields.push((key, seq![value])));
    } else if j == 0 {
        assert(spec_field_insert(fields, key, value) =~= fields.update(
            j,
            (key, fields[j].1.push(value)),
        ));
    } else {
        assert(fields[0].0 != key);
        assert(forall|k: int|
            0 <= k < j - 1 ==> (#[trigger] fields.skip(1)[k]).0 == fields[k + 1].0);
        lemma_field_insert_at(fields.skip(1), key, value, j - 1);
        if j < fields.len() {
            assert(fields.skip(1)[j - 1] == fields[j]);
            assert(spec_field_insert(fields, key, value) =~= fields.update(
                j,
                (key, fields[j].1.push(value)),
            ));
        } else {
            assert(spec_field_insert(fields, key, value) =~= fields.push((key, seq![value])));
        }
    }
}

fn field_insert(fields: &mut Vec<(String, Vec<String>)>, key: String, value: String)
    ensures
        spec_fields_view(final(fields)@) == spec_field_insert(
            spec_fields_view(old(fields)@),
            key@,
            value@,
        ),
{
    let ghost g0 = fields@;
    let ghost gv = spec_fields_view(g0);
    let n = fields.len();
    let mut j: usize = 0;
    while j < n
        invariant
            0 <= j <= n,
            fields@ == g0,
            g0 == old(fields)@,
            n == g0.len(),
            gv == spec_fields_view(g0),
            forall|k: int| 0 <= k < j ==> (#[trigger] gv[k]).0 != key@,
        decreases n - j,
    {
        if str_eq(fields[j].0.as_str(), key.as_str()) {
            let mut pair = fields.remove(j);
            pair.1.push(value);
            fields.insert(j, pair);
            proof {
                lemma_field_insert_at(gv, key@, value@, j as int);
                assert(spec_fields_view(fields@) =~~= gv.update(
                    j as int,
                    (key@, gv[j as int].1.push(value@)),
                ));
            }
            return;
        }
        proof {
            assert(gv[j as int].0 != key@);
        }
        j += 1;
    }
    let mut values: Vec<String> = Vec::new();
    values.push(value);
    fields.push((key, values));
    proof {
        lemma_field_insert_at(gv, key@, values@[0]@, gv.len() as int);
        assert(spec_fields_view(fields@) =~~= gv.push((key@, seq![values@[0]@])));
    }
}

/// One parsing step of `parse_entry`, over the accumulated fields and the
/// key, value and presence flag of the entry being read.
pub open spec fn spec_entry_step(
    st: (Seq<(Seq<char>, Seq<Seq<char>>)>, Seq<char>, Seq<char>, bool),
    line: Seq<char>,
) -> (Seq<(Seq<char>, Seq<Seq<char>>)>, Seq<char>, Seq<char>, bool) {
    match spec_find(line, ": "@, 0) {
        Some(i) => {
            let fields = if st.3 {
                spec_field_insert(st.0, st.1, st.2)
            } else {
                st.0
            };
            (fields, line.take(i), line.skip(i + 2), true)
        },
        None => (st.0, st.1, spec_trim(st.2) + seq![' '] + spec_trim(line), st.3),
    }
}

/// The parsing state after the given lines.
pub open spec fn spec_entry_fold(lines: Seq<Seq<char>>) -> (
    Seq<(Seq<char>, Seq<Seq<char>>)>,
    Seq<char>,
    Seq<char>,
    bool,
)
    decreases lines.len(),
{
    if lines.len() == 0 {
        (Seq::empty(), Seq::empty(), Seq::empty(), false)
    } else {
        spec_entry_step(spec_entry_fold(lines.drop_last()), lines.last())
    }
}

/// The fields of one registry entry: a `key: value` line saves the value
/// being built and starts a new one, any other line continues the current
/// value, and the last value is saved at the end.
pub open spec fn spec_parse_entry(entry: Seq<char>) -> Seq<(Seq<char>, Seq<Seq<char>>)> {
    let st = spec_entry_fold(spec_split(entry, "\n"@));
    if st.3 {
        spec_field_insert(st.0, st.1, st.2)
    } else {
        st.0
    }
}

/// The first values of each entry's key, as a whole document yields them:
/// entries after the first separator, kept when `restrict` is off or the
/// entry mentions the language type.
pub open spec fn spec_parse_document_entries(entries: Seq<Seq<char>>, restrict: bool) -> Seq<
    Seq<(Seq<char>, Seq<Seq<char>>)>,
>
    decreases entries.len(),
{
    if entries.len() == 0 {
        Seq::empty()
    } else {
        let rest = spec_parse_document_entries(entries.drop_last(), restrict);
        if !restrict || spec_contains(entries.last(), "Type: language"@) {
            rest.push(spec_parse_entry(entries.last()))
        } else {
            rest
        }
    }
}

/// The languages of a document, by their field views.
pub open spec fn spec_languages_view(languages: Seq<Language>) -> Seq<
    Seq<(Seq<char>, Seq<Seq<char>>)>,
> {
    Seq::new(languages.len(), |i: int| spec_fields_view(languages[i].fields@))
}

impl Language {
    /// Parses one registry entry into its fields.
    pub fn parse_entry(entry: &str) -> (r: Language)
        ensures
            spec_fields_view(r.fields@) == spec_parse_entry(entry@),
    {
        proof {
            reveal_strlit("\n");
            reveal_strlit(": ");
            reveal_strlit(" ");
        }
        let lines = split_str(entry, "\n");
        let ghost linesv = lines.deep_view();
        let mut fields: Vec<(String, Vec<String>)> = Vec::new();
        let mut key = String::new();
        let mut value = String::new();
        let mut has_value = false;
        let mut i: usize = 0;
        proof {
            assert(linesv.take(0) =~= Seq::<Seq<char>>::empty());
            assert(spec_fields_view(fields@) =~= Seq::<(Seq<char>, Seq<Seq<char>>)>::empty());
        }
        while i < lines.len()
            invariant
                0 <= i <= lines@.len(),
                linesv == lines.deep_view(),
                linesv.len() == lines@.len(),
                spec_entry_fold(linesv.take(i as int)) == (
                    spec_fields_view(fields@),
                    key@,
                    value@,
                    has_value,
                ),
            decreases lines@.len() - i,
        {
            proof {
                reveal_strlit(": ");
                reveal_strlit(" ");
                assert(linesv.take(i + 1).drop_last() =~= linesv.take(i as int));
                assert(linesv.take(i + 1).last() == linesv[i as int]);
                assert(linesv[i as int] == lines@[i as int]@);
            }
            match split_once_str(lines[i].as_str(), ": ") {
                Some(pair) => {
                    // Save the previous value, then start the new one.
                    if has_value {
                        field_insert(&mut fields, key, value);
                    }
                    key = pair.0;
                    value = pair.1;
                    has_value = true;
                },
                None => {
                    // Multiline value: append the line to the previous value.
                    let mut joined = trim_spaces(value.as_str()).to_owned();
                    joined.append(" ");
                    joined.append(trim_spaces(lines[i].as_str()));
                    proof {
                        assert(joined@ =~= spec_trim(value@) + seq![' '] + spec_trim(
                            lines@[i as int]@,
                        ));
                    }
                    value = joined;
                },
            }
            i += 1;
        }
        if has_value {
            field_insert(&mut fields, key, value);
        }
        proof {
            assert(linesv.take(linesv.len() as int) =~= linesv);
        }
        Language { fields }
    }

    /// Parses the whole registry document: the part before the first
    /// separator is metadata, each further piece is one entry, kept when
    /// every type is wanted or when it is a language.
    pub fn parse_document(document: &str, restrict_to_language: bool) -> (r: Vec<Language>)
        ensures
            spec_languages_view(r@) == spec_parse_document_entries(
                spec_split(document@, "\n%%\n"@).skip(1),
                restrict_to_language,
            ),
    {
        proof {
            reveal_strlit("\n%%\n");
            reveal_strlit("Type: language");
        }
        let pieces = split_str(document, "\n%%\n");
        let ghost entries = pieces.deep_view().skip(1);
        let mut r: Vec<Language> = Vec::new();
        let mut i: usize = 1;
        proof {
            assert(entries.take(0) =~= Seq::<Seq<char>>::empty());
            assert(spec_languages_view(r@) =~= Seq::<Seq<(Seq<char>, Seq<Seq<char>>)>>::empty());
        }
        while i < pieces.len()
            invariant
                1 <= i <= pieces@.len() || (pieces@.len() == 0 && i == 1),
                entries == pieces.deep_view().skip(1),
                pieces.deep_view().len() == pieces@.len(),
                spec_languages_view(r@) == spec_parse_document_entries(
                    entries.take(i - 1),
                    restrict_to_language,
                ),
            decreases pieces@.len() - i,
        {
            proof {
                assert(entries.take(i as int).drop_last() =~= entries.take(i - 1));
                assert(entries.take(i as int).last() == entries[i - 1]);
                assert(entries[i - 1] == pieces.deep_view()[i as int]);
                assert(pieces.deep_view()[i as int] == pieces@[i as int]@);
            }
            let keep = !restrict_to_language || contains_str(pieces[i].as_str(), "Type: language");
            if keep {
                let language = Language::parse_entry(pieces[i].as_str());
                let ghost before = spec_languages_view(r@);
                r.push(language);
                proof {
                    assert(spec_languages_view(r@) =~~= before.push(
                        spec_fields_view(language.fields@),
                    ));
                }
            }
            i += 1;
        }
        proof {
            if pieces@.len() == 0 {
                assert(entries.take(0) =~= entries);
            } else {
                assert(entries.take(pieces@.len() - 1) =~= entries);
            }
        }
        r
    }

    /// The values a field holds.
    pub open spec fn spec_field_lookup(
        fields: Seq<(Seq<char>, Seq<Seq<char>>)>,
        tag: Seq<char>,
    ) -> Option<Seq<Seq<char>>>
        decreases fields.len(),
    {
        if fields.len() == 0 {
            None
        } else if fields[0].0 == tag {
            Some(fields[0].1)
        } else {
            Self::spec_field_lookup(fields.skip(1), tag)
        }
    }

    /// A field's values joined with the separator, when the field exists.
    pub open spec fn spec_get_field(
        fields: Seq<(Seq<char>, Seq<Seq<char>>)>,
        tag: Seq<char>,
        separator: Seq<char>,
    ) -> Option<Seq<char>> {
        match Self::spec_field_lookup(fields, tag) {
            Some(values) => Some(spec_join(values, separator)),
            None => None,
        }
    }

    /// The field's values joined with the separator, if the entry has it.
    pub fn get_field(&self, tag: &str, separator: &str) -> (r: Option<String>)
        ensures
            crate::fantoir::spec_opt_str(r) == Self::spec_get_field(
                spec_fields_view(self.fields@),
                tag@,
                separator@,
            ),
    {
        let ghost fv = spec_fields_view(self.fields@);
        let n = self.fields.len();
        let mut j: usize = 0;
        proof {
            assert(fv.skip(0) =~= fv);
        }
        while j < n
            invariant
                0 <= j <= n,
                n == self.fields@.len(),
                fv == spec_fields_view(self.fields@),
                Self::spec_field_lookup(fv, tag@) == Self::spec_field_lookup(
                    fv.skip(j as int),
                    tag@,
                ),
            decreases n - j,
        {
            proof {
                assert(fv.skip(j as int)[0] == fv[j as int]);
                assert(fv.skip(j as int).skip(1) =~= fv.skip(j + 1));
            }
            if str_eq(self.fields[j].0.as_str(), tag) {
                return Some(join_strings(&self.fields[j].1, separator));
            }
            j += 1;
        }
        proof {
            assert(fv.skip(n as int) =~= Seq::<(Seq<char>, Seq<Seq<char>>)>::empty());
        }
        None
    }

    /// What identifies the entry: its subtag, or failing that its tag,
    /// joined with dashes.
    pub open spec fn spec_get_id(fields: Seq<(Seq<char>, Seq<Seq<char>>)>) -> Option<Seq<char>> {
        match Self::spec_get_field(fields, "Subtag"@, "-"@) {
            Some(id) => Some(id),
            None => Self::spec_get_field(fields, "Tag"@, "-"@),
        }
    }

    /// The entry's identifier: its subtag, or failing that its tag.
    pub fn get_id(&self) -> (r: Option<String>)
        ensures
            crate::fantoir::spec_opt_str(r) == Self::spec_get_id(spec_fields_view(self.fields@)),
    {
        match self.get_field("Subtag", "-") {
            Some(id) => Some(id),
            None => self.get_field("Tag", "-"),
        }
    }

    /// The full description of an entry: its description — or a marker when
    /// the registry carries none — with the deprecation flag, the preferred
    /// value and the comments appended when present.
    pub open spec fn spec_full_description(
        fields: Seq<(Seq<char>, Seq<Seq<char>>)>,
        separator: Seq<char>,
    ) -> Seq<char> {
        let base = match Self::spec_get_field(fields, "Description"@, separator) {
            Some(description) => description,
            None => "<no description in IANA registry>"@,
        };
        let with_deprecated = if Self::spec_field_lookup(fields, "Deprecated"@) is Some {
            base + " [deprecated]"@
        } else {
            base
        };
        let with_preferred = match Self::spec_get_field(fields, "Preferred-Value"@, separator) {
            Some(preferred) => with_deprecated + "; preferred value: "@ + preferred,
            None => with_deprecated,
        };
        match Self::spec_get_field(fields, "Comments"@, separator) {
            Some(comments) => with_preferred + "; "@ + comments,
            None => with_preferred,
        }
    }

    /// Builds the full description of the entry.
    pub fn build_full_description(&self, separator: &str) -> (r: String)
        ensures
            r@ == Self::spec_full_description(spec_fields_view(self.fields@), separator@),
    {
        let mut full_description = match self.get_field("Description", separator) {
            Some(description) => description,
            None => String::from_str("<no description in IANA registry>"),
        };
        if self.get_field("Deprecated", separator).is_some() {
            full_description.append(" [deprecated]");
        }
        if let Some(should_use) = self.get_field("Preferred-Value", separator) {
            full_description.append("; preferred value: ");
            full_description.append(should_use.as_str());
        }
        if let Some(comments) = self.get_field("Comments", separator) {
            full_description.append("; ");
            full_description.append(comments.as_str());
        }
        full_description
    }
}

/// Placeholders of unmatched keys removed: every leftmost shortest
/// `%%`…`%%` span is dropped, as long as one remains.
pub open spec fn spec_strip_keys(s: Seq<char>) -> Seq<char>
    decreases s.len(),
    via spec_strip_keys_decreases
{
    match spec_find(s, "%%"@, 0) {
        None => s,
        Some(i) => match spec_find(s, "%%"@, i + 2) {
            None => s,
            Some(j) => s.take(i) + spec_strip_keys(s.skip(j + 2)),
        },
    }
}

#[via_fn]
proof fn spec_strip_keys_decreases(s: Seq<char>) {
    reveal_strlit("%%");
    match spec_find(s, "%%"@, 0) {
        Some(i) => {
            lemma_find_bounds(s, "%%"@, 0);
            if spec_find(s, "%%"@, i + 2) is Some {
                lemma_find_bounds(s, "%%"@, i + 2);
            }
        },
        None => {},
    }
}

fn strip_keys(s: &str) -> (r: String)
    ensures
        r@ == spec_strip_keys(s@),
{
    let mut out = String::new();
    let mut rest = s.to_owned();
    proof {
        assert(out@ + spec_strip_keys(s@) =~= spec_strip_keys(s@));
    }
    loop
        invariant
            spec_strip_keys(s@) == out@ + spec_strip_keys(rest@),
        decreases rest@.len(),
    {
        proof {
            reveal_strlit("%%");
        }
        let n = rest.as_str().unicode_len();
        let i = match find_at(rest.as_str(), "%%", 0) {
            Some(i) => {
                proof {
                    lemma_find_bounds(rest@, "%%"@, 0);
                }
                i
            },
            None => {
                out.append(rest.as_str());
                return out;
            },
        };
        let j = match find_at(rest.as_str(), "%%", i + 2) {
            Some(j) => {
                proof {
                    lemma_find_bounds(rest@, "%%"@, i + 2);
                }
                j
            },
            None => {
                out.append(rest.as_str());
                return out;
            },
        };
        out.append(rest.as_str().substring_char(0, i));
        let tail = rest.as_str().substring_char(j + 2, n).to_owned();
        proof {
            assert(rest@.subrange(0, i as int) =~= rest@.take(i as int));
            assert(tail@ =~= rest@.skip(j + 2));
        }
        rest = tail;
    }
}

/// Each field's placeholder substituted by its joined values, fields
/// taken in order.
pub open spec fn spec_apply_fields(
    s: Seq<char>,
    fields: Seq<(Seq<char>, Seq<Seq<char>>)>,
    separator: Seq<char>,
) -> Seq<char>
    decreases fields.len(),
{
    if fields.len() == 0 {
        s
    } else {
        spec_apply_fields(
            spec_replace(s, "%%"@ + fields[0].0 + "%%"@, spec_join(fields[0].1, separator)),
            fields.skip(1),
            separator,
        )
    }
}

impl Language {
    /// The formatted entry: the identifier and full-description
    /// placeholders substituted, then each field's placeholder, then every
    /// placeholder left unresolved removed.
    pub open spec fn spec_format(
        fields: Seq<(Seq<char>, Seq<Seq<char>>)>,
        fmt: Seq<char>,
        separator: Seq<char>,
    ) -> Seq<char> {
        let id = match Self::spec_get_id(fields) {
            Some(id) => id,
            None => Seq::empty(),
        };
        let with_id = spec_replace(fmt, "%%id%%"@, id);
        let with_description = spec_replace(
            with_id,
            "%%fulldescription%%"@,
            Self::spec_full_description(fields, separator),
        );
        spec_strip_keys(spec_apply_fields(with_description, fields, separator))
    }

    /// Renders the entry along a format string of `%%key%%` placeholders.
    pub fn format(&self, format: &str, separator: &str) -> (r: String)
        ensures
            r@ == Self::spec_format(spec_fields_view(self.fields@), format@, separator@),
    {
        proof {
            reveal_strlit("%%id%%");
            reveal_strlit("%%fulldescription%%");
            reveal_strlit("%%");
        }
        let id = match self.get_id() {
            Some(id) => id,
            None => String::new(),
        };
        let with_id = replace_all(format, "%%id%%", id.as_str());
        let description = self.build_full_description(separator);
        let mut formatted = replace_all(with_id.as_str(), "%%fulldescription%%", description.as_str());
        let ghost fv = spec_fields_view(self.fields@);
        let ghost base = formatted@;
        let n = self.fields.len();
        let mut j: usize = 0;
        proof {
            assert(fv.skip(0) =~= fv);
        }
        while j < n
            invariant
                0 <= j <= n,
                n == self.fields@.len(),
                fv == spec_fields_view(self.fields@),
                spec_apply_fields(base, fv, separator@) == spec_apply_fields(
                    formatted@,
                    fv.skip(j as int),
                    separator@,
                ),
            decreases n - j,
        {
            proof {
                reveal_strlit("%%");
                assert(fv.skip(j as int)[0] == fv[j as int]);
                assert(fv.skip(j as int).skip(1) =~= fv.skip(j + 1));
            }
            let mut pattern = String::from_str("%%");
            pattern.append(self.fields[j].0.as_str());
            pattern.append("%%");
            let joined = join_strings(&self.fields[j].1, separator);
            proof {
                assert(pattern@ =~= "%%"@ + fv[j as int].0 + "%%"@);
            }
            formatted = replace_all(formatted.as_str(), pattern.as_str(), joined.as_str());
            j += 1;
        }
        proof {
            assert(fv.skip(n as int) =~= Seq::<(Seq<char>, Seq<Seq<char>>)>::empty());
        }
        strip_keys(formatted.as_str())
    }
}

} // verus!
