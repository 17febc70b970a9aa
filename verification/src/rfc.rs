//! RFC index entries.
//!
//! The index is a text document of blocks, one per RFC: an identifier, a
//! description, then parenthesized metadata, tagged `key: value` or plain.
//! The formatter substitutes `%%…%%` placeholders, with `%%<width>id%%`
//! forms zero-filling the identifier.

use vstd::prelude::*;
use vstd::string::*;

use crate::text::all_digits;
use crate::text::dec_digits;
use crate::text::find_at;
use crate::text::is_digit_char;
use crate::text::join_strings;
use crate::text::lemma_find_bounds;
use crate::text::lines_of;
use crate::text::replace_all;
use crate::text::rfind_char;
use crate::text::spec_find;
use crate::text::spec_i32_dec;
use crate::text::spec_join;
use crate::text::spec_lines;
use crate::text::spec_parse_i32;
use crate::text::spec_replace;
use crate::text::spec_rfind;
use crate::text::spec_split;
use crate::text::spec_starts_with;
use crate::text::spec_trim_start;
use crate::text::spec_zerofill;
use crate::text::split_once_str;
use crate::text::split_str;
use crate::text::starts_with_str;
use crate::text::str_eq;
use crate::text::i32_to_dec_string;
use crate::text::parse_i32;
use crate::text::push_char;

verus! {

/// Zero-fills a number on the left up to `width` characters.
pub fn zerofill(number: i32, width: usize) -> (r: String)
    ensures
        r@ == spec_zerofill(number as int, width as int),
{
    let ds = i32_to_dec_string(number);
    let len = ds.as_str().unicode_len();
    if len >= width {
        return ds;
    }
    let mut out = String::new();
    let mut k: usize = 0;
    proof {
        assert(out@ =~= Seq::new(0, |x: int| '0'));
    }
    while k < width - len
        invariant
            0 <= k <= width - len,
            len < width,
            len == spec_i32_dec(number as int).len(),
            ds@ == spec_i32_dec(number as int),
            out@ == Seq::new(k as nat, |x: int| '0'),
        decreases width - len - k,
    {
        push_char(&mut out, '0');
        proof {
            assert(out@ =~= Seq::new((k + 1) as nat, |x: int| '0'));
        }
        k += 1;
    }
    out.append(ds.as_str());
    proof {
        assert(out@ =~= spec_zerofill(number as int, width as int));
    }
    out
}

/// One RFC of the index.
#[derive(Debug)]
pub struct Rfc {
    pub id: i32,
    pub description: String,
    /// Tagged metadata, keys unique, in the order first seen.
    pub metadata: Vec<(String, String)>,
    /// Parenthesized values without a tag, in order.
    pub untagged_metadata: Vec<String>,
}

/// The tagged metadata as the specification sees it.
pub open spec fn spec_meta_view(ms: Seq<(String, String)>) -> Seq<(Seq<char>, Seq<char>)> {
    Seq::new(ms.len(), |i: int| (ms[i].0@, ms[i].1@))
}

/// Sets a key to a value: replaced in place when the key exists, else a
/// new pair at the end.
pub open spec fn spec_meta_insert(
    ms: Seq<(Seq<char>, Seq<char>)>,
    key: Seq<char>,
    value: Seq<char>,
) -> Seq<(Seq<char>, Seq<char>)>
    decreases ms.len(),
{
    if ms.len() == 0 {
        seq![(key, value)]
    } else if ms[0].0 == key {
        seq![(key, value)] + ms.skip(1)
    } else {
        seq![ms[0]] + spec_meta_insert(ms.skip(1), key, value)
    }
}

proof fn lemma_meta_insert_at(
    ms: Seq<(Seq<char>, Seq<char>)>,
    key: Seq<char>,
    value: Seq<char>,
    j: int,
)
    requires
        0 <= j <= ms.len(),
        forall|k: int| 0 <= k < j ==> (#[trigger] ms[k]).0 != key,
        j < ms.len() ==> ms[j].0 == key,
    ensures
        j < ms.len() ==> spec_meta_insert(ms, key, value) == ms.update(j, (key, value)),
        j == ms.len() ==> spec_meta_insert(ms, key, value) == ms.push((key, value)),
    decreases ms.len(),
{
    if ms.len() == 0 {
        assert(spec_meta_insert(ms, key, value) =~= ms.push((key, value)));
    } else if j == 0 {
        assert(spec_meta_insert(ms, key, value) =~= ms.update(j, (key, value)));
    } else {
        assert(forall|k: int| 0 <= k < j - 1 ==> (#[trigger] ms.skip(1)[k]).0 == ms[k + 1].0);
        lemma_meta_insert_at(ms.skip(1), key, value, j - 1);
        if j < ms.len() {
            assert(ms.skip(1)[j - 1] == ms[j]);
            assert(spec_meta_insert(ms, key, value) =~= ms.update(j, (key, value)));
        } else {
            assert(spec_meta_insert(ms, key, value) =~= ms.push((key, value)));
        }
    }
}

fn meta_insert(ms: &mut Vec<(String, String)>, key: String, value: String)
    ensures
        spec_meta_view(final(ms)@) == spec_meta_insert(spec_meta_view(old(ms)@), key@, value@),
{
    let ghost g0 = ms@;
    let ghost gv = spec_meta_view(g0);
    let n = ms.len();
    let mut j: usize = 0;
    while j < n
        invariant
            0 <= j <= n,
            ms@ == g0,
            g0 == old(ms)@,
            n == g0.len(),
            gv == spec_meta_view(g0),
            forall|k: int| 0 <= k < j ==> (#[trigger] gv[k]).0 != key@,
        decreases n - j,
    {
        if str_eq(ms[j].0.as_str(), key.as_str()) {
            let _ = ms.remove(j);
            ms.insert(j, (key, value));
            proof {
                lemma_meta_insert_at(gv, ms@[j as int].0@, ms@[j as int].1@, j as int);
                assert(spec_meta_view(ms@) =~~= gv.update(
                    j as int,
                    (ms@[j as int].0@, ms@[j as int].1@),
                ));
            }
            return;
        }
        proof {
            assert(gv[j as int].0 != key@);
        }
        j += 1;
    }
    ms.push((key, value));
    proof {
        lemma_meta_insert_at(gv, ms@[n as int].0@, ms@[n as int].1@, gv.len() as int);
        assert(spec_meta_view(ms@) =~~= gv.push((ms@[n as int].0@, ms@[n as int].1@)));
    }
}

/// The parenthesized groups of a metadata expression, leftmost first,
/// shortest first: the content between each `(` and the next `)`.
pub open spec fn spec_paren_groups(s: Seq<char>) -> Seq<Seq<char>>
    decreases s.len(),
    via spec_paren_groups_decreases
{
    match spec_find(s, "("@, 0) {
        None => Seq::empty(),
        Some(a) => match spec_find(s, ")"@, a + 1) {
            None => Seq::empty(),
            Some(b) => seq![s.subrange(a + 1, b)] + spec_paren_groups(s.skip(b + 1)),
        },
    }
}

#[via_fn]
proof fn spec_paren_groups_decreases(s: Seq<char>) {
    reveal_strlit("(");
    reveal_strlit(")");
    match spec_find(s, "("@, 0) {
        Some(a) => {
            lemma_find_bounds(s, "("@, 0);
            if spec_find(s, ")"@, a + 1) is Some {
                lemma_find_bounds(s, ")"@, a + 1);
            }
        },
        None => {},
    }
}

fn paren_groups(s: &str) -> (r: Vec<String>)
    ensures
        r.deep_view() == spec_paren_groups(s@),
{
    let mut out: Vec<String> = Vec::new();
    let mut rest = s.to_owned();
    proof {
        assert(out.deep_view() + spec_paren_groups(s@) =~= spec_paren_groups(s@));
    }
    loop
        invariant
            spec_paren_groups(s@) == out.deep_view() + spec_paren_groups(rest@),
        decreases rest@.len(),
    {
        proof {
            reveal_strlit("(");
            reveal_strlit(")");
        }
        let n = rest.as_str().unicode_len();
        let a = match find_at(rest.as_str(), "(", 0) {
            Some(a) => {
                proof {
                    lemma_find_bounds(rest@, "("@, 0);
                }
                a
            },
            None => {
                proof {
                    assert(out.deep_view() + spec_paren_groups(rest@) =~= out.deep_view());
                }
                return out;
            },
        };
        let b = match find_at(rest.as_str(), ")", a + 1) {
            Some(b) => {
                proof {
                    lemma_find_bounds(rest@, ")"@, a + 1);
                }
                b
            },
            None => {
                proof {
                    assert(out.deep_view() + spec_paren_groups(rest@) =~= out.deep_view());
                }
                return out;
            },
        };
        let group = rest.as_str().substring_char(a + 1, b).to_owned();
        let ghost before = out.deep_view();
        out.push(group);
        let tail = rest.as_str().substring_char(b + 1, n).to_owned();
        proof {
            assert(out.deep_view() =~= before.push(rest@.subrange(a + 1, b as int)));
            assert(tail@ =~= rest@.skip(b + 1));
            assert(out.deep_view() + spec_paren_groups(tail@) =~= before + spec_paren_groups(
                rest@,
            ));
        }
        rest = tail;
    }
}

/// The metadata of one RFC, folded over its parenthesized groups: a
/// `key: value` group sets the key, any other group is untagged. (A group
/// holding a colon but no `: ` separator counts as untagged.)
pub open spec fn spec_metadata_fold(groups: Seq<Seq<char>>) -> (
    Seq<(Seq<char>, Seq<char>)>,
    Seq<Seq<char>>,
)
    decreases groups.len(),
{
    if groups.len() == 0 {
        (Seq::empty(), Seq::empty())
    } else {
        let st = spec_metadata_fold(groups.drop_last());
        let value = groups.last();
        match spec_find(value, ": "@, 0) {
            Some(p) => (spec_meta_insert(st.0, value.take(p), value.skip(p + 2)), st.1),
            None => (st.0, st.1.push(value)),
        }
    }
}

/// The tagged and untagged metadata of one parenthesized expression.
pub open spec fn spec_parse_metadata_line(s: Seq<char>) -> (
    Seq<(Seq<char>, Seq<char>)>,
    Seq<Seq<char>>,
) {
    spec_metadata_fold(spec_paren_groups(s))
}

impl Rfc {
    /// Reads the parenthesized metadata of one entry.
    pub fn parse_metadata_line(expression: &str) -> (r: (Vec<(String, String)>, Vec<String>))
        ensures
            spec_meta_view(r.0@) == spec_parse_metadata_line(expression@).0,
            r.1.deep_view() == spec_parse_metadata_line(expression@).1,
    {
        let groups = paren_groups(expression);
        let ghost gs = groups.deep_view();
        let mut metadata: Vec<(String, String)> = Vec::new();
        let mut untagged_metadata: Vec<String> = Vec::new();
        let mut i: usize = 0;
        proof {
            assert(gs.take(0) =~= Seq::<Seq<char>>::empty());
            assert(spec_meta_view(metadata@) =~= Seq::<(Seq<char>, Seq<char>)>::empty());
            assert(untagged_metadata.deep_view() =~= Seq::<Seq<char>>::empty());
        }
        while i < groups.len()
            invariant
                0 <= i <= groups@.len(),
                gs == groups.deep_view(),
                gs.len() == groups@.len(),
                spec_metadata_fold(gs.take(i as int)) == (
                    spec_meta_view(metadata@),
                    untagged_metadata.deep_view(),
                ),
            decreases groups@.len() - i,
        {
            proof {
                reveal_strlit(": ");
                assert(gs.take(i + 1).drop_last() =~= gs.take(i as int));
                assert(gs.take(i + 1).last() == gs[i as int]);
                assert(gs[i as int] == groups@[i as int]@);
            }
            match split_once_str(groups[i].as_str(), ": ") {
                Some(pair) => {
                    meta_insert(&mut metadata, pair.0, pair.1);
                },
                None => {
                    let ghost before = untagged_metadata.deep_view();
                    untagged_metadata.push(groups[i].clone());
                    proof {
                        assert(untagged_metadata.deep_view() =~= before.push(gs[i as int]));
                    }
                },
            }
            i += 1;
        }
        proof {
            assert(gs.take(gs.len() as int) =~= gs);
        }
        (metadata, untagged_metadata)
    }
}

/// End of the digit run opening at `p`: the first position at or after
/// `p` that is past the end or not a digit.
pub open spec fn spec_digit_run_end(s: Seq<char>, p: int) -> int
    decreases s.len() - p,
{
    if p < 0 || p >= s.len() || !is_digit_char(s[p]) {
        p
    } else {
        spec_digit_run_end(s, p + 1)
    }
}

/// First position `m` at or after `from` where a space and an opening
/// parenthesis start the metadata, leaving room for the closing
/// parenthesis at `rp`.
pub open spec fn spec_find_meta_space(s: Seq<char>, from: int, rp: int) -> Option<int>
    decreases rp - from,
{
    if from < 0 || from + 2 > rp {
        None
    } else if s[from] == ' ' && s[from + 1] == '(' {
        Some(from)
    } else {
        spec_find_meta_space(s, from + 1, rp)
    }
}

/// The leftmost start of an entry: a digit run followed by a space, a
/// description, then a space and the parenthesized metadata closing at
/// `rp`. Yields the run's start and end and the metadata space.
pub open spec fn spec_find_rfc_start(s: Seq<char>, rp: int, p: int) -> Option<(int, int, int)>
    decreases s.len() - p,
{
    if p < 0 || p >= s.len() {
        None
    } else if is_digit_char(s[p]) {
        let q = spec_digit_run_end(s, p);
        if q < s.len() && s[q] == ' ' {
            match spec_find_meta_space(s, q + 1, rp) {
                Some(m) => Some((p, q, m)),
                None => spec_find_rfc_start(s, rp, p + 1),
            }
        } else {
            spec_find_rfc_start(s, rp, p + 1)
        }
    } else {
        spec_find_rfc_start(s, rp, p + 1)
    }
}

/// One line parsed into its identifier, description and metadata text:
/// the digits, the text up to the metadata space, and the parenthesized
/// text through the last closing parenthesis.
pub open spec fn spec_parse_rfc_line(line: Seq<char>) -> Option<(i32, Seq<char>, Seq<char>)> {
    match spec_rfind(line, ')') {
        None => None,
        Some(rp) => match spec_find_rfc_start(line, rp, 0) {
            None => None,
            Some(parts) => match spec_parse_i32(line.subrange(parts.0, parts.1)) {
                Some(id) => Some(
                    (id, line.subrange(parts.1 + 1, parts.2), line.subrange(parts.2 + 1, rp + 1)),
                ),
                None => None,
            },
        },
    }
}

proof fn lemma_find_meta_space_bounds(s: Seq<char>, from: int, rp: int)
    requires
        0 <= from,
        rp <= s.len(),
    ensures
        spec_find_meta_space(s, from, rp) matches Some(m) ==> from <= m && m + 2 <= rp,
    decreases rp - from,
{
    if from + 2 <= rp {
        lemma_find_meta_space_bounds(s, from + 1, rp);
    }
}

impl Rfc {
    /// Parses one entry line. `None` when no digit run opens an entry
    /// whose metadata closes, or when the identifier overflows.
    pub fn parse_line(line: &str) -> (r: Option<Rfc>)
        ensures
            (r is Some) == (spec_parse_rfc_line(line@) is Some),
            r matches Some(rfc) ==> spec_parse_rfc_line(line@) matches Some(parts)
                && rfc.id == parts.0 && rfc.description@ == parts.1 && spec_meta_view(rfc.metadata@)
                == spec_parse_metadata_line(parts.2).0 && rfc.untagged_metadata.deep_view()
                == spec_parse_metadata_line(parts.2).1,
    {
        let n = line.unicode_len();
        let rp = match rfind_char(line, ')') {
            Some(rp) => rp,
            None => {
                return None;
            },
        };
        let mut p: usize = 0;
        while p < n
            invariant
                0 <= p <= n,
                n == line@.len(),
                rp < n,
                spec_rfind(line@, ')') == Some(rp as int),
                spec_find_rfc_start(line@, rp as int, 0) == spec_find_rfc_start(
                    line@,
                    rp as int,
                    p as int,
                ),
            decreases n - p,
        {
            let c = line.get_char(p);
            if c >= '0' && c <= '9' {
                let mut q: usize = p;
                while q < n && line.get_char(q) >= '0' && line.get_char(q) <= '9'
                    invariant
                        p <= q <= n,
                        n == line@.len(),
                        spec_digit_run_end(line@, p as int) == spec_digit_run_end(
                            line@,
                            q as int,
                        ),
                    decreases n - q,
                {
                    q += 1;
                }
                if q < n && line.get_char(q) == ' ' {
                    let mut m: usize = q + 1;
                    let mut found: bool = false;
                    while !found && rp >= 2 && m <= rp - 2
                        invariant
                            q + 1 <= m <= n,
                            rp < n,
                            n == line@.len(),
                            !found ==> spec_find_meta_space(line@, q + 1 as int, rp as int)
                                == spec_find_meta_space(line@, m as int, rp as int),
                            found ==> spec_find_meta_space(line@, q + 1 as int, rp as int)
                                == Some(m as int),
                        decreases rp - m + if found {
                            0int
                        } else {
                            1int
                        },
                    {
                        if line.get_char(m) == ' ' && line.get_char(m + 1) == '(' {
                            found = true;
                        } else {
                            m += 1;
                        }
                    }
                    if found {
                        proof {
                            lemma_find_meta_space_bounds(line@, q + 1 as int, rp as int);
                        }
                        let id_str = line.substring_char(p, q);
                        proof {
                            assert(id_str@ =~= line@.subrange(p as int, q as int));
                        }
                        match parse_i32(id_str) {
                            Some(id) => {
                                let description = line.substring_char(q + 1, m).to_owned();
                                let meta_str = line.substring_char(m + 1, rp + 1);
                                proof {
                                    assert(description@ =~= line@.subrange(q + 1, m as int));
                                    assert(meta_str@ =~= line@.subrange(m + 1, rp + 1));
                                }
                                let meta = Self::parse_metadata_line(meta_str);
                                return Some(
                                    Rfc {
                                        id,
                                        description,
                                        metadata: meta.0,
                                        untagged_metadata: meta.1,
                                    },
                                );
                            },
                            None => {
                                return None;
                            },
                        }
                    }
                }
            }
            p += 1;
        }
        None
    }

    /// Parses one block of the index: its lines are stripped of leading
    /// whitespace and joined into one line.
    pub fn parse_block(block: &str) -> (r: Option<Rfc>)
        ensures
            (r is Some) == (spec_parse_rfc_line(spec_block_line(block@)) is Some),
            r matches Some(rfc) ==> spec_parse_rfc_line(spec_block_line(block@)) matches Some(
                parts,
            ) && rfc.id == parts.0 && rfc.description@ == parts.1 && spec_meta_view(rfc.metadata@)
                == spec_parse_metadata_line(parts.2).0 && rfc.untagged_metadata.deep_view()
                == spec_parse_metadata_line(parts.2).1,
    {
        proof {
            reveal_strlit("\n");
            reveal_strlit(" ");
        }
        let pieces = split_str(block, "\n");
        let ghost piecesv = pieces.deep_view();
        let mut trimmed: Vec<String> = Vec::new();
        let mut i: usize = 0;
        while i < pieces.len()
            invariant
                0 <= i <= pieces@.len(),
                piecesv == pieces.deep_view(),
                piecesv.len() == pieces@.len(),
                trimmed.deep_view().len() == i,
                forall|k: int|
                    0 <= k < i ==> trimmed.deep_view()[k] == spec_trim_start(
                        #[trigger] piecesv[k],
                    ),
            decreases pieces@.len() - i,
        {
            proof {
                assert(piecesv[i as int] == pieces@[i as int]@);
            }
            trimmed.push(crate::text::trim_start_spaces(pieces[i].as_str()).to_owned());
            i += 1;
        }
        proof {
            assert(trimmed.deep_view() =~= piecesv.map_values(|l: Seq<char>| spec_trim_start(l)));
        }
        let joined = join_strings(&trimmed, " ");
        Self::parse_line(joined.as_str())
    }
}

/// A block's lines, stripped of leading whitespace and joined with one
/// space.
pub open spec fn spec_block_line(block: Seq<char>) -> Seq<char> {
    spec_join(
        spec_split(block, "\n"@).map_values(|l: Seq<char>| spec_trim_start(l)),
        " "@,
    )
}

/// An entry as the specification sees it: identifier, description, tagged
/// and untagged metadata.
pub open spec fn spec_rfc_view(rfc: Rfc) -> (
    int,
    Seq<char>,
    Seq<(Seq<char>, Seq<char>)>,
    Seq<Seq<char>>,
) {
    (
        rfc.id as int,
        rfc.description@,
        spec_meta_view(rfc.metadata@),
        rfc.untagged_metadata.deep_view(),
    )
}

pub open spec fn spec_rfcs_view(v: Seq<Rfc>) -> Seq<
    (int, Seq<char>, Seq<(Seq<char>, Seq<char>)>, Seq<Seq<char>>),
> {
    Seq::new(v.len(), |i: int| spec_rfc_view(v[i]))
}

/// What one block yields, if it parses.
pub open spec fn spec_block_rfc(block: Seq<char>) -> Option<
    (int, Seq<char>, Seq<(Seq<char>, Seq<char>)>, Seq<Seq<char>>),
> {
    match spec_parse_rfc_line(spec_block_line(block)) {
        Some(parts) => Some(
            (
                parts.0 as int,
                parts.1,
                spec_parse_metadata_line(parts.2).0,
                spec_parse_metadata_line(parts.2).1,
            ),
        ),
        None => None,
    }
}

/// The entries of the given blocks, in order, blocks that do not parse
/// dropped.
pub open spec fn spec_parse_blocks(blocks: Seq<Seq<char>>) -> Seq<
    (int, Seq<char>, Seq<(Seq<char>, Seq<char>)>, Seq<Seq<char>>),
>
    decreases blocks.len(),
{
    if blocks.len() == 0 {
        Seq::empty()
    } else {
        let rest = spec_parse_blocks(blocks.drop_last());
        match spec_block_rfc(blocks.last()) {
            Some(x) => rest.push(x),
            None => rest,
        }
    }
}

/// First line at or after `from` opening on the first identifier.
pub open spec fn spec_position_start(lines: Seq<Seq<char>>, from: int) -> Option<int>
    decreases lines.len() - from,
{
    if from < 0 || from >= lines.len() {
        None
    } else if spec_starts_with(lines[from], "0001"@) {
        Some(from)
    } else {
        spec_position_start(lines, from + 1)
    }
}

/// The entries of a whole index document: its lines from the first one
/// opening on the first identifier (or from the top when none does),
/// joined back and cut into blocks at every blank line.
pub open spec fn spec_parse_rfc_document(doc: Seq<char>) -> Seq<
    (int, Seq<char>, Seq<(Seq<char>, Seq<char>)>, Seq<Seq<char>>),
> {
    let lines = spec_lines(doc);
    let start = match spec_position_start(lines, 0) {
        Some(i) => i,
        None => 0,
    };
    spec_parse_blocks(spec_split(spec_join(lines.skip(start), "\n"@), "\n\n"@))
}

impl Rfc {
    /// Parses the whole index document into its entries.
    pub fn parse_document(document: &str) -> (r: Vec<Rfc>)
        ensures
            spec_rfcs_view(r@) == spec_parse_rfc_document(document@),
    {
        proof {
            reveal_strlit("\n");
            reveal_strlit("\n\n");
            reveal_strlit("0001");
        }
        let lines = lines_of(document);
        let ghost linesv = lines.deep_view();
        let mut start: usize = 0;
        let mut found: bool = false;
        while !found && start < lines.len()
            invariant
                0 <= start <= lines@.len(),
                linesv == lines.deep_view(),
                linesv.len() == lines@.len(),
                !found ==> spec_position_start(linesv, 0) == spec_position_start(
                    linesv,
                    start as int,
                ),
                found ==> spec_position_start(linesv, 0) == Some(start as int),
            decreases linesv.len() - start + if found {
                0int
            } else {
                1int
            },
        {
            proof {
                assert(linesv[start as int] == lines@[start as int]@);
            }
            if starts_with_str(lines[start].as_str(), "0001") {
                found = true;
            } else {
                start += 1;
            }
        }
        if !found {
            start = 0;
        }
        let mut kept: Vec<String> = Vec::new();
        let mut i: usize = start;
        while i < lines.len()
            invariant
                start <= i <= lines@.len(),
                start <= lines@.len(),
                linesv == lines.deep_view(),
                linesv.len() == lines@.len(),
                kept.deep_view().len() == i - start,
                forall|k: int|
                    0 <= k < i - start ==> kept.deep_view()[k] == #[trigger] linesv[start + k],
            decreases lines@.len() - i,
        {
            proof {
                assert(linesv[i as int] == lines@[i as int]@);
            }
            kept.push(lines[i].clone());
            i += 1;
        }
        proof {
            assert forall|k: int| 0 <= k < linesv.len() - start implies kept.deep_view()[k]
                == linesv.skip(start as int)[k] by {
                assert(kept.deep_view()[k] == linesv[start + k]);
            }
            assert(kept.deep_view() =~= linesv.skip(start as int));
        }
        let joined = join_strings(&kept, "\n");
        let blocks = split_str(joined.as_str(), "\n\n");
        let ghost blocksv = blocks.deep_view();
        let mut r: Vec<Rfc> = Vec::new();
        let mut b: usize = 0;
        proof {
            assert(blocksv.take(0) =~= Seq::<Seq<char>>::empty());
            assert(spec_rfcs_view(r@) =~= Seq::<
                (int, Seq<char>, Seq<(Seq<char>, Seq<char>)>, Seq<Seq<char>>),
            >::empty());
        }
        while b < blocks.len()
            invariant
                0 <= b <= blocks@.len(),
                blocksv == blocks.deep_view(),
                blocksv.len() == blocks@.len(),
                spec_rfcs_view(r@) == spec_parse_blocks(blocksv.take(b as int)),
            decreases blocks@.len() - b,
        {
            proof {
                assert(blocksv.take(b + 1).drop_last() =~= blocksv.take(b as int));
                assert(blocksv.take(b + 1).last() == blocksv[b as int]);
                assert(blocksv[b as int] == blocks@[b as int]@);
            }
            match Self::parse_block(blocks[b].as_str()) {
                Some(rfc) => {
                    let ghost before = spec_rfcs_view(r@);
                    let ghost rv = spec_rfc_view(rfc);
                    r.push(rfc);
                    proof {
                        assert(spec_rfcs_view(r@) =~~= before.push(rv));
                    }
                },
                None => {},
            }
            b += 1;
        }
        proof {
            assert(blocksv.take(blocksv.len() as int) =~= blocksv);
        }
        r
    }

    /// The `Status` metadata, when the entry has one.
    pub fn get_status(&self) -> (r: Option<String>)
        ensures
            crate::fantoir::spec_opt_str(r) == spec_meta_lookup(
                spec_meta_view(self.metadata@),
                "Status"@,
            ),
    {
        let ghost mv = spec_meta_view(self.metadata@);
        let n = self.metadata.len();
        let mut j: usize = 0;
        proof {
            assert(mv.skip(0) =~= mv);
        }
        while j < n
            invariant
                0 <= j <= n,
                n == self.metadata@.len(),
                mv == spec_meta_view(self.metadata@),
                spec_meta_lookup(mv, "Status"@) == spec_meta_lookup(mv.skip(j as int), "Status"@),
            decreases n - j,
        {
            proof {
                assert(mv.skip(j as int)[0] == mv[j as int]);
                assert(mv.skip(j as int).skip(1) =~= mv.skip(j + 1));
            }
            if str_eq(self.metadata[j].0.as_str(), "Status") {
                return Some(self.metadata[j].1.clone());
            }
            j += 1;
        }
        proof {
            assert(mv.skip(n as int) =~= Seq::<(Seq<char>, Seq<char>)>::empty());
        }
        None
    }

    /// Every metadata item rendered as a sentence: the untagged values
    /// first, then the tagged ones apart from the document identifiers
    /// and formats.
    pub fn get_full_status_metadata(&self) -> (r: Vec<String>)
        ensures
            r.deep_view() == spec_full_status_items(
                spec_meta_view(self.metadata@),
                self.untagged_metadata.deep_view(),
            ),
    {
        proof {
            reveal_strlit(".");
            reveal_strlit(": ");
            reveal_strlit("DOI");
            reveal_strlit("Format");
        }
        let ghost mv = spec_meta_view(self.metadata@);
        let ghost uv = self.untagged_metadata.deep_view();
        let mut out: Vec<String> = Vec::new();
        let mut i: usize = 0;
        while i < self.untagged_metadata.len()
            invariant
                0 <= i <= self.untagged_metadata@.len(),
                uv == self.untagged_metadata.deep_view(),
                uv.len() == self.untagged_metadata@.len(),
                out.deep_view().len() == i,
                forall|k: int|
                    0 <= k < i ==> out.deep_view()[k] == #[trigger] uv[k] + "."@,
            decreases self.untagged_metadata@.len() - i,
        {
            proof {
                reveal_strlit(".");
                assert(uv[i as int] == self.untagged_metadata@[i as int]@);
            }
            let mut item = self.untagged_metadata[i].clone();
            item.append(".");
            out.push(item);
            i += 1;
        }
        proof {
            assert(out.deep_view() =~= spec_untagged_items(uv));
            assert(mv.skip(0) =~= mv);
            assert(out.deep_view() + spec_tagged_items(mv.skip(0)) =~= spec_untagged_items(uv)
                + spec_tagged_items(mv));
        }
        let mut j: usize = 0;
        while j < self.metadata.len()
            invariant
                0 <= j <= self.metadata@.len(),
                mv == spec_meta_view(self.metadata@),
                mv.len() == self.metadata@.len(),
                uv == self.untagged_metadata.deep_view(),
                spec_untagged_items(uv) + spec_tagged_items(mv) == out.deep_view()
                    + spec_tagged_items(mv.skip(j as int)),
            decreases self.metadata@.len() - j,
        {
            proof {
                reveal_strlit(".");
                reveal_strlit(": ");
                reveal_strlit("DOI");
                reveal_strlit("Format");
                assert(mv.skip(j as int)[0] == mv[j as int]);
                assert(mv.skip(j as int).skip(1) =~= mv.skip(j + 1));
            }
            let keep = !str_eq(self.metadata[j].0.as_str(), "DOI") && !str_eq(
                self.metadata[j].0.as_str(),
                "Format",
            );
            if keep {
                let mut item = self.metadata[j].0.clone();
                item.append(": ");
                item.append(self.metadata[j].1.as_str());
                item.append(".");
                let ghost before = out.deep_view();
                out.push(item);
                proof {
                    assert(out.deep_view() =~= before.push(
                        mv[j as int].0 + ": "@ + mv[j as int].1 + "."@,
                    ));
                    assert(out.deep_view() + spec_tagged_items(mv.skip(j + 1)) =~= before + (seq![
                        mv[j as int].0 + ": "@ + mv[j as int].1 + "."@,
                    ] + spec_tagged_items(mv.skip(j + 1))));
                }
            }
            j += 1;
        }
        proof {
            assert(mv.skip(mv.len() as int) =~= Seq::<(Seq<char>, Seq<char>)>::empty());
            assert(out.deep_view() + spec_tagged_items(mv.skip(mv.len() as int)) =~= out.deep_view());
        }
        out
    }

    /// All metadata sentences joined with spaces.
    pub fn get_full_status(&self) -> (r: String)
        ensures
            r@ == spec_join(
                spec_full_status_items(
                    spec_meta_view(self.metadata@),
                    self.untagged_metadata.deep_view(),
                ),
                " "@,
            ),
    {
        proof {
            reveal_strlit(" ");
        }
        let items = self.get_full_status_metadata();
        join_strings(&items, " ")
    }
}

/// First value of `key` among the tagged metadata.
pub open spec fn spec_meta_lookup(ms: Seq<(Seq<char>, Seq<char>)>, key: Seq<char>) -> Option<
    Seq<char>,
>
    decreases ms.len(),
{
    if ms.len() == 0 {
        None
    } else if ms[0].0 == key {
        Some(ms[0].1)
    } else {
        spec_meta_lookup(ms.skip(1), key)
    }
}

/// The untagged metadata, each value closed with a full stop.
pub open spec fn spec_untagged_items(us: Seq<Seq<char>>) -> Seq<Seq<char>> {
    us.map_values(|v: Seq<char>| v + "."@)
}

/// The tagged metadata rendered as sentences, the document identifier and
/// format entries left out.
pub open spec fn spec_tagged_items(ms: Seq<(Seq<char>, Seq<char>)>) -> Seq<Seq<char>>
    decreases ms.len(),
{
    if ms.len() == 0 {
        Seq::empty()
    } else {
        let rest = spec_tagged_items(ms.skip(1));
        if ms[0].0 == "DOI"@ || ms[0].0 == "Format"@ {
            rest
        } else {
            seq![ms[0].0 + ": "@ + ms[0].1 + "."@] + rest
        }
    }
}

/// All metadata sentences of an entry: untagged first, then tagged.
pub open spec fn spec_full_status_items(
    ms: Seq<(Seq<char>, Seq<char>)>,
    us: Seq<Seq<char>>,
) -> Seq<Seq<char>> {
    spec_untagged_items(us) + spec_tagged_items(ms)
}

/// First width marker at or after `from`: a percent sign, a non-empty
/// digit run whose value fits a `u32`, then `id` and a closing percent
/// sign. Yields the marker's start and the end of the digit run.
pub open spec fn spec_find_width(s: Seq<char>, from: int) -> Option<(int, int)>
    decreases s.len() - from,
{
    if from < 0 || from >= s.len() {
        None
    } else if s[from] == '%' {
        let e = spec_digit_run_end(s, from + 1);
        if e > from + 1 && e + 2 < s.len() && s[e] == 'i' && s[e + 1] == 'd' && s[e + 2] == '%'
            && crate::text::digits_value(s.subrange(from + 1, e)) <= u32::MAX {
            Some((from, e))
        } else {
            spec_find_width(s, from + 1)
        }
    } else {
        spec_find_width(s, from + 1)
    }
}

proof fn lemma_find_width_bounds(s: Seq<char>, from: int)
    requires
        0 <= from,
    ensures
        spec_find_width(s, from) matches Some(m) ==> from <= m.0 && m.0 + 1 < m.1 && m.1 + 3
            <= s.len() && all_digits(s.subrange(m.0 + 1, m.1)) && crate::text::digits_value(
            s.subrange(m.0 + 1, m.1),
        ) <= u32::MAX,
    decreases s.len() - from,
{
    if 0 <= from < s.len() {
        if s[from] == '%' {
            let e = spec_digit_run_end(s, from + 1);
            lemma_digit_run_digits(s, from + 1);
            if !(e > from + 1 && e + 2 < s.len() && s[e] == 'i' && s[e + 1] == 'd' && s[e + 2]
                == '%' && crate::text::digits_value(s.subrange(from + 1, e)) <= u32::MAX) {
                lemma_find_width_bounds(s, from + 1);
            }
        } else {
            lemma_find_width_bounds(s, from + 1);
        }
    }
}

/// The characters of a digit run are digits.
proof fn lemma_digit_run_digits(s: Seq<char>, p: int)
    requires
        0 <= p <= s.len(),
    ensures
        p <= spec_digit_run_end(s, p) <= s.len(),
        all_digits(s.subrange(p, spec_digit_run_end(s, p))),
    decreases s.len() - p,
{
    let e = spec_digit_run_end(s, p);
    if p < s.len() && is_digit_char(s[p]) {
        lemma_digit_run_digits(s, p + 1);
        assert forall|k: int| 0 <= k < e - p implies is_digit_char(
            #[trigger] s.subrange(p, e)[k],
        ) by {
            if k > 0 {
                assert(s.subrange(p + 1, e)[k - 1] == s.subrange(p, e)[k]);
            }
        }
    }
}

/// The format string with every width marker's placeholder substituted by
/// the zero-filled identifier, widths applied leftmost first.
pub open spec fn spec_apply_widths(s: Seq<char>, widths: Seq<int>, id: int) -> Seq<char>
    decreases widths.len(),
{
    if widths.len() == 0 {
        s
    } else {
        spec_apply_widths(
            spec_replace(
                s,
                "%%"@ + dec_digits(widths[0]) + "id%"@ + "%"@,
                spec_zerofill(id, widths[0]),
            ),
            widths.skip(1),
            id,
        )
    }
}

impl Rfc {
    /// The whole rendering of an entry along its format string: width
    /// markers first, then the identifier, description, status and full
    /// status placeholders.
    pub open spec fn spec_format(
        view: (int, Seq<char>, Seq<(Seq<char>, Seq<char>)>, Seq<Seq<char>>),
        fmt: Seq<char>,
    ) -> Seq<char> {
        let with_widths = spec_apply_widths(fmt, spec_id_widths_from(fmt, 0), view.0);
        let with_id = spec_replace(with_widths, "%%id%%"@, spec_i32_dec(view.0));
        let with_description = spec_replace(with_id, "%%description%%"@, view.1);
        let status = match spec_meta_lookup(view.2, "Status"@) {
            Some(status) => status,
            None => Seq::empty(),
        };
        let with_status = spec_replace(with_description, "%%status%%"@, status);
        spec_replace(
            with_status,
            "%%fullstatus%%"@,
            spec_join(spec_full_status_items(view.2, view.3), " "@),
        )
    }

    /// Renders the entry along a format string of `%%…%%` placeholders,
    /// `%%<width>id%%` zero-filling the identifier. (A width too large
    /// for a machine integer is left alone.)
    pub fn format(&self, format: &str) -> (r: String)
        ensures
            r@ == Self::spec_format(spec_rfc_view(*self), format@),
    {
        let n = format.unicode_len();
        let mut widths: Vec<u32> = Vec::new();
        let mut p: usize = 0;
        let ghost fv = format@;
        proof {
            assert(Seq::new(widths@.len(), |k: int| widths@[k] as int) =~= Seq::<int>::empty());
            assert(Seq::<int>::empty() + spec_id_widths_from(fv, 0) =~= spec_id_widths_from(
                fv,
                0,
            ));
        }
        while p < n
            invariant
                0 <= p <= n,
                n == fv.len(),
                fv == format@,
                spec_id_widths_from(fv, 0) == Seq::new(widths@.len(), |k: int| widths@[k] as int)
                    + spec_id_widths_from(fv, p as int),
            decreases n - p,
        {
            let c = format.get_char(p);
            if c == '%' {
                let mut e: usize = p + 1;
                while e < n && format.get_char(e) >= '0' && format.get_char(e) <= '9'
                    invariant
                        p + 1 <= e <= n,
                        n == fv.len(),
                        fv == format@,
                        spec_digit_run_end(fv, p + 1) == spec_digit_run_end(fv, e as int),
                    decreases n - e,
                {
                    e += 1;
                }
                let is_marker = e > p + 1 && n >= 3 && e <= n - 3 && format.get_char(e) == 'i'
                    && format.get_char(e + 1) == 'd' && format.get_char(e + 2) == '%';
                if is_marker {
                    let ghost old_p = p as int;
                    proof {
                        lemma_digit_run_digits(fv, p + 1);
                        crate::text::lemma_digits_value_upper(fv.subrange(p + 1, e as int));
                    }
                    let digits = format.substring_char(p + 1, e);
                    proof {
                        assert(digits@ =~= fv.subrange(p + 1, e as int));
                    }
                    match crate::text::parse_u32(digits) {
                        Some(width) => {
                            let ghost before = Seq::new(widths@.len(), |k: int| widths@[k] as int);
                            widths.push(width);
                            p = e + 3;
                            proof {
                                assert(spec_find_width(fv, old_p) == Some((old_p, e as int)));
                                assert(Seq::new(widths@.len(), |k: int| widths@[k] as int)
                                    =~= before.push(width as int));
                                assert(before.push(width as int) + spec_id_widths_from(fv, e + 3)
                                    =~= before + (seq![
                                    crate::text::digits_value(fv.subrange(old_p + 1, e as int)),
                                ] + spec_id_widths_from(fv, e + 3)));
                            }
                        },
                        None => {
                            p += 1;
                        },
                    }
                } else {
                    p += 1;
                }
            } else {
                p += 1;
            }
        }
        let mut formatted = format.to_owned();
        let ghost all_widths = spec_id_widths_from(fv, 0);
        proof {
            assert(spec_id_widths_from(fv, n as int) =~= Seq::<int>::empty());
            assert(all_widths =~= Seq::new(widths@.len(), |k: int| widths@[k] as int));
            assert(all_widths.skip(0) =~= all_widths);
        }
        let mut w: usize = 0;
        while w < widths.len()
            invariant
                0 <= w <= widths@.len(),
                all_widths.len() == widths@.len(),
                forall|k: int| 0 <= k < widths@.len() ==> all_widths[k] == widths@[k] as int,
                spec_apply_widths(format@, all_widths, self.id as int) == spec_apply_widths(
                    formatted@,
                    all_widths.skip(w as int),
                    self.id as int,
                ),
            decreases widths@.len() - w,
        {
            proof {
                reveal_strlit("%%");
                reveal_strlit("id%");
                reveal_strlit("%");
                assert(all_widths.skip(w as int)[0] == all_widths[w as int]);
                assert(all_widths.skip(w as int).skip(1) =~= all_widths.skip(w + 1));
            }
            let width = widths[w];
            let mut pattern = String::from_str("%%");
            let width_dec = crate::text::u32_to_dec_string(width);
            pattern.append(width_dec.as_str());
            pattern.append("id%");
            pattern.append("%");
            proof {
                assert(pattern@ =~= "%%"@ + dec_digits(width as int) + "id%"@ + "%"@);
            }
            let filled = zerofill(self.id, width as usize);
            formatted = replace_all(formatted.as_str(), pattern.as_str(), filled.as_str());
            w += 1;
        }
        proof {
            assert(all_widths.skip(widths@.len() as int) =~= Seq::<int>::empty());
            reveal_strlit("%%id%%");
            reveal_strlit("%%description%%");
            reveal_strlit("%%status%%");
            reveal_strlit("%%fullstatus%%");
        }
        let id_dec = i32_to_dec_string(self.id);
        let step1 = replace_all(formatted.as_str(), "%%id%%", id_dec.as_str());
        let step2 = replace_all(step1.as_str(), "%%description%%", self.description.as_str());
        let status = match self.get_status() {
            Some(status) => status,
            None => String::new(),
        };
        let step3 = replace_all(step2.as_str(), "%%status%%", status.as_str());
        let full_status = self.get_full_status();
        replace_all(step3.as_str(), "%%fullstatus%%", full_status.as_str())
    }
}

/// The width markers at or after `from`.
pub open spec fn spec_id_widths_from(s: Seq<char>, from: int) -> Seq<int>
    decreases s.len() - from,
    via spec_id_widths_from_decreases
{
    if from < 0 {
        Seq::empty()
    } else {
        match spec_find_width(s, from) {
            None => Seq::empty(),
            Some(m) => seq![crate::text::digits_value(s.subrange(m.0 + 1, m.1))]
                + spec_id_widths_from(s, m.1 + 3),
        }
    }
}

#[via_fn]
proof fn spec_id_widths_from_decreases(s: Seq<char>, from: int) {
    if from >= 0 && spec_find_width(s, from) is Some {
        lemma_find_width_bounds(s, from);
    }
}

} // verus!
