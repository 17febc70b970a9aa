//! Picking and naming the registry file to fetch.
//!
//! The catalog lists the registry's attachments; this module reads the
//! production date out of an attachment's identifier, derives the file
//! names a downloaded archive can extract to, suggests the table name for
//! an import, and finds the extracted file in the unzip output. The
//! download itself and the file system are the callers' work.

use vstd::prelude::*;
use vstd::string::*;

use crate::calendar::CalendarDate;
use crate::calendar::spec_date_le;
use crate::calendar::date_le;
use crate::schema::Attachment;
use crate::text::all_digits;
use crate::text::dec_digits;
use crate::text::digits_value;
use crate::text::find_at;
use crate::text::lemma_digits_value_upper;
use crate::text::parse_i32;
use crate::text::parse_u32;
use crate::text::pow10;
use crate::text::spec_find;
use crate::text::spec_i32_dec;
use crate::text::spec_parse_i32;
use crate::text::spec_split;
use crate::text::spec_starts_with;
use crate::text::spec_trim;
use crate::text::spec_zerofill;
use crate::text::split_str;
use crate::text::starts_with_str;
use crate::text::trim_spaces;
use crate::text::u32_to_dec_string;
use crate::text::i32_to_dec_string;

verus! {

/// Metadata of one registry file: where to download it and the month it
/// was produced.
#[derive(Clone, Debug, Eq, PartialEq, Hash)]
pub struct FantoirFile {
    pub url: String,
    /// The month of FANTOIR file production.
    pub date: CalendarDate,
}

/// The month number of a French month name, written in lower case without
/// accents.
pub open spec fn spec_french_month(s: Seq<char>) -> Option<u32> {
    if s == "janvier"@ {
        Some(1)
    } else if s == "fevrier"@ {
        Some(2)
    } else if s == "mars"@ {
        Some(3)
    } else if s == "avril"@ {
        Some(4)
    } else if s == "mai"@ {
        Some(5)
    } else if s == "juin"@ {
        Some(6)
    } else if s == "juillet"@ {
        Some(7)
    } else if s == "aout"@ {
        Some(8)
    } else if s == "septembre"@ {
        Some(9)
    } else if s == "octobre"@ {
        Some(10)
    } else if s == "novembre"@ {
        Some(11)
    } else if s == "decembre"@ {
        Some(12)
    } else {
        None
    }
}

/// Parses a French month long name into its number.
pub fn parse_french_month_long_name(month: &str) -> (r: Option<u32>)
    ensures
        r == spec_french_month(month@),
{
    if crate::text::str_eq(month, "janvier") {
        Some(1)
    } else if crate::text::str_eq(month, "fevrier") {
        Some(2)
    } else if crate::text::str_eq(month, "mars") {
        Some(3)
    } else if crate::text::str_eq(month, "avril") {
        Some(4)
    } else if crate::text::str_eq(month, "mai") {
        Some(5)
    } else if crate::text::str_eq(month, "juin") {
        Some(6)
    } else if crate::text::str_eq(month, "juillet") {
        Some(7)
    } else if crate::text::str_eq(month, "aout") {
        Some(8)
    } else if crate::text::str_eq(month, "septembre") {
        Some(9)
    } else if crate::text::str_eq(month, "octobre") {
        Some(10)
    } else if crate::text::str_eq(month, "novembre") {
        Some(11)
    } else if crate::text::str_eq(month, "decembre") {
        Some(12)
    } else {
        None
    }
}

/// The production date encoded as `<French month>_<year>`: the first of
/// that month.
pub open spec fn spec_parse_fantoir_date(s: Seq<char>) -> Option<CalendarDate> {
    let parts = spec_split(s, "_"@);
    if parts.len() != 2 {
        None
    } else {
        match (spec_parse_i32(parts[1]), spec_french_month(parts[0])) {
            (Some(year), Some(month)) => Some(CalendarDate { year, month, day: 1 }),
            _ => None,
        }
    }
}

/// Parses the `<French month>_<year>` date of an attachment identifier.
pub fn parse_fantoir_date(id_date: &str) -> (r: Option<CalendarDate>)
    ensures
        r == spec_parse_fantoir_date(id_date@),
{
    proof {
        reveal_strlit("_");
    }
    let parts = split_str(id_date, "_");
    if parts.len() != 2 {
        proof {
            assert(parts.deep_view().len() == parts@.len());
        }
        return None;
    }
    proof {
        assert(parts.deep_view().len() == parts@.len());
        assert(parts.deep_view()[0] == parts@[0]@);
        assert(parts.deep_view()[1] == parts@[1]@);
    }
    let year = match parse_i32(parts[1].as_str()) {
        Some(y) => y,
        None => {
            return None;
        },
    };
    let month = match parse_french_month_long_name(parts[0].as_str()) {
        Some(m) => m,
        None => {
            return None;
        },
    };
    Some(CalendarDate { year, month, day: 1 })
}

/// The attachment identifier with the wrapping taken off: what remains
/// between the well-known prefix and the archive suffix.
pub open spec fn spec_attachment_id_date(id: Seq<char>) -> Seq<char> {
    crate::text::spec_replace(
        crate::text::spec_replace(id, "fichier_national_fantoir_situation_"@, Seq::empty()),
        "_zip"@,
        Seq::empty(),
    )
}

impl FantoirFile {
    /// Reads a registry file's URL and production date from a catalog
    /// attachment; `None` when the identifier carries no readable date.
    pub fn from(attachment: &Attachment) -> (r: Option<FantoirFile>)
        ensures
            (r is Some) == (spec_parse_fantoir_date(
                spec_attachment_id_date(attachment.metas.id@),
            ) is Some),
            r matches Some(f) ==> f.url@ == attachment.href@ && Some(f.date)
                == spec_parse_fantoir_date(spec_attachment_id_date(attachment.metas.id@)),
    {
        proof {
            reveal_strlit("fichier_national_fantoir_situation_");
            reveal_strlit("_zip");
            reveal_strlit("");
        }
        let stripped = crate::text::replace_all(
            attachment.metas.id.as_str(),
            "fichier_national_fantoir_situation_",
            "",
        );
        let id_date = crate::text::replace_all(stripped.as_str(), "_zip", "");
        proof {
            assert(""@ =~= Seq::<char>::empty());
        }
        match parse_fantoir_date(id_date.as_str()) {
            Some(date) => Some(FantoirFile { url: attachment.href.clone(), date }),
            None => None,
        }
    }

    /// The extracted file names this registry file can correspond to:
    /// `FANTOIR<month><two-digit year>` for the previous month and for the
    /// production month, the month unpadded and the year counted from 2000.
    pub fn get_file_candidates(&self) -> (r: Vec<String>)
        requires
            self.date.year > i32::MIN + 2001,
            1 <= self.date.month <= 12,
        ensures
            r.deep_view() =~= seq![
                spec_file_candidate(self.date.previous_month_spec()),
                spec_file_candidate(self.date),
            ],
    {
        let previous_month = self.date.previous_month();
        let first = file_candidate(&previous_month);
        let second = file_candidate(&self.date);
        let mut r: Vec<String> = Vec::new();
        r.push(first);
        r.push(second);
        r
    }
}

/// The extracted file name for one production month.
pub open spec fn spec_file_candidate(d: CalendarDate) -> Seq<char> {
    "FANTOIR"@ + dec_digits(d.month as int) + spec_i32_dec(d.year - 2000)
}

fn file_candidate(d: &CalendarDate) -> (r: String)
    requires
        d.year > i32::MIN + 2000,
    ensures
        r@ == spec_file_candidate(*d),
{
    let mut out = String::from_str("FANTOIR");
    let month_str = u32_to_dec_string(d.month);
    out.append(month_str.as_str());
    let year_str = i32_to_dec_string(d.year - 2000);
    out.append(year_str.as_str());
    out
}

/// Suggests a FANTOIR table name based on the file version:
/// `fantoir_<year><zero-padded month>`.
pub fn suggest_fantoir_table(filename: &str) -> (r: String)
    requires
        filename@.len() == 11,
        all_digits(filename@.subrange(7, 11)),
    ensures
        r@ == "fantoir_"@ + dec_digits(2000 + digits_value(filename@.subrange(9, 11)))
            + spec_zerofill(digits_value(filename@.subrange(7, 9)), 2),
{
    let month_str = filename.substring_char(7, 9);
    let year_str = filename.substring_char(9, 11);
    proof {
        assert(month_str@ =~= filename@.subrange(7, 9));
        assert(year_str@ =~= filename@.subrange(9, 11));
        assert(all_digits(month_str@)) by {
            assert forall|k: int| 0 <= k < month_str@.len() implies crate::text::is_digit_char(
                #[trigger] month_str@[k],
            ) by {
                assert(month_str@[k] == filename@.subrange(7, 11)[k]);
            }
        }
        assert(all_digits(year_str@)) by {
            assert forall|k: int| 0 <= k < year_str@.len() implies crate::text::is_digit_char(
                #[trigger] year_str@[k],
            ) by {
                assert(year_str@[k] == filename@.subrange(7, 11)[k + 2]);
            }
        }
        lemma_digits_value_upper(filename@.subrange(7, 9));
        lemma_digits_value_upper(filename@.subrange(9, 11));
        assert(pow10(2) == 100) by {
            reveal_with_fuel(pow10, 3);
        }
    }
    let month = parse_u32(month_str).unwrap();
    let year = 2000 + parse_u32(year_str).unwrap();
    let mut out = String::from_str("fantoir_");
    let year_dec = u32_to_dec_string(year);
    out.append(year_dec.as_str());
    let month_dec = u32_to_dec_string(month);
    if month < 10 {
        out.append("0");
        proof {
            reveal_strlit("0");
        }
    }
    out.append(month_dec.as_str());
    proof {
        assert(dec_digits(month as int).len() == 1 <==> month < 10) by {
            reveal_with_fuel(crate::text::dec_digits, 3);
        }
        assert(out@ =~= "fantoir_"@ + dec_digits(2000 + digits_value(filename@.subrange(9, 11)))
            + spec_zerofill(digits_value(filename@.subrange(7, 9)), 2));
    }
    out
}

/// Where the unzip output names the extracted file, after one of the two
/// actions it reports.
pub open spec fn spec_extract_after(s: Seq<char>, action: Seq<char>) -> Option<Seq<char>> {
    match spec_find(s, action, 0) {
        None => None,
        Some(p) => {
            let buffer = s.skip(p + action.len());
            let end = match spec_find(buffer, "\r\n"@, 0) {
                Some(e) => Some(e),
                None => spec_find(buffer, "\n"@, 0),
            };
            match end {
                Some(e) => Some(spec_trim(buffer.take(e))),
                None => None,
            }
        },
    }
}

/// The file name an unzip run reports having written: after `inflating: `
/// when present, else after `extracting: `.
pub open spec fn spec_find_extracted_file(s: Seq<char>) -> Option<Seq<char>> {
    match spec_extract_after(s, "inflating: "@) {
        Some(name) => Some(name),
        None => spec_extract_after(s, "extracting: "@),
    }
}

/// Finds the extracted file name in the output of an unzip run.
pub fn find_extracted_file(output: &str) -> (r: Option<String>)
    ensures
        crate::fantoir::spec_opt_str(r) == spec_find_extracted_file(output@),
{
    match extract_after(output, "inflating: ") {
        Some(name) => Some(name),
        None => extract_after(output, "extracting: "),
    }
}

fn extract_after(output: &str, action: &str) -> (r: Option<String>)
    ensures
        crate::fantoir::spec_opt_str(r) == spec_extract_after(output@, action@),
{
    let n = output.unicode_len();
    let pos = match find_at(output, action, 0) {
        Some(p) => p,
        None => {
            return None;
        },
    };
    proof {
        crate::text::lemma_find_bounds(output@, action@, 0);
    }
    let start = pos + action.unicode_len();
    let buffer = output.substring_char(start, n);
    proof {
        assert(buffer@ =~= output@.skip(pos + action@.len()));
    }
    let end = match find_at(buffer, "\r\n", 0) {
        Some(e) => {
            proof {
                crate::text::lemma_find_bounds(buffer@, "\r\n"@, 0);
                reveal_strlit("\r\n");
            }
            e
        },
        None => {
            match find_at(buffer, "\n", 0) {
                Some(e) => {
                    proof {
                        crate::text::lemma_find_bounds(buffer@, "\n"@, 0);
                        reveal_strlit("\n");
                    }
                    e
                },
                None => {
                    return None;
                },
            }
        },
    };
    let head = buffer.substring_char(0, end);
    proof {
        assert(head@ =~= buffer@.take(end as int));
    }
    Some(trim_spaces(head).to_owned())
}

/// The attachments holding the national registry file.
pub open spec fn spec_is_fantoir_attachment(a: Attachment) -> bool {
    spec_starts_with(a.metas.title@, "Fichier national FANTOIR"@)
}

/// The most recent registry file among a catalog's attachments: the one
/// with the latest production date, the last of them when several share
/// it. `None` when no attachment holds the registry.
pub fn latest_fantoir_file(attachments: &Vec<Attachment>) -> (r: Option<FantoirFile>)
    requires
        forall|i: int|
            0 <= i < attachments@.len() && spec_is_fantoir_attachment(#[trigger] attachments@[i])
                ==> spec_parse_fantoir_date(
                spec_attachment_id_date(attachments@[i].metas.id@),
            ) is Some,
    ensures
        (r is Some) == (exists|i: int|
            0 <= i < attachments@.len() && spec_is_fantoir_attachment(#[trigger] attachments@[i])),
        r matches Some(f) ==> exists|i: int|
            0 <= i < attachments@.len() && spec_is_fantoir_attachment(#[trigger] attachments@[i])
                && f.url@ == attachments@[i].href@ && Some(f.date) == spec_parse_fantoir_date(
                spec_attachment_id_date(attachments@[i].metas.id@),
            ),
        r matches Some(f) ==> forall|j: int|
            0 <= j < attachments@.len() && spec_is_fantoir_attachment(#[trigger] attachments@[j])
                ==> spec_date_le(
                spec_parse_fantoir_date(
                    spec_attachment_id_date(attachments@[j].metas.id@),
                ).unwrap(),
                f.date,
            ),
{
    let mut best: Option<FantoirFile> = None;
    let mut i: usize = 0;
    while i < attachments.len()
        invariant
            0 <= i <= attachments@.len(),
            forall|k: int|
                0 <= k < attachments@.len() && spec_is_fantoir_attachment(
                    #[trigger] attachments@[k],
                ) ==> spec_parse_fantoir_date(
                    spec_attachment_id_date(attachments@[k].metas.id@),
                ) is Some,
            (best is Some) == (exists|k: int|
                0 <= k < i && spec_is_fantoir_attachment(#[trigger] attachments@[k])),
            best matches Some(f) ==> exists|k: int|
                0 <= k < i && spec_is_fantoir_attachment(#[trigger] attachments@[k]) && f.url@
                    == attachments@[k].href@ && Some(f.date) == spec_parse_fantoir_date(
                    spec_attachment_id_date(attachments@[k].metas.id@),
                ),
            best matches Some(f) ==> forall|j: int|
                0 <= j < i && spec_is_fantoir_attachment(#[trigger] attachments@[j])
                    ==> spec_date_le(
                    spec_parse_fantoir_date(
                        spec_attachment_id_date(attachments@[j].metas.id@),
                    ).unwrap(),
                    f.date,
                ),
        decreases attachments@.len() - i,
    {
        let attachment = &attachments[i];
        if starts_with_str(attachment.metas.title.as_str(), "Fichier national FANTOIR") {
            let candidate = FantoirFile::from(attachment).unwrap();
            let keep_candidate = match &best {
                None => true,
                Some(current) => date_le(&current.date, &candidate.date),
            };
            if keep_candidate {
                best = Some(candidate);
            } else {
                proof {
                    assert(best matches Some(current) ==> spec_date_le(
                        candidate.date,
                        current.date,
                    ));
                }
            }
        }
        i += 1;
    }
    best
}

} // verus!
