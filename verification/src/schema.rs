//! Schema of the open-data catalog responses the fetch command reads.
//!
//! Only the plain parts the logic consumes are modelled here; the callers
//! deserialize the wire format into these types.

use vstd::prelude::*;

verus! {

/// A hypermedia link of a catalog response.
#[derive(Clone, Debug, PartialEq, Default)]
pub struct Link {
    pub href: String,
    pub rel: String,
}

/// One value of a facet enumeration.
#[derive(Clone, Debug, PartialEq, Default)]
pub struct FacetValueEnumeration {
    pub name: String,
    pub count: usize,
    pub value: String,
    pub state: String,
}

/// A facet with its enumerated values.
#[derive(Clone, Debug, PartialEq, Default)]
pub struct FacetEnumeration {
    pub name: String,
    pub facets: Vec<FacetValueEnumeration>,
}

/// An aggregation row of a records response.
#[derive(Clone, Debug, PartialEq, Default)]
pub struct Aggregation {
    pub count: usize,
    pub cou_name_en: String,
}

/// Metadata of one dataset attachment.
#[derive(Clone, Debug, PartialEq, Default)]
pub struct AttachmentProperties {
    pub mime_type: Option<String>,
    pub title: String,
    pub url: String,
    pub id: String,
}

/// One dataset attachment: where to download it, and its metadata.
#[derive(Clone, Debug, PartialEq, Default)]
pub struct Attachment {
    pub href: String,
    pub metas: AttachmentProperties,
}

/// Response to the attachments enumeration of a dataset.
#[derive(Clone, Debug, PartialEq, Default)]
pub struct AttachmentCollection {
    pub links: Vec<Link>,
    pub attachments: Vec<Attachment>,
}

/// Response to the facets enumeration of a catalog.
#[derive(Clone, Debug, PartialEq, Default)]
pub struct FacetsCollection {
    pub links: Vec<Link>,
    pub facets: Vec<FacetEnumeration>,
}

} // verus!
