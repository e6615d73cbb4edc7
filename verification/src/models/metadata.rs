//! Standard metadata schemas: Dublin Core, Schema.org, DataCite, Darwin Core,
//! PREMIS, and custom schemas.

use std::collections::HashMap;
use vstd::prelude::*;
use serde_json::Value;

verus! {

#[verifier::external_type_specification]
#[verifier::external_body]
pub struct ExJsonValue(Value);

/// Standard metadata schemas support.
#[derive(Debug, PartialEq)]
pub enum StandardMetadata {
    /// Dublin Core metadata.
    DublinCore {
        title: Option<String>,
        creator: Option<Vec<String>>,
        subject: Option<Vec<String>>,
        description: Option<String>,
        publisher: Option<String>,
        contributor: Option<Vec<String>>,
        date: Option<String>,
        dc_type: Option<String>,
        format: Option<String>,
        identifier: Option<String>,
        source: Option<String>,
        language: Option<String>,
        relation: Option<String>,
        coverage: Option<String>,
        rights: Option<String>,
    },
    /// Schema.org structured data.
    SchemaOrg {
        context: String,
        schema_type: String,
        properties: HashMap<String, Value>,
    },
    /// DataCite metadata schema (for research data).
    DataCite {
        doi: Option<String>,
        creators: Vec<DataCiteCreator>,
        titles: Vec<DataCiteTitle>,
        publisher: String,
        publication_year: u32,
        resource_type: DataCiteResourceType,
        subjects: Option<Vec<String>>,
        additional: HashMap<String, Value>,
    },
    /// Darwin Core (for biodiversity/specimens).
    DarwinCore {
        scientific_name: Option<String>,
        kingdom: Option<String>,
        phylum: Option<String>,
        class: Option<String>,
        order: Option<String>,
        family: Option<String>,
        genus: Option<String>,
        additional: HashMap<String, Value>,
    },
    /// PREMIS (digital preservation).
    Premis {
        object_id: String,
        object_category: String,
        preservation_level: Option<String>,
        additional: HashMap<String, Value>,
    },
    /// Custom/arbitrary metadata not explicitly supported.
    Custom {
        schema: String,
        data: Value,
    },
}

/// DataCite creator information.
#[derive(Debug, Clone, PartialEq)]
pub struct DataCiteCreator {
    pub name: String,
    pub name_type: Option<String>,
    pub given_name: Option<String>,
    pub family_name: Option<String>,
    pub name_identifiers: Option<Vec<NameIdentifier>>,
}

/// Name identifier (ORCID, ISNI, etc.).
#[derive(Debug, Clone, PartialEq)]
pub struct NameIdentifier {
    pub name_identifier: String,
    pub name_identifier_scheme: String,
    pub scheme_uri: Option<String>,
}

/// DataCite title with optional type and language.
#[derive(Debug, Clone, PartialEq)]
pub struct DataCiteTitle {
    pub title: String,
    pub title_type: Option<String>,
    pub lang: Option<String>,
}

/// DataCite resource type.
#[derive(Debug, Clone, PartialEq)]
pub struct DataCiteResourceType {
    pub resource_type_general: String,
    pub resource_type: Option<String>,
}

/// Whether an optional string holds exactly `text`.
pub open spec fn holds_text(s: Option<String>, text: Seq<char>) -> bool {
    s matches Some(v) && v@ == text
}

/// The text of an optional string slice, as an optional character sequence.
pub open spec fn opt_text(s: Option<&str>) -> Option<Seq<char>> {
    match s {
        Some(t) => Some(t@),
        None => None,
    }
}

/// The character sequence held by an optional string.
pub open spec fn opt_string_text(s: Option<String>) -> Option<Seq<char>> {
    match s {
        Some(t) => Some(t@),
        None => None,
    }
}

/// An owned copy of an optional string slice.
fn opt_to_string(s: Option<&str>) -> (r: Option<String>)
    ensures
        opt_string_text(r) == opt_text(s),
{
    match s {
        Some(t) => Some(String::from_str(t)),
        None => None,
    }
}

/// The identifiers already recorded for a creator (none when absent).
pub open spec fn identifiers_of(ids: Option<Vec<NameIdentifier>>) -> Seq<NameIdentifier> {
    match ids {
        Some(v) => v@,
        None => Seq::empty(),
    }
}

impl DataCiteCreator {
    /// Create a personal name creator, named "family, given".
    pub fn personal(given_name: &str, family_name: &str) -> (c: DataCiteCreator)
        ensures
            c.name@ == family_name@ + ", "@ + given_name@,
            holds_text(c.name_type, "Personal"@),
            holds_text(c.given_name, given_name@),
            holds_text(c.family_name, family_name@),
            c.name_identifiers is None,
    {
        let name = String::from_str(family_name).concat(", ").concat(given_name);
        DataCiteCreator {
            name,
            name_type: Some(String::from_str("Personal")),
            given_name: Some(String::from_str(given_name)),
            family_name: Some(String::from_str(family_name)),
            name_identifiers: None,
        }
    }

    /// Create an organizational creator.
    pub fn organizational(name: &str) -> (c: DataCiteCreator)
        ensures
            c.name@ == name@,
            holds_text(c.name_type, "Organizational"@),
            c.given_name is None,
            c.family_name is None,
            c.name_identifiers is None,
    {
        DataCiteCreator {
            name: String::from_str(name),
            name_type: Some(String::from_str("Organizational")),
            given_name: None,
            family_name: None,
            name_identifiers: None,
        }
    }

    /// Add an ORCID identifier after any identifiers already recorded.
    pub fn with_orcid(self, orcid: &str) -> (c: DataCiteCreator)
        ensures
            c.name == self.name,
            c.name_type == self.name_type,
            c.given_name == self.given_name,
            c.family_name == self.family_name,
            c.name_identifiers matches Some(ids) && ids@.len() == identifiers_of(self.name_identifiers).len() + 1
                && ids@.drop_last() == identifiers_of(self.name_identifiers) && ids@.last().name_identifier@
                == orcid@ && ids@.last().name_identifier_scheme@ == "ORCID"@ && holds_text(
                ids@.last().scheme_uri,
                "https://orcid.org"@,
            ),
    {
        let identifier = NameIdentifier {
            name_identifier: String::from_str(orcid),
            name_identifier_scheme: String::from_str("ORCID"),
            scheme_uri: Some(String::from_str("https://orcid.org")),
        };
        let mut ids = match self.name_identifiers {
            Some(v) => v,
            None => Vec::new(),
        };
        let ghost before = ids@;
        ids.push(identifier);
        proof {
            assert(ids@.drop_last() =~= before);
        }
        DataCiteCreator {
            name: self.name,
            name_type: self.name_type,
            given_name: self.given_name,
            family_name: self.family_name,
            name_identifiers: Some(ids),
        }
    }
}

impl DataCiteTitle {
    /// Create a main title.
    pub fn main(title: &str) -> (t: DataCiteTitle)
        ensures
            t.title@ == title@,
            t.title_type is None,
            t.lang is None,
    {
        DataCiteTitle { title: String::from_str(title), title_type: None, lang: None }
    }

    /// Create a subtitle.
    pub fn subtitle(title: &str) -> (t: DataCiteTitle)
        ensures
            t.title@ == title@,
            holds_text(t.title_type, "Subtitle"@),
            t.lang is None,
    {
        DataCiteTitle {
            title: String::from_str(title),
            title_type: Some(String::from_str("Subtitle")),
            lang: None,
        }
    }

    /// Create a translated title in language `lang`.
    pub fn translated(title: &str, lang: &str) -> (t: DataCiteTitle)
        ensures
            t.title@ == title@,
            holds_text(t.title_type, "TranslatedTitle"@),
            holds_text(t.lang, lang@),
    {
        DataCiteTitle {
            title: String::from_str(title),
            title_type: Some(String::from_str("TranslatedTitle")),
            lang: Some(String::from_str(lang)),
        }
    }
}

impl DataCiteResourceType {
    /// Create a dataset resource type.
    pub fn dataset(specific: Option<&str>) -> (t: DataCiteResourceType)
        ensures
            t.resource_type_general@ == "Dataset"@,
            opt_string_text(t.resource_type) == opt_text(specific),
    {
        DataCiteResourceType {
            resource_type_general: String::from_str("Dataset"),
            resource_type: opt_to_string(specific),
        }
    }

    /// Create a software resource type.
    pub fn software(specific: Option<&str>) -> (t: DataCiteResourceType)
        ensures
            t.resource_type_general@ == "Software"@,
            opt_string_text(t.resource_type) == opt_text(specific),
    {
        DataCiteResourceType {
            resource_type_general: String::from_str("Software"),
            resource_type: opt_to_string(specific),
        }
    }

    /// Create a text resource type.
    pub fn text(specific: Option<&str>) -> (t: DataCiteResourceType)
        ensures
            t.resource_type_general@ == "Text"@,
            opt_string_text(t.resource_type) == opt_text(specific),
    {
        DataCiteResourceType {
            resource_type_general: String::from_str("Text"),
            resource_type: opt_to_string(specific),
        }
    }
}

/// Which schema a metadata record follows.
pub enum MetadataKind {
    DublinCore,
    SchemaOrg,
    DataCite,
}

/// Whether `m` follows the schema `kind`.
pub open spec fn is_kind(m: StandardMetadata, kind: MetadataKind) -> bool {
    match kind {
        MetadataKind::DublinCore => m is DublinCore,
        MetadataKind::SchemaOrg => m is SchemaOrg,
        MetadataKind::DataCite => m is DataCite,
    }
}

/// The result of looking up the first record of schema `kind` in `standards`.
pub open spec fn first_of_kind(
    standards: Seq<StandardMetadata>,
    kind: MetadataKind,
    found: Option<&StandardMetadata>,
) -> bool {
    match found {
        Some(m) => exists|k: int|
            0 <= k < standards.len() && standards[k] == *m && is_kind(*m, kind) && forall|j: int|
                0 <= j < k ==> !is_kind(#[trigger] standards[j], kind),
        None => forall|j: int| 0 <= j < standards.len() ==> !is_kind(#[trigger] standards[j], kind),
    }
}

/// Container for multiple metadata standards.
#[derive(Debug, PartialEq)]
pub struct MetadataContainer {
    /// Multiple metadata standards can coexist
    pub standards: Vec<StandardMetadata>,
}

impl Default for MetadataContainer {
    fn default() -> (c: Self)
        ensures
            c.standards@.len() == 0,
    {
        MetadataContainer { standards: Vec::new() }
    }
}

impl MetadataContainer {
    /// Create an empty metadata container.
    pub fn new() -> (c: MetadataContainer)
        ensures
            c.standards@.len() == 0,
    {
        MetadataContainer { standards: Vec::new() }
    }

    /// Add a metadata standard after the ones already present.
    pub fn add(&mut self, metadata: StandardMetadata)
        ensures
            final(self).standards@ == old(self).standards@.push(metadata),
    {
        self.standards.push(metadata);
    }

    /// The first record of schema `kind`, if present.
    fn find_kind(&self, kind: MetadataKind) -> (found: Option<&StandardMetadata>)
        ensures
            first_of_kind(self.standards@, kind, found),
    {
        let mut i: usize = 0;
        while i < self.standards.len()
            invariant
                i <= self.standards@.len(),
                forall|j: int| 0 <= j < i ==> !is_kind(#[trigger] self.standards@[j], kind),
            decreases self.standards@.len() - i,
        {
            let m = &self.standards[i];
            let hit = match kind {
                MetadataKind::DublinCore => matches!(m, StandardMetadata::DublinCore { .. }),
                MetadataKind::SchemaOrg => matches!(m, StandardMetadata::SchemaOrg { .. }),
                MetadataKind::DataCite => matches!(m, StandardMetadata::DataCite { .. }),
            };
            if hit {
                return Some(m);
            }
            i = i + 1;
        }
        None
    }

    /// Get Dublin Core metadata if present (the first such record).
    pub fn get_dublin_core(&self) -> (found: Option<&StandardMetadata>)
        ensures
            first_of_kind(self.standards@, MetadataKind::DublinCore, found),
    {
        self.find_kind(MetadataKind::DublinCore)
    }

    /// Get Schema.org metadata if present (the first such record).
    pub fn get_schema_org(&self) -> (found: Option<&StandardMetadata>)
        ensures
            first_of_kind(self.standards@, MetadataKind::SchemaOrg, found),
    {
        self.find_kind(MetadataKind::SchemaOrg)
    }

    /// Get DataCite metadata if present (the first such record).
    pub fn get_datacite(&self) -> (found: Option<&StandardMetadata>)
        ensures
            first_of_kind(self.standards@, MetadataKind::DataCite, found),
    {
        self.find_kind(MetadataKind::DataCite)
    }

    /// Check if any metadata is present.
    pub fn is_empty(&self) -> (empty: bool)
        ensures
            empty == (self.standards@.len() == 0),
    {
        self.standards.len() == 0
    }

    /// Number of metadata standards present.
    pub fn len(&self) -> (n: usize)
        ensures
            n == self.standards@.len(),
    {
        self.standards.len()
    }
}

} // verus!
