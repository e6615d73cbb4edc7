use citadel::models::category::Category;
use citadel::models::metadata::{
    DataCiteCreator, DataCiteResourceType, DataCiteTitle, MetadataContainer, StandardMetadata,
};
use citadel::models::release::Release;
use std::collections::HashMap;

#[test]
fn new_category() {
    let cat = Category::new("music".to_string(), "Music".to_string());
    assert_eq!(cat.id, "music");
    assert_eq!(cat.name, "Music");
}

#[test]
fn defaults_not_empty() {
    let defaults = Category::defaults();
    assert!(!defaults.is_empty());
    assert!(defaults.iter().any(|c| c.id == "music"));
}

#[test]
fn defaults_are_the_six_content_types() {
    let defaults = Category::defaults();
    let pairs: Vec<(&str, &str)> = defaults.iter().map(|c| (c.id.as_str(), c.name.as_str())).collect();
    assert_eq!(
        pairs,
        vec![
            ("music", "Music"),
            ("movies", "Movies"),
            ("tv", "TV Shows"),
            ("games", "Games"),
            ("books", "Books"),
            ("software", "Software"),
        ]
    );
    assert!(defaults.iter().all(|c| c.description.is_none() && c.parent_id.is_none() && c.icon.is_none()));
}

#[test]
fn new_release() {
    let release = Release::new("abc123".to_string(), "Test Album".to_string(), "music".to_string());
    assert_eq!(release.id, "abc123");
    assert_eq!(release.title, "Test Album");
    assert_eq!(release.category_id, "music");
    assert_eq!(release.schema_version, "1.0.0");
}

#[test]
fn release_generate_id_deterministic() {
    let id1 = Release::generate_id(b"test content");
    let id2 = Release::generate_id(b"test content");
    assert_eq!(id1, id2);
}

#[test]
fn release_generate_id_is_hex_blake3() {
    assert_eq!(
        Release::generate_id(b""),
        "af1349b9f5f9a1a6a0404dea36dcc9499bcb25c9adc112b7cc9a93cae41f3262"
    );
    let id = Release::generate_id(b"test content");
    assert_eq!(id, blake3::hash(b"test content").to_hex().to_string());
    assert_eq!(id.len(), 64);
    assert_ne!(Release::generate_id(b"a"), Release::generate_id(b"b"));
}

fn empty_dublin_core(title: &str) -> StandardMetadata {
    StandardMetadata::DublinCore {
        title: Some(title.to_string()),
        creator: None,
        subject: None,
        description: None,
        publisher: None,
        contributor: None,
        date: None,
        dc_type: None,
        format: None,
        identifier: None,
        source: None,
        language: None,
        relation: None,
        coverage: None,
        rights: None,
    }
}

#[test]
fn metadata_container() {
    let mut container = MetadataContainer::new();
    assert!(container.is_empty());

    container.add(empty_dublin_core("Test"));

    assert!(!container.is_empty());
    assert_eq!(container.len(), 1);
    assert!(container.get_dublin_core().is_some());
    assert!(container.get_schema_org().is_none());
}

#[test]
fn metadata_container_finds_first_of_each_schema() {
    let mut container = MetadataContainer::default();
    container.add(StandardMetadata::Custom { schema: "x".to_string(), data: serde_json::Value::from(1) });
    container.add(empty_dublin_core("first"));
    container.add(empty_dublin_core("second"));
    container.add(StandardMetadata::DataCite {
        doi: None,
        creators: vec![DataCiteCreator::organizational("Example University")],
        titles: vec![DataCiteTitle::main("Data")],
        publisher: "Example University".to_string(),
        publication_year: 2024,
        resource_type: DataCiteResourceType::dataset(None),
        subjects: None,
        additional: HashMap::new(),
    });
    assert_eq!(container.len(), 4);
    assert_eq!(container.get_dublin_core(), Some(&empty_dublin_core("first")));
    assert!(matches!(container.get_datacite(), Some(StandardMetadata::DataCite { publication_year: 2024, .. })));
    assert!(container.get_schema_org().is_none());
}

#[test]
fn datacite_creator_constructors() {
    let creator = DataCiteCreator::personal("John", "Smith").with_orcid("0000-0001-2345-6789");
    assert_eq!(creator.name, "Smith, John");
    assert_eq!(creator.name_type.as_deref(), Some("Personal"));
    assert_eq!(creator.given_name.as_deref(), Some("John"));
    assert_eq!(creator.family_name.as_deref(), Some("Smith"));
    let ids = creator.name_identifiers.clone().unwrap();
    assert_eq!(ids.len(), 1);
    assert_eq!(ids[0].name_identifier, "0000-0001-2345-6789");
    assert_eq!(ids[0].name_identifier_scheme, "ORCID");
    assert_eq!(ids[0].scheme_uri.as_deref(), Some("https://orcid.org"));

    let twice = creator.with_orcid("0000-0002-0000-0000");
    let ids = twice.name_identifiers.unwrap();
    assert_eq!(ids.len(), 2);
    assert_eq!(ids[1].name_identifier, "0000-0002-0000-0000");

    let org = DataCiteCreator::organizational("Example Org");
    assert_eq!(org.name, "Example Org");
    assert_eq!(org.name_type.as_deref(), Some("Organizational"));
    assert!(org.given_name.is_none() && org.family_name.is_none() && org.name_identifiers.is_none());
}

#[test]
fn datacite_titles_and_types() {
    let main = DataCiteTitle::main("Example Research Data");
    assert_eq!(main.title, "Example Research Data");
    assert!(main.title_type.is_none() && main.lang.is_none());
    let sub = DataCiteTitle::subtitle("More");
    assert_eq!(sub.title_type.as_deref(), Some("Subtitle"));
    let tr = DataCiteTitle::translated("Titre", "fr");
    assert_eq!(tr.title_type.as_deref(), Some("TranslatedTitle"));
    assert_eq!(tr.lang.as_deref(), Some("fr"));

    let ds = DataCiteResourceType::dataset(Some("Experimental Data"));
    assert_eq!(ds.resource_type_general, "Dataset");
    assert_eq!(ds.resource_type.as_deref(), Some("Experimental Data"));
    assert_eq!(DataCiteResourceType::software(None).resource_type_general, "Software");
    assert!(DataCiteResourceType::software(None).resource_type.is_none());
    assert_eq!(DataCiteResourceType::text(Some("Article")).resource_type_general, "Text");
}
