use scimforge::common::{ExternalId, Mutability, ResourceId};

#[test]
fn resource_id_and_external_id_are_not_interchangeable_types() {
    let id = ResourceId::new("srv-generated-001");
    let ext = ExternalId::new("idp-supplied-001");
    assert_eq!(id.as_str(), "srv-generated-001");
    assert_eq!(ext.as_str(), "idp-supplied-001");
}

#[test]
fn resource_id_with_the_same_text_as_an_external_id_are_still_different_values() {
    let id = ResourceId::new("1");
    let ext = ExternalId::new("1");
    assert_eq!(id.as_str(), ext.as_str());
}

#[test]
fn mutability_from_rfc_str_parses_all_four_values() {
    assert_eq!(
        Mutability::from_rfc_str("readOnly"),
        Some(Mutability::ReadOnly)
    );
    assert_eq!(
        Mutability::from_rfc_str("readWrite"),
        Some(Mutability::ReadWrite)
    );
    assert_eq!(
        Mutability::from_rfc_str("immutable"),
        Some(Mutability::Immutable)
    );
    assert_eq!(
        Mutability::from_rfc_str("writeOnly"),
        Some(Mutability::WriteOnly)
    );
    assert_eq!(Mutability::from_rfc_str("ReadOnly"), None);
    assert_eq!(Mutability::from_rfc_str("bogus"), None);
}

