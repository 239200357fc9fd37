use scimforge::common::ResourceId;
use scimforge::group::Member;



#[test]
fn member_value_is_a_resource_id_not_an_external_id() {
    let member = Member {
        value: ResourceId::new("u-1"),
        ref_: None,
        display: None,
        type_: Some("User".to_string()),
    };
    assert_eq!(member.value.as_str(), "u-1");
}
