use std::time::Duration;

use ldap_rs::error::Error;
use ldap_rs::filter::parse_filter;
use ldap_rs::filter::tree::Filter;
use ldap_rs::model::{Attribute, ChangeOperation, ModifyRequestChanges};
use ldap_rs::{
    ModifyRequest, SearchRequest, SearchRequestBuilder, SearchRequestDerefAliases, SearchRequestScope,
};

#[test]
fn builder_starts_empty() {
    let b = SearchRequest::builder();
    assert_eq!(b, SearchRequestBuilder::new());
    assert_eq!(b.base_dn, "");
    assert_eq!(b.scope, SearchRequestScope::BaseObject);
    assert_eq!(b.deref_aliases, SearchRequestDerefAliases::NeverDerefAliases);
    assert_eq!(b.size_limit, 0);
    assert_eq!(b.time_limit, 0);
    assert!(!b.types_only);
    assert_eq!(b.filter, "");
    assert!(b.attributes.is_empty());
}

#[test]
fn builder_sets_each_field() {
    let req = SearchRequest::builder()
        .base_dn("dc=example,dc=com")
        .scope(SearchRequestScope::WholeSubtree)
        .deref_aliases(SearchRequestDerefAliases::DerefAlways)
        .size_limit(100)
        .time_limit(Duration::from_millis(30_999))
        .types_only(true)
        .filter("(cn=*)")
        .attributes(vec!["cn", "sn"])
        .attribute("mail")
        .build()
        .unwrap();
    assert_eq!(req.base_dn, "dc=example,dc=com");
    assert_eq!(req.scope, SearchRequestScope::WholeSubtree);
    assert_eq!(req.deref_aliases, SearchRequestDerefAliases::DerefAlways);
    assert_eq!(req.size_limit, 100);
    assert_eq!(req.time_limit, 30);
    assert!(req.types_only);
    assert_eq!(req.filter, Filter::Present(b"cn".to_vec()));
    assert_eq!(req.attributes, vec!["cn".to_string(), "sn".to_string(), "mail".to_string()]);
}

#[test]
fn later_setting_replaces_earlier_and_attributes_add_up() {
    let b = SearchRequest::builder()
        .base_dn("a")
        .base_dn("b")
        .filter("(x=1)")
        .filter("(y=2)")
        .attribute("one")
        .attributes(vec!["two"])
        .attributes(vec![]);
    assert_eq!(b.base_dn, "b");
    assert_eq!(b.filter, "(y=2)");
    assert_eq!(b.attributes, vec!["one".to_string(), "two".to_string()]);
}

#[test]
fn time_limit_goes_out_in_seconds_cut_to_32_bits() {
    let req = SearchRequest::builder()
        .filter("(cn=*)")
        .time_limit(Duration::from_secs(0x1_0000_0005))
        .build()
        .unwrap();
    assert_eq!(req.time_limit, 5);
}

#[test]
fn build_rejects_a_bad_filter() {
    assert_eq!(SearchRequest::builder().filter("(cn=").build(), Err(Error::InvalidFilter));
    assert_eq!(SearchRequest::builder().build(), Err(Error::InvalidFilter));
}

#[test]
fn root_dse_is_the_base_object_with_object_class_present() {
    let req = SearchRequest::root_dse();
    assert_eq!(req.base_dn, "");
    assert_eq!(req.scope, SearchRequestScope::BaseObject);
    assert_eq!(req.filter, parse_filter("(objectClass=*)").unwrap());
    assert_eq!(req, SearchRequest::builder().filter("(objectClass=*)").build().unwrap());
}

#[test]
fn search_request_clone_is_equal() {
    let req = SearchRequest::builder()
        .base_dn("dc=x")
        .filter("(&(a=1)(|(b=2*)(c:dn:1.2:=3))(!(d>=4)))")
        .attribute("cn")
        .build()
        .unwrap();
    assert_eq!(req.clone(), req);
}

fn attr(name: &str, value: &[u8]) -> Attribute {
    Attribute { name: name.to_owned(), values: vec![value.to_vec()] }
}

#[test]
fn modify_builder_keeps_the_order_of_changes() {
    let req = ModifyRequest::builder("cn=user,dc=example")
        .add_op(attr("mail", b"a@b"))
        .delete_op(attr("fax", b""))
        .replace_op(attr("mobile", b"123456"))
        .build();
    assert_eq!(req.object_dn, "cn=user,dc=example");
    assert_eq!(
        req.changes,
        vec![
            ModifyRequestChanges { operation: ChangeOperation::Add, modification: attr("mail", b"a@b") },
            ModifyRequestChanges { operation: ChangeOperation::Delete, modification: attr("fax", b"") },
            ModifyRequestChanges {
                operation: ChangeOperation::Replace,
                modification: attr("mobile", b"123456")
            },
        ]
    );
}

#[test]
fn modify_builder_without_changes() {
    let req = ModifyRequest::builder("").build();
    assert_eq!(req.object_dn, "");
    assert!(req.changes.is_empty());
}
