use pass_secret_service::catalog::collection_id_for;
use pass_secret_service::slug::slugify;

#[test]
fn slugify_examples() {
    assert_eq!(slugify("  Hello, World!  "), "hello_world");
    assert_eq!(slugify("___"), "");
    assert_eq!(slugify(""), "");
    assert_eq!(slugify("Default"), "default");
    assert_eq!(slugify("a--b__c"), "a_b_c");
    assert_eq!(slugify("Grüße 2024"), "gr_e_2024");
}

#[test]
fn collection_ids_join_slug_and_suffix() {
    assert_eq!(collection_id_for("My Label", "x1Y2"), "my_label_x1Y2");
    assert_eq!(collection_id_for("Default", "abcd"), "default_abcd");
}
