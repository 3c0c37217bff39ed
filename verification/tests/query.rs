use dust_mail::part_number::PartNumber;
use dust_mail::query::QueryBuilder;

#[test]
fn empty_query_is_an_empty_list() {
    assert_eq!(QueryBuilder::new().build(), "()");
}

#[test]
fn default_query_asks_for_flags_size_and_uid() {
    assert_eq!(QueryBuilder::default().build(), "(FLAGS RFC822.SIZE UID)");
}

#[test]
fn items_stay_in_the_order_in_which_they_were_asked_for() {
    let query = QueryBuilder::new().uid().bodystructure().flags().size().build();
    assert_eq!(query, "(UID BODYSTRUCTURE FLAGS RFC822.SIZE)");
}

#[test]
fn named_headers_are_asked_for_by_name() {
    let query = QueryBuilder::new().headers(vec!["From", "Date", "Subject"]).build();
    assert_eq!(query, "(BODY[HEADER.FIELDS (From Date Subject)])");
    let query = QueryBuilder::new().headers(vec!["To"]).build();
    assert_eq!(query, "(BODY[HEADER.FIELDS (To)])");
}

#[test]
fn no_header_names_ask_for_the_whole_header_block() {
    let query = QueryBuilder::new().headers(Vec::new()).build();
    assert_eq!(query, "(BODY[HEADER])");
}

#[test]
fn sections_are_addressed_by_part_number() {
    let number = PartNumber::parse("1.2").unwrap();
    let query = QueryBuilder::new().section(&number).build();
    assert_eq!(query, "(BODY[1.2])");
    let query = QueryBuilder::new().flags().section(&number).section(&number.clone_and_add(3)).build();
    assert_eq!(query, "(FLAGS BODY[1.2] BODY[1.2.3])");
}
