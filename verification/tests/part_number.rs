use dust_mail::error::ErrorKind;
use dust_mail::part_number::PartNumber;

#[test]
fn part_number_round_trips_through_text() {
    let number = PartNumber::parse("1.2.1").unwrap();
    assert_eq!(number.to_text(), "1.2.1");
    assert_eq!(number.len(), 3);
    let number: PartNumber = "10.0.7".parse().unwrap();
    assert_eq!(number.to_text(), "10.0.7");
}

#[test]
fn clone_and_add_appends_exactly_one_segment() {
    let number = PartNumber::parse("1.2").unwrap();
    let longer = number.clone_and_add(5);
    assert_eq!(longer.to_text(), "1.2.5");
    assert_eq!(longer.len(), number.len() + 1);
    assert_eq!(number.to_text(), "1.2");
}

#[test]
fn add_appends_in_place() {
    let mut number = PartNumber::new();
    assert_eq!(number.to_text(), "");
    assert_eq!(number.len(), 0);
    number.add(3);
    assert_eq!(number.to_text(), "3");
    number.add(14);
    assert_eq!(number.to_text(), "3.14");
}

#[test]
fn part_number_reads_what_a_number_parser_reads() {
    assert_eq!(PartNumber::parse("01.2").unwrap().to_text(), "1.2");
    assert_eq!(PartNumber::parse("+1").unwrap().to_text(), "1");
    assert_eq!(PartNumber::parse("0").unwrap().to_text(), "0");
}

#[test]
fn part_number_rejects_what_is_no_number() {
    for text in ["", "1..2", ".", "1.", "a", "1.b", "-1", "1 .2", "+", "99999999999999999999999999"] {
        let error = PartNumber::parse(text).unwrap_err();
        assert_eq!(*error.kind(), ErrorKind::ParseInt, "{:?}", text);
    }
}

#[test]
fn section_path_keeps_small_segments() {
    let number = PartNumber::parse("1.2.300").unwrap();
    assert_eq!(number.section_path(), vec![1u32, 2, 300]);
    assert_eq!(PartNumber::new().section_path(), Vec::<u32>::new());
}
