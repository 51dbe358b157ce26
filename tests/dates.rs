use journal::date::DateParts;

#[test]
fn date_text_pads_fields() {
    let d = DateParts { year: 2023, month: 5, day: 17 };
    assert_eq!(d.to_text(), "2023-05-17");
    let d = DateParts { year: 7, month: 12, day: 1 };
    assert_eq!(d.to_text(), "0007-12-01");
}

#[test]
fn date_text_of_wide_and_negative_numbers() {
    let d = DateParts { year: 12345, month: 123, day: 0 };
    assert_eq!(d.to_text(), "12345-123-00");
    let d = DateParts { year: -5, month: 1, day: 1 };
    assert_eq!(d.to_text(), "-005-01-01");
}
