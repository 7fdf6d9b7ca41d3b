use numancy::NumerologyError;

#[test]
fn error_messages() {
    assert_eq!(NumerologyError::EmptyName.message(), "name has no usable letters");
    assert_eq!(
        NumerologyError::EmptyAddress.message(),
        "address has no usable digits or letters"
    );
    let e = NumerologyError::InvalidDate {
        year: 2000,
        month: 2,
        day: 32,
    };
    assert_eq!(e.message(), "invalid date 2000-02-32");
    let e = NumerologyError::InvalidDate {
        year: 0,
        month: 13,
        day: 0,
    };
    assert_eq!(e.message(), "invalid date 0-13-00");
    let e = NumerologyError::InvalidDate {
        year: u32::MAX,
        month: 100,
        day: 7,
    };
    assert_eq!(e.message(), format!("invalid date {}-{:02}-{:02}", u32::MAX, 100, 7));
}
