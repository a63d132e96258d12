use xscreen::number::{greatest_common_divisor, number_text, read_number, read_u64, NumberError};

fn read(text: &str) -> Result<u64, NumberError> {
    read_u64(&text.chars().collect::<Vec<char>>())
}

#[test]
fn numbers_are_read_as_std_reads_them() {
    for text in [
        "", "+", "-", "0", "+0", "007", "42", "+42", "-42", "4 2", " 42", "4x", "x4", "++4", "٣",
        "18446744073709551615", "18446744073709551616", "18446744073709551616x",
        "99999999999999999999999999", "00000000000000000000000000000000001",
    ] {
        let expected = text.parse::<u64>();
        match read(text) {
            Ok(n) => assert_eq!(expected, Ok(n), "{text}"),
            Err(e) => assert_eq!(expected.unwrap_err().to_string(), e.message(), "{text}"),
        }
    }
}

#[test]
fn small_numbers_have_a_small_limit() {
    for text in ["0", "100", "255", "256", "999", "+7", "", "x"] {
        let chars: Vec<char> = text.chars().collect();
        assert_eq!(read_number(&chars, 255).ok(), text.parse::<u8>().ok().map(u64::from));
    }
}

#[test]
fn numbers_are_written_and_read_back() {
    for n in [0, 9, 10, 99, 100, 12_345, u64::MAX] {
        assert_eq!(number_text(n), n.to_string());
        assert_eq!(read(&number_text(n)), Ok(n));
    }
}

#[test]
fn greatest_common_divisors() {
    assert_eq!(greatest_common_divisor(6, 4), 2);
    assert_eq!(greatest_common_divisor(7, 0), 7);
    assert_eq!(greatest_common_divisor(0, 7), 7);
    assert_eq!(greatest_common_divisor(u64::MAX, 5), 5);
}
