use mise::image_processing::is_at_least_major_minor;

#[test]
fn test_is_at_least_major_minor() {
    let test_cases = vec![
        // (installed, minimum, expected)
        ((1, 0), (1, 1), false),
        ((1, 1), (1, 1), true),
        ((2, 0), (1, 1), true),
        ((0, 2), (1, 1), false),
    ];

    for (installed, minimum, expected) in test_cases {
        let result = is_at_least_major_minor(installed, minimum);
        assert_eq!(
            result, expected,
            "installed: {:?}, minimum: {:?}, expected to be: {}",
            installed, minimum, expected
        );
    }
}

#[test]
fn numbers_are_read_as_the_standard_library_reads_them() {
    let mut texts: Vec<String> = [
        "", "+", "-", "0", "-0", "+0", "00", "7", "-7", "+7", "0007", "-0007", "12a", "a12", "1 2",
        " 1", "1 ", "--1", "+-1", "-+1", "1_000", "1.0", "١٢", "2147483647", "2147483648",
        "-2147483648", "-2147483649", "+2147483647", "+2147483648", "4294967296",
        "99999999999999999999999999999999999999", "-99999999999999999999999999999999999999",
        "000000000000000000000000000000000000002147483647",
        "-000000000000000000000000000000000000002147483648",
        "000000000000000000000000000000000000002147483648",
    ]
    .iter()
    .map(|text| (*text).to_owned())
    .collect();
    for number in [-100_000i64, -1, 0, 1, 9, 10, 11, 99, 100, 2147483646, 21474836470, -21474836480] {
        texts.push(number.to_string());
    }
    for text in texts {
        assert_eq!(
            text.parse::<i32>().ok(),
            mise::image_processing::parse_i32(&text),
            "{text:?}"
        );
    }
}
