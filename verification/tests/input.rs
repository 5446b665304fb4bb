use game_of_life::input::{count_from, read_input, DEFAULT_ALIVE};

#[test]
fn default_is_half_the_world() {
    assert_eq!(DEFAULT_ALIVE, 800);
}

#[test]
fn number_larger_than_the_world_is_clamped() {
    assert_eq!(read_input("9999"), 1600);
    assert_eq!(read_input("1601"), 1600);
    assert_eq!(read_input("18446744073709551615"), 1600);
}

#[test]
fn text_that_is_no_number_gives_the_default() {
    assert_eq!(read_input("abc"), 800);
    assert_eq!(read_input(""), 800);
    assert_eq!(read_input("\n"), 800);
    assert_eq!(read_input("12a"), 800);
    assert_eq!(read_input("1 2"), 800);
    assert_eq!(read_input("-1"), 800);
    assert_eq!(read_input("+"), 800);
    assert_eq!(read_input("++1"), 800);
    assert_eq!(read_input("1.5"), 800);
    assert_eq!(read_input("1_000"), 800);
    assert_eq!(read_input("0x10"), 800);
}

#[test]
fn number_within_the_world_is_taken_as_it_is() {
    assert_eq!(read_input("0"), 0);
    assert_eq!(read_input("1"), 1);
    assert_eq!(read_input("42"), 42);
    assert_eq!(read_input("800"), 800);
    assert_eq!(read_input("1599"), 1599);
    assert_eq!(read_input("1600"), 1600);
    assert_eq!(read_input("+7"), 7);
    assert_eq!(read_input("007"), 7);
}

#[test]
fn white_space_around_the_number_is_ignored() {
    assert_eq!(read_input("9999\n"), 1600);
    assert_eq!(read_input("12\n"), 12);
    assert_eq!(read_input("12\r\n"), 12);
    assert_eq!(read_input("  \t 12  "), 12);
    assert_eq!(read_input("\u{a0}5\u{3000}"), 5);
    assert_eq!(read_input("abc\n"), 800);
}

#[test]
fn number_too_large_for_the_machine_gives_the_default() {
    assert_eq!(read_input("99999999999999999999999999999999999999999"), 800);
    assert_eq!(read_input("340282366920938463463374607431768211456"), 800);
}

#[test]
fn read_input_agrees_with_the_standard_parser() {
    let lines = [
        "5", " 5", "5 ", "+5", "-5", "", " ", "+", "-", "٣", "５", "1600", "1601", "00000000000000000000000000001",
        "18446744073709551615", "18446744073709551616", "4294967295", "4294967296", "\u{85}7\u{2003}",
        "\u{200b}7", "7\u{feff}", "1e3", "١٢", "\t\n\u{b}\u{c}\r 3",
    ];
    for line in lines.iter() {
        let expected = match line.trim().parse::<usize>() {
            Ok(num) => num.min(1600),
            Err(_) => 800,
        };
        assert_eq!(read_input(line), expected, "line {:?}", line);
    }
}

#[test]
fn count_from_clamps_and_defaults() {
    assert_eq!(count_from(None), 800);
    assert_eq!(count_from(Some(0)), 0);
    assert_eq!(count_from(Some(1600)), 1600);
    assert_eq!(count_from(Some(1601)), 1600);
    assert_eq!(count_from(Some(usize::MAX)), 1600);
}
