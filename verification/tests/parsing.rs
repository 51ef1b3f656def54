use knights_tour::board::corner_radius::CornerRadius;
use knights_tour::board_pos::{BoardPos, alphabetize};
use knights_tour::board_size::BoardSize;
use std::cmp::Ordering;

#[test]
fn test_corner_radius_parsing() {
    let test_ok = |input, expected: ((u32, u32), (u32, u32), (u32, u32), (u32, u32))| {
        let result = CornerRadius::try_from(input).expect(&format!("Failed to parse {input}"));
        println!("{input} -> {result:?} == {expected:?}");
        assert_eq!(result.top_left().vertical(), expected.0.0, "Top left v");
        assert_eq!(result.top_left().horizontal(), expected.0.1, "Top left h");
        assert_eq!(result.top_right().vertical(), expected.1.0, "Top right v");
        assert_eq!(result.top_right().horizontal(), expected.1.1, "Top right h");
        assert_eq!(result.bottom_right().vertical(), expected.2.0, "Bottom right v");
        assert_eq!(result.bottom_right().horizontal(), expected.2.1, "Bottom right h");
        assert_eq!(result.bottom_left().vertical(), expected.3.0, "Bottom left v");
        assert_eq!(result.bottom_left().horizontal(), expected.3.1, "Bottom left h");
    };
    let test_err = |input, expected| {
        let result: Result<CornerRadius, String> = CornerRadius::try_from(input);
        assert!(result.is_err());
        assert_eq!(result.unwrap_err(), expected);
    };

    test_ok("1", ((1, 1), (1, 1), (1, 1), (1, 1)));
    test_ok("1 2 3 4", ((1, 1), (2, 2), (3, 3), (4, 4)));
    test_ok("1,2,3,4", ((1, 1), (2, 2), (3, 3), (4, 4)));
    test_ok("1, 2, 3, 4", ((1, 1), (2, 2), (3, 3), (4, 4)));
    test_ok("(1 2) (3 4) (5 6) (7 8)", ((1, 2), (3, 4), (5, 6), (7, 8)));
    test_ok("(1,2)(3,4)(5,6)(7,8)", ((1, 2), (3, 4), (5, 6), (7, 8)));
    test_ok("(1, 2) (3, 4) (5, 6) (7, 8)", ((1, 2), (3, 4), (5, 6), (7, 8)));
    test_ok("(1,2) (3,4),(5,6),(7,8)", ((1, 2), (3, 4), (5, 6), (7, 8)));

    test_err("1 2 3", "Invalid number of corners - expected 1 or 4");
    test_err("1 2 3 4 5", "Invalid number of corners - expected 1 or 4");
    test_err("1 2 3 4 5,", "Unexpected end of input");
    test_err("(1 2 3 4 5 6", "Expected ')' or whitespace");
    test_err("()", "Expected digit or whitespace");
    test_err("(", "Unexpected end of input");
    test_err("1+", "Expected whitespace or ','");
}

#[test]
fn test_alphabetize() {
    assert_eq!("A", alphabetize(1));
    assert_eq!("Z", alphabetize(26));
    assert_eq!("AA", alphabetize(27));
    assert_eq!("AZ", alphabetize(52));
    assert_eq!("BA", alphabetize(53));
    assert_eq!("ZZZ", alphabetize(18278));

    assert_eq!(BoardPos::try_from("A-1").unwrap().col(), 1);
    assert_eq!(BoardPos::try_from("Z-1").unwrap().col(), 26);
    assert_eq!(BoardPos::try_from("AA-1").unwrap().col(), 27);
    assert_eq!(BoardPos::try_from("AZ-1").unwrap().col(), 52);
    assert_eq!(BoardPos::try_from("BA-1").unwrap().col(), 53);
    assert_eq!(BoardPos::try_from("ZZZ-1").unwrap().col(), 18278);
}

#[test]
fn board_pos_parse_rejects_bad_input() {
    assert!(BoardPos::try_from("").is_err());
    assert!(BoardPos::try_from("12").is_err());
    assert!(BoardPos::try_from("A-0").unwrap_err() == "Invalid row: 0");
    assert!(BoardPos::try_from("A1B").is_err());
    let p = knights_tour::board_pos::parse_board_pos("B3").unwrap();
    assert_eq!(p.col(), 1);
    assert_eq!(p.row(), 2);
}

#[test]
fn board_size_parse_roundtrip() {
    let s = knights_tour::board_size::parse_board_size("12x9").unwrap();
    assert_eq!(s.width(), 12);
    assert_eq!(s.height(), 9);
    let square = knights_tour::board_size::parse_board_size("23").unwrap();
    assert_eq!(square.width(), 23);
    assert_eq!(square.height(), 23);
    assert!(knights_tour::board_size::parse_board_size("1x2x3").is_err());
    assert!(knights_tour::board_size::parse_board_size("").is_err());
    assert!(knights_tour::board_size::parse_board_size("axb").is_err());
}

#[test]
fn board_sizes_order_componentwise() {
    let a = BoardSize::new(4, 6);
    assert_eq!(a.partial_cmp(&BoardSize::new(4, 6)), Some(Ordering::Equal));
    assert_eq!(a.partial_cmp(&BoardSize::new(5, 8)), Some(Ordering::Less));
    assert_eq!(a.partial_cmp(&BoardSize::new(4, 9)), Some(Ordering::Less));
    assert_eq!(a.partial_cmp(&BoardSize::new(3, 6)), Some(Ordering::Greater));
    assert_eq!(a.partial_cmp(&BoardSize::new(3, 8)), None);
    assert!(a < BoardSize::new(10, 10));
}

#[test]
fn field_size_parse() {
    let f = knights_tour::field_size::parse_field_size("30x20").unwrap();
    assert_eq!(f.width(), 30);
    assert_eq!(f.height(), 20);
    let square = knights_tour::field_size::parse_field_size("16").unwrap();
    assert_eq!(square.width(), 16);
    assert_eq!(square.height(), 16);
    assert!(knights_tour::field_size::parse_field_size("70000").is_err());
}
