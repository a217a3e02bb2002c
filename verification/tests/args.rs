use agar_keys::args::{parse_args, parse_arguments, parse_u32, str_eq, ArgError, Flag};

fn strings(v: &[&str]) -> Vec<String> {
    v.iter().map(|s| s.to_string()).collect()
}

#[test]
fn numbers() {
    assert_eq!(parse_u32("0"), Some(0));
    assert_eq!(parse_u32("1234"), Some(1234));
    assert_eq!(parse_u32("0x1F"), Some(31));
    assert_eq!(parse_u32("0X1f"), Some(31));
    assert_eq!(parse_u32("0x08004000"), Some(0x0800_4000));
    assert_eq!(parse_u32("0x9d5bcf10"), Some(0x9d5b_cf10));
    assert_eq!(parse_u32("+5"), Some(5));
    assert_eq!(parse_u32("0x+10"), Some(16));
    assert_eq!(parse_u32("4294967295"), Some(u32::MAX));
    assert_eq!(parse_u32("0xFFFFFFFF"), Some(u32::MAX));
}

#[test]
fn not_numbers() {
    assert_eq!(parse_u32(""), None);
    assert_eq!(parse_u32("+"), None);
    assert_eq!(parse_u32("0x"), None);
    assert_eq!(parse_u32("-1"), None);
    assert_eq!(parse_u32("12a"), None);
    assert_eq!(parse_u32("0x1g"), None);
    assert_eq!(parse_u32(" 1"), None);
    assert_eq!(parse_u32("4294967296"), None);
    assert_eq!(parse_u32("0x100000000"), None);
    assert_eq!(parse_u32("é"), None);
}

#[test]
fn numbers_agree_with_std() {
    for s in ["0", "07", "+9", "99999999999", "abc", "", "-0", "1_0"] {
        assert_eq!(parse_u32(s), s.parse::<u32>().ok(), "{s}");
    }
    for s in ["ff", "+ff", "FFFFFFFF", "100000000", "g"] {
        let prefixed = format!("0x{s}");
        assert_eq!(parse_u32(&prefixed), u32::from_str_radix(s, 16).ok(), "{s}");
    }
}

#[test]
fn string_equality() {
    assert!(str_eq("--base", "--base"));
    assert!(!str_eq("--base", "--bas"));
    assert!(!str_eq("a", "b"));
    assert!(str_eq("", ""));
}

#[test]
fn full_command_line() {
    let a = parse_args(&strings(&["agar.bin", "agar.uf2", "--base", "0x08004000", "--family", "0x9d5bcf10"]))
        .unwrap();
    assert_eq!(a.input, "agar.bin");
    assert_eq!(a.output, "agar.uf2");
    assert_eq!(a.base, 0x0800_4000);
    assert_eq!(a.family, 0x9d5b_cf10);
}

#[test]
fn flags_anywhere_and_last_wins() {
    let a = parse_args(&strings(&["--base", "1", "in", "--family", "7", "out", "--base", "512"])).unwrap();
    assert_eq!(a.input, "in");
    assert_eq!(a.output, "out");
    assert_eq!(a.base, 512);
    assert_eq!(a.family, 7);
}

#[test]
fn errors() {
    assert_eq!(parse_arguments(&strings(&["in", "--base"])).err(), Some(ArgError::TakesValue(Flag::Base)));
    assert_eq!(
        parse_arguments(&strings(&["--family", "--base"])).err(),
        Some(ArgError::NotANumber(Flag::Family, "--base".to_string()))
    );
    assert_eq!(parse_arguments(&strings(&["-x"])).err(), Some(ArgError::UnknownFlag("-x".to_string())));
    assert_eq!(parse_arguments(&strings(&["-"])).err(), Some(ArgError::UnknownFlag("-".to_string())));
    assert_eq!(
        parse_arguments(&strings(&["a", "b", "c"])).err(),
        Some(ArgError::UnexpectedArgument("c".to_string()))
    );
    assert_eq!(parse_arguments(&[]).err(), Some(ArgError::MissingInput));
    assert_eq!(parse_arguments(&strings(&["a"])).err(), Some(ArgError::MissingOutput));
    assert_eq!(parse_arguments(&strings(&["a", "b"])).err(), Some(ArgError::MissingBase));
    assert_eq!(parse_arguments(&strings(&["a", "b", "--base", "0"])).err(), Some(ArgError::MissingFamily));
}

#[test]
fn error_messages() {
    let msg = |v: &[&str]| parse_args(&strings(v)).err().unwrap();
    assert_eq!(msg(&["in", "--base"]), "--base takes a value");
    assert_eq!(msg(&["--family", "x1"]), "--family: not a number: x1");
    assert_eq!(msg(&["--verbose"]), "unknown flag: --verbose");
    assert_eq!(msg(&["a", "b", "c"]), "unexpected argument: c");
    assert_eq!(msg(&[]), "missing input");
    assert_eq!(msg(&["a"]), "missing output");
    assert_eq!(msg(&["a", "b"]), "missing --base");
    assert_eq!(msg(&["a", "b", "--base", "0"]), "missing --family");
}

#[test]
fn flags_move_around_positionals() {
    let orders: [&[&str]; 3] = [
        &["--family", "40", "a", "--base", "256", "b"],
        &["a", "b", "--base", "256", "--family", "40"],
        &["a", "--base", "256", "--family", "40", "b"],
    ];
    for argv in orders {
        let a = parse_args(&strings(argv)).unwrap();
        assert_eq!((a.input.as_str(), a.output.as_str(), a.base, a.family), ("a", "b", 256, 40));
    }
}

#[test]
fn numbers_read_back() {
    for n in [0u32, 1, 9, 10, 255, 256, 0x0800_4000, 0x9d5b_cf10, u32::MAX - 1, u32::MAX] {
        assert_eq!(parse_u32(&n.to_string()), Some(n));
        assert_eq!(parse_u32(&format!("{:#x}", n)), Some(n));
        assert_eq!(parse_u32(&format!("0X{:X}", n)), Some(n));
        assert_eq!(parse_u32(&format!("{:#010x}", n)), Some(n));
    }
}
