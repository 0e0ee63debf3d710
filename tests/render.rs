use pghr13::{
    parse_count_text, push_decimal, read_key_document, split_key_line, trim_text, KeyError,
    SolidityLibraries, PGHR13,
};

fn scalar(c: char) -> String {
    let mut s = String::from("0x");
    for _ in 0..64 {
        s.push(c);
    }
    s
}

fn digits(c: char) -> String {
    scalar(c)[2..].to_string()
}

fn g1(x: char, y: char) -> String {
    format!("{}, {}", scalar(x), scalar(y))
}

fn g2(a: char, b: char, c: char, d: char) -> String {
    format!("[{}, {}], [{}, {}]", scalar(a), scalar(b), scalar(c), scalar(d))
}

fn header() -> Vec<String> {
    vec![
        format!("vk.a = {}", g2('a', 'b', 'c', 'd')),
        format!("vk.b = {}", g1('1', '2')),
        format!("vk.c = {}", g2('3', '4', '5', '6')),
        format!("vk.gamma = {}", g2('7', '8', '9', 'A')),
        format!("vk.gammaBeta1 = {}", g1('B', 'C')),
        format!("vk.gammaBeta2 = {}", g2('D', 'E', 'F', 'e')),
        format!("vk.z = {}", g2('f', '0', '1', '2')),
    ]
}

fn document(ic: &[(char, char)]) -> Vec<String> {
    let mut lines = header();
    lines.push(format!("vk.ic.len() = {}", ic.len()));
    for (i, (x, y)) in ic.iter().enumerate() {
        lines.push(format!("vk.ic[{}] = {}", i, g1(*x, *y)));
    }
    lines
}

fn libraries() -> SolidityLibraries {
    SolidityLibraries {
        g2_addition: String::from("// g2 addition\n"),
        pairing: String::from("// pairing\n"),
        pairing_v2: String::from("// pairing v2\n"),
    }
}

fn solidity(lines: &Vec<String>, v2: bool) -> Result<String, KeyError> {
    PGHR13::new().export_solidity_verifier(lines, v2, &libraries())
}

fn avm(lines: &Vec<String>) -> Result<String, KeyError> {
    PGHR13::new().export_avm_verifier(lines)
}

#[test]
fn g1_header_renders_as_uint256_pair() {
    let mut lines = document(&[('1', '2')]);
    lines[1] = format!("A = {},{}", scalar('1'), scalar('2'));
    let out = solidity(&lines, false).unwrap();
    let expected = format!(
        "vk.b = Pairing.G1Point(uint256({}),uint256({}));",
        scalar('1'),
        scalar('2')
    );
    assert!(out.contains(&expected));
}

#[test]
fn three_commitment_points() {
    let lines = document(&[('1', '2'), ('3', '4'), ('5', '6')]);
    let out = solidity(&lines, false).unwrap();
    assert!(out.contains("vk.ic = new Pairing.G1Point[](3);"));
    let body = format!(
        "vk.ic[0] = Pairing.G1Point(uint256({}), uint256({}));\n        \
         vk.ic[1] = Pairing.G1Point(uint256({}), uint256({}));\n        \
         vk.ic[2] = Pairing.G1Point(uint256({}), uint256({}));\n    }}",
        scalar('1'),
        scalar('2'),
        scalar('3'),
        scalar('4'),
        scalar('5'),
        scalar('6')
    );
    assert!(out.contains(&body));
    assert_eq!(out.matches("] = Pairing.G1Point(").count(), 3);
    assert!(!out.contains("vk.ic[3] ="));
}

#[test]
fn header_line_without_separator_is_malformed() {
    let mut lines = document(&[('1', '2')]);
    lines[2] = String::from("vk.c 0x00");
    assert_eq!(solidity(&lines, false), Err(KeyError::MalformedKeyLine));
    assert_eq!(solidity(&lines, true), Err(KeyError::MalformedKeyLine));
    assert_eq!(avm(&lines), Err(KeyError::MalformedKeyLine));
}

#[test]
fn line_with_two_separators_is_malformed() {
    let mut lines = document(&[('1', '2'), ('3', '4')]);
    lines[9] = String::from("vk.ic[1] = 0x1 = 0x2");
    assert_eq!(solidity(&lines, false), Err(KeyError::MalformedKeyLine));
}

#[test]
fn short_documents_end_unexpectedly() {
    let lines = document(&[('1', '2'), ('3', '4')]);
    let mut short = lines.clone();
    short.pop();
    assert_eq!(solidity(&short, false), Err(KeyError::UnexpectedEndOfInput));
    assert_eq!(avm(&short), Err(KeyError::UnexpectedEndOfInput));
    let header_only: Vec<String> = lines[..5].to_vec();
    assert_eq!(solidity(&header_only, false), Err(KeyError::UnexpectedEndOfInput));
    assert_eq!(avm(&Vec::new()), Err(KeyError::UnexpectedEndOfInput));
}

#[test]
fn bad_counts_are_refused() {
    for bad in ["abc", "-1", "", "1.5", "2147483648"] {
        let mut lines = document(&[]);
        lines[7] = format!("vk.ic.len() = {}", bad);
        assert_eq!(solidity(&lines, false), Err(KeyError::InvalidIcCount), "{}", bad);
        assert_eq!(avm(&lines), Err(KeyError::InvalidIcCount), "{}", bad);
    }
}

#[test]
fn zero_commitment_points() {
    let lines = document(&[]);
    assert_eq!(solidity(&lines, false), Err(KeyError::InvalidIcCount));
    assert_eq!(solidity(&lines, true), Err(KeyError::InvalidIcCount));
    let out = avm(&lines).unwrap();
    assert!(out.contains("G1Point[] ic = new G1Point[0];\n        \n\n        return new VerifyingKey("));
}

#[test]
fn input_length_is_one_less_than_commitments() {
    let lines = document(&[('1', '2'), ('3', '4'), ('5', '6')]);
    let v1 = solidity(&lines, false).unwrap();
    assert!(v1.contains("uint[2] memory input"));
    let v2 = solidity(&lines, true).unwrap();
    assert!(v2.contains("uint[2] memory input"));
    let single = solidity(&document(&[('1', '2')]), false).unwrap();
    assert!(single.contains("uint[0] memory input"));
    let many: Vec<(char, char)> = (0..12).map(|_| ('7', '8')).collect();
    let out = solidity(&document(&many), false).unwrap();
    assert!(out.contains("new Pairing.G1Point[](12);"));
    assert!(out.contains("uint[11] memory input"));
    assert!(out.contains("vk.ic[10] = "));
    assert!(out.contains("vk.ic[11] = "));
}

#[test]
fn abi_flag_selects_template_and_library() {
    let lines = document(&[('1', '2')]);
    let v1 = solidity(&lines, false).unwrap();
    let v2 = solidity(&lines, true).unwrap();
    assert!(v1.starts_with("// g2 addition\n// pairing\ncontract Verifier {"));
    assert!(v2.starts_with("// g2 addition\n// pairing v2\ncontract Verifier {"));
    assert!(v1.contains("uint[2] memory a_p,"));
    assert!(!v2.contains("uint[2] memory a_p,"));
    assert!(v2.contains("Proof memory proof,\n            uint[0] memory input"));
}

#[test]
fn no_placeholder_survives() {
    let lines = document(&[('1', '2'), ('3', '4')]);
    for out in [
        solidity(&lines, false).unwrap(),
        solidity(&lines, true).unwrap(),
        avm(&lines).unwrap(),
    ] {
        assert!(!out.contains("<%"));
        assert!(!out.contains("%>"));
    }
}

#[test]
fn solidity_header_values_in_order() {
    let lines = document(&[('1', '2')]);
    let out = solidity(&lines, false).unwrap();
    let u = |c: char| format!("uint256({})", scalar(c));
    let a = format!(
        "vk.a = Pairing.G2Point([{}, {}], [{}, {}]);",
        u('a'),
        u('b'),
        u('c'),
        u('d')
    );
    let gb1 = format!("vk.gamma_beta_1 = Pairing.G1Point({}, {});", u('B'), u('C'));
    let z = format!(
        "vk.z = Pairing.G2Point([{}, {}], [{}, {}]);",
        u('f'),
        u('0'),
        u('1'),
        u('2')
    );
    assert!(out.contains(&a));
    assert!(out.contains(&gb1));
    assert!(out.contains(&z));
    assert!(out.find(&a).unwrap() < out.find(&gb1).unwrap());
    assert!(out.find(&gb1).unwrap() < out.find(&z).unwrap());
}

#[test]
fn avm_swaps_g2_coordinate_pairs() {
    let lines = document(&[('1', '2')]);
    let out = avm(&lines).unwrap();
    let q = |c: char| format!("\"{}\"", digits(c));
    let sep = ",\n                ";
    let a = format!(
        "G2Point a = new G2Point({}{}{}{}{}{}{});",
        q('b'),
        sep,
        q('a'),
        sep,
        q('d'),
        sep,
        q('c')
    );
    let b = format!("G1Point b = new G1Point({}{}{});", q('1'), sep, q('2'));
    assert!(out.contains(&a));
    assert!(out.contains(&b));
    assert!(out.starts_with("// This file is MIT Licensed"));
}

#[test]
fn avm_commitment_points() {
    let lines = document(&[('1', '2'), ('3', '4'), ('5', '6')]);
    let out = avm(&lines).unwrap();
    assert!(out.contains("G1Point[] ic = new G1Point[3];"));
    let q = |c: char| format!("\"{}\"", digits(c));
    let body = format!(
        "ic[0] = new G1Point({}, {});\n        ic[1] = new G1Point({}, {});\n        ic[2] = new G1Point({}, {});",
        q('1'),
        q('2'),
        q('3'),
        q('4'),
        q('5'),
        q('6')
    );
    assert!(out.contains(&body));
}

#[test]
fn avm_output_holds_no_prefixed_scalar() {
    let lines = document(&[('1', '2'), ('3', '4')]);
    let out = avm(&lines).unwrap();
    assert!(!out.contains("0x"));
    assert!(!out.contains("0X"));
    assert!(out.contains(&format!("\"{}\"", digits('e'))));
}

#[test]
fn solidity_rewrite_keeps_prefix() {
    let mut lines = document(&[('1', '2')]);
    lines[1] = format!("vk.b = 0X{}, {}", digits('9'), scalar('8'));
    let out = solidity(&lines, false).unwrap();
    assert!(out.contains(&format!(
        "vk.b = Pairing.G1Point(uint256(0X{}), uint256({}));",
        digits('9'),
        scalar('8')
    )));
}

#[test]
fn avm_wrong_scalar_counts_are_malformed() {
    let mut lines = document(&[('1', '2')]);
    lines[1] = format!("vk.b = {}", g2('1', '2', '3', '4'));
    assert_eq!(avm(&lines), Err(KeyError::MalformedScalar));
    let mut lines = document(&[('1', '2')]);
    lines[0] = format!("vk.a = {}", g1('1', '2'));
    assert_eq!(avm(&lines), Err(KeyError::MalformedScalar));
    let mut lines = document(&[('1', '2'), ('3', '4')]);
    lines[9] = format!("vk.ic[1] = {}, 0x1234", scalar('3'));
    assert_eq!(avm(&lines), Err(KeyError::MalformedScalar));
    // the Solidity export passes values through unparsed
    assert!(solidity(&lines, false).is_ok());
}

#[test]
fn lines_after_the_points_are_ignored() {
    let mut lines = document(&[('1', '2')]);
    let expected = solidity(&lines, false).unwrap();
    lines.push(String::from("trailing text"));
    assert_eq!(solidity(&lines, false).unwrap(), expected);
}

#[test]
fn key_document_values_are_trimmed() {
    let mut lines = document(&[('1', '2')]);
    lines[0] = String::from("a =\t  x y \u{3000}");
    let doc = read_key_document(&lines).unwrap();
    assert_eq!(doc.header.len(), 7);
    assert_eq!(doc.header[0], "x y");
    assert_eq!(doc.ic.len(), 1);
    assert_eq!(doc.ic[0], g1('1', '2'));
}

#[test]
fn split_and_trim() {
    assert_eq!(split_key_line("a = b"), Some("b"));
    assert_eq!(split_key_line("a=  "), Some(""));
    assert_eq!(split_key_line("a b"), None);
    assert_eq!(split_key_line("a = b = c"), None);
    assert_eq!(trim_text("\u{a0} x \n"), "x");
    assert_eq!(trim_text("   "), "");
}

#[test]
fn counts() {
    assert_eq!(parse_count_text("7"), Some(7));
    assert_eq!(parse_count_text("+7"), Some(7));
    assert_eq!(parse_count_text("007"), Some(7));
    assert_eq!(parse_count_text("2147483647"), Some(2147483647));
    assert_eq!(parse_count_text("2147483648"), None);
    assert_eq!(parse_count_text("99999999999999999999999"), None);
    assert_eq!(parse_count_text("+"), None);
    assert_eq!(parse_count_text("-0"), Some(0));
    assert_eq!(parse_count_text("-00"), Some(0));
    assert_eq!(parse_count_text("-1"), None);
    assert_eq!(parse_count_text("-"), None);
    assert_eq!(parse_count_text("1 2"), None);
}

#[test]
fn decimal_numerals() {
    let mut s = String::from("n=");
    push_decimal(&mut s, 0);
    assert_eq!(s, "n=0");
    let mut s = String::new();
    push_decimal(&mut s, 10);
    assert_eq!(s, "10");
    let mut s = String::new();
    push_decimal(&mut s, 1234509);
    assert_eq!(s, "1234509");
}

#[test]
fn avm_overlong_scalar_is_malformed() {
    let mut lines = document(&[('1', '2')]);
    lines[1] = format!("vk.b = {}1,{}", scalar('1'), scalar('2'));
    assert_eq!(avm(&lines), Err(KeyError::MalformedScalar));
    let mut lines = document(&[('1', '2')]);
    lines[8] = format!("vk.ic[0] = {}, {}f", scalar('1'), scalar('2'));
    assert_eq!(avm(&lines), Err(KeyError::MalformedScalar));
}

#[test]
fn avm_stray_short_token_is_malformed() {
    let mut lines = document(&[('1', '2')]);
    lines[1] = format!("vk.b = {}, {}, 0x12", scalar('1'), scalar('2'));
    assert_eq!(avm(&lines), Err(KeyError::MalformedScalar));
    let mut lines = document(&[('1', '2')]);
    lines[0] = format!("vk.a = 0x12 {}", g2('a', 'b', 'c', 'd'));
    assert_eq!(avm(&lines), Err(KeyError::MalformedScalar));
    let mut lines = document(&[('1', '2')]);
    lines[8] = format!("vk.ic[0] = [{}, 0x12, {}]", scalar('1'), scalar('2'));
    assert_eq!(avm(&lines), Err(KeyError::MalformedScalar));
}

#[test]
fn avm_stray_text_is_malformed() {
    let mut lines = document(&[('1', '2')]);
    lines[4] = format!("vk.gammaBeta1 = {}; {}", scalar('B'), scalar('C'));
    assert_eq!(avm(&lines), Err(KeyError::MalformedScalar));
    let mut lines = document(&[('1', '2')]);
    lines[4] = format!("vk.gammaBeta1 = x{}, {}", scalar('B'), scalar('C'));
    assert_eq!(avm(&lines), Err(KeyError::MalformedScalar));
}

#[test]
fn avm_accepts_separators_of_all_kinds() {
    let mut lines = document(&[('1', '2')]);
    lines[1] = format!("vk.b = [ {},\t{} ]", scalar('1'), scalar('2'));
    let out = avm(&lines).unwrap();
    assert!(out.contains(&format!(
        "G1Point b = new G1Point(\"{}\",\n                \"{}\");",
        digits('1'),
        digits('2')
    )));
}

#[test]
fn solidity_keeps_wrapped_scalars() {
    let mut lines = document(&[('1', '2')]);
    lines[1] = format!("vk.b = uint256({}), {}", scalar('1'), scalar('2'));
    let out = solidity(&lines, false).unwrap();
    assert!(out.contains(&format!(
        "vk.b = Pairing.G1Point(uint256({}), uint256({}));",
        scalar('1'),
        scalar('2')
    )));
    assert!(!out.contains("uint256(uint256("));
}
