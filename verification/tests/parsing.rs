use migrator::addrs::{AddrInfo, Addrs};
use migrator::seeds::Seeds;
use migrator::text::{split_lines, tokenize};
use migrator::trytes::{check_trytes, parse_number};

#[test]
fn trytes_accept_only_tryte_chars() {
    assert!(check_trytes("AZ9"));
    assert!(check_trytes(""));
    assert!(!check_trytes("az9"));
    assert!(!check_trytes("A Z"));
    assert!(!check_trytes("ABC1"));
}

#[test]
fn numbers_parse_exactly() {
    assert_eq!(parse_number("0"), Some(0));
    assert_eq!(parse_number("2000000"), Some(2_000_000));
    assert_eq!(parse_number("18446744073709551615"), Some(18_446_744_073_709_551_615));
    assert_eq!(parse_number(""), None);
    assert_eq!(parse_number("12a"), None);
    assert_eq!(parse_number("-4"), None);
    assert_eq!(parse_number("+4"), None);
    assert_eq!(parse_number(" 4"), None);
    assert_eq!(parse_number("99999999999999999999999999"), None);
}

#[test]
fn lines_split_and_strip_carriage_returns() {
    let lines = split_lines("a\nb\r\n\nlast");
    let texts: Vec<&str> = lines.iter().map(|l| l.as_str()).collect();
    assert_eq!(texts, vec!["a", "b", "", "last"]);
    assert_eq!(split_lines("").len(), 0);
    assert_eq!(split_lines("one\n").len(), 1);
}

#[test]
fn tokens_split_on_spaces_and_tabs() {
    let toks = tokenize("  A \tB  C ");
    let texts: Vec<&str> = toks.iter().map(|t| t.as_str()).collect();
    assert_eq!(texts, vec!["A", "B", "C"]);
    assert_eq!(tokenize("").len(), 0);
    assert_eq!(tokenize("   ").len(), 0);
}

#[test]
fn addr_line_parses_three_columns() {
    let addr81: String = "A".repeat(81);
    let line = format!("{} 5 2000000", addr81);
    let a = AddrInfo::from_line(&line).expect("well-formed line");
    assert_eq!(a.addr, addr81);
    assert_eq!(a.idx, 5);
    assert_eq!(a.bal, 2_000_000);
}

#[test]
fn addr_line_strips_checksum_to_81_trytes() {
    let addr90: String = "B".repeat(90);
    let line = format!("{} 0 1", addr90);
    let a = AddrInfo::from_line(&line).expect("well-formed line");
    assert_eq!(a.addr.len(), 81);
    assert_eq!(a.addr, "B".repeat(81));
}

#[test]
fn addr_line_rejects_malformed_columns() {
    assert!(AddrInfo::from_line("").is_none());
    assert!(AddrInfo::from_line("AAA 1").is_none());
    assert!(AddrInfo::from_line("aaa 1 2").is_none());
    assert!(AddrInfo::from_line("AAA x 2").is_none());
    assert!(AddrInfo::from_line("AAA 1 y").is_none());
}

#[test]
fn addrs_file_skips_bad_lines() {
    let text = format!(
        "{} 0 300000\nnot a row\n{} 1 2000000\n",
        "C".repeat(81),
        "D".repeat(81)
    );
    let addrs = Addrs::from_text(&text);
    assert_eq!(addrs.len(), 2);
    assert_eq!(addrs.items()[0].bal, 300_000);
    assert_eq!(addrs.items()[1].idx, 1);
}

#[test]
fn seeds_file_keeps_only_tryte_lines() {
    let good: String = "E".repeat(81);
    let text = format!("\n{}\nlower case\n9A9\n", good);
    let seeds = Seeds::from_text(&text);
    assert_eq!(seeds.len(), 2);
    assert_eq!(seeds.items()[0], good);
    assert_eq!(seeds.items()[1], "9A9");
}
