use rfc_mirror::index::{parse_index, pending, IndexError, SEPARATOR};
use rfc_mirror::resolve::Rfc;

fn sample_index() -> String {
    let mut t = String::new();
    t.push_str("RFC INDEX\n\n(CREATED ON: 10/19/2026.)\n\n");
    t.push_str(SEPARATOR);
    t.push_str("\n\nRFC Index\n\n");
    t.push_str(SEPARATOR);
    t.push_str("\n\n");
    t.push_str("0001 Host Software. S. Crocker. April 1969. (Format: TXT=21088\n");
    t.push_str("     bytes) (Status: UNKNOWN) (DOI: 10.17487/RFC0001)\n\n");
    t.push_str("0002 Not Issued.\n\n");
    t.push_str("0003 Documentation conventions. S.D. Crocker. April 1969. (Format:\n");
    t.push_str("     PDF=1000 bytes) (Status: UNKNOWN)\n\n");
    t.push_str("0791 Internet Protocol. J. Postel. September 1981. (Format: TXT=97779\n");
    t.push_str("     bytes) (Status: INTERNET STANDARD)\n");
    t
}

#[test]
fn missing_separator_is_fatal() {
    let t = "0001 Host Software. (Format: TXT=21088 bytes)\n\n0002 Not Issued.\n";
    assert_eq!(parse_index(t), Err(IndexError::MissingSeparator));
}

#[test]
fn short_separator_is_not_accepted() {
    let t = "~~~~~~~~~~\n\n0001 Host Software. (Format: TXT=21088 bytes)\n";
    assert_eq!(parse_index(t), Err(IndexError::MissingSeparator));
}

#[test]
fn records_after_the_last_separator() {
    let items = parse_index(&sample_index()).unwrap();
    assert_eq!(
        items,
        vec![
            Rfc { num: 1, has_txt: true },
            Rfc { num: 3, has_txt: false },
            Rfc { num: 791, has_txt: true },
        ]
    );
}

#[test]
fn format_on_a_wrapped_line_is_joined() {
    let mut t = String::from(SEPARATOR);
    t.push_str("\n\n0042 Title. (Format:\n     TXT=5 bytes)\n");
    let items = parse_index(&t).unwrap();
    assert_eq!(items, vec![Rfc { num: 42, has_txt: true }]);
}

#[test]
fn format_split_by_an_unjoined_line_break_is_not_text() {
    let mut t = String::from(SEPARATOR);
    t.push_str("\n\n0042 Title. (Format: TXT=5\nbytes)\n");
    let items = parse_index(&t).unwrap();
    assert_eq!(items, vec![Rfc { num: 42, has_txt: false }]);
}

#[test]
fn blocks_without_a_number_are_skipped() {
    let mut t = String::from(SEPARATOR);
    t.push_str("\n\n123 too short\n\nabcd letters\n\n 0001 indented\n");
    assert_eq!(parse_index(&t).unwrap(), vec![]);
}

#[test]
fn empty_listing() {
    assert_eq!(parse_index(SEPARATOR).unwrap(), vec![]);
}

#[test]
fn pending_counts_retrievable_minus_present() {
    let items = vec![
        Rfc { num: 1, has_txt: true },
        Rfc { num: 2, has_txt: true },
        Rfc { num: 3, has_txt: false },
        Rfc { num: 4, has_txt: true },
        Rfc { num: 5, has_txt: true },
    ];
    // four retrievable, one of them present
    let present = vec![false, true, false, false, false];
    let p = pending(&items, &present);
    assert_eq!(p.len(), 4 - 1);
    assert_eq!(
        p,
        vec![
            Rfc { num: 1, has_txt: true },
            Rfc { num: 4, has_txt: true },
            Rfc { num: 5, has_txt: true },
        ]
    );
}

#[test]
fn pending_of_nothing() {
    assert_eq!(pending(&vec![], &vec![]), vec![]);
}

#[test]
fn non_ascii_titles_are_read() {
    let mut t = String::from("Índice\n\n");
    t.push_str(SEPARATOR);
    t.push_str("\n\n0007 Réseau — façade. (Format: TXT=7 bytes)\n\n0008 Überblick. (Format: PDF=8 bytes)\n");
    assert_eq!(
        parse_index(&t).unwrap(),
        vec![Rfc { num: 7, has_txt: true }, Rfc { num: 8, has_txt: false }]
    );
}
