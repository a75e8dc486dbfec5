use staff_admin::print::{build_receipt_commands, parse_lpstat_output, parse_wmic_output,
    ReceiptData, ReceiptItem};

#[test]
fn receipt_commands_match_the_expected_stream() {
    let receipt = ReceiptData {
        title: "SACCO".to_string(),
        items: vec![
            ReceiptItem { label: "Member".to_string(), value: "A-001".to_string() },
            ReceiptItem { label: "Amount".to_string(), value: "1500".to_string() },
        ],
        total: "1500".to_string(),
        footer: "Thank you".to_string(),
    };
    let commands = build_receipt_commands(&receipt);

    let mut expected: Vec<u8> = Vec::new();
    expected.extend_from_slice(&[0x1b, 0x40]);
    expected.extend_from_slice(&[0x1b, 0x61, 0x01]);
    expected.extend_from_slice(&[0x1b, 0x45, 0x01]);
    expected.extend_from_slice(b"SACCO");
    expected.extend_from_slice(&[0x1b, 0x45, 0x00]);
    expected.extend_from_slice(b"\n\n");
    expected.extend_from_slice(&[0x1b, 0x61, 0x00]);
    expected.extend_from_slice(b"Member: A-001\n");
    expected.extend_from_slice(b"Amount: 1500\n");
    expected.extend_from_slice(b"\n");
    expected.extend_from_slice(b"--------------------------------\n");
    expected.extend_from_slice(&[0x1b, 0x45, 0x01]);
    expected.extend_from_slice(b"TOTAL: 1500\n");
    expected.extend_from_slice(&[0x1b, 0x45, 0x00]);
    expected.extend_from_slice(b"\n");
    expected.extend_from_slice(&[0x1b, 0x61, 0x01]);
    expected.extend_from_slice(b"Thank you\n\n\n");
    expected.extend_from_slice(&[0x1d, 0x56, 0x00]);

    assert_eq!(commands, expected);
}

#[test]
fn receipt_with_no_items_still_renders() {
    let receipt = ReceiptData {
        title: "T".to_string(),
        items: vec![],
        total: "0".to_string(),
        footer: "F".to_string(),
    };
    let commands = build_receipt_commands(&receipt);
    // Initialize, center, bold-on is how every receipt begins.
    assert_eq!(&commands[0..5], &[0x1b, 0x40, 0x1b, 0x61, 0x01]);
    // The stream always ends with the paper cut.
    assert_eq!(&commands[commands.len() - 3..], &[0x1d, 0x56, 0x00]);
}

#[test]
fn lpstat_listing_with_default_first_marks_the_default() {
    let listing = b"system default destination: Office\nprinter Office is idle.  enabled since Mon\nprinter Back now printing Back-42.\n";
    let printers = parse_lpstat_output(listing);
    assert_eq!(printers.len(), 2);
    assert_eq!(printers[0].name, "Office");
    assert!(printers[0].is_default);
    assert_eq!(printers[0].status, "Ready");
    assert_eq!(printers[1].name, "Back");
    assert!(!printers[1].is_default);
    assert_eq!(printers[1].status, "Unknown");
}

#[test]
fn lpstat_default_announced_late_applies_only_after_its_line() {
    // The scan reads the listing in order: a printer line seen before the
    // default announcement compares against the default known so far.
    let listing = b"printer Office is idle.\nsystem default destination: Office\nprinter Office is idle.\n";
    let printers = parse_lpstat_output(listing);
    assert_eq!(printers.len(), 2);
    assert!(!printers[0].is_default);
    assert!(printers[1].is_default);
}

#[test]
fn lpstat_ignores_unrelated_lines() {
    let listing = b"scheduler is running\nno system default destination\n";
    let printers = parse_lpstat_output(listing);
    assert_eq!(printers.len(), 0);
}

#[test]
fn wmic_listing_reads_fields_and_skips_short_lines() {
    let listing = b"Node,Default,Name,Status\n\nHOST,TRUE, HP LaserJet ,OK\nHOST,FALSE,Dot Matrix,Offline\nmalformed line\n";
    let printers = parse_wmic_output(listing);
    assert_eq!(printers.len(), 2);
    assert_eq!(printers[0].name, "TRUE");
    assert_eq!(printers[1].name, "FALSE");
    assert_eq!(printers[0].status, " HP LaserJet ".trim());
}

#[test]
fn wmic_default_flag_is_case_insensitive() {
    let listing = b"header\n\n true ,Printer1,Ready\nFALSE,Printer2,Ready\n";
    let printers = parse_wmic_output(listing);
    assert_eq!(printers.len(), 2);
    assert!(printers[0].is_default);
    assert_eq!(printers[0].name, "Printer1");
    assert!(!printers[1].is_default);
    assert_eq!(printers[1].status, "Ready");
}

#[test]
fn wmic_skips_the_two_header_lines_and_blanks() {
    let listing = b"TRUE,NotRead,X\nTRUE,NotRead,Y\n\n\nFALSE,Real,Ready\n";
    let printers = parse_wmic_output(listing);
    assert_eq!(printers.len(), 1);
    assert_eq!(printers[0].name, "Real");
}
