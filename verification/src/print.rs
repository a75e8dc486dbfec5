//! Printing: printer records and the ESC/POS rendering of a thermal
//! receipt.  Handing the rendered bytes to a print service, and running
//! that service, stay with the caller.

use crate::bytescan::bytes_equal;
use crate::bytescan::contains_bytes;
use crate::bytescan::lines_of;
use crate::bytescan::eq_ignore_case_bytes;
use crate::bytescan::second_segment;
use crate::bytescan::segments_of;
use crate::bytescan::slice_eq_ignore_case;
use crate::bytescan::split_segments;
use crate::bytescan::second_segment_of;
use crate::bytescan::second_token;
use crate::bytescan::slice_contains;
use crate::bytescan::slice_starts_with;
use crate::bytescan::split_lines;
use crate::bytescan::starts_with_bytes;
use crate::bytescan::tokens_of;
use crate::bytescan::trim_bytes;
use crate::bytescan::trim_slice;
use vstd::prelude::*;
use vstd::utf8::decode_utf8;
use vstd::utf8::encode_utf8;
use vstd::utf8::valid_utf8;

verus! {

/// One printer known to the system.
#[derive(Debug, Clone)]
pub struct PrinterInfo {
    pub name: String,
    pub is_default: bool,
    pub status: String,
}

/// Content of a thermal receipt.
#[derive(Debug, Clone)]
pub struct ReceiptData {
    pub title: String,
    pub items: Vec<ReceiptItem>,
    pub total: String,
    pub footer: String,
}

/// One labelled line of a receipt.
#[derive(Debug, Clone)]
pub struct ReceiptItem {
    pub label: String,
    pub value: String,
}

/// What a printed text is when the bytes are read leniently, as
/// `String::from_utf8_lossy` reads them.
pub uninterp spec fn utf8_lossy(bytes: Seq<u8>) -> Seq<char>;

/// Relies on `String::from_utf8_lossy`: on valid UTF-8 it returns exactly
/// the string the bytes encode; elsewhere it substitutes replacement
/// characters, a function of the bytes alone.
#[verifier::external_body]
fn string_from_utf8_lossy(b: &[u8]) -> (r: String)
    ensures
        r@ == utf8_lossy(b@),
        valid_utf8(b@) ==> r@ == decode_utf8(b@),
{
    String::from_utf8_lossy(b).into_owned()
}

/// Ghost record of one printer line of an lpstat listing.
pub struct PrinterModel {
    pub name: Seq<u8>,
    pub is_default: bool,
    pub status_ready: bool,
}

/// Ghost state of the lpstat scan: the printers seen so far and the
/// default destination's name as last announced.
#[verifier::ext_equal]
pub struct LpstatState {
    pub printers: Seq<PrinterModel>,
    pub default_name: Seq<u8>,
}

/// Opening of lpstat's default-destination line.
pub open spec fn lpstat_default_prefix() -> Seq<u8> {
    encode_utf8("system default destination:"@)
}

/// Opening of lpstat's per-printer line.
pub open spec fn lpstat_printer_prefix() -> Seq<u8> {
    encode_utf8("printer"@)
}

/// The word whose presence marks a printer as idle, hence ready.
pub open spec fn lpstat_idle_marker() -> Seq<u8> {
    encode_utf8("idle"@)
}

/// One lpstat line applied to the scan state.  A default-destination line
/// names the default: the text between its first two colons, trimmed.  A
/// printer line adds a record whose name is the line's second token,
/// default exactly when equal to the default named so far, ready exactly
/// when the line mentions `idle`.  Any other line changes nothing.
pub open spec fn lpstat_step(st: LpstatState, line: Seq<u8>) -> LpstatState {
    if starts_with_bytes(line, lpstat_default_prefix()) {
        LpstatState { printers: st.printers, default_name: trim_bytes(second_segment(line, 58)) }
    } else if starts_with_bytes(line, lpstat_printer_prefix()) {
        let toks = tokens_of(line);
        if toks.len() >= 2 {
            LpstatState {
                printers: st.printers.push(
                    PrinterModel {
                        name: toks[1],
                        is_default: toks[1] == st.default_name,
                        status_ready: contains_bytes(line, lpstat_idle_marker()),
                    },
                ),
                default_name: st.default_name,
            }
        } else {
            st
        }
    } else {
        st
    }
}

/// The scan state after reading `lines`, starting from no printers and an
/// empty default name.
pub open spec fn lpstat_scan(lines: Seq<Seq<u8>>) -> LpstatState
    decreases lines.len(),
{
    if lines.len() == 0 {
        LpstatState { printers: Seq::empty(), default_name: Seq::empty() }
    } else {
        lpstat_step(lpstat_scan(lines.drop_last()), lines.last())
    }
}

/// The record `p` renders the ghost record `m`: lenient UTF-8 of the name,
/// the same default flag, and `Ready`/`Unknown` for the status.
pub open spec fn printer_matches_model(p: PrinterInfo, m: PrinterModel) -> bool {
    &&& p.name@ == utf8_lossy(m.name)
    &&& p.is_default == m.is_default
    &&& p.status@ == if m.status_ready {
        "Ready"@
    } else {
        "Unknown"@
    }
}

/// Parse an lpstat `-p -d` listing, as both macOS and Linux print
/// services produce it, into printer records.
pub fn parse_lpstat_output(output: &[u8]) -> (r: Vec<PrinterInfo>)
    ensures
        ({
            let st = lpstat_scan(lines_of(output@));
            &&& r@.len() == st.printers.len()
            &&& forall|k: int|
                0 <= k < r@.len() ==> printer_matches_model(#[trigger] r@[k], st.printers[k])
        }),
{
    let lines = split_lines(output);
    let mut printers: Vec<PrinterInfo> = Vec::new();
    let mut default_printer: Vec<u8> = Vec::new();
    assert(lines.deep_view().take(0) =~= Seq::<Seq<u8>>::empty());
    let mut i: usize = 0;
    while i < lines.len()
        invariant
            i <= lines@.len(),
            lines.deep_view() == lines_of(output@),
            ({
                let st = lpstat_scan(lines.deep_view().take(i as int));
                &&& default_printer@ == st.default_name
                &&& printers@.len() == st.printers.len()
                &&& forall|k: int|
                    0 <= k < printers@.len() ==> printer_matches_model(
                        #[trigger] printers@[k],
                        st.printers[k],
                    )
            }),
        decreases lines@.len() - i,
    {
        let line = &lines[i];
        proof {
            assert(line@ =~= lines.deep_view()[i as int]);
        }
        if slice_starts_with(line.as_slice(), "system default destination:".as_bytes()) {
            let seg = second_segment_of(line.as_slice(), 58);
            default_printer = trim_slice(seg.as_slice());
        } else if slice_starts_with(line.as_slice(), "printer".as_bytes()) {
            match second_token(line.as_slice()) {
                Some(name_bytes) => {
                    let is_default = bytes_equal(name_bytes.as_slice(), default_printer.as_slice());
                    let ready = slice_contains(line.as_slice(), "idle".as_bytes());
                    let name = string_from_utf8_lossy(name_bytes.as_slice());
                    let status = if ready {
                        "Ready".to_owned()
                    } else {
                        "Unknown".to_owned()
                    };
                    printers.push(PrinterInfo { name, is_default, status });
                },
                None => {},
            }
        }
        proof {
            let dv = lines.deep_view();
            assert(dv.take(i + 1).drop_last() =~= dv.take(i as int));
            assert(dv.take(i + 1).last() == dv[i as int]);
        }
        i = i + 1;
    }
    proof {
        let dv = lines.deep_view();
        assert(dv.take(dv.len() as int) =~= dv);
    }
    printers
}

/// Ghost record of one wmic CSV line.
pub struct WmicPrinterModel {
    pub name: Seq<u8>,
    pub is_default: bool,
    pub status: Seq<u8>,
}

/// The word marking the default printer in wmic's CSV.
pub open spec fn wmic_true_word() -> Seq<u8> {
    encode_utf8("TRUE"@)
}

/// One wmic CSV line: lines blank after trimming and lines of fewer than
/// three comma-separated fields are skipped; otherwise the second field is
/// the name, the first says case-insensitively whether the printer is the
/// default, and the third is its status, each trimmed.
pub open spec fn wmic_line_record(line: Seq<u8>) -> Option<WmicPrinterModel> {
    if trim_bytes(line).len() == 0 {
        None
    } else {
        let parts = segments_of(line, 44);
        if parts.len() >= 3 {
            Some(
                WmicPrinterModel {
                    name: trim_bytes(parts[1]),
                    is_default: eq_ignore_case_bytes(trim_bytes(parts[0]), wmic_true_word()),
                    status: trim_bytes(parts[2]),
                },
            )
        } else {
            None
        }
    }
}

/// The records of a sequence of wmic CSV lines, in order.
pub open spec fn wmic_records(lines: Seq<Seq<u8>>) -> Seq<WmicPrinterModel>
    decreases lines.len(),
{
    if lines.len() == 0 {
        Seq::empty()
    } else {
        wmic_records(lines.drop_last()) + (match wmic_line_record(lines.last()) {
            Some(m) => seq![m],
            None => Seq::empty(),
        })
    }
}

/// The data lines of a wmic listing: everything after the header and the
/// blank line that follow it.
pub open spec fn wmic_data_lines(lines: Seq<Seq<u8>>) -> Seq<Seq<u8>> {
    if lines.len() <= 2 {
        Seq::empty()
    } else {
        lines.skip(2)
    }
}

/// The record `p` renders the ghost record `m`: lenient UTF-8 of the name
/// and status, the same default flag.
pub open spec fn wmic_printer_matches(p: PrinterInfo, m: WmicPrinterModel) -> bool {
    &&& p.name@ == utf8_lossy(m.name)
    &&& p.is_default == m.is_default
    &&& p.status@ == utf8_lossy(m.status)
}

fn wmic_parse_line(line: &[u8]) -> (r: Option<PrinterInfo>)
    ensures
        r is Some == wmic_line_record(line@) is Some,
        r matches Some(p) ==> wmic_printer_matches(p, wmic_line_record(line@).unwrap()),
{
    let trimmed = trim_slice(line);
    if trimmed.len() == 0 {
        return None;
    }
    let segs = split_segments(line, 44);
    if segs.len() >= 3 {
        proof {
            assert(segs@[0].deep_view() =~= segs@[0]@);
            assert(segs@[1].deep_view() =~= segs@[1]@);
            assert(segs@[2].deep_view() =~= segs@[2]@);
        }
        let t0 = trim_slice(segs[0].as_slice());
        let t1 = trim_slice(segs[1].as_slice());
        let t2 = trim_slice(segs[2].as_slice());
        let is_default = slice_eq_ignore_case(t0.as_slice(), "TRUE".as_bytes());
        let name = string_from_utf8_lossy(t1.as_slice());
        let status = string_from_utf8_lossy(t2.as_slice());
        Some(PrinterInfo { name, is_default, status })
    } else {
        None
    }
}

/// Parse a wmic CSV printer listing, as the Windows print service produces
/// it, into printer records.
pub fn parse_wmic_output(output: &[u8]) -> (r: Vec<PrinterInfo>)
    ensures
        ({
            let models = wmic_records(wmic_data_lines(lines_of(output@)));
            &&& r@.len() == models.len()
            &&& forall|k: int|
                0 <= k < r@.len() ==> wmic_printer_matches(#[trigger] r@[k], models[k])
        }),
{
    let lines = split_lines(output);
    let mut printers: Vec<PrinterInfo> = Vec::new();
    let ghost data = wmic_data_lines(lines.deep_view());
    assert(data.take(0) =~= Seq::<Seq<u8>>::empty());
    let mut i: usize = 2;
    while i < lines.len()
        invariant
            2 <= i,
            i <= lines@.len() || i == 2,
            lines.deep_view() == lines_of(output@),
            data == wmic_data_lines(lines.deep_view()),
            ({
                let models = wmic_records(data.take(i - 2));
                &&& printers@.len() == models.len()
                &&& forall|k: int|
                    0 <= k < printers@.len() ==> wmic_printer_matches(
                        #[trigger] printers@[k],
                        models[k],
                    )
            }),
        decreases lines@.len() - i,
    {
        let line = &lines[i];
        proof {
            assert(line@ =~= lines.deep_view()[i as int]);
            assert(data[i - 2] == lines.deep_view()[i as int]);
        }
        match wmic_parse_line(line.as_slice()) {
            Some(p) => {
                printers.push(p);
            },
            None => {},
        }
        proof {
            assert(data.take(i - 2 + 1).drop_last() =~= data.take(i - 2));
            assert(data.take(i - 2 + 1).last() == data[i - 2]);
        }
        i = i + 1;
    }
    proof {
        if lines.deep_view().len() > 2 {
            assert(data.take(data.len() as int) =~= data);
        } else {
            assert(data.take(0) =~= data);
        }
    }
    printers
}

/// The `label: value` line printed for one receipt item.
pub open spec fn item_line_bytes(it: ReceiptItem) -> Seq<u8> {
    encode_utf8(it.label@) + encode_utf8(": "@) + encode_utf8(it.value@) + encode_utf8("\n"@)
}

/// The item lines of a receipt, in order.
pub open spec fn items_bytes(items: Seq<ReceiptItem>) -> Seq<u8>
    decreases items.len(),
{
    if items.len() == 0 {
        Seq::empty()
    } else {
        items_bytes(items.drop_last()) + item_line_bytes(items.last())
    }
}

/// Opening commands of a receipt: initialize the printer, center, print
/// the title in bold, two blank lines, then switch to left alignment.
pub open spec fn receipt_header_bytes(title: Seq<char>) -> Seq<u8> {
    seq![0x1bu8, 0x40u8, 0x1bu8, 0x61u8, 0x01u8, 0x1bu8, 0x45u8, 0x01u8] + encode_utf8(title)
        + seq![0x1bu8, 0x45u8, 0x00u8] + encode_utf8("\n\n"@) + seq![0x1bu8, 0x61u8, 0x00u8]
}

/// Closing commands of a receipt: a rule, the total in bold, the centered
/// footer, and the paper cut.
pub open spec fn receipt_trailer_bytes(total: Seq<char>, footer: Seq<char>) -> Seq<u8> {
    encode_utf8("\n"@) + encode_utf8("--------------------------------\n"@)
        + seq![0x1bu8, 0x45u8, 0x01u8] + encode_utf8("TOTAL: "@) + encode_utf8(total)
        + encode_utf8("\n"@) + seq![0x1bu8, 0x45u8, 0x00u8] + encode_utf8("\n"@)
        + seq![0x1bu8, 0x61u8, 0x01u8] + encode_utf8(footer) + encode_utf8("\n\n\n"@)
        + seq![0x1du8, 0x56u8, 0x00u8]
}

/// The full ESC/POS command stream for a receipt.
pub open spec fn receipt_bytes(rd: ReceiptData) -> Seq<u8> {
    receipt_header_bytes(rd.title@) + items_bytes(rd.items@) + receipt_trailer_bytes(
        rd.total@,
        rd.footer@,
    )
}

/// Append `bytes` to `out`.
fn push_bytes(out: &mut Vec<u8>, bytes: &[u8])
    ensures
        final(out)@ == old(out)@ + bytes@,
{
    let mut i: usize = 0;
    while i < bytes.len()
        invariant
            i <= bytes@.len(),
            out@ == old(out)@ + bytes@.take(i as int),
        decreases bytes@.len() - i,
    {
        out.push(bytes[i]);
        assert(out@ =~= old(out)@ + bytes@.take(i + 1));
        i = i + 1;
    }
    assert(out@ =~= old(out)@ + bytes@);
}

/// Render a receipt as one ESC/POS command stream, ready to hand to a raw
/// printer port.
#[verifier::rlimit(60)]
pub fn build_receipt_commands(receipt_data: &ReceiptData) -> (r: Vec<u8>)
    ensures
        r@ == receipt_bytes(*receipt_data),
{
    let mut commands: Vec<u8> = Vec::new();

    // Initialize printer, center-align, switch bold on.
    commands.push(0x1b);
    commands.push(0x40);
    commands.push(0x1b);
    commands.push(0x61);
    commands.push(0x01);
    commands.push(0x1b);
    commands.push(0x45);
    commands.push(0x01);
    push_bytes(&mut commands, receipt_data.title.as_str().as_bytes());
    commands.push(0x1b);
    commands.push(0x45);
    commands.push(0x00);
    push_bytes(&mut commands, "\n\n".as_bytes());
    commands.push(0x1b);
    commands.push(0x61);
    commands.push(0x00);
    assert(commands@ =~= receipt_header_bytes(receipt_data.title@));

    let ghost header = commands@;
    let mut i: usize = 0;
    while i < receipt_data.items.len()
        invariant
            i <= receipt_data.items@.len(),
            header == receipt_header_bytes(receipt_data.title@),
            commands@ == header + items_bytes(receipt_data.items@.take(i as int)),
        decreases receipt_data.items@.len() - i,
    {
        let item = &receipt_data.items[i];
        push_bytes(&mut commands, item.label.as_str().as_bytes());
        push_bytes(&mut commands, ": ".as_bytes());
        push_bytes(&mut commands, item.value.as_str().as_bytes());
        push_bytes(&mut commands, "\n".as_bytes());
        proof {
            let items = receipt_data.items@;
            assert(items.take(i + 1).drop_last() =~= items.take(i as int));
            assert(items.take(i + 1).last() == items[i as int]);
            assert(commands@ =~= header + items_bytes(items.take(i + 1)));
        }
        i = i + 1;
    }
    assert(receipt_data.items@.take(receipt_data.items@.len() as int) =~= receipt_data.items@);

    let ghost body = commands@;
    push_bytes(&mut commands, "\n".as_bytes());
    push_bytes(&mut commands, "--------------------------------\n".as_bytes());
    commands.push(0x1b);
    commands.push(0x45);
    commands.push(0x01);
    push_bytes(&mut commands, "TOTAL: ".as_bytes());
    push_bytes(&mut commands, receipt_data.total.as_str().as_bytes());
    push_bytes(&mut commands, "\n".as_bytes());
    commands.push(0x1b);
    commands.push(0x45);
    commands.push(0x00);
    push_bytes(&mut commands, "\n".as_bytes());
    commands.push(0x1b);
    commands.push(0x61);
    commands.push(0x01);
    push_bytes(&mut commands, receipt_data.footer.as_str().as_bytes());
    push_bytes(&mut commands, "\n\n\n".as_bytes());
    commands.push(0x1d);
    commands.push(0x56);
    commands.push(0x00);
    assert(commands@ =~= body + receipt_trailer_bytes(receipt_data.total@, receipt_data.footer@));
    assert(commands@ =~= receipt_bytes(*receipt_data));

    commands
}

} // verus!
