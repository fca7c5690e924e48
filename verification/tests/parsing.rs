use log_annotator::config::DebuggerVarilator;
use log_annotator::filter::filter_log_text;
use log_annotator::filter::line_passes;
use log_annotator::locate::address_operand;
use log_annotator::locate::indent_line;
use log_annotator::locate::not_found_sentinel;
use log_annotator::locate::parse_location;
use log_annotator::locate::render_fetched;
use log_annotator::numbers::parse_dec_usize;
use log_annotator::numbers::parse_hex_u32;
use log_annotator::range::extract_range;
use log_annotator::range::AddressRange;
use log_annotator::replace::replace_all;
use log_annotator::text::split_lines;

#[test]
fn split_lines_basic() {
    assert_eq!(split_lines("a\nb\n"), vec!["a".to_string(), "b".to_string()]);
    assert_eq!(split_lines("a\nb"), vec!["a".to_string(), "b".to_string()]);
    assert_eq!(split_lines(""), Vec::<String>::new());
    assert_eq!(split_lines("a\n\n"), vec!["a".to_string(), "".to_string()]);
}

#[test]
fn hex_parse_exact() {
    assert_eq!(parse_hex_u32("8000"), Some(0x8000));
    assert_eq!(parse_hex_u32("ffffffff"), Some(u32::MAX));
    assert_eq!(parse_hex_u32("00000001"), Some(1));
    assert_eq!(parse_hex_u32("100000000"), None);
    assert_eq!(parse_hex_u32("aBcDeF"), Some(0xabcdef));
}

#[test]
fn dec_parse_exact() {
    assert_eq!(parse_dec_usize("42"), Some(42));
    assert_eq!(parse_dec_usize("0"), Some(0));
    assert_eq!(parse_dec_usize("99999999999999999999999"), None);
}

#[test]
fn extract_range_entry_and_matching_load() {
    let dump = "Entry point 0x8000\n\
                LOAD 0x000000 0x00008000 0x8000 0x100 0x0 R E 0x10000\n";
    let r = extract_range(dump);
    assert_eq!(r, AddressRange { start: 0x8000, size: 0x100 });
}

#[test]
fn extract_range_readelf_shape() {
    let dump = "Entry point 0x10074\n\
                Program Headers:\n\
                  Type           Offset   VirtAddr   PhysAddr   FileSiz MemSiz  Flg Align\n\
                  LOAD           0x000000 0x00010000 0x00010000 0x00188 0x00188 R E 0x10000\n";
    let r = extract_range(dump);
    assert_eq!(r, AddressRange { start: 0x10074, size: 0x188 });
}

#[test]
fn extract_range_without_entry_line() {
    let dump = "Program Headers:\nnothing here\n";
    let r = extract_range(dump);
    assert_eq!(r, AddressRange { start: u32::MAX, size: 0 });
}

#[test]
fn extract_range_no_load_in_entry_segment() {
    let dump = "Entry point 0x8000\n\
                LOAD 0x0 0x0 0x20000 0x100 0x0 \n";
    let r = extract_range(dump);
    assert_eq!(r, AddressRange { start: 0x8000, size: 0 });
}

#[test]
fn extract_range_first_qualifying_load_wins() {
    let dump = "Entry point 0x8000\n\
                LOAD 0x0 0x0 0x9000 0x111 0x0 \n\
                LOAD 0x0 0x0 0x9000 0x222 0x0 \n";
    let r = extract_range(dump);
    assert_eq!(r, AddressRange { start: 0x8000, size: 0x111 });
}

#[test]
fn filter_boundaries_are_strict() {
    let range = AddressRange { start: 0x8000, size: 0x100 };
    assert!(line_passes("00 00 00008050 00 nop", &range));
    assert!(!line_passes("00 00 00008000 00 nop", &range));
    assert!(!line_passes("00 00 00008100 00 nop", &range));
    assert!(line_passes("00 00 000080ff 00 nop", &range));
    assert!(line_passes("00 00 00008001 00 nop", &range));
}

#[test]
fn filter_drops_shapeless_lines() {
    let range = AddressRange { start: 0, size: u32::MAX };
    assert!(!line_passes("hello world", &range));
    assert!(!line_passes("00 00", &range));
    assert!(!line_passes("", &range));
    // An address field too wide for 32 bits never passes.
    assert!(!line_passes("00 00 123456789 00 nop", &range));
}

#[test]
fn filter_record_may_start_inside_the_line() {
    let range = AddressRange { start: 0x50, size: 0x10 };
    assert!(line_passes("zz 12 34 56 78 ab", &range));
    assert!(!line_passes("zz 12 34 78 56 ab", &range));
}

#[test]
fn filter_log_text_keeps_order_and_appends_newlines() {
    let range = AddressRange { start: 0x8000, size: 0x100 };
    let log = "00 00 00008050 00 nop\n\
               garbage\n\
               00 00 00008000 00 nop\n\
               00 00 00008060 00 add\n";
    let out = filter_log_text(log, &range);
    assert_eq!(out, "00 00 00008050 00 nop\n00 00 00008060 00 add\n");
}

#[test]
fn address_operand_takes_third_token() {
    assert_eq!(address_operand("00 00 00001004 00 nop"), Some("00001004".to_string()));
    assert_eq!(address_operand("  a  b   c  "), Some("c".to_string()));
    assert_eq!(address_operand("00 00"), None);
    assert_eq!(address_operand(""), None);
}

#[test]
fn parse_location_splits_on_colons() {
    assert_eq!(parse_location("src/foo.c:10\n"), Some(("src/foo.c".to_string(), 10)));
    assert_eq!(parse_location("a:12:34"), Some(("a".to_string(), 12)));
    assert_eq!(parse_location("    Not found\n"), None);
    assert_eq!(parse_location("a:"), None);
    assert_eq!(parse_location("a:0\n"), None);
    assert_eq!(parse_location("a:12x"), None);
    assert_eq!(parse_location("a:99999999999999999999999"), None);
}

#[test]
fn rendered_fetch_indents_or_falls_back() {
    assert_eq!(indent_line("int x = 1;"), "    int x = 1;\n");
    assert_eq!(render_fetched(Some("int x = 1;")), "    int x = 1;\n");
    assert_eq!(render_fetched(None), "    Not found\n");
    assert_eq!(not_found_sentinel(), "    Not found\n");
}

#[test]
fn replace_all_rewrites_every_occurrence() {
    assert_eq!(replace_all("xaddr2lineyaddr2line", "addr2line", "readelf"), "xreadelfyreadelf");
    assert_eq!(replace_all("nothing", "addr2line", "readelf"), "nothing");
}

#[test]
fn new_derives_the_readelf_path() {
    let dv = DebuggerVarilator::new(
        "/tools/riscv/bin/riscv32-unknown-elf-addr2line",
        "a.elf",
        "log.txt",
        "out.txt",
    );
    assert_eq!(dv.config.addr2line_path, "/tools/riscv/bin/riscv32-unknown-elf-addr2line");
    assert_eq!(dv.config.readelf_path, "/tools/riscv/bin/riscv32-unknown-elf-readelf");
    assert_eq!(dv.config.elf_file, "a.elf");
    assert_eq!(dv.config.log_file, "log.txt");
    assert_eq!(dv.config.output_file, "out.txt");
    assert_eq!(dv.output, "");
    assert_eq!(dv.last_src_line, "");
}

#[test]
fn from_parts_reports_missing_arguments() {
    let r = DebuggerVarilator::from_parts("addr2line", None, None, None, None);
    assert_eq!(
        r.err().unwrap(),
        "Didn't get a elf_file name\n\tUsage: Debugger <path/to/elf> <path/to/log> [path/to/output]"
    );
    let r = DebuggerVarilator::from_parts(
        "addr2line",
        Some("prog".to_string()),
        Some("a.elf".to_string()),
        None,
        None,
    );
    assert_eq!(
        r.err().unwrap(),
        "Didn't get the input log file\n\tUsage: prog <path/to/elf> <path/to/log> [path/to/output]"
    );
}

#[test]
fn from_parts_defaults_the_output_path() {
    let dv = DebuggerVarilator::from_parts(
        "addr2line",
        Some("prog".to_string()),
        Some("a.elf".to_string()),
        Some("log.txt".to_string()),
        None,
    )
    .ok()
    .unwrap();
    assert_eq!(dv.config.output_file, "parsed_log.txt");
    let dv = DebuggerVarilator::from_parts(
        "addr2line",
        Some("prog".to_string()),
        Some("a.elf".to_string()),
        Some("log.txt".to_string()),
        Some("here.txt".to_string()),
    )
    .ok()
    .unwrap();
    assert_eq!(dv.config.output_file, "here.txt");
}
