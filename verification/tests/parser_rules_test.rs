use load1c::parser::encoding::{decode_bytes, FileEncoding};
use load1c::parser::models::{FileHeader, ParseStats, SectionType};
use load1c::parser::state::ParserState;
use load1c::parser::stream::{LineLengthError, StreamParser, DETECTION_LINES};
use load1c::parser::MAX_LINE_LENGTH;

fn parse_text(text: &str) -> (FileHeader, ParseStats) {
    StreamParser::new(text.as_bytes().to_vec()).parse().unwrap()
}

#[test]
fn sections_add_up_on_realistic_input() {
    let text = "1CClientBankExchange\nКодировка=UTF-8\nСекцияРасчСчет\nКонецРасчСчет\nСекцияДокумент=А\nКонецДокумента\nСекцияДокумент=Б\nКонецДокумента\nСекцияДокумент=А\nКонецДокумента\nКонецФайла\n";
    let (_, stats) = parse_text(text);
    assert_eq!(stats.total_sections, stats.account_sections + stats.document_sections + 1);
    let sum: u64 = stats.documents_by_type.iter().map(|(_, c)| *c).sum();
    assert_eq!(sum, stats.document_sections);
    assert_eq!(stats.documents_by_type.len(), 2);
    assert_eq!(stats.documents_by_type[0].0, "А");
    assert_eq!(stats.documents_by_type[0].1, 2);
    assert_eq!(stats.documents_by_type[1].0, "Б");
}

#[test]
fn lines_before_exchange_header_are_ignored() {
    let text = "x=utf8\nмусор\nСекцияРасчСчет\nСекцияДокумент=X\nКонецФайла\n1CClientBankExchange\nСекцияДокумент=Y\nКонецФайла\n";
    let (_, stats) = parse_text(text);
    assert_eq!(stats.account_sections, 0);
    assert_eq!(stats.document_sections, 1);
    assert_eq!(stats.count_of("Y"), 1);
    assert_eq!(stats.count_of("X"), 0);
    assert_eq!(stats.total_sections, 2);
}

#[test]
fn file_without_exchange_header_counts_nothing() {
    let (header, stats) = parse_text("СекцияДокумент=X\nКонецДокумента\n");
    assert_eq!(stats.total_sections, 0);
    assert_eq!(header.version, None);
    assert_eq!(stats.total_lines, 2);
}

#[test]
fn end_of_file_within_read_ahead_counts_lines_read() {
    let (_, stats) = parse_text("x=utf8\n1CClientBankExchange\nКонецФайла\nСекцияДокумент=X\n");
    assert_eq!(stats.total_lines, 3);
    assert_eq!(stats.total_bytes, 7 + 21 + 21);
    assert_eq!(stats.document_sections, 0);
}

#[test]
fn short_exchange_file_counts_lines_and_bytes() {
    let text = "1CClientBankExchange\nВерсияФормата=1.03\nКодировка=UTF-8\nКонецФайла\n";
    assert_eq!(text.len(), 99);
    let (header, stats) = parse_text(text);
    assert_eq!(stats.total_lines, 4);
    assert_eq!(stats.total_bytes, 99);
    assert_eq!(header.version.as_deref(), Some("1.03"));
}

#[test]
fn line_total_counts_processed_lines_past_read_ahead() {
    let mut text = String::from("x=utf8\n1CClientBankExchange\n");
    for _ in 0..30 {
        text.push_str("\n");
    }
    text.push_str("КонецФайла\nСекцияДокумент=X\n");
    let (_, stats) = parse_text(&text);
    assert_eq!(stats.total_lines, 33);
    assert_eq!(stats.document_sections, 0);
    assert!(DETECTION_LINES < 33);
}

#[test]
fn header_fields_and_raw_content() {
    let text = "x=utf8\r\n1CClientBankExchange\r\nВерсияФормата = 1.03 \r\nОтправитель=Банк\r\nРасчСчет=1\r\nРасчСчет=2\r\nДокумент=Платежное поручение\r\nПросто строка\r\nСекцияРасчСчет\r\nВерсияФормата=9\r\nКонецФайла\r\n";
    let (header, stats) = parse_text(text);
    assert_eq!(header.version.as_deref(), Some("1.03"));
    assert_eq!(header.sender.as_deref(), Some("Банк"));
    assert_eq!(header.accounts, vec!["1".to_string(), "2".to_string()]);
    assert_eq!(header.document_types, vec!["Платежное поручение".to_string()]);
    assert_eq!(
        header.raw_content,
        "ВерсияФормата = 1.03 \nОтправитель=Банк\nРасчСчет=1\nРасчСчет=2\nДокумент=Платежное поручение\nПросто строка\n"
    );
    assert_eq!(header.encoding.as_deref(), Some("Utf8"));
    assert_eq!(header.detected_encoding, FileEncoding::Utf8);
    assert_eq!(stats.account_sections, 1);
}

#[test]
fn encoding_label_without_field() {
    let (header, _) = parse_text("1CClientBankExchange\nX=utf8\nКонецФайла\n");
    assert_eq!(header.detected_encoding, FileEncoding::Utf8);
    assert_eq!(header.encoding.as_deref(), Some("Utf8"));
}

#[test]
fn long_line_in_read_ahead_is_reported_with_processed_line_count() {
    let mut data = b"1CClientBankExchange\n".to_vec();
    data.extend(std::iter::repeat(b'a').take(MAX_LINE_LENGTH + 5));
    data.push(b'\n');
    let err = StreamParser::new(data).parse().unwrap_err();
    assert_eq!(
        err,
        LineLengthError { line_number: 0, actual_length: MAX_LINE_LENGTH + 6, max_length: MAX_LINE_LENGTH }
    );
}

#[test]
fn long_line_after_read_ahead_is_reported_with_its_position() {
    let mut data = Vec::new();
    data.extend_from_slice(b"1CClientBankExchange\n");
    for _ in 0..24 {
        data.extend_from_slice(b"x=1\n");
    }
    data.extend(std::iter::repeat(b'a').take(MAX_LINE_LENGTH + 1));
    let err = StreamParser::new(data).parse().unwrap_err();
    assert_eq!(err.line_number, 25);
    assert_eq!(err.actual_length, MAX_LINE_LENGTH + 1);
}

#[test]
fn line_length_error_message_text() {
    let e = LineLengthError { line_number: 7, actual_length: 20000, max_length: 16384 };
    assert_eq!(e.message(), "Превышена максимальная длина строки #7: 20000 байт (максимум 16384)");
}

#[test]
fn truncated_lines_are_still_processed() {
    let config = load1c::config::ParserConfig {
        buffer_size: 1024,
        max_line_length: 40,
        encoding_detection_size: 1024,
        detection_lines: 20,
        features: load1c::config::ParserFeatures {
            progress_bar: false,
            line_limit_error: false,
            validate_checksums: false,
        },
    };
    let text = "x=utf8\n1CClientBankExchange\nСекцияДокумент=ОченьДлинноеИмя\nКонецФайла\n";
    let (_, stats) = StreamParser::with_config(text.as_bytes().to_vec(), &config).parse().unwrap();
    assert_eq!(stats.document_sections, 1);
    assert_eq!(stats.documents_by_type.len(), 1);
    assert!(stats.documents_by_type[0].0.len() < "ОченьДлинноеИмя".len());
}

#[test]
fn process_line_feeds_the_state_machine() {
    let mut parser = StreamParser::new(Vec::new());
    parser.process_line("1CClientBankExchange");
    parser.process_line("ВерсияФормата=2.00");
    parser.process_line("СекцияДокумент=Счет");
    parser.process_line("КонецДокумента");
    let (header, stats) = parser.into_results();
    assert_eq!(header.version.as_deref(), Some("2.00"));
    assert_eq!(header.raw_content, "ВерсияФормата=2.00\n");
    assert_eq!(stats.total_sections, 2);
    assert_eq!(stats.count_of("Счет"), 1);
}

#[test]
fn empty_input_parses_to_empty_results() {
    let (header, stats) = parse_text("");
    assert_eq!(header.detected_encoding, FileEncoding::Windows1251);
    assert_eq!(stats.total_sections, 0);
    assert_eq!(stats.total_lines, 0);
}

#[test]
fn transition_laws_on_values() {
    let (s, sec) = ParserState::EndOfFile.transition("СекцияРасчСчет");
    assert_eq!(s, ParserState::EndOfFile);
    assert_eq!(sec, None);
    let (s, sec) = ParserState::EndOfFile.transition("СекцияДокумент=Счет");
    assert_eq!(s, ParserState::EndOfFile);
    assert_eq!(sec, None);
    let (s, sec) = ParserState::BetweenSections.transition("СекцияРасчСчет");
    assert_eq!(s, ParserState::InAccountSection);
    assert_eq!(sec, Some(SectionType::AccountStatement));
    let (s, sec) = ParserState::WaitingHeader.transition("СекцияРасчСчет");
    assert_eq!(s, ParserState::WaitingHeader);
    assert_eq!(sec, None);
    let (s, sec) = ParserState::InAccountSection.transition("КонецДокумента");
    assert_eq!(s, ParserState::InAccountSection);
    assert_eq!(sec, None);
    let (s, sec) = ParserState::ReadingHeader.transition("1CClientBankExchange");
    assert_eq!(s, ParserState::ReadingHeader);
    assert_eq!(sec, None);
    let (s, _) = ParserState::BetweenSections.transition("СекцияДокументБезРавно");
    assert_eq!(s, ParserState::BetweenSections);
}

#[test]
fn detect_edge_cases() {
    assert_eq!(FileEncoding::detect_from_bytes_standard(b""), FileEncoding::Windows1251);
    assert_eq!(FileEncoding::detect_from_bytes_standard(b"a=dos"), FileEncoding::Cp866);
    assert_eq!(FileEncoding::detect_from_bytes_standard(b"a=DOSX\n"), FileEncoding::Windows1251);
    assert_eq!(FileEncoding::detect_from_bytes_standard(b"=utf-8\n=dos\n"), FileEncoding::Cp866);
    assert_eq!(FileEncoding::detect_from_bytes_standard(b"=utf8\n=WINDOWS "), FileEncoding::Windows1251);
    assert_eq!(FileEncoding::detect_from_bytes_standard(b"x=utf8"), FileEncoding::Utf8);
    assert_eq!(FileEncoding::detect_from_bytes_standard(b"K=utf8"), FileEncoding::Utf8);
    assert_eq!(FileEncoding::detect_from_bytes_standard(b"=UTF-8"), FileEncoding::Utf8);
    assert_eq!(FileEncoding::detect_from_bytes_standard(b"utf8"), FileEncoding::Windows1251);
    assert_eq!(FileEncoding::detect_from_bytes_standard(b"x=utf8\n"), FileEncoding::Utf8);
    assert_eq!(FileEncoding::detect_from_bytes_standard(b"x=UTF-8!"), FileEncoding::Utf8);
}

#[test]
fn standard_value_trims_and_ignores_case() {
    assert_eq!(FileEncoding::from_standard_value("  utf8\t"), Some(FileEncoding::Utf8));
    assert_eq!(FileEncoding::from_standard_value("Utf-8"), Some(FileEncoding::Utf8));
    assert_eq!(FileEncoding::from_standard_value("do s"), None);
    assert_eq!(FileEncoding::default_1c(), FileEncoding::Windows1251);
    assert_eq!(FileEncoding::default(), FileEncoding::Windows1251);
}

#[test]
fn decode_ascii_is_identity() {
    assert_eq!(decode_bytes(b"abc=1", FileEncoding::Cp866), "abc=1");
    assert_eq!(decode_bytes(b"\xD1", FileEncoding::Windows1251), "С");
    assert_ne!(decode_bytes(b"\xD1", FileEncoding::Cp866), "\u{D1}");
}

#[test]
fn stats_methods() {
    let mut s = ParseStats::default();
    s.add_document("A");
    s.add_document("B");
    s.add_document("A");
    s.add_line();
    s.add_bytes(10);
    assert_eq!(s.document_sections, 3);
    assert_eq!(s.count_of("A"), 2);
    assert_eq!(s.count_of("B"), 1);
    assert_eq!(s.count_of("C"), 0);
    assert_eq!(s.total_lines, 1);
    assert_eq!(s.total_bytes, 10);
    let order: Vec<String> = s.types_by_count().into_iter().map(|(t, _)| t).collect();
    assert_eq!(order, vec!["A".to_string(), "B".to_string()]);
}

#[test]
fn stats_are_combined_by_type() {
    let mut a = ParseStats::default();
    a.add_document("A");
    a.total_sections = 2;
    let mut b = ParseStats::default();
    b.add_document("B");
    b.add_document("A");
    b.total_lines = 5;
    assert!(a.can_add_stats(&b));
    a.add_stats(&b);
    assert_eq!(a.document_sections, 3);
    assert_eq!(a.total_sections, 2);
    assert_eq!(a.total_lines, 5);
    assert_eq!(a.count_of("A"), 2);
    assert_eq!(a.count_of("B"), 1);
    assert_eq!(a.documents_by_type[1].0, "B");

    let mut big = ParseStats::default();
    big.documents_by_type.push(("A".to_string(), u64::MAX));
    assert!(!big.can_add_stats(&b));
    let mut lines = ParseStats::default();
    lines.total_lines = u64::MAX;
    assert!(!lines.can_add_stats(&b));
}

#[test]
fn new_header_is_empty() {
    let h = FileHeader::new();
    assert_eq!(h.detected_encoding, FileEncoding::Windows1251);
    assert!(h.version.is_none() && h.accounts.is_empty() && h.raw_content.is_empty());
    assert!(ParserState::InDocumentSection { doc_type: "x".to_string() }.is_in_section());
}

#[test]
fn combining_with_empty_stats_changes_nothing() {
    let mut a = ParseStats::default();
    a.add_document("A");
    a.total_lines = 4;
    a.add_stats(&ParseStats::default());
    assert_eq!(a.document_sections, 1);
    assert_eq!(a.total_lines, 4);
    assert_eq!(a.documents_by_type, vec![("A".to_string(), 1)]);
}
