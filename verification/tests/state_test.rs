use load1c::parser::models::SectionType;
use load1c::parser::state::ParserState;

#[test]
fn test_transition_from_waiting_header() {
    let state = ParserState::WaitingHeader;
    let (new_state, section) = state.transition("1CClientBankExchange");
    assert_eq!(new_state, ParserState::ReadingHeader);
    assert_eq!(section, Some(SectionType::Header));
}

#[test]
fn test_transition_account_section() {
    let state = ParserState::ReadingHeader;
    let (new_state, section) = state.transition("СекцияРасчСчет");
    assert_eq!(new_state, ParserState::InAccountSection);
    assert_eq!(section, Some(SectionType::AccountStatement));
}

#[test]
fn test_transition_document_with_type() {
    let state = ParserState::BetweenSections;
    let (new_state, section) = state.transition("СекцияДокумент=Платежное поручение");
    assert_eq!(
        new_state,
        ParserState::InDocumentSection {
            doc_type: "Платежное поручение".to_string()
        }
    );
    assert_eq!(
        section,
        Some(SectionType::Document("Платежное поручение".to_string()))
    );
}

#[test]
fn test_transition_close_account() {
    let state = ParserState::InAccountSection;
    let (new_state, section) = state.transition("КонецРасчСчет");
    assert_eq!(new_state, ParserState::BetweenSections);
    assert_eq!(section, None);
}

#[test]
fn test_transition_close_document() {
    let state = ParserState::InDocumentSection {
        doc_type: "Тест".to_string(),
    };
    let (new_state, section) = state.transition("КонецДокумента");
    assert_eq!(new_state, ParserState::BetweenSections);
    assert_eq!(section, None);
}

#[test]
fn test_transition_end_of_file() {
    let state = ParserState::BetweenSections;
    let (new_state, section) = state.transition("КонецФайла");
    assert_eq!(new_state, ParserState::EndOfFile);
    assert_eq!(section, None);
}

#[test]
fn test_transition_ignore_unknown() {
    let state = ParserState::BetweenSections;
    let (new_state, section) = state.transition("НеизвестноеКлючевоеСлово");
    assert_eq!(new_state, ParserState::BetweenSections);
    assert_eq!(section, None);
}

#[test]
fn test_is_in_section() {
    assert!(!ParserState::WaitingHeader.is_in_section());
    assert!(!ParserState::ReadingHeader.is_in_section());
    assert!(ParserState::InAccountSection.is_in_section());
    assert!(
        ParserState::InDocumentSection {
            doc_type: "X".to_string()
        }
        .is_in_section()
    );
    assert!(!ParserState::BetweenSections.is_in_section());
    assert!(!ParserState::EndOfFile.is_in_section());
}
