//! The section state machine of the exchange format.
use crate::parser::models::{opt_section, SectionType, SectionView};
use crate::text::{chars_of, equals_str, slice_chars, starts_with_str, string_from_chars};
use vstd::prelude::*;

verus! {

/// Where the parser stands in a file.
#[derive(Debug, Clone, PartialEq, Eq)]
pub enum ParserState {
    WaitingHeader,
    ReadingHeader,
    InAccountSection,
    InDocumentSection { doc_type: String },
    BetweenSections,
    EndOfFile,
}

/// `ParserState` with the document type as a character sequence.
pub enum StateView {
    WaitingHeader,
    ReadingHeader,
    InAccountSection,
    InDocumentSection(Seq<char>),
    BetweenSections,
    EndOfFile,
}

impl View for ParserState {
    type V = StateView;

    open spec fn view(&self) -> StateView {
        match self {
            ParserState::WaitingHeader => StateView::WaitingHeader,
            ParserState::ReadingHeader => StateView::ReadingHeader,
            ParserState::InAccountSection => StateView::InAccountSection,
            ParserState::InDocumentSection { doc_type } => StateView::InDocumentSection(doc_type@),
            ParserState::BetweenSections => StateView::BetweenSections,
            ParserState::EndOfFile => StateView::EndOfFile,
        }
    }
}

/// The line that starts a file.
pub open spec fn kw_exchange() -> Seq<char> {
    "1CClientBankExchange"@
}

/// Opens an account statement section.
pub open spec fn kw_account_open() -> Seq<char> {
    "СекцияРасчСчет"@
}

/// Closes an account statement section.
pub open spec fn kw_account_close() -> Seq<char> {
    "КонецРасчСчет"@
}

/// Opens a document section; the document type follows the `=`.
pub open spec fn kw_document_open() -> Seq<char> {
    "СекцияДокумент="@
}

/// Closes a document section.
pub open spec fn kw_document_close() -> Seq<char> {
    "КонецДокумента"@
}

/// Ends the file.
pub open spec fn kw_end_of_file() -> Seq<char> {
    "КонецФайла"@
}

/// `p` is a prefix of `s`.
pub open spec fn has_prefix(s: Seq<char>, p: Seq<char>) -> bool {
    p.len() <= s.len() && s.subrange(0, p.len() as int) == p
}

/// The state after `keyword`, and the section that the keyword opens, if any.
///
/// Before the file header only `1CClientBankExchange` counts. After it, the
/// section keywords open sections from any state but the end of the file, a
/// closing keyword closes only the section of its own kind, `КонецФайла` ends
/// the file, and anything else leaves the state as it is. Once the file has
/// ended, no keyword changes the state or opens a section.
pub open spec fn next_state(s: StateView, k: Seq<char>) -> (StateView, Option<SectionView>) {
    if s is EndOfFile {
        (StateView::EndOfFile, None)
    } else if s is WaitingHeader {
        if k == kw_exchange() {
            (StateView::ReadingHeader, Some(SectionView::Header))
        } else {
            (StateView::WaitingHeader, None)
        }
    } else if k == kw_account_open() {
        (StateView::InAccountSection, Some(SectionView::AccountStatement))
    } else if has_prefix(k, kw_document_open()) {
        let t = k.subrange(kw_document_open().len() as int, k.len() as int);
        (StateView::InDocumentSection(t), Some(SectionView::Document(t)))
    } else if s is InAccountSection && k == kw_account_close() {
        (StateView::BetweenSections, None)
    } else if s is InDocumentSection && k == kw_document_close() {
        (StateView::BetweenSections, None)
    } else if k == kw_end_of_file() {
        (StateView::EndOfFile, None)
    } else {
        (s, None)
    }
}

/// Inside an account or a document section.
pub open spec fn in_section(s: StateView) -> bool {
    s is InAccountSection || s is InDocumentSection
}

impl ParserState {
    /// A copy of the state.
    fn duplicate(&self) -> (r: Self)
        ensures
            r@ == self@,
    {
        match self {
            ParserState::WaitingHeader => ParserState::WaitingHeader,
            ParserState::ReadingHeader => ParserState::ReadingHeader,
            ParserState::InAccountSection => ParserState::InAccountSection,
            ParserState::InDocumentSection { doc_type } => ParserState::InDocumentSection {
                doc_type: doc_type.clone(),
            },
            ParserState::BetweenSections => ParserState::BetweenSections,
            ParserState::EndOfFile => ParserState::EndOfFile,
        }
    }

    /// The transition on a keyword line; see `next_state`.
    pub fn transition(&self, keyword: &str) -> (r: (Self, Option<SectionType>))
        ensures
            (r.0@, opt_section(r.1)) == next_state(self@, keyword@),
    {
        let k = chars_of(keyword);
        if let ParserState::EndOfFile = self {
            return (ParserState::EndOfFile, None);
        }
        if let ParserState::WaitingHeader = self {
            if equals_str(&k, "1CClientBankExchange") {
                return (ParserState::ReadingHeader, Some(SectionType::Header));
            } else {
                return (ParserState::WaitingHeader, None);
            }
        }
        if equals_str(&k, "СекцияРасчСчет") {
            return (ParserState::InAccountSection, Some(SectionType::AccountStatement));
        }
        if starts_with_str(&k, "СекцияДокумент=") {
            let p = chars_of("СекцияДокумент=");
            let t = slice_chars(&k, p.len(), k.len());
            let doc_type = string_from_chars(&t);
            let section_type = doc_type.clone();
            return (
                ParserState::InDocumentSection { doc_type },
                Some(SectionType::Document(section_type)),
            );
        }
        if let ParserState::InAccountSection = self {
            if equals_str(&k, "КонецРасчСчет") {
                return (ParserState::BetweenSections, None);
            }
        }
        if let ParserState::InDocumentSection { .. } = self {
            if equals_str(&k, "КонецДокумента") {
                return (ParserState::BetweenSections, None);
            }
        }
        if equals_str(&k, "КонецФайла") {
            return (ParserState::EndOfFile, None);
        }
        (self.duplicate(), None)
    }

    /// Inside an account or a document section.
    pub fn is_in_section(&self) -> (r: bool)
        ensures
            r == in_section(self@),
    {
        match self {
            ParserState::InAccountSection | ParserState::InDocumentSection { .. } => true,
            _ => false,
        }
    }
}

} // verus!

verus! {

/// The transition laws: only `1CClientBankExchange` leaves `WaitingHeader`,
/// and it alone opens the file header; no keyword leads back to
/// `WaitingHeader`; the end of the file is final; the section a keyword opens
/// is the section the parser is then in; and a section keyword opens its
/// section from any state after the header and before the end of the file.
pub proof fn lemma_transition_laws(s: StateView, k: Seq<char>)
    ensures
        (next_state(s, k).1 == Some(SectionView::Header)) <==> (s is WaitingHeader && k == kw_exchange()),
        s is WaitingHeader ==> (next_state(s, k).0 is WaitingHeader || (k == kw_exchange() && next_state(s, k).0 is ReadingHeader)),
        !(s is WaitingHeader) ==> !(next_state(s, k).0 is WaitingHeader),
        next_state(s, k).1 == Some(SectionView::AccountStatement) ==> next_state(s, k).0 is InAccountSection,
        forall|t: Seq<char>| next_state(s, k).1 == Some(SectionView::Document(t)) ==> next_state(s, k).0 == StateView::InDocumentSection(t),
        next_state(s, k).1 is Some ==> in_section(next_state(s, k).0) || next_state(s, k).0 is ReadingHeader,
        s is EndOfFile ==> next_state(s, k) == (StateView::EndOfFile, None::<SectionView>),
        !(s is WaitingHeader) && !(s is EndOfFile) && k == kw_account_open() ==> next_state(s, k) == (StateView::InAccountSection, Some(SectionView::AccountStatement)),
{
    reveal_strlit("1CClientBankExchange");
    reveal_strlit("СекцияРасчСчет");
    reveal_strlit("СекцияДокумент=");
}

} // verus!
