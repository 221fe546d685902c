//! Properties of whole parses, proved from the parser's specification.
use crate::parser::encoding::{
    ci_match_at, declared_encoding, dos_marker_at, dos_word, has_dos_marker, has_utf8_marker,
    has_windows_marker, lower_byte, utf8_marker_at, utf8_word, utf_8_word, windows_marker_at,
    windows_word, FileEncoding,
};
use crate::parser::models::{
    add_count, bump_type, count_of_type, lemma_bump_type, lemma_count_after_add, sum_counts, types_well_formed,
    HeaderView, SectionView,
};
use crate::parser::state::{has_prefix, kw_account_open, kw_document_open, kw_exchange, next_state, StateView};
use crate::parser::stream::{
    after_line, after_line_bytes, finalized, keyword_of, line_text, parse_result, read_ahead,
    run_read_ahead, run_rest, start_view, ParserView,
};
use crate::text::{find_from, lemma_find_from_bounds, trim};
use vstd::prelude::*;

verus! {

/// The section counters agree with each other: every section is the file
/// header (counted once, on leaving `WaitingHeader`), an account statement or
/// a document; the per-type counts add up to the document sections; and the
/// encoding in use is the one reported in the header.
pub open spec fn consistent(m: ParserView, e: FileEncoding) -> bool {
    &&& m.stats.total_sections == m.stats.account_sections + m.stats.document_sections + (if m.state is WaitingHeader {
        0nat
    } else {
        1nat
    })
    &&& m.stats.document_sections == sum_counts(m.stats.documents_by_type)
    &&& types_well_formed(m.stats.documents_by_type)
    &&& m.encoding == e
    &&& m.header.detected_encoding == e
}

proof fn lemma_after_line_consistent(m: ParserView, line: Seq<char>, e: FileEncoding)
    requires
        consistent(m, e),
    ensures
        consistent(after_line(m, line), e),
{
    match keyword_of(line) {
        Some(k) => {
            let (ns, sec) = next_state(m.state, k);
            match sec {
                Some(SectionView::Document(t)) => {
                    lemma_bump_type(m.stats.documents_by_type, t);
                },
                _ => {},
            }
        },
        None => {},
    }
}

proof fn lemma_after_line_bytes_consistent(m: ParserView, bytes: Seq<u8>, e: FileEncoding)
    requires
        consistent(m, e),
    ensures
        consistent(after_line_bytes(m, bytes), e),
{
    let m1 = crate::parser::stream::with_line_counted(m, bytes);
    lemma_after_line_consistent(m1, line_text(m.encoding, bytes), e);
}

proof fn lemma_run_read_ahead_consistent(m: ParserView, lines: Seq<Seq<u8>>, i: int, e: FileEncoding)
    requires
        consistent(m, e),
    ensures
        consistent(run_read_ahead(m, lines, i).0, e),
    decreases lines.len() - i,
{
    if 0 <= i < lines.len() {
        lemma_after_line_bytes_consistent(m, lines[i], e);
        let m1 = after_line_bytes(m, lines[i]);
        if !(m1.state is EndOfFile) {
            lemma_run_read_ahead_consistent(m1, lines, i + 1, e);
        }
    }
}

proof fn lemma_run_rest_consistent(m: ParserView, input: Seq<u8>, pos: int, max: usize, strict: bool, e: FileEncoding)
    requires
        consistent(m, e),
    ensures
        run_rest(m, input, pos, max, strict) matches Ok(r) ==> consistent(r, e),
    decreases input.len() - pos,
{
    if 0 <= pos < input.len() {
        crate::parser::stream::lemma_line_end(input, pos);
        let end = crate::parser::stream::line_end(input, pos);
        let line = input.subrange(pos, end);
        if !(line.len() > max && strict) {
            let m1 = after_line_bytes(m, crate::parser::stream::capped(line, max));
            lemma_after_line_bytes_consistent(m, crate::parser::stream::capped(line, max), e);
            if !(m1.state is EndOfFile) {
                lemma_run_rest_consistent(m1, input, end, max, strict, e);
            }
        }
    }
}

/// What a successful parse reports about sections: at most one file header
/// section besides the account and document sections, per-type counts that
/// add up to the document sections with each type listed once and counting at
/// least one section, and the encoding that the first lines declare.
pub proof fn lemma_parse_counts_consistent(input: Seq<u8>, max: usize, strict: bool)
    ensures
        parse_result(input, max, strict) matches Ok((h, s)) ==> {
            &&& (s.total_sections == s.account_sections + s.document_sections || s.total_sections
                == s.account_sections + s.document_sections + 1)
            &&& s.document_sections == sum_counts(s.documents_by_type)
            &&& types_well_formed(s.documents_by_type)
            &&& read_ahead(input, 0, 0, Seq::empty(), Seq::empty(), max, strict) matches Ok((_, bytes, _))
                && h.detected_encoding == declared_encoding(bytes)
        },
{
    match read_ahead(input, 0, 0, Seq::empty(), Seq::empty(), max, strict) {
        Err(_) => {},
        Ok((lines, bytes, pos)) => {
            let e = declared_encoding(bytes);
            let m0 = start_view(e);
            assert(types_well_formed(m0.stats.documents_by_type));
            assert(consistent(m0, e));
            lemma_run_read_ahead_consistent(m0, lines, 0, e);
            let (m1, ended) = run_read_ahead(m0, lines, 0);
            if !ended {
                lemma_run_rest_consistent(m1, input, pos, max, strict, e);
            }
        },
    }
}

/// Closing the header twice is closing it once.
pub proof fn lemma_finalized_idempotent(m: ParserView)
    ensures
        finalized(finalized(m)) == finalized(m),
{
}

/// Before `1CClientBankExchange` every line is ignored: nothing but that
/// keyword changes the parser.
pub proof fn lemma_lines_before_header_ignored(m: ParserView, line: Seq<char>)
    requires
        m.state is WaitingHeader,
        keyword_of(line) != Some(crate::parser::state::kw_exchange()),
    ensures
        after_line(m, line) == m,
{
}

/// A blank line is counted (the line and its bytes) and changes nothing else.
pub proof fn lemma_blank_line_only_counted(m: ParserView, bytes: Seq<u8>)
    requires
        crate::text::trim(line_text(m.encoding, bytes)).len() == 0,
    ensures
        after_line_bytes(m, bytes) == crate::parser::stream::with_line_counted(m, bytes),
{
}

/// Header fields are read only inside the file header: outside it no line
/// changes the header or the collected header text.
pub proof fn lemma_header_only_changes_in_header(m: ParserView, line: Seq<char>)
    requires
        !(m.state is ReadingHeader),
    ensures
        after_line(m, line).header == m.header,
        after_line(m, line).header_buffer == m.header_buffer,
{
}

/// The key of a header line split at `p`: the text before it, trimmed.
pub open spec fn key_of(line: Seq<char>, p: int) -> Seq<char> {
    trim(line.take(p))
}

/// The value of a header line split at `p`: the text after it, trimmed.
pub open spec fn value_of(line: Seq<char>, p: int) -> Seq<char> {
    trim(line.skip(p + 1))
}

/// The header keys that the parser reads.
pub open spec fn known_header_key(k: Seq<char>) -> bool {
    ||| k == "ВерсияФормата"@
    ||| k == "Кодировка"@
    ||| k == "Отправитель"@
    ||| k == "Получатель"@
    ||| k == "ДатаСоздания"@
    ||| k == "ВремяСоздания"@
    ||| k == "ДатаНачала"@
    ||| k == "ДатаКонца"@
    ||| k == "РасчСчет"@
    ||| k == "Документ"@
}

/// The header keys are different texts.
proof fn lemma_header_keys_distinct()
    ensures
        "ВерсияФормата"@ != "Кодировка"@,
        "ВерсияФормата"@ != "Отправитель"@,
        "ВерсияФормата"@ != "Получатель"@,
        "ВерсияФормата"@ != "ДатаСоздания"@,
        "ВерсияФормата"@ != "ВремяСоздания"@,
        "ВерсияФормата"@ != "ДатаНачала"@,
        "ВерсияФормата"@ != "ДатаКонца"@,
        "ВерсияФормата"@ != "РасчСчет"@,
        "ВерсияФормата"@ != "Документ"@,
        "Кодировка"@ != "Отправитель"@,
        "Кодировка"@ != "Получатель"@,
        "Кодировка"@ != "ДатаСоздания"@,
        "Кодировка"@ != "ВремяСоздания"@,
        "Кодировка"@ != "ДатаНачала"@,
        "Кодировка"@ != "ДатаКонца"@,
        "Кодировка"@ != "РасчСчет"@,
        "Кодировка"@ != "Документ"@,
        "Отправитель"@ != "Получатель"@,
        "Отправитель"@ != "ДатаСоздания"@,
        "Отправитель"@ != "ВремяСоздания"@,
        "Отправитель"@ != "ДатаНачала"@,
        "Отправитель"@ != "ДатаКонца"@,
        "Отправитель"@ != "РасчСчет"@,
        "Отправитель"@ != "Документ"@,
        "Получатель"@ != "ДатаСоздания"@,
        "Получатель"@ != "ВремяСоздания"@,
        "Получатель"@ != "ДатаНачала"@,
        "Получатель"@ != "ДатаКонца"@,
        "Получатель"@ != "РасчСчет"@,
        "Получатель"@ != "Документ"@,
        "ДатаСоздания"@ != "ВремяСоздания"@,
        "ДатаСоздания"@ != "ДатаНачала"@,
        "ДатаСоздания"@ != "ДатаКонца"@,
        "ДатаСоздания"@ != "РасчСчет"@,
        "ДатаСоздания"@ != "Документ"@,
        "ВремяСоздания"@ != "ДатаНачала"@,
        "ВремяСоздания"@ != "ДатаКонца"@,
        "ВремяСоздания"@ != "РасчСчет"@,
        "ВремяСоздания"@ != "Документ"@,
        "ДатаНачала"@ != "ДатаКонца"@,
        "ДатаНачала"@ != "РасчСчет"@,
        "ДатаНачала"@ != "Документ"@,
        "ДатаКонца"@ != "РасчСчет"@,
        "ДатаКонца"@ != "Документ"@,
        "РасчСчет"@ != "Документ"@,
{
    reveal_strlit("ВерсияФормата");
    reveal_strlit("Кодировка");
    reveal_strlit("Отправитель");
    reveal_strlit("Получатель");
    reveal_strlit("ДатаСоздания");
    reveal_strlit("ВремяСоздания");
    reveal_strlit("ДатаНачала");
    reveal_strlit("ДатаКонца");
    reveal_strlit("РасчСчет");
    reveal_strlit("Документ");
    assert("ВерсияФормата"@.len() != "Кодировка"@.len());
    assert("ВерсияФормата"@.len() != "Отправитель"@.len());
    assert("ВерсияФормата"@.len() != "Получатель"@.len());
    assert("ВерсияФормата"@.len() != "ДатаСоздания"@.len());
    assert("ВерсияФормата"@[1] != "ВремяСоздания"@[1]);
    assert("ВерсияФормата"@.len() != "ДатаНачала"@.len());
    assert("ВерсияФормата"@.len() != "ДатаКонца"@.len());
    assert("ВерсияФормата"@.len() != "РасчСчет"@.len());
    assert("ВерсияФормата"@.len() != "Документ"@.len());
    assert("Кодировка"@.len() != "Отправитель"@.len());
    assert("Кодировка"@.len() != "Получатель"@.len());
    assert("Кодировка"@.len() != "ДатаСоздания"@.len());
    assert("Кодировка"@.len() != "ВремяСоздания"@.len());
    assert("Кодировка"@.len() != "ДатаНачала"@.len());
    assert("Кодировка"@[0] != "ДатаКонца"@[0]);
    assert("Кодировка"@.len() != "РасчСчет"@.len());
    assert("Кодировка"@.len() != "Документ"@.len());
    assert("Отправитель"@.len() != "Получатель"@.len());
    assert("Отправитель"@.len() != "ДатаСоздания"@.len());
    assert("Отправитель"@.len() != "ВремяСоздания"@.len());
    assert("Отправитель"@.len() != "ДатаНачала"@.len());
    assert("Отправитель"@.len() != "ДатаКонца"@.len());
    assert("Отправитель"@.len() != "РасчСчет"@.len());
    assert("Отправитель"@.len() != "Документ"@.len());
    assert("Получатель"@.len() != "ДатаСоздания"@.len());
    assert("Получатель"@.len() != "ВремяСоздания"@.len());
    assert("Получатель"@[0] != "ДатаНачала"@[0]);
    assert("Получатель"@.len() != "ДатаКонца"@.len());
    assert("Получатель"@.len() != "РасчСчет"@.len());
    assert("Получатель"@.len() != "Документ"@.len());
    assert("ДатаСоздания"@.len() != "ВремяСоздания"@.len());
    assert("ДатаСоздания"@.len() != "ДатаНачала"@.len());
    assert("ДатаСоздания"@.len() != "ДатаКонца"@.len());
    assert("ДатаСоздания"@.len() != "РасчСчет"@.len());
    assert("ДатаСоздания"@.len() != "Документ"@.len());
    assert("ВремяСоздания"@.len() != "ДатаНачала"@.len());
    assert("ВремяСоздания"@.len() != "ДатаКонца"@.len());
    assert("ВремяСоздания"@.len() != "РасчСчет"@.len());
    assert("ВремяСоздания"@.len() != "Документ"@.len());
    assert("ДатаНачала"@.len() != "ДатаКонца"@.len());
    assert("ДатаНачала"@.len() != "РасчСчет"@.len());
    assert("ДатаНачала"@.len() != "Документ"@.len());
    assert("ДатаКонца"@.len() != "РасчСчет"@.len());
    assert("ДатаКонца"@.len() != "Документ"@.len());
    assert("РасчСчет"@[0] != "Документ"@[0]);
}

/// A header line `key=value` (split at its first `=`, both parts trimmed),
/// read while in the file header, sets the field that its key names and
/// nothing else of the header: `ВерсияФормата`, `Кодировка`, `Отправитель`,
/// `Получатель`, `ДатаСоздания`, `ВремяСоздания`, `ДатаНачала` and
/// `ДатаКонца` set their own field to the value, `РасчСчет` and `Документ`
/// append the value to their lists, and any other key leaves the header as
/// it was. The line is also kept in the raw header text.
pub proof fn lemma_header_line_sets_its_field(m: ParserView, line: Seq<char>, p: int)
    requires
        m.state is ReadingHeader,
        keyword_of(line) is None,
        0 <= p < line.len(),
        line[p] == '=',
        forall|q: int| 0 <= q < p ==> line[q] != '=',
    ensures
        after_line(m, line).header_buffer == (m.header_buffer + line + seq!['\n']),
        key_of(line, p) == "ВерсияФормата"@ ==> after_line(m, line).header == (HeaderView { version: Some(value_of(line, p)), ..m.header }),
        key_of(line, p) == "Кодировка"@ ==> after_line(m, line).header == (HeaderView { encoding: Some(value_of(line, p)), ..m.header }),
        key_of(line, p) == "Отправитель"@ ==> after_line(m, line).header == (HeaderView { sender: Some(value_of(line, p)), ..m.header }),
        key_of(line, p) == "Получатель"@ ==> after_line(m, line).header == (HeaderView { receiver: Some(value_of(line, p)), ..m.header }),
        key_of(line, p) == "ДатаСоздания"@ ==> after_line(m, line).header == (HeaderView { created_date: Some(value_of(line, p)), ..m.header }),
        key_of(line, p) == "ВремяСоздания"@ ==> after_line(m, line).header == (HeaderView { created_time: Some(value_of(line, p)), ..m.header }),
        key_of(line, p) == "ДатаНачала"@ ==> after_line(m, line).header == (HeaderView { date_from: Some(value_of(line, p)), ..m.header }),
        key_of(line, p) == "ДатаКонца"@ ==> after_line(m, line).header == (HeaderView { date_to: Some(value_of(line, p)), ..m.header }),
        key_of(line, p) == "РасчСчет"@ ==> after_line(m, line).header.accounts == m.header.accounts.push(value_of(line, p)),
        key_of(line, p) == "РасчСчет"@ ==> after_line(m, line).header == (HeaderView { accounts: after_line(m, line).header.accounts, ..m.header }),
        key_of(line, p) == "Документ"@ ==> after_line(m, line).header.document_types == m.header.document_types.push(value_of(line, p)),
        key_of(line, p) == "Документ"@ ==> after_line(m, line).header == (HeaderView { document_types: after_line(m, line).header.document_types, ..m.header }),
        !known_header_key(key_of(line, p)) ==> after_line(m, line).header == m.header,
{
    lemma_find_from_bounds(line, '=', 0);
    let f = find_from(line, '=', 0);
    if f < p {
        assert(line[f] == '=');
    }
    if f > p {
        assert(line[p] != '=');
    }
    assert(f == p);
    lemma_header_keys_distinct();
}

/// Byte `b` is the ASCII letter `c` (given in lower case) in either case.
pub open spec fn is_letter(b: u8, c: u8) -> bool {
    b == c || b + 32 == c
}

/// A declared value ends at `at`: the end of the input, `\n`, `\r`, a space
/// or a tab.
pub open spec fn value_stops(bytes: Seq<u8>, at: int) -> bool {
    at == bytes.len() || bytes[at] == 10 || bytes[at] == 13 || bytes[at] == 32 || bytes[at] == 9
}

/// `=DOS`, in any ASCII case, at `i`, ending there.
pub open spec fn declares_dos_at(bytes: Seq<u8>, i: int) -> bool {
    &&& 0 <= i
    &&& i + 4 <= bytes.len()
    &&& bytes[i] == 61
    &&& is_letter(bytes[i + 1], 100)
    &&& is_letter(bytes[i + 2], 111)
    &&& is_letter(bytes[i + 3], 115)
    &&& value_stops(bytes, i + 4)
}

/// `=Windows`, in any ASCII case, at `i`, ending there.
pub open spec fn declares_windows_at(bytes: Seq<u8>, i: int) -> bool {
    &&& 0 <= i
    &&& i + 8 <= bytes.len()
    &&& bytes[i] == 61
    &&& is_letter(bytes[i + 1], 119)
    &&& is_letter(bytes[i + 2], 105)
    &&& is_letter(bytes[i + 3], 110)
    &&& is_letter(bytes[i + 4], 100)
    &&& is_letter(bytes[i + 5], 111)
    &&& is_letter(bytes[i + 6], 119)
    &&& is_letter(bytes[i + 7], 115)
    &&& value_stops(bytes, i + 8)
}

/// `=UTF-8` or `=UTF8`, in any ASCII case, at `i`.
pub open spec fn declares_utf8_at(bytes: Seq<u8>, i: int) -> bool {
    &&& 0 <= i
    &&& i + 5 <= bytes.len()
    &&& bytes[i] == 61
    &&& is_letter(bytes[i + 1], 117)
    &&& is_letter(bytes[i + 2], 116)
    &&& is_letter(bytes[i + 3], 102)
    &&& (bytes[i + 4] == 56 || (i + 6 <= bytes.len() && bytes[i + 4] == 45 && bytes[i + 5] == 56))
}

proof fn lemma_lower_letter(b: u8, c: u8)
    requires
        97 <= c <= 122,
    ensures
        lower_byte(b) == lower_byte(c) <==> is_letter(b, c),
{
}

proof fn lemma_lower_other(b: u8, c: u8)
    requires
        c < 65,
    ensures
        lower_byte(b) == lower_byte(c) <==> b == c,
{
}

proof fn lemma_dos_iff(bytes: Seq<u8>, i: int)
    ensures
        (0 <= i < bytes.len() - 3 && dos_marker_at(bytes, i)) <==> declares_dos_at(bytes, i),
{
    let w = dos_word();
    if 0 <= i && i + 4 <= bytes.len() {
        let st = i + 1;
        lemma_lower_letter(bytes[st + 0], w[0]);
        lemma_lower_letter(bytes[st + 1], w[1]);
        lemma_lower_letter(bytes[st + 2], w[2]);
        if declares_dos_at(bytes, i) {
            assert forall|j: int| 0 <= j < w.len() implies lower_byte(#[trigger] bytes[st + j]) == lower_byte(w[j]) by {
                if j == 0 {} else if j == 1 {} else {}
            }
            assert(ci_match_at(bytes, st, w));
        }
        if ci_match_at(bytes, st, w) {
            assert(lower_byte(bytes[st + 0]) == lower_byte(w[0]));
            assert(lower_byte(bytes[st + 1]) == lower_byte(w[1]));
            assert(lower_byte(bytes[st + 2]) == lower_byte(w[2]));
        }
    }
}

proof fn lemma_windows_iff(bytes: Seq<u8>, i: int)
    ensures
        (0 <= i < bytes.len() - 7 && windows_marker_at(bytes, i)) <==> declares_windows_at(bytes, i),
{
    let w = windows_word();
    if 0 <= i && i + 8 <= bytes.len() {
        let st = i + 1;
        lemma_lower_letter(bytes[st + 0], w[0]);
        lemma_lower_letter(bytes[st + 1], w[1]);
        lemma_lower_letter(bytes[st + 2], w[2]);
        lemma_lower_letter(bytes[st + 3], w[3]);
        lemma_lower_letter(bytes[st + 4], w[4]);
        lemma_lower_letter(bytes[st + 5], w[5]);
        lemma_lower_letter(bytes[st + 6], w[6]);
        if declares_windows_at(bytes, i) {
            assert forall|j: int| 0 <= j < w.len() implies lower_byte(#[trigger] bytes[st + j]) == lower_byte(w[j]) by {
                if j == 0 {} else if j == 1 {} else if j == 2 {} else if j == 3 {} else if j == 4 {} else if j == 5 {} else {}
            }
            assert(ci_match_at(bytes, st, w));
        }
        if ci_match_at(bytes, st, w) {
            assert(lower_byte(bytes[st + 0]) == lower_byte(w[0]));
            assert(lower_byte(bytes[st + 1]) == lower_byte(w[1]));
            assert(lower_byte(bytes[st + 2]) == lower_byte(w[2]));
            assert(lower_byte(bytes[st + 3]) == lower_byte(w[3]));
            assert(lower_byte(bytes[st + 4]) == lower_byte(w[4]));
            assert(lower_byte(bytes[st + 5]) == lower_byte(w[5]));
            assert(lower_byte(bytes[st + 6]) == lower_byte(w[6]));
        }
    }
}

proof fn lemma_utf8_iff(bytes: Seq<u8>, i: int)
    ensures
        (0 <= i < bytes.len() - 4 && utf8_marker_at(bytes, i)) <==> declares_utf8_at(bytes, i),
{
    let w = utf8_word();
    let v = utf_8_word();
    if 0 <= i && i + 5 <= bytes.len() {
        let st = i + 1;
        lemma_lower_letter(bytes[st + 0], w[0]);
        lemma_lower_letter(bytes[st + 1], w[1]);
        lemma_lower_letter(bytes[st + 2], w[2]);
        lemma_lower_other(bytes[st + 3], w[3]);
        lemma_lower_other(bytes[st + 3], v[3]);
        assert(v[0] == w[0] && v[1] == w[1] && v[2] == w[2]);
        if i + 6 <= bytes.len() {
            lemma_lower_other(bytes[st + 4], v[4]);
        }
        if declares_utf8_at(bytes, i) {
            if bytes[i + 4] == 56 {
                assert forall|j: int| 0 <= j < w.len() implies lower_byte(#[trigger] bytes[st + j]) == lower_byte(w[j]) by {
                    if j == 0 {} else if j == 1 {} else if j == 2 {} else {}
                }
                assert(ci_match_at(bytes, st, w));
            } else {
                assert forall|j: int| 0 <= j < v.len() implies lower_byte(#[trigger] bytes[st + j]) == lower_byte(v[j]) by {
                    if j == 0 {} else if j == 1 {} else if j == 2 {} else if j == 3 {} else {}
                }
                assert(ci_match_at(bytes, st, v));
            }
        }
        if ci_match_at(bytes, st, w) {
            assert(lower_byte(bytes[st + 0]) == lower_byte(w[0]));
            assert(lower_byte(bytes[st + 1]) == lower_byte(w[1]));
            assert(lower_byte(bytes[st + 2]) == lower_byte(w[2]));
            assert(lower_byte(bytes[st + 3]) == lower_byte(w[3]));
        }
        if i + 6 <= bytes.len() && ci_match_at(bytes, st, v) {
            assert(lower_byte(bytes[st + 0]) == lower_byte(v[0]));
            assert(lower_byte(bytes[st + 1]) == lower_byte(v[1]));
            assert(lower_byte(bytes[st + 2]) == lower_byte(v[2]));
            assert(lower_byte(bytes[st + 3]) == lower_byte(v[3]));
            assert(lower_byte(bytes[st + 4]) == lower_byte(v[4]));
        }
    }
}

/// `=DOS` (any ASCII case) ending at the end of the input, a line break
/// (`\n` or `\r`), a space or a tab declares CP866, whatever else the bytes
/// hold.
pub proof fn lemma_dos_declaration_gives_cp866(bytes: Seq<u8>, i: int)
    requires
        declares_dos_at(bytes, i),
    ensures
        declared_encoding(bytes) == FileEncoding::Cp866,
{
    lemma_dos_iff(bytes, i);
}

/// `=Windows` (any ASCII case), ending as a value ends, declares
/// Windows-1251 when no `=DOS` is declared.
pub proof fn lemma_windows_declaration_gives_windows1251(bytes: Seq<u8>, i: int)
    requires
        declares_windows_at(bytes, i),
        forall|k: int| !declares_dos_at(bytes, k),
    ensures
        declared_encoding(bytes) == FileEncoding::Windows1251,
{
    lemma_windows_iff(bytes, i);
    if has_dos_marker(bytes) {
        let k = choose|k: int| 0 <= k < bytes.len() - 3 && dos_marker_at(bytes, k);
        lemma_dos_iff(bytes, k);
    }
}

/// `=UTF-8` or `=UTF8` (any ASCII case) declares UTF-8 when neither `=DOS`
/// nor `=Windows` is declared.
pub proof fn lemma_utf8_declaration_gives_utf8(bytes: Seq<u8>, i: int)
    requires
        declares_utf8_at(bytes, i),
        forall|k: int| !declares_dos_at(bytes, k),
        forall|k: int| !declares_windows_at(bytes, k),
    ensures
        declared_encoding(bytes) == FileEncoding::Utf8,
{
    lemma_utf8_iff(bytes, i);
    if has_dos_marker(bytes) {
        let k = choose|k: int| 0 <= k < bytes.len() - 3 && dos_marker_at(bytes, k);
        lemma_dos_iff(bytes, k);
    }
    if has_windows_marker(bytes) {
        let k = choose|k: int| 0 <= k < bytes.len() - 7 && windows_marker_at(bytes, k);
        lemma_windows_iff(bytes, k);
    }
}

/// Without any declaration, Windows-1251 is assumed.
pub proof fn lemma_no_declaration_gives_windows1251(bytes: Seq<u8>)
    requires
        forall|k: int| !declares_dos_at(bytes, k),
        forall|k: int| !declares_windows_at(bytes, k),
        forall|k: int| !declares_utf8_at(bytes, k),
    ensures
        declared_encoding(bytes) == FileEncoding::Windows1251,
{
    if has_dos_marker(bytes) {
        let k = choose|k: int| 0 <= k < bytes.len() - 3 && dos_marker_at(bytes, k);
        lemma_dos_iff(bytes, k);
    }
    if has_windows_marker(bytes) {
        let k = choose|k: int| 0 <= k < bytes.len() - 7 && windows_marker_at(bytes, k);
        lemma_windows_iff(bytes, k);
    }
    if has_utf8_marker(bytes) {
        let k = choose|k: int| 0 <= k < bytes.len() - 4 && utf8_marker_at(bytes, k);
        lemma_utf8_iff(bytes, k);
    }
}

/// Counting sections: `1CClientBankExchange` before the header counts one
/// section (the file header); after the header and before the end of the
/// file, `СекцияРасчСчет` counts one section and one account section, and
/// `СекцияДокумент=T` one section, one document section and one more
/// document of type `T`, every other type keeping its count. A line that is
/// no keyword counts nothing.
pub proof fn lemma_section_lines_are_counted(m: ParserView, line: Seq<char>, other: Seq<char>)
    ensures
        keyword_of(line) == Some(kw_exchange()) && m.state is WaitingHeader ==> {
            &&& after_line(m, line).stats.total_sections == m.stats.total_sections + 1
            &&& after_line(m, line).stats.account_sections == m.stats.account_sections
            &&& after_line(m, line).stats.document_sections == m.stats.document_sections
            &&& after_line(m, line).state is ReadingHeader
        },
        keyword_of(line) == Some(kw_account_open()) && !(m.state is WaitingHeader) && !(m.state is EndOfFile) ==> {
            &&& after_line(m, line).stats.total_sections == m.stats.total_sections + 1
            &&& after_line(m, line).stats.account_sections == m.stats.account_sections + 1
            &&& after_line(m, line).stats.document_sections == m.stats.document_sections
            &&& after_line(m, line).stats.documents_by_type == m.stats.documents_by_type
            &&& after_line(m, line).state is InAccountSection
        },
        keyword_of(line) == Some(line) && has_prefix(line, kw_document_open()) && !(m.state is WaitingHeader)
            && !(m.state is EndOfFile) ==> {
            &&& after_line(m, line).stats.total_sections == m.stats.total_sections + 1
            &&& after_line(m, line).stats.account_sections == m.stats.account_sections
            &&& after_line(m, line).stats.document_sections == m.stats.document_sections + 1
            &&& count_of_type(after_line(m, line).stats.documents_by_type, line.skip(15)) == count_of_type(
                m.stats.documents_by_type,
                line.skip(15),
            ) + 1
            &&& other != line.skip(15) ==> count_of_type(after_line(m, line).stats.documents_by_type, other)
                == count_of_type(m.stats.documents_by_type, other)
            &&& after_line(m, line).state == StateView::InDocumentSection(line.skip(15))
        },
        keyword_of(line) is None ==> after_line(m, line).stats == m.stats,
{
    reveal_strlit("СекцияРасчСчет");
    reveal_strlit("СекцияДокумент=");
    reveal_strlit("1CClientBankExchange");
    if keyword_of(line) == Some(line) && has_prefix(line, kw_document_open()) {
        let t = line.skip(15);
        assert(line.subrange(0, 15)[6] == kw_document_open()[6]);
        assert(line[6] != kw_account_open()[6]);
        assert(line != kw_account_open());
        assert(line.subrange(15, line.len() as int) == t);
        let e = m.stats.documents_by_type;
        assert(bump_type(e, t) == add_count(e, t, 1));
        lemma_count_after_add(e, t, 1, t);
        lemma_count_after_add(e, t, 1, other);
    }
}

} // verus!
