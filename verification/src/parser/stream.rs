//! Line-by-line parsing of an exchange file held in memory.
//!
//! The input is cut into lines the way `BufRead::read_until(b'\n')` cuts a
//! stream: each line keeps its `'\n'`, the last one may lack it. The first
//! lines (at most `DETECTION_LINES`) are read ahead to find the declared
//! encoding; then every line is decoded, stripped of its line break, and fed to
//! the section state machine until `КонецФайла` or the end of the input.
use crate::parser::encoding::{decode_bytes, declared_encoding, decoded_text, FileEncoding};
use crate::parser::models::{
    count_of_type, empty_header, empty_stats, lemma_type_index_from, with_document,
    FileHeader, HeaderView, ParseStats, SectionType, SectionView, StatsView,
};
use crate::parser::state::{
    has_prefix, kw_account_close, kw_account_open, kw_document_close, kw_end_of_file,
    kw_exchange, next_state, ParserState, StateView,
};
use crate::config::models::ParserConfig;
use crate::parser::MAX_LINE_LENGTH;
use crate::text::{
    chars_of, equals_str, find_char, lemma_find_from_bounds, slice_chars, starts_with_str,
    string_from_chars, strip_line_break, strip_line_break_chars, trim, trim_chars, find_from,
    is_blank, decimal, decimal_chars,
};
use vstd::string::StringExecFns;
use vstd::prelude::*;

verus! {

/// How many lines are read ahead to find the declared encoding.
pub const DETECTION_LINES: usize = 20;

/// A line longer than the parser's limit, met while the limit is strict.
#[derive(Debug, Clone, Copy, PartialEq, Eq, Structural)]
pub struct LineLengthError {
    /// The parser's count of processed lines when the long line was met;
    /// lines read ahead to find the encoding are not processed yet, so a long
    /// line among them gives 0.
    pub line_number: u64,
    pub actual_length: usize,
    pub max_length: usize,
}

/// The text of a `LineLengthError`.
pub open spec fn line_length_message(e: LineLengthError) -> Seq<char> {
    "Превышена максимальная длина строки #"@ + decimal(e.line_number as nat) + ": "@ + decimal(
        e.actual_length as nat,
    ) + " байт (максимум "@ + decimal(e.max_length as nat) + ")"@
}

impl LineLengthError {
    /// What went wrong, in words: the line, its length and the limit.
    pub fn message(&self) -> (r: String)
        ensures
            r@ == line_length_message(*self),
    {
        let mut r = String::new();
        r.append("Превышена максимальная длина строки #");
        r.append(string_from_chars(&decimal_chars(self.line_number)).as_str());
        r.append(": ");
        r.append(string_from_chars(&decimal_chars(self.actual_length as u64)).as_str());
        r.append(" байт (максимум ");
        r.append(string_from_chars(&decimal_chars(self.max_length as u64)).as_str());
        r.append(")");
        r
    }
}

/// The parser's own state, with texts as character sequences.
#[verifier::ext_equal]
pub struct ParserView {
    pub state: StateView,
    pub header: HeaderView,
    pub stats: StatsView,
    pub header_buffer: Seq<char>,
    pub header_finalized: bool,
    pub encoding: FileEncoding,
    pub line_number: nat,
}

// ---------------------------------------------------------------------------
// One line of text
// ---------------------------------------------------------------------------

/// The keyword that a line carries, if any: a section keyword at the start of
/// the line stands for itself, and a line that starts with `СекцияДокумент`
/// is its own keyword (the document type follows the `=`).
pub open spec fn keyword_of(line: Seq<char>) -> Option<Seq<char>> {
    if has_prefix(line, kw_exchange()) {
        Some(kw_exchange())
    } else if has_prefix(line, kw_account_open()) {
        Some(kw_account_open())
    } else if has_prefix(line, kw_account_close()) {
        Some(kw_account_close())
    } else if has_prefix(line, "СекцияДокумент"@) {
        Some(line)
    } else if has_prefix(line, kw_document_close()) {
        Some(kw_document_close())
    } else if has_prefix(line, kw_end_of_file()) {
        Some(kw_end_of_file())
    } else {
        None
    }
}

/// The header after the line `key=value` (both trimmed): known keys set their
/// field, `РасчСчет` and `Документ` append to their lists, anything else, and
/// a line without `=`, changes nothing.
pub open spec fn with_header_field(h: HeaderView, line: Seq<char>) -> HeaderView {
    let p = find_from(line, '=', 0);
    if p < line.len() {
        let key = trim(line.take(p));
        let value = trim(line.skip(p + 1));
        if key == "ВерсияФормата"@ {
            HeaderView { version: Some(value), ..h }
        } else if key == "Кодировка"@ {
            HeaderView { encoding: Some(value), ..h }
        } else if key == "Отправитель"@ {
            HeaderView { sender: Some(value), ..h }
        } else if key == "Получатель"@ {
            HeaderView { receiver: Some(value), ..h }
        } else if key == "ДатаСоздания"@ {
            HeaderView { created_date: Some(value), ..h }
        } else if key == "ВремяСоздания"@ {
            HeaderView { created_time: Some(value), ..h }
        } else if key == "ДатаНачала"@ {
            HeaderView { date_from: Some(value), ..h }
        } else if key == "ДатаКонца"@ {
            HeaderView { date_to: Some(value), ..h }
        } else if key == "РасчСчет"@ {
            HeaderView { accounts: h.accounts.push(value), ..h }
        } else if key == "Документ"@ {
            HeaderView { document_types: h.document_types.push(value), ..h }
        } else {
            h
        }
    } else {
        h
    }
}

/// The header is closed: the collected header lines become its raw content.
/// A header that is already closed stays as it is.
pub open spec fn finalized(m: ParserView) -> ParserView {
    if m.header_finalized {
        m
    } else {
        ParserView {
            header: HeaderView {
                raw_content: m.header_buffer,
                detected_encoding: m.encoding,
                ..m.header
            },
            header_buffer: Seq::empty(),
            header_finalized: true,
            ..m
        }
    }
}

/// The counts after one more section of the given kind.
pub open spec fn with_section(s: StatsView, sec: SectionView) -> StatsView {
    let s1 = StatsView { total_sections: s.total_sections + 1, ..s };
    match sec {
        SectionView::Header => s1,
        SectionView::AccountStatement => StatsView { account_sections: s1.account_sections + 1, ..s1 },
        SectionView::Document(t) => with_document(s1, t),
    }
}

/// The parser after one non-blank line of text.
///
/// A keyword line moves the state machine and counts the section it opens;
/// leaving the header closes it. Any other line inside the header is kept in
/// the raw header text and read as a header field; elsewhere it is ignored.
pub open spec fn after_line(m: ParserView, line: Seq<char>) -> ParserView {
    match keyword_of(line) {
        Some(k) => {
            let (ns, sec) = next_state(m.state, k);
            let m1 = if m.state is ReadingHeader && !(ns is ReadingHeader) && !m.header_finalized {
                finalized(m)
            } else {
                m
            };
            let m2 = match sec {
                Some(x) => ParserView { stats: with_section(m1.stats, x), ..m1 },
                None => m1,
            };
            ParserView { state: ns, ..m2 }
        },
        None => {
            if m.state is ReadingHeader {
                ParserView {
                    header_buffer: m.header_buffer + line + seq!['\n'],
                    header: with_header_field(m.header, line),
                    ..m
                }
            } else {
                m
            }
        },
    }
}

/// The text of a line of bytes: decoded, without its line break.
pub open spec fn line_text(encoding: FileEncoding, bytes: Seq<u8>) -> Seq<char> {
    strip_line_break(decoded_text(encoding, bytes))
}

/// The parser with one more line of `bytes` counted: one more line, and its
/// bytes added to the processed bytes.
pub open spec fn with_line_counted(m: ParserView, bytes: Seq<u8>) -> ParserView {
    ParserView {
        line_number: m.line_number + 1,
        stats: StatsView { total_bytes: m.stats.total_bytes + bytes.len(), ..m.stats },
        ..m
    }
}

/// The parser after one line of bytes: the line and its bytes are counted,
/// and, unless it is blank, it is processed as text.
pub open spec fn after_line_bytes(m: ParserView, bytes: Seq<u8>) -> ParserView {
    let m1 = with_line_counted(m, bytes);
    let line = line_text(m.encoding, bytes);
    if trim(line).len() == 0 {
        m1
    } else {
        after_line(m1, line)
    }
}

// ---------------------------------------------------------------------------
// Lines of the input
// ---------------------------------------------------------------------------

/// End of the line that starts at `pos`: just after its `'\n'`, or the end of
/// the input.
pub open spec fn line_end(input: Seq<u8>, pos: int) -> int
    decreases input.len() - pos,
{
    if pos < 0 || pos >= input.len() {
        input.len() as int
    } else if input[pos] == 10 {
        pos + 1
    } else {
        line_end(input, pos + 1)
    }
}

pub proof fn lemma_line_end(input: Seq<u8>, pos: int)
    requires
        0 <= pos < input.len(),
    ensures
        pos < line_end(input, pos) <= input.len(),
    decreases input.len() - pos,
{
    if input[pos] != 10 {
        if pos + 1 < input.len() {
            lemma_line_end(input, pos + 1);
        } else {
            assert(line_end(input, pos + 1) == input.len());
        }
    }
}

/// A line cut to at most `max` bytes.
pub open spec fn capped(line: Seq<u8>, max: usize) -> Seq<u8> {
    if line.len() > max {
        line.take(max as int)
    } else {
        line
    }
}

/// Reading ahead: from `pos`, with `count` lines read so far, collected in
/// `lines` and, joined, in `bytes`. Stops after `DETECTION_LINES` lines or at
/// the end of the input; gives the lines, their bytes and where reading
/// stopped. A line over `max` bytes is an error when `strict`, else cut; the
/// error carries the parser's count of processed lines, which is still 0
/// while reading ahead.
pub open spec fn read_ahead(
    input: Seq<u8>,
    pos: int,
    count: nat,
    lines: Seq<Seq<u8>>,
    bytes: Seq<u8>,
    max: usize,
    strict: bool,
) -> Result<(Seq<Seq<u8>>, Seq<u8>, int), LineLengthError>
    decreases DETECTION_LINES - count,
{
    if count >= DETECTION_LINES || pos < 0 || pos >= input.len() {
        Ok((lines, bytes, pos))
    } else {
        let e = line_end(input, pos);
        let line = input.subrange(pos, e);
        if line.len() > max && strict {
            Err(LineLengthError { line_number: 0, actual_length: line.len() as usize, max_length: max })
        } else {
            let l = capped(line, max);
            read_ahead(input, e, count + 1, lines.push(l), bytes + l, max, strict)
        }
    }
}

/// The number of bytes in all of `lines`.
pub open spec fn total_len(lines: Seq<Seq<u8>>) -> nat
    decreases lines.len(),
{
    if lines.len() == 0 {
        0
    } else {
        total_len(lines.drop_last()) + lines.last().len()
    }
}

pub proof fn lemma_total_len_take(lines: Seq<Seq<u8>>, i: int)
    requires
        0 <= i <= lines.len(),
    ensures
        total_len(lines.take(i)) <= total_len(lines),
        i < lines.len() ==> total_len(lines.take(i + 1)) == total_len(lines.take(i)) + lines[i].len(),
    decreases lines.len() - i,
{
    if i < lines.len() {
        assert(lines.take(i + 1).drop_last() =~= lines.take(i));
        lemma_total_len_take(lines, i + 1);
    } else {
        assert(lines.take(i) =~= lines);
    }
}

/// Processing the lines read ahead, from the `i`-th; stops early, and says so,
/// when the file ends (the line count is then recorded by `processed`).
pub open spec fn run_read_ahead(m: ParserView, lines: Seq<Seq<u8>>, i: int) -> (ParserView, bool)
    decreases lines.len() - i,
{
    if i < 0 || i >= lines.len() {
        (m, false)
    } else {
        let m1 = after_line_bytes(m, lines[i]);
        if m1.state is EndOfFile {
            (m1, true)
        } else {
            run_read_ahead(m1, lines, i + 1)
        }
    }
}

/// The number of lines processed becomes the line count.
pub open spec fn with_line_total(m: ParserView) -> ParserView {
    ParserView { stats: StatsView { total_lines: m.line_number, ..m.stats }, ..m }
}

/// Processing the rest of the input from `pos`, until the file ends or the
/// input does; the number of lines processed is then recorded.
pub open spec fn run_rest(m: ParserView, input: Seq<u8>, pos: int, max: usize, strict: bool) -> Result<ParserView, LineLengthError>
    decreases input.len() - pos,
{
    if pos < 0 || pos >= input.len() {
        Ok(with_line_total(m))
    } else {
        let e = line_end(input, pos);
        let line = input.subrange(pos, e);
        if line.len() > max && strict {
            Err(LineLengthError { line_number: m.line_number as u64, actual_length: line.len() as usize, max_length: max })
        } else {
            let m1 = after_line_bytes(m, capped(line, max));
            if m1.state is EndOfFile {
                Ok(with_line_total(m1))
            } else {
                proof {
                    lemma_line_end(input, pos);
                }
                run_rest(m1, input, e, max, strict)
            }
        }
    }
}

/// The name that `Debug` gives an encoding.
pub open spec fn encoding_label(e: FileEncoding) -> Seq<char> {
    match e {
        FileEncoding::Utf8 => "Utf8"@,
        FileEncoding::Windows1251 => "Windows1251"@,
        FileEncoding::Cp866 => "Cp866"@,
    }
}

/// The parser before any line, once the encoding is known.
pub open spec fn start_view(e: FileEncoding) -> ParserView {
    ParserView {
        state: StateView::WaitingHeader,
        header: HeaderView { detected_encoding: e, encoding: Some(encoding_label(e)), ..empty_header() },
        stats: empty_stats(),
        header_buffer: Seq::empty(),
        header_finalized: false,
        encoding: e,
        line_number: 0,
    }
}

/// A freshly made parser.
pub open spec fn initial_view() -> ParserView {
    ParserView {
        state: StateView::WaitingHeader,
        header: empty_header(),
        stats: empty_stats(),
        header_buffer: Seq::empty(),
        header_finalized: false,
        encoding: FileEncoding::Windows1251,
        line_number: 0,
    }
}

/// The parser once every line that is read has been processed.
pub open spec fn processed(input: Seq<u8>, max: usize, strict: bool) -> Result<ParserView, LineLengthError> {
    match read_ahead(input, 0, 0, Seq::empty(), Seq::empty(), max, strict) {
        Err(e) => Err(e),
        Ok((lines, bytes, pos)) => {
            let (m1, ended) = run_read_ahead(start_view(declared_encoding(bytes)), lines, 0);
            if ended {
                Ok(with_line_total(m1))
            } else {
                run_rest(m1, input, pos, max, strict)
            }
        },
    }
}

/// What parsing `input` gives: the header and the counts, or the first line
/// that is too long.
pub open spec fn parse_result(input: Seq<u8>, max: usize, strict: bool) -> Result<(HeaderView, StatsView), LineLengthError> {
    match processed(input, max, strict) {
        Err(e) => Err(e),
        Ok(m) => Ok((finalized(m).header, finalized(m).stats)),
    }
}

/// The counters cannot run past the number of lines processed, and each
/// document type counts at most all document sections.
pub open spec fn counts_bounded(m: ParserView) -> bool {
    &&& m.stats.total_sections <= m.line_number
    &&& m.stats.account_sections <= m.stats.total_sections
    &&& m.stats.document_sections <= m.stats.total_sections
    &&& forall|i: int|
        0 <= i < m.stats.documents_by_type.len() ==> #[trigger] m.stats.documents_by_type[i].1
            <= m.stats.document_sections
}

/// Counting a section of kind `sec` keeps every counter within `u64`.
pub open spec fn can_count(s: StatsView, sec: SectionView) -> bool {
    &&& s.total_sections < u64::MAX
    &&& match sec {
        SectionView::Header => true,
        SectionView::AccountStatement => s.account_sections < u64::MAX,
        SectionView::Document(t) => s.document_sections < u64::MAX && count_of_type(
            s.documents_by_type,
            t,
        ) < u64::MAX,
    }
}

/// Processing `line` keeps every counter within `u64`.
pub open spec fn line_fits(m: ParserView, line: Seq<char>) -> bool {
    match keyword_of(line) {
        Some(k) => match next_state(m.state, k).1 {
            Some(sec) => can_count(m.stats, sec),
            None => true,
        },
        None => true,
    }
}

pub proof fn lemma_after_line_bounded(m: ParserView, line: Seq<char>)
    requires
        counts_bounded(m),
        m.stats.total_sections < m.line_number <= u64::MAX,
    ensures
        line_fits(m, line),
        counts_bounded(after_line(m, line)),
{
    let s = m.stats;
    assert forall|i: int| 0 <= i < s.documents_by_type.len() implies #[trigger] s.documents_by_type[i].1 < u64::MAX by {
        assert(s.documents_by_type[i].1 <= s.document_sections);
    }
    match keyword_of(line) {
        Some(k) => {
            let (ns, sec) = next_state(m.state, k);
            match sec {
                Some(SectionView::Document(t)) => {
                    lemma_type_index_from(s.documents_by_type, t, 0);
                    let e = s.documents_by_type;
                    let e2 = with_section(s, SectionView::Document(t)).documents_by_type;
                    assert forall|i: int| 0 <= i < e2.len() implies #[trigger] e2[i].1 <= s.document_sections + 1 by {
                        if i < e.len() {
                            assert(e[i].1 <= s.document_sections);
                        }
                    }
                },
                _ => {},
            }
        },
        None => {},
    }
}

pub proof fn lemma_after_line_bytes_bounded(m: ParserView, bytes: Seq<u8>)
    requires
        counts_bounded(m),
        m.line_number < u64::MAX,
    ensures
        counts_bounded(after_line_bytes(m, bytes)),
        after_line_bytes(m, bytes).line_number == m.line_number + 1,
{
    let m1 = with_line_counted(m, bytes);
    lemma_after_line_bounded(m1, line_text(m.encoding, bytes));
}

/// Appends `src` to `dst`.
fn append_bytes(dst: &mut Vec<u8>, src: &[u8])
    ensures
        final(dst)@ == old(dst)@ + src@,
{
    let n = src.len();
    let mut k: usize = 0;
    while k < n
        invariant
            0 <= k <= n,
            n == src@.len(),
            dst@ == old(dst)@ + src@.take(k as int),
        decreases n - k,
    {
        dst.push(src[k]);
        k = k + 1;
        assert(src@.take(k as int) == src@.take(k - 1).push(src@[k - 1]));
    }
    assert(src@.take(n as int) == src@);
}

/// Appends the characters of `line` and a `'\n'` to `dst`.
fn append_line(dst: &mut Vec<char>, line: &[char])
    ensures
        final(dst)@ == old(dst)@ + line@ + seq!['\n'],
{
    let n = line.len();
    let mut k: usize = 0;
    while k < n
        invariant
            0 <= k <= n,
            n == line@.len(),
            dst@ == old(dst)@ + line@.take(k as int),
        decreases n - k,
    {
        dst.push(line[k]);
        k = k + 1;
        assert(line@.take(k as int) == line@.take(k - 1).push(line@[k - 1]));
    }
    dst.push('\n');
    assert(line@.take(n as int) == line@);
}

/// Streaming parser of an exchange file.
pub struct StreamParser {
    input: Vec<u8>,
    pos: usize,
    max_line_length: usize,
    strict: bool,
    state: ParserState,
    header: FileHeader,
    stats: ParseStats,
    header_buffer: Vec<char>,
    header_finalized: bool,
    encoding: FileEncoding,
    pending_bytes: Vec<Vec<u8>>,
    line_number: u64,
}

/// The views of byte lines.
pub open spec fn byte_lines(v: Seq<Vec<u8>>) -> Seq<Seq<u8>> {
    v.map_values(|l: Vec<u8>| l@)
}

impl StreamParser {
    /// The parser's own state.
    pub closed spec fn model(&self) -> ParserView {
        ParserView {
            state: self.state@,
            header: self.header@,
            stats: self.stats@,
            header_buffer: self.header_buffer@,
            header_finalized: self.header_finalized,
            encoding: self.encoding,
            line_number: self.line_number as nat,
        }
    }

    /// The bytes to parse.
    pub closed spec fn source(&self) -> Seq<u8> {
        self.input@
    }

    /// The longest line accepted.
    pub closed spec fn line_limit(&self) -> usize {
        self.max_line_length
    }

    /// A longer line is an error (else it is cut).
    pub closed spec fn strict_limit(&self) -> bool {
        self.strict
    }

    /// Nothing has been read yet.
    pub closed spec fn is_fresh(&self) -> bool {
        &&& self.pos == 0
        &&& self.pending_bytes@.len() == 0
        &&& self.model() == initial_view()
    }

    spec fn frame(&self) -> (Seq<u8>, usize, usize, bool, Seq<Seq<u8>>) {
        (self.input@, self.pos, self.max_line_length, self.strict, byte_lines(self.pending_bytes@))
    }

    /// A parser of `input` that refuses lines over `MAX_LINE_LENGTH` bytes.
    pub fn new(input: Vec<u8>) -> (p: Self)
        ensures
            p.is_fresh(),
            p.source() == input@,
            p.line_limit() == MAX_LINE_LENGTH,
            p.strict_limit(),
    {
        Self::with_limits(input, MAX_LINE_LENGTH, true)
    }

    /// A parser of `input` with the line limit of `config`; a longer line is
    /// an error when `config.features.line_limit_error`, else it is cut.
    pub fn with_config(input: Vec<u8>, config: &ParserConfig) -> (p: Self)
        ensures
            p.is_fresh(),
            p.source() == input@,
            p.line_limit() == config.max_line_length,
            p.strict_limit() == config.features.line_limit_error,
    {
        Self::with_limits(input, config.max_line_length, config.features.line_limit_error)
    }

    fn with_limits(input: Vec<u8>, max_line_length: usize, strict: bool) -> (p: Self)
        ensures
            p.is_fresh(),
            p.source() == input@,
            p.line_limit() == max_line_length,
            p.strict_limit() == strict,
    {
        let p = StreamParser {
            input,
            pos: 0,
            max_line_length,
            strict,
            state: ParserState::WaitingHeader,
            header: FileHeader::new(),
            stats: ParseStats::new(),
            header_buffer: Vec::new(),
            header_finalized: false,
            encoding: FileEncoding::default_1c(),
            pending_bytes: Vec::new(),
            line_number: 0,
        };
        assert(p.model() =~= initial_view());
        p
    }

    /// Parses the whole input; see `parse_result`.
    pub fn parse(self) -> (r: Result<(FileHeader, ParseStats), LineLengthError>)
        requires
            self.is_fresh(),
            self.source().len() * 3 + 16 <= usize::MAX,
        ensures
            match parse_result(self.source(), self.line_limit(), self.strict_limit()) {
                Ok((h, s)) => r matches Ok((rh, rs)) && rh@ == h && rs@ == s,
                Err(e) => r == Err::<(FileHeader, ParseStats), LineLengthError>(e),
            },
    {
        let mut parser = self;
        match parser.detect_encoding_and_buffer_bytes() {
            Err(e) => return Err(e),
            Ok(()) => {},
        }
        proof {
            let lines = byte_lines(parser.pending_bytes@);
            assert forall|k: int| 0 <= k < parser.pending_bytes@.len() implies #[trigger] parser.pending_bytes@[k]@.len() <= parser.input@.len() by {
                assert(lines[k] == parser.pending_bytes@[k]@);
            }
        }
        match parser.process_stream() {
            Err(e) => return Err(e),
            Ok(()) => {},
        }
        parser.finalize_header();
        Ok((parser.header, parser.stats))
    }

    /// The next line of the input, with its `'\n'` if it has one.
    fn read_line(&mut self) -> (line: Vec<u8>)
        requires
            old(self).pos < old(self).input@.len(),
        ensures
            line@ == old(self).input@.subrange(old(self).pos as int, line_end(old(self).input@, old(self).pos as int)),
            final(self).pos == line_end(old(self).input@, old(self).pos as int),
            old(self).pos < final(self).pos <= final(self).input@.len(),
            final(self).model() == old(self).model(),
            final(self).input@ == old(self).input@,
            final(self).max_line_length == old(self).max_line_length,
            final(self).strict == old(self).strict,
            final(self).pending_bytes@ == old(self).pending_bytes@,
    {
        proof {
            lemma_line_end(self.input@, self.pos as int);
        }
        let start = self.pos;
        let n = self.input.len();
        let mut j = start;
        let mut line: Vec<u8> = Vec::new();
        let mut done = false;
        while !done && j < n
            invariant
                start <= j <= n,
                n == self.input@.len(),
                line@ == self.input@.subrange(start as int, j as int),
                !done ==> line_end(self.input@, j as int) == line_end(self.input@, start as int),
                done ==> j == line_end(self.input@, start as int),
            decreases n - j,
        {
            let b = self.input[j];
            line.push(b);
            j = j + 1;
            if b == 10 {
                done = true;
            }
        }
        self.pos = j;
        line
    }

    /// The error for a line of `actual_length` bytes over the limit, naming
    /// the parser's count of processed lines, when the limit is strict.
    fn handle_line_length_exceeded(&self, actual_length: usize) -> (r: Result<(), LineLengthError>)
        ensures
            self.strict ==> r == Err::<(), LineLengthError>(
                LineLengthError { line_number: self.line_number, actual_length, max_length: self.max_line_length },
            ),
            !self.strict ==> r is Ok,
    {
        if self.strict {
            Err(LineLengthError { line_number: self.line_number, actual_length, max_length: self.max_line_length })
        } else {
            Ok(())
        }
    }

    /// Reads the first lines ahead and finds the declared encoding.
    fn detect_encoding_and_buffer_bytes(&mut self) -> (r: Result<(), LineLengthError>)
        requires
            old(self).is_fresh(),
        ensures
            final(self).input@ == old(self).input@,
            final(self).max_line_length == old(self).max_line_length,
            final(self).strict == old(self).strict,
            match read_ahead(old(self).input@, 0, 0, Seq::empty(), Seq::empty(), old(self).max_line_length, old(self).strict) {
                Err(e) => r == Err::<(), LineLengthError>(e),
                Ok((lines, bytes, p)) => {
                    &&& r is Ok
                    &&& final(self).pos == p
                    &&& byte_lines(final(self).pending_bytes@) == lines
                    &&& final(self).model() == start_view(declared_encoding(bytes))
                    &&& lines.len() <= p <= final(self).input@.len()
                    &&& forall|k: int| 0 <= k < lines.len() ==> #[trigger] lines[k].len() <= final(self).input@.len()
                    &&& total_len(lines) <= p
                },
            },
    {
        let ghost input = self.input@;
        let ghost max = self.max_line_length;
        let ghost strict = self.strict;
        let ghost target = read_ahead(input, 0, 0, Seq::empty(), Seq::empty(), max, strict);
        let mut detection_bytes: Vec<u8> = Vec::new();
        let mut lines_count: usize = 0;
        proof {
            assert(byte_lines(self.pending_bytes@) =~= Seq::empty());
        }
        while lines_count < DETECTION_LINES && self.pos < self.input.len()
            invariant
                input == old(self).input@,
                max == old(self).max_line_length,
                strict == old(self).strict,
                target == read_ahead(input, 0, 0, Seq::empty(), Seq::empty(), max, strict),
                self.input@ == input,
                self.max_line_length == max,
                self.strict == strict,
                self.model() == initial_view(),
                lines_count == self.pending_bytes@.len(),
                lines_count <= DETECTION_LINES,
                lines_count <= self.pos <= input.len(),
                forall|k: int| 0 <= k < self.pending_bytes@.len() ==> #[trigger] self.pending_bytes@[k]@.len() <= input.len(),
                read_ahead(input, self.pos as int, lines_count as nat, byte_lines(self.pending_bytes@), detection_bytes@, max, strict) == target,
                total_len(byte_lines(self.pending_bytes@)) <= self.pos,
            decreases DETECTION_LINES - lines_count,
        {
            let ghost p0 = self.pos as int;
            let ghost old_lines = byte_lines(self.pending_bytes@);
            let mut line = self.read_line();
            if line.len() > self.max_line_length {
                match self.handle_line_length_exceeded(line.len()) {
                    Err(e) => {
                        return Err(e);
                    },
                    Ok(()) => {},
                }
                line.truncate(self.max_line_length);
            }
            assert(line@ == capped(input.subrange(p0, line_end(input, p0)), max));
            let ghost old_bytes = detection_bytes@;
            append_bytes(&mut detection_bytes, &line);
            self.pending_bytes.push(line);
            lines_count = lines_count + 1;
            assert(byte_lines(self.pending_bytes@) =~= old_lines.push(line@));
            assert(old_lines.push(line@).drop_last() =~= old_lines);
            assert(read_ahead(input, p0, (lines_count - 1) as nat, old_lines, old_bytes, max, strict)
                == read_ahead(input, self.pos as int, lines_count as nat, old_lines.push(line@), old_bytes + line@, max, strict));
        }
        let encoding = FileEncoding::detect_from_bytes_standard(&detection_bytes);
        self.encoding = encoding;
        self.header.detected_encoding = encoding;
        let label = match encoding {
            FileEncoding::Utf8 => "Utf8".to_owned(),
            FileEncoding::Windows1251 => "Windows1251".to_owned(),
            FileEncoding::Cp866 => "Cp866".to_owned(),
        };
        self.header.encoding = Some(label);
        assert(self.model() =~= start_view(encoding));
        Ok(())
    }

    /// Processes the lines read ahead, then the rest of the input, until the
    /// file ends.
    fn process_stream(&mut self) -> (r: Result<(), LineLengthError>)
        requires
            counts_bounded(old(self).model()),
            old(self).line_number == 0,
            old(self).stats.total_bytes == 0,
            old(self).pending_bytes@.len() <= old(self).pos <= old(self).input@.len(),
            old(self).input@.len() * 3 + 16 <= usize::MAX,
            forall|k: int| 0 <= k < old(self).pending_bytes@.len() ==> #[trigger] old(self).pending_bytes@[k]@.len() <= old(self).input@.len(),
            total_len(byte_lines(old(self).pending_bytes@)) <= old(self).pos,
        ensures
            ({
                let (m1, ended) = run_read_ahead(old(self).model(), byte_lines(old(self).pending_bytes@), 0);
                let target = if ended {
                    Ok::<ParserView, LineLengthError>(with_line_total(m1))
                } else {
                    run_rest(m1, old(self).input@, old(self).pos as int, old(self).max_line_length, old(self).strict)
                };
                match target {
                    Ok(m) => r is Ok && final(self).model() == m,
                    Err(e) => r == Err::<(), LineLengthError>(e),
                }
            }),
    {
        let ghost input = self.input@;
        let ghost max = self.max_line_length;
        let ghost strict = self.strict;
        let ghost lines = byte_lines(self.pending_bytes@);
        let ghost m0 = self.model();
        let ghost first = run_read_ahead(m0, lines, 0);
        let mut pending: Vec<Vec<u8>> = Vec::new();
        std::mem::swap(&mut pending, &mut self.pending_bytes);
        let n = pending.len();
        let mut i: usize = 0;
        proof {
            assert(lines.take(0) =~= Seq::<Seq<u8>>::empty());
        }
        while i < n
            invariant
                input == old(self).input@,
                max == old(self).max_line_length,
                strict == old(self).strict,
                lines == byte_lines(old(self).pending_bytes@),
                first == run_read_ahead(old(self).model(), lines, 0),
                self.pos == old(self).pos,
                0 <= i <= n,
                n == pending@.len(),
                byte_lines(pending@) == lines,
                self.input@ == input,
                self.max_line_length == max,
                self.strict == strict,
                n <= self.pos <= input.len(),
                input.len() * 3 + 16 <= usize::MAX,
                forall|k: int| 0 <= k < pending@.len() ==> #[trigger] pending@[k]@.len() <= input.len(),
                total_len(lines) <= self.pos,
                self.stats.total_bytes == total_len(lines.take(i as int)),
                self.line_number == i,
                counts_bounded(self.model()),
                run_read_ahead(self.model(), lines, i as int) == first,
            decreases n - i,
        {
            assert(lines[i as int] == pending@[i as int]@);
            let ghost before = self.model();
            proof {
                lemma_after_line_bytes_bounded(before, lines[i as int]);
                lemma_total_len_take(lines, i as int);
                lemma_total_len_take(lines, i + 1);
            }
            self.process_line_bytes(&pending[i]);
            if let ParserState::EndOfFile = self.state {
                let ghost last = self.model();
                self.stats.total_lines = self.line_number;
                assert(self.model() =~= with_line_total(last));
                return Ok(());
            }
            i = i + 1;
        }
        proof {
            lemma_total_len_take(lines, n as int);
        }
        let ghost m1 = self.model();
        assert(first == (m1, false));
        let ghost target = run_rest(m1, input, self.pos as int, max, strict);
        let mut ended = false;
        while !ended && self.pos < self.input.len()
            invariant
                input == old(self).input@,
                max == old(self).max_line_length,
                strict == old(self).strict,
                first == run_read_ahead(old(self).model(), byte_lines(old(self).pending_bytes@), 0),
                first == (m1, false),
                target == run_rest(m1, input, old(self).pos as int, max, strict),
                self.input@ == input,
                self.max_line_length == max,
                self.strict == strict,
                self.line_number <= self.pos <= input.len(),
                self.stats.total_bytes <= self.pos,
                input.len() * 3 + 16 <= usize::MAX,
                counts_bounded(self.model()),
                !ended ==> run_rest(self.model(), input, self.pos as int, max, strict) == target,
                ended ==> target == Ok::<ParserView, LineLengthError>(with_line_total(self.model())),
            decreases input.len() - self.pos,
        {
            let ghost before = self.model();
            let ghost p0 = self.pos as int;
            let mut line = self.read_line();
            if line.len() > self.max_line_length {
                match self.handle_line_length_exceeded(line.len()) {
                    Err(e) => {
                        return Err(e);
                    },
                    Ok(()) => {},
                }
                line.truncate(self.max_line_length);
            }
            assert(line@ == capped(input.subrange(p0, line_end(input, p0)), max));
            proof {
                lemma_after_line_bytes_bounded(before, line@);
            }
            self.process_line_bytes(&line);
            if let ParserState::EndOfFile = self.state {
                ended = true;
            }
        }
        let ghost last = self.model();
        self.stats.total_lines = self.line_number;
        assert(self.model() =~= with_line_total(last));
        Ok(())
    }

    /// Decodes one line of bytes and processes it; see `after_line_bytes`.
    fn process_line_bytes(&mut self, bytes: &[u8])
        requires
            counts_bounded(old(self).model()),
            old(self).line_number < u64::MAX,
            old(self).stats.total_bytes + bytes@.len() <= u64::MAX,
            bytes@.len() * 3 + 16 <= usize::MAX,
        ensures
            final(self).model() == after_line_bytes(old(self).model(), bytes@),
            counts_bounded(final(self).model()),
            final(self).line_number == old(self).line_number + 1,
            final(self).input@ == old(self).input@,
            final(self).pos == old(self).pos,
            final(self).max_line_length == old(self).max_line_length,
            final(self).strict == old(self).strict,
            final(self).pending_bytes@ == old(self).pending_bytes@,
    {
        proof {
            lemma_after_line_bytes_bounded(self.model(), bytes@);
        }
        let text = decode_bytes(bytes, self.encoding);
        self.line_number = self.line_number + 1;
        self.stats.add_bytes(bytes.len() as u64);
        let chars = chars_of(text.as_str());
        let line = strip_line_break_chars(&chars);
        if is_blank(&line) {
            return;
        }
        proof {
            lemma_after_line_bounded(self.model(), line@);
        }
        self.process_line_chars(&line);
    }

    /// Processes one non-blank line of decoded text; see `after_line`.
    pub fn process_line(&mut self, line: &str)
        requires
            line_fits(old(self).model(), line@),
        ensures
            final(self).model() == after_line(old(self).model(), line@),
            final(self).source() == old(self).source(),
            final(self).line_limit() == old(self).line_limit(),
            final(self).strict_limit() == old(self).strict_limit(),
    {
        let chars = chars_of(line);
        self.process_line_chars(&chars);
    }

    fn process_line_chars(&mut self, line: &[char])
        requires
            line_fits(old(self).model(), line@),
        ensures
            final(self).model() == after_line(old(self).model(), line@),
            final(self).line_number == old(self).line_number,
            final(self).input@ == old(self).input@,
            final(self).pos == old(self).pos,
            final(self).max_line_length == old(self).max_line_length,
            final(self).strict == old(self).strict,
            final(self).pending_bytes@ == old(self).pending_bytes@,
    {
        let ghost m = self.model();
        match Self::extract_keyword(line) {
            Some(keyword) => {
                let keyword_text = string_from_chars(&keyword);
                let was_reading_header = match self.state {
                    ParserState::ReadingHeader => true,
                    _ => false,
                };
                let (new_state, section_type) = self.state.transition(keyword_text.as_str());
                let now_reading_header = match new_state {
                    ParserState::ReadingHeader => true,
                    _ => false,
                };
                if was_reading_header && !now_reading_header && !self.header_finalized {
                    self.finalize_header();
                }
                let ghost m1 = self.model();
                match &section_type {
                    Some(section) => {
                        self.stats.total_sections = self.stats.total_sections + 1;
                        match section {
                            SectionType::AccountStatement => {
                                self.stats.account_sections = self.stats.account_sections + 1;
                            },
                            SectionType::Document(doc_type) => {
                                self.stats.add_document(doc_type.as_str());
                            },
                            SectionType::Header => {},
                        }
                        assert(self.stats@ =~= with_section(m1.stats, section@));
                    },
                    None => {},
                }
                self.state = new_state;
                assert(self.model() =~= after_line(m, line@));
            },
            None => {
                if let ParserState::ReadingHeader = self.state {
                    append_line(&mut self.header_buffer, line);
                    Self::parse_header_field_line(&mut self.header, line);
                    assert(self.model() =~= after_line(m, line@));
                }
            },
        }
    }

    /// Closes the header; see `finalized`.
    fn finalize_header(&mut self)
        ensures
            final(self).model() == finalized(old(self).model()),
            final(self).line_number == old(self).line_number,
            final(self).input@ == old(self).input@,
            final(self).pos == old(self).pos,
            final(self).max_line_length == old(self).max_line_length,
            final(self).strict == old(self).strict,
            final(self).pending_bytes@ == old(self).pending_bytes@,
    {
        if self.header_finalized {
            return;
        }
        self.header.raw_content = string_from_chars(&self.header_buffer);
        self.header_buffer = Vec::new();
        self.header.detected_encoding = self.encoding;
        self.header_finalized = true;
        assert(self.model() =~= finalized(old(self).model()));
    }

    /// The keyword that a line carries; see `keyword_of`.
    fn extract_keyword(line: &[char]) -> (r: Option<Vec<char>>)
        ensures
            match r {
                Some(k) => keyword_of(line@) == Some(k@),
                None => keyword_of(line@) is None,
            },
    {
        if starts_with_str(line, "1CClientBankExchange") {
            return Some(chars_of("1CClientBankExchange"));
        }
        if starts_with_str(line, "СекцияРасчСчет") {
            return Some(chars_of("СекцияРасчСчет"));
        }
        if starts_with_str(line, "КонецРасчСчет") {
            return Some(chars_of("КонецРасчСчет"));
        }
        if starts_with_str(line, "СекцияДокумент") {
            return Some(slice_chars(line, 0, line.len()));
        }
        if starts_with_str(line, "КонецДокумента") {
            return Some(chars_of("КонецДокумента"));
        }
        if starts_with_str(line, "КонецФайла") {
            return Some(chars_of("КонецФайла"));
        }
        None
    }

    /// Reads a `key=value` header line into the header; see `with_header_field`.
    fn parse_header_field_line(header: &mut FileHeader, line: &[char])
        ensures
            final(header)@ == with_header_field(old(header)@, line@),
    {
        let p = find_char(line, '=');
        proof {
            lemma_find_from_bounds(line@, '=', 0);
        }
        if p < line.len() {
            let key_part = slice_chars(line, 0, p);
            let value_part = slice_chars(line, p + 1, line.len());
            let key = trim_chars(&key_part);
            let value_chars = trim_chars(&value_part);
            let value = string_from_chars(&value_chars);
            assert(key_part@ == line@.take(p as int));
            assert(value_part@ == line@.skip(p + 1));
            if equals_str(&key, "ВерсияФормата") {
                header.version = Some(value);
            } else if equals_str(&key, "Кодировка") {
                header.encoding = Some(value);
            } else if equals_str(&key, "Отправитель") {
                header.sender = Some(value);
            } else if equals_str(&key, "Получатель") {
                header.receiver = Some(value);
            } else if equals_str(&key, "ДатаСоздания") {
                header.created_date = Some(value);
            } else if equals_str(&key, "ВремяСоздания") {
                header.created_time = Some(value);
            } else if equals_str(&key, "ДатаНачала") {
                header.date_from = Some(value);
            } else if equals_str(&key, "ДатаКонца") {
                header.date_to = Some(value);
            } else if equals_str(&key, "РасчСчет") {
                let ghost before = header.accounts@;
                header.accounts.push(value);
                assert(crate::text::texts(header.accounts@) =~= crate::text::texts(before).push(value_chars@));
            } else if equals_str(&key, "Документ") {
                let ghost before = header.document_types@;
                header.document_types.push(value);
                assert(crate::text::texts(header.document_types@) =~= crate::text::texts(before).push(value_chars@));
            }
        }
    }

    /// The header and the counts gathered so far.
    pub fn into_results(self) -> (r: (FileHeader, ParseStats))
        ensures
            r.0@ == self.model().header,
            r.1@ == self.model().stats,
    {
        (self.header, self.stats)
    }
}

} // verus!
