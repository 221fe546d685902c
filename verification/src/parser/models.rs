//! What a parse produces: the file header and the section counts.
use crate::parser::encoding::FileEncoding;
use crate::text::{opt_text, texts};
use vstd::prelude::*;

verus! {

/// The kind of a section that a keyword opens.
#[derive(Debug, Clone, PartialEq, Eq, Hash)]
pub enum SectionType {
    Header,
    AccountStatement,
    Document(String),
}

/// `SectionType` with the document type as a character sequence.
pub enum SectionView {
    Header,
    AccountStatement,
    Document(Seq<char>),
}

impl View for SectionType {
    type V = SectionView;

    open spec fn view(&self) -> SectionView {
        match self {
            SectionType::Header => SectionView::Header,
            SectionType::AccountStatement => SectionView::AccountStatement,
            SectionType::Document(t) => SectionView::Document(t@),
        }
    }
}

/// The fields of a file's header section, with the raw header text.
#[derive(Debug, Clone)]
pub struct FileHeader {
    pub version: Option<String>,
    pub encoding: Option<String>,
    pub detected_encoding: FileEncoding,
    pub sender: Option<String>,
    pub receiver: Option<String>,
    pub created_date: Option<String>,
    pub created_time: Option<String>,
    pub date_from: Option<String>,
    pub date_to: Option<String>,
    pub accounts: Vec<String>,
    pub document_types: Vec<String>,
    pub raw_content: String,
}

/// `FileHeader` with texts as character sequences.
#[verifier::ext_equal]
pub struct HeaderView {
    pub version: Option<Seq<char>>,
    pub encoding: Option<Seq<char>>,
    pub detected_encoding: FileEncoding,
    pub sender: Option<Seq<char>>,
    pub receiver: Option<Seq<char>>,
    pub created_date: Option<Seq<char>>,
    pub created_time: Option<Seq<char>>,
    pub date_from: Option<Seq<char>>,
    pub date_to: Option<Seq<char>>,
    pub accounts: Seq<Seq<char>>,
    pub document_types: Seq<Seq<char>>,
    pub raw_content: Seq<char>,
}

impl View for FileHeader {
    type V = HeaderView;

    open spec fn view(&self) -> HeaderView {
        HeaderView {
            version: opt_text(self.version),
            encoding: opt_text(self.encoding),
            detected_encoding: self.detected_encoding,
            sender: opt_text(self.sender),
            receiver: opt_text(self.receiver),
            created_date: opt_text(self.created_date),
            created_time: opt_text(self.created_time),
            date_from: opt_text(self.date_from),
            date_to: opt_text(self.date_to),
            accounts: texts(self.accounts@),
            document_types: texts(self.document_types@),
            raw_content: self.raw_content@,
        }
    }
}

/// A header with no field read yet, in the default encoding.
pub open spec fn empty_header() -> HeaderView {
    HeaderView {
        version: None,
        encoding: None,
        detected_encoding: FileEncoding::Windows1251,
        sender: None,
        receiver: None,
        created_date: None,
        created_time: None,
        date_from: None,
        date_to: None,
        accounts: Seq::empty(),
        document_types: Seq::empty(),
        raw_content: Seq::empty(),
    }
}

impl FileHeader {
    /// A header with no field read yet, in the default encoding (Windows-1251).
    pub fn new() -> (h: Self)
        ensures
            h@ == empty_header(),
    {
        let h = FileHeader {
            version: None,
            encoding: None,
            detected_encoding: FileEncoding::default_1c(),
            sender: None,
            receiver: None,
            created_date: None,
            created_time: None,
            date_from: None,
            date_to: None,
            accounts: Vec::new(),
            document_types: Vec::new(),
            raw_content: String::new(),
        };
        assert(h@.accounts =~= Seq::empty());
        assert(h@.document_types =~= Seq::empty());
        h
    }
}

impl Default for FileHeader {
    fn default() -> (h: Self)
        ensures
            h@ == empty_header(),
    {
        Self::new()
    }
}

/// Counts gathered while parsing a file.
///
/// `documents_by_type` holds one entry per document type, in the order in
/// which the types first occurred, with the number of sections of that type.
#[derive(Debug, Clone)]
pub struct ParseStats {
    pub total_sections: u64,
    pub account_sections: u64,
    pub document_sections: u64,
    pub documents_by_type: Vec<(String, u64)>,
    pub total_lines: u64,
    pub total_bytes: u64,
}

/// `ParseStats` with counts as natural numbers and types as character sequences.
#[verifier::ext_equal]
pub struct StatsView {
    pub total_sections: nat,
    pub account_sections: nat,
    pub document_sections: nat,
    pub documents_by_type: Seq<(Seq<char>, nat)>,
    pub total_lines: nat,
    pub total_bytes: nat,
}

/// The views of the per-type counts.
pub open spec fn type_counts(v: Seq<(String, u64)>) -> Seq<(Seq<char>, nat)> {
    v.map_values(|p: (String, u64)| (p.0@, p.1 as nat))
}

impl View for ParseStats {
    type V = StatsView;

    open spec fn view(&self) -> StatsView {
        StatsView {
            total_sections: self.total_sections as nat,
            account_sections: self.account_sections as nat,
            document_sections: self.document_sections as nat,
            documents_by_type: type_counts(self.documents_by_type@),
            total_lines: self.total_lines as nat,
            total_bytes: self.total_bytes as nat,
        }
    }
}

/// All counts zero, no document type.
pub open spec fn empty_stats() -> StatsView {
    StatsView {
        total_sections: 0,
        account_sections: 0,
        document_sections: 0,
        documents_by_type: Seq::empty(),
        total_lines: 0,
        total_bytes: 0,
    }
}

/// Index of the first entry of type `t` at or after `i`, or -1.
pub open spec fn type_index_from(entries: Seq<(Seq<char>, nat)>, t: Seq<char>, i: int) -> int
    decreases entries.len() - i,
{
    if i < 0 || i >= entries.len() {
        -1
    } else if entries[i].0 == t {
        i
    } else {
        type_index_from(entries, t, i + 1)
    }
}

/// Index of the entry of type `t`, or -1.
pub open spec fn type_index(entries: Seq<(Seq<char>, nat)>, t: Seq<char>) -> int {
    type_index_from(entries, t, 0)
}

/// The number recorded for type `t` (0 when it has no entry).
pub open spec fn count_of_type(entries: Seq<(Seq<char>, nat)>, t: Seq<char>) -> nat {
    let i = type_index(entries, t);
    if i >= 0 {
        entries[i].1
    } else {
        0
    }
}

/// One more section of type `t`: its entry counts one more, or a new entry
/// with count 1 is appended.
pub open spec fn bump_type(entries: Seq<(Seq<char>, nat)>, t: Seq<char>) -> Seq<(Seq<char>, nat)> {
    let i = type_index(entries, t);
    if i >= 0 {
        entries.update(i, (t, entries[i].1 + 1))
    } else {
        entries.push((t, 1))
    }
}

/// The counts after one more document section of type `t`.
pub open spec fn with_document(s: StatsView, t: Seq<char>) -> StatsView {
    StatsView {
        document_sections: s.document_sections + 1,
        documents_by_type: bump_type(s.documents_by_type, t),
        ..s
    }
}

pub proof fn lemma_type_index_from(entries: Seq<(Seq<char>, nat)>, t: Seq<char>, i: int)
    requires
        0 <= i,
    ensures
        -1 <= type_index_from(entries, t, i) < entries.len(),
        type_index_from(entries, t, i) >= 0 ==> i <= type_index_from(entries, t, i) && entries[type_index_from(entries, t, i)].0 == t,
        forall|k: int| i <= k < entries.len() && (type_index_from(entries, t, i) < 0 || k < type_index_from(entries, t, i)) ==> #[trigger] entries[k].0 != t,
    decreases entries.len() - i,
{
    if i < entries.len() && entries[i].0 != t {
        lemma_type_index_from(entries, t, i + 1);
    }
}

impl ParseStats {
    /// All counts zero.
    pub fn new() -> (s: Self)
        ensures
            s@ == empty_stats(),
    {
        let s = ParseStats {
            total_sections: 0,
            account_sections: 0,
            document_sections: 0,
            documents_by_type: Vec::new(),
            total_lines: 0,
            total_bytes: 0,
        };
        assert(s@.documents_by_type =~= Seq::empty());
        s
    }

    /// Counts one more document section of type `doc_type`.
    pub fn add_document(&mut self, doc_type: &str)
        requires
            old(self).document_sections < u64::MAX,
            count_of_type(old(self)@.documents_by_type, doc_type@) < u64::MAX,
        ensures
            final(self)@ == with_document(old(self)@, doc_type@),
    {
        let ghost entries = self@.documents_by_type;
        let key = doc_type.to_owned();
        let found = find_in(&self.documents_by_type, &key);
        self.document_sections = self.document_sections + 1;
        match found {
            Some(i) => {
                let c = self.documents_by_type[i].1;
                assert(c == entries[i as int].1);
                self.documents_by_type.set(i, (key, c + 1));
            },
            None => {
                self.documents_by_type.push((key, 1));
            },
        }
        assert(type_counts(self.documents_by_type@) =~= bump_type(entries, doc_type@));
    }

    /// Counts one more line.
    pub fn add_line(&mut self)
        requires
            old(self).total_lines < u64::MAX,
        ensures
            final(self)@ == (StatsView { total_lines: old(self)@.total_lines + 1, ..old(self)@ }),
    {
        self.total_lines = self.total_lines + 1;
    }

    /// Counts `bytes` more processed bytes.
    pub fn add_bytes(&mut self, bytes: u64)
        requires
            old(self).total_bytes + bytes <= u64::MAX,
        ensures
            final(self)@ == (StatsView { total_bytes: old(self)@.total_bytes + bytes as nat, ..old(self)@ }),
    {
        self.total_bytes = self.total_bytes + bytes;
    }

    /// The number of document sections of type `doc_type`.
    pub fn count_of(&self, doc_type: &str) -> (r: u64)
        ensures
            r == count_of_type(self@.documents_by_type, doc_type@),
    {
        let key = doc_type.to_owned();
        match find_in(&self.documents_by_type, &key) {
            Some(i) => self.documents_by_type[i].1,
            None => 0,
        }
    }
}

impl Default for ParseStats {
    fn default() -> (s: Self)
        ensures
            s@ == empty_stats(),
    {
        Self::new()
    }
}

/// The view of an optional section.
pub open spec fn opt_section(o: Option<SectionType>) -> Option<SectionView> {
    match o {
        Some(t) => Some(t@),
        None => None,
    }
}

} // verus!

verus! {

/// Sum of the per-type counts.
pub open spec fn sum_counts(entries: Seq<(Seq<char>, nat)>) -> nat
    decreases entries.len(),
{
    if entries.len() == 0 {
        0
    } else {
        sum_counts(entries.drop_last()) + entries.last().1
    }
}

/// No document type has two entries, and every entry counts at least one
/// section.
pub open spec fn types_well_formed(entries: Seq<(Seq<char>, nat)>) -> bool {
    &&& forall|i: int, j: int| 0 <= i < j < entries.len() ==> #[trigger] entries[i].0 != #[trigger] entries[j].0
    &&& forall|i: int| 0 <= i < entries.len() ==> #[trigger] entries[i].1 >= 1
}

pub proof fn lemma_sum_counts_update(entries: Seq<(Seq<char>, nat)>, i: int, x: (Seq<char>, nat))
    requires
        0 <= i < entries.len(),
    ensures
        sum_counts(entries.update(i, x)) + entries[i].1 == sum_counts(entries) + x.1,
    decreases entries.len(),
{
    let u = entries.update(i, x);
    if i == entries.len() - 1 {
        assert(u.drop_last() =~= entries.drop_last());
    } else {
        lemma_sum_counts_update(entries.drop_last(), i, x);
        assert(u.drop_last() =~= entries.drop_last().update(i, x));
    }
}

/// One more section of a type adds one to the sum of the counts and keeps the
/// entries well formed.
pub proof fn lemma_bump_type(entries: Seq<(Seq<char>, nat)>, t: Seq<char>)
    requires
        types_well_formed(entries),
    ensures
        sum_counts(bump_type(entries, t)) == sum_counts(entries) + 1,
        types_well_formed(bump_type(entries, t)),
        count_of_type(bump_type(entries, t), t) == count_of_type(entries, t) + 1,
{
    lemma_type_index_from(entries, t, 0);
    let i = type_index(entries, t);
    let b = bump_type(entries, t);
    if i >= 0 {
        lemma_sum_counts_update(entries, i, (t, entries[i].1 + 1));
        lemma_type_index_from(b, t, 0);
        assert(b[i].0 == t);
        if type_index(b, t) != i {
            let k = type_index(b, t);
            assert(b[k].0 == t);
            assert(entries[k].0 == t);
        }
    } else {
        assert(b.drop_last() =~= entries);
        assert forall|p: int, q: int| 0 <= p < q < b.len() implies #[trigger] b[p].0 != #[trigger] b[q].0 by {
            if q == entries.len() {
                assert(entries[p].0 != t);
            }
        }
        lemma_type_index_from(b, t, 0);
        assert(b[entries.len() as int].0 == t);
        if type_index(b, t) != entries.len() as int {
            let k = type_index(b, t);
            if k >= 0 {
                assert(b[k].0 == t);
                assert(entries[k].0 == t);
            }
        }
    }
}

/// Counting a document of type `t` leaves the count of every other type as
/// it was.
pub proof fn lemma_bump_type_other(entries: Seq<(Seq<char>, nat)>, t: Seq<char>, u: Seq<char>)
    requires
        u != t,
    ensures
        count_of_type(bump_type(entries, t), u) == count_of_type(entries, u),
{
    lemma_type_index_from(entries, t, 0);
    lemma_type_index_from(entries, u, 0);
    let b = bump_type(entries, t);
    lemma_type_index_from(b, u, 0);
    let iu = type_index(entries, u);
    let ju = type_index(b, u);
    if ju >= 0 {
        assert(b[ju].0 == u);
        if ju < entries.len() {
            assert(entries[ju].0 == u);
        }
    }
    if iu >= 0 {
        assert(b[iu].0 == u);
    }
}

/// `add_document` counts one more section of its type and no other.
pub proof fn lemma_with_document_counts(s: StatsView, t: Seq<char>, u: Seq<char>)
    requires
        types_well_formed(s.documents_by_type),
    ensures
        count_of_type(with_document(s, t).documents_by_type, t) == count_of_type(s.documents_by_type, t) + 1,
        u != t ==> count_of_type(with_document(s, t).documents_by_type, u) == count_of_type(s.documents_by_type, u),
        with_document(s, t).document_sections == s.document_sections + 1,
{
    lemma_bump_type(s.documents_by_type, t);
    if u != t {
        lemma_bump_type_other(s.documents_by_type, t, u);
    }
}

/// `c` more sections of type `t`: its entry grows by `c`, or a new entry
/// `(t, c)` is appended.
pub open spec fn add_count(entries: Seq<(Seq<char>, nat)>, t: Seq<char>, c: nat) -> Seq<(Seq<char>, nat)> {
    let i = type_index(entries, t);
    if i >= 0 {
        entries.update(i, (t, entries[i].1 + c))
    } else {
        entries.push((t, c))
    }
}

/// The entries after adding those of `others`, from the `i`-th on, in order.
pub open spec fn merge_types(entries: Seq<(Seq<char>, nat)>, others: Seq<(Seq<char>, nat)>, i: int) -> Seq<(Seq<char>, nat)>
    decreases others.len() - i,
{
    if i < 0 || i >= others.len() {
        entries
    } else {
        merge_types(add_count(entries, others[i].0, others[i].1), others, i + 1)
    }
}

/// No count runs past `u64::MAX` while `others` (from the `i`-th on) is added.
pub open spec fn merge_fits(entries: Seq<(Seq<char>, nat)>, others: Seq<(Seq<char>, nat)>, i: int) -> bool
    decreases others.len() - i,
{
    if i < 0 || i >= others.len() {
        true
    } else {
        count_of_type(entries, others[i].0) + others[i].1 <= u64::MAX && merge_fits(
            add_count(entries, others[i].0, others[i].1),
            others,
            i + 1,
        )
    }
}

/// The counts of two parses added together.
pub open spec fn combined(s: StatsView, o: StatsView) -> StatsView {
    StatsView {
        total_sections: s.total_sections + o.total_sections,
        account_sections: s.account_sections + o.account_sections,
        document_sections: s.document_sections + o.document_sections,
        documents_by_type: merge_types(s.documents_by_type, o.documents_by_type, 0),
        total_lines: s.total_lines + o.total_lines,
        total_bytes: s.total_bytes + o.total_bytes,
    }
}

/// Adding the counts keeps every counter within `u64`.
pub open spec fn combination_fits(s: StatsView, o: StatsView) -> bool {
    &&& s.total_sections + o.total_sections <= u64::MAX
    &&& s.account_sections + o.account_sections <= u64::MAX
    &&& s.document_sections + o.document_sections <= u64::MAX
    &&& s.total_lines + o.total_lines <= u64::MAX
    &&& s.total_bytes + o.total_bytes <= u64::MAX
    &&& merge_fits(s.documents_by_type, o.documents_by_type, 0)
}

/// A copy of the per-type counts.
fn copy_counts(v: &Vec<(String, u64)>) -> (r: Vec<(String, u64)>)
    ensures
        type_counts(r@) == type_counts(v@),
{
    let n = v.len();
    let mut r: Vec<(String, u64)> = Vec::new();
    let mut k: usize = 0;
    while k < n
        invariant
            0 <= k <= n,
            n == v@.len(),
            r@.len() == k,
            forall|j: int| 0 <= j < k ==> #[trigger] r@[j].0@ == v@[j].0@ && r@[j].1 == v@[j].1,
        decreases n - k,
    {
        r.push((v[k].0.clone(), v[k].1));
        k = k + 1;
    }
    assert(type_counts(r@) =~= type_counts(v@));
    r
}

/// Position of the entry of type `key` in `entries`, if any.
fn find_in(entries: &Vec<(String, u64)>, key: &String) -> (r: Option<usize>)
    ensures
        match r {
            Some(i) => type_index(type_counts(entries@), key@) == i && i < entries@.len(),
            None => type_index(type_counts(entries@), key@) == -1,
        },
{
    let ghost e = type_counts(entries@);
    proof {
        lemma_type_index_from(e, key@, 0);
    }
    let n = entries.len();
    let mut i: usize = 0;
    while i < n
        invariant
            0 <= i <= n,
            n == entries@.len(),
            e == type_counts(entries@),
            -1 <= type_index(e, key@) < e.len(),
            type_index(e, key@) >= 0 ==> e[type_index(e, key@)].0 == key@,
            forall|k: int| 0 <= k < e.len() && (type_index(e, key@) < 0 || k < type_index(e, key@)) ==> #[trigger] e[k].0 != key@,
            forall|k: int| 0 <= k < i ==> #[trigger] e[k].0 != key@,
        decreases n - i,
    {
        if entries[i].0 == *key {
            assert(e[i as int].0 == key@);
            return Some(i);
        }
        assert(e[i as int].0 != key@);
        i = i + 1;
    }
    None
}

/// Adds the entries of `others` to `entries`; gives `false` (with `entries`
/// partly updated) as soon as a count would pass `u64::MAX`.
fn merge_counts(entries: &mut Vec<(String, u64)>, others: &Vec<(String, u64)>) -> (r: bool)
    ensures
        r == merge_fits(type_counts(old(entries)@), type_counts(others@), 0),
        r ==> type_counts(final(entries)@) == merge_types(type_counts(old(entries)@), type_counts(others@), 0),
{
    let ghost o = type_counts(others@);
    let ghost target_fits = merge_fits(type_counts(entries@), o, 0);
    let ghost target = merge_types(type_counts(entries@), o, 0);
    let n = others.len();
    let mut i: usize = 0;
    while i < n
        invariant
            0 <= i <= n,
            n == others@.len(),
            o == type_counts(others@),
            target_fits == merge_fits(type_counts(old(entries)@), o, 0),
            target == merge_types(type_counts(old(entries)@), o, 0),
            merge_fits(type_counts(entries@), o, i as int) == target_fits,
            merge_fits(type_counts(entries@), o, i as int) ==> merge_types(type_counts(entries@), o, i as int) == target,
        decreases n - i,
    {
        let ghost e = type_counts(entries@);
        let key = others[i].0.clone();
        let c = others[i].1;
        assert(o[i as int] == (key@, c as nat));
        match find_in(entries, &key) {
            Some(j) => {
                let old_count = entries[j].1;
                assert(old_count == e[j as int].1);
                match old_count.checked_add(c) {
                    Some(sum) => {
                        entries.set(j, (key, sum));
                        assert(type_counts(entries@) =~= add_count(e, o[i as int].0, o[i as int].1));
                    },
                    None => {
                        assert(count_of_type(e, key@) == old_count);
                        return false;
                    },
                }
            },
            None => {
                entries.push((key, c));
                assert(type_counts(entries@) =~= add_count(e, o[i as int].0, o[i as int].1));
            },
        }
        i = i + 1;
    }
    true
}

impl ParseStats {
    /// Whether `add_stats(other)` keeps every counter within `u64`.
    pub fn can_add_stats(&self, other: &ParseStats) -> (r: bool)
        ensures
            r == combination_fits(self@, other@),
    {
        if self.total_sections.checked_add(other.total_sections).is_none()
            || self.account_sections.checked_add(other.account_sections).is_none()
            || self.document_sections.checked_add(other.document_sections).is_none()
            || self.total_lines.checked_add(other.total_lines).is_none()
            || self.total_bytes.checked_add(other.total_bytes).is_none() {
            return false;
        }
        let mut scratch = copy_counts(&self.documents_by_type);
        merge_counts(&mut scratch, &other.documents_by_type)
    }

    /// Adds the counts of another parse to these: every counter is summed and
    /// the per-type counts are merged by type, new types appended in order.
    pub fn add_stats(&mut self, other: &ParseStats)
        requires
            combination_fits(old(self)@, other@),
        ensures
            final(self)@ == combined(old(self)@, other@),
    {
        self.total_sections = self.total_sections + other.total_sections;
        self.account_sections = self.account_sections + other.account_sections;
        self.document_sections = self.document_sections + other.document_sections;
        self.total_lines = self.total_lines + other.total_lines;
        self.total_bytes = self.total_bytes + other.total_bytes;
        let ok = merge_counts(&mut self.documents_by_type, &other.documents_by_type);
        assert(ok);
    }
}

/// Counts never grow along the sequence.
pub open spec fn counts_descending(entries: Seq<(Seq<char>, nat)>) -> bool {
    forall|a: int, b: int| 0 <= a < b < entries.len() ==> #[trigger] entries[a].1 >= #[trigger] entries[b].1
}

impl ParseStats {
    /// The per-type counts, largest count first (the report's order).
    pub fn types_by_count(&self) -> (r: Vec<(String, u64)>)
        ensures
            counts_descending(type_counts(r@)),
            type_counts(r@).to_multiset() == type_counts(self.documents_by_type@).to_multiset(),
    {
        let ghost all = type_counts(self.documents_by_type@);
        let n = self.documents_by_type.len();
        let mut r: Vec<(String, u64)> = Vec::new();
        let mut k: usize = 0;
        proof {
            assert(all.take(0) =~= Seq::<(Seq<char>, nat)>::empty());
            assert(type_counts(r@) =~= Seq::<(Seq<char>, nat)>::empty());
        }
        while k < n
            invariant
                0 <= k <= n,
                n == self.documents_by_type@.len(),
                all == type_counts(self.documents_by_type@),
                counts_descending(type_counts(r@)),
                type_counts(r@).to_multiset() == all.take(k as int).to_multiset(),
            decreases n - k,
        {
            let name = self.documents_by_type[k].0.clone();
            let c = self.documents_by_type[k].1;
            let ghost x = (name@, c as nat);
            assert(all[k as int] == x);
            let m = r.len();
            let mut j: usize = 0;
            while j < m && r[j].1 >= c
                invariant
                    0 <= j <= m,
                    m == r@.len(),
                    forall|a: int| 0 <= a < j ==> #[trigger] r@[a].1 >= c,
                decreases m - j,
            {
                j = j + 1;
            }
            let ghost before = type_counts(r@);
            r.insert(j, (name, c));
            assert(type_counts(r@) =~= before.insert(j as int, x));
            assert(all.take(k + 1) =~= all.take(k as int).push(x));
            proof {
                vstd::seq_lib::to_multiset_insert(before, j as int, x);
                vstd::seq_lib::to_multiset_build(all.take(k as int), x);
                let t = type_counts(r@);
                assert forall|a: int, b: int| 0 <= a < b < t.len() implies #[trigger] t[a].1 >= #[trigger] t[b].1 by {
                    if b < j {
                        assert(before[a].1 >= before[b].1);
                    } else if b == j {
                        assert(r@[a].1 >= c);
                    } else if a == j {
                        if j < m {
                            assert(before[j as int].1 < c);
                            assert(before[j as int].1 >= before[b - 1].1);
                        }
                    } else if a < j {
                        assert(before[a].1 >= before[b - 1].1);
                    } else {
                        assert(before[a - 1].1 >= before[b - 1].1);
                    }
                }
            }
            k = k + 1;
        }
        assert(all.take(n as int) =~= all);
        r
    }
}

/// Adding `c >= 1` sections of a type adds `c` to the sum of the counts and
/// keeps the entries well formed.
pub proof fn lemma_add_count(entries: Seq<(Seq<char>, nat)>, t: Seq<char>, c: nat)
    requires
        types_well_formed(entries),
        c >= 1,
    ensures
        sum_counts(add_count(entries, t, c)) == sum_counts(entries) + c,
        types_well_formed(add_count(entries, t, c)),
{
    lemma_type_index_from(entries, t, 0);
    let i = type_index(entries, t);
    let b = add_count(entries, t, c);
    if i >= 0 {
        lemma_sum_counts_update(entries, i, (t, entries[i].1 + c));
    } else {
        assert(b.drop_last() =~= entries);
        assert forall|p: int, q: int| 0 <= p < q < b.len() implies #[trigger] b[p].0 != #[trigger] b[q].0 by {
            if q == entries.len() {
                assert(entries[p].0 != t);
            }
        }
    }
}

proof fn lemma_merge_types_from(entries: Seq<(Seq<char>, nat)>, others: Seq<(Seq<char>, nat)>, i: int)
    requires
        types_well_formed(entries),
        types_well_formed(others),
        0 <= i <= others.len(),
    ensures
        types_well_formed(merge_types(entries, others, i)),
        sum_counts(merge_types(entries, others, i)) + sum_counts(others.take(i)) == sum_counts(entries) + sum_counts(others),
    decreases others.len() - i,
{
    if i == others.len() {
        assert(others.take(i) =~= others);
    } else {
        lemma_add_count(entries, others[i].0, others[i].1);
        lemma_merge_types_from(add_count(entries, others[i].0, others[i].1), others, i + 1);
        assert(others.take(i + 1).drop_last() =~= others.take(i));
    }
}

/// Combining the counts of two consistent parses gives consistent counts:
/// each document type listed once with a positive count, and the per-type
/// counts adding up to the document sections.
pub proof fn lemma_combined_consistent(s: StatsView, o: StatsView)
    requires
        types_well_formed(s.documents_by_type),
        types_well_formed(o.documents_by_type),
        s.document_sections == sum_counts(s.documents_by_type),
        o.document_sections == sum_counts(o.documents_by_type),
    ensures
        types_well_formed(combined(s, o).documents_by_type),
        combined(s, o).document_sections == sum_counts(combined(s, o).documents_by_type),
{
    lemma_merge_types_from(s.documents_by_type, o.documents_by_type, 0);
    assert(o.documents_by_type.take(0) =~= Seq::<(Seq<char>, nat)>::empty());
}

/// Combining with empty counts changes nothing.
pub proof fn lemma_combined_with_empty(s: StatsView)
    ensures
        combined(s, empty_stats()) == s,
{
    assert(combined(s, empty_stats()) =~= s);
}

/// Adding `c` sections of type `u` adds `c` to the count of `u` and leaves
/// every other type's count as it was.
pub proof fn lemma_count_after_add(entries: Seq<(Seq<char>, nat)>, u: Seq<char>, c: nat, t: Seq<char>)
    ensures
        count_of_type(add_count(entries, u, c), t) == count_of_type(entries, t) + if u == t {
            c
        } else {
            0
        },
{
    let e2 = add_count(entries, u, c);
    let i = type_index(entries, u);
    lemma_type_index_from(entries, u, 0);
    lemma_type_index_from(entries, t, 0);
    lemma_type_index_from(e2, t, 0);
    let j = type_index(entries, t);
    let j2 = type_index(e2, t);
    if i >= 0 {
        assert forall|k: int| 0 <= k < entries.len() implies #[trigger] e2[k].0 == entries[k].0 by {}
        if j >= 0 && j2 >= 0 {
            if j < j2 {
                assert(e2[j].0 == entries[j].0);
            } else if j2 < j {
                assert(e2[j2].0 == entries[j2].0);
            }
        } else if j >= 0 {
            assert(e2[j].0 == entries[j].0);
        } else if j2 >= 0 {
            assert(e2[j2].0 == entries[j2].0);
        }
        if u == t {
            assert(i == j);
        }
    } else {
        assert(e2 == entries.push((u, c)));
        if j >= 0 && j2 >= 0 {
            if j < j2 {
                assert(e2[j].0 == entries[j].0);
            } else if j2 < j {
                assert(e2[j2].0 == entries[j2].0);
            }
        } else if j >= 0 {
            assert(e2[j].0 == entries[j].0);
        } else if j2 >= 0 {
            if j2 < entries.len() {
                assert(e2[j2].0 == entries[j2].0);
            }
        }
        if u == t {
            assert(e2[entries.len() as int].0 == t);
        }
    }
}

proof fn lemma_count_merge_from(entries: Seq<(Seq<char>, nat)>, others: Seq<(Seq<char>, nat)>, i: int, t: Seq<char>)
    requires
        types_well_formed(others),
        0 <= i <= others.len(),
    ensures
        count_of_type(merge_types(entries, others, i), t) + count_of_type(others.take(i), t)
            == count_of_type(entries, t) + count_of_type(others, t),
    decreases others.len() - i,
{
    if i == others.len() {
        assert(others.take(i) =~= others);
    } else {
        let u = others[i].0;
        let c = others[i].1;
        lemma_count_after_add(entries, u, c, t);
        lemma_count_merge_from(add_count(entries, u, c), others, i + 1, t);
        let pre = others.take(i);
        lemma_type_index_from(pre, u, 0);
        if type_index(pre, u) >= 0 {
            let k = type_index(pre, u);
            assert(others[k].0 == u);
        }
        assert(add_count(pre, u, c) =~= others.take(i + 1));
        lemma_count_after_add(pre, u, c, t);
    }
}

/// The statistics of two files added together: every counter is the sum of
/// the two, and (when the other's document types are listed once each) each
/// document type counts the sections of that type in both.
pub proof fn lemma_combined_adds_counts(s: StatsView, o: StatsView)
    ensures
        combined(s, o).total_sections == s.total_sections + o.total_sections,
        combined(s, o).account_sections == s.account_sections + o.account_sections,
        combined(s, o).document_sections == s.document_sections + o.document_sections,
        combined(s, o).total_lines == s.total_lines + o.total_lines,
        combined(s, o).total_bytes == s.total_bytes + o.total_bytes,
        types_well_formed(o.documents_by_type) ==> forall|t: Seq<char>|
            #[trigger] count_of_type(combined(s, o).documents_by_type, t) == count_of_type(s.documents_by_type, t)
                + count_of_type(o.documents_by_type, t),
{
    if types_well_formed(o.documents_by_type) {
        assert forall|t: Seq<char>|
            #[trigger] count_of_type(combined(s, o).documents_by_type, t) == count_of_type(s.documents_by_type, t)
                + count_of_type(o.documents_by_type, t) by {
            lemma_count_merge_from(s.documents_by_type, o.documents_by_type, 0, t);
            assert(o.documents_by_type.take(0) =~= Seq::<(Seq<char>, nat)>::empty());
        }
    }
}

} // verus!
