//! Combining configuration files: the files listed under `[includes]` are
//! walked depth first, in list order, and each finished file is merged over
//! the file that includes it; several top-level files are merged left to
//! right, later ones overriding earlier ones.
//!
//! Reading a file is the caller's part: the walk says which file it needs
//! next (`IncludeAction::ReadFile`) and is handed its text (`feed`).
use crate::config::loader::{
    include_list, merge_maps, merge_result, parse_config_text, table_entries, table_new, table_of,
    take_includes, toml_document,
};
use crate::config::models::ConfigError;
use crate::text::texts;
use vstd::prelude::*;

verus! {

/// `ms` are the tables met while merging `rs` over `base` one after the
/// other: `ms[0]` is `base` and each `ms[i + 1]` is `rs[i]` merged over
/// `ms[i]` (by `merge_result`).
pub open spec fn merge_chain(
    base: Map<Seq<char>, toml::Value>,
    rs: Seq<Map<Seq<char>, toml::Value>>,
    ms: Seq<Map<Seq<char>, toml::Value>>,
) -> bool {
    &&& ms.len() == rs.len() + 1
    &&& ms[0] == base
    &&& forall|i: int| 0 <= i < rs.len() ==> #[trigger] merge_result(ms[i], rs[i], ms[i + 1])
}

/// `r` is `base` with the tables `rs` merged over it one after the other, in
/// order, a later one overriding an earlier one.
pub open spec fn fold_merge(
    base: Map<Seq<char>, toml::Value>,
    rs: Seq<Map<Seq<char>, toml::Value>>,
    r: Map<Seq<char>, toml::Value>,
) -> bool {
    exists|ms: Seq<Map<Seq<char>, toml::Value>>| #[trigger] merge_chain(base, rs, ms) && ms.last() == r
}

/// Merging nothing over `base` gives `base`.
pub proof fn lemma_fold_merge_empty(base: Map<Seq<char>, toml::Value>)
    ensures
        fold_merge(base, Seq::empty(), base),
{
    assert(merge_chain(base, Seq::empty(), seq![base]));
}

/// Extending a fold by one more table.
pub proof fn lemma_fold_merge_push(
    base: Map<Seq<char>, toml::Value>,
    rs: Seq<Map<Seq<char>, toml::Value>>,
    m: Map<Seq<char>, toml::Value>,
    x: Map<Seq<char>, toml::Value>,
    r: Map<Seq<char>, toml::Value>,
)
    requires
        fold_merge(base, rs, m),
        merge_result(m, x, r),
    ensures
        fold_merge(base, rs.push(x), r),
{
    let ms = choose|ms: Seq<Map<Seq<char>, toml::Value>>| #[trigger] merge_chain(base, rs, ms) && ms.last() == m;
    let ms2 = ms.push(r);
    assert forall|i: int| 0 <= i < rs.push(x).len() implies #[trigger] merge_result(ms2[i], rs.push(x)[i], ms2[i + 1]) by {
        if i < rs.len() {
            assert(merge_result(ms[i], rs[i], ms[i + 1]));
        }
    }
    assert(merge_chain(base, rs.push(x), ms2));
}

/// Along a merge chain, a key that none of the tables merged from `j` on
/// holds keeps its value.
proof fn lemma_chain_keeps(
    base: Map<Seq<char>, toml::Value>,
    rs: Seq<Map<Seq<char>, toml::Value>>,
    ms: Seq<Map<Seq<char>, toml::Value>>,
    k: Seq<char>,
    j: int,
    i: int,
)
    requires
        merge_chain(base, rs, ms),
        0 <= j <= i <= rs.len(),
        ms[j].dom().contains(k),
        forall|t: int| j <= t < rs.len() ==> !(#[trigger] rs[t]).dom().contains(k),
    ensures
        ms[i].dom().contains(k),
        ms[i][k] == ms[j][k],
    decreases i - j,
{
    if i > j {
        lemma_chain_keeps(base, rs, ms, k, j, i - 1);
        let p = i - 1;
        assert(merge_result(ms[p], rs[p], ms[p + 1]));
        assert(!rs[p].dom().contains(k));
    }
}

/// A later table overrides: when the `j`-th table merged holds a plain
/// (non-table) value under `k` and no later table holds `k`, the result has
/// that value under `k`. In particular an included file overrides the file
/// that includes it, and a later include or configuration file overrides an
/// earlier one.
pub proof fn lemma_fold_merge_later_wins(
    base: Map<Seq<char>, toml::Value>,
    rs: Seq<Map<Seq<char>, toml::Value>>,
    r: Map<Seq<char>, toml::Value>,
    j: int,
    k: Seq<char>,
)
    requires
        fold_merge(base, rs, r),
        0 <= j < rs.len(),
        rs[j].dom().contains(k),
        table_of(rs[j][k]) is None,
        forall|t: int| j < t < rs.len() ==> !(#[trigger] rs[t]).dom().contains(k),
    ensures
        r.dom().contains(k),
        r[k] == rs[j][k],
{
    let ms = choose|ms: Seq<Map<Seq<char>, toml::Value>>| #[trigger] merge_chain(base, rs, ms) && ms.last() == r;
    assert(merge_result(ms[j], rs[j], ms[j + 1]));
    assert(ms[j + 1][k] == rs[j][k]);
    lemma_chain_keeps(base, rs, ms, k, j + 1, rs.len() as int);
}

/// A key that no merged table holds keeps the value it has in `base`.
pub proof fn lemma_fold_merge_keeps_base(
    base: Map<Seq<char>, toml::Value>,
    rs: Seq<Map<Seq<char>, toml::Value>>,
    r: Map<Seq<char>, toml::Value>,
    k: Seq<char>,
)
    requires
        fold_merge(base, rs, r),
        base.dom().contains(k),
        forall|t: int| 0 <= t < rs.len() ==> !(#[trigger] rs[t]).dom().contains(k),
    ensures
        r.dom().contains(k),
        r[k] == base[k],
{
    let ms = choose|ms: Seq<Map<Seq<char>, toml::Value>>| #[trigger] merge_chain(base, rs, ms) && ms.last() == r;
    lemma_chain_keeps(base, rs, ms, k, 0, rs.len() as int);
}

/// The entries of each table, in order.
pub open spec fn tables_entries(ts: Seq<toml::Table>) -> Seq<Map<Seq<char>, toml::Value>> {
    ts.map_values(|t: toml::Table| table_entries(t))
}

/// Merges the tables left to right, starting from an empty table: a later
/// table overrides an earlier one.
pub fn merge_configs(tables: Vec<toml::Table>) -> (r: toml::Table)
    ensures
        fold_merge(Map::empty(), tables_entries(tables@), table_entries(r)),
{
    let ghost all = tables_entries(tables@);
    let mut rest = tables;
    let mut acc = table_new();
    let ghost mut merged: Seq<Map<Seq<char>, toml::Value>> = Seq::empty();
    proof {
        lemma_fold_merge_empty(Map::empty());
    }
    assert(merged + tables_entries(rest@) =~= all);
    while rest.len() > 0
        invariant
            merged + tables_entries(rest@) == all,
            fold_merge(Map::empty(), merged, table_entries(acc)),
        decreases rest@.len(),
    {
        let ghost before = rest@;
        let t = rest.remove(0);
        let ghost te = table_entries(t);
        assert(tables_entries(before) =~= seq![te] + tables_entries(rest@));
        let ghost m0 = table_entries(acc);
        acc = merge_maps(acc, t);
        proof {
            lemma_fold_merge_push(Map::empty(), merged, m0, te, table_entries(acc));
            assert(merged.push(te) + tables_entries(rest@) =~= merged + (seq![te] + tables_entries(rest@)));
            merged = merged.push(te);
        }
    }
    assert(merged + tables_entries(rest@) =~= merged);
    acc
}

/// A file being combined, as the walk sees it: its table without
/// `[includes]`, the files it includes, the results of the included files
/// finished so far (in order), and the table with those merged over it.
pub struct FrameView {
    pub base: Map<Seq<char>, toml::Value>,
    pub files: Seq<Seq<char>>,
    pub results: Seq<Map<Seq<char>, toml::Value>>,
    pub acc: Map<Seq<char>, toml::Value>,
}

/// The frame of a file whose parsed table is `t`: nothing of it merged yet.
pub open spec fn new_frame(t: Map<Seq<char>, toml::Value>) -> FrameView {
    FrameView {
        base: t.remove("includes"@),
        files: include_list(t),
        results: Seq::empty(),
        acc: t.remove("includes"@),
    }
}

/// Every file that a frame includes has been combined into it.
pub open spec fn complete(f: FrameView) -> bool {
    f.results.len() >= f.files.len()
}

/// A frame's table is its base with its finished includes merged over it,
/// in list order.
pub open spec fn frame_ok(f: FrameView) -> bool {
    &&& f.results.len() <= f.files.len()
    &&& fold_merge(f.base, f.results, f.acc)
}

/// The stack of files being combined, the outermost first: each frame is
/// consistent, and each frame below the top waits for the file above it.
pub open spec fn walk_ok(v: Seq<FrameView>) -> bool {
    forall|i: int|
        0 <= i < v.len() ==> frame_ok(#[trigger] v[i]) && (i < v.len() - 1 ==> !complete(v[i]))
}

/// The top file still needs one of its includes.
pub open spec fn awaiting(v: Seq<FrameView>) -> bool {
    v.len() > 0 && !complete(v.last())
}

/// The include the top file needs next.
pub open spec fn awaited(v: Seq<FrameView>) -> Seq<char> {
    v.last().files[v.last().results.len() as int]
}

/// The finished top file merged over the file that includes it, as `m`.
pub open spec fn pop_into(v: Seq<FrameView>, m: Map<Seq<char>, toml::Value>) -> Seq<FrameView> {
    let parent = v[v.len() - 2];
    v.drop_last().drop_last().push(
        FrameView { results: parent.results.push(v.last().acc), acc: m, ..parent },
    )
}

/// From `a`, finished files are merged into their includers, innermost
/// first, until the top file still needs an include or only the outermost
/// file is left; that gives `b`.
pub open spec fn settles(a: Seq<FrameView>, b: Seq<FrameView>) -> bool
    decreases a.len(),
{
    if a.len() >= 2 && complete(a.last()) {
        exists|m: Map<Seq<char>, toml::Value>|
            #[trigger] merge_result(a[a.len() - 2].acc, a.last().acc, m) && settles(pop_into(a, m), b)
    } else {
        b == a
    }
}

/// What the walk asks for next.
#[derive(Debug)]
pub enum IncludeAction {
    /// Read the file `name`, listed by the file at depth `depth` (the
    /// outermost file is at depth 1), and hand its text to `feed`.
    ReadFile { name: String, depth: usize },
    /// Everything is combined: the outermost file with all its includes.
    Done(toml::Table),
}

/// Having settled to `b`, the walk asks for `a` and is left as `after`: the
/// next include of the top file, or, when the outermost file is complete,
/// its table (its own entries with the results of all its includes merged
/// over them, in list order), with nothing left.
pub open spec fn next_action(b: Seq<FrameView>, a: IncludeAction, after: Seq<FrameView>) -> bool {
    if awaiting(b) {
        &&& after == b
        &&& a matches IncludeAction::ReadFile { name, depth } && name@ == awaited(b) && depth == b.len()
    } else {
        &&& b.len() == 1
        &&& after == Seq::<FrameView>::empty()
        &&& a matches IncludeAction::Done(t) && table_entries(t) == b[0].acc
        &&& b[0].results.len() == b[0].files.len()
        &&& fold_merge(b[0].base, b[0].results, b[0].acc)
    }
}

/// One file being combined.
struct Frame {
    table: toml::Table,
    files: Vec<String>,
    next: usize,
    base: Ghost<Map<Seq<char>, toml::Value>>,
    results: Ghost<Seq<Map<Seq<char>, toml::Value>>>,
}

impl Frame {
    spec fn view(&self) -> FrameView {
        FrameView {
            base: self.base@,
            files: texts(self.files@),
            results: self.results@,
            acc: table_entries(self.table),
        }
    }
}

/// The walk over `[includes]`: a stack of the files being combined.
pub struct IncludeWalk {
    frames: Vec<Frame>,
}

impl View for IncludeWalk {
    type V = Seq<FrameView>;

    closed spec fn view(&self) -> Seq<FrameView> {
        self.frames@.map_values(|f: Frame| f.view())
    }
}

impl IncludeWalk {
    /// The stack is consistent and each frame's position is the number of
    /// its finished includes.
    pub closed spec fn wf(&self) -> bool {
        &&& forall|i: int|
            0 <= i < self.frames@.len() ==> #[trigger] self.frames@[i].next == self.frames@[i].results@.len()
        &&& walk_ok(self@)
    }

    /// Begins combining the configuration file `name` from its text: the
    /// text is parsed (`parse_config_text`), its `[includes]` taken out
    /// (`take_includes`), and the walk asks for its first include, or is done
    /// when it has none.
    pub fn start(name: &str, text: &str) -> (r: Result<(IncludeWalk, IncludeAction), ConfigError>)
        ensures
            match toml_document(text@) {
                None => r matches Err(ConfigError::ParseError(p, _)) && p@ == name@,
                Some(v) => match table_of(v) {
                    None => r matches Err(ConfigError::InvalidStructure(m)) && m@ == "Expected table"@,
                    Some(t) => r matches Ok((w, a)) && w.wf() && walk_ok(w@) && exists|b: Seq<FrameView>|
                        settles(seq![new_frame(t)], b) && next_action(b, a, w@),
                },
            },
    {
        let value = match parse_config_text(name, text) {
            Ok(v) => v,
            Err(e) => return Err(e),
        };
        let (table, files) = match take_includes(value) {
            Ok(p) => p,
            Err(e) => return Err(e),
        };
        let mut walk = IncludeWalk { frames: Vec::new() };
        walk.push_frame(table, files);
        proof {
            assert(walk@ =~= seq![new_frame(table_of(value)->0)]);
        }
        let a = walk.settle();
        let r: Result<(IncludeWalk, IncludeAction), ConfigError> = Ok((walk, a));
        assert(r matches Ok((w, a2)) && w == walk && a2 == a);
        r
    }

    /// Hands the walk the text of the file it asked for: the text is parsed
    /// (`parse_config_text`, errors naming that file), its `[includes]` taken
    /// out, and its own includes are walked before the walk goes on with the
    /// includer. When no file is awaited (the walk is done) the text is
    /// refused with `ConfigError::IncludeError`.
    pub fn feed(&mut self, text: &str) -> (r: Result<IncludeAction, ConfigError>)
        requires
            old(self).wf(),
        ensures
            final(self).wf(),
            walk_ok(final(self)@),
            !awaiting(old(self)@) ==> (r matches Err(ConfigError::IncludeError(_)) && final(self)@ == old(self)@),
            awaiting(old(self)@) ==> match toml_document(text@) {
                None => r matches Err(ConfigError::ParseError(p, _)) && p@ == awaited(old(self)@)
                    && final(self)@ == old(self)@,
                Some(v) => match table_of(v) {
                    None => r matches Err(ConfigError::InvalidStructure(m)) && m@ == "Expected table"@
                        && final(self)@ == old(self)@,
                    Some(t) => r matches Ok(a) && exists|b: Seq<FrameView>|
                        settles(old(self)@.push(new_frame(t)), b) && next_action(b, a, final(self)@),
                },
            },
    {
        let n = self.frames.len();
        if n == 0 || self.frames[n - 1].next >= self.frames[n - 1].files.len() {
            proof {
                if n > 0 {
                    assert(self@[n - 1] == self.frames@[n - 1].view());
                }
            }
            return Err(ConfigError::IncludeError("no include file is awaited".to_owned()));
        }
        let k = self.frames[n - 1].next;
        let name = self.frames[n - 1].files[k].clone();
        proof {
            assert(self@[n - 1] == self.frames@[n - 1].view());
            assert(texts(self.frames@[n - 1].files@)[k as int] == name@);
        }
        let value = match parse_config_text(name.as_str(), text) {
            Ok(v) => v,
            Err(e) => return Err(e),
        };
        let (table, files) = match take_includes(value) {
            Ok(p) => p,
            Err(e) => return Err(e),
        };
        let ghost before = self@;
        self.push_frame(table, files);
        proof {
            assert(self@ =~= before.push(new_frame(table_of(value)->0)));
        }
        Ok(self.settle())
    }

    /// Puts a newly read file on top: nothing of it merged yet.
    fn push_frame(&mut self, table: toml::Table, files: Vec<String>)
        requires
            old(self).wf(),
            !awaiting(old(self)@) ==> old(self)@.len() == 0,
        ensures
            final(self).wf(),
            final(self)@ == old(self)@.push(FrameView {
                base: table_entries(table),
                files: texts(files@),
                results: Seq::empty(),
                acc: table_entries(table),
            }),
    {
        let ghost before = self@;
        let ghost fr = self.frames@;
        proof {
            lemma_fold_merge_empty(table_entries(table));
        }
        let f = Frame { table, files, next: 0, base: Ghost(table_entries(table)), results: Ghost(Seq::empty()) };
        self.frames.push(f);
        proof {
            assert(self.frames@ =~= fr.push(f));
            assert(self@ =~= before.push(f.view()));
            assert forall|i: int| 0 <= i < self.frames@.len() implies #[trigger] self.frames@[i].next
                == self.frames@[i].results@.len() by {
                if i < fr.len() {
                    assert(self.frames@[i] == fr[i]);
                }
            }
            assert forall|i: int| 0 <= i < self@.len() implies frame_ok(#[trigger] self@[i]) && (i < self@.len() - 1
                ==> !complete(self@[i])) by {
                if i < before.len() {
                    assert(self@[i] == before[i]);
                }
            }
        }
    }

    /// Merges finished files into their includers, then says what is needed
    /// next.
    fn settle(&mut self) -> (a: IncludeAction)
        requires
            old(self).wf(),
            old(self)@.len() > 0,
        ensures
            final(self).wf(),
            exists|b: Seq<FrameView>| settles(old(self)@, b) && next_action(b, a, final(self)@),
    {
        let ghost a0 = self@;
        loop
            invariant
                a0 == old(self)@,
                self.wf(),
                self@.len() > 0,
                forall|b: Seq<FrameView>| #[trigger] settles(self@, b) ==> settles(a0, b),
            decreases self@.len(),
        {
            let n = self.frames.len();
            assert(self@[n - 1] == self.frames@[n - 1].view());
            if self.frames[n - 1].next < self.frames[n - 1].files.len() {
                let k = self.frames[n - 1].next;
                let name = self.frames[n - 1].files[k].clone();
                proof {
                    assert(settles(self@, self@));
                    assert(settles(a0, self@));
                    assert(texts(self.frames@[n - 1].files@)[k as int] == name@);
                }
                let a = IncludeAction::ReadFile { name, depth: n };
                assert(next_action(self@, a, self@));
                assert(exists|b: Seq<FrameView>| settles(a0, b) && next_action(b, a, self@));
                return a;
            }
            if n == 1 {
                let ghost v = self@;
                let ghost fr = self.frames@;
                proof {
                    assert(settles(v, v));
                    assert(settles(a0, v));
                }
                let f = self.frames.pop().unwrap();
                assert(f == fr[0]);
                assert(self@ =~= Seq::<FrameView>::empty());
                let a = IncludeAction::Done(f.table);
                assert(next_action(v, a, self@));
                assert(exists|b: Seq<FrameView>| settles(a0, b) && next_action(b, a, self@));
                return a;
            }
            let ghost cur = self@;
            let ghost fr = self.frames@;
            let top = self.frames.pop().unwrap();
            let mut parent = self.frames.pop().unwrap();
            let ghost below = self@;
            assert(below =~= cur.drop_last().drop_last());
            assert(top.view() == cur.last());
            assert(parent.view() == cur[n - 2]);
            let ghost top_acc = table_entries(top.table);
            let ghost parent_acc = table_entries(parent.table);
            assert(frame_ok(cur[n - 2]) && !complete(cur[n - 2]));
            let merged = merge_maps(parent.table, top.table);
            let ghost m = table_entries(merged);
            proof {
                lemma_fold_merge_push(parent.base@, parent.results@, parent_acc, top_acc, m);
            }
            parent.table = merged;
            assert(texts(parent.files@).len() == parent.files@.len());
            let files_len = parent.files.len();
            assert(parent.next < files_len);
            parent.next = parent.next + 1;
            parent.results = Ghost(parent.results@.push(top_acc));
            self.frames.push(parent);
            proof {
                assert(self.frames@ =~= fr.drop_last().drop_last().push(parent));
                assert(self@ =~= pop_into(cur, m));
                assert forall|i: int| 0 <= i < self.frames@.len() implies #[trigger] self.frames@[i].next
                    == self.frames@[i].results@.len() by {
                    if i < n - 2 {
                        assert(self.frames@[i] == fr[i]);
                    }
                }
                assert forall|i: int| 0 <= i < self@.len() implies frame_ok(#[trigger] self@[i]) && (i < self@.len() - 1
                    ==> !complete(self@[i])) by {
                    if i < n - 2 {
                        assert(self@[i] == cur[i]);
                    }
                }
                assert forall|b: Seq<FrameView>| #[trigger] settles(self@, b) implies settles(a0, b) by {
                    assert(merge_result(cur[n - 2].acc, cur.last().acc, m) && settles(pop_into(cur, m), b));
                    assert(settles(cur, b));
                }
            }
        }
    }
}

} // verus!
