//! The lifecycle store: scan records and stored markers with first-seen, last-seen and
//! resolved-at scan ids. Updates follow a two-phase protocol per scan: upsert the items
//! found, then resolve the ones that were not seen.
use vstd::prelude::*;

use crate::priority::Priority;
use crate::todo::{TodoItem, TodoTag};

verus! {

/// One scan.
#[derive(Debug, Clone)]
pub struct ScanRecord {
    /// Scan id: 1 for the first scan, then increasing by one.
    pub id: i64,
    /// Start time, in seconds since 1970-01-01 00:00 UTC.
    pub started_at: i64,
    /// Completion time, once finished.
    pub finished_at: Option<i64>,
    /// Revision the scan was taken at, if known.
    pub commit_hash: Option<String>,
    /// Number of files scanned, once finished.
    pub total_files: Option<u32>,
    /// Number of markers found, once finished.
    pub total_todos: Option<u32>,
}

/// A persisted marker with its lifecycle.
#[derive(Debug, Clone)]
pub struct StoredMarker {
    pub id: String,
    pub tag: TodoTag,
    pub file: String,
    pub line: u32,
    pub column: u32,
    pub message: String,
    pub author: Option<String>,
    pub priority: Option<Priority>,
    pub tickets: Vec<String>,
    /// Scan that first found the marker.
    pub first_seen: i64,
    /// Latest scan that found the marker.
    pub last_seen: i64,
    /// Scan at which the marker was found missing; `None` while active.
    pub resolved_at: Option<i64>,
}

pub struct ScanView {
    pub id: i64,
    pub started_at: i64,
    pub finished_at: Option<i64>,
    pub commit_hash: Option<Seq<char>>,
    pub total_files: Option<u32>,
    pub total_todos: Option<u32>,
}

pub struct MarkerRow {
    pub id: Seq<char>,
    pub tag: TodoTag,
    pub file: Seq<char>,
    pub line: u32,
    pub column: u32,
    pub message: Seq<char>,
    pub author: Option<Seq<char>>,
    pub priority: Option<Priority>,
    pub tickets: Seq<Seq<char>>,
    pub first_seen: i64,
    pub last_seen: i64,
    pub resolved_at: Option<i64>,
}

pub struct DbView {
    pub scans: Seq<ScanView>,
    pub rows: Seq<MarkerRow>,
}

/// The record of a scan just started.
pub open spec fn opened_scan(id: i64, started_at: i64, commit_hash: Option<&str>) -> ScanView {
    ScanView {
        id,
        started_at,
        finished_at: None,
        commit_hash: match commit_hash {
            Some(h) => Some(h@),
            None => None,
        },
        total_files: None,
        total_todos: None,
    }
}

/// The record of a scan once closed.
pub open spec fn closed_scan(s: ScanView, finished_at: i64, total_files: u32, total_todos: u32) -> ScanView {
    ScanView {
        finished_at: Some(finished_at),
        total_files: Some(total_files),
        total_todos: Some(total_todos),
        ..s
    }
}

pub open spec fn opt_text(o: Option<String>) -> Option<Seq<char>> {
    match o {
        Some(s) => Some(s@),
        None => None,
    }
}

pub open spec fn scan_view(s: ScanRecord) -> ScanView {
    ScanView {
        id: s.id,
        started_at: s.started_at,
        finished_at: s.finished_at,
        commit_hash: opt_text(s.commit_hash),
        total_files: s.total_files,
        total_todos: s.total_todos,
    }
}

pub open spec fn row_view(m: StoredMarker) -> MarkerRow {
    MarkerRow {
        id: m.id@,
        tag: m.tag,
        file: m.file@,
        line: m.line,
        column: m.column,
        message: m.message@,
        author: opt_text(m.author),
        priority: m.priority,
        tickets: m.tickets@.map_values(|t: String| t@),
        first_seen: m.first_seen,
        last_seen: m.last_seen,
        resolved_at: m.resolved_at,
    }
}

pub open spec fn parts_view(scans: Seq<ScanRecord>, markers: Seq<StoredMarker>) -> DbView {
    DbView {
        scans: scans.map_values(|s: ScanRecord| scan_view(s)),
        rows: markers.map_values(|m: StoredMarker| row_view(m)),
    }
}

/// The lifecycle store.
pub struct Database {
    scans: Vec<ScanRecord>,
    markers: Vec<StoredMarker>,
}

impl View for Database {
    type V = DbView;

    closed spec fn view(&self) -> DbView {
        DbView {
            scans: self.scans@.map_values(|s: ScanRecord| scan_view(s)),
            rows: self.markers@.map_values(|m: StoredMarker| row_view(m)),
        }
    }
}

/// Scan ids run 1, 2, ...; marker ids are distinct.
pub open spec fn db_wf(v: DbView) -> bool {
    &&& forall|i: int| 0 <= i < v.scans.len() ==> (#[trigger] v.scans[i]).id == i + 1
    &&& forall|i: int, j: int|
        0 <= i < j < v.rows.len() ==> (#[trigger] v.rows[i]).id != (#[trigger] v.rows[j]).id
}

/// Index of the row with the given id, searching from `k`.
pub open spec fn find_row_from(rows: Seq<MarkerRow>, id: Seq<char>, k: int) -> Option<int>
    decreases rows.len() - k,
{
    if k < 0 || k >= rows.len() {
        None
    } else if rows[k].id == id {
        Some(k)
    } else {
        find_row_from(rows, id, k + 1)
    }
}

/// Index of the row with the given id.
pub open spec fn find_row(rows: Seq<MarkerRow>, id: Seq<char>) -> Option<int> {
    find_row_from(rows, id, 0)
}

/// The row that a newly found item gets.
pub open spec fn new_row(item: TodoItem, scan: i64) -> MarkerRow {
    MarkerRow {
        id: item.id@,
        tag: item.tag,
        file: item.file@,
        line: item.line,
        column: item.column,
        message: item.message@,
        author: opt_text(item.metadata.author),
        priority: item.metadata.priority,
        tickets: item.metadata.tickets@.map_values(|t: String| t@),
        first_seen: scan,
        last_seen: scan,
        resolved_at: None,
    }
}

/// Upsert of one item: an existing row takes the new line and column, is seen at
/// `scan` and becomes active; otherwise a new row is added.
pub open spec fn upsert_one(rows: Seq<MarkerRow>, item: TodoItem, scan: i64) -> Seq<MarkerRow> {
    match find_row(rows, item.id@) {
        Some(i) => rows.update(
            i,
            MarkerRow {
                line: item.line,
                column: item.column,
                last_seen: scan,
                resolved_at: None,
                ..rows[i]
            },
        ),
        None => rows.push(new_row(item, scan)),
    }
}

/// Upsert of items in order.
pub open spec fn upsert_all(rows: Seq<MarkerRow>, items: Seq<TodoItem>, scan: i64) -> Seq<MarkerRow>
    decreases items.len(),
{
    if items.len() == 0 {
        rows
    } else {
        upsert_one(upsert_all(rows, items.drop_last(), scan), items.last(), scan)
    }
}

/// A row last seen before `scan` and still active is resolved at `scan`.
pub open spec fn resolves(r: MarkerRow, scan: i64) -> bool {
    r.last_seen < scan && r.resolved_at is None
}

pub open spec fn resolve_row(r: MarkerRow, scan: i64) -> MarkerRow {
    if resolves(r, scan) {
        MarkerRow { resolved_at: Some(scan), ..r }
    } else {
        r
    }
}

pub open spec fn resolve_all(rows: Seq<MarkerRow>, scan: i64) -> Seq<MarkerRow> {
    rows.map_values(|r: MarkerRow| resolve_row(r, scan))
}

/// Number of rows that `resolve_all` changes.
pub open spec fn resolvable_count(rows: Seq<MarkerRow>, scan: i64) -> nat
    decreases rows.len(),
{
    if rows.len() == 0 {
        0
    } else {
        resolvable_count(rows.drop_last(), scan) + if resolves(rows.last(), scan) {
            1nat
        } else {
            0nat
        }
    }
}

/// Number of active rows.
pub open spec fn active_rows(rows: Seq<MarkerRow>) -> nat
    decreases rows.len(),
{
    if rows.len() == 0 {
        0
    } else {
        active_rows(rows.drop_last()) + if rows.last().resolved_at is None {
            1nat
        } else {
            0nat
        }
    }
}

fn clone_text(s: &String) -> (r: String)
    ensures
        r@ == s@,
{
    s.clone()
}

fn clone_opt_text(o: &Option<String>) -> (r: Option<String>)
    ensures
        opt_text(r) == opt_text(*o),
{
    match o {
        Some(s) => Some(s.clone()),
        None => None,
    }
}

fn clone_texts(v: &Vec<String>) -> (r: Vec<String>)
    ensures
        r@.map_values(|t: String| t@) == v@.map_values(|t: String| t@),
{
    let mut out: Vec<String> = Vec::new();
    let mut i: usize = 0;
    while i < v.len()
        invariant
            0 <= i <= v@.len(),
            out@.len() == i,
            forall|j: int| 0 <= j < i ==> #[trigger] out@[j]@ == v@[j]@,
        decreases v@.len() - i,
    {
        out.push(v[i].clone());
        i = i + 1;
    }
    assert(out@.map_values(|t: String| t@) =~= v@.map_values(|t: String| t@));
    out
}

impl Database {
    /// An empty store.
    pub fn open_in_memory() -> (r: Database)
        ensures
            r@.scans.len() == 0,
            r@.rows.len() == 0,
            db_wf(r@),
    {
        let r = Database { scans: Vec::new(), markers: Vec::new() };
        assert(r@.scans =~= Seq::<ScanView>::empty());
        assert(r@.rows =~= Seq::<MarkerRow>::empty());
        r
    }

    /// The scan records, oldest first.
    pub fn scans(&self) -> (r: &Vec<ScanRecord>)
        ensures
            r@.map_values(|s: ScanRecord| scan_view(s)) == self@.scans,
    {
        &self.scans
    }

    /// The stored markers.
    pub fn markers(&self) -> (r: &Vec<StoredMarker>)
        ensures
            r@.map_values(|m: StoredMarker| row_view(m)) == self@.rows,
    {
        &self.markers
    }

    /// Rebuilds a store from saved records; `None` when scan ids do not run 1, 2, ...
    /// or two markers share an id.
    pub fn from_parts(scans: Vec<ScanRecord>, markers: Vec<StoredMarker>) -> (r: Option<Database>)
        ensures
            r is Some <==> db_wf(parts_view(scans@, markers@)),
            r is Some ==> r->0@ == parts_view(scans@, markers@),
    {
        let ghost pv = parts_view(scans@, markers@);
        let mut i: usize = 0;
        while i < scans.len()
            invariant
                pv == parts_view(scans@, markers@),
                0 <= i <= scans@.len(),
                forall|k: int| 0 <= k < i ==> (#[trigger] pv.scans[k]).id == k + 1,
            decreases scans@.len() - i,
        {
            assert(pv.scans[i as int] == scan_view(scans@[i as int]));
            if scans[i].id < 1 || (scans[i].id - 1) as u64 != i as u64 {
                assert(pv.scans[i as int].id != i + 1);
                return None;
            }
            i = i + 1;
        }
        let mut a: usize = 0;
        while a < markers.len()
            invariant
                pv == parts_view(scans@, markers@),
                0 <= a <= markers@.len(),
                forall|k: int| 0 <= k < pv.scans.len() ==> (#[trigger] pv.scans[k]).id == k + 1,
                forall|x: int, y: int|
                    0 <= x < a && x < y < pv.rows.len() ==> (#[trigger] pv.rows[x]).id
                        != (#[trigger] pv.rows[y]).id,
            decreases markers@.len() - a,
        {
            let mut b: usize = a + 1;
            while b < markers.len()
                invariant
                    pv == parts_view(scans@, markers@),
                    a < b <= markers@.len(),
                    forall|y: int| a < y < b ==> pv.rows[a as int].id != (#[trigger] pv.rows[y]).id,
                decreases markers@.len() - b,
            {
                assert(pv.rows[a as int] == row_view(markers@[a as int]));
                assert(pv.rows[b as int] == row_view(markers@[b as int]));
                if markers[a].id == markers[b].id {
                    assert(pv.rows[a as int].id == pv.rows[b as int].id);
                    return None;
                }
                b = b + 1;
            }
            a = a + 1;
        }
        let db = Database { scans, markers };
        assert(db@.scans =~= pv.scans);
        assert(db@.rows =~= pv.rows);
        Some(db)
    }

    /// Number of scans recorded.
    pub fn scan_count(&self) -> (r: usize)
        ensures
            r == self@.scans.len(),
    {
        self.scans.len()
    }

    /// Records the start of a new scan at the given time; returns its id, one more
    /// than the previous scan's.
    pub fn start_scan(&mut self, commit_hash: Option<&str>, started_at: i64) -> (r: i64)
        requires
            db_wf(old(self)@),
            old(self)@.scans.len() < 0x7fff_ffff_ffff_ffff,
        ensures
            db_wf(final(self)@),
            r == old(self)@.scans.len() + 1,
            final(self)@.scans == old(self)@.scans.push(opened_scan(r, started_at, commit_hash)),
            final(self)@.rows == old(self)@.rows,
    {
        let id = self.scans.len() as i64 + 1;
        let hash = match commit_hash {
            Some(h) => Some(h.to_owned()),
            None => None,
        };
        let rec = ScanRecord {
            id,
            started_at,
            finished_at: None,
            commit_hash: hash,
            total_files: None,
            total_todos: None,
        };
        self.scans.push(rec);
        assert(self@.scans =~= old(self)@.scans.push(scan_view(rec)));
        id
    }

    /// Closes scan `scan_id` at the given time with its totals; other scans, and every
    /// scan when no scan has that id, are unchanged.
    pub fn finish_scan(&mut self, scan_id: i64, total_files: u32, total_todos: u32, finished_at: i64)
        requires
            db_wf(old(self)@),
        ensures
            db_wf(final(self)@),
            final(self)@.rows == old(self)@.rows,
            final(self)@.scans == if 1 <= scan_id <= old(self)@.scans.len() {
                old(self)@.scans.update(
                    scan_id - 1,
                    closed_scan(old(self)@.scans[scan_id - 1], finished_at, total_files, total_todos),
                )
            } else {
                old(self)@.scans
            },
    {
        if 1 <= scan_id && (scan_id as u64) <= self.scans.len() as u64 {
            let k = (scan_id - 1) as usize;
            self.scans[k].finished_at = Some(finished_at);
            self.scans[k].total_files = Some(total_files);
            self.scans[k].total_todos = Some(total_todos);
            assert(self@.scans =~= old(self)@.scans.update(
                scan_id - 1,
                closed_scan(old(self)@.scans[scan_id - 1], finished_at, total_files, total_todos),
            ));
        }
    }

    fn find_marker(&self, id: &String) -> (r: Option<usize>)
        ensures
            r is None <==> find_row(self@.rows, id@) is None,
            r is Some ==> find_row(self@.rows, id@) == Some(r->0 as int) && r->0 < self@.rows.len(),
    {
        let mut i: usize = 0;
        while i < self.markers.len()
            invariant
                0 <= i <= self.markers@.len(),
                find_row(self@.rows, id@) == find_row_from(self@.rows, id@, i as int),
            decreases self.markers@.len() - i,
        {
            if self.markers[i].id == *id {
                return Some(i);
            }
            i = i + 1;
        }
        None
    }

    /// Upserts the items found by scan `scan_id` (see `upsert_one`), in order.
    pub fn upsert_todos(&mut self, items: &Vec<TodoItem>, scan_id: i64)
        requires
            db_wf(old(self)@),
        ensures
            db_wf(final(self)@),
            final(self)@.scans == old(self)@.scans,
            final(self)@.rows == upsert_all(old(self)@.rows, items@, scan_id),
    {
        let mut k: usize = 0;
        while k < items.len()
            invariant
                0 <= k <= items@.len(),
                db_wf(self@),
                self@.scans == old(self)@.scans,
                self@.rows == upsert_all(old(self)@.rows, items@.subrange(0, k as int), scan_id),
            decreases items@.len() - k,
        {
            let item = &items[k];
            let ghost rows0 = self@.rows;
            proof {
                assert(items@.subrange(0, k + 1).drop_last() =~= items@.subrange(0, k as int));
            }
            match self.find_marker(&item.id) {
                Some(i) => {
                    self.markers[i].line = item.line;
                    self.markers[i].column = item.column;
                    self.markers[i].last_seen = scan_id;
                    self.markers[i].resolved_at = None;
                    assert(self@.rows =~= upsert_one(rows0, *item, scan_id));
                },
                None => {
                    proof {
                        lemma_find_row_none(rows0, item.id@, 0);
                    }
                    let row = StoredMarker {
                        id: clone_text(&item.id),
                        tag: item.tag,
                        file: clone_text(&item.file),
                        line: item.line,
                        column: item.column,
                        message: clone_text(&item.message),
                        author: clone_opt_text(&item.metadata.author),
                        priority: item.metadata.priority,
                        tickets: clone_texts(&item.metadata.tickets),
                        first_seen: scan_id,
                        last_seen: scan_id,
                        resolved_at: None,
                    };
                    self.markers.push(row);
                    assert(self@.rows =~= upsert_one(rows0, *item, scan_id));
                },
            }
            k = k + 1;
        }
        assert(items@.subrange(0, k as int) =~= items@);
    }

    /// Resolves, at `scan_id`, every active row last seen before it; returns how many
    /// rows changed. Called after the scan's upsert.
    pub fn mark_resolved(&mut self, scan_id: i64) -> (r: u64)
        requires
            db_wf(old(self)@),
        ensures
            db_wf(final(self)@),
            final(self)@.scans == old(self)@.scans,
            final(self)@.rows == resolve_all(old(self)@.rows, scan_id),
            r == resolvable_count(old(self)@.rows, scan_id),
    {
        let ghost rows0 = self@.rows;
        let mut count: u64 = 0;
        let mut i: usize = 0;
        while i < self.markers.len()
            invariant
                0 <= i <= self.markers@.len(),
                self@.rows.len() == rows0.len(),
                self@.scans == old(self)@.scans,
                rows0 == old(self)@.rows,
                db_wf(old(self)@),
                forall|j: int| 0 <= j < i ==> #[trigger] self@.rows[j] == resolve_row(rows0[j], scan_id),
                forall|j: int| i <= j < rows0.len() ==> #[trigger] self@.rows[j] == rows0[j],
                count == resolvable_count(rows0.subrange(0, i as int), scan_id),
                count <= i,
            decreases self.markers@.len() - i,
        {
            proof {
                assert(rows0.subrange(0, i + 1).drop_last() =~= rows0.subrange(0, i as int));
            }
            let ghost before = self@.rows;
            assert(before[i as int] == row_view(self.markers@[i as int]));
            if self.markers[i].last_seen < scan_id && self.markers[i].resolved_at.is_none() {
                self.markers[i].resolved_at = Some(scan_id);
                count = count + 1;
                assert(self@.rows =~= before.update(i as int, resolve_row(rows0[i as int], scan_id)));
            }
            i = i + 1;
        }
        assert(self@.rows =~= resolve_all(rows0, scan_id));
        assert(rows0.subrange(0, i as int) =~= rows0);
        count
    }

    /// Number of active (unresolved) markers.
    pub fn active_count(&self) -> (r: u64)
        ensures
            r == active_rows(self@.rows),
    {
        let mut count: u64 = 0;
        let mut i: usize = 0;
        while i < self.markers.len()
            invariant
                0 <= i <= self.markers@.len(),
                count == active_rows(self@.rows.subrange(0, i as int)),
                count <= i,
            decreases self.markers@.len() - i,
        {
            proof {
                assert(self@.rows.subrange(0, i + 1).drop_last() =~= self@.rows.subrange(0, i as int));
            }
            assert(self@.rows[i as int] == row_view(self.markers@[i as int]));
            if self.markers[i].resolved_at.is_none() {
                count = count + 1;
            }
            i = i + 1;
        }
        assert(self@.rows.subrange(0, i as int) =~= self@.rows);
        count
    }
}

pub proof fn lemma_find_row_none(rows: Seq<MarkerRow>, id: Seq<char>, k: int)
    requires
        0 <= k <= rows.len(),
        find_row_from(rows, id, k) is None,
    ensures
        forall|j: int| k <= j < rows.len() ==> (#[trigger] rows[j]).id != id,
    decreases rows.len() - k,
{
    if k < rows.len() {
        lemma_find_row_none(rows, id, k + 1);
    }
}

/// Some item has the given id.
pub open spec fn has_id(items: Seq<TodoItem>, x: Seq<char>) -> bool {
    exists|i: int| 0 <= i < items.len() && (#[trigger] items[i]).id@ == x
}

proof fn lemma_find_row_some(rows: Seq<MarkerRow>, id: Seq<char>, k: int)
    requires
        0 <= k,
        find_row_from(rows, id, k) is Some,
    ensures
        k <= find_row_from(rows, id, k)->0 < rows.len(),
        rows[find_row_from(rows, id, k)->0].id == id,
    decreases rows.len() - k,
{
    if k < rows.len() && rows[k].id != id {
        lemma_find_row_some(rows, id, k + 1);
    }
}

proof fn lemma_find_row_same_ids(r1: Seq<MarkerRow>, r2: Seq<MarkerRow>, id: Seq<char>, k: int)
    requires
        r1.len() == r2.len(),
        forall|j: int| 0 <= j < r1.len() ==> (#[trigger] r1[j]).id == r2[j].id,
    ensures
        find_row_from(r1, id, k) == find_row_from(r2, id, k),
    decreases r1.len() - k,
{
    if 0 <= k < r1.len() {
        lemma_find_row_same_ids(r1, r2, id, k + 1);
    }
}

proof fn lemma_find_row_push(rows: Seq<MarkerRow>, r: MarkerRow, id: Seq<char>, k: int)
    requires
        0 <= k <= rows.len(),
    ensures
        find_row_from(rows, id, k) is Some ==> find_row_from(rows.push(r), id, k) == find_row_from(rows, id, k),
        find_row_from(rows, id, k) is None && r.id != id ==> find_row_from(rows.push(r), id, k) is None,
        find_row_from(rows, id, k) is None && r.id == id ==> find_row_from(rows.push(r), id, k) == Some(rows.len() as int),
    decreases rows.len() - k,
{
    if k < rows.len() {
        assert(rows.push(r)[k] == rows[k]);
        lemma_find_row_push(rows, r, id, k + 1);
    } else {
        assert(rows.push(r)[k] == r);
        assert(find_row_from(rows.push(r), id, k + 1) is None);
    }
}

/// Upserting an item with another id leaves the row of `x` where and as it was.
proof fn lemma_upsert_one_other(rows: Seq<MarkerRow>, item: TodoItem, scan: i64, x: Seq<char>)
    requires
        item.id@ != x,
    ensures
        find_row(upsert_one(rows, item, scan), x) == find_row(rows, x),
        find_row(rows, x) is Some ==> upsert_one(rows, item, scan)[find_row(rows, x)->0]
            == rows[find_row(rows, x)->0],
{
    let u = upsert_one(rows, item, scan);
    match find_row(rows, item.id@) {
        Some(j) => {
            lemma_find_row_some(rows, item.id@, 0);
            assert forall|k: int| 0 <= k < rows.len() implies (#[trigger] rows[k]).id == u[k].id by {}
            lemma_find_row_same_ids(rows, u, x, 0);
            if find_row(rows, x) is Some {
                lemma_find_row_some(rows, x, 0);
            }
        },
        None => {
            lemma_find_row_push(rows, new_row(item, scan), x, 0);
            if find_row(rows, x) is Some {
                lemma_find_row_some(rows, x, 0);
            }
        },
    }
}

/// Upserting items none of which has id `x` leaves the row of `x` where and as it was.
proof fn lemma_upsert_others(rows: Seq<MarkerRow>, items: Seq<TodoItem>, scan: i64, x: Seq<char>)
    requires
        !has_id(items, x),
    ensures
        find_row(upsert_all(rows, items, scan), x) == find_row(rows, x),
        find_row(rows, x) is Some ==> upsert_all(rows, items, scan)[find_row(rows, x)->0]
            == rows[find_row(rows, x)->0],
    decreases items.len(),
{
    if items.len() > 0 {
        let prev = items.drop_last();
        assert(!has_id(prev, x)) by {
            if has_id(prev, x) {
                let i = choose|i: int| 0 <= i < prev.len() && (#[trigger] prev[i]).id@ == x;
                assert(items[i] == prev[i]);
            }
        }
        assert(items.last() == items[items.len() - 1]);
        lemma_upsert_others(rows, prev, scan, x);
        lemma_upsert_one_other(upsert_all(rows, prev, scan), items.last(), scan, x);
    }
}

/// After upserting items of which one has id `x`, the row of `x` is active and last
/// seen at that scan.
proof fn lemma_upsert_present(rows: Seq<MarkerRow>, items: Seq<TodoItem>, scan: i64, x: Seq<char>)
    requires
        has_id(items, x),
    ensures
        find_row(upsert_all(rows, items, scan), x) is Some,
        upsert_all(rows, items, scan)[find_row(upsert_all(rows, items, scan), x)->0].last_seen == scan,
        upsert_all(rows, items, scan)[find_row(upsert_all(rows, items, scan), x)->0].resolved_at is None,
    decreases items.len(),
{
    let prev = items.drop_last();
    let before = upsert_all(rows, prev, scan);
    let last = items.last();
    if last.id@ == x {
        match find_row(before, x) {
            Some(j) => {
                lemma_find_row_some(before, x, 0);
                let u = upsert_one(before, last, scan);
                assert forall|k: int| 0 <= k < before.len() implies (#[trigger] before[k]).id == u[k].id by {}
                lemma_find_row_same_ids(before, u, x, 0);
            },
            None => {
                lemma_find_row_push(before, new_row(last, scan), x, 0);
            },
        }
    } else {
        assert(has_id(prev, x)) by {
            let i = choose|i: int| 0 <= i < items.len() && (#[trigger] items[i]).id@ == x;
            assert(i < items.len() - 1);
            assert(prev[i] == items[i]);
        }
        lemma_upsert_present(rows, prev, scan, x);
        lemma_upsert_one_other(before, last, scan, x);
    }
}

/// Upserting keeps the place and the first-seen scan of a row that already exists.
proof fn lemma_upsert_keeps_first_seen(rows: Seq<MarkerRow>, items: Seq<TodoItem>, scan: i64, x: Seq<char>)
    requires
        find_row(rows, x) is Some,
    ensures
        find_row(upsert_all(rows, items, scan), x) == find_row(rows, x),
        upsert_all(rows, items, scan)[find_row(rows, x)->0].first_seen == rows[find_row(rows, x)->0].first_seen,
    decreases items.len(),
{
    if items.len() > 0 {
        let prev = items.drop_last();
        let before = upsert_all(rows, prev, scan);
        let last = items.last();
        lemma_upsert_keeps_first_seen(rows, prev, scan, x);
        lemma_find_row_some(before, x, 0);
        if last.id@ == x {
            let u = upsert_one(before, last, scan);
            assert forall|k: int| 0 <= k < before.len() implies (#[trigger] before[k]).id == u[k].id by {}
            lemma_find_row_same_ids(before, u, x, 0);
        } else {
            lemma_upsert_one_other(before, last, scan, x);
        }
    }
}

proof fn lemma_resolve_keeps_place(rows: Seq<MarkerRow>, scan: i64, x: Seq<char>)
    ensures
        find_row(resolve_all(rows, scan), x) == find_row(rows, x),
{
    let r = resolve_all(rows, scan);
    assert forall|k: int| 0 <= k < rows.len() implies (#[trigger] rows[k]).id == r[k].id by {}
    lemma_find_row_same_ids(rows, r, x, 0);
}

/// Lifecycle: a marker found by scan `n` and missing from scan `n + 1` is resolved at
/// `n + 1` by that scan's resolve step; when scan `n + 2` finds it again, it is active
/// again and last seen at `n + 2`.
pub proof fn lemma_lifecycle(
    rows: Seq<MarkerRow>,
    n: i64,
    seen: Seq<TodoItem>,
    missing: Seq<TodoItem>,
    back: Seq<TodoItem>,
    x: Seq<char>,
)
    requires
        n + 2 <= i64::MAX,
        has_id(seen, x),
        !has_id(missing, x),
        has_id(back, x),
    ensures
        ({
            let after_n = resolve_all(upsert_all(rows, seen, n), n);
            let after_n1 = resolve_all(upsert_all(after_n, missing, (n + 1) as i64), (n + 1) as i64);
            let after_n2 = upsert_all(after_n1, back, (n + 2) as i64);
            &&& find_row(after_n1, x) is Some
            &&& after_n1[find_row(after_n1, x)->0].resolved_at == Some((n + 1) as i64)
            &&& after_n1[find_row(after_n1, x)->0].last_seen == n
            &&& find_row(after_n2, x) is Some
            &&& after_n2[find_row(after_n2, x)->0].resolved_at is None
            &&& after_n2[find_row(after_n2, x)->0].last_seen == n + 2
            &&& find_row(after_n2, x) == find_row(after_n1, x)
            &&& after_n2[find_row(after_n2, x)->0].first_seen == after_n1[find_row(after_n1, x)->0].first_seen
        }),
{
    let u0 = upsert_all(rows, seen, n);
    lemma_upsert_present(rows, seen, n, x);
    lemma_find_row_some(u0, x, 0);
    let after_n = resolve_all(u0, n);
    lemma_resolve_keeps_place(u0, n, x);
    let u1 = upsert_all(after_n, missing, (n + 1) as i64);
    lemma_upsert_others(after_n, missing, (n + 1) as i64, x);
    let i = find_row(u0, x)->0;
    assert(after_n[i] == u0[i]);
    assert(find_row(u1, x) == Some(i));
    assert(u1[i] == u0[i]);
    lemma_find_row_some(u1, x, 0);
    assert(resolve_row(u1[i], (n + 1) as i64).resolved_at == Some((n + 1) as i64));
    let after_n1 = resolve_all(u1, (n + 1) as i64);
    lemma_resolve_keeps_place(u1, (n + 1) as i64, x);
    assert(after_n1[i].resolved_at == Some((n + 1) as i64));
    lemma_upsert_present(after_n1, back, (n + 2) as i64, x);
    lemma_upsert_keeps_first_seen(after_n1, back, (n + 2) as i64, x);
}

/// Upsert is idempotent: upserting the same item again in the same scan leaves the
/// rows as the first upsert made them.
pub proof fn lemma_upsert_idempotent(rows: Seq<MarkerRow>, item: TodoItem, scan: i64)
    ensures
        upsert_one(upsert_one(rows, item, scan), item, scan) == upsert_one(rows, item, scan),
{
    let once = upsert_one(rows, item, scan);
    match find_row(rows, item.id@) {
        Some(i) => {
            lemma_find_row_some(rows, item.id@, 0);
            assert forall|k: int| 0 <= k < rows.len() implies (#[trigger] rows[k]).id == once[k].id by {}
            lemma_find_row_same_ids(rows, once, item.id@, 0);
            assert(upsert_one(once, item, scan) =~= once);
        },
        None => {
            lemma_find_row_push(rows, new_row(item, scan), item.id@, 0);
            assert(find_row(once, item.id@) == Some(rows.len() as int));
            assert(upsert_one(once, item, scan) =~= once);
        },
    }
}

} // verus!
