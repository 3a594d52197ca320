//! The export pipeline: walk the index newest-first page by page, keep
//! non-empty plain-text records, drop records whose decoded text was already
//! emitted, fingerprint each survivor, and append it to the CSV sink with a
//! flush after every completed page.

use vstd::prelude::*;

use crate::csvout::{csv_row_text, header_text, CsvSink};
use crate::dedup::DedupSet;
use crate::fingerprint::{fingerprint_hex, fingerprint_of};
use crate::index::{cursor_at, cursor_pos, cursor_valid, page_end, IndexModel};
use crate::link::{link_of, make_link};
use crate::progress::{Progress, ProgressState};
use crate::records::{IndexSlot, MediaKind, RecordId};
use crate::textenc::{decode_text, lossy_utf8_of};
use crate::timefmt::{format_timestamp, timestamp_text_of};
use crate::ExportError;

verus! {

/// Whether the filter accepts a slot: record and entry both resolve, the
/// media kind is plain text, and the body is present and non-empty.
pub open spec fn eligible(slot: IndexSlot) -> bool {
    &&& slot.record is Some
    &&& slot.entry is Some
    &&& slot.record->0.media == MediaKind::Text
    &&& slot.record->0.body is Some
    &&& slot.record->0.body->0@.len() > 0
}

/// The raw body bytes of an eligible slot.
pub open spec fn body_of(slot: IndexSlot) -> Seq<u8> {
    slot.record->0.body->0@
}

/// The dedup key of an eligible slot: its best-effort decoded text.
pub open spec fn text_of(slot: IndexSlot) -> Seq<char> {
    lossy_utf8_of(body_of(slot))
}

/// The columns of one export row.
pub struct RowModel {
    pub hash_hex: Seq<char>,
    pub timestamp: Seq<char>,
    pub text: Seq<char>,
    pub link: Seq<char>,
}

/// The row an eligible slot is archived as: the digest of its raw bytes in
/// hex, its entry's timestamp in RFC 3339, its decoded text, and its link.
pub open spec fn row_of(slot: IndexSlot) -> RowModel {
    RowModel {
        hash_hex: fingerprint_of(body_of(slot)),
        timestamp: timestamp_text_of(slot.entry->0.timestamp),
        text: text_of(slot),
        link: link_of(slot.id),
    }
}

/// Whether the slot at position `i` is emitted: it passes the filter, and no
/// newer slot (an earlier position, traversal being newest-first) carries the
/// same decoded text.
pub open spec fn emitted(slots: Seq<IndexSlot>, i: int) -> bool {
    &&& eligible(slots[i])
    &&& forall|j: int|
        0 <= j < i ==> !(eligible(slots[j]) && text_of(slots[j]) == text_of(slots[i]))
}

/// Every row of a full export over `slots`, in traversal order.
pub open spec fn export_rows(slots: Seq<IndexSlot>) -> Seq<RowModel>
    decreases slots.len(),
{
    if slots.len() == 0 {
        Seq::<RowModel>::empty()
    } else {
        export_rows(slots.drop_last()) + (if emitted(slots, slots.len() - 1) {
            seq![row_of(slots.last())]
        } else {
            Seq::<RowModel>::empty()
        })
    }
}

/// The decoded texts of the eligible slots of a prefix: what the dedup set
/// holds once that prefix has been scanned.
pub open spec fn eligible_texts(slots: Seq<IndexSlot>) -> Set<Seq<char>> {
    Set::new(
        |t: Seq<char>|
            exists|i: int| 0 <= i < slots.len() && eligible(slots[i]) && text_of(slots[i]) == t,
    )
}

/// The encoded CSV line of a row.
pub open spec fn row_line(r: RowModel) -> Seq<char> {
    csv_row_text(r.hash_hex, r.timestamp, r.text, r.link)
}

/// What the sink holds after the first `pos` slots were scanned and the page
/// flushed: the header, then the rows of that prefix, all durable.
pub open spec fn sink_synced(sink: CsvSink, slots: Seq<IndexSlot>, pos: int) -> bool {
    &&& sink.lines() == seq![header_text()] + export_rows(slots.take(pos)).map_values(
        |r: RowModel| row_line(r),
    )
    &&& sink.flushed_count() == sink.lines().len()
}

proof fn lemma_emitted_take(slots: Seq<IndexSlot>, p: int)
    requires
        0 <= p < slots.len(),
    ensures
        emitted(slots.take(p + 1), p) == emitted(slots, p),
{
    let pre = slots.take(p + 1);
    assert forall|j: int| 0 <= j <= p implies pre[j] == slots[j] by {}
    if emitted(slots, p) {
        assert(eligible(pre[p]));
        assert forall|j: int|
            0 <= j < p implies !(eligible(pre[j]) && text_of(pre[j]) == text_of(pre[p])) by {
            assert(pre[j] == slots[j]);
        }
        assert(emitted(pre, p));
    }
    if emitted(pre, p) {
        assert(eligible(slots[p]));
        assert forall|j: int|
            0 <= j < p implies !(eligible(slots[j]) && text_of(slots[j]) == text_of(
                slots[p],
            )) by {
            assert(pre[j] == slots[j]);
        }
        assert(emitted(slots, p));
    }
}

proof fn lemma_export_rows_snoc(slots: Seq<IndexSlot>, p: int)
    requires
        0 <= p < slots.len(),
    ensures
        export_rows(slots.take(p + 1)) == export_rows(slots.take(p)) + (if emitted(slots, p) {
            seq![row_of(slots[p])]
        } else {
            Seq::<RowModel>::empty()
        }),
{
    let pre = slots.take(p + 1);
    assert(pre.drop_last() =~= slots.take(p));
    assert(pre.last() == slots[p]);
    lemma_emitted_take(slots, p);
}

proof fn lemma_eligible_texts_take(slots: Seq<IndexSlot>, p: int)
    requires
        0 <= p < slots.len(),
    ensures
        eligible(slots[p]) ==> eligible_texts(slots.take(p + 1)) == eligible_texts(
            slots.take(p),
        ).insert(text_of(slots[p])),
        !eligible(slots[p]) ==> eligible_texts(slots.take(p + 1)) == eligible_texts(
            slots.take(p),
        ),
{
    let a = eligible_texts(slots.take(p));
    let b = eligible_texts(slots.take(p + 1));
    assert forall|j: int| 0 <= j <= p implies slots.take(p + 1)[j] == slots[j] by {}
    assert forall|j: int| 0 <= j < p implies slots.take(p)[j] == slots[j] by {}
    if eligible(slots[p]) {
        let t = text_of(slots[p]);
        assert forall|x: Seq<char>| #[trigger] b.contains(x) implies a.insert(t).contains(x) by {
            let i = choose|i: int|
                0 <= i < slots.take(p + 1).len() && #[trigger] eligible(slots.take(p + 1)[i]) && text_of(
                    slots.take(p + 1)[i],
                ) == x;
            if i < p {
                assert(slots.take(p)[i] == slots[i]);
                assert(a.contains(x));
            }
        }
        assert forall|x: Seq<char>| a.insert(t).contains(x) implies #[trigger] b.contains(x) by {
            if x == t {
                assert(slots.take(p + 1)[p] == slots[p]);
                assert(eligible(slots.take(p + 1)[p]) && text_of(slots.take(p + 1)[p]) == x);
            } else {
                let i = choose|i: int|
                    0 <= i < slots.take(p).len() && #[trigger] eligible(slots.take(p)[i]) && text_of(
                        slots.take(p)[i],
                    ) == x;
                assert(eligible(slots.take(p + 1)[i]) && text_of(slots.take(p + 1)[i]) == x);
            }
        }
        assert(b =~= a.insert(t));
    } else {
        assert forall|x: Seq<char>| #[trigger] b.contains(x) implies a.contains(x) by {
            let i = choose|i: int|
                0 <= i < slots.take(p + 1).len() && #[trigger] eligible(slots.take(p + 1)[i]) && text_of(
                    slots.take(p + 1)[i],
                ) == x;
            assert(slots.take(p + 1)[i] == slots[i]);
            if i < p {
                assert(slots.take(p)[i] == slots[i]);
            }
        }
        assert forall|x: Seq<char>| #[trigger] a.contains(x) implies b.contains(x) by {
            let i = choose|i: int|
                0 <= i < slots.take(p).len() && #[trigger] eligible(slots.take(p)[i]) && text_of(
                    slots.take(p)[i],
                ) == x;
            assert(eligible(slots.take(p + 1)[i]) && text_of(slots.take(p + 1)[i]) == x);
        }
        assert(b =~= a);
    }
}

/// Scans one identifier of a page: resolves it, filters it, dedups it, and —
/// when it survives — fingerprints it and appends its row to the sink.
fn scan_one(
    index: &IndexModel,
    id: RecordId,
    seen: &mut DedupSet,
    sink: &mut CsvSink,
    Ghost(idx): Ghost<int>,
)
    requires
        index.wf(),
        0 <= idx < index@.len(),
        index@[idx].id == id,
        old(seen).texts() == eligible_texts(index@.take(idx)),
        old(sink).wf(),
    ensures
        final(sink).wf(),
        final(seen).texts() == eligible_texts(index@.take(idx + 1)),
        final(sink).lines() == old(sink).lines() + (if emitted(index@, idx) {
            seq![row_line(row_of(index@[idx]))]
        } else {
            Seq::<Seq<char>>::empty()
        }),
        final(sink).flushed_count() == old(sink).flushed_count(),
{
    let ghost slots = index@;
    let ghost slot = slots[idx];
    proof {
        lemma_eligible_texts_take(slots, idx);
        assert forall|j: int| 0 <= j < idx implies slots.take(idx)[j] == slots[j] by {}
    }
    let rec_opt = index.record_by_id(id);
    let ent_opt = index.entry_by_id(id);
    match rec_opt {
        Some(rec) => {
            proof {
                assert(*rec == slot.record->0);
            }
            match ent_opt {
                Some(ent) => {
                    match rec.media {
                        MediaKind::Text => {
                            match &rec.body {
                                Some(body) => {
                                    if body.len() > 0 {
                                        assert(eligible(slot));
                                        let text = decode_text(body.as_slice());
                                        assert(text@ == text_of(slot));
                                        if !seen.contains_text(&text) {
                                            proof {
                                                assert forall|j: int|
                                                    0 <= j < idx implies !(eligible(slots[j])
                                                    && text_of(slots[j]) == text_of(slot)) by {
                                                    if eligible(slots[j]) && text_of(slots[j])
                                                        == text_of(slot) {
                                                        assert(eligible(slots.take(idx)[j])
                                                            && text_of(slots.take(idx)[j])
                                                            == text_of(slot));
                                                        assert(eligible_texts(
                                                            slots.take(idx),
                                                        ).contains(text_of(slot)));
                                                    }
                                                }
                                                assert(emitted(slots, idx));
                                            }
                                            let hash = fingerprint_hex(body.as_slice());
                                            let ts = format_timestamp(ent.timestamp);
                                            let link = make_link(id);
                                            sink.write_row(
                                                hash.as_str(),
                                                ts.as_str(),
                                                text.as_str(),
                                                link.as_str(),
                                            );
                                            seen.insert(text);
                                            proof {
                                                assert(sink.lines() =~= old(sink).lines() + seq![
                                                    row_line(row_of(slot)),
                                                ]);
                                            }
                                        } else {
                                            proof {
                                                let j = choose|j: int|
                                                    0 <= j < slots.take(idx).len()
                                                        && #[trigger] eligible(slots.take(idx)[j])
                                                        && text_of(slots.take(idx)[j]) == text@;
                                                assert(eligible(slots[j]) && text_of(slots[j])
                                                    == text_of(slot));
                                                assert(!emitted(slots, idx));
                                                assert(eligible_texts(slots.take(idx)).insert(
                                                    text_of(slot),
                                                ) =~= eligible_texts(slots.take(idx)));
                                                assert(sink.lines() =~= old(sink).lines()
                                                    + Seq::<Seq<char>>::empty());
                                            }
                                        }
                                    } else {
                                        proof {
                                            assert(!eligible(slot));
                                            assert(sink.lines() =~= old(sink).lines() + Seq::<
                                                Seq<char>,
                                            >::empty());
                                        }
                                    }
                                },
                                None => {
                                    proof {
                                        assert(!eligible(slot));
                                        assert(sink.lines() =~= old(sink).lines() + Seq::<
                                            Seq<char>,
                                        >::empty());
                                    }
                                },
                            }
                        },
                        _ => {
                            proof {
                                assert(!eligible(slot));
                                assert(sink.lines() =~= old(sink).lines() + Seq::<
                                    Seq<char>,
                                >::empty());
                            }
                        },
                    }
                },
                None => {
                    proof {
                        assert(slot.entry is None);
                        assert(!eligible(slot));
                        assert(sink.lines() =~= old(sink).lines() + Seq::<Seq<char>>::empty());
                    }
                },
            }
        },
        None => {
            proof {
                assert(slot.record is None);
                assert(!eligible(slot));
                assert(sink.lines() =~= old(sink).lines() + Seq::<Seq<char>>::empty());
            }
        },
    }
}

/// The walking state of one export run: the pagination cursor, how far the
/// scan has come, the dedup set, and the progress tracker.
pub struct Exporter {
    cursor: Option<u64>,
    pos: usize,
    seen: DedupSet,
    progress: Progress,
    done: bool,
}

impl Exporter {
    /// How many slots have been scanned.
    pub closed spec fn pos(&self) -> int {
        self.pos as int
    }

    /// Whether the pager has signalled exhaustion.
    pub closed spec fn done(&self) -> bool {
        self.done
    }

    /// The progress tracker carried along.
    pub closed spec fn progress(&self) -> Progress {
        self.progress
    }

    /// Everything an export run keeps true between pages.
    pub closed spec fn inv(&self, index: IndexModel) -> bool {
        &&& index.wf()
        &&& index@.len() <= usize::MAX
        &&& 0 <= self.pos() <= index@.len()
        &&& (self.done() <==> self.pos() == index@.len())
        &&& (!self.done() && self.pos() == 0 ==> self.cursor is None)
        &&& (!self.done() && self.pos() > 0 ==> self.cursor == cursor_at(index@, self.pos()))
        &&& self.seen.texts() == eligible_texts(index@.take(self.pos()))
        &&& (if self.done() {
            self.progress.state() == ProgressState::Exhausted
        } else {
            self.progress.state() == ProgressState::Paging
        })
        &&& self.progress.position() == self.pos()
        &&& self.progress.total() == index@.len()
    }

    /// Writes and flushes the header, probes the index for its total, and
    /// either reports the empty index or hands back a runner ready to page.
    pub fn begin(index: &IndexModel, sink: &mut CsvSink) -> (r: Result<Exporter, ExportError>)
        requires
            index.wf(),
            old(sink).wf(),
            old(sink).lines().len() == 0,
        ensures
            final(sink).wf(),
            sink_synced(*final(sink), index@, 0),
            r is Ok <==> index@.len() > 0,
            r matches Ok(ex) ==> ex.inv(*index) && ex.pos() == 0 && !ex.done(),
            r matches Err(e) ==> e == ExportError::EmptyIndex && index@.len() == 0,
    {
        sink.write_header();
        sink.flush();
        proof {
            assert(index@.take(0) =~= Seq::<IndexSlot>::empty());
            assert(export_rows(index@.take(0)) =~= Seq::<RowModel>::empty());
            assert(sink.lines() =~= seq![header_text()] + export_rows(index@.take(0)).map_values(
                |r: RowModel| row_line(r),
            ));
        }
        let total = index.count();
        if total == 0 {
            return Err(ExportError::EmptyIndex);
        }
        let mut progress = Progress::new();
        progress.begin(total);
        let seen = DedupSet::new();
        proof {
            assert(eligible_texts(index@.take(0)) =~= Set::<Seq<char>>::empty());
        }
        Ok(Exporter { cursor: None, pos: 0, seen, progress, done: false })
    }

    /// How many identifiers have been scanned, for display.
    pub fn scanned(&self) -> (r: usize)
        ensures
            r == self.pos(),
    {
        self.pos
    }

    /// Whether the run is over.
    pub fn is_done(&self) -> (r: bool)
        ensures
            r == self.done(),
    {
        self.done
    }

    /// Fetches and scans one page, appends the surviving rows, flushes the
    /// sink, and advances the progress tracker by the identifiers scanned.
    pub fn step(&mut self, index: &IndexModel, page_size: usize, sink: &mut CsvSink)
        requires
            page_size >= 1,
            old(self).inv(*index),
            !old(self).done(),
            old(sink).wf(),
            sink_synced(*old(sink), index@, old(self).pos()),
        ensures
            final(self).inv(*index),
            final(sink).wf(),
            sink_synced(*final(sink), index@, final(self).pos()),
            final(self).pos() == page_end(index@, old(self).pos(), page_size as int),
            old(self).pos() < final(self).pos(),
            final(self).done() <==> final(self).pos() == index@.len(),
    {
        let ghost slots = index@;
        let (ids, older, _newer) = index.latest_page(page_size, self.cursor);
        let ghost start = self.pos as int;
        proof {
            assert(cursor_pos(slots, self.cursor) == start);
        }
        let ghost end = page_end(slots, start, page_size as int);
        let m = ids.len();
        proof {
            assert(end == start + m);
        }
        let mut k: usize = 0;
        while k < m
            invariant
                index.wf(),
                0 <= k <= m,
                m == ids@.len(),
                start == self.pos as int,
                start + m == end,
                end <= slots.len() <= usize::MAX,
                slots == index@,
                forall|t: int| 0 <= t < m ==> ids@[t] == slots[start + t].id,
                self.pos == old(self).pos,
                self.cursor == old(self).cursor,
                self.done == old(self).done,
                self.progress == old(self).progress,
                self.seen.texts() == eligible_texts(slots.take(start + k)),
                sink.wf(),
                sink.lines() == seq![header_text()] + export_rows(slots.take(start + k)).map_values(
                    |r: RowModel| row_line(r),
                ),
                sink.flushed_count() == old(sink).flushed_count(),
            decreases m - k,
        {
            let id = ids[k];
            proof {
                assert(slots[start + k].id == id);
            }
            scan_one(index, id, &mut self.seen, sink, Ghost(start + k as int));
            proof {
                lemma_export_rows_snoc(slots, start + k);
                assert(sink.lines() =~= seq![header_text()] + export_rows(
                    slots.take(start + k + 1),
                ).map_values(|r: RowModel| row_line(r)));
            }
            k += 1;
        }
        sink.flush();
        self.pos = self.pos + m;
        self.progress.advance(m);
        match older {
            None => {
                proof {
                    assert(end == slots.len());
                }
                self.done = true;
                self.progress.finish();
            },
            Some(c) => {
                proof {
                    assert(end < slots.len());
                }
                self.cursor = Some(c);
            },
        }
    }

    /// Hands the progress tracker back once the run is over.
    pub fn into_progress(self) -> (r: Progress)
        ensures
            r == self.progress(),
    {
        self.progress
    }
}

/// Runs a whole export: header first, then every page until the pager signals
/// exhaustion, a flush after each. On success the sink holds the header and
/// exactly the export rows of the index, all durable, and the returned
/// tracker stands exhausted at the total. An empty index is reported after
/// the header was written and flushed, with no data row.
pub fn run_export(index: &IndexModel, page_size: usize, sink: &mut CsvSink) -> (r: Result<
    Progress,
    ExportError,
>)
    requires
        index.wf(),
        page_size >= 1,
        old(sink).wf(),
        old(sink).lines().len() == 0,
    ensures
        final(sink).wf(),
        match r {
            Ok(p) => {
                &&& index@.len() > 0
                &&& final(sink).lines() == seq![header_text()] + export_rows(index@).map_values(
                    |row: RowModel| row_line(row),
                )
                &&& final(sink).flushed_count() == final(sink).lines().len()
                &&& p.state() == ProgressState::Exhausted
                &&& p.position() == index@.len()
                &&& p.total() == index@.len()
            },
            Err(e) => {
                &&& e == ExportError::EmptyIndex
                &&& index@.len() == 0
                &&& final(sink).lines() == seq![header_text()]
                &&& final(sink).flushed_count() == 1
            },
        },
{
    let mut ex = match Exporter::begin(index, sink) {
        Ok(ex) => ex,
        Err(e) => {
            proof {
                assert(export_rows(index@.take(0)) =~= Seq::<RowModel>::empty());
                assert(sink.lines() =~= seq![header_text()]);
            }
            return Err(e);
        },
    };
    while !ex.is_done()
        invariant
            index.wf(),
            page_size >= 1,
            ex.inv(*index),
            sink.wf(),
            sink_synced(*sink, index@, ex.pos()),
        decreases index@.len() - ex.pos(),
    {
        ex.step(index, page_size, sink);
    }
    proof {
        assert(index@.take(ex.pos()) =~= index@);
    }
    Ok(ex.into_progress())
}

/// Whether a row is the row of some emitted slot.
pub open spec fn row_from_emitted(slots: Seq<IndexSlot>, r: RowModel) -> bool {
    exists|i: int| 0 <= i < slots.len() && #[trigger] emitted(slots, i) && r == row_of(slots[i])
}

proof fn lemma_emitted_prefix(a: Seq<IndexSlot>, b: Seq<IndexSlot>, i: int)
    requires
        0 <= i < a.len(),
        i < b.len(),
        forall|j: int| 0 <= j <= i ==> a[j] == b[j],
    ensures
        emitted(a, i) == emitted(b, i),
{
    if emitted(a, i) {
        assert(eligible(b[i]));
        assert forall|j: int|
            0 <= j < i implies !(eligible(b[j]) && text_of(b[j]) == text_of(b[i])) by {
            assert(a[j] == b[j]);
        }
        assert(emitted(b, i));
    }
    if emitted(b, i) {
        assert(eligible(a[i]));
        assert forall|j: int|
            0 <= j < i implies !(eligible(a[j]) && text_of(a[j]) == text_of(a[i])) by {
            assert(a[j] == b[j]);
        }
        assert(emitted(a, i));
    }
}

proof fn lemma_rows_characterize(slots: Seq<IndexSlot>)
    ensures
        forall|k: int|
            0 <= k < export_rows(slots).len() ==> row_from_emitted(
                slots,
                #[trigger] export_rows(slots)[k],
            ),
        forall|i: int|
            0 <= i < slots.len() && #[trigger] emitted(slots, i) ==> exists|k: int|
                0 <= k < export_rows(slots).len() && #[trigger] export_rows(slots)[k] == row_of(
                    slots[i],
                ),
        forall|k1: int, k2: int|
            0 <= k1 < k2 < export_rows(slots).len() ==> #[trigger] export_rows(slots)[k1].text
                != #[trigger] export_rows(slots)[k2].text,
    decreases slots.len(),
{
    if slots.len() == 0 {
    } else {
        let n = slots.len() as int;
        let pre = slots.drop_last();
        let rows = export_rows(slots);
        let pre_rows = export_rows(pre);
        lemma_rows_characterize(pre);
        assert forall|j: int| 0 <= j < n - 1 implies pre[j] == slots[j] by {}
        assert forall|i: int| 0 <= i < n - 1 implies emitted(pre, i) == emitted(slots, i) by {
            lemma_emitted_prefix(pre, slots, i);
        }
        // every row stems from an emitted slot
        assert forall|k: int|
            0 <= k < rows.len() implies row_from_emitted(slots, #[trigger] rows[k]) by {
            if k < pre_rows.len() {
                assert(rows[k] == pre_rows[k]);
                let i = choose|i: int|
                    0 <= i < pre.len() && #[trigger] emitted(pre, i) && pre_rows[k] == row_of(
                        pre[i],
                    );
                assert(emitted(slots, i) && rows[k] == row_of(slots[i]));
            } else {
                assert(emitted(slots, n - 1));
                assert(rows[k] == row_of(slots[n - 1]));
            }
        }
        // every emitted slot is archived
        assert forall|i: int|
            0 <= i < n && #[trigger] emitted(slots, i) implies exists|k: int|
                0 <= k < rows.len() && #[trigger] rows[k] == row_of(slots[i]) by {
            if i < n - 1 {
                assert(emitted(pre, i));
                let k = choose|k: int|
                    0 <= k < pre_rows.len() && #[trigger] pre_rows[k] == row_of(pre[i]);
                assert(rows[k] == row_of(slots[i]));
            } else {
                assert(rows[pre_rows.len() as int] == row_of(slots[i]));
            }
        }
        // no two rows share a text
        assert forall|k1: int, k2: int|
            0 <= k1 < k2 < rows.len() implies #[trigger] rows[k1].text != #[trigger] rows[k2].text by {
            if k2 < pre_rows.len() {
                assert(rows[k1] == pre_rows[k1] && rows[k2] == pre_rows[k2]);
            } else {
                assert(emitted(slots, n - 1));
                assert(rows[k2] == row_of(slots[n - 1]));
                assert(rows[k1] == pre_rows[k1]);
                let i = choose|i: int|
                    0 <= i < pre.len() && #[trigger] emitted(pre, i) && pre_rows[k1] == row_of(
                        pre[i],
                    );
                assert(eligible(slots[i]));
                assert(!(eligible(slots[i]) && text_of(slots[i]) == text_of(slots[n - 1])));
                assert(rows[k1].text == text_of(slots[i]));
                assert(rows[k2].text == text_of(slots[n - 1]));
            }
        }
    }
}

/// Law: when two slots carry the same decoded text, the older one is never
/// emitted — one row serves the text, bound to the newest occurrence, since
/// traversal runs newest-first.
pub proof fn lemma_duplicate_suppressed(slots: Seq<IndexSlot>, i: int, j: int)
    requires
        0 <= i < j < slots.len(),
        eligible(slots[i]),
        eligible(slots[j]),
        text_of(slots[i]) == text_of(slots[j]),
    ensures
        !emitted(slots, j),
{
    if emitted(slots, j) {
        assert(!(eligible(slots[i]) && text_of(slots[i]) == text_of(slots[j])));
    }
}

/// Law: the newest eligible slot of each decoded text is emitted and so
/// appears among the export rows.
pub proof fn lemma_emitted_archived(slots: Seq<IndexSlot>, i: int)
    requires
        0 <= i < slots.len(),
        emitted(slots, i),
    ensures
        exists|k: int|
            0 <= k < export_rows(slots).len() && #[trigger] export_rows(slots)[k] == row_of(
                slots[i],
            ),
{
    lemma_rows_characterize(slots);
}

/// Law: no two export rows share a decoded text — each text is archived at
/// most once per run.
pub proof fn lemma_export_texts_unique(slots: Seq<IndexSlot>, k1: int, k2: int)
    requires
        0 <= k1 < k2 < export_rows(slots).len(),
    ensures
        export_rows(slots)[k1].text != export_rows(slots)[k2].text,
{
    lemma_rows_characterize(slots);
}

/// Law: every export row stems from an emitted slot — a resolved plain-text
/// record with a non-empty body — and carries the best-effort decoding of
/// that body as its text and the digest of those same raw bytes as its hash.
pub proof fn lemma_row_provenance(slots: Seq<IndexSlot>, k: int)
    requires
        0 <= k < export_rows(slots).len(),
    ensures
        exists|i: int|
            {
                &&& 0 <= i < slots.len()
                &&& #[trigger] emitted(slots, i)
                &&& slots[i].record is Some
                &&& slots[i].record->0.media == MediaKind::Text
                &&& body_of(slots[i]).len() > 0
                &&& export_rows(slots)[k] == row_of(slots[i])
                &&& export_rows(slots)[k].text == lossy_utf8_of(body_of(slots[i]))
                &&& export_rows(slots)[k].hash_hex == fingerprint_of(body_of(slots[i]))
            },
{
    lemma_rows_characterize(slots);
    let i = choose|i: int|
        0 <= i < slots.len() && #[trigger] emitted(slots, i) && export_rows(slots)[k] == row_of(
            slots[i],
        );
    assert(eligible(slots[i]));
}

/// Law: the fingerprint column is a function of the raw body bytes alone —
/// two slots with identical bodies are archived under identical digest hex,
/// whatever their ids, timestamps, pages or runs.
pub proof fn lemma_hash_determinism(a: IndexSlot, b: IndexSlot)
    requires
        body_of(a) == body_of(b),
    ensures
        row_of(a).hash_hex == row_of(b).hash_hex,
{
}

/// Law: each older cursor the pager hands out is strictly smaller than the
/// cursor it was asked with, so repeated paging over a finite index reaches
/// the exhaustion sentinel after boundedly many pages.
pub proof fn lemma_cursor_strictly_decreases(slots: Seq<IndexSlot>, count: int, c: u64)
    requires
        count >= 1,
        cursor_valid(slots, Some(c)),
    ensures
        ({
            let end = page_end(slots, cursor_pos(slots, Some(c)), count);
            cursor_at(slots, end) is Some ==> cursor_at(slots, end)->0 < c
        }),
{
}

} // verus!
