use ord_export::csvout::CsvSink;
use ord_export::export::{run_export, Exporter};
use ord_export::index::IndexModel;
use ord_export::records::{IndexSlot, MediaKind, Record, RecordEntry, RecordId};
use ord_export::ExportError;

const HEADER: &str = "hash,timestamp,text,link\n";
const HELLO_DIGEST: &str = "3338be694f50c5f338814986cdf0686453a888b84f424d792af4b9202398f392";

fn text_slot(id: u64, ts: u32, body: &[u8]) -> IndexSlot {
    IndexSlot {
        id: RecordId { value: id },
        record: Some(Record { media: MediaKind::Text, body: Some(body.to_vec()) }),
        entry: Some(RecordEntry { timestamp: ts }),
    }
}

fn media_slot(id: u64, ts: u32, media: MediaKind, body: &[u8]) -> IndexSlot {
    IndexSlot {
        id: RecordId { value: id },
        record: Some(Record { media, body: Some(body.to_vec()) }),
        entry: Some(RecordEntry { timestamp: ts }),
    }
}

fn build_index(slots: Vec<IndexSlot>) -> IndexModel {
    let mut index = IndexModel::new();
    for s in slots {
        assert!(index.push_slot(s), "duplicate record id while building the index");
    }
    index
}

fn data_rows(output: &str) -> Vec<String> {
    let mut rows: Vec<String> = Vec::new();
    for line in output.lines().skip(1) {
        rows.push(line.to_string());
    }
    rows
}

#[test]
fn scenario_a_basic_dedup() {
    let index = build_index(vec![
        text_slot(3, 2000, b"hello"),
        media_slot(2, 1500, MediaKind::Image, b"hello"),
        text_slot(1, 1000, b"hello"),
    ]);
    let mut sink = CsvSink::new();
    let progress = run_export(&index, 10, &mut sink).expect("export should succeed");
    let expected = format!(
        "{}{},1970-01-01T00:33:20+00:00,hello,https://ordinals.com/inscription/3\n",
        HEADER, HELLO_DIGEST
    );
    assert_eq!(sink.flushed_text(), expected);
    assert_eq!(progress.current_position(), 3);
    assert_eq!(progress.current_total(), 3);
}

#[test]
fn scenario_b_empty_index() {
    let index = IndexModel::new();
    let mut sink = CsvSink::new();
    let err = run_export(&index, 10, &mut sink).expect_err("an empty index must be reported");
    assert_eq!(err, ExportError::EmptyIndex);
    assert_eq!(sink.flushed_text(), HEADER);
}

#[test]
fn scenario_c_flush_durability() {
    let index = build_index(vec![
        text_slot(3, 3000, b"alpha"),
        text_slot(2, 2000, b"beta"),
        text_slot(1, 1000, b"gamma"),
    ]);
    let mut sink = CsvSink::new();
    let mut exporter = Exporter::begin(&index, &mut sink).expect("index is not empty");
    exporter.step(&index, 1, &mut sink);
    exporter.step(&index, 1, &mut sink);
    assert_eq!(exporter.scanned(), 2);
    assert!(!exporter.is_done());
    // the run is interrupted here: only the durable prefix counts
    let durable = sink.flushed_text();
    let rows = data_rows(&durable);
    assert_eq!(rows.len(), 2);
    assert!(durable.starts_with(HEADER));
    assert!(rows[0].contains(",alpha,"));
    assert!(rows[0].ends_with("https://ordinals.com/inscription/3"));
    assert!(rows[1].contains(",beta,"));
    assert!(rows[1].ends_with("https://ordinals.com/inscription/2"));
}

#[test]
fn duplicates_keep_newest_occurrence() {
    let index = build_index(vec![
        text_slot(5, 5000, b"x"),
        text_slot(4, 4000, b"y"),
        text_slot(3, 3000, b"x"),
        text_slot(2, 2000, b"x"),
        text_slot(1, 1000, b"z"),
    ]);
    let mut sink = CsvSink::new();
    run_export(&index, 2, &mut sink).expect("export should succeed");
    let output = sink.flushed_text();
    let rows = data_rows(&output);
    assert_eq!(rows.len(), 3);
    assert!(rows[0].contains(",x,"));
    assert!(rows[0].ends_with("/inscription/5"));
    assert!(rows[1].contains(",y,"));
    assert!(rows[1].ends_with("/inscription/4"));
    assert!(rows[2].contains(",z,"));
    assert!(rows[2].ends_with("/inscription/1"));
}

#[test]
fn lossy_decoding_replaces_invalid_bytes() {
    let index = build_index(vec![text_slot(1, 1000, &[0xff, b'h', b'i'])]);
    let mut sink = CsvSink::new();
    run_export(&index, 10, &mut sink).expect("export should succeed");
    let output = sink.flushed_text();
    let rows = data_rows(&output);
    assert_eq!(rows.len(), 1);
    let text_field = rows[0].split(',').nth(2).expect("row has four fields").to_string();
    assert_eq!(text_field, "\u{fffd}hi");

    // decoding is idempotent: feeding the decoded text back yields it unchanged
    let again = build_index(vec![text_slot(7, 7000, text_field.as_bytes())]);
    let mut sink2 = CsvSink::new();
    run_export(&again, 10, &mut sink2).expect("export should succeed");
    let rows2 = data_rows(&sink2.flushed_text());
    assert_eq!(rows2[0].split(',').nth(2).unwrap(), text_field);
}

#[test]
fn output_is_independent_of_page_size() {
    let slots = |i: &mut IndexModel| {
        assert!(i.push_slot(text_slot(3, 3000, b"alpha")));
        assert!(i.push_slot(media_slot(2, 2000, MediaKind::Binary, b"blob")));
        assert!(i.push_slot(text_slot(1, 1000, b"beta")));
    };
    let mut outputs: Vec<String> = Vec::new();
    for page_size in [1usize, 2, 7] {
        let mut index = IndexModel::new();
        slots(&mut index);
        let mut sink = CsvSink::new();
        run_export(&index, page_size, &mut sink).expect("export should succeed");
        outputs.push(sink.flushed_text());
    }
    assert_eq!(outputs[0], outputs[1]);
    assert_eq!(outputs[1], outputs[2]);
}

#[test]
fn unresolved_and_empty_records_are_skipped() {
    let index = build_index(vec![
        IndexSlot { id: RecordId { value: 5 }, record: None, entry: Some(RecordEntry { timestamp: 5 }) },
        IndexSlot {
            id: RecordId { value: 4 },
            record: Some(Record { media: MediaKind::Text, body: Some(b"orphan".to_vec()) }),
            entry: None,
        },
        IndexSlot {
            id: RecordId { value: 3 },
            record: Some(Record { media: MediaKind::Text, body: None }),
            entry: Some(RecordEntry { timestamp: 3 }),
        },
        text_slot(2, 2, b""),
        text_slot(1, 1, b"kept"),
    ]);
    let mut sink = CsvSink::new();
    let progress = run_export(&index, 10, &mut sink).expect("export should succeed");
    let rows = data_rows(&sink.flushed_text());
    assert_eq!(rows.len(), 1);
    assert!(rows[0].contains(",kept,"));
    // every identifier still counts as scanned
    assert_eq!(progress.current_position(), 5);
    assert_eq!(progress.current_total(), 5);
}

#[test]
fn non_text_media_never_exported() {
    let index = build_index(vec![
        media_slot(6, 6, MediaKind::Image, b"pic"),
        media_slot(5, 5, MediaKind::Audio, b"tune"),
        media_slot(4, 4, MediaKind::Video, b"clip"),
        media_slot(3, 3, MediaKind::Binary, b"blob"),
        media_slot(2, 2, MediaKind::Unknown, b"data"),
        text_slot(1, 1, b"only this"),
    ]);
    let mut sink = CsvSink::new();
    run_export(&index, 3, &mut sink).expect("export should succeed");
    let rows = data_rows(&sink.flushed_text());
    assert_eq!(rows.len(), 1);
    assert!(rows[0].contains(",only this,"));
}

#[test]
fn duplicate_id_is_rejected() {
    let mut index = IndexModel::new();
    assert!(index.push_slot(text_slot(1, 1000, b"a")));
    assert!(!index.push_slot(text_slot(1, 2000, b"b")));
    assert_eq!(index.count(), 1);
}

#[test]
fn cursor_sequence_strictly_decreases() {
    let index = build_index(vec![
        text_slot(5, 5, b"a"),
        text_slot(4, 4, b"b"),
        text_slot(3, 3, b"c"),
        text_slot(2, 2, b"d"),
        text_slot(1, 1, b"e"),
    ]);
    let mut cursor: Option<u64> = None;
    let mut last: Option<u64> = None;
    let mut pages: usize = 0;
    loop {
        let (ids, older, _newer) = index.latest_page(2, cursor);
        assert!(ids.len() >= 1);
        if let (Some(prev), Some(next)) = (last, older) {
            assert!(next < prev, "older cursors must strictly decrease");
        }
        pages += 1;
        assert!(pages <= 5, "paging must terminate");
        match older {
            None => break,
            Some(c) => {
                last = Some(c);
                cursor = Some(c);
            }
        }
    }
    assert_eq!(pages, 3);
}

#[test]
fn known_digest_timestamp_and_link() {
    let index = build_index(vec![text_slot(42, 0, b"hello")]);
    let mut sink = CsvSink::new();
    run_export(&index, 10, &mut sink).expect("export should succeed");
    let rows = data_rows(&sink.flushed_text());
    assert_eq!(
        rows[0],
        format!(
            "{},1970-01-01T00:00:00+00:00,hello,https://ordinals.com/inscription/42",
            HELLO_DIGEST
        )
    );
}

#[test]
fn redecoding_decoded_text_is_identity() {
    let text = "h\u{e9}llo \u{fffd} world";
    assert_eq!(ord_export::textenc::redecode(text), text);
}

#[test]
fn fingerprint_is_lowercase_hex_of_the_digest() {
    assert_eq!(ord_export::fingerprint::fingerprint_hex(b"hello"), HELLO_DIGEST);
    assert_eq!(
        ord_export::fingerprint::fingerprint_hex(b""),
        "a7ffc6f8bf1ed76651c14756a061d662f580ff4de43b49fa82d80a4b80f8434a"
    );
}

#[test]
fn timestamps_render_as_rfc3339_utc() {
    assert_eq!(ord_export::timefmt::format_timestamp(2000), "1970-01-01T00:33:20+00:00");
    assert_eq!(ord_export::timefmt::format_timestamp(u32::MAX), "2106-02-07T06:28:15+00:00");
}

#[test]
fn links_interpolate_the_id_in_decimal() {
    assert_eq!(
        ord_export::link::make_link(RecordId { value: 0 }),
        "https://ordinals.com/inscription/0"
    );
    assert_eq!(
        ord_export::link::make_link(RecordId { value: u64::MAX }),
        "https://ordinals.com/inscription/18446744073709551615"
    );
}

#[test]
fn error_messages_are_fixed() {
    assert_eq!(ExportError::EmptyIndex.message(), "no records found in the index");
    assert_eq!(ExportError::IndexRead.message(), "failed to read from the index");
    assert_eq!(ExportError::OutputIo.message(), "failed to write the output file");
}
