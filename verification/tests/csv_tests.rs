use ord_export::csvout::{encode_row, CsvSink};

fn csv_crate_row(fields: [&str; 4]) -> String {
    let mut writer = csv::WriterBuilder::new().from_writer(Vec::new());
    writer.write_record(&fields).expect("writing to memory cannot fail");
    let bytes = writer.into_inner().expect("flushing to memory cannot fail");
    String::from_utf8(bytes).expect("csv output is UTF-8")
}

#[test]
fn plain_row_is_unquoted() {
    let row = encode_row("abc", "1970-01-01T00:00:00+00:00", "hello", "https://example.invalid/1");
    assert_eq!(row, "abc,1970-01-01T00:00:00+00:00,hello,https://example.invalid/1\n");
}

#[test]
fn comma_forces_quoting() {
    let row = encode_row("h", "t", "a,b", "l");
    assert_eq!(row, "h,t,\"a,b\",l\n");
}

#[test]
fn quote_is_doubled() {
    let row = encode_row("h", "t", "say \"hi\"", "l");
    assert_eq!(row, "h,t,\"say \"\"hi\"\"\",l\n");
}

#[test]
fn newline_forces_quoting() {
    let row = encode_row("h", "t", "two\nlines", "l");
    assert_eq!(row, "h,t,\"two\nlines\",l\n");
}

#[test]
fn encoding_matches_the_csv_crate() {
    let cases: [[&str; 4]; 5] = [
        ["hash", "time", "plain text", "link"],
        ["h", "t", "with,comma", "l"],
        ["h", "t", "with \"quote\"", "l"],
        ["h", "t", "line\nbreak", "l"],
        ["h", "t", "carriage\rreturn", "l"],
    ];
    for fields in cases {
        let ours = encode_row(fields[0], fields[1], fields[2], fields[3]);
        let theirs = csv_crate_row(fields);
        assert_eq!(ours, theirs, "mismatch on {:?}", fields);
    }
}

#[test]
fn nothing_is_durable_before_a_flush() {
    let mut sink = CsvSink::new();
    sink.write_header();
    sink.write_row("h", "t", "x", "l");
    assert_eq!(sink.flushed_text(), "");
    assert_eq!(sink.full_text(), "hash,timestamp,text,link\nh,t,x,l\n");
    sink.flush();
    assert_eq!(sink.flushed_text(), "hash,timestamp,text,link\nh,t,x,l\n");
}

#[test]
fn flush_is_row_aligned() {
    let mut sink = CsvSink::new();
    sink.write_header();
    sink.flush();
    sink.write_row("h1", "t1", "a", "l1");
    sink.write_row("h2", "t2", "b", "l2");
    assert_eq!(sink.flushed_text(), "hash,timestamp,text,link\n");
    sink.flush();
    sink.write_row("h3", "t3", "c", "l3");
    assert_eq!(
        sink.flushed_text(),
        "hash,timestamp,text,link\nh1,t1,a,l1\nh2,t2,b,l2\n"
    );
}
