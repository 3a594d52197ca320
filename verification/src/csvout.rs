//! CSV serialization and the output sink. A field is quoted exactly when it
//! holds a comma, a quote, or a line break, with inner quotes doubled; rows
//! end in a line feed. The sink records which prefix of its rows has been
//! made durable, so a run interrupted between flushes still leaves a
//! well-formed file of complete rows.

use vstd::prelude::*;
use vstd::string::StrSliceExecFns;
use vstd::string::StringExecFns;

verus! {

/// Whether a character forces its field to be quoted.
pub open spec fn is_special(c: char) -> bool {
    c == ',' || c == '"' || c == '\n' || c == '\r'
}

/// Whether a field must be quoted to survive as one CSV field.
pub open spec fn needs_quoting(s: Seq<char>) -> bool {
    exists|i: int| 0 <= i < s.len() && is_special(s[i])
}

/// The body of a quoted field: the text with every quote doubled.
pub open spec fn escaped(s: Seq<char>) -> Seq<char>
    decreases s.len(),
{
    if s.len() == 0 {
        Seq::<char>::empty()
    } else {
        escaped(s.drop_last()) + (if s.last() == '"' {
            seq!['"', '"']
        } else {
            seq![s.last()]
        })
    }
}

/// One encoded CSV field: quoted and escaped when needed, verbatim otherwise.
pub open spec fn csv_field(s: Seq<char>) -> Seq<char> {
    if needs_quoting(s) {
        seq!['"'] + escaped(s) + seq!['"']
    } else {
        s
    }
}

/// One encoded CSV row of the archive schema, line feed included.
pub open spec fn csv_row_text(
    hash: Seq<char>,
    timestamp: Seq<char>,
    text: Seq<char>,
    link: Seq<char>,
) -> Seq<char> {
    csv_field(hash) + seq![','] + csv_field(timestamp) + seq![','] + csv_field(text) + seq![',']
        + csv_field(link) + seq!['\n']
}

/// The header row written once, before any data.
pub open spec fn header_text() -> Seq<char> {
    "hash,timestamp,text,link\n"@
}

/// The concatenation of a sequence of encoded rows.
pub open spec fn concat_texts(lines: Seq<Seq<char>>) -> Seq<char>
    decreases lines.len(),
{
    if lines.len() == 0 {
        Seq::<char>::empty()
    } else {
        concat_texts(lines.drop_last()) + lines.last()
    }
}

/// Relies on std's `String::push`: appends the given character to the end of
/// the string.
#[verifier::external_body]
fn push_char(s: &mut String, c: char)
    ensures
        final(s)@ == old(s)@.push(c),
{
    s.push(c);
}

fn field_needs_quoting(s: &str) -> (r: bool)
    ensures
        r == needs_quoting(s@),
{
    let len = s.unicode_len();
    let mut i: usize = 0;
    while i < len
        invariant
            len == s@.len(),
            0 <= i <= len,
            forall|j: int| 0 <= j < i ==> !is_special(s@[j]),
        decreases len - i,
    {
        let c = s.get_char(i);
        if c == ',' || c == '"' || c == '\n' || c == '\r' {
            assert(is_special(s@[i as int]));
            return true;
        }
        i += 1;
    }
    false
}

fn escape_into(out: &mut String, s: &str)
    ensures
        final(out)@ == old(out)@ + escaped(s@),
{
    let len = s.unicode_len();
    let mut i: usize = 0;
    proof {
        assert(s@.take(0) =~= Seq::<char>::empty());
        assert(out@ =~= out@ + escaped(s@.take(0)));
    }
    while i < len
        invariant
            len == s@.len(),
            0 <= i <= len,
            out@ == old(out)@ + escaped(s@.take(i as int)),
        decreases len - i,
    {
        let c = s.get_char(i);
        proof {
            assert(s@.take(i + 1).drop_last() =~= s@.take(i as int));
            assert(s@.take(i + 1).last() == s@[i as int]);
        }
        if c == '"' {
            push_char(out, '"');
            push_char(out, '"');
        } else {
            push_char(out, c);
        }
        proof {
            assert(out@ =~= old(out)@ + escaped(s@.take(i + 1)));
        }
        i += 1;
    }
    proof {
        assert(s@.take(len as int) =~= s@);
    }
}

fn encode_field_into(out: &mut String, s: &str)
    ensures
        final(out)@ == old(out)@ + csv_field(s@),
{
    if field_needs_quoting(s) {
        push_char(out, '"');
        escape_into(out, s);
        push_char(out, '"');
        proof {
            assert(out@ =~= old(out)@ + (seq!['"'] + escaped(s@) + seq!['"']));
        }
    } else {
        out.append(s);
    }
}

/// Encodes one row of the archive schema, line feed included.
pub fn encode_row(hash: &str, timestamp: &str, text: &str, link: &str) -> (r: String)
    ensures
        r@ == csv_row_text(hash@, timestamp@, text@, link@),
{
    let mut r = String::new();
    encode_field_into(&mut r, hash);
    push_char(&mut r, ',');
    encode_field_into(&mut r, timestamp);
    push_char(&mut r, ',');
    encode_field_into(&mut r, text);
    push_char(&mut r, ',');
    encode_field_into(&mut r, link);
    push_char(&mut r, '\n');
    proof {
        assert(r@ =~= csv_row_text(hash@, timestamp@, text@, link@));
    }
    r
}

/// The output sink: encoded rows in order, and how many of them have been
/// made durable by a flush.
pub struct CsvSink {
    lines: Vec<String>,
    flushed: usize,
}

impl CsvSink {
    /// The rows appended so far, in order, each fully encoded.
    pub closed spec fn lines(&self) -> Seq<Seq<char>> {
        self.lines@.map_values(|s: String| s@)
    }

    /// How many leading rows a flush has made durable.
    pub closed spec fn flushed_count(&self) -> int {
        self.flushed as int
    }

    /// The durable prefix never exceeds what was written.
    pub open spec fn wf(&self) -> bool {
        0 <= self.flushed_count() <= self.lines().len()
    }

    /// A fresh, empty sink.
    pub fn new() -> (r: CsvSink)
        ensures
            r.wf(),
            r.lines() == Seq::<Seq<char>>::empty(),
            r.flushed_count() == 0,
    {
        let r = CsvSink { lines: Vec::new(), flushed: 0 };
        proof {
            assert(r.lines() =~= Seq::<Seq<char>>::empty());
        }
        r
    }

    /// Appends the header row. Nothing is durable until the next flush.
    pub fn write_header(&mut self)
        requires
            old(self).wf(),
        ensures
            final(self).wf(),
            final(self).lines() == old(self).lines().push(header_text()),
            final(self).flushed_count() == old(self).flushed_count(),
    {
        let line = String::from_str("hash,timestamp,text,link\n");
        self.lines.push(line);
        proof {
            assert(self.lines() =~= old(self).lines().push(header_text()));
        }
    }

    /// Appends one encoded data row. Nothing is durable until the next flush.
    pub fn write_row(&mut self, hash: &str, timestamp: &str, text: &str, link: &str)
        requires
            old(self).wf(),
        ensures
            final(self).wf(),
            final(self).lines() == old(self).lines().push(
                csv_row_text(hash@, timestamp@, text@, link@),
            ),
            final(self).flushed_count() == old(self).flushed_count(),
    {
        let line = encode_row(hash, timestamp, text, link);
        self.lines.push(line);
        proof {
            assert(self.lines() =~= old(self).lines().push(
                csv_row_text(hash@, timestamp@, text@, link@),
            ));
        }
    }

    /// Makes every row written so far durable.
    pub fn flush(&mut self)
        requires
            old(self).wf(),
        ensures
            final(self).wf(),
            final(self).lines() == old(self).lines(),
            final(self).flushed_count() == final(self).lines().len(),
    {
        self.flushed = self.lines.len();
    }

    fn text_upto(&self, count: usize) -> (r: String)
        requires
            self.wf(),
            count <= self.lines().len(),
        ensures
            r@ == concat_texts(self.lines().take(count as int)),
    {
        let mut r = String::new();
        let mut i: usize = 0;
        proof {
            assert(self.lines().take(0) =~= Seq::<Seq<char>>::empty());
        }
        while i < count
            invariant
                self.wf(),
                count <= self.lines().len(),
                0 <= i <= count,
                r@ == concat_texts(self.lines().take(i as int)),
            decreases count - i,
        {
            proof {
                assert(self.lines().take(i + 1).drop_last() =~= self.lines().take(i as int));
                assert(self.lines().take(i + 1).last() == self.lines()[i as int]);
            }
            r.append(self.lines[i].as_str());
            i += 1;
        }
        r
    }

    /// The durable part of the output: every flushed row, concatenated.
    pub fn flushed_text(&self) -> (r: String)
        requires
            self.wf(),
        ensures
            r@ == concat_texts(self.lines().take(self.flushed_count())),
    {
        self.text_upto(self.flushed)
    }

    /// The whole output written so far, durable or not, concatenated.
    pub fn full_text(&self) -> (r: String)
        requires
            self.wf(),
        ensures
            r@ == concat_texts(self.lines()),
    {
        let r = self.text_upto(self.lines.len());
        proof {
            assert(self.lines().take(self.lines().len() as int) =~= self.lines());
        }
        r
    }
}

} // verus!
