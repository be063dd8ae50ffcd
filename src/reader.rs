//! The decisions of the decode loop. The caller reads the lines (and maps each one
//! to a record identifier); each line, or the end of the input, is handed to
//! `Reader::next`, which says what to do: yield the record the line was decoded
//! into, skip the line, stop, or fail.
//!
//! Decoding reuses the record templates of the layout: the record that a line is
//! decoded into is overwritten by the next line of the same identifier, so its
//! values must be read before `next` is called again.
use vstd::prelude::*;

use crate::layout::{Layout, record_index};
use crate::record::{ReadMode, Record, decoded_from};

verus! {

/// What to do with a line whose identifier names no record.
#[derive(Debug, Clone, Copy, PartialEq, Eq, Structural)]
pub enum ReaderLazyness {
    /// Fail
    Stringent,
    /// Skip the line
    Lazy,
}

/// What the line source produced.
#[derive(Clone, Copy)]
pub enum LineEvent<'a> {
    /// A line, with the record identifier that the mapper gave it
    Line { text: &'a str, rec_id: &'a str },
    /// The end of the input
    End,
}

/// Why reading stopped with a failure.
#[derive(Debug, Clone, Copy, PartialEq, Eq, Structural)]
pub enum ReadError {
    /// The identifier of a line names no record (in stringent mode)
    UnknownRecord,
    /// A line holds a non-ASCII character while positions are bytes
    NotAscii,
    /// The record's length leaves no room for the padding of a short line
    RecordTooLong,
}

/// The outcome of handing one event to the reader.
#[derive(Debug, Clone, Copy, PartialEq, Eq, Structural)]
pub enum ReadStep {
    /// The line was decoded into the record template at this position of the layout
    Decoded(usize),
    /// The line's identifier names a record (identifier scan only)
    Found(usize),
    /// The line was left out: its identifier names no record
    Skipped,
    /// The input is exhausted
    Exhausted,
    /// Reading fails
    Fatal(ReadError),
}

pub struct Reader<T> {
    /// The catalog whose record templates receive the lines
    pub layout: Layout<T>,
    /// What to do with an unknown identifier
    pub lazyness: ReaderLazyness,
    /// Whether the end of the input was met
    pub exhausted: bool,
    /// Number of characters of the last line read
    pub chars_read: usize,
    /// Number of lines read so far
    pub nblines_read: u64,
}

impl<T: ReadMode> Reader<T> {
    /// A reader over `layout`, lazy about unknown identifiers.
    pub fn new(layout: Layout<T>) -> (r: Reader<T>)
        ensures
            r.layout == layout,
            r.lazyness == ReaderLazyness::Lazy,
            !r.exhausted,
            r.chars_read == 0,
            r.nblines_read == 0,
    {
        Reader { layout, lazyness: ReaderLazyness::Lazy, exhausted: false, chars_read: 0, nblines_read: 0 }
    }

    /// Switches between lazy and stringent handling of unknown identifiers.
    pub fn set_lazyness(&mut self, lazyness: ReaderLazyness)
        ensures
            final(self).lazyness == lazyness,
            final(self).layout == old(self).layout,
            final(self).exhausted == old(self).exhausted,
            final(self).chars_read == old(self).chars_read,
            final(self).nblines_read == old(self).nblines_read,
    {
        self.lazyness = lazyness;
    }

    /// Classifies one event without decoding: the end of the input exhausts the
    /// reader for good; a line is counted, then its identifier is found, or the line
    /// is skipped (lazy) or reading fails (stringent).
    pub fn next_record_id(&mut self, event: LineEvent) -> (r: ReadStep)
        requires
            old(self).nblines_read < u64::MAX,
        ensures
            final(self).layout == old(self).layout,
            final(self).lazyness == old(self).lazyness,
            r matches ReadStep::Found(k) ==> k < old(self).layout.rec_map@.len() && (
            event matches LineEvent::Line { text, rec_id } && k == record_index(
                old(self).layout.rec_map@,
                rec_id@,
            )),
            old(self).exhausted ==> r == ReadStep::Exhausted && *final(self) == *old(self),
            !old(self).exhausted ==> match event {
                LineEvent::End => r == ReadStep::Exhausted && final(self).exhausted
                    && final(self).nblines_read == old(self).nblines_read,
                LineEvent::Line { text, rec_id } => {
                    let k = record_index(old(self).layout.rec_map@, rec_id@);
                    &&& !final(self).exhausted
                    &&& final(self).nblines_read == old(self).nblines_read + 1
                    &&& final(self).chars_read == text@.len()
                    &&& k >= 0 ==> r == ReadStep::Found(k as usize)
                    &&& k < 0 && old(self).lazyness == ReaderLazyness::Lazy ==> r
                        == ReadStep::Skipped
                    &&& k < 0 && old(self).lazyness == ReaderLazyness::Stringent ==> r
                        == ReadStep::Fatal(ReadError::UnknownRecord)
                },
            },
    {
        if self.exhausted {
            return ReadStep::Exhausted;
        }
        match event {
            LineEvent::End => {
                self.exhausted = true;
                ReadStep::Exhausted
            },
            LineEvent::Line { text, rec_id } => {
                self.nblines_read = self.nblines_read + 1;
                self.chars_read = text.unicode_len();
                match self.layout.find_record(rec_id) {
                    Some(k) => ReadStep::Found(k),
                    None => {
                        if self.lazyness == ReaderLazyness::Lazy {
                            ReadStep::Skipped
                        } else {
                            ReadStep::Fatal(ReadError::UnknownRecord)
                        }
                    },
                }
            },
        }
    }

    /// Handles one event: as `next_record_id`, and a line whose identifier names a
    /// record is then decoded into that record's template.
    pub fn next(&mut self, event: LineEvent) -> (r: ReadStep)
        requires
            old(self).nblines_read < u64::MAX,
        ensures
            final(self).lazyness == old(self).lazyness,
            old(self).exhausted ==> r == ReadStep::Exhausted && *final(self) == *old(self),
            !old(self).exhausted ==> match event {
                LineEvent::End => r == ReadStep::Exhausted && final(self).exhausted
                    && final(self).layout == old(self).layout && final(self).nblines_read
                    == old(self).nblines_read,
                LineEvent::Line { text, rec_id } => {
                    let k = record_index(old(self).layout.rec_map@, rec_id@);
                    let rec = old(self).layout.rec_map@[k];
                    &&& !final(self).exhausted
                    &&& final(self).nblines_read == old(self).nblines_read + 1
                    &&& final(self).chars_read == text@.len()
                    &&& k < 0 ==> final(self).layout == old(self).layout
                    &&& k < 0 && old(self).lazyness == ReaderLazyness::Lazy ==> r
                        == ReadStep::Skipped
                    &&& k < 0 && old(self).lazyness == ReaderLazyness::Stringent ==> r
                        == ReadStep::Fatal(ReadError::UnknownRecord)
                    &&& k >= 0 && !T::by_char() && !vstd::utf8::is_ascii_chars(text@) ==> r
                        == ReadStep::Fatal(ReadError::NotAscii)
                    &&& k >= 0 && (T::by_char() || vstd::utf8::is_ascii_chars(text@))
                        && rec.calculated_length == usize::MAX ==> r == ReadStep::Fatal(
                        ReadError::RecordTooLong,
                    )
                    &&& k >= 0 && (T::by_char() || vstd::utf8::is_ascii_chars(text@))
                        && rec.calculated_length < usize::MAX ==> {
                        &&& r == ReadStep::Decoded(k as usize)
                        &&& decoded_from(rec, text@, final(self).layout.rec_map@[k])
                        &&& final(self).layout.rec_map@.len() == old(self).layout.rec_map@.len()
                        &&& forall|i: int|
                            0 <= i < old(self).layout.rec_map@.len() && i != k
                                ==> #[trigger] final(self).layout.rec_map@[i] == old(
                                self,
                            ).layout.rec_map@[i]
                    }
                },
            },
    {
        let step = self.next_record_id(event);
        match step {
            ReadStep::Found(k) => {
                match event {
                    LineEvent::Line { text, rec_id } => {
                        assert(self.layout == old(self).layout);
                        assert(k as int == record_index(old(self).layout.rec_map@, rec_id@));
                        if !T::is_by_char() && !text.is_ascii() {
                            return ReadStep::Fatal(ReadError::NotAscii);
                        }
                        if self.layout.rec_map[k].calculated_length == usize::MAX {
                            return ReadStep::Fatal(ReadError::RecordTooLong);
                        }
                        self.layout.rec_map[k].set_value(text);
                        ReadStep::Decoded(k)
                    },
                    LineEvent::End => step,
                }
            },
            _ => step,
        }
    }

    /// The record template at position `k` of the layout.
    pub fn record(&self, k: usize) -> (r: &Record<T>)
        requires
            k < self.layout.rec_map@.len(),
        ensures
            *r == self.layout.rec_map@[k as int],
    {
        &self.layout.rec_map[k]
    }
}

} // verus!
