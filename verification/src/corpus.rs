//! The corpus of leaked password hashes: one hash per line, sorted, so that
//! equal lines are neighbours. The library never opens a file itself: the
//! caller reads the lines and hands them in, one by one or all at once.

use vstd::prelude::*;
use crate::fingerprint::{fingerprint_of, hash_string_to_filter_item};
use crate::stream::{
    dedup, fingerprints, handed_out, lemma_dedup_last, lemma_dedup_push, lemma_fingerprints_push,
    lemma_stream_push, readable, stream,
};

verus! {

/// The texts of a list of lines, in order.
pub open spec fn texts(lines: Seq<String>) -> Seq<Seq<char>> {
    Seq::new(lines.len(), |i: int| lines[i]@)
}

/// A corpus by its path and the number of its entries: its lines, with
/// each run of equal neighbours counted once.
pub struct PasswordHashFile {
    pub file_name: String,
    pub length: usize,
}

/// Counts the entries of a corpus while its lines are read.
pub struct CorpusScan {
    tally: Tally,
}

/// The count so far, the line seen last, and the lines seen in all.
struct Tally {
    last: Option<String>,
    count: usize,
    seen: Ghost<Seq<Seq<char>>>,
}

impl Tally {
    #[verifier::type_invariant]
    spec fn inv(self) -> bool {
        &&& self.count == dedup(self.seen@).len()
        &&& match self.last {
            Some(line) => self.seen@.len() > 0 && self.seen@.last() == line@,
            None => self.seen@.len() == 0,
        }
    }
}

impl CorpusScan {
    /// The lines handed in so far.
    pub closed spec fn seen(&self) -> Seq<Seq<char>> {
        self.tally.seen@
    }

    /// A scan that has seen no line.
    pub fn new() -> (r: CorpusScan)
        ensures
            r.seen() == Seq::<Seq<char>>::empty(),
    {
        CorpusScan { tally: Tally { last: None, count: 0, seen: Ghost(Seq::empty()) } }
    }

    /// The number of entries so far.
    pub fn count(&self) -> (r: usize)
        ensures
            r == dedup(self.seen()).len(),
    {
        proof {
            use_type_invariant(&self.tally);
        }
        self.tally.count
    }

    /// Takes the next line of the corpus. A line equal to the one before it
    /// is not counted again.
    pub fn feed(&mut self, line: String)
        requires
            dedup(old(self).seen()).len() < usize::MAX,
        ensures
            final(self).seen() == old(self).seen().push(line@),
    {
        proof {
            use_type_invariant(&self.tally);
            lemma_dedup_push(self.tally.seen@, line@);
        }
        let repeated: bool = match &self.tally.last {
            Some(previous) => *previous == line,
            None => false,
        };
        let count: usize = if repeated {
            self.tally.count
        } else {
            self.tally.count + 1
        };
        let ghost seen = self.tally.seen@.push(line@);
        self.tally = Tally { last: Some(line), count, seen: Ghost(seen) };
    }

    /// Ends the scan: the corpus at `file_name` with the entries counted.
    pub fn finish(self, file_name: String) -> (r: PasswordHashFile)
        ensures
            r.file_name == file_name,
            r.length == dedup(self.seen()).len(),
    {
        proof {
            use_type_invariant(&self.tally);
        }
        PasswordHashFile { file_name, length: self.tally.count }
    }
}

impl PasswordHashFile {
    /// The corpus at `file_name` whose lines are `lines`.
    pub fn from_lines(file_name: String, lines: &Vec<String>) -> (r: PasswordHashFile)
        ensures
            r.file_name == file_name,
            r.length == dedup(texts(lines@)).len(),
    {
        let mut scan = CorpusScan::new();
        let mut i: usize = 0;
        while i < lines.len()
            invariant
                i <= lines.len(),
                scan.seen() == texts(lines@).subrange(0, i as int),
            decreases lines.len() - i,
        {
            proof {
                lemma_dedup_last(scan.seen());
                assert(texts(lines@).subrange(0, i as int).push(lines@[i as int]@) =~= texts(
                    lines@,
                ).subrange(0, i + 1));
            }
            scan.feed(lines[i].clone());
            i = i + 1;
        }
        proof {
            assert(texts(lines@).subrange(0, lines@.len() as int) =~= texts(lines@));
        }
        scan.finish(file_name)
    }

    /// A cursor at the start of the corpus.
    pub fn iter(&self) -> (r: PasswordHashFileIterator)
        ensures
            r.start() == 0,
            r.history() == Seq::<Seq<char>>::empty(),
            r.spec_len() == self.length,
            r.spec_file_name() == self.file_name@,
    {
        self.resume(0)
    }

    /// A cursor that discards the first `skip` entries of the corpus and
    /// hands out the ones after them.
    pub fn resume(&self, skip: usize) -> (r: PasswordHashFileIterator)
        ensures
            r.start() == skip,
            r.history() == Seq::<Seq<char>>::empty(),
            r.spec_len() == self.length,
            r.spec_file_name() == self.file_name@,
    {
        PasswordHashFileIterator::at(self.file_name.clone(), self.length, skip)
    }
}

/// A cursor over the fingerprints of a corpus. It holds no line of the
/// corpus, only where it stands: whoever reads the file feeds it the lines
/// from the first one on, and takes the fingerprints that it hands out.
pub struct PasswordHashFileIterator {
    file_name: String,
    length: usize,
    progress: Progress,
}

/// Where a cursor stands after the lines it was fed.
struct Progress {
    start: usize,
    to_skip: usize,
    last: Option<u64>,
    stopped: bool,
    lines_consumed: usize,
    fed: Ghost<Seq<Seq<char>>>,
}

impl Progress {
    #[verifier::type_invariant]
    spec fn inv(self) -> bool {
        let read = fingerprints(self.fed@);
        let collapsed = dedup(read);
        &&& self.stopped == (readable(self.fed@) < self.fed@.len())
        &&& self.last == if read.len() > 0 {
            Some(read.last())
        } else {
            None
        }
        &&& self.to_skip == if collapsed.len() >= self.start {
            0
        } else {
            self.start - collapsed.len()
        }
        &&& self.lines_consumed == stream(self.fed@, self.start as nat).len()
        &&& self.start + self.lines_consumed <= usize::MAX
    }
}

impl PasswordHashFileIterator {
    /// The number of entries that the cursor discards before it hands out
    /// the first.
    pub closed spec fn start(&self) -> nat {
        self.progress.start as nat
    }

    /// The lines that the cursor has been fed.
    pub closed spec fn history(&self) -> Seq<Seq<char>> {
        self.progress.fed@
    }

    /// The number of entries of the corpus.
    pub closed spec fn spec_len(&self) -> usize {
        self.length
    }

    /// The path of the corpus.
    pub closed spec fn spec_file_name(&self) -> Seq<char> {
        self.file_name@
    }

    /// The fingerprints that the cursor has handed out.
    pub open spec fn yielded(&self) -> Seq<u64> {
        stream(self.history(), self.start())
    }

    /// Whether a malformed line has ended the stream.
    pub open spec fn spec_stopped(&self) -> bool {
        readable(self.history()) < self.history().len()
    }

    /// The place in the corpus's entries up to which the cursor has come.
    pub open spec fn spec_position(&self) -> nat {
        self.start() + self.yielded().len()
    }

    /// The number of entries that the cursor has still to discard before it
    /// hands out the first.
    pub open spec fn spec_to_discard(&self) -> nat {
        let passed = dedup(fingerprints(self.history())).len();
        if passed >= self.start() {
            0
        } else {
            (self.start() - passed) as nat
        }
    }

    fn at(file_name: String, length: usize, skip: usize) -> (r: PasswordHashFileIterator)
        ensures
            r.start() == skip,
            r.history() == Seq::<Seq<char>>::empty(),
            r.spec_len() == length,
            r.spec_file_name() == file_name@,
    {
        PasswordHashFileIterator {
            file_name,
            length,
            progress: Progress {
                start: skip,
                to_skip: skip,
                last: None,
                stopped: false,
                lines_consumed: 0,
                fed: Ghost(Seq::empty()),
            },
        }
    }

    /// The number of entries of the corpus, whatever the cursor has handed
    /// out already.
    pub fn len(&self) -> (r: usize)
        ensures
            r == self.spec_len(),
    {
        self.length
    }

    /// The path of the corpus.
    pub fn file_name(&self) -> (r: &String)
        ensures
            r@ == self.spec_file_name(),
    {
        &self.file_name
    }

    /// Whether a malformed line has ended the stream. Lines fed after it
    /// yield nothing.
    pub fn stopped(&self) -> (r: bool)
        ensures
            r == self.spec_stopped(),
    {
        proof {
            use_type_invariant(&self.progress);
        }
        self.progress.stopped
    }

    /// The place in the corpus's entries up to which the cursor has come:
    /// a cursor resumed there hands out what this one has not yet.
    pub fn position(&self) -> (r: usize)
        ensures
            r == self.spec_position(),
    {
        proof {
            use_type_invariant(&self.progress);
        }
        self.progress.start + self.progress.lines_consumed
    }

    /// The number of entries that the cursor has still to discard before it
    /// hands out the first.
    pub fn to_discard(&self) -> (r: usize)
        ensures
            r == self.spec_to_discard(),
    {
        proof {
            use_type_invariant(&self.progress);
        }
        self.progress.to_skip
    }

    /// A cursor for a new pass over the corpus, which takes up where this
    /// one stands.
    pub fn resume(&self) -> (r: PasswordHashFileIterator)
        ensures
            r.start() == self.spec_position(),
            r.history() == Seq::<Seq<char>>::empty(),
            r.spec_len() == self.spec_len(),
            r.spec_file_name() == self.spec_file_name(),
    {
        let skip: usize = self.position();
        PasswordHashFileIterator::at(self.file_name.clone(), self.length, skip)
    }

    /// Takes the next line of the corpus and hands out its fingerprint,
    /// unless the line repeats the fingerprint before it, is one of the
    /// entries to discard, or comes at or after a malformed line. The place
    /// of a cursor that hands out must fit the machine's integers; one that
    /// still discards can always be fed.
    pub fn feed(&mut self, line: &String) -> (r: Option<u64>)
        requires
            old(self).spec_to_discard() > 0 || old(self).spec_position() < usize::MAX,
        ensures
            r is Some ==> old(self).spec_to_discard() == 0,
            final(self).spec_to_discard() <= old(self).spec_to_discard(),
            old(self).spec_to_discard() <= final(self).spec_to_discard() + 1,
            final(self).history() == old(self).history().push(line@),
            final(self).start() == old(self).start(),
            final(self).spec_len() == old(self).spec_len(),
            final(self).spec_file_name() == old(self).spec_file_name(),
            r == handed_out(old(self).history(), old(self).start(), line@),
            match r {
                Some(key) => final(self).yielded() == old(self).yielded().push(key),
                None => final(self).yielded() == old(self).yielded(),
            },
    {
        let ghost before = self.progress.fed@;
        let ghost after = before.push(line@);
        proof {
            use_type_invariant(&self.progress);
            lemma_fingerprints_push(before, line@);
            lemma_dedup_last(fingerprints(before));
            if fingerprint_of(line@) is Ok {
                lemma_dedup_push(fingerprints(before), fingerprint_of(line@)->Ok_0);
            }
            lemma_stream_push(before, self.progress.start as nat, line@);
        }
        let start: usize = self.progress.start;
        let to_skip: usize = self.progress.to_skip;
        let last: Option<u64> = self.progress.last;
        let lines_consumed: usize = self.progress.lines_consumed;
        if self.progress.stopped {
            self.progress = Progress {
                start,
                to_skip,
                last,
                stopped: true,
                lines_consumed,
                fed: Ghost(after),
            };
            return None;
        }
        match hash_string_to_filter_item(line) {
            Err(_) => {
                self.progress = Progress {
                    start,
                    to_skip,
                    last,
                    stopped: true,
                    lines_consumed,
                    fed: Ghost(after),
                };
                None
            },
            Ok(key) => {
                let repeated: bool = match last {
                    Some(previous) => previous == key,
                    None => false,
                };
                if repeated {
                    self.progress = Progress {
                        start,
                        to_skip,
                        last,
                        stopped: false,
                        lines_consumed,
                        fed: Ghost(after),
                    };
                    None
                } else if to_skip > 0 {
                    self.progress = Progress {
                        start,
                        to_skip: to_skip - 1,
                        last: Some(key),
                        stopped: false,
                        lines_consumed,
                        fed: Ghost(after),
                    };
                    None
                } else {
                    self.progress = Progress {
                        start,
                        to_skip: 0,
                        last: Some(key),
                        stopped: false,
                        lines_consumed: lines_consumed + 1,
                        fed: Ghost(after),
                    };
                    Some(key)
                }
            },
        }
    }

    /// Feeds the cursor a run of lines, and collects what it hands out.
    /// The place that the cursor can reach must fit the machine's integers:
    /// each line moves it by one at most, once nothing is left to discard.
    pub fn drain(&mut self, lines: &Vec<String>) -> (r: Vec<u64>)
        requires
            old(self).spec_position() + lines@.len() <= usize::MAX + old(self).spec_to_discard(),
        ensures
            final(self).history() == old(self).history() + texts(lines@),
            final(self).start() == old(self).start(),
            final(self).spec_len() == old(self).spec_len(),
            final(self).spec_file_name() == old(self).spec_file_name(),
            final(self).yielded() == old(self).yielded() + r@,
    {
        let mut out: Vec<u64> = Vec::new();
        let mut i: usize = 0;
        proof {
            assert(self.history() + texts(lines@).subrange(0, 0) =~= self.history());
            assert(self.yielded() + out@ =~= self.yielded());
        }
        while i < lines.len()
            invariant
                i <= lines.len(),
                out@.len() <= i,
                self.spec_position() + (lines@.len() - i) <= usize::MAX + self.spec_to_discard(),
                self.history() == old(self).history() + texts(lines@).subrange(0, i as int),
                self.start() == old(self).start(),
                self.spec_len() == old(self).spec_len(),
                self.spec_file_name() == old(self).spec_file_name(),
                self.yielded() == old(self).yielded() + out@,
            decreases lines.len() - i,
        {
            match self.feed(&lines[i]) {
                Some(key) => {
                    proof {
                        assert((old(self).yielded() + out@).push(key) =~= old(self).yielded()
                            + out@.push(key));
                    }
                    out.push(key);
                },
                None => {},
            }
            proof {
                assert((old(self).history() + texts(lines@).subrange(0, i as int)).push(
                    lines@[i as int]@,
                ) =~= old(self).history() + texts(lines@).subrange(0, i + 1));
            }
            i = i + 1;
        }
        proof {
            assert(texts(lines@).subrange(0, lines@.len() as int) =~= texts(lines@));
        }
        out
    }
}

} // verus!
