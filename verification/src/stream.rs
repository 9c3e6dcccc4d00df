//! What a corpus of hash lines yields: the fingerprints of its lines up to
//! the first malformed one, with runs of equal neighbours collapsed.

use vstd::prelude::*;
use crate::fingerprint::fingerprint_of;

verus! {

/// `s` with each run of equal neighbours collapsed to its first element.
pub open spec fn dedup<T>(s: Seq<T>) -> Seq<T>
    decreases s.len(),
{
    if s.len() == 0 {
        s
    } else if s.len() >= 2 && s[s.len() - 2] == s.last() {
        dedup(s.drop_last())
    } else {
        dedup(s.drop_last()).push(s.last())
    }
}

/// The number of leading lines that have a fingerprint: the place of the
/// first malformed line, or the number of lines if there is none.
pub open spec fn readable(lines: Seq<Seq<char>>) -> nat
    decreases lines.len(),
{
    if lines.len() == 0 {
        0
    } else {
        let before = readable(lines.drop_last());
        if before == lines.len() - 1 && fingerprint_of(lines.last()) is Ok {
            before + 1
        } else {
            before
        }
    }
}

/// The fingerprints of the lines before the first malformed one. Reading
/// stops there: no later line is looked at.
pub open spec fn fingerprints(lines: Seq<Seq<char>>) -> Seq<u64> {
    Seq::new(readable(lines), |i: int| fingerprint_of(lines[i])->Ok_0)
}

/// What a cursor over `lines` hands out after it has discarded `skip`
/// entries: the collapsed fingerprints from place `skip` on.
pub open spec fn stream(lines: Seq<Seq<char>>, skip: nat) -> Seq<u64> {
    let all = dedup(fingerprints(lines));
    if skip <= all.len() {
        all.skip(skip as int)
    } else {
        Seq::empty()
    }
}

/// Whether `a` is the beginning of `b`.
pub open spec fn begins<T>(a: Seq<T>, b: Seq<T>) -> bool {
    a.len() <= b.len() && forall|i: int| 0 <= i < a.len() ==> a[i] == b[i]
}

/// Appending one element to `s` either lengthens its collapsed form by that
/// element or, if it repeats the last one, leaves it as it is.
pub proof fn lemma_dedup_push<T>(s: Seq<T>, x: T)
    ensures
        dedup(s.push(x)) == if s.len() > 0 && s.last() == x {
            dedup(s)
        } else {
            dedup(s).push(x)
        },
{
    assert(s.push(x).drop_last() =~= s);
}

/// Collapsing keeps the last element and never lengthens.
pub proof fn lemma_dedup_last<T>(s: Seq<T>)
    ensures
        dedup(s).len() <= s.len(),
        s.len() > 0 ==> dedup(s).len() > 0 && dedup(s).last() == s.last(),
    decreases s.len(),
{
    if s.len() > 0 {
        lemma_dedup_last(s.drop_last());
    }
}

/// No two neighbours of a collapsed sequence are equal.
pub proof fn lemma_dedup_no_equal_neighbours<T>(s: Seq<T>)
    ensures
        forall|i: int| 0 <= i < dedup(s).len() - 1 ==> #[trigger] dedup(s)[i] != dedup(s)[i + 1],
    decreases s.len(),
{
    if s.len() > 0 {
        lemma_dedup_no_equal_neighbours(s.drop_last());
        lemma_dedup_last(s.drop_last());
    }
}

/// Every leading line that counts as readable has a fingerprint, and the
/// line after them, if there is one, has none.
pub proof fn lemma_readable(lines: Seq<Seq<char>>)
    ensures
        readable(lines) <= lines.len(),
        forall|i: int| 0 <= i < readable(lines) ==> fingerprint_of(#[trigger] lines[i]) is Ok,
        readable(lines) < lines.len() ==> fingerprint_of(lines[readable(lines) as int]) is Err,
    decreases lines.len(),
{
    if lines.len() > 0 {
        let front = lines.drop_last();
        lemma_readable(front);
        assert forall|i: int| 0 <= i < readable(lines) implies fingerprint_of(
            #[trigger] lines[i],
        ) is Ok by {
            if i < front.len() {
                assert(lines[i] == front[i]);
            }
        }
        if readable(lines) < lines.len() && readable(front) < front.len() {
            assert(lines[readable(lines) as int] == front[readable(front) as int]);
        }
    }
}

/// How one more line changes the fingerprints read so far.
pub proof fn lemma_fingerprints_push(lines: Seq<Seq<char>>, line: Seq<char>)
    ensures
        readable(lines) <= lines.len(),
        readable(lines) == lines.len() && fingerprint_of(line) is Ok ==> {
            &&& readable(lines.push(line)) == lines.len() + 1
            &&& fingerprints(lines.push(line)) == fingerprints(lines).push(
                fingerprint_of(line)->Ok_0,
            )
        },
        !(readable(lines) == lines.len() && fingerprint_of(line) is Ok) ==> {
            &&& readable(lines.push(line)) == readable(lines)
            &&& readable(lines.push(line)) < lines.push(line).len()
            &&& fingerprints(lines.push(line)) == fingerprints(lines)
        },
{
    let longer = lines.push(line);
    lemma_readable(lines);
    assert(longer.drop_last() =~= lines);
    assert(longer.last() == line);
    if readable(lines) == lines.len() && fingerprint_of(line) is Ok {
        assert(fingerprints(longer) =~= fingerprints(lines).push(fingerprint_of(line)->Ok_0));
    } else {
        assert(fingerprints(longer) =~= fingerprints(lines));
    }
}

/// What was read of the beginning of a corpus stays the beginning of what
/// is read of all of it.
pub proof fn lemma_collapsed_begins(head: Seq<Seq<char>>, rest: Seq<Seq<char>>)
    ensures
        begins(dedup(fingerprints(head)), dedup(fingerprints(head + rest))),
    decreases rest.len(),
{
    if rest.len() == 0 {
        assert(head + rest =~= head);
    } else {
        let shorter = head + rest.drop_last();
        assert(head + rest =~= shorter.push(rest.last()));
        lemma_collapsed_begins(head, rest.drop_last());
        lemma_fingerprints_push(shorter, rest.last());
        if readable(shorter) == shorter.len() && fingerprint_of(rest.last()) is Ok {
            lemma_dedup_push(fingerprints(shorter), fingerprint_of(rest.last())->Ok_0);
        }
    }
}

/// A cursor that is resumed where another one stopped hands out the rest:
/// what a cursor yields on the beginning of a corpus, followed by what a
/// cursor yields on the whole corpus after discarding that many more
/// entries, is what the first cursor would have yielded on the whole corpus.
pub proof fn lemma_resume_continues(head: Seq<Seq<char>>, rest: Seq<Seq<char>>, skip: nat)
    ensures
        stream(head + rest, skip) == stream(head, skip) + stream(
            head + rest,
            skip + stream(head, skip).len(),
        ),
{
    lemma_collapsed_begins(head, rest);
    let part = dedup(fingerprints(head));
    let all = dedup(fingerprints(head + rest));
    if skip <= part.len() {
        assert(all.skip(skip as int) =~= part.skip(skip as int) + all.skip(part.len() as int));
    } else {
        assert(stream(head, skip) + stream(head + rest, skip) =~= stream(head + rest, skip));
    }
}

/// Resuming at place `k` of a fresh cursor's output yields that output
/// from place `k` on.
pub proof fn lemma_resume_is_tail(lines: Seq<Seq<char>>, k: nat)
    requires
        k <= stream(lines, 0).len(),
    ensures
        stream(lines, k) == stream(lines, 0).skip(k as int),
{
    assert(dedup(fingerprints(lines)).skip(0) =~= dedup(fingerprints(lines)));
}

/// What a cursor hands out when it is fed one more line: the line's
/// fingerprint, unless a malformed line came before or this one is
/// malformed, the fingerprint repeats the one before it, or the entry is
/// still among those to discard.
pub open spec fn handed_out(history: Seq<Seq<char>>, skip: nat, line: Seq<char>) -> Option<u64> {
    let read = fingerprints(history);
    if readable(history) == history.len() && fingerprint_of(line) is Ok && !(read.len() > 0
        && read.last() == fingerprint_of(line)->Ok_0) && dedup(read).len() >= skip {
        Some(fingerprint_of(line)->Ok_0)
    } else {
        None
    }
}

/// One more line lengthens the stream by what is handed out for it.
pub proof fn lemma_stream_push(history: Seq<Seq<char>>, skip: nat, line: Seq<char>)
    ensures
        stream(history.push(line), skip) == match handed_out(history, skip, line) {
            Some(key) => stream(history, skip).push(key),
            None => stream(history, skip),
        },
{
    lemma_fingerprints_push(history, line);
    lemma_dedup_last(fingerprints(history));
    if fingerprint_of(line) is Ok {
        let key = fingerprint_of(line)->Ok_0;
        lemma_dedup_push(fingerprints(history), key);
        let collapsed = dedup(fingerprints(history));
        if collapsed.len() >= skip {
            assert(collapsed.push(key).skip(skip as int) =~= collapsed.skip(skip as int).push(key));
        }
    }
}

} // verus!
