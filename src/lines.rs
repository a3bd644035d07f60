//! The line-delimited log format: one record per line, each ended by a newline byte.
use vstd::prelude::*;

verus! {

/// The newline byte that ends every record.
pub const NEWLINE: u8 = 10;

/// Splits `c` into its complete lines and the trailing bytes after the last newline.
pub open spec fn segments(c: Seq<u8>) -> (Seq<Seq<u8>>, Seq<u8>)
    decreases c.len(),
{
    if c.len() == 0 {
        (Seq::empty(), Seq::empty())
    } else {
        let (done, cur) = segments(c.drop_last());
        if c.last() == NEWLINE {
            (done.push(cur), Seq::empty())
        } else {
            (done, cur.push(c.last()))
        }
    }
}

/// The lines of a log: its newline-separated pieces, a final unterminated piece
/// included when it is not empty.
pub open spec fn lines_of(c: Seq<u8>) -> Seq<Seq<u8>> {
    let (done, cur) = segments(c);
    if cur.len() == 0 {
        done
    } else {
        done.push(cur)
    }
}

/// A log whose every record is complete: empty, or ending in a newline.
pub open spec fn is_terminated(c: Seq<u8>) -> bool {
    c.len() == 0 || c.last() == NEWLINE
}

/// The stored form of a record: its bytes followed by a newline.
pub open spec fn record_bytes(r: Seq<u8>) -> Seq<u8> {
    r.push(NEWLINE)
}

/// The bytes that a sequence of appended records adds to a log.
pub open spec fn records_bytes(rs: Seq<Seq<u8>>) -> Seq<u8>
    decreases rs.len(),
{
    if rs.len() == 0 {
        Seq::empty()
    } else {
        records_bytes(rs.drop_last()) + record_bytes(rs.last())
    }
}

/// A record that fits on one line.
pub open spec fn is_single_line(r: Seq<u8>) -> bool {
    !r.contains(NEWLINE)
}

proof fn lemma_segments_terminated(c: Seq<u8>)
    requires
        is_terminated(c),
    ensures
        segments(c).1.len() == 0,
{
}

proof fn lemma_segments_extend(c: Seq<u8>, r: Seq<u8>)
    requires
        is_single_line(r),
    ensures
        segments(c + r) == (segments(c).0, segments(c).1 + r),
    decreases r.len(),
{
    if r.len() == 0 {
        assert(c + r =~= c);
        assert(segments(c).1 + r =~= segments(c).1);
    } else {
        let r0 = r.drop_last();
        assert(r0.contains(NEWLINE) ==> r.contains(NEWLINE)) by {
            if r0.contains(NEWLINE) {
                let k = choose|k: int| 0 <= k < r0.len() && r0[k] == NEWLINE;
                assert(r[k] == NEWLINE);
            }
        }
        lemma_segments_extend(c, r0);
        assert((c + r).drop_last() =~= c + r0);
        assert(r[r.len() - 1] != NEWLINE);
        assert(segments(c).1 + r =~= (segments(c).1 + r0).push(r.last()));
    }
}

/// Appending one single-line record to a complete log adds exactly that record
/// as its last line, and leaves the log complete.
pub proof fn lemma_append_record(c: Seq<u8>, r: Seq<u8>)
    requires
        is_terminated(c),
        is_single_line(r),
    ensures
        lines_of(c + record_bytes(r)) == lines_of(c).push(r),
        is_terminated(c + record_bytes(r)),
{
    lemma_segments_terminated(c);
    lemma_segments_extend(c, r);
    assert(c + record_bytes(r) =~= (c + r).push(NEWLINE));
    assert((c + r).push(NEWLINE).drop_last() =~= c + r);
    assert(Seq::<u8>::empty() + r =~= r);
}

/// Records appended one after another to a complete log come back as its lines,
/// whole and in order after the lines that were there before.
pub proof fn lemma_append_records(c: Seq<u8>, rs: Seq<Seq<u8>>)
    requires
        is_terminated(c),
        forall|i: int| 0 <= i < rs.len() ==> is_single_line(#[trigger] rs[i]),
    ensures
        lines_of(c + records_bytes(rs)) == lines_of(c) + rs,
        is_terminated(c + records_bytes(rs)),
    decreases rs.len(),
{
    if rs.len() == 0 {
        assert(c + records_bytes(rs) =~= c);
        assert(lines_of(c) + rs =~= lines_of(c));
    } else {
        let front = rs.drop_last();
        assert forall|i: int| 0 <= i < front.len() implies is_single_line(#[trigger] front[i]) by {
            assert(front[i] == rs[i]);
        }
        lemma_append_records(c, front);
        assert(is_single_line(rs[rs.len() - 1]));
        lemma_append_record(c + records_bytes(front), rs.last());
        assert(c + records_bytes(rs) =~= (c + records_bytes(front)) + record_bytes(rs.last()));
        assert(lines_of(c) + rs =~= (lines_of(c) + front).push(rs.last()));
    }
}

/// Splits a log into its lines, in order.
pub fn split_lines(content: &[u8]) -> (r: Vec<Vec<u8>>)
    ensures
        r@.len() == lines_of(content@).len(),
        forall|i: int| 0 <= i < r@.len() ==> (#[trigger] r@[i])@ == lines_of(content@)[i],
        r.deep_view() == lines_of(content@),
{
    let mut done: Vec<Vec<u8>> = Vec::new();
    let mut cur: Vec<u8> = Vec::new();
    let mut i: usize = 0;
    while i < content.len()
        invariant
            i <= content@.len(),
            done@.len() == segments(content@.take(i as int)).0.len(),
            forall|j: int|
                0 <= j < done@.len() ==> (#[trigger] done@[j])@ == segments(
                    content@.take(i as int),
                ).0[j],
            cur@ == segments(content@.take(i as int)).1,
        decreases content@.len() - i,
    {
        let b = content[i];
        proof {
            assert(content@.take(i + 1).drop_last() =~= content@.take(i as int));
        }
        if b == NEWLINE {
            let line = cur;
            done.push(line);
            cur = Vec::new();
        } else {
            cur.push(b);
        }
        i = i + 1;
    }
    proof {
        assert(content@.take(i as int) =~= content@);
    }
    if cur.len() > 0 {
        done.push(cur);
    }
    assert forall|k: int| 0 <= k < done@.len() implies done.deep_view()[k] == lines_of(content@)[k] by {
        assert(done.deep_view()[k] =~= done@[k]@);
    }
    assert(done.deep_view() =~= lines_of(content@));
    done
}

/// The stored form of a single-line record: its bytes and a newline.
pub fn to_record(canonical: &[u8]) -> (r: Vec<u8>)
    requires
        is_single_line(canonical@),
    ensures
        r@ == record_bytes(canonical@),
{
    let mut r: Vec<u8> = Vec::new();
    let mut i: usize = 0;
    while i < canonical.len()
        invariant
            i <= canonical@.len(),
            r@ == canonical@.take(i as int),
        decreases canonical@.len() - i,
    {
        r.push(canonical[i]);
        proof {
            assert(canonical@.take(i + 1) =~= canonical@.take(i as int).push(canonical@[i as int]));
        }
        i = i + 1;
    }
    proof {
        assert(canonical@.take(i as int) =~= canonical@);
    }
    r.push(NEWLINE);
    r
}

/// Whether `b` holds no newline byte.
pub fn has_no_newline(b: &[u8]) -> (r: bool)
    ensures
        r == is_single_line(b@),
{
    let mut i: usize = 0;
    while i < b.len()
        invariant
            i <= b@.len(),
            forall|j: int| 0 <= j < i ==> b@[j] != NEWLINE,
        decreases b@.len() - i,
    {
        if b[i] == NEWLINE {
            return false;
        }
        i = i + 1;
    }
    true
}

} // verus!
