//! The ledger store: the registry of streams and the reading and writing rules of
//! their logs. The caller performs the storage work and hands the logs' bytes in.
use vstd::prelude::*;
use vstd::slice::slice_to_vec;
use vstd::string::StringExecFns;
use crate::cid::{cid_of, compute_cid, is_lower_hex};
use crate::lines::{
    is_single_line, lemma_append_record, lines_of, record_bytes, split_lines, to_record,
    is_terminated,
};
use crate::stream::{stream_at, stream_index, stream_name, str_eq, Stream, STREAM_COUNT};

verus! {

/// The errors of the ledger and of fact submission.
#[derive(Clone, Debug, PartialEq, Eq)]
pub enum LedgerError {
    /// The fact could not be brought to canonical form.
    Canonicalization(String),
    /// The fact lacks a required field.
    MissingField(String),
    /// The fact's discriminator is not in the routing table.
    UnknownFactType(String),
    /// No stored record has the requested identifier.
    NotFound(String),
}

/// The contents of a stream's log as handed in: `None` when it was never written.
pub open spec fn log_content(o: Option<Seq<u8>>) -> Seq<u8> {
    match o {
        Some(c) => c,
        None => Seq::empty(),
    }
}

/// The lines of every log, stream after stream in the fixed scan order.
pub open spec fn scan_lines(logs: Seq<Option<Seq<u8>>>) -> Seq<Seq<u8>>
    decreases logs.len(),
{
    if logs.len() == 0 {
        Seq::empty()
    } else {
        scan_lines(logs.drop_last()) + lines_of(log_content(logs.last()))
    }
}

/// The first of `ls` whose content identifier is `cid`.
pub open spec fn first_with_cid(ls: Seq<Seq<u8>>, cid: Seq<char>) -> Option<Seq<u8>>
    decreases ls.len(),
{
    if ls.len() == 0 {
        None
    } else if cid_of(ls[0]) == cid {
        Some(ls[0])
    } else {
        first_with_cid(ls.drop_first(), cid)
    }
}

/// The record that a lookup by identifier returns from the logs.
pub open spec fn lookup(logs: Seq<Option<Seq<u8>>>, cid: Seq<char>) -> Option<Seq<u8>> {
    first_with_cid(scan_lines(logs), cid)
}

proof fn lemma_first_with_cid_concat(a: Seq<Seq<u8>>, b: Seq<Seq<u8>>, cid: Seq<char>)
    ensures
        first_with_cid(a + b, cid) == (match first_with_cid(a, cid) {
            Some(x) => Some(x),
            None => first_with_cid(b, cid),
        }),
    decreases a.len(),
{
    if a.len() == 0 {
        assert(a + b =~= b);
    } else {
        lemma_first_with_cid_concat(a.drop_first(), b, cid);
        assert((a + b).drop_first() =~= a.drop_first() + b);
    }
}

proof fn lemma_scan_lines_split(logs: Seq<Option<Seq<u8>>>, n: int)
    requires
        0 <= n <= logs.len(),
    ensures
        scan_lines(logs) == scan_lines(logs.take(n)) + scan_lines(logs.skip(n)),
    decreases logs.len(),
{
    if n == logs.len() {
        assert(logs.take(n) =~= logs);
        assert(logs.skip(n) =~= Seq::<Option<Seq<u8>>>::empty());
        assert(scan_lines(logs) + Seq::<Seq<u8>>::empty() =~= scan_lines(logs));
    } else {
        lemma_scan_lines_split(logs.drop_last(), n);
        assert(logs.drop_last().take(n) =~= logs.take(n));
        assert(logs.skip(n).drop_last() =~= logs.drop_last().skip(n));
        assert(logs.skip(n).last() == logs.last());
        assert(scan_lines(logs.take(n)) + scan_lines(logs.skip(n)) =~= (scan_lines(logs.take(n))
            + scan_lines(logs.drop_last().skip(n))) + lines_of(log_content(logs.last())));
    }
}

proof fn lemma_first_with_cid_none(ls: Seq<Seq<u8>>, cid: Seq<char>)
    requires
        forall|i: int| 0 <= i < ls.len() ==> cid_of(#[trigger] ls[i]) != cid,
    ensures
        first_with_cid(ls, cid) is None,
    decreases ls.len(),
{
    if ls.len() > 0 {
        assert forall|i: int| 0 <= i < ls.drop_first().len() implies cid_of(
            #[trigger] ls.drop_first()[i],
        ) != cid by {
            assert(ls.drop_first()[i] == ls[i + 1]);
        }
        lemma_first_with_cid_none(ls.drop_first(), cid);
    }
}

proof fn lemma_first_with_cid_found(ls: Seq<Seq<u8>>, cid: Seq<char>)
    requires
        exists|i: int| 0 <= i < ls.len() && cid_of(#[trigger] ls[i]) == cid,
    ensures
        first_with_cid(ls, cid) matches Some(l) && cid_of(l) == cid,
    decreases ls.len(),
{
    if cid_of(ls[0]) != cid {
        let i = choose|i: int| 0 <= i < ls.len() && cid_of(#[trigger] ls[i]) == cid;
        assert(ls.drop_first()[i - 1] == ls[i]);
        lemma_first_with_cid_found(ls.drop_first(), cid);
    }
}

/// The logs after `canonical`'s record is appended to the log of `s`.
pub open spec fn logs_after_append(logs: Seq<Option<Seq<u8>>>, s: Stream, canonical: Seq<u8>) -> Seq<
    Option<Seq<u8>>,
> {
    logs.update(
        stream_index(s),
        Some(log_content(logs[stream_index(s)]) + record_bytes(canonical)),
    )
}

/// A fact appended to a complete log is found again by its content identifier,
/// and the record found has that identifier.
pub proof fn lemma_round_trip(logs: Seq<Option<Seq<u8>>>, s: Stream, canonical: Seq<u8>)
    requires
        logs.len() == STREAM_COUNT,
        is_terminated(log_content(logs[stream_index(s)])),
        is_single_line(canonical),
    ensures
        lookup(logs_after_append(logs, s, canonical), cid_of(canonical)) matches Some(l) && cid_of(l)
            == cid_of(canonical),
{
    let k = stream_index(s);
    let after = logs_after_append(logs, s, canonical);
    let old_content = log_content(logs[k]);
    lemma_append_record(old_content, canonical);
    let cur = lines_of(log_content(after[k]));
    assert(cur == lines_of(old_content).push(canonical));
    lemma_scan_lines_split(after, k + 1);
    assert(after.take(k + 1).drop_last() =~= after.take(k));
    assert(after.take(k + 1).last() == after[k]);
    let all = scan_lines(after);
    let pre = scan_lines(after.take(k));
    assert(all == (pre + cur) + scan_lines(after.skip(k + 1)));
    let at = pre.len() + cur.len() - 1;
    assert(all[at] == canonical);
    lemma_first_with_cid_found(all, cid_of(canonical));
}

/// When no stored line shares its content identifier, a fact appended to a
/// complete log is exactly the record that a lookup by that identifier returns.
pub proof fn lemma_round_trip_returns_record(
    logs: Seq<Option<Seq<u8>>>,
    s: Stream,
    canonical: Seq<u8>,
)
    requires
        logs.len() == STREAM_COUNT,
        is_terminated(log_content(logs[stream_index(s)])),
        is_single_line(canonical),
        forall|i: int|
            0 <= i < scan_lines(logs).len() ==> cid_of(#[trigger] scan_lines(logs)[i]) != cid_of(
                canonical,
            ),
    ensures
        lookup(logs_after_append(logs, s, canonical), cid_of(canonical)) == Some(canonical),
{
    let k = stream_index(s);
    let cid = cid_of(canonical);
    let after = logs_after_append(logs, s, canonical);
    let old_content = log_content(logs[k]);
    lemma_append_record(old_content, canonical);
    let old_lines = lines_of(old_content);
    let cur = lines_of(log_content(after[k]));
    assert(cur == old_lines.push(canonical));
    assert(after.take(k) =~= logs.take(k));
    let pre = scan_lines(logs.take(k));
    lemma_scan_lines_split(logs, k + 1);
    assert(logs.take(k + 1).drop_last() =~= logs.take(k));
    let before = pre + old_lines;
    assert(scan_lines(logs) == before + scan_lines(logs.skip(k + 1)));
    assert forall|i: int| 0 <= i < before.len() implies cid_of(#[trigger] before[i]) != cid by {
        assert(scan_lines(logs)[i] == before[i]);
    }
    lemma_first_with_cid_none(before, cid);
    lemma_scan_lines_split(after, k + 1);
    assert(after.take(k + 1).drop_last() =~= after.take(k));
    assert(after.take(k + 1).last() == after[k]);
    let rest = scan_lines(after.skip(k + 1));
    assert(scan_lines(after) == (pre + cur) + rest);
    assert((pre + cur) + rest =~= before + (seq![canonical] + rest));
    lemma_first_with_cid_concat(before, seq![canonical] + rest, cid);
}

/// The registry of streams seen so far, and the directory their logs live in.
pub struct LedgerManager {
    base_dir: String,
    registered: Vec<Stream>,
}

impl LedgerManager {
    /// The directory that holds the logs.
    pub closed spec fn dir(&self) -> Seq<char> {
        self.base_dir@
    }

    /// The streams registered so far.
    pub closed spec fn registry(&self) -> Set<Stream> {
        self.registered@.to_set()
    }

    /// Each stream is registered at most once.
    pub closed spec fn wf(&self) -> bool {
        self.registered@.no_duplicates()
    }

    /// A ledger rooted at `base_dir`, with no stream registered yet.
    pub fn new(base_dir: &str) -> (r: LedgerManager)
        ensures
            r.wf(),
            r.dir() == base_dir@,
            r.registry() == Set::<Stream>::empty(),
    {
        let r = LedgerManager { base_dir: base_dir.to_owned(), registered: Vec::new() };
        proof {
            assert(r.registered@.to_set() =~= Set::<Stream>::empty());
        }
        r
    }

    /// The directory that holds the logs.
    pub fn base_dir(&self) -> (r: &str)
        ensures
            r@ == self.dir(),
    {
        self.base_dir.as_str()
    }

    /// Whether `stream` has been registered.
    pub fn is_registered(&self, stream: Stream) -> (r: bool)
        ensures
            r == self.registry().contains(stream),
    {
        let mut i: usize = 0;
        while i < self.registered.len()
            invariant
                i <= self.registered@.len(),
                forall|j: int| 0 <= j < i ==> self.registered@[j] != stream,
            decreases self.registered@.len() - i,
        {
            if self.registered[i] == stream {
                return true;
            }
            i = i + 1;
        }
        false
    }

    /// Registers `stream` if it is not registered yet.
    fn register(&mut self, stream: Stream)
        requires
            old(self).wf(),
        ensures
            final(self).wf(),
            final(self).dir() == old(self).dir(),
            final(self).registry() == old(self).registry().insert(stream),
    {
        if !self.is_registered(stream) {
            self.registered.push(stream);
            proof {
                old(self).registered@.lemma_push_to_set_commute(stream);
                assert(self.registered@ == old(self).registered@.push(stream));
            }
        } else {
            proof {
                assert(old(self).registry().insert(stream) =~= old(self).registry());
            }
        }
    }

    /// Registers `stream` and returns the bytes to append to its log for the
    /// single-line record `canonical`: the record and a newline.
    pub fn append(&mut self, stream: Stream, canonical: &[u8]) -> (r: Vec<u8>)
        requires
            old(self).wf(),
            is_single_line(canonical@),
        ensures
            final(self).wf(),
            final(self).dir() == old(self).dir(),
            final(self).registry() == old(self).registry().insert(stream),
            r@ == record_bytes(canonical@),
    {
        self.register(stream);
        to_record(canonical)
    }

    /// Looks a record up by content identifier. `logs` holds the log of each
    /// stream in the fixed scan order, `None` for one never written. Every line's
    /// identifier is computed afresh; the first match wins.
    pub fn get(&self, logs: &Vec<Option<Vec<u8>>>, cid: &str) -> (r: Result<Vec<u8>, LedgerError>)
        requires
            logs@.len() == STREAM_COUNT,
        ensures
            r matches Ok(l) ==> lookup(logs.deep_view(), cid@) == Some(l@) && cid@.len() == 64
                && is_lower_hex(cid@),
            r matches Err(e) ==> lookup(logs.deep_view(), cid@) is None && (e matches LedgerError::NotFound(m) && m@ == cid@),
    {
        let ghost dv = logs.deep_view();
        assert(dv.len() == logs@.len());
        let mut i: usize = 0;
        while i < logs.len()
            invariant
                i <= logs@.len(),
                dv == logs.deep_view(),
                dv.len() == logs@.len(),
                first_with_cid(scan_lines(dv.take(i as int)), cid@) is None,
            decreases logs@.len() - i,
        {
            proof {
                assert(dv.take(i + 1).drop_last() =~= dv.take(i as int));
            }
            match &logs[i] {
                Some(content) => {
                    let ls = split_lines(content.as_slice());
                    let ghost prev = scan_lines(dv.take(i as int));
                    let ghost cur = lines_of(content@);
                    assert(content.deep_view() =~= content@);
                    assert(dv[i as int] == Some(content@));
                    let mut j: usize = 0;
                    while j < ls.len()
                        invariant
                            i < logs@.len(),
                            dv == logs.deep_view(),
                            dv.len() == logs@.len(),
                            dv[i as int] == Some(content@),
                            prev == scan_lines(dv.take(i as int)),
                            first_with_cid(prev, cid@) is None,
                            cur == lines_of(content@),
                            j <= ls@.len(),
                            ls@.len() == cur.len(),
                            forall|k: int| 0 <= k < ls@.len() ==> (#[trigger] ls@[k])@ == cur[k],
                            first_with_cid(cur.take(j as int), cid@) is None,
                        decreases ls@.len() - j,
                    {
                        let c = compute_cid(ls[j].as_slice());
                        proof {
                            lemma_first_with_cid_concat(cur.take(j as int), seq![cur[j as int]], cid@);
                            assert(seq![cur[j as int]].drop_first() =~= Seq::<Seq<u8>>::empty());
                            assert(cur.take(j + 1) =~= cur.take(j as int) + seq![cur[j as int]]);
                        }
                        if str_eq(c.as_str(), cid) {
                            proof {
                                lemma_first_with_cid_concat(prev, cur, cid@);
                                assert(cur =~= cur.take(j as int) + cur.skip(j as int));
                                lemma_first_with_cid_concat(cur.take(j as int), cur.skip(j as int), cid@);
                                assert(dv.take(i + 1).last() == dv[i as int]);
                                assert(cur.skip(j as int)[0] == cur[j as int]);
                                assert(dv.take(i + 1).drop_last() =~= dv.take(i as int));
                                assert(scan_lines(dv.take(i + 1)) == prev + cur);
                                lemma_scan_lines_split(dv, i + 1);
                                lemma_first_with_cid_concat(prev + cur, scan_lines(dv.skip(i + 1)), cid@);
                            }
                            return Ok(slice_to_vec(ls[j].as_slice()));
                        }
                        proof {
                            assert(first_with_cid(seq![cur[j as int]].drop_first(), cid@) is None);
                            assert(first_with_cid(seq![cur[j as int]], cid@) is None);
                        }
                        j = j + 1;
                    }
                    proof {
                        assert(cur.take(j as int) =~= cur);
                        lemma_first_with_cid_concat(prev, cur, cid@);
                        assert(dv.take(i + 1).last() == dv[i as int]);
                    }
                },
                None => {
                    proof {
                        assert(dv[i as int] is None);
                        assert(dv.take(i + 1).last() == dv[i as int]);
                        assert(lines_of(Seq::<u8>::empty()) =~= Seq::<Seq<u8>>::empty());
                        assert(scan_lines(dv.take(i + 1)) =~= scan_lines(dv.take(i as int)));
                    }
                },
            }
            i = i + 1;
        }
        proof {
            assert(dv.take(i as int) =~= dv);
        }
        Err(LedgerError::NotFound(cid.to_owned()))
    }

    /// The records of one stream's log, in stored order; none for a log never written.
    pub fn list_stream(&self, stored: &Option<Vec<u8>>) -> (r: Vec<Vec<u8>>)
        ensures
            r.deep_view() == lines_of(log_content(stored.deep_view())),
            stored is None ==> r@.len() == 0,
    {
        match stored {
            Some(content) => {
                assert(content.deep_view() =~= content@);
                assert(stored.deep_view() == Some(content@));
                split_lines(content.as_slice())
            },
            None => {
                let r: Vec<Vec<u8>> = Vec::new();
                assert(r.deep_view() =~= lines_of(Seq::<u8>::empty()));
                r
            },
        }
    }

    /// The number of records in each stream's log, in the fixed scan order.
    pub fn stats(&self, logs: &Vec<Option<Vec<u8>>>) -> (r: Vec<usize>)
        requires
            logs@.len() == STREAM_COUNT,
        ensures
            r@.len() == STREAM_COUNT,
            forall|i: int|
                0 <= i < STREAM_COUNT ==> r@[i] == lines_of(log_content(logs.deep_view()[i])).len(),
    {
        let mut r: Vec<usize> = Vec::new();
        let mut i: usize = 0;
        while i < logs.len()
            invariant
                i <= logs@.len(),
                r@.len() == i,
                forall|k: int|
                    0 <= k < i ==> r@[k] == lines_of(log_content(logs.deep_view()[k])).len(),
            decreases logs@.len() - i,
        {
            let n = self.list_stream(&logs[i]).len();
            r.push(n);
            i = i + 1;
        }
        r
    }
}

} // verus!
