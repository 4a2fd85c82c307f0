//! Streaming byte-pattern scanner.
//!
//! Finds the first occurrence of a byte pattern in a stream of unbounded
//! size using a constant, pattern-size-proportional amount of memory. The
//! stream is consumed chunk by chunk; a carry region holds the tail of the
//! previous chunk so a match straddling a chunk boundary is not missed.

use vstd::prelude::*;
use vstd::slice::slice_subrange;

use crate::errors::GuiError;

verus! {

/// The pattern occurs in `data` at offset `k`.
pub open spec fn match_at(data: Seq<u8>, pat: Seq<u8>, k: int) -> bool {
    &&& 0 <= k
    &&& k + pat.len() <= data.len()
    &&& forall|i: int| 0 <= i < pat.len() ==> data[k + i] == pat[i]
}

/// The pattern occurs at offset `k` and the whole occurrence lies inside
/// the first `limit` bytes of `data`.
pub open spec fn match_within(data: Seq<u8>, pat: Seq<u8>, limit: int, k: int) -> bool {
    &&& match_at(data, pat, k)
    &&& k + pat.len() <= limit
}

/// `k` is the first occurrence of the pattern inside the scan limit.
pub open spec fn is_first_match(data: Seq<u8>, pat: Seq<u8>, limit: int, k: int) -> bool {
    &&& match_within(data, pat, limit, k)
    &&& forall|j: int| 0 <= j < k ==> !match_within(data, pat, limit, j)
}

/// The scan limit used for a request: `scan_amount` bytes when one was
/// given, otherwise effectively unbounded.
pub open spec fn scan_limit(scan_amount: Option<usize>) -> int {
    match scan_amount {
        Some(m) => m as int,
        None => usize::MAX as int,
    }
}

/// The load-buffer size the scanner picks for a pattern: the baseline is
/// doubled until a single buffer fill can hold four pattern lengths.
pub open spec fn grown_buffer_size(size: nat, need: nat) -> nat
    decreases (if size < need { need - size } else { 0int }),
{
    if size < 1 || size >= need {
        size
    } else {
        grown_buffer_size(size * 2, need)
    }
}

/// A scan limit of zero admits no match at all for a non-empty pattern.
/// (One half of the edge-case policy: `max_scan_bytes = 0` always yields
/// "no match", whatever the file holds.)
pub proof fn lemma_zero_limit_no_match(data: Seq<u8>, pat: Seq<u8>, k: int)
    requires
        pat.len() >= 1,
    ensures
        !match_within(data, pat, 0, k),
{
}

/// A pattern longer than the data admits no match at all (a pattern longer
/// than the entire file yields "no match", never an error).
pub proof fn lemma_pattern_longer_than_data(data: Seq<u8>, pat: Seq<u8>, limit: int, k: int)
    requires
        pat.len() > data.len(),
    ensures
        !match_within(data, pat, limit, k),
{
}

/// The first match inside a scan limit is unique.
pub proof fn lemma_first_match_unique(data: Seq<u8>, pat: Seq<u8>, limit: int, k1: int, k2: int)
    requires
        is_first_match(data, pat, limit, k1),
        is_first_match(data, pat, limit, k2),
    ensures
        k1 == k2,
{
    if k1 < k2 {
        assert(!match_within(data, pat, limit, k1));
    }
    if k2 < k1 {
        assert(!match_within(data, pat, limit, k2));
    }
}

/// Length of the carry region for a pattern of length `p` once `seen_len`
/// bytes of the stream have been consumed: the last `p - 1` bytes, or the
/// whole stream while it is still shorter than that.
pub open spec fn carry_len_spec(seen_len: int, p: int) -> int {
    if seen_len < p - 1 {
        seen_len
    } else {
        p - 1
    }
}

/// A pattern occurrence transfers between a stream and one of its
/// prefixes as long as the occurrence lies inside the prefix.
proof fn lemma_match_in_prefix(data: Seq<u8>, pat: Seq<u8>, m: int, k: int)
    requires
        0 <= m <= data.len(),
        k + pat.len() <= m,
    ensures
        match_at(data.take(m), pat, k) == match_at(data, pat, k),
{
    if 0 <= k {
        let pre = data.take(m);
        assert forall|i: int| 0 <= i < pat.len() implies pre[k + i] == #[trigger] data[k + i] by {
            assert(0 <= k + i < m);
        }
    }
}

/// A pattern occurrence transfers between a stream and a suffix window of
/// it, shifting the offset by the window's base.
proof fn lemma_match_in_suffix(whole: Seq<u8>, buf: Seq<u8>, pat: Seq<u8>, base: int, j: int)
    requires
        0 <= base <= whole.len(),
        buf == whole.skip(base),
        0 <= j,
    ensures
        match_at(buf, pat, j) == match_at(whole, pat, base + j),
{
    assert forall|i: int| 0 <= i < pat.len() && j + i < buf.len() implies #[trigger] buf[j + i]
        == whole[base + j + i] by {
        assert(buf[j + i] == whole.skip(base)[j + i]);
    }
    assert(buf.len() == whole.len() - base);
}

/// Compare the pattern against `buf` at offset `k`.
fn is_match_at(buf: &[u8], pat: &[u8], k: usize) -> (r: bool)
    requires
        k + pat@.len() <= buf@.len(),
    ensures
        r == match_at(buf@, pat@, k as int),
{
    let blen: usize = buf.len();
    let plen: usize = pat.len();
    let mut i: usize = 0;
    while i < plen
        invariant
            blen == buf@.len(),
            plen == pat@.len(),
            0 <= i <= plen,
            k + plen <= blen,
            forall|j: int| 0 <= j < i ==> buf@[k + j] == pat@[j],
        decreases plen - i,
    {
        if buf[k + i] != pat[i] {
            assert(!match_at(buf@, pat@, k as int)) by {
                assert(buf@[k + i as int] != pat@[i as int]);
            }
            return false;
        }
        i = i + 1;
    }
    true
}

/// Find the leftmost occurrence of the pattern anywhere in `buf`.
fn find_in(buf: &[u8], pat: &[u8]) -> (r: Option<usize>)
    requires
        pat@.len() >= 1,
    ensures
        match r {
            Some(j) => {
                &&& match_at(buf@, pat@, j as int)
                &&& forall|t: int| 0 <= t < j ==> !match_at(buf@, pat@, t)
            },
            None => forall|t: int| !match_at(buf@, pat@, t),
        },
{
    if buf.len() < pat.len() {
        return None;
    }
    let end: usize = buf.len() - pat.len();
    let mut k: usize = 0;
    while k <= end
        invariant
            pat@.len() >= 1,
            buf@.len() <= usize::MAX,
            end == buf@.len() - pat@.len(),
            0 <= k <= end + 1,
            forall|t: int| 0 <= t < k ==> !match_at(buf@, pat@, t),
        decreases end + 1 - k,
    {
        if is_match_at(buf, pat, k) {
            return Some(k);
        }
        k = k + 1;
    }
    None
}

/// The scanner's incremental state. The stream is handed over chunk by
/// chunk through [`ScanState::feed`]; the state keeps only the pattern,
/// the carry region and counters, never the stream itself, so memory use
/// is proportional to the pattern alone.
pub struct ScanState {
    pattern: Vec<u8>,
    carry: Vec<u8>,
    consumed: usize,
    limit: usize,
    outcome: Option<usize>,
    done: bool,
    seen: Ghost<Seq<u8>>,
}

impl ScanState {
    /// The pattern being searched for.
    pub closed spec fn pattern_spec(&self) -> Seq<u8> {
        self.pattern@
    }

    /// Every byte fed so far, oldest first.
    pub closed spec fn seen_spec(&self) -> Seq<u8> {
        self.seen@
    }

    /// The scan limit: occurrences must lie inside this many leading bytes.
    pub closed spec fn limit_spec(&self) -> int {
        self.limit as int
    }

    /// Whether the outcome is decided (a match found, or the limit ruled
    /// every further occurrence out).
    pub closed spec fn done_spec(&self) -> bool {
        self.done
    }

    /// Well-formedness: counters track the stream, the carry region holds
    /// the stream's tail, and the decided/undecided split is sound.
    pub closed spec fn wf(&self) -> bool {
        let p = self.pattern@.len() as int;
        let n = self.seen@.len() as int;
        &&& p >= 1
        &&& self.consumed == n
        &&& if self.done {
            match self.outcome {
                Some(k) => is_first_match(self.seen@, self.pattern@, self.limit as int, k as int),
                None => n >= self.limit && (forall|k: int|
                    !match_within(self.seen@, self.pattern@, self.limit as int, k)),
            }
        } else {
            &&& self.outcome is None
            &&& self.carry@ == self.seen@.skip(n - carry_len_spec(n, p))
            &&& forall|k: int| !match_at(self.seen@, self.pattern@, k)
        }
    }

    /// Start a scan. An empty pattern is an input-validation error, not a
    /// "no match"; a scan limit of zero is legal and decides the outcome
    /// ("no match") before any byte is read.
    pub fn new(search_bytes: &[u8], scan_amount: Option<usize>) -> (r: Result<ScanState, GuiError>)
        ensures
            search_bytes@.len() == 0 <==> r is Err,
            r is Err ==> r->Err_0 == GuiError::InvalidInput,
            r is Ok ==> {
                let s = r->Ok_0;
                &&& s.wf()
                &&& s.pattern_spec() == search_bytes@
                &&& s.seen_spec() == Seq::<u8>::empty()
                &&& s.limit_spec() == scan_limit(scan_amount)
            },
    {
        if search_bytes.len() < 1 {
            return Err(GuiError::InvalidInput);
        }
        let limit: usize = match scan_amount {
            Some(m) => m,
            None => usize::MAX,
        };
        let mut pattern: Vec<u8> = Vec::new();
        let mut i: usize = 0;
        while i < search_bytes.len()
            invariant
                0 <= i <= search_bytes@.len(),
                search_bytes@.len() <= usize::MAX,
                pattern@ == search_bytes@.take(i as int),
            decreases search_bytes@.len() - i,
        {
            pattern.push(search_bytes[i]);
            i = i + 1;
            proof {
                assert(pattern@ =~= search_bytes@.take(i as int));
            }
        }
        proof {
            assert(pattern@ =~= search_bytes@);
        }
        let done: bool = limit == 0;
        proof {
            assert(Seq::<u8>::empty().skip(0) =~= Seq::<u8>::empty());
        }
        Ok(ScanState {
            pattern,
            carry: Vec::new(),
            consumed: 0,
            limit,
            outcome: None,
            done,
            seen: Ghost(Seq::empty()),
        })
    }

    /// Whether the outcome is decided; once it is, no further bytes are
    /// needed and [`ScanState::found_offset`] may be read.
    pub fn finished(&self) -> (r: bool)
        ensures
            r == self.done_spec(),
    {
        self.done
    }

    /// The decided outcome: the 0-based offset of the first occurrence of
    /// the pattern that lies wholly inside the scan limit, or `None` when
    /// no such occurrence can exist in any continuation of the stream.
    pub fn found_offset(&self) -> (r: Option<usize>)
        requires
            self.wf(),
            self.done_spec(),
        ensures
            match r {
                Some(k) => is_first_match(
                    self.seen_spec(),
                    self.pattern_spec(),
                    self.limit_spec(),
                    k as int,
                ),
                None => {
                    &&& self.seen_spec().len() >= self.limit_spec()
                    &&& forall|k: int|
                        !match_within(self.seen_spec(), self.pattern_spec(), self.limit_spec(), k)
                },
            },
    {
        self.outcome
    }

    /// Hand the scanner the next chunk of the stream.
    pub fn feed(&mut self, chunk: &[u8])
        requires
            old(self).wf(),
            !old(self).done_spec(),
            old(self).seen_spec().len() + chunk@.len() <= usize::MAX,
        ensures
            final(self).wf(),
            final(self).seen_spec() == old(self).seen_spec() + chunk@,
            final(self).pattern_spec() == old(self).pattern_spec(),
            final(self).limit_spec() == old(self).limit_spec(),
    {
        let ghost old_seen = self.seen@;
        let ghost pat = self.pattern@;
        let ghost p = self.pattern@.len() as int;
        let old_consumed: usize = self.consumed;
        let clen: usize = self.carry.len();
        let base: usize = old_consumed - clen;

        // The working buffer: carry region, then the fresh chunk.
        let mut buf: Vec<u8> = Vec::new();
        let mut i: usize = 0;
        while i < clen
            invariant
                0 <= i <= clen,
                clen == self.carry@.len(),
                self.carry@.len() <= usize::MAX,
                buf@ == self.carry@.take(i as int),
            decreases clen - i,
        {
            buf.push(self.carry[i]);
            i = i + 1;
            proof {
                assert(buf@ =~= self.carry@.take(i as int));
            }
        }
        proof {
            assert(buf@ =~= self.carry@);
        }
        let mut j: usize = 0;
        while j < chunk.len()
            invariant
                0 <= j <= chunk@.len(),
                chunk@.len() <= usize::MAX,
                buf@ == self.carry@ + chunk@.take(j as int),
            decreases chunk@.len() - j,
        {
            buf.push(chunk[j]);
            j = j + 1;
            proof {
                assert(buf@ =~= self.carry@ + chunk@.take(j as int));
            }
        }
        proof {
            assert(buf@ =~= self.carry@ + chunk@);
        }

        let ghost new_seen = old_seen + chunk@;
        self.seen = Ghost(new_seen);
        self.consumed = old_consumed + chunk.len();

        proof {
            assert(buf@ =~= new_seen.skip(base as int)) by {
                assert forall|x: int| 0 <= x < buf@.len() implies buf@[x] == new_seen[base
                    + x] by {
                    if x < clen {
                        assert(self.carry@[x] == old_seen[old_seen.len() - clen + x]);
                    }
                }
            }
        }

        let r = find_in(buf.as_slice(), self.pattern.as_slice());
        match r {
            Some(found) => {
                // Absolute offset of the leftmost occurrence overall.
                let abs: usize = base + found;
                proof {
                    lemma_match_in_suffix(new_seen, buf@, pat, base as int, found as int);
                    assert forall|t: int| 0 <= t < abs implies !match_at(new_seen, pat, t) by {
                        if t >= base {
                            lemma_match_in_suffix(new_seen, buf@, pat, base as int, t - base);
                        } else {
                            // Any occurrence left of the window lies inside
                            // the already-examined stream.
                            assert(clen == carry_len_spec(old_seen.len() as int, p));
                            if match_at(new_seen, pat, t) {
                                assert(t + p <= old_seen.len());
                                lemma_match_in_prefix(new_seen, pat, old_seen.len() as int, t);
                                assert(new_seen.take(old_seen.len() as int) =~= old_seen);
                            }
                        }
                    }
                }
                if self.pattern.len() <= self.limit && abs <= self.limit - self.pattern.len() {
                    self.outcome = Some(abs);
                    self.done = true;
                } else {
                    // The leftmost occurrence already overruns the scan
                    // limit, so no occurrence within it can ever exist.
                    self.outcome = None;
                    self.done = true;
                    proof {
                        assert(abs + p <= new_seen.len());
                        assert forall|k: int| !match_within(new_seen, pat, self.limit as int, k) by {
                            if match_within(new_seen, pat, self.limit as int, k) {
                                assert(k >= abs);
                                assert(k + p <= self.limit as int);
                                assert(abs + p > self.limit as int);
                            }
                        }
                    }
                }
            }
            None => {
                proof {
                    assert forall|t: int| !match_at(new_seen, pat, t) by {
                        if match_at(new_seen, pat, t) {
                            if t >= base {
                                lemma_match_in_suffix(new_seen, buf@, pat, base as int, t - base);
                            } else {
                                assert(clen == carry_len_spec(old_seen.len() as int, p));
                                assert(t + p <= old_seen.len());
                                lemma_match_in_prefix(new_seen, pat, old_seen.len() as int, t);
                                assert(new_seen.take(old_seen.len() as int) =~= old_seen);
                            }
                        }
                    }
                }
                if self.consumed >= self.limit {
                    self.outcome = None;
                    self.done = true;
                } else {
                    // Keep the stream's tail for the next chunk.
                    let plen: usize = self.pattern.len();
                    let ncl: usize = if self.consumed < plen - 1 {
                        self.consumed
                    } else {
                        plen - 1
                    };
                    let start: usize = buf.len() - ncl;
                    let mut carry: Vec<u8> = Vec::new();
                    let mut t: usize = 0;
                    while t < ncl
                        invariant
                            0 <= t <= ncl,
                            start + ncl == buf@.len(),
                            buf@.len() <= usize::MAX,
                            carry@ == buf@.subrange(start as int, start + t),
                        decreases ncl - t,
                    {
                        carry.push(buf[start + t]);
                        t = t + 1;
                        proof {
                            assert(carry@ =~= buf@.subrange(start as int, start + t));
                        }
                    }
                    self.carry = carry;
                    proof {
                        assert(self.carry@ =~= new_seen.skip(
                            new_seen.len() - carry_len_spec(new_seen.len() as int, p),
                        ));
                    }
                }
            }
        }
    }
}


/// What a whole scan returns on success: the offset of the first
/// occurrence inside the scan limit, or `None` when there is none.
pub open spec fn scan_result_ok(
    data: Seq<u8>,
    pat: Seq<u8>,
    scan_amount: Option<usize>,
    r: Option<usize>,
) -> bool {
    match r {
        Some(k) => is_first_match(data, pat, scan_limit(scan_amount), k as int),
        None => forall|k: int| !match_within(data, pat, scan_limit(scan_amount), k),
    }
}

/// What a whole scan returns: an empty pattern is rejected as invalid
/// input, and every non-empty pattern yields the exact first-match
/// outcome.
pub open spec fn scan_outcome_ok(
    data: Seq<u8>,
    pat: Seq<u8>,
    scan_amount: Option<usize>,
    r: Result<Option<usize>, GuiError>,
) -> bool {
    match r {
        Ok(res) => pat.len() >= 1 && scan_result_ok(data, pat, scan_amount, res),
        Err(e) => pat.len() == 0 && e == GuiError::InvalidInput,
    }
}

/// Pick the load-buffer size for a pattern: a power-of-two multiple of
/// the 8 KiB baseline, doubled until it holds at least four pattern
/// lengths, so a single buffer fill can never be smaller than the
/// searchable comparison window.
pub fn compute_buffer_size(pattern_len: usize) -> (r: usize)
    requires
        pattern_len <= usize::MAX / 8,
    ensures
        r == grown_buffer_size(8192nat, (4 * pattern_len) as nat),
        r >= 8192,
        r >= 4 * pattern_len,
        r == 8192 || r < 8 * pattern_len,
{
    let need: usize = 4 * pattern_len;
    let mut size: usize = 8 * 1024;
    while size < need
        invariant
            size >= 8192,
            need == 4 * pattern_len,
            need <= usize::MAX / 2,
            size == 8192 || size < 2 * need,
            grown_buffer_size(size as nat, need as nat) == grown_buffer_size(
                8192nat,
                need as nat,
            ),
        decreases (if size < need { need - size } else { 0int }),
    {
        size = size * 2;
    }
    size
}

/// Scan an in-memory byte sequence, consuming it in chunks of the given
/// size. The outcome is a function of the data, the pattern and the scan
/// limit alone: the chunk size never shows in it, so any two buffer
/// sizes agree on every input.
pub fn scan_bytes_chunked(
    data: &[u8],
    search_bytes: &[u8],
    scan_amount: Option<usize>,
    chunk_size: usize,
) -> (r: Result<Option<usize>, GuiError>)
    requires
        chunk_size >= 1,
    ensures
        scan_outcome_ok(data@, search_bytes@, scan_amount, r),
{
    let mut state = match ScanState::new(search_bytes, scan_amount) {
        Ok(s) => s,
        Err(e) => {
            return Err(e);
        },
    };
    let n: usize = data.len();
    let ghost pat = search_bytes@;
    let ghost limit = scan_limit(scan_amount);
    let mut i: usize = 0;
    proof {
        assert(data@.take(0) =~= Seq::<u8>::empty());
    }
    while i < n && !state.finished()
        invariant
            n == data@.len(),
            0 <= i <= n,
            state.wf(),
            state.pattern_spec() == pat,
            state.limit_spec() == limit,
            state.seen_spec() == data@.take(i as int),
            chunk_size >= 1,
        decreases n - i,
    {
        let next: usize = if n - i < chunk_size {
            n
        } else {
            i + chunk_size
        };
        let chunk = slice_subrange(data, i, next);
        state.feed(chunk);
        proof {
            assert(data@.take(i as int) + data@.subrange(i as int, next as int) =~= data@.take(
                next as int,
            ));
        }
        i = next;
    }
    if state.finished() {
        let r = state.found_offset();
        proof {
            let m = i as int;
            assert(state.seen_spec() == data@.take(m));
            match r {
                Some(k) => {
                    lemma_match_in_prefix(data@, pat, m, k as int);
                    assert forall|j: int| 0 <= j < k implies !match_within(data@, pat, limit, j) by {
                        assert(!match_within(data@.take(m), pat, limit, j));
                        if j + pat.len() <= m {
                            lemma_match_in_prefix(data@, pat, m, j);
                        } else {
                            assert(j + pat.len() > k + pat.len());
                        }
                    }
                },
                None => {
                    assert forall|k: int| !match_within(data@, pat, limit, k) by {
                        if match_within(data@, pat, limit, k) {
                            assert(k + pat.len() <= limit <= m);
                            lemma_match_in_prefix(data@, pat, m, k);
                            assert(match_within(data@.take(m), pat, limit, k));
                        }
                    }
                },
            }
        }
        Ok(r)
    } else {
        proof {
            assert(data@.take(n as int) =~= data@);
        }
        Ok(None)
    }
}


/// Law (buffer-size independence): the scan outcome is pinned by the
/// data, the pattern and the scan limit alone. Any two results that
/// meet the scan contract are equal, so scans over the same file agree
/// whatever load-buffer or chunk size each of them used.
pub proof fn lemma_scan_result_unique(
    data: Seq<u8>,
    pat: Seq<u8>,
    scan_amount: Option<usize>,
    r1: Option<usize>,
    r2: Option<usize>,
)
    requires
        scan_result_ok(data, pat, scan_amount, r1),
        scan_result_ok(data, pat, scan_amount, r2),
    ensures
        r1 == r2,
{
    let limit = scan_limit(scan_amount);
    match (r1, r2) {
        (Some(k1), Some(k2)) => {
            lemma_first_match_unique(data, pat, limit, k1 as int, k2 as int);
        },
        (Some(k1), None) => {
            assert(!match_within(data, pat, limit, k1 as int));
        },
        (None, Some(k2)) => {
            assert(!match_within(data, pat, limit, k2 as int));
        },
        (None, None) => {},
    }
}

/// Scan an in-memory byte sequence for the first occurrence of a byte
/// pattern, using the scanner's own load-buffer sizing. Offsets are
/// 0-based byte positions from the start of the data.
pub fn scan_bytes(data: &[u8], search_bytes: &[u8], scan_amount: Option<usize>) -> (r: Result<
    Option<usize>,
    GuiError,
>)
    requires
        search_bytes@.len() <= usize::MAX / 8,
    ensures
        scan_outcome_ok(data@, search_bytes@, scan_amount, r),
{
    let chunk_size = compute_buffer_size(search_bytes.len());
    scan_bytes_chunked(data, search_bytes, scan_amount, chunk_size)
}

} // verus!
