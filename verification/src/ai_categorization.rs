//! The bookkeeping of an AI categorization run: which result each
//! transaction of a batch gets, and the running counts.

use vstd::prelude::*;
use crate::query::{int_text, push_i64};
use crate::filters::{decimal, push_decimal};

verus! {

/// Number of transactions sent to the model at once.
pub const BATCH_SIZE: usize = 5;

/// The state of one transaction's result.
#[derive(Debug, Clone, Copy, PartialEq, Eq, Structural)]
pub enum AiResultStatus {
    /// A category was suggested; waiting for review.
    Pending,
    /// No category was suggested.
    Skipped,
    /// The request for its batch failed.
    Error,
}

/// The parts of a model suggestion that decide a result.
#[derive(Debug, Clone, Copy)]
pub struct SuggestionKey {
    pub transaction_id: i64,
    pub has_category: bool,
}

/// The result recorded for one transaction of a batch.
#[derive(Debug, Clone, Copy, PartialEq, Eq, Structural)]
pub struct ResultDecision {
    pub transaction_id: i64,
    /// The suggestion it takes its category, confidence and reasoning from.
    pub suggestion: Option<usize>,
    pub status: AiResultStatus,
}

/// Counts of a run.
#[derive(Debug, Clone, Copy, PartialEq, Eq, Structural)]
pub struct Progress {
    pub processed: i64,
    pub categorized: i64,
    pub skipped: i64,
    pub errors: i64,
}

/// The first suggestion for transaction `id`, if any.
pub open spec fn first_suggestion(s: Seq<SuggestionKey>, id: i64) -> Option<int> {
    if exists|i: int| 0 <= i < s.len() && s[i].transaction_id == id {
        Some(choose|i: int| 0 <= i < s.len() && s[i].transaction_id == id && forall|j: int| 0 <= j < i ==> s[j].transaction_id != id)
    } else {
        None
    }
}

/// The result of a transaction after a successful request: pending with a
/// suggested category, skipped otherwise.
pub open spec fn decision_for(s: Seq<SuggestionKey>, id: i64) -> (Option<int>, AiResultStatus) {
    match first_suggestion(s, id) {
        Some(i) => (Some(i), if s[i].has_category { AiResultStatus::Pending } else { AiResultStatus::Skipped }),
        None => (None, AiResultStatus::Skipped),
    }
}

fn find_suggestion(s: &Vec<SuggestionKey>, id: i64) -> (res: Option<usize>)
    ensures
        match res {
            Some(i) => i < s@.len() && first_suggestion(s@, id) == Some(i as int),
            None => first_suggestion(s@, id) is None,
        },
{
    let mut i: usize = 0;
    while i < s.len()
        invariant
            i <= s@.len(),
            forall|j: int| 0 <= j < i ==> s@[j].transaction_id != id,
        decreases s@.len() - i,
    {
        if s[i].transaction_id == id {
            proof {
                assert(s@[i as int].transaction_id == id);
                let k = choose|k: int|
                    0 <= k < s@.len() && s@[k].transaction_id == id && forall|j: int| 0 <= j < k ==> s@[j].transaction_id != id;
                if k < i {
                } else if k > i {
                    assert(s@[i as int].transaction_id != id);
                }
            }
            return Some(i);
        }
        i += 1;
    }
    None
}

/// The results of a batch whose request succeeded.
pub fn decide_batch(batch_ids: &Vec<i64>, suggestions: &Vec<SuggestionKey>) -> (res: Vec<ResultDecision>)
    ensures
        res@.len() == batch_ids@.len(),
        forall|i: int|
            0 <= i < batch_ids@.len() ==> {
                let d = decision_for(suggestions@, batch_ids@[i]);
                &&& (#[trigger] res@[i]).transaction_id == batch_ids@[i]
                &&& res@[i].status == d.1
                &&& match res@[i].suggestion {
                    Some(k) => d.0 == Some(k as int),
                    None => d.0 is None,
                }
            },
{
    let mut out: Vec<ResultDecision> = Vec::new();
    let mut i: usize = 0;
    while i < batch_ids.len()
        invariant
            i <= batch_ids@.len(),
            out@.len() == i,
            forall|t: int|
                0 <= t < i ==> {
                    let d = decision_for(suggestions@, batch_ids@[t]);
                    &&& (#[trigger] out@[t]).transaction_id == batch_ids@[t]
                    &&& out@[t].status == d.1
                    &&& match out@[t].suggestion {
                        Some(k) => d.0 == Some(k as int),
                        None => d.0 is None,
                    }
                },
        decreases batch_ids@.len() - i,
    {
        let id = batch_ids[i];
        let found = find_suggestion(suggestions, id);
        let status = match found {
            Some(k) => if suggestions[k].has_category {
                AiResultStatus::Pending
            } else {
                AiResultStatus::Skipped
            },
            None => AiResultStatus::Skipped,
        };
        out.push(ResultDecision { transaction_id: id, suggestion: found, status });
        i += 1;
    }
    out
}

/// The number of decisions with the given status.
pub open spec fn count_status(d: Seq<ResultDecision>, st: AiResultStatus) -> int
    decreases d.len(),
{
    if d.len() == 0 {
        0
    } else {
        count_status(d.drop_last(), st) + if d.last().status == st { 1int } else { 0 }
    }
}

proof fn lemma_count_bound(d: Seq<ResultDecision>, st: AiResultStatus)
    ensures
        0 <= count_status(d, st) <= d.len(),
    decreases d.len(),
{
    if d.len() > 0 {
        lemma_count_bound(d.drop_last(), st);
    }
}

impl Progress {
    pub fn new() -> (res: Progress)
        ensures
            res == (Progress { processed: 0, categorized: 0, skipped: 0, errors: 0 }),
    {
        Progress { processed: 0, categorized: 0, skipped: 0, errors: 0 }
    }

    /// Counts the results of a successful batch.
    pub fn record_batch(&mut self, decisions: &Vec<ResultDecision>)
        requires
            old(self).processed + decisions@.len() <= i64::MAX,
            old(self).categorized + decisions@.len() <= i64::MAX,
            old(self).skipped + decisions@.len() <= i64::MAX,
        ensures
            final(self).processed == old(self).processed + decisions@.len(),
            final(self).categorized == old(self).categorized + count_status(decisions@, AiResultStatus::Pending),
            final(self).skipped == old(self).skipped + count_status(decisions@, AiResultStatus::Skipped),
            final(self).errors == old(self).errors,
    {
        let mut i: usize = 0;
        while i < decisions.len()
            invariant
                i <= decisions@.len(),
                old(self).processed + decisions@.len() <= i64::MAX,
                old(self).categorized + decisions@.len() <= i64::MAX,
                old(self).skipped + decisions@.len() <= i64::MAX,
                self.processed == old(self).processed + i,
                self.categorized == old(self).categorized + count_status(decisions@.take(i as int), AiResultStatus::Pending),
                self.skipped == old(self).skipped + count_status(decisions@.take(i as int), AiResultStatus::Skipped),
                self.errors == old(self).errors,
            decreases decisions@.len() - i,
        {
            assert(decisions@.take(i + 1).drop_last() =~= decisions@.take(i as int));
            proof {
                lemma_count_bound(decisions@.take(i as int), AiResultStatus::Pending);
                lemma_count_bound(decisions@.take(i as int), AiResultStatus::Skipped);
            }
            match decisions[i].status {
                AiResultStatus::Pending => {
                    self.categorized = self.categorized + 1;
                },
                AiResultStatus::Skipped => {
                    self.skipped = self.skipped + 1;
                },
                AiResultStatus::Error => {},
            }
            self.processed = self.processed + 1;
            i += 1;
        }
        assert(decisions@.take(decisions@.len() as int) =~= decisions@);
    }

    /// Counts a failed batch: every transaction in it is an error.
    pub fn record_failed_batch(&mut self, batch_len: usize)
        requires
            old(self).processed >= 0,
            old(self).errors >= 0,
            old(self).processed + batch_len <= i64::MAX,
            old(self).errors + batch_len <= i64::MAX,
        ensures
            final(self).processed == old(self).processed + batch_len,
            final(self).errors == old(self).errors + batch_len,
            final(self).categorized == old(self).categorized,
            final(self).skipped == old(self).skipped,
    {
        self.processed = self.processed + batch_len as i64;
        self.errors = self.errors + batch_len as i64;
    }
}

/// `[start, end)` of each batch of at most `size` transactions.
pub fn batch_bounds(total: usize, size: usize) -> (res: Vec<(usize, usize)>)
    requires
        size > 0,
    ensures
        res@.len() == (if total == 0 { 0 } else { (total - 1) / (size as int) + 1 }),
        forall|i: int|
            0 <= i < res@.len() ==> (#[trigger] res@[i]).0 == i * size && res@[i].1 == (if (i + 1) * size < total {
                (i + 1) * size
            } else {
                total as int
            }),
{
    let mut out: Vec<(usize, usize)> = Vec::new();
    let mut start: usize = 0;
    let ghost mut k: int = 0;
    while start < total
        invariant
            size > 0,
            start <= total,
            k >= 0,
            start < total ==> start == k * size,
            out@.len() == k,
            start < total ==> k <= (total - 1) / (size as int),
            start == total ==> k == (if total == 0 { 0 } else { (total - 1) / (size as int) + 1 }),
            forall|i: int|
                0 <= i < out@.len() ==> (#[trigger] out@[i]).0 == i * size && out@[i].1 == (if (i + 1) * size < total {
                    (i + 1) * size
                } else {
                    total as int
                }),
        decreases total - start,
    {
        let end = if total - start > size { start + size } else { total };
        out.push((start, end));
        proof {
            assert((k + 1) * size == k * size + size) by (nonlinear_arith);
            k = k + 1;
            if total - start > size {
                assert(k * size < total);
                assert(k <= (total - 1) / (size as int)) by (nonlinear_arith)
                    requires
                        k * size < total,
                        size > 0,
                        k >= 0,
                ;
            } else {
                assert(k == (total - 1) / (size as int) + 1) by (nonlinear_arith)
                    requires
                        (k - 1) * size < total,
                        k * size >= total,
                        size > 0,
                        k >= 1,
                ;
            }
        }
        start = end;
    }
    out
}

/// The error recorded for a failed batch.
pub open spec fn batch_error_text(first: Option<i64>, last: Option<i64>, err: Seq<char>) -> Seq<char> {
    "Batch error (transactions "@ + int_text(match first {
        Some(f) => f as int,
        None => 0,
    }) + "-"@ + int_text(match last {
        Some(l) => l as int,
        None => 0,
    }) + "): "@ + err
}

pub fn batch_error_message(first: Option<i64>, last: Option<i64>, err: &str) -> (res: String)
    ensures
        res@ == batch_error_text(first, last, err@),
{
    let mut s = String::from_str("Batch error (transactions ");
    push_i64(&mut s, match first {
        Some(f) => f,
        None => 0,
    });
    s.append("-");
    push_i64(&mut s, match last {
        Some(l) => l,
        None => 0,
    });
    s.append("): ");
    s.append(err);
    s
}

/// The parameters logged with a request: `batch_size=N, model=M`.
pub fn request_params(batch_len: usize, model: &str) -> (res: String)
    ensures
        res@ == "batch_size="@ + decimal(batch_len as nat) + ", model="@ + model@,
{
    let mut s = String::from_str("batch_size=");
    push_decimal(&mut s, batch_len as u64);
    s.append(", model=");
    s.append(model);
    s
}


/// What an AI categorization run does next.
#[derive(Debug, Clone, Copy, PartialEq, Eq, Structural)]
pub enum RunStep {
    /// Send the transactions at positions `start..end` to the model.
    Request { start: usize, end: usize },
    /// Every transaction has been sent.
    Finish,
}

/// An AI categorization run over the transactions `ids`, in batches of
/// `BATCH_SIZE`: the position of the next batch, the counts and the batch
/// errors so far.
pub struct CategorizationRun {
    pub ids: Vec<i64>,
    pub next: usize,
    pub progress: Progress,
    pub errors: Vec<String>,
}

/// The end of the batch that starts at `start` among `len` transactions.
pub open spec fn batch_end(start: int, len: int) -> int {
    if start + BATCH_SIZE < len {
        start + BATCH_SIZE
    } else {
        len
    }
}

impl CategorizationRun {
    pub open spec fn wf(&self) -> bool {
        &&& self.ids@.len() <= i64::MAX
        &&& self.next <= self.ids@.len()
        &&& self.progress.processed == self.next
        &&& 0 <= self.progress.categorized <= self.progress.processed
        &&& 0 <= self.progress.skipped <= self.progress.processed
        &&& 0 <= self.progress.errors <= self.progress.processed
    }

    /// A run over `ids`, nothing sent yet.
    pub fn start(ids: Vec<i64>) -> (res: CategorizationRun)
        requires
            ids@.len() <= i64::MAX,
        ensures
            res.wf(),
            res.ids == ids,
            res.next == 0,
            res.progress == (Progress { processed: 0, categorized: 0, skipped: 0, errors: 0 }),
            res.errors@.len() == 0,
    {
        CategorizationRun { ids, next: 0, progress: Progress::new(), errors: Vec::new() }
    }

    /// The next batch to send, or the end of the run.
    pub fn next_step(&self) -> (res: RunStep)
        requires
            self.wf(),
        ensures
            res == (if self.next < self.ids@.len() {
                RunStep::Request {
                    start: self.next,
                    end: batch_end(self.next as int, self.ids@.len() as int) as usize,
                }
            } else {
                RunStep::Finish
            }),
    {
        if self.next < self.ids.len() {
            let end = if self.ids.len() - self.next > BATCH_SIZE {
                self.next + BATCH_SIZE
            } else {
                self.ids.len()
            };
            RunStep::Request { start: self.next, end }
        } else {
            RunStep::Finish
        }
    }

    fn batch(&self) -> (res: Vec<i64>)
        requires
            self.wf(),
        ensures
            res@ == self.ids@.subrange(self.next as int, batch_end(self.next as int, self.ids@.len() as int)),
    {
        let end = if self.ids.len() - self.next > BATCH_SIZE {
            self.next + BATCH_SIZE
        } else {
            self.ids.len()
        };
        let mut out: Vec<i64> = Vec::new();
        let mut k = self.next;
        while k < end
            invariant
                self.wf(),
                self.next <= k <= end,
                end == batch_end(self.next as int, self.ids@.len() as int),
                out@ == self.ids@.subrange(self.next as int, k as int),
            decreases end - k,
        {
            out.push(self.ids[k]);
            assert(out@ =~= self.ids@.subrange(self.next as int, k + 1));
            k += 1;
        }
        out
    }

    /// The model answered for the current batch with `suggestions`: the
    /// result of each transaction of the batch, now counted; the run moves
    /// to the next batch.
    #[verifier::spinoff_prover]
    pub fn answered(&mut self, suggestions: &Vec<SuggestionKey>) -> (res: Vec<ResultDecision>)
        requires
            old(self).wf(),
            old(self).next < old(self).ids@.len(),
        ensures
            final(self).wf(),
            final(self).ids == old(self).ids,
            final(self).errors == old(self).errors,
            final(self).next == batch_end(old(self).next as int, old(self).ids@.len() as int),
            ({
                let batch = old(self).ids@.subrange(old(self).next as int, final(self).next as int);
                &&& res@.len() == batch.len()
                &&& forall|i: int|
                    0 <= i < batch.len() ==> {
                        let d = decision_for(suggestions@, batch[i]);
                        &&& (#[trigger] res@[i]).transaction_id == batch[i]
                        &&& res@[i].status == d.1
                        &&& match res@[i].suggestion {
                            Some(k) => d.0 == Some(k as int),
                            None => d.0 is None,
                        }
                    }
            }),
            final(self).progress.processed == old(self).progress.processed + res@.len(),
            final(self).progress.categorized == old(self).progress.categorized + count_status(res@, AiResultStatus::Pending),
            final(self).progress.skipped == old(self).progress.skipped + count_status(res@, AiResultStatus::Skipped),
            final(self).progress.errors == old(self).progress.errors,
    {
        let batch = self.batch();
        let nx = self.next;
        let end = if self.ids.len() - nx > BATCH_SIZE {
            nx + BATCH_SIZE
        } else {
            self.ids.len()
        };
        let n = batch.len();
        assert(batch@ == self.ids@.subrange(nx as int, end as int));
        let decisions = decide_batch(&batch, suggestions);
        proof {
            lemma_count_bound(decisions@, AiResultStatus::Pending);
            lemma_count_bound(decisions@, AiResultStatus::Skipped);
        }
        let mut p = self.progress;
        p.record_batch(&decisions);
        self.progress = p;
        self.next = end;
        decisions
    }

    /// The request for the current batch failed with `err`: every
    /// transaction of the batch counts as an error, the batch error is
    /// recorded, and the run moves to the next batch.
    pub fn failed(&mut self, err: &str)
        requires
            old(self).wf(),
            old(self).next < old(self).ids@.len(),
        ensures
            final(self).wf(),
            final(self).ids == old(self).ids,
            final(self).next == batch_end(old(self).next as int, old(self).ids@.len() as int),
            ({
                let batch = old(self).ids@.subrange(old(self).next as int, final(self).next as int);
                &&& final(self).progress.processed == old(self).progress.processed + batch.len()
                &&& final(self).progress.errors == old(self).progress.errors + batch.len()
                &&& final(self).progress.categorized == old(self).progress.categorized
                &&& final(self).progress.skipped == old(self).progress.skipped
                &&& final(self).errors@.len() == old(self).errors@.len() + 1
                &&& forall|i: int| 0 <= i < old(self).errors@.len() ==> final(self).errors@[i] == old(self).errors@[i]
                &&& final(self).errors@.last()@ == batch_error_text(Some(batch[0]), Some(batch.last()), err@)
            }),
    {
        let batch = self.batch();
        let nx = self.next;
        let end = if self.ids.len() - nx > BATCH_SIZE {
            nx + BATCH_SIZE
        } else {
            self.ids.len()
        };
        let n = batch.len();
        assert(batch@ == self.ids@.subrange(nx as int, end as int));
        let m = batch_error_message(Some(batch[0]), Some(batch[n - 1]), err);
        self.errors.push(m);
        let mut p = self.progress;
        p.record_failed_batch(n);
        self.progress = p;
        self.next = end;
    }
}
} // verus!
