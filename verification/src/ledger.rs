//! The append-only transaction ledger.
//!
//! Every state-changing operation appends one immutable record. Record ids
//! are assigned from a counter that always equals the number of records, so
//! ids start at 0, are gapless, and increase by exactly one per record.

use vstd::prelude::*;

use crate::types::Identity;

verus! {

/// One immutable ledger record.
#[derive(Debug)]
pub struct Transaction {
    /// The kind tag: "transfer", "mint", "approve", "upload", ...
    pub kind: String,
    pub timestamp: u64,
    /// The subject token, or 0 for collection-level events.
    pub token_id: u64,
    pub from: Identity,
    pub to: Identity,
    pub memo: Option<Vec<u8>>,
    /// Free-text detail about the operation.
    pub operation: String,
    pub transaction_id: u64,
}

/// The mathematical content of a `Transaction`.
pub struct TransactionView {
    pub kind: Seq<char>,
    pub timestamp: u64,
    pub token_id: u64,
    pub from: Identity,
    pub to: Identity,
    pub memo: Option<Seq<u8>>,
    pub operation: Seq<char>,
    pub transaction_id: u64,
}

impl DeepView for Transaction {
    type V = TransactionView;

    open spec fn deep_view(&self) -> TransactionView {
        TransactionView {
            kind: self.kind@,
            timestamp: self.timestamp,
            token_id: self.token_id,
            from: self.from,
            to: self.to,
            memo: match self.memo {
                Some(m) => Some(m@),
                None => None,
            },
            operation: self.operation@,
            transaction_id: self.transaction_id,
        }
    }
}

impl Transaction {
    /// A deep copy, equal to the original in view.
    pub fn duplicate(&self) -> (r: Transaction)
        ensures
            r.deep_view() == self.deep_view(),
    {
        let memo: Option<Vec<u8>> = match &self.memo {
            None => None,
            Some(m) => {
                let mut copy: Vec<u8> = Vec::new();
                let mut i: usize = 0;
                while i < m.len()
                    invariant
                        0 <= i <= m@.len(),
                        copy@ == m@.take(i as int),
                    decreases m@.len() - i,
                {
                    copy.push(m[i]);
                    assert(copy@ =~= m@.take(i + 1));
                    i += 1;
                }
                assert(copy@ =~= m@);
                Some(copy)
            },
        };
        Transaction {
            kind: self.kind.clone(),
            timestamp: self.timestamp,
            token_id: self.token_id,
            from: self.from,
            to: self.to,
            memo,
            operation: self.operation.clone(),
            transaction_id: self.transaction_id,
        }
    }
}

/// A range query over the ledger.
#[derive(Clone, Copy, Debug, PartialEq, Eq, Structural)]
pub struct GetTransactionsRequest {
    /// Start index, inclusive; 0 when absent.
    pub start: Option<u64>,
    /// Maximum number of records to return; 10 when absent, capped at 100.
    pub length: Option<u16>,
}

/// The answer to a range query.
#[derive(Debug)]
pub struct GetTransactionsResponse {
    pub transactions: Vec<Transaction>,
    /// Total number of records the ledger holds.
    pub total: u64,
}

/// The most records one range query returns.
pub const MAX_TRANSACTION_PAGE: u16 = 100;

/// The page size used when a range query names none.
pub const DEFAULT_TRANSACTION_PAGE: u16 = 10;

/// The append-only ledger with its id counter.
#[derive(Debug)]
pub struct TransactionLog {
    pub transactions: Vec<Transaction>,
    /// The id the next record will get; always the number of records held.
    pub next_id: u64,
}

/// The records a range query must return: the `count`-record window of `log`
/// starting at `start`, clipped to the log's end.
pub open spec fn spec_page_records(log: Seq<TransactionView>, start: int, count: int) -> Seq<
    TransactionView,
> {
    let s = if start > log.len() {
        log.len() as int
    } else {
        start
    };
    let e = if s + count > log.len() {
        log.len() as int
    } else {
        s + count
    };
    log.subrange(s, e)
}

impl TransactionLog {
    /// The ledger's mathematical content, in append order.
    pub open spec fn log(self) -> Seq<TransactionView> {
        self.transactions.deep_view()
    }

    /// The ledger invariant: the counter equals the record count and every
    /// record's id is its position.
    pub open spec fn wf(self) -> bool {
        &&& self.next_id == self.log().len()
        &&& forall|i: int|
            0 <= i < self.log().len() ==> (#[trigger] self.log()[i]).transaction_id == i
    }

    /// An empty ledger.
    pub fn new() -> (r: TransactionLog)
        ensures
            r.wf(),
            r.log().len() == 0,
    {
        let r = TransactionLog { transactions: Vec::new(), next_id: 0 };
        proof {
            assert(r.log() =~= Seq::<TransactionView>::empty());
        }
        r
    }

    /// Appends one record and returns its id: the previous record count.
    pub fn record(
        &mut self,
        kind: String,
        token_id: u64,
        from: Identity,
        to: Identity,
        memo: Option<Vec<u8>>,
        operation: String,
        timestamp: u64,
    ) -> (id: u64)
        requires
            old(self).wf(),
            old(self).log().len() < u64::MAX,
        ensures
            final (self).wf(),
            id == old(self).log().len(),
            final (self).log() == old(self).log().push(
                TransactionView {
                    kind: kind@,
                    timestamp,
                    token_id,
                    from,
                    to,
                    memo: match memo {
                        Some(m) => Some(m@),
                        None => None,
                    },
                    operation: operation@,
                    transaction_id: id,
                },
            ),
    {
        let id = self.next_id;
        let tx = Transaction {
            kind,
            timestamp,
            token_id,
            from,
            to,
            memo,
            operation,
            transaction_id: id,
        };
        let ghost txv = tx.deep_view();
        self.transactions.push(tx);
        self.next_id = id + 1;
        proof {
            assert(self.log() =~= old(self).log().push(txv));
        }
        id
    }

    /// Answers a range query: up to `length` records (default 10, capped at
    /// 100) starting at index `start` (default 0), plus the total count.
    pub fn get_transactions(&self, request: GetTransactionsRequest) -> (r: GetTransactionsResponse)
        requires
            self.wf(),
        ensures
            r.total == self.log().len(),
            r.transactions.deep_view() == spec_page_records(
                self.log(),
                request.start.unwrap_or(0) as int,
                if request.length.unwrap_or(DEFAULT_TRANSACTION_PAGE) > MAX_TRANSACTION_PAGE {
                    MAX_TRANSACTION_PAGE as int
                } else {
                    request.length.unwrap_or(DEFAULT_TRANSACTION_PAGE) as int
                },
            ),
    {
        let start: u64 = match request.start {
            Some(s) => s,
            None => 0,
        };
        let length: u16 = match request.length {
            Some(l) => if l > MAX_TRANSACTION_PAGE {
                MAX_TRANSACTION_PAGE
            } else {
                l
            },
            None => DEFAULT_TRANSACTION_PAGE,
        };
        let total = self.transactions.len();
        let s: usize = if start >= total as u64 {
            total
        } else {
            start as usize
        };
        let e: usize = if length as usize > total - s {
            total
        } else {
            s + length as usize
        };
        let mut page: Vec<Transaction> = Vec::new();
        let mut i: usize = s;
        while i < e
            invariant
                s <= i <= e <= self.transactions@.len(),
                page.deep_view() == self.log().subrange(s as int, i as int),
            decreases e - i,
        {
            let tx = self.transactions[i].duplicate();
            let ghost txv = tx.deep_view();
            let ghost prev = page.deep_view();
            proof {
                assert(txv == self.log()[i as int]);
            }
            page.push(tx);
            proof {
                assert(page.deep_view() =~= prev.push(txv));
                assert(prev.push(txv) =~= self.log().subrange(s as int, i + 1));
            }
            i += 1;
        }
        proof {
            assert(page.deep_view() =~= spec_page_records(
                self.log(),
                request.start.unwrap_or(0) as int,
                if request.length.unwrap_or(DEFAULT_TRANSACTION_PAGE) > MAX_TRANSACTION_PAGE {
                    MAX_TRANSACTION_PAGE as int
                } else {
                    request.length.unwrap_or(DEFAULT_TRANSACTION_PAGE) as int
                },
            ));
        }
        GetTransactionsResponse { transactions: page, total: total as u64 }
    }

    /// Looks one record up by id; present exactly for ids below the count.
    pub fn get_transaction(&self, transaction_id: u64) -> (r: Option<Transaction>)
        requires
            self.wf(),
        ensures
            transaction_id < self.log().len() ==> r is Some && r->Some_0.deep_view() == self.log()[transaction_id as int],
            transaction_id >= self.log().len() ==> r is None,
    {
        let mut i: usize = 0;
        while i < self.transactions.len()
            invariant
                self.wf(),
                0 <= i <= self.log().len(),
                forall|k: int|
                    0 <= k < i ==> (#[trigger] self.log()[k]).transaction_id != transaction_id,
            decreases self.log().len() - i,
        {
            assert(self.log()[i as int] == self.transactions@[i as int].deep_view());
            if self.transactions[i].transaction_id == transaction_id {
                assert(self.log()[i as int].transaction_id == i);
                return Some(self.transactions[i].duplicate());
            }
            i += 1;
        }
        proof {
            if (transaction_id as int) < self.log().len() {
                assert(self.log()[transaction_id as int].transaction_id == transaction_id as int);
                assert(false);
            }
        }
        None
    }
}

/// Ledger ids are gapless and monotonically increasing: the first record has
/// id 0 and each appended record's id is one more than its predecessor's,
/// whatever the kinds of the operations recorded.
pub proof fn lemma_transaction_ids_gapless(log: TransactionLog)
    requires
        log.wf(),
    ensures
        log.log().len() > 0 ==> log.log()[0].transaction_id == 0,
        forall|n: int|
            0 <= n && n + 1 < log.log().len() ==> (#[trigger] log.log()[n + 1].transaction_id)
                == log.log()[n].transaction_id + 1,
{
}

} // verus!
