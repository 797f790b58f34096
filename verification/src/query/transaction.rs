//! Transaction-level requests: compilation and evaluation.
use crate::data::TransactionData;
use crate::query::item_filter::list_contains;
use crate::query::item_filter::views;
use crate::query::item_filter::bytes_eq;
use crate::query::item_filter::contains_bytes;
use crate::query::model::TransactionRequest;
use crate::query::selected_items::SelectedItems;
use vstd::prelude::*;

verus! {

/// The related items a matching transaction request pulls in.
#[derive(Debug, Clone, Copy)]
pub struct TransactionRelations {
    pub instructions: bool,
    pub logs: bool,
    pub balances: bool,
    pub token_balances: bool,
}

/// A compiled transaction request.
#[derive(Debug, Clone)]
pub struct PreparedTransactionRequest {
    pub fee_payer: Option<Vec<Vec<u8>>>,
    pub mentions_account: Option<Vec<Vec<u8>>>,
    pub relations: TransactionRelations,
}

/// What a compiled transaction request matches: the fee payer is
/// `accounts[0]`, and `mentions_account` looks at the whole address table.
pub open spec fn tx_req_matches(r: PreparedTransactionRequest, tx: TransactionData) -> bool {
    &&& (match r.fee_payer {
        Some(l) => tx.accounts@.len() > 0 && list_contains(views(l@), tx.accounts@[0]@),
        None => true,
    })
    &&& (match r.mentions_account {
        Some(l) => exists|i: int|
            0 <= i < tx.accounts@.len() && list_contains(views(l@), tx.accounts@[i]@),
        None => true,
    })
}

/// What a raw transaction request describes; an empty predicate list admits
/// nothing, so such a request matches no transaction.
pub open spec fn raw_tx_req_matches(r: TransactionRequest, tx: TransactionData) -> bool {
    &&& (match r.fee_payer {
        Some(l) => tx.accounts@.len() > 0 && list_contains(views(l@), tx.accounts@[0]@),
        None => true,
    })
    &&& (match r.mentions_account {
        Some(l) => exists|i: int|
            0 <= i < tx.accounts@.len() && list_contains(views(l@), tx.accounts@[i]@),
        None => true,
    })
}

/// Some request of the list matches the transaction.
pub open spec fn raw_tx_any(reqs: Seq<TransactionRequest>, tx: TransactionData) -> bool {
    exists|i: int| 0 <= i < reqs.len() && raw_tx_req_matches(#[trigger] reqs[i], tx)
}

/// Some matching request pulls in the given relation.
pub open spec fn raw_tx_rel(reqs: Seq<TransactionRequest>, tx: TransactionData, rel: int) -> bool {
    exists|i: int|
        0 <= i < reqs.len() && raw_tx_req_matches(#[trigger] reqs[i], tx) && (if rel == 0 {
            reqs[i].instructions
        } else if rel == 1 {
            reqs[i].logs
        } else if rel == 2 {
            reqs[i].balances
        } else {
            reqs[i].token_balances
        })
}

pub open spec fn tx_any(reqs: Seq<PreparedTransactionRequest>, tx: TransactionData) -> bool {
    exists|i: int| 0 <= i < reqs.len() && tx_req_matches(#[trigger] reqs[i], tx)
}

pub open spec fn tx_rel(
    reqs: Seq<PreparedTransactionRequest>,
    tx: TransactionData,
    rel: int,
) -> bool {
    exists|i: int|
        0 <= i < reqs.len() && tx_req_matches(#[trigger] reqs[i], tx) && (if rel == 0 {
            reqs[i].relations.instructions
        } else if rel == 1 {
            reqs[i].relations.logs
        } else if rel == 2 {
            reqs[i].relations.balances
        } else {
            reqs[i].relations.token_balances
        })
}

/// Compiles one transaction request; a request with an empty predicate list
/// is unsatisfiable and compiles away.
pub fn compile_request(req: TransactionRequest) -> (r: Option<PreparedTransactionRequest>)
    ensures
        r is None <==> ((req.fee_payer matches Some(l) && l@.len() == 0) || (req.mentions_account
            matches Some(l) && l@.len() == 0)),
        r matches Some(c) ==> forall|tx: TransactionData|
            #[trigger] tx_req_matches(c, tx) == raw_tx_req_matches(req, tx),
        r matches Some(c) ==> c.relations.instructions == req.instructions
            && c.relations.logs == req.logs && c.relations.balances == req.balances
            && c.relations.token_balances == req.token_balances,
{
    match &req.fee_payer {
        Some(l) => {
            if l.len() == 0 {
                return None;
            }
        },
        None => {},
    }
    match &req.mentions_account {
        Some(l) => {
            if l.len() == 0 {
                return None;
            }
        },
        None => {},
    }
    let c = PreparedTransactionRequest {
        fee_payer: req.fee_payer,
        mentions_account: req.mentions_account,
        relations: TransactionRelations {
            instructions: req.instructions,
            logs: req.logs,
            balances: req.balances,
            token_balances: req.token_balances,
        },
    };
    Some(c)
}

/// Evaluates one compiled request against a transaction.
fn eval_one(c: &PreparedTransactionRequest, tx: &TransactionData) -> (r: bool)
    ensures
        r == tx_req_matches(*c, *tx),
{
    match &c.fee_payer {
        Some(l) => {
            if tx.accounts.len() == 0 {
                return false;
            }
            if !contains_bytes(l, tx.accounts[0].as_slice()) {
                return false;
            }
        },
        None => {},
    }
    match &c.mentions_account {
        Some(l) => {
            let mut i: usize = 0;
            let mut hit: bool = false;
            while i < tx.accounts.len()
                invariant
                    i <= tx.accounts@.len(),
                    hit ==> exists|j: int|
                        0 <= j < tx.accounts@.len() && list_contains(
                            views(l@),
                            (#[trigger] tx.accounts@[j])@,
                        ),
                    !hit ==> forall|j: int|
                        0 <= j < i ==> !list_contains(views(l@), (#[trigger] tx.accounts@[j])@),
                decreases tx.accounts@.len() - i,
            {
                if contains_bytes(l, tx.accounts[i].as_slice()) {
                    hit = true;
                    proof {
                        assert(list_contains(views(l@), tx.accounts@[i as int]@));
                    }
                }
                i = i + 1;
            }
            if !hit {
                return false;
            }
        },
        None => {},
    }
    true
}

/// The compiled transaction filter.
pub struct TransactionFilter {
    pub requests: Vec<PreparedTransactionRequest>,
}

impl TransactionFilter {
    /// Compiling keeps the filter's meaning: it matches exactly the
    /// transactions some raw request describes, relation by relation.
    pub open spec fn corresponds(self, raw: Seq<TransactionRequest>) -> bool {
        &&& forall|tx: TransactionData| #[trigger]
            tx_any(self.requests@, tx) == raw_tx_any(raw, tx)
        &&& forall|tx: TransactionData, rel: int| #[trigger]
            tx_rel(self.requests@, tx, rel) == raw_tx_rel(raw, tx, rel)
    }

    pub fn new(requests: Vec<TransactionRequest>) -> (r: Self)
        ensures
            r.corresponds(requests@),
    {
        let ghost raw = requests@;
        let mut compiled: Vec<PreparedTransactionRequest> = Vec::new();
        let n: usize = requests.len();
        let mut rest = requests;
        let mut i: usize = 0;
        while i < n
            invariant
                i <= n,
                n == raw.len(),
                rest@ == raw.skip(i as int),
                forall|tx: TransactionData| #[trigger]
                    tx_any(compiled@, tx) == raw_tx_any(raw.take(i as int), tx),
                forall|tx: TransactionData, rel: int| #[trigger]
                    tx_rel(compiled@, tx, rel) == raw_tx_rel(raw.take(i as int), tx, rel),
            decreases n - i,
        {
            let ghost pre = compiled@;
            let req = rest.remove(0);
            proof {
                assert(req == raw[i as int]);
                assert(rest@ =~= raw.skip(i as int + 1));
            }
            let compiled_one = compile_request(req);
            match compiled_one {
                Some(c) => {
                    compiled.push(c);
                },
                None => {},
            }
            i = i + 1;
            proof {
                let cur = compiled@;
                let rq = raw[i as int - 1];
                assert forall|tx: TransactionData| #[trigger]
                    tx_any(cur, tx) == raw_tx_any(raw.take(i as int), tx) by {
                    lemma_step_any(pre, cur, raw, i as int, rq, compiled_one, tx);
                }
                assert forall|tx: TransactionData, rel: int| #[trigger]
                    tx_rel(cur, tx, rel) == raw_tx_rel(raw.take(i as int), tx, rel) by {
                    lemma_step_rel(pre, cur, raw, i as int, rq, compiled_one, tx, rel);
                }
            }
        }
        proof {
            assert(raw.take(n as int) =~= raw);
        }
        TransactionFilter { requests: compiled }
    }

    pub fn is_non_trivial(&self) -> (r: bool)
        ensures
            r == (self.requests@.len() > 0),
    {
        self.requests.len() > 0
    }

    /// Runs the transaction stage: on any match the transaction record is
    /// selected and the matched relations switch whole item kinds on.
    pub fn eval(&self, sel: &mut SelectedItems, tx: &TransactionData)
        requires
            old(sel).wf(),
        ensures
            final (sel).wf(),
            final (sel).transaction == (old(sel).transaction || tx_any(self.requests@, *tx)),
            final (sel).instructions.spec_len() == old(sel).instructions.spec_len(),
            final (sel).balances.spec_len() == old(sel).balances.spec_len(),
            final (sel).token_balances.spec_len() == old(sel).token_balances.spec_len(),
            final (sel).instructions.spec_includes_all() == (
            old(sel).instructions.spec_includes_all() || tx_rel(self.requests@, *tx, 0)),
            final (sel).balances.spec_includes_all() == (old(sel).balances.spec_includes_all()
                || tx_rel(self.requests@, *tx, 2)),
            final (sel).token_balances.spec_includes_all() == (
            old(sel).token_balances.spec_includes_all() || tx_rel(self.requests@, *tx, 3)),
            forall|j: int|
                final (sel).instructions.selected(j) == (old(sel).instructions.selected(j) || (
                tx_rel(self.requests@, *tx, 0) && 0 <= j < old(sel).instructions.spec_len())),
            forall|j: int|
                final (sel).balances.selected(j) == (old(sel).balances.selected(j) || (tx_rel(
                    self.requests@,
                    *tx,
                    2,
                ) && 0 <= j < old(sel).balances.spec_len())),
            forall|j: int|
                final (sel).token_balances.selected(j) == (old(sel).token_balances.selected(j) || (
                tx_rel(self.requests@, *tx, 3) && 0 <= j < old(sel).token_balances.spec_len())),
    {
        let mut pass: bool = false;
        let mut rel = TransactionRelations {
            instructions: false,
            logs: false,
            balances: false,
            token_balances: false,
        };
        let mut i: usize = 0;
        while i < self.requests.len()
            invariant
                i <= self.requests@.len(),
                pass == (exists|k: int|
                    0 <= k < i && tx_req_matches(#[trigger] self.requests@[k], *tx)),
                rel.instructions == (exists|k: int|
                    0 <= k < i && tx_req_matches(#[trigger] self.requests@[k], *tx)
                        && self.requests@[k].relations.instructions),
                rel.logs == (exists|k: int|
                    0 <= k < i && tx_req_matches(#[trigger] self.requests@[k], *tx)
                        && self.requests@[k].relations.logs),
                rel.balances == (exists|k: int|
                    0 <= k < i && tx_req_matches(#[trigger] self.requests@[k], *tx)
                        && self.requests@[k].relations.balances),
                rel.token_balances == (exists|k: int|
                    0 <= k < i && tx_req_matches(#[trigger] self.requests@[k], *tx)
                        && self.requests@[k].relations.token_balances),
            decreases self.requests@.len() - i,
        {
            if eval_one(&self.requests[i], tx) {
                pass = true;
                rel.instructions = rel.instructions || self.requests[i].relations.instructions;
                rel.logs = rel.logs || self.requests[i].relations.logs;
                rel.balances = rel.balances || self.requests[i].relations.balances;
                rel.token_balances = rel.token_balances
                    || self.requests[i].relations.token_balances;
            }
            i = i + 1;
        }
        proof {
            assert(pass == tx_any(self.requests@, *tx));
            assert(rel.instructions == tx_rel(self.requests@, *tx, 0));
            assert(rel.logs == tx_rel(self.requests@, *tx, 1));
            assert(rel.balances == tx_rel(self.requests@, *tx, 2));
            assert(rel.token_balances == tx_rel(self.requests@, *tx, 3));
        }
        if pass {
            sel.transaction = true;
            sel.instructions.add_all(rel.instructions);
            sel.balances.add_all(rel.balances);
            sel.token_balances.add_all(rel.token_balances);
        } else {
            proof {
                assert(!tx_rel(self.requests@, *tx, 0));
                assert(!tx_rel(self.requests@, *tx, 2));
                assert(!tx_rel(self.requests@, *tx, 3));
            }
        }
    }
}

/// One compile step keeps the any-match semantics.
proof fn lemma_step_any(
    pre: Seq<PreparedTransactionRequest>,
    cur: Seq<PreparedTransactionRequest>,
    raw: Seq<TransactionRequest>,
    i: int,
    rq: TransactionRequest,
    compiled_one: Option<PreparedTransactionRequest>,
    tx: TransactionData,
)
    requires
        1 <= i <= raw.len(),
        rq == raw[i - 1],
        tx_any(pre, tx) == raw_tx_any(raw.take(i - 1), tx),
        match compiled_one {
            Some(c) => cur == pre.push(c) && forall|tx2: TransactionData| #[trigger]
                tx_req_matches(c, tx2) == raw_tx_req_matches(rq, tx2),
            None => cur == pre && ((rq.fee_payer matches Some(l) && l@.len() == 0) || (
            rq.mentions_account matches Some(l) && l@.len() == 0)),
        },
    ensures
        tx_any(cur, tx) == raw_tx_any(raw.take(i), tx),
{
    assert(raw.take(i).drop_last() =~= raw.take(i - 1));
    assert(raw.take(i).last() == raw[i - 1]);
    match compiled_one {
        Some(c) => {
            assert(tx_req_matches(c, tx) == raw_tx_req_matches(rq, tx));
            if tx_any(cur, tx) {
                let k = choose|k: int| 0 <= k < cur.len() && tx_req_matches(#[trigger] cur[k], tx);
                if k < pre.len() {
                    assert(raw_tx_any(raw.take(i - 1), tx));
                    let m = choose|m: int|
                        0 <= m < raw.take(i - 1).len() && raw_tx_req_matches(
                            #[trigger] raw.take(i - 1)[m],
                            tx,
                        );
                    assert(raw_tx_req_matches(raw.take(i)[m], tx));
                } else {
                    assert(raw_tx_req_matches(raw.take(i)[i - 1], tx));
                }
            }
            if raw_tx_any(raw.take(i), tx) {
                let m = choose|m: int|
                    0 <= m < raw.take(i).len() && raw_tx_req_matches(#[trigger] raw.take(i)[m], tx);
                if m < i - 1 {
                    assert(raw_tx_req_matches(raw.take(i - 1)[m], tx));
                    assert(raw_tx_any(raw.take(i - 1), tx));
                    let k = choose|k: int|
                        0 <= k < pre.len() && tx_req_matches(#[trigger] pre[k], tx);
                    assert(tx_req_matches(cur[k], tx));
                } else {
                    assert(tx_req_matches(cur[cur.len() - 1], tx));
                }
            }
        },
        None => {
            assert(forall|tx2: TransactionData| !raw_tx_req_matches(rq, tx2));
            if raw_tx_any(raw.take(i), tx) {
                let m = choose|m: int|
                    0 <= m < raw.take(i).len() && raw_tx_req_matches(#[trigger] raw.take(i)[m], tx);
                assert(m < i - 1);
                assert(raw_tx_req_matches(raw.take(i - 1)[m], tx));
                assert(raw_tx_any(raw.take(i - 1), tx));
            }
            if raw_tx_any(raw.take(i - 1), tx) {
                let m = choose|m: int|
                    0 <= m < raw.take(i - 1).len() && raw_tx_req_matches(
                        #[trigger] raw.take(i - 1)[m],
                        tx,
                    );
                assert(raw_tx_req_matches(raw.take(i)[m], tx));
            }
        },
    }
}

/// One compile step keeps the per-relation semantics.
proof fn lemma_step_rel(
    pre: Seq<PreparedTransactionRequest>,
    cur: Seq<PreparedTransactionRequest>,
    raw: Seq<TransactionRequest>,
    i: int,
    rq: TransactionRequest,
    compiled_one: Option<PreparedTransactionRequest>,
    tx: TransactionData,
    rel: int,
)
    requires
        1 <= i <= raw.len(),
        rq == raw[i - 1],
        tx_rel(pre, tx, rel) == raw_tx_rel(raw.take(i - 1), tx, rel),
        match compiled_one {
            Some(c) => cur == pre.push(c) && (forall|tx2: TransactionData| #[trigger]
                tx_req_matches(c, tx2) == raw_tx_req_matches(rq, tx2)) && c.relations.instructions
                == rq.instructions && c.relations.logs == rq.logs && c.relations.balances
                == rq.balances && c.relations.token_balances == rq.token_balances,
            None => cur == pre && ((rq.fee_payer matches Some(l) && l@.len() == 0) || (
            rq.mentions_account matches Some(l) && l@.len() == 0)),
        },
    ensures
        tx_rel(cur, tx, rel) == raw_tx_rel(raw.take(i), tx, rel),
{
    assert(raw.take(i).drop_last() =~= raw.take(i - 1));
    assert(raw.take(i).last() == raw[i - 1]);
    match compiled_one {
        Some(c) => {
            assert(tx_req_matches(c, tx) == raw_tx_req_matches(rq, tx));
            if tx_rel(cur, tx, rel) {
                let k = choose|k: int|
                    0 <= k < cur.len() && tx_req_matches(#[trigger] cur[k], tx) && (if rel == 0 {
                        cur[k].relations.instructions
                    } else if rel == 1 {
                        cur[k].relations.logs
                    } else if rel == 2 {
                        cur[k].relations.balances
                    } else {
                        cur[k].relations.token_balances
                    });
                if k < pre.len() {
                    assert(tx_rel(pre, tx, rel));
                    let m = choose|m: int|
                        0 <= m < raw.take(i - 1).len() && raw_tx_req_matches(
                            #[trigger] raw.take(i - 1)[m],
                            tx,
                        ) && (if rel == 0 {
                            raw.take(i - 1)[m].instructions
                        } else if rel == 1 {
                            raw.take(i - 1)[m].logs
                        } else if rel == 2 {
                            raw.take(i - 1)[m].balances
                        } else {
                            raw.take(i - 1)[m].token_balances
                        });
                    assert(raw.take(i)[m] == raw.take(i - 1)[m]);
                    assert(raw_tx_rel(raw.take(i), tx, rel));
                } else {
                    assert(raw.take(i)[i - 1] == rq);
                    assert(raw_tx_rel(raw.take(i), tx, rel));
                }
            }
            if raw_tx_rel(raw.take(i), tx, rel) {
                let m = choose|m: int|
                    0 <= m < raw.take(i).len() && raw_tx_req_matches(#[trigger] raw.take(i)[m], tx)
                        && (if rel == 0 {
                        raw.take(i)[m].instructions
                    } else if rel == 1 {
                        raw.take(i)[m].logs
                    } else if rel == 2 {
                        raw.take(i)[m].balances
                    } else {
                        raw.take(i)[m].token_balances
                    });
                if m < i - 1 {
                    assert(raw.take(i - 1)[m] == raw.take(i)[m]);
                    assert(raw_tx_rel(raw.take(i - 1), tx, rel));
                    let k = choose|k: int|
                        0 <= k < pre.len() && tx_req_matches(#[trigger] pre[k], tx) && (if rel == 0 {
                            pre[k].relations.instructions
                        } else if rel == 1 {
                            pre[k].relations.logs
                        } else if rel == 2 {
                            pre[k].relations.balances
                        } else {
                            pre[k].relations.token_balances
                        });
                    assert(cur[k] == pre[k]);
                    assert(tx_rel(cur, tx, rel));
                } else {
                    assert(tx_req_matches(cur[cur.len() - 1], tx));
                    assert(tx_rel(cur, tx, rel));
                }
            }
        },
        None => {
            assert(forall|tx2: TransactionData| !raw_tx_req_matches(rq, tx2));
            if raw_tx_rel(raw.take(i), tx, rel) {
                let m = choose|m: int|
                    0 <= m < raw.take(i).len() && raw_tx_req_matches(#[trigger] raw.take(i)[m], tx)
                        && (if rel == 0 {
                        raw.take(i)[m].instructions
                    } else if rel == 1 {
                        raw.take(i)[m].logs
                    } else if rel == 2 {
                        raw.take(i)[m].balances
                    } else {
                        raw.take(i)[m].token_balances
                    });
                assert(m < i - 1);
                assert(raw.take(i - 1)[m] == raw.take(i)[m]);
                assert(raw_tx_rel(raw.take(i - 1), tx, rel));
            }
            if raw_tx_rel(raw.take(i - 1), tx, rel) {
                let m = choose|m: int|
                    0 <= m < raw.take(i - 1).len() && raw_tx_req_matches(
                        #[trigger] raw.take(i - 1)[m],
                        tx,
                    ) && (if rel == 0 {
                        raw.take(i - 1)[m].instructions
                    } else if rel == 1 {
                        raw.take(i - 1)[m].logs
                    } else if rel == 2 {
                        raw.take(i - 1)[m].balances
                    } else {
                        raw.take(i - 1)[m].token_balances
                    });
                assert(raw.take(i)[m] == raw.take(i - 1)[m]);
                assert(raw_tx_rel(raw.take(i), tx, rel));
            }
        },
    }
}

} // verus!
