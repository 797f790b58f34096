//! Balance-level requests: compilation and evaluation.
use crate::data::Balance;
use crate::data::TransactionData;
use crate::query::item_filter::contains_bytes;
use crate::query::item_filter::list_contains;
use crate::query::item_filter::views;
use crate::query::model::BalanceRequest;
use crate::query::selected_items::SelectedItems;
use vstd::prelude::*;

verus! {

/// The related items a matching balance request pulls in.
#[derive(Debug, Clone, Copy)]
pub struct BalanceRelations {
    pub transaction: bool,
    pub transaction_instructions: bool,
}

/// A compiled balance request.
#[derive(Debug, Clone)]
pub struct PreparedBalanceRequest {
    pub account: Option<Vec<Vec<u8>>>,
    pub relations: BalanceRelations,
}

pub open spec fn bal_req_matches(r: PreparedBalanceRequest, b: Balance) -> bool {
    match r.account {
        Some(l) => list_contains(views(l@), b.account@),
        None => true,
    }
}

pub open spec fn raw_bal_req_matches(r: BalanceRequest, b: Balance) -> bool {
    match r.account {
        Some(l) => list_contains(views(l@), b.account@),
        None => true,
    }
}

pub open spec fn raw_bal_any(reqs: Seq<BalanceRequest>, b: Balance) -> bool {
    exists|i: int| 0 <= i < reqs.len() && raw_bal_req_matches(#[trigger] reqs[i], b)
}

pub open spec fn raw_bal_rel(reqs: Seq<BalanceRequest>, b: Balance, rel: int) -> bool {
    exists|i: int|
        0 <= i < reqs.len() && raw_bal_req_matches(#[trigger] reqs[i], b) && (if rel == 0 {
            reqs[i].transaction
        } else {
            reqs[i].transaction_instructions
        })
}

pub open spec fn bal_any(reqs: Seq<PreparedBalanceRequest>, b: Balance) -> bool {
    exists|i: int| 0 <= i < reqs.len() && bal_req_matches(#[trigger] reqs[i], b)
}

pub open spec fn bal_rel(reqs: Seq<PreparedBalanceRequest>, b: Balance, rel: int) -> bool {
    exists|i: int|
        0 <= i < reqs.len() && bal_req_matches(#[trigger] reqs[i], b) && (if rel == 0 {
            reqs[i].relations.transaction
        } else {
            reqs[i].relations.transaction_instructions
        })
}

/// Some balance of the list makes the relation fire.
pub open spec fn bal_stage_rel(
    reqs: Seq<PreparedBalanceRequest>,
    balances: Seq<Balance>,
    rel: int,
) -> bool {
    exists|j: int| 0 <= j < balances.len() && bal_rel(reqs, #[trigger] balances[j], rel)
}

/// Compiles one balance request; an empty predicate list compiles it away.
pub fn compile_request(req: BalanceRequest) -> (r: Option<PreparedBalanceRequest>)
    ensures
        r is None <==> (req.account matches Some(l) && l@.len() == 0),
        r matches Some(c) ==> forall|b: Balance| #[trigger]
            bal_req_matches(c, b) == raw_bal_req_matches(req, b),
        r matches Some(c) ==> c.relations.transaction == req.transaction
            && c.relations.transaction_instructions == req.transaction_instructions,
{
    match &req.account {
        Some(l) => {
            if l.len() == 0 {
                return None;
            }
        },
        None => {},
    }
    Some(
        PreparedBalanceRequest {
            account: req.account,
            relations: BalanceRelations {
                transaction: req.transaction,
                transaction_instructions: req.transaction_instructions,
            },
        },
    )
}

fn eval_one(c: &PreparedBalanceRequest, b: &Balance) -> (r: bool)
    ensures
        r == bal_req_matches(*c, *b),
{
    match &c.account {
        Some(l) => contains_bytes(l, b.account.as_slice()),
        None => true,
    }
}

/// The compiled balance filter.
pub struct BalanceFilter {
    pub requests: Vec<PreparedBalanceRequest>,
}

impl BalanceFilter {
    /// Compiling keeps the filter's meaning, balance by balance.
    pub open spec fn corresponds(self, raw: Seq<BalanceRequest>) -> bool {
        &&& forall|b: Balance| #[trigger] bal_any(self.requests@, b) == raw_bal_any(raw, b)
        &&& forall|b: Balance, rel: int| #[trigger]
            bal_rel(self.requests@, b, rel) == raw_bal_rel(raw, b, rel)
    }

    pub fn new(requests: Vec<BalanceRequest>) -> (r: Self)
        ensures
            r.corresponds(requests@),
    {
        let ghost raw = requests@;
        let mut compiled: Vec<PreparedBalanceRequest> = Vec::new();
        let n: usize = requests.len();
        let mut rest = requests;
        let mut i: usize = 0;
        while i < n
            invariant
                i <= n,
                n == raw.len(),
                rest@ == raw.skip(i as int),
                forall|b: Balance| #[trigger]
                    bal_any(compiled@, b) == raw_bal_any(raw.take(i as int), b),
                forall|b: Balance, rel: int| #[trigger]
                    bal_rel(compiled@, b, rel) == raw_bal_rel(raw.take(i as int), b, rel),
            decreases n - i,
        {
            let ghost pre = compiled@;
            let req = rest.remove(0);
            proof {
                assert(req == raw[i as int]);
                assert(rest@ =~= raw.skip(i as int + 1));
            }
            let compiled_one = compile_request(req);
            match compiled_one {
                Some(c) => {
                    compiled.push(c);
                },
                None => {},
            }
            i = i + 1;
            proof {
                let cur = compiled@;
                let rq = raw[i as int - 1];
                assert(raw.take(i as int).drop_last() =~= raw.take(i as int - 1));
                assert(raw.take(i as int).last() == rq);
                assert forall|b: Balance| #[trigger]
                    bal_any(cur, b) == raw_bal_any(raw.take(i as int), b) by {
                    lemma_bal_step(pre, cur, raw, i as int, rq, compiled_one, b);
                }
                assert forall|b: Balance, rel: int| #[trigger]
                    bal_rel(cur, b, rel) == raw_bal_rel(raw.take(i as int), b, rel) by {
                    lemma_bal_step_rel(pre, cur, raw, i as int, rq, compiled_one, b, rel);
                }
            }
        }
        proof {
            assert(raw.take(n as int) =~= raw);
        }
        BalanceFilter { requests: compiled }
    }

    pub fn is_non_trivial(&self) -> (r: bool)
        ensures
            r == (self.requests@.len() > 0),
    {
        self.requests.len() > 0
    }

    /// Runs the balance stage: every matching balance is selected, and the
    /// matched relations select the transaction record and switch all
    /// instructions on.
    pub fn eval(&self, sel: &mut SelectedItems, tx: &TransactionData)
        requires
            old(sel).wf(),
            old(sel).balances.spec_len() == tx.balances@.len(),
        ensures
            final (sel).wf(),
            final (sel).transaction == (old(sel).transaction || bal_stage_rel(
                self.requests@,
                tx.balances@,
                0,
            )),
            final (sel).instructions.spec_len() == old(sel).instructions.spec_len(),
            final (sel).balances.spec_len() == old(sel).balances.spec_len(),
            final (sel).token_balances == old(sel).token_balances,
            final (sel).instructions.spec_includes_all() == (
            old(sel).instructions.spec_includes_all() || bal_stage_rel(
                self.requests@,
                tx.balances@,
                1,
            )),
            final (sel).balances.spec_includes_all() == old(sel).balances.spec_includes_all(),
            forall|j: int|
                #![auto]
                final (sel).balances.selected(j) == (old(sel).balances.selected(j) || (0 <= j
                    < tx.balances@.len() && bal_any(self.requests@, tx.balances@[j]))),
            forall|j: int|
                final (sel).instructions.selected(j) == (old(sel).instructions.selected(j) || (
                bal_stage_rel(self.requests@, tx.balances@, 1) && 0 <= j < old(
                    sel,
                ).instructions.spec_len())),
    {
        let mut j: usize = 0;
        while j < tx.balances.len()
            invariant
                j <= tx.balances@.len(),
                sel.wf(),
                sel.balances.spec_len() == tx.balances@.len(),
                sel.instructions.spec_len() == old(sel).instructions.spec_len(),
                sel.balances.spec_includes_all() == old(sel).balances.spec_includes_all(),
                sel.token_balances == old(sel).token_balances,
                sel.transaction == (old(sel).transaction || (exists|j2: int|
                    #![auto]
                    0 <= j2 < j && bal_rel(self.requests@, tx.balances@[j2], 0))),
                sel.instructions.spec_includes_all() == (old(sel).instructions.spec_includes_all()
                    || (exists|j2: int|
                    #![auto]
                    0 <= j2 < j && bal_rel(self.requests@, tx.balances@[j2], 1))),
                forall|j2: int|
                    #![auto]
                    sel.balances.selected(j2) == (old(sel).balances.selected(j2) || (0 <= j2 < j
                        && bal_any(self.requests@, tx.balances@[j2]))),
                forall|j2: int|
                    #![auto]
                    sel.instructions.selected(j2) == (old(sel).instructions.selected(j2) || ((
                    exists|j3: int|
                        #![auto]
                        0 <= j3 < j && bal_rel(self.requests@, tx.balances@[j3], 1))
                        && 0 <= j2 < old(sel).instructions.spec_len())),
            decreases tx.balances@.len() - j,
        {
            let b = &tx.balances[j];
            let mut pass: bool = false;
            let mut rel_tx: bool = false;
            let mut rel_ins: bool = false;
            let mut i: usize = 0;
            while i < self.requests.len()
                invariant
                    i <= self.requests@.len(),
                    j < tx.balances@.len(),
                    b == &tx.balances@[j as int],
                    pass == (exists|k: int|
                        0 <= k < i && bal_req_matches(#[trigger] self.requests@[k], *b)),
                    rel_tx == (exists|k: int|
                        0 <= k < i && bal_req_matches(#[trigger] self.requests@[k], *b)
                            && self.requests@[k].relations.transaction),
                    rel_ins == (exists|k: int|
                        0 <= k < i && bal_req_matches(#[trigger] self.requests@[k], *b)
                            && self.requests@[k].relations.transaction_instructions),
                decreases self.requests@.len() - i,
            {
                if eval_one(&self.requests[i], b) {
                    pass = true;
                    rel_tx = rel_tx || self.requests[i].relations.transaction;
                    rel_ins = rel_ins || self.requests[i].relations.transaction_instructions;
                }
                i = i + 1;
            }
            proof {
                assert(pass == bal_any(self.requests@, tx.balances@[j as int]));
                assert(rel_tx == bal_rel(self.requests@, tx.balances@[j as int], 0));
                assert(rel_ins == bal_rel(self.requests@, tx.balances@[j as int], 1));
            }
            let ghost mid = *sel;
            if pass {
                sel.balances.add(j);
                sel.transaction = sel.transaction || rel_tx;
                sel.instructions.add_all(rel_ins);
            }
            proof {
                let jj = j as int;
                let reqs = self.requests@;
                let bs = tx.balances@;
                assert forall|j2: int|
                    #![auto]
                    sel.balances.selected(j2) == (old(sel).balances.selected(j2) || (0 <= j2 < jj
                        + 1 && bal_any(reqs, bs[j2]))) by {
                    assert(mid.balances.selected(j2) == (old(sel).balances.selected(j2) || (0
                        <= j2 < jj && bal_any(reqs, bs[j2]))));
                    if j2 == jj {
                        assert(pass == bal_any(reqs, bs[jj]));
                    }
                }
                assert(sel.transaction == (old(sel).transaction || (exists|j3: int|
                    #![auto]
                    0 <= j3 < jj + 1 && bal_rel(reqs, bs[j3], 0)))) by {
                    if rel_tx {
                        assert(bal_rel(reqs, bs[jj], 0));
                    }
                    if sel.transaction && !old(sel).transaction {
                    }
                    if exists|j3: int| #![auto] 0 <= j3 < jj + 1 && bal_rel(reqs, bs[j3], 0) {
                        let w = choose|j3: int| 0 <= j3 < jj + 1 && bal_rel(reqs, bs[j3], 0);
                        if w == jj {
                            assert(rel_tx);
                        }
                    }
                }
                assert(sel.instructions.spec_includes_all() == (old(
                    sel,
                ).instructions.spec_includes_all() || (exists|j3: int|
                    0 <= j3 < jj + 1 && bal_rel(reqs, #[trigger] bs[j3], 1)))) by {
                    if rel_ins {
                        assert(bal_rel(reqs, bs[jj], 1));
                    }
                    if exists|j3: int| #![auto] 0 <= j3 < jj + 1 && bal_rel(reqs, bs[j3], 1) {
                        let w = choose|j3: int| 0 <= j3 < jj + 1 && bal_rel(reqs, bs[j3], 1);
                        if w == jj {
                            assert(rel_ins);
                        }
                    }
                }
                assert forall|j2: int|
                    #![auto]
                    sel.instructions.selected(j2) == (old(sel).instructions.selected(j2) || ((
                    exists|j3: int| #![auto] 0 <= j3 < jj + 1 && bal_rel(reqs, bs[j3], 1)) && 0
                        <= j2 < old(sel).instructions.spec_len())) by {
                    if rel_ins {
                        assert(bal_rel(reqs, bs[jj], 1));
                    }
                    if exists|j3: int| #![auto] 0 <= j3 < jj + 1 && bal_rel(reqs, bs[j3], 1) {
                        let w = choose|j3: int| 0 <= j3 < jj + 1 && bal_rel(reqs, bs[j3], 1);
                        if w == jj {
                            assert(rel_ins);
                        }
                    }
                }
            }
            j = j + 1;
        }
        proof {
            assert((exists|j2: int|
                #![auto]
                0 <= j2 < tx.balances@.len() && bal_rel(
                    self.requests@,
                    tx.balances@[j2],
                    0,
                )) == bal_stage_rel(self.requests@, tx.balances@, 0));
            assert((exists|j2: int|
                #![auto]
                0 <= j2 < tx.balances@.len() && bal_rel(
                    self.requests@,
                    tx.balances@[j2],
                    1,
                )) == bal_stage_rel(self.requests@, tx.balances@, 1));
        }
    }
}

proof fn lemma_bal_step(
    pre: Seq<PreparedBalanceRequest>,
    cur: Seq<PreparedBalanceRequest>,
    raw: Seq<BalanceRequest>,
    i: int,
    rq: BalanceRequest,
    compiled_one: Option<PreparedBalanceRequest>,
    b: Balance,
)
    requires
        1 <= i <= raw.len(),
        rq == raw[i - 1],
        bal_any(pre, b) == raw_bal_any(raw.take(i - 1), b),
        match compiled_one {
            Some(c) => cur == pre.push(c) && forall|b2: Balance| #[trigger]
                bal_req_matches(c, b2) == raw_bal_req_matches(rq, b2),
            None => cur == pre && (rq.account matches Some(l) && l@.len() == 0),
        },
    ensures
        bal_any(cur, b) == raw_bal_any(raw.take(i), b),
{
    assert(raw.take(i).drop_last() =~= raw.take(i - 1));
    assert(raw.take(i).last() == raw[i - 1]);
    match compiled_one {
        Some(c) => {
            assert(bal_req_matches(c, b) == raw_bal_req_matches(rq, b));
            if bal_any(cur, b) {
                let k = choose|k: int| 0 <= k < cur.len() && bal_req_matches(#[trigger] cur[k], b);
                if k < pre.len() {
                    assert(raw_bal_any(raw.take(i - 1), b));
                    let m = choose|m: int|
                        0 <= m < raw.take(i - 1).len() && raw_bal_req_matches(
                            #[trigger] raw.take(i - 1)[m],
                            b,
                        );
                    assert(raw_bal_req_matches(raw.take(i)[m], b));
                } else {
                    assert(raw_bal_req_matches(raw.take(i)[i - 1], b));
                }
            }
            if raw_bal_any(raw.take(i), b) {
                let m = choose|m: int|
                    0 <= m < raw.take(i).len() && raw_bal_req_matches(#[trigger] raw.take(i)[m], b);
                if m < i - 1 {
                    assert(raw_bal_req_matches(raw.take(i - 1)[m], b));
                    let k = choose|k: int|
                        0 <= k < pre.len() && bal_req_matches(#[trigger] pre[k], b);
                    assert(bal_req_matches(cur[k], b));
                } else {
                    assert(bal_req_matches(cur[cur.len() - 1], b));
                }
            }
        },
        None => {
            assert(forall|b2: Balance| !raw_bal_req_matches(rq, b2));
            if raw_bal_any(raw.take(i), b) {
                let m = choose|m: int|
                    0 <= m < raw.take(i).len() && raw_bal_req_matches(#[trigger] raw.take(i)[m], b);
                assert(m < i - 1);
                assert(raw_bal_req_matches(raw.take(i - 1)[m], b));
            }
            if raw_bal_any(raw.take(i - 1), b) {
                let m = choose|m: int|
                    0 <= m < raw.take(i - 1).len() && raw_bal_req_matches(
                        #[trigger] raw.take(i - 1)[m],
                        b,
                    );
                assert(raw_bal_req_matches(raw.take(i)[m], b));
            }
        },
    }
}

proof fn lemma_bal_step_rel(
    pre: Seq<PreparedBalanceRequest>,
    cur: Seq<PreparedBalanceRequest>,
    raw: Seq<BalanceRequest>,
    i: int,
    rq: BalanceRequest,
    compiled_one: Option<PreparedBalanceRequest>,
    b: Balance,
    rel: int,
)
    requires
        1 <= i <= raw.len(),
        rq == raw[i - 1],
        bal_rel(pre, b, rel) == raw_bal_rel(raw.take(i - 1), b, rel),
        match compiled_one {
            Some(c) => cur == pre.push(c) && (forall|b2: Balance| #[trigger]
                bal_req_matches(c, b2) == raw_bal_req_matches(rq, b2)) && c.relations.transaction
                == rq.transaction && c.relations.transaction_instructions
                == rq.transaction_instructions,
            None => cur == pre && (rq.account matches Some(l) && l@.len() == 0),
        },
    ensures
        bal_rel(cur, b, rel) == raw_bal_rel(raw.take(i), b, rel),
{
    assert(raw.take(i).drop_last() =~= raw.take(i - 1));
    assert(raw.take(i).last() == raw[i - 1]);
    match compiled_one {
        Some(c) => {
            assert(bal_req_matches(c, b) == raw_bal_req_matches(rq, b));
            if bal_rel(cur, b, rel) {
                let k = choose|k: int|
                    0 <= k < cur.len() && bal_req_matches(#[trigger] cur[k], b) && (if rel == 0 {
                        cur[k].relations.transaction
                    } else {
                        cur[k].relations.transaction_instructions
                    });
                if k < pre.len() {
                    assert(bal_rel(pre, b, rel));
                    let m = choose|m: int|
                        0 <= m < raw.take(i - 1).len() && raw_bal_req_matches(
                            #[trigger] raw.take(i - 1)[m],
                            b,
                        ) && (if rel == 0 {
                            raw.take(i - 1)[m].transaction
                        } else {
                            raw.take(i - 1)[m].transaction_instructions
                        });
                    assert(raw.take(i)[m] == raw.take(i - 1)[m]);
                    assert(raw_bal_rel(raw.take(i), b, rel));
                } else {
                    assert(raw.take(i)[i - 1] == rq);
                    assert(raw_bal_rel(raw.take(i), b, rel));
                }
            }
            if raw_bal_rel(raw.take(i), b, rel) {
                let m = choose|m: int|
                    0 <= m < raw.take(i).len() && raw_bal_req_matches(#[trigger] raw.take(i)[m], b)
                        && (if rel == 0 {
                        raw.take(i)[m].transaction
                    } else {
                        raw.take(i)[m].transaction_instructions
                    });
                if m < i - 1 {
                    assert(raw.take(i - 1)[m] == raw.take(i)[m]);
                    assert(raw_bal_rel(raw.take(i - 1), b, rel));
                    let k = choose|k: int|
                        0 <= k < pre.len() && bal_req_matches(#[trigger] pre[k], b) && (if rel == 0 {
                            pre[k].relations.transaction
                        } else {
                            pre[k].relations.transaction_instructions
                        });
                    assert(cur[k] == pre[k]);
                    assert(bal_rel(cur, b, rel));
                } else {
                    assert(bal_req_matches(cur[cur.len() - 1], b));
                    assert(bal_rel(cur, b, rel));
                }
            }
        },
        None => {
            assert(forall|b2: Balance| !raw_bal_req_matches(rq, b2));
            if raw_bal_rel(raw.take(i), b, rel) {
                let m = choose|m: int|
                    0 <= m < raw.take(i).len() && raw_bal_req_matches(#[trigger] raw.take(i)[m], b)
                        && (if rel == 0 {
                        raw.take(i)[m].transaction
                    } else {
                        raw.take(i)[m].transaction_instructions
                    });
                assert(m < i - 1);
                assert(raw.take(i - 1)[m] == raw.take(i)[m]);
                assert(raw_bal_rel(raw.take(i - 1), b, rel));
            }
            if raw_bal_rel(raw.take(i - 1), b, rel) {
                let m = choose|m: int|
                    0 <= m < raw.take(i - 1).len() && raw_bal_req_matches(
                        #[trigger] raw.take(i - 1)[m],
                        b,
                    ) && (if rel == 0 {
                        raw.take(i - 1)[m].transaction
                    } else {
                        raw.take(i - 1)[m].transaction_instructions
                    });
                assert(raw.take(i)[m] == raw.take(i - 1)[m]);
                assert(raw_bal_rel(raw.take(i), b, rel));
            }
        },
    }
}

} // verus!
