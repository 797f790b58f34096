//! Token-balance-level requests: compilation and evaluation.
use crate::data::TokenBalance;
use crate::data::TransactionData;
use crate::query::item_filter::contains_bytes;
use crate::query::item_filter::list_contains;
use crate::query::item_filter::views;
use crate::query::balance::BalanceRelations;
use crate::query::model::TokenBalanceRequest;
use crate::query::selected_items::SelectedItems;
use vstd::prelude::*;

verus! {

/// A compiled token balance request.
#[derive(Debug, Clone)]
pub struct PreparedTokenBalanceRequest {
    pub account: Option<Vec<Vec<u8>>>,
    pub pre_mint: Option<Vec<Vec<u8>>>,
    pub post_mint: Option<Vec<Vec<u8>>>,
    pub pre_program_id: Option<Vec<Vec<u8>>>,
    pub post_program_id: Option<Vec<Vec<u8>>>,
    pub pre_owner: Option<Vec<Vec<u8>>>,
    pub post_owner: Option<Vec<Vec<u8>>>,
    pub relations: BalanceRelations,
}

/// An optional predicate list against an optional field: an absent field
/// never matches a present list.
pub open spec fn opt_field_matches(l: Option<Vec<Vec<u8>>>, f: Option<Vec<u8>>) -> bool {
    match l {
        Some(list) => f matches Some(v) && list_contains(views(list@), v@),
        None => true,
    }
}

pub open spec fn tok_req_matches(r: PreparedTokenBalanceRequest, b: TokenBalance) -> bool {
    &&& (match r.account {
        Some(l) => list_contains(views(l@), b.account@),
        None => true,
    })
    &&& opt_field_matches(r.pre_mint, b.pre_mint)
    &&& opt_field_matches(r.post_mint, b.post_mint)
    &&& opt_field_matches(r.pre_program_id, b.pre_program_id)
    &&& opt_field_matches(r.post_program_id, b.post_program_id)
    &&& opt_field_matches(r.pre_owner, b.pre_owner)
    &&& opt_field_matches(r.post_owner, b.post_owner)
}

pub open spec fn raw_tok_req_matches(r: TokenBalanceRequest, b: TokenBalance) -> bool {
    &&& (match r.account {
        Some(l) => list_contains(views(l@), b.account@),
        None => true,
    })
    &&& opt_field_matches(r.pre_mint, b.pre_mint)
    &&& opt_field_matches(r.post_mint, b.post_mint)
    &&& opt_field_matches(r.pre_program_id, b.pre_program_id)
    &&& opt_field_matches(r.post_program_id, b.post_program_id)
    &&& opt_field_matches(r.pre_owner, b.pre_owner)
    &&& opt_field_matches(r.post_owner, b.post_owner)
}

pub open spec fn raw_tok_any(reqs: Seq<TokenBalanceRequest>, b: TokenBalance) -> bool {
    exists|i: int| 0 <= i < reqs.len() && raw_tok_req_matches(#[trigger] reqs[i], b)
}

pub open spec fn raw_tok_rel(reqs: Seq<TokenBalanceRequest>, b: TokenBalance, rel: int) -> bool {
    exists|i: int|
        0 <= i < reqs.len() && raw_tok_req_matches(#[trigger] reqs[i], b) && (if rel == 0 {
            reqs[i].transaction
        } else {
            reqs[i].transaction_instructions
        })
}

pub open spec fn tok_any(reqs: Seq<PreparedTokenBalanceRequest>, b: TokenBalance) -> bool {
    exists|i: int| 0 <= i < reqs.len() && tok_req_matches(#[trigger] reqs[i], b)
}

pub open spec fn tok_rel(reqs: Seq<PreparedTokenBalanceRequest>, b: TokenBalance, rel: int) -> bool {
    exists|i: int|
        0 <= i < reqs.len() && tok_req_matches(#[trigger] reqs[i], b) && (if rel == 0 {
            reqs[i].relations.transaction
        } else {
            reqs[i].relations.transaction_instructions
        })
}

/// Some balance of the list makes the relation fire.
pub open spec fn tok_stage_rel(
    reqs: Seq<PreparedTokenBalanceRequest>,
    balances: Seq<TokenBalance>,
    rel: int,
) -> bool {
    exists|j: int| 0 <= j < balances.len() && tok_rel(reqs, #[trigger] balances[j], rel)
}

/// Compiles one token balance request; an empty predicate list compiles it
/// away.
pub fn compile_request(req: TokenBalanceRequest) -> (r: Option<PreparedTokenBalanceRequest>)
    ensures
        r is None <==> ((req.account matches Some(l) && l@.len() == 0) || (req.pre_mint
            matches Some(l) && l@.len() == 0) || (req.post_mint matches Some(l) && l@.len() == 0)
            || (req.pre_program_id matches Some(l) && l@.len() == 0) || (req.post_program_id
            matches Some(l) && l@.len() == 0) || (req.pre_owner matches Some(l) && l@.len() == 0)
            || (req.post_owner matches Some(l) && l@.len() == 0)),
        r matches Some(c) ==> forall|b: TokenBalance| #[trigger]
            tok_req_matches(c, b) == raw_tok_req_matches(req, b),
        r matches Some(c) ==> c.relations.transaction == req.transaction
            && c.relations.transaction_instructions == req.transaction_instructions,
{
    if is_empty_list(&req.account) || is_empty_list(&req.pre_mint) || is_empty_list(
        &req.post_mint,
    ) || is_empty_list(&req.pre_program_id) || is_empty_list(&req.post_program_id)
        || is_empty_list(&req.pre_owner) || is_empty_list(&req.post_owner) {
        return None;
    }
    Some(
        PreparedTokenBalanceRequest {
            account: req.account,
            pre_mint: req.pre_mint,
            post_mint: req.post_mint,
            pre_program_id: req.pre_program_id,
            post_program_id: req.post_program_id,
            pre_owner: req.pre_owner,
            post_owner: req.post_owner,
            relations: BalanceRelations {
                transaction: req.transaction,
                transaction_instructions: req.transaction_instructions,
            },
        },
    )
}

/// True iff the optional list is present and empty.
fn is_empty_list(l: &Option<Vec<Vec<u8>>>) -> (r: bool)
    ensures
        r == (*l matches Some(list) && list@.len() == 0),
{
    match l {
        Some(list) => list.len() == 0,
        None => false,
    }
}

fn eval_one(c: &PreparedTokenBalanceRequest, b: &TokenBalance) -> (r: bool)
    ensures
        r == tok_req_matches(*c, *b),
{
    let ok1: bool = match &c.account {
        Some(l) => contains_bytes(l, b.account.as_slice()),
        None => true,
    };
    if !ok1 {
        return false;
    }
    eval_opt_field(&c.pre_mint, &b.pre_mint) && eval_opt_field(&c.post_mint, &b.post_mint)
        && eval_opt_field(&c.pre_program_id, &b.pre_program_id) && eval_opt_field(
        &c.post_program_id,
        &b.post_program_id,
    ) && eval_opt_field(&c.pre_owner, &b.pre_owner) && eval_opt_field(&c.post_owner, &b.post_owner)
}

/// Evaluates one optional predicate list against one optional field.
fn eval_opt_field(l: &Option<Vec<Vec<u8>>>, f: &Option<Vec<u8>>) -> (r: bool)
    ensures
        r == opt_field_matches(*l, *f),
{
    match l {
        Some(list) => match f {
            Some(v) => contains_bytes(list, v.as_slice()),
            None => false,
        },
        None => true,
    }
}

/// The compiled token balance filter.
pub struct TokenBalanceFilter {
    pub requests: Vec<PreparedTokenBalanceRequest>,
}

impl TokenBalanceFilter {
    /// Compiling keeps the filter's meaning, record by record.
    pub open spec fn corresponds(self, raw: Seq<TokenBalanceRequest>) -> bool {
        &&& forall|b: TokenBalance| #[trigger] tok_any(self.requests@, b) == raw_tok_any(raw, b)
        &&& forall|b: TokenBalance, rel: int| #[trigger]
            tok_rel(self.requests@, b, rel) == raw_tok_rel(raw, b, rel)
    }

    pub fn new(requests: Vec<TokenBalanceRequest>) -> (r: Self)
        ensures
            r.corresponds(requests@),
    {
        let ghost raw = requests@;
        let mut compiled: Vec<PreparedTokenBalanceRequest> = Vec::new();
        let n: usize = requests.len();
        let mut rest = requests;
        let mut i: usize = 0;
        while i < n
            invariant
                i <= n,
                n == raw.len(),
                rest@ == raw.skip(i as int),
                forall|b: TokenBalance| #[trigger]
                    tok_any(compiled@, b) == raw_tok_any(raw.take(i as int), b),
                forall|b: TokenBalance, rel: int| #[trigger]
                    tok_rel(compiled@, b, rel) == raw_tok_rel(raw.take(i as int), b, rel),
            decreases n - i,
        {
            let ghost pre = compiled@;
            let req = rest.remove(0);
            proof {
                assert(req == raw[i as int]);
                assert(rest@ =~= raw.skip(i as int + 1));
            }
            let compiled_one = compile_request(req);
            match compiled_one {
                Some(c) => {
                    compiled.push(c);
                },
                None => {},
            }
            i = i + 1;
            proof {
                let cur = compiled@;
                let rq = raw[i as int - 1];
                assert(raw.take(i as int).drop_last() =~= raw.take(i as int - 1));
                assert(raw.take(i as int).last() == rq);
                assert forall|b: TokenBalance| #[trigger]
                    tok_any(cur, b) == raw_tok_any(raw.take(i as int), b) by {
                    lemma_tok_step(pre, cur, raw, i as int, rq, compiled_one, b);
                }
                assert forall|b: TokenBalance, rel: int| #[trigger]
                    tok_rel(cur, b, rel) == raw_tok_rel(raw.take(i as int), b, rel) by {
                    lemma_tok_step_rel(pre, cur, raw, i as int, rq, compiled_one, b, rel);
                }
            }
        }
        proof {
            assert(raw.take(n as int) =~= raw);
        }
        TokenBalanceFilter { requests: compiled }
    }

    pub fn is_non_trivial(&self) -> (r: bool)
        ensures
            r == (self.requests@.len() > 0),
    {
        self.requests.len() > 0
    }

    /// Runs the token balance stage: every matching record is selected, and
    /// the matched relations select the transaction record and switch all
    /// instructions on.
    pub fn eval(&self, sel: &mut SelectedItems, tx: &TransactionData)
        requires
            old(sel).wf(),
            old(sel).token_balances.spec_len() == tx.token_balances@.len(),
        ensures
            final (sel).wf(),
            final (sel).transaction == (old(sel).transaction || tok_stage_rel(
                self.requests@,
                tx.token_balances@,
                0,
            )),
            final (sel).instructions.spec_len() == old(sel).instructions.spec_len(),
            final (sel).token_balances.spec_len() == old(sel).token_balances.spec_len(),
            final (sel).balances == old(sel).balances,
            final (sel).instructions.spec_includes_all() == (
            old(sel).instructions.spec_includes_all() || tok_stage_rel(
                self.requests@,
                tx.token_balances@,
                1,
            )),
            final (sel).token_balances.spec_includes_all() == old(sel).token_balances.spec_includes_all(),
            forall|j: int|
                #![auto]
                final (sel).token_balances.selected(j) == (old(sel).token_balances.selected(j) || (0 <= j
                    < tx.token_balances@.len() && tok_any(self.requests@, tx.token_balances@[j]))),
            forall|j: int|
                final (sel).instructions.selected(j) == (old(sel).instructions.selected(j) || (
                tok_stage_rel(self.requests@, tx.token_balances@, 1) && 0 <= j < old(
                    sel,
                ).instructions.spec_len())),
    {
        let mut j: usize = 0;
        while j < tx.token_balances.len()
            invariant
                j <= tx.token_balances@.len(),
                sel.wf(),
                sel.token_balances.spec_len() == tx.token_balances@.len(),
                sel.instructions.spec_len() == old(sel).instructions.spec_len(),
                sel.token_balances.spec_includes_all() == old(sel).token_balances.spec_includes_all(),
                sel.balances == old(sel).balances,
                sel.transaction == (old(sel).transaction || (exists|j2: int|
                    #![auto]
                    0 <= j2 < j && tok_rel(self.requests@, tx.token_balances@[j2], 0))),
                sel.instructions.spec_includes_all() == (old(sel).instructions.spec_includes_all()
                    || (exists|j2: int|
                    #![auto]
                    0 <= j2 < j && tok_rel(self.requests@, tx.token_balances@[j2], 1))),
                forall|j2: int|
                    #![auto]
                    sel.token_balances.selected(j2) == (old(sel).token_balances.selected(j2) || (0 <= j2 < j
                        && tok_any(self.requests@, tx.token_balances@[j2]))),
                forall|j2: int|
                    #![auto]
                    sel.instructions.selected(j2) == (old(sel).instructions.selected(j2) || ((
                    exists|j3: int|
                        #![auto]
                        0 <= j3 < j && tok_rel(self.requests@, tx.token_balances@[j3], 1))
                        && 0 <= j2 < old(sel).instructions.spec_len())),
            decreases tx.token_balances@.len() - j,
        {
            let b = &tx.token_balances[j];
            let mut pass: bool = false;
            let mut rel_tx: bool = false;
            let mut rel_ins: bool = false;
            let mut i: usize = 0;
            while i < self.requests.len()
                invariant
                    i <= self.requests@.len(),
                    j < tx.token_balances@.len(),
                    b == &tx.token_balances@[j as int],
                    pass == (exists|k: int|
                        0 <= k < i && tok_req_matches(#[trigger] self.requests@[k], *b)),
                    rel_tx == (exists|k: int|
                        0 <= k < i && tok_req_matches(#[trigger] self.requests@[k], *b)
                            && self.requests@[k].relations.transaction),
                    rel_ins == (exists|k: int|
                        0 <= k < i && tok_req_matches(#[trigger] self.requests@[k], *b)
                            && self.requests@[k].relations.transaction_instructions),
                decreases self.requests@.len() - i,
            {
                if eval_one(&self.requests[i], b) {
                    pass = true;
                    rel_tx = rel_tx || self.requests[i].relations.transaction;
                    rel_ins = rel_ins || self.requests[i].relations.transaction_instructions;
                }
                i = i + 1;
            }
            proof {
                assert(pass == tok_any(self.requests@, tx.token_balances@[j as int]));
                assert(rel_tx == tok_rel(self.requests@, tx.token_balances@[j as int], 0));
                assert(rel_ins == tok_rel(self.requests@, tx.token_balances@[j as int], 1));
            }
            let ghost mid = *sel;
            if pass {
                sel.token_balances.add(j);
                sel.transaction = sel.transaction || rel_tx;
                sel.instructions.add_all(rel_ins);
            }
            proof {
                let jj = j as int;
                let reqs = self.requests@;
                let bs = tx.token_balances@;
                assert forall|j2: int|
                    #![auto]
                    sel.token_balances.selected(j2) == (old(sel).token_balances.selected(j2) || (0 <= j2 < jj
                        + 1 && tok_any(reqs, bs[j2]))) by {
                    assert(mid.token_balances.selected(j2) == (old(sel).token_balances.selected(j2) || (0
                        <= j2 < jj && tok_any(reqs, bs[j2]))));
                    if j2 == jj {
                        assert(pass == tok_any(reqs, bs[jj]));
                    }
                }
                assert(sel.transaction == (old(sel).transaction || (exists|j3: int|
                    #![auto]
                    0 <= j3 < jj + 1 && tok_rel(reqs, bs[j3], 0)))) by {
                    if rel_tx {
                        assert(tok_rel(reqs, bs[jj], 0));
                    }
                    if sel.transaction && !old(sel).transaction {
                    }
                    if exists|j3: int| #![auto] 0 <= j3 < jj + 1 && tok_rel(reqs, bs[j3], 0) {
                        let w = choose|j3: int| 0 <= j3 < jj + 1 && tok_rel(reqs, bs[j3], 0);
                        if w == jj {
                            assert(rel_tx);
                        }
                    }
                }
                assert(sel.instructions.spec_includes_all() == (old(
                    sel,
                ).instructions.spec_includes_all() || (exists|j3: int|
                    0 <= j3 < jj + 1 && tok_rel(reqs, #[trigger] bs[j3], 1)))) by {
                    if rel_ins {
                        assert(tok_rel(reqs, bs[jj], 1));
                    }
                    if exists|j3: int| #![auto] 0 <= j3 < jj + 1 && tok_rel(reqs, bs[j3], 1) {
                        let w = choose|j3: int| 0 <= j3 < jj + 1 && tok_rel(reqs, bs[j3], 1);
                        if w == jj {
                            assert(rel_ins);
                        }
                    }
                }
                assert forall|j2: int|
                    #![auto]
                    sel.instructions.selected(j2) == (old(sel).instructions.selected(j2) || ((
                    exists|j3: int| #![auto] 0 <= j3 < jj + 1 && tok_rel(reqs, bs[j3], 1)) && 0
                        <= j2 < old(sel).instructions.spec_len())) by {
                    if rel_ins {
                        assert(tok_rel(reqs, bs[jj], 1));
                    }
                    if exists|j3: int| #![auto] 0 <= j3 < jj + 1 && tok_rel(reqs, bs[j3], 1) {
                        let w = choose|j3: int| 0 <= j3 < jj + 1 && tok_rel(reqs, bs[j3], 1);
                        if w == jj {
                            assert(rel_ins);
                        }
                    }
                }
            }
            j = j + 1;
        }
        proof {
            assert((exists|j2: int|
                #![auto]
                0 <= j2 < tx.token_balances@.len() && tok_rel(
                    self.requests@,
                    tx.token_balances@[j2],
                    0,
                )) == tok_stage_rel(self.requests@, tx.token_balances@, 0));
            assert((exists|j2: int|
                #![auto]
                0 <= j2 < tx.token_balances@.len() && tok_rel(
                    self.requests@,
                    tx.token_balances@[j2],
                    1,
                )) == tok_stage_rel(self.requests@, tx.token_balances@, 1));
        }
    }
}

proof fn lemma_tok_step(
    pre: Seq<PreparedTokenBalanceRequest>,
    cur: Seq<PreparedTokenBalanceRequest>,
    raw: Seq<TokenBalanceRequest>,
    i: int,
    rq: TokenBalanceRequest,
    compiled_one: Option<PreparedTokenBalanceRequest>,
    b: TokenBalance,
)
    requires
        1 <= i <= raw.len(),
        rq == raw[i - 1],
        tok_any(pre, b) == raw_tok_any(raw.take(i - 1), b),
        match compiled_one {
            Some(c) => cur == pre.push(c) && forall|b2: TokenBalance| #[trigger]
                tok_req_matches(c, b2) == raw_tok_req_matches(rq, b2),
            None => cur == pre && (((rq.account matches Some(l) && l@.len() == 0) || (rq.pre_mint matches Some(l) && l@.len() == 0) || (rq.post_mint matches Some(l) && l@.len() == 0) || (rq.pre_program_id matches Some(l) && l@.len() == 0) || (rq.post_program_id matches Some(l) && l@.len() == 0) || (rq.pre_owner matches Some(l) && l@.len() == 0) || (rq.post_owner matches Some(l) && l@.len() == 0))),
        },
    ensures
        tok_any(cur, b) == raw_tok_any(raw.take(i), b),
{
    assert(raw.take(i).drop_last() =~= raw.take(i - 1));
    assert(raw.take(i).last() == raw[i - 1]);
    match compiled_one {
        Some(c) => {
            assert(tok_req_matches(c, b) == raw_tok_req_matches(rq, b));
            if tok_any(cur, b) {
                let k = choose|k: int| 0 <= k < cur.len() && tok_req_matches(#[trigger] cur[k], b);
                if k < pre.len() {
                    assert(raw_tok_any(raw.take(i - 1), b));
                    let m = choose|m: int|
                        0 <= m < raw.take(i - 1).len() && raw_tok_req_matches(
                            #[trigger] raw.take(i - 1)[m],
                            b,
                        );
                    assert(raw_tok_req_matches(raw.take(i)[m], b));
                } else {
                    assert(raw_tok_req_matches(raw.take(i)[i - 1], b));
                }
            }
            if raw_tok_any(raw.take(i), b) {
                let m = choose|m: int|
                    0 <= m < raw.take(i).len() && raw_tok_req_matches(#[trigger] raw.take(i)[m], b);
                if m < i - 1 {
                    assert(raw_tok_req_matches(raw.take(i - 1)[m], b));
                    let k = choose|k: int|
                        0 <= k < pre.len() && tok_req_matches(#[trigger] pre[k], b);
                    assert(tok_req_matches(cur[k], b));
                } else {
                    assert(tok_req_matches(cur[cur.len() - 1], b));
                }
            }
        },
        None => {
            assert(forall|b2: TokenBalance| !raw_tok_req_matches(rq, b2));
            if raw_tok_any(raw.take(i), b) {
                let m = choose|m: int|
                    0 <= m < raw.take(i).len() && raw_tok_req_matches(#[trigger] raw.take(i)[m], b);
                assert(m < i - 1);
                assert(raw_tok_req_matches(raw.take(i - 1)[m], b));
            }
            if raw_tok_any(raw.take(i - 1), b) {
                let m = choose|m: int|
                    0 <= m < raw.take(i - 1).len() && raw_tok_req_matches(
                        #[trigger] raw.take(i - 1)[m],
                        b,
                    );
                assert(raw_tok_req_matches(raw.take(i)[m], b));
            }
        },
    }
}

proof fn lemma_tok_step_rel(
    pre: Seq<PreparedTokenBalanceRequest>,
    cur: Seq<PreparedTokenBalanceRequest>,
    raw: Seq<TokenBalanceRequest>,
    i: int,
    rq: TokenBalanceRequest,
    compiled_one: Option<PreparedTokenBalanceRequest>,
    b: TokenBalance,
    rel: int,
)
    requires
        1 <= i <= raw.len(),
        rq == raw[i - 1],
        tok_rel(pre, b, rel) == raw_tok_rel(raw.take(i - 1), b, rel),
        match compiled_one {
            Some(c) => cur == pre.push(c) && (forall|b2: TokenBalance| #[trigger]
                tok_req_matches(c, b2) == raw_tok_req_matches(rq, b2)) && c.relations.transaction
                == rq.transaction && c.relations.transaction_instructions
                == rq.transaction_instructions,
            None => cur == pre && (((rq.account matches Some(l) && l@.len() == 0) || (rq.pre_mint matches Some(l) && l@.len() == 0) || (rq.post_mint matches Some(l) && l@.len() == 0) || (rq.pre_program_id matches Some(l) && l@.len() == 0) || (rq.post_program_id matches Some(l) && l@.len() == 0) || (rq.pre_owner matches Some(l) && l@.len() == 0) || (rq.post_owner matches Some(l) && l@.len() == 0))),
        },
    ensures
        tok_rel(cur, b, rel) == raw_tok_rel(raw.take(i), b, rel),
{
    assert(raw.take(i).drop_last() =~= raw.take(i - 1));
    assert(raw.take(i).last() == raw[i - 1]);
    match compiled_one {
        Some(c) => {
            assert(tok_req_matches(c, b) == raw_tok_req_matches(rq, b));
            if tok_rel(cur, b, rel) {
                let k = choose|k: int|
                    0 <= k < cur.len() && tok_req_matches(#[trigger] cur[k], b) && (if rel == 0 {
                        cur[k].relations.transaction
                    } else {
                        cur[k].relations.transaction_instructions
                    });
                if k < pre.len() {
                    assert(tok_rel(pre, b, rel));
                    let m = choose|m: int|
                        0 <= m < raw.take(i - 1).len() && raw_tok_req_matches(
                            #[trigger] raw.take(i - 1)[m],
                            b,
                        ) && (if rel == 0 {
                            raw.take(i - 1)[m].transaction
                        } else {
                            raw.take(i - 1)[m].transaction_instructions
                        });
                    assert(raw.take(i)[m] == raw.take(i - 1)[m]);
                    assert(raw_tok_rel(raw.take(i), b, rel));
                } else {
                    assert(raw.take(i)[i - 1] == rq);
                    assert(raw_tok_rel(raw.take(i), b, rel));
                }
            }
            if raw_tok_rel(raw.take(i), b, rel) {
                let m = choose|m: int|
                    0 <= m < raw.take(i).len() && raw_tok_req_matches(#[trigger] raw.take(i)[m], b)
                        && (if rel == 0 {
                        raw.take(i)[m].transaction
                    } else {
                        raw.take(i)[m].transaction_instructions
                    });
                if m < i - 1 {
                    assert(raw.take(i - 1)[m] == raw.take(i)[m]);
                    assert(raw_tok_rel(raw.take(i - 1), b, rel));
                    let k = choose|k: int|
                        0 <= k < pre.len() && tok_req_matches(#[trigger] pre[k], b) && (if rel == 0 {
                            pre[k].relations.transaction
                        } else {
                            pre[k].relations.transaction_instructions
                        });
                    assert(cur[k] == pre[k]);
                    assert(tok_rel(cur, b, rel));
                } else {
                    assert(tok_req_matches(cur[cur.len() - 1], b));
                    assert(tok_rel(cur, b, rel));
                }
            }
        },
        None => {
            assert(forall|b2: TokenBalance| !raw_tok_req_matches(rq, b2));
            if raw_tok_rel(raw.take(i), b, rel) {
                let m = choose|m: int|
                    0 <= m < raw.take(i).len() && raw_tok_req_matches(#[trigger] raw.take(i)[m], b)
                        && (if rel == 0 {
                        raw.take(i)[m].transaction
                    } else {
                        raw.take(i)[m].transaction_instructions
                    });
                assert(m < i - 1);
                assert(raw.take(i - 1)[m] == raw.take(i)[m]);
                assert(raw_tok_rel(raw.take(i - 1), b, rel));
            }
            if raw_tok_rel(raw.take(i - 1), b, rel) {
                let m = choose|m: int|
                    0 <= m < raw.take(i - 1).len() && raw_tok_req_matches(
                        #[trigger] raw.take(i - 1)[m],
                        b,
                    ) && (if rel == 0 {
                        raw.take(i - 1)[m].transaction
                    } else {
                        raw.take(i - 1)[m].transaction_instructions
                    });
                assert(raw.take(i)[m] == raw.take(i - 1)[m]);
                assert(raw_tok_rel(raw.take(i), b, rel));
            }
        },
    }
}

} // verus!
