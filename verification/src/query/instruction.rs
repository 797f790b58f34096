//! Instruction-level requests: compilation, evaluation, and the inner and
//! parent closure walks.
use crate::data::is_strict_prefix;
use crate::data::last_idx_with_len;
use crate::data::parent_linked;
use crate::data::Instruction;
use crate::data::TransactionData;
use crate::query::item_filter::contains_bytes;
use crate::query::item_filter::list_contains;
use crate::query::item_filter::views;
use crate::query::model::InstructionRequest;
use crate::query::selected_items::SelectedItems;
use crate::query::util::hex_decode;
use crate::query::util::hex_ok;
use crate::query::util::parse_hex;
use vstd::prelude::*;

verus! {

/// The related items a matching instruction request pulls in.
#[derive(Debug, Clone, Copy)]
pub struct InstructionRelations {
    pub transaction: bool,
    pub transaction_instructions: bool,
    pub transaction_balances: bool,
    pub transaction_token_balances: bool,
    pub inner_instructions: bool,
    pub parent_instructions: bool,
    pub logs: bool,
}

/// A compiled instruction request. `discriminator` holds the parsed byte
/// prefixes, or `None` when the predicate is absent or disabled.
#[derive(Debug, Clone)]
pub struct PreparedInstructionRequest {
    pub program_id: Option<Vec<Vec<u8>>>,
    pub discriminator: Option<Vec<Vec<u8>>>,
    pub mentions_account: Option<Vec<Vec<u8>>>,
    pub a0: Option<Vec<Vec<u8>>>,
    pub a1: Option<Vec<Vec<u8>>>,
    pub a2: Option<Vec<Vec<u8>>>,
    pub a3: Option<Vec<Vec<u8>>>,
    pub a4: Option<Vec<Vec<u8>>>,
    pub a5: Option<Vec<Vec<u8>>>,
    pub a6: Option<Vec<Vec<u8>>>,
    pub a7: Option<Vec<Vec<u8>>>,
    pub a8: Option<Vec<Vec<u8>>>,
    pub a9: Option<Vec<Vec<u8>>>,
    pub a10: Option<Vec<Vec<u8>>>,
    pub a11: Option<Vec<Vec<u8>>>,
    pub a12: Option<Vec<Vec<u8>>>,
    pub a13: Option<Vec<Vec<u8>>>,
    pub a14: Option<Vec<Vec<u8>>>,
    pub a15: Option<Vec<Vec<u8>>>,
    pub is_committed: Option<bool>,
    pub relations: InstructionRelations,
}

/// `p` is a prefix of `d`.
pub open spec fn is_prefix_of(p: Seq<u8>, d: Seq<u8>) -> bool {
    p.len() <= d.len() && d.take(p.len() as int) == p
}

/// A positional account predicate: the instruction must have an `n`-th
/// account and it must be in the list.
pub open spec fn pos_matches(
    l: Option<Vec<Vec<u8>>>,
    n: int,
    ins: Instruction,
    accounts: Seq<Seq<u8>>,
) -> bool {
    match l {
        Some(list) => ins.accounts@.len() > n && list_contains(
            views(list@),
            accounts[ins.accounts@[n] as int],
        ),
        None => true,
    }
}

pub open spec fn ins_req_matches(
    r: PreparedInstructionRequest,
    ins: Instruction,
    accounts: Seq<Seq<u8>>,
) -> bool {
    &&& (match r.program_id {
        Some(l) => list_contains(views(l@), accounts[ins.program_id as int]),
        None => true,
    })
    &&& (match r.discriminator {
        Some(pl) => exists|d: int|
            0 <= d < pl@.len() && is_prefix_of(#[trigger] views(pl@)[d], ins.binary_data@),
        None => true,
    })
    &&& (match r.mentions_account {
        Some(l) => exists|i: int|
            0 <= i < ins.accounts@.len() && list_contains(
                views(l@),
                accounts[#[trigger] ins.accounts@[i] as int],
            ),
        None => true,
    })
    &&& pos_matches(r.a0, 0, ins, accounts)
    &&& pos_matches(r.a1, 1, ins, accounts)
    &&& pos_matches(r.a2, 2, ins, accounts)
    &&& pos_matches(r.a3, 3, ins, accounts)
    &&& pos_matches(r.a4, 4, ins, accounts)
    &&& pos_matches(r.a5, 5, ins, accounts)
    &&& pos_matches(r.a6, 6, ins, accounts)
    &&& pos_matches(r.a7, 7, ins, accounts)
    &&& pos_matches(r.a8, 8, ins, accounts)
    &&& pos_matches(r.a9, 9, ins, accounts)
    &&& pos_matches(r.a10, 10, ins, accounts)
    &&& pos_matches(r.a11, 11, ins, accounts)
    &&& pos_matches(r.a12, 12, ins, accounts)
    &&& pos_matches(r.a13, 13, ins, accounts)
    &&& pos_matches(r.a14, 14, ins, accounts)
    &&& pos_matches(r.a15, 15, ins, accounts)
    &&& (match r.is_committed {
        Some(v) => ins.is_committed == v,
        None => true,
    })
}

/// The discriminator prefixes that parse: strings that are not `0x`-prefixed
/// even-length hex are silently dropped.
pub open spec fn parsed_discs(l: Seq<Seq<u8>>) -> Seq<Seq<u8>>
    decreases l.len(),
{
    if l.len() == 0 {
        Seq::empty()
    } else {
        parsed_discs(l.drop_last()) + (if hex_ok(l.last()) {
            seq![hex_decode(l.last().skip(2))]
        } else {
            Seq::empty()
        })
    }
}

/// Some parsed prefix is empty; that disables the predicate entirely.
pub open spec fn has_empty(p: Seq<Seq<u8>>) -> bool {
    exists|i: int| 0 <= i < p.len() && (#[trigger] p[i]).len() == 0
}

/// What a raw instruction request describes, directly over the query record.
pub open spec fn raw_ins_req_matches(
    r: InstructionRequest,
    ins: Instruction,
    accounts: Seq<Seq<u8>>,
) -> bool {
    &&& (match r.program_id {
        Some(l) => list_contains(views(l@), accounts[ins.program_id as int]),
        None => true,
    })
    &&& (match r.discriminator {
        Some(l) => parsed_discs(views(l@)).len() > 0 && (has_empty(parsed_discs(views(l@)))
            || exists|d: int|
            0 <= d < parsed_discs(views(l@)).len() && is_prefix_of(
                #[trigger] parsed_discs(views(l@))[d],
                ins.binary_data@,
            )),
        None => true,
    })
    &&& (match r.mentions_account {
        Some(l) => exists|i: int|
            0 <= i < ins.accounts@.len() && list_contains(
                views(l@),
                accounts[#[trigger] ins.accounts@[i] as int],
            ),
        None => true,
    })
    &&& pos_matches(r.a0, 0, ins, accounts)
    &&& pos_matches(r.a1, 1, ins, accounts)
    &&& pos_matches(r.a2, 2, ins, accounts)
    &&& pos_matches(r.a3, 3, ins, accounts)
    &&& pos_matches(r.a4, 4, ins, accounts)
    &&& pos_matches(r.a5, 5, ins, accounts)
    &&& pos_matches(r.a6, 6, ins, accounts)
    &&& pos_matches(r.a7, 7, ins, accounts)
    &&& pos_matches(r.a8, 8, ins, accounts)
    &&& pos_matches(r.a9, 9, ins, accounts)
    &&& pos_matches(r.a10, 10, ins, accounts)
    &&& pos_matches(r.a11, 11, ins, accounts)
    &&& pos_matches(r.a12, 12, ins, accounts)
    &&& pos_matches(r.a13, 13, ins, accounts)
    &&& pos_matches(r.a14, 14, ins, accounts)
    &&& pos_matches(r.a15, 15, ins, accounts)
    &&& (match r.is_committed {
        Some(v) => ins.is_committed == v,
        None => true,
    })
}

/// True iff the raw request compiles away as unsatisfiable: some predicate
/// list is empty, or no discriminator string parses.
pub open spec fn raw_ins_compiles_away(r: InstructionRequest) -> bool {
    ||| (r.program_id matches Some(l) && l@.len() == 0)
    ||| (r.discriminator matches Some(l) && parsed_discs(views(l@)).len() == 0)
    ||| (r.mentions_account matches Some(l) && l@.len() == 0)
    ||| (r.a0 matches Some(l) && l@.len() == 0)
    ||| (r.a1 matches Some(l) && l@.len() == 0)
    ||| (r.a2 matches Some(l) && l@.len() == 0)
    ||| (r.a3 matches Some(l) && l@.len() == 0)
    ||| (r.a4 matches Some(l) && l@.len() == 0)
    ||| (r.a5 matches Some(l) && l@.len() == 0)
    ||| (r.a6 matches Some(l) && l@.len() == 0)
    ||| (r.a7 matches Some(l) && l@.len() == 0)
    ||| (r.a8 matches Some(l) && l@.len() == 0)
    ||| (r.a9 matches Some(l) && l@.len() == 0)
    ||| (r.a10 matches Some(l) && l@.len() == 0)
    ||| (r.a11 matches Some(l) && l@.len() == 0)
    ||| (r.a12 matches Some(l) && l@.len() == 0)
    ||| (r.a13 matches Some(l) && l@.len() == 0)
    ||| (r.a14 matches Some(l) && l@.len() == 0)
    ||| (r.a15 matches Some(l) && l@.len() == 0)
}

/// True iff the optional list is present and empty.
fn is_empty_list(l: &Option<Vec<Vec<u8>>>) -> (r: bool)
    ensures
        r == (*l matches Some(list) && list@.len() == 0),
{
    match l {
        Some(list) => list.len() == 0,
        None => false,
    }
}

/// Compiles one instruction request. A request with an empty predicate list,
/// or whose discriminator strings none parse, is unsatisfiable and compiles
/// away; a discriminator set containing an empty prefix disables that
/// predicate entirely.
pub fn compile_instruction_request(req: InstructionRequest) -> (r: Option<
    PreparedInstructionRequest,
>)
    ensures
        r is None <==> raw_ins_compiles_away(req),
        r matches Some(c) ==> forall|ins: Instruction, accounts: Seq<Seq<u8>>| #[trigger]
            ins_req_matches(c, ins, accounts) == raw_ins_req_matches(req, ins, accounts),
        r matches Some(c) ==> c.relations.transaction == req.transaction
            && c.relations.transaction_instructions == req.transaction_instructions
            && c.relations.transaction_balances == req.transaction_balances
            && c.relations.transaction_token_balances == req.transaction_token_balances
            && c.relations.inner_instructions == req.inner_instructions
            && c.relations.parent_instructions == req.parent_instructions && c.relations.logs
            == req.logs,
{
    if is_empty_list(&req.program_id) || is_empty_list(&req.mentions_account) || is_empty_list(
        &req.a0,
    ) || is_empty_list(&req.a1) || is_empty_list(&req.a2) || is_empty_list(&req.a3)
        || is_empty_list(&req.a4) || is_empty_list(&req.a5) || is_empty_list(&req.a6)
        || is_empty_list(&req.a7) || is_empty_list(&req.a8) || is_empty_list(&req.a9)
        || is_empty_list(&req.a10) || is_empty_list(&req.a11) || is_empty_list(&req.a12)
        || is_empty_list(&req.a13) || is_empty_list(&req.a14) || is_empty_list(&req.a15) {
        return None;
    }
    let disc: Option<Vec<Vec<u8>>> = match &req.discriminator {
        Some(l) => {
            let mut parsed: Vec<Vec<u8>> = Vec::new();
            let mut any_empty: bool = false;
            let mut i: usize = 0;
            while i < l.len()
                invariant
                    i <= l@.len(),
                    views(parsed@) =~~= parsed_discs(views(l@).take(i as int)),
                    any_empty == has_empty(parsed_discs(views(l@).take(i as int))),
                decreases l@.len() - i,
            {
                let ghost pre = views(parsed@);
                match parse_hex(l[i].as_slice()) {
                    Some(bytes) => {
                        if bytes.len() == 0 {
                            any_empty = true;
                        }
                        let ghost bv = bytes@;
                        parsed.push(bytes);
                        proof {
                            assert(views(parsed@) =~~= pre.push(bv));
                        }
                    },
                    None => {},
                }
                i = i + 1;
                proof {
                    let lv = views(l@);
                    assert(lv.take(i as int).drop_last() =~= lv.take(i as int - 1));
                    assert(lv.take(i as int).last() == lv[i as int - 1]);
                    assert(views(parsed@) =~~= parsed_discs(lv.take(i as int)));
                    let cur = parsed_discs(lv.take(i as int));
                    let prev = parsed_discs(lv.take(i as int - 1));
                    assert(has_empty(cur) == (has_empty(prev) || (hex_ok(lv[i as int - 1])
                        && hex_decode(lv[i as int - 1].skip(2)).len() == 0))) by {
                        if hex_ok(lv[i as int - 1]) {
                            assert(cur =~~= prev + seq![hex_decode(lv[i as int - 1].skip(2))]);
                            if hex_decode(lv[i as int - 1].skip(2)).len() == 0 {
                                assert(cur[prev.len() as int].len() == 0);
                                assert(has_empty(cur));
                            }
                        } else {
                            assert(cur =~~= prev);
                            assert(cur == prev);
                        }
                        if has_empty(prev) {
                            let w = choose|k: int| 0 <= k < prev.len() && (#[trigger] prev[k]).len()
                                == 0;
                            assert(cur[w].len() == 0);
                        }
                        if has_empty(cur) {
                            let w = choose|k: int| 0 <= k < cur.len() && (#[trigger] cur[k]).len()
                                == 0;
                            if w < prev.len() {
                                assert(prev[w].len() == 0);
                            }
                        }
                    }
                }
            }
            proof {
                assert(views(l@).take(views(l@).len() as int) =~= views(l@));
            }
            if parsed.len() == 0 {
                proof {
                    assert(parsed_discs(views(l@)).len() == views(parsed@).len());
                }
                return None;
            }
            if any_empty {
                None
            } else {
                Some(parsed)
            }
        },
        None => None,
    };
    let c = PreparedInstructionRequest {
        program_id: req.program_id,
        discriminator: disc,
        mentions_account: req.mentions_account,
        a0: req.a0,
        a1: req.a1,
        a2: req.a2,
        a3: req.a3,
        a4: req.a4,
        a5: req.a5,
        a6: req.a6,
        a7: req.a7,
        a8: req.a8,
        a9: req.a9,
        a10: req.a10,
        a11: req.a11,
        a12: req.a12,
        a13: req.a13,
        a14: req.a14,
        a15: req.a15,
        is_committed: req.is_committed,
        relations: InstructionRelations {
            transaction: req.transaction,
            transaction_instructions: req.transaction_instructions,
            transaction_balances: req.transaction_balances,
            transaction_token_balances: req.transaction_token_balances,
            inner_instructions: req.inner_instructions,
            parent_instructions: req.parent_instructions,
            logs: req.logs,
        },
    };
    proof {
        assert forall|ins: Instruction, accounts: Seq<Seq<u8>>| #[trigger]
            ins_req_matches(c, ins, accounts) == raw_ins_req_matches(req, ins, accounts) by {
            match req.discriminator {
                Some(l) => {
                    let p = parsed_discs(views(l@));
                    assert(p.len() > 0);
                    if has_empty(p) {
                        assert(c.discriminator is None);
                    } else {
                        assert(c.discriminator matches Some(pv) && views(pv@) =~~= p);
                        match c.discriminator {
                            Some(pv) => {
                                assert((exists|d: int|
                                    0 <= d < pv@.len() && is_prefix_of(
                                        #[trigger] views(pv@)[d],
                                        ins.binary_data@,
                                    )) == (exists|d: int|
                                    0 <= d < p.len() && is_prefix_of(
                                        #[trigger] p[d],
                                        ins.binary_data@,
                                    ))) by {
                                    assert(views(pv@) == p);
                                }
                            },
                            None => {},
                        }
                    }
                },
                None => {
                    assert(c.discriminator is None);
                },
            }
        }
    }
    Some(c)
}



fn starts_with_prefix(data: &[u8], p: &[u8]) -> (r: bool)
    ensures
        r == is_prefix_of(p@, data@),
{
    if p.len() > data.len() {
        return false;
    }
    let mut i: usize = 0;
    while i < p.len()
        invariant
            i <= p@.len(),
            p@.len() <= data@.len(),
            forall|j: int| 0 <= j < i ==> data@[j] == p@[j],
        decreases p@.len() - i,
    {
        if data[i] != p[i] {
            proof {
                assert(data@.take(p@.len() as int)[i as int] != p@[i as int]);
            }
            return false;
        }
        i = i + 1;
    }
    proof {
        assert(data@.take(p@.len() as int) =~= p@);
    }
    true
}

fn eval_pos(l: &Option<Vec<Vec<u8>>>, n: usize, ins: &Instruction, accounts: &Vec<Vec<u8>>) -> (r:
    bool)
    requires
        ins.wf(accounts@.len() as int),
    ensures
        r == pos_matches(*l, n as int, *ins, views(accounts@)),
{
    match l {
        Some(list) => {
            if n < ins.accounts.len() {
                let idx: usize = ins.accounts[n] as usize;
                proof {
                    assert(views(accounts@)[idx as int] == accounts@[idx as int]@);
                }
                contains_bytes(list, accounts[idx].as_slice())
            } else {
                false
            }
        },
        None => true,
    }
}

/// Evaluates one compiled request against one instruction.
fn eval_one(c: &PreparedInstructionRequest, ins: &Instruction, accounts: &Vec<Vec<u8>>) -> (r:
    bool)
    requires
        ins.wf(accounts@.len() as int),
    ensures
        r == ins_req_matches(*c, *ins, views(accounts@)),
{
    match &c.program_id {
        Some(l) => {
            let idx: usize = ins.program_id as usize;
            proof {
                assert(views(accounts@)[idx as int] == accounts@[idx as int]@);
            }
            if !contains_bytes(l, accounts[idx].as_slice()) {
                return false;
            }
        },
        None => {},
    }
    match &c.discriminator {
        Some(pl) => {
            let mut hit: bool = false;
            let mut d: usize = 0;
            while d < pl.len()
                invariant
                    d <= pl@.len(),
                    hit ==> exists|d2: int|
                        0 <= d2 < pl@.len() && is_prefix_of(
                            #[trigger] views(pl@)[d2],
                            ins.binary_data@,
                        ),
                    !hit ==> forall|d2: int|
                        0 <= d2 < d ==> !is_prefix_of(
                            #[trigger] views(pl@)[d2],
                            ins.binary_data@,
                        ),
                decreases pl@.len() - d,
            {
                if starts_with_prefix(ins.binary_data.as_slice(), pl[d].as_slice()) {
                    hit = true;
                    proof {
                        assert(is_prefix_of(views(pl@)[d as int], ins.binary_data@));
                    }
                }
                d = d + 1;
            }
            if !hit {
                return false;
            }
        },
        None => {},
    }
    match &c.mentions_account {
        Some(l) => {
            let mut hit: bool = false;
            let mut i: usize = 0;
            while i < ins.accounts.len()
                invariant
                    i <= ins.accounts@.len(),
                    ins.wf(accounts@.len() as int),
                    hit ==> exists|i2: int|
                        0 <= i2 < ins.accounts@.len() && list_contains(
                            views(l@),
                            views(accounts@)[#[trigger] ins.accounts@[i2] as int],
                        ),
                    !hit ==> forall|i2: int|
                        0 <= i2 < i ==> !list_contains(
                            views(l@),
                            views(accounts@)[#[trigger] ins.accounts@[i2] as int],
                        ),
                decreases ins.accounts@.len() - i,
            {
                let idx: usize = ins.accounts[i] as usize;
                proof {
                    assert(views(accounts@)[idx as int] == accounts@[idx as int]@);
                }
                if contains_bytes(l, accounts[idx].as_slice()) {
                    hit = true;
                    proof {
                        assert(list_contains(
                            views(l@),
                            views(accounts@)[ins.accounts@[i as int] as int],
                        ));
                    }
                }
                i = i + 1;
            }
            if !hit {
                return false;
            }
        },
        None => {},
    }
    if !eval_pos(&c.a0, 0, ins, accounts) {
        return false;
    }
    if !eval_pos(&c.a1, 1, ins, accounts) {
        return false;
    }
    if !eval_pos(&c.a2, 2, ins, accounts) {
        return false;
    }
    if !eval_pos(&c.a3, 3, ins, accounts) {
        return false;
    }
    if !eval_pos(&c.a4, 4, ins, accounts) {
        return false;
    }
    if !eval_pos(&c.a5, 5, ins, accounts) {
        return false;
    }
    if !eval_pos(&c.a6, 6, ins, accounts) {
        return false;
    }
    if !eval_pos(&c.a7, 7, ins, accounts) {
        return false;
    }
    if !eval_pos(&c.a8, 8, ins, accounts) {
        return false;
    }
    if !eval_pos(&c.a9, 9, ins, accounts) {
        return false;
    }
    if !eval_pos(&c.a10, 10, ins, accounts) {
        return false;
    }
    if !eval_pos(&c.a11, 11, ins, accounts) {
        return false;
    }
    if !eval_pos(&c.a12, 12, ins, accounts) {
        return false;
    }
    if !eval_pos(&c.a13, 13, ins, accounts) {
        return false;
    }
    if !eval_pos(&c.a14, 14, ins, accounts) {
        return false;
    }
    if !eval_pos(&c.a15, 15, ins, accounts) {
        return false;
    }
    match c.is_committed {
        Some(v) => {
            if ins.is_committed != v {
                return false;
            }
        },
        None => {},
    }
    true
}


/// The first position after `j - 1` that is not a descendant of the
/// instruction at `i` (the forward walk stops there).
pub open spec fn inner_stop(addrs: Seq<Seq<usize>>, i: int, j: int) -> int
    decreases addrs.len() - j,
{
    if j >= addrs.len() || j < 0 || !is_strict_prefix(addrs[i], addrs[j]) {
        j
    } else {
        inner_stop(addrs, i, j + 1)
    }
}

/// True iff `j` lies in the inner subtree selected by a match at `i`.
pub open spec fn in_inner_extent(addrs: Seq<Seq<usize>>, i: int, j: int) -> bool {
    i < j < inner_stop(addrs, i, i + 1)
}

/// True iff `m` is marked by the backward parent walk that is at position
/// `j`, still looking for an address of length `l`.
pub open spec fn in_parent_marks(addrs: Seq<Seq<usize>>, j: int, l: int, m: int) -> bool
    decreases j + 1,
{
    if j < 0 || l <= 0 {
        false
    } else if addrs[j].len() == l {
        m == j || in_parent_marks(addrs, j - 1, l - 1, m)
    } else {
        in_parent_marks(addrs, j - 1, l, m)
    }
}

fn is_strict_prefix_exec(a: &Vec<usize>, b: &Vec<usize>) -> (r: bool)
    ensures
        r == is_strict_prefix(a@, b@),
{
    if a.len() >= b.len() {
        return false;
    }
    let mut i: usize = 0;
    while i < a.len()
        invariant
            i <= a@.len(),
            a@.len() < b@.len(),
            forall|j: int| 0 <= j < i ==> a@[j] == b@[j],
        decreases a@.len() - i,
    {
        if a[i] != b[i] {
            proof {
                assert(b@.take(a@.len() as int)[i as int] != a@[i as int]);
            }
            return false;
        }
        i = i + 1;
    }
    proof {
        assert(b@.take(a@.len() as int) =~= a@);
    }
    true
}

proof fn lemma_inner_stop_at(addrs: Seq<Seq<usize>>, i0: int, from: int, j: int)
    requires
        i0 < from <= j <= addrs.len(),
        0 <= from,
        forall|m: int| from <= m < j ==> is_strict_prefix(addrs[i0], #[trigger] addrs[m]),
        j == addrs.len() || !is_strict_prefix(addrs[i0], addrs[j]),
    ensures
        inner_stop(addrs, i0, from) == j,
    decreases j - from,
{
    if from == j {
    } else {
        lemma_inner_stop_at(addrs, i0, from + 1, j);
    }
}

/// The forward walk over the inner subtree of a matched instruction: marks
/// every following instruction whose address strictly extends the matched
/// one, and stops at the first that does not.
pub fn eval_inner_instructions(
    sel: &mut SelectedItems,
    tx: &TransactionData,
    instruction_index: usize,
)
    requires
        old(sel).wf(),
        old(sel).instructions.spec_len() == tx.instructions@.len(),
        instruction_index < tx.instructions@.len(),
    ensures
        final (sel).wf(),
        final (sel).transaction == old(sel).transaction,
        final (sel).balances == old(sel).balances,
        final (sel).token_balances == old(sel).token_balances,
        final (sel).instructions.spec_len() == old(sel).instructions.spec_len(),
        final (sel).instructions.spec_includes_all() == old(sel).instructions.spec_includes_all(),
        forall|j: int|
            #[trigger] final (sel).instructions.selected(j) == (old(sel).instructions.selected(j)
                || in_inner_extent(tx.addresses(), instruction_index as int, j)),
{
    let ghost addrs = tx.addresses();
    let ghost i0 = instruction_index as int;
    let n: usize = tx.instructions.len();
    let this = &tx.instructions[instruction_index].instruction_address;
    proof {
        assert(addrs[i0] == tx.instructions@[i0].instruction_address@);
    }
    let mut i: usize = instruction_index + 1;
    while i < n
        invariant
            n == tx.instructions@.len(),
            old(sel).wf(),
            old(sel).instructions.spec_len() == tx.instructions@.len(),
            i0 == instruction_index as int,
            i0 < i as int <= addrs.len(),
            addrs == tx.addresses(),
            addrs.len() == tx.instructions@.len(),
            this@ == addrs[i0],
            0 <= i0 < addrs.len(),
            sel.wf(),
            sel.instructions.spec_len() == tx.instructions@.len(),
            sel.transaction == old(sel).transaction,
            sel.balances == old(sel).balances,
            sel.token_balances == old(sel).token_balances,
            sel.instructions.spec_includes_all() == old(sel).instructions.spec_includes_all(),
            forall|m: int| i0 < m < i ==> is_strict_prefix(addrs[i0], #[trigger] addrs[m]),
            forall|j: int|
                #[trigger] sel.instructions.selected(j) == (old(sel).instructions.selected(j) || (
                i0 < j < i as int)),
        decreases n - i,
    {
        let other = &tx.instructions[i].instruction_address;
        proof {
            assert(addrs[i as int] == tx.instructions@[i as int].instruction_address@);
        }
        if is_strict_prefix_exec(this, other) {
            sel.instructions.add(i);
        } else {
            proof {
                lemma_inner_stop_at(addrs, i0, i0 + 1, i as int);
                assert forall|j: int|
                    #[trigger] sel.instructions.selected(j) == (old(sel).instructions.selected(j)
                        || in_inner_extent(tx.addresses(), instruction_index as int, j)) by {
                    assert(inner_stop(tx.addresses(), i0, i0 + 1) == i as int);
                }
            }
            return ;
        }
        i = i + 1;
    }
    proof {
        lemma_inner_stop_at(addrs, i0, i0 + 1, addrs.len() as int);
        assert forall|j: int|
            #[trigger] sel.instructions.selected(j) == (old(sel).instructions.selected(j)
                || in_inner_extent(tx.addresses(), instruction_index as int, j)) by {
            assert(inner_stop(tx.addresses(), i0, i0 + 1) == addrs.len() as int);
        }
    }
}

/// The backward walk over the ancestor chain of a matched instruction: each
/// time the address length decreases by exactly one, that instruction is
/// marked, until length 1 is reached.
pub fn eval_parent_instructions(
    sel: &mut SelectedItems,
    tx: &TransactionData,
    instruction_index: usize,
)
    requires
        old(sel).wf(),
        old(sel).instructions.spec_len() == tx.instructions@.len(),
        instruction_index < tx.instructions@.len(),
    ensures
        final (sel).wf(),
        final (sel).transaction == old(sel).transaction,
        final (sel).balances == old(sel).balances,
        final (sel).token_balances == old(sel).token_balances,
        final (sel).instructions.spec_len() == old(sel).instructions.spec_len(),
        final (sel).instructions.spec_includes_all() == old(sel).instructions.spec_includes_all(),
        forall|j: int|
            #[trigger] final (sel).instructions.selected(j) == (old(sel).instructions.selected(j)
                || in_parent_marks(
                tx.addresses(),
                instruction_index as int - 1,
                tx.addresses()[instruction_index as int].len() - 1,
                j,
            )),
{
    let ghost addrs = tx.addresses();
    let ghost i0 = instruction_index as int;
    let ghost l0 = addrs[i0].len() - 1;
    let addr_len: usize = tx.instructions[instruction_index].instruction_address.len();
    proof {
        assert(addrs[i0] == tx.instructions@[i0].instruction_address@);
    }
    if addr_len <= 1 {
        proof {
            assert(forall|j: int| !#[trigger] in_parent_marks(addrs, i0 - 1, l0, j));
        }
        return ;
    }
    let mut len: usize = addr_len - 1;
    let mut i: usize = instruction_index;
    let ghost mut added: Set<int> = Set::empty();
    while i > 0
        invariant
            old(sel).wf(),
            old(sel).instructions.spec_len() == tx.instructions@.len(),
            i0 == instruction_index as int,
            0 <= i as int <= i0,
            i0 < addrs.len(),
            addrs == tx.addresses(),
            addrs.len() == tx.instructions@.len(),
            l0 == addrs[i0].len() - 1,
            1 <= len as int <= l0,
            sel.wf(),
            sel.instructions.spec_len() == tx.instructions@.len(),
            sel.transaction == old(sel).transaction,
            sel.balances == old(sel).balances,
            sel.token_balances == old(sel).token_balances,
            sel.instructions.spec_includes_all() == old(sel).instructions.spec_includes_all(),
            forall|j: int|
                #[trigger] sel.instructions.selected(j) == (old(sel).instructions.selected(j)
                    || added.contains(j)),
            forall|j: int|
                #[trigger] in_parent_marks(addrs, i0 - 1, l0, j) == (added.contains(j)
                    || in_parent_marks(addrs, i as int - 1, len as int, j)),
            forall|j: int| added.contains(j) ==> 0 <= j < addrs.len(),
        decreases i,
    {
        i = i - 1;
        proof {
            assert(addrs[i as int] == tx.instructions@[i as int].instruction_address@);
        }
        if len == tx.instructions[i].instruction_address.len() {
            sel.instructions.add(i);
            proof {
                added = added.insert(i as int);
            }
            proof {
                assert(addrs[i as int].len() == len as int);
                assert(forall|j: int|
                    #[trigger] sel.instructions.selected(j) == (old(
                        sel,
                    ).instructions.selected(j) || added.contains(j)));
                assert forall|j: int|
                    #[trigger] in_parent_marks(addrs, i0 - 1, l0, j) == (added.contains(j)
                        || in_parent_marks(addrs, i as int - 1, len as int - 1, j)) by {
                    assert(in_parent_marks(addrs, i as int, len as int, j) == (j == i as int
                        || in_parent_marks(addrs, i as int - 1, len as int - 1, j)));
                }
            }
            if len == 1 {
                proof {
                    assert(forall|j: int|
                        !#[trigger] in_parent_marks(addrs, i as int - 1, 0, j));
                    assert(forall|j: int|
                        #[trigger] in_parent_marks(addrs, i0 - 1, l0, j) == added.contains(j));
                    assert(forall|j: int|
                        #[trigger] sel.instructions.selected(j) == (old(
                            sel,
                        ).instructions.selected(j) || in_parent_marks(
                            tx.addresses(),
                            i0 - 1,
                            l0,
                            j,
                        )));
                }
                return ;
            }
            len = len - 1;
        } else {
            proof {
                assert(addrs[i as int].len() != len as int);
                assert forall|j: int|
                    #[trigger] in_parent_marks(addrs, i0 - 1, l0, j) == (added.contains(j)
                        || in_parent_marks(addrs, i as int - 1, len as int, j)) by {
                    assert(in_parent_marks(addrs, i as int, len as int, j) == in_parent_marks(
                        addrs,
                        i as int - 1,
                        len as int,
                        j,
                    ));
                }
            }
        }
    }
    proof {
        assert(forall|j: int| !#[trigger] in_parent_marks(addrs, -1, len as int, j));
        assert(forall|j: int|
            #[trigger] sel.instructions.selected(j) == (old(sel).instructions.selected(j)
                || in_parent_marks(tx.addresses(), i0 - 1, l0, j)));
    }
}


/// The views of a transaction's address table.
pub open spec fn acc_views(tx: TransactionData) -> Seq<Seq<u8>> {
    views(tx.accounts@)
}

pub open spec fn ins_any(
    reqs: Seq<PreparedInstructionRequest>,
    ins: Instruction,
    accounts: Seq<Seq<u8>>,
) -> bool {
    exists|i: int| 0 <= i < reqs.len() && ins_req_matches(#[trigger] reqs[i], ins, accounts)
}

/// Which relation a prepared request carries, by index: 0 `transaction`,
/// 1 `transaction_instructions`, 2 `transaction_balances`,
/// 3 `transaction_token_balances`, 4 `inner_instructions`,
/// 5 `parent_instructions`, 6 `logs`.
pub open spec fn rel_of(r: PreparedInstructionRequest, rel: int) -> bool {
    if rel == 0 {
        r.relations.transaction
    } else if rel == 1 {
        r.relations.transaction_instructions
    } else if rel == 2 {
        r.relations.transaction_balances
    } else if rel == 3 {
        r.relations.transaction_token_balances
    } else if rel == 4 {
        r.relations.inner_instructions
    } else if rel == 5 {
        r.relations.parent_instructions
    } else {
        r.relations.logs
    }
}

pub open spec fn raw_rel_of(r: InstructionRequest, rel: int) -> bool {
    if rel == 0 {
        r.transaction
    } else if rel == 1 {
        r.transaction_instructions
    } else if rel == 2 {
        r.transaction_balances
    } else if rel == 3 {
        r.transaction_token_balances
    } else if rel == 4 {
        r.inner_instructions
    } else if rel == 5 {
        r.parent_instructions
    } else {
        r.logs
    }
}

pub open spec fn ins_rel(
    reqs: Seq<PreparedInstructionRequest>,
    ins: Instruction,
    accounts: Seq<Seq<u8>>,
    rel: int,
) -> bool {
    exists|i: int|
        0 <= i < reqs.len() && ins_req_matches(#[trigger] reqs[i], ins, accounts) && rel_of(
            reqs[i],
            rel,
        )
}

pub open spec fn raw_ins_any(
    reqs: Seq<InstructionRequest>,
    ins: Instruction,
    accounts: Seq<Seq<u8>>,
) -> bool {
    exists|i: int| 0 <= i < reqs.len() && raw_ins_req_matches(#[trigger] reqs[i], ins, accounts)
}

pub open spec fn raw_ins_rel(
    reqs: Seq<InstructionRequest>,
    ins: Instruction,
    accounts: Seq<Seq<u8>>,
    rel: int,
) -> bool {
    exists|i: int|
        0 <= i < reqs.len() && raw_ins_req_matches(#[trigger] reqs[i], ins, accounts)
            && raw_rel_of(reqs[i], rel)
}

/// Some instruction of the transaction matches a request carrying `rel`.
pub open spec fn ins_stage_rel(
    reqs: Seq<PreparedInstructionRequest>,
    tx: TransactionData,
    rel: int,
) -> bool {
    exists|k: int|
        0 <= k < tx.instructions@.len() && ins_rel(
            reqs,
            #[trigger] tx.instructions@[k],
            acc_views(tx),
            rel,
        )
}

/// Whether the include-all-instructions flag is on right after the match at
/// position `k` was processed, starting from `base`.
pub open spec fn ins_all_at(
    reqs: Seq<PreparedInstructionRequest>,
    tx: TransactionData,
    base: bool,
    k: int,
) -> bool {
    base || exists|m: int|
        0 <= m <= k && ins_rel(reqs, #[trigger] tx.instructions@[m], acc_views(tx), 1)
}

/// The indices pulled in by the inner and parent walks of matches below
/// `k_bound` whose request asks for them, when include-all was still off at
/// walk time.
pub open spec fn extra_upto(
    reqs: Seq<PreparedInstructionRequest>,
    tx: TransactionData,
    base: bool,
    k_bound: int,
    j: int,
) -> bool {
    ||| exists|k: int|
        0 <= k < k_bound && ins_rel(reqs, #[trigger] tx.instructions@[k], acc_views(tx), 4)
            && !ins_all_at(reqs, tx, base, k) && in_inner_extent(tx.addresses(), k, j)
    ||| exists|k: int|
        0 <= k < k_bound && ins_rel(reqs, #[trigger] tx.instructions@[k], acc_views(tx), 5)
            && !ins_all_at(reqs, tx, base, k) && in_parent_marks(
            tx.addresses(),
            k - 1,
            tx.addresses()[k].len() - 1,
            j,
        )
}

/// The indices the walks pull in over the whole transaction.
pub open spec fn ins_extra_selected(
    reqs: Seq<PreparedInstructionRequest>,
    tx: TransactionData,
    base: bool,
    j: int,
) -> bool {
    extra_upto(reqs, tx, base, tx.instructions@.len() as int, j)
}

proof fn lemma_ins_step(
    pre: Seq<PreparedInstructionRequest>,
    cur: Seq<PreparedInstructionRequest>,
    raw: Seq<InstructionRequest>,
    i: int,
    rq: InstructionRequest,
    compiled_one: Option<PreparedInstructionRequest>,
    ins: Instruction,
    accounts: Seq<Seq<u8>>,
)
    requires
        1 <= i <= raw.len(),
        rq == raw[i - 1],
        ins_any(pre, ins, accounts) == raw_ins_any(raw.take(i - 1), ins, accounts),
        match compiled_one {
            Some(c) => cur == pre.push(c) && forall|ins2: Instruction, acc2: Seq<Seq<u8>>|
                #[trigger] ins_req_matches(c, ins2, acc2) == raw_ins_req_matches(rq, ins2, acc2),
            None => cur == pre && raw_ins_compiles_away(rq),
        },
    ensures
        ins_any(cur, ins, accounts) == raw_ins_any(raw.take(i), ins, accounts),
{
    assert(raw.take(i).drop_last() =~= raw.take(i - 1));
    assert(raw.take(i).last() == raw[i - 1]);
    match compiled_one {
        Some(c) => {
            assert(ins_req_matches(c, ins, accounts) == raw_ins_req_matches(rq, ins, accounts));
            if ins_any(cur, ins, accounts) {
                let k = choose|k: int|
                    0 <= k < cur.len() && ins_req_matches(#[trigger] cur[k], ins, accounts);
                if k < pre.len() {
                    assert(raw_ins_any(raw.take(i - 1), ins, accounts));
                    let m = choose|m: int|
                        0 <= m < raw.take(i - 1).len() && raw_ins_req_matches(
                            #[trigger] raw.take(i - 1)[m],
                            ins,
                            accounts,
                        );
                    assert(raw_ins_req_matches(raw.take(i)[m], ins, accounts));
                } else {
                    assert(raw_ins_req_matches(raw.take(i)[i - 1], ins, accounts));
                }
            }
            if raw_ins_any(raw.take(i), ins, accounts) {
                let m = choose|m: int|
                    0 <= m < raw.take(i).len() && raw_ins_req_matches(
                        #[trigger] raw.take(i)[m],
                        ins,
                        accounts,
                    );
                if m < i - 1 {
                    assert(raw_ins_req_matches(raw.take(i - 1)[m], ins, accounts));
                    assert(raw_ins_any(raw.take(i - 1), ins, accounts));
                    let k = choose|k: int|
                        0 <= k < pre.len() && ins_req_matches(#[trigger] pre[k], ins, accounts);
                    assert(ins_req_matches(cur[k], ins, accounts));
                } else {
                    assert(ins_req_matches(cur[cur.len() - 1], ins, accounts));
                }
            }
        },
        None => {
            assert(forall|ins2: Instruction, acc2: Seq<Seq<u8>>|
                !raw_ins_req_matches(rq, ins2, acc2)) by {
                assert forall|ins2: Instruction, acc2: Seq<Seq<u8>>|
                    !raw_ins_req_matches(rq, ins2, acc2) by {
                    lemma_compiled_away_matches_nothing(rq, ins2, acc2);
                }
            }
            if raw_ins_any(raw.take(i), ins, accounts) {
                let m = choose|m: int|
                    0 <= m < raw.take(i).len() && raw_ins_req_matches(
                        #[trigger] raw.take(i)[m],
                        ins,
                        accounts,
                    );
                assert(m < i - 1);
                assert(raw_ins_req_matches(raw.take(i - 1)[m], ins, accounts));
            }
            if raw_ins_any(raw.take(i - 1), ins, accounts) {
                let m = choose|m: int|
                    0 <= m < raw.take(i - 1).len() && raw_ins_req_matches(
                        #[trigger] raw.take(i - 1)[m],
                        ins,
                        accounts,
                    );
                assert(raw_ins_req_matches(raw.take(i)[m], ins, accounts));
            }
        },
    }
}

/// A request that compiles away describes no instruction at all.
proof fn lemma_compiled_away_matches_nothing(
    rq: InstructionRequest,
    ins: Instruction,
    accounts: Seq<Seq<u8>>,
)
    requires
        raw_ins_compiles_away(rq),
    ensures
        !raw_ins_req_matches(rq, ins, accounts),
{
    match rq.discriminator {
        Some(l) => {
            if parsed_discs(views(l@)).len() == 0 {
                assert(!(parsed_discs(views(l@)).len() > 0));
            }
        },
        None => {},
    }
}

proof fn lemma_ins_step_rel(
    pre: Seq<PreparedInstructionRequest>,
    cur: Seq<PreparedInstructionRequest>,
    raw: Seq<InstructionRequest>,
    i: int,
    rq: InstructionRequest,
    compiled_one: Option<PreparedInstructionRequest>,
    ins: Instruction,
    accounts: Seq<Seq<u8>>,
    rel: int,
)
    requires
        1 <= i <= raw.len(),
        rq == raw[i - 1],
        ins_rel(pre, ins, accounts, rel) == raw_ins_rel(raw.take(i - 1), ins, accounts, rel),
        match compiled_one {
            Some(c) => cur == pre.push(c) && (forall|ins2: Instruction, acc2: Seq<Seq<u8>>|
                #[trigger] ins_req_matches(c, ins2, acc2) == raw_ins_req_matches(rq, ins2, acc2))
                && forall|rel2: int| rel_of(c, rel2) == raw_rel_of(rq, rel2),
            None => cur == pre && raw_ins_compiles_away(rq),
        },
    ensures
        ins_rel(cur, ins, accounts, rel) == raw_ins_rel(raw.take(i), ins, accounts, rel),
{
    assert(raw.take(i).drop_last() =~= raw.take(i - 1));
    assert(raw.take(i).last() == raw[i - 1]);
    match compiled_one {
        Some(c) => {
            assert(ins_req_matches(c, ins, accounts) == raw_ins_req_matches(rq, ins, accounts));
            assert(rel_of(c, rel) == raw_rel_of(rq, rel));
            if ins_rel(cur, ins, accounts, rel) {
                let k = choose|k: int|
                    0 <= k < cur.len() && ins_req_matches(#[trigger] cur[k], ins, accounts)
                        && rel_of(cur[k], rel);
                if k < pre.len() {
                    assert(ins_rel(pre, ins, accounts, rel));
                    let m = choose|m: int|
                        0 <= m < raw.take(i - 1).len() && raw_ins_req_matches(
                            #[trigger] raw.take(i - 1)[m],
                            ins,
                            accounts,
                        ) && raw_rel_of(raw.take(i - 1)[m], rel);
                    assert(raw.take(i)[m] == raw.take(i - 1)[m]);
                    assert(raw_ins_rel(raw.take(i), ins, accounts, rel));
                } else {
                    assert(raw.take(i)[i - 1] == rq);
                    assert(raw_ins_rel(raw.take(i), ins, accounts, rel));
                }
            }
            if raw_ins_rel(raw.take(i), ins, accounts, rel) {
                let m = choose|m: int|
                    0 <= m < raw.take(i).len() && raw_ins_req_matches(
                        #[trigger] raw.take(i)[m],
                        ins,
                        accounts,
                    ) && raw_rel_of(raw.take(i)[m], rel);
                if m < i - 1 {
                    assert(raw.take(i - 1)[m] == raw.take(i)[m]);
                    assert(raw_ins_rel(raw.take(i - 1), ins, accounts, rel));
                    let k = choose|k: int|
                        0 <= k < pre.len() && ins_req_matches(#[trigger] pre[k], ins, accounts)
                            && rel_of(pre[k], rel);
                    assert(cur[k] == pre[k]);
                    assert(ins_rel(cur, ins, accounts, rel));
                } else {
                    assert(ins_req_matches(cur[cur.len() - 1], ins, accounts));
                    assert(ins_rel(cur, ins, accounts, rel));
                }
            }
        },
        None => {
            assert forall|ins2: Instruction, acc2: Seq<Seq<u8>>|
                !raw_ins_req_matches(rq, ins2, acc2) by {
                lemma_compiled_away_matches_nothing(rq, ins2, acc2);
            }
            if raw_ins_rel(raw.take(i), ins, accounts, rel) {
                let m = choose|m: int|
                    0 <= m < raw.take(i).len() && raw_ins_req_matches(
                        #[trigger] raw.take(i)[m],
                        ins,
                        accounts,
                    ) && raw_rel_of(raw.take(i)[m], rel);
                assert(m < i - 1);
                assert(raw.take(i - 1)[m] == raw.take(i)[m]);
                assert(raw_ins_rel(raw.take(i - 1), ins, accounts, rel));
            }
            if raw_ins_rel(raw.take(i - 1), ins, accounts, rel) {
                let m = choose|m: int|
                    0 <= m < raw.take(i - 1).len() && raw_ins_req_matches(
                        #[trigger] raw.take(i - 1)[m],
                        ins,
                        accounts,
                    ) && raw_rel_of(raw.take(i - 1)[m], rel);
                assert(raw.take(i)[m] == raw.take(i - 1)[m]);
                assert(raw_ins_rel(raw.take(i), ins, accounts, rel));
            }
        },
    }
}


/// The compiled instruction filter.
pub struct InstructionFilter {
    pub requests: Vec<PreparedInstructionRequest>,
}

impl InstructionFilter {
    /// Compiling keeps the filter's meaning, instruction by instruction.
    pub open spec fn corresponds(self, raw: Seq<InstructionRequest>) -> bool {
        &&& forall|ins: Instruction, accounts: Seq<Seq<u8>>| #[trigger]
            ins_any(self.requests@, ins, accounts) == raw_ins_any(raw, ins, accounts)
        &&& forall|ins: Instruction, accounts: Seq<Seq<u8>>, rel: int| #[trigger]
            ins_rel(self.requests@, ins, accounts, rel) == raw_ins_rel(raw, ins, accounts, rel)
    }

    pub fn new(requests: Vec<InstructionRequest>) -> (r: Self)
        ensures
            r.corresponds(requests@),
    {
        let ghost raw = requests@;
        let mut compiled: Vec<PreparedInstructionRequest> = Vec::new();
        let n: usize = requests.len();
        let mut rest = requests;
        let mut i: usize = 0;
        while i < n
            invariant
                i <= n,
                n == raw.len(),
                rest@ == raw.skip(i as int),
                forall|ins: Instruction, accounts: Seq<Seq<u8>>| #[trigger]
                    ins_any(compiled@, ins, accounts) == raw_ins_any(
                        raw.take(i as int),
                        ins,
                        accounts,
                    ),
                forall|ins: Instruction, accounts: Seq<Seq<u8>>, rel: int| #[trigger]
                    ins_rel(compiled@, ins, accounts, rel) == raw_ins_rel(
                        raw.take(i as int),
                        ins,
                        accounts,
                        rel,
                    ),
            decreases n - i,
        {
            let ghost pre = compiled@;
            let req = rest.remove(0);
            proof {
                assert(req == raw[i as int]);
                assert(rest@ =~= raw.skip(i as int + 1));
            }
            let compiled_one = compile_instruction_request(req);
            match compiled_one {
                Some(c) => {
                    compiled.push(c);
                },
                None => {},
            }
            i = i + 1;
            proof {
                let cur = compiled@;
                let rq = raw[i as int - 1];
                assert forall|ins: Instruction, accounts: Seq<Seq<u8>>| #[trigger]
                    ins_any(cur, ins, accounts) == raw_ins_any(
                        raw.take(i as int),
                        ins,
                        accounts,
                    ) by {
                    lemma_ins_step(pre, cur, raw, i as int, rq, compiled_one, ins, accounts);
                }
                assert forall|ins: Instruction, accounts: Seq<Seq<u8>>, rel: int| #[trigger]
                    ins_rel(cur, ins, accounts, rel) == raw_ins_rel(
                        raw.take(i as int),
                        ins,
                        accounts,
                        rel,
                    ) by {
                    lemma_ins_step_rel(
                        pre,
                        cur,
                        raw,
                        i as int,
                        rq,
                        compiled_one,
                        ins,
                        accounts,
                        rel,
                    );
                }
            }
        }
        proof {
            assert(raw.take(n as int) =~= raw);
        }
        InstructionFilter { requests: compiled }
    }

    pub fn is_empty(&self) -> (r: bool)
        ensures
            r == (self.requests@.len() == 0),
    {
        self.requests.len() == 0
    }

    pub fn is_non_trivial(&self) -> (r: bool)
        ensures
            r == (self.requests@.len() > 0),
    {
        self.requests.len() > 0
    }

    /// Runs the instruction stage: every matching instruction is selected;
    /// matched relations select the transaction record or whole item kinds;
    /// and, while include-all-instructions is still off, the
    /// `inner_instructions` and `parent_instructions` walks pull in the
    /// subtree and the ancestor chain of the match.
    #[verifier::rlimit(100)]
    #[verifier::spinoff_prover]
    pub fn eval(&self, sel: &mut SelectedItems, tx: &TransactionData)
        requires
            old(sel).wf(),
            old(sel).instructions.spec_len() == tx.instructions@.len(),
            tx.wf(),
        ensures
            final (sel).wf(),
            final (sel).transaction == (old(sel).transaction || ins_stage_rel(
                self.requests@,
                *tx,
                0,
            )),
            final (sel).instructions.spec_len() == old(sel).instructions.spec_len(),
            final (sel).balances.spec_len() == old(sel).balances.spec_len(),
            final (sel).token_balances.spec_len() == old(sel).token_balances.spec_len(),
            final (sel).instructions.spec_includes_all() == (
            old(sel).instructions.spec_includes_all() || ins_stage_rel(self.requests@, *tx, 1)),
            final (sel).balances.spec_includes_all() == (old(sel).balances.spec_includes_all()
                || ins_stage_rel(self.requests@, *tx, 2)),
            final (sel).token_balances.spec_includes_all() == (
            old(sel).token_balances.spec_includes_all() || ins_stage_rel(self.requests@, *tx, 3)),
            forall|j: int|
                #[trigger] final (sel).balances.selected(j) == (old(sel).balances.selected(j) || (
                ins_stage_rel(self.requests@, *tx, 2) && 0 <= j < old(sel).balances.spec_len())),
            forall|j: int|
                #[trigger] final (sel).token_balances.selected(j) == (old(
                    sel,
                ).token_balances.selected(j) || (ins_stage_rel(self.requests@, *tx, 3) && 0 <= j
                    < old(sel).token_balances.spec_len())),
            forall|j: int|
                #[trigger] final (sel).instructions.selected(j) == (old(
                    sel,
                ).instructions.selected(j) || (0 <= j < tx.instructions@.len() && ins_any(
                    self.requests@,
                    tx.instructions@[j],
                    acc_views(*tx),
                )) || (0 <= j < old(sel).instructions.spec_len() && ins_stage_rel(
                    self.requests@,
                    *tx,
                    1,
                )) || ins_extra_selected(
                    self.requests@,
                    *tx,
                    old(sel).instructions.spec_includes_all(),
                    j,
                )),
    {
        let ghost reqs = self.requests@;
        let ghost acc = acc_views(*tx);
        let ghost base = old(sel).instructions.spec_includes_all();
        let n: usize = tx.instructions.len();
        let mut k: usize = 0;
        while k < n
            invariant
                k <= n,
                n == tx.instructions@.len(),
                reqs == self.requests@,
                acc == acc_views(*tx),
                base == old(sel).instructions.spec_includes_all(),
                old(sel).wf(),
                old(sel).instructions.spec_len() == tx.instructions@.len(),
                tx.wf(),
                sel.wf(),
                sel.instructions.spec_len() == old(sel).instructions.spec_len(),
                sel.balances.spec_len() == old(sel).balances.spec_len(),
                sel.token_balances.spec_len() == old(sel).token_balances.spec_len(),
                sel.transaction == (old(sel).transaction || (exists|m: int|
                    0 <= m < k && ins_rel(reqs, #[trigger] tx.instructions@[m], acc, 0))),
                sel.instructions.spec_includes_all() == (base || (exists|m: int|
                    0 <= m < k && ins_rel(reqs, #[trigger] tx.instructions@[m], acc, 1))),
                sel.balances.spec_includes_all() == (old(sel).balances.spec_includes_all() || (
                exists|m: int|
                    0 <= m < k && ins_rel(reqs, #[trigger] tx.instructions@[m], acc, 2))),
                sel.token_balances.spec_includes_all() == (old(
                    sel,
                ).token_balances.spec_includes_all() || (exists|m: int|
                    0 <= m < k && ins_rel(reqs, #[trigger] tx.instructions@[m], acc, 3))),
                forall|j: int|
                    #[trigger] sel.balances.selected(j) == (old(sel).balances.selected(j) || ((
                    exists|m: int|
                        0 <= m < k && ins_rel(reqs, #[trigger] tx.instructions@[m], acc, 2)) && 0
                        <= j < old(sel).balances.spec_len())),
                forall|j: int|
                    #[trigger] sel.token_balances.selected(j) == (old(
                        sel,
                    ).token_balances.selected(j) || ((exists|m: int|
                        0 <= m < k && ins_rel(reqs, #[trigger] tx.instructions@[m], acc, 3)) && 0
                        <= j < old(sel).token_balances.spec_len())),
                forall|j: int|
                    #[trigger] sel.instructions.selected(j) == (old(
                        sel,
                    ).instructions.selected(j) || (0 <= j < k && ins_any(
                        reqs,
                        tx.instructions@[j],
                        acc,
                    )) || (0 <= j < old(sel).instructions.spec_len() && (exists|m: int|
                        0 <= m < k && ins_rel(reqs, #[trigger] tx.instructions@[m], acc, 1)))
                        || extra_upto(reqs, *tx, base, k as int, j)),
            decreases n - k,
        {
            let ins = &tx.instructions[k];
            proof {
                assert(tx.instructions@[k as int].wf(tx.accounts@.len() as int));
            }
            let mut pass: bool = false;
            let mut r_tx: bool = false;
            let mut r_ins_all: bool = false;
            let mut r_bal: bool = false;
            let mut r_tok: bool = false;
            let mut r_inner: bool = false;
            let mut r_parent: bool = false;
            let mut i: usize = 0;
            while i < self.requests.len()
                invariant
                    i <= self.requests@.len(),
                    reqs == self.requests@,
                    acc == acc_views(*tx),
                    k < tx.instructions@.len(),
                    ins == &tx.instructions@[k as int],
                    tx.instructions@[k as int].wf(tx.accounts@.len() as int),
                    acc_views(*tx) == views(tx.accounts@),
                    pass == (exists|m: int|
                        0 <= m < i && ins_req_matches(#[trigger] reqs[m], *ins, acc)),
                    r_tx == (exists|m: int|
                        0 <= m < i && ins_req_matches(#[trigger] reqs[m], *ins, acc) && rel_of(
                            reqs[m],
                            0,
                        )),
                    r_ins_all == (exists|m: int|
                        0 <= m < i && ins_req_matches(#[trigger] reqs[m], *ins, acc) && rel_of(
                            reqs[m],
                            1,
                        )),
                    r_bal == (exists|m: int|
                        0 <= m < i && ins_req_matches(#[trigger] reqs[m], *ins, acc) && rel_of(
                            reqs[m],
                            2,
                        )),
                    r_tok == (exists|m: int|
                        0 <= m < i && ins_req_matches(#[trigger] reqs[m], *ins, acc) && rel_of(
                            reqs[m],
                            3,
                        )),
                    r_inner == (exists|m: int|
                        0 <= m < i && ins_req_matches(#[trigger] reqs[m], *ins, acc) && rel_of(
                            reqs[m],
                            4,
                        )),
                    r_parent == (exists|m: int|
                        0 <= m < i && ins_req_matches(#[trigger] reqs[m], *ins, acc) && rel_of(
                            reqs[m],
                            5,
                        )),
                decreases self.requests@.len() - i,
            {
                if eval_one(&self.requests[i], ins, &tx.accounts) {
                    pass = true;
                    r_tx = r_tx || self.requests[i].relations.transaction;
                    r_ins_all = r_ins_all || self.requests[i].relations.transaction_instructions;
                    r_bal = r_bal || self.requests[i].relations.transaction_balances;
                    r_tok = r_tok || self.requests[i].relations.transaction_token_balances;
                    r_inner = r_inner || self.requests[i].relations.inner_instructions;
                    r_parent = r_parent || self.requests[i].relations.parent_instructions;
                }
                i = i + 1;
            }
            proof {
                assert(pass == ins_any(reqs, tx.instructions@[k as int], acc));
                assert(r_tx == ins_rel(reqs, tx.instructions@[k as int], acc, 0));
                assert(r_ins_all == ins_rel(reqs, tx.instructions@[k as int], acc, 1));
                assert(r_bal == ins_rel(reqs, tx.instructions@[k as int], acc, 2));
                assert(r_tok == ins_rel(reqs, tx.instructions@[k as int], acc, 3));
                assert(r_inner == ins_rel(reqs, tx.instructions@[k as int], acc, 4));
                assert(r_parent == ins_rel(reqs, tx.instructions@[k as int], acc, 5));
            }
            let ghost kk = k as int;
            if pass {
                sel.instructions.add(k);
                sel.transaction = sel.transaction || r_tx;
                sel.instructions.add_all(r_ins_all);
                sel.balances.add_all(r_bal);
                sel.token_balances.add_all(r_tok);
                proof {
                    lemma_rel_exists_extend(reqs, *tx, kk, 0);
                    lemma_rel_exists_extend(reqs, *tx, kk, 1);
                    lemma_rel_exists_extend(reqs, *tx, kk, 2);
                    lemma_rel_exists_extend(reqs, *tx, kk, 3);
                    assert(sel.instructions.spec_includes_all() == ins_all_at(
                        reqs,
                        *tx,
                        base,
                        kk,
                    ));
                }
                let ghost before_walks = *sel;
                if !sel.instructions.includes_all() && r_inner {
                    eval_inner_instructions(sel, tx, k);
                }
                if !sel.instructions.includes_all() && r_parent {
                    eval_parent_instructions(sel, tx, k);
                }
                proof {
                    assert forall|j: int|
                        #[trigger] sel.instructions.selected(j) == (old(
                            sel,
                        ).instructions.selected(j) || (0 <= j < kk + 1 && ins_any(
                            reqs,
                            tx.instructions@[j],
                            acc,
                        )) || (0 <= j < old(sel).instructions.spec_len() && (exists|m: int|
                            0 <= m < kk + 1 && ins_rel(
                                reqs,
                                #[trigger] tx.instructions@[m],
                                acc,
                                1,
                            ))) || extra_upto(reqs, *tx, base, kk + 1, j)) by {
                        lemma_extra_upto_extend(reqs, *tx, base, kk, j);
                        lemma_rel_exists_extend(reqs, *tx, kk, 1);
                        if before_walks.instructions.selected(j) != sel.instructions.selected(
                            j,
                        ) {
                        }
                    }
                }
            } else {
                proof {
                    lemma_rel_exists_extend(reqs, *tx, kk, 0);
                    lemma_rel_exists_extend(reqs, *tx, kk, 1);
                    lemma_rel_exists_extend(reqs, *tx, kk, 2);
                    lemma_rel_exists_extend(reqs, *tx, kk, 3);
                    assert forall|j: int|
                        #[trigger] sel.instructions.selected(j) == (old(
                            sel,
                        ).instructions.selected(j) || (0 <= j < kk + 1 && ins_any(
                            reqs,
                            tx.instructions@[j],
                            acc,
                        )) || (0 <= j < old(sel).instructions.spec_len() && (exists|m: int|
                            0 <= m < kk + 1 && ins_rel(
                                reqs,
                                #[trigger] tx.instructions@[m],
                                acc,
                                1,
                            ))) || extra_upto(reqs, *tx, base, kk + 1, j)) by {
                        lemma_extra_upto_extend(reqs, *tx, base, kk, j);
                        lemma_rel_exists_extend(reqs, *tx, kk, 1);
                    }
                }
            }
            k = k + 1;
        }
    }
}

/// Extending the bound of the per-relation existential by one position.
proof fn lemma_rel_exists_extend(
    reqs: Seq<PreparedInstructionRequest>,
    tx: TransactionData,
    k: int,
    rel: int,
)
    requires
        0 <= k < tx.instructions@.len(),
    ensures
        (exists|m: int|
            0 <= m < k + 1 && ins_rel(reqs, #[trigger] tx.instructions@[m], acc_views(tx), rel))
            == ((exists|m: int|
            0 <= m < k && ins_rel(reqs, #[trigger] tx.instructions@[m], acc_views(tx), rel))
            || ins_rel(reqs, tx.instructions@[k], acc_views(tx), rel)),
{
    if exists|m: int|
        0 <= m < k + 1 && ins_rel(reqs, #[trigger] tx.instructions@[m], acc_views(tx), rel) {
        let w = choose|m: int|
            0 <= m < k + 1 && ins_rel(reqs, #[trigger] tx.instructions@[m], acc_views(tx), rel);
        if w < k {
            assert(exists|m: int|
                0 <= m < k && ins_rel(reqs, #[trigger] tx.instructions@[m], acc_views(tx), rel));
        }
    }
    if exists|m: int|
        0 <= m < k && ins_rel(reqs, #[trigger] tx.instructions@[m], acc_views(tx), rel) {
        let w = choose|m: int|
            0 <= m < k && ins_rel(reqs, #[trigger] tx.instructions@[m], acc_views(tx), rel);
        assert(0 <= w < k + 1 && ins_rel(reqs, tx.instructions@[w], acc_views(tx), rel));
    }
}

/// Extending the walk-extras bound by one position: the walks of the match
/// at `k` contribute exactly when their relation fired and include-all was
/// still off.
proof fn lemma_extra_upto_extend(
    reqs: Seq<PreparedInstructionRequest>,
    tx: TransactionData,
    base: bool,
    k: int,
    j: int,
)
    requires
        0 <= k < tx.instructions@.len(),
    ensures
        extra_upto(reqs, tx, base, k + 1, j) == (extra_upto(reqs, tx, base, k, j) || (ins_rel(
            reqs,
            tx.instructions@[k],
            acc_views(tx),
            4,
        ) && !ins_all_at(reqs, tx, base, k) && in_inner_extent(tx.addresses(), k, j)) || (
        ins_rel(reqs, tx.instructions@[k], acc_views(tx), 5) && !ins_all_at(reqs, tx, base, k)
            && in_parent_marks(tx.addresses(), k - 1, tx.addresses()[k].len() - 1, j))),
{
    let acc = acc_views(tx);
    if extra_upto(reqs, tx, base, k + 1, j) {
        if exists|k2: int|
            0 <= k2 < k + 1 && ins_rel(reqs, #[trigger] tx.instructions@[k2], acc, 4)
                && !ins_all_at(reqs, tx, base, k2) && in_inner_extent(tx.addresses(), k2, j) {
            let w = choose|k2: int|
                0 <= k2 < k + 1 && ins_rel(reqs, #[trigger] tx.instructions@[k2], acc, 4)
                    && !ins_all_at(reqs, tx, base, k2) && in_inner_extent(tx.addresses(), k2, j);
            if w < k {
                assert(extra_upto(reqs, tx, base, k, j));
            }
        } else {
            let w = choose|k2: int|
                0 <= k2 < k + 1 && ins_rel(reqs, #[trigger] tx.instructions@[k2], acc, 5)
                    && !ins_all_at(reqs, tx, base, k2) && in_parent_marks(
                    tx.addresses(),
                    k2 - 1,
                    tx.addresses()[k2].len() - 1,
                    j,
                );
            if w < k {
                assert(extra_upto(reqs, tx, base, k, j));
            }
        }
    }
    if extra_upto(reqs, tx, base, k, j) {
        if exists|k2: int|
            0 <= k2 < k && ins_rel(reqs, #[trigger] tx.instructions@[k2], acc, 4) && !ins_all_at(
                reqs,
                tx,
                base,
                k2,
            ) && in_inner_extent(tx.addresses(), k2, j) {
            let w = choose|k2: int|
                0 <= k2 < k && ins_rel(reqs, #[trigger] tx.instructions@[k2], acc, 4)
                    && !ins_all_at(reqs, tx, base, k2) && in_inner_extent(tx.addresses(), k2, j);
            assert(0 <= w < k + 1 && ins_rel(reqs, tx.instructions@[w], acc, 4) && !ins_all_at(
                reqs,
                tx,
                base,
                w,
            ) && in_inner_extent(tx.addresses(), w, j));
        } else {
            let w = choose|k2: int|
                0 <= k2 < k && ins_rel(reqs, #[trigger] tx.instructions@[k2], acc, 5)
                    && !ins_all_at(reqs, tx, base, k2) && in_parent_marks(
                    tx.addresses(),
                    k2 - 1,
                    tx.addresses()[k2].len() - 1,
                    j,
                );
            assert(0 <= w < k + 1 && ins_rel(reqs, tx.instructions@[w], acc, 5) && !ins_all_at(
                reqs,
                tx,
                base,
                w,
            ) && in_parent_marks(tx.addresses(), w - 1, tx.addresses()[w].len() - 1, j));
        }
    }
}


/// The forward walk never runs past the end of the instruction list.
pub proof fn lemma_inner_stop_le(addrs: Seq<Seq<usize>>, i: int, j: int)
    requires
        0 <= j <= addrs.len(),
    ensures
        j <= inner_stop(addrs, i, j) <= addrs.len(),
    decreases addrs.len() - j,
{
    if j < addrs.len() && is_strict_prefix(addrs[i], addrs[j]) {
        lemma_inner_stop_le(addrs, i, j + 1);
    }
}

/// The backward walk only marks positions at or below its start.
pub proof fn lemma_parent_marks_bounds(addrs: Seq<Seq<usize>>, hi: int, l: int, m: int)
    ensures
        in_parent_marks(addrs, hi, l, m) ==> 0 <= m <= hi,
    decreases hi + 1,
{
    if hi >= 0 && l > 0 {
        lemma_parent_marks_bounds(addrs, hi - 1, l - 1, m);
        lemma_parent_marks_bounds(addrs, hi - 1, l, m);
    }
}

/// Whatever the walks pull in lies inside the instruction list.
pub proof fn lemma_extra_in_range(
    reqs: Seq<PreparedInstructionRequest>,
    tx: TransactionData,
    base: bool,
    j: int,
)
    ensures
        ins_extra_selected(reqs, tx, base, j) ==> 0 <= j < tx.instructions@.len(),
{
    let acc = acc_views(tx);
    let addrs = tx.addresses();
    assert(addrs.len() == tx.instructions@.len());
    if ins_extra_selected(reqs, tx, base, j) {
        if exists|k: int|
            0 <= k < tx.instructions@.len() && ins_rel(reqs, #[trigger] tx.instructions@[k], acc, 4)
                && !ins_all_at(reqs, tx, base, k) && in_inner_extent(addrs, k, j) {
            let w = choose|k: int|
                0 <= k < tx.instructions@.len() && ins_rel(
                    reqs,
                    #[trigger] tx.instructions@[k],
                    acc,
                    4,
                ) && !ins_all_at(reqs, tx, base, k) && in_inner_extent(addrs, k, j);
            assert(in_inner_extent(addrs, w, j));
            lemma_inner_stop_le(addrs, w + 1, w + 1);
            lemma_inner_stop_le(addrs, w, w + 1);
        } else {
            let w = choose|k: int|
                0 <= k < tx.instructions@.len() && ins_rel(
                    reqs,
                    #[trigger] tx.instructions@[k],
                    acc,
                    5,
                ) && !ins_all_at(reqs, tx, base, k) && in_parent_marks(
                    addrs,
                    k - 1,
                    addrs[k].len() - 1,
                    j,
                );
            lemma_parent_marks_bounds(addrs, w - 1, addrs[w].len() - 1, j);
        }
    }
}


/// `last_idx_with_len` always answers below its bound.
proof fn lemma_last_idx_below(addrs: Seq<Seq<usize>>, y: int, l: nat)
    requires
        y >= 0,
    ensures
        last_idx_with_len(addrs, y, l) < y,
    decreases y,
{
    if y > 0 && addrs[y - 1].len() != l {
        lemma_last_idx_below(addrs, y - 1, l);
    }
}

/// Below `y`, positions above `last_idx_with_len(addrs, y, l)` never have
/// length `l`.
proof fn lemma_last_idx_gap(addrs: Seq<Seq<usize>>, y: int, l: nat, j: int)
    requires
        last_idx_with_len(addrs, y, l) < j < y,
    ensures
        addrs[j].len() != l,
    decreases y,
{
    if y > 0 {
        if addrs[y - 1].len() == l {
        } else {
            if j < y - 1 {
                lemma_last_idx_gap(addrs, y - 1, l, j);
            }
        }
    }
}

/// The walk skips positions whose length is not the one it looks for: from
/// any state above the next hit, it reaches the hit unchanged.
proof fn lemma_walk_skips(addrs: Seq<Seq<usize>>, p: int, l: int, j: int, m: int)
    requires
        p <= j,
        forall|j2: int| p < j2 <= j ==> (#[trigger] addrs[j2].len()) != l,
        l >= 1,
    ensures
        in_parent_marks(addrs, j, l, m) == in_parent_marks(addrs, p, l, m),
    decreases j - p,
{
    if j > p {
        lemma_walk_skips(addrs, p, l, j - 1, m);
    }
}

/// Under the parent-linked address invariant, every position the backward
/// walk from a match marks carries a proper prefix of the match's address:
/// the walk really selects ancestors.
pub proof fn lemma_parent_walk_marks_ancestors(addrs: Seq<Seq<usize>>, y: int, m: int)
    requires
        parent_linked(addrs),
        0 <= y < addrs.len(),
        in_parent_marks(addrs, y - 1, addrs[y].len() - 1, m),
    ensures
        0 <= m < y,
        addrs[m].len() < addrs[y].len(),
        addrs[m] == addrs[y].take(addrs[m].len() as int),
    decreases addrs[y].len(),
{
    let l = addrs[y].len() - 1;
    lemma_parent_marks_bounds(addrs, y - 1, l, m);
    assert(l >= 1) by {
        if l < 1 {
            assert(!in_parent_marks(addrs, y - 1, l, m));
        }
    }
    assert(addrs[y].len() > 1);
    let p = last_idx_with_len(addrs, y, l as nat);
    lemma_last_idx_below(addrs, y, l as nat);
    assert(0 <= p < y);
    assert(addrs[p] == addrs[y].take(l));
    assert(forall|j2: int| p < j2 <= y - 1 ==> (#[trigger] addrs[j2].len()) != l) by {
        assert forall|j2: int| p < j2 <= y - 1 implies (#[trigger] addrs[j2].len()) != l by {
            lemma_last_idx_gap(addrs, y, l as nat, j2);
        }
    }
    lemma_walk_skips(addrs, p, l, y - 1, m);
    assert(in_parent_marks(addrs, p, l, m));
    assert(addrs[p].len() == l);
    if m == p {
        assert(addrs[m] == addrs[y].take(addrs[m].len() as int));
    } else {
        assert(in_parent_marks(addrs, p - 1, l - 1, m));
        assert(addrs[p].len() < addrs[y].len());
        lemma_parent_walk_marks_ancestors(addrs, p, m);
        assert(addrs[m] == addrs[p].take(addrs[m].len() as int));
        assert(addrs[p].take(addrs[m].len() as int) =~= addrs[y].take(addrs[m].len() as int));
    }
}


/// Positions before the stop of the forward walk are all descendants.
proof fn lemma_inner_stop_descends(addrs: Seq<Seq<usize>>, i: int, from: int, j: int)
    requires
        0 <= from,
        from <= j < inner_stop(addrs, i, from),
    ensures
        j < addrs.len() && is_strict_prefix(addrs[i], addrs[j]),
    decreases j - from,
{
    if from < j {
        lemma_inner_stop_descends(addrs, i, from + 1, j);
    }
}

/// Every position the forward walk from a match pulls in strictly extends
/// the match's address: the walk really selects the inner subtree.
pub proof fn lemma_inner_walk_marks_descendants(addrs: Seq<Seq<usize>>, i: int, j: int)
    requires
        0 <= i,
        in_inner_extent(addrs, i, j),
    ensures
        j < addrs.len(),
        is_strict_prefix(addrs[i], addrs[j]),
{
    lemma_inner_stop_descends(addrs, i, i + 1, j);
}

} // verus!
