//! The transaction mapper: turns a flattened upstream update into the
//! normalized `TransactionData`, reassembling inner instructions into a
//! pre-order traversal of the call tree and maintaining the instruction
//! address invariant.
use crate::data::last_idx_with_len;
use crate::data::Balance;
use crate::data::Instruction;
use crate::data::TokenBalance;
use crate::data::Transaction;
use crate::data::TransactionData;
use crate::data::TransactionVersion;
use crate::ingest::source::AddressTableLookup;
use crate::ingest::source::RawTokenBalance;
use crate::json_builder::ascii_seq;
use crate::json_builder::base58_items;
use crate::json_builder::base58_of;
use crate::json_builder::close_seq;
use crate::json_builder::lemma_close_append;
use crate::json_builder::number_items;
use crate::json_builder::JsonBuilder;
use vstd::string::StringSliceAdditionalSpecFns;
use vstd::utf8::valid_utf8;
use crate::data::parent_linked;
use crate::data::prefix_closed;
use crate::ingest::source::InnerInstruction;
use crate::ingest::source::InnerInstructionGroup;
use crate::ingest::source::TransactionUpdate;
use vstd::prelude::*;

verus! {

/// One flattened instruction as `(program id index, account indexes, data,
/// stack height)`; top-level instructions have height 1.
pub type FlatItem = (u32, Seq<u8>, Seq<u8>, int);

pub open spec fn top_flat(c: crate::ingest::source::CompiledInstruction) -> FlatItem {
    (c.program_id_index, c.accounts@, c.data@, 1int)
}

pub open spec fn inner_flat(x: InnerInstruction) -> FlatItem {
    (
        x.program_id_index,
        x.accounts@,
        x.data@,
        match x.stack_height {
            Some(h) => h as int,
            None => 2int,
        },
    )
}

/// The inner instructions grouped under top-level index `i`, concatenated in
/// arrival order.
pub open spec fn groups_for(gs: Seq<InnerInstructionGroup>, i: int) -> Seq<InnerInstruction>
    decreases gs.len(),
{
    if gs.len() == 0 {
        Seq::empty()
    } else {
        groups_for(gs.drop_last(), i) + (if gs.last().index == i {
            gs.last().instructions@
        } else {
            Seq::empty()
        })
    }
}

/// The flattened instruction sequence of the first `n` top-level
/// instructions: each top-level instruction followed by its inners.
pub open spec fn flat_upto(u: TransactionUpdate, n: int) -> Seq<FlatItem>
    decreases n,
{
    if n <= 0 {
        Seq::empty()
    } else {
        flat_upto(u, n - 1) + seq![top_flat(u.instructions@[n - 1])] + groups_for(
            u.meta.inner_instructions@,
            n - 1,
        ).map_values(|x: InnerInstruction| inner_flat(x))
    }
}

/// The whole flattened instruction sequence of an update.
pub open spec fn flat_items(u: TransactionUpdate) -> Seq<FlatItem> {
    flat_upto(u, u.instructions@.len() as int)
}

/// Stack heights are well-formed: the sequence starts at a top-level
/// instruction, inner heights are at least 2, and a height never jumps by
/// more than one above its predecessor.
pub open spec fn heights_ok(items: Seq<FlatItem>) -> bool {
    forall|k: int|
        0 <= k < items.len() ==> ((#[trigger] items[k]).3 == 1 || (items[k].3 >= 2 && k > 0
            && items[k].3 <= items[k - 1].3 + 1))
}

/// How many of the first `k` items are top-level instructions.
pub open spec fn count_tops(items: Seq<FlatItem>, k: int) -> int
    decreases k,
{
    if k <= 0 {
        0
    } else {
        count_tops(items, k - 1) + (if items[k - 1].3 == 1 {
            1int
        } else {
            0int
        })
    }
}

/// The address following `cur` at stack height `h`: the path is cut back to
/// length `h`; if it already has length `h` its last element increments,
/// otherwise a 0 is appended.
pub open spec fn next_addr(cur: Seq<usize>, h: int) -> Seq<usize> {
    let t = cur.take(
        if h <= cur.len() {
            h
        } else {
            cur.len() as int
        },
    );
    if t.len() == h {
        t.update(h - 1, ((t[h - 1] + 1) as usize))
    } else {
        t.push(0usize)
    }
}

/// The instruction address of item `k` of a flattened sequence.
pub open spec fn addr_at(items: Seq<FlatItem>, k: int) -> Seq<usize>
    decreases k,
{
    if items[k].3 == 1 || k <= 0 {
        seq![count_tops(items, k) as usize]
    } else {
        next_addr(addr_at(items, k - 1), items[k].3)
    }
}

/// All instruction addresses of a flattened sequence, in order.
pub open spec fn addrs_of(items: Seq<FlatItem>) -> Seq<Seq<usize>> {
    Seq::new(items.len(), |k: int| addr_at(items, k))
}

/// An address always has exactly the item's stack height as its length.
pub proof fn lemma_addr_len(items: Seq<FlatItem>, k: int)
    requires
        heights_ok(items),
        0 <= k < items.len(),
    ensures
        addr_at(items, k).len() == items[k].3,
    decreases k,
{
    if items[k].3 == 1 || k <= 0 {
    } else {
        lemma_addr_len(items, k - 1);
    }
}

/// Address elements are bounded by the item position.
pub proof fn lemma_addr_elems_bound(items: Seq<FlatItem>, k: int)
    requires
        heights_ok(items),
        0 <= k < items.len(),
    ensures
        forall|l: int| 0 <= l < addr_at(items, k).len() ==> #[trigger] addr_at(items, k)[l] <= k,
    decreases k,
{
    lemma_count_tops_bound(items, k);
    if items[k].3 == 1 || k <= 0 {
    } else {
        lemma_addr_elems_bound(items, k - 1);
        lemma_addr_len(items, k - 1);
    }
}

proof fn lemma_count_tops_bound(items: Seq<FlatItem>, k: int)
    requires
        k >= 0,
    ensures
        0 <= count_tops(items, k) <= k,
    decreases k,
{
    if k > 0 {
        lemma_count_tops_bound(items, k - 1);
    }
}

/// The active-prefix invariant: for every length `l` up to the current
/// address's length, the latest instruction at or before `k` whose address
/// has length `l` carries exactly the current address's prefix of length `l`.
pub proof fn lemma_addr_invariant(items: Seq<FlatItem>, k: int, l: int)
    requires
        heights_ok(items),
        0 <= k < items.len(),
        1 <= l <= addr_at(items, k).len(),
    ensures
        0 <= last_idx_with_len(addrs_of(items), k + 1, l as nat) <= k,
        addrs_of(items)[last_idx_with_len(addrs_of(items), k + 1, l as nat)] == addr_at(
            items,
            k,
        ).take(l),
    decreases k,
{
    let a = addrs_of(items);
    lemma_addr_len(items, k);
    if items[k].3 == 1 || k <= 0 {
        assert(l == 1);
        assert(a[k].len() == 1);
        assert(last_idx_with_len(a, k + 1, 1nat) == k);
        assert(addr_at(items, k).take(1) =~= addr_at(items, k));
    } else {
        lemma_addr_len(items, k - 1);
        let h = items[k].3;
        let prev = addr_at(items, k - 1);
        let cur = addr_at(items, k);
        assert(h <= prev.len() + 1);
        assert(cur == next_addr(prev, h));
        assert(cur.len() == h);
        if l == h {
            assert(a[k].len() == h);
            assert(last_idx_with_len(a, k + 1, l as nat) == k);
            assert(cur.take(l) =~= cur);
        } else {
            assert(a[k].len() == h && h != l);
            assert(last_idx_with_len(a, k + 1, l as nat) == last_idx_with_len(a, k, l as nat));
            assert(1 <= l <= prev.len());
            lemma_addr_invariant(items, k - 1, l);
            assert(cur.take(l) =~= prev.take(l));
        }
    }
}

/// The addresses of a well-formed flattened sequence are parent-linked.
pub proof fn lemma_addrs_parent_linked(items: Seq<FlatItem>)
    requires
        heights_ok(items),
    ensures
        parent_linked(addrs_of(items)),
{
    let a = addrs_of(items);
    assert forall|j: int| 0 <= j < a.len() && #[trigger] a[j].len() > 1 implies last_idx_with_len(
        a,
        j,
        (a[j].len() - 1) as nat,
    ) >= 0 && a[last_idx_with_len(a, j, (a[j].len() - 1) as nat)] == a[j].take(
        a[j].len() - 1,
    ) by {
        lemma_addr_len(items, j);
        let l = a[j].len() - 1;
        lemma_addr_invariant(items, j, l);
        assert(a[j].len() != l);
        assert(last_idx_with_len(a, j + 1, l as nat) == last_idx_with_len(a, j, l as nat));
        assert(a[j].take(l) == addr_at(items, j).take(l));
    }
}

/// The addresses of a well-formed flattened sequence are prefix-closed.
pub proof fn lemma_addrs_prefix_closed(items: Seq<FlatItem>)
    requires
        heights_ok(items),
    ensures
        prefix_closed(addrs_of(items)),
{
    let a = addrs_of(items);
    assert forall|j: int, l: int| 0 <= j < a.len() && 1 <= l <= a[j].len() implies exists|p: int|
        0 <= p <= j && a[p] == #[trigger] a[j].take(l) by {
        lemma_addr_invariant(items, j, l);
        let p = last_idx_with_len(a, j + 1, l as nat);
        assert(0 <= p <= j && a[p] == a[j].take(l));
    }
}

/// The view of one flattened exec item.
pub open spec fn fview(t: (u32, Vec<u8>, Vec<u8>, usize)) -> FlatItem {
    (t.0, t.1@, t.2@, t.3 as int)
}

/// The total number of entries of the merged address table.
pub open spec fn accounts_total(u: TransactionUpdate) -> int {
    u.account_keys@.len() + u.meta.loaded_writable_addresses@.len()
        + u.meta.loaded_readonly_addresses@.len() as int
}

/// One raw token balance record fits the update: its account index is in
/// range and its identifier strings are ASCII.
pub open spec fn token_ok(t: crate::ingest::source::RawTokenBalance, na: int) -> bool {
    &&& (t.account_index as int) < na
    &&& ascii_seq(t.mint@)
    &&& ascii_seq(t.owner@)
    &&& ascii_seq(t.program_id@)
    &&& (t.amount matches Some(a) ==> ascii_seq(a@))
}

/// Every account reference of the flattened items is in range of the merged
/// address table of `na` entries, and program id indexes fit an `u8`.
pub open spec fn account_refs_ok(items: Seq<FlatItem>, na: int) -> bool {
    forall|k: int|
        0 <= k < items.len() ==> (#[trigger] items[k]).0 < 256 && (items[k].0 as int) < na && (
        forall|j: int| 0 <= j < items[k].1.len() ==> ((#[trigger] items[k].1[j]) as int) < na)
}

/// A transaction update the mapper accepts: stack heights are well-formed,
/// the flattened sequence fits in memory, every inner-instruction group
/// refers to an existing top-level instruction, every account reference is in
/// range of the merged address table, and identifier strings are ASCII.
pub open spec fn valid_update(u: TransactionUpdate) -> bool {
    &&& heights_ok(flat_items(u))
    &&& flat_items(u).len() <= usize::MAX
    &&& forall|g: int|
        0 <= g < u.meta.inner_instructions@.len() ==> ((#[trigger] u.meta.inner_instructions@[g]).index as int) < u.instructions@.len()
    &&& account_refs_ok(flat_items(u), accounts_total(u))
    &&& (u.meta.err_json matches Some(e) ==> ascii_seq(e@))
    &&& forall|p: int|
        0 <= p < u.meta.pre_token_balances@.len() ==> token_ok(
            #[trigger] u.meta.pre_token_balances@[p],
            accounts_total(u),
        )
    &&& forall|p: int|
        0 <= p < u.meta.post_token_balances@.len() ==> token_ok(
            #[trigger] u.meta.post_token_balances@[p],
            accounts_total(u),
        )
}

/// Flattens an update's instructions: each top-level instruction, then its
/// inner instructions in group arrival order.
fn flatten(u: &TransactionUpdate) -> (r: Vec<(u32, Vec<u8>, Vec<u8>, usize)>)
    ensures
        r@.map_values(|t: (u32, Vec<u8>, Vec<u8>, usize)| fview(t)) == flat_items(*u),
{
    let mut r: Vec<(u32, Vec<u8>, Vec<u8>, usize)> = Vec::new();
    let mut i: usize = 0;
    while i < u.instructions.len()
        invariant
            i <= u.instructions@.len(),
            r@.map_values(|t: (u32, Vec<u8>, Vec<u8>, usize)| fview(t)) =~~= flat_upto(
                *u,
                i as int,
            ),
        decreases u.instructions@.len() - i,
    {
        let c = &u.instructions[i];
        let ghost before_top = r@.map_values(|t: (u32, Vec<u8>, Vec<u8>, usize)| fview(t));
        r.push((c.program_id_index, c.accounts.clone(), c.data.clone(), 1));
        proof {
            assert(r@.map_values(|t: (u32, Vec<u8>, Vec<u8>, usize)| fview(t)) =~~= before_top
                + seq![top_flat(u.instructions@[i as int])]);
        }
        let mut gi: usize = 0;
        while gi < u.meta.inner_instructions.len()
            invariant
                gi <= u.meta.inner_instructions@.len(),
                i < u.instructions@.len(),
                before_top == flat_upto(*u, i as int),
                r@.map_values(|t: (u32, Vec<u8>, Vec<u8>, usize)| fview(t)) =~~= before_top
                    + seq![top_flat(u.instructions@[i as int])] + groups_for(
                    u.meta.inner_instructions@.take(gi as int),
                    i as int,
                ).map_values(|x: InnerInstruction| inner_flat(x)),
            decreases u.meta.inner_instructions@.len() - gi,
        {
            let g = &u.meta.inner_instructions[gi];
            if g.index as usize == i {
                let mut j: usize = 0;
                while j < g.instructions.len()
                    invariant
                        j <= g.instructions@.len(),
                        i < u.instructions@.len(),
                        gi < u.meta.inner_instructions@.len(),
                        g == &u.meta.inner_instructions@[gi as int],
                        (g.index as usize) == i,
                        before_top == flat_upto(*u, i as int),
                        r@.map_values(|t: (u32, Vec<u8>, Vec<u8>, usize)| fview(t)) =~~= before_top
                            + seq![top_flat(u.instructions@[i as int])] + groups_for(
                            u.meta.inner_instructions@.take(gi as int),
                            i as int,
                        ).map_values(|x: InnerInstruction| inner_flat(x))
                            + g.instructions@.take(j as int).map_values(
                            |x: InnerInstruction| inner_flat(x),
                        ),
                    decreases g.instructions@.len() - j,
                {
                    let x = &g.instructions[j];
                    let h: usize = match x.stack_height {
                        Some(v) => v as usize,
                        None => 2,
                    };
                    let ghost pre_map = r@.map_values(
                        |t: (u32, Vec<u8>, Vec<u8>, usize)| fview(t),
                    );
                    let ghost item = inner_flat(g.instructions@[j as int]);
                    let acc: Vec<u8> = x.accounts.clone();
                    let dat: Vec<u8> = x.data.clone();
                    assert(acc@ == x.accounts@ && dat@ == x.data@);
                    r.push((x.program_id_index, acc, dat, h));
                    j = j + 1;
                    proof {
                        assert(r@.map_values(|t: (u32, Vec<u8>, Vec<u8>, usize)| fview(t))
                            =~~= pre_map.push(item));
                        assert(g.instructions@.take(j as int).map_values(
                            |x: InnerInstruction| inner_flat(x),
                        ) =~~= g.instructions@.take(j as int - 1).map_values(
                            |x: InnerInstruction| inner_flat(x),
                        ).push(item));
                        assert(r@.map_values(|t: (u32, Vec<u8>, Vec<u8>, usize)| fview(t))
                            =~~= before_top + seq![top_flat(u.instructions@[i as int])]
                            + groups_for(
                            u.meta.inner_instructions@.take(gi as int),
                            i as int,
                        ).map_values(|x: InnerInstruction| inner_flat(x))
                            + g.instructions@.take(j as int).map_values(
                            |x: InnerInstruction| inner_flat(x),
                        ));
                    }
                }
                proof {
                    assert(g.instructions@.take(g.instructions@.len() as int)
                        =~~= g.instructions@);
                }
            }
            gi = gi + 1;
            proof {
                let gs = u.meta.inner_instructions@;
                assert(gs.take(gi as int).drop_last() =~~= gs.take(gi as int - 1));
                assert(gs.take(gi as int).last() == gs[gi as int - 1]);
                let tail = if gs[gi as int - 1].index == i as int {
                    gs[gi as int - 1].instructions@
                } else {
                    Seq::empty()
                };
                assert(groups_for(gs.take(gi as int), i as int) == groups_for(
                    gs.take(gi as int - 1),
                    i as int,
                ) + tail);
                assert(r@.map_values(|t: (u32, Vec<u8>, Vec<u8>, usize)| fview(t)) =~~= before_top
                    + seq![top_flat(u.instructions@[i as int])] + groups_for(
                    gs.take(gi as int),
                    i as int,
                ).map_values(|x: InnerInstruction| inner_flat(x)));
            }
        }
        i = i + 1;
        proof {
            let gs = u.meta.inner_instructions@;
            assert(gs.take(gs.len() as int) =~~= gs);
            assert(r@.map_values(|t: (u32, Vec<u8>, Vec<u8>, usize)| fview(t)) =~~= flat_upto(
                *u,
                i as int,
            ));
        }
    }
    r
}

/// Checks the stack-height discipline of a flattened sequence.
fn check_heights(flat: &Vec<(u32, Vec<u8>, Vec<u8>, usize)>) -> (r: bool)
    ensures
        r == heights_ok(flat@.map_values(|t: (u32, Vec<u8>, Vec<u8>, usize)| fview(t))),
{
    let ghost items = flat@.map_values(|t: (u32, Vec<u8>, Vec<u8>, usize)| fview(t));
    let mut k: usize = 0;
    while k < flat.len()
        invariant
            k <= flat@.len(),
            items == flat@.map_values(|t: (u32, Vec<u8>, Vec<u8>, usize)| fview(t)),
            forall|k2: int|
                0 <= k2 < k ==> ((#[trigger] items[k2]).3 == 1 || (items[k2].3 >= 2 && k2 > 0
                    && items[k2].3 <= items[k2 - 1].3 + 1)),
        decreases flat@.len() - k,
    {
        let h: usize = flat[k].3;
        if h != 1 {
            if k == 0 || h < 2 {
                proof {
                    assert(items[k as int].3 == h);
                    assert(!heights_ok(items));
                }
                return false;
            }
            let hp: usize = flat[k - 1].3;
            if h - 1 > hp {
                proof {
                    assert(items[k as int].3 == h && items[k as int - 1].3 == hp);
                    assert(!heights_ok(items));
                }
                return false;
            }
        }
        k = k + 1;
    }
    true
}

/// Checks that every account reference of a flattened sequence is in range.
fn check_account_refs(flat: &Vec<(u32, Vec<u8>, Vec<u8>, usize)>, na: u128) -> (r: bool)
    ensures
        r == account_refs_ok(
            flat@.map_values(|t: (u32, Vec<u8>, Vec<u8>, usize)| fview(t)),
            na as int,
        ),
{
    let ghost items = flat@.map_values(|t: (u32, Vec<u8>, Vec<u8>, usize)| fview(t));
    let mut k: usize = 0;
    while k < flat.len()
        invariant
            k <= flat@.len(),
            items == flat@.map_values(|t: (u32, Vec<u8>, Vec<u8>, usize)| fview(t)),
            forall|k2: int|
                0 <= k2 < k ==> (#[trigger] items[k2]).0 < 256 && (items[k2].0 as int) < na as int
                    && (forall|j: int|
                    0 <= j < items[k2].1.len() ==> ((#[trigger] items[k2].1[j]) as int) < na
                        as int),
        decreases flat@.len() - k,
    {
        let pid: u32 = flat[k].0;
        if pid >= 256 || pid as u128 >= na {
            proof {
                assert(items[k as int].0 == pid);
            }
            return false;
        }
        let mut j: usize = 0;
        while j < flat[k].1.len()
            invariant
                k < flat@.len(),
                j <= flat@[k as int].1@.len(),
                items == flat@.map_values(|t: (u32, Vec<u8>, Vec<u8>, usize)| fview(t)),
                forall|j2: int|
                    0 <= j2 < j ==> ((#[trigger] items[k as int].1[j2]) as int) < na as int,
            decreases flat@[k as int].1@.len() - j,
        {
            let b: u8 = flat[k].1[j];
            if b as u128 >= na {
                proof {
                    assert(items[k as int].1[j as int] == b);
                }
                return false;
            }
            j = j + 1;
        }
        k = k + 1;
        proof {
            assert(items[k as int - 1].1.len() == flat@[k as int - 1].1@.len());
        }
    }
    true
}

/// Checks one raw token balance list.
fn check_token_list(list: &Vec<crate::ingest::source::RawTokenBalance>, na: u128) -> (r: bool)
    ensures
        r == (forall|p: int|
            0 <= p < list@.len() ==> token_ok(#[trigger] list@[p], na as int)),
{
    let mut p: usize = 0;
    while p < list.len()
        invariant
            p <= list@.len(),
            forall|p2: int| 0 <= p2 < p ==> token_ok(#[trigger] list@[p2], na as int),
        decreases list@.len() - p,
    {
        let t = &list[p];
        if t.account_index as u128 >= na {
            return false;
        }
        if !crate::json_builder::is_ascii_bytes(t.mint.as_slice()) {
            return false;
        }
        if !crate::json_builder::is_ascii_bytes(t.owner.as_slice()) {
            return false;
        }
        if !crate::json_builder::is_ascii_bytes(t.program_id.as_slice()) {
            return false;
        }
        match &t.amount {
            Some(a) => {
                if !crate::json_builder::is_ascii_bytes(a.as_slice()) {
                    return false;
                }
            },
            None => {},
        }
        p = p + 1;
    }
    true
}

/// Decides whether the mapper accepts an update; apply it before calling
/// `map_transaction`.
pub fn check_update(u: &TransactionUpdate) -> (r: bool)
    ensures
        r == valid_update(*u),
{
    let flat = flatten(u);
    let n_flat: usize = flat.len();
    let ghost items = flat_items(*u);
    let na: u128 = u.account_keys.len() as u128 + u.meta.loaded_writable_addresses.len() as u128
        + u.meta.loaded_readonly_addresses.len() as u128;
    proof {
        assert(na as int == accounts_total(*u));
        assert(flat@.map_values(|t: (u32, Vec<u8>, Vec<u8>, usize)| fview(t)) == items);
        assert(items.len() == n_flat as int);
        assert(items.len() <= usize::MAX);
    }
    if !check_heights(&flat) {
        return false;
    }
    if !check_account_refs(&flat, na) {
        return false;
    }
    let mut gi: usize = 0;
    while gi < u.meta.inner_instructions.len()
        invariant
            gi <= u.meta.inner_instructions@.len(),
            forall|g: int|
                0 <= g < gi ==> ((#[trigger] u.meta.inner_instructions@[g]).index as int)
                    < u.instructions@.len(),
        decreases u.meta.inner_instructions@.len() - gi,
    {
        if u.meta.inner_instructions[gi].index as usize >= u.instructions.len() {
            return false;
        }
        gi = gi + 1;
    }
    match &u.meta.err_json {
        Some(e) => {
            if !crate::json_builder::is_ascii_bytes(e.as_slice()) {
                return false;
            }
        },
        None => {},
    }
    if !check_token_list(&u.meta.pre_token_balances, na) {
        return false;
    }
    if !check_token_list(&u.meta.post_token_balances, na) {
        return false;
    }
    true
}

/// A quoted property name and the following colon.
pub open spec fn spec_prop(name: &str) -> Seq<u8> {
    seq![0x22u8] + name.spec_bytes() + seq![0x22u8, 0x3au8]
}

/// A JSON array of quoted base58 strings.
pub open spec fn spec_b58_array(l: Seq<Seq<u8>>) -> Seq<u8> {
    close_seq(seq![0x5bu8] + base58_items(l), 0x5du8)
}

/// A JSON array of numbers.
pub open spec fn spec_num_array(l: Seq<u8>) -> Seq<u8> {
    close_seq(seq![0x5bu8] + number_items(l), 0x5du8)
}

/// The pre-rendered `loadedAddresses` fragment.
pub open spec fn spec_loaded_addresses(w: Seq<Seq<u8>>, r: Seq<Seq<u8>>) -> Seq<u8> {
    close_seq(
        seq![0x7bu8] + spec_prop("writable") + spec_b58_array(w) + seq![0x2cu8] + spec_prop(
            "readonly",
        ) + spec_b58_array(r) + seq![0x2cu8],
        0x7du8,
    )
}

/// One pre-rendered address table lookup object.
pub open spec fn spec_lookup_obj(l: AddressTableLookup) -> Seq<u8> {
    close_seq(
        seq![0x7bu8] + spec_prop("accountKey") + seq![0x22u8] + base58_of(l.account_key@) + seq![
            0x22u8,
            0x2cu8,
        ] + spec_prop("readonlyIndexes") + spec_num_array(l.readonly_indexes@) + seq![0x2cu8]
            + spec_prop("writableIndexes") + spec_num_array(l.writable_indexes@) + seq![0x2cu8],
        0x7du8,
    )
}

/// The lookup objects of the `addressTableLookups` fragment, each followed by
/// a comma.
pub open spec fn lookup_items(ls: Seq<AddressTableLookup>) -> Seq<u8>
    decreases ls.len(),
{
    if ls.len() == 0 {
        Seq::empty()
    } else {
        lookup_items(ls.drop_last()) + spec_lookup_obj(ls.last()) + seq![0x2cu8]
    }
}

/// The pre-rendered `addressTableLookups` fragment.
pub open spec fn spec_lookups(ls: Seq<AddressTableLookup>) -> Seq<u8> {
    close_seq(seq![0x5bu8] + lookup_items(ls), 0x5du8)
}

/// Renders the signatures fragment: a JSON array of base58 strings.
fn render_signatures(sigs: &Vec<Vec<u8>>) -> (r: Vec<u8>)
    ensures
        r@ == spec_b58_array(sigs@.map_values(|v: Vec<u8>| v@)),
        valid_utf8(r@),
{
    let mut json = JsonBuilder::new();
    json.base58_list(sigs);
    proof {
        assert(Seq::<u8>::empty() + seq![0x5bu8] + base58_items(
            sigs@.map_values(|v: Vec<u8>| v@),
        ) =~= seq![0x5bu8] + base58_items(sigs@.map_values(|v: Vec<u8>| v@)));
    }
    json.into_bytes()
}

/// Renders the `loadedAddresses` fragment.
fn render_loaded_addresses(w: &Vec<Vec<u8>>, rd: &Vec<Vec<u8>>) -> (r: Vec<u8>)
    ensures
        r@ == spec_loaded_addresses(
            w@.map_values(|v: Vec<u8>| v@),
            rd@.map_values(|v: Vec<u8>| v@),
        ),
        valid_utf8(r@),
{
    let ghost wv = w@.map_values(|v: Vec<u8>| v@);
    let ghost rv = rd@.map_values(|v: Vec<u8>| v@);
    let mut json = JsonBuilder::new();
    json.begin_object();
    json.safe_prop("writable");
    let ghost p1 = json.bytes();
    json.base58_list(w);
    proof {
        lemma_close_append(p1, seq![0x5bu8] + base58_items(wv), 0x5du8);
        assert(json.bytes() =~= p1 + spec_b58_array(wv));
    }
    json.comma();
    json.safe_prop("readonly");
    let ghost p2 = json.bytes();
    json.base58_list(rd);
    proof {
        lemma_close_append(p2, seq![0x5bu8] + base58_items(rv), 0x5du8);
        assert(json.bytes() =~= p2 + spec_b58_array(rv));
    }
    json.comma();
    let ghost body = seq![0x7bu8] + spec_prop("writable") + spec_b58_array(wv) + seq![0x2cu8]
        + spec_prop("readonly") + spec_b58_array(rv) + seq![0x2cu8];
    proof {
        assert(json.bytes() =~= body);
        assert(json.bytes().len() > 0);
    }
    json.end_object();
    proof {
        assert(json.bytes() == close_seq(body, 0x7du8));
    }
    json.into_bytes()
}

/// Renders one address table lookup object.
#[verifier::rlimit(100)]
#[verifier::spinoff_prover]
fn render_lookup_obj(l: &AddressTableLookup) -> (r: Vec<u8>)
    ensures
        r@ == spec_lookup_obj(*l),
        valid_utf8(r@),
{
    let mut json = JsonBuilder::new();
    json.begin_object();
    let ghost c1 = seq![0x7bu8];
    proof {
        assert(json.bytes() =~= c1);
    }
    json.safe_prop("accountKey");
    let ghost c2 = c1 + spec_prop("accountKey");
    proof {
        assert(json.bytes() =~= c2);
    }
    json.base58(l.account_key.as_slice());
    let ghost c3 = c2 + seq![0x22u8] + base58_of(l.account_key@) + seq![0x22u8];
    proof {
        assert(json.bytes() =~= c3);
    }
    json.comma();
    json.safe_prop("readonlyIndexes");
    let ghost c5 = c3 + seq![0x2cu8] + spec_prop("readonlyIndexes");
    proof {
        assert(json.bytes() =~= c5);
    }
    json.number_list(l.readonly_indexes.as_slice());
    let ghost c6 = c5 + spec_num_array(l.readonly_indexes@);
    proof {
        lemma_close_append(c5, seq![0x5bu8] + number_items(l.readonly_indexes@), 0x5du8);
        assert(json.bytes() =~= c6);
    }
    json.comma();
    json.safe_prop("writableIndexes");
    let ghost c8 = c6 + seq![0x2cu8] + spec_prop("writableIndexes");
    proof {
        assert(json.bytes() =~= c8);
    }
    json.number_list(l.writable_indexes.as_slice());
    let ghost c9 = c8 + spec_num_array(l.writable_indexes@);
    proof {
        lemma_close_append(c8, seq![0x5bu8] + number_items(l.writable_indexes@), 0x5du8);
        assert(json.bytes() =~= c9);
    }
    json.comma();
    let ghost c10 = c9 + seq![0x2cu8];
    proof {
        assert(json.bytes() =~= c10);
        assert(json.bytes().len() > 0);
    }
    json.end_object();
    proof {
        assert(c10 =~= seq![0x7bu8] + spec_prop("accountKey") + seq![0x22u8] + base58_of(
            l.account_key@,
        ) + seq![0x22u8, 0x2cu8] + spec_prop("readonlyIndexes") + spec_num_array(
            l.readonly_indexes@,
        ) + seq![0x2cu8] + spec_prop("writableIndexes") + spec_num_array(l.writable_indexes@)
            + seq![0x2cu8]);
        assert(json.bytes() == spec_lookup_obj(*l));
    }
    json.into_bytes()
}

/// Renders the `addressTableLookups` fragment.
pub fn render_address_table_lookups(lookups: &Vec<AddressTableLookup>) -> (r: Vec<u8>)
    ensures
        r@ == spec_lookups(lookups@),
        valid_utf8(r@),
{
    let mut json = JsonBuilder::new();
    json.begin_array();
    let mut i: usize = 0;
    while i < lookups.len()
        invariant
            i <= lookups@.len(),
            json.wf(),
            json.bytes() =~= seq![0x5bu8] + lookup_items(lookups@.take(i as int)),
        decreases lookups@.len() - i,
    {
        let obj = render_lookup_obj(&lookups[i]);
        json.raw(obj.as_slice());
        json.comma();
        i = i + 1;
        proof {
            assert(lookups@.take(i as int).drop_last() =~= lookups@.take(i as int - 1));
            assert(lookups@.take(i as int).last() == lookups@[i as int - 1]);
            assert(json.bytes() =~= seq![0x5bu8] + lookup_items(lookups@.take(i as int)));
        }
    }
    proof {
        assert(lookups@.take(lookups@.len() as int) =~= lookups@);
        assert(json.bytes().len() > 0);
    }
    json.end_array();
    json.into_bytes()
}

/// The merged address table: static keys, then loaded writable, then loaded
/// readonly addresses, each base58-encoded.
pub open spec fn accounts_spec(u: TransactionUpdate) -> Seq<Seq<u8>> {
    u.account_keys@.map_values(|v: Vec<u8>| base58_of(v@))
        + u.meta.loaded_writable_addresses@.map_values(|v: Vec<u8>| base58_of(v@))
        + u.meta.loaded_readonly_addresses@.map_values(|v: Vec<u8>| base58_of(v@))
}

/// A produced instruction agrees with one flattened input item.
pub open spec fn instruction_matches(
    ins: Instruction,
    f: FlatItem,
    addr: Seq<usize>,
    committed: bool,
) -> bool {
    &&& ins.program_id as int == (f.0 as int) % 256
    &&& ins.accounts@ == f.1
    &&& ins.data@ == base58_of(f.2)
    &&& ins.binary_data@ == f.2
    &&& ins.is_committed == committed
    &&& ins.instruction_address@ == addr
}

/// The views of an optional byte string.
pub open spec fn opt_bytes(o: Option<Vec<u8>>) -> Option<Seq<u8>> {
    match o {
        Some(v) => Some(v@),
        None => None,
    }
}

/// The first position in `s` with the given account index, or `-1`.
pub open spec fn first_idx_with(s: Seq<RawTokenBalance>, idx: u32) -> int
    decreases s.len(),
{
    if s.len() == 0 {
        -1
    } else if s[0].account_index == idx {
        0
    } else if first_idx_with(s.drop_first(), idx) < 0 {
        -1
    } else {
        1 + first_idx_with(s.drop_first(), idx)
    }
}

/// The post records whose account index has no pre record.
pub open spec fn post_only(
    posts: Seq<RawTokenBalance>,
    pres: Seq<RawTokenBalance>,
) -> Seq<RawTokenBalance>
    decreases posts.len(),
{
    if posts.len() == 0 {
        Seq::empty()
    } else {
        post_only(posts.drop_last(), pres) + (if first_idx_with(pres, posts.last().account_index)
            < 0 {
            seq![posts.last()]
        } else {
            Seq::empty()
        })
    }
}

/// A produced token balance merges one pre record with the first matching
/// post record, if any.
pub open spec fn tb_pre_matches(
    tb: TokenBalance,
    p: RawTokenBalance,
    posts: Seq<RawTokenBalance>,
    accounts: Seq<Seq<u8>>,
) -> bool {
    &&& tb.account@ == accounts[p.account_index as int]
    &&& opt_bytes(tb.pre_mint) == Some(p.mint@)
    &&& opt_bytes(tb.pre_owner) == Some(p.owner@)
    &&& opt_bytes(tb.pre_program_id) == Some(p.program_id@)
    &&& tb.pre_decimals == p.decimals
    &&& opt_bytes(tb.pre_amount) == opt_bytes(p.amount)
    &&& (if first_idx_with(posts, p.account_index) >= 0 {
        opt_bytes(tb.post_mint) == Some(posts[first_idx_with(posts, p.account_index)].mint@)
            && opt_bytes(tb.post_owner) == Some(
            posts[first_idx_with(posts, p.account_index)].owner@,
        ) && opt_bytes(tb.post_program_id) == Some(
            posts[first_idx_with(posts, p.account_index)].program_id@,
        ) && tb.post_decimals == posts[first_idx_with(posts, p.account_index)].decimals
            && opt_bytes(tb.post_amount) == opt_bytes(
            posts[first_idx_with(posts, p.account_index)].amount,
        )
    } else {
        tb.post_mint is None && tb.post_owner is None && tb.post_program_id is None
            && tb.post_decimals is None && tb.post_amount is None
    })
}

/// A produced token balance holds one post record with no pre side.
pub open spec fn tb_post_only_matches(
    tb: TokenBalance,
    q: RawTokenBalance,
    accounts: Seq<Seq<u8>>,
) -> bool {
    &&& tb.account@ == accounts[q.account_index as int]
    &&& tb.pre_mint is None && tb.pre_owner is None && tb.pre_program_id is None
        && tb.pre_decimals is None && tb.pre_amount is None
    &&& opt_bytes(tb.post_mint) == Some(q.mint@)
    &&& opt_bytes(tb.post_owner) == Some(q.owner@)
    &&& opt_bytes(tb.post_program_id) == Some(q.program_id@)
    &&& tb.post_decimals == q.decimals
    &&& opt_bytes(tb.post_amount) == opt_bytes(q.amount)
}

proof fn lemma_first_idx_found(s: Seq<RawTokenBalance>, idx: u32, i: int)
    requires
        0 <= i < s.len(),
        s[i].account_index == idx,
        forall|j: int| 0 <= j < i ==> (#[trigger] s[j]).account_index != idx,
    ensures
        first_idx_with(s, idx) == i,
    decreases i,
{
    if i == 0 {
    } else {
        assert(forall|j: int|
            0 <= j < i - 1 ==> (#[trigger] s.drop_first()[j]).account_index != idx);
        lemma_first_idx_found(s.drop_first(), idx, i - 1);
    }
}

proof fn lemma_first_idx_none(s: Seq<RawTokenBalance>, idx: u32)
    requires
        forall|j: int| 0 <= j < s.len() ==> (#[trigger] s[j]).account_index != idx,
    ensures
        first_idx_with(s, idx) < 0,
    decreases s.len(),
{
    if s.len() > 0 {
        assert(forall|j: int|
            0 <= j < s.drop_first().len() ==> (#[trigger] s.drop_first()[j]).account_index != idx);
        lemma_first_idx_none(s.drop_first(), idx);
    }
}

proof fn lemma_first_idx_in_range(s: Seq<RawTokenBalance>, idx: u32)
    ensures
        first_idx_with(s, idx) < s.len(),
        first_idx_with(s, idx) >= 0 ==> s[first_idx_with(s, idx)].account_index == idx,
    decreases s.len(),
{
    if s.len() > 0 {
        lemma_first_idx_in_range(s.drop_first(), idx);
    }
}

/// Finds the first record with the given account index.
fn find_token(list: &Vec<RawTokenBalance>, idx: u32) -> (r: Option<usize>)
    ensures
        r matches Some(i) ==> first_idx_with(list@, idx) == i as int && (i as int) < list@.len(),
        r is None ==> first_idx_with(list@, idx) < 0,
{
    let mut i: usize = 0;
    while i < list.len()
        invariant
            i <= list@.len(),
            forall|j: int| 0 <= j < i ==> (#[trigger] list@[j]).account_index != idx,
        decreases list@.len() - i,
    {
        if list[i].account_index == idx {
            proof {
                lemma_first_idx_found(list@, idx, i as int);
            }
            return Some(i);
        }
        i = i + 1;
    }
    proof {
        lemma_first_idx_none(list@, idx);
    }
    None
}

/// Copies an optional byte string.
fn copy_opt(o: &Option<Vec<u8>>) -> (r: Option<Vec<u8>>)
    ensures
        opt_bytes(r) == opt_bytes(*o),
{
    match o {
        Some(v) => Some(v.clone()),
        None => None,
    }
}

/// Builds the merged, base58-encoded address table.
fn map_accounts(u: &TransactionUpdate) -> (r: Vec<Vec<u8>>)
    ensures
        r@.map_values(|v: Vec<u8>| v@) =~~= accounts_spec(*u),
        r@.len() == accounts_total(*u),
        forall|i: int| 0 <= i < r@.len() ==> ascii_seq((#[trigger] r@[i])@),
{
    let mut r: Vec<Vec<u8>> = Vec::new();
    let mut i: usize = 0;
    while i < u.account_keys.len()
        invariant
            i <= u.account_keys@.len(),
            r@.len() == i,
            r@.map_values(|v: Vec<u8>| v@) =~~= u.account_keys@.take(i as int).map_values(
                |v: Vec<u8>| base58_of(v@),
            ),
            forall|j: int| 0 <= j < r@.len() ==> ascii_seq((#[trigger] r@[j])@),
        decreases u.account_keys@.len() - i,
    {
        let ghost pre_map = r@.map_values(|v: Vec<u8>| v@);
        r.push(crate::json_builder::base58_encode(u.account_keys[i].as_slice()));
        i = i + 1;
        proof {
            assert(r@.map_values(|v: Vec<u8>| v@) =~~= pre_map.push(
                base58_of(u.account_keys@[i as int - 1]@),
            ));
            assert(u.account_keys@.take(i as int).drop_last() =~= u.account_keys@.take(
                i as int - 1,
            ));
            assert(r@.map_values(|v: Vec<u8>| v@) =~~= u.account_keys@.take(i as int).map_values(
                |v: Vec<u8>| base58_of(v@),
            ));
        }
    }
    let ghost part1 = u.account_keys@.map_values(|v: Vec<u8>| base58_of(v@));
    proof {
        assert(u.account_keys@.take(u.account_keys@.len() as int) =~= u.account_keys@);
    }
    let mut i2: usize = 0;
    while i2 < u.meta.loaded_writable_addresses.len()
        invariant
            i2 <= u.meta.loaded_writable_addresses@.len(),
            r@.len() == part1.len() + i2,
            r@.map_values(|v: Vec<u8>| v@) =~~= part1 + u.meta.loaded_writable_addresses@.take(
                i2 as int,
            ).map_values(|v: Vec<u8>| base58_of(v@)),
            forall|j: int| 0 <= j < r@.len() ==> ascii_seq((#[trigger] r@[j])@),
        decreases u.meta.loaded_writable_addresses@.len() - i2,
    {
        let ghost pre_map = r@.map_values(|v: Vec<u8>| v@);
        r.push(
            crate::json_builder::base58_encode(u.meta.loaded_writable_addresses[i2].as_slice()),
        );
        i2 = i2 + 1;
        proof {
            assert(r@.map_values(|v: Vec<u8>| v@) =~~= pre_map.push(
                base58_of(u.meta.loaded_writable_addresses@[i2 as int - 1]@),
            ));
            assert(u.meta.loaded_writable_addresses@.take(i2 as int).drop_last()
                =~= u.meta.loaded_writable_addresses@.take(i2 as int - 1));
            assert(r@.map_values(|v: Vec<u8>| v@) =~~= part1
                + u.meta.loaded_writable_addresses@.take(i2 as int).map_values(
                |v: Vec<u8>| base58_of(v@),
            ));
        }
    }
    let ghost part2 = u.meta.loaded_writable_addresses@.map_values(|v: Vec<u8>| base58_of(v@));
    proof {
        assert(u.meta.loaded_writable_addresses@.take(
            u.meta.loaded_writable_addresses@.len() as int,
        ) =~= u.meta.loaded_writable_addresses@);
    }
    let mut i3: usize = 0;
    while i3 < u.meta.loaded_readonly_addresses.len()
        invariant
            i3 <= u.meta.loaded_readonly_addresses@.len(),
            r@.len() == part1.len() + part2.len() + i3,
            r@.map_values(|v: Vec<u8>| v@) =~~= part1 + part2
                + u.meta.loaded_readonly_addresses@.take(i3 as int).map_values(
                |v: Vec<u8>| base58_of(v@),
            ),
            forall|j: int| 0 <= j < r@.len() ==> ascii_seq((#[trigger] r@[j])@),
        decreases u.meta.loaded_readonly_addresses@.len() - i3,
    {
        let ghost pre_map = r@.map_values(|v: Vec<u8>| v@);
        r.push(
            crate::json_builder::base58_encode(u.meta.loaded_readonly_addresses[i3].as_slice()),
        );
        i3 = i3 + 1;
        proof {
            assert(r@.map_values(|v: Vec<u8>| v@) =~~= pre_map.push(
                base58_of(u.meta.loaded_readonly_addresses@[i3 as int - 1]@),
            ));
            assert(u.meta.loaded_readonly_addresses@.take(i3 as int).drop_last()
                =~= u.meta.loaded_readonly_addresses@.take(i3 as int - 1));
            assert(r@.map_values(|v: Vec<u8>| v@) =~~= part1 + part2
                + u.meta.loaded_readonly_addresses@.take(i3 as int).map_values(
                |v: Vec<u8>| base58_of(v@),
            ));
        }
    }
    proof {
        assert(u.meta.loaded_readonly_addresses@.take(
            u.meta.loaded_readonly_addresses@.len() as int,
        ) =~= u.meta.loaded_readonly_addresses@);
        assert(r@.map_values(|v: Vec<u8>| v@) =~~= accounts_spec(*u));
    }
    r
}

/// Builds the ordered instruction sequence with its addresses.
fn map_instructions(flat: &Vec<(u32, Vec<u8>, Vec<u8>, usize)>, committed: bool) -> (r: Vec<
    Instruction,
>)
    requires
        heights_ok(flat@.map_values(|t: (u32, Vec<u8>, Vec<u8>, usize)| fview(t))),
    ensures
        r@.len() == flat@.len(),
        forall|k: int|
            0 <= k < flat@.len() ==> instruction_matches(
                #[trigger] r@[k],
                flat@.map_values(|t: (u32, Vec<u8>, Vec<u8>, usize)| fview(t))[k],
                addr_at(flat@.map_values(|t: (u32, Vec<u8>, Vec<u8>, usize)| fview(t)), k),
                committed,
            ),
        forall|k: int| 0 <= k < r@.len() ==> ascii_seq((#[trigger] r@[k]).data@),
{
    let ghost items = flat@.map_values(|t: (u32, Vec<u8>, Vec<u8>, usize)| fview(t));
    let mut r: Vec<Instruction> = Vec::new();
    let mut address: Vec<usize> = Vec::new();
    let mut tops: usize = 0;
    let mut k: usize = 0;
    while k < flat.len()
        invariant
            k <= flat@.len(),
            items == flat@.map_values(|t: (u32, Vec<u8>, Vec<u8>, usize)| fview(t)),
            heights_ok(items),
            r@.len() == k,
            tops == count_tops(items, k as int),
            k > 0 ==> address@ == addr_at(items, k as int - 1),
            forall|k2: int|
                0 <= k2 < k ==> instruction_matches(
                    #[trigger] r@[k2],
                    items[k2],
                    addr_at(items, k2),
                    committed,
                ),
            forall|k2: int| 0 <= k2 < r@.len() ==> ascii_seq((#[trigger] r@[k2]).data@),
        decreases flat@.len() - k,
    {
        let h: usize = flat[k].3;
        proof {
            assert(items[k as int].3 == h as int);
        }
        if h == 1 {
            address.clear();
            address.push(tops);
            proof {
                lemma_count_tops_bound(items, k as int);
                assert(address@ =~= addr_at(items, k as int));
            }
            tops = tops + 1;
        } else {
            proof {
                assert(k > 0);
                lemma_addr_len(items, k as int - 1);
                lemma_addr_elems_bound(items, k as int - 1);
            }
            address.truncate(h);
            if address.len() == h {
                let last_pos: usize = h - 1;
                let v: usize = address[last_pos];
                proof {
                    assert(addr_at(items, k as int - 1).len() >= h);
                    assert(address@[last_pos as int] == addr_at(items, k as int - 1).take(
                        h as int,
                    )[last_pos as int]);
                    assert(v < usize::MAX);
                }
                address[last_pos] = v + 1;
            } else {
                address.push(0);
            }
            proof {
                assert(address@ =~= next_addr(addr_at(items, k as int - 1), h as int));
                assert(address@ =~= addr_at(items, k as int));
            }
        }
        let pid: u8 = (flat[k].0 % 256) as u8;
        let data_enc: Vec<u8> = crate::json_builder::base58_encode(flat[k].2.as_slice());
        r.push(
            Instruction {
                instruction_address: address.clone(),
                program_id: pid,
                accounts: flat[k].1.clone(),
                data: data_enc,
                binary_data: flat[k].2.clone(),
                is_committed: committed,
            },
        );
        k = k + 1;
        proof {
            assert(r@[k as int - 1].instruction_address@ =~= addr_at(items, k as int - 1));
            assert(r@[k as int - 1].accounts@ =~= items[k as int - 1].1);
            assert(r@[k as int - 1].binary_data@ =~= items[k as int - 1].2);
            assert(pid as int == (items[k as int - 1].0 as int) % 256);
            assert(r@[k as int - 1].data@ == base58_of(items[k as int - 1].2));
            assert(instruction_matches(
                r@[k as int - 1],
                items[k as int - 1],
                addr_at(items, k as int - 1),
                committed,
            ));
        }
    }
    r
}

/// The number of balance records: accounts with both a pre and a post value.
pub open spec fn balances_len(u: TransactionUpdate) -> int {
    let m = if u.meta.pre_balances@.len() <= u.meta.post_balances@.len() {
        u.meta.pre_balances@.len() as int
    } else {
        u.meta.post_balances@.len() as int
    };
    if m <= accounts_total(u) {
        m
    } else {
        accounts_total(u)
    }
}

/// Builds the native balance records by position.
fn map_balances(accounts: &Vec<Vec<u8>>, pre: &Vec<u64>, post: &Vec<u64>) -> (r: Vec<Balance>)
    ensures
        r@.len() == (if (if pre@.len() <= post@.len() {
            pre@.len() as int
        } else {
            post@.len() as int
        }) <= accounts@.len() {
            (if pre@.len() <= post@.len() {
                pre@.len() as int
            } else {
                post@.len() as int
            })
        } else {
            accounts@.len() as int
        }),
        forall|i: int|
            0 <= i < r@.len() ==> (#[trigger] r@[i]).account@ == accounts@[i]@ && r@[i].pre
                == pre@[i] && r@[i].post == post@[i],
{
    let m1: usize = if pre.len() <= post.len() {
        pre.len()
    } else {
        post.len()
    };
    let m: usize = if m1 <= accounts.len() {
        m1
    } else {
        accounts.len()
    };
    let mut r: Vec<Balance> = Vec::new();
    let mut i: usize = 0;
    while i < m
        invariant
            i <= m,
            m <= pre@.len() && m <= post@.len() && m <= accounts@.len(),
            r@.len() == i,
            forall|j: int|
                0 <= j < i ==> (#[trigger] r@[j]).account@ == accounts@[j]@ && r@[j].pre
                    == pre@[j] && r@[j].post == post@[j],
        decreases m - i,
    {
        r.push(Balance { account: accounts[i].clone(), pre: pre[i], post: post[i] });
        i = i + 1;
    }
    r
}

/// Builds one token balance from a pre record and its optional post match.
fn tb_from_pre(
    p: &RawTokenBalance,
    posts: &Vec<RawTokenBalance>,
    accounts: &Vec<Vec<u8>>,
) -> (tb: TokenBalance)
    requires
        (p.account_index as int) < accounts@.len(),
    ensures
        tb_pre_matches(tb, *p, posts@, accounts@.map_values(|v: Vec<u8>| v@)),
{
    let mut tb = TokenBalance {
        account: accounts[p.account_index as usize].clone(),
        pre_mint: Some(p.mint.clone()),
        post_mint: None,
        pre_decimals: p.decimals,
        post_decimals: None,
        pre_program_id: Some(p.program_id.clone()),
        post_program_id: None,
        pre_owner: Some(p.owner.clone()),
        post_owner: None,
        pre_amount: copy_opt(&p.amount),
        post_amount: None,
    };
    match find_token(posts, p.account_index) {
        Some(qi) => {
            let q = &posts[qi];
            tb.post_mint = Some(q.mint.clone());
            tb.post_decimals = q.decimals;
            tb.post_program_id = Some(q.program_id.clone());
            tb.post_owner = Some(q.owner.clone());
            tb.post_amount = copy_opt(&q.amount);
        },
        None => {},
    }
    proof {
        assert(accounts@.map_values(|v: Vec<u8>| v@)[p.account_index as int] == accounts@[
            p.account_index as int
        ]@);
    }
    tb
}

/// Builds the merged token balance records: every pre record joined with its
/// first matching post record, then the post records with no pre match.
fn map_token_balances(
    pres: &Vec<RawTokenBalance>,
    posts: &Vec<RawTokenBalance>,
    accounts: &Vec<Vec<u8>>,
) -> (r: Vec<TokenBalance>)
    requires
        forall|p: int|
            0 <= p < pres@.len() ==> ((#[trigger] pres@[p]).account_index as int)
                < accounts@.len(),
        forall|p: int|
            0 <= p < posts@.len() ==> ((#[trigger] posts@[p]).account_index as int)
                < accounts@.len(),
    ensures
        r@.len() == pres@.len() + post_only(posts@, pres@).len(),
        forall|k: int|
            0 <= k < pres@.len() ==> tb_pre_matches(
                #[trigger] r@[k],
                pres@[k],
                posts@,
                accounts@.map_values(|v: Vec<u8>| v@),
            ),
        forall|k: int|
            pres@.len() <= k < r@.len() ==> tb_post_only_matches(
                #[trigger] r@[k],
                post_only(posts@, pres@)[k - pres@.len()],
                accounts@.map_values(|v: Vec<u8>| v@),
            ),
{
    let mut r: Vec<TokenBalance> = Vec::new();
    let mut i: usize = 0;
    while i < pres.len()
        invariant
            i <= pres@.len(),
            r@.len() == i,
            forall|p: int|
                0 <= p < pres@.len() ==> ((#[trigger] pres@[p]).account_index as int)
                    < accounts@.len(),
            forall|p: int|
                0 <= p < posts@.len() ==> ((#[trigger] posts@[p]).account_index as int)
                    < accounts@.len(),
            forall|k: int|
                0 <= k < i ==> tb_pre_matches(
                    #[trigger] r@[k],
                    pres@[k],
                    posts@,
                    accounts@.map_values(|v: Vec<u8>| v@),
                ),
        decreases pres@.len() - i,
    {
        let tb = tb_from_pre(&pres[i], posts, accounts);
        r.push(tb);
        i = i + 1;
    }
    let ghost n_pre = pres@.len() as int;
    let mut q: usize = 0;
    while q < posts.len()
        invariant
            q <= posts@.len(),
            r@.len() == n_pre + post_only(posts@.take(q as int), pres@).len(),
            n_pre == pres@.len(),
            forall|p: int|
                0 <= p < posts@.len() ==> ((#[trigger] posts@[p]).account_index as int)
                    < accounts@.len(),
            forall|k: int|
                0 <= k < n_pre ==> tb_pre_matches(
                    #[trigger] r@[k],
                    pres@[k],
                    posts@,
                    accounts@.map_values(|v: Vec<u8>| v@),
                ),
            forall|k: int|
                n_pre <= k < r@.len() ==> tb_post_only_matches(
                    #[trigger] r@[k],
                    post_only(posts@.take(q as int), pres@)[k - n_pre],
                    accounts@.map_values(|v: Vec<u8>| v@),
                ),
        decreases posts@.len() - q,
    {
        let keep: bool = match find_token(pres, posts[q].account_index) {
            Some(_) => false,
            None => true,
        };
        if keep {
            let p = &posts[q];
            let tb = TokenBalance {
                account: accounts[p.account_index as usize].clone(),
                pre_mint: None,
                post_mint: Some(p.mint.clone()),
                pre_decimals: None,
                post_decimals: p.decimals,
                pre_program_id: None,
                post_program_id: Some(p.program_id.clone()),
                pre_owner: None,
                post_owner: Some(p.owner.clone()),
                pre_amount: None,
                post_amount: copy_opt(&p.amount),
            };
            proof {
                assert(accounts@.map_values(|v: Vec<u8>| v@)[p.account_index as int] == accounts@[
                    p.account_index as int
                ]@);
            }
            r.push(tb);
        }
        q = q + 1;
        proof {
            assert(posts@.take(q as int).drop_last() =~= posts@.take(q as int - 1));
            assert(posts@.take(q as int).last() == posts@[q as int - 1]);
        }
    }
    proof {
        assert(posts@.take(posts@.len() as int) =~= posts@);
    }
    r
}

/// Every record that `post_only` keeps comes from the post list.
proof fn lemma_post_only_ok(posts: Seq<RawTokenBalance>, pres: Seq<RawTokenBalance>, na: int)
    requires
        forall|j: int| 0 <= j < posts.len() ==> token_ok(#[trigger] posts[j], na),
    ensures
        forall|j: int|
            0 <= j < post_only(posts, pres).len() ==> token_ok(
                #[trigger] post_only(posts, pres)[j],
                na,
            ),
    decreases posts.len(),
{
    if posts.len() > 0 {
        assert(forall|j: int|
            0 <= j < posts.drop_last().len() ==> token_ok(#[trigger] posts.drop_last()[j], na));
        lemma_post_only_ok(posts.drop_last(), pres, na);
        let po = post_only(posts, pres);
        let pd = post_only(posts.drop_last(), pres);
        assert(token_ok(posts.last(), na));
        assert forall|j: int| 0 <= j < po.len() implies token_ok(#[trigger] po[j], na) by {
            if j < pd.len() {
                assert(po[j] == pd[j]);
            } else {
                assert(po[j] == posts.last());
            }
        }
    }
}

/// Maps a flattened upstream update to the normalized transaction value.
pub fn map_transaction(update: TransactionUpdate) -> (r: TransactionData)
    requires
        valid_update(update),
    ensures
        r.wf(),
        r.slot == update.slot,
        r.transaction_index == update.index,
        r.accounts@.map_values(|v: Vec<u8>| v@) == accounts_spec(update),
        r.transaction.version == (if update.versioned {
            TransactionVersion::Other(0)
        } else {
            TransactionVersion::Legacy
        }),
        r.transaction.account_keys == update.account_keys@.len(),
        r.transaction.num_required_signatures as int == (update.header.num_required_signatures
            as int) % 256,
        r.transaction.num_readonly_signed_accounts as int == (
        update.header.num_readonly_signed_accounts as int) % 256,
        r.transaction.num_readonly_unsigned_accounts as int == (
        update.header.num_readonly_unsigned_accounts as int) % 256,
        r.transaction.recent_blockhash@ == base58_of(update.recent_blockhash@),
        r.transaction.signatures@ == spec_b58_array(update.signatures@.map_values(
            |v: Vec<u8>| v@,
        )),
        r.transaction.address_table_lookups@ == spec_lookups(update.address_table_lookups@),
        r.transaction.loaded_addresses@ == spec_loaded_addresses(
            update.meta.loaded_writable_addresses@.map_values(|v: Vec<u8>| v@),
            update.meta.loaded_readonly_addresses@.map_values(|v: Vec<u8>| v@),
        ),
        opt_bytes(r.transaction.err) == opt_bytes(update.meta.err_json),
        r.transaction.compute_units_consumed == update.meta.compute_units_consumed,
        r.transaction.fee == update.meta.fee,
        r.instructions@.len() == flat_items(update).len(),
        forall|k: int|
            0 <= k < flat_items(update).len() ==> instruction_matches(
                #[trigger] r.instructions@[k],
                flat_items(update)[k],
                addr_at(flat_items(update), k),
                update.meta.err_json is None,
            ),
        r.balances@.len() == balances_len(update),
        forall|i: int|
            0 <= i < r.balances@.len() ==> (#[trigger] r.balances@[i]).account@ == accounts_spec(
                update,
            )[i] && r.balances@[i].pre == update.meta.pre_balances@[i] && r.balances@[i].post
                == update.meta.post_balances@[i],
        r.token_balances@.len() == update.meta.pre_token_balances@.len() + post_only(
            update.meta.post_token_balances@,
            update.meta.pre_token_balances@,
        ).len(),
        forall|k: int|
            0 <= k < update.meta.pre_token_balances@.len() ==> tb_pre_matches(
                #[trigger] r.token_balances@[k],
                update.meta.pre_token_balances@[k],
                update.meta.post_token_balances@,
                accounts_spec(update),
            ),
        forall|k: int|
            update.meta.pre_token_balances@.len() <= k < r.token_balances@.len()
                ==> tb_post_only_matches(
                #[trigger] r.token_balances@[k],
                post_only(
                    update.meta.post_token_balances@,
                    update.meta.pre_token_balances@,
                )[k - update.meta.pre_token_balances@.len()],
                accounts_spec(update),
            ),
{
    let ghost items = flat_items(update);
    let committed: bool = match &update.meta.err_json {
        Some(_) => false,
        None => true,
    };
    let accounts = map_accounts(&update);
    let flat = flatten(&update);
    let instructions = map_instructions(&flat, committed);
    let balances = map_balances(
        &accounts,
        &update.meta.pre_balances,
        &update.meta.post_balances,
    );
    proof {
        assert(forall|p: int|
            0 <= p < update.meta.pre_token_balances@.len() ==> ((
            #[trigger] update.meta.pre_token_balances@[p]).account_index as int)
                < accounts@.len());
        assert(forall|p: int|
            0 <= p < update.meta.post_token_balances@.len() ==> ((
            #[trigger] update.meta.post_token_balances@[p]).account_index as int)
                < accounts@.len());
    }
    let token_balances = map_token_balances(
        &update.meta.pre_token_balances,
        &update.meta.post_token_balances,
        &accounts,
    );
    let signatures = render_signatures(&update.signatures);
    let loaded_addresses = render_loaded_addresses(
        &update.meta.loaded_writable_addresses,
        &update.meta.loaded_readonly_addresses,
    );
    let address_table_lookups = render_address_table_lookups(&update.address_table_lookups);
    let err: Option<Vec<u8>> = copy_opt(&update.meta.err_json);
    let transaction = Transaction {
        version: if update.versioned {
            TransactionVersion::Other(0)
        } else {
            TransactionVersion::Legacy
        },
        account_keys: update.account_keys.len(),
        address_table_lookups,
        num_readonly_signed_accounts: (update.header.num_readonly_signed_accounts % 256) as u8,
        num_readonly_unsigned_accounts: (update.header.num_readonly_unsigned_accounts
            % 256) as u8,
        num_required_signatures: (update.header.num_required_signatures % 256) as u8,
        recent_blockhash: crate::json_builder::base58_encode(update.recent_blockhash.as_slice()),
        signatures,
        err,
        compute_units_consumed: update.meta.compute_units_consumed,
        fee: update.meta.fee,
        loaded_addresses,
    };
    let r = TransactionData {
        slot: update.slot,
        transaction_index: update.index,
        transaction,
        instructions,
        balances,
        token_balances,
        accounts,
    };
    proof {
        // identifier strings and fragments are well-formed
        crate::json_builder::lemma_ascii_valid_utf8(
            match update.meta.err_json {
                Some(e) => e@,
                None => Seq::empty(),
            },
        );
        assert(r.transaction.wf());
        // the address invariants carry over from the flattened sequence
        assert(r.addresses() =~~= addrs_of(items)) by {
            assert(r.addresses().len() == addrs_of(items).len());
            assert(forall|k: int|
                0 <= k < items.len() ==> (#[trigger] r.addresses()[k]) == r.instructions@[
                k].instruction_address@);
        }
        lemma_addrs_parent_linked(items);
        lemma_addrs_prefix_closed(items);
        assert(prefix_closed(r.addresses()));
        assert(parent_linked(r.addresses()));
        // every instruction is well-formed against the address table
        assert(forall|k: int|
            0 <= k < r.instructions@.len() ==> (#[trigger] r.instructions@[k]).wf(
                r.accounts@.len() as int,
            ));
        assert(forall|i: int|
            0 <= i < r.balances@.len() ==> (#[trigger] r.balances@[i]).wf());
        let na = accounts_total(update);
        let accs = accounts_spec(update);
        let pres = update.meta.pre_token_balances@;
        let posts = update.meta.post_token_balances@;
        lemma_post_only_ok(posts, pres, na);
        assert(forall|j: int| 0 <= j < accs.len() ==> ascii_seq(#[trigger] accs[j])) by {
            assert(forall|j: int|
                0 <= j < accs.len() ==> accs[j] == (#[trigger] r.accounts@[j])@);
        }
        assert forall|i: int|
            0 <= i < r.token_balances@.len() implies (#[trigger] r.token_balances@[i]).wf() by {
            let tb = r.token_balances@[i];
            if i < pres.len() {
                let p = pres[i];
                assert(token_ok(p, na));
                assert(tb_pre_matches(tb, p, posts, accs));
                if first_idx_with(posts, p.account_index) >= 0 {
                    lemma_first_idx_in_range(posts, p.account_index);
                    assert(token_ok(posts[first_idx_with(posts, p.account_index)], na));
                }
            } else {
                let q = post_only(posts, pres)[i - pres.len()];
                assert(token_ok(q, na));
                assert(tb_post_only_matches(tb, q, accs));
            }
        }
        assert(r.wf());
    }
    r
}
} // verus!
