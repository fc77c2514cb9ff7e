use vstd::prelude::*;

use crate::order::{
    lemma_text_lt_asymmetric, lemma_text_lt_irreflexive, lemma_text_lt_total,
    lemma_text_lt_transitive, text_less, text_lt,
};
use crate::types::{BatchResult, LinkedPair, Transaction, WalletInfo};

verus! {

/// `tx` names `cp` as its counterparty.
pub open spec fn names_counterparty(tx: Transaction, cp: Seq<char>) -> bool {
    match tx.counterparty {
        Some(c) => c@ == cp,
        None => false,
    }
}

/// `s` is the address of one of the wallets `ws`.
pub open spec fn is_batch_address(ws: Seq<WalletInfo>, s: Seq<char>) -> bool {
    exists|k: int| 0 <= k < ws.len() && (#[trigger] ws[k]).address@ == s
}

/// A wallet of `ws` with address `addr` has a transaction whose counterparty is `cp`.
pub open spec fn dealt_with(ws: Seq<WalletInfo>, addr: Seq<char>, cp: Seq<char>) -> bool {
    exists|k: int, t: int|
        0 <= k < ws.len() && 0 <= t < ws[k].transactions@.len() && ws[k].address@ == addr
            && #[trigger] names_counterparty(ws[k].transactions@[t], cp)
}

/// Wallets `a` and `b` (with `a` ordered before `b`) both dealt with `cp`,
/// an address that is not itself a wallet of the batch.
pub open spec fn linked_via(ws: Seq<WalletInfo>, a: Seq<char>, b: Seq<char>, cp: Seq<char>) -> bool {
    &&& text_lt(a, b)
    &&& !is_batch_address(ws, cp)
    &&& dealt_with(ws, a, cp)
    &&& dealt_with(ws, b, cp)
}

/// `ps` holds a pair of `a` and `b`, in this order.
pub open spec fn lists_pair(ps: Seq<LinkedPair>, a: Seq<char>, b: Seq<char>) -> bool {
    exists|p: int| 0 <= p < ps.len() && (#[trigger] ps[p]).wallet_a@ == a && ps[p].wallet_b@ == b
}

/// Every pair of `ps` is a link of `ws`, and no two pairs join the same wallets.
pub open spec fn sound_pairs(ws: Seq<WalletInfo>, ps: Seq<LinkedPair>) -> bool {
    &&& forall|p: int|
        0 <= p < ps.len() ==> linked_via(
            ws,
            (#[trigger] ps[p]).wallet_a@,
            ps[p].wallet_b@,
            ps[p].shared_counterparty@,
        )
    &&& forall|p: int, q: int|
        0 <= p < q < ps.len() ==> !((#[trigger] ps[p]).wallet_a@ == (#[trigger] ps[q]).wallet_a@
            && ps[p].wallet_b@ == ps[q].wallet_b@)
}

/// The addresses of all wallets that dealt with one counterparty, in order.
struct CounterpartyGroup {
    counterparty: String,
    wallets: Vec<String>,
}

spec fn sorted_texts(l: Seq<String>) -> bool {
    forall|i: int, j: int| 0 <= i < j < l.len() ==> text_lt((#[trigger] l[i])@, (#[trigger] l[j])@)
}

spec fn holds_text(l: Seq<String>, s: Seq<char>) -> bool {
    exists|i: int| 0 <= i < l.len() && (#[trigger] l[i])@ == s
}

spec fn group_ok(ws: Seq<WalletInfo>, g: CounterpartyGroup) -> bool {
    &&& !is_batch_address(ws, g.counterparty@)
    &&& sorted_texts(g.wallets@)
    &&& forall|i: int|
        0 <= i < g.wallets@.len() ==> dealt_with(ws, (#[trigger] g.wallets@[i])@, g.counterparty@)
}

spec fn groups_ok(ws: Seq<WalletInfo>, gs: Seq<CounterpartyGroup>) -> bool {
    &&& forall|g: int| 0 <= g < gs.len() ==> group_ok(ws, #[trigger] gs[g])
    &&& forall|g: int, h: int|
        0 <= g < gs.len() && 0 <= h < gs.len() && g != h ==> (#[trigger] gs[g]).counterparty@
            != (#[trigger] gs[h]).counterparty@
}

/// Transaction `t` of wallet `k` is accounted for in `gs`.
spec fn covered(ws: Seq<WalletInfo>, gs: Seq<CounterpartyGroup>, k: int, t: int) -> bool {
    match ws[k].transactions@[t].counterparty {
        Some(c) => is_batch_address(ws, c@) || exists|g: int|
            0 <= g < gs.len() && (#[trigger] gs[g]).counterparty@ == c@ && holds_text(
                gs[g].wallets@,
                ws[k].address@,
            ),
        None => true,
    }
}

/// `new` has all groups of `old`, each with at least the addresses it had.
spec fn groups_grow(old: Seq<CounterpartyGroup>, new: Seq<CounterpartyGroup>) -> bool {
    &&& old.len() <= new.len()
    &&& forall|g: int|
        0 <= g < old.len() ==> (#[trigger] new[g]).counterparty@ == old[g].counterparty@
            && forall|s: Seq<char>|
            holds_text(old[g].wallets@, s) ==> #[trigger] holds_text(new[g].wallets@, s)
}

proof fn lemma_covered_grow(
    ws: Seq<WalletInfo>,
    old: Seq<CounterpartyGroup>,
    new: Seq<CounterpartyGroup>,
    k: int,
    t: int,
)
    requires
        0 <= k < ws.len(),
        0 <= t < ws[k].transactions@.len(),
        covered(ws, old, k, t),
        groups_grow(old, new),
    ensures
        covered(ws, new, k, t),
{
    match ws[k].transactions@[t].counterparty {
        Some(c) => {
            if !is_batch_address(ws, c@) {
                let g = choose|g: int|
                    0 <= g < old.len() && (#[trigger] old[g]).counterparty@ == c@ && holds_text(
                        old[g].wallets@,
                        ws[k].address@,
                    );
                assert(holds_text(new[g].wallets@, ws[k].address@));
                assert(new[g].counterparty@ == c@);
            }
        },
        None => {},
    }
}

/// Whether `s` is the address of one of `wallets`.
fn is_batch_member(wallets: &[WalletInfo], s: &String) -> (r: bool)
    ensures
        r == is_batch_address(wallets@, s@),
{
    let mut k: usize = 0;
    while k < wallets.len()
        invariant
            k <= wallets@.len(),
            forall|j: int| 0 <= j < k ==> (#[trigger] wallets@[j]).address@ != s@,
        decreases wallets@.len() - k,
    {
        if wallets[k].address == *s {
            assert(wallets@[k as int].address@ == s@);
            return true;
        }
        k = k + 1;
    }
    false
}

/// Put `s` into the sorted list `list`, unless it is already there.
fn insert_sorted(list: &mut Vec<String>, s: String)
    requires
        sorted_texts(old(list)@),
    ensures
        sorted_texts(final(list)@),
        forall|x: Seq<char>|
            #[trigger] holds_text(final(list)@, x) <==> (holds_text(old(list)@, x) || x == s@),
{
    let ghost before = list@;
    let mut pos: usize = 0;
    while pos < list.len() && text_less(list[pos].as_str(), s.as_str())
        invariant
            list@ == before,
            pos <= list@.len(),
            forall|i: int| 0 <= i < pos ==> text_lt((#[trigger] list@[i])@, s@),
        decreases list@.len() - pos,
    {
        pos = pos + 1;
    }
    if pos < list.len() && list[pos] == s {
        assert(list@[pos as int]@ == s@);
        assert forall|x: Seq<char>| #[trigger]
            holds_text(list@, x) <==> (holds_text(before, x) || x == s@) by {
            if x == s@ {
                assert(list@[pos as int]@ == x);
            }
        }
        return ;
    }
    proof {
        if pos < list@.len() {
            lemma_text_lt_total(list@[pos as int]@, s@);
        }
    }
    let ghost s_view = s@;
    list.insert(pos, s);
    proof {
        let after = list@;
        assert(after == before.insert(pos as int, after[pos as int]));
        assert(after[pos as int]@ == s_view);
        assert forall|i: int, j: int| 0 <= i < j < after.len() implies text_lt(
            (#[trigger] after[i])@,
            (#[trigger] after[j])@,
        ) by {
            if j < pos {
                assert(after[i] == before[i] && after[j] == before[j]);
            } else if j == pos {
                assert(after[i] == before[i]);
            } else if i == pos {
                assert(after[j] == before[j - 1]);
                if j - 1 > pos {
                    assert(text_lt(before[pos as int]@, before[j - 1]@));
                    lemma_text_lt_transitive(s_view, before[pos as int]@, before[j - 1]@);
                }
            } else if i < pos {
                assert(after[i] == before[i] && after[j] == before[j - 1]);
                if j - 1 == pos {
                    lemma_text_lt_transitive(before[i]@, s_view, before[j - 1]@);
                } else {
                    assert(text_lt(before[pos as int]@, before[j - 1]@));
                    lemma_text_lt_transitive(s_view, before[pos as int]@, before[j - 1]@);
                    lemma_text_lt_transitive(before[i]@, s_view, before[j - 1]@);
                }
            } else {
                assert(after[i] == before[i - 1] && after[j] == before[j - 1]);
            }
        }
        assert forall|x: Seq<char>| #[trigger]
            holds_text(after, x) <==> (holds_text(before, x) || x == s_view) by {
            if holds_text(after, x) {
                let i = choose|i: int| 0 <= i < after.len() && (#[trigger] after[i])@ == x;
                if i < pos {
                    assert(after[i] == before[i]);
                } else if i > pos {
                    assert(after[i] == before[i - 1]);
                }
            }
            if holds_text(before, x) {
                let i = choose|i: int| 0 <= i < before.len() && (#[trigger] before[i])@ == x;
                if i < pos {
                    assert(after[i] == before[i]);
                } else {
                    assert(after[i + 1] == before[i]);
                }
            }
        }
    }
}

/// Record that the wallet `addr` dealt with `cp`.
fn add_to_group(
    groups: &mut Vec<CounterpartyGroup>,
    cp: &String,
    addr: &String,
    Ghost(ws): Ghost<Seq<WalletInfo>>,
)
    requires
        groups_ok(ws, old(groups)@),
        !is_batch_address(ws, cp@),
        dealt_with(ws, addr@, cp@),
    ensures
        groups_ok(ws, final(groups)@),
        groups_grow(old(groups)@, final(groups)@),
        exists|g: int|
            0 <= g < final(groups)@.len() && (#[trigger] final(groups)@[g]).counterparty@ == cp@
                && holds_text(final(groups)@[g].wallets@, addr@),
{
    let ghost before = groups@;
    let mut g: usize = 0;
    while g < groups.len()
        invariant
            groups@ == before,
            before == old(groups)@,
            groups_ok(ws, before),
            dealt_with(ws, addr@, cp@),
            !is_batch_address(ws, cp@),
            g <= groups@.len(),
            forall|h: int| 0 <= h < g ==> (#[trigger] groups@[h]).counterparty@ != cp@,
        decreases groups@.len() - g,
    {
        if groups[g].counterparty == *cp {
            let mut grp = groups.remove(g);
            assert(grp == before[g as int]);
            assert(group_ok(ws, grp));
            let ghost old_wallets = grp.wallets@;
            insert_sorted(&mut grp.wallets, addr.clone());
            proof {
                assert forall|i: int| 0 <= i < grp.wallets@.len() implies dealt_with(
                    ws,
                    (#[trigger] grp.wallets@[i])@,
                    grp.counterparty@,
                ) by {
                    assert(holds_text(grp.wallets@, grp.wallets@[i]@));
                    if grp.wallets@[i]@ != addr@ {
                        let j = choose|j: int|
                            0 <= j < old_wallets.len() && (#[trigger] old_wallets[j])@
                                == grp.wallets@[i]@;
                    }
                }
                assert(holds_text(grp.wallets@, addr@));
            }
            groups.insert(g, grp);
            proof {
                let after = groups@;
                assert(after =~= before.update(g as int, grp));
                assert forall|h: int| 0 <= h < after.len() implies group_ok(ws, #[trigger] after[h]) by {
                    if h != g {
                        assert(after[h] == before[h]);
                    }
                }
                assert forall|h1: int, h2: int|
                    0 <= h1 < after.len() && 0 <= h2 < after.len() && h1 != h2 implies (#[trigger] after[h1]).counterparty@
                        != (#[trigger] after[h2]).counterparty@ by {
                    assert(before[h1].counterparty@ != before[h2].counterparty@);
                }
                assert forall|h: int| 0 <= h < before.len() implies (#[trigger] after[h]).counterparty@
                    == before[h].counterparty@ && forall|s: Seq<char>|
                    holds_text(before[h].wallets@, s) ==> #[trigger] holds_text(after[h].wallets@, s) by {
                    if h != g {
                        assert(after[h] == before[h]);
                    } else {
                        assert(before[h].wallets@ == old_wallets);
                        assert(after[h].counterparty == before[h].counterparty);
                        assert forall|s: Seq<char>| holds_text(before[h].wallets@, s) implies #[trigger] holds_text(after[h].wallets@, s) by {
                            assert(holds_text(old_wallets, s));
                        }
                    }
                }
                assert(after[g as int].counterparty@ == cp@);
                assert(before.len() <= after.len());
                assert(groups_grow(before, after));
            }
            return ;
        }
        g = g + 1;
    }
    let mut first: Vec<String> = Vec::new();
    first.push(addr.clone());
    let grp = CounterpartyGroup { counterparty: cp.clone(), wallets: first };
    proof {
        assert(grp.wallets@[0]@ == addr@);
        assert(holds_text(grp.wallets@, addr@));
    }
    groups.push(grp);
    proof {
        let after = groups@;
        assert(after == before.push(grp));
        assert forall|h: int| 0 <= h < after.len() implies group_ok(ws, #[trigger] after[h]) by {
            if h < before.len() {
                assert(after[h] == before[h]);
            }
        }
        assert forall|h: int| 0 <= h < before.len() implies (#[trigger] after[h]).counterparty@
            == before[h].counterparty@ && forall|s: Seq<char>|
            holds_text(before[h].wallets@, s) ==> #[trigger] holds_text(after[h].wallets@, s) by {
            assert(after[h] == before[h]);
        }
        assert(after[before.len() as int] == grp);
    }
}

/// Whether `pairs` already joins `a` and `b`.
fn has_pair(pairs: &Vec<LinkedPair>, a: &String, b: &String) -> (r: bool)
    ensures
        r == lists_pair(pairs@, a@, b@),
{
    let mut p: usize = 0;
    while p < pairs.len()
        invariant
            p <= pairs@.len(),
            forall|q: int|
                0 <= q < p ==> !((#[trigger] pairs@[q]).wallet_a@ == a@ && pairs@[q].wallet_b@
                    == b@),
        decreases pairs@.len() - p,
    {
        if pairs[p].wallet_a == *a && pairs[p].wallet_b == *b {
            assert(pairs@[p as int].wallet_a@ == a@);
            return true;
        }
        p = p + 1;
    }
    false
}

proof fn lemma_lists_pair_push(ps: Seq<LinkedPair>, x: LinkedPair, a: Seq<char>, b: Seq<char>)
    requires
        lists_pair(ps, a, b),
    ensures
        lists_pair(ps.push(x), a, b),
{
    let p = choose|p: int| 0 <= p < ps.len() && (#[trigger] ps[p]).wallet_a@ == a && ps[p].wallet_b@ == b;
    assert(ps.push(x)[p] == ps[p]);
}

/// Detect linked wallets by shared counterparty addresses.
///
/// Two wallets of the batch are linked when both dealt with the same
/// counterparty and that counterparty is not itself a wallet of the batch.
/// Each linked pair of wallets is reported once, the lesser address first,
/// with one counterparty they share.
pub fn detect_links(wallets: &[WalletInfo]) -> (r: Vec<LinkedPair>)
    ensures
        sound_pairs(wallets@, r@),
        forall|a: Seq<char>, b: Seq<char>, cp: Seq<char>|
            #[trigger] linked_via(wallets@, a, b, cp) ==> lists_pair(r@, a, b),
{
    let ghost ws = wallets@;
    let mut groups: Vec<CounterpartyGroup> = Vec::new();
    let mut k: usize = 0;
    while k < wallets.len()
        invariant
            ws == wallets@,
            k <= ws.len(),
            groups_ok(ws, groups@),
            forall|k2: int, t2: int|
                0 <= k2 < k && 0 <= t2 < ws[k2].transactions@.len() ==> #[trigger] covered(
                    ws,
                    groups@,
                    k2,
                    t2,
                ),
        decreases ws.len() - k,
    {
        let wallet = &wallets[k];
        let mut t: usize = 0;
        while t < wallet.transactions.len()
            invariant
                ws == wallets@,
                k < ws.len(),
                *wallet == ws[k as int],
                t <= wallet.transactions@.len(),
                groups_ok(ws, groups@),
                forall|k2: int, t2: int|
                    0 <= k2 < k && 0 <= t2 < ws[k2].transactions@.len() ==> #[trigger] covered(
                        ws,
                        groups@,
                        k2,
                        t2,
                    ),
                forall|t2: int| 0 <= t2 < t ==> #[trigger] covered(ws, groups@, k as int, t2),
            decreases wallet.transactions@.len() - t,
        {
            let tx = &wallet.transactions[t];
            match &tx.counterparty {
                Some(cp) => {
                    if !is_batch_member(wallets, cp) {
                        let ghost old_groups = groups@;
                        proof {
                            assert(names_counterparty(ws[k as int].transactions@[t as int], cp@));
                            assert(dealt_with(ws, wallet.address@, cp@));
                        }
                        add_to_group(&mut groups, cp, &wallet.address, Ghost(ws));
                        proof {
                            assert forall|k2: int, t2: int|
                                0 <= k2 < k && 0 <= t2 < ws[k2].transactions@.len() implies #[trigger] covered(
                                    ws,
                                    groups@,
                                    k2,
                                    t2,
                                ) by {
                                lemma_covered_grow(ws, old_groups, groups@, k2, t2);
                            }
                            assert forall|t2: int| 0 <= t2 <= t implies #[trigger] covered(
                                ws,
                                groups@,
                                k as int,
                                t2,
                            ) by {
                                if t2 < t {
                                    lemma_covered_grow(ws, old_groups, groups@, k as int, t2);
                                }
                            }
                        }
                    } else {
                        assert(covered(ws, groups@, k as int, t as int));
                    }
                },
                None => {
                    assert(covered(ws, groups@, k as int, t as int));
                },
            }
            t = t + 1;
        }
        k = k + 1;
    }
    let mut pairs: Vec<LinkedPair> = Vec::new();
    let mut g: usize = 0;
    while g < groups.len()
        invariant
            ws == wallets@,
            g <= groups@.len(),
            groups_ok(ws, groups@),
            sound_pairs(ws, pairs@),
            forall|g2: int, i: int, j: int|
                0 <= g2 < g && 0 <= i < j < groups@[g2].wallets@.len() ==> lists_pair(
                    pairs@,
                    (#[trigger] groups@[g2].wallets@[i])@,
                    (#[trigger] groups@[g2].wallets@[j])@,
                ),
        decreases groups@.len() - g,
    {
        let grp = &groups[g];
        assert(group_ok(ws, groups@[g as int]));
        let n = grp.wallets.len();
        let mut i: usize = 0;
        while i < n
            invariant
                ws == wallets@,
                g < groups@.len(),
                *grp == groups@[g as int],
                n == grp.wallets@.len(),
                i <= n,
                groups_ok(ws, groups@),
                group_ok(ws, *grp),
                sound_pairs(ws, pairs@),
                forall|g2: int, i2: int, j: int|
                    0 <= g2 < g && 0 <= i2 < j < groups@[g2].wallets@.len() ==> lists_pair(
                        pairs@,
                        (#[trigger] groups@[g2].wallets@[i2])@,
                        (#[trigger] groups@[g2].wallets@[j])@,
                    ),
                forall|i2: int, j: int|
                    0 <= i2 < i && i2 < j < n ==> lists_pair(
                        pairs@,
                        (#[trigger] grp.wallets@[i2])@,
                        (#[trigger] grp.wallets@[j])@,
                    ),
            decreases n - i,
        {
            let mut j: usize = i + 1;
            while j < n
                invariant
                    ws == wallets@,
                    g < groups@.len(),
                    *grp == groups@[g as int],
                    n == grp.wallets@.len(),
                    i < n,
                    i < j <= n,
                    groups_ok(ws, groups@),
                    group_ok(ws, *grp),
                    sound_pairs(ws, pairs@),
                    forall|g2: int, i2: int, j2: int|
                        0 <= g2 < g && 0 <= i2 < j2 < groups@[g2].wallets@.len() ==> lists_pair(
                            pairs@,
                            (#[trigger] groups@[g2].wallets@[i2])@,
                            (#[trigger] groups@[g2].wallets@[j2])@,
                        ),
                    forall|i2: int, j2: int|
                        0 <= i2 < i && i2 < j2 < n ==> lists_pair(
                            pairs@,
                            (#[trigger] grp.wallets@[i2])@,
                            (#[trigger] grp.wallets@[j2])@,
                        ),
                    forall|j2: int|
                        i < j2 < j ==> lists_pair(
                            pairs@,
                            grp.wallets@[i as int]@,
                            (#[trigger] grp.wallets@[j2])@,
                        ),
                decreases n - j,
            {
                let a = &grp.wallets[i];
                let b = &grp.wallets[j];
                if !has_pair(&pairs, a, b) {
                    let ghost old_pairs = pairs@;
                    let pair = LinkedPair {
                        wallet_a: a.clone(),
                        wallet_b: b.clone(),
                        shared_counterparty: grp.counterparty.clone(),
                    };
                    proof {
                        assert(text_lt(a@, b@));
                        assert(dealt_with(ws, a@, grp.counterparty@));
                        assert(dealt_with(ws, b@, grp.counterparty@));
                    }
                    pairs.push(pair);
                    proof {
                        let ps = pairs@;
                        assert(ps == old_pairs.push(pair));
                        assert(ps[old_pairs.len() as int] == pair);
                        assert forall|p: int| 0 <= p < ps.len() implies linked_via(
                            ws,
                            (#[trigger] ps[p]).wallet_a@,
                            ps[p].wallet_b@,
                            ps[p].shared_counterparty@,
                        ) by {
                            if p < old_pairs.len() {
                                assert(ps[p] == old_pairs[p]);
                            }
                        }
                        assert forall|p: int, q: int| 0 <= p < q < ps.len() implies !((#[trigger] ps[p]).wallet_a@
                            == (#[trigger] ps[q]).wallet_a@ && ps[p].wallet_b@ == ps[q].wallet_b@) by {
                            if q < old_pairs.len() {
                                assert(ps[p] == old_pairs[p] && ps[q] == old_pairs[q]);
                            } else {
                                assert(ps[p] == old_pairs[p]);
                            }
                        }
                        assert forall|g2: int, i2: int, j2: int|
                            0 <= g2 < g && 0 <= i2 < j2 < groups@[g2].wallets@.len() implies lists_pair(
                            ps,
                            (#[trigger] groups@[g2].wallets@[i2])@,
                            (#[trigger] groups@[g2].wallets@[j2])@,
                        ) by {
                            lemma_lists_pair_push(
                                old_pairs,
                                pair,
                                groups@[g2].wallets@[i2]@,
                                groups@[g2].wallets@[j2]@,
                            );
                        }
                        assert forall|i2: int, j2: int| 0 <= i2 < i && i2 < j2 < n implies lists_pair(
                            ps,
                            (#[trigger] grp.wallets@[i2])@,
                            (#[trigger] grp.wallets@[j2])@,
                        ) by {
                            lemma_lists_pair_push(
                                old_pairs,
                                pair,
                                grp.wallets@[i2]@,
                                grp.wallets@[j2]@,
                            );
                        }
                        assert forall|j2: int| i < j2 < j + 1 implies lists_pair(
                            ps,
                            grp.wallets@[i as int]@,
                            (#[trigger] grp.wallets@[j2])@,
                        ) by {
                            if j2 < j {
                                lemma_lists_pair_push(
                                    old_pairs,
                                    pair,
                                    grp.wallets@[i as int]@,
                                    grp.wallets@[j2]@,
                                );
                            } else {
                                assert(ps[old_pairs.len() as int].wallet_a@ == grp.wallets@[i as int]@);
                            }
                        }
                    }
                }
                j = j + 1;
            }
            i = i + 1;
        }
        g = g + 1;
    }
    proof {
        assert forall|a: Seq<char>, b: Seq<char>, cp: Seq<char>|
            #[trigger] linked_via(ws, a, b, cp) implies lists_pair(pairs@, a, b) by {
            let (ka, ta) = choose|k: int, t: int|
                0 <= k < ws.len() && 0 <= t < ws[k].transactions@.len() && ws[k].address@ == a
                    && #[trigger] names_counterparty(ws[k].transactions@[t], cp);
            let (kb, tb) = choose|k: int, t: int|
                0 <= k < ws.len() && 0 <= t < ws[k].transactions@.len() && ws[k].address@ == b
                    && #[trigger] names_counterparty(ws[k].transactions@[t], cp);
            assert(covered(ws, groups@, ka, ta));
            assert(covered(ws, groups@, kb, tb));
            let ga = choose|g: int|
                0 <= g < groups@.len() && (#[trigger] groups@[g]).counterparty@ == cp
                    && holds_text(groups@[g].wallets@, a);
            let gb = choose|g: int|
                0 <= g < groups@.len() && (#[trigger] groups@[g]).counterparty@ == cp
                    && holds_text(groups@[g].wallets@, b);
            assert(ga == gb);
            let l = groups@[ga].wallets@;
            assert(group_ok(ws, groups@[ga]));
            let ia = choose|i: int| 0 <= i < l.len() && (#[trigger] l[i])@ == a;
            let ib = choose|i: int| 0 <= i < l.len() && (#[trigger] l[i])@ == b;
            lemma_text_lt_irreflexive(a);
            if ib < ia {
                assert(text_lt(l[ib]@, l[ia]@));
                lemma_text_lt_asymmetric(a, b);
            }
            assert(ia < ib);
            assert(lists_pair(pairs@, l[ia]@, l[ib]@));
        }
    }
    pairs
}

/// Gather the wallets of a batch together with the links between them.
pub fn build_batch_result(wallets: Vec<WalletInfo>) -> (r: BatchResult)
    ensures
        r.wallets@ == wallets@,
        sound_pairs(wallets@, r.linked_pairs@),
        forall|a: Seq<char>, b: Seq<char>, cp: Seq<char>|
            #[trigger] linked_via(wallets@, a, b, cp) ==> lists_pair(r.linked_pairs@, a, b),
{
    let linked_pairs = detect_links(wallets.as_slice());
    BatchResult { wallets, linked_pairs }
}

} // verus!
