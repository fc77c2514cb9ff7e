use vstd::prelude::*;

use crate::analysis::{build_batch_result, linked_via, lists_pair, sound_pairs};
use crate::detect::{chains_of, detect_chains};
use crate::text::{concat2, concat3, join_lines, joined_lines, texts_view, trim_seq};
use crate::types::{Chain, WalletInfo};
use crate::ui::AppMessage;
use crate::wrappers::lowercase_text;

verus! {

/// One step of a batch lookup: look an address up on a chain, or record
/// why it cannot be.
pub enum BatchStep {
    Fetch { chain: Chain, address: String },
    Fail { message: String },
}

/// A batch step with its text as plain characters.
pub enum StepView {
    Fetch(Chain, Seq<char>),
    Fail(Seq<char>),
}

impl View for BatchStep {
    type V = StepView;

    open spec fn view(&self) -> StepView {
        match self {
            BatchStep::Fetch { chain, address } => StepView::Fetch(*chain, address@),
            BatchStep::Fail { message } => StepView::Fail(message@),
        }
    }
}

/// How `addr` is looked up on `chain`, given which API keys are missing.
pub open spec fn step_for_chain(addr: Seq<char>, chain: Chain, eth_missing: bool, bsc_missing: bool) -> StepView {
    match chain {
        Chain::ETH | Chain::USDT_ETH => if eth_missing {
            StepView::Fail(addr + ": ETHERSCAN_KEY not set"@)
        } else {
            StepView::Fetch(chain, addr)
        },
        Chain::BNB => if bsc_missing {
            StepView::Fail(addr + ": BSCSCAN_KEY not set"@)
        } else {
            StepView::Fetch(chain, addr)
        },
        _ => StepView::Fetch(chain, addr),
    }
}

/// The steps for one address: one per chain its format fits, or a failure
/// when it fits none.
pub open spec fn steps_for(addr: Seq<char>, eth_missing: bool, bsc_missing: bool) -> Seq<StepView> {
    let t = trim_seq(addr);
    let chains = chains_of(t, lowercase_text(t));
    if chains.len() == 0 {
        seq![StepView::Fail(addr + ": unknown chain"@)]
    } else {
        chains.map_values(|c: Chain| step_for_chain(addr, c, eth_missing, bsc_missing))
    }
}

/// The steps for all addresses, in order.
pub open spec fn batch_plan(addrs: Seq<Seq<char>>, eth_missing: bool, bsc_missing: bool) -> Seq<StepView>
    decreases addrs.len(),
{
    if addrs.len() == 0 {
        seq![]
    } else {
        batch_plan(addrs.drop_last(), eth_missing, bsc_missing) + steps_for(
            addrs.last(),
            eth_missing,
            bsc_missing,
        )
    }
}

pub open spec fn steps_view(s: Seq<BatchStep>) -> Seq<StepView> {
    s.map_values(|x: BatchStep| x@)
}

/// The step for `address` on `chain`.
fn step_on(address: &String, chain: Chain, eth_key: &str, bsc_key: &str) -> (s: BatchStep)
    ensures
        s@ == step_for_chain(address@, chain, eth_key@.len() == 0, bsc_key@.len() == 0),
{
    match chain {
        Chain::ETH | Chain::USDT_ETH => {
            if eth_key.is_empty() {
                BatchStep::Fail { message: concat2(address.as_str(), ": ETHERSCAN_KEY not set") }
            } else {
                BatchStep::Fetch { chain, address: address.clone() }
            }
        },
        Chain::BNB => {
            if bsc_key.is_empty() {
                BatchStep::Fail { message: concat2(address.as_str(), ": BSCSCAN_KEY not set") }
            } else {
                BatchStep::Fetch { chain, address: address.clone() }
            }
        },
        _ => BatchStep::Fetch { chain, address: address.clone() },
    }
}

/// The lookups a batch makes: for each address, in order, one step per chain
/// its format fits (a `0x` address is tried on ETH and on BNB), or a failure
/// when no chain fits or the chain's API key is missing.
pub fn plan_batch(addresses: &Vec<String>, eth_key: &str, bsc_key: &str) -> (steps: Vec<BatchStep>)
    ensures
        steps_view(steps@) == batch_plan(
            texts_view(addresses@),
            eth_key@.len() == 0,
            bsc_key@.len() == 0,
        ),
{
    let ghost em = eth_key@.len() == 0;
    let ghost bm = bsc_key@.len() == 0;
    let ghost av = texts_view(addresses@);
    let mut steps: Vec<BatchStep> = Vec::new();
    let mut i: usize = 0;
    proof {
        assert(av.take(0) =~= Seq::<Seq<char>>::empty());
        assert(steps_view(steps@) =~= Seq::<StepView>::empty());
    }
    while i < addresses.len()
        invariant
            i <= addresses@.len(),
            av == texts_view(addresses@),
            em == (eth_key@.len() == 0),
            bm == (bsc_key@.len() == 0),
            steps_view(steps@) == batch_plan(av.take(i as int), em, bm),
        decreases addresses@.len() - i,
    {
        let addr = &addresses[i];
        proof {
            assert(av.take(i + 1).drop_last() =~= av.take(i as int));
            assert(av.take(i + 1).last() == addr@);
        }
        let chains = detect_chains(addr.as_str());
        let ghost base = steps_view(steps@);
        if chains.len() == 0 {
            let message = concat2(addr.as_str(), ": unknown chain");
            steps.push(BatchStep::Fail { message });
            proof {
                assert(steps_view(steps@) =~= base + steps_for(addr@, em, bm));
            }
        } else {
            let mut j: usize = 0;
            let ghost f = |c: Chain| step_for_chain(addr@, c, em, bm);
            proof {
                assert(steps_view(steps@) =~= base + chains@.take(0).map_values(f));
            }
            while j < chains.len()
                invariant
                    j <= chains@.len(),
                    av == texts_view(addresses@),
                    em == (eth_key@.len() == 0),
                    bm == (bsc_key@.len() == 0),
                    f == (|c: Chain| step_for_chain(addr@, c, em, bm)),
                    steps_view(steps@) == base + chains@.take(j as int).map_values(f),
                decreases chains@.len() - j,
            {
                let step = step_on(addr, chains[j], eth_key, bsc_key);
                let ghost before = steps@;
                steps.push(step);
                proof {
                    assert(chains@.take(j + 1).map_values(f) =~= chains@.take(j as int).map_values(
                        f,
                    ).push(f(chains@[j as int])));
                    assert(steps_view(steps@) =~= steps_view(before).push(step@));
                }
                j = j + 1;
            }
            proof {
                assert(chains@.take(j as int) =~= chains@);
            }
        }
        i = i + 1;
    }
    proof {
        assert(av.take(i as int) =~= av);
    }
    steps
}

/// `"{addr}: {reason}"`, the line a failed lookup leaves in a batch report.
pub fn describe_failure(addr: &str, reason: &str) -> (s: String)
    ensures
        s@ == addr@ + ": "@ + reason@,
{
    concat3(addr, ": ", reason)
}

/// The outcome of a batch once its lookups are done: the batch with its
/// links when any wallet was found, else an error listing every failure.
pub fn finish_batch(wallets: Vec<WalletInfo>, errors: &Vec<String>) -> (msg: AppMessage)
    ensures
        wallets@.len() == 0 ==> (msg matches AppMessage::FetchError(e) && e@ == "All lookups failed:\n"@
            + joined_lines(texts_view(errors@))),
        wallets@.len() > 0 ==> (msg matches AppMessage::BatchLoaded(b) && b.wallets@ == wallets@
            && sound_pairs(wallets@, b.linked_pairs@) && forall|a: Seq<char>, b2: Seq<char>, cp: Seq<char>|
            #[trigger] linked_via(wallets@, a, b2, cp) ==> lists_pair(b.linked_pairs@, a, b2)),
{
    if wallets.len() == 0 {
        let listed = join_lines(errors);
        AppMessage::FetchError(concat2("All lookups failed:\n", listed.as_str()))
    } else {
        AppMessage::BatchLoaded(build_batch_result(wallets))
    }
}

/// What the interface is told when an export ends: `failure` is the error
/// text of a failed export.
pub fn export_finished(failure: Option<String>) -> (msg: AppMessage)
    ensures
        failure is None ==> (msg matches AppMessage::ExportDone(m) && m@
            == "Exported to output.json and output.csv in current directory"@),
        failure matches Some(e) ==> (msg matches AppMessage::FetchError(m) && m@ == "Export failed: "@
            + e@),
{
    match failure {
        None => AppMessage::ExportDone(
            String::from_str("Exported to output.json and output.csv in current directory"),
        ),
        Some(e) => AppMessage::FetchError(concat2("Export failed: ", e.as_str())),
    }
}

} // verus!
