use vstd::prelude::*;

use crate::text::texts_view;
use crate::types::{chain_label, Transaction, WalletInfo};
use crate::wrappers::{utc_csv_format, utc_csv_text, utc_representable, utc_timestamp_exists};

verus! {

/// The header row of the CSV export.
pub open spec fn csv_header() -> Seq<Seq<char>> {
    seq!["wallet"@, "chain"@, "txid"@, "date"@, "amount"@, "counterparty"@]
}

/// The date column: the UTC time of a dated transaction, else `pending`.
pub open spec fn csv_date(d: Option<i64>) -> Seq<char> {
    match d {
        Some(s) => if utc_representable(s) {
            utc_csv_text(s)
        } else {
            "pending"@
        },
        None => "pending"@,
    }
}

/// The CSV row of transaction `tx` of wallet `w`.
pub open spec fn csv_record(w: WalletInfo, tx: Transaction) -> Seq<Seq<char>> {
    seq![
        w.address@,
        chain_label(w.chain),
        tx.txid@,
        csv_date(tx.date),
        tx.amount_display@,
        match tx.counterparty {
            Some(c) => c@,
            None => "-"@,
        },
    ]
}

/// One row per transaction of `w`, in order.
pub open spec fn wallet_records(w: WalletInfo) -> Seq<Seq<Seq<char>>> {
    w.transactions@.map_values(|t: Transaction| csv_record(w, t))
}

/// One row per transaction over all wallets, wallet by wallet.
pub open spec fn csv_body(ws: Seq<WalletInfo>) -> Seq<Seq<Seq<char>>>
    decreases ws.len(),
{
    if ws.len() == 0 {
        seq![]
    } else {
        csv_body(ws.drop_last()) + wallet_records(ws.last())
    }
}

pub open spec fn rows_view(rows: Seq<Vec<String>>) -> Seq<Seq<Seq<char>>> {
    rows.map_values(|r: Vec<String>| texts_view(r@))
}

fn csv_date_text(d: Option<i64>) -> (s: String)
    ensures
        s@ == csv_date(d),
{
    match d {
        Some(secs) => {
            if utc_timestamp_exists(secs) {
                utc_csv_format(secs)
            } else {
                String::from_str("pending")
            }
        },
        None => String::from_str("pending"),
    }
}

fn csv_row(w: &WalletInfo, tx: &Transaction) -> (row: Vec<String>)
    ensures
        texts_view(row@) == csv_record(*w, *tx),
{
    let mut row: Vec<String> = Vec::new();
    row.push(w.address.clone());
    row.push(w.chain.label());
    row.push(tx.txid.clone());
    row.push(csv_date_text(tx.date));
    row.push(tx.amount_display.clone());
    row.push(
        match &tx.counterparty {
            Some(c) => c.clone(),
            None => String::from_str("-"),
        },
    );
    proof {
        assert(texts_view(row@) =~= csv_record(*w, *tx));
    }
    row
}

/// The rows of the CSV export: the header, then one row per transaction
/// across all wallets (wallet, chain, txid, date, amount, counterparty).
pub fn csv_rows(wallets: &[WalletInfo]) -> (rows: Vec<Vec<String>>)
    ensures
        rows_view(rows@) == seq![csv_header()] + csv_body(wallets@),
{
    let mut rows: Vec<Vec<String>> = Vec::new();
    let mut header: Vec<String> = Vec::new();
    header.push(String::from_str("wallet"));
    header.push(String::from_str("chain"));
    header.push(String::from_str("txid"));
    header.push(String::from_str("date"));
    header.push(String::from_str("amount"));
    header.push(String::from_str("counterparty"));
    proof {
        assert(texts_view(header@) =~= csv_header());
    }
    rows.push(header);
    let mut k: usize = 0;
    proof {
        assert(wallets@.take(0) =~= Seq::<WalletInfo>::empty());
        assert(rows_view(rows@) =~= seq![csv_header()] + csv_body(wallets@.take(0)));
    }
    while k < wallets.len()
        invariant
            k <= wallets@.len(),
            rows_view(rows@) == seq![csv_header()] + csv_body(wallets@.take(k as int)),
        decreases wallets@.len() - k,
    {
        let w = &wallets[k];
        let ghost base = rows_view(rows@);
        let mut t: usize = 0;
        proof {
            assert(base =~= base + wallet_records(*w).take(0));
        }
        while t < w.transactions.len()
            invariant
                t <= w.transactions@.len(),
                rows_view(rows@) == base + wallet_records(*w).take(t as int),
            decreases w.transactions@.len() - t,
        {
            let row = csv_row(w, &w.transactions[t]);
            let ghost before = rows@;
            rows.push(row);
            proof {
                assert(wallet_records(*w).take(t + 1) =~= wallet_records(*w).take(t as int).push(
                    csv_record(*w, w.transactions@[t as int]),
                ));
                assert(rows_view(rows@) =~= rows_view(before).push(texts_view(row@)));
            }
            t = t + 1;
        }
        proof {
            assert(wallet_records(*w).take(t as int) =~= wallet_records(*w));
            assert(wallets@.take(k + 1).drop_last() =~= wallets@.take(k as int));
            assert(wallets@.take(k + 1).last() == *w);
            assert(seq![csv_header()] + csv_body(wallets@.take(k + 1)) =~= seq![csv_header()]
                + csv_body(wallets@.take(k as int)) + wallet_records(*w));
        }
        k = k + 1;
    }
    proof {
        assert(wallets@.take(k as int) =~= wallets@);
    }
    rows
}

} // verus!
