use wallet_coins::ledger::{Coins, LedgerError};
use wallet_coins::scan::{find_script, ScriptSource, WatchedScripts};
use wallet_coins::selection::{select_inputs, Candidate};
use wallet_coins::types::{Block, Coin, Hash256, KeyDerivation, OutPoint, Proof, Transaction, TxOut};

/// Watches scripts `[account, sub, kix]`; looking ahead watches the next key.
struct Keys {
    scripts: Vec<(Vec<u8>, KeyDerivation)>,
    look_aheads: usize,
}

fn script(kix: u32) -> Vec<u8> {
    vec![0, 0, kix as u8]
}

fn derivation(kix: u32, csv: Option<u16>) -> KeyDerivation {
    KeyDerivation { account: 0, sub: 0, kix, tweak: None, csv }
}

impl Keys {
    fn new(n: u32) -> Keys {
        Keys { scripts: (0..n).map(|k| (script(k), derivation(k, None))).collect(), look_aheads: 0 }
    }
}

impl ScriptSource for Keys {
    // a specification-only member: nothing calls it when the tests run
    fn watched_scripts(&self) -> WatchedScripts {
        panic!("watched_scripts is not called at run time")
    }

    fn get_scripts(&self) -> Vec<(Vec<u8>, KeyDerivation)> {
        self.scripts.clone()
    }

    fn look_ahead(&mut self, _account: u32, _sub: u32, kix: u32) -> Vec<(u32, Vec<u8>)> {
        self.look_aheads += 1;
        let next = kix + 1;
        if self.scripts.iter().any(|(s, _)| *s == script(next)) {
            return Vec::new();
        }
        self.scripts.push((script(next), derivation(next, None)));
        vec![(next, script(next))]
    }
}

fn hash(n: u8) -> Hash256 {
    Hash256 { bytes: [n; 32] }
}

fn out(value: u64, s: Vec<u8>) -> TxOut {
    TxOut { value, script_pubkey: s }
}

fn coinbase(n: u8) -> Transaction {
    Transaction { txid: hash(200 + n), input: vec![], output: vec![out(50, vec![9, 9])] }
}

fn block(n: u8, txs: Vec<Transaction>) -> Block {
    let mut txdata = vec![coinbase(n)];
    txdata.extend(txs);
    Block { hash: hash(100 + n), txdata }
}

fn point(tx: u8, vout: u32) -> OutPoint {
    OutPoint { txid: hash(tx), vout }
}

fn values(v: &[Candidate]) -> Vec<u64> {
    let mut r: Vec<u64> = v.iter().map(|c| c.1.output.value).collect();
    r.sort();
    r
}

fn candidate(n: u8, value: u64) -> Candidate {
    (point(n, 0), Coin { output: out(value, script(0)), derivation: derivation(0, None) }, 1)
}

#[test]
fn scenario_confirm_spend_unwind() {
    let mut keys = Keys::new(3);
    let mut coins = Coins::new();
    let t1 = Transaction { txid: hash(1), input: vec![point(50, 0)], output: vec![out(5000, script(0))] };
    let b1 = block(1, vec![t1]);
    assert!(coins.process(&mut keys, &b1));
    assert_eq!(coins.confirmed().len(), 1);
    assert_eq!(coins.proofs().len(), 1);
    assert_eq!(coins.confirmed_balance(), 5000);

    let t2 = Transaction { txid: hash(2), input: vec![point(1, 0)], output: vec![out(3000, script(1))] };
    let b2 = block(2, vec![t2]);
    assert!(coins.process(&mut keys, &b2));
    assert_eq!(coins.confirmed().len(), 1);
    assert_eq!(coins.confirmed()[0].0, point(2, 0));
    assert_eq!(coins.proofs().len(), 1);
    assert_eq!(coins.proofs()[0].0, hash(2));
    assert_eq!(coins.confirmed_balance(), 3000);

    coins.unwind_tip(&b2.hash);
    assert_eq!(coins.confirmed_balance(), 0);
    assert_eq!(coins.unconfirmed_balance(), 3000);
    assert_eq!(coins.proofs().len(), 0);
    assert_eq!(coins.unconfirmed()[0].0, point(2, 0));
}

#[test]
fn confirm_then_unwind_restores_unconfirmed() {
    let mut keys = Keys::new(2);
    let mut coins = Coins::new();
    let tx = Transaction { txid: hash(7), input: vec![], output: vec![out(1200, script(1))] };
    assert!(coins.process_unconfirmed_transaction(&mut keys, &tx));
    let seen = coins.unconfirmed().clone();
    assert_eq!(seen.len(), 1);
    assert!(coins.process(&mut keys, &block(3, vec![tx])));
    assert_eq!(coins.unconfirmed().len(), 0);
    assert_eq!(coins.confirmed().len(), 1);
    coins.unwind_tip(&hash(103));
    assert_eq!(coins.unconfirmed(), &seen);
    assert_eq!(coins.confirmed().len(), 0);
    assert_eq!(coins.proofs().len(), 0);
}

#[test]
fn two_outputs_of_one_transaction_share_a_proof() {
    let mut keys = Keys::new(2);
    let mut coins = Coins::new();
    let tx = Transaction { txid: hash(8), input: vec![], output: vec![out(10, script(0)), out(20, script(1))] };
    assert!(coins.process(&mut keys, &block(4, vec![tx])));
    assert_eq!(coins.confirmed().len(), 2);
    assert_eq!(coins.proofs().len(), 1);
    assert_eq!(coins.proofs()[0].1.get_txid(), hash(8));
    assert_eq!(coins.proofs()[0].1.get_block_hash(), hash(104));
    assert_eq!(coins.proofs()[0].1.position, 1);
}

#[test]
fn lookahead_within_one_scan() {
    let mut keys = Keys::new(1);
    let mut coins = Coins::new();
    // script(1) and script(2) are watched only after the outputs before them match
    let tx = Transaction {
        txid: hash(9),
        input: vec![],
        output: vec![out(1, script(0)), out(2, script(1)), out(3, script(2)), out(4, script(9))],
    };
    assert!(coins.process_unconfirmed_transaction(&mut keys, &tx));
    assert_eq!(coins.unconfirmed().len(), 3);
    assert_eq!(coins.unconfirmed_balance(), 6);
    assert_eq!(keys.look_aheads, 3);
}

#[test]
fn unrelated_block_changes_nothing() {
    let mut keys = Keys::new(1);
    let mut coins = Coins::new();
    let tx = Transaction { txid: hash(10), input: vec![point(3, 3)], output: vec![out(7, vec![1, 2, 3])] };
    assert!(!coins.process(&mut keys, &block(5, vec![tx])));
    assert_eq!(coins.confirmed().len(), 0);
    assert_eq!(coins.unconfirmed().len(), 0);
}

#[test]
fn coinbase_inputs_spend_nothing() {
    let mut keys = Keys::new(1);
    let mut coins = Coins::new();
    let tx = Transaction { txid: hash(11), input: vec![], output: vec![out(70, script(0))] };
    coins.process(&mut keys, &block(6, vec![tx]));
    let mut b = block(7, vec![]);
    b.txdata[0].input.push(point(11, 0));
    assert!(!coins.process(&mut keys, &b));
    assert_eq!(coins.confirmed_balance(), 70);
}

#[test]
fn unconfirmed_spend_removes_confirmed_coin() {
    let mut keys = Keys::new(1);
    let mut coins = Coins::new();
    let tx = Transaction { txid: hash(12), input: vec![], output: vec![out(70, script(0)), out(30, script(0))] };
    coins.process(&mut keys, &block(8, vec![tx]));
    let spend = Transaction { txid: hash(13), input: vec![point(12, 0)], output: vec![out(60, vec![5])] };
    assert!(coins.process_unconfirmed_transaction(&mut keys, &spend));
    assert_eq!(coins.confirmed_balance(), 30);
    assert_eq!(coins.proofs().len(), 1);
    let spend2 = Transaction { txid: hash(14), input: vec![point(12, 1)], output: vec![] };
    assert!(coins.process_unconfirmed_transaction(&mut keys, &spend2));
    assert_eq!(coins.proofs().len(), 0);
}

#[test]
fn remove_and_restore_confirmed() {
    let mut coins = Coins::new();
    let coin = Coin { output: out(500, script(0)), derivation: derivation(0, None) };
    let proof = Proof { txid: hash(15), block_hash: hash(150), position: 1 };
    coins.add_confirmed(point(15, 0), coin.clone(), proof);
    coins.add_confirmed(point(15, 1), coin, proof);
    assert_eq!(coins.confirmed_balance(), 1000);
    assert!(coins.remove_confirmed(&point(15, 0)));
    assert_eq!(coins.proofs().len(), 1);
    assert!(!coins.remove_confirmed(&point(15, 0)));
    assert!(coins.remove_confirmed(&point(15, 1)));
    assert_eq!(coins.proofs().len(), 0);
}

fn ledger_with(values: &[(u64, Option<u16>)]) -> Coins {
    let mut coins = Coins::new();
    for (i, (v, csv)) in values.iter().enumerate() {
        let coin = Coin { output: out(*v, script(0)), derivation: derivation(0, *csv) };
        let n = 20 + i as u8;
        coins.add_confirmed(point(n, 0), coin, Proof { txid: hash(n), block_hash: hash(1), position: 1 });
    }
    coins
}

#[test]
fn selection_reaches_minimum() {
    let coins = ledger_with(&[(10, None), (1, None), (5, None), (2, None)]);
    let r = coins.get_confirmed_coins(6, 50, |_| Some(40)).unwrap();
    // 1 + 2 + 5 = 8 reaches 6; the surplus 2 spares the coin of 1
    assert_eq!(values(&r), vec![2, 5]);
    assert!(r.iter().all(|c| c.2 == 40));
    let r = coins.get_confirmed_coins(17, 50, |_| Some(40)).unwrap();
    assert_eq!(values(&r), vec![2, 5, 10]);
    let r = coins.get_confirmed_coins(18, 50, |_| Some(40)).unwrap();
    assert_eq!(values(&r), vec![1, 2, 5, 10]);
}

#[test]
fn selection_exhausts_short_supply() {
    let coins = ledger_with(&[(3, None), (4, None)]);
    let r = coins.get_confirmed_coins(100, 50, |_| Some(40)).unwrap();
    assert_eq!(values(&r), vec![3, 4]);
}

#[test]
fn selection_of_nothing() {
    let coins = ledger_with(&[(3, None), (4, None)]);
    let r = coins.get_confirmed_coins(0, 50, |_| Some(40)).unwrap();
    assert!(r.is_empty());
    let empty = Coins::new();
    assert!(empty.get_confirmed_coins(5, 50, |_| Some(40)).unwrap().is_empty());
}

#[test]
fn selection_needs_block_heights() {
    let coins = ledger_with(&[(3, None)]);
    assert_eq!(coins.get_confirmed_coins(1, 50, |_| None), Err(LedgerError::UnknownBlockHeight));
}

#[test]
fn timelocked_coin_left_out_late() {
    let coins = ledger_with(&[(9, Some(10))]);
    for height in [111u32, 120, 1000] {
        assert!(coins.get_confirmed_coins(9, height, |_| Some(100)).unwrap().is_empty());
    }
}

#[test]
fn timelocked_coin_offered_early() {
    let coins = ledger_with(&[(9, Some(10))]);
    for height in [100u32, 105, 109] {
        assert_eq!(values(&coins.get_confirmed_coins(9, height, |_| Some(100)).unwrap()), vec![9]);
    }
}

#[test]
fn select_inputs_drops_spare_coins() {
    let have = vec![candidate(1, 1), candidate(2, 2), candidate(3, 5), candidate(4, 10)];
    let r = select_inputs(have, 6);
    assert_eq!(values(&r), vec![2, 5]);
    let have = vec![candidate(1, 4), candidate(2, 4), candidate(3, 4)];
    assert_eq!(values(&select_inputs(have, 8)), vec![4, 4]);
}

#[test]
fn process_with_given_scripts() {
    let mut keys = Keys::new(0);
    let mut coins = Coins::new();
    let tx = Transaction { txid: hash(30), input: vec![], output: vec![out(11, script(4)), out(12, script(5))] };
    let scripts = vec![(script(4), derivation(4, Some(3)))];
    assert!(coins.process_with(&mut keys, scripts, &block(9, vec![tx])));
    // script(5) became watched by looking ahead past key 4
    assert_eq!(coins.confirmed().len(), 2);
    assert_eq!(coins.confirmed_balance(), 23);
    let d = &coins.confirmed().iter().find(|e| e.0 == point(30, 1)).unwrap().1.derivation;
    assert_eq!((d.kix, d.csv), (5, Some(3)));
}

#[test]
fn unconfirmed_scan_with_given_scripts() {
    let mut keys = Keys::new(0);
    let mut coins = Coins::new();
    let tx = Transaction { txid: hash(31), input: vec![], output: vec![out(40, vec![7]), out(41, script(2))] };
    let scripts = vec![(script(2), derivation(2, None))];
    assert!(coins.process_unconfirmed_transaction_with(&mut keys, scripts, &tx));
    assert_eq!(coins.unconfirmed().len(), 1);
    assert_eq!(coins.unconfirmed()[0].0, point(31, 1));
    assert_eq!(coins.unconfirmed_balance(), 41);
}

#[test]
fn spend_in_same_block_leaves_nothing_confirmed() {
    let mut keys = Keys::new(1);
    let mut coins = Coins::new();
    let t1 = Transaction { txid: hash(32), input: vec![], output: vec![out(90, script(0))] };
    let t2 = Transaction { txid: hash(33), input: vec![point(32, 0)], output: vec![out(80, vec![1])] };
    assert!(coins.process(&mut keys, &block(10, vec![t1, t2])));
    assert_eq!(coins.confirmed().len(), 0);
    assert_eq!(coins.proofs().len(), 0);
}

#[test]
fn latest_script_entry_wins() {
    let scripts = vec![(script(1), derivation(1, None)), (script(2), derivation(2, None)), (script(1), derivation(7, None))];
    assert_eq!(find_script(&scripts, &script(1)), Some(2));
    assert_eq!(find_script(&scripts, &script(2)), Some(1));
    assert_eq!(find_script(&scripts, &script(3)), None);
}

#[test]
fn unconfirmed_output_of_confirmed_coin_stays_confirmed() {
    let mut keys = Keys::new(1);
    let mut coins = Coins::new();
    let tx = Transaction { txid: hash(34), input: vec![], output: vec![out(15, script(0))] };
    coins.process(&mut keys, &block(11, vec![tx.clone()]));
    assert!(coins.process_unconfirmed_transaction(&mut keys, &tx));
    assert_eq!(coins.confirmed().len(), 1);
    assert_eq!(coins.unconfirmed().len(), 0);
}

#[test]
fn timelocked_coin_at_boundary_height() {
    // at height 110 = 100 + 10 the condition 100 + 10 < 110 does not hold
    let coins = ledger_with(&[(9, Some(10))]);
    assert_eq!(values(&coins.get_confirmed_coins(9, 110, |_| Some(100)).unwrap()), vec![9]);
}
