use chrono::{DateTime, Datelike, Duration, Timelike, Utc};
use rand::rngs::OsRng;
use simple_bitcoin::blockchain::transaction::{
    CoinbaseTransaction, NormalTransaction, Transaction, TransactionInput, TransactionOutput,
};
use simple_bitcoin::blockchain::utxo::{UTXOManager, WalletError};
use simple_bitcoin::key_manager::KeyManager;
use simple_bitcoin::timestamp::Timestamp;

/// A key pair of which only the address matters. Making a pair of 2048
/// bits takes seconds, so a test makes one of those and lets the others be
/// pairs of 512 bits.
struct SmallKeyPair {
    private_key: rsa::RsaPrivateKey,
}

impl SmallKeyPair {
    fn new(rng: OsRng) -> SmallKeyPair {
        let mut rng = rng;
        SmallKeyPair { private_key: rsa::RsaPrivateKey::new(&mut rng, 512).unwrap() }
    }

    fn get_address(&self) -> String {
        let public_key = rsa::RsaPublicKey::from(&self.private_key);
        let der = rsa::pkcs1::ToRsaPublicKey::to_pkcs1_der(&public_key).unwrap();
        simple_bitcoin::util::bytes_to_hex(der.as_der())
    }
}

fn stamp(moment: DateTime<Utc>) -> Timestamp {
    Timestamp::from_parts(
        moment.year(),
        moment.month(),
        moment.day(),
        moment.hour(),
        moment.minute(),
        moment.second(),
        moment.nanosecond(),
    )
    .unwrap()
}

#[test]
fn test_refresh_utxos() {
    let rng = OsRng;

    let my_km = KeyManager::new(rng).unwrap();
    let mut my_um = UTXOManager::new(my_km.get_address());

    let km1 = SmallKeyPair::new(rng);

    let now = Utc::now();
    let sec = Duration::seconds(1);

    let tx1 = Transaction::Coinbase(CoinbaseTransaction::new(
        my_km.get_address(),
        2,
        stamp(now + sec * 0),
    ));
    let tx2 = Transaction::Coinbase(CoinbaseTransaction::new(
        my_km.get_address(),
        3,
        stamp(now + sec * 1),
    ));
    let tx3 = Transaction::Coinbase(CoinbaseTransaction::new(
        my_km.get_address(),
        4,
        stamp(now + sec * 2),
    ));

    let tx4 = Transaction::Normal(NormalTransaction::new(
        vec![TransactionInput::new(tx1.clone(), 0)],
        vec![
            TransactionOutput::new(km1.get_address(), 1),
            TransactionOutput::new(my_km.get_address(), 1),
        ],
        stamp(now),
    ));

    let txs = vec![tx1, tx2, tx3, tx4];
    my_um.refresh_utxos(&txs).unwrap();

    assert_eq!(my_um.get_balance(), 8);
}

#[test]
fn test_create_transaction_for() {
    let rng = OsRng;

    let my_km = KeyManager::new(rng).unwrap();
    let mut my_um = UTXOManager::new(my_km.get_address());

    let km1 = SmallKeyPair::new(rng);

    let now = Utc::now();
    let sec = Duration::seconds(1);

    let tx1 = Transaction::Coinbase(CoinbaseTransaction::new(
        my_km.get_address(),
        2,
        stamp(now + sec * 0),
    ));
    let tx2 = Transaction::Coinbase(CoinbaseTransaction::new(
        my_km.get_address(),
        3,
        stamp(now + sec * 1),
    ));
    let tx3 = Transaction::Coinbase(CoinbaseTransaction::new(
        my_km.get_address(),
        4,
        stamp(now + sec * 2),
    ));

    let txs = vec![tx1, tx2, tx3];
    my_um.refresh_utxos(&txs).unwrap();

    let tx = my_um
        .create_transaction_for(km1.get_address(), 1, 1)
        .unwrap();

    assert_eq!(tx.get_input_value(), 2);
    assert_eq!(tx.get_output_value(), 1);
    assert_eq!(my_um.get_balance(), 7);

    let tx = my_um
        .create_transaction_for(km1.get_address(), 3, 1)
        .unwrap();

    assert_eq!(tx.get_input_value(), 7);
    assert_eq!(tx.get_output_value(), 6);
    assert_eq!(my_um.get_balance(), 3);
}

fn coin(owner: &str, value: u64, second: u8) -> Transaction {
    Transaction::Coinbase(CoinbaseTransaction::new(
        owner.to_string(),
        value,
        Timestamp { year: 2022, month: 3, day: 9, hour: 0, minute: 0, second, nanos: 0 },
    ))
}

#[test]
fn only_outputs_that_no_later_transaction_spends_are_unspent() {
    let now = Timestamp::epoch();
    let a = coin("me", 2, 0);
    let b = coin("me", 3, 1);
    let c = coin("you", 4, 2);
    // Spends output 0 of `a` and makes two outputs over to "me".
    let d = Transaction::Normal(NormalTransaction::new(
        vec![TransactionInput::new(a.clone(), 0)],
        vec![
            TransactionOutput::new("me".to_string(), 1),
            TransactionOutput::new("you".to_string(), 5),
            TransactionOutput::new("me".to_string(), 6),
        ],
        now,
    ));
    // Spends output 2 of `d`, and not output 0.
    let e = Transaction::Normal(NormalTransaction::new(
        vec![TransactionInput::new(d.clone(), 2)],
        vec![TransactionOutput::new("you".to_string(), 6)],
        now,
    ));
    let mut wallet = UTXOManager::new("me".to_string());
    wallet.refresh_utxos(&vec![a.clone(), b.clone(), c.clone(), d.clone(), e.clone()]).unwrap();
    assert_eq!(
        wallet.get_utxos(),
        vec![TransactionInput::new(b.clone(), 0), TransactionInput::new(d.clone(), 0)]
    );
    assert_eq!(wallet.get_balance(), 4);
    // A transaction that spends stands before what it spends: nothing is
    // spent by a transaction that comes earlier.
    wallet.refresh_utxos(&vec![d.clone(), a.clone()]).unwrap();
    assert_eq!(
        wallet.get_utxos(),
        vec![
            TransactionInput::new(d.clone(), 0),
            TransactionInput::new(d.clone(), 2),
            TransactionInput::new(a.clone(), 0)
        ]
    );
    assert_eq!(wallet.get_balance(), 9);
    wallet.refresh_utxos(&vec![]).unwrap();
    assert_eq!(wallet.get_balance(), 0);
    assert_eq!(wallet.get_utxos(), vec![]);
}

#[test]
fn a_balance_beyond_64_bits_changes_nothing() {
    let mut wallet = UTXOManager::new("me".to_string());
    wallet.refresh_utxos(&vec![coin("me", 5, 0)]).unwrap();
    let r = wallet.refresh_utxos(&vec![coin("me", u64::MAX, 0), coin("me", 1, 1)]);
    assert_eq!(r, Err(WalletError::BalanceOverflow));
    assert_eq!(wallet.get_balance(), 5);
    assert_eq!(wallet.get_utxos().len(), 1);
    let r = wallet.refresh_utxos(&vec![coin("me", u64::MAX, 0), coin("you", 1, 1)]);
    assert_eq!(r, Ok(()));
    assert_eq!(wallet.get_balance(), u64::MAX);
}

#[test]
fn a_transfer_succeeds_exactly_when_the_balance_covers_it() {
    let now = Timestamp::epoch();
    let mut wallet = UTXOManager::new("me".to_string());
    wallet.refresh_utxos(&vec![coin("me", 2, 0), coin("me", 3, 1), coin("me", 4, 2)]).unwrap();
    assert_eq!(
        wallet.create_transaction_at("you".to_string(), 9, 1, now),
        Err(WalletError::InsufficientFunds)
    );
    assert_eq!(
        wallet.create_transaction_at("you".to_string(), u64::MAX, u64::MAX, now),
        Err(WalletError::InsufficientFunds)
    );
    assert_eq!(wallet.get_balance(), 9);
    assert_eq!(wallet.get_utxos().len(), 3);

    // Exactly the balance: all is spent, and there is no change.
    let tx = wallet.create_transaction_at("you".to_string(), 8, 1, now).unwrap();
    assert_eq!(tx.get_inputs().len(), 3);
    assert_eq!(tx.get_outputs(), vec![TransactionOutput::new("you".to_string(), 8)]);
    assert_eq!(wallet.get_balance(), 0);
    assert_eq!(wallet.get_utxos(), vec![]);

    // Nothing for nothing: no input is spent.
    let tx = wallet.create_transaction_at("you".to_string(), 0, 0, now).unwrap();
    assert_eq!(tx.get_inputs(), vec![]);
    assert_eq!(tx.get_outputs(), vec![TransactionOutput::new("you".to_string(), 0)]);
    assert_eq!(wallet.get_balance(), 0);
    assert_eq!(
        wallet.create_transaction_at("you".to_string(), 0, 1, now),
        Err(WalletError::InsufficientFunds)
    );
}

#[test]
fn the_change_is_the_one_new_unspent_output() {
    let now = Timestamp::epoch();
    let a = coin("me", 2, 0);
    let b = coin("me", 3, 1);
    let c = coin("me", 4, 2);
    let mut wallet = UTXOManager::new("me".to_string());
    wallet.refresh_utxos(&vec![a.clone(), b.clone(), c.clone()]).unwrap();
    let tx = wallet.create_transaction_at("you".to_string(), 2, 1, now).unwrap();
    assert_eq!(
        tx,
        NormalTransaction::new(
            vec![TransactionInput::new(a.clone(), 0), TransactionInput::new(b.clone(), 0)],
            vec![
                TransactionOutput::new("you".to_string(), 2),
                TransactionOutput::new("me".to_string(), 2)
            ],
            now
        )
    );
    assert_eq!(
        wallet.get_utxos(),
        vec![
            TransactionInput::new(c.clone(), 0),
            TransactionInput::new(Transaction::Normal(tx.clone()), 1)
        ]
    );
    assert_eq!(wallet.get_balance(), 6);
    // A transfer to the wallet's own address takes the amount and the fee
    // off the balance as any other does: only the change comes back.
    let own = wallet.create_transaction_at("me".to_string(), 3, 0, now).unwrap();
    assert_eq!(own.get_inputs(), vec![TransactionInput::new(c, 0)]);
    assert_eq!(wallet.get_balance(), 3);
    assert_eq!(wallet.get_utxos().len(), 2);
}

#[test]
fn a_transfer_dated_by_the_clock_leaves_the_rest_and_the_change_unspent() {
    let (a, b, c) = (coin("me", 2, 0), coin("me", 3, 1), coin("me", 4, 2));
    let mut wallet = UTXOManager::new("me".to_string());
    wallet.refresh_utxos(&vec![a.clone(), b.clone(), c.clone()]).unwrap();
    // The first coin covers it to the unit: no change comes back.
    let tx = wallet.create_transaction_for("you".to_string(), 1, 1).unwrap();
    assert_eq!(tx.inputs, vec![TransactionInput::new(a.clone(), 0)]);
    assert_eq!(tx.outputs, vec![TransactionOutput::new("you".to_string(), 1)]);
    assert!(tx.timestamp.is_valid());
    assert_eq!(
        wallet.get_utxos(),
        vec![TransactionInput::new(b.clone(), 0), TransactionInput::new(c.clone(), 0)]
    );
    assert_eq!(wallet.get_balance(), 7);
    // The next coin more than covers it: the change is unspent, last.
    let tx = wallet.create_transaction_for("you".to_string(), 1, 1).unwrap();
    assert_eq!(tx.inputs, vec![TransactionInput::new(b.clone(), 0)]);
    assert_eq!(
        tx.outputs,
        vec![TransactionOutput::new("you".to_string(), 1), TransactionOutput::new("me".to_string(), 1)]
    );
    assert_eq!(
        wallet.get_utxos(),
        vec![
            TransactionInput::new(c.clone(), 0),
            TransactionInput::new(Transaction::Normal(tx.clone()), 1)
        ]
    );
    assert_eq!(wallet.get_balance(), 5);
    assert_eq!(
        wallet.create_transaction_for("you".to_string(), 5, 1),
        Err(WalletError::InsufficientFunds)
    );
    assert_eq!(wallet.get_utxos().len(), 2);
    assert_eq!(wallet.get_balance(), 5);
}
