use database::client::{Client, TransacaoError};
use database::records::{Transacao, TransacaoReturn};

fn desc(s: &str) -> [char; 10] {
    let mut d = ['\0'; 10];
    for (i, c) in s.chars().enumerate() {
        d[i] = c;
    }
    d
}

fn tx(value: i64, s: &str, ts: u64) -> Transacao {
    Transacao { value, transacao_description: desc(s), timestap: ts }
}

#[test]
fn debit_within_limit_then_overdraft_rejected() {
    let mut c = Client::new(1, 100_000, 0);
    let r = c.push_transacao(tx(-50_000, "first", 1));
    assert_eq!(r, Ok(TransacaoReturn { limite: 100_000, saldo: -50_000 }));
    assert_eq!(c.saldo, -50_000);
    let r = c.push_transacao(tx(-60_000, "second", 2));
    assert_eq!(r, Err(TransacaoError::Overdraft));
    assert_eq!(c.saldo, -50_000);
    assert_eq!(c.transacoes.len(), 1);
    assert_eq!(c.transacoes[0], tx(-50_000, "first", 1));
}

#[test]
fn debit_exactly_to_limit_is_accepted() {
    let mut c = Client::new(2, 80_000, 0);
    assert_eq!(c.push_transacao(tx(-80_000, "all", 1)), Ok(TransacaoReturn { limite: 80_000, saldo: -80_000 }));
    assert_eq!(c.push_transacao(tx(-1, "one", 2)), Err(TransacaoError::Overdraft));
}

#[test]
fn credit_past_i64_max_is_refused() {
    let mut c = Client::new(3, 0, i64::MAX - 5);
    assert_eq!(c.push_transacao(tx(6, "big", 1)), Err(TransacaoError::BalanceOverflow));
    assert_eq!(c.saldo, i64::MAX - 5);
    assert!(c.transacoes.is_empty());
    assert_eq!(c.push_transacao(tx(5, "fits", 1)), Ok(TransacaoReturn { limite: 0, saldo: i64::MAX }));
}

#[test]
fn seventh_transaction_evicts_oldest() {
    let mut c = Client::new(1, 100_000, 0);
    for i in 0..6 {
        c.push_transacao(tx(10 + i, "old", i as u64)).unwrap();
    }
    assert_eq!(c.transacoes.len(), 6);
    let sixth_before = c.transacoes[5];
    assert_eq!(sixth_before.value, 10);
    c.push_transacao(tx(500, "new", 99)).unwrap();
    assert_eq!(c.transacoes.len(), 6);
    assert_eq!(c.transacoes[0], tx(500, "new", 99));
    assert!(c.transacoes.iter().all(|t| t.value != 10));
    let values: Vec<i64> = c.transacoes.iter().map(|t| t.value).collect();
    assert_eq!(values, vec![500, 15, 14, 13, 12, 11]);
    assert_eq!(c.saldo, 10 + 11 + 12 + 13 + 14 + 15 + 500);
}

#[test]
fn balance_plus_limit_never_negative_over_a_run() {
    let mut c = Client::new(5, 500, 0);
    let values = [-300, -300, 100, -250, -51, -50, 1000, -1500, -499];
    for (i, v) in values.iter().enumerate() {
        let before_saldo = c.saldo;
        let before_len = c.transacoes.len();
        let r = c.push_transacao(tx(*v, "run", i as u64));
        assert!(c.saldo + c.limite >= 0);
        if r.is_err() {
            assert_eq!(c.saldo, before_saldo);
            assert_eq!(c.transacoes.len(), before_len);
        }
    }
    assert_eq!(c.saldo, 1);
    assert_eq!(c.transacoes.len(), 6);
}

#[test]
fn statement_with_three_transactions() {
    let mut c = Client::new(4, 10_000_000, 0);
    c.push_transacao(tx(100, "a", 1)).unwrap();
    c.push_transacao(tx(-20, "b", 2)).unwrap();
    c.push_transacao(tx(300, "c", 3)).unwrap();
    let x = c.extrato();
    assert_eq!(x.total, 380);
    assert_eq!(x.limite, 10_000_000);
    let valid: Vec<_> = x.transacoes.iter().filter(|e| e.isvalid).collect();
    assert_eq!(valid.len(), 3);
    assert_eq!(x.transacoes.iter().filter(|e| !e.isvalid).count(), 7);
    assert_eq!(x.transacoes[0].value, 300);
    assert_eq!(x.transacoes[1].value, -20);
    assert_eq!(x.transacoes[2].value, 100);
    assert_eq!(x.transacoes[0].transacao_description, desc("c"));
    for e in &x.transacoes[3..] {
        assert!(!e.isvalid);
        assert_eq!(e.value, 0);
        assert_eq!(e.timestap, 0);
        assert_eq!(e.transacao_description, ['\0'; 10]);
    }
}

#[test]
fn snapshot_round_trip() {
    let mut c = Client::new(2, 80_000, 0);
    c.push_transacao(tx(-1_000, "lunch", 11)).unwrap();
    c.push_transacao(tx(2_500, "salário", 12)).unwrap();
    let bytes = c.save_client();
    assert_eq!(bytes.len(), database::records::SIZE_CLIENT_RAW);
    let loaded = Client::load_client(2, &bytes).unwrap();
    assert_eq!(loaded.id, 2);
    assert_eq!(loaded.limite, 80_000);
    assert_eq!(loaded.saldo, 1_500);
    assert_eq!(loaded.transacoes, c.transacoes);
}

#[test]
fn snapshot_of_full_history_round_trip() {
    let mut c = Client::new(1, 100_000, 0);
    for i in 0..9 {
        c.push_transacao(tx(i, "x", i as u64)).unwrap();
    }
    let loaded = Client::load_client(1, &c.save_client()).unwrap();
    assert_eq!(loaded.transacoes, c.transacoes);
    assert_eq!(loaded.saldo, c.saldo);
}

#[test]
fn load_without_snapshot_returns_nothing() {
    assert!(Client::load_client(1, &[]).is_none());
    let fresh = Client::new(1, 100_000, 0);
    assert_eq!(fresh.saldo, 0);
    assert_eq!(fresh.limite, 100_000);
    assert!(fresh.transacoes.is_empty());
}

#[test]
fn load_rejects_truncated_or_foreign_snapshot() {
    let c = Client::new(3, 1_000_000, 0);
    let bytes = c.save_client();
    assert!(Client::load_client(3, &bytes[..bytes.len() - 1]).is_none());
    let mut longer = bytes.clone();
    longer.push(0);
    assert!(Client::load_client(3, &longer).is_none());
    assert!(Client::load_client(4, &bytes).is_none());
    let mut negative_limit = bytes.clone();
    negative_limit[1..9].copy_from_slice(&(-1i64).to_le_bytes());
    assert!(Client::load_client(3, &negative_limit).is_none());
}

#[test]
fn load_caps_stored_count_at_six() {
    let mut c = Client::new(1, 100_000, 0);
    c.push_transacao(tx(7, "seven", 7)).unwrap();
    let mut bytes = c.save_client();
    bytes[17..25].copy_from_slice(&100u64.to_le_bytes());
    let loaded = Client::load_client(1, &bytes).unwrap();
    assert_eq!(loaded.transacoes.len(), 6);
    assert_eq!(loaded.transacoes[0], tx(7, "seven", 7));
    assert_eq!(loaded.transacoes[1], tx(0, "", 0));
}

#[test]
fn accounts_compare_by_id() {
    let mut a = Client::new(1, 100, 0);
    let b = Client::new(1, 5, 0);
    a.push_transacao(tx(1, "x", 1)).unwrap();
    assert!(a == b);
    assert!(a != Client::new(2, 100, 0));
}
