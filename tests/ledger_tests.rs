use ledger_engine::ledger::AccountLedger;
use ledger_engine::record::{Kind, Rejection};
use ledger_engine::registry::AccountRegistry;
use ledger_engine::service::{is_transacao_valid, parse_kind, LedgerService, TransacaoDto};

fn request(valor: i64, tipo: &str, descricao: &str) -> TransacaoDto {
    TransacaoDto { valor, tipo: tipo.to_string(), descricao: descricao.to_string() }
}

fn service_with(accounts: &[(i32, i64)]) -> LedgerService {
    let mut registry = AccountRegistry::new();
    for &(id, limit) in accounts {
        assert!(registry.add(id, limit));
    }
    LedgerService::new(registry)
}

#[test]
fn scenario_debit_to_limit_then_rejected() {
    let service = service_with(&[(1, 1000)]);
    let v = service.submit_transaction(1, &request(1000, "d", "rent")).unwrap();
    assert_eq!(v.id, 1);
    assert_eq!(v.limit, 1000);
    assert_eq!(v.balance, -1000);
    let r = service.submit_transaction(1, &request(1, "d", "coffee"));
    assert_eq!(r, Err(Rejection::InsufficientLimit));
    let e = service.get_extract(1).unwrap();
    assert_eq!(e.balance, -1000);
    assert_eq!(e.recent_history.len(), 1);
    assert_eq!(e.recent_history[0].value, 1000);
}

#[test]
fn scenario_eleven_credits_keep_last_ten() {
    let service = service_with(&[(1, 500)]);
    for i in 1..=11 {
        let d = format!("t{}", i);
        assert!(service.submit_transaction(1, &request(10, "c", &d)).is_ok());
    }
    let e = service.get_extract(1).unwrap();
    assert_eq!(e.balance, 110);
    assert_eq!(e.limit, 500);
    assert_eq!(e.recent_history.len(), 10);
    for (k, rec) in e.recent_history.iter().enumerate() {
        assert_eq!(rec.description, format!("t{}", 11 - k));
        assert_eq!(rec.kind, Kind::Credit);
        assert_eq!(rec.value, 10);
    }
    for k in 1..e.recent_history.len() {
        assert!(e.recent_history[k].occurred_at <= e.recent_history[k - 1].occurred_at);
    }
}

#[test]
fn scenario_unknown_account() {
    let service = service_with(&[(1, 100)]);
    assert_eq!(
        service.submit_transaction(6, &request(10, "c", "x")),
        Err(Rejection::UnknownAccount)
    );
    assert!(matches!(service.get_extract(6), Err(Rejection::UnknownAccount)));
}

#[test]
fn malformed_requests_rejected_first() {
    let service = service_with(&[(1, 100)]);
    let bad = [
        request(0, "c", "x"),
        request(-5, "d", "x"),
        request(10, "x", "x"),
        request(10, "credit", "x"),
        request(10, "", "x"),
        request(10, "c", ""),
        request(10, "d", "abcdefghijk"),
    ];
    for b in bad.iter() {
        assert_eq!(service.submit_transaction(1, b), Err(Rejection::MalformedRequest));
        // also for an account that does not exist
        assert_eq!(service.submit_transaction(42, b), Err(Rejection::MalformedRequest));
    }
    let e = service.get_extract(1).unwrap();
    assert_eq!(e.balance, 0);
    assert!(e.recent_history.is_empty());
}

#[test]
fn validity_of_requests() {
    assert!(is_transacao_valid(&request(1, "c", "a")));
    assert!(is_transacao_valid(&request(1, "d", "abcdefghij")));
    assert!(!is_transacao_valid(&request(1, "d", "abcdefghijk")));
    // ten characters, more than ten bytes
    assert!(is_transacao_valid(&request(1, "c", "éééééééééé")));
    assert!(!is_transacao_valid(&request(1, "C", "a")));
    assert!(!is_transacao_valid(&request(0, "c", "a")));
}

#[test]
fn kind_text() {
    assert_eq!(parse_kind("c"), Some(Kind::Credit));
    assert_eq!(parse_kind("d"), Some(Kind::Debit));
    assert_eq!(parse_kind("cd"), None);
    assert_eq!(parse_kind(""), None);
}

#[test]
fn debits_admitted_up_to_limit() {
    // balance 0, limit 1000, debits of 300: exactly 1000 / 300 = 3 pass
    let service = service_with(&[(3, 1000)]);
    let mut ok = 0;
    for _ in 0..7 {
        if service.submit_transaction(3, &request(300, "d", "d")).is_ok() {
            ok += 1;
        }
    }
    assert_eq!(ok, 3);
    assert_eq!(service.get_extract(3).unwrap().balance, -900);
}

#[test]
fn ledger_rejection_leaves_state() {
    let mut l = AccountLedger::new(50);
    let s = l.try_apply_at(Kind::Debit, 50, "a".to_string(), 7).unwrap();
    assert_eq!(s.balance, -50);
    assert_eq!(s.as_of, 7);
    assert_eq!(l.try_apply_at(Kind::Debit, 1, "b".to_string(), 8).unwrap_err(), Rejection::InsufficientLimit);
    let snap = l.snapshot_at(9);
    assert_eq!(snap.balance, -50);
    assert_eq!(snap.recent_history.len(), 1);
    assert_eq!(snap.recent_history[0].description, "a");
    assert_eq!(snap.as_of, 9);
}

#[test]
fn ledger_balance_overflow() {
    let mut l = AccountLedger::new(0);
    assert!(l.try_apply_at(Kind::Credit, i64::MAX, "a".to_string(), 1).is_ok());
    assert_eq!(l.try_apply_at(Kind::Credit, 1, "b".to_string(), 2).unwrap_err(), Rejection::BalanceOverflow);
    assert_eq!(l.balance(), i64::MAX);
    assert_eq!(l.limit(), 0);
}

#[test]
fn ledger_timestamps_never_go_back() {
    let mut l = AccountLedger::new(0);
    l.try_apply_at(Kind::Credit, 5, "a".to_string(), 100).unwrap();
    let s = l.try_apply_at(Kind::Credit, 5, "b".to_string(), 40).unwrap();
    assert_eq!(s.recent_history[0].occurred_at, 100);
    assert_eq!(s.recent_history[1].occurred_at, 100);
    assert_eq!(s.balance, 10);
}

#[test]
fn registry_lookup() {
    let mut r = AccountRegistry::new();
    assert!(r.add(1, 100000));
    assert!(r.add(2, 80000));
    assert!(!r.add(1, 5));
    assert!(!r.add(3, -1));
    assert_eq!(r.limit_for(1), Some(100000));
    assert_eq!(r.limit_for(2), Some(80000));
    assert_eq!(r.limit_for(3), None);
    assert_eq!(r.entries(), vec![(1, 100000), (2, 80000)]);
}

#[test]
fn extract_time_text() {
    let service = service_with(&[(1, 0)]);
    let e = service.get_extract_at(1, 0).unwrap();
    assert_eq!(e.as_of, 0);
    assert_eq!(e.as_of_text.as_deref(), Some("1970-01-01T00:00:00Z"));
    let e = service.get_extract_at(1, 1_500_000_000_000_000_000).unwrap();
    assert_eq!(e.as_of_text.as_deref(), Some("2017-07-14T02:40:00Z"));
}

#[test]
fn submit_at_fixed_clock() {
    let service = service_with(&[(2, 80000), (5, 500000)]);
    let v = service.submit_transaction_at(2, &request(70000, "d", "car"), 11).unwrap();
    assert_eq!(v.balance, -70000);
    let v = service.submit_transaction_at(5, &request(20, "c", "gift"), 12).unwrap();
    assert_eq!(v.balance, 20);
    assert_eq!(service.limit_for(5), Some(500000));
    let e = service.get_extract_at(2, 13).unwrap();
    assert_eq!(e.recent_history[0].occurred_at, 11);
    assert_eq!(e.recent_history[0].kind, Kind::Debit);
    assert_eq!(e.as_of, 13);
}
