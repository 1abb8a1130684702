use database::backend::{
    build_extrato, build_transacao, description_text, read_extrato_reply, read_transacao_reply, retry_connect,
    statement_rows, ReplyError, RequestError, StatementRow,
};
use database::client::Client;
use database::codec::{Converter, MalformedRecord};
use database::http::Response;
use database::records::{
    ClientRaw, Extrato, Operation, OperationKind, Transacao, TransacaoExtrato, TransacaoReturn, RES_ERROR,
    SIZE_EXTRATO, SIZE_OPERATION, SIZE_TRANSACAO_RETURN,
};
use database::store::{accounts, DispatchError, Ledger, Reply};
use database::client::TransacaoError;

fn desc(s: &str) -> [char; 10] {
    let mut d = ['\0'; 10];
    for (i, c) in s.chars().enumerate() {
        d[i] = c;
    }
    d
}

fn ledger() -> Ledger {
    let clients = accounts().into_iter().map(|(id, limite)| Client::new(id, limite, 0)).collect();
    Ledger::new(clients)
}

fn op(kind: OperationKind, id: u8, value: i64, s: &str) -> Operation {
    Operation { kind, id, transacao: Transacao { value, transacao_description: desc(s), timestap: 1_700_000_000 } }
}

#[test]
fn operation_layout_and_round_trip() {
    let o = op(OperationKind::Transacao, 3, -258, "ab");
    let b = o.to_buffer();
    assert_eq!(b.len(), SIZE_OPERATION);
    assert_eq!(b[0], 1);
    assert_eq!(b[1], 3);
    assert_eq!(&b[2..10], &(-258i64).to_le_bytes());
    assert_eq!(&b[10..14], &('a' as u32).to_le_bytes());
    assert_eq!(&b[14..18], &('b' as u32).to_le_bytes());
    assert_eq!(&b[18..50], &[0u8; 32]);
    assert_eq!(&b[50..58], &1_700_000_000u64.to_le_bytes());
    assert_eq!(Operation::from_buffer(&b), Ok(o));
    let q = op(OperationKind::Extrato, 1, 0, "");
    let qb = q.to_buffer();
    assert_eq!(qb[0], 0);
    assert_eq!(Operation::from_buffer(&qb), Ok(q));
}

#[test]
fn decoding_wrong_size_fails() {
    let b = op(OperationKind::Transacao, 1, 5, "x").to_buffer();
    assert_eq!(Operation::from_buffer(&b[..57]), Err(MalformedRecord));
    let mut longer = b.clone();
    longer.push(0);
    assert_eq!(Operation::from_buffer(&longer), Err(MalformedRecord));
    assert_eq!(TransacaoReturn::from_buffer(&[0u8; 15]), Err(MalformedRecord));
    assert_eq!(Extrato::from_buffer(&vec![0u8; SIZE_EXTRATO - 1]), Err(MalformedRecord));
    assert_eq!(ClientRaw::from_buffer(&[0u8; 10]), Err(MalformedRecord));
}

#[test]
fn decoding_bad_kind_or_slot_fails() {
    let mut b = op(OperationKind::Transacao, 1, 5, "x").to_buffer();
    b[0] = 2;
    assert_eq!(Operation::from_buffer(&b), Err(MalformedRecord));
    let mut s = op(OperationKind::Transacao, 1, 5, "x").to_buffer();
    s[10..14].copy_from_slice(&0xD800u32.to_le_bytes());
    assert_eq!(Operation::from_buffer(&s), Err(MalformedRecord));
    s[10..14].copy_from_slice(&0x110000u32.to_le_bytes());
    assert_eq!(Operation::from_buffer(&s), Err(MalformedRecord));
    s[10..14].copy_from_slice(&0x1F600u32.to_le_bytes());
    let decoded = Operation::from_buffer(&s).unwrap();
    assert_eq!(decoded.transacao.transacao_description[0], '\u{1F600}');
}

#[test]
fn transacao_return_layout() {
    let r = TransacaoReturn { limite: 100_000, saldo: -50_000 };
    let b = r.to_buffer();
    assert_eq!(b.len(), SIZE_TRANSACAO_RETURN);
    assert_eq!(&b[0..8], &100_000i64.to_le_bytes());
    assert_eq!(&b[8..16], &(-50_000i64).to_le_bytes());
    assert_eq!(TransacaoReturn::from_buffer(&b), Ok(r));
}

#[test]
fn extrato_round_trip_and_bad_flag() {
    let mut c = Client::new(1, 100_000, 0);
    c.push_transacao(Transacao { value: 9, transacao_description: desc("nine"), timestap: 9 }).unwrap();
    let x = c.extrato();
    let b = x.to_buffer();
    assert_eq!(b.len(), SIZE_EXTRATO);
    assert_eq!(b[16], 1);
    assert_eq!(b[16 + 57], 0);
    assert_eq!(Extrato::from_buffer(&b), Ok(x));
    let mut bad = b.clone();
    bad[16 + 57] = 7;
    assert_eq!(Extrato::from_buffer(&bad), Err(MalformedRecord));
}

#[test]
fn dispatch_unknown_account() {
    let mut l = ledger();
    assert_eq!(l.dispatch(&op(OperationKind::Extrato, 0, 0, "")), Err(DispatchError::UnknownAccount));
    assert_eq!(l.dispatch(&op(OperationKind::Transacao, 6, 1, "")), Err(DispatchError::UnknownAccount));
}

#[test]
fn dispatch_transaction_and_statement() {
    let mut l = ledger();
    let r = l.dispatch(&op(OperationKind::Transacao, 2, -80_001, "too much"));
    assert_eq!(r, Err(DispatchError::Rejected(TransacaoError::Overdraft)));
    let r = l.dispatch(&op(OperationKind::Transacao, 2, -80_000, "ok"));
    assert_eq!(r, Ok(Reply::Transacao(TransacaoReturn { limite: 80_000, saldo: -80_000 })));
    match l.dispatch(&op(OperationKind::Extrato, 2, 0, "")) {
        Ok(Reply::Extrato(x)) => {
            assert_eq!(x.total, -80_000);
            assert_eq!(x.transacoes.iter().filter(|e| e.isvalid).count(), 1);
        }
        other => panic!("unexpected {:?}", other),
    }
}

#[test]
fn handle_request_replies() {
    let mut l = ledger();
    let (reply, save) = l.handle_request(&[1, 2, 3]);
    assert_eq!(reply, vec![RES_ERROR]);
    assert_eq!(save, None);
    let (reply, save) = l.handle_request(&op(OperationKind::Transacao, 1, -50_000, "d").to_buffer());
    assert_eq!(reply, TransacaoReturn { limite: 100_000, saldo: -50_000 }.to_buffer());
    assert_eq!(save, Some(1));
    let (reply, save) = l.handle_request(&op(OperationKind::Transacao, 1, -60_000, "d").to_buffer());
    assert_eq!(reply, vec![RES_ERROR]);
    assert_eq!(save, None);
    let (reply, save) = l.handle_request(&op(OperationKind::Extrato, 1, 0, "").to_buffer());
    assert_eq!(save, None);
    let x = Extrato::from_buffer(&reply).unwrap();
    assert_eq!(x.total, -50_000);
    assert_eq!(x.limite, 100_000);
    let (reply, _) = l.handle_request(&op(OperationKind::Extrato, 9, 0, "").to_buffer());
    assert_eq!(reply, vec![RES_ERROR]);
}

#[test]
fn build_transacao_cases() {
    let d: Vec<char> = "pix".chars().collect();
    let o = build_transacao(1, 1000, &['d'], &d, 42).unwrap();
    assert_eq!(o.kind, OperationKind::Transacao);
    assert_eq!(o.id, 1);
    assert_eq!(o.transacao.value, -1000);
    assert_eq!(o.transacao.transacao_description, desc("pix"));
    assert_eq!(o.transacao.timestap, 42);
    assert_eq!(build_transacao(1, 1000, &['c'], &d, 42).unwrap().transacao.value, 1000);
    let long: Vec<char> = "abcdefghijk".chars().collect();
    assert_eq!(build_transacao(1, 1, &['c'], &long, 0), Err(RequestError::DescriptionTooLong));
    assert_eq!(build_transacao(1, 1, &['c', 'd'], &d, 0), Err(RequestError::TipoTooLong));
    assert_eq!(build_transacao(1, 1, &['x'], &d, 0), Err(RequestError::InvalidTipo));
    assert_eq!(build_transacao(1, 1, &[], &d, 0), Err(RequestError::InvalidTipo));
    let ten: Vec<char> = "ãbcdefghij".chars().collect();
    assert!(build_transacao(1, 1, &['c'], &ten, 0).is_ok());
    let q = build_extrato(4);
    assert_eq!(q.kind, OperationKind::Extrato);
    assert_eq!(q.id, 4);
}

#[test]
fn reply_readers() {
    assert_eq!(read_transacao_reply(&[1]), Err(ReplyError::Refused));
    assert_eq!(read_transacao_reply(&[0; 5]), Err(ReplyError::Invalid));
    let r = TransacaoReturn { limite: 1, saldo: 2 };
    assert_eq!(read_transacao_reply(&r.to_buffer()), Ok(r));
    assert_eq!(read_extrato_reply(&[1]), Err(ReplyError::Refused));
    assert_eq!(read_extrato_reply(&[0; 16]), Err(ReplyError::Invalid));
    let x = Client::new(1, 5, 0).extrato();
    assert_eq!(read_extrato_reply(&x.to_buffer()), Ok(x));
}

#[test]
fn statement_rows_skip_invalid_entries() {
    let mut x = Client::new(1, 100_000, 0).extrato();
    x.transacoes[0] = TransacaoExtrato { isvalid: true, value: -70, transacao_description: desc("rent"), timestap: 1 };
    x.transacoes[1] = TransacaoExtrato { isvalid: true, value: 30, transacao_description: desc("gift"), timestap: 2 };
    x.transacoes[5] = TransacaoExtrato { isvalid: false, value: 999, transacao_description: desc("junk"), timestap: 3 };
    let rows = statement_rows(&x);
    assert_eq!(
        rows,
        vec![
            StatementRow { valor: 70, tipo: 'd', descricao: "rent".chars().collect() },
            StatementRow { valor: 30, tipo: 'c', descricao: "gift".chars().collect() },
        ]
    );
}

#[test]
fn description_text_stops_at_first_zero() {
    let mut d = desc("abc");
    d[5] = 'z';
    assert_eq!(description_text(&d), vec!['a', 'b', 'c']);
    assert_eq!(description_text(&desc("abcdefghij")).len(), 10);
    assert!(description_text(&['\0'; 10]).is_empty());
}

#[test]
fn retry_three_attempts() {
    assert!(retry_connect(0));
    assert!(retry_connect(2));
    assert!(!retry_connect(3));
}

#[test]
fn response_bytes() {
    let r = Response::new(404, "Not Found", Some("Invalid ID"), None);
    assert_eq!(r.into_vec(), b"HTTP/1.1 404 Not Found\r\nReason: Invalid ID\r\n\r\n".to_vec());
    let r = Response::ok(b"{\"a\":1}\r\n".to_vec());
    assert_eq!(r.into_vec(), b"HTTP/1.1 200 OK\r\nContent-Length: 9\r\n\r\n{\"a\":1}\r\n".to_vec());
    let r = Response::new(0, "X", None, Some(Vec::new()));
    assert_eq!(r.into_vec(), b"HTTP/1.1 0 X\r\nContent-Length: 0\r\n\r\n".to_vec());
}

#[test]
fn error_responses() {
    let r = Response::from_request_error(RequestError::TipoTooLong);
    assert_eq!((r.code, r.msg, r.reason), (422, "Unprocessable Content", Some("Invalid tipo (> 1)")));
    let r = Response::from_transacao_reply_error(ReplyError::Refused);
    assert_eq!((r.code, r.reason), (422, Some("Backend DB inform")));
    let r = Response::from_extrato_reply_error(ReplyError::Refused);
    assert_eq!((r.code, r.msg, r.reason), (404, "Not Found", None));
    let r = Response::from_extrato_reply_error(ReplyError::Invalid);
    assert_eq!(r.code, 500);
}
