use vstd::prelude::*;

verus! {

/// Number of character slots in a transaction description.
pub const NCHAR_DESCRIPTION: usize = 10;

/// Number of entries carried by a statement.
pub const NTRANSACOES: usize = 10;

/// Most transactions an account remembers.
pub const NHISTORY: usize = 6;

/// Encoded size of one transaction: value, description slots, timestamp.
pub const SIZE_TRANSACAO: usize = 56;

/// Encoded size of an operation: kind, account id, transaction.
pub const SIZE_OPERATION: usize = 58;

/// Encoded size of a transaction result: credit limit and balance.
pub const SIZE_TRANSACAO_RETURN: usize = 16;

/// Encoded size of one statement entry: valid flag and transaction.
pub const SIZE_TRANSACAO_EXTRATO: usize = 57;

/// Encoded size of a statement: balance, credit limit and its entries.
pub const SIZE_EXTRATO: usize = 586;

/// Encoded size of an account snapshot: id, limit, balance, count, history.
pub const SIZE_CLIENT_RAW: usize = 361;

/// The one byte sent back in place of a reply when a request fails.
pub const RES_ERROR: u8 = 1;

/// UDP port of the ledger service.
pub const PORT_DB: u16 = 7000;

/// Description slots; unused slots hold `'\0'`, which ends the text.
pub type BufferDescription = [char; 10];

/// A signed movement of money: positive is a credit, negative a debit.
#[derive(Clone, Copy, Debug, PartialEq, Eq)]
pub struct Transacao {
    pub value: i64,
    pub transacao_description: BufferDescription,
    /// Seconds since the Unix epoch.
    pub timestap: u64,
}

/// One slot of a statement; only slots with `isvalid` set are real history.
#[derive(Clone, Copy, Debug, PartialEq, Eq)]
pub struct TransacaoExtrato {
    pub isvalid: bool,
    pub value: i64,
    pub transacao_description: BufferDescription,
    pub timestap: u64,
}

/// A statement: balance, credit limit and the most recent entries first.
#[derive(Clone, Copy, Debug, PartialEq, Eq)]
pub struct Extrato {
    pub total: i64,
    pub limite: i64,
    pub transacoes: [TransacaoExtrato; 10],
}

/// The account state right after a transaction was applied.
#[derive(Clone, Copy, Debug, PartialEq, Eq)]
pub struct TransacaoReturn {
    pub limite: i64,
    pub saldo: i64,
}

/// What a request asks for. On the wire a statement query is 0, a
/// transaction 1.
#[derive(Clone, Copy, Debug, PartialEq, Eq)]
pub enum OperationKind {
    Extrato,
    Transacao,
}

/// A request to the ledger service. A statement query carries a zeroed
/// transaction so that every request has the same size.
#[derive(Clone, Copy, Debug, PartialEq, Eq)]
pub struct Operation {
    pub kind: OperationKind,
    pub id: u8,
    pub transacao: Transacao,
}

/// The persisted form of an account: the first `ntransacoes` history slots
/// are real, the others are zeroed.
#[derive(Clone, Copy, Debug, PartialEq, Eq)]
pub struct ClientRaw {
    pub id: u8,
    pub limite: i64,
    pub saldo: i64,
    pub ntransacoes: u64,
    pub transacoes: [Transacao; 6],
}

} // verus!
