//! The fixed set of accounts, the dispatch of one operation, and the
//! service step that turns one request datagram into one reply.
use vstd::prelude::*;
use crate::client::{applied, apply_result, statement_entry, Client, ClientModel, TransacaoError};
use crate::codec::{entries_bytes, i64_le, lemma_operation_round_trip, Converter};
use crate::records::{Extrato, Operation, OperationKind, TransacaoReturn, RES_ERROR};

verus! {

/// The accounts of the service as `(id, credit limit)`, ids from 1 up.
pub fn accounts() -> (r: Vec<(u8, i64)>)
    ensures
        r@ == seq![(1u8, 100_000i64), (2u8, 80_000i64), (3u8, 1_000_000i64), (4u8, 10_000_000i64), (5u8, 500_000i64)],
{
    vec![(1u8, 100_000i64), (2u8, 80_000i64), (3u8, 1_000_000i64), (4u8, 10_000_000i64), (5u8, 500_000i64)]
}

/// What a dispatched operation gives back.
#[derive(Clone, Copy, Debug, PartialEq, Eq)]
pub enum Reply {
    Extrato(Extrato),
    Transacao(TransacaoReturn),
}

/// Why an operation was not carried out.
#[derive(Clone, Copy, Debug, PartialEq, Eq)]
pub enum DispatchError {
    /// The account id is outside the configured set.
    UnknownAccount,
    /// The account refused the transaction.
    Rejected(TransacaoError),
}

/// `x` is the statement of `m`.
pub open spec fn is_statement_of(x: Extrato, m: ClientModel) -> bool {
    &&& x.total == m.saldo
    &&& x.limite == m.limite
    &&& forall|k: int| 0 <= k < 10 ==> #[trigger] x.transacoes[k] == statement_entry(m.history, k)
}

/// The bytes of `m`'s statement.
pub open spec fn statement_bytes(m: ClientModel) -> Seq<u8> {
    i64_le(m.saldo) + i64_le(m.limite) + entries_bytes(Seq::new(10, |k: int| statement_entry(m.history, k)))
}

/// The bytes of a transaction result.
pub open spec fn return_bytes(r: TransacaoReturn) -> Seq<u8> {
    i64_le(r.limite) + i64_le(r.saldo)
}

/// The operation that request bytes `b` decode to.
pub open spec fn decoded(b: Seq<u8>) -> Operation {
    choose|op: Operation| op.spec_buffer() == b
}

/// The position in the account set of the account `id` names.
pub open spec fn slot_of(id: u8) -> int {
    id as int - 1
}

/// The ledger: account `k` has id `k + 1`.
pub struct Ledger {
    pub clients: Vec<Client>,
}

impl View for Ledger {
    type V = Seq<ClientModel>;

    open spec fn view(&self) -> Seq<ClientModel> {
        self.clients@.map_values(|c: Client| c@)
    }
}

impl Ledger {
    /// Every account keeps its invariant and sits at the slot its id names.
    pub open spec fn wf(&self) -> bool {
        forall|k: int| 0 <= k < self@.len() ==> #[trigger] self@[k].wf() && self@[k].id == k + 1
    }

    /// Whether `id` names an account of the ledger.
    pub open spec fn known(&self, id: u8) -> bool {
        1 <= id && id as int <= self@.len()
    }

    /// A ledger over `clients`, which must hold ids 1, 2, ... in order.
    pub fn new(clients: Vec<Client>) -> (r: Ledger)
        requires
            forall|k: int| 0 <= k < clients@.len() ==> #[trigger] clients@[k]@.wf() && clients@[k].id == k + 1,
        ensures
            r.wf(),
            r.clients@ == clients@,
    {
        Ledger { clients }
    }

    /// Carries out `op`. An unknown account id is refused; a statement query
    /// reads the account; a transaction is applied to the account, which the
    /// caller then stores.
    pub fn dispatch(&mut self, op: &Operation) -> (r: Result<Reply, DispatchError>)
        requires
            old(self).wf(),
        ensures
            final(self).wf(),
            final(self)@.len() == old(self)@.len(),
            !old(self).known(op.id) ==> r == Err::<Reply, DispatchError>(DispatchError::UnknownAccount)
                && final(self)@ == old(self)@,
            old(self).known(op.id) && op.kind == OperationKind::Extrato ==> final(self)@ == old(self)@ && (
            r matches Ok(Reply::Extrato(x)) && is_statement_of(x, old(self)@[slot_of(op.id)])),
            old(self).known(op.id) && op.kind == OperationKind::Transacao ==> final(self)@ == old(
                self,
            )@.update(slot_of(op.id), applied(old(self)@[slot_of(op.id)], op.transacao)) && r == match apply_result(
                old(self)@[slot_of(op.id)],
                op.transacao,
            ) {
                Ok(ret) => Ok::<Reply, DispatchError>(Reply::Transacao(ret)),
                Err(e) => Err(DispatchError::Rejected(e)),
            },
    {
        if op.id == 0 || op.id as usize > self.clients.len() {
            return Err(DispatchError::UnknownAccount);
        }
        let k = op.id as usize - 1;
        assert(self@[k as int] == self.clients@[k as int]@);
        match op.kind {
            OperationKind::Extrato => {
                let x = self.clients[k].extrato();
                Ok(Reply::Extrato(x))
            },
            OperationKind::Transacao => {
                let ghost before = self@;
                let r = self.clients[k].push_transacao(op.transacao);
                proof {
                    assert(self@ =~= before.update(k as int, applied(before[k as int], op.transacao)));
                }
                match r {
                    Ok(ret) => Ok(Reply::Transacao(ret)),
                    Err(e) => Err(DispatchError::Rejected(e)),
                }
            },
        }
    }

    /// Handles one request datagram: decodes it, dispatches it and encodes
    /// the reply. A request that does not decode, or that fails, gets the
    /// one-byte error reply and changes nothing. Returns the reply and the
    /// id of the account to store, if one changed.
    pub fn handle_request(&mut self, request: &[u8]) -> (r: (Vec<u8>, Option<u8>))
        requires
            old(self).wf(),
        ensures
            final(self).wf(),
            !Operation::buffer_ok(request@) ==> r.0@ == seq![RES_ERROR] && r.1 == None::<u8> && final(self)@
                == old(self)@,
            Operation::buffer_ok(request@) ==> ({
                let op = decoded(request@);
                let k = slot_of(op.id);
                if !old(self).known(op.id) {
                    r.0@ == seq![RES_ERROR] && r.1 == None::<u8> && final(self)@ == old(self)@
                } else if op.kind == OperationKind::Extrato {
                    r.0@ == statement_bytes(old(self)@[k]) && r.1 == None::<u8> && final(self)@ == old(self)@
                } else {
                    final(self)@ == old(self)@.update(k, applied(old(self)@[k], op.transacao)) && match apply_result(
                        old(self)@[k],
                        op.transacao,
                    ) {
                        Ok(ret) => r.0@ == return_bytes(ret) && r.1 == Some(op.id),
                        Err(_) => r.0@ == seq![RES_ERROR] && r.1 == None::<u8>,
                    }
                }
            }),
    {
        match Operation::from_buffer(request) {
            Err(_) => (vec![RES_ERROR], None),
            Ok(op) => {
                proof {
                    let d = decoded(request@);
                    lemma_operation_round_trip(op, d);
                }
                match self.dispatch(&op) {
                    Err(_) => (vec![RES_ERROR], None),
                    Ok(Reply::Extrato(x)) => {
                        assert(x.transacoes@ =~= Seq::new(10, |k: int| statement_entry(old(self)@[slot_of(op.id)].history, k)));
                        (x.to_buffer(), None)
                    },
                    Ok(Reply::Transacao(ret)) => (ret.to_buffer(), Some(op.id)),
                }
            },
        }
    }
}

} // verus!
