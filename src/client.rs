//! One account: balance, credit limit and a bounded, most-recent-first
//! history; the statement it produces and the snapshot it is stored as.
use vstd::prelude::*;
use vstd::bytes::spec_u64_from_le_bytes;
use vstd::array::spec_array_fill_for_copy_type;
use std::collections::VecDeque;
use crate::codec::{
    history_bytes, i64_le, lemma_history, lemma_history_append, lemma_le_bytes, lemma_snapshot_layout,
    u64_le, Converter,
};
use crate::records::{ClientRaw, Extrato, Transacao, TransacaoExtrato, TransacaoReturn};

verus! {

broadcast use vstd::array::group_array_axioms;

/// What an account is, as the contracts speak of it.
pub ghost struct ClientModel {
    pub id: u8,
    pub limite: i64,
    pub saldo: i64,
    /// Most recent first.
    pub history: Seq<Transacao>,
}

impl ClientModel {
    /// The credit limit is not negative, the balance does not go below
    /// minus the limit, and at most six transactions are remembered.
    pub open spec fn wf(self) -> bool {
        &&& self.limite >= 0
        &&& self.saldo + self.limite >= 0
        &&& self.history.len() <= 6
    }
}

/// The history after `t` is recorded: `t` first, the oldest entry dropped
/// beyond six.
pub open spec fn push_history(h: Seq<Transacao>, t: Transacao) -> Seq<Transacao> {
    let n = seq![t] + h;
    if n.len() > 6 {
        n.take(6)
    } else {
        n
    }
}

/// Whether applying `value` would take the balance below minus the limit.
pub open spec fn overdraws(m: ClientModel, value: i64) -> bool {
    m.saldo + value < -m.limite
}

/// What applying `t` to `m` returns: refused when the balance would go
/// below minus the limit or past the largest `i64`, else the new state.
pub open spec fn apply_result(m: ClientModel, t: Transacao) -> Result<TransacaoReturn, TransacaoError> {
    if overdraws(m, t.value) {
        Err(TransacaoError::Overdraft)
    } else if m.saldo + t.value > i64::MAX {
        Err(TransacaoError::BalanceOverflow)
    } else {
        Ok(TransacaoReturn { limite: m.limite, saldo: (m.saldo + t.value) as i64 })
    }
}

/// The account after `t` was applied to `m`; unchanged where it was refused.
pub open spec fn applied(m: ClientModel, t: Transacao) -> ClientModel {
    if apply_result(m, t).is_ok() {
        ClientModel { saldo: (m.saldo + t.value) as i64, history: push_history(m.history, t), ..m }
    } else {
        m
    }
}

/// The account after each transaction of `txs` was applied in turn.
pub open spec fn apply_all(m: ClientModel, txs: Seq<Transacao>) -> ClientModel
    decreases txs.len(),
{
    if txs.len() == 0 {
        m
    } else {
        applied(apply_all(m, txs.drop_last()), txs.last())
    }
}

/// Why a transaction was refused; the account is left as it was.
#[derive(Clone, Copy, Debug, PartialEq, Eq)]
pub enum TransacaoError {
    /// The balance would go below minus the credit limit.
    Overdraft,
    /// The balance would exceed what a signed 64-bit integer holds.
    BalanceOverflow,
}

pub open spec fn blank_description() -> [char; 10] {
    spec_array_fill_for_copy_type::<char, 10>('\0')
}

pub open spec fn blank_transacao() -> Transacao {
    Transacao { value: 0, transacao_description: blank_description(), timestap: 0 }
}

pub open spec fn blank_entry() -> TransacaoExtrato {
    TransacaoExtrato { isvalid: false, value: 0, transacao_description: blank_description(), timestap: 0 }
}

pub open spec fn entry_of(t: Transacao) -> TransacaoExtrato {
    TransacaoExtrato {
        isvalid: true,
        value: t.value,
        transacao_description: t.transacao_description,
        timestap: t.timestap,
    }
}

/// Statement slot `k` for history `h`: the `k`-th transaction marked valid,
/// or a blank invalid slot past the end of the history.
pub open spec fn statement_entry(h: Seq<Transacao>, k: int) -> TransacaoExtrato {
    if k < h.len() {
        entry_of(h[k])
    } else {
        blank_entry()
    }
}

pub open spec fn i64_at(b: Seq<u8>, off: int) -> i64 {
    spec_u64_from_le_bytes(b.subrange(off, off + 8)) as i64
}

pub open spec fn u64_at(b: Seq<u8>, off: int) -> u64 {
    spec_u64_from_le_bytes(b.subrange(off, off + 8))
}

/// History slots stored in a snapshot: its count, at most six.
pub open spec fn snapshot_count(b: Seq<u8>) -> int {
    if u64_at(b, 17) < 6 {
        u64_at(b, 17) as int
    } else {
        6
    }
}

/// The bytes of `c`'s snapshot: id, limit, balance, history count, and six
/// history slots, those past the history zeroed.
pub open spec fn snapshot_bytes(c: ClientModel) -> Seq<u8> {
    seq![c.id] + i64_le(c.limite) + i64_le(c.saldo) + u64_le(c.history.len() as u64)
        + history_bytes(c.history + Seq::new((6 - c.history.len()) as nat, |i: int| blank_transacao()))
}

/// A snapshot that `load_client` takes for account `id`: the size and the
/// slots decode, it names `id`, and it keeps the account's invariant.
pub open spec fn snapshot_accepted(id: u8, b: Seq<u8>) -> bool {
    &&& ClientRaw::buffer_ok(b)
    &&& b[0] == id
    &&& i64_at(b, 1) >= 0
    &&& i64_at(b, 9) + i64_at(b, 1) >= 0
}

/// `c` is the account that snapshot `b` holds: its history is the first
/// `snapshot_count(b)` stored slots.
pub open spec fn snapshot_holds(b: Seq<u8>, c: ClientModel) -> bool {
    &&& c.id == b[0]
    &&& c.limite == i64_at(b, 1)
    &&& c.saldo == i64_at(b, 9)
    &&& c.history.len() == snapshot_count(b)
    &&& history_bytes(c.history) == b.subrange(25, 25 + 56 * c.history.len() as int)
}

#[derive(Debug)]
pub struct Client {
    pub id: u8,
    pub limite: i64,
    pub saldo: i64,
    /// Most recent first.
    pub transacoes: VecDeque<Transacao>,
}

/// Accounts are the same account when their ids are equal.
impl PartialEq for Client {
    fn eq(&self, other: &Client) -> (r: bool) {
        self.id == other.id
    }
}

impl vstd::std_specs::cmp::PartialEqSpecImpl for Client {
    open spec fn obeys_eq_spec() -> bool {
        true
    }

    open spec fn eq_spec(&self, other: &Client) -> bool {
        self.id == other.id
    }
}

impl View for Client {
    type V = ClientModel;

    open spec fn view(&self) -> ClientModel {
        ClientModel {
            id: self.id,
            limite: self.limite,
            saldo: self.saldo,
            history: self.transacoes@,
        }
    }
}

impl Client {
    /// A fresh account with no history.
    pub fn new(id: u8, limite: i64, saldo: i64) -> (c: Client)
        requires
            limite >= 0,
            saldo + limite >= 0,
        ensures
            c@ == (ClientModel { id, limite, saldo, history: Seq::empty() }),
            c@.wf(),
    {
        Client { id, limite, saldo, transacoes: VecDeque::new() }
    }

    /// Applies `transacao`. On success the balance moves by its value, it
    /// becomes the first history entry, the oldest entry leaves beyond six,
    /// and the caller is to store the account. On error nothing changes.
    pub fn push_transacao(&mut self, transacao: Transacao) -> (r: Result<TransacaoReturn, TransacaoError>)
        requires
            old(self)@.wf(),
        ensures
            r == apply_result(old(self)@, transacao),
            final(self)@ == applied(old(self)@, transacao),
            final(self)@.wf(),
    {
        let limite = self.limite;
        if (self.saldo as i128) + (transacao.value as i128) < -(limite as i128) {
            return Err(TransacaoError::Overdraft);
        }
        if (self.saldo as i128) + (transacao.value as i128) > i64::MAX as i128 {
            return Err(TransacaoError::BalanceOverflow);
        }
        self.saldo = self.saldo + transacao.value;
        let ghost before = self.transacoes@;
        if self.transacoes.len() >= 6 {
            self.transacoes.pop_back();
        }
        self.transacoes.push_front(transacao);
        assert(self.transacoes@ =~= push_history(before, transacao));
        Ok(TransacaoReturn { limite: self.limite, saldo: self.saldo })
    }

    /// The account's statement: balance, limit, the history marked valid
    /// most recent first, then blank invalid slots.
    pub fn extrato(&self) -> (r: Extrato)
        requires
            self@.wf(),
        ensures
            r.total == self.saldo,
            r.limite == self.limite,
            forall|k: int| 0 <= k < 10 ==> #[trigger] r.transacoes[k] == statement_entry(self@.history, k),
    {
        let blank = TransacaoExtrato {
            isvalid: false,
            value: 0,
            transacao_description: ['\0'; 10],
            timestap: 0,
        };
        let mut transacoes: [TransacaoExtrato; 10] = [blank; 10];
        let n = self.transacoes.len();
        let mut i: usize = 0;
        while i < n
            invariant
                n == self@.history.len(),
                n <= 6,
                i <= n,
                forall|k: int| 0 <= k < 10 ==> #[trigger] transacoes[k] == (if k < i {
                    statement_entry(self@.history, k)
                } else {
                    blank_entry()
                }),
            decreases n - i,
        {
            let t = self.transacoes[i];
            transacoes[i] = TransacaoExtrato {
                isvalid: true,
                value: t.value,
                transacao_description: t.transacao_description,
                timestap: t.timestap,
            };
            i = i + 1;
        }
        Extrato { total: self.saldo, limite: self.limite, transacoes }
    }

    /// The bytes to store for this account.
    pub fn save_client(&self) -> (r: Vec<u8>)
        requires
            self@.wf(),
        ensures
            r@ == snapshot_bytes(self@),
    {
        let blank = Transacao { value: 0, transacao_description: ['\0'; 10], timestap: 0 };
        let mut transacoes: [Transacao; 6] = [blank; 6];
        let n = self.transacoes.len();
        let ghost pad = Seq::new((6 - n) as nat, |i: int| blank_transacao());
        let mut i: usize = 0;
        while i < n
            invariant
                n == self@.history.len(),
                n <= 6,
                i <= n,
                forall|k: int| 0 <= k < 6 ==> #[trigger] transacoes[k] == (if k < i {
                    self@.history[k]
                } else {
                    blank_transacao()
                }),
            decreases n - i,
        {
            transacoes[i] = self.transacoes[i];
            i = i + 1;
        }
        assert(transacoes@ =~= self@.history + pad);
        let raw = ClientRaw {
            id: self.id,
            limite: self.limite,
            saldo: self.saldo,
            ntransacoes: n as u64,
            transacoes,
        };
        raw.to_buffer()
    }

    /// The account stored in `buffer` for account `id`, or nothing where the
    /// bytes are not a snapshot of that account (wrong size, undecodable
    /// slots, another id, or a state that breaks the account invariant).
    /// The history is cut to the stored count.
    pub fn load_client(id: u8, buffer: &[u8]) -> (r: Option<Client>)
        ensures
            r.is_some() <==> snapshot_accepted(id, buffer@),
            r matches Some(c) ==> c@.wf() && snapshot_holds(buffer@, c@),
    {
        match ClientRaw::from_buffer(buffer) {
            Err(_) => None,
            Ok(raw) => {
                let ghost b = buffer@;
                proof {
                    lemma_le_bytes();
                    lemma_history(raw.transacoes@);
                    assert(b.subrange(1, 9) =~= i64_le(raw.limite));
                    assert(b.subrange(9, 17) =~= i64_le(raw.saldo));
                    assert(b.subrange(17, 25) =~= u64_le(raw.ntransacoes));
                    assert(b.subrange(25, 361) =~= history_bytes(raw.transacoes@));
                    let (l, s) = (raw.limite, raw.saldo);
                    assert((l as u64) as i64 == l) by (bit_vector);
                    assert((s as u64) as i64 == s) by (bit_vector);
                    assert(b[0] == raw.id);
                }
                if raw.id != id || raw.limite < 0 || (raw.saldo as i128) + (raw.limite as i128) < 0 {
                    return None;
                }
                let n: usize = if raw.ntransacoes < 6 {
                    raw.ntransacoes as usize
                } else {
                    6
                };
                let mut transacoes: VecDeque<Transacao> = VecDeque::new();
                let mut i: usize = 0;
                while i < n
                    invariant
                        n <= 6,
                        i <= n,
                        transacoes@ == raw.transacoes@.take(i as int),
                    decreases n - i,
                {
                    transacoes.push_back(raw.transacoes[i]);
                    assert(raw.transacoes@.take(i + 1) =~= raw.transacoes@.take(i as int).push(raw.transacoes@[i as int]));
                    i = i + 1;
                }
                proof {
                    let all = raw.transacoes@;
                    assert(all =~= all.take(n as int) + all.skip(n as int));
                    lemma_history_append(all.take(n as int), all.skip(n as int));
                    lemma_history(all.take(n as int));
                    assert(b.subrange(25, 25 + 56 * n) =~= history_bytes(all).subrange(0, 56 * n));
                    assert(history_bytes(all.take(n as int)) =~= history_bytes(all).subrange(0, 56 * n));
                }
                Some(Client { id: raw.id, limite: raw.limite, saldo: raw.saldo, transacoes })
            },
        }
    }
}

/// Storing an account and loading the stored bytes gives the same account
/// back: the snapshot is accepted for the account's id and holds exactly
/// that account.
pub proof fn lemma_snapshot_round_trip(c: ClientModel, c2: ClientModel)
    requires
        c.wf(),
    ensures
        snapshot_accepted(c.id, snapshot_bytes(c)),
        snapshot_holds(snapshot_bytes(c), c),
        snapshot_holds(snapshot_bytes(c), c2) ==> c2 == c,
{
    lemma_le_bytes();
    let n = c.history.len() as int;
    let pad = Seq::new((6 - n) as nat, |i: int| blank_transacao());
    let full = c.history + pad;
    let b = snapshot_bytes(c);
    lemma_snapshot_layout(c.id, c.limite, c.saldo, n as u64, full);
    lemma_history(full);
    lemma_history(c.history);
    lemma_history_append(c.history, pad);
    assert(b.subrange(1, 9) =~= i64_le(c.limite));
    assert(b.subrange(9, 17) =~= i64_le(c.saldo));
    assert(b.subrange(17, 25) =~= u64_le(n as u64));
    assert(b.subrange(25, 25 + 56 * n) =~= history_bytes(c.history));
    let (l, s) = (c.limite, c.saldo);
    assert((l as u64) as i64 == l) by (bit_vector);
    assert((s as u64) as i64 == s) by (bit_vector);
    assert(b[0] == c.id);
    if snapshot_holds(b, c2) {
        assert(c2.history == c.history);
    }
}


/// Applying a transaction keeps the account invariant.
pub proof fn lemma_applied_wf(m: ClientModel, t: Transacao)
    requires
        m.wf(),
    ensures
        applied(m, t).wf(),
{
}

/// From a valid account, every run of transactions keeps
/// `balance + credit_limit >= 0` after each step, and a refused transaction
/// leaves balance and history as they were.
pub proof fn lemma_invariant_kept(m: ClientModel, txs: Seq<Transacao>)
    requires
        m.wf(),
    ensures
        forall|i: int| 0 <= i <= txs.len() ==> #[trigger] apply_all(m, txs.take(i)).wf(),
        forall|i: int|
            0 <= i < txs.len() && (#[trigger] apply_result(apply_all(m, txs.take(i)), txs[i])).is_err()
                ==> apply_all(m, txs.take(i + 1)) == apply_all(m, txs.take(i)),
    decreases txs.len(),
{
    assert forall|i: int| 0 <= i <= txs.len() implies #[trigger] apply_all(m, txs.take(i)).wf() by {
        lemma_prefix_wf(m, txs, i);
    }
    assert forall|i: int|
        0 <= i < txs.len() && (#[trigger] apply_result(apply_all(m, txs.take(i)), txs[i])).is_err()
        implies apply_all(m, txs.take(i + 1)) == apply_all(m, txs.take(i)) by {
        assert(txs.take(i + 1).drop_last() =~= txs.take(i));
    }
}

proof fn lemma_prefix_wf(m: ClientModel, txs: Seq<Transacao>, i: int)
    requires
        m.wf(),
        0 <= i <= txs.len(),
    ensures
        apply_all(m, txs.take(i)).wf(),
    decreases i,
{
    if i > 0 {
        lemma_prefix_wf(m, txs, i - 1);
        assert(txs.take(i).drop_last() =~= txs.take(i - 1));
        lemma_applied_wf(apply_all(m, txs.take(i - 1)), txs[i - 1]);
    }
}

/// The history stays within six entries, the new transaction comes first
/// and the others follow in their order; from a full history the oldest
/// entry is gone.
pub proof fn lemma_history_bound(h: Seq<Transacao>, t: Transacao)
    requires
        h.len() <= 6,
    ensures
        push_history(h, t).len() <= 6,
        push_history(h, t)[0] == t,
        forall|i: int| 0 <= i < push_history(h, t).len() - 1 ==> #[trigger] push_history(h, t)[i + 1] == h[i],
        h.len() == 6 ==> push_history(h, t) == seq![t] + h.take(5),
{
    if h.len() == 6 {
        assert(push_history(h, t) =~= seq![t] + h.take(5));
    }
}

} // verus!
