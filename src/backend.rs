//! The caller's side of the protocol: building requests from the fields of
//! an HTTP request, reading the service's replies, and turning a statement
//! into the rows shown to a person.
use vstd::prelude::*;
use crate::codec::{Converter, MalformedRecord};
use crate::records::{Extrato, Operation, OperationKind, Transacao, TransacaoExtrato, TransacaoReturn};

verus! {

/// Attempts made at opening a channel to the service before giving up.
pub const CONNECT_ATTEMPTS: u32 = 3;

/// Whether another attempt at opening a channel is due after `failures`
/// failed ones.
pub fn retry_connect(failures: u32) -> (r: bool)
    ensures
        r == (failures < CONNECT_ATTEMPTS),
{
    failures < CONNECT_ATTEMPTS
}

/// Why the fields of a transaction request were refused.
#[derive(Clone, Copy, Debug, PartialEq, Eq)]
pub enum RequestError {
    /// The description has more than ten characters.
    DescriptionTooLong,
    /// The kind has more than one character.
    TipoTooLong,
    /// The kind is neither `d` nor `c`.
    InvalidTipo,
}

/// The signed value of a transaction of kind `tipo` (`d` debit, `c` credit).
pub open spec fn signed_value(tipo: char, valor: u32) -> int {
    if tipo == 'd' {
        -(valor as int)
    } else {
        valor as int
    }
}

/// Ten description slots holding `d` and then `'\0'`.
pub open spec fn padded(d: Seq<char>) -> Seq<char> {
    d + Seq::new((10 - d.len()) as nat, |i: int| '\0')
}

/// The transaction request for account `id` with amount `valor`, kind
/// `tipo` and description `descricao`, stamped with `timestamp` seconds.
pub fn build_transacao(id: u8, valor: u32, tipo: &[char], descricao: &[char], timestamp: u64) -> (r: Result<
    Operation,
    RequestError,
>)
    ensures
        descricao@.len() > 10 ==> r == Err::<Operation, RequestError>(RequestError::DescriptionTooLong),
        descricao@.len() <= 10 && tipo@.len() > 1 ==> r == Err::<Operation, RequestError>(
            RequestError::TipoTooLong),
        descricao@.len() <= 10 && tipo@.len() <= 1 && tipo@ != seq!['d'] && tipo@ != seq!['c'] ==> r
            == Err::<Operation, RequestError>(RequestError::InvalidTipo),
        r is Ok <==> descricao@.len() <= 10 && (tipo@ == seq!['d'] || tipo@ == seq!['c']),
        r matches Ok(op) ==> op.kind == OperationKind::Transacao && op.id == id && op.transacao.value
            == signed_value(tipo@[0], valor) && op.transacao.transacao_description@ == padded(descricao@)
            && op.transacao.timestap == timestamp,
{
    if descricao.len() > 10 {
        return Err(RequestError::DescriptionTooLong);
    }
    if tipo.len() > 1 {
        return Err(RequestError::TipoTooLong);
    }
    if tipo.len() == 0 {
        return Err(RequestError::InvalidTipo);
    }
    assert(tipo@ =~= seq![tipo@[0]]);
    let value: i64 = if tipo[0] == 'd' {
        -(valor as i64)
    } else if tipo[0] == 'c' {
        valor as i64
    } else {
        return Err(RequestError::InvalidTipo);
    };
    let mut d: [char; 10] = ['\0'; 10];
    let mut i: usize = 0;
    while i < descricao.len()
        invariant
            descricao@.len() <= 10,
            i <= descricao@.len(),
            forall|k: int| 0 <= k < 10 ==> #[trigger] d[k] == (if k < i {
                descricao@[k]
            } else {
                '\0'
            }),
        decreases descricao@.len() - i,
    {
        d[i] = descricao[i];
        i = i + 1;
    }
    assert(d@ =~= padded(descricao@));
    Ok(Operation {
        kind: OperationKind::Transacao,
        id,
        transacao: Transacao { value, transacao_description: d, timestap: timestamp },
    })
}

/// The statement request for account `id`; its transaction is zeroed.
pub fn build_extrato(id: u8) -> (r: Operation)
    ensures
        r.kind == OperationKind::Extrato,
        r.id == id,
        r.transacao.value == 0,
        r.transacao.timestap == 0,
        forall|k: int| 0 <= k < 10 ==> #[trigger] r.transacao.transacao_description[k] == '\0',
{
    Operation {
        kind: OperationKind::Extrato,
        id,
        transacao: Transacao { value: 0, transacao_description: ['\0'; 10], timestap: 0 },
    }
}

/// What a reply of the service said, where it was not a record.
#[derive(Clone, Copy, Debug, PartialEq, Eq)]
pub enum ReplyError {
    /// The one-byte error reply: the service refused the request.
    Refused,
    /// A reply of no size the protocol has, or one that does not decode.
    Invalid,
}

/// Reads the reply to a transaction request.
pub fn read_transacao_reply(b: &[u8]) -> (r: Result<TransacaoReturn, ReplyError>)
    ensures
        b@.len() == 1 ==> r == Err::<TransacaoReturn, ReplyError>(ReplyError::Refused),
        b@.len() != 1 && b@.len() != 16 ==> r == Err::<TransacaoReturn, ReplyError>(ReplyError::Invalid),
        b@.len() == 16 <==> r is Ok,
        r matches Ok(v) ==> v.spec_buffer() == b@,
{
    if b.len() == 1 {
        return Err(ReplyError::Refused);
    }
    match TransacaoReturn::from_buffer(b) {
        Ok(v) => Ok(v),
        Err(MalformedRecord) => Err(ReplyError::Invalid),
    }
}

/// Reads the reply to a statement request.
pub fn read_extrato_reply(b: &[u8]) -> (r: Result<Extrato, ReplyError>)
    ensures
        b@.len() == 1 ==> r == Err::<Extrato, ReplyError>(ReplyError::Refused),
        b@.len() != 1 && !Extrato::buffer_ok(b@) ==> r == Err::<Extrato, ReplyError>(ReplyError::Invalid),
        r is Ok <==> Extrato::buffer_ok(b@),
        r matches Ok(v) ==> v.spec_buffer() == b@,
{
    if b.len() == 1 {
        return Err(ReplyError::Refused);
    }
    match Extrato::from_buffer(b) {
        Ok(v) => Ok(v),
        Err(MalformedRecord) => Err(ReplyError::Invalid),
    }
}

/// The text held by description slots: the slots before the first `'\0'`.
pub open spec fn text_of(d: Seq<char>) -> Seq<char>
    decreases d.len(),
{
    if d.len() == 0 || d[0] == '\0' {
        Seq::empty()
    } else {
        seq![d[0]] + text_of(d.drop_first())
    }
}

proof fn lemma_text_of(d: Seq<char>, n: int)
    requires
        0 <= n <= d.len(),
        forall|j: int| 0 <= j < n ==> d[j] != '\0',
        n == d.len() || d[n] == '\0',
    ensures
        text_of(d) == d.take(n),
    decreases n,
{
    if n == 0 {
        assert(d.take(0) =~= Seq::<char>::empty());
    } else {
        let t = d.drop_first();
        assert forall|j: int| 0 <= j < n - 1 implies t[j] != '\0' by {
            assert(d[j + 1] != '\0');
        }
        lemma_text_of(t, n - 1);
        assert(d.take(n) =~= seq![d[0]] + t.take(n - 1));
    }
}

/// The text of a description.
pub fn description_text(d: &[char; 10]) -> (r: Vec<char>)
    ensures
        r@ == text_of(d@),
{
    let mut out: Vec<char> = Vec::new();
    let mut i: usize = 0;
    while i < 10 && d[i] != '\0'
        invariant
            i <= 10,
            d@.len() == 10,
            out@ == d@.take(i as int),
            forall|j: int| 0 <= j < i ==> d@[j] != '\0',
        decreases 10 - i,
    {
        out.push(d[i]);
        i = i + 1;
        assert(d@.take(i as int) =~= d@.take(i - 1).push(d@[i - 1]));
    }
    proof {
        lemma_text_of(d@, i as int);
    }
    out
}

/// One statement row as shown to a person.
#[derive(Debug, PartialEq, Eq)]
pub struct StatementRow {
    /// The amount, without its sign.
    pub valor: u64,
    /// `d` for a debit, `c` for a credit.
    pub tipo: char,
    pub descricao: Vec<char>,
}

pub ghost struct RowModel {
    pub valor: nat,
    pub tipo: char,
    pub descricao: Seq<char>,
}

impl View for StatementRow {
    type V = RowModel;

    open spec fn view(&self) -> RowModel {
        RowModel { valor: self.valor as nat, tipo: self.tipo, descricao: self.descricao@ }
    }
}

pub open spec fn row_of(e: TransacaoExtrato) -> RowModel {
    RowModel {
        valor: if e.value < 0 { (-e.value) as nat } else { e.value as nat },
        tipo: if e.value < 0 { 'd' } else { 'c' },
        descricao: text_of(e.transacao_description@),
    }
}

/// The rows of the valid entries of `s`, in order; invalid entries give none.
pub open spec fn rows_of(s: Seq<TransacaoExtrato>) -> Seq<RowModel>
    decreases s.len(),
{
    if s.len() == 0 {
        Seq::empty()
    } else if s.last().isvalid {
        rows_of(s.drop_last()).push(row_of(s.last()))
    } else {
        rows_of(s.drop_last())
    }
}

/// The rows of a statement: one per valid entry, most recent first.
pub fn statement_rows(x: &Extrato) -> (r: Vec<StatementRow>)
    ensures
        r@.map_values(|row: StatementRow| row@) == rows_of(x.transacoes@),
{
    let mut out: Vec<StatementRow> = Vec::new();
    let mut i: usize = 0;
    while i < 10
        invariant
            i <= 10,
            x.transacoes@.len() == 10,
            out@.map_values(|row: StatementRow| row@) == rows_of(x.transacoes@.take(i as int)),
        decreases 10 - i,
    {
        let e = x.transacoes[i];
        let ghost prev = out@.map_values(|row: StatementRow| row@);
        proof {
            assert(x.transacoes@.take(i + 1).drop_last() =~= x.transacoes@.take(i as int));
            assert(x.transacoes@.take(i + 1).last() == e);
        }
        if e.isvalid {
            let valor: u64 = if e.value < 0 {
                (-(e.value as i128)) as u64
            } else {
                e.value as u64
            };
            let tipo = if e.value < 0 {
                'd'
            } else {
                'c'
            };
            let descricao = description_text(&e.transacao_description);
            let row = StatementRow { valor, tipo, descricao };
            out.push(row);
            assert(out@.map_values(|row: StatementRow| row@) =~= prev.push(row_of(e)));
        }
        i = i + 1;
    }
    assert(x.transacoes@.take(10) =~= x.transacoes@);
    out
}

/// The rows of a statement depend on its valid entries only: whatever the
/// invalid entries hold, they are ignored.
pub proof fn lemma_invalid_entries_ignored(s1: Seq<TransacaoExtrato>, s2: Seq<TransacaoExtrato>)
    requires
        s1.len() == s2.len(),
        forall|k: int| 0 <= k < s1.len() ==> (#[trigger] s1[k]).isvalid == s2[k].isvalid,
        forall|k: int| 0 <= k < s1.len() && (#[trigger] s1[k]).isvalid ==> s1[k] == s2[k],
    ensures
        rows_of(s1) == rows_of(s2),
    decreases s1.len(),
{
    if s1.len() > 0 {
        let (init1, init2) = (s1.drop_last(), s2.drop_last());
        assert forall|k: int| 0 <= k < init1.len() implies (#[trigger] init1[k]).isvalid == init2[k].isvalid by {
            assert(s1[k].isvalid == s2[k].isvalid);
        }
        assert forall|k: int| 0 <= k < init1.len() && (#[trigger] init1[k]).isvalid implies init1[k] == init2[k] by {
            assert(s1[k].isvalid);
        }
        lemma_invalid_entries_ignored(init1, init2);
        assert(s1.last().isvalid == s2.last().isvalid);
    }
}

} // verus!
