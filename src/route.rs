//! Routing of an HTTP request line: `/clientes/{id}/transacoes` (POST) and
//! `/clientes/{id}/extrato` (GET).
use vstd::prelude::*;

verus! {

/// What a request asks for, with the account id.
#[derive(Clone, Copy, Debug, PartialEq, Eq)]
pub enum Route {
    Transacao(u8),
    Extrato(u8),
}

/// Why a request line was not routed.
#[derive(Clone, Copy, Debug, PartialEq, Eq)]
pub enum RouteError {
    /// The path is not `/clientes/{id}/{resource}`.
    InvalidPath,
    /// The id is not a number from 0 to 255.
    InvalidId,
    /// The id is 6 or more.
    IdTooLarge,
    /// The method is neither GET nor POST.
    MethodNotAllowed,
    /// The method does not fit the resource.
    WrongMethod,
    /// The resource is neither `transacoes` nor `extrato`.
    InvalidResource,
}

/// Index of the first `/` at or after `from`, or the length when there is none.
pub open spec fn find_slash(p: Seq<char>, from: int) -> int
    decreases p.len() - from,
{
    if from >= p.len() {
        p.len() as int
    } else if p[from] == '/' {
        from
    } else {
        find_slash(p, from + 1)
    }
}

pub open spec fn is_digit(c: char) -> bool {
    '0' <= c && c <= '9'
}

/// The number written by decimal digits `s`.
pub open spec fn digits_value(s: Seq<char>) -> nat
    decreases s.len(),
{
    if s.len() == 0 {
        0
    } else {
        10 * digits_value(s.drop_last()) + (s.last() as nat - '0' as nat) as nat
    }
}

pub open spec fn all_digits(d: Seq<char>) -> bool {
    forall|i: int| 0 <= i < d.len() ==> #[trigger] is_digit(d[i])
}

/// `s` without one leading `+`.
pub open spec fn unsigned_part(s: Seq<char>) -> Seq<char> {
    if s.len() > 0 && s[0] == '+' {
        s.drop_first()
    } else {
        s
    }
}

/// A `u8` written in decimal, with an optional leading `+`.
pub open spec fn parse_u8(s: Seq<char>) -> Option<u8> {
    let d = unsigned_part(s);
    if d.len() > 0 && all_digits(d) && digits_value(d) <= 255 {
        Some(digits_value(d) as u8)
    } else {
        None
    }
}

pub open spec fn clientes() -> Seq<char> {
    seq!['c', 'l', 'i', 'e', 'n', 't', 'e', 's']
}

pub open spec fn transacoes() -> Seq<char> {
    seq!['t', 'r', 'a', 'n', 's', 'a', 'c', 'o', 'e', 's']
}

pub open spec fn extrato() -> Seq<char> {
    seq!['e', 'x', 't', 'r', 'a', 't', 'o']
}

/// Where a request with `method` and `path` goes. The path splits at `/`;
/// the part before the first `/` and the parts after the fourth are
/// ignored.
pub open spec fn route_of(method: Option<Seq<char>>, p: Seq<char>) -> Result<Route, RouteError> {
    let a = find_slash(p, 0);
    let b = find_slash(p, a + 1);
    let c = find_slash(p, b + 1);
    let d = find_slash(p, c + 1);
    if a >= p.len() || b >= p.len() || c >= p.len() || p.subrange(a + 1, b) != clientes() {
        Err(RouteError::InvalidPath)
    } else {
        let resource = p.subrange(c + 1, d);
        match parse_u8(p.subrange(b + 1, c)) {
            None => Err(RouteError::InvalidId),
            Some(id) => if id >= 6 {
                Err(RouteError::IdTooLarge)
            } else if method != Some(seq!['G', 'E', 'T']) && method != Some(seq!['P', 'O', 'S', 'T']) {
                Err(RouteError::MethodNotAllowed)
            } else if resource == transacoes() {
                if method == Some(seq!['P', 'O', 'S', 'T']) {
                    Ok(Route::Transacao(id))
                } else {
                    Err(RouteError::WrongMethod)
                }
            } else if resource == extrato() {
                if method == Some(seq!['G', 'E', 'T']) {
                    Ok(Route::Extrato(id))
                } else {
                    Err(RouteError::WrongMethod)
                }
            } else {
                Err(RouteError::InvalidResource)
            },
        }
    }
}

fn find_slash_exec(p: &[char], from: usize) -> (r: usize)
    requires
        from <= p@.len(),
    ensures
        r == find_slash(p@, from as int),
        from <= r <= p@.len(),
{
    let mut i = from;
    while i < p.len() && p[i] != '/'
        invariant
            from <= i <= p@.len(),
            find_slash(p@, i as int) == find_slash(p@, from as int),
        decreases p@.len() - i,
    {
        i = i + 1;
    }
    i
}

/// Whether `p[from..to]` is `w`.
fn segment_is(p: &[char], from: usize, to: usize, w: &[char]) -> (r: bool)
    requires
        from <= to <= p@.len(),
    ensures
        r == (p@.subrange(from as int, to as int) == w@),
{
    if to - from != w.len() {
        return false;
    }
    let mut i: usize = 0;
    while i < w.len()
        invariant
            to - from == w@.len(),
            from <= to <= p@.len(),
            i <= w@.len(),
            forall|k: int| 0 <= k < i ==> p@[from + k] == w@[k],
        decreases w@.len() - i,
    {
        if p[from + i] != w[i] {
            assert(p@.subrange(from as int, to as int)[i as int] != w@[i as int]);
            return false;
        }
        i = i + 1;
    }
    assert(p@.subrange(from as int, to as int) =~= w@);
    true
}

proof fn lemma_digits_monotone(s: Seq<char>, i: int)
    requires
        0 <= i <= s.len(),
        forall|k: int| 0 <= k < s.len() ==> #[trigger] is_digit(s[k]),
    ensures
        digits_value(s.take(i)) <= digits_value(s),
    decreases s.len() - i,
{
    if i < s.len() {
        lemma_digits_monotone(s, i + 1);
        assert(s.take(i + 1).drop_last() =~= s.take(i));
    } else {
        assert(s.take(i) =~= s);
    }
}

/// Parses `s[from..to]` as a `u8` the way `str::parse::<u8>` does.
fn parse_u8_exec(s: &[char], from: usize, to: usize) -> (r: Option<u8>)
    requires
        from <= to <= s@.len(),
    ensures
        r == parse_u8(s@.subrange(from as int, to as int)),
{
    let ghost seg = s@.subrange(from as int, to as int);
    let start = if from < to && s[from] == '+' {
        from + 1
    } else {
        from
    };
    let ghost d = s@.subrange(start as int, to as int);
    assert(d =~= unsigned_part(seg));
    if start == to {
        return None;
    }
    let mut v: u32 = 0;
    let mut i = start;
    while i < to
        invariant
            from <= start <= i <= to <= s@.len(),
            d == s@.subrange(start as int, to as int),
            seg == s@.subrange(from as int, to as int),
            d == unsigned_part(seg),
            d.len() > 0,
            forall|k: int| 0 <= k < i - start ==> #[trigger] is_digit(d[k]),
            v as nat == digits_value(d.take(i - start)),
            v <= 255,
        decreases to - i,
    {
        let c = s[i];
        if !('0' <= c && c <= '9') {
            proof {
                let k = i - start;
                assert(!is_digit(d[k as int]));
                assert(!all_digits(d));
            }
            return None;
        }
        v = v * 10 + (c as u32 - '0' as u32);
        proof {
            assert(d.take(i - start + 1).drop_last() =~= d.take(i - start));
            assert(d.take(i - start + 1).last() == c);
        }
        i = i + 1;
        if v > 255 {
            proof {
                if all_digits(d) {
                    lemma_digits_monotone(d, i - start);
                    assert(digits_value(d) > 255);
                }
            }
            return None;
        }
    }
    assert(d.take(to - start) =~= d);
    Some(v as u8)
}

/// Routes a request with `method` (`None` where the request had none) and
/// `path`.
pub fn route(method: Option<&[char]>, path: &[char]) -> (r: Result<Route, RouteError>)
    ensures
        r == route_of(
            match method {
                Some(m) => Some(m@),
                None => None,
            },
            path@,
        ),
{
    let ghost m = match method {
        Some(m) => Some(m@),
        None => None::<Seq<char>>,
    };
    let a = find_slash_exec(path, 0);
    if a >= path.len() {
        return Err(RouteError::InvalidPath);
    }
    let b = find_slash_exec(path, a + 1);
    if b >= path.len() {
        return Err(RouteError::InvalidPath);
    }
    let c = find_slash_exec(path, b + 1);
    if c >= path.len() {
        return Err(RouteError::InvalidPath);
    }
    let d = find_slash_exec(path, c + 1);
    let clientes_w = ['c', 'l', 'i', 'e', 'n', 't', 'e', 's'];
    assert(clientes_w@ =~= clientes());
    if !segment_is(path, a + 1, b, clientes_w.as_slice()) {
        return Err(RouteError::InvalidPath);
    }
    let id = match parse_u8_exec(path, b + 1, c) {
        None => {
            return Err(RouteError::InvalidId);
        },
        Some(id) => id,
    };
    if id >= 6 {
        return Err(RouteError::IdTooLarge);
    }
    let get_w = ['G', 'E', 'T'];
    let post_w = ['P', 'O', 'S', 'T'];
    assert(get_w@ =~= seq!['G', 'E', 'T']);
    assert(post_w@ =~= seq!['P', 'O', 'S', 'T']);
    let (is_get, is_post) = match method {
        Some(mm) => (segment_is(mm, 0, mm.len(), get_w.as_slice()), segment_is(mm, 0, mm.len(), post_w.as_slice())),
        None => (false, false),
    };
    proof {
        if let Some(mm) = method {
            assert(mm@.subrange(0, mm@.len() as int) =~= mm@);
        }
    }
    assert(is_get == (m == Some(seq!['G', 'E', 'T'])));
    assert(is_post == (m == Some(seq!['P', 'O', 'S', 'T'])));
    if !is_get && !is_post {
        return Err(RouteError::MethodNotAllowed);
    }
    let transacoes_w = ['t', 'r', 'a', 'n', 's', 'a', 'c', 'o', 'e', 's'];
    let extrato_w = ['e', 'x', 't', 'r', 'a', 't', 'o'];
    assert(transacoes_w@ =~= transacoes());
    assert(extrato_w@ =~= extrato());
    if segment_is(path, c + 1, d, transacoes_w.as_slice()) {
        if is_post {
            Ok(Route::Transacao(id))
        } else {
            Err(RouteError::WrongMethod)
        }
    } else if segment_is(path, c + 1, d, extrato_w.as_slice()) {
        if is_get {
            Ok(Route::Extrato(id))
        } else {
            Err(RouteError::WrongMethod)
        }
    } else {
        Err(RouteError::InvalidResource)
    }
}

} // verus!
