//! Request framing of the stdio protocol.
//!
//! A request is `<command> LF` followed by parameters, each written as
//! `<name> SP <length> LF <value>`. A variadic group is written as
//! `* SP <count> LF` followed by `<count>` parameters of the same form.
use vstd::prelude::*;

verus! {

pub const SPACE: u8 = 32;

pub const NEWLINE: u8 = 10;

pub const ASTERISK: u8 = 42;

pub open spec fn is_digit(b: u8) -> bool {
    48 <= b && b <= 57
}

pub open spec fn all_digits(s: Seq<u8>) -> bool {
    forall|i: int| 0 <= i < s.len() ==> is_digit(#[trigger] s[i])
}

pub open spec fn lacks(s: Seq<u8>, b: u8) -> bool {
    forall|i: int| 0 <= i < s.len() ==> #[trigger] s[i] != b
}

/// Decimal digits of `n`, most significant first, without leading zeros.
pub open spec fn decimal(n: nat) -> Seq<u8>
    decreases n,
{
    if n < 10 {
        seq![(n + 48) as u8]
    } else {
        decimal(n / 10).push((n % 10 + 48) as u8)
    }
}

/// The number that a string of decimal digits stands for.
pub open spec fn digits_value(s: Seq<u8>) -> nat
    decreases s.len(),
{
    if s.len() == 0 {
        0
    } else {
        digits_value(s.drop_last()) * 10 + (s.last() - 48) as nat
    }
}

/// A parameter as the model sees it: its name and its value.
pub type ParamModel = (Seq<u8>, Seq<u8>);

/// A named parameter carrying literal bytes.
pub struct Param {
    pub name: Vec<u8>,
    pub value: Vec<u8>,
}

impl Param {
    pub open spec fn view(&self) -> ParamModel {
        (self.name@, self.value@)
    }
}

pub open spec fn params_view(ps: Seq<Param>) -> Seq<ParamModel> {
    ps.map_values(|p: Param| p@)
}

pub open spec fn extra_view(extra: Option<&[Param]>) -> Option<Seq<ParamModel>> {
    match extra {
        Some(x) => Some(params_view(x@)),
        None => None,
    }
}

/// `<name> SP <length> LF <value>`
pub open spec fn encode_param(p: ParamModel) -> Seq<u8> {
    p.0 + seq![SPACE] + decimal(p.1.len()) + seq![NEWLINE] + p.1
}

pub open spec fn encode_params(ps: Seq<ParamModel>) -> Seq<u8>
    decreases ps.len(),
{
    if ps.len() == 0 {
        seq![]
    } else {
        encode_param(ps[0]) + encode_params(ps.drop_first())
    }
}

/// `* SP <count> LF` followed by the `count` parameters.
pub open spec fn encode_group(items: Seq<ParamModel>) -> Seq<u8> {
    seq![ASTERISK, SPACE] + decimal(items.len()) + seq![NEWLINE] + encode_params(items)
}

/// The bytes of a whole request.
pub open spec fn encode_request(
    command: Seq<u8>,
    params: Seq<ParamModel>,
    extra: Option<Seq<ParamModel>>,
) -> Seq<u8> {
    command + seq![NEWLINE] + encode_params(params) + match extra {
        Some(items) => encode_group(items),
        None => Seq::<u8>::empty(),
    }
}

/// A parameter name that the framing reserves for the variadic group.
pub open spec fn is_asterisk(name: Seq<u8>) -> bool {
    name == seq![ASTERISK]
}

pub proof fn lemma_decimal(n: nat)
    ensures
        decimal(n).len() > 0,
        all_digits(decimal(n)),
        digits_value(decimal(n)) == n,
    decreases n,
{
    if n >= 10 {
        lemma_decimal(n / 10);
        let d = decimal(n);
        assert(d.drop_last() =~= decimal(n / 10));
        assert(d.last() == (n % 10 + 48) as u8);
        assert(digits_value(d) == digits_value(decimal(n / 10)) * 10 + (n % 10) as nat);
        assert((n / 10) * 10 + n % 10 == n);
        assert forall|i: int| 0 <= i < d.len() implies is_digit(#[trigger] d[i]) by {
            if i < d.len() - 1 {
                assert(d[i] == decimal(n / 10)[i]);
            }
        }
    } else {
        let d = decimal(n);
        assert(d.drop_last() =~= Seq::<u8>::empty());
        assert(digits_value(d.drop_last()) == 0);
        assert(is_digit(d[0]));
    }
}

pub proof fn lemma_digits_lack(s: Seq<u8>)
    requires
        all_digits(s),
    ensures
        lacks(s, SPACE),
        lacks(s, NEWLINE),
{
    assert forall|i: int| 0 <= i < s.len() implies #[trigger] s[i] != SPACE by {
        assert(is_digit(s[i]));
    }
    assert forall|i: int| 0 <= i < s.len() implies #[trigger] s[i] != NEWLINE by {
        assert(is_digit(s[i]));
    }
}

pub proof fn lemma_encode_params_push(ps: Seq<ParamModel>, p: ParamModel)
    ensures
        encode_params(ps.push(p)) == encode_params(ps) + encode_param(p),
    decreases ps.len(),
{
    if ps.len() == 0 {
        assert(ps.push(p).drop_first() =~= Seq::<ParamModel>::empty());
        assert(encode_params(Seq::<ParamModel>::empty()) == Seq::<u8>::empty());
        assert(encode_param(p) + Seq::<u8>::empty() =~= encode_param(p));
        assert(Seq::<u8>::empty() + encode_param(p) =~= encode_param(p));
    } else {
        lemma_encode_params_push(ps.drop_first(), p);
        assert(ps.push(p).drop_first() =~= ps.drop_first().push(p));
        assert(ps.push(p)[0] == ps[0]);
        let a = encode_param(ps[0]);
        let b = encode_params(ps.drop_first());
        let c = encode_param(p);
        assert(a + (b + c) =~= (a + b) + c);
    }
}

/// Index of the first `b` in `s`, or -1 where there is none.
pub open spec fn find(s: Seq<u8>, b: u8) -> int
    decreases s.len(),
{
    if s.len() == 0 {
        -1
    } else if s[0] == b {
        0
    } else {
        let k = find(s.drop_first(), b);
        if k < 0 {
            -1
        } else {
            k + 1
        }
    }
}

/// Reads `<digits> LF` at the start of `s`: the number and what follows the LF.
pub open spec fn parse_count(s: Seq<u8>) -> Option<(nat, Seq<u8>)> {
    let j = find(s, NEWLINE);
    if j <= 0 || !all_digits(s.take(j)) {
        None
    } else {
        Some((digits_value(s.take(j)), s.skip(j + 1)))
    }
}

/// Reads one `<name> SP <length> LF <value>` at the start of `s`: the
/// parameter and what follows it.
pub open spec fn parse_param(s: Seq<u8>) -> Option<(ParamModel, Seq<u8>)> {
    let i = find(s, SPACE);
    if i < 0 {
        None
    } else {
        match parse_count(s.skip(i + 1)) {
            Some((n, u)) => if n <= u.len() {
                Some(((s.take(i), u.take(n as int)), u.skip(n as int)))
            } else {
                None
            },
            None => None,
        }
    }
}

/// Reads parameters up to the end of `s`.
pub open spec fn parse_params(s: Seq<u8>) -> Option<Seq<ParamModel>>
    decreases s.len(),
{
    if s.len() == 0 {
        Some(seq![])
    } else {
        match parse_param(s) {
            Some((p, r)) => if r.len() < s.len() {
                match parse_params(r) {
                    Some(ps) => Some(seq![p] + ps),
                    None => None,
                }
            } else {
                None
            },
            None => None,
        }
    }
}

/// Reads exactly `n` parameters at the start of `s`: them and what follows.
pub open spec fn parse_n_params(s: Seq<u8>, n: nat) -> Option<(Seq<ParamModel>, Seq<u8>)>
    decreases n,
{
    if n == 0 {
        Some((seq![], s))
    } else {
        match parse_param(s) {
            Some((p, r)) => match parse_n_params(r, (n - 1) as nat) {
                Some((ps, rest)) => Some((seq![p] + ps, rest)),
                None => None,
            },
            None => None,
        }
    }
}

/// Reads a variadic group at the start of `s`: its count, its parameters and
/// what follows.
pub open spec fn parse_group(s: Seq<u8>) -> Option<(nat, Seq<ParamModel>, Seq<u8>)> {
    if s.len() < 2 || s[0] != ASTERISK || s[1] != SPACE {
        None
    } else {
        match parse_count(s.skip(2)) {
            Some((n, t)) => match parse_n_params(t, n) {
                Some((ps, rest)) => Some((n, ps, rest)),
                None => None,
            },
            None => None,
        }
    }
}

/// Reads a request made of a command and named parameters only.
pub open spec fn parse_request(s: Seq<u8>) -> Option<(Seq<u8>, Seq<ParamModel>)> {
    let i = find(s, NEWLINE);
    if i < 0 {
        None
    } else {
        match parse_params(s.skip(i + 1)) {
            Some(ps) => Some((s.take(i), ps)),
            None => None,
        }
    }
}

/// A parameter that the framing can carry back: no space in its name.
pub open spec fn readable_param(p: ParamModel) -> bool {
    lacks(p.0, SPACE)
}

pub proof fn lemma_find(a: Seq<u8>, b: u8, t: Seq<u8>)
    requires
        lacks(a, b),
    ensures
        find(a + seq![b] + t, b) == a.len(),
    decreases a.len(),
{
    let s = a + seq![b] + t;
    if a.len() > 0 {
        lemma_find(a.drop_first(), b, t);
        assert(s.drop_first() =~= a.drop_first() + seq![b] + t);
        assert(s[0] == a[0]);
    } else {
        assert(s[0] == b);
    }
}

proof fn lemma_parse_count(n: nat, t: Seq<u8>)
    ensures
        parse_count(decimal(n) + seq![NEWLINE] + t) == Some((n, t)),
{
    let d = decimal(n);
    let s = d + seq![NEWLINE] + t;
    lemma_decimal(n);
    lemma_digits_lack(d);
    lemma_find(d, NEWLINE, t);
    assert(s.take(d.len() as int) =~= d);
    assert(s.skip(d.len() as int + 1) =~= t);
}

pub proof fn lemma_parse_param(p: ParamModel, rest: Seq<u8>)
    requires
        readable_param(p),
    ensures
        parse_param(encode_param(p) + rest) == Some((p, rest)),
        encode_param(p).len() > 0,
{
    let s = encode_param(p) + rest;
    let tail = decimal(p.1.len()) + seq![NEWLINE] + (p.1 + rest);
    assert(s =~= p.0 + seq![SPACE] + tail);
    lemma_find(p.0, SPACE, tail);
    assert(s.take(p.0.len() as int) =~= p.0);
    assert(s.skip(p.0.len() as int + 1) =~= tail);
    lemma_parse_count(p.1.len(), p.1 + rest);
    let u = p.1 + rest;
    assert(u.take(p.1.len() as int) =~= p.1);
    assert(u.skip(p.1.len() as int) =~= rest);
}

proof fn lemma_parse_params(ps: Seq<ParamModel>)
    requires
        forall|i: int| 0 <= i < ps.len() ==> readable_param(#[trigger] ps[i]),
    ensures
        parse_params(encode_params(ps)) == Some(ps),
    decreases ps.len(),
{
    if ps.len() > 0 {
        let tail = ps.drop_first();
        assert forall|i: int| 0 <= i < tail.len() implies readable_param(#[trigger] tail[i]) by {
            assert(tail[i] == ps[i + 1]);
        }
        lemma_parse_params(tail);
        lemma_parse_param(ps[0], encode_params(tail));
        assert(seq![ps[0]] + tail =~= ps);
    }
}

proof fn lemma_parse_n_params(ps: Seq<ParamModel>, rest: Seq<u8>)
    requires
        forall|i: int| 0 <= i < ps.len() ==> readable_param(#[trigger] ps[i]),
    ensures
        parse_n_params(encode_params(ps) + rest, ps.len()) == Some((ps, rest)),
    decreases ps.len(),
{
    if ps.len() > 0 {
        let tail = ps.drop_first();
        assert forall|i: int| 0 <= i < tail.len() implies readable_param(#[trigger] tail[i]) by {
            assert(tail[i] == ps[i + 1]);
        }
        lemma_parse_n_params(tail, rest);
        let e = encode_param(ps[0]);
        assert(encode_params(ps) + rest =~= e + (encode_params(tail) + rest));
        lemma_parse_param(ps[0], encode_params(tail) + rest);
        assert(seq![ps[0]] + tail =~= ps);
    } else {
        assert(encode_params(ps) + rest =~= rest);
    }
}

/// Framing a command and named parameters (none of them `*`, no space in a
/// name, no line feed in the command) and reading the bytes back gives the
/// same command and the same parameters, in order.
pub proof fn lemma_request_round_trip(command: Seq<u8>, params: Seq<ParamModel>)
    requires
        lacks(command, NEWLINE),
        forall|i: int| 0 <= i < params.len() ==> readable_param(#[trigger] params[i]),
        forall|i: int| 0 <= i < params.len() ==> !is_asterisk(#[trigger] params[i].0),
    ensures
        parse_request(encode_request(command, params, None)) == Some((command, params)),
{
    let s = encode_request(command, params, None);
    assert(s =~= command + seq![NEWLINE] + encode_params(params));
    lemma_find(command, NEWLINE, encode_params(params));
    assert(s.take(command.len() as int) =~= command);
    assert(s.skip(command.len() as int + 1) =~= encode_params(params));
    lemma_parse_params(params);
}

/// Framing a variadic group of parameters (no space in a name) and reading
/// it back gives its count and its parameters, and leaves what follows.
pub proof fn lemma_group_round_trip(items: Seq<ParamModel>, rest: Seq<u8>)
    requires
        forall|i: int| 0 <= i < items.len() ==> readable_param(#[trigger] items[i]),
    ensures
        parse_group(encode_group(items) + rest) == Some((items.len(), items, rest)),
{
    let s = encode_group(items) + rest;
    let body = encode_params(items) + rest;
    assert(s.skip(2) =~= decimal(items.len()) + seq![NEWLINE] + body);
    assert(s[0] == ASTERISK && s[1] == SPACE);
    lemma_parse_count(items.len(), body);
    lemma_parse_n_params(items, rest);
}

pub proof fn lemma_find_absent(s: Seq<u8>, b: u8)
    requires
        lacks(s, b),
    ensures
        find(s, b) == -1,
    decreases s.len(),
{
    if s.len() > 0 {
        assert(lacks(s.drop_first(), b)) by {
            assert forall|i: int| 0 <= i < s.len() - 1 implies #[trigger] s.drop_first()[i] != b by {
                assert(s.drop_first()[i] == s[i + 1]);
            }
        }
        lemma_find_absent(s.drop_first(), b);
    }
}

/// Index of the first `b` in `s`.
pub fn find_byte(s: &[u8], b: u8) -> (r: Option<usize>)
    ensures
        match r {
            Some(i) => i < s@.len() && find(s@, b) == i,
            None => find(s@, b) == -1,
        },
{
    let mut i: usize = 0;
    while i < s.len()
        invariant
            i <= s.len(),
            lacks(s@.take(i as int), b),
        decreases s.len() - i,
    {
        if s[i] == b {
            proof {
                lemma_find(s@.take(i as int), b, s@.skip(i as int + 1));
                assert(s@.take(i as int) + seq![b] + s@.skip(i as int + 1) =~= s@);
            }
            return Some(i);
        }
        i = i + 1;
        assert(lacks(s@.take(i as int), b)) by {
            assert forall|k: int| 0 <= k < i implies #[trigger] s@.take(i as int)[k] != b by {
                if k < i - 1 {
                    assert(s@.take(i as int)[k] == s@.take(i - 1)[k]);
                }
            }
        }
    }
    assert(s@.take(i as int) =~= s@);
    proof {
        lemma_find_absent(s@, b);
    }
    None
}

/// Appends the decimal digits of `n`.
fn push_decimal(out: &mut Vec<u8>, n: u64)
    ensures
        final(out)@ == old(out)@ + decimal(n as nat),
    decreases n,
{
    if n < 10 {
        out.push(n as u8 + 48);
        assert(final(out)@ =~= old(out)@ + decimal(n as nat));
    } else {
        push_decimal(out, n / 10);
        out.push((n % 10) as u8 + 48);
        assert(final(out)@ =~= old(out)@ + decimal(n as nat));
    }
}

/// The decimal digits of `n`.
pub fn decimal_bytes(n: u64) -> (r: Vec<u8>)
    ensures
        r@ == decimal(n as nat),
{
    let mut out: Vec<u8> = Vec::new();
    push_decimal(&mut out, n);
    assert(out@ =~= decimal(n as nat));
    out
}

fn push_bytes(out: &mut Vec<u8>, b: &[u8])
    ensures
        final(out)@ == old(out)@ + b@,
{
    let mut i: usize = 0;
    while i < b.len()
        invariant
            i <= b.len(),
            out@ == old(out)@ + b@.take(i as int),
        decreases b.len() - i,
    {
        out.push(b[i]);
        i = i + 1;
        assert(out@ =~= old(out)@ + b@.take(i as int));
    }
    assert(b@.take(i as int) =~= b@);
}

fn push_param(out: &mut Vec<u8>, p: &Param)
    ensures
        final(out)@ == old(out)@ + encode_param(p@),
{
    push_bytes(out, p.name.as_slice());
    out.push(SPACE);
    push_decimal(out, p.value.len() as u64);
    out.push(NEWLINE);
    push_bytes(out, p.value.as_slice());
    assert(final(out)@ =~= old(out)@ + encode_param(p@));
}

fn push_params(out: &mut Vec<u8>, params: &[Param])
    ensures
        final(out)@ == old(out)@ + encode_params(params_view(params@)),
{
    let mut i: usize = 0;
    while i < params.len()
        invariant
            i <= params.len(),
            out@ == old(out)@ + encode_params(params_view(params@.take(i as int))),
        decreases params.len() - i,
    {
        proof {
            assert(params_view(params@.take(i as int + 1)) =~= params_view(
                params@.take(i as int),
            ).push(params@[i as int]@));
            lemma_encode_params_push(params_view(params@.take(i as int)), params@[i as int]@);
        }
        push_param(out, &params[i]);
        i = i + 1;
        assert(out@ =~= old(out)@ + encode_params(params_view(params@.take(i as int))));
    }
    assert(params@.take(i as int) =~= params@);
}

/// Frames a request: the command, its named parameters and, where given, a
/// variadic group. A named parameter may not be called `*`: that name is the
/// group's marker.
pub fn encode_command(command: &[u8], params: &[Param], extra: Option<&[Param]>) -> (r: Vec<u8>)
    requires
        forall|i: int| 0 <= i < params@.len() ==> !is_asterisk(#[trigger] params@[i].name@),
    ensures
        r@ == encode_request(command@, params_view(params@), extra_view(extra)),
{
    let mut out: Vec<u8> = Vec::new();
    push_bytes(&mut out, command);
    out.push(NEWLINE);
    push_params(&mut out, params);
    match extra {
        Some(items) => {
            out.push(ASTERISK);
            out.push(SPACE);
            push_decimal(&mut out, items.len() as u64);
            out.push(NEWLINE);
            push_params(&mut out, items);
            assert(params_view(items@).len() == items@.len());
        },
        None => {},
    }
    assert(out@ =~= encode_request(command@, params_view(params@), extra_view(extra)));
    out
}

/// The request that ends a session: an empty command with no parameters.
pub fn goodbye_request() -> (r: Vec<u8>)
    ensures
        r@ == encode_request(seq![], seq![], None),
        r@ == seq![NEWLINE],
{
    let empty: Vec<u8> = Vec::new();
    let none: Vec<Param> = Vec::new();
    let r = encode_command(empty.as_slice(), none.as_slice(), None);
    assert(params_view(none@) =~= Seq::<ParamModel>::empty());
    assert(empty@ =~= Seq::<u8>::empty());
    assert(r@ =~= seq![NEWLINE]);
    r
}

} // verus!
