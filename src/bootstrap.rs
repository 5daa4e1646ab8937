//! Capability discovery at the start of a connection.
//!
//! The client sends `capabilities` and, right behind it, `between` with a
//! pair of null hashes. Servers too old to know `capabilities` ignore it and
//! answer `between` alone, with a single line feed; others answer both, the
//! first reply holding the capability list.
use vstd::prelude::*;
use crate::response::{frame, lemma_frame_round_trip, read_response, response_of, ResponseError};
use crate::wire::{encode_command, encode_request, extra_view, params_view, Param, ParamModel, NEWLINE};

verus! {

pub open spec fn is_space(b: u8) -> bool {
    b == 32 || b == 9 || b == 10 || b == 12 || b == 13
}

/// Splits `s` on white space, left to right: `cur` is the token being read
/// and `acc` the tokens read before it.
pub open spec fn split_from(s: Seq<u8>, cur: Seq<u8>, acc: Seq<Seq<u8>>) -> Seq<Seq<u8>>
    decreases s.len(),
{
    let closed = if cur.len() > 0 {
        acc.push(cur)
    } else {
        acc
    };
    if s.len() == 0 {
        closed
    } else if is_space(s[0]) {
        split_from(s.drop_first(), seq![], closed)
    } else {
        split_from(s.drop_first(), cur.push(s[0]), acc)
    }
}

/// The white-space separated tokens of `s`, in order.
pub open spec fn tokens(s: Seq<u8>) -> Seq<Seq<u8>> {
    split_from(s, seq![], seq![])
}

pub open spec fn vecs_view(v: Seq<Vec<u8>>) -> Seq<Seq<u8>> {
    v.map_values(|x: Vec<u8>| x@)
}

/// The white-space separated tokens of a capability reply.
pub fn split_capabilities(s: &[u8]) -> (r: Vec<Vec<u8>>)
    ensures
        vecs_view(r@) == tokens(s@),
{
    let mut acc: Vec<Vec<u8>> = Vec::new();
    let mut cur: Vec<u8> = Vec::new();
    let mut i: usize = 0;
    assert(s@.skip(0) =~= s@);
    assert(vecs_view(acc@) =~= Seq::<Seq<u8>>::empty());
    assert(cur@ =~= Seq::<u8>::empty());
    while i < s.len()
        invariant
            i <= s.len(),
            split_from(s@.skip(i as int), cur@, vecs_view(acc@)) == tokens(s@),
        decreases s.len() - i,
    {
        let b = s[i];
        assert(s@.skip(i as int).drop_first() =~= s@.skip(i as int + 1));
        if b == 32 || b == 9 || b == 10 || b == 12 || b == 13 {
            if cur.len() > 0 {
                let mut done: Vec<u8> = Vec::new();
                core::mem::swap(&mut done, &mut cur);
                let ghost before = vecs_view(acc@);
                acc.push(done);
                assert(vecs_view(acc@) =~= before.push(done@));
            }
            assert(cur@ =~= Seq::<u8>::empty());
        } else {
            cur.push(b);
        }
        i = i + 1;
    }
    let ghost before = vecs_view(acc@);
    if cur.len() > 0 {
        acc.push(cur);
        assert(vecs_view(acc@) =~= before.push(cur@));
    }
    acc
}

/// `capabilities`
pub open spec fn capabilities_command() -> Seq<u8> {
    seq![99u8, 97u8, 112u8, 97u8, 98u8, 105u8, 108u8, 105u8, 116u8, 105u8, 101u8, 115u8]
}

/// `between`
pub open spec fn between_command() -> Seq<u8> {
    seq![98u8, 101u8, 116u8, 119u8, 101u8, 101u8, 110u8]
}

/// `pairs`
pub open spec fn pairs_name() -> Seq<u8> {
    seq![112u8, 97u8, 105u8, 114u8, 115u8]
}

/// Two null hashes, forty zeros each, joined by `-`.
pub open spec fn null_pairs() -> Seq<u8> {
    Seq::new(40, |i: int| 48u8) + seq![45u8] + Seq::new(40, |i: int| 48u8)
}

/// The two requests that open a connection, sent back to back.
pub open spec fn bootstrap_request_spec() -> Seq<u8> {
    encode_request(capabilities_command(), seq![], None) + encode_request(
        between_command(),
        seq![(pairs_name(), null_pairs())],
        None,
    )
}

fn null_pairs_bytes() -> (r: Vec<u8>)
    ensures
        r@ == null_pairs(),
{
    let mut r: Vec<u8> = Vec::new();
    let mut i: usize = 0;
    while i < 81
        invariant
            i <= 81,
            r@.len() == i,
            forall|k: int| 0 <= k < i ==> #[trigger] r@[k] == null_pairs()[k],
        decreases 81 - i,
    {
        if i == 40 {
            r.push(45);
        } else {
            r.push(48);
        }
        i = i + 1;
    }
    assert(r@ =~= null_pairs());
    r
}

pub fn bootstrap_request() -> (r: Vec<u8>)
    ensures
        r@ == bootstrap_request_spec(),
{
    let none: Vec<Param> = Vec::new();
    let caps_name: Vec<u8> = vec![99u8, 97u8, 112u8, 97u8, 98u8, 105u8, 108u8, 105u8, 116u8, 105u8, 101u8, 115u8];
    let between_name: Vec<u8> = vec![98u8, 101u8, 116u8, 119u8, 101u8, 101u8, 110u8];
    let pairs = Param { name: vec![112u8, 97u8, 105u8, 114u8, 115u8], value: null_pairs_bytes() };
    let params: Vec<Param> = vec![pairs];
    assert(caps_name@ =~= capabilities_command());
    assert(between_name@ =~= between_command());
    assert(params@[0].name@ =~= pairs_name());
    let mut r = encode_command(caps_name.as_slice(), none.as_slice(), None);
    let mut second = encode_command(between_name.as_slice(), params.as_slice(), None);
    assert(params_view(none@) =~= Seq::<ParamModel>::empty());
    assert(params_view(params@) =~= seq![(pairs_name(), null_pairs())]);
    r.append(&mut second);
    r
}

/// What the first bootstrap reply says: the capabilities, and whether the
/// reply to `between` is still to be read.
pub open spec fn first_reply_spec(first: Seq<u8>) -> (Seq<Seq<u8>>, bool) {
    if first == seq![NEWLINE] {
        (seq![], false)
    } else {
        (tokens(first), true)
    }
}

pub fn first_reply(first: &[u8]) -> (r: (Vec<Vec<u8>>, bool))
    ensures
        (vecs_view(r.0@), r.1) == first_reply_spec(first@),
{
    if first.len() == 1 && first[0] == NEWLINE {
        assert(first@ =~= seq![NEWLINE]);
        let none: Vec<Vec<u8>> = Vec::new();
        assert(vecs_view(none@) =~= Seq::<Seq<u8>>::empty());
        (none, false)
    } else {
        assert(first@ != seq![NEWLINE] || first@.len() == 1);
        (split_capabilities(first), true)
    }
}

/// The outcome of the bootstrap on the server's output `s`: the
/// capabilities, and how many bytes of `s` the replies took up.
pub open spec fn bootstrap_of(s: Seq<u8>) -> Result<(Seq<Seq<u8>>, nat), ResponseError> {
    match response_of(s) {
        Err(e) => Err(e),
        Ok((first, used)) => {
            let (caps, pending) = first_reply_spec(first);
            if !pending {
                Ok((caps, used))
            } else {
                match response_of(s.skip(used as int)) {
                    Err(e) => Err(e),
                    Ok((_, more)) => Ok((caps, used + more)),
                }
            }
        },
    }
}

/// Reads the bootstrap replies from the server's output: the capabilities,
/// and how many bytes the replies took up, the reply to `between` included.
pub fn read_capabilities(output: &[u8]) -> (r: Result<(Vec<Vec<u8>>, usize), ResponseError>)
    ensures
        match r {
            Ok((caps, used)) => bootstrap_of(output@) == Ok::<(Seq<Seq<u8>>, nat), ResponseError>(
                (vecs_view(caps@), used as nat),
            ),
            Err(e) => bootstrap_of(output@) == Err::<(Seq<Seq<u8>>, nat), ResponseError>(e),
        },
{
    let (first, used) = match read_response(output) {
        Ok(x) => x,
        Err(e) => return Err(e),
    };
    let (caps, pending) = first_reply(first.as_slice());
    if !pending {
        return Ok((caps, used));
    }
    let rest = vstd::slice::slice_subrange(output, used, output.len());
    assert(rest@ =~= output@.skip(used as int));
    match read_response(rest) {
        Ok((_, more)) => Ok((caps, used + more)),
        Err(e) => Err(e),
    }
}

/// A server that knows `capabilities` answers it with its capability list
/// and then answers `between`: the bootstrap yields the tokens of the list
/// and takes up both replies, leaving what follows unread.
pub proof fn lemma_bootstrap_reads_both(caps: Seq<u8>, between: Seq<u8>, rest: Seq<u8>)
    requires
        caps != seq![NEWLINE],
        caps.len() <= usize::MAX,
        between.len() <= usize::MAX,
    ensures
        bootstrap_of(frame(caps) + frame(between) + rest) == Ok::<(Seq<Seq<u8>>, nat), ResponseError>(
            (tokens(caps), frame(caps).len() + frame(between).len()),
        ),
{
    let s = frame(caps) + frame(between) + rest;
    assert(s =~= frame(caps) + (frame(between) + rest));
    lemma_frame_round_trip(caps, frame(between) + rest);
    assert(s.skip(frame(caps).len() as int) =~= frame(between) + rest);
    lemma_frame_round_trip(between, rest);
}

/// A server that does not know `capabilities` answers `between` alone, with
/// a single line feed: the bootstrap yields no capabilities and takes up
/// that one reply.
pub proof fn lemma_bootstrap_old_server(rest: Seq<u8>)
    ensures
        bootstrap_of(frame(seq![NEWLINE]) + rest) == Ok::<(Seq<Seq<u8>>, nat), ResponseError>(
            (seq![], frame(seq![NEWLINE]).len()),
        ),
{
    lemma_frame_round_trip(seq![NEWLINE], rest);
}

/// `remote: `, put before what the server writes on its error stream.
pub open spec fn remote_tag() -> Seq<u8> {
    seq![114u8, 101u8, 109u8, 111u8, 116u8, 101u8, 58u8, 32u8]
}

/// A chunk of the server's error stream as it is shown locally.
pub fn tag_remote(chunk: &[u8]) -> (r: Vec<u8>)
    ensures
        r@ == remote_tag() + chunk@,
{
    let mut r: Vec<u8> = vec![114u8, 101u8, 109u8, 111u8, 116u8, 101u8, 58u8, 32u8];
    let mut i: usize = 0;
    while i < chunk.len()
        invariant
            i <= chunk.len(),
            r@ == remote_tag() + chunk@.take(i as int),
        decreases chunk.len() - i,
    {
        r.push(chunk[i]);
        i = i + 1;
        assert(r@ =~= remote_tag() + chunk@.take(i as int));
    }
    assert(chunk@.take(i as int) =~= chunk@);
    r
}

} // verus!
