//! Operation mix policies: each maps one random draw to the kind of store
//! operation that a transaction step performs.
use rand::rngs::ThreadRng;
use rand::Rng;
use vstd::prelude::*;

verus! {

/// The kind of store operation that a transaction step performs.
#[derive(Clone, Copy, Debug, PartialEq, Eq, Structural)]
pub enum Operation {
    Read,
    Upsert,
    Rmw,
}

#[verifier::external_type_specification]
#[verifier::external_body]
pub struct ExThreadRng(ThreadRng);

/// Relies on rand's `Rng::gen::<bool>` on a `ThreadRng`: one fair coin flip,
/// drawn from the most significant bit of one `next_u32`.
#[verifier::external_body]
fn draw_bool(rng: &mut ThreadRng) -> (r: bool) {
    rng.gen::<bool>()
}

/// The even Read / Upsert mix, given the coin flip it consumes: a set flip
/// reads, a clear one upserts.
pub fn read_upsert_from_draw(draw: bool) -> (r: Operation)
    ensures
        r == (if draw { Operation::Read } else { Operation::Upsert }),
{
    if draw {
        Operation::Read
    } else {
        Operation::Upsert
    }
}

/// Half reads, half upserts: consumes exactly one random flip per call.
pub fn read_upsert5050(thread_rng: ThreadRng) -> (r: Operation)
    ensures
        r == Operation::Read || r == Operation::Upsert,
{
    let mut rng = thread_rng;
    let draw = draw_bool(&mut rng);
    read_upsert_from_draw(draw)
}

/// Every step is a read-modify-write, whatever the random source.
pub fn rmw_100(_thread_rng: ThreadRng) -> (r: Operation)
    ensures
        r == Operation::Rmw,
{
    Operation::Rmw
}

/// Every step is an upsert, whatever the random source.
pub fn upsert_100(_thread_rng: ThreadRng) -> (r: Operation)
    ensures
        r == Operation::Upsert,
{
    Operation::Upsert
}

/// Every step is a read, whatever the random source.
pub fn read_100(_thread_rng: ThreadRng) -> (r: Operation)
    ensures
        r == Operation::Read,
{
    Operation::Read
}

} // verus!
