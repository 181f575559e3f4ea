use vstd::prelude::*;

verus! {

/// The big-endian unsigned integer that the first four bytes of `b` encode.
pub open spec fn be_u32(b: Seq<u8>) -> nat
    recommends
        b.len() >= 4,
{
    (b[0] as nat) * 0x100_0000 + (b[1] as nat) * 0x1_0000 + (b[2] as nat) * 0x100 + (b[3] as nat)
}

/// The byte at `at` together with everything after it.
pub fn get(xs: &[u8], at: usize) -> (r: Option<(&u8, &[u8])>)
    ensures
        at < xs@.len() <==> r is Some,
        r matches Some((x, rest)) ==> *x == xs@[at as int] && rest@ == xs@.subrange(
            at + 1,
            xs@.len() as int,
        ),
{
    if at < xs.len() {
        let (_, tail) = xs.split_at(at);
        let (_, rest) = xs.split_at(at + 1);
        assert(tail@[0] == xs@[at as int]);
        Some((&xs[at], rest))
    } else {
        None
    }
}

/// Splits off the first `n` bytes, or gives `None` where there are fewer.
pub fn split(xs: &[u8], n: usize) -> (r: Option<(&[u8], &[u8])>)
    ensures
        n <= xs@.len() <==> r is Some,
        r matches Some((front, rest)) ==> front@ == xs@.take(n as int) && rest@ == xs@.skip(
            n as int,
        ),
{
    if n <= xs.len() {
        let (front, rest) = xs.split_at(n);
        assert(front@ =~= xs@.take(n as int));
        assert(rest@ =~= xs@.skip(n as int));
        Some((front, rest))
    } else {
        None
    }
}

/// Reads a big-endian `u32` off the front of the bytes.
pub fn split_as_u32(xs: &[u8]) -> (r: Option<(u32, &[u8])>)
    ensures
        4 <= xs@.len() <==> r is Some,
        r matches Some((x, rest)) ==> x as nat == be_u32(xs@) && rest@ == xs@.skip(4),
{
    let (front, rest) = split(xs, 4)?;
    let x: u32 = (front[0] as u32) * 0x100_0000 + (front[1] as u32) * 0x1_0000 + (front[2] as u32)
        * 0x100 + (front[3] as u32);
    Some((x, rest))
}

} // verus!
