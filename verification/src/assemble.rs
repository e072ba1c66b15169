//! Joining chunk payloads into the array's buffer.

use vstd::prelude::*;

verus! {

/// The contents of a list of payloads.
pub open spec fn payload_views(payloads: Seq<Vec<u8>>) -> Seq<Seq<u8>> {
    payloads.map_values(|payload: Vec<u8>| payload@)
}

/// Concatenates the payloads, in the order given, into one buffer. Nothing
/// is checked against any declared shape.
pub fn assemble(payloads: &[Vec<u8>]) -> (buffer: Vec<u8>)
    ensures
        buffer@ == payload_views(payloads@).flatten(),
{
    let mut buffer: Vec<u8> = Vec::new();
    let mut i: usize = 0;
    assert(payload_views(payloads@).take(0) =~= Seq::<Seq<u8>>::empty());
    while i < payloads.len()
        invariant
            i <= payloads.len(),
            buffer@ == payload_views(payloads@).take(i as int).flatten(),
        decreases payloads.len() - i,
    {
        let ghost before = buffer@;
        buffer.extend_from_slice(payloads[i].as_slice());
        proof {
            let views = payload_views(payloads@);
            assert(buffer@ =~= before + views[i as int]);
            views.take(i as int).lemma_flatten_push(views[i as int]);
            assert(views.take(i + 1) =~= views.take(i as int).push(views[i as int]));
        }
        i += 1;
    }
    assert(payload_views(payloads@).take(i as int) =~= payload_views(payloads@));
    buffer
}

} // verus!
