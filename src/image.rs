//! Sparse writing of decoded bytes into a partition image held in memory.
use crate::extent::{ExtractError, PartitionExtent};
use vstd::prelude::*;

verus! {

/// The byte at `i` of an image, where bytes past its end read as zero.
pub open spec fn byte_at(s: Seq<u8>, i: int) -> u8 {
    if 0 <= i < s.len() {
        s[i]
    } else {
        0
    }
}

/// The image `img` after `d` is written at byte offset `off`: it grows with
/// zeros where needed, and the bytes outside `off..off + d.len()` stay.
pub open spec fn write_at(img: Seq<u8>, off: nat, d: Seq<u8>) -> Seq<u8> {
    let n = if img.len() >= off + d.len() {
        img.len()
    } else {
        off + d.len()
    };
    Seq::new(n, |i: int| if off <= i < off + d.len() { d[i - off] } else { byte_at(img, i) })
}

/// The image `img` after each write of `ws`, in order.
pub open spec fn apply_writes(img: Seq<u8>, ws: Seq<(nat, Seq<u8>)>) -> Seq<u8>
    decreases ws.len(),
{
    if ws.len() == 0 {
        img
    } else {
        let (off, d) = ws.last();
        write_at(apply_writes(img, ws.drop_last()), off, d)
    }
}

/// Writes `d` into `img` at byte offset `off`.
pub fn write_image(img: &mut Vec<u8>, off: usize, d: &[u8])
    requires
        off + d@.len() <= usize::MAX,
    ensures
        final(img)@ == write_at(old(img)@, off as nat, d@),
{
    let dlen = d.len();
    let end = off + dlen;
    let ghost before = img@;
    while img.len() < end
        invariant
            dlen == d@.len(),
            end == off + dlen,
            before.len() <= img@.len(),
            img@.len() <= if before.len() >= end { before.len() } else { end as nat },
            forall|i: int| 0 <= i < img@.len() ==> #[trigger] img@[i] == byte_at(before, i),
        decreases end - img@.len(),
    {
        img.push(0u8);
    }
    let mut j: usize = 0;
    while j < dlen
        invariant
            dlen == d@.len(),
            end == off + dlen,
            j <= dlen,
            img@.len() == if before.len() >= end { before.len() } else { end as nat },
            forall|i: int|
                0 <= i < img@.len() ==> #[trigger] img@[i] == if off <= i < off + j {
                    d@[i - off]
                } else {
                    byte_at(before, i)
                },
        decreases dlen - j,
    {
        img.set(off + j, d[j]);
        j = j + 1;
    }
    assert(img@ =~= write_at(before, off as nat, d@));
}

/// `a` and `b` read alike outside `off..off + n`, and reach equally far
/// once that range is included.
pub open spec fn agree_outside(a: Seq<u8>, b: Seq<u8>, off: nat, n: nat) -> bool {
    &&& forall|i: int| !(off <= i < off + n) ==> #[trigger] byte_at(a, i) == byte_at(b, i)
    &&& (if a.len() >= off + n {
        a.len()
    } else {
        off + n
    }) == (if b.len() >= off + n {
        b.len()
    } else {
        off + n
    })
}

proof fn lemma_writes_keep_agreement(a: Seq<u8>, b: Seq<u8>, off: nat, n: nat, ws: Seq<(nat, Seq<u8>)>)
    requires
        agree_outside(a, b, off, n),
    ensures
        agree_outside(apply_writes(a, ws), apply_writes(b, ws), off, n),
    decreases ws.len(),
{
    if ws.len() > 0 {
        lemma_writes_keep_agreement(a, b, off, n, ws.drop_last());
        let (o, d) = ws.last();
        let pa = apply_writes(a, ws.drop_last());
        let pb = apply_writes(b, ws.drop_last());
        let qa = write_at(pa, o, d);
        let qb = write_at(pb, o, d);
        assert forall|i: int| !(off <= i < off + n) implies #[trigger] byte_at(qa, i) == byte_at(
            qb,
            i,
        ) by {
            assert(byte_at(pa, i) == byte_at(pb, i));
        }
    }
}

proof fn lemma_agreeing_write(a: Seq<u8>, b: Seq<u8>, off: nat, d: Seq<u8>)
    requires
        agree_outside(a, b, off, d.len()),
    ensures
        write_at(a, off, d) == write_at(b, off, d),
{
    let wa = write_at(a, off, d);
    let wb = write_at(b, off, d);
    assert forall|i: int| 0 <= i < wa.len() implies wa[i] == wb[i] by {
        if !(off <= i < off + d.len()) {
            assert(byte_at(a, i) == byte_at(b, i));
        }
    }
    assert(wa =~= wb);
}

/// Writing an image's writes again onto the image they produced leaves it
/// unchanged: rebuilding a partition twice into the same file gives the same
/// bytes.
pub proof fn lemma_rewrite_is_idempotent(img: Seq<u8>, ws: Seq<(nat, Seq<u8>)>)
    ensures
        apply_writes(apply_writes(img, ws), ws) == apply_writes(img, ws),
    decreases ws.len(),
{
    if ws.len() > 0 {
        let u = ws.drop_last();
        let (o, d) = ws.last();
        let p = apply_writes(img, u);
        let y = write_at(p, o, d);
        lemma_rewrite_is_idempotent(img, u);
        assert(agree_outside(y, p, o, d.len())) by {
            assert forall|i: int| !(o <= i < o + d.len()) implies #[trigger] byte_at(y, i)
                == byte_at(p, i) by {}
        }
        lemma_writes_keep_agreement(y, p, o, d.len(), u);
        lemma_agreeing_write(apply_writes(y, u), p, o, d);
    }
}

/// Decodes operations' bytes and writes them into a partition image kept in
/// memory, each at the offset of its extent.
#[derive(Debug)]
pub struct PartitionDecoder {
    destination: Vec<u8>,
}

impl PartitionDecoder {
    /// The image written so far.
    pub closed spec fn spec_image(&self) -> Seq<u8> {
        self.destination@
    }

    /// A decoder that writes over the image `destination`.
    pub fn new(destination: Vec<u8>) -> (r: Self)
        ensures
            r.spec_image() == destination@,
    {
        PartitionDecoder { destination }
    }

    /// Decodes the bytes of `extent` and writes them at byte offset
    /// `start_block * 4096` of the image. On failure the image is unchanged.
    pub fn write_extent(&mut self, extent: PartitionExtent) -> (r: Result<(), ExtractError>)
        ensures
            match extent.spec_write() {
                Ok((off, d)) => r is Ok && final(self).spec_image() == write_at(
                    old(self).spec_image(),
                    off,
                    d,
                ),
                Err(e) => r == Err::<(), ExtractError>(e) && final(self).spec_image() == old(
                    self,
                ).spec_image(),
            },
    {
        let (off, decoded) = match extent.decode_write() {
            Ok(w) => w,
            Err(e) => return Err(e),
        };
        write_image(&mut self.destination, off as usize, decoded.as_slice());
        Ok(())
    }

    /// The image written.
    pub fn into_image(self) -> (r: Vec<u8>)
        ensures
            r@ == self.spec_image(),
    {
        self.destination
    }
}

} // verus!
