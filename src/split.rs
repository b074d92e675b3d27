//! Assembly of one split: every record decoded in order into one buffer of
//! pixels, `rows` by 784, and one buffer of labels.

use vstd::prelude::*;
use crate::record::{decode_row, decoded, has_schema, payload, DecodeFault, Row, PIXELS_PER_IMAGE};
use crate::luma::luma_of;

verus! {

/// The pixels and labels of one split.
pub struct Split {
    /// Row-major pixels, `PIXELS_PER_IMAGE` for each sample.
    pub images: Vec<u8>,
    /// One label for each sample.
    pub labels: Vec<u8>,
    /// The number of samples.
    pub rows: usize,
}

#[derive(Clone, Copy, Debug, PartialEq, Eq, Structural)]
pub enum LoadFault {
    /// A record could not be decoded.
    Decode(DecodeFault),
    /// The pixel count is no multiple of `PIXELS_PER_IMAGE`.
    ShapeMismatch,
}

impl Split {
    /// The pixel buffer is `rows` by `PIXELS_PER_IMAGE`, and there is one
    /// label for each row.
    pub open spec fn wf(&self) -> bool {
        &&& self.images@.len() == self.rows * PIXELS_PER_IMAGE
        &&& self.labels@.len() == self.rows
    }

    /// The shape of the pixel array: one row of `PIXELS_PER_IMAGE` per sample.
    pub fn image_shape(&self) -> (r: (usize, usize))
        ensures
            r == (self.rows, PIXELS_PER_IMAGE),
    {
        (self.rows, PIXELS_PER_IMAGE)
    }

    /// The shape of the label array: one label per sample.
    pub fn label_shape(&self) -> (r: usize)
        ensures
            r == self.rows,
    {
        self.rows
    }
}

/// What a sequence of records decodes to: the pixels of all of them, one after
/// the other, and their labels; or the fault of the first that fails.
pub open spec fn decoded_rows(rows: Seq<Row>) -> Result<(Seq<u8>, Seq<u8>), DecodeFault>
    decreases rows.len(),
{
    if rows.len() == 0 {
        Ok((Seq::empty(), Seq::empty()))
    } else {
        match decoded_rows(rows.drop_last()) {
            Err(e) => Err(e),
            Ok((images, labels)) => match decoded(rows.last().fields@) {
                Err(e) => Err(e),
                Ok((p, l)) => Ok((images + p, labels.push(l))),
            },
        }
    }
}

/// Once a prefix of the records fails, the whole sequence fails with the
/// same fault.
pub proof fn lemma_fault_persists(rows: Seq<Row>, i: int)
    requires
        0 <= i <= rows.len(),
        decoded_rows(rows.take(i)) is Err,
    ensures
        decoded_rows(rows) == decoded_rows(rows.take(i)),
    decreases rows.len() - i,
{
    if i < rows.len() {
        assert(rows.take(i + 1).drop_last() =~= rows.take(i));
        lemma_fault_persists(rows, i + 1);
    } else {
        assert(rows.take(i) =~= rows);
    }
}

/// Decoded records give `PIXELS_PER_IMAGE` pixels for each label.
pub proof fn lemma_decoded_shape(rows: Seq<Row>)
    requires
        decoded_rows(rows) is Ok,
    ensures
        decoded_rows(rows)->Ok_0.0.len() == decoded_rows(rows)->Ok_0.1.len() * PIXELS_PER_IMAGE,
        decoded_rows(rows)->Ok_0.1.len() == rows.len(),
    decreases rows.len(),
{
    if rows.len() > 0 {
        lemma_decoded_shape(rows.drop_last());
        let n = rows.len() - 1;
        assert((n + 1) * PIXELS_PER_IMAGE == n * PIXELS_PER_IMAGE + PIXELS_PER_IMAGE) by (nonlinear_arith);
    }
}

/// A record whose image bytes are no decodable image makes the whole split
/// fail with `MalformedImage`, whatever follows it, when the records before
/// it decode.
pub proof fn lemma_malformed_image_aborts(rows: Seq<Row>, i: int)
    requires
        0 <= i < rows.len(),
        decoded_rows(rows.take(i)) is Ok,
        has_schema(rows[i].fields@),
        luma_of(payload(rows[i].fields@)) is None,
    ensures
        decoded(rows[i].fields@) == Err::<(Seq<u8>, u8), DecodeFault>(DecodeFault::MalformedImage),
        decoded_rows(rows) == Err::<(Seq<u8>, Seq<u8>), DecodeFault>(DecodeFault::MalformedImage),
{
    assert(rows.take(i + 1).drop_last() =~= rows.take(i));
    lemma_fault_persists(rows, i + 1);
}

/// No records decode to no pixels and no labels.
pub proof fn lemma_empty_split()
    ensures
        decoded_rows(Seq::<Row>::empty()) == Ok::<(Seq<u8>, Seq<u8>), DecodeFault>(
            (Seq::empty(), Seq::empty()),
        ),
{
}

/// Decodes every record of a split in order. `row_count` is the count that the
/// file declares; it only sizes the buffers, and may differ from the number of
/// records, which decides the result.
pub fn load_split(rows: &Vec<Row>, row_count: usize) -> (r: Result<Split, LoadFault>)
    ensures
        match decoded_rows(rows@) {
            Ok((images, labels)) => r matches Ok(s) && {
                &&& s.wf()
                &&& s.images@ == images
                &&& s.labels@ == labels
                &&& s.rows == rows@.len()
            },
            Err(e) => r == Err::<Split, LoadFault>(LoadFault::Decode(e)),
        },
{
    // The declared count is not trusted beyond the records at hand, so that a
    // corrupt count cannot ask for an allocation that fails.
    let expected = if row_count < rows.len() {
        row_count
    } else {
        rows.len()
    };
    let capacity = match expected.checked_mul(PIXELS_PER_IMAGE) {
        Some(c) => c,
        None => 0,
    };
    let mut images: Vec<u8> = Vec::with_capacity(capacity);
    let mut labels: Vec<u8> = Vec::with_capacity(expected);
    let mut i: usize = 0;
    while i < rows.len()
        invariant
            i <= rows@.len(),
            decoded_rows(rows@.take(i as int)) == Ok::<(Seq<u8>, Seq<u8>), DecodeFault>(
                (images@, labels@),
            ),
        decreases rows.len() - i,
    {
        assert(rows@.take(i + 1).drop_last() =~= rows@.take(i as int));
        match decode_row(&rows[i], &mut images, &mut labels) {
            Ok(()) => {},
            Err(e) => {
                proof {
                    lemma_fault_persists(rows@, i + 1);
                }
                return Err(LoadFault::Decode(e));
            },
        }
        i = i + 1;
    }
    assert(rows@.take(rows@.len() as int) =~= rows@);
    proof {
        lemma_decoded_shape(rows@);
    }
    if images.len() % PIXELS_PER_IMAGE != 0 {
        return Err(LoadFault::ShapeMismatch);
    }
    let n = images.len() / PIXELS_PER_IMAGE;
    assert(n == labels@.len()) by (nonlinear_arith)
        requires
            images@.len() as int == labels@.len() as int * 784,
            n as int == images@.len() as int / 784,
    ;
    Ok(Split { images, labels, rows: n })
}

} // verus!
