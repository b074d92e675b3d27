//! One record of the dataset: an image group holding encoded bytes, and an
//! integer label; and its decoding into pixel and label bytes.

use vstd::prelude::*;
use crate::luma::{decode_luma, luma_of};

verus! {

/// Grayscale pixels in one 28 by 28 image.
pub const PIXELS_PER_IMAGE: usize = 784;

/// A field that holds no further fields.
pub enum Leaf {
    Bytes(Vec<u8>),
    Long(i64),
    /// A field of any other kind, which decoding ignores.
    Other,
}

/// A top-level field of a record: a nested group of leaves, or a leaf.
pub enum Field {
    Group(Vec<Leaf>),
    Leaf(Leaf),
}

/// One record, its fields in the order in which the file stores them.
pub struct Row {
    pub fields: Vec<Field>,
}

#[derive(Clone, Copy, Debug, PartialEq, Eq, Structural)]
pub enum DecodeFault {
    /// The image bytes are no image in a recognized format, or not one of
    /// 28 by 28 pixels.
    MalformedImage,
    /// The record lacks the one image group, its one byte array, or the one
    /// integer label, or holds more than one of them.
    UnexpectedSchema,
}

/// How many elements of `s` satisfy `p`.
pub open spec fn count_where<A>(s: Seq<A>, p: spec_fn(A) -> bool) -> nat
    decreases s.len(),
{
    if s.len() == 0 {
        0
    } else {
        count_where(s.drop_last(), p) + if p(s.last()) { 1nat } else { 0nat }
    }
}

/// The last element of `s` that satisfies `p`.
pub open spec fn last_where<A>(s: Seq<A>, p: spec_fn(A) -> bool) -> Option<A>
    decreases s.len(),
{
    if s.len() == 0 {
        None
    } else if p(s.last()) {
        Some(s.last())
    } else {
        last_where(s.drop_last(), p)
    }
}

/// The field is a nested group.
pub open spec fn is_group() -> spec_fn(Field) -> bool {
    |f: Field| f is Group
}

/// The field is an integer leaf.
pub open spec fn is_label() -> spec_fn(Field) -> bool {
    |f: Field| f matches Field::Leaf(Leaf::Long(_))
}

/// The leaf is a byte array.
pub open spec fn is_bytes() -> spec_fn(Leaf) -> bool {
    |l: Leaf| l is Bytes
}

/// The leaves of the record's image group.
pub open spec fn group_leaves(fs: Seq<Field>) -> Seq<Leaf> {
    match last_where(fs, is_group()) {
        Some(Field::Group(ls)) => ls@,
        _ => Seq::empty(),
    }
}

/// The encoded image bytes of the record.
pub open spec fn payload(fs: Seq<Field>) -> Seq<u8> {
    match last_where(group_leaves(fs), is_bytes()) {
        Some(Leaf::Bytes(b)) => b@,
        _ => Seq::empty(),
    }
}

/// The integer label of the record.
pub open spec fn label_of(fs: Seq<Field>) -> i64 {
    match last_where(fs, is_label()) {
        Some(Field::Leaf(Leaf::Long(v))) => v,
        _ => 0,
    }
}

/// The record has exactly one image group, with exactly one byte array, and
/// exactly one integer label.
pub open spec fn has_schema(fs: Seq<Field>) -> bool {
    &&& count_where(fs, is_group()) == 1
    &&& count_where(fs, is_label()) == 1
    &&& count_where(group_leaves(fs), is_bytes()) == 1
}

/// What a record decodes to: its pixels and its label narrowed to a byte.
pub open spec fn decoded(fs: Seq<Field>) -> Result<(Seq<u8>, u8), DecodeFault> {
    if !has_schema(fs) {
        Err(DecodeFault::UnexpectedSchema)
    } else {
        match luma_of(payload(fs)) {
            Some(p) => if p.len() == PIXELS_PER_IMAGE {
                Ok((p, label_of(fs) as u8))
            } else {
                Err(DecodeFault::MalformedImage)
            },
            None => Err(DecodeFault::MalformedImage),
        }
    }
}

proof fn lemma_take_step<A>(s: Seq<A>, i: int)
    requires
        0 <= i < s.len(),
    ensures
        s.take(i + 1).drop_last() == s.take(i),
        s.take(i + 1).last() == s[i],
{
    assert(s.take(i + 1).drop_last() =~= s.take(i));
}

/// Decodes one record and appends its pixels to `images` and its label to
/// `labels`; on a fault neither buffer changes.
pub fn decode_row(row: &Row, images: &mut Vec<u8>, labels: &mut Vec<u8>) -> (r: Result<
    (),
    DecodeFault,
>)
    ensures
        match decoded(row.fields@) {
            Ok((p, l)) => {
                &&& r is Ok
                &&& final(images)@ == old(images)@ + p
                &&& final(labels)@ == old(labels)@.push(l)
            },
            Err(e) => {
                &&& r == Err::<(), DecodeFault>(e)
                &&& final(images)@ == old(images)@
                &&& final(labels)@ == old(labels)@
            },
        },
{
    let fs = &row.fields;
    let mut n_groups: usize = 0;
    let mut n_labels: usize = 0;
    let mut group: Option<usize> = None;
    let mut label: Option<usize> = None;
    let mut i: usize = 0;
    while i < fs.len()
        invariant
            i <= fs@.len(),
            n_groups <= i,
            n_labels <= i,
            group is None <==> n_groups == 0,
            label is None <==> n_labels == 0,
            n_groups == count_where(fs@.take(i as int), is_group()),
            n_labels == count_where(fs@.take(i as int), is_label()),
            match group {
                Some(k) => k < i && fs@[k as int] is Group && last_where(
                    fs@.take(i as int),
                    is_group(),
                ) == Some(fs@[k as int]),
                None => last_where(fs@.take(i as int), is_group()) is None,
            },
            match label {
                Some(k) => k < i && is_label()(fs@[k as int]) && last_where(
                    fs@.take(i as int),
                    is_label(),
                ) == Some(fs@[k as int]),
                None => last_where(fs@.take(i as int), is_label()) is None,
            },
        decreases fs.len() - i,
    {
        proof {
            lemma_take_step(fs@, i as int);
        }
        match &fs[i] {
            Field::Group(_) => {
                n_groups = n_groups + 1;
                group = Some(i);
            },
            Field::Leaf(Leaf::Long(_)) => {
                n_labels = n_labels + 1;
                label = Some(i);
            },
            Field::Leaf(_) => {},
        }
        i = i + 1;
    }
    assert(fs@.take(fs@.len() as int) =~= fs@);
    if n_groups != 1 || n_labels != 1 {
        return Err(DecodeFault::UnexpectedSchema);
    }
    let leaves = match group {
        Some(k) => match &fs[k] {
            Field::Group(ls) => ls,
            Field::Leaf(_) => {
                return Err(DecodeFault::UnexpectedSchema);
            },
        },
        None => {
            return Err(DecodeFault::UnexpectedSchema);
        },
    };
    let value: i64 = match label {
        Some(k) => match &fs[k] {
            Field::Leaf(Leaf::Long(v)) => *v,
            _ => {
                return Err(DecodeFault::UnexpectedSchema);
            },
        },
        None => {
            return Err(DecodeFault::UnexpectedSchema);
        },
    };
    let mut n_bytes: usize = 0;
    let mut bytes: Option<usize> = None;
    let mut j: usize = 0;
    while j < leaves.len()
        invariant
            j <= leaves@.len(),
            n_bytes <= j,
            bytes is None <==> n_bytes == 0,
            n_bytes == count_where(leaves@.take(j as int), is_bytes()),
            match bytes {
                Some(k) => k < j && leaves@[k as int] is Bytes && last_where(
                    leaves@.take(j as int),
                    is_bytes(),
                ) == Some(leaves@[k as int]),
                None => last_where(leaves@.take(j as int), is_bytes()) is None,
            },
        decreases leaves.len() - j,
    {
        proof {
            lemma_take_step(leaves@, j as int);
        }
        if let Leaf::Bytes(_) = &leaves[j] {
            n_bytes = n_bytes + 1;
            bytes = Some(j);
        }
        j = j + 1;
    }
    assert(leaves@.take(leaves@.len() as int) =~= leaves@);
    if n_bytes != 1 {
        return Err(DecodeFault::UnexpectedSchema);
    }
    let encoded = match bytes {
        Some(k) => match &leaves[k] {
            Leaf::Bytes(b) => b,
            _ => {
                return Err(DecodeFault::UnexpectedSchema);
            },
        },
        None => {
            return Err(DecodeFault::UnexpectedSchema);
        },
    };
    let mut pixels = match decode_luma(encoded.as_slice()) {
        Ok(p) => p,
        Err(_) => {
            return Err(DecodeFault::MalformedImage);
        },
    };
    if pixels.len() != PIXELS_PER_IMAGE {
        return Err(DecodeFault::MalformedImage);
    }
    images.append(&mut pixels);
    labels.push(#[verifier::truncate] (value as u8));
    Ok(())
}

} // verus!
