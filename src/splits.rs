//! Both splits of the dataset, test first and then train, with the fault of
//! the first that fails, marked with the split it came from.

use vstd::prelude::*;
use crate::record::Row;
use crate::split::{decoded_rows, load_split, LoadFault, Split};

verus! {

/// The number of classes that the labels stand for.
pub const LABEL_COUNT: usize = 10;

#[derive(Clone, Copy, Debug, PartialEq, Eq, Structural)]
pub enum SplitKind {
    Train,
    Test,
}

/// A fault, with the split that was being loaded.
#[derive(Clone, Copy, Debug, PartialEq, Eq, Structural)]
pub struct SplitFault {
    pub split: SplitKind,
    pub fault: LoadFault,
}

/// The decoded train and test splits, and the number of classes.
pub struct Splits {
    pub train: Split,
    pub test: Split,
    pub labels: usize,
}

/// What a split decodes to is what `load_split` returns for it.
pub open spec fn split_matches(s: Split, decoded: (Seq<u8>, Seq<u8>)) -> bool {
    &&& s.wf()
    &&& s.images@ == decoded.0
    &&& s.labels@ == decoded.1
}

/// Loads the test split and then the train split; the first fault ends the
/// load and no split is returned.
pub fn load_splits(
    train_rows: &Vec<Row>,
    train_count: usize,
    test_rows: &Vec<Row>,
    test_count: usize,
) -> (r: Result<Splits, SplitFault>)
    ensures
        match (decoded_rows(test_rows@), decoded_rows(train_rows@)) {
            (Err(e), _) => r == Err::<Splits, SplitFault>(
                (SplitFault { split: SplitKind::Test, fault: LoadFault::Decode(e) }),
            ),
            (Ok(_), Err(e)) => r == Err::<Splits, SplitFault>(
                (SplitFault { split: SplitKind::Train, fault: LoadFault::Decode(e) }),
            ),
            (Ok(test), Ok(train)) => r matches Ok(d) && {
                &&& split_matches(d.test, test)
                &&& split_matches(d.train, train)
                &&& d.labels == LABEL_COUNT
            },
        },
{
    let test = match load_split(test_rows, test_count) {
        Ok(s) => s,
        Err(fault) => {
            return Err(SplitFault { split: SplitKind::Test, fault });
        },
    };
    let train = match load_split(train_rows, train_count) {
        Ok(s) => s,
        Err(fault) => {
            return Err(SplitFault { split: SplitKind::Train, fault });
        },
    };
    Ok(Splits { train, test, labels: LABEL_COUNT })
}

} // verus!
