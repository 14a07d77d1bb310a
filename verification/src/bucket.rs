//! Object-size buckets.
//!
//! Every non-negative byte count falls into exactly one of nine ordered
//! buckets. The bucket's ordinal (0 through 8) is both a display label and
//! the primary sort key of the grouped report rows.

use vstd::prelude::*;

verus! {

/// Exclusive upper boundary of bucket 1 (8 KiB).
pub const BYTES_8KIB: u64 = 8 * 1024;
/// Exclusive upper boundary of bucket 2 (64 KiB).
pub const BYTES_64KIB: u64 = 64 * 1024;
/// Exclusive upper boundary of bucket 3 (512 KiB).
pub const BYTES_512KIB: u64 = 512 * 1024;
/// Exclusive upper boundary of bucket 4 (4 MiB).
pub const BYTES_4MIB: u64 = 4 * 1024 * 1024;
/// Exclusive upper boundary of bucket 5 (32 MiB).
pub const BYTES_32MIB: u64 = 32 * 1024 * 1024;
/// Exclusive upper boundary of bucket 6 (256 MiB).
pub const BYTES_256MIB: u64 = 256 * 1024 * 1024;
/// Exclusive upper boundary of bucket 7 (2 GiB).
pub const BYTES_2GIB: u64 = 2 * 1024 * 1024 * 1024;

/// One of the nine ordered object-size ranges.
#[derive(Clone, Copy, Debug, PartialEq, Eq, Structural)]
pub enum ByteBucket {
    /// Exactly 0 bytes (metadata operations).
    Zero,
    /// 1 byte up to but not including 8 KiB.
    UpTo8KiB,
    /// 8 KiB up to but not including 64 KiB.
    UpTo64KiB,
    /// 64 KiB up to but not including 512 KiB.
    UpTo512KiB,
    /// 512 KiB up to but not including 4 MiB.
    UpTo4MiB,
    /// 4 MiB up to but not including 32 MiB.
    UpTo32MiB,
    /// 32 MiB up to but not including 256 MiB.
    UpTo256MiB,
    /// 256 MiB up to but not including 2 GiB.
    UpTo2GiB,
    /// 2 GiB and larger.
    Over2GiB,
}

impl View for ByteBucket {
    type V = ByteBucket;

    open spec fn view(&self) -> ByteBucket {
        *self
    }
}

impl DeepView for ByteBucket {
    type V = ByteBucket;

    open spec fn deep_view(&self) -> ByteBucket {
        *self
    }
}

/// The ordinal of the bucket that `bytes` falls into.
pub open spec fn bucket_ordinal_of(bytes: u64) -> int {
    if bytes == 0 {
        0
    } else if bytes < BYTES_8KIB {
        1
    } else if bytes < BYTES_64KIB {
        2
    } else if bytes < BYTES_512KIB {
        3
    } else if bytes < BYTES_4MIB {
        4
    } else if bytes < BYTES_32MIB {
        5
    } else if bytes < BYTES_256MIB {
        6
    } else if bytes < BYTES_2GIB {
        7
    } else {
        8
    }
}

/// Whether `bytes` lies in the range that bucket `k` covers.
pub open spec fn in_bucket(bytes: u64, k: int) -> bool {
    if k == 0 {
        bytes == 0
    } else if k == 1 {
        1 <= bytes < BYTES_8KIB
    } else if k == 2 {
        BYTES_8KIB <= bytes < BYTES_64KIB
    } else if k == 3 {
        BYTES_64KIB <= bytes < BYTES_512KIB
    } else if k == 4 {
        BYTES_512KIB <= bytes < BYTES_4MIB
    } else if k == 5 {
        BYTES_4MIB <= bytes < BYTES_32MIB
    } else if k == 6 {
        BYTES_32MIB <= bytes < BYTES_256MIB
    } else if k == 7 {
        BYTES_256MIB <= bytes < BYTES_2GIB
    } else if k == 8 {
        bytes >= BYTES_2GIB
    } else {
        false
    }
}

impl ByteBucket {
    /// The bucket's position in the fixed order, 0 through 8.
    pub open spec fn ordinal_spec(self) -> int {
        match self {
            ByteBucket::Zero => 0,
            ByteBucket::UpTo8KiB => 1,
            ByteBucket::UpTo64KiB => 2,
            ByteBucket::UpTo512KiB => 3,
            ByteBucket::UpTo4MiB => 4,
            ByteBucket::UpTo32MiB => 5,
            ByteBucket::UpTo256MiB => 6,
            ByteBucket::UpTo2GiB => 7,
            ByteBucket::Over2GiB => 8,
        }
    }

    /// The bucket's display label.
    pub open spec fn label_spec(self) -> Seq<char> {
        match self {
            ByteBucket::Zero => "zero"@,
            ByteBucket::UpTo8KiB => "1B-8KiB"@,
            ByteBucket::UpTo64KiB => "8KiB-64KiB"@,
            ByteBucket::UpTo512KiB => "64KiB-512KiB"@,
            ByteBucket::UpTo4MiB => "512KiB-4MiB"@,
            ByteBucket::UpTo32MiB => "4MiB-32MiB"@,
            ByteBucket::UpTo256MiB => "32MiB-256MiB"@,
            ByteBucket::UpTo2GiB => "256MiB-2GiB"@,
            ByteBucket::Over2GiB => ">2GiB"@,
        }
    }

    /// Classify a byte count into its bucket. Total: every `u64` maps to
    /// exactly one bucket.
    pub fn from_bytes(bytes: u64) -> (b: ByteBucket)
        ensures
            b.ordinal_spec() == bucket_ordinal_of(bytes),
    {
        if bytes == 0 {
            ByteBucket::Zero
        } else if bytes < BYTES_8KIB {
            ByteBucket::UpTo8KiB
        } else if bytes < BYTES_64KIB {
            ByteBucket::UpTo64KiB
        } else if bytes < BYTES_512KIB {
            ByteBucket::UpTo512KiB
        } else if bytes < BYTES_4MIB {
            ByteBucket::UpTo4MiB
        } else if bytes < BYTES_32MIB {
            ByteBucket::UpTo32MiB
        } else if bytes < BYTES_256MIB {
            ByteBucket::UpTo256MiB
        } else if bytes < BYTES_2GIB {
            ByteBucket::UpTo2GiB
        } else {
            ByteBucket::Over2GiB
        }
    }

    /// The ordinal as an executable number, 0 through 8.
    pub fn to_bucket_number(&self) -> (n: u8)
        ensures
            n == self.ordinal_spec(),
    {
        match self {
            ByteBucket::Zero => 0,
            ByteBucket::UpTo8KiB => 1,
            ByteBucket::UpTo64KiB => 2,
            ByteBucket::UpTo512KiB => 3,
            ByteBucket::UpTo4MiB => 4,
            ByteBucket::UpTo32MiB => 5,
            ByteBucket::UpTo256MiB => 6,
            ByteBucket::UpTo2GiB => 7,
            ByteBucket::Over2GiB => 8,
        }
    }

    /// The display label of the bucket.
    pub fn to_string(&self) -> (s: &'static str)
        ensures
            s@ == self.label_spec(),
    {
        match self {
            ByteBucket::Zero => "zero",
            ByteBucket::UpTo8KiB => "1B-8KiB",
            ByteBucket::UpTo64KiB => "8KiB-64KiB",
            ByteBucket::UpTo512KiB => "64KiB-512KiB",
            ByteBucket::UpTo4MiB => "512KiB-4MiB",
            ByteBucket::UpTo32MiB => "4MiB-32MiB",
            ByteBucket::UpTo256MiB => "32MiB-256MiB",
            ByteBucket::UpTo2GiB => "256MiB-2GiB",
            ByteBucket::Over2GiB => ">2GiB",
        }
    }
}

/// The display labels of all nine buckets, in bucket order.
pub fn bucket_order() -> (labels: Vec<&'static str>)
    ensures
        labels@.len() == 9,
        forall|k: int|
            0 <= k < 9 ==> #[trigger] labels@[k]@ == bucket_for_ordinal(k).label_spec(),
{
    let mut labels: Vec<&'static str> = Vec::new();
    labels.push(ByteBucket::Zero.to_string());
    labels.push(ByteBucket::UpTo8KiB.to_string());
    labels.push(ByteBucket::UpTo64KiB.to_string());
    labels.push(ByteBucket::UpTo512KiB.to_string());
    labels.push(ByteBucket::UpTo4MiB.to_string());
    labels.push(ByteBucket::UpTo32MiB.to_string());
    labels.push(ByteBucket::UpTo256MiB.to_string());
    labels.push(ByteBucket::UpTo2GiB.to_string());
    labels.push(ByteBucket::Over2GiB.to_string());
    assert(forall|k: int|
        0 <= k < 9 ==> #[trigger] labels@[k]@ == bucket_for_ordinal(k).label_spec());
    labels
}

/// The bucket whose ordinal is `k` (for `k` in 0..=8).
pub open spec fn bucket_for_ordinal(k: int) -> ByteBucket {
    if k == 0 {
        ByteBucket::Zero
    } else if k == 1 {
        ByteBucket::UpTo8KiB
    } else if k == 2 {
        ByteBucket::UpTo64KiB
    } else if k == 3 {
        ByteBucket::UpTo512KiB
    } else if k == 4 {
        ByteBucket::UpTo4MiB
    } else if k == 5 {
        ByteBucket::UpTo32MiB
    } else if k == 6 {
        ByteBucket::UpTo256MiB
    } else if k == 7 {
        ByteBucket::UpTo2GiB
    } else {
        ByteBucket::Over2GiB
    }
}

/// The bucket ranges partition the non-negative integers: every byte count
/// lies in the range of its classifier ordinal and in no other, so the nine
/// ranges are contiguous, exhaustive and pairwise disjoint.
pub proof fn lemma_buckets_partition(bytes: u64)
    ensures
        0 <= bucket_ordinal_of(bytes) <= 8,
        in_bucket(bytes, bucket_ordinal_of(bytes)),
        forall|k: int| 0 <= k <= 8 && k != bucket_ordinal_of(bytes) ==> !in_bucket(bytes, k),
{
}

/// Ordinal and label always describe the same bucket: the label of any
/// bucket value is the label of the bucket reconstructed from its ordinal.
pub proof fn lemma_label_ordinal_consistent(b: ByteBucket)
    ensures
        bucket_for_ordinal(b.ordinal_spec()) == b,
        bucket_for_ordinal(b.ordinal_spec()).label_spec() == b.label_spec(),
{
}

} // verus!
