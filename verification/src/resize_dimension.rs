//! The carving target and the grammar of its textual form: exactly
//! `<digits>x<digits>`, `<digits>x` or `x<digits>`, with each numeric
//! field fitting an unsigned 32-bit value.

use crate::error::CarveError;
use vstd::prelude::*;
use vstd::slice::slice_index_get;
use vstd::string::StringSliceAdditionalSpecFns;

verus! {

/// The carving target: shrink the width, the height, or both. A missing
/// side keeps its source dimension.
#[derive(Debug, Clone, Copy, PartialEq, Eq, Structural)]
pub enum ResizeDimension {
    Width(u32),
    Height(u32),
    WidthHeight(u32, u32),
}

/// The byte of the ASCII letter `x`, the separator of the grammar.
pub const SEPARATOR: u8 = 120;

/// An ASCII decimal digit.
pub open spec fn is_digit_byte(c: u8) -> bool {
    48 <= c <= 57
}

/// Every byte of `b` is a decimal digit.
pub open spec fn all_digits(b: Seq<u8>) -> bool {
    forall|i: int| 0 <= i < b.len() ==> is_digit_byte(#[trigger] b[i])
}

/// The number that a digit string denotes, most significant digit first;
/// the empty string denotes 0.
pub open spec fn digits_value(b: Seq<u8>) -> int
    decreases b.len(),
{
    if b.len() == 0 {
        0
    } else {
        digits_value(b.drop_last()) * 10 + (b.last() - 48)
    }
}

/// Position `i` splits `b` into the accepted shape: a separator with only
/// digits before it and only digits after it (either side may be empty).
pub open spec fn splits_at(b: Seq<u8>, i: int) -> bool {
    &&& 0 <= i < b.len()
    &&& b[i] == SEPARATOR
    &&& all_digits(b.subrange(0, i))
    &&& all_digits(b.subrange(i + 1, b.len() as int))
}

proof fn lemma_digits_value_nonneg(b: Seq<u8>)
    requires
        all_digits(b),
    ensures
        digits_value(b) >= 0,
    decreases b.len(),
{
    if b.len() > 0 {
        assert(all_digits(b.drop_last())) by {
            assert(forall|i: int| 0 <= i < b.len() - 1 ==> b.drop_last()[i] == #[trigger] b[i]);
        }
        lemma_digits_value_nonneg(b.drop_last());
    }
}

/// A separator preceded only by digits is the one possible split point.
proof fn lemma_unique_split(b: Seq<u8>, xi: int)
    requires
        0 <= xi < b.len(),
        b[xi] == SEPARATOR,
        forall|j: int| 0 <= j < xi ==> is_digit_byte(#[trigger] b[j]),
    ensures
        forall|k: int| #[trigger] splits_at(b, k) ==> k == xi,
{
    assert forall|k: int| #[trigger] splits_at(b, k) implies k == xi by {
        if k < xi {
            assert(b.subrange(k + 1, b.len() as int)[xi - k - 1] == b[xi]);
        } else if k > xi {
            assert(b.subrange(0, k)[xi] == b[xi]);
        }
    }
}

fn digit_at(b: &[u8], i: usize) -> (r: bool)
    requires
        i < b@.len(),
    ensures
        r == is_digit_byte(b@[i as int]),
{
    let c = *slice_index_get(b, i);
    48 <= c && c <= 57
}

impl ResizeDimension {
    /// Parses the textual form of a carving target.
    ///
    /// `"20x22"` names both dimensions, `"20x"` only the width, `"x100"`
    /// only the height; everything else, including a numeric field beyond
    /// the unsigned 32-bit range, is rejected as an invalid dimension
    /// specification.
    pub fn from_str(s: &str) -> (r: Result<ResizeDimension, CarveError>)
        ensures
            ({
                let b = s.spec_bytes();
                &&& (r is Ok <==> exists|i: int|
                    #[trigger] splits_at(b, i) && (i > 0 || i + 1 < b.len()) && digits_value(
                        b.subrange(0, i),
                    ) <= u32::MAX && digits_value(b.subrange(i + 1, b.len() as int)) <= u32::MAX)
                &&& forall|i: int|
                    #[trigger] splits_at(b, i) && i > 0 && i + 1 < b.len() && digits_value(
                        b.subrange(0, i),
                    ) <= u32::MAX && digits_value(b.subrange(i + 1, b.len() as int)) <= u32::MAX
                        ==> r == Ok::<ResizeDimension, CarveError>(
                        ResizeDimension::WidthHeight(
                            digits_value(b.subrange(0, i)) as u32,
                            digits_value(b.subrange(i + 1, b.len() as int)) as u32,
                        ),
                    )
                &&& forall|i: int|
                    #[trigger] splits_at(b, i) && i > 0 && i + 1 == b.len() && digits_value(
                        b.subrange(0, i),
                    ) <= u32::MAX ==> r == Ok::<ResizeDimension, CarveError>(
                        ResizeDimension::Width(digits_value(b.subrange(0, i)) as u32),
                    )
                &&& forall|i: int|
                    #[trigger] splits_at(b, i) && i == 0 && i + 1 < b.len() && digits_value(
                        b.subrange(i + 1, b.len() as int),
                    ) <= u32::MAX ==> r == Ok::<ResizeDimension, CarveError>(
                        ResizeDimension::Height(
                            digits_value(b.subrange(i + 1, b.len() as int)) as u32,
                        ),
                    )
                &&& r is Err ==> r == Err::<ResizeDimension, CarveError>(
                    CarveError::InvalidDimensionSpec,
                )
            }),
    {
        let b = s.as_bytes();
        let n = b.len();
        let ghost bs = s.spec_bytes();

        // Scan the digits of the width field, accumulating its value.
        let mut i: usize = 0;
        let mut pval: u64 = 0;
        let mut poverflow = false;
        while i < n && digit_at(b, i)
            invariant
                0 <= i <= n,
                b@ == bs,
                n == bs.len(),
                forall|j: int| 0 <= j < i ==> is_digit_byte(#[trigger] bs[j]),
                !poverflow ==> pval == digits_value(bs.subrange(0, i as int)) && pval <= u32::MAX,
                poverflow ==> digits_value(bs.subrange(0, i as int)) > u32::MAX,
            decreases n - i,
        {
            let c = *slice_index_get(b, i);
            proof {
                assert(bs.subrange(0, i + 1).drop_last() =~= bs.subrange(0, i as int));
                assert(bs.subrange(0, i + 1).last() == bs[i as int]);
                if poverflow {
                    assert(all_digits(bs.subrange(0, i as int)));
                    lemma_digits_value_nonneg(bs.subrange(0, i as int));
                }
            }
            if !poverflow {
                let nv: u64 = pval * 10 + ((c - 48) as u64);
                if nv > 4294967295 {
                    poverflow = true;
                } else {
                    pval = nv;
                }
            }
            i += 1;
        }

        if i == n {
            // Only digits, no separator: nothing can split the string.
            proof {
                assert forall|k: int| !(#[trigger] splits_at(bs, k)) by {
                    if 0 <= k < bs.len() {
                        assert(is_digit_byte(bs[k]));
                    }
                }
            }
            return Err(CarveError::InvalidDimensionSpec);
        }

        let c = *slice_index_get(b, i);
        if c != SEPARATOR {
            // Neither a digit nor the separator: nothing can split the string.
            proof {
                assert forall|k: int| !(#[trigger] splits_at(bs, k)) by {
                    if 0 <= k < bs.len() && bs[k] == SEPARATOR {
                        if k < i {
                            assert(is_digit_byte(bs[k]));
                        } else if k == i {
                        } else {
                            assert(bs.subrange(0, k)[i as int] == bs[i as int]);
                        }
                    }
                }
            }
            return Err(CarveError::InvalidDimensionSpec);
        }

        let xi = i;
        proof {
            lemma_unique_split(bs, xi as int);
        }

        // Scan the digits of the height field, accumulating its value.
        let mut j: usize = xi + 1;
        let mut val: u64 = 0;
        let mut soverflow = false;
        while j < n
            invariant
                xi + 1 <= j <= n,
                b@ == bs,
                bs == s.spec_bytes(),
                n == bs.len(),
                0 <= xi < n,
                bs[xi as int] == SEPARATOR,
                forall|k: int| 0 <= k < xi ==> is_digit_byte(#[trigger] bs[k]),
                forall|k: int| xi < k < j ==> is_digit_byte(#[trigger] bs[k]),
                !soverflow ==> val == digits_value(bs.subrange(xi + 1, j as int)) && val
                    <= u32::MAX,
                soverflow ==> digits_value(bs.subrange(xi + 1, j as int)) > u32::MAX,
            decreases n - j,
        {
            let c2 = *slice_index_get(b, j);
            if !(48 <= c2 && c2 <= 57) {
                // A stray byte after the separator: nothing can split the string.
                proof {
                    assert forall|k: int| !(#[trigger] splits_at(bs, k)) by {
                        if splits_at(bs, k) {
                            lemma_unique_split(bs, xi as int);
                            assert(k == xi);
                            assert(bs.subrange(xi + 1, bs.len() as int)[j - xi - 1] == bs[
                                j as int]);
                        }
                    }
                }
                return Err(CarveError::InvalidDimensionSpec);
            }
            proof {
                assert(bs.subrange(xi + 1, j + 1).drop_last() =~= bs.subrange(xi + 1, j as int));
                assert(bs.subrange(xi + 1, j + 1).last() == bs[j as int]);
                if soverflow {
                    assert(all_digits(bs.subrange(xi + 1, j as int)));
                    lemma_digits_value_nonneg(bs.subrange(xi + 1, j as int));
                }
            }
            if !soverflow {
                let nv: u64 = val * 10 + ((c2 - 48) as u64);
                if nv > 4294967295 {
                    soverflow = true;
                } else {
                    val = nv;
                }
            }
            j += 1;
        }

        proof {
            assert(splits_at(bs, xi as int)) by {
                assert(all_digits(bs.subrange(0, xi as int)));
                assert(all_digits(bs.subrange(xi + 1, bs.len() as int)));
            }
        }

        if poverflow || soverflow {
            return Err(CarveError::InvalidDimensionSpec);
        }
        if xi == 0 {
            if xi + 1 == n {
                // Just the separator, no digits at all.
                return Err(CarveError::InvalidDimensionSpec);
            }
            proof {
                assert(bs.subrange(xi + 1, j as int) =~= bs.subrange(xi + 1, bs.len() as int));
            }
            return Ok(ResizeDimension::Height(val as u32));
        }
        proof {
            assert(bs.subrange(0, xi as int) == bs.subrange(0, xi as int));
        }
        if xi + 1 == n {
            return Ok(ResizeDimension::Width(pval as u32));
        }
        proof {
            assert(bs.subrange(xi + 1, j as int) =~= bs.subrange(xi + 1, bs.len() as int));
        }
        Ok(ResizeDimension::WidthHeight(pval as u32, val as u32))
    }
}

} // verus!
