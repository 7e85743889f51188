use vstd::prelude::*;
use crate::error::{ErrorModel, InspectError};
use crate::text::{append_decimal, decimal};

verus! {

/// The number of elements of a tensor of the given shape, multiplied out
/// dimension by dimension; `None` as soon as a partial product exceeds
/// `u128::MAX`.
pub open spec fn checked_numel(shape: Seq<usize>) -> Option<nat>
    decreases shape.len(),
{
    if shape.len() == 0 {
        Some(1)
    } else {
        match checked_numel(shape.drop_last()) {
            None => None,
            Some(p) => if p * (shape.last() as nat) > u128::MAX {
                None
            } else {
                Some(p * (shape.last() as nat))
            },
        }
    }
}

/// The product of the dimensions of a shape.
pub open spec fn shape_product(shape: Seq<usize>) -> nat
    decreases shape.len(),
{
    if shape.len() == 0 {
        1
    } else {
        shape_product(shape.drop_last()) * (shape.last() as nat)
    }
}

proof fn lemma_checked_numel_stays_none(shape: Seq<usize>, j: int, k: int)
    requires
        0 <= j <= k <= shape.len(),
        checked_numel(shape.take(j)) is None,
    ensures
        checked_numel(shape.take(k)) is None,
    decreases k - j,
{
    if j < k {
        lemma_checked_numel_stays_none(shape, j, k - 1);
        assert(shape.take(k).drop_last() =~= shape.take(k - 1));
    }
}

/// The number of elements of a tensor of shape `shape` (the product of its
/// dimensions); an `Overflow` error naming the tensor where that product does
/// not fit in a `u128`.
pub fn numel(shape: &[usize], tensor_name: &str) -> (res: Result<u128, InspectError>)
    ensures
        match checked_numel(shape@) {
            Some(n) => res == Ok::<u128, InspectError>(n as u128),
            None => res matches Err(e) && e@ == (ErrorModel::Overflow { tensor: tensor_name@ }),
        },
{
    let mut acc: u128 = 1;
    let mut i: usize = 0;
    proof {
        assert(shape@.take(0) =~= Seq::<usize>::empty());
    }
    while i < shape.len()
        invariant
            i <= shape@.len(),
            checked_numel(shape@.take(i as int)) == Some(acc as nat),
        decreases shape@.len() - i,
    {
        let dim = shape[i];
        proof {
            assert(shape@.take(i + 1).drop_last() =~= shape@.take(i as int));
            assert(shape@.take(i + 1).last() == dim);
        }
        match acc.checked_mul(dim as u128) {
            Some(next) => {
                acc = next;
            },
            None => {
                proof {
                    lemma_checked_numel_stays_none(shape@, i + 1, shape@.len() as int);
                    assert(shape@.take(shape@.len() as int) =~= shape@);
                }
                return Err(InspectError::Overflow { tensor: tensor_name.to_owned() });
            },
        }
        i = i + 1;
    }
    proof {
        assert(shape@.take(shape@.len() as int) =~= shape@);
    }
    Ok(acc)
}

/// The dimensions of a shape in decimal, separated by `, `.
pub open spec fn joined_dims(shape: Seq<usize>) -> Seq<char>
    decreases shape.len(),
{
    if shape.len() == 0 {
        Seq::empty()
    } else if shape.len() == 1 {
        decimal(shape[0] as nat)
    } else {
        joined_dims(shape.drop_last()) + ", "@ + decimal(shape.last() as nat)
    }
}

/// How a shape is shown: its dimensions in square brackets, such as `[2, 3, 4]`.
pub open spec fn shape_text(shape: Seq<usize>) -> Seq<char> {
    "["@ + joined_dims(shape) + "]"@
}

/// Shows a shape as its dimensions in square brackets.
pub fn format_shape(shape: &[usize]) -> (text: String)
    ensures
        text@ == shape_text(shape@),
{
    let mut out = String::new();
    out.append("[");
    let mut i: usize = 0;
    proof {
        assert(shape@.take(0) =~= Seq::<usize>::empty());
        assert(out@ =~= "["@ + joined_dims(shape@.take(0)));
    }
    while i < shape.len()
        invariant
            i <= shape@.len(),
            out@ == "["@ + joined_dims(shape@.take(i as int)),
        decreases shape@.len() - i,
    {
        let ghost before = out@;
        if i > 0 {
            out.append(", ");
        }
        append_decimal(&mut out, shape[i] as u128);
        proof {
            let next = shape@.take(i + 1);
            assert(next.drop_last() =~= shape@.take(i as int));
            assert(next.last() == shape@[i as int]);
            if i == 0 {
                assert(next.len() == 1);
                assert(joined_dims(next) == decimal(shape@[0] as nat));
                assert(out@ =~= "["@ + joined_dims(next));
            } else {
                assert(joined_dims(next) == joined_dims(shape@.take(i as int)) + ", "@ + decimal(
                    shape@[i as int] as nat,
                ));
                assert(out@ =~= "["@ + joined_dims(next));
            }
        }
        i = i + 1;
    }
    out.append("]");
    proof {
        assert(shape@.take(shape@.len() as int) =~= shape@);
    }
    out
}

} // verus!
