//! The catalog: an ordered, validated table of field descriptors, and the
//! single left-to-right pass that turns the words read for each field into
//! the record's values.
use vstd::prelude::*;
use crate::fields::{Field, abs, sum_over, abs_sum_over, lemma_abs_sum_prefix};

verus! {

/// Why a list of descriptors is not a valid catalog.
#[derive(Clone, Copy, PartialEq, Eq, Debug, Structural)]
pub enum CatalogError {
    /// The field at this position sums a field at or after its own position.
    ForwardReference(usize),
    /// The values of the field at this position may not fit in an `i64`.
    OutOfRange(usize),
}

/// Largest magnitude of the value of a field, given those of earlier fields.
pub open spec fn field_bound(f: Field, prev: Seq<int>) -> int {
    if f.is_sum() {
        sum_over(prev, f.sum_of@)
    } else {
        f.direct_bound()
    }
}

/// The value bounds of the first `n` fields.
pub open spec fn bounds_upto(fields: Seq<Field>, n: nat) -> Seq<int>
    decreases n,
{
    if n == 0 {
        seq![]
    } else {
        let prev = bounds_upto(fields, (n - 1) as nat);
        prev.push(field_bound(fields[n - 1], prev))
    }
}

/// Every field summed by the field at position `i` stands before it.
pub open spec fn refs_backward(f: Field, i: int) -> bool {
    forall|k: int| 0 <= k < f.sum_of@.len() ==> f.sum_of@[k] < i
}

/// The field at position `i` refers backwards only and its values fit.
pub open spec fn field_valid(fields: Seq<Field>, i: int) -> bool {
    &&& refs_backward(fields[i], i)
    &&& bounds_upto(fields, (i + 1) as nat)[i] <= i64::MAX
}

/// Every field of the list is valid.
pub open spec fn catalog_valid(fields: Seq<Field>) -> bool {
    forall|i: int| 0 <= i < fields.len() ==> field_valid(fields, i)
}

/// `i` is the first position of an invalid field.
pub open spec fn first_invalid(fields: Seq<Field>, i: int) -> bool {
    &&& 0 <= i < fields.len()
    &&& !field_valid(fields, i)
    &&& forall|j: int| 0 <= j < i ==> field_valid(fields, j)
}

/// The value of a field, given the words read for it and the values of the
/// fields before it. A direct field with no words has the value 0.
pub open spec fn field_value(f: Field, words: Seq<u16>, prev: Seq<int>) -> int {
    if f.is_sum() {
        sum_over(prev, f.sum_of@)
    } else if words.len() == 0 {
        0
    } else {
        f.word_value(words)
    }
}

/// The values of the first `n` fields.
pub open spec fn values_upto(fields: Seq<Field>, words: Seq<Seq<u16>>, n: nat) -> Seq<int>
    decreases n,
{
    if n == 0 {
        seq![]
    } else {
        let prev = values_upto(fields, words, (n - 1) as nat);
        prev.push(field_value(fields[n - 1], words[n - 1], prev))
    }
}

/// The values of all the fields of the list.
pub open spec fn catalog_values(fields: Seq<Field>, words: Seq<Seq<u16>>) -> Seq<int> {
    values_upto(fields, words, fields.len())
}

/// Views of the word lists.
pub open spec fn words_view(words: Seq<Vec<u16>>) -> Seq<Seq<u16>> {
    words.map_values(|w: Vec<u16>| w@)
}

/// Views of machine integers.
pub open spec fn ints(v: Seq<i64>) -> Seq<int> {
    v.map_values(|x: i64| x as int)
}

/// An ordered table of field descriptors in which every sum refers to
/// earlier fields only and every value fits in an `i64`.
pub struct Catalog {
    fields: Vec<Field>,
}

impl Catalog {
    #[verifier::type_invariant]
    spec fn inv(&self) -> bool {
        catalog_valid(self.fields@)
    }

    pub closed spec fn view(&self) -> Seq<Field> {
        self.fields@
    }

    /// The descriptors, in catalog order; they form a valid catalog.
    pub fn fields(&self) -> (r: &Vec<Field>)
        ensures
            r@ == self@,
            catalog_valid(self@),
    {
        proof {
            use_type_invariant(self);
        }
        &self.fields
    }

    /// Number of fields.
    pub fn len(&self) -> (r: usize)
        ensures
            r == self@.len(),
    {
        self.fields.len()
    }

    /// Validates a list of descriptors. The first invalid field, if any, is
    /// reported: a forward or self reference first, a range overflow next.
    pub fn new(fields: Vec<Field>) -> (r: Result<Catalog, CatalogError>)
        ensures
            r is Ok <==> catalog_valid(fields@),
            r matches Ok(c) ==> c@ == fields@,
            forall|i: int|
                0 <= i < fields@.len() && !refs_backward(fields@[i], i) ==> r is Err,
            r matches Err(CatalogError::ForwardReference(i)) ==> i < fields@.len(),
            r matches Err(CatalogError::OutOfRange(i)) ==> i < fields@.len(),
            forall|i: usize|
                i < fields@.len() ==> (r == Err::<Catalog, CatalogError>(
                    CatalogError::ForwardReference(i),
                ) <==> first_invalid(fields@, i as int) && !refs_backward(fields@[i as int], i as int)),
            forall|i: usize|
                i < fields@.len() ==> (r == Err::<Catalog, CatalogError>(CatalogError::OutOfRange(i))
                    <==> first_invalid(fields@, i as int) && refs_backward(fields@[i as int], i as int)),
    {
        let mut bounds: Vec<u64> = Vec::new();
        let mut i: usize = 0;
        while i < fields.len()
            invariant
                i <= fields@.len(),
                bounds@.len() == i,
                ints_u(bounds@) == bounds_upto(fields@, i as nat),
                forall|j: int| 0 <= j < i ==> bounds@[j] <= i64::MAX,
                forall|j: int| 0 <= j < i ==> field_valid(fields@, j),
            decreases fields@.len() - i,
        {
            let f = &fields[i];
            let mut k: usize = 0;
            while k < f.sum_of.len()
                invariant
                    i < fields@.len(),
                    *f == fields@[i as int],
                    forall|j: int| 0 <= j < i ==> field_valid(fields@, j),
                    k <= f.sum_of@.len(),
                    forall|m: int| 0 <= m < k ==> f.sum_of@[m] < i,
                decreases f.sum_of@.len() - k,
            {
                if f.sum_of[k] >= i {
                    proof {
                        assert(!refs_backward(fields@[i as int], i as int));
                        lemma_first_invalid_unique(fields@, i as int);
                    }
                    return Err(CatalogError::ForwardReference(i));
                }
                k = k + 1;
            }
            let ghost prev = bounds_upto(fields@, i as nat);
            assert(bounds_upto(fields@, (i + 1) as nat) == prev.push(field_bound(fields@[i as int], prev)));
            let b: u128 = if f.sum_of.len() > 0 {
                let mut acc: u128 = 0;
                let mut k: usize = 0;
                while k < f.sum_of.len()
                    invariant
                        k <= f.sum_of@.len(),
                        i < fields@.len(),
                        *f == fields@[i as int],
                        refs_backward(*f, i as int),
                        bounds@.len() == i,
                        ints_u(bounds@) == prev,
                        forall|j: int| 0 <= j < i ==> bounds@[j] <= i64::MAX,
                        acc == sum_over(prev, f.sum_of@.take(k as int)),
                        acc <= k * (i64::MAX as int),
                    decreases f.sum_of@.len() - k,
                {
                    let idx = f.sum_of[k];
                    proof {
                        assert(f.sum_of@.take(k as int + 1).drop_last() == f.sum_of@.take(k as int));
                        assert(k * (i64::MAX as int) + i64::MAX == (k + 1) * (i64::MAX as int)) by (nonlinear_arith);
                        assert((k + 1) * (i64::MAX as int) <= (usize::MAX as int) * (i64::MAX as int)) by (nonlinear_arith)
                            requires k < usize::MAX;
                    }
                    acc = acc + bounds[idx] as u128;
                    k = k + 1;
                }
                assert(f.sum_of@.take(k as int) == f.sum_of@);
                acc
            } else {
                let s = f.scale as i128;
                let s = if s < 0 { -s } else { s };
                let c = f.bias as i128;
                let c = if c < 0 { -c } else { c };
                assert(s * 2147483648 <= 9223372036854775808 * 2147483648) by (nonlinear_arith)
                    requires 0 <= s <= 9223372036854775808;
                (s * 2147483648 + c) as u128
            };
            assert(b == field_bound(fields@[i as int], prev));
            if b > i64::MAX as u128 {
                proof {
                    assert(!field_valid(fields@, i as int));
                    lemma_first_invalid_unique(fields@, i as int);
                }
                return Err(CatalogError::OutOfRange(i));
            }
            bounds.push(b as u64);
            proof {
                assert(ints_u(bounds@) == bounds_upto(fields@, (i + 1) as nat));
                assert(field_valid(fields@, i as int));
            }
            i = i + 1;
        }
        assert forall|j: int| 0 <= j < fields@.len() implies refs_backward(fields@[j], j) by {
            assert(field_valid(fields@, j));
        }
        Ok(Catalog { fields })
    }

    /// Computes the values of all fields in one pass, in catalog order: a
    /// direct field decodes its words (0 where it has none), a sum field adds
    /// up the values already computed for the fields it refers to.
    pub fn evaluate(&self, words: &Vec<Vec<u16>>) -> (r: Vec<i64>)
        requires
            words@.len() == self@.len(),
            forall|i: int| 0 <= i < self@.len() ==> #[trigger] words@[i]@.len() <= 2,
        ensures
            r@.len() == self@.len(),
            ints(r@) == catalog_values(self@, words_view(words@)),
    {
        proof {
            use_type_invariant(self);
        }
        let ghost fields = self.fields@;
        let ghost w = words_view(words@);
        let mut values: Vec<i64> = Vec::new();
        let mut i: usize = 0;
        while i < self.fields.len()
            invariant
                i <= fields.len(),
                fields == self.fields@,
                catalog_valid(fields),
                w == words_view(words@),
                words@.len() == fields.len(),
                forall|j: int| 0 <= j < fields.len() ==> #[trigger] words@[j]@.len() <= 2,
                values@.len() == i,
                ints(values@) == values_upto(fields, w, i as nat),
                bounds_upto(fields, i as nat).len() == i,
                forall|j: int|
                    0 <= j < i ==> abs(#[trigger] values@[j] as int) <= bounds_upto(
                        fields,
                        i as nat,
                    )[j],
            decreases fields.len() - i,
        {
            let f = &self.fields[i];
            let ghost prev_v = values_upto(fields, w, i as nat);
            let ghost prev_b = bounds_upto(fields, i as nat);
            assert(field_valid(fields, i as int));
            assert(bounds_upto(fields, (i + 1) as nat) == prev_b.push(field_bound(*f, prev_b)));
            assert(values_upto(fields, w, (i + 1) as nat) == prev_v.push(
                field_value(*f, w[i as int], prev_v),
            ));
            let v: i64 = if f.sum_of.len() > 0 {
                proof {
                    lemma_abs_sum_within(prev_v, prev_b, f.sum_of@, i as int);
                }
                f.from_sum(&values)
            } else if words[i].len() == 0 {
                0
            } else {
                f.from_u16s(&words[i])
            };
            proof {
                if f.sum_of.len() > 0 {
                    lemma_abs_sum_prefix(prev_v, f.sum_of@, f.sum_of@.len() as int);
                    assert(f.sum_of@.take(f.sum_of@.len() as int) == f.sum_of@);
                }
            }
            assert(abs(v as int) <= field_bound(*f, prev_b));
            values.push(v);
            i = i + 1;
        }
        values
    }
}

/// Finds the first descriptor with the given stable identifier.
pub fn position_of(fields: &Vec<Field>, id: &str) -> (r: Option<usize>)
    ensures
        match r {
            Some(i) => i < fields@.len() && fields@[i as int].id@ == id@ && forall|j: int|
                0 <= j < i ==> #[trigger] fields@[j].id@ != id@,
            None => forall|j: int| 0 <= j < fields@.len() ==> #[trigger] fields@[j].id@ != id@,
        },
{
    let target = String::from_str(id);
    let mut i: usize = 0;
    while i < fields.len()
        invariant
            i <= fields@.len(),
            target@ == id@,
            forall|j: int| 0 <= j < i ==> #[trigger] fields@[j].id@ != id@,
        decreases fields@.len() - i,
    {
        if fields[i].id == target {
            return Some(i);
        }
        i = i + 1;
    }
    None
}

/// Views of unsigned machine integers.
pub open spec fn ints_u(v: Seq<u64>) -> Seq<int> {
    v.map_values(|x: u64| x as int)
}

/// Only one position can be the first invalid one.
proof fn lemma_first_invalid_unique(fields: Seq<Field>, i: int)
    requires
        first_invalid(fields, i),
    ensures
        forall|j: int| first_invalid(fields, j) ==> j == i,
{
    assert forall|j: int| first_invalid(fields, j) implies j == i by {
        if j < i {
            assert(field_valid(fields, j));
        } else if j > i {
            assert(field_valid(fields, i));
        }
    }
}

/// Where each summed value is within its bound, the magnitude sum is within
/// the sum of the bounds.
proof fn lemma_abs_sum_within(vals: Seq<int>, bnds: Seq<int>, idxs: Seq<usize>, n: int)
    requires
        vals.len() == n,
        bnds.len() == n,
        forall|k: int| 0 <= k < idxs.len() ==> idxs[k] < n,
        forall|j: int| 0 <= j < n ==> abs(#[trigger] vals[j]) <= bnds[j],
    ensures
        abs_sum_over(vals, idxs) <= sum_over(bnds, idxs),
    decreases idxs.len(),
{
    if idxs.len() > 0 {
        lemma_abs_sum_within(vals, bnds, idxs.drop_last(), n);
        let last = idxs.last() as int;
        assert(abs(vals[last]) <= bnds[last]);
    }
}

} // verus!
