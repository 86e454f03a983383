use crate::error::AggregationError;
use vstd::arithmetic::div_mod::*;
use vstd::arithmetic::mul::*;
use vstd::prelude::*;
use vstd::seq_lib::*;

verus! {

/// The wire groups, or value groups, that a list of vectors stands for.
pub open spec fn group_views<W>(groups: Seq<Vec<W>>) -> Seq<Seq<W>> {
    groups.map_values(|g: Vec<W>| g@)
}

/// Every group has exactly `width` entries.
pub open spec fn has_width<W>(groups: Seq<Seq<W>>, width: nat) -> bool {
    forall|i: int| 0 <= i < groups.len() ==> (#[trigger] groups[i]).len() == width
}

/// A flat sequence of `len` entries can be cut into statements of `width` entries.
pub open spec fn aligned(len: nat, width: nat) -> bool {
    width > 0 && len % width == 0
}

/// The `i`-th statement of `width` entries in a flat sequence.
pub open spec fn statement_at<W>(flat: Seq<W>, width: nat, i: int) -> Seq<W> {
    flat.subrange(i * width, (i + 1) * width)
}

/// A flat sequence cut into consecutive statements of `width` entries.
pub open spec fn split<W>(flat: Seq<W>, width: nat) -> Seq<Seq<W>> {
    Seq::new((flat.len() / width) as nat, |i: int| statement_at(flat, width, i))
}

/// A list of groups taken `arity` at a time, each run concatenated into one group: what a
/// layer of circuits with `arity` children each publishes, given what the children publish.
pub open spec fn regroup<W>(groups: Seq<Seq<W>>, arity: nat) -> Seq<Seq<W>> {
    Seq::new(
        (groups.len() / arity) as nat,
        |c: int| groups.subrange(c * arity, (c + 1) * arity).flatten(),
    )
}

/// Groups of one width, concatenated, have as many entries as groups times width: a layer
/// with `a` children of `w` public inputs each has `a * w` public inputs.
pub proof fn lemma_flatten_width<W>(groups: Seq<Seq<W>>, width: nat)
    requires
        has_width(groups, width),
    ensures
        groups.flatten().len() == groups.len() * width,
    decreases groups.len(),
{
    if groups.len() == 0 {
        lemma_mul_basics(width as int);
    } else {
        let front = groups.drop_last();
        assert(has_width(front, width));
        lemma_flatten_width(front, width);
        assert(front.push(groups.last()) =~= groups);
        front.lemma_flatten_push(groups.last());
        lemma_mul_is_distributive_add_other_way(width as int, front.len() as int, 1);
    }
}

/// In groups of one width, concatenated, the `i`-th statement is the `i`-th group.
pub proof fn lemma_statement_of_flatten<W>(groups: Seq<Seq<W>>, width: nat, i: int)
    requires
        has_width(groups, width),
        0 <= i < groups.len(),
    ensures
        0 <= i * width,
        (i + 1) * width <= groups.flatten().len(),
        statement_at(groups.flatten(), width, i) == groups[i],
    decreases groups.len(),
{
    let front = groups.drop_last();
    assert(has_width(front, width));
    assert(front.push(groups.last()) =~= groups);
    front.lemma_flatten_push(groups.last());
    lemma_flatten_width(front, width);
    lemma_flatten_width(groups, width);
    lemma_mul_is_distributive_add_other_way(width as int, i, 1);
    lemma_mul_nonnegative(i, width as int);
    if i == groups.len() - 1 {
        assert(statement_at(groups.flatten(), width, i) =~= groups[i]);
    } else {
        lemma_statement_of_flatten(front, width, i);
        assert(statement_at(groups.flatten(), width, i) =~= statement_at(
            front.flatten(),
            width,
            i,
        ));
    }
}

/// Cutting the concatenation of groups of one width gives the groups back.
pub proof fn lemma_split_of_flatten<W>(groups: Seq<Seq<W>>, width: nat)
    requires
        has_width(groups, width),
        width > 0,
    ensures
        aligned(groups.flatten().len(), width),
        split(groups.flatten(), width) == groups,
{
    lemma_flatten_width(groups, width);
    lemma_div_multiples_vanish(groups.len() as int, width as int);
    lemma_mod_multiples_basic(groups.len() as int, width as int);
    assert forall|i: int| 0 <= i < groups.len() implies split(groups.flatten(), width)[i]
        == groups[i] by {
        lemma_statement_of_flatten(groups, width, i);
    }
    assert(split(groups.flatten(), width) =~= groups);
}

/// The statements that a flat sequence is cut into all have the width asked for.
pub proof fn lemma_split_width<W>(flat: Seq<W>, width: nat)
    requires
        aligned(flat.len(), width),
    ensures
        has_width(split(flat, width), width),
        split(flat, width).len() * width == flat.len(),
{
    let count = flat.len() / width;
    lemma_fundamental_div_mod(flat.len() as int, width as int);
    lemma_mul_is_commutative(count as int, width as int);
    assert forall|i: int| 0 <= i < count implies (#[trigger] split(flat, width)[i]).len()
        == width by {
        lemma_statement_bounds(flat.len(), width, i);
    }
}

/// The `i`-th of the statements that fit into `len` entries lies within them.
pub proof fn lemma_statement_bounds(len: nat, width: nat, i: int)
    requires
        width > 0,
        0 <= i < len / width,
    ensures
        0 <= i * width,
        (i + 1) * width == i * width + width,
        (i + 1) * width <= len,
{
    lemma_fundamental_div_mod(len as int, width as int);
    lemma_mul_is_distributive_add_other_way(width as int, i, 1);
    lemma_mul_nonnegative(i, width as int);
    lemma_mul_inequality(i + 1, (len / width) as int, width as int);
    lemma_mul_is_commutative((len / width) as int, width as int);
}

/// Concatenating the statements that a flat sequence was cut into gives it back.
pub proof fn lemma_flatten_of_split<W>(flat: Seq<W>, width: nat)
    requires
        aligned(flat.len(), width),
    ensures
        split(flat, width).flatten() == flat,
{
    lemma_split_width(flat, width);
    let parts = split(flat, width);
    lemma_flatten_width(parts, width);
    assert forall|k: int| 0 <= k < flat.len() implies parts.flatten()[k] == flat[k] by {
        let i = k / (width as int);
        let r = k % (width as int);
        lemma_fundamental_div_mod(k, width as int);
        lemma_mul_is_commutative(i, width as int);
        lemma_div_pos_is_pos(k, width as int);
        assert(k == i * width + r);
        if i >= parts.len() {
            lemma_mul_inequality(parts.len() as int, i, width as int);
        }
        lemma_statement_of_flatten(parts, width, i);
        lemma_statement_bounds(flat.len(), width, i);
        assert(statement_at(parts.flatten(), width, i)[r] == parts.flatten()[i * width + r]);
        assert(parts[i][r] == flat[i * width + r]);
    }
    assert(parts.flatten() =~= flat);
}

/// Regrouping does not change what the groups hold in all: the public inputs of a layer,
/// concatenated in order, are those of the layer below it.
pub proof fn lemma_regroup_flatten<W>(groups: Seq<Seq<W>>, arity: nat)
    requires
        aligned(groups.len(), arity),
    ensures
        regroup(groups, arity).len() * arity == groups.len(),
        regroup(groups, arity).flatten() == groups.flatten(),
{
    lemma_split_width(groups, arity);
    lemma_flatten_of_split(groups, arity);
    let parts = split(groups, arity);
    assert(regroup(groups, arity) =~= parts.map_values(|p: Seq<Seq<W>>| p.flatten()));
    lemma_flatten_twice(parts);
}

/// Concatenating inner lists first, or outer lists first, comes to the same.
pub proof fn lemma_flatten_twice<W>(parts: Seq<Seq<Seq<W>>>)
    ensures
        parts.map_values(|p: Seq<Seq<W>>| p.flatten()).flatten() == parts.flatten().flatten(),
    decreases parts.len(),
{
    let inner = parts.map_values(|p: Seq<Seq<W>>| p.flatten());
    if parts.len() == 0 {
        assert(inner.flatten() =~= parts.flatten().flatten());
    } else {
        let front = parts.drop_last();
        lemma_flatten_twice(front);
        assert(front.push(parts.last()) =~= parts);
        front.lemma_flatten_push(parts.last());
        let inner_front = front.map_values(|p: Seq<Seq<W>>| p.flatten());
        assert(inner_front.push(parts.last().flatten()) =~= inner);
        inner_front.lemma_flatten_push(parts.last().flatten());
        lemma_flatten_concat(front.flatten(), parts.last());
    }
}

/// The statements of a layer, laid out for publication: the groups one after another, the
/// first group in the lowest places, nothing reordered and nothing left out.
pub fn concat_statements<W: Copy>(groups: &[Vec<W>]) -> (flat: Vec<W>)
    ensures
        flat@ == group_views(groups@).flatten(),
{
    let mut flat: Vec<W> = Vec::new();
    let mut g: usize = 0;
    proof {
        assert(group_views(groups@).take(0) =~= Seq::<Seq<W>>::empty());
    }
    while g < groups.len()
        invariant
            g <= groups@.len(),
            flat@ == group_views(groups@).take(g as int).flatten(),
        decreases groups@.len() - g,
    {
        let group = &groups[g];
        let ghost before = flat@;
        let mut j: usize = 0;
        while j < group.len()
            invariant
                j <= group@.len(),
                flat@ == before + group@.take(j as int),
            decreases group@.len() - j,
        {
            flat.push(group[j]);
            proof {
                assert(group@.take(j + 1) =~= group@.take(j as int).push(group@[j as int]));
            }
            j += 1;
        }
        proof {
            let views = group_views(groups@);
            assert(group@.take(j as int) =~= group@);
            assert(views.take(g + 1) =~= views.take(g as int).push(group@));
            views.take(g as int).lemma_flatten_push(group@);
        }
        g += 1;
    }
    proof {
        assert(group_views(groups@).take(g as int) =~= group_views(groups@));
    }
    flat
}

/// Cuts a flat sequence of public inputs into statements of `width` entries each, in order.
pub fn split_statements<W: Copy>(public_inputs: &[W], width: usize) -> (r: Result<
    Vec<Vec<W>>,
    AggregationError,
>)
    ensures
        r is Err <==> !aligned(public_inputs@.len(), width as nat),
        r matches Err(e) ==> e == AggregationError::MisalignedPublicInputs,
        r matches Ok(parts) ==> group_views(parts@) == split(public_inputs@, width as nat),
{
    if width == 0 || public_inputs.len() % width != 0 {
        return Err(AggregationError::MisalignedPublicInputs);
    }
    let len = public_inputs.len();
    let count = len / width;
    let mut parts: Vec<Vec<W>> = Vec::new();
    let mut i: usize = 0;
    let mut start: usize = 0;
    proof {
        lemma_mul_basics(width as int);
    }
    while i < count
        invariant
            width > 0,
            len == public_inputs@.len(),
            count == len / width,
            i <= count,
            start == i * width,
            parts@.len() == i,
            forall|k: int|
                0 <= k < i ==> (#[trigger] parts@[k])@ == statement_at(
                    public_inputs@,
                    width as nat,
                    k,
                ),
        decreases count - i,
    {
        proof {
            lemma_statement_bounds(public_inputs@.len(), width as nat, i as int);
        }
        let mut part: Vec<W> = Vec::new();
        let mut j: usize = 0;
        while j < width
            invariant
                j <= width,
                len == public_inputs@.len(),
                start + width <= len,
                part@ == public_inputs@.subrange(start as int, start + j),
            decreases width - j,
        {
            part.push(public_inputs[start + j]);
            proof {
                assert(public_inputs@.subrange(start as int, start + j + 1)
                    =~= public_inputs@.subrange(start as int, start + j).push(
                    public_inputs@[start + j],
                ));
            }
            j += 1;
        }
        parts.push(part);
        start += width;
        i += 1;
    }
    proof {
        assert(group_views(parts@) =~= split(public_inputs@, width as nat));
    }
    Ok(parts)
}

} // verus!
