//! Byte strings laid out as consecutive parts.
use vstd::prelude::*;

verus! {

/// Where part `k` of a layout starts: the bytes of the parts before it.
pub open spec fn start(parts: Seq<Seq<u8>>, k: nat) -> nat
    decreases k,
{
    if k == 0 {
        0
    } else {
        start(parts, (k - 1) as nat) + parts[k - 1].len()
    }
}

/// Starts depend only on the parts before them.
pub proof fn lemma_start_prefix(a: Seq<Seq<u8>>, b: Seq<Seq<u8>>, k: nat)
    requires
        k <= a.len(),
        k <= b.len(),
        forall|i: int| 0 <= i < k ==> a[i] == b[i],
    ensures
        start(a, k) == start(b, k),
    decreases k,
{
    if k > 0 {
        lemma_start_prefix(a, b, (k - 1) as nat);
    }
}

/// A part ends no later than any later part starts.
pub proof fn lemma_start_monotone(parts: Seq<Seq<u8>>, i: nat, j: nat)
    requires
        i <= j,
    ensures
        start(parts, i) <= start(parts, j),
    decreases j,
{
    if i < j {
        lemma_start_monotone(parts, i, (j - 1) as nat);
    }
}

/// The layout of `parts` followed by one more part.
pub proof fn lemma_flatten_push(parts: Seq<Seq<u8>>, last: Seq<u8>)
    ensures
        parts.push(last).flatten() == parts.flatten() + last,
{
    parts.lemma_flatten_push(last);
}

/// A layout is as long as all of its parts.
pub proof fn lemma_flatten_len(parts: Seq<Seq<u8>>)
    ensures
        parts.flatten().len() == start(parts, parts.len()),
    decreases parts.len(),
{
    if parts.len() > 0 {
        let init = parts.drop_last();
        lemma_flatten_len(init);
        lemma_flatten_push(init, parts.last());
        assert(init.push(parts.last()) =~= parts);
        lemma_start_prefix(init, parts, init.len());
    }
}

/// The bytes of `b` where part `k` of a layout stands.
pub open spec fn slot(parts: Seq<Seq<u8>>, k: int, b: Seq<u8>) -> Seq<u8> {
    b.subrange(start(parts, k as nat) as int, start(parts, (k + 1) as nat) as int)
}

/// Each part stands in its slot of the layout.
pub proof fn lemma_part_at(parts: Seq<Seq<u8>>, k: int)
    requires
        0 <= k < parts.len(),
    ensures
        start(parts, (k + 1) as nat) <= parts.flatten().len(),
        start(parts, (k + 1) as nat) == start(parts, k as nat) + parts[k].len(),
        slot(parts, k, parts.flatten()) == parts[k],
    decreases parts.len(),
{
    let init = parts.drop_last();
    lemma_flatten_push(init, parts.last());
    assert(init.push(parts.last()) =~= parts);
    lemma_flatten_len(init);
    lemma_flatten_len(parts);
    lemma_start_prefix(init, parts, init.len());
    lemma_start_monotone(parts, (k + 1) as nat, parts.len());
    if k < init.len() {
        lemma_part_at(init, k);
        lemma_start_prefix(init, parts, k as nat);
        lemma_start_prefix(init, parts, (k + 1) as nat);
        assert(slot(parts, k, parts.flatten()) =~= slot(init, k, init.flatten()));
    } else {
        assert(slot(parts, k, parts.flatten()) =~= parts.last());
    }
}

/// Bytes that hold each part in its slot, and nothing after the last, are the layout.
pub proof fn lemma_layout_unique(parts: Seq<Seq<u8>>, b: Seq<u8>)
    requires
        b.len() == start(parts, parts.len()),
        forall|k: int| 0 <= k < parts.len() ==> slot(parts, k, b) == #[trigger] parts[k],
    ensures
        parts.flatten() == b,
    decreases parts.len(),
{
    if parts.len() > 0 {
        let init = parts.drop_last();
        let cut = start(parts, init.len()) as int;
        let head = b.subrange(0, cut);
        lemma_start_prefix(init, parts, init.len());
        assert forall|k: int| 0 <= k < init.len() implies slot(init, k, head)
            == #[trigger] init[k] by {
            lemma_start_prefix(init, parts, k as nat);
            lemma_start_prefix(init, parts, (k + 1) as nat);
            lemma_start_monotone(parts, (k + 1) as nat, init.len());
            assert(parts[k] == init[k]);
            assert(slot(init, k, head) =~= slot(parts, k, b));
        }
        lemma_layout_unique(init, head);
        lemma_flatten_push(init, parts.last());
        assert(init.push(parts.last()) =~= parts);
        assert(parts[init.len() as int] == slot(parts, init.len() as int, b));
        assert(b =~= head + parts.last());
    } else {
        assert(b =~= parts.flatten());
    }
}

/// In two layouts one after the other, the second is shifted by the length of the first.
pub proof fn lemma_start_concat(a: Seq<Seq<u8>>, b: Seq<Seq<u8>>, i: nat)
    requires
        i <= b.len(),
    ensures
        start(a + b, a.len() + i) == start(a, a.len()) + start(b, i),
    decreases i,
{
    if i == 0 {
        lemma_start_prefix(a, a + b, a.len());
    } else {
        lemma_start_concat(a, b, (i - 1) as nat);
        assert((a + b)[a.len() + i - 1] == b[i - 1]);
    }
}

/// In a layout of parts of one width, parts start at multiples of it.
pub proof fn lemma_start_uniform(parts: Seq<Seq<u8>>, width: nat, i: nat)
    requires
        i <= parts.len(),
        forall|k: int| 0 <= k < parts.len() ==> (#[trigger] parts[k]).len() == width,
    ensures
        start(parts, i) == width * i,
    decreases i,
{
    if i > 0 {
        lemma_start_uniform(parts, width, (i - 1) as nat);
        assert(parts[i - 1].len() == width);
        assert(width * (i - 1) + width == width * i) by (nonlinear_arith)
            requires
                i > 0,
        ;
    } else {
        assert(width * 0 == 0) by (nonlinear_arith);
    }
}

/// Parts of at least some width start no earlier than multiples of it.
pub proof fn lemma_start_at_least(parts: Seq<Seq<u8>>, width: nat, i: nat)
    requires
        i <= parts.len(),
        forall|k: int| 0 <= k < parts.len() ==> (#[trigger] parts[k]).len() >= width,
    ensures
        start(parts, i) >= width * i,
    decreases i,
{
    if i > 0 {
        lemma_start_at_least(parts, width, (i - 1) as nat);
        assert(parts[i - 1].len() >= width);
        assert(width * (i - 1) + width == width * i) by (nonlinear_arith)
            requires
                i > 0,
        ;
    } else {
        assert(width * 0 == 0) by (nonlinear_arith);
    }
}

} // verus!
