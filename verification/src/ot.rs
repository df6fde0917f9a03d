//! Operational-transformation model and cursor mapping.
//!
//! Edit operations are kept in the compact list representation of the
//! `operational_transform` crate: a run of primitives, each a *retain*, an
//! *insert* or a *delete*. This module gives that representation a
//! mathematical model (`SpecOp` lists over character sequences), states
//! contracts for the crate's `apply` and `transform` calls against that
//! model, and implements the cursor-offset mapping `transform_index` as
//! verified code.

use vstd::prelude::*;
use operational_transform::OperationSeq;
use operational_transform::Operation;
use operational_transform::OTError;

verus! {

/// Upper bound on the character length a committed edit may produce (256 KiB).
pub const MAX_TARGET_LEN: usize = 262144;

/// One primitive of an edit operation, in the mathematical model: character
/// counts are unbounded naturals and inserted text is a character sequence.
pub enum SpecOp {
    /// Keep the next `n` characters of the input.
    Retain(nat),
    /// Emit the given characters without consuming input.
    Insert(Seq<char>),
    /// Drop the next `n` characters of the input.
    Delete(nat),
}

/// The contents of an `OperationSeq`: its stored primitives, in order.
pub uninterp spec fn ops_of(op: OperationSeq) -> Seq<SpecOp>;

/// What `OperationSeq::transform` returns for the given pair of primitive
/// lists: the pair (a', b') of rebased operations.
pub uninterp spec fn transform_of(a: Seq<SpecOp>, b: Seq<SpecOp>) -> (Seq<SpecOp>, Seq<SpecOp>);

/// What `OperationSeq::compose` returns for the given pair of primitive
/// lists.
pub uninterp spec fn compose_of(a: Seq<SpecOp>, b: Seq<SpecOp>) -> Seq<SpecOp>;

/// Number of input characters an operation consumes: the sum of its retain
/// and delete counts.
pub open spec fn base_len_of(ops: Seq<SpecOp>) -> nat
    decreases ops.len(),
{
    if ops.len() == 0 {
        0
    } else {
        (match ops.first() {
            SpecOp::Retain(n) => n,
            SpecOp::Insert(_) => 0,
            SpecOp::Delete(n) => n,
        }) + base_len_of(ops.drop_first())
    }
}

/// Number of output characters an operation produces: the sum of its retain
/// counts and insert lengths.
pub open spec fn target_len_of(ops: Seq<SpecOp>) -> nat
    decreases ops.len(),
{
    if ops.len() == 0 {
        0
    } else {
        (match ops.first() {
            SpecOp::Retain(n) => n,
            SpecOp::Insert(t) => t.len(),
            SpecOp::Delete(_) => 0,
        }) + target_len_of(ops.drop_first())
    }
}

/// The text produced by applying an operation to input `s`: retained runs are
/// copied, inserted text is emitted, deleted runs are skipped. Meaningful when
/// `s.len() == base_len_of(ops)`.
pub open spec fn apply_of(ops: Seq<SpecOp>, s: Seq<char>) -> Seq<char>
    decreases ops.len(),
{
    if ops.len() == 0 {
        Seq::empty()
    } else {
        match ops.first() {
            SpecOp::Retain(n) => s.take(n as int) + apply_of(ops.drop_first(), s.skip(n as int)),
            SpecOp::Insert(t) => t + apply_of(ops.drop_first(), s),
            SpecOp::Delete(n) => apply_of(ops.drop_first(), s.skip(n as int)),
        }
    }
}

/// Applying an operation to an input of exactly its base length yields a text
/// of exactly its target length.
pub proof fn lemma_apply_len(ops: Seq<SpecOp>, s: Seq<char>)
    requires
        s.len() == base_len_of(ops),
    ensures
        apply_of(ops, s).len() == target_len_of(ops),
    decreases ops.len(),
{
    if ops.len() > 0 {
        match ops.first() {
            SpecOp::Retain(n) => {
                lemma_apply_len(ops.drop_first(), s.skip(n as int));
            }
            SpecOp::Insert(_) => {
                lemma_apply_len(ops.drop_first(), s);
            }
            SpecOp::Delete(n) => {
                lemma_apply_len(ops.drop_first(), s.skip(n as int));
            }
        }
    }
}

/// The operation obtained by rebasing `op` over each element of `hist` in
/// order, keeping the left component of each transform.
pub open spec fn rebased(op: Seq<SpecOp>, hist: Seq<Seq<SpecOp>>) -> Seq<SpecOp>
    decreases hist.len(),
{
    if hist.len() == 0 {
        op
    } else {
        rebased(transform_of(op, hist.first()).0, hist.drop_first())
    }
}

/// Rebasing over a history extended by one operation is rebasing over the
/// history and then transforming once more.
pub proof fn lemma_rebased_push(op: Seq<SpecOp>, hist: Seq<Seq<SpecOp>>, x: Seq<SpecOp>)
    ensures
        rebased(op, hist.push(x)) == transform_of(rebased(op, hist), x).0,
    decreases hist.len(),
{
    if hist.len() == 0 {
        assert(hist.push(x).first() == x);
        assert(hist.push(x).drop_first() =~= hist);
        assert(rebased(op, hist.push(x)) == rebased(transform_of(op, x).0, hist));
        assert(rebased(transform_of(op, x).0, hist) == transform_of(op, x).0);
    } else {
        assert(hist.push(x).first() == hist.first());
        assert(hist.push(x).drop_first() =~= hist.drop_first().push(x));
        assert(rebased(op, hist.push(x)) == rebased(
            transform_of(op, hist.first()).0,
            hist.drop_first().push(x),
        ));
        lemma_rebased_push(transform_of(op, hist.first()).0, hist.drop_first(), x);
        assert(rebased(op, hist) == rebased(transform_of(op, hist.first()).0, hist.drop_first()));
    }
}

/// The text reached by applying a history of operations, in order, starting
/// from the empty document.
pub open spec fn fold_apply(h: Seq<Seq<SpecOp>>) -> Seq<char>
    decreases h.len(),
{
    if h.len() == 0 {
        Seq::empty()
    } else {
        apply_of(h.last(), fold_apply(h.drop_last()))
    }
}

/// A history is chained when every operation's base length equals the length
/// of the text produced by the operations before it.
pub open spec fn chain_wf(h: Seq<Seq<SpecOp>>) -> bool {
    forall|k: int|
        0 <= k < h.len() ==> base_len_of(#[trigger] h[k]) == fold_apply(h.take(k)).len()
}

/// In a chained history, the text after `j + 1` operations is the `j`-th
/// operation applied to the text before it, and its length is that
/// operation's target length.
pub proof fn lemma_fold_step(h: Seq<Seq<SpecOp>>, j: int)
    requires
        chain_wf(h),
        0 <= j < h.len(),
    ensures
        fold_apply(h.take(j + 1)) == apply_of(h[j], fold_apply(h.take(j))),
        fold_apply(h.take(j + 1)).len() == target_len_of(h[j]),
{
    assert(h.take(j + 1).drop_last() =~= h.take(j));
    assert(h.take(j + 1).last() == h[j]);
    lemma_apply_len(h[j], fold_apply(h.take(j)));
}

/// The shape of a primitive: its kind and character count, as held in
/// executable code. Inserted text is reduced to its length, which is all the
/// cursor mapping needs.
#[derive(Clone, Copy, PartialEq, Eq, Structural, Debug)]
pub enum Prim {
    /// Keep the next `n` characters.
    Retain(u64),
    /// Emit `n` characters without consuming input.
    Insert(u64),
    /// Drop the next `n` characters.
    Delete(u64),
}

/// The shape of one model primitive.
pub open spec fn shape_of_one(o: SpecOp) -> Prim {
    match o {
        SpecOp::Retain(n) => Prim::Retain(n as u64),
        SpecOp::Insert(t) => Prim::Insert(t.len() as u64),
        SpecOp::Delete(n) => Prim::Delete(n as u64),
    }
}

/// The shape of an operation: each primitive reduced to kind and count.
pub open spec fn shape_of(ops: Seq<SpecOp>) -> Seq<Prim> {
    ops.map_values(|o: SpecOp| shape_of_one(o))
}

/// Base length computed from a shape.
pub open spec fn shape_base_len(ps: Seq<Prim>) -> nat
    decreases ps.len(),
{
    if ps.len() == 0 {
        0
    } else {
        (match ps.first() {
            Prim::Retain(n) => n as nat,
            Prim::Insert(_) => 0,
            Prim::Delete(n) => n as nat,
        }) + shape_base_len(ps.drop_first())
    }
}

/// Target length computed from a shape.
pub open spec fn shape_target_len(ps: Seq<Prim>) -> nat
    decreases ps.len(),
{
    if ps.len() == 0 {
        0
    } else {
        (match ps.first() {
            Prim::Retain(n) => n as nat,
            Prim::Insert(n) => n as nat,
            Prim::Delete(_) => 0,
        }) + shape_target_len(ps.drop_first())
    }
}

/// Where a character offset into an operation's input ends up in its output.
/// A retained run keeps the offset in step; an insert at or before the offset
/// shifts it right; a delete clamps an offset inside the deleted run to the
/// run's start, after which later primitives no longer matter.
pub open spec fn xform_index_of(ps: Seq<Prim>, i: nat) -> nat
    decreases ps.len(),
{
    if ps.len() == 0 {
        i
    } else {
        match ps.first() {
            Prim::Retain(n) => {
                if i < n as nat {
                    i
                } else {
                    (n as nat) + xform_index_of(ps.drop_first(), (i - n as nat) as nat)
                }
            }
            Prim::Insert(n) => (n as nat) + xform_index_of(ps.drop_first(), i),
            Prim::Delete(n) => {
                if i < n as nat {
                    0
                } else {
                    xform_index_of(ps.drop_first(), (i - n as nat) as nat)
                }
            }
        }
    }
}

/// An offset within the input is mapped to an offset within the output.
pub proof fn lemma_xform_index_bound(ps: Seq<Prim>, i: nat)
    requires
        i <= shape_base_len(ps),
    ensures
        xform_index_of(ps, i) <= shape_target_len(ps),
    decreases ps.len(),
{
    if ps.len() > 0 {
        match ps.first() {
            Prim::Retain(n) => {
                if i >= n as nat {
                    lemma_xform_index_bound(ps.drop_first(), (i - n as nat) as nat);
                }
            }
            Prim::Insert(_) => {
                lemma_xform_index_bound(ps.drop_first(), i);
            }
            Prim::Delete(n) => {
                if i >= n as nat {
                    lemma_xform_index_bound(ps.drop_first(), (i - n as nat) as nat);
                }
            }
        }
    }
}

/// `xform_index_of` saturated to the `u32` offsets carried on the wire.
pub open spec fn xform_u32(ps: Seq<Prim>, c: u32) -> u32 {
    if xform_index_of(ps, c as nat) > u32::MAX {
        u32::MAX
    } else {
        xform_index_of(ps, c as nat) as u32
    }
}

/// Maps a character offset through an operation given as a shape list.
/// Offsets whose image would not fit in `u32` saturate.
pub(crate) fn xform_prims(ps: &Vec<Prim>, position: u32) -> (r: u32)
    requires
        shape_target_len(ps@) <= u32::MAX,
    ensures
        r == xform_u32(ps@, position),
{
    let ghost whole: Seq<Prim> = ps@;
    let mut shift: u64 = 0;
    let mut rem: u64 = position as u64;
    let mut k: usize = 0;
    let mut done: bool = false;
    proof {
        assert(whole.skip(0) =~= whole);
    }
    while k < ps.len() && !done
        invariant
            0 <= k <= ps.len(),
            whole == ps@,
            shape_target_len(whole) <= u32::MAX,
            shift + rem <= position + shape_target_len(whole),
            !done ==> shift + rem + shape_target_len(whole.skip(k as int)) <= position
                + shape_target_len(whole),
            !done ==> xform_index_of(whole, position as nat) == shift
                + xform_index_of(whole.skip(k as int), rem as nat),
            done ==> xform_index_of(whole, position as nat) == shift + rem,
        decreases ps.len() - k,
    {
        proof {
            assert(whole.skip(k as int).first() == whole[k as int]);
            assert(whole.skip(k as int).drop_first() =~= whole.skip(k as int + 1));
        }
        match ps[k] {
            Prim::Retain(n) => {
                if rem < n {
                    done = true;
                } else {
                    shift = shift + n;
                    rem = rem - n;
                }
            }
            Prim::Insert(n) => {
                shift = shift + n;
            }
            Prim::Delete(n) => {
                if rem < n {
                    rem = 0;
                    done = true;
                } else {
                    rem = rem - n;
                }
            }
        }
        k = k + 1;
    }
    proof {
        if !done {
            assert(whole.skip(k as int) =~= Seq::<Prim>::empty());
        }
    }
    let total: u64 = shift + rem;
    if total > u32::MAX as u64 {
        u32::MAX
    } else {
        total as u32
    }
}

/// Maps a pre-edit character offset to the matching post-edit offset.
/// Never fails; for any operation a server would commit (target length within
/// the size cap) the result is exactly the model's `xform_index_of`.
pub fn transform_index(op: &OperationSeq, position: u32) -> (r: u32)
    ensures
        target_len_of(ops_of(*op)) <= u32::MAX ==> r == xform_u32(shape_of(ops_of(*op)), position),
{
    let prims = ot_ops(op);
    let t = ot_target_len(op);
    if t <= u32::MAX as usize {
        xform_prims(&prims, position)
    } else {
        position
    }
}

/// Rebases `a` and `b`, two operations over the same document state, into the
/// pair (a', b') that makes both edit paths converge. Fails exactly when the
/// base lengths differ.
pub fn transform(a: &OperationSeq, b: &OperationSeq) -> (r: Result<
    (OperationSeq, OperationSeq),
    OTError,
>)
    ensures
        r.is_ok() <==> base_len_of(ops_of(*a)) == base_len_of(ops_of(*b)),
        r matches Ok(p) ==> ops_of(p.0) == transform_of(ops_of(*a), ops_of(*b)).0 && ops_of(p.1)
            == transform_of(ops_of(*a), ops_of(*b)).1 && (forall|s: Seq<char>|
            s.len() == base_len_of(ops_of(*a)) ==> apply_of(ops_of(p.1), apply_of(ops_of(*a), s))
                == apply_of(ops_of(p.0), apply_of(ops_of(*b), s))),
{
    ot_transform(a, b)
}

/// Composes `a` then `b` into one operation with the same effect. Fails
/// exactly when `a`'s target length differs from `b`'s base length.
pub fn compose(a: &OperationSeq, b: &OperationSeq) -> (r: Result<OperationSeq, OTError>)
    ensures
        r.is_ok() <==> target_len_of(ops_of(*a)) == base_len_of(ops_of(*b)),
        r matches Ok(c) ==> ops_of(c) == compose_of(ops_of(*a), ops_of(*b)) && (forall|s: Seq<char>|
            s.len() == base_len_of(ops_of(*a)) ==> apply_of(ops_of(c), s) == apply_of(
                ops_of(*b),
                apply_of(ops_of(*a), s),
            )),
{
    ot_compose(a, b)
}

// ---------------------------------------------------------------------------
// Trusted boundary: the declarations and wrappers below are the only places
// where the `operational_transform` crate is relied on without proof. The
// crate builds every `OperationSeq` through its `retain`, `insert` and
// `delete` methods (deserialization included), which skip zero-length runs
// and maintain `base_len` and `target_len` as the running sums over the
// stored primitives; the contracts below lean on that.
// ---------------------------------------------------------------------------

#[verifier::external_type_specification]
#[verifier::external_body]
pub struct ExOperationSeq(OperationSeq);

#[verifier::external_type_specification]
#[verifier::external_body]
pub struct ExOTError(OTError);

/// Relies on `OperationSeq::default`: a fresh operation stores no primitives.
#[verifier::external_body]
pub(crate) fn ot_empty() -> (r: OperationSeq)
    ensures
        ops_of(r) == Seq::<SpecOp>::empty(),
{
    OperationSeq::default()
}

/// Relies on `OperationSeq::insert`: on a fresh operation it stores exactly
/// one insert primitive holding the given text, or nothing when the text is
/// empty.
#[verifier::external_body]
pub(crate) fn ot_insert(op: &mut OperationSeq, s: &str)
    requires
        ops_of(*old(op)) == Seq::<SpecOp>::empty(),
    ensures
        ops_of(*final(op)) == if s@.len() == 0 {
            Seq::<SpecOp>::empty()
        } else {
            seq![SpecOp::Insert(s@)]
        },
{
    op.insert(s)
}

/// Relies on `OperationSeq::base_len`, which the crate maintains as the sum
/// of the stored retain and delete counts.
#[verifier::external_body]
pub(crate) fn ot_base_len(op: &OperationSeq) -> (r: usize)
    ensures
        r as nat == base_len_of(ops_of(*op)),
{
    op.base_len()
}

/// Relies on `OperationSeq::target_len`, which the crate maintains as the sum
/// of the stored retain counts and insert lengths.
#[verifier::external_body]
pub(crate) fn ot_target_len(op: &OperationSeq) -> (r: usize)
    ensures
        r as nat == target_len_of(ops_of(*op)),
{
    op.target_len()
}

/// Relies on `OperationSeq::apply`: it fails exactly when the input's
/// character count differs from the operation's base length, and otherwise
/// copies retained runs, emits inserts and skips deleted runs, in order.
#[verifier::external_body]
pub(crate) fn ot_apply(op: &OperationSeq, s: &str) -> (r: Result<String, OTError>)
    ensures
        r.is_ok() <==> s@.len() == base_len_of(ops_of(*op)),
        r matches Ok(t) ==> t@ == apply_of(ops_of(*op), s@),
{
    op.apply(s)
}

/// Relies on `OperationSeq::transform`: it fails exactly when the two base
/// lengths differ (its scan consumes input positions of both operations in
/// lockstep, so with equal base lengths and no zero-length runs it cannot run
/// out early), and otherwise returns the rebased pair (a', b'), a
/// deterministic function of the two primitive lists, for which the crate
/// documents `apply(apply(s, a), b') == apply(apply(s, b), a')` together with
/// `base_len(a') == target_len(b)` and `base_len(b') == target_len(a)`.
#[verifier::external_body]
pub(crate) fn ot_transform(a: &OperationSeq, b: &OperationSeq) -> (r: Result<
    (OperationSeq, OperationSeq),
    OTError,
>)
    ensures
        r.is_ok() <==> base_len_of(ops_of(*a)) == base_len_of(ops_of(*b)),
        r matches Ok(p) ==> ops_of(p.0) == transform_of(ops_of(*a), ops_of(*b)).0 && ops_of(p.1)
            == transform_of(ops_of(*a), ops_of(*b)).1 && base_len_of(ops_of(p.0)) == target_len_of(
            ops_of(*b),
        ) && base_len_of(ops_of(p.1)) == target_len_of(ops_of(*a)) && (forall|s: Seq<char>|
            s.len() == base_len_of(ops_of(*a)) ==> apply_of(ops_of(p.1), apply_of(ops_of(*a), s))
                == apply_of(ops_of(p.0), apply_of(ops_of(*b), s))),
{
    a.transform(b)
}

/// Relies on `OperationSeq::compose`: it fails exactly when `a`'s target
/// length differs from `b`'s base length (its scan consumes `a`'s output in
/// lockstep with `b`'s input), and otherwise returns one
/// operation, a deterministic function of the two primitive lists, for which
/// the crate documents `apply(s, compose(a, b)) == apply(apply(s, a), b)`.
#[verifier::external_body]
pub(crate) fn ot_compose(a: &OperationSeq, b: &OperationSeq) -> (r: Result<OperationSeq, OTError>)
    ensures
        r.is_ok() <==> target_len_of(ops_of(*a)) == base_len_of(ops_of(*b)),
        r matches Ok(c) ==> ops_of(c) == compose_of(ops_of(*a), ops_of(*b)) && (forall|s: Seq<char>|
            s.len() == base_len_of(ops_of(*a)) ==> apply_of(ops_of(c), s) == apply_of(
                ops_of(*b),
                apply_of(ops_of(*a), s),
            )),
{
    a.compose(b)
}

/// Relies on `OperationSeq::ops`, which hands out the stored primitives in
/// order, and on the crate's maintained length sums matching those
/// primitives.
#[verifier::external_body]
pub(crate) fn ot_ops(op: &OperationSeq) -> (r: Vec<Prim>)
    ensures
        r@ == shape_of(ops_of(*op)),
        shape_base_len(r@) == base_len_of(ops_of(*op)),
        shape_target_len(r@) == target_len_of(ops_of(*op)),
{
    op.ops().iter().map(|o| match o {
        Operation::Retain(n) => Prim::Retain(*n),
        Operation::Insert(s) => Prim::Insert(s.chars().count() as u64),
        Operation::Delete(n) => Prim::Delete(*n),
    }).collect()
}

/// Relies on `OperationSeq`'s derived `Clone`, which copies the stored
/// primitives and length sums unchanged.
#[verifier::external_body]
pub(crate) fn ot_clone(op: &OperationSeq) -> (r: OperationSeq)
    ensures
        ops_of(r) == ops_of(*op),
{
    op.clone()
}

} // verus!
