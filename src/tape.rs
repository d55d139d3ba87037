//! A tape (Wengert list) of elementary operations, handles into it, and the
//! backward pass that accumulates adjoints.
//!
//! The numeric type is a parameter: anything that offers the elementary
//! functions through [`Scalar`] can be recorded.  The contracts cover the
//! structure of the tape and of the backward pass; the arithmetic itself is
//! carried out by the scalar type.
use core::marker::PhantomData;
use vstd::prelude::*;

verus! {

/// The elementary functions the tape records.
///
/// Each operation has a spec counterpart naming its result, so that the
/// contracts can say which value each operation computes and records; an
/// implementation is a deterministic function of its arguments.  `one`,
/// `zero` and the arithmetic are those of the real numbers as far as the
/// implementing type can represent them.
pub trait Scalar: Copy + Sized {
    spec fn spec_zero() -> Self;

    spec fn spec_one() -> Self;

    spec fn spec_plus(self, o: Self) -> Self;

    spec fn spec_minus(self, o: Self) -> Self;

    spec fn spec_times(self, o: Self) -> Self;

    spec fn spec_neg(self) -> Self;

    spec fn spec_recip(self) -> Self;

    spec fn spec_sqrt(self) -> Self;

    spec fn spec_sin(self) -> Self;

    spec fn spec_cos(self) -> Self;

    spec fn spec_exp(self) -> Self;

    spec fn spec_ln(self) -> Self;

    spec fn spec_is_zero(self) -> bool;

    fn zero() -> (r: Self)
        ensures
            r == Self::spec_zero(),
    ;

    fn one() -> (r: Self)
        ensures
            r == Self::spec_one(),
    ;

    fn plus(self, o: Self) -> (r: Self)
        ensures
            r == self.spec_plus(o),
    ;

    fn minus(self, o: Self) -> (r: Self)
        ensures
            r == self.spec_minus(o),
    ;

    fn times(self, o: Self) -> (r: Self)
        ensures
            r == self.spec_times(o),
    ;

    fn neg(self) -> (r: Self)
        ensures
            r == self.spec_neg(),
    ;

    fn recip(self) -> (r: Self)
        ensures
            r == self.spec_recip(),
    ;

    fn sqrt(self) -> (r: Self)
        ensures
            r == self.spec_sqrt(),
    ;

    fn sin(self) -> (r: Self)
        ensures
            r == self.spec_sin(),
    ;

    fn cos(self) -> (r: Self)
        ensures
            r == self.spec_cos(),
    ;

    fn exp(self) -> (r: Self)
        ensures
            r == self.spec_exp(),
    ;

    fn ln(self) -> (r: Self)
        ensures
            r == self.spec_ln(),
    ;

    fn is_zero(self) -> (r: bool)
        ensures
            r == self.spec_is_zero(),
    ;
}

/// Why an operation on handles was refused.  The tape is left unchanged.
#[derive(Clone, Copy, Debug, PartialEq, Eq, Structural)]
pub enum AdError {
    /// A handle names no node of the log the operation was asked of.
    /// (A handle of another log is refused by its type.)
    CrossLog,
    /// The divisor's value is zero.
    DivisionByZero,
}

/// One recorded operation: the operands it depends on, each with the local
/// partial derivative of the node's output with respect to it.
#[derive(Clone, Copy)]
pub enum Node<S> {
    /// An independent input: nothing to propagate into.
    Leaf,
    Unary { dep: usize, weight: S },
    Binary { dep0: usize, weight0: S, dep1: usize, weight1: S },
}

/// The operand `d` is one the node depends on.
pub open spec fn has_dep<S>(n: Node<S>, d: int) -> bool {
    match n {
        Node::Leaf => false,
        Node::Unary { dep, .. } => dep == d,
        Node::Binary { dep0, dep1, .. } => dep0 == d || dep1 == d,
    }
}

/// Every operand of the node recorded at index `i` stands before it.
pub open spec fn deps_before<S>(n: Node<S>, i: int) -> bool {
    match n {
        Node::Leaf => true,
        Node::Unary { dep, .. } => dep < i,
        Node::Binary { dep0, dep1, .. } => dep0 < i && dep1 < i,
    }
}

/// Node `to` contributes to node `from`: a chain of dependencies leads from
/// `from` down to `to` (every node reaches itself).
pub open spec fn reaches<S>(nodes: Seq<Node<S>>, from: int, to: int) -> bool
    decreases from,
{
    if from == to {
        true
    } else if 0 <= to < from < nodes.len() {
        match nodes[from] {
            Node::Leaf => false,
            Node::Unary { dep, .. } => dep < from && reaches(nodes, dep as int, to),
            Node::Binary { dep0, dep1, .. } => (dep0 < from && reaches(nodes, dep0 as int, to)) || (
            dep1 < from && reaches(nodes, dep1 as int, to)),
        }
    } else {
        false
    }
}

/// A node only reaches nodes at or below its own index.
pub proof fn lemma_reaches_below<S>(nodes: Seq<Node<S>>, from: int, to: int)
    requires
        reaches(nodes, from, to),
    ensures
        to <= from,
    decreases from,
{
}

/// Reachability extends along one more dependency.
pub proof fn lemma_reaches_dep<S>(nodes: Seq<Node<S>>, from: int, mid: int, to: int)
    requires
        0 <= to < mid < nodes.len(),
        mid <= from,
        reaches(nodes, from, mid),
        has_dep(nodes[mid], to),
        deps_before(nodes[mid], mid),
    ensures
        reaches(nodes, from, to),
    decreases from,
{
    if from == mid {
        match nodes[mid] {
            Node::Leaf => {},
            Node::Unary { dep, .. } => {
                assert(reaches(nodes, dep as int, to));
            },
            Node::Binary { dep0, dep1, .. } => {
                assert(reaches(nodes, dep0 as int, to) || reaches(nodes, dep1 as int, to));
            },
        }
    } else {
        match nodes[from] {
            Node::Leaf => {},
            Node::Unary { dep, .. } => {
                lemma_reaches_below(nodes, dep as int, mid);
                lemma_reaches_dep(nodes, dep as int, mid, to);
            },
            Node::Binary { dep0, dep1, .. } => {
                if dep0 < from && reaches(nodes, dep0 as int, mid) {
                    lemma_reaches_below(nodes, dep0 as int, mid);
                    lemma_reaches_dep(nodes, dep0 as int, mid, to);
                } else {
                    lemma_reaches_below(nodes, dep1 as int, mid);
                    lemma_reaches_dep(nodes, dep1 as int, mid, to);
                }
            },
        }
    }
}

/// An append-only log of recorded operations.
///
/// Every log is made by [`Tape::new`], which gives it a lifetime `'id` of
/// its own; its handles and gradients carry the same `'id`.  Handles of two
/// different logs therefore have different types, and no operation accepts
/// a handle of one log together with another log or its handles.
pub struct Tape<'id, S> {
    nodes: Vec<Node<S>>,
    brand: PhantomData<&'id mut &'id ()>,
}

/// A handle: the forward value of a node and the node's index in its log.
pub struct Var<'id, S> {
    index: usize,
    value: S,
    brand: PhantomData<&'id mut &'id ()>,
}

impl<'id, S: Copy> Clone for Var<'id, S> {
    fn clone(&self) -> Self {
        *self
    }
}

impl<'id, S: Copy> Copy for Var<'id, S> {}

/// The adjoints of one backward pass, indexed by node.
pub struct Grad<'id, S> {
    derivs: Vec<S>,
    brand: PhantomData<&'id mut &'id ()>,
}

impl<'id, S> Tape<'id, S> {
    pub closed spec fn spec_nodes(&self) -> Seq<Node<S>> {
        self.nodes@
    }

    /// Nodes only depend on nodes recorded before them.
    pub open spec fn wf(&self) -> bool {
        forall|i: int| 0 <= i < self.spec_nodes().len() ==> deps_before(#[trigger] self.spec_nodes()[i], i)
    }

    /// The handle names a node of this log.
    pub open spec fn owns(&self, v: Var<'id, S>) -> bool {
        v.spec_index() < self.spec_nodes().len()
    }

    /// `self` is `old` with `n` appended.
    pub open spec fn appended(&self, old: &Tape<'id, S>, n: Node<S>) -> bool {
        self.spec_nodes() == old.spec_nodes().push(n)
    }
}

impl<S: Scalar> Tape<'static, S> {
    /// Runs `f` on a new, empty log, and returns what `f` returns.  The log
    /// gets a lifetime of its own, which its handles carry.
    pub fn new<R, F: for <'id> FnOnce(Tape<'id, S>) -> R>(f: F) -> R
        requires
            forall|t: Tape<S>| t.spec_nodes().len() == 0 && t.wf() ==> #[trigger] f.requires((t,)),
    {
        let t = Tape { nodes: Vec::new(), brand: PhantomData };
        proof {
            assert(t.spec_nodes().len() == 0 && t.wf());
        }
        f(t)
    }
}

impl<'id, S: Scalar> Tape<'id, S> {
    /// The number of recorded nodes.
    pub fn len(&self) -> (r: usize)
        ensures
            r == self.spec_nodes().len(),
    {
        self.nodes.len()
    }

    /// Whether the handle names a node of this log.
    pub fn holds(&self, v: &Var<'id, S>) -> (r: bool)
        ensures
            r == self.owns(*v),
    {
        v.index < self.nodes.len()
    }

    /// A new independent input with the given value.
    pub fn var(&mut self, value: S) -> (v: Var<'id, S>)
        requires
            old(self).wf(),
        ensures
            final(self).wf(),
            final(self).appended(old(self), Node::Leaf),
            v.spec_index() == old(self).spec_nodes().len(),
            v.spec_value() == value,
    {
        let index = self.push_scalar();
        Var { index, value, brand: PhantomData }
    }

    fn push_scalar(&mut self) -> (r: usize)
        requires
            old(self).wf(),
        ensures
            final(self).wf(),
            final(self).appended(old(self), Node::Leaf),
            r == old(self).spec_nodes().len(),
    {
        let len = self.nodes.len();
        self.nodes.push(Node::Leaf);
        proof {
            assert forall|i: int| 0 <= i < self.nodes@.len() implies deps_before(
                #[trigger] self.spec_nodes()[i],
                i,
            ) by {
                if i < len {
                    assert(self.nodes@[i] == old(self).spec_nodes()[i]);
                }
            }
        }
        len
    }

    fn push_unary(&mut self, dep: usize, weight: S) -> (r: usize)
        requires
            old(self).wf(),
            dep < old(self).spec_nodes().len(),
        ensures
            final(self).wf(),
            final(self).appended(old(self), Node::Unary { dep, weight }),
            r == old(self).spec_nodes().len(),
    {
        let len = self.nodes.len();
        self.nodes.push(Node::Unary { dep, weight });
        proof {
            assert forall|i: int| 0 <= i < self.nodes@.len() implies deps_before(
                #[trigger] self.spec_nodes()[i],
                i,
            ) by {
                if i < len {
                    assert(self.nodes@[i] == old(self).spec_nodes()[i]);
                }
            }
        }
        len
    }

    fn push_binary(&mut self, dep0: usize, weight0: S, dep1: usize, weight1: S) -> (r: usize)
        requires
            old(self).wf(),
            dep0 < old(self).spec_nodes().len(),
            dep1 < old(self).spec_nodes().len(),
        ensures
            final(self).wf(),
            final(self).appended(old(self), Node::Binary { dep0, weight0, dep1, weight1 }),
            r == old(self).spec_nodes().len(),
    {
        let len = self.nodes.len();
        self.nodes.push(Node::Binary { dep0, weight0, dep1, weight1 });
        proof {
            assert forall|i: int| 0 <= i < self.nodes@.len() implies deps_before(
                #[trigger] self.spec_nodes()[i],
                i,
            ) by {
                if i < len {
                    assert(self.nodes@[i] == old(self).spec_nodes()[i]);
                }
            }
        }
        len
    }
}

/// The log `new` is `old` with one unary node on `dep` appended.
pub open spec fn recorded_unary<'id, S>(new: &Tape<'id, S>, old: &Tape<'id, S>, dep: usize) -> bool {
    &&& new.spec_nodes().len() == old.spec_nodes().len() + 1
    &&& new.spec_nodes().drop_last() == old.spec_nodes()
    &&& match new.spec_nodes().last() {
        Node::Unary { dep: d, .. } => d == dep,
        _ => false,
    }
}

/// The log `new` is `old` with one binary node on `dep0` and `dep1` appended.
pub open spec fn recorded_binary<'id, S>(new: &Tape<'id, S>, old: &Tape<'id, S>, dep0: usize, dep1: usize) -> bool {
    &&& new.spec_nodes().len() == old.spec_nodes().len() + 1
    &&& new.spec_nodes().drop_last() == old.spec_nodes()
    &&& match new.spec_nodes().last() {
        Node::Binary { dep0: d0, dep1: d1, .. } => d0 == dep0 && d1 == dep1,
        _ => false,
    }
}

/// The handle `v` stands for the last node of `t`.
pub open spec fn is_last<'id, S>(v: Var<'id, S>, t: &Tape<'id, S>) -> bool {
    v.spec_index() + 1 == t.spec_nodes().len()
}

/// What a refused operation leaves: the same log, and a handle that did not
/// come from it.
pub open spec fn unchanged<'id, S>(new: &Tape<'id, S>, old: &Tape<'id, S>) -> bool {
    new.spec_nodes() == old.spec_nodes()
}

/// The outcome of a unary operation on `x` with result `value` and local
/// derivative `weight`: when `x` belongs to the log, a handle of value
/// `value` to one new node on `x` with that weight; else `CrossLog` and
/// nothing recorded.
pub open spec fn unary_outcome<'id, S>(
    x: Var<'id, S>,
    old: &Tape<'id, S>,
    new: &Tape<'id, S>,
    r: Result<Var<'id, S>, AdError>,
    value: S,
    weight: S,
) -> bool {
    &&& new.wf()
    &&& (old.owns(x) <==> r is Ok)
    &&& match r {
        Ok(v) => recorded_unary(new, old, x.spec_index()) && is_last(v, new) && v.spec_value() == value
            && new.spec_nodes().last() == (Node::Unary { dep: x.spec_index(), weight }),
        Err(e) => !old.owns(x) && e == AdError::CrossLog && unchanged(new, old),
    }
}

/// The outcome of a binary operation on `a` and `b` with result `value` and
/// local derivatives `weight0`, `weight1`: when both belong to the log, a
/// handle of value `value` to one new node on both with those weights; else
/// `CrossLog` and nothing recorded.
pub open spec fn binary_outcome<'id, S>(
    a: Var<'id, S>,
    b: Var<'id, S>,
    old: &Tape<'id, S>,
    new: &Tape<'id, S>,
    r: Result<Var<'id, S>, AdError>,
    value: S,
    weight0: S,
    weight1: S,
) -> bool {
    &&& new.wf()
    &&& (old.owns(a) && old.owns(b) <==> r is Ok)
    &&& match r {
        Ok(v) => recorded_binary(new, old, a.spec_index(), b.spec_index()) && is_last(v, new)
            && v.spec_value() == value && new.spec_nodes().last() == (Node::Binary {
            dep0: a.spec_index(),
            weight0,
            dep1: b.spec_index(),
            weight1,
        }),
        Err(e) => !(old.owns(a) && old.owns(b)) && e == AdError::CrossLog && unchanged(new, old),
    }
}

/// A unary operation adds exactly one node to the log when it succeeds and
/// none when it is refused.
pub proof fn lemma_unary_growth<'id, S>(
    x: Var<'id, S>,
    old: &Tape<'id, S>,
    new: &Tape<'id, S>,
    r: Result<Var<'id, S>, AdError>,
    value: S,
    weight: S,
)
    requires
        unary_outcome(x, old, new, r, value, weight),
    ensures
        new.spec_nodes().len() == old.spec_nodes().len() + (if r is Ok {
            1int
        } else {
            0int
        }),
{
}

/// A binary operation adds exactly one node to the log when it succeeds and
/// none when it is refused.
pub proof fn lemma_binary_growth<'id, S>(
    a: Var<'id, S>,
    b: Var<'id, S>,
    old: &Tape<'id, S>,
    new: &Tape<'id, S>,
    r: Result<Var<'id, S>, AdError>,
    value: S,
    weight0: S,
    weight1: S,
)
    requires
        binary_outcome(a, b, old, new, r, value, weight0, weight1),
    ensures
        new.spec_nodes().len() == old.spec_nodes().len() + (if r is Ok {
            1int
        } else {
            0int
        }),
{
}

/// The weight recorded for `sqrt(x)`: `1 / (2 sqrt(x))`.
pub open spec fn sqrt_weight<S: Scalar>(x: S) -> S {
    S::spec_one().spec_plus(S::spec_one()).spec_times(x.spec_sqrt()).spec_recip()
}

/// The weight recorded for `1 / x`: `-1 / x^2`.
pub open spec fn invert_weight<S: Scalar>(x: S) -> S {
    x.spec_times(x).spec_recip().spec_neg()
}

impl<'id, S: Scalar> Var<'id, S> {
    fn unary(self, t: &mut Tape<'id, S>, value: S, weight: S) -> (r: Result<Var<'id, S>, AdError>)
        requires
            old(t).wf(),
        ensures
            unary_outcome(self, old(t), final(t), r, value, weight),
    {
        if !t.holds(&self) {
            return Err(AdError::CrossLog);
        }
        let index = t.push_unary(self.index, weight);
        proof {
            assert(t.spec_nodes().drop_last() =~= old(t).spec_nodes());
        }
        Ok(Var { index, value, brand: PhantomData })
    }

    fn binary(self, other: Var<'id, S>, t: &mut Tape<'id, S>, value: S, weight0: S, weight1: S) -> (r: Result<
        Var<'id, S>,
        AdError,
    >)
        requires
            old(t).wf(),
        ensures
            binary_outcome(self, other, old(t), final(t), r, value, weight0, weight1),
    {
        if !t.holds(&self) || !t.holds(&other) {
            return Err(AdError::CrossLog);
        }
        let index = t.push_binary(self.index, weight0, other.index, weight1);
        proof {
            assert(t.spec_nodes().drop_last() =~= old(t).spec_nodes());
        }
        Ok(Var { index, value, brand: PhantomData })
    }

    /// `1 / x`, recording `-1 / x^2`.
    fn invert(self, t: &mut Tape<'id, S>) -> (r: Result<Var<'id, S>, AdError>)
        requires
            old(t).wf(),
        ensures
            unary_outcome(
                self,
                old(t),
                final(t),
                r,
                self.spec_value().spec_recip(),
                invert_weight(self.spec_value()),
            ),
    {
        let x = self.value;
        self.unary(t, x.recip(), x.times(x).recip().neg())
    }

    /// `sqrt(x)`, recording `1 / (2 sqrt(x))`.
    pub fn sqrt(self, t: &mut Tape<'id, S>) -> (r: Result<Var<'id, S>, AdError>)
        requires
            old(t).wf(),
        ensures
            unary_outcome(
                self,
                old(t),
                final(t),
                r,
                self.spec_value().spec_sqrt(),
                sqrt_weight(self.spec_value()),
            ),
    {
        let root = self.value.sqrt();
        let two = S::one().plus(S::one());
        self.unary(t, root, two.times(root).recip())
    }

    /// `sin(x)`, recording `cos(x)`.
    pub fn sin(self, t: &mut Tape<'id, S>) -> (r: Result<Var<'id, S>, AdError>)
        requires
            old(t).wf(),
        ensures
            unary_outcome(
                self,
                old(t),
                final(t),
                r,
                self.spec_value().spec_sin(),
                self.spec_value().spec_cos(),
            ),
    {
        self.unary(t, self.value.sin(), self.value.cos())
    }

    /// `cos(x)`, recording `-sin(x)`.
    pub fn cos(self, t: &mut Tape<'id, S>) -> (r: Result<Var<'id, S>, AdError>)
        requires
            old(t).wf(),
        ensures
            unary_outcome(
                self,
                old(t),
                final(t),
                r,
                self.spec_value().spec_cos(),
                self.spec_value().spec_sin().spec_neg(),
            ),
    {
        self.unary(t, self.value.cos(), self.value.sin().neg())
    }

    /// `e^x`, recording `e^x`.
    pub fn exp(self, t: &mut Tape<'id, S>) -> (r: Result<Var<'id, S>, AdError>)
        requires
            old(t).wf(),
        ensures
            unary_outcome(
                self,
                old(t),
                final(t),
                r,
                self.spec_value().spec_exp(),
                self.spec_value().spec_exp(),
            ),
    {
        let e = self.value.exp();
        self.unary(t, e, e)
    }

    /// `ln(x)`, recording `1 / x`.  A non-positive `x` is no error: the
    /// scalar type decides what its logarithm is.
    pub fn log(self, t: &mut Tape<'id, S>) -> (r: Result<Var<'id, S>, AdError>)
        requires
            old(t).wf(),
        ensures
            unary_outcome(
                self,
                old(t),
                final(t),
                r,
                self.spec_value().spec_ln(),
                self.spec_value().spec_recip(),
            ),
    {
        self.unary(t, self.value.ln(), self.value.recip())
    }

    /// `x + y`, recording one for both operands.
    pub fn add(self, other: Var<'id, S>, t: &mut Tape<'id, S>) -> (r: Result<Var<'id, S>, AdError>)
        requires
            old(t).wf(),
        ensures
            binary_outcome(
                self,
                other,
                old(t),
                final(t),
                r,
                self.spec_value().spec_plus(other.spec_value()),
                S::spec_one(),
                S::spec_one(),
            ),
    {
        self.binary(other, t, self.value.plus(other.value), S::one(), S::one())
    }

    /// `x - y`.  Both operands are recorded with weight one, as for `add`: the
    /// partial derivative with respect to `y` is taken as `+1`, not `-1`.
    pub fn sub(self, other: Var<'id, S>, t: &mut Tape<'id, S>) -> (r: Result<Var<'id, S>, AdError>)
        requires
            old(t).wf(),
        ensures
            binary_outcome(
                self,
                other,
                old(t),
                final(t),
                r,
                self.spec_value().spec_minus(other.spec_value()),
                S::spec_one(),
                S::spec_one(),
            ),
    {
        let one = S::one();
        self.binary(other, t, self.value.minus(other.value), one, one)
    }

    /// `x * y`, recording `y` for `x` and `x` for `y`.
    pub fn mul(self, other: Var<'id, S>, t: &mut Tape<'id, S>) -> (r: Result<Var<'id, S>, AdError>)
        requires
            old(t).wf(),
        ensures
            binary_outcome(
                self,
                other,
                old(t),
                final(t),
                r,
                self.spec_value().spec_times(other.spec_value()),
                other.spec_value(),
                self.spec_value(),
            ),
    {
        self.binary(other, t, self.value.times(other.value), other.value, self.value)
    }

    /// `x / y`, recorded as `x * (1 / y)`: two nodes, the inverse of `y` and
    /// the product.  Refused, with nothing recorded, with `CrossLog` when
    /// either handle is not of this log, else with `DivisionByZero` when `y`
    /// is zero.
    pub fn div(self, other: Var<'id, S>, t: &mut Tape<'id, S>) -> (r: Result<Var<'id, S>, AdError>)
        requires
            old(t).wf(),
        ensures
            final(t).wf(),
            !(old(t).owns(self) && old(t).owns(other)) ==> r == Err::<Var<'id, S>, AdError>(
                AdError::CrossLog,
            ),
            old(t).owns(self) && old(t).owns(other) && other.spec_value().spec_is_zero() ==> r
                == Err::<Var<'id, S>, AdError>(AdError::DivisionByZero),
            old(t).owns(self) && old(t).owns(other) && !other.spec_value().spec_is_zero() ==> r is Ok,
            r is Err ==> unchanged(final(t), old(t)),
            r matches Ok(v) ==> {
                let n = old(t).spec_nodes().len();
                let inv = other.spec_value().spec_recip();
                &&& is_last(v, final(t))
                &&& v.spec_value() == self.spec_value().spec_times(inv)
                &&& final(t).spec_nodes().len() == n + 2
                &&& final(t).spec_nodes().subrange(0, n as int) == old(t).spec_nodes()
                &&& final(t).spec_nodes()[n as int] == (Node::Unary {
                    dep: other.spec_index(),
                    weight: invert_weight(other.spec_value()),
                })
                &&& final(t).spec_nodes()[n + 1int] == (Node::Binary {
                    dep0: self.spec_index(),
                    weight0: inv,
                    dep1: n as usize,
                    weight1: self.spec_value(),
                })
            },
    {
        if !t.holds(&self) || !t.holds(&other) {
            return Err(AdError::CrossLog);
        }
        if other.value.is_zero() {
            return Err(AdError::DivisionByZero);
        }
        let ghost t0 = *t;
        let inv = match other.invert(t) {
            Ok(v) => v,
            Err(e) => return Err(e),
        };
        let ghost t1 = *t;
        let r = self.mul(inv, t);
        proof {
            assert(t1.spec_nodes().drop_last() == t0.spec_nodes());
            assert(t.spec_nodes().drop_last() == t1.spec_nodes());
            assert(t.spec_nodes().subrange(0, t0.spec_nodes().len() as int) =~= t0.spec_nodes());
            assert(t.spec_nodes()[t0.spec_nodes().len() as int] == t1.spec_nodes().last());
        }
        r
    }
}

/// The state of a backward pass: the adjoint of each node, and whether the
/// node contributes to the seed (has been reached from it).
pub type PassState<S> = (Seq<S>, Seq<bool>);

/// Adds `weight * d` into the adjoint of `dep` and marks `dep` reached.
pub open spec fn accumulate<S: Scalar>(st: PassState<S>, dep: usize, weight: S, d: S) -> PassState<S> {
    (st.0.update(dep as int, st.0[dep as int].spec_plus(weight.spec_times(d))), st.1.update(dep as int, true))
}

/// Propagates the adjoint `d` of a node into its operands, first into the
/// first operand and then into the second.
pub open spec fn propagate<S: Scalar>(n: Node<S>, st: PassState<S>, d: S) -> PassState<S> {
    match n {
        Node::Leaf => st,
        Node::Unary { dep, weight } => accumulate(st, dep, weight, d),
        Node::Binary { dep0, weight0, dep1, weight1 } => accumulate(
            accumulate(st, dep0, weight0, d),
            dep1,
            weight1,
            d,
        ),
    }
}

/// The state of the backward pass over `nodes` seeded at `seed` once the
/// nodes from `seed` down to `i` have been visited.  It starts with adjoint
/// one at the seed and zero elsewhere; a visited node that has been reached
/// propagates its adjoint, and one that has not is skipped.
pub open spec fn pass<S: Scalar>(nodes: Seq<Node<S>>, seed: int, i: int) -> PassState<S>
    decreases seed + 1 - i,
{
    if i > seed {
        (
            Seq::new(nodes.len(), |j: int| S::spec_zero()).update(seed, S::spec_one()),
            Seq::new(nodes.len(), |j: int| false).update(seed, true),
        )
    } else {
        let st = pass(nodes, seed, i + 1);
        if st.1[i] {
            propagate(nodes[i], st, st.0[i])
        } else {
            st
        }
    }
}

/// The adjoints of every node with respect to node `seed`.
pub open spec fn backward<S: Scalar>(nodes: Seq<Node<S>>, seed: int) -> Seq<S> {
    pass(nodes, seed, 0).0
}

/// The backward pass is a function of the log and the seed alone: logs with
/// equal nodes give equal adjoints, whichever run recorded them.
pub proof fn lemma_backward_deterministic<S: Scalar>(n1: Seq<Node<S>>, n2: Seq<Node<S>>, seed: int)
    requires
        n1 == n2,
    ensures
        backward(n1, seed) == backward(n2, seed),
{
}

/// What the adjoints of a pass seeded at `seed` over `nodes` satisfy: one for
/// each node, one at the seed, and zero at every node that does not
/// contribute to the seed.
pub open spec fn seeded<S: Scalar>(derivs: Seq<S>, nodes: Seq<Node<S>>, seed: int) -> bool {
    &&& derivs.len() == nodes.len()
    &&& derivs[seed] == S::spec_one()
    &&& forall|k: int|
        0 <= k < nodes.len() && !reaches(nodes, seed, k) ==> #[trigger] derivs[k] == S::spec_zero()
}

impl<'id, S: Scalar> Var<'id, S> {
    /// The backward pass: the adjoint of this handle's node with respect to
    /// every node of the log as it stands now.  Nodes are visited from this
    /// handle's index down to zero; each one that contributes to this handle
    /// adds its weighted adjoint into its operands.
    pub fn grad(&self, t: &Tape<'id, S>) -> (r: Result<Grad<'id, S>, AdError>)
        requires
            t.wf(),
        ensures
            match r {
                Ok(g) => t.owns(*self) && g.spec_derivs() == backward(
                    t.spec_nodes(),
                    self.spec_index() as int,
                ) && seeded(g.spec_derivs(), t.spec_nodes(), self.spec_index() as int),
                Err(e) => !t.owns(*self) && e == AdError::CrossLog,
            },
    {
        if !t.holds(self) {
            return Err(AdError::CrossLog);
        }
        let n = t.nodes.len();
        let zero = S::zero();
        let one = S::one();
        let mut derivs: Vec<S> = Vec::new();
        let mut reached: Vec<bool> = Vec::new();
        let mut k: usize = 0;
        while k < n
            invariant
                k <= n,
                zero == S::spec_zero(),
                derivs@ == Seq::new(k as nat, |j: int| zero),
                reached@ == Seq::new(k as nat, |j: int| false),
            decreases n - k,
        {
            derivs.push(zero);
            reached.push(false);
            k += 1;
            proof {
                assert(derivs@ =~= Seq::new(k as nat, |j: int| zero));
                assert(reached@ =~= Seq::new(k as nat, |j: int| false));
            }
        }
        let seed = self.index;
        derivs.set(seed, one);
        reached.set(seed, true);
        let ghost nodes = t.spec_nodes();
        let mut i: usize = seed + 1;
        proof {
            assert(derivs@ =~= pass(nodes, seed as int, seed + 1).0);
            assert(reached@ =~= pass(nodes, seed as int, seed + 1).1);
        }
        while i > 0
            invariant
                t.wf(),
                nodes == t.spec_nodes(),
                n == nodes.len(),
                seed < n,
                i <= seed + 1,
                zero == S::spec_zero(),
                one == S::spec_one(),
                derivs@ == pass(nodes, seed as int, i as int).0,
                reached@ == pass(nodes, seed as int, i as int).1,
                derivs.len() == n,
                reached.len() == n,
                derivs@[seed as int] == one,
                forall|j: int| 0 <= j < n && #[trigger] reached@[j] ==> reaches(nodes, seed as int, j),
                forall|j: int| 0 <= j < n && !#[trigger] reached@[j] ==> derivs@[j] == zero,
            decreases i,
        {
            i -= 1;
            if reached[i] {
                let d = derivs[i];
                proof {
                    assert(deps_before(nodes[i as int], i as int));
                }
                match t.nodes[i] {
                    Node::Leaf => {},
                    Node::Unary { dep, weight } => {
                        proof {
                            lemma_reaches_dep(nodes, seed as int, i as int, dep as int);
                        }
                        let cur = derivs[dep];
                        derivs.set(dep, cur.plus(weight.times(d)));
                        reached.set(dep, true);
                    },
                    Node::Binary { dep0, weight0, dep1, weight1 } => {
                        proof {
                            lemma_reaches_dep(nodes, seed as int, i as int, dep0 as int);
                            lemma_reaches_dep(nodes, seed as int, i as int, dep1 as int);
                        }
                        let cur0 = derivs[dep0];
                        derivs.set(dep0, cur0.plus(weight0.times(d)));
                        reached.set(dep0, true);
                        let cur1 = derivs[dep1];
                        derivs.set(dep1, cur1.plus(weight1.times(d)));
                        reached.set(dep1, true);
                    },
                }
            }
            proof {
                assert(derivs@ =~= pass(nodes, seed as int, i as int).0);
                assert(reached@ =~= pass(nodes, seed as int, i as int).1);
            }
        }
        let g = Grad { derivs, brand: PhantomData };
        proof {
            assert forall|j: int|
                0 <= j < n && !reaches(nodes, seed as int, j) implies #[trigger] g.spec_derivs()[j]
                == S::spec_zero() by {
                if reached@[j] {
                }
            }
        }
        Ok(g)
    }
}

impl<'id, S> Var<'id, S> {
    pub closed spec fn spec_index(&self) -> usize {
        self.index
    }

    pub closed spec fn spec_value(&self) -> S {
        self.value
    }

    /// The forward value.
    pub fn value(&self) -> (r: S)
        where S: Copy,
        ensures
            r == self.spec_value(),
    {
        self.value
    }

    /// The index of the node this handle stands for.
    pub fn index(&self) -> (r: usize)
        ensures
            r == self.spec_index(),
    {
        self.index
    }
}

impl<'id, S> Grad<'id, S> {
    pub closed spec fn spec_derivs(&self) -> Seq<S> {
        self.derivs@
    }

    /// The adjoint of the handle's node: the partial derivative of the
    /// handle the pass was seeded at with respect to `v`.
    pub fn wrt(&self, v: Var<'id, S>) -> (r: S)
        where S: Copy,
        requires
            v.spec_index() < self.spec_derivs().len(),
        ensures
            r == self.spec_derivs()[v.spec_index() as int],
    {
        self.derivs[v.index]
    }

    /// The number of adjoints: the length of the log when the pass ran.
    pub fn len(&self) -> (r: usize)
        ensures
            r == self.spec_derivs().len(),
    {
        self.derivs.len()
    }
}

} // verus!
