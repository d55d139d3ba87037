use autograd::tape::{AdError, Scalar, Tape};

#[derive(Clone, Copy, Debug, PartialEq)]
struct F(f64);

impl Scalar for F {
    fn spec_zero() -> F {
        F::zero()
    }

    fn spec_one() -> F {
        F::one()
    }

    fn spec_plus(self, o: F) -> F {
        self.plus(o)
    }

    fn spec_minus(self, o: F) -> F {
        self.minus(o)
    }

    fn spec_times(self, o: F) -> F {
        self.times(o)
    }

    fn spec_neg(self) -> F {
        self.neg()
    }

    fn spec_recip(self) -> F {
        self.recip()
    }

    fn spec_sqrt(self) -> F {
        Scalar::sqrt(self)
    }

    fn spec_sin(self) -> F {
        Scalar::sin(self)
    }

    fn spec_cos(self) -> F {
        Scalar::cos(self)
    }

    fn spec_exp(self) -> F {
        Scalar::exp(self)
    }

    fn spec_ln(self) -> F {
        self.ln()
    }

    fn spec_is_zero(self) -> bool {
        self.is_zero()
    }

    fn zero() -> F {
        F(0.0)
    }

    fn one() -> F {
        F(1.0)
    }

    fn plus(self, o: F) -> F {
        F(self.0 + o.0)
    }

    fn minus(self, o: F) -> F {
        F(self.0 - o.0)
    }

    fn times(self, o: F) -> F {
        F(self.0 * o.0)
    }

    fn neg(self) -> F {
        F(-self.0)
    }

    fn recip(self) -> F {
        F(1.0 / self.0)
    }

    fn sqrt(self) -> F {
        F(self.0.sqrt())
    }

    fn sin(self) -> F {
        F(self.0.sin())
    }

    fn cos(self) -> F {
        F(self.0.cos())
    }

    fn exp(self) -> F {
        F(self.0.exp())
    }

    fn ln(self) -> F {
        F(self.0.ln())
    }

    fn is_zero(self) -> bool {
        self.0 == 0.0
    }
}

#[test]
fn x_times_y_plus_sin_x() {
    Tape::new(|mut t| {
        let x = t.var(F(0.5));
        let y = t.var(F(4.2));
        let xy = x.mul(y, &mut t).unwrap();
        let sx = x.sin(&mut t).unwrap();
        let z = xy.add(sx, &mut t).unwrap();
        let grad = z.grad(&t).unwrap();
        assert!((z.value().0 - 2.579425538604203).abs() <= 1e-15);
        assert!((grad.wrt(x).0 - (y.value().0 + x.value().0.cos())).abs() <= 1e-15);
        assert!((grad.wrt(y).0 - x.value().0).abs() <= 1e-15);
    })
}

#[test]
fn x_minus_x_div_by_y() {
    Tape::new(|mut t| {
        let x = t.var(F(1.0));
        let y = t.var(F(4.0));
        let q = x.div(y, &mut t).unwrap();
        let z = x.sub(q, &mut t).unwrap();
        let grad = z.grad(&t).unwrap();
        assert!((z.value().0 - 0.75).abs() <= 1e-15);
        assert!((grad.wrt(x).0 - 1.25).abs() <= 1e-15);
        assert!((grad.wrt(y).0 - (-0.0625)).abs() <= 1e-15);
    })
}

#[test]
fn exp_x_plus_ln_y() {
    Tape::new(|mut t| {
        let x = t.var(F(1.0));
        let y = t.var(F(3.0));
        let ex = x.exp(&mut t).unwrap();
        let ly = y.log(&mut t).unwrap();
        let z = ex.add(ly, &mut t).unwrap();
        let grad = z.grad(&t).unwrap();
        assert!((z.value().0 - 3.8168941171271547).abs() <= 1e-15);
        assert!((grad.wrt(x).0 - 2.718281828459045).abs() <= 1e-15);
        assert!((grad.wrt(y).0 - 0.333333333333333).abs() <= 1e-15);
    })
}

#[test]
fn sqrt_and_cos_derivatives() {
    Tape::new(|mut t| {
        let x = t.var(F(4.0));
        let r = x.sqrt(&mut t).unwrap();
        assert_eq!(r.value(), F(2.0));
        assert_eq!(r.grad(&t).unwrap().wrt(x), F(0.25));
        let c = x.cos(&mut t).unwrap();
        let g = c.grad(&t).unwrap();
        assert_eq!(g.wrt(x), F(-(4.0f64.sin())));
    })
}

#[test]
fn seed_is_one_and_unreached_leaf_is_zero() {
    Tape::new(|mut t| {
        let x = t.var(F(2.0));
        let y = t.var(F(5.0));
        let w = t.var(F(-3.0));
        let z = x.mul(y, &mut t).unwrap();
        let grad = z.grad(&t).unwrap();
        assert_eq!(grad.wrt(z), F(1.0));
        assert_eq!(grad.wrt(w), F(0.0));
        assert_eq!(grad.wrt(x), F(5.0));
        assert_eq!(grad.wrt(y), F(2.0));
    })
}

#[test]
fn later_nodes_do_not_change_a_gradient() {
    Tape::new(|mut t| {
        let x = t.var(F(2.0));
        let z = x.exp(&mut t).unwrap();
        let grad = z.grad(&t).unwrap();
        let _later = z.mul(x, &mut t).unwrap();
        assert_eq!(grad.len(), 2);
        assert_eq!(t.len(), 3);
        assert_eq!(grad.wrt(x), F(2.0f64.exp()));
    })
}

#[test]
fn division_by_zero_leaves_log_unchanged() {
    Tape::new(|mut t| {
        let x = t.var(F(1.0));
        let y = t.var(F(0.0));
        assert_eq!(t.len(), 2);
        assert_eq!(x.div(y, &mut t).err(), Some(AdError::DivisionByZero));
        assert_eq!(t.len(), 2);
    })
}

#[test]
fn division_records_two_nodes() {
    Tape::new(|mut t| {
        let x = t.var(F(3.0));
        let y = t.var(F(2.0));
        let q = x.div(y, &mut t).unwrap();
        assert_eq!(t.len(), 4);
        assert_eq!(q.index(), 3);
        assert_eq!(q.value(), F(1.5));
    })
}

#[test]
fn logs_are_independent() {
    let (n, v) = Tape::new(|mut a| {
        let x = a.var(F(1.0));
        Tape::new(|mut b| {
            let y = b.var(F(2.0));
            let z = y.add(y, &mut b).unwrap();
            assert_eq!(a.len(), 1);
            assert_eq!(b.len(), 2);
            (b.len(), z.value())
        });
        let w = x.add(x, &mut a).unwrap();
        (a.len(), w.value())
    });
    assert_eq!((n, v), (2, F(2.0)));
}

#[test]
fn log_grows_by_one_per_operation() {
    Tape::new(|mut t| {
        assert_eq!(t.len(), 0);
        let x = t.var(F(0.3));
        assert_eq!(t.len(), 1);
        let s = x.sin(&mut t).unwrap();
        assert_eq!(t.len(), 2);
        let c = x.cos(&mut t).unwrap();
        assert_eq!(t.len(), 3);
        let p = s.add(c, &mut t).unwrap();
        assert_eq!(t.len(), 4);
        assert_eq!(p.index(), 3);
    })
}

#[test]
fn subtraction_records_plus_one_for_both_operands() {
    Tape::new(|mut t| {
        let x = t.var(F(5.0));
        let y = t.var(F(2.0));
        let z = x.sub(y, &mut t).unwrap();
        assert_eq!(z.value(), F(3.0));
        let grad = z.grad(&t).unwrap();
        assert_eq!(grad.wrt(x), F(1.0));
        assert_eq!(grad.wrt(y), F(1.0));
    })
}

fn sample_run() -> (u64, u64, u64) {
    Tape::new(|mut t| {
        let x = t.var(F(0.7));
        let y = t.var(F(1.9));
        let a = x.mul(y, &mut t).unwrap();
        let b = a.exp(&mut t).unwrap();
        let z = b.div(y, &mut t).unwrap();
        let g = z.grad(&t).unwrap();
        (z.value().0.to_bits(), g.wrt(x).0.to_bits(), g.wrt(y).0.to_bits())
    })
}

#[test]
fn queries_and_runs_are_reproducible() {
    assert_eq!(sample_run(), sample_run());
    Tape::new(|mut t| {
        let x = t.var(F(0.7));
        let z = x.log(&mut t).unwrap();
        let g = z.grad(&t).unwrap();
        assert_eq!(g.wrt(x).0.to_bits(), g.wrt(x).0.to_bits());
    })
}

#[test]
fn negative_sqrt_gives_nan_not_an_error() {
    Tape::new(|mut t| {
        let x = t.var(F(-1.0));
        let r = x.sqrt(&mut t).unwrap();
        assert!(r.value().0.is_nan());
    })
}

#[test]
fn division_by_nonzero_succeeds_and_zero_fails_first() {
    Tape::new(|mut t| {
        let x = t.var(F(6.0));
        let y = t.var(F(-0.0));
        assert_eq!(x.div(y, &mut t).err(), Some(AdError::DivisionByZero));
        assert_eq!(t.len(), 2);
        let w = t.var(F(3.0));
        let q = x.div(w, &mut t).unwrap();
        assert_eq!(q.value(), F(6.0 * (1.0 / 3.0)));
        let g = q.grad(&t).unwrap();
        assert_eq!(g.wrt(x), F(1.0 / 3.0));
        assert_eq!(g.wrt(w), F(6.0 * -(1.0 / 9.0)));
    })
}
