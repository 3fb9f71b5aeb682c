//! A proportional-integral-derivative controller in fixed point.
use vstd::prelude::*;
use crate::ONE;
use crate::arith::floor_div;
use crate::state::{sat, LIMIT, MAX_DT};

verus! {

/// Gains and memory of a PID controller.
pub struct PID {
    kp: i64,
    ki: i64,
    kd: i64,
    last_error: Option<i64>,
    integral: i64,
}

/// What a PID controller holds.
pub struct PidModel {
    pub kp: int,
    pub ki: int,
    pub kd: int,
    pub last_error: Option<i64>,
    pub integral: int,
}

impl PidModel {
    pub open spec fn wf(self) -> bool {
        &&& -LIMIT <= self.kp <= LIMIT
        &&& -LIMIT <= self.ki <= LIMIT
        &&& -LIMIT <= self.kd <= LIMIT
        &&& -LIMIT <= self.integral <= LIMIT
        &&& (self.last_error matches Some(e) ==> -LIMIT <= e <= LIMIT)
    }

    /// The integral after accumulating `error` over `dt`.
    pub open spec fn next_integral(self, error: int, dt: int) -> int {
        sat(self.integral + error * dt / (ONE as int))
    }

    /// The rate of change of the error since the last call; 0 on the first.
    pub open spec fn derivative(self, error: int, dt: int) -> int {
        match self.last_error {
            Some(last) => sat((error - last) * ONE / dt),
            None => 0,
        }
    }

    /// The controller's output for `error` after `dt`.
    pub open spec fn output(self, error: int, dt: int) -> int {
        sat((self.kp * error + self.ki * self.next_integral(error, dt) + self.kd * self.derivative(error, dt))
            / (ONE as int))
    }
}

impl View for PID {
    type V = PidModel;

    closed spec fn view(&self) -> PidModel {
        PidModel {
            kp: self.kp as int,
            ki: self.ki as int,
            kd: self.kd as int,
            last_error: self.last_error,
            integral: self.integral as int,
        }
    }
}

/// `v` held within `-LIMIT..=LIMIT`.
fn saturate(v: i128) -> (r: i64)
    ensures
        r == sat(v as int),
{
    if v < -(LIMIT as i128) {
        -LIMIT
    } else if v > LIMIT as i128 {
        LIMIT
    } else {
        v as i64
    }
}

impl PID {
    #[verifier::type_invariant]
    spec fn inv(self) -> bool {
        self@.wf()
    }

    /// A controller with the given gains (held within `-LIMIT..=LIMIT`),
    /// no memory of earlier errors and an empty integral.
    pub fn new(kp: i64, ki: i64, kd: i64) -> (r: PID)
        ensures
            r@ == (PidModel {
                kp: sat(kp as int),
                ki: sat(ki as int),
                kd: sat(kd as int),
                last_error: None,
                integral: 0,
            }),
    {
        PID {
            kp: saturate(kp as i128),
            ki: saturate(ki as i128),
            kd: saturate(kd as i128),
            last_error: None,
            integral: 0,
        }
    }

    /// Feeds the error `error` measured `dt` after the previous one and
    /// returns the weighted sum of the error, its integral and its rate of
    /// change. The error is held within `-LIMIT..=LIMIT`.
    pub fn output(&mut self, error: i64, dt: i64) -> (r: i64)
        requires
            0 < dt <= MAX_DT,
        ensures
            r == old(self)@.output(sat(error as int), dt as int),
            final(self)@ == (PidModel {
                integral: old(self)@.next_integral(sat(error as int), dt as int),
                last_error: Some(sat(error as int) as i64),
                ..old(self)@
            }),
    {
        proof {
            use_type_invariant(&*self);
        }
        let ghost before = self@;
        let e = saturate(error as i128);
        proof {
            assert(-LIMIT * MAX_DT <= e * dt <= LIMIT * MAX_DT) by (nonlinear_arith)
                requires -LIMIT <= e <= LIMIT, 0 < dt <= MAX_DT;
        }
        let integral = saturate(self.integral as i128 + floor_div((e as i128) * (dt as i128), ONE as i128));
        let derivative: i64 = match self.last_error {
            Some(last) => {
                proof {
                    assert(-2 * LIMIT * ONE <= (e - last) * ONE <= 2 * LIMIT * ONE) by (nonlinear_arith)
                        requires -2 * LIMIT <= e - last <= 2 * LIMIT;
                }
                saturate(floor_div((e as i128 - last as i128) * (ONE as i128), dt as i128))
            },
            None => 0,
        };
        proof {
            assert(-LIMIT * LIMIT <= self.kp * e <= LIMIT * LIMIT) by (nonlinear_arith)
                requires -LIMIT <= self.kp <= LIMIT, -LIMIT <= e <= LIMIT;
            assert(-LIMIT * LIMIT <= self.ki * integral <= LIMIT * LIMIT) by (nonlinear_arith)
                requires -LIMIT <= self.ki <= LIMIT, -LIMIT <= integral <= LIMIT;
            assert(-LIMIT * LIMIT <= self.kd * derivative <= LIMIT * LIMIT) by (nonlinear_arith)
                requires -LIMIT <= self.kd <= LIMIT, -LIMIT <= derivative <= LIMIT;
        }
        let sum: i128 = (self.kp as i128) * (e as i128) + (self.ki as i128) * (integral as i128)
            + (self.kd as i128) * (derivative as i128);
        self.integral = integral;
        self.last_error = Some(e);
        saturate(floor_div(sum, ONE as i128))
    }
}

} // verus!
