//! Smoothed control parameters.
//!
//! Each control holds an externally set target and a current value that
//! ramps linearly toward the target by at most one fixed step per block,
//! so that host automation never produces audible jumps. Values are Q16
//! fixed point: probabilities and mix live in `[0, Q_ONE]`, grain length
//! bounds are milliseconds scaled by `Q_ONE`.
use vstd::prelude::*;

verus! {

/// Upper bound on any parameter value: 1000 ms in Q16.
pub const PARAM_MAX: i64 = 65536000;

/// One smoothed scalar control.
pub struct SmoothedParam {
    target: i64,
    current: i64,
    step: i64,
    lo: i64,
    hi: i64,
}

/// The mathematical image of a smoothed control.
pub ghost struct ParamV {
    pub target: int,
    pub current: int,
    pub step: int,
    pub lo: int,
    pub hi: int,
}

impl View for SmoothedParam {
    type V = ParamV;

    closed spec fn view(&self) -> ParamV {
        ParamV {
            target: self.target as int,
            current: self.current as int,
            step: self.step as int,
            lo: self.lo as int,
            hi: self.hi as int,
        }
    }
}

/// A well-formed control: target and current sit in the declared range,
/// and everything is bounded so block arithmetic cannot overflow.
pub open spec fn param_ok(p: ParamV) -> bool {
    &&& 0 <= p.lo <= p.hi <= PARAM_MAX
    &&& p.lo <= p.current <= p.hi
    &&& p.lo <= p.target <= p.hi
    &&& 1 <= p.step <= PARAM_MAX
}

/// One smoothing update: move `c` toward `t` by at most `s`, landing
/// exactly on the target once within reach.
pub open spec fn step_toward(c: int, t: int, s: int) -> int {
    if t >= c {
        if c + s <= t {
            c + s
        } else {
            t
        }
    } else {
        if c - s >= t {
            c - s
        } else {
            t
        }
    }
}

/// A control after one smoothing update.
pub open spec fn param_next(p: ParamV) -> ParamV {
    ParamV { current: step_toward(p.current, p.target, p.step), ..p }
}

impl SmoothedParam {
    /// Builds a control, sanitizing the configuration so that the result
    /// is well formed for any arguments.
    pub fn new(lo: i64, hi: i64, initial: i64, step: i64) -> (r: SmoothedParam)
        ensures
            param_ok(r@),
            r@.lo == if lo < 0 {
                0
            } else if lo > PARAM_MAX {
                PARAM_MAX as int
            } else {
                lo as int
            },
            r@.hi == if hi < r@.lo {
                r@.lo
            } else if hi > PARAM_MAX {
                PARAM_MAX as int
            } else {
                hi as int
            },
            r@.target == r@.current,
            r@.current == if initial < r@.lo {
                r@.lo
            } else if initial > r@.hi {
                r@.hi
            } else {
                initial as int
            },
            r@.step == if step < 1 {
                1
            } else if step > PARAM_MAX {
                PARAM_MAX as int
            } else {
                step as int
            },
    {
        let lo_c: i64 = if lo < 0 {
            0
        } else if lo > PARAM_MAX {
            PARAM_MAX
        } else {
            lo
        };
        let hi_c: i64 = if hi < lo_c {
            lo_c
        } else if hi > PARAM_MAX {
            PARAM_MAX
        } else {
            hi
        };
        let init_c: i64 = if initial < lo_c {
            lo_c
        } else if initial > hi_c {
            hi_c
        } else {
            initial
        };
        let step_c: i64 = if step < 1 {
            1
        } else if step > PARAM_MAX {
            PARAM_MAX
        } else {
            step
        };
        SmoothedParam { target: init_c, current: init_c, step: step_c, lo: lo_c, hi: hi_c }
    }

    /// Sets a new target, clamped into the declared range; the current
    /// value is untouched and will ramp there over later updates.
    pub fn set_target(&mut self, t: i64)
        ensures
            final(self)@ == (ParamV {
                target: if t < old(self)@.lo {
                    old(self)@.lo
                } else if t > old(self)@.hi {
                    old(self)@.hi
                } else {
                    t as int
                },
                ..old(self)@
            }),
    {
        self.target = if t < self.lo {
            self.lo
        } else if t > self.hi {
            self.hi
        } else {
            t
        };
    }

    /// Performs one smoothing update and returns the new current value.
    pub fn next_value(&mut self) -> (v: i64)
        requires
            param_ok(old(self)@),
        ensures
            final(self)@ == param_next(old(self)@),
            v == final(self)@.current,
            param_ok(final(self)@),
    {
        if self.target >= self.current {
            let d = self.target - self.current;
            if d <= self.step {
                self.current = self.target;
            } else {
                self.current = self.current + self.step;
            }
        } else {
            let d = self.current - self.target;
            if d <= self.step {
                self.current = self.target;
            } else {
                self.current = self.current - self.step;
            }
        }
        self.current
    }

    /// Jumps the current value straight to the target, as a host does
    /// when (re)starting a session.
    pub fn snap(&mut self)
        ensures
            final(self)@ == (ParamV { current: old(self)@.target, ..old(self)@ }),
    {
        self.current = self.target;
    }

    /// The current smoothed value, without advancing the ramp.
    pub fn current_value(&self) -> (v: i64)
        ensures
            v == self@.current,
    {
        self.current
    }
}

/// The four controls of the engine.
pub struct GranularParams {
    /// Probability, in `[0, Q_ONE]`, of spawning a grain in a block.
    pub density: SmoothedParam,
    /// Smallest grain length, in Q16 milliseconds.
    pub min_ms: SmoothedParam,
    /// Largest grain length, in Q16 milliseconds.
    pub max_ms: SmoothedParam,
    /// Dry/wet balance in `[0, Q_ONE]`: 0 is all dry, `Q_ONE` all wet.
    pub mix: SmoothedParam,
}

/// The mathematical image of the four controls.
pub ghost struct ParamsV {
    pub density: ParamV,
    pub min_ms: ParamV,
    pub max_ms: ParamV,
    pub mix: ParamV,
}

impl View for GranularParams {
    type V = ParamsV;

    open spec fn view(&self) -> ParamsV {
        ParamsV {
            density: self.density@,
            min_ms: self.min_ms@,
            max_ms: self.max_ms@,
            mix: self.mix@,
        }
    }
}

pub open spec fn params_ok(p: ParamsV) -> bool {
    &&& param_ok(p.density)
    &&& param_ok(p.min_ms)
    &&& param_ok(p.max_ms)
    &&& param_ok(p.mix)
}

/// All four controls after the once-per-block smoothing update.
pub open spec fn params_next(p: ParamsV) -> ParamsV {
    ParamsV {
        density: param_next(p.density),
        min_ms: param_next(p.min_ms),
        max_ms: param_next(p.max_ms),
        mix: param_next(p.mix),
    }
}

/// The default control surface: density 0.2, grain lengths between
/// 20 ms and 500 ms, fully wet. Density and mix ramp over a few tens of
/// milliseconds of blocks, the length bounds over the order of a second.
pub open spec fn default_params() -> ParamsV {
    ParamsV {
        density: ParamV { target: 13107, current: 13107, step: 4096, lo: 0, hi: 65536 },
        min_ms: ParamV { target: 1310720, current: 1310720, step: 131072, lo: 65536, hi: 65536000 },
        max_ms: ParamV {
            target: 32768000,
            current: 32768000,
            step: 131072,
            lo: 65536,
            hi: 65536000,
        },
        mix: ParamV { target: 65536, current: 65536, step: 4096, lo: 0, hi: 65536 },
    }
}

impl Default for GranularParams {
    /// The default control surface, as `default_params` lays it out.
    fn default() -> (r: GranularParams)
        ensures
            params_ok(r@),
            r@ == default_params(),
    {
        GranularParams {
            density: SmoothedParam::new(0, 65536, 13107, 4096),
            min_ms: SmoothedParam::new(65536, 65536000, 1310720, 131072),
            max_ms: SmoothedParam::new(65536, 65536000, 32768000, 131072),
            mix: SmoothedParam::new(0, 65536, 65536, 4096),
        }
    }
}

} // verus!
