//! The spatial value: a coordinate of three decimal axes, each within
//! `[0.000, 9999.999]` and exact to the thousandth.

use vstd::prelude::*;
use vstd::arithmetic::div_mod::{
    lemma_div_multiples_vanish_quotient, lemma_fundamental_div_mod, lemma_small_mod,
    lemma_truncate_middle,
};
use crate::error::{GameError, ValidationFault};

verus! {

/// The largest axis value, in thousandths: 9999.999.
pub const MAX_MILLIS: u32 = 9_999_999;

/// Ten to the power `n`.
pub open spec fn pow10(n: nat) -> int
    decreases n,
{
    if n == 0 {
        1
    } else {
        10 * pow10((n - 1) as nat)
    }
}

pub proof fn lemma_pow10_increases(a: nat, b: nat)
    requires
        a <= b,
    ensures
        0 < pow10(a) <= pow10(b),
    decreases b,
{
    if b == 0 {
    } else if a == b {
        lemma_pow10_increases(0, (b - 1) as nat);
    } else {
        lemma_pow10_increases(a, (b - 1) as nat);
    }
}

proof fn lemma_pow10_shift3(k: nat)
    ensures
        pow10(k + 3) == 1000 * pow10(k),
{
    reveal_with_fuel(pow10, 4);
}

proof fn lemma_pow10_38()
    ensures
        pow10(38) == 100_000_000_000_000_000_000_000_000_000_000_000_000,
{
    assert(pow10(10) == 10_000_000_000) by {
        reveal_with_fuel(pow10, 11);
    }
    assert(pow10(20) == 10_000_000_000 * pow10(10)) by {
        reveal_with_fuel(pow10, 11);
    }
    assert(pow10(30) == 10_000_000_000 * pow10(20)) by {
        reveal_with_fuel(pow10, 11);
    }
    assert(pow10(38) == 100_000_000 * pow10(30)) by {
        reveal_with_fuel(pow10, 9);
    }
}

/// `10^k` as a machine integer, for every `k` whose power fits.
fn pow10_exec(k: u32) -> (p: i128)
    requires
        k <= 38,
    ensures
        p == pow10(k as nat),
        0 < p,
{
    let mut p: i128 = 1;
    let mut j: u32 = 0;
    while j < k
        invariant
            j <= k <= 38,
            p == pow10(j as nat),
            0 < p,
        decreases k - j,
    {
        proof {
            lemma_pow10_increases(j as nat, 37);
            lemma_pow10_38();
            assert(pow10(38) == 10 * pow10(37));
        }
        p = p * 10;
        j = j + 1;
    }
    p
}

/// A decimal number as a coordinate axis receives it: `mantissa / 10^scale`.
#[derive(Clone, Copy, Debug, PartialEq, Eq, Structural)]
pub struct AxisValue {
    pub mantissa: i128,
    pub scale: u32,
}

impl AxisValue {
    /// The number lies within `[0, 9999.999]`.
    pub open spec fn in_range(self) -> bool {
        &&& 0 <= self.mantissa
        &&& self.mantissa * 1000 <= 9_999_999 * pow10(self.scale as nat)
    }

    /// The number is a whole count of thousandths: it carries no more than
    /// three fractional digits.
    pub open spec fn is_precise(self) -> bool {
        (self.mantissa * 1000) % pow10(self.scale as nat) == 0
    }

    pub open spec fn is_valid(self) -> bool {
        self.in_range() && self.is_precise()
    }

    /// The number in thousandths, rounded towards minus infinity; exact
    /// where the number is precise.
    pub open spec fn millis(self) -> int {
        (self.mantissa * 1000) / pow10(self.scale as nat)
    }

    /// A precise number is its count of thousandths, with nothing rounded.
    pub proof fn lemma_millis_exact(self)
        requires
            self.is_precise(),
        ensures
            self.millis() * pow10(self.scale as nat) == self.mantissa * 1000,
    {
        let p = pow10(self.scale as nat);
        lemma_pow10_increases(0, self.scale as nat);
        lemma_fundamental_div_mod(self.mantissa * 1000, p);
        assert(p * self.millis() == self.millis() * p) by (nonlinear_arith);
    }

    /// A valid number has between 0 and 9 999 999 thousandths.
    pub proof fn lemma_valid_millis_bounded(self)
        requires
            self.is_valid(),
        ensures
            0 <= self.millis() <= 9_999_999,
    {
        let p = pow10(self.scale as nat);
        let t = self.millis();
        let n = self.mantissa * 1000;
        lemma_pow10_increases(0, self.scale as nat);
        self.lemma_millis_exact();
        assert(0 <= t <= 9_999_999) by (nonlinear_arith)
            requires
                t * p == n,
                0 <= n <= 9_999_999 * p,
                0 < p,
        ;
    }

    /// A count of thousandths as a decimal number of scale three.
    pub fn from_millis(millis: u32) -> (a: AxisValue)
        ensures
            a.mantissa == millis,
            a.scale == 3,
    {
        AxisValue { mantissa: millis as i128, scale: 3 }
    }

    /// A count of thousandths within bounds, written at scale three, is
    /// valid and reads back as the same count.
    pub proof fn lemma_scale_three(self)
        requires
            self.scale == 3,
            0 <= self.mantissa <= 9_999_999,
        ensures
            self.is_valid(),
            self.millis() == self.mantissa,
    {
        reveal_with_fuel(pow10, 4);
        assert(pow10(3) == 1000);
    }

    /// The number in thousandths, or why it is no coordinate axis.
    pub fn to_millis(&self) -> (r: Result<u32, GameError>)
        ensures
            r is Ok <==> self.is_valid(),
            r matches Ok(t) ==> t == self.millis() && t <= MAX_MILLIS && t * pow10(
                self.scale as nat,
            ) == self.mantissa * 1000,
            r == Err::<u32, GameError>(GameError::ValidationError(ValidationFault::OutOfRange))
                <==> !self.in_range(),
            r == Err::<u32, GameError>(GameError::ValidationError(ValidationFault::PrecisionError))
                <==> self.in_range() && !self.is_precise(),
    {
        let m = self.mantissa;
        let s = self.scale;
        proof {
            lemma_pow10_increases(0, s as nat);
        }
        if m < 0 {
            return Err(GameError::ValidationError(ValidationFault::OutOfRange));
        }
        if s <= 3 {
            let f: i128 = if s == 0 {
                1000
            } else if s == 1 {
                100
            } else if s == 2 {
                10
            } else {
                1
            };
            proof {
                reveal_with_fuel(pow10, 4);
                assert(f * pow10(s as nat) == 1000);
            }
            if m > 9_999_999 {
                return Err(GameError::ValidationError(ValidationFault::OutOfRange));
            }
            let t = m * f;
            if t > 9_999_999 {
                return Err(GameError::ValidationError(ValidationFault::OutOfRange));
            }
            proof {
                if self.is_precise() {
                    self.lemma_millis_exact();
                    assert(self.millis() == t);
                }
            }
            Ok(t as u32)
        } else {
            let k = s - 3;
            let ghost pk = pow10(k as nat);
            proof {
                lemma_pow10_shift3(k as nat);
                lemma_pow10_increases(0, k as nat);
                lemma_truncate_middle(m as int, 1000, pk);
                lemma_div_multiples_vanish_quotient(1000, m as int, pk);
                assert((m * 1000) % pow10(s as nat) == 1000 * ((m as int) % pk));
                assert(self.millis() == (m as int) / pk);
                lemma_fundamental_div_mod(m as int, pk);
            }
            if k > 38 {
                proof {
                    lemma_pow10_38();
                    assert(pow10(39) == 10 * pow10(38));
                    lemma_pow10_increases(39, k as nat);
                    if m > 0 {
                        lemma_small_mod(m as nat, pk as nat);
                    }
                }
                if m == 0 {
                    return Ok(0);
                }
                return Err(GameError::ValidationError(ValidationFault::PrecisionError));
            }
            let p = pow10_exec(k);
            let q = m / p;
            let rem = m % p;
            proof {
                assert(m == p * q + rem);
                assert(0 <= rem < p);
                assert(p * q == q * p) by (nonlinear_arith);
                assert(self.in_range() <==> (q < 9_999_999 || (q == 9_999_999 && rem == 0)))
                    by (nonlinear_arith)
                    requires
                        m == q * p + rem,
                        0 <= rem < p,
                        0 <= q,
                        self.in_range() <==> m <= 9_999_999 * p,
                ;
                assert(q * pow10(s as nat) == (q * p) * 1000) by (nonlinear_arith)
                    requires
                        pow10(s as nat) == 1000 * p,
                ;
            }
            if q > 9_999_999 || (q == 9_999_999 && rem != 0) {
                Err(GameError::ValidationError(ValidationFault::OutOfRange))
            } else if rem != 0 {
                Err(GameError::ValidationError(ValidationFault::PrecisionError))
            } else {
                Ok(q as u32)
            }
        }
    }
}

/// What a [`Location`] stands for: its three axes in thousandths.
pub struct Millis {
    pub x: int,
    pub y: int,
    pub z: int,
}

/// A point in space. World-space and instance-space points are both of this
/// type and are kept apart by where they are stored, never mixed by
/// arithmetic: the type offers none.
#[derive(Clone, Copy, Debug, PartialEq, Eq, Structural)]
pub struct Location {
    x_coordinate: u32,
    y_coordinate: u32,
    z_coordinate: u32,
}

impl View for Location {
    type V = Millis;

    closed spec fn view(&self) -> Millis {
        Millis {
            x: self.x_coordinate as int,
            y: self.y_coordinate as int,
            z: self.z_coordinate as int,
        }
    }
}

impl Location {
    /// Every axis lies within `[0.000, 9999.999]`.
    pub open spec fn wf(&self) -> bool {
        &&& 0 <= self@.x <= 9_999_999
        &&& 0 <= self@.y <= 9_999_999
        &&& 0 <= self@.z <= 9_999_999
    }

    /// No axis of `self` exceeds the same axis of `other`.
    pub open spec fn dominated_by(&self, other: &Location) -> bool {
        &&& self@.x <= other@.x
        &&& self@.y <= other@.y
        &&& self@.z <= other@.z
    }

    /// What `parse` returns.
    pub closed spec fn spec_parse(x: AxisValue, y: AxisValue, z: AxisValue) -> Result<
        Location,
        GameError,
    > {
        if !(x.in_range() && y.in_range() && z.in_range()) {
            Err(GameError::ValidationError(ValidationFault::OutOfRange))
        } else if !(x.is_precise() && y.is_precise() && z.is_precise()) {
            Err(GameError::ValidationError(ValidationFault::PrecisionError))
        } else {
            Ok(
                Location {
                    x_coordinate: x.millis() as u32,
                    y_coordinate: y.millis() as u32,
                    z_coordinate: z.millis() as u32,
                },
            )
        }
    }

    /// What `to_axes` returns.
    pub open spec fn spec_axes(&self) -> (AxisValue, AxisValue, AxisValue) {
        (
            AxisValue { mantissa: self@.x as i128, scale: 3 },
            AxisValue { mantissa: self@.y as i128, scale: 3 },
            AxisValue { mantissa: self@.z as i128, scale: 3 },
        )
    }

    /// `spec_parse` fails with `OutOfRange` exactly when an axis is out of
    /// range, with `PrecisionError` exactly when all are in range and one
    /// has excess precision, and otherwise yields the well-formed location
    /// whose axes are the exact thousandths of the three numbers.
    pub proof fn lemma_spec_parse(x: AxisValue, y: AxisValue, z: AxisValue)
        ensures
            Self::spec_parse(x, y, z) is Ok <==> x.is_valid() && y.is_valid() && z.is_valid(),
            Self::spec_parse(x, y, z) == Err::<Location, GameError>(
                GameError::ValidationError(ValidationFault::OutOfRange),
            ) <==> !(x.in_range() && y.in_range() && z.in_range()),
            Self::spec_parse(x, y, z) == Err::<Location, GameError>(
                GameError::ValidationError(ValidationFault::PrecisionError),
            ) <==> x.in_range() && y.in_range() && z.in_range() && !(x.is_precise()
                && y.is_precise() && z.is_precise()),
            Self::spec_parse(x, y, z) matches Ok(loc) ==> loc.wf() && loc@ == (Millis {
                x: x.millis(),
                y: y.millis(),
                z: z.millis(),
            }),
            Self::spec_parse(x, y, z) matches Ok(loc) ==> {
                &&& loc@.x * pow10(x.scale as nat) == x.mantissa * 1000
                &&& loc@.y * pow10(y.scale as nat) == y.mantissa * 1000
                &&& loc@.z * pow10(z.scale as nat) == z.mantissa * 1000
            },
    {
        if x.is_valid() && y.is_valid() && z.is_valid() {
            x.lemma_valid_millis_bounded();
            y.lemma_valid_millis_bounded();
            z.lemma_valid_millis_bounded();
            x.lemma_millis_exact();
            y.lemma_millis_exact();
            z.lemma_millis_exact();
        }
    }

    /// Two locations with the same axes are the same location.
    pub proof fn lemma_view_injective(a: Location, b: Location)
        requires
            a@ == b@,
        ensures
            a == b,
    {
    }

    /// Builds a location from three decimal numbers. Nothing is clamped or
    /// rounded: a number out of range or with excess precision is refused.
    pub fn parse(x: AxisValue, y: AxisValue, z: AxisValue) -> (r: Result<Location, GameError>)
        ensures
            r == Self::spec_parse(x, y, z),
            r is Ok <==> x.is_valid() && y.is_valid() && z.is_valid(),
            r matches Ok(loc) ==> loc.wf() && loc@ == (Millis {
                x: x.millis(),
                y: y.millis(),
                z: z.millis(),
            }),
            r matches Ok(loc) ==> {
                &&& loc@.x * pow10(x.scale as nat) == x.mantissa * 1000
                &&& loc@.y * pow10(y.scale as nat) == y.mantissa * 1000
                &&& loc@.z * pow10(z.scale as nat) == z.mantissa * 1000
            },
            r == Err::<Location, GameError>(GameError::ValidationError(ValidationFault::OutOfRange))
                <==> !(x.in_range() && y.in_range() && z.in_range()),
            r == Err::<Location, GameError>(
                GameError::ValidationError(ValidationFault::PrecisionError),
            ) <==> x.in_range() && y.in_range() && z.in_range() && !(x.is_precise()
                && y.is_precise() && z.is_precise()),
    {
        proof {
            Self::lemma_spec_parse(x, y, z);
        }
        let rx = x.to_millis();
        let ry = y.to_millis();
        let rz = z.to_millis();
        match (rx, ry, rz) {
            (Ok(xm), Ok(ym), Ok(zm)) => Ok(
                Location { x_coordinate: xm, y_coordinate: ym, z_coordinate: zm },
            ),
            _ => {
                let out_of_range = GameError::ValidationError(ValidationFault::OutOfRange);
                let x_out = match rx {
                    Err(e) => e == out_of_range,
                    Ok(_) => false,
                };
                let y_out = match ry {
                    Err(e) => e == out_of_range,
                    Ok(_) => false,
                };
                let z_out = match rz {
                    Err(e) => e == out_of_range,
                    Ok(_) => false,
                };
                if x_out || y_out || z_out {
                    Err(out_of_range)
                } else {
                    Err(GameError::ValidationError(ValidationFault::PrecisionError))
                }
            },
        }
    }

    /// The persisted form: each axis as a decimal number of scale three.
    pub fn to_axes(&self) -> (r: (AxisValue, AxisValue, AxisValue))
        ensures
            r == self.spec_axes(),
    {
        (
            AxisValue::from_millis(self.x_coordinate),
            AxisValue::from_millis(self.y_coordinate),
            AxisValue::from_millis(self.z_coordinate),
        )
    }

    pub fn x_millis(&self) -> (r: u32)
        ensures
            r == self@.x,
    {
        self.x_coordinate
    }

    pub fn y_millis(&self) -> (r: u32)
        ensures
            r == self@.y,
    {
        self.y_coordinate
    }

    pub fn z_millis(&self) -> (r: u32)
        ensures
            r == self@.z,
    {
        self.z_coordinate
    }

    /// Writing a location out and parsing what was written gives the same
    /// location back.
    pub proof fn lemma_round_trip(loc: Location)
        requires
            loc.wf(),
        ensures
            Self::spec_parse(loc.spec_axes().0, loc.spec_axes().1, loc.spec_axes().2) == Ok::<
                Location,
                GameError,
            >(loc),
    {
        let (x, y, z) = loc.spec_axes();
        x.lemma_scale_three();
        y.lemma_scale_three();
        z.lemma_scale_three();
    }

    /// Whatever three numbers parse to, writing the result out and parsing
    /// again yields the identical value.
    pub proof fn lemma_parse_round_trip(x: AxisValue, y: AxisValue, z: AxisValue)
        requires
            Self::spec_parse(x, y, z) is Ok,
        ensures
            ({
                let loc = Self::spec_parse(x, y, z)->Ok_0;
                let (x2, y2, z2) = loc.spec_axes();
                Self::spec_parse(x2, y2, z2) == Self::spec_parse(x, y, z)
            }),
    {
        Self::lemma_spec_parse(x, y, z);
        Self::lemma_round_trip(Self::spec_parse(x, y, z)->Ok_0);
    }

    /// No number outside `[0, 9999.999]` or with more than three fractional
    /// digits ever becomes an axis.
    pub proof fn lemma_parse_rejects(x: AxisValue, y: AxisValue, z: AxisValue)
        requires
            !x.is_valid() || !y.is_valid() || !z.is_valid(),
        ensures
            Self::spec_parse(x, y, z) is Err,
    {
        Self::lemma_spec_parse(x, y, z);
    }
}

} // verus!
