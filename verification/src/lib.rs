//! Strapdown inertial navigation in fixed-point integer arithmetic.
//!
//! The crate advances a body's position, velocity and attitude in the
//! Earth-centred Earth-fixed frame from one IMU sample to the next, corrects
//! raw samples for the sensors' errors, and converts between ECEF, geodetic
//! and local north-east-down coordinates.
//!
//! Every quantity is a signed 64-bit count of `fixed::ONE`-ths of its unit:
//! metres, metres per second, radians, seconds. Every operation returns the
//! correctly rounded value or reports that a value cannot be stored; none
//! panics. Timestamps count nanoseconds. An angle is held by its sine and
//! cosine, which the caller provides and receives, so the crate itself needs
//! no transcendental function.
//!
//! * `fixed` - the scalars: rounded products, quotients and square roots
//! * `linalg` - three-vectors and 3x3 matrices of them
//! * `constants` - the Earth's rate, the WGS84 ellipsoid, normal gravity
//! * `math` - the skew-symmetric matrix, the remainder, angle wrapping
//! * `types` - measurements, error models, states, angles, the error type
//! * `utilities` - the correction of a measurement for the sensors' errors
//! * `transformations` - ECEF, geodetic and north-east-down coordinates
//! * `strapdown` - the integrator, its drift measure and renormalization
//! * `navigation` - correction and integration behind one entry point

pub mod constants;
pub mod fixed;
pub mod linalg;
pub mod math;
pub mod navigation;
pub mod strapdown;
pub mod transformations;
pub mod types;
pub mod utilities;
