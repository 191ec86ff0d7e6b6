//! Ordinary least squares fitting of a straight line to exact fixed-point observations.
//!
//! Every statistic of a fit is an exact fraction, so a fit is a function of the
//! multiset of observations alone, and its algebraic properties are proved here.
mod arith;
pub mod dataset;
pub mod laws;
pub mod model;
pub mod observation;
pub mod ratio;
pub mod report;
pub mod sums;

pub use dataset::physics_ball_drop_experiment;
pub use model::{compute_model, FitError, LinearModel};
pub use observation::Observation;
pub use ratio::Ratio;
pub use report::{prediction_series, PredictionPoint};

