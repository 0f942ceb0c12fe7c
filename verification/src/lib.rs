//! Procedural palette generation: a color model with named scalar inputs,
//! an expression-binding table that resolves each input for a sequence
//! index, and a batch renderer that turns an index range into packed RGBA
//! colors.

pub mod expr;
pub mod model;
pub mod scalar;
pub mod table;
pub mod vars;

pub use model::ColorModel;
pub use scalar::Scalar;
pub use table::{ExprList, ExprRow};
pub use vars::VarMap;
