//! "LB" interchange: a flat array of person records — parent and spouse
//! relationships expressed as id pointers — read into the model. Families are
//! synthesized from each distinct parent pair and each spouse pointer.

pub mod record;
pub mod plan;
