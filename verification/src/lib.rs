//! Cards drawn from a template and a dictionary of values: the placeholders
//! of a text field are resolved against the dictionary, the field is fitted
//! to its column, and its lines are stacked from its origin downwards.
//!
//! `token` holds the placeholder grammar and `resolve` what a line resolves
//! to; `fit` holds the ratio by which a field is shrunk; `text` holds the data
//! types and the functions that compute resolved lines, ratios and places.
//! `template`, `style` and `import` hold what the rest of a card's document
//! is computed from. `chars` and `decimal` are the string helpers of all of
//! them.

pub mod chars;
pub mod decimal;
pub mod fit;
pub mod import;
pub mod resolve;
pub mod style;
pub mod template;
pub mod text;
pub mod token;
